//! Client-side library for a schema-described remote state machine.
//!
//! The library resolves module, function and storage-item names against a
//! runtime-supplied schema ([`metadata`]), encodes values in the node's
//! compact binary format ([`codec`]), derives binary storage addresses
//! ([`address`], [`hashing`]) and pages over them ([`scan`]), assembles
//! transaction envelopes with their mortality window and signing payload
//! ([`era`], [`extra`], [`extrinsic`]), decodes raw state bytes into
//! caller-specified shapes, and ties the pieces to a loaded schema ([`api`],
//! [`hex`]).  All transport and key handling stays with the caller: every
//! function here is a pure computation over plain values, and a single wrong
//! byte would corrupt a transaction, so decoding is proved to invert encoding
//! wherever both directions exist.

pub mod address;
pub mod api;
pub mod codec;
pub mod era;
pub mod error;
pub mod extra;
pub mod extrinsic;
pub mod hashing;
pub mod hex;
pub mod metadata;
pub mod scan;
