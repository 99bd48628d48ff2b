//! The error taxonomy: every fallible operation of the library returns one of
//! these values; nothing is swallowed inside the library.
use vstd::prelude::*;

verus! {

/// A typed failure identifying exactly which stage of an operation failed.
#[derive(Debug, PartialEq, Eq)]
pub enum Error {
    /// The schema holds no module of the given name.
    UnknownModule,
    /// The module exists but declares no function of the given name.
    UnknownFunction,
    /// The module exists but declares no storage item of the given name.
    UnknownStorageItem,
    /// The module exists but declares no constant of the given name.
    UnknownConstant,
    /// A storage accessor was used against an item of a different declared kind.
    ShapeMismatch,
    /// Truncated or malformed bytes during decoding, or an out-of-range
    /// variant tag.
    CodecError,
    /// The external signer failed to produce a signature.
    SigningError,
    /// The remote node declined a submitted transaction, with its reason text.
    SubmissionRejected(String),
    /// The transport collaborator failed, with its reason text.
    TransportError(String),
}

} // verus!
