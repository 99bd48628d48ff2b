//! The signed-extension data of a transaction: the "signed extra" tuple that
//! travels in the envelope, and the "additional signed" tuple that enters
//! only the signing payload.
use crate::codec::{compact_dec, compact_enc, le_bytes, push_compact, push_le_bytes};
use crate::era::{decode_era, era_dec, era_enc, era_wf, push_era, Era};
use crate::error::Error;
use vstd::prelude::*;

verus! {

/// The signed-extra tuple: mortality window, account nonce and tip, in the
/// exact order the remote node's codec expects.
#[derive(Debug, Clone, Copy, PartialEq, Eq, Structural)]
pub struct GenericExtra {
    pub era: Era,
    pub nonce: u32,
    pub tip: u128,
}

/// A well-formed extra: its era is well formed.
pub open spec fn extra_wf(x: GenericExtra) -> bool {
    era_wf(x.era)
}

/// The wire encoding of the signed-extra tuple: era, compact nonce, compact
/// tip, concatenated.
pub open spec fn extra_enc(x: GenericExtra) -> Seq<u8> {
    era_enc(x.era) + compact_enc(x.nonce as u128) + compact_enc(x.tip)
}

/// Decoding the signed-extra tuple from the front of `s`.
pub open spec fn extra_dec(s: Seq<u8>) -> Option<(GenericExtra, int)> {
    match era_dec(s) {
        Option::Some(e) => match compact_dec(s.skip(e.1)) {
            Option::Some(n) => if n.0 <= u32::MAX {
                match compact_dec(s.skip(e.1 + n.1)) {
                    Option::Some(t) => Some(
                        (
                            GenericExtra { era: e.0, nonce: n.0 as u32, tip: t.0 },
                            e.1 + n.1 + t.1,
                        ),
                    ),
                    Option::None => None,
                }
            } else {
                None
            },
            Option::None => None,
        },
        Option::None => None,
    }
}

impl GenericExtra {
    /// The default extra: valid forever, with the given nonce and tip.
    pub fn immortal_with_nonce_and_tip(nonce: u32, tip: u128) -> (r: GenericExtra)
        ensures
            r == (GenericExtra { era: Era::Immortal, nonce, tip }),
            extra_wf(r),
    {
        GenericExtra { era: Era::Immortal, nonce, tip }
    }

    /// An extra with an explicit mortality window.
    pub fn new(era: Era, nonce: u32, tip: u128) -> (r: GenericExtra)
        requires
            era_wf(era),
        ensures
            r == (GenericExtra { era, nonce, tip }),
            extra_wf(r),
    {
        GenericExtra { era, nonce, tip }
    }
}

/// Exec encoding of the signed-extra tuple, appended to `out`.
pub fn push_extra(out: &mut Vec<u8>, x: &GenericExtra)
    requires
        extra_wf(*x),
    ensures
        final(out)@ == old(out)@ + extra_enc(*x),
{
    push_era(out, &x.era);
    push_compact(out, x.nonce as u128);
    push_compact(out, x.tip);
    assert(final(out)@ =~= old(out)@ + extra_enc(*x));
}

/// Exec decoding of the signed-extra tuple at `pos`.
pub fn decode_extra(bytes: &Vec<u8>, pos: usize) -> (r: Result<(GenericExtra, usize), Error>)
    requires
        pos <= bytes@.len(),
    ensures
        match r {
            Ok(p) => {
                &&& extra_dec(bytes@.skip(pos as int)) == Some((p.0, (p.1 - pos) as int))
                &&& pos <= p.1 <= bytes@.len()
                &&& extra_wf(p.0)
            },
            Err(e) => extra_dec(bytes@.skip(pos as int)) is None && e == Error::CodecError,
        },
{
    let blen: usize = bytes.len();
    let ghost s = bytes@.skip(pos as int);
    let (era, p1) = match decode_era(bytes, pos) {
        Ok(p) => p,
        Err(e) => {
            return Err(e);
        },
    };
    proof {
        assert(bytes@.skip(p1 as int) =~= s.skip(p1 - pos));
    }
    let (nonce_raw, n_used) = match crate::codec::compact_decode(bytes, p1) {
        Ok(p) => p,
        Err(e) => {
            return Err(e);
        },
    };
    if nonce_raw > u32::MAX as u128 {
        return Err(Error::CodecError);
    }
    let p2 = p1 + n_used;
    proof {
        assert(bytes@.skip(p2 as int) =~= s.skip(p2 - pos));
    }
    let (tip, t_used) = match crate::codec::compact_decode(bytes, p2) {
        Ok(p) => p,
        Err(e) => {
            return Err(e);
        },
    };
    Ok((GenericExtra { era, nonce: nonce_raw as u32, tip }, p2 + t_used))
}

/// Round trip for the signed-extra tuple.
pub proof fn lemma_extra_roundtrip(x: GenericExtra, rest: Seq<u8>)
    requires
        extra_wf(x),
    ensures
        extra_dec(extra_enc(x) + rest) == Some((x, extra_enc(x).len() as int)),
{
    let s = extra_enc(x) + rest;
    let tail1 = compact_enc(x.nonce as u128) + (compact_enc(x.tip) + rest);
    assert(s =~= era_enc(x.era) + tail1);
    crate::era::lemma_era_roundtrip(x.era, tail1);
    let e1 = era_enc(x.era).len() as int;
    assert(s.skip(e1) =~= tail1);
    crate::codec::lemma_compact_roundtrip(x.nonce as u128, compact_enc(x.tip) + rest);
    let n1 = compact_enc(x.nonce as u128).len() as int;
    assert(s.skip(e1 + n1) =~= compact_enc(x.tip) + rest);
    crate::codec::lemma_compact_roundtrip(x.tip, rest);
}

/// The additional-signed tuple: protocol versions and the two checkpoint
/// hashes.  Included in the signing payload only, never transmitted.
#[derive(Debug)]
pub struct AdditionalSigned {
    pub spec_version: u32,
    pub transaction_version: u32,
    /// The 32-byte genesis block hash.
    pub genesis_hash: Vec<u8>,
    /// The 32-byte hash of the mortality checkpoint block; the genesis hash
    /// again for an immortal transaction.
    pub checkpoint_hash: Vec<u8>,
}

/// A well-formed additional-signed tuple: both hashes are 32 bytes.
pub open spec fn additional_wf(a: AdditionalSigned) -> bool {
    a.genesis_hash@.len() == 32 && a.checkpoint_hash@.len() == 32
}

/// The encoding of the additional-signed tuple: the two version numbers
/// little-endian, then the two hashes verbatim.
pub open spec fn additional_enc(a: AdditionalSigned) -> Seq<u8> {
    le_bytes(a.spec_version as nat, 4) + le_bytes(a.transaction_version as nat, 4)
        + a.genesis_hash@ + a.checkpoint_hash@
}

/// Exec encoding of the additional-signed tuple, appended to `out`.
pub fn push_additional(out: &mut Vec<u8>, a: &AdditionalSigned)
    ensures
        final(out)@ == old(out)@ + additional_enc(*a),
{
    push_le_bytes(out, a.spec_version as u128, 4);
    push_le_bytes(out, a.transaction_version as u128, 4);
    crate::address::push_all(out, &a.genesis_hash);
    crate::address::push_all(out, &a.checkpoint_hash);
    assert(final(out)@ =~= old(out)@ + additional_enc(*a));
}

} // verus!
