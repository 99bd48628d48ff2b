//! The transaction envelope: a version byte whose high bit marks a signed
//! envelope, an optional signature section (sender address, signature,
//! signed-extra tuple) and the opaque encoded call, the whole framed by its
//! compact-encoded length.  Also the signing payload: call, extra and
//! additional-signed tuple concatenated, hashed when it grows past 256 bytes.
use crate::codec::{compact_dec, compact_enc, push_compact};
use crate::error::Error;
use crate::extra::{
    additional_enc, additional_wf, extra_enc, extra_wf, push_additional, push_extra,
    AdditionalSigned, GenericExtra,
};
use crate::hashing;
use crate::hashing::blake2_256_of;
use vstd::prelude::*;

verus! {

/// The version byte of an unsigned envelope: protocol version 4, high bit
/// clear.
pub const UNSIGNED_VERSION_BYTE: u8 = 0x04;

/// The version byte of a signed envelope: protocol version 4, high bit set.
pub const SIGNED_VERSION_BYTE: u8 = 0x84;

/// The sender of a signed envelope: a 32-byte account identifier, encoded
/// behind a one-byte tag.
#[derive(Debug, PartialEq, Eq)]
pub enum GenericAddress {
    Id(Vec<u8>),
}

/// A well-formed address: the identifier is 32 bytes.
pub open spec fn address_wf(a: GenericAddress) -> bool {
    match a {
        GenericAddress::Id(id) => id@.len() == 32,
    }
}

/// The wire encoding of an address: tag `0` then the identifier bytes.
pub open spec fn address_enc(a: GenericAddress) -> Seq<u8> {
    match a {
        GenericAddress::Id(id) => seq![0u8] + id@,
    }
}

/// A signature with its one-byte algorithm tag, matching the signer's key
/// type.
#[derive(Debug, PartialEq, Eq)]
pub enum MultiSignature {
    /// Tag 0, 64 signature bytes.
    Ed25519(Vec<u8>),
    /// Tag 1, 64 signature bytes.
    Sr25519(Vec<u8>),
    /// Tag 2, 65 signature bytes (recoverable).
    Ecdsa(Vec<u8>),
}

/// A well-formed signature: the byte count its algorithm fixes.
pub open spec fn signature_wf(s: MultiSignature) -> bool {
    match s {
        MultiSignature::Ed25519(b) => b@.len() == 64,
        MultiSignature::Sr25519(b) => b@.len() == 64,
        MultiSignature::Ecdsa(b) => b@.len() == 65,
    }
}

/// The wire encoding of a signature: its algorithm tag then its bytes.
pub open spec fn signature_enc(s: MultiSignature) -> Seq<u8> {
    match s {
        MultiSignature::Ed25519(b) => seq![0u8] + b@,
        MultiSignature::Sr25519(b) => seq![1u8] + b@,
        MultiSignature::Ecdsa(b) => seq![2u8] + b@,
    }
}

/// The transaction envelope, protocol version 4.  The call is opaque encoded
/// bytes: the envelope never inspects it.
#[derive(Debug, PartialEq, Eq)]
pub struct UncheckedExtrinsicV4 {
    /// The signature section of a signed envelope: sender address, signature
    /// and signed-extra tuple, in this order.
    pub signature: Option<(GenericAddress, MultiSignature, GenericExtra)>,
    /// The already-encoded call.
    pub function: Vec<u8>,
}

/// A well-formed envelope: each part of the signature section well formed.
pub open spec fn extrinsic_wf(xt: UncheckedExtrinsicV4) -> bool {
    match xt.signature {
        Option::Some(s) => address_wf(s.0) && signature_wf(s.1) && extra_wf(s.2),
        Option::None => true,
    }
}

/// The envelope bytes before framing: the version byte, the signature
/// section when signed, then the call.
pub open spec fn extrinsic_inner_enc(xt: UncheckedExtrinsicV4) -> Seq<u8> {
    match xt.signature {
        Option::Some(s) => seq![SIGNED_VERSION_BYTE] + address_enc(s.0) + signature_enc(s.1)
            + extra_enc(s.2) + xt.function@,
        Option::None => seq![UNSIGNED_VERSION_BYTE] + xt.function@,
    }
}

/// The transmitted form: the inner bytes prefixed by their compact-encoded
/// length.
pub open spec fn extrinsic_enc(xt: UncheckedExtrinsicV4) -> Seq<u8> {
    compact_enc(extrinsic_inner_enc(xt).len() as u128) + extrinsic_inner_enc(xt)
}

/// Envelope versioning: the first inner byte of a signed envelope has its
/// high bit set, that of an unsigned envelope has it clear.
pub proof fn lemma_version_bit(xt: UncheckedExtrinsicV4)
    ensures
        extrinsic_inner_enc(xt)[0] >= 0x80 <==> xt.signature is Some,
        extrinsic_inner_enc(xt)[0] == if xt.signature is Some {
            SIGNED_VERSION_BYTE
        } else {
            UNSIGNED_VERSION_BYTE
        },
{
}

/// The signed/unsigned classification read back from framed envelope bytes:
/// the compact length prefix is skipped, the version byte examined.
pub open spec fn extrinsic_kind_dec(s: Seq<u8>) -> Option<bool> {
    match compact_dec(s) {
        Option::Some(p) => if s.len() > p.1 {
            if s[p.1] == SIGNED_VERSION_BYTE {
                Some(true)
            } else if s[p.1] == UNSIGNED_VERSION_BYTE {
                Some(false)
            } else {
                None
            }
        } else {
            None
        },
        Option::None => None,
    }
}

/// Decoding the classification of an encoded envelope recovers whether it
/// was signed.
pub proof fn lemma_kind_roundtrip(xt: UncheckedExtrinsicV4)
    ensures
        extrinsic_kind_dec(extrinsic_enc(xt)) == Some(xt.signature is Some),
{
    let inner = extrinsic_inner_enc(xt);
    let s = extrinsic_enc(xt);
    crate::codec::lemma_compact_roundtrip(inner.len() as u128, inner);
    let clen = compact_enc(inner.len() as u128).len() as int;
    assert(s.len() == clen + inner.len());
    assert(inner.len() >= 1);
    assert(s[clen] == inner[0]);
    lemma_version_bit(xt);
}

/// Read the signed/unsigned classification of framed envelope bytes; fails
/// with `CodecError` on a truncated frame or an unknown version byte.
pub fn decode_extrinsic_kind(bytes: &Vec<u8>) -> (r: Result<bool, Error>)
    ensures
        match r {
            Ok(signed) => extrinsic_kind_dec(bytes@) == Some(signed),
            Err(e) => extrinsic_kind_dec(bytes@) is None && e == Error::CodecError,
        },
{
    proof {
        assert(bytes@.skip(0) =~= bytes@);
    }
    let (_inner_len, used) = match crate::codec::compact_decode(bytes, 0) {
        Ok(p) => p,
        Err(e) => {
            return Err(e);
        },
    };
    if used < bytes.len() {
        let version = bytes[used];
        if version == SIGNED_VERSION_BYTE {
            Ok(true)
        } else if version == UNSIGNED_VERSION_BYTE {
            Ok(false)
        } else {
            Err(Error::CodecError)
        }
    } else {
        Err(Error::CodecError)
    }
}

impl UncheckedExtrinsicV4 {
    /// An unsigned envelope around an encoded call.
    pub fn new_unsigned(function: Vec<u8>) -> (r: UncheckedExtrinsicV4)
        ensures
            r.signature is None,
            r.function == function,
            extrinsic_wf(r),
    {
        UncheckedExtrinsicV4 { signature: None, function }
    }

    /// A signed envelope: the signature section holds the sender address,
    /// the signature and the signed-extra tuple verbatim.
    pub fn new_signed(
        function: Vec<u8>,
        address: GenericAddress,
        signature: MultiSignature,
        extra: GenericExtra,
    ) -> (r: UncheckedExtrinsicV4)
        requires
            address_wf(address),
            signature_wf(signature),
            extra_wf(extra),
        ensures
            r.signature == Some((address, signature, extra)),
            r.function == function,
            extrinsic_wf(r),
    {
        UncheckedExtrinsicV4 { signature: Some((address, signature, extra)), function }
    }

    /// The framed wire bytes of this envelope.
    pub fn encode(&self) -> (r: Vec<u8>)
        requires
            extrinsic_wf(*self),
        ensures
            r@ == extrinsic_enc(*self),
    {
        let mut inner: Vec<u8> = Vec::new();
        match &self.signature {
            Some(s) => {
                inner.push(SIGNED_VERSION_BYTE);
                match &s.0 {
                    GenericAddress::Id(id) => {
                        inner.push(0);
                        crate::address::push_all(&mut inner, id);
                    },
                }
                match &s.1 {
                    MultiSignature::Ed25519(b) => {
                        inner.push(0);
                        crate::address::push_all(&mut inner, b);
                    },
                    MultiSignature::Sr25519(b) => {
                        inner.push(1);
                        crate::address::push_all(&mut inner, b);
                    },
                    MultiSignature::Ecdsa(b) => {
                        inner.push(2);
                        crate::address::push_all(&mut inner, b);
                    },
                }
                push_extra(&mut inner, &s.2);
                crate::address::push_all(&mut inner, &self.function);
                assert(inner@ =~= extrinsic_inner_enc(*self));
            },
            None => {
                inner.push(UNSIGNED_VERSION_BYTE);
                crate::address::push_all(&mut inner, &self.function);
                assert(inner@ =~= extrinsic_inner_enc(*self));
            },
        }
        let mut out: Vec<u8> = Vec::new();
        push_compact(&mut out, inner.len() as u128);
        crate::address::push_all(&mut out, &inner);
        assert(out@ =~= extrinsic_enc(*self));
        out
    }

    /// The framed wire bytes rendered as `0x`-prefixed lowercase hexadecimal,
    /// ready for submission.
    pub fn hex_encode(&self) -> (r: String)
        requires
            extrinsic_wf(*self),
        ensures
            r@ == seq!['0', 'x'] + crate::hex::hex_of(extrinsic_enc(*self)),
    {
        let encoded = self.encode();
        crate::hex::hex_encode(&encoded)
    }
}

// ---------------------------------------------------------------------------
// Structural envelope decoding
// ---------------------------------------------------------------------------

/// The mathematical model of an address: bytes as a `Seq`.
pub enum AddressModel {
    Id(Seq<u8>),
}

/// The mathematical model of a tagged signature.
pub enum SignatureModel {
    Ed25519(Seq<u8>),
    Sr25519(Seq<u8>),
    Ecdsa(Seq<u8>),
}

/// The mathematical model of an envelope.
pub struct ExtrinsicModel {
    pub signature: Option<(AddressModel, SignatureModel, GenericExtra)>,
    pub function: Seq<u8>,
}

/// The model of an address.
pub open spec fn address_model(a: GenericAddress) -> AddressModel {
    match a {
        GenericAddress::Id(id) => AddressModel::Id(id@),
    }
}

/// The model of a signature.
pub open spec fn signature_model(s: MultiSignature) -> SignatureModel {
    match s {
        MultiSignature::Ed25519(b) => SignatureModel::Ed25519(b@),
        MultiSignature::Sr25519(b) => SignatureModel::Sr25519(b@),
        MultiSignature::Ecdsa(b) => SignatureModel::Ecdsa(b@),
    }
}

/// The model of an envelope.
pub open spec fn extrinsic_model(xt: UncheckedExtrinsicV4) -> ExtrinsicModel {
    ExtrinsicModel {
        signature: match xt.signature {
            Option::Some(t) => Some((address_model(t.0), signature_model(t.1), t.2)),
            Option::None => None,
        },
        function: xt.function@,
    }
}

impl View for UncheckedExtrinsicV4 {
    type V = ExtrinsicModel;

    open spec fn view(&self) -> ExtrinsicModel {
        extrinsic_model(*self)
    }
}

/// Decoding a tagged signature from the front of `s`.
pub open spec fn signature_dec(s: Seq<u8>) -> Option<(SignatureModel, int)> {
    if s.len() >= 1 {
        if s[0] == 0 && s.len() >= 65 {
            Some((SignatureModel::Ed25519(s.subrange(1, 65)), 65int))
        } else if s[0] == 1 && s.len() >= 65 {
            Some((SignatureModel::Sr25519(s.subrange(1, 65)), 65int))
        } else if s[0] == 2 && s.len() >= 66 {
            Some((SignatureModel::Ecdsa(s.subrange(1, 66)), 66int))
        } else {
            None
        }
    } else {
        None
    }
}

/// Decoding the unframed envelope bytes: the version byte, then for a signed
/// envelope the address, signature and extra, the remainder being the opaque
/// call.
pub open spec fn extrinsic_inner_dec(inner: Seq<u8>) -> Option<ExtrinsicModel> {
    if inner.len() < 1 {
        None
    } else if inner[0] == UNSIGNED_VERSION_BYTE {
        Some(ExtrinsicModel { signature: None, function: inner.skip(1) })
    } else if inner[0] == SIGNED_VERSION_BYTE {
        if inner.len() >= 34 && inner[1] == 0 {
            let addr = AddressModel::Id(inner.subrange(2, 34));
            let rest = inner.skip(34);
            match signature_dec(rest) {
                Option::Some(sg) => {
                    let rest2 = rest.skip(sg.1);
                    match crate::extra::extra_dec(rest2) {
                        Option::Some(ex) => Some(
                            ExtrinsicModel {
                                signature: Some((addr, sg.0, ex.0)),
                                function: rest2.skip(ex.1),
                            },
                        ),
                        Option::None => None,
                    }
                },
                Option::None => None,
            }
        } else {
            None
        }
    } else {
        None
    }
}

/// Decoding a framed envelope: the compact length prefix, then the inner
/// bytes it delimits.
pub open spec fn extrinsic_dec(s: Seq<u8>) -> Option<(ExtrinsicModel, int)> {
    match compact_dec(s) {
        Option::Some(l) => if 1 <= l.0 && s.len() >= l.1 + l.0 {
            match extrinsic_inner_dec(s.subrange(l.1, l.1 + l.0)) {
                Option::Some(m) => Some((m, l.1 + l.0)),
                Option::None => None,
            }
        } else {
            None
        },
        Option::None => None,
    }
}

/// Round trip: decoding an encoded well-formed envelope recovers its model,
/// field for field.
#[verifier::rlimit(60)]
pub proof fn lemma_extrinsic_roundtrip(xt: UncheckedExtrinsicV4)
    requires
        extrinsic_wf(xt),
        xt.function@.len() <= usize::MAX,
    ensures
        extrinsic_dec(extrinsic_enc(xt)) == Some(
            (extrinsic_model(xt), extrinsic_enc(xt).len() as int),
        ),
{
    let inner = extrinsic_inner_enc(xt);
    let s = extrinsic_enc(xt);
    assert(inner.len() <= xt.function@.len() + 136) by {
        match xt.signature {
            Option::Some(t) => {
                crate::era::lemma_era_enc_len(t.2.era);
                crate::codec::lemma_compact_enc_len(t.2.nonce as u128);
                crate::codec::lemma_compact_enc_len(t.2.tip);
            },
            Option::None => {},
        }
    }
    assert(inner.len() as u128 as int == inner.len());
    crate::codec::lemma_compact_roundtrip(inner.len() as u128, inner);
    let clen = compact_enc(inner.len() as u128).len() as int;
    assert(s.subrange(clen, clen + inner.len()) =~= inner);
    match xt.signature {
        Option::None => {
            assert(inner[0] == UNSIGNED_VERSION_BYTE);
            assert(inner.skip(1) =~= xt.function@);
        },
        Option::Some(t) => {
            let aenc = address_enc(t.0);
            let senc = signature_enc(t.1);
            let xenc = extra_enc(t.2);
            assert(inner[0] == SIGNED_VERSION_BYTE);
            match t.0 {
                GenericAddress::Id(id) => {
                    assert(inner[1] == 0);
                    assert(inner.subrange(2, 34) =~= id@);
                },
            }
            let rest = inner.skip(34);
            assert(rest =~= senc + (xenc + xt.function@));
            let slen: int = match t.1 {
                MultiSignature::Ed25519(b) => 65,
                MultiSignature::Sr25519(b) => 65,
                MultiSignature::Ecdsa(b) => 66,
            };
            match t.1 {
                MultiSignature::Ed25519(b) => {
                    assert(rest[0] == 0);
                    assert(rest.subrange(1, 65) =~= b@);
                },
                MultiSignature::Sr25519(b) => {
                    assert(rest[0] == 1);
                    assert(rest.subrange(1, 65) =~= b@);
                },
                MultiSignature::Ecdsa(b) => {
                    assert(rest[0] == 2);
                    assert(rest.subrange(1, 66) =~= b@);
                },
            }
            assert(signature_dec(rest) == Some((signature_model(t.1), slen)));
            let rest2 = rest.skip(slen);
            assert(rest2 =~= xenc + xt.function@);
            crate::extra::lemma_extra_roundtrip(t.2, xt.function@);
            assert(rest2.skip(xenc.len() as int) =~= xt.function@);
        },
    }
}

/// Copy the byte range `[start, end)`.
fn copy_range(bytes: &Vec<u8>, start: usize, end: usize) -> (r: Vec<u8>)
    requires
        start <= end <= bytes@.len(),
    ensures
        r@ == bytes@.subrange(start as int, end as int),
{
    let mut out: Vec<u8> = Vec::new();
    let mut i: usize = start;
    while i < end
        invariant
            start <= i <= end <= bytes@.len(),
            out@ =~= bytes@.subrange(start as int, i as int),
        decreases end - i,
    {
        out.push(bytes[i]);
        assert(out@ =~= bytes@.subrange(start as int, i + 1));
        i = i + 1;
    }
    out
}

/// Decode a framed envelope; fails with `CodecError` exactly on a truncated
/// or malformed frame.  Trailing bytes after the frame are left unread.
#[verifier::rlimit(60)]
pub fn decode_extrinsic(bytes: &Vec<u8>) -> (r: Result<(UncheckedExtrinsicV4, usize), Error>)
    ensures
        match r {
            Ok(p) => {
                &&& extrinsic_dec(bytes@) == Some((extrinsic_model(p.0), p.1 as int))
                &&& extrinsic_wf(p.0)
                &&& p.1 <= bytes@.len()
            },
            Err(e) => extrinsic_dec(bytes@) is None && e == Error::CodecError,
        },
{
    let blen: usize = bytes.len();
    proof {
        assert(bytes@.skip(0) =~= bytes@);
    }
    let (frame_len, used) = match crate::codec::compact_decode(bytes, 0) {
        Ok(p) => p,
        Err(e) => {
            return Err(e);
        },
    };
    if frame_len < 1 || frame_len > (blen - used) as u128 {
        return Err(Error::CodecError);
    }
    let ln = frame_len as usize;
    let inner = copy_range(bytes, used, used + ln);
    let end = used + ln;
    let ghost ispec = bytes@.subrange(used as int, used + ln);
    let version = inner[0];
    if version == UNSIGNED_VERSION_BYTE {
        let function = copy_range(&inner, 1, ln);
        assert(function@ =~= ispec.skip(1));
        return Ok((UncheckedExtrinsicV4 { signature: None, function }, end));
    }
    if version != SIGNED_VERSION_BYTE {
        return Err(Error::CodecError);
    }
    if ln < 34 || inner[1] != 0 {
        return Err(Error::CodecError);
    }
    let id = copy_range(&inner, 2, 34);
    assert(id@ =~= ispec.subrange(2, 34));
    let address = GenericAddress::Id(id);
    let ghost rest = ispec.skip(34);
    let (signature, sig_end) = {
        if ln < 35 {
            return Err(Error::CodecError);
        }
        let tag = inner[34];
        assert(rest[0] == tag);
        if tag == 0 && ln >= 34 + 65 {
            let b = copy_range(&inner, 35, 99);
            assert(b@ =~= rest.subrange(1, 65));
            (MultiSignature::Ed25519(b), 34 + 65)
        } else if tag == 1 && ln >= 34 + 65 {
            let b = copy_range(&inner, 35, 99);
            assert(b@ =~= rest.subrange(1, 65));
            (MultiSignature::Sr25519(b), 34 + 65)
        } else if tag == 2 && ln >= 34 + 66 {
            let b = copy_range(&inner, 35, 100);
            assert(b@ =~= rest.subrange(1, 66));
            (MultiSignature::Ecdsa(b), 34 + 66)
        } else {
            proof {
                assert(signature_dec(rest) is None);
            }
            return Err(Error::CodecError);
        }
    };
    proof {
        assert(signature_dec(rest) == Some((signature_model(signature), sig_end - 34)));
        assert(inner@.skip(sig_end as int) =~= rest.skip(sig_end - 34));
    }
    let (extra, extra_end) = match crate::extra::decode_extra(&inner, sig_end) {
        Ok(p) => p,
        Err(e) => {
            return Err(e);
        },
    };
    let function = copy_range(&inner, extra_end, ln);
    proof {
        let rest2 = rest.skip(sig_end - 34);
        assert(rest2.skip(extra_end - sig_end) =~= ispec.skip(extra_end as int));
        assert(function@ =~= ispec.skip(extra_end as int));
    }
    Ok((
        UncheckedExtrinsicV4 { signature: Some((address, signature, extra)), function },
        end,
    ))
}

// ---------------------------------------------------------------------------
// The signing payload
// ---------------------------------------------------------------------------

/// The signing payload before length reduction: the call, the signed-extra
/// tuple and the additional-signed tuple, concatenated in this fixed order.
pub open spec fn signing_payload_enc(
    call: Seq<u8>,
    extra: GenericExtra,
    additional: AdditionalSigned,
) -> Seq<u8> {
    call + extra_enc(extra) + additional_enc(additional)
}

/// What actually gets signed: the payload itself, or its 32-byte digest once
/// it grows past 256 bytes.
pub open spec fn payload_to_sign(p: Seq<u8>) -> Seq<u8> {
    if p.len() > 256 {
        blake2_256_of(p)
    } else {
        p
    }
}

/// The signing payload ends with the additional-signed tuple unchanged: the
/// remote node re-reads the versions and hashes from its own state.
pub proof fn lemma_payload_ends_with_additional(
    call: Seq<u8>,
    extra: GenericExtra,
    additional: AdditionalSigned,
)
    ensures
        ({
            let p = signing_payload_enc(call, extra, additional);
            p.skip(p.len() - additional_enc(additional).len()) == additional_enc(additional)
        }),
{
    let p = signing_payload_enc(call, extra, additional);
    assert(p.skip(p.len() - additional_enc(additional).len()) =~= additional_enc(additional));
}

/// Build the signing payload bytes.
pub fn signing_payload(
    call: &Vec<u8>,
    extra: &GenericExtra,
    additional: &AdditionalSigned,
) -> (r: Vec<u8>)
    requires
        extra_wf(*extra),
    ensures
        r@ == signing_payload_enc(call@, *extra, *additional),
{
    let mut out: Vec<u8> = Vec::new();
    crate::address::push_all(&mut out, call);
    push_extra(&mut out, extra);
    push_additional(&mut out, additional);
    assert(out@ =~= signing_payload_enc(call@, *extra, *additional));
    out
}

/// Reduce a payload to what the signer actually signs: the payload itself,
/// or its 32-byte digest once it grows past 256 bytes.
pub fn reduce_payload(p: &Vec<u8>) -> (r: Vec<u8>)
    ensures
        r@ == payload_to_sign(p@),
{
    if p.len() > 256 {
        hashing::blake2_256(p.as_slice())
    } else {
        crate::scan::copy_bytes(p)
    }
}

} // verus!
