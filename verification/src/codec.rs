//! The binary codec: compact (variable-length) integers, fixed-width
//! little-endian integers, and a tagged value model with recursive encoding
//! and decoding.  Decoding is proved to be the exact inverse of encoding for
//! every supported value shape.
use crate::error::Error;
use vstd::arithmetic::div_mod::{lemma_fundamental_div_mod, lemma_fundamental_div_mod_converse};
use vstd::arithmetic::mul::lemma_mul_inequality;
use vstd::prelude::*;

verus! {

/// 256 raised to `k`: the number of values a `k`-byte string can hold.
pub open spec fn pow256(k: nat) -> nat
    decreases k,
{
    if k == 0 {
        1
    } else {
        256 * pow256((k - 1) as nat)
    }
}

/// The `k`-byte little-endian encoding of `n` (mod 256^k).
pub open spec fn le_bytes(n: nat, k: nat) -> Seq<u8>
    decreases k,
{
    if k == 0 {
        Seq::empty()
    } else {
        seq![(n % 256) as u8] + le_bytes(n / 256, (k - 1) as nat)
    }
}

/// The number read back from a little-endian byte string.
pub open spec fn from_le(s: Seq<u8>) -> nat
    decreases s.len(),
{
    if s.len() == 0 {
        0
    } else {
        (s[0] + 256 * from_le(s.skip(1))) as nat
    }
}

/// The number of bytes in the minimal base-256 representation of `n`.
pub open spec fn byte_len(n: nat) -> nat
    decreases n,
{
    if n == 0 {
        0
    } else {
        1 + byte_len(n / 256)
    }
}

pub proof fn lemma_pow256_positive(k: nat)
    ensures
        pow256(k) >= 1,
    decreases k,
{
    if k > 0 {
        lemma_pow256_positive((k - 1) as nat);
    }
}

pub proof fn lemma_pow256_monotone(j: nat, k: nat)
    requires
        j <= k,
    ensures
        pow256(j) <= pow256(k),
    decreases k,
{
    if j < k {
        lemma_pow256_monotone(j, (k - 1) as nat);
        lemma_pow256_positive((k - 1) as nat);
    }
}

/// 256^16 is exactly one more than the largest `u128`.
pub proof fn lemma_pow256_16()
    ensures
        pow256(16) == 0x1_0000_0000_0000_0000_0000_0000_0000_0000,
{
    assert(pow256(16) == 0x1_0000_0000_0000_0000_0000_0000_0000_0000) by {
        reveal_with_fuel(pow256, 17);
    }
}

pub proof fn lemma_le_bytes_len(n: nat, k: nat)
    ensures
        le_bytes(n, k).len() == k,
    decreases k,
{
    if k > 0 {
        lemma_le_bytes_len(n / 256, (k - 1) as nat);
    }
}

/// Reading back a little-endian encoding recovers the number, provided it fits.
pub proof fn lemma_from_le_bytes(n: nat, k: nat)
    requires
        n < pow256(k),
    ensures
        from_le(le_bytes(n, k)) == n,
    decreases k,
{
    if k == 0 {
    } else {
        let s = le_bytes(n, k);
        assert(n / 256 < pow256((k - 1) as nat)) by {
            lemma_fundamental_div_mod(n as int, 256);
            if n / 256 >= pow256((k - 1) as nat) {
                lemma_mul_inequality(
                    pow256((k - 1) as nat) as int,
                    (n / 256) as int,
                    256,
                );
            }
        }
        lemma_from_le_bytes(n / 256, (k - 1) as nat);
        assert(s.skip(1) =~= le_bytes(n / 256, (k - 1) as nat));
        lemma_fundamental_div_mod(n as int, 256);
    }
}

/// The minimal representation fits: `n < 256^byte_len(n)`.
pub proof fn lemma_byte_len_fits(n: nat)
    ensures
        n < pow256(byte_len(n)),
    decreases n,
{
    if n == 0 {
    } else {
        lemma_byte_len_fits(n / 256);
        let k = byte_len(n / 256);
        lemma_fundamental_div_mod(n as int, 256);
        assert(256 * (n / 256) + 256 <= 256 * pow256(k)) by {
            lemma_mul_inequality((n / 256) as int + 1, pow256(k) as int, 256);
        }
    }
}

/// The minimal representation is minimal: `n >= 256^(byte_len(n)-1)`.
pub proof fn lemma_byte_len_minimal(n: nat)
    requires
        n > 0,
    ensures
        pow256((byte_len(n) - 1) as nat) <= n,
    decreases n,
{
    if n / 256 == 0 {
        assert(byte_len(n) == 1 + byte_len(n / 256));
        assert(byte_len((n / 256) as nat) == 0);
        assert(pow256(0) == 1);
    } else {
        lemma_byte_len_minimal(n / 256);
        let k = byte_len(n / 256);
        assert(256 * pow256((k - 1) as nat) <= 256 * (n / 256)) by {
            lemma_mul_inequality(pow256((k - 1) as nat) as int, (n / 256) as int, 256);
        }
        assert(byte_len(n) == 1 + k);
        assert(pow256(k) == 256 * pow256((k - 1) as nat));
        lemma_fundamental_div_mod(n as int, 256);
    }
}

/// Exec computation of `byte_len`.
pub fn byte_len_exec(n: u128) -> (k: usize)
    ensures
        k == byte_len(n as nat),
{
    let mut m: u128 = n;
    let mut k: usize = 0;
    proof {
        lemma_pow256_16();
        lemma_byte_len_upper(n as nat);
    }
    while m > 0
        invariant
            byte_len(n as nat) == k + byte_len(m as nat),
            byte_len(n as nat) <= 16,
        decreases m,
    {
        m = m / 256;
        k = k + 1;
    }
    k
}

/// Any `u128` value needs at most 16 bytes.
pub proof fn lemma_byte_len_upper(n: nat)
    requires
        n < pow256(16),
    ensures
        byte_len(n) <= 16,
{
    if byte_len(n) > 16 {
        lemma_byte_len_minimal(n);
        lemma_pow256_monotone(16, (byte_len(n) - 1) as nat);
    }
}

/// Exec little-endian encoding, appending to `out`.
pub fn push_le_bytes(out: &mut Vec<u8>, n: u128, k: usize)
    ensures
        final(out)@ == old(out)@ + le_bytes(n as nat, k as nat),
{
    let mut m: u128 = n;
    let mut i: usize = 0;
    let ghost base = out@;
    while i < k
        invariant
            i <= k,
            out@ + le_bytes(m as nat, (k - i) as nat) =~= base + le_bytes(n as nat, k as nat),
            out@.len() == base.len() + i,
        decreases k - i,
    {
        out.push((m % 256) as u8);
        m = m / 256;
        i = i + 1;
        assert(out@ + le_bytes(m as nat, (k - i) as nat) =~= base + le_bytes(n as nat, k as nat));
    }
    assert(out@ =~= base + le_bytes(n as nat, k as nat));
}

/// Exec little-endian read of `k` bytes at `pos`, for `k <= 16`.
pub fn read_le_bytes(bytes: &Vec<u8>, pos: usize, k: usize) -> (n: u128)
    requires
        k <= 16,
        pos + k <= bytes@.len(),
    ensures
        n == from_le(bytes@.subrange(pos as int, pos + k)),
{
    let mut acc: u128 = 0;
    let mut i: usize = k;
    let blen: usize = bytes.len();
    proof {
        lemma_pow256_16();
    }
    while i > 0
        invariant
            i <= k,
            k <= 16,
            pos + k <= blen,
            blen == bytes@.len(),
            acc == from_le(bytes@.subrange(pos + i, pos + k)),
            acc < pow256((k - i) as nat),
            pow256(16) == 0x1_0000_0000_0000_0000_0000_0000_0000_0000,
        decreases i,
    {
        i = i - 1;
        let ghost s_old = bytes@.subrange(pos + i + 1, pos + k);
        let b = bytes[pos + i];
        proof {
            lemma_pow256_monotone((k - i - 1) as nat, 15);
            assert(256 * acc + 256 <= 256 * pow256((k - i - 1) as nat)) by {
                lemma_mul_inequality(acc as int + 1, pow256((k - i - 1) as nat) as int, 256);
            }
            lemma_pow256_monotone((k - i) as nat, 16);
            let s_new = bytes@.subrange(pos + i, pos + k);
            assert(s_new.skip(1) =~= s_old);
            assert(s_new[0] == b);
        }
        acc = acc * 256 + (b as u128);
        proof {
            let s_new = bytes@.subrange(pos + i, pos + k);
            assert(acc == from_le(s_new));
        }
    }
    acc
}

// ---------------------------------------------------------------------------
// Compact (variable-length) integers
// ---------------------------------------------------------------------------

/// The compact encoding of `n`: a two-bit mode tag in the lowest bits of the
/// first byte selects a one-, two- or four-byte form (value shifted left by
/// the tag) or a length-prefixed minimal little-endian form.
pub open spec fn compact_enc(n: u128) -> Seq<u8> {
    if n < 64 {
        seq![(n * 4) as u8]
    } else if n < 16384 {
        le_bytes((4 * n + 1) as nat, 2)
    } else if n < 0x4000_0000 {
        le_bytes((4 * n + 2) as nat, 4)
    } else {
        seq![((byte_len(n as nat) - 4) * 4 + 3) as u8] + le_bytes(n as nat, byte_len(n as nat))
    }
}

/// Decoding a compact integer from the front of `s`: the value and the number
/// of bytes consumed, or `None` if `s` is truncated or the length prefix is
/// out of range.
pub open spec fn compact_dec(s: Seq<u8>) -> Option<(u128, int)> {
    if s.len() == 0 {
        None
    } else {
        let b0 = s[0];
        if b0 % 4 == 0 {
            Some(((b0 / 4) as u128, 1int))
        } else if b0 % 4 == 1 {
            if s.len() >= 2 {
                Some(((from_le(s.subrange(0, 2)) / 4) as u128, 2int))
            } else {
                None
            }
        } else if b0 % 4 == 2 {
            if s.len() >= 4 {
                Some(((from_le(s.subrange(0, 4)) / 4) as u128, 4int))
            } else {
                None
            }
        } else {
            let k = b0 / 4 + 4;
            if k <= 16 && s.len() >= 1 + k {
                Some((from_le(s.subrange(1, 1 + k)) as u128, 1 + k))
            } else {
                None
            }
        }
    }
}

/// Decoding reads back exactly the compact-encoded value, whatever follows it.
pub proof fn lemma_compact_roundtrip(n: u128, rest: Seq<u8>)
    ensures
        compact_dec(compact_enc(n) + rest) == Some((n, compact_enc(n).len() as int)),
{
    let s = compact_enc(n) + rest;
    if n < 64 {
        lemma_fundamental_div_mod_converse(4 * n as int, 4, n as int, 0);
    } else if n < 16384 {
        let t = (4 * n + 1) as nat;
        assert(pow256(2) == 65536) by {
            reveal_with_fuel(pow256, 3);
        }
        lemma_le_bytes_len(t, 2);
        assert(s[0] == t % 256);
        lemma_fundamental_div_mod(t as int, 256);
        let q = t as int / 256;
        assert(t % 256 == 4 * (n - 64 * q) + 1);
        lemma_fundamental_div_mod_converse((t % 256) as int, 4, n - 64 * q, 1);
        assert(s.subrange(0, 2) =~= le_bytes(t, 2));
        lemma_from_le_bytes(t, 2);
        lemma_fundamental_div_mod_converse(t as int, 4, n as int, 1);
    } else if n < 0x4000_0000 {
        let t = (4 * n + 2) as nat;
        assert(pow256(4) == 0x1_0000_0000) by {
            reveal_with_fuel(pow256, 5);
        }
        lemma_le_bytes_len(t, 4);
        assert(s[0] == t % 256);
        lemma_fundamental_div_mod(t as int, 256);
        let q = t as int / 256;
        assert(t % 256 == 4 * (n - 64 * q) + 2);
        lemma_fundamental_div_mod_converse((t % 256) as int, 4, n - 64 * q, 2);
        assert(s.subrange(0, 4) =~= le_bytes(t, 4));
        lemma_from_le_bytes(t, 4);
        lemma_fundamental_div_mod_converse(t as int, 4, n as int, 2);
    } else {
        let k = byte_len(n as nat);
        assert(pow256(3) == 0x100_0000 && pow256(16) == pow256(16)) by {
            reveal_with_fuel(pow256, 4);
        }
        lemma_pow256_16();
        lemma_byte_len_upper(n as nat);
        assert(k >= 4) by {
            if k <= 3 {
                lemma_byte_len_fits(n as nat);
                lemma_pow256_monotone(k, 3);
            }
        }
        let b0 = ((k - 4) * 4 + 3) as u8;
        assert(s[0] == b0);
        lemma_fundamental_div_mod_converse(b0 as int, 4, k - 4, 3);
        lemma_le_bytes_len(n as nat, k);
        assert(s.subrange(1, 1 + (k - 4) + 4) =~= le_bytes(n as nat, k));
        lemma_byte_len_fits(n as nat);
        lemma_from_le_bytes(n as nat, k);
    }
}

/// A compact encoding takes between 1 and 17 bytes.
pub proof fn lemma_compact_enc_len(n: u128)
    ensures
        1 <= compact_enc(n).len() <= 17,
{
    if n < 64 {
    } else if n < 16384 {
        lemma_le_bytes_len((4 * n + 1) as nat, 2);
    } else if n < 0x4000_0000 {
        lemma_le_bytes_len((4 * n + 2) as nat, 4);
    } else {
        lemma_pow256_16();
        lemma_byte_len_upper(n as nat);
        lemma_le_bytes_len(n as nat, byte_len(n as nat));
    }
}

/// Exec compact encoding, appending to `out`.
pub fn push_compact(out: &mut Vec<u8>, n: u128)
    ensures
        final(out)@ == old(out)@ + compact_enc(n),
{
    if n < 64 {
        out.push((n as u8) * 4);
    } else if n < 16384 {
        push_le_bytes(out, 4 * n + 1, 2);
    } else if n < 0x4000_0000 {
        push_le_bytes(out, 4 * n + 2, 4);
    } else {
        let k = byte_len_exec(n);
        proof {
            lemma_pow256_16();
            lemma_byte_len_upper(n as nat);
            assert(k >= 4) by {
                if byte_len(n as nat) <= 3 {
                    lemma_byte_len_fits(n as nat);
                    lemma_pow256_monotone(byte_len(n as nat), 3);
                    assert(pow256(3) == 0x100_0000) by {
                        reveal_with_fuel(pow256, 4);
                    }
                }
            }
        }
        let ghost mid = out@;
        out.push((k as u8 - 4) * 4 + 3);
        push_le_bytes(out, n, k);
        assert(final(out)@ =~= old(out)@ + compact_enc(n));
    }
}

/// Exec compact decoding at `pos`.
pub fn compact_decode(bytes: &Vec<u8>, pos: usize) -> (r: Result<(u128, usize), Error>)
    requires
        pos <= bytes@.len(),
    ensures
        match r {
            Ok(p) => {
                &&& compact_dec(bytes@.skip(pos as int)) == Some((p.0, p.1 as int))
                &&& 1 <= p.1
                &&& pos + p.1 <= bytes@.len()
            },
            Err(e) => compact_dec(bytes@.skip(pos as int)) is None && e == Error::CodecError,
        },
{
    let blen: usize = bytes.len();
    let ghost s = bytes@.skip(pos as int);
    if pos >= blen {
        return Err(Error::CodecError);
    }
    let b0 = bytes[pos];
    assert(s[0] == b0);
    if b0 % 4 == 0 {
        Ok(((b0 / 4) as u128, 1))
    } else if b0 % 4 == 1 {
        if blen - pos >= 2 {
            let v = read_le_bytes(bytes, pos, 2);
            assert(bytes@.subrange(pos as int, pos + 2) =~= s.subrange(0, 2));
            Ok(((v / 4) as u128, 2))
        } else {
            Err(Error::CodecError)
        }
    } else if b0 % 4 == 2 {
        if blen - pos >= 4 {
            let v = read_le_bytes(bytes, pos, 4);
            assert(bytes@.subrange(pos as int, pos + 4) =~= s.subrange(0, 4));
            Ok(((v / 4) as u128, 4))
        } else {
            Err(Error::CodecError)
        }
    } else {
        let k: usize = (b0 / 4) as usize + 4;
        if k <= 16 && blen - pos >= 1 + k {
            let v = read_le_bytes(bytes, pos + 1, k);
            assert(bytes@.subrange(pos + 1, pos + 1 + k) =~= s.subrange(1, 1 + k as int));
            Ok((v, 1 + k))
        } else {
            Err(Error::CodecError)
        }
    }
}

// ---------------------------------------------------------------------------
// The tagged value model
// ---------------------------------------------------------------------------

/// A run-time value whose shape is known only at run time: the fixed set of
/// wire shapes the codec supports.
#[derive(Debug, PartialEq, Eq)]
pub enum Value {
    /// The empty tuple; encodes to no bytes.
    Unit,
    /// A boolean, one byte, `0` or `1`.
    Bool(bool),
    U8(u8),
    U16(u16),
    U32(u32),
    U64(u64),
    U128(u128),
    /// A compact (variable-length) unsigned integer.
    Compact(u128),
    /// A byte sequence, prefixed by its compact-encoded length.
    Bytes(Vec<u8>),
    /// An optional value, prefixed by a presence byte.
    Opt(Option<Box<Value>>),
    /// A tuple: the fields concatenated in declared order.
    Tuple(Vec<Value>),
    /// An enum value: a one-byte variant tag, then the variant's payload.
    Variant(u8, Box<Value>),
}

/// The shape a decoder expects: what [`Value`] variant to produce, with the
/// payload shapes of nested values.  For an enum, the payload shape of each
/// variant, indexed by its tag.
#[derive(Debug, PartialEq, Eq)]
pub enum Shape {
    Unit,
    Bool,
    U8,
    U16,
    U32,
    U64,
    U128,
    Compact,
    Bytes,
    Opt(Box<Shape>),
    Tuple(Vec<Shape>),
    Enum(Vec<Shape>),
}

/// The mathematical model of a [`Value`]: the same tree over `Seq` instead of
/// `Vec`.  Contracts speak of this model.
pub enum ValueModel {
    Unit,
    Bool(bool),
    U8(u8),
    U16(u16),
    U32(u32),
    U64(u64),
    U128(u128),
    Compact(u128),
    Bytes(Seq<u8>),
    Opt(Option<Box<ValueModel>>),
    Tuple(Seq<ValueModel>),
    Variant(u8, Box<ValueModel>),
}

/// The model of a value: `Vec` fields become `Seq`s.
pub open spec fn model(v: Value) -> ValueModel
    decreases v,
{
    match v {
        Value::Unit => ValueModel::Unit,
        Value::Bool(b) => ValueModel::Bool(b),
        Value::U8(x) => ValueModel::U8(x),
        Value::U16(x) => ValueModel::U16(x),
        Value::U32(x) => ValueModel::U32(x),
        Value::U64(x) => ValueModel::U64(x),
        Value::U128(x) => ValueModel::U128(x),
        Value::Compact(x) => ValueModel::Compact(x),
        Value::Bytes(bs) => ValueModel::Bytes(bs@),
        Value::Opt(o) => match o {
            Option::None => ValueModel::Opt(Option::None),
            Option::Some(b) => ValueModel::Opt(Option::Some(Box::new(model(*b)))),
        },
        Value::Tuple(vs) => ValueModel::Tuple(model_list(vs@)),
        Value::Variant(t, p) => ValueModel::Variant(t, Box::new(model(*p))),
    }
}

/// The models of a sequence of values, elementwise.
pub open spec fn model_list(s: Seq<Value>) -> Seq<ValueModel>
    decreases s,
{
    if s.len() == 0 {
        Seq::empty()
    } else {
        seq![model(s[0])] + model_list(s.drop_first())
    }
}

impl View for Value {
    type V = ValueModel;

    open spec fn view(&self) -> ValueModel {
        model(*self)
    }
}

pub proof fn lemma_model_list_len(s: Seq<Value>)
    ensures
        model_list(s).len() == s.len(),
    decreases s,
{
    if s.len() > 0 {
        lemma_model_list_len(s.drop_first());
    }
}

pub proof fn lemma_model_list_index(s: Seq<Value>, i: int)
    requires
        0 <= i < s.len(),
    ensures
        model_list(s).len() == s.len(),
        model_list(s)[i] == model(s[i]),
    decreases s,
{
    lemma_model_list_len(s);
    if i > 0 {
        lemma_model_list_index(s.drop_first(), i - 1);
    }
}

/// Appending one value appends one model.
pub proof fn lemma_model_list_push(s: Seq<Value>, v: Value)
    ensures
        model_list(s.push(v)) =~= model_list(s) + seq![model(v)],
    decreases s,
{
    if s.len() == 0 {
        assert(s.push(v).drop_first() =~= Seq::<Value>::empty());
        assert(s.push(v)[0] == v);
        assert(model_list(s.push(v)) == seq![model(v)] + model_list(Seq::<Value>::empty()));
    } else {
        assert(s.push(v).drop_first() =~= s.drop_first().push(v));
        lemma_model_list_push(s.drop_first(), v);
        assert(s.push(v)[0] == s[0]);
        assert(model_list(s.push(v)) == seq![model(s[0])] + model_list(s.drop_first().push(v)));
        assert(model_list(s) == seq![model(s[0])] + model_list(s.drop_first()));
    }
}

// ---------------------------------------------------------------------------
// Encoding
// ---------------------------------------------------------------------------

/// The wire encoding of a value model.
pub open spec fn enc(m: ValueModel) -> Seq<u8>
    decreases m,
{
    match m {
        ValueModel::Unit => Seq::empty(),
        ValueModel::Bool(b) => seq![if b { 1u8 } else { 0u8 }],
        ValueModel::U8(x) => le_bytes(x as nat, 1),
        ValueModel::U16(x) => le_bytes(x as nat, 2),
        ValueModel::U32(x) => le_bytes(x as nat, 4),
        ValueModel::U64(x) => le_bytes(x as nat, 8),
        ValueModel::U128(x) => le_bytes(x as nat, 16),
        ValueModel::Compact(x) => compact_enc(x),
        ValueModel::Bytes(bs) => compact_enc(bs.len() as u128) + bs,
        ValueModel::Opt(o) => match o {
            Option::None => seq![0u8],
            Option::Some(b) => seq![1u8] + enc(*b),
        },
        ValueModel::Tuple(ms) => enc_list(ms),
        ValueModel::Variant(t, p) => seq![t] + enc(*p),
    }
}

/// The concatenated encodings of a sequence of value models.
pub open spec fn enc_list(ms: Seq<ValueModel>) -> Seq<u8>
    decreases ms,
{
    if ms.len() == 0 {
        Seq::empty()
    } else {
        enc(ms[0]) + enc_list(ms.drop_first())
    }
}

/// Whether a value model has the given shape, so that its encoding decodes
/// under that shape.
pub open spec fn conforms(m: ValueModel, sh: Shape) -> bool
    decreases m,
{
    match (m, sh) {
        (ValueModel::Unit, Shape::Unit) => true,
        (ValueModel::Bool(_), Shape::Bool) => true,
        (ValueModel::U8(_), Shape::U8) => true,
        (ValueModel::U16(_), Shape::U16) => true,
        (ValueModel::U32(_), Shape::U32) => true,
        (ValueModel::U64(_), Shape::U64) => true,
        (ValueModel::U128(_), Shape::U128) => true,
        (ValueModel::Compact(_), Shape::Compact) => true,
        (ValueModel::Bytes(bs), Shape::Bytes) => bs.len() <= u128::MAX,
        (ValueModel::Opt(o), Shape::Opt(inner)) => match o {
            Option::None => true,
            Option::Some(b) => conforms(*b, *inner),
        },
        (ValueModel::Tuple(ms), Shape::Tuple(shs)) => conforms_list(ms, shs@),
        (ValueModel::Variant(t, p), Shape::Enum(shs)) => t < shs@.len() && conforms(
            *p,
            shs@[t as int],
        ),
        _ => false,
    }
}

/// Elementwise conformance of a tuple's fields.
pub open spec fn conforms_list(ms: Seq<ValueModel>, shs: Seq<Shape>) -> bool
    decreases ms,
{
    if ms.len() != shs.len() {
        false
    } else if ms.len() == 0 {
        true
    } else {
        conforms(ms[0], shs[0]) && conforms_list(ms.drop_first(), shs.drop_first())
    }
}

// ---------------------------------------------------------------------------
// Decoding
// ---------------------------------------------------------------------------

/// Decoding a value of shape `sh` from the front of `s`: the value model and
/// the number of bytes consumed, or `None` on truncated or malformed input or
/// an out-of-range variant tag.
pub open spec fn dec(s: Seq<u8>, sh: Shape) -> Option<(ValueModel, int)>
    decreases sh,
{
    match sh {
        Shape::Unit => Some((ValueModel::Unit, 0int)),
        Shape::Bool => if s.len() >= 1 {
            if s[0] == 0 {
                Some((ValueModel::Bool(false), 1int))
            } else if s[0] == 1 {
                Some((ValueModel::Bool(true), 1int))
            } else {
                None
            }
        } else {
            None
        },
        Shape::U8 => if s.len() >= 1 {
            Some((ValueModel::U8(s[0]), 1int))
        } else {
            None
        },
        Shape::U16 => if s.len() >= 2 {
            Some((ValueModel::U16(from_le(s.subrange(0, 2)) as u16), 2int))
        } else {
            None
        },
        Shape::U32 => if s.len() >= 4 {
            Some((ValueModel::U32(from_le(s.subrange(0, 4)) as u32), 4int))
        } else {
            None
        },
        Shape::U64 => if s.len() >= 8 {
            Some((ValueModel::U64(from_le(s.subrange(0, 8)) as u64), 8int))
        } else {
            None
        },
        Shape::U128 => if s.len() >= 16 {
            Some((ValueModel::U128(from_le(s.subrange(0, 16)) as u128), 16int))
        } else {
            None
        },
        Shape::Compact => match compact_dec(s) {
            Option::Some(p) => Some((ValueModel::Compact(p.0), p.1)),
            Option::None => None,
        },
        Shape::Bytes => match compact_dec(s) {
            Option::Some(p) => if s.len() >= p.1 + p.0 {
                Some((ValueModel::Bytes(s.subrange(p.1, p.1 + p.0)), p.1 + p.0))
            } else {
                None
            },
            Option::None => None,
        },
        Shape::Opt(inner) => if s.len() >= 1 {
            if s[0] == 0 {
                Some((ValueModel::Opt(Option::None), 1int))
            } else if s[0] == 1 {
                match dec(s.skip(1), *inner) {
                    Option::Some(p) => Some(
                        (ValueModel::Opt(Option::Some(Box::new(p.0))), 1 + p.1),
                    ),
                    Option::None => None,
                }
            } else {
                None
            }
        } else {
            None
        },
        Shape::Tuple(shs) => match dec_list(s, shs@) {
            Option::Some(p) => Some((ValueModel::Tuple(p.0), p.1)),
            Option::None => None,
        },
        Shape::Enum(shs) => if s.len() >= 1 && s[0] < shs@.len() {
            match dec(s.skip(1), shs@[s[0] as int]) {
                Option::Some(p) => Some((ValueModel::Variant(s[0], Box::new(p.0)), 1 + p.1)),
                Option::None => None,
            }
        } else {
            None
        },
    }
}

/// Decoding a sequence of shapes one after another.
pub open spec fn dec_list(s: Seq<u8>, shs: Seq<Shape>) -> Option<(Seq<ValueModel>, int)>
    decreases shs,
{
    if shs.len() == 0 {
        Some((Seq::empty(), 0int))
    } else {
        match dec(s, shs[0]) {
            Option::Some(p) => match dec_list(s.skip(p.1), shs.drop_first()) {
                Option::Some(q) => Some((seq![p.0] + q.0, p.1 + q.1)),
                Option::None => None,
            },
            Option::None => None,
        }
    }
}

/// Round trip: decoding the encoding of any conforming value, whatever bytes
/// follow it, yields that same value and consumes exactly its encoding.
pub proof fn lemma_value_roundtrip(m: ValueModel, sh: Shape, rest: Seq<u8>)
    requires
        conforms(m, sh),
    ensures
        dec(enc(m) + rest, sh) == Some((m, enc(m).len() as int)),
    decreases m,
{
    let s = enc(m) + rest;
    match (m, sh) {
        (ValueModel::Unit, Shape::Unit) => {
            assert(enc(m).len() == 0);
        },
        (ValueModel::Bool(b), Shape::Bool) => {
            assert(s[0] == if b {
                1u8
            } else {
                0u8
            });
        },
        (ValueModel::U8(x), Shape::U8) => {
            lemma_le_bytes_len(x as nat, 1);
            assert(s[0] == (x as nat % 256) as u8);
        },
        (ValueModel::U16(x), Shape::U16) => {
            assert(pow256(2) == 0x1_0000) by {
                reveal_with_fuel(pow256, 3);
            }
            lemma_le_bytes_len(x as nat, 2);
            assert(s.subrange(0, 2) =~= le_bytes(x as nat, 2));
            lemma_from_le_bytes(x as nat, 2);
        },
        (ValueModel::U32(x), Shape::U32) => {
            assert(pow256(4) == 0x1_0000_0000) by {
                reveal_with_fuel(pow256, 5);
            }
            lemma_le_bytes_len(x as nat, 4);
            assert(s.subrange(0, 4) =~= le_bytes(x as nat, 4));
            lemma_from_le_bytes(x as nat, 4);
        },
        (ValueModel::U64(x), Shape::U64) => {
            assert(pow256(8) == 0x1_0000_0000_0000_0000) by {
                reveal_with_fuel(pow256, 9);
            }
            lemma_le_bytes_len(x as nat, 8);
            assert(s.subrange(0, 8) =~= le_bytes(x as nat, 8));
            lemma_from_le_bytes(x as nat, 8);
        },
        (ValueModel::U128(x), Shape::U128) => {
            lemma_pow256_16();
            lemma_le_bytes_len(x as nat, 16);
            assert(s.subrange(0, 16) =~= le_bytes(x as nat, 16));
            lemma_from_le_bytes(x as nat, 16);
        },
        (ValueModel::Compact(x), Shape::Compact) => {
            lemma_compact_roundtrip(x, rest);
        },
        (ValueModel::Bytes(bs), Shape::Bytes) => {
            let l = bs.len() as u128;
            assert(s =~= compact_enc(l) + (bs + rest));
            lemma_compact_roundtrip(l, bs + rest);
            let clen = compact_enc(l).len() as int;
            assert(compact_dec(s) == Some((l, clen)));
            assert(s.len() >= clen + l);
            assert(s.subrange(clen, clen + l) =~= bs);
        },
        (ValueModel::Opt(o), Shape::Opt(inner)) => {
            match o {
                Option::None => {
                    assert(s[0] == 0);
                },
                Option::Some(b) => {
                    assert(s[0] == 1);
                    assert(s.skip(1) =~= enc(*b) + rest);
                    lemma_value_roundtrip(*b, *inner, rest);
                    assert(Box::new(*b) == b);
                },
            }
        },
        (ValueModel::Tuple(ms), Shape::Tuple(shs)) => {
            lemma_list_roundtrip(ms, shs@, rest);
        },
        (ValueModel::Variant(t, p), Shape::Enum(shs)) => {
            assert(s[0] == t);
            assert(s.skip(1) =~= enc(*p) + rest);
            lemma_value_roundtrip(*p, shs@[t as int], rest);
            assert(Box::new(*p) == p);
        },
        _ => {},
    }
}

/// Round trip for a tuple's fields, one after another.
pub proof fn lemma_list_roundtrip(ms: Seq<ValueModel>, shs: Seq<Shape>, rest: Seq<u8>)
    requires
        conforms_list(ms, shs),
    ensures
        dec_list(enc_list(ms) + rest, shs) == Some((ms, enc_list(ms).len() as int)),
    decreases ms,
{
    if ms.len() == 0 {
        assert(ms =~= Seq::<ValueModel>::empty());
        assert(enc_list(ms) + rest =~= rest);
    } else {
        let s = enc_list(ms) + rest;
        let tail_bytes = enc_list(ms.drop_first()) + rest;
        assert(s =~= enc(ms[0]) + tail_bytes);
        lemma_value_roundtrip(ms[0], shs[0], tail_bytes);
        let n0 = enc(ms[0]).len() as int;
        assert(dec(s, shs[0]) == Some((ms[0], n0)));
        assert(s.skip(n0) =~= tail_bytes);
        lemma_list_roundtrip(ms.drop_first(), shs.drop_first(), rest);
        assert(seq![ms[0]] + ms.drop_first() =~= ms);
    }
}

// ---------------------------------------------------------------------------
// Exec encoding
// ---------------------------------------------------------------------------

/// Encoding one more element extends the encoding of a prefix.
pub proof fn lemma_enc_list_take_snoc(ms: Seq<ValueModel>, i: int)
    requires
        0 <= i < ms.len(),
    ensures
        enc_list(ms.take(i + 1)) == enc_list(ms.take(i)) + enc(ms[i]),
    decreases i,
{
    if i == 0 {
        assert(ms.take(0) =~= Seq::<ValueModel>::empty());
        assert(ms.take(1)[0] == ms[0]);
        assert(ms.take(1).drop_first() =~= Seq::<ValueModel>::empty());
        assert(enc_list(ms.take(1)) == enc(ms[0]) + enc_list(Seq::<ValueModel>::empty()));
        assert(enc_list(ms.take(1)) =~= enc_list(ms.take(0)) + enc(ms[0]));
    } else {
        lemma_enc_list_take_snoc(ms.drop_first(), i - 1);
        assert(ms.take(i + 1)[0] == ms[0]);
        assert(ms.take(i)[0] == ms[0]);
        assert(ms.take(i + 1).drop_first() =~= ms.drop_first().take(i));
        assert(ms.take(i).drop_first() =~= ms.drop_first().take(i - 1));
        assert(ms.drop_first()[i - 1] == ms[i]);
        assert(enc_list(ms.take(i + 1)) == enc(ms[0]) + enc_list(ms.drop_first().take(i)));
        assert(enc_list(ms.take(i)) == enc(ms[0]) + enc_list(ms.drop_first().take(i - 1)));
        assert(enc(ms[0]) + (enc_list(ms.drop_first().take(i - 1)) + enc(ms[i])) =~= (enc(
            ms[0],
        ) + enc_list(ms.drop_first().take(i - 1))) + enc(ms[i]));
    }
}

/// Exec encoding of a value, appended to `out`.
pub fn push_value(out: &mut Vec<u8>, v: &Value)
    ensures
        final(out)@ == old(out)@ + enc(model(*v)),
    decreases *v,
{
    match v {
        Value::Unit => {
            assert(final(out)@ =~= old(out)@ + enc(model(*v)));
        },
        Value::Bool(b) => {
            out.push(if *b {
                1
            } else {
                0
            });
            assert(final(out)@ =~= old(out)@ + enc(model(*v)));
        },
        Value::U8(x) => {
            push_le_bytes(out, *x as u128, 1);
        },
        Value::U16(x) => {
            push_le_bytes(out, *x as u128, 2);
        },
        Value::U32(x) => {
            push_le_bytes(out, *x as u128, 4);
        },
        Value::U64(x) => {
            push_le_bytes(out, *x as u128, 8);
        },
        Value::U128(x) => {
            push_le_bytes(out, *x, 16);
        },
        Value::Compact(x) => {
            push_compact(out, *x);
        },
        Value::Bytes(bs) => {
            let ghost mid0 = out@;
            push_compact(out, bs.len() as u128);
            let ghost mid = out@;
            let mut i: usize = 0;
            while i < bs.len()
                invariant
                    i <= bs@.len(),
                    out@ == mid + bs@.take(i as int),
                    mid == mid0 + compact_enc(bs@.len() as u128),
                decreases bs@.len() - i,
            {
                out.push(bs[i]);
                assert(bs@.take(i + 1) =~= bs@.take(i as int).push(bs@[i as int]));
                i = i + 1;
            }
            assert(bs@.take(bs@.len() as int) =~= bs@);
            assert(final(out)@ =~= old(out)@ + enc(model(*v)));
        },
        Value::Opt(o) => {
            match o {
                Option::None => {
                    out.push(0);
                    assert(final(out)@ =~= old(out)@ + enc(model(*v)));
                },
                Option::Some(b) => {
                    out.push(1);
                    push_value(out, b);
                    assert(final(out)@ =~= old(out)@ + enc(model(*v)));
                },
            }
        },
        Value::Tuple(vs) => {
            let ghost base = out@;
            let ghost ms = model_list(vs@);
            proof {
                lemma_model_list_len(vs@);
            }
            let mut i: usize = 0;
            while i < vs.len()
                invariant
                    i <= vs@.len(),
                    *v == Value::Tuple(*vs),
                    ms == model_list(vs@),
                    ms.len() == vs@.len(),
                    out@ == base + enc_list(ms.take(i as int)),
                decreases vs@.len() - i,
            {
                proof {
                    assert(decreases_to!(*v => v->Tuple_0));
                    assert(decreases_to!(v->Tuple_0 => v->Tuple_0@));
                    assert(decreases_to!(v->Tuple_0@ => v->Tuple_0@[i as int]));
                    assert(v->Tuple_0@[i as int] == vs@[i as int]);
                }
                push_value(out, &vs[i]);
                proof {
                    lemma_model_list_index(vs@, i as int);
                    lemma_enc_list_take_snoc(ms, i as int);
                }
                i = i + 1;
            }
            proof {
                assert(ms.take(vs@.len() as int) =~= ms);
            }
        },
        Value::Variant(t, p) => {
            out.push(*t);
            push_value(out, p);
            assert(final(out)@ =~= old(out)@ + enc(model(*v)));
        },
    }
}

/// Encode a value into a fresh buffer: exactly the wire encoding of its model.
pub fn encode_value(v: &Value) -> (r: Vec<u8>)
    ensures
        r@ == enc(v@),
{
    let mut out: Vec<u8> = Vec::new();
    push_value(&mut out, v);
    assert(out@ =~= enc(model(*v)));
    out
}

// ---------------------------------------------------------------------------
// Exec decoding
// ---------------------------------------------------------------------------

/// Prepending already-decoded fields and already-consumed bytes to the result
/// of decoding the remaining fields.
pub open spec fn dec_list_join(
    prefix: Seq<ValueModel>,
    used: int,
    tail: Option<(Seq<ValueModel>, int)>,
) -> Option<(Seq<ValueModel>, int)> {
    match tail {
        Option::Some(q) => Option::Some((prefix + q.0, used + q.1)),
        Option::None => Option::None,
    }
}

proof fn lemma_dec_list_join_empty(t: Option<(Seq<ValueModel>, int)>)
    ensures
        dec_list_join(Seq::empty(), 0, t) == t,
{
    match t {
        Option::Some(q) => {
            assert(Seq::empty() + q.0 =~= q.0);
        },
        Option::None => {},
    }
}

/// Decode a value of shape `sh` starting at `pos`: the decoded value and the
/// position just past it, or `CodecError` exactly when the input is truncated
/// or malformed there.
pub fn decode_value(bytes: &Vec<u8>, pos: usize, sh: &Shape) -> (r: Result<(Value, usize), Error>)
    requires
        pos <= bytes@.len(),
    ensures
        match r {
            Ok(p) => {
                &&& pos <= p.1 <= bytes@.len()
                &&& dec(bytes@.skip(pos as int), *sh) == Some((model(p.0), p.1 - pos))
            },
            Err(e) => dec(bytes@.skip(pos as int), *sh) is None && e == Error::CodecError,
        },
    decreases *sh,
{
    let blen: usize = bytes.len();
    let ghost s = bytes@.skip(pos as int);
    match sh {
        Shape::Unit => Ok((Value::Unit, pos)),
        Shape::Bool => {
            if pos < blen {
                let b0 = bytes[pos];
                assert(s[0] == b0);
                if b0 == 0 {
                    Ok((Value::Bool(false), pos + 1))
                } else if b0 == 1 {
                    Ok((Value::Bool(true), pos + 1))
                } else {
                    Err(Error::CodecError)
                }
            } else {
                Err(Error::CodecError)
            }
        },
        Shape::U8 => {
            if pos < blen {
                let b0 = bytes[pos];
                assert(s[0] == b0);
                Ok((Value::U8(b0), pos + 1))
            } else {
                Err(Error::CodecError)
            }
        },
        Shape::U16 => {
            if blen - pos >= 2 {
                let v = read_le_bytes(bytes, pos, 2);
                assert(bytes@.subrange(pos as int, pos + 2) =~= s.subrange(0, 2));
                Ok((Value::U16(v as u16), pos + 2))
            } else {
                Err(Error::CodecError)
            }
        },
        Shape::U32 => {
            if blen - pos >= 4 {
                let v = read_le_bytes(bytes, pos, 4);
                assert(bytes@.subrange(pos as int, pos + 4) =~= s.subrange(0, 4));
                Ok((Value::U32(v as u32), pos + 4))
            } else {
                Err(Error::CodecError)
            }
        },
        Shape::U64 => {
            if blen - pos >= 8 {
                let v = read_le_bytes(bytes, pos, 8);
                assert(bytes@.subrange(pos as int, pos + 8) =~= s.subrange(0, 8));
                Ok((Value::U64(v as u64), pos + 8))
            } else {
                Err(Error::CodecError)
            }
        },
        Shape::U128 => {
            if blen - pos >= 16 {
                let v = read_le_bytes(bytes, pos, 16);
                assert(bytes@.subrange(pos as int, pos + 16) =~= s.subrange(0, 16));
                Ok((Value::U128(v), pos + 16))
            } else {
                Err(Error::CodecError)
            }
        },
        Shape::Compact => {
            match compact_decode(bytes, pos) {
                Ok((n, used)) => Ok((Value::Compact(n), pos + used)),
                Err(e) => Err(e),
            }
        },
        Shape::Bytes => {
            match compact_decode(bytes, pos) {
                Ok((n, used)) => {
                    let rem: usize = blen - (pos + used);
                    if n <= rem as u128 {
                        let ln = n as usize;
                        let start = pos + used;
                        let mut buf: Vec<u8> = Vec::new();
                        let mut i: usize = 0;
                        while i < ln
                            invariant
                                i <= ln,
                                start + ln <= bytes@.len(),
                                bytes@.len() <= usize::MAX,
                                buf@ =~= bytes@.subrange(start as int, start + i),
                            decreases ln - i,
                        {
                            buf.push(bytes[start + i]);
                            assert(buf@ =~= bytes@.subrange(start as int, start + i + 1));
                            i = i + 1;
                        }
                        assert(buf@ =~= s.subrange(used as int, used + ln));
                        Ok((Value::Bytes(buf), start + ln))
                    } else {
                        Err(Error::CodecError)
                    }
                },
                Err(e) => Err(e),
            }
        },
        Shape::Opt(inner) => {
            if pos < blen {
                let b0 = bytes[pos];
                assert(s[0] == b0);
                if b0 == 0 {
                    Ok((Value::Opt(None), pos + 1))
                } else if b0 == 1 {
                    proof {
                        assert(decreases_to!(*sh => sh->Opt_0));
                    }
                    match decode_value(bytes, pos + 1, inner) {
                        Ok((v, end)) => {
                            assert(bytes@.skip(pos + 1) =~= s.skip(1));
                            Ok((Value::Opt(Some(Box::new(v))), end))
                        },
                        Err(e) => {
                            assert(bytes@.skip(pos + 1) =~= s.skip(1));
                            Err(e)
                        },
                    }
                } else {
                    Err(Error::CodecError)
                }
            } else {
                Err(Error::CodecError)
            }
        },
        Shape::Tuple(shs) => {
            let count: usize = shs.len();
            let mut items: Vec<Value> = Vec::new();
            let mut cur: usize = pos;
            let mut i: usize = 0;
            proof {
                lemma_dec_list_join_empty(dec_list(s, shs@));
                assert(shs@.skip(0) =~= shs@);
            }
            while i < count
                invariant
                    i <= count,
                    count == shs@.len(),
                    *sh == Shape::Tuple(*shs),
                    pos <= cur <= bytes@.len(),
                    dec_list(bytes@.skip(pos as int), shs@) == dec_list_join(
                        model_list(items@),
                        cur - pos,
                        dec_list(bytes@.skip(cur as int), shs@.skip(i as int)),
                    ),
                decreases count - i,
            {
                proof {
                    assert(decreases_to!(*sh => sh->Tuple_0));
                    assert(decreases_to!(sh->Tuple_0 => sh->Tuple_0@));
                    assert(decreases_to!(sh->Tuple_0@ => sh->Tuple_0@[i as int]));
                    assert(sh->Tuple_0@[i as int] == shs@[i as int]);
                }
                let step = decode_value(bytes, cur, &shs[i]);
                proof {
                    assert(shs@.skip(i as int)[0] == shs@[i as int]);
                }
                match step {
                    Ok((v, end2)) => {
                        proof {
                            let s_cur = bytes@.skip(cur as int);
                            assert(s_cur.skip(end2 - cur) =~= bytes@.skip(end2 as int));
                            assert(shs@.skip(i as int).drop_first() =~= shs@.skip(i + 1));
                            lemma_model_list_push(items@, v);
                            match dec_list(bytes@.skip(end2 as int), shs@.skip(i + 1)) {
                                Option::Some(q) => {
                                    assert(model_list(items@) + (seq![model(v)] + q.0) =~= (
                                    model_list(items@) + seq![model(v)]) + q.0);
                                },
                                Option::None => {},
                            }
                        }
                        items.push(v);
                        cur = end2;
                    },
                    Err(e) => {
                        return Err(e);
                    },
                }
                i = i + 1;
            }
            proof {
                assert(shs@.skip(count as int) =~= Seq::<Shape>::empty());
                assert(model_list(items@) + Seq::<ValueModel>::empty() =~= model_list(items@));
            }
            Ok((Value::Tuple(items), cur))
        },
        Shape::Enum(shs) => {
            if pos < blen {
                let tag = bytes[pos];
                assert(s[0] == tag);
                if (tag as usize) < shs.len() {
                    proof {
                        assert(decreases_to!(*sh => sh->Enum_0));
                        assert(decreases_to!(sh->Enum_0 => sh->Enum_0@));
                        assert(decreases_to!(sh->Enum_0@ => sh->Enum_0@[tag as int]));
                        assert(sh->Enum_0@[tag as int] == shs@[tag as int]);
                    }
                    match decode_value(bytes, pos + 1, &shs[tag as usize]) {
                        Ok((v, end)) => {
                            assert(bytes@.skip(pos + 1) =~= s.skip(1));
                            Ok((Value::Variant(tag, Box::new(v)), end))
                        },
                        Err(e) => {
                            assert(bytes@.skip(pos + 1) =~= s.skip(1));
                            Err(e)
                        },
                    }
                } else {
                    Err(Error::CodecError)
                }
            } else {
                Err(Error::CodecError)
            }
        },
    }
}

} // verus!
