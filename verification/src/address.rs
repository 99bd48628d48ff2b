//! Storage-address derivation: the binary key under which a piece of remote
//! state lives, computed from the module name, the item name and, for keyed
//! items, the encoded lookup keys hashed per the item's declared hasher.
use crate::hashing;
use crate::hashing::{blake2_128_of, blake2_256_of, twox_128_of, twox_64_of};
use crate::metadata::Hasher;
use vstd::prelude::*;
use vstd::string::StringSliceAdditionalSpecFns;

verus! {

/// The bytes a key contributes to an address under the given hasher.  The
/// concat hashers append the raw encoded key after the digest, so a prefix
/// scan can recover it.
pub open spec fn key_hash(h: Hasher, key: Seq<u8>) -> Seq<u8> {
    match h {
        Hasher::Blake2_128 => blake2_128_of(key),
        Hasher::Blake2_256 => blake2_256_of(key),
        Hasher::Blake2_128Concat => blake2_128_of(key) + key,
        Hasher::Twox128 => twox_128_of(key),
        Hasher::Twox64Concat => twox_64_of(key) + key,
        Hasher::Identity => key,
    }
}

/// The address of a plain storage item: the 16-byte digest of the module
/// name, then the 16-byte digest of the item name.
pub open spec fn plain_address_of(module: Seq<u8>, item: Seq<u8>) -> Seq<u8> {
    twox_128_of(module) + twox_128_of(item)
}

/// The address of one entry of a keyed storage item.
pub open spec fn map_address_of(module: Seq<u8>, item: Seq<u8>, h: Hasher, key: Seq<u8>) -> Seq<
    u8,
> {
    plain_address_of(module, item) + key_hash(h, key)
}

/// The address of one entry of a double-keyed storage item.
pub open spec fn double_map_address_of(
    module: Seq<u8>,
    item: Seq<u8>,
    h1: Hasher,
    key1: Seq<u8>,
    h2: Hasher,
    key2: Seq<u8>,
) -> Seq<u8> {
    plain_address_of(module, item) + key_hash(h1, key1) + key_hash(h2, key2)
}

/// Address determinism: the derived address is a function of the inputs
/// alone, so identical module, item, hasher and key give identical bytes.
pub proof fn lemma_map_address_deterministic(
    module1: Seq<u8>,
    item1: Seq<u8>,
    h1: Hasher,
    key1: Seq<u8>,
    module2: Seq<u8>,
    item2: Seq<u8>,
    h2: Hasher,
    key2: Seq<u8>,
)
    requires
        module1 == module2,
        item1 == item2,
        h1 == h2,
        key1 == key2,
    ensures
        map_address_of(module1, item1, h1, key1) == map_address_of(module2, item2, h2, key2),
{
}

/// Input sensitivity of the concat hashers, as far as the digests allow it
/// to be stated: under a concat hasher whose digest has its fixed width,
/// two keys of equal length that derive the same address are the same key.
/// Equivalently, changing the key (within one length) changes the address.
pub proof fn lemma_concat_address_keys_equal(
    module: Seq<u8>,
    item: Seq<u8>,
    h: Hasher,
    key1: Seq<u8>,
    key2: Seq<u8>,
)
    requires
        h == Hasher::Blake2_128Concat || h == Hasher::Twox64Concat || h == Hasher::Identity,
        h == Hasher::Blake2_128Concat ==> blake2_128_of(key1).len() == 16 && blake2_128_of(
            key2,
        ).len() == 16,
        h == Hasher::Twox64Concat ==> twox_64_of(key1).len() == 8 && twox_64_of(key2).len() == 8,
        key1.len() == key2.len(),
        map_address_of(module, item, h, key1) == map_address_of(module, item, h, key2),
    ensures
        key1 == key2,
{
    let a1 = map_address_of(module, item, h, key1);
    let a2 = map_address_of(module, item, h, key2);
    let p = plain_address_of(module, item).len() as int;
    let d: int = match h {
        Hasher::Blake2_128Concat => 16,
        Hasher::Twox64Concat => 8,
        _ => 0,
    };
    assert(a1.len() == p + d + key1.len());
    assert(key1 =~= key2) by {
        assert forall|i: int| 0 <= i < key1.len() implies key1[i] == key2[i] by {
            assert(a1[p + d + i] == key1[i]);
            assert(a2[p + d + i] == key2[i]);
        }
    }
}

/// Exec derivation of a key's address contribution.
pub fn hash_key(h: &Hasher, key: &Vec<u8>) -> (r: Vec<u8>)
    ensures
        r@ == key_hash(*h, key@),
{
    match h {
        Hasher::Blake2_128 => hashing::blake2_128(key.as_slice()),
        Hasher::Blake2_256 => hashing::blake2_256(key.as_slice()),
        Hasher::Blake2_128Concat => {
            let mut out = hashing::blake2_128(key.as_slice());
            push_all(&mut out, key);
            out
        },
        Hasher::Twox128 => hashing::twox_128(key.as_slice()),
        Hasher::Twox64Concat => {
            let mut out = hashing::twox_64(key.as_slice());
            push_all(&mut out, key);
            out
        },
        Hasher::Identity => {
            let mut out: Vec<u8> = Vec::new();
            push_all(&mut out, key);
            assert(out@ =~= key@);
            out
        },
    }
}

/// Append every byte of `src` to `out`.
pub fn push_all(out: &mut Vec<u8>, src: &Vec<u8>)
    ensures
        final(out)@ == old(out)@ + src@,
{
    let mut i: usize = 0;
    let ghost base = out@;
    while i < src.len()
        invariant
            i <= src@.len(),
            out@ == base + src@.take(i as int),
        decreases src@.len() - i,
    {
        out.push(src[i]);
        assert(out@ =~= base + src@.take(i + 1));
        i = i + 1;
    }
    assert(out@ =~= base + src@);
}

/// Exec derivation of a plain item's 32-byte address from the UTF-8 bytes of
/// its module and item names.
pub fn plain_address(module: &str, item: &str) -> (r: Vec<u8>)
    ensures
        r@ == plain_address_of(module.spec_bytes(), item.spec_bytes()),
        r@.len() == 32,
{
    let mut out = hashing::twox_128(module.as_bytes());
    let mut tail = hashing::twox_128(item.as_bytes());
    out.append(&mut tail);
    out
}

/// Exec derivation of a keyed entry's address.
pub fn map_address(module: &str, item: &str, h: &Hasher, key: &Vec<u8>) -> (r: Vec<u8>)
    ensures
        r@ == map_address_of(module.spec_bytes(), item.spec_bytes(), *h, key@),
{
    let mut out = plain_address(module, item);
    let mut tail = hash_key(h, key);
    out.append(&mut tail);
    out
}

/// Exec derivation of a double-keyed entry's address.
pub fn double_map_address(
    module: &str,
    item: &str,
    h1: &Hasher,
    key1: &Vec<u8>,
    h2: &Hasher,
    key2: &Vec<u8>,
) -> (r: Vec<u8>)
    ensures
        r@ == double_map_address_of(
            module.spec_bytes(),
            item.spec_bytes(),
            *h1,
            key1@,
            *h2,
            key2@,
        ),
{
    let mut out = plain_address(module, item);
    let mut tail1 = hash_key(h1, key1);
    out.append(&mut tail1);
    let mut tail2 = hash_key(h2, key2);
    out.append(&mut tail2);
    out
}

} // verus!
