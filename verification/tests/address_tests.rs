use subclient::address::{hash_key, map_address, plain_address};
use subclient::api::Api;
use subclient::error::Error;
use subclient::metadata::{
    ConstantEntry, FunctionEntry, Hasher, Metadata, Module, StorageEntry, StorageLayout,
};

fn to_hex(bytes: &[u8]) -> String {
    let mut s = String::new();
    for b in bytes {
        s.push_str(&format!("{:02x}", b));
    }
    s
}

fn sample_metadata() -> Metadata {
    Metadata {
        modules: vec![
            Module {
                name: String::from("System"),
                index: 0,
                functions: vec![FunctionEntry { name: String::from("remark"), index: 1 }],
                constants: vec![ConstantEntry {
                    name: String::from("BlockHashCount"),
                    value: vec![0x40, 0x00, 0x00, 0x00],
                }],
                storage: vec![
                    StorageEntry {
                        name: String::from("Account"),
                        layout: StorageLayout::SingleMap { hasher: Hasher::Blake2_128Concat },
                    },
                    StorageEntry {
                        name: String::from("Number"),
                        layout: StorageLayout::Plain,
                    },
                    StorageEntry {
                        name: String::from("Approvals"),
                        layout: StorageLayout::DoubleMap {
                            hasher1: Hasher::Blake2_128Concat,
                            hasher2: Hasher::Twox64Concat,
                        },
                    },
                ],
            },
            Module {
                name: String::from("Balances"),
                index: 3,
                functions: vec![FunctionEntry { name: String::from("transfer"), index: 0 }],
                constants: vec![],
                storage: vec![],
            },
        ],
    }
}

fn sample_api() -> Api {
    Api::new(sample_metadata(), vec![0u8; 32], 264, 2)
}

#[test]
fn plain_address_is_twox128_of_both_names() {
    // The well-known prefix of the account map: twox-128 of each name.
    let addr = plain_address("System", "Account");
    assert_eq!(
        to_hex(&addr),
        "26aa394eea5630e07c48ae0c9558cef7b99d880ec681799c0cf30e8886371da9"
    );
    let expected: Vec<u8> = sp_crypto_hashing::twox_128(b"System")
        .iter()
        .chain(sp_crypto_hashing::twox_128(b"Account").iter())
        .copied()
        .collect();
    assert_eq!(addr, expected);
}

#[test]
fn concat_hashers_append_the_raw_key() {
    let key = vec![7u8, 8, 9];
    let blake = hash_key(&Hasher::Blake2_128Concat, &key);
    let mut expected = sp_crypto_hashing::blake2_128(&key).to_vec();
    expected.extend_from_slice(&key);
    assert_eq!(blake, expected);

    let twox = hash_key(&Hasher::Twox64Concat, &key);
    let mut expected64 = sp_crypto_hashing::twox_64(&key).to_vec();
    expected64.extend_from_slice(&key);
    assert_eq!(twox, expected64);

    // The 8-byte twox digest of the empty string, a fixed reference value.
    let empty = hash_key(&Hasher::Twox64Concat, &vec![]);
    assert_eq!(to_hex(&empty), "99e9d85137db46ef");
}

#[test]
fn identity_hasher_keeps_the_key() {
    let key = vec![1u8, 2, 3];
    assert_eq!(hash_key(&Hasher::Identity, &key), key);
}

#[test]
fn blake2_256_matches_reference_digest() {
    // Blake2b-256 of the empty string.
    let empty = hash_key(&Hasher::Blake2_256, &vec![]);
    assert_eq!(
        to_hex(&empty),
        "0e5751c026e543b2e8ab2eb06099daa1d1e5df47778f7787faab45cdf12fe3a8"
    );
}

#[test]
fn map_address_is_deterministic_and_input_sensitive() {
    let key = vec![5u8; 4];
    let a1 = map_address("System", "Account", &Hasher::Blake2_128Concat, &key);
    let a2 = map_address("System", "Account", &Hasher::Blake2_128Concat, &key);
    assert_eq!(a1, a2);
    let other_key = map_address("System", "Account", &Hasher::Blake2_128Concat, &vec![6u8; 4]);
    assert_ne!(a1, other_key);
    let other_item = map_address("System", "BlockHash", &Hasher::Blake2_128Concat, &key);
    assert_ne!(a1, other_item);
    let other_module = map_address("Session", "Account", &Hasher::Blake2_128Concat, &key);
    assert_ne!(a1, other_module);
}

#[test]
fn map_accessor_on_plain_item_is_a_shape_mismatch() {
    let api = sample_api();
    let err = api.storage_map_address("System", "Number", &vec![1u8]);
    assert_eq!(err, Err(Error::ShapeMismatch));
    // And the plain accessor on a map is one as well.
    let err2 = api.storage_plain_address("System", "Account");
    assert_eq!(err2, Err(Error::ShapeMismatch));
}

#[test]
fn storage_map_address_uses_declared_hasher() {
    let api = sample_api();
    let key = vec![0xaau8; 32];
    let addr = api.storage_map_address("System", "Account", &key).unwrap();
    let mut expected = plain_address("System", "Account");
    expected.extend_from_slice(&sp_crypto_hashing::blake2_128(&key));
    expected.extend_from_slice(&key);
    assert_eq!(addr, expected);
}

#[test]
fn double_map_address_concatenates_both_key_hashes() {
    let api = sample_api();
    let key1 = vec![1u8, 2];
    let key2 = vec![3u8];
    let addr = api
        .storage_double_map_address("System", "Approvals", &key1, &key2)
        .unwrap();
    let mut expected = plain_address("System", "Approvals");
    expected.extend_from_slice(&sp_crypto_hashing::blake2_128(&key1));
    expected.extend_from_slice(&key1);
    expected.extend_from_slice(&sp_crypto_hashing::twox_64(&key2));
    expected.extend_from_slice(&key2);
    assert_eq!(addr, expected);
    // The single-key accessor on a double map is a shape mismatch, and the
    // double-key accessor on a single map as well.
    assert_eq!(
        api.storage_map_address("System", "Approvals", &key1),
        Err(Error::ShapeMismatch)
    );
    assert_eq!(
        api.storage_double_map_address("System", "Account", &key1, &key2),
        Err(Error::ShapeMismatch)
    );
}

#[test]
fn map_prefix_is_shared_by_all_entries() {
    let api = sample_api();
    let prefix = api.storage_map_prefix("System", "Account").unwrap();
    assert_eq!(prefix, plain_address("System", "Account"));
    let addr = api
        .storage_map_address("System", "Account", &vec![9u8; 16])
        .unwrap();
    assert!(addr.starts_with(&prefix));
    // A plain item has nothing to scan.
    assert_eq!(
        api.storage_map_prefix("System", "Number"),
        Err(Error::ShapeMismatch)
    );
}

#[test]
fn storage_lookups_fail_explicitly() {
    let api = sample_api();
    assert_eq!(
        api.storage_map_address("Staking", "Ledger", &vec![]),
        Err(Error::UnknownModule)
    );
    assert_eq!(
        api.storage_map_address("System", "Missing", &vec![]),
        Err(Error::UnknownStorageItem)
    );
}

#[test]
fn fetch_constant_returns_raw_value() {
    let api = sample_api();
    assert_eq!(
        api.fetch_constant_opaque_value("System", "BlockHashCount"),
        Ok(vec![0x40, 0x00, 0x00, 0x00])
    );
    assert_eq!(
        api.fetch_constant_opaque_value("System", "Missing"),
        Err(Error::UnknownConstant)
    );
    assert_eq!(
        api.fetch_constant_opaque_value("Missing", "BlockHashCount"),
        Err(Error::UnknownModule)
    );
}
