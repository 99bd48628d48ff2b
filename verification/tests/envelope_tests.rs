use subclient::api::Api;
use subclient::error::Error;
use subclient::extra::GenericExtra;
use subclient::extrinsic::{
    reduce_payload, GenericAddress, MultiSignature, UncheckedExtrinsicV4,
};
use subclient::metadata::{FunctionEntry, Metadata, Module};

fn balances_metadata() -> Metadata {
    Metadata {
        modules: vec![Module {
            name: String::from("Balances"),
            index: 3,
            functions: vec![
                FunctionEntry { name: String::from("transfer"), index: 0 },
                FunctionEntry { name: String::from("transfer_keep_alive"), index: 3 },
            ],
            constants: vec![],
            storage: vec![],
        }],
    }
}

fn sample_api() -> Api {
    Api::new(balances_metadata(), vec![0x11u8; 32], 264, 2)
}

#[test]
fn resolving_balances_transfer_gives_prefix_bytes() {
    let api = sample_api();
    assert_eq!(api.pallet_call_index("Balances", "transfer"), Ok([0x03, 0x00]));
    let call = api.compose_call("Balances", "transfer", &vec![0xde, 0xad]).unwrap();
    assert_eq!(call[0..2], [0x03u8, 0x00]);
    assert_eq!(&call[2..], &[0xde, 0xad]);
    assert_eq!(
        api.pallet_call_index("Balances", "mint"),
        Err(Error::UnknownFunction)
    );
    assert_eq!(
        api.pallet_call_index("Assets", "transfer"),
        Err(Error::UnknownModule)
    );
}

#[test]
fn unsigned_envelope_version_byte_has_high_bit_clear() {
    let xt = UncheckedExtrinsicV4::new_unsigned(vec![0x03, 0x00]);
    let bytes = xt.encode();
    // A short envelope gets a one-byte compact length prefix; the version
    // byte follows it.
    assert_eq!(bytes[0], (bytes.len() as u8 - 1) << 2);
    assert_eq!(bytes[1], 0x04);
    assert_eq!(bytes[1] & 0x80, 0);
}

#[test]
fn signed_envelope_version_byte_has_high_bit_set() {
    let address = GenericAddress::Id(vec![0xaa; 32]);
    let signature = MultiSignature::Sr25519(vec![0xbb; 64]);
    let extra = GenericExtra::immortal_with_nonce_and_tip(7, 0);
    let xt = UncheckedExtrinsicV4::new_signed(vec![0x03, 0x00], address, signature, extra);
    let bytes = xt.encode();
    // The inner envelope is 104 bytes here, so the compact length prefix is
    // two bytes; the version byte follows it.
    let inner_len = 1 + 33 + 65 + 3 + 2;
    assert_eq!(bytes.len(), 2 + inner_len);
    assert_eq!(bytes[2], 0x84);
    assert_ne!(bytes[2] & 0x80, 0);
    // Address tag and identifier bytes come next, then the signature tag.
    assert_eq!(bytes[3], 0x00);
    assert_eq!(&bytes[4..36], &[0xaa; 32]);
    assert_eq!(bytes[36], 0x01);
}

#[test]
fn signed_envelope_bytes_are_exact() {
    let address = GenericAddress::Id(vec![0xaa; 32]);
    let signature = MultiSignature::Sr25519(vec![0xbb; 64]);
    let extra = GenericExtra::immortal_with_nonce_and_tip(7, 0);
    let xt = UncheckedExtrinsicV4::new_signed(vec![0x03, 0x00], address, signature, extra);
    // The inner envelope is 104 bytes: compact(104) is the two bytes of
    // 104 * 4 + 1 little-endian.
    let mut expected = vec![0xa1u8, 0x01];
    expected.push(0x84);
    expected.push(0x00);
    expected.extend_from_slice(&[0xaa; 32]);
    expected.push(0x01);
    expected.extend_from_slice(&[0xbb; 64]);
    expected.extend_from_slice(&[0x00, 0x1c, 0x00]);
    expected.extend_from_slice(&[0x03, 0x00]);
    assert_eq!(xt.encode(), expected);
}

#[test]
fn decoding_an_envelope_recovers_its_classification() {
    let unsigned = UncheckedExtrinsicV4::new_unsigned(vec![0x03, 0x00]);
    assert_eq!(
        subclient::extrinsic::decode_extrinsic_kind(&unsigned.encode()),
        Ok(false)
    );
    let signed = UncheckedExtrinsicV4::new_signed(
        vec![0x03, 0x00],
        GenericAddress::Id(vec![0xaa; 32]),
        MultiSignature::Ed25519(vec![0xbb; 64]),
        GenericExtra::immortal_with_nonce_and_tip(1, 2),
    );
    assert_eq!(
        subclient::extrinsic::decode_extrinsic_kind(&signed.encode()),
        Ok(true)
    );
    // A garbled version byte is rejected, not misclassified.
    assert_eq!(
        subclient::extrinsic::decode_extrinsic_kind(&vec![0x08, 0x33, 0x00]),
        Err(Error::CodecError)
    );
}

#[test]
fn decoding_an_envelope_recovers_every_field() {
    let unsigned = UncheckedExtrinsicV4::new_unsigned(vec![0x03, 0x00, 0x07]);
    let bytes = unsigned.encode();
    let (back, used) = subclient::extrinsic::decode_extrinsic(&bytes).unwrap();
    assert_eq!(back, unsigned);
    assert_eq!(used, bytes.len());

    let signed = UncheckedExtrinsicV4::new_signed(
        vec![0x03, 0x00, 0x07],
        GenericAddress::Id(vec![0xaa; 32]),
        MultiSignature::Ecdsa(vec![0xcc; 65]),
        GenericExtra::new(subclient::era::Era::mortal(64, 1000), 9, 1_000_000),
    );
    let bytes = signed.encode();
    let (back, used) = subclient::extrinsic::decode_extrinsic(&bytes).unwrap();
    assert_eq!(back, signed);
    assert_eq!(used, bytes.len());

    // A frame whose length prefix promises more bytes than are there.
    let mut truncated = signed.encode();
    truncated.pop();
    assert_eq!(
        subclient::extrinsic::decode_extrinsic(&truncated),
        Err(Error::CodecError)
    );
}

#[test]
fn hex_encode_prefixes_and_spells_the_bytes() {
    let xt = UncheckedExtrinsicV4::new_unsigned(vec![0x03, 0x00]);
    let bytes = xt.encode();
    let hex = xt.hex_encode();
    assert!(hex.starts_with("0x"));
    let mut expected = String::from("0x");
    for b in &bytes {
        expected.push_str(&format!("{:02x}", b));
    }
    assert_eq!(hex, expected);
}

#[test]
fn signing_payload_ends_with_additional_signed_tuple() {
    let api = sample_api();
    let call = vec![0x03u8, 0x00, 0x01];
    let extra = GenericExtra::immortal_with_nonce_and_tip(7, 0);
    let payload = api.signing_payload(&call, &extra);
    // The payload starts with the call and the extra: immortal era byte,
    // compact nonce 7, compact tip 0.
    assert_eq!(&payload[0..3], &call[..]);
    assert_eq!(&payload[3..6], &[0x00, 7 << 2, 0x00]);
    // It ends with the additional-signed tuple unchanged: the two version
    // numbers little-endian, the genesis hash, and the checkpoint hash.
    let mut additional: Vec<u8> = Vec::new();
    additional.extend_from_slice(&264u32.to_le_bytes());
    additional.extend_from_slice(&2u32.to_le_bytes());
    additional.extend_from_slice(&[0x11; 32]);
    additional.extend_from_slice(&[0x11; 32]);
    assert!(payload.ends_with(&additional));
    assert_eq!(payload.len(), call.len() + 3 + additional.len());
}

#[test]
fn short_payloads_are_signed_verbatim_long_ones_hashed() {
    let short = vec![1u8; 256];
    assert_eq!(reduce_payload(&short), short);
    let long = vec![1u8; 257];
    let reduced = reduce_payload(&long);
    assert_eq!(reduced.len(), 32);
    assert_ne!(reduced, long);
    assert_eq!(reduced, sp_crypto_hashing::blake2_256(&long).to_vec());
}
