use parity_scale_codec::{Compact, Encode};
use subclient::codec::{decode_value, encode_value, Shape, Value};
use subclient::error::Error;

fn enc(v: &Value) -> Vec<u8> {
    encode_value(v)
}

fn roundtrip(v: Value, shape: Shape) {
    let bytes = enc(&v);
    let (back, used) = decode_value(&bytes, 0, &shape).expect("decode failed");
    assert_eq!(back, v);
    assert_eq!(used, bytes.len());
}

#[test]
fn compact_matches_reference_codec() {
    let cases: Vec<u128> = vec![
        0,
        1,
        42,
        63,
        64,
        69,
        16383,
        16384,
        0x3fff_ffff,
        0x4000_0000,
        0xffff_ffff,
        1_000_000_000_000,
        u64::MAX as u128,
        u128::MAX,
    ];
    for n in cases {
        let ours = enc(&Value::Compact(n));
        let reference = Compact(n).encode();
        assert_eq!(ours, reference, "compact encoding of {} differs", n);
    }
}

#[test]
fn fixed_width_integers_are_little_endian() {
    assert_eq!(enc(&Value::U8(0xab)), vec![0xab]);
    assert_eq!(enc(&Value::U16(0x1234)), vec![0x34, 0x12]);
    assert_eq!(enc(&Value::U32(0xdeadbeef)), 0xdeadbeefu32.encode());
    assert_eq!(enc(&Value::U64(0x0102030405060708)), 0x0102030405060708u64.encode());
    assert_eq!(enc(&Value::U128(7)), 7u128.encode());
}

#[test]
fn bool_and_option_and_bytes_match_reference_codec() {
    assert_eq!(enc(&Value::Bool(true)), true.encode());
    assert_eq!(enc(&Value::Bool(false)), false.encode());
    assert_eq!(enc(&Value::Opt(None)), Option::<u32>::None.encode());
    assert_eq!(
        enc(&Value::Opt(Some(Box::new(Value::U32(9))))),
        Some(9u32).encode()
    );
    let payload = vec![1u8, 2, 3, 4, 5];
    assert_eq!(enc(&Value::Bytes(payload.clone())), payload.encode());
}

#[test]
fn tuples_concatenate_in_order() {
    let v = Value::Tuple(vec![Value::U8(1), Value::U16(2), Value::Compact(300)]);
    assert_eq!(enc(&v), (1u8, 2u16, Compact(300u128)).encode());
}

#[test]
fn roundtrip_all_supported_shapes() {
    roundtrip(Value::Unit, Shape::Unit);
    roundtrip(Value::Bool(true), Shape::Bool);
    roundtrip(Value::U8(200), Shape::U8);
    roundtrip(Value::U16(65535), Shape::U16);
    roundtrip(Value::U32(0), Shape::U32);
    roundtrip(Value::U64(u64::MAX), Shape::U64);
    roundtrip(Value::U128(u128::MAX), Shape::U128);
    roundtrip(Value::Compact(16384), Shape::Compact);
    roundtrip(Value::Bytes(vec![]), Shape::Bytes);
    roundtrip(Value::Bytes((0..255u8).collect()), Shape::Bytes);
    roundtrip(Value::Opt(None), Shape::Opt(Box::new(Shape::U32)));
    roundtrip(
        Value::Opt(Some(Box::new(Value::U32(77)))),
        Shape::Opt(Box::new(Shape::U32)),
    );
    roundtrip(
        Value::Tuple(vec![
            Value::Compact(5),
            Value::Bytes(vec![9, 9]),
            Value::Tuple(vec![Value::Bool(false), Value::U8(3)]),
        ]),
        Shape::Tuple(vec![
            Shape::Compact,
            Shape::Bytes,
            Shape::Tuple(vec![Shape::Bool, Shape::U8]),
        ]),
    );
    roundtrip(
        Value::Variant(1, Box::new(Value::U32(12))),
        Shape::Enum(vec![Shape::Unit, Shape::U32]),
    );
}

#[test]
fn decode_rejects_truncated_input() {
    let bytes = vec![0x01u8];
    assert_eq!(decode_value(&bytes, 0, &Shape::U32), Err(Error::CodecError));
    let empty: Vec<u8> = vec![];
    assert_eq!(decode_value(&empty, 0, &Shape::U8), Err(Error::CodecError));
    // A bytes value whose length prefix promises more than is there.
    let short = vec![0x10u8, 1, 2];
    assert_eq!(decode_value(&short, 0, &Shape::Bytes), Err(Error::CodecError));
}

#[test]
fn decode_rejects_out_of_range_variant_tag() {
    let bytes = vec![2u8];
    let shape = Shape::Enum(vec![Shape::Unit, Shape::Unit]);
    assert_eq!(decode_value(&bytes, 0, &shape), Err(Error::CodecError));
}

#[test]
fn decode_rejects_bad_bool_byte() {
    let bytes = vec![7u8];
    assert_eq!(decode_value(&bytes, 0, &Shape::Bool), Err(Error::CodecError));
}

#[test]
fn decode_reports_consumed_position() {
    let mut bytes = enc(&Value::Compact(69));
    bytes.extend_from_slice(&[0xff, 0xff]);
    let (v, used) = decode_value(&bytes, 0, &Shape::Compact).unwrap();
    assert_eq!(v, Value::Compact(69));
    assert_eq!(used, bytes.len() - 2);
}
