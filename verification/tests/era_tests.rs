use parity_scale_codec::Encode;
use subclient::era::{decode_era, push_era, Era};
use subclient::error::Error;

fn encode_era(e: &Era) -> Vec<u8> {
    let mut out = Vec::new();
    push_era(&mut out, e);
    out
}

#[test]
fn immortal_encodes_as_single_zero_byte() {
    assert_eq!(encode_era(&Era::Immortal), vec![0u8]);
    assert_eq!(decode_era(&vec![0u8], 0), Ok((Era::Immortal, 1)));
}

#[test]
fn mortal_rounds_period_up_to_power_of_two() {
    // A requested period of 5 becomes 8: a power of two at least 5.
    let e = Era::mortal(5, 3);
    assert_eq!(e, Era::Mortal { period: 8, phase: 3 });
    let e2 = Era::mortal(5, 13);
    assert_eq!(e2, Era::Mortal { period: 8, phase: 13 % 8 });
}

#[test]
fn mortal_roundtrip_preserves_period_and_phase() {
    for (period, current) in [(5u64, 0u64), (5, 6), (64, 1000), (200, 123456), (65536, 42)] {
        let e = Era::mortal(period, current);
        let bytes = encode_era(&e);
        assert_eq!(bytes.len(), 2);
        let (back, used) = decode_era(&bytes, 0).expect("era decode failed");
        assert_eq!(used, 2);
        assert_eq!(back, e);
        if let Era::Mortal { period: p, phase } = back {
            assert!(p.is_power_of_two() && p >= period.min(65536).max(4));
            // The phase is the reference block's offset in its period,
            // aligned down to the quantize factor of long periods.
            let quantize_factor = (p >> 12).max(1);
            assert_eq!(phase, current % p / quantize_factor * quantize_factor);
        } else {
            panic!("expected a mortal era");
        }
    }
}

#[test]
fn era_bytes_match_reference_codec() {
    for (period, current) in [(5u64, 3u64), (64, 1000), (32768, 20000), (65536, 123456)] {
        let ours = encode_era(&Era::mortal(period, current));
        let reference = sp_runtime::generic::Era::mortal(period, current).encode();
        assert_eq!(ours, reference, "era bytes differ for period {}", period);
    }
    assert_eq!(
        encode_era(&Era::Immortal),
        sp_runtime::generic::Era::Immortal.encode()
    );
}

#[test]
fn era_decode_rejects_invalid_packings() {
    // A first byte with low bits zero but nonzero value packs period 2,
    // which is below the minimum of 4.
    assert_eq!(decode_era(&vec![0x10u8, 0x00], 0), Err(Error::CodecError));
    // A truncated mortal era.
    assert_eq!(decode_era(&vec![0x25u8], 0), Err(Error::CodecError));
}
