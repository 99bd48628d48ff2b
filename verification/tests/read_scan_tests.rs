use subclient::api::{decode_read_response, nonce_from_account_info, AccountInfo};
use subclient::codec::{Shape, Value};
use subclient::error::Error;
use subclient::scan::scan_page;

#[test]
fn absent_value_reads_as_none_not_error() {
    assert_eq!(decode_read_response(&None, &Shape::U32), Ok(None));
}

#[test]
fn present_value_decodes_under_its_shape() {
    let raw = Some(7u32.to_le_bytes().to_vec());
    assert_eq!(decode_read_response(&raw, &Shape::U32), Ok(Some(Value::U32(7))));
}

#[test]
fn truncated_value_is_a_codec_error() {
    let raw = Some(vec![1u8, 2]);
    assert_eq!(decode_read_response(&raw, &Shape::U32), Err(Error::CodecError));
}

#[test]
fn nonce_defaults_to_zero_for_fresh_accounts() {
    assert_eq!(nonce_from_account_info(&None), 0);
    assert_eq!(nonce_from_account_info(&Some(AccountInfo { nonce: 41 })), 41);
}

fn snapshot(prefix: &[u8], n: u8) -> Vec<(Vec<u8>, Vec<u8>)> {
    // Entries under the prefix, interleaved with entries under another one,
    // in address order.
    let mut entries = Vec::new();
    for i in 0..n {
        let mut addr = prefix.to_vec();
        addr.push(i);
        entries.push((addr, vec![i, 100]));
        let mut other = prefix.to_vec();
        other[0] ^= 0xff;
        other.push(i);
        entries.push((other, vec![0]));
    }
    entries.sort_by(|a, b| a.0.cmp(&b.0));
    entries
}

#[test]
fn first_page_holds_at_most_page_size_entries() {
    let prefix = vec![0x20u8, 0x21];
    let entries = snapshot(&prefix, 25);
    let page = scan_page(&entries, &prefix, 10, None);
    assert_eq!(page.len(), 10);
    for (i, (addr, value)) in page.iter().enumerate() {
        assert!(addr.starts_with(&prefix));
        assert_eq!(value, &vec![i as u8, 100]);
    }
}

#[test]
fn resumed_page_continues_without_overlap_or_gap() {
    let prefix = vec![0x20u8, 0x21];
    let entries = snapshot(&prefix, 25);
    let first = scan_page(&entries, &prefix, 10, None);
    let last_addr = first.last().unwrap().0.clone();
    let second = scan_page(&entries, &prefix, 10, Some(&last_addr));
    assert_eq!(second.len(), 10);
    // No overlap: the second page starts just past the first.
    assert_eq!(second[0].1, vec![10, 100]);
    // No gap: together they cover the first twenty entries in order.
    for (i, (_, value)) in first.iter().chain(second.iter()).enumerate() {
        assert_eq!(value, &vec![i as u8, 100]);
    }
    let third = scan_page(&entries, &prefix, 10, Some(&second.last().unwrap().0));
    assert_eq!(third.len(), 5);
    assert_eq!(third[0].1, vec![20, 100]);
}

#[test]
fn scan_without_matches_is_empty() {
    let prefix = vec![0x20u8, 0x21];
    let entries = snapshot(&prefix, 5);
    let page = scan_page(&entries, &vec![0x99, 0x99], 10, None);
    assert!(page.is_empty());
}
