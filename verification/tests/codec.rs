use dedup_cache::codec::{decode_value, encode_key, encode_value};
use dedup_cache::storage::RemoteReply;

#[test]
fn encodes_decimal_digits() {
    assert_eq!(encode_value(0), b"0".to_vec());
    assert_eq!(encode_value(7), b"7".to_vec());
    assert_eq!(encode_value(10), b"10".to_vec());
    assert_eq!(encode_value(1780384), b"1780384".to_vec());
    assert_eq!(encode_key(512), b"512".to_vec());
    assert_eq!(encode_value(u64::MAX), b"18446744073709551615".to_vec());
}

#[test]
fn decodes_what_was_encoded() {
    for value in [0u64, 1, 9, 10, 11, 99, 100, 12345, u64::MAX - 1, u64::MAX] {
        assert_eq!(decode_value(&encode_value(value)), Some(value));
    }
}

#[test]
fn encoding_agrees_with_the_standard_formatting() {
    for value in [0u64, 5, 42, 1000, 909090, u64::MAX] {
        assert_eq!(encode_value(value), value.to_string().into_bytes());
    }
}

#[test]
fn rejects_what_is_not_an_encoding() {
    assert_eq!(decode_value(b""), None);
    assert_eq!(decode_value(b"00"), None);
    assert_eq!(decode_value(b"01"), None);
    assert_eq!(decode_value(b"-1"), None);
    assert_eq!(decode_value(b"+1"), None);
    assert_eq!(decode_value(b" 1"), None);
    assert_eq!(decode_value(b"1 "), None);
    assert_eq!(decode_value(b"12a"), None);
    assert_eq!(decode_value(b"1.5"), None);
    assert_eq!(decode_value(b"/"), None);
    assert_eq!(decode_value(b":"), None);
}

#[test]
fn rejects_numbers_beyond_the_range() {
    assert_eq!(decode_value(b"18446744073709551615"), Some(u64::MAX));
    assert_eq!(decode_value(b"18446744073709551616"), None);
    assert_eq!(decode_value(b"18446744073709551620"), None);
    assert_eq!(decode_value(b"99999999999999999999"), None);
    assert_eq!(decode_value(b"184467440737095516150"), None);
}

#[test]
fn remote_answer_is_read_as_a_reply() {
    assert_eq!(RemoteReply::decoded(None), RemoteReply::Missing);
    assert_eq!(RemoteReply::decoded(Some(b"90")), RemoteReply::Found(90));
    assert_eq!(RemoteReply::decoded(Some(b"0")), RemoteReply::Found(0));
    assert_eq!(RemoteReply::decoded(Some(b"")), RemoteReply::Failed);
    assert_eq!(RemoteReply::decoded(Some(b"{\"a\":1}")), RemoteReply::Failed);
    assert_eq!(RemoteReply::decoded(Some(&encode_value(77))), RemoteReply::Found(77));
}
