use czoodle::digest::{hex_encode, sha256};
use czoodle::submission::anonymize_origin;
use czoodle::text::{format_decimal, join_with_commas, parse_decimal, split_at_commas};

#[test]
fn sha256_of_abc() {
    assert_eq!(
        sha256("abc"),
        "ba7816bf8f01cfea414140de5dae2223b00361a396177a9cb410ff61f20015ad"
    );
}

#[test]
fn sha256_of_empty_text() {
    let d = sha256("");
    assert_eq!(d, "e3b0c44298fc1c149afbf4c8996fb92427ae41e4649b934ca495991b7852b855");
    assert_eq!(d.len(), 64);
}

#[test]
fn hex_encode_two_digits_per_byte() {
    assert_eq!(hex_encode(&vec![0x00, 0xab, 0xff, 0x07]), "00abff07");
    assert_eq!(hex_encode(&vec![]), "");
}

#[test]
fn anonymized_origin_is_digest_of_origin_and_salt() {
    let h = anonymize_origin("127.0.0.1", "pepper");
    assert_eq!(h, "1ecb89f20e9a037d5f6063cba0b3230d714ad9213592fe0234a39db11ff4845f");
    assert_ne!(h, "127.0.0.1pepper");
}

#[test]
fn decimal_formatting() {
    assert_eq!(format_decimal(0), "0");
    assert_eq!(format_decimal(42), "42");
    assert_eq!(format_decimal(-7), "-7");
    assert_eq!(format_decimal(i32::MAX), "2147483647");
    assert_eq!(format_decimal(i32::MIN), "-2147483648");
}

#[test]
fn decimal_parsing_accepts_signs_and_digits() {
    assert_eq!(parse_decimal("5"), Some(5));
    assert_eq!(parse_decimal("+7"), Some(7));
    assert_eq!(parse_decimal("-12"), Some(-12));
    assert_eq!(parse_decimal("007"), Some(7));
    assert_eq!(parse_decimal("-0"), Some(0));
    assert_eq!(parse_decimal("2147483647"), Some(i32::MAX));
    assert_eq!(parse_decimal("-2147483648"), Some(i32::MIN));
}

#[test]
fn decimal_parsing_rejects_other_text() {
    assert_eq!(parse_decimal(""), None);
    assert_eq!(parse_decimal("-"), None);
    assert_eq!(parse_decimal("+"), None);
    assert_eq!(parse_decimal("1a"), None);
    assert_eq!(parse_decimal(" 1"), None);
    assert_eq!(parse_decimal("2147483648"), None);
    assert_eq!(parse_decimal("-2147483649"), None);
    assert_eq!(parse_decimal("99999999999999999999"), None);
}

#[test]
fn decimal_parsing_agrees_with_std() {
    for t in ["0", "13", "-13", "+0", "x", "", "--1", "4294967296", "-2147483648", "1,2"] {
        assert_eq!(parse_decimal(t), i32::from_str_radix(t, 10).ok(), "{}", t);
    }
}

#[test]
fn split_keeps_empty_pieces() {
    assert_eq!(split_at_commas("a,,b"), vec!["a", "", "b"]);
    assert_eq!(split_at_commas(""), vec![""]);
    assert_eq!(split_at_commas(","), vec!["", ""]);
    assert_eq!(split_at_commas("abc"), vec!["abc"]);
}

#[test]
fn join_puts_commas_between_pieces() {
    assert_eq!(join_with_commas(&vec!["a".to_string(), "b".to_string(), "c".to_string()]), "a,b,c");
    assert_eq!(join_with_commas(&vec!["only".to_string()]), "only");
    assert_eq!(join_with_commas(&vec![]), "");
}
