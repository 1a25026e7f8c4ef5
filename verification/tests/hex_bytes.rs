use vellum::auth::base64_bytes::{deserialize, deserialize_panics, serialize};

#[test]
fn serialize_writes_lower_case_pairs() {
    assert_eq!(serialize(&vec![0x00, 0x0f, 0xa0, 0xff, 0x12]), "000fa0ff12");
    assert_eq!(serialize(&vec![]), "");
}

#[test]
fn deserialize_reads_pairs() {
    assert_eq!(deserialize("000fa0ff12"), Ok(vec![0x00, 0x0f, 0xa0, 0xff, 0x12]));
    assert_eq!(deserialize("ABcd"), Ok(vec![0xab, 0xcd]));
    assert_eq!(deserialize(""), Ok(vec![]));
}

#[test]
fn deserialize_accepts_a_plus_sign_as_from_str_radix_does() {
    assert_eq!(deserialize("+f"), Ok(vec![0x0f]));
}

#[test]
fn deserialize_rejects_non_hex() {
    assert_eq!(deserialize("0g"), Err("invalid digit found in string".to_string()));
    assert_eq!(deserialize("12-1"), Err("invalid digit found in string".to_string()));
    assert_eq!(deserialize("é"), Err("invalid digit found in string".to_string()));
}

#[test]
fn hex_round_trip() {
    let bytes: Vec<u8> = (0..=255u8).collect();
    assert_eq!(deserialize(&serialize(&bytes)), Ok(bytes));
}

#[test]
fn deserialize_panics_only_when_a_reached_pair_cannot_be_sliced() {
    assert!(!deserialize_panics(""));
    assert!(!deserialize_panics("0fa0"));
    assert!(deserialize_panics("abc"));
    assert!(deserialize_panics("a\u{e9}"));
    // Decoding stops at the invalid first pair before it reaches the odd end.
    assert!(!deserialize_panics("zzz"));
    assert_eq!(deserialize("zzz"), Err("invalid digit found in string".to_string()));
    assert!(!deserialize_panics(&serialize(&vec![1, 2, 3])));
}
