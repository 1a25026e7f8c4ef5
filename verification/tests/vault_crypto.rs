use vellum::vault::crypto::{decrypt, decrypt_with_key, derive_key, encrypt, encrypt_with_key};

#[test]
fn derive_key_repeats_and_offsets_the_passphrase() {
    let key = derive_key("ab");
    let mut expected = [0u8; 32];
    for i in 0..32 {
        let b = if i % 2 == 0 { b'a' } else { b'b' };
        expected[i] = b.wrapping_add(i as u8);
    }
    assert_eq!(key, expected);
    assert_eq!(key[0], 97);
    assert_eq!(key[1], 99);
    assert_eq!(key[31], 98 + 31);
}

#[test]
fn derive_key_wraps_around() {
    let key = derive_key("\u{ff}");
    // 'ÿ' is encoded as 0xC3 0xBF.
    assert_eq!(key[0], 0xc3);
    assert_eq!(key[1], 0xc0);
    assert_eq!(key[2], 0xc5);
    assert_eq!(key[31], 0xbfu8.wrapping_add(31));
}

#[test]
fn encrypt_then_decrypt_gives_the_plaintext() {
    let data = encrypt("correct horse", b"SECRET=1\nTOKEN=2").unwrap();
    assert_eq!(data.len(), 12 + 16 + 16);
    assert_eq!(decrypt("correct horse", &data), Ok(b"SECRET=1\nTOKEN=2".to_vec()));
}

#[test]
fn encrypt_uses_fresh_nonces() {
    let a = encrypt("pw", b"same").unwrap();
    let b = encrypt("pw", b"same").unwrap();
    assert_ne!(a, b);
    assert_eq!(decrypt("pw", &a), decrypt("pw", &b));
}

#[test]
fn empty_plaintext_round_trip() {
    let data = encrypt("pw", b"").unwrap();
    assert_eq!(data.len(), 28);
    assert_eq!(decrypt("pw", &data), Ok(vec![]));
}

#[test]
fn short_data_is_corrupted() {
    assert_eq!(decrypt("pw", &[1, 2, 3]), Err("Corrupted vault data".to_string()));
    assert_eq!(decrypt("", &[0u8; 11]), Err("Corrupted vault data".to_string()));
}

#[test]
fn wrong_passphrase_fails() {
    let data = encrypt("right", b"value").unwrap();
    assert_eq!(
        decrypt("wrong", &data),
        Err("Decryption failed — wrong passphrase or corrupted data".to_string())
    );
}

#[test]
fn tampered_data_fails() {
    let mut data = encrypt("pw", b"value").unwrap();
    let last = data.len() - 1;
    data[last] ^= 1;
    assert_eq!(
        decrypt("pw", &data),
        Err("Decryption failed — wrong passphrase or corrupted data".to_string())
    );
    assert_eq!(
        decrypt("pw", &[0u8; 20]),
        Err("Decryption failed — wrong passphrase or corrupted data".to_string())
    );
}

#[test]
fn key_level_round_trip() {
    let key = [7u8; 32];
    let data = encrypt_with_key(&key, b"vault").unwrap();
    assert_eq!(decrypt_with_key(&key, &data), Ok(b"vault".to_vec()));
    assert!(decrypt_with_key(&[8u8; 32], &data).is_err());
}

#[test]
fn passphrase_and_key_levels_agree() {
    let data = encrypt("pw", b"x").unwrap();
    assert_eq!(decrypt_with_key(&derive_key("pw"), &data), Ok(b"x".to_vec()));
}
