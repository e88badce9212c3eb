use colcrypt::cipher::{decrypt_cell, derive_key, encrypt_cell, next_nonce, CellError, Key};
use std::collections::HashSet;

fn key(passphrase: &str) -> Key {
    derive_key(passphrase).expect("key derivation")
}

fn is_lower_hex(s: &str) -> bool {
    s.chars().all(|c| c.is_ascii_digit() || ('a'..='f').contains(&c))
}

#[test]
fn derive_key_is_deterministic() {
    let k1 = key("pw123");
    let k2 = key("pw123");
    assert!(k1 == k2);
}

#[test]
fn derive_key_distinguishes_passphrases() {
    let k1 = key("pw1");
    let k2 = key("pw2");
    assert!(k1 != k2);
}

#[test]
fn nonces_are_fresh_across_ten_thousand_draws() {
    let mut seen: HashSet<Vec<u8>> = HashSet::new();
    for _ in 0..10_000 {
        let n = next_nonce();
        assert_eq!(n.len(), 24);
        seen.insert(n);
    }
    assert_eq!(seen.len(), 10_000);
}

#[test]
fn encrypt_cell_round_trips() {
    let k = key("pw123");
    let (ct_hex, nonce_hex) = encrypt_cell(&k, "hello");
    let (plain, err) = decrypt_cell(&k, &nonce_hex, &ct_hex);
    assert_eq!(plain.as_deref(), Some("hello"));
    assert_eq!(err, None);
}

#[test]
fn encrypt_cell_emits_lowercase_hex_of_the_right_shape() {
    let k = key("pw123");
    let (ct_hex, nonce_hex) = encrypt_cell(&k, "hello");
    // 24 nonce bytes, two digits each.
    assert_eq!(nonce_hex.len(), 48);
    // 5 message bytes plus the 16-byte tag, two digits each.
    assert_eq!(ct_hex.len(), 42);
    assert!(is_lower_hex(&nonce_hex));
    assert!(is_lower_hex(&ct_hex));
}

#[test]
fn empty_text_round_trips() {
    let k = key("pw123");
    let (ct_hex, nonce_hex) = encrypt_cell(&k, "");
    assert_eq!(ct_hex.len(), 32);
    let (plain, err) = decrypt_cell(&k, &nonce_hex, &ct_hex);
    assert_eq!(plain.as_deref(), Some(""));
    assert_eq!(err, None);
}

#[test]
fn decrypt_cell_rejects_the_wrong_key() {
    let ka = key("key a");
    let kb = key("key b");
    let (ct_hex, nonce_hex) = encrypt_cell(&ka, "secret");
    let (plain, err) = decrypt_cell(&kb, &nonce_hex, &ct_hex);
    assert_eq!(plain, None);
    assert_eq!(err, Some(CellError::AuthFailure));
    assert_eq!(err.unwrap().text(), "Decryption failed");
}

#[test]
fn decrypt_cell_rejects_broken_hex() {
    let k = key("pw123");
    let (ct_hex, _) = encrypt_cell(&k, "x");
    // A non-hex character in the nonce.
    let (plain, err) = decrypt_cell(&k, "zz", &ct_hex);
    assert_eq!(plain, None);
    assert_eq!(err, Some(CellError::DecodeFailure));
    // Odd length in the ciphertext.
    let good_nonce = "00".repeat(24);
    let (plain, err) = decrypt_cell(&k, &good_nonce, "abc");
    assert_eq!(plain, None);
    assert_eq!(err, Some(CellError::DecodeFailure));
}

#[test]
fn decrypt_cell_rejects_a_short_nonce() {
    let k = key("pw123");
    let (ct_hex, _) = encrypt_cell(&k, "x");
    // Valid hex, but only two bytes instead of twenty-four.
    let (plain, err) = decrypt_cell(&k, "aabb", &ct_hex);
    assert_eq!(plain, None);
    assert_eq!(err, Some(CellError::DecodeFailure));
}

#[test]
fn decrypt_cell_rejects_a_tampered_ciphertext() {
    let k = key("pw123");
    let (ct_hex, nonce_hex) = encrypt_cell(&k, "payload");
    let flipped = flip_first_hex_char(&ct_hex);
    let (plain, err) = decrypt_cell(&k, &nonce_hex, &flipped);
    assert_eq!(plain, None);
    assert_eq!(err, Some(CellError::AuthFailure));
}

#[test]
fn cell_error_reports_match_their_kinds() {
    assert_eq!(
        CellError::MissingInput.text(),
        "Nonce or cipher text is missing"
    );
    assert_eq!(
        CellError::DecodeFailure.text(),
        "Decoding nonce or cipher text failed"
    );
    assert_eq!(CellError::AuthFailure.text(), "Decryption failed");
    assert_eq!(
        CellError::TextEncodingFailure.text(),
        "Failed to convert decrypted bytes to string"
    );
}

fn flip_first_hex_char(s: &str) -> String {
    let mut chars: Vec<char> = s.chars().collect();
    chars[0] = if chars[0] == 'a' { 'b' } else { 'a' };
    chars.into_iter().collect()
}
