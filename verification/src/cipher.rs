//! Per-cell authenticated encryption.
//!
//! A 32-byte key is stretched out of a passphrase by a memory-hard hash
//! with a fixed salt (a deliberate simplification: strength rests on the
//! passphrase alone). Each value is sealed under a fresh random 24-byte
//! nonce with an authenticated stream cipher, and both ciphertext and nonce
//! are rendered as lowercase hex text. Opening a cell classifies every
//! failure — bad hex, failed authentication, non-text plaintext — so that
//! one bad cell never aborts a whole column.

use crate::hexcode::{from_hex, hex_of, lemma_unhex_of_hex_of, to_hex, unhex_of, valid_hex};
use vstd::prelude::*;
use vstd::string::StringExecFns;
use vstd::utf8::{decode_utf8, encode_utf8, valid_utf8};
use xsalsa20poly1305::aead::generic_array::GenericArray;
use xsalsa20poly1305::aead::Aead;
use xsalsa20poly1305::KeyInit;

verus! {

/// Length in bytes of a symmetric key.
pub const KEY_LEN: usize = 32;

/// Length in bytes of a nonce.
pub const NONCE_LEN: usize = 24;

/// Length in bytes of the authentication tag at the front of a ciphertext.
pub const TAG_LEN: usize = 16;

/// The key the passphrase stretches to: a function of the passphrase alone.
pub uninterp spec fn key_of(passphrase: Seq<char>) -> Seq<u8>;

/// The ciphertext sealed over a message: a function of key, nonce and
/// message alone.
pub uninterp spec fn sealed_of(key: Seq<u8>, nonce: Seq<u8>, msg: Seq<u8>) -> Seq<u8>;

/// What opening a ciphertext yields: the message when the tag
/// authenticates, nothing otherwise; a function of key, nonce and
/// ciphertext alone.
pub uninterp spec fn opened_of(key: Seq<u8>, nonce: Seq<u8>, ct: Seq<u8>) -> Option<Seq<u8>>;

/// A symmetric key of exactly [`KEY_LEN`] bytes, derived from a passphrase
/// and held only for the duration of one operation.
#[derive(PartialEq, Eq)]
pub struct Key {
    bytes: Vec<u8>,
}

impl View for Key {
    type V = Seq<u8>;

    closed spec fn view(&self) -> Seq<u8> {
        self.bytes@
    }
}

impl Key {
    /// A well-formed key holds exactly [`KEY_LEN`] bytes.
    pub open spec fn wf(&self) -> bool {
        self@.len() == KEY_LEN
    }
}

/// Relies on `argon2::Argon2::hash_password_into` with the crate's fixed
/// salt: a memory-hard hash whose 32-byte output is a function of the
/// passphrase alone; it fails only when it cannot obtain its working
/// memory or the passphrase exceeds the algorithm's length cap.
#[verifier::external_body]
fn argon2_key(passphrase: &str) -> (r: Option<Vec<u8>>)
    ensures
        r matches Some(k) ==> k@ == key_of(passphrase@) && k@.len() == KEY_LEN,
{
    let salt = b"Q88pmcJzbz8hvnd0ISZ2eF0V3xwcBTHCF4Hj8tsOcX";
    let mut out = [0u8; 32];
    match argon2::Argon2::default().hash_password_into(passphrase.as_bytes(), salt, &mut out) {
        Ok(()) => Some(out.to_vec()),
        Err(_) => None,
    }
}

/// Derive the symmetric key for a passphrase. Deterministic: the same
/// passphrase always yields the same key. Returns `None` only when the
/// underlying hash cannot run (it cannot obtain working memory, or the
/// passphrase exceeds its length cap); that failure aborts the whole
/// operation, it is never smoothed over.
pub fn derive_key(passphrase: &str) -> (r: Option<Key>)
    ensures
        r matches Some(k) ==> k.wf() && k@ == key_of(passphrase@),
{
    match argon2_key(passphrase) {
        Some(bytes) => Some(Key { bytes }),
        None => None,
    }
}

/// Relies on `rand::random`: fills the array from the thread-local
/// cryptographically secure generator. Nothing is promised of the values.
#[verifier::external_body]
fn random_nonce() -> (n: Vec<u8>)
    ensures
        n@.len() == NONCE_LEN,
{
    let bytes: [u8; 24] = rand::random();
    bytes.to_vec()
}

/// A fresh random nonce of [`NONCE_LEN`] bytes, independent across calls.
pub fn next_nonce() -> (n: Vec<u8>)
    ensures
        n@.len() == NONCE_LEN,
{
    random_nonce()
}

/// Relies on `xsalsa20poly1305::XSalsa20Poly1305` encryption through
/// `aead::Aead`: the ciphertext — a 16-byte tag followed by the masked
/// message — is a function of key, nonce and message alone, and decrypting
/// it under the same key and nonce gives the message back.
#[verifier::external_body]
fn aead_seal(key: &Key, nonce: &Vec<u8>, msg: &[u8]) -> (ct: Vec<u8>)
    requires
        key.wf(),
        nonce@.len() == NONCE_LEN,
    ensures
        ct@ == sealed_of(key@, nonce@, msg@),
        ct@.len() == msg@.len() + TAG_LEN,
        opened_of(key@, nonce@, ct@) == Some(msg@),
{
    let cipher = xsalsa20poly1305::XSalsa20Poly1305::new(GenericArray::from_slice(&key.bytes));
    cipher.encrypt(GenericArray::from_slice(nonce), msg).unwrap()
}

/// Relies on `XSalsa20Poly1305` decryption through `aead::Aead`: it
/// succeeds, with the sealed message, exactly when the leading tag
/// authenticates the rest under this key and nonce; a function of key,
/// nonce and ciphertext alone.
#[verifier::external_body]
fn aead_open(key: &Key, nonce: &Vec<u8>, ct: &Vec<u8>) -> (r: Option<Vec<u8>>)
    requires
        key.wf(),
        nonce@.len() == NONCE_LEN,
    ensures
        r matches Some(m) ==> opened_of(key@, nonce@, ct@) == Some(m@),
        r is None ==> opened_of(key@, nonce@, ct@) is None,
{
    let cipher = xsalsa20poly1305::XSalsa20Poly1305::new(GenericArray::from_slice(&key.bytes));
    cipher.decrypt(GenericArray::from_slice(nonce), ct.as_slice()).ok()
}

/// Relies on `String::from_utf8`: succeeds exactly on valid UTF-8, giving
/// the text those bytes encode.
#[verifier::external_body]
fn bytes_to_text(bytes: Vec<u8>) -> (r: Option<String>)
    ensures
        r matches Some(s) ==> valid_utf8(bytes@) && s@ == decode_utf8(bytes@),
        r is None ==> !valid_utf8(bytes@),
{
    String::from_utf8(bytes).ok()
}

/// Why opening one cell produced no text. Per-cell and recoverable: a
/// failed cell is recorded and its neighbours go on undisturbed.
#[derive(Clone, Copy, Debug, PartialEq, Eq, Structural)]
pub enum CellError {
    /// The nonce or the ciphertext cell was null.
    MissingInput,
    /// The nonce or the ciphertext was not hex text of the right shape.
    DecodeFailure,
    /// The authentication tag did not verify: wrong key, wrong nonce, or a
    /// corrupted ciphertext.
    AuthFailure,
    /// The cell decrypted, but not to valid text.
    TextEncodingFailure,
}

impl CellError {
    /// The human-readable report recorded in an error column.
    pub open spec fn text_spec(&self) -> Seq<char> {
        match self {
            CellError::MissingInput => "Nonce or cipher text is missing"@,
            CellError::DecodeFailure => "Decoding nonce or cipher text failed"@,
            CellError::AuthFailure => "Decryption failed"@,
            CellError::TextEncodingFailure => "Failed to convert decrypted bytes to string"@,
        }
    }

    /// The human-readable report recorded in an error column.
    pub fn text(&self) -> (r: String)
        ensures
            r@ == self.text_spec(),
    {
        match self {
            CellError::MissingInput => String::from_str("Nonce or cipher text is missing"),
            CellError::DecodeFailure => String::from_str("Decoding nonce or cipher text failed"),
            CellError::AuthFailure => String::from_str("Decryption failed"),
            CellError::TextEncodingFailure => String::from_str(
                "Failed to convert decrypted bytes to string",
            ),
        }
    }
}

/// What decoding one (nonce, ciphertext) cell pair yields. A pair of null
/// cells — an encrypted null — stays a null with no error; a pair with
/// exactly one side missing is reported as missing input; a full pair
/// yields the recovered text, or the error that stopped it, never both.
pub open spec fn decoded_cell(
    key: Seq<u8>,
    nonce_hex: Option<Seq<char>>,
    ct_hex: Option<Seq<char>>,
) -> (Option<Seq<char>>, Option<CellError>) {
    match (nonce_hex, ct_hex) {
        (None, None) => (None, None),
        (Some(nh), Some(ch)) => {
            if !(valid_hex(nh) && valid_hex(ch)) {
                (None, Some(CellError::DecodeFailure))
            } else if unhex_of(nh).len() != NONCE_LEN {
                (None, Some(CellError::DecodeFailure))
            } else {
                match opened_of(key, unhex_of(nh), unhex_of(ch)) {
                    None => (None, Some(CellError::AuthFailure)),
                    Some(m) => if !valid_utf8(m) {
                        (None, Some(CellError::TextEncodingFailure))
                    } else {
                        (Some(decode_utf8(m)), None)
                    },
                }
            }
        },
        _ => (None, Some(CellError::MissingInput)),
    }
}

/// An encrypted cell pair: the nonce column holds the hex of some fresh
/// 24-byte nonce, and the ciphertext column holds the hex of the message
/// sealed under the key and that nonce.
pub open spec fn encrypted_cell(
    key: Seq<u8>,
    msg: Seq<char>,
    ct_hex: Seq<char>,
    nonce_hex: Seq<char>,
) -> bool {
    exists|n: Seq<u8>|
        n.len() == NONCE_LEN && nonce_hex == #[trigger] hex_of(n) && ct_hex == hex_of(
            sealed_of(key, n, encode_utf8(msg)),
        )
}

/// Seal one text value: returns `(ciphertext_hex, nonce_hex)` under a
/// fresh nonce. Decoding the pair with the same key gives the value back.
pub fn encrypt_cell(key: &Key, msg: &str) -> (r: (String, String))
    requires
        key.wf(),
    ensures
        encrypted_cell(key@, msg@, r.0@, r.1@),
        decoded_cell(key@, Some(r.1@), Some(r.0@)) == (Some(msg@), None::<CellError>),
{
    let nonce = next_nonce();
    let ct = aead_seal(key, &nonce, msg.as_bytes());
    let ct_hex = to_hex(&ct);
    let nonce_hex = to_hex(&nonce);
    proof {
        lemma_unhex_of_hex_of(nonce@);
        lemma_unhex_of_hex_of(ct@);
        vstd::utf8::encode_utf8_valid_utf8(msg@);
        vstd::utf8::encode_utf8_decode_utf8(msg@);
        assert(nonce_hex@ == hex_of(nonce@));
        assert(encrypted_cell(key@, msg@, ct_hex@, nonce_hex@));
    }
    (ct_hex, nonce_hex)
}

/// Open one (nonce, ciphertext) cell pair of hex texts. Exactly one side
/// of the result is populated: the recovered text, or the error.
pub fn decrypt_cell(key: &Key, nonce_hex: &str, ct_hex: &str) -> (r: (
    Option<String>,
    Option<CellError>,
))
    requires
        key.wf(),
    ensures
        (r.0.deep_view(), r.1) == decoded_cell(key@, Some(nonce_hex@), Some(ct_hex@)),
{
    match (from_hex(nonce_hex), from_hex(ct_hex)) {
        (Some(nonce), Some(ct)) => {
            if nonce.len() != NONCE_LEN {
                (None, Some(CellError::DecodeFailure))
            } else {
                match aead_open(key, &nonce, &ct) {
                    None => (None, Some(CellError::AuthFailure)),
                    Some(m) => match bytes_to_text(m) {
                        None => (None, Some(CellError::TextEncodingFailure)),
                        Some(s) => (Some(s), None),
                    },
                }
            }
        },
        _ => (None, Some(CellError::DecodeFailure)),
    }
}

} // verus!
