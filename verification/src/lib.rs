//! Column-oriented authenticated encryption for tabular data.
//!
//! The crate encrypts or decrypts one named column of a table of nullable
//! text cells. Each non-null cell is sealed with an authenticated stream
//! cipher under a key derived from a passphrase, with a fresh random nonce
//! per cell; ciphertext and nonce travel as lowercase hex text. Decryption
//! classifies per-cell failures instead of aborting the whole table, and
//! table-level work is split into contiguous row chunks so that callers can
//! fan the chunks out to parallel workers.

pub mod cipher;
pub mod codec;
pub mod hexcode;
pub mod table;
