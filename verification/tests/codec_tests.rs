use colcrypt::cipher::{derive_key, encrypt_cell};
use colcrypt::codec::{
    decode_column, decode_slice, decrypt_columns, encode_column, encode_slice, encrypt_column,
    split_offsets, CodecError,
};
use colcrypt::table::{Column, Table};

fn column(name: &str, cells: Vec<Option<&str>>) -> Column {
    Column {
        name: name.to_string(),
        cells: cells.into_iter().map(|c| c.map(|s| s.to_string())).collect(),
    }
}

fn cells_of(col: &Column) -> Vec<Option<String>> {
    col.cells.clone()
}

#[test]
fn split_offsets_divides_ten_rows_into_three_chunks() {
    assert_eq!(split_offsets(10, 3), vec![(0, 3), (3, 3), (6, 4)]);
}

#[test]
fn split_offsets_handles_one_chunk_and_empty_input() {
    assert_eq!(split_offsets(5, 1), vec![(0, 5)]);
    assert_eq!(split_offsets(0, 4), vec![(0, 0), (0, 0), (0, 0), (0, 0)]);
}

#[test]
fn split_offsets_handles_more_chunks_than_rows() {
    let chunks = split_offsets(3, 8);
    assert_eq!(chunks.len(), 8);
    assert_eq!(chunks[7], (0, 3));
    let total: usize = chunks.iter().map(|c| c.1).sum();
    assert_eq!(total, 3);
}

#[test]
fn encode_column_propagates_nulls_and_names_outputs() {
    let key = derive_key("pw123").unwrap();
    let col = column("msg", vec![Some("a"), None]);
    let (ct, nonce) = encode_column(&col, &key);
    assert_eq!(ct.name, "msg_encrypted");
    assert_eq!(nonce.name, "msg_nonce");
    assert_eq!(ct.cells.len(), 2);
    assert_eq!(nonce.cells.len(), 2);
    assert!(ct.cells[0].is_some() && nonce.cells[0].is_some());
    assert!(ct.cells[1].is_none() && nonce.cells[1].is_none());
}

#[test]
fn decode_column_reports_one_sided_nulls_and_passes_null_pairs() {
    let key = derive_key("pw123").unwrap();
    let (ct_hex, _) = encrypt_cell(&key, "v");
    let nonces = column("msg_nonce", vec![None, None]);
    let cts = Column {
        name: "msg_encrypted".to_string(),
        cells: vec![Some(ct_hex), None],
    };
    let (plain, errs) = decode_column(&nonces, &cts, &key);
    assert_eq!(plain.name, "msg_encrypted_decrypted");
    assert_eq!(errs.name, "msg_encrypted_decryption_errors");
    // Row 0: the nonce is missing, the ciphertext is not.
    assert_eq!(plain.cells[0], None);
    assert_eq!(
        errs.cells[0].as_deref(),
        Some("Nonce or cipher text is missing")
    );
    // Row 1: an encrypted null stays a null with no error.
    assert_eq!(plain.cells[1], None);
    assert_eq!(errs.cells[1], None);
}

#[test]
fn slices_encode_and_decode_only_their_row_range() {
    let key = derive_key("pw123").unwrap();
    let cells = vec![None, Some("a".to_string()), Some("b".to_string())];
    let (ct, nonce) = encode_slice(&cells, 1, 2, &key);
    assert_eq!(ct.len(), 2);
    assert_eq!(nonce.len(), 2);
    assert!(ct[0].is_some() && ct[1].is_some());
    let (plain, errs) = decode_slice(&nonce, &ct, 0, 2, &key);
    assert_eq!(plain[0].as_deref(), Some("a"));
    assert_eq!(plain[1].as_deref(), Some("b"));
    assert_eq!(errs, vec![None, None]);
}

#[test]
fn encrypt_column_rejects_a_missing_column() {
    let table = Table {
        cols: vec![column("msg", vec![Some("a")])],
    };
    assert!(matches!(
        encrypt_column(&table, "other", "pw123"),
        Err(CodecError::ColumnNotFound)
    ));
    assert!(matches!(
        decrypt_columns(&table, "missing", "msg", "pw123"),
        Err(CodecError::ColumnNotFound)
    ));
}

#[test]
fn encrypt_then_decrypt_reproduces_the_message_column() {
    let table = Table {
        cols: vec![column("msg", vec![Some("hello"), None, Some("world")])],
    };
    let enc = encrypt_column(&table, "msg", "pw123").unwrap();
    assert_eq!(enc.cols.len(), 2);
    assert_eq!(enc.cols[0].name, "msg_encrypted");
    assert_eq!(enc.cols[1].name, "msg_nonce");
    assert_eq!(enc.cols[0].cells.len(), 3);
    assert_eq!(enc.cols[1].cells.len(), 3);
    // The null row stays a pair of nulls; the others hold distinct hex.
    assert!(enc.cols[0].cells[1].is_none() && enc.cols[1].cells[1].is_none());
    assert!(enc.cols[0].cells[0].is_some() && enc.cols[0].cells[2].is_some());
    assert_ne!(enc.cols[0].cells[0], enc.cols[0].cells[2]);
    assert_ne!(enc.cols[1].cells[0], enc.cols[1].cells[2]);

    let dec = decrypt_columns(&enc, "msg_encrypted", "msg_nonce", "pw123").unwrap();
    assert_eq!(dec.cols[0].name, "msg_encrypted_decrypted");
    assert_eq!(dec.cols[1].name, "msg_encrypted_decryption_errors");
    let plain: Vec<Option<String>> = cells_of(&dec.cols[0]);
    assert_eq!(
        plain,
        vec![Some("hello".to_string()), None, Some("world".to_string())]
    );
    assert_eq!(cells_of(&dec.cols[1]), vec![None, None, None]);
}

#[test]
fn decrypting_with_the_wrong_passphrase_fails_row_by_row() {
    let table = Table {
        cols: vec![column("msg", vec![Some("alpha"), Some("beta")])],
    };
    let enc = encrypt_column(&table, "msg", "right").unwrap();
    let dec = decrypt_columns(&enc, "msg_encrypted", "msg_nonce", "wrong").unwrap();
    for row in 0..2 {
        assert_eq!(dec.cols[0].cells[row], None);
        assert_eq!(dec.cols[1].cells[row].as_deref(), Some("Decryption failed"));
    }
}

#[test]
fn a_foreign_key_row_fails_without_touching_its_neighbours() {
    let key_a = derive_key("key a").unwrap();
    let (stray_ct, stray_nonce) = encrypt_cell(&key_a, "stray");
    let table = Table {
        cols: vec![column("msg", vec![Some("mine"), Some("also mine")])],
    };
    let mut enc = encrypt_column(&table, "msg", "key b").unwrap();
    enc.cols[0].cells[1] = Some(stray_ct);
    enc.cols[1].cells[1] = Some(stray_nonce);
    let dec = decrypt_columns(&enc, "msg_encrypted", "msg_nonce", "key b").unwrap();
    assert_eq!(dec.cols[0].cells[0].as_deref(), Some("mine"));
    assert_eq!(dec.cols[1].cells[0], None);
    assert_eq!(dec.cols[0].cells[1], None);
    assert_eq!(dec.cols[1].cells[1].as_deref(), Some("Decryption failed"));
}

#[test]
fn flipping_one_hex_char_spoils_exactly_that_row() {
    let table = Table {
        cols: vec![column("msg", vec![Some("one"), Some("two"), Some("three")])],
    };
    let mut enc = encrypt_column(&table, "msg", "pw123").unwrap();
    let tampered = enc.cols[0].cells[1].take().unwrap();
    let mut chars: Vec<char> = tampered.chars().collect();
    chars[0] = if chars[0] == 'a' { 'b' } else { 'a' };
    enc.cols[0].cells[1] = Some(chars.into_iter().collect());

    let dec = decrypt_columns(&enc, "msg_encrypted", "msg_nonce", "pw123").unwrap();
    assert_eq!(dec.cols[0].cells[0].as_deref(), Some("one"));
    assert_eq!(dec.cols[1].cells[0], None);
    assert_eq!(dec.cols[0].cells[1], None);
    assert_eq!(dec.cols[1].cells[1].as_deref(), Some("Decryption failed"));
    assert_eq!(dec.cols[0].cells[2].as_deref(), Some("three"));
    assert_eq!(dec.cols[1].cells[2], None);
}

#[test]
fn a_large_table_keeps_every_row_in_order_across_chunks() {
    let values: Vec<String> = (0..1003).map(|i| format!("row {}", i)).collect();
    let col = Column {
        name: "msg".to_string(),
        cells: values.iter().map(|v| Some(v.clone())).collect(),
    };
    let table = Table { cols: vec![col] };
    let enc = encrypt_column(&table, "msg", "pw123").unwrap();
    assert_eq!(enc.cols[0].cells.len(), 1003);
    let dec = decrypt_columns(&enc, "msg_encrypted", "msg_nonce", "pw123").unwrap();
    assert_eq!(dec.cols[0].cells.len(), 1003);
    for (i, v) in values.iter().enumerate() {
        assert_eq!(dec.cols[0].cells[i].as_deref(), Some(v.as_str()));
        assert_eq!(dec.cols[1].cells[i], None);
    }
}

#[test]
fn an_empty_table_encrypts_and_decrypts_to_empty_columns() {
    let table = Table {
        cols: vec![column("msg", vec![])],
    };
    let enc = encrypt_column(&table, "msg", "pw123").unwrap();
    assert_eq!(enc.cols.len(), 2);
    assert_eq!(enc.cols[0].cells.len(), 0);
    assert_eq!(enc.cols[1].cells.len(), 0);
    let dec = decrypt_columns(&enc, "msg_encrypted", "msg_nonce", "pw123").unwrap();
    assert_eq!(dec.cols[0].cells.len(), 0);
    assert_eq!(dec.cols[1].cells.len(), 0);
}
