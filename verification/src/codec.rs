//! Column and table codec.
//!
//! `encode_slice` and `decode_slice` map the cell cipher over a contiguous
//! run of cells, propagating nulls and recording per-cell decode failures
//! inline. `encrypt_column` and `decrypt_columns` drive whole tables: they
//! derive the key once, split the row range into contiguous chunks — one
//! per available worker, so a caller can fan them out in parallel — and
//! reassemble the chunk outputs in order into a fresh table.

use crate::cipher::{
    decoded_cell, decrypt_cell, derive_key, encrypt_cell, encrypted_cell, key_of, CellError, Key,
};
use crate::table::{Column, Table};
use vstd::arithmetic::div_mod::{lemma_fundamental_div_mod, lemma_mod_bound};
use vstd::arithmetic::mul::lemma_mul_inequality;
use vstd::prelude::*;
use vstd::string::StringExecFns;

verus! {

/// A table-level failure: the whole operation aborts, nothing partial is
/// returned.
#[derive(Clone, Copy, Debug, PartialEq, Eq, Structural)]
pub enum CodecError {
    /// A named column does not exist in the input table.
    ColumnNotFound,
    /// The passphrase could not be stretched into a key.
    KeyDerivationFailed,
}

/// Relies on `rayon::current_num_threads`: the number of workers of the
/// surrounding thread pool, always at least one.
#[verifier::external_body]
fn worker_count() -> (n: usize)
    ensures
        1 <= n,
{
    rayon::current_num_threads()
}

/// Split the row range `[0, len)` into `n` contiguous chunks, each an
/// `(offset, length)` pair: near-equal shares, the last chunk absorbing
/// the remainder, laid head to tail so that together they cover every row
/// exactly once.
pub fn split_offsets(len: usize, n: usize) -> (r: Vec<(usize, usize)>)
    requires
        1 <= n,
    ensures
        r@.len() == n,
        r@[0].0 == 0,
        forall|i: int| 0 <= i < n - 1 ==> r@[i + 1].0 == r@[i].0 + r@[i].1,
        r@[n - 1].0 + r@[n - 1].1 == len,
        forall|i: int| 0 <= i < n ==> r@[i].0 + r@[i].1 <= len,
{
    if n == 1 {
        let mut v: Vec<(usize, usize)> = Vec::new();
        v.push((0, len));
        v
    } else {
        let chunk_size: usize = len / n;
        proof {
            lemma_fundamental_div_mod(len as int, n as int);
            lemma_mod_bound(len as int, n as int);
        }
        let mut v: Vec<(usize, usize)> = Vec::new();
        let mut i: usize = 0;
        while i < n
            invariant
                1 <= n,
                i <= n,
                chunk_size == len as int / n as int,
                n * chunk_size <= len,
                v@.len() == i,
                forall|j: int| 0 <= j < i ==> (#[trigger] v@[j]).0 == j * chunk_size,
                forall|j: int| 0 <= j < i && j < n - 1 ==> (#[trigger] v@[j]).1 == chunk_size,
                i == n ==> v@[n - 1].1 == len - (n - 1) * chunk_size,
            decreases n - i,
        {
            proof {
                lemma_mul_inequality(i as int, n as int, chunk_size as int);
                lemma_mul_inequality(i as int + 1, n as int, chunk_size as int);
                assert((i + 1) * chunk_size == i * chunk_size + chunk_size) by (nonlinear_arith);
            }
            let offset: usize = i * chunk_size;
            let l: usize = if i == n - 1 {
                len - offset
            } else {
                chunk_size
            };
            v.push((offset, l));
            i += 1;
        }
        proof {
            assert forall|j: int| 0 <= j < n - 1 implies v@[j + 1].0 == v@[j].0 + v@[j].1 by {
                assert((j + 1) * chunk_size == j * chunk_size + chunk_size) by (nonlinear_arith);
            }
            assert forall|j: int| 0 <= j < n implies v@[j].0 + v@[j].1 <= len by {
                lemma_mul_inequality(j + 1, n as int, chunk_size as int);
                assert((j + 1) * chunk_size == j * chunk_size + chunk_size) by (nonlinear_arith);
            }
        }
        v
    }
}

/// Whether a row index falls inside one of the chunks.
pub open spec fn covered_row(chunks: Seq<(usize, usize)>, row: int) -> bool {
    exists|i: int|
        0 <= i < chunks.len() && (#[trigger] chunks[i]).0 <= row < chunks[i].0 + chunks[i].1
}

/// The law of chunking: chunks laid head to tail over `[0, len)` are
/// pairwise disjoint and every row index falls inside one of them, so
/// concatenating per-chunk outputs of one row each yields exactly the
/// original rows in the original order.
pub proof fn lemma_chunks_cover(chunks: Seq<(usize, usize)>, len: usize)
    requires
        chunks.len() >= 1,
        chunks[0].0 == 0,
        forall|i: int| 0 <= i < chunks.len() - 1 ==> chunks[i + 1].0 == chunks[i].0 + chunks[i].1,
        chunks[chunks.len() - 1].0 + chunks[chunks.len() - 1].1 == len,
    ensures
        forall|i: int, j: int|
            0 <= i < j < chunks.len() ==> chunks[i].0 + chunks[i].1 <= chunks[j].0,
        forall|row: int| 0 <= row < len ==> #[trigger] covered_row(chunks, row),
    decreases chunks.len(),
{
    if chunks.len() == 1 {
    } else {
        let last: int = chunks.len() - 1;
        let prefix = chunks.drop_last();
        let mid: usize = chunks[last].0;
        assert(prefix[prefix.len() - 1] == chunks[last - 1]);
        assert(chunks[last - 1].0 + chunks[last - 1].1 == mid);
        lemma_chunks_cover(prefix, mid);
        assert forall|i: int, j: int| 0 <= i < j < chunks.len() implies chunks[i].0 + chunks[i].1
            <= chunks[j].0 by {
            if j < last {
                assert(prefix[i] == chunks[i]);
                assert(prefix[j] == chunks[j]);
            } else {
                if i < last - 1 {
                    assert(prefix[i].0 + prefix[i].1 <= prefix[last - 1].0);
                }
            }
        }
        assert forall|row: int| 0 <= row < len implies #[trigger] covered_row(chunks, row) by {
            if row >= mid {
                assert(chunks[last].0 <= row < chunks[last].0 + chunks[last].1);
            } else {
                assert(covered_row(prefix, row));
                let k: int = choose|k: int|
                    0 <= k < prefix.len() && (#[trigger] prefix[k]).0 <= row < prefix[k].0
                        + prefix[k].1;
                assert(chunks[k].0 <= row < chunks[k].0 + chunks[k].1);
            }
        }
    }
}

/// How one source cell relates to its pair of output cells after
/// encryption: a null cell yields two nulls, a text cell yields the hex
/// ciphertext and hex nonce of a fresh seal that decodes back to the text.
pub open spec fn cell_encoded(
    key: Seq<u8>,
    src: Option<Seq<char>>,
    ct: Option<Seq<char>>,
    nonce: Option<Seq<char>>,
) -> bool {
    match src {
        None => ct is None && nonce is None,
        Some(m) => match (ct, nonce) {
            (Some(c), Some(n)) => encrypted_cell(key, m, c, n) && decoded_cell(key, nonce, ct)
                == (Some(m), None::<CellError>),
            _ => false,
        },
    }
}

/// [`cell_encoded`], cell by cell over whole columns of equal length.
pub open spec fn encoded_cells(
    key: Seq<u8>,
    src: Seq<Option<Seq<char>>>,
    ct: Seq<Option<Seq<char>>>,
    nonce: Seq<Option<Seq<char>>>,
) -> bool {
    &&& ct.len() == src.len()
    &&& nonce.len() == src.len()
    &&& forall|i: int| 0 <= i < src.len() ==> #[trigger] cell_encoded(key, src[i], ct[i], nonce[i])
}

/// The text recorded in an error column for a per-cell outcome.
pub open spec fn err_text_of(e: Option<CellError>) -> Option<Seq<char>> {
    match e {
        None => None,
        Some(err) => Some(err.text_spec()),
    }
}

/// How one (nonce, ciphertext) pair of source cells relates to its pair of
/// output cells after decryption: the recovered text on one side, or the
/// report of the per-cell failure on the other.
pub open spec fn cell_decoded(
    key: Seq<u8>,
    nsrc: Option<Seq<char>>,
    csrc: Option<Seq<char>>,
    plain: Option<Seq<char>>,
    err: Option<Seq<char>>,
) -> bool {
    plain == decoded_cell(key, nsrc, csrc).0 && err == err_text_of(decoded_cell(key, nsrc, csrc).1)
}

/// [`cell_decoded`], cell by cell over whole columns of equal length.
pub open spec fn decoded_cells(
    key: Seq<u8>,
    nsrc: Seq<Option<Seq<char>>>,
    csrc: Seq<Option<Seq<char>>>,
    plain: Seq<Option<Seq<char>>>,
    err: Seq<Option<Seq<char>>>,
) -> bool {
    &&& csrc.len() == nsrc.len()
    &&& plain.len() == nsrc.len()
    &&& err.len() == nsrc.len()
    &&& forall|i: int|
        0 <= i < nsrc.len() ==> #[trigger] cell_decoded(key, nsrc[i], csrc[i], plain[i], err[i])
}

/// The law of null propagation: a null source cell encrypts to a null
/// ciphertext cell and a null nonce cell; a pair of null cells decodes
/// back to a null with no error; and a pair with exactly one side missing
/// decodes to a null with the missing-input report.
pub proof fn lemma_null_propagation(
    key: Seq<u8>,
    nonce_hex: Option<Seq<char>>,
    ct_hex: Option<Seq<char>>,
)
    ensures
        cell_encoded(key, None, None, None),
        nonce_hex is None && ct_hex is None ==> decoded_cell(key, nonce_hex, ct_hex) == (
            None::<Seq<char>>,
            None::<CellError>,
        ),
        (nonce_hex is None) != (ct_hex is None) ==> decoded_cell(key, nonce_hex, ct_hex) == (
            None::<Seq<char>>,
            Some(CellError::MissingInput),
        ),
{
}

/// The law of exclusivity: when at least one input cell is present,
/// exactly one side of the decoded pair is populated — a recovered text,
/// or an error — never both, never neither.
pub proof fn lemma_decoded_cell_exclusive(
    key: Seq<u8>,
    nonce_hex: Option<Seq<char>>,
    ct_hex: Option<Seq<char>>,
)
    requires
        nonce_hex is Some || ct_hex is Some,
    ensures
        (decoded_cell(key, nonce_hex, ct_hex).0 is Some) != (decoded_cell(
            key,
            nonce_hex,
            ct_hex,
        ).1 is Some),
{
}

/// The law of round-tripping: decoding the pair of columns that encoding
/// produced, under the same key, reproduces the source column exactly —
/// null cells stay null, text cells come back verbatim — and records no
/// error in any row.
pub proof fn lemma_column_round_trip(
    key: Seq<u8>,
    src: Seq<Option<Seq<char>>>,
    ct: Seq<Option<Seq<char>>>,
    nonce: Seq<Option<Seq<char>>>,
    plain: Seq<Option<Seq<char>>>,
    err: Seq<Option<Seq<char>>>,
)
    requires
        encoded_cells(key, src, ct, nonce),
        decoded_cells(key, nonce, ct, plain, err),
    ensures
        plain == src,
        forall|i: int| 0 <= i < err.len() ==> err[i] is None,
{
    assert forall|i: int| 0 <= i < src.len() implies plain[i] == src[i] by {
        assert(cell_encoded(key, src[i], ct[i], nonce[i]));
        assert(cell_decoded(key, nonce[i], ct[i], plain[i], err[i]));
    }
    assert forall|i: int| 0 <= i < err.len() implies err[i] is None by {
        assert(cell_encoded(key, src[i], ct[i], nonce[i]));
        assert(cell_decoded(key, nonce[i], ct[i], plain[i], err[i]));
    }
    assert(plain =~= src);
}

/// Encrypt one contiguous run of cells: `(ciphertext_cells, nonce_cells)`
/// for rows `[offset, offset + len)`, nulls propagated, order kept.
pub fn encode_slice(cells: &Vec<Option<String>>, offset: usize, len: usize, key: &Key) -> (r: (
    Vec<Option<String>>,
    Vec<Option<String>>,
))
    requires
        key.wf(),
        offset + len <= cells@.len(),
    ensures
        encoded_cells(
            key@,
            cells.deep_view().subrange(offset as int, offset as int + len as int),
            r.0.deep_view(),
            r.1.deep_view(),
        ),
{
    let total: usize = cells.len();
    let mut ct: Vec<Option<String>> = Vec::new();
    let mut nonce: Vec<Option<String>> = Vec::new();
    let mut j: usize = 0;
    while j < len
        invariant
            key.wf(),
            cells@.len() == total,
            offset + len <= total,
            j <= len,
            ct@.len() == j,
            nonce@.len() == j,
            forall|k: int|
                0 <= k < j ==> #[trigger] cell_encoded(
                    key@,
                    cells.deep_view()[offset + k],
                    ct.deep_view()[k],
                    nonce.deep_view()[k],
                ),
        decreases len - j,
    {
        let ghost pre_ct = ct.deep_view();
        let ghost pre_nonce = nonce.deep_view();
        match &cells[offset + j] {
            None => {
                ct.push(None);
                nonce.push(None);
                proof {
                    assert(ct.deep_view() =~= pre_ct.push(None));
                    assert(nonce.deep_view() =~= pre_nonce.push(None));
                    assert(cells.deep_view()[offset + j] is None);
                }
            },
            Some(v) => {
                let (c, n) = encrypt_cell(key, v.as_str());
                let ghost cv = c@;
                let ghost nv = n@;
                ct.push(Some(c));
                nonce.push(Some(n));
                proof {
                    assert(ct.deep_view() =~= pre_ct.push(Some(cv)));
                    assert(nonce.deep_view() =~= pre_nonce.push(Some(nv)));
                    assert(cells.deep_view()[offset + j] == Some(v@));
                    assert(cell_encoded(key@, Some(v@), Some(cv), Some(nv)));
                }
            },
        }
        proof {
            assert forall|k: int| 0 <= k < j + 1 implies #[trigger] cell_encoded(
                key@,
                cells.deep_view()[offset + k],
                ct.deep_view()[k],
                nonce.deep_view()[k],
            ) by {
                if k < j {
                    assert(ct.deep_view()[k] == pre_ct[k]);
                    assert(nonce.deep_view()[k] == pre_nonce[k]);
                    assert(cell_encoded(
                        key@,
                        cells.deep_view()[offset + k],
                        pre_ct[k],
                        pre_nonce[k],
                    ));
                }
            }
        }
        j += 1;
    }
    proof {
        let sub = cells.deep_view().subrange(offset as int, offset as int + len as int);
        assert forall|i: int| 0 <= i < sub.len() implies #[trigger] cell_encoded(
            key@,
            sub[i],
            ct.deep_view()[i],
            nonce.deep_view()[i],
        ) by {
            assert(sub[i] == cells.deep_view()[offset + i]);
            assert(cell_encoded(
                key@,
                cells.deep_view()[offset + i],
                ct.deep_view()[i],
                nonce.deep_view()[i],
            ));
        }
    }
    (ct, nonce)
}

/// Decrypt one contiguous run of (nonce, ciphertext) cell pairs:
/// `(plaintext_cells, error_cells)` for rows `[offset, offset + len)`,
/// exactly one of the pair populated per row, order kept.
pub fn decode_slice(
    nonces: &Vec<Option<String>>,
    cts: &Vec<Option<String>>,
    offset: usize,
    len: usize,
    key: &Key,
) -> (r: (Vec<Option<String>>, Vec<Option<String>>))
    requires
        key.wf(),
        offset + len <= nonces@.len(),
        offset + len <= cts@.len(),
    ensures
        decoded_cells(
            key@,
            nonces.deep_view().subrange(offset as int, offset as int + len as int),
            cts.deep_view().subrange(offset as int, offset as int + len as int),
            r.0.deep_view(),
            r.1.deep_view(),
        ),
{
    let n_total: usize = nonces.len();
    let c_total: usize = cts.len();
    let mut plain: Vec<Option<String>> = Vec::new();
    let mut errs: Vec<Option<String>> = Vec::new();
    let mut j: usize = 0;
    while j < len
        invariant
            key.wf(),
            nonces@.len() == n_total,
            cts@.len() == c_total,
            offset + len <= n_total,
            offset + len <= c_total,
            j <= len,
            plain@.len() == j,
            errs@.len() == j,
            forall|k: int|
                0 <= k < j ==> #[trigger] cell_decoded(
                    key@,
                    nonces.deep_view()[offset + k],
                    cts.deep_view()[offset + k],
                    plain.deep_view()[k],
                    errs.deep_view()[k],
                ),
        decreases len - j,
    {
        let ghost pre_plain = plain.deep_view();
        let ghost pre_errs = errs.deep_view();
        let ghost nsrc = nonces.deep_view()[offset + j];
        let ghost csrc = cts.deep_view()[offset + j];
        match (&nonces[offset + j], &cts[offset + j]) {
            (Some(nh), Some(ch)) => {
                let (p, e) = decrypt_cell(key, nh.as_str(), ch.as_str());
                let report = match e {
                    None => None,
                    Some(err) => Some(err.text()),
                };
                let ghost pv = p.deep_view();
                let ghost rv = report.deep_view();
                plain.push(p);
                errs.push(report);
                proof {
                    assert(plain.deep_view() =~= pre_plain.push(pv));
                    assert(errs.deep_view() =~= pre_errs.push(rv));
                    assert(nsrc == Some(nh@));
                    assert(csrc == Some(ch@));
                    assert(cell_decoded(key@, nsrc, csrc, pv, rv));
                }
            },
            (None, None) => {
                plain.push(None);
                errs.push(None);
                proof {
                    assert(plain.deep_view() =~= pre_plain.push(None));
                    assert(errs.deep_view() =~= pre_errs.push(None));
                    assert(nsrc is None && csrc is None);
                    assert(cell_decoded(key@, nsrc, csrc, None, None));
                }
            },
            _ => {
                plain.push(None);
                let report = CellError::MissingInput.text();
                let ghost rv = report@;
                errs.push(Some(report));
                proof {
                    assert(plain.deep_view() =~= pre_plain.push(None));
                    assert(errs.deep_view() =~= pre_errs.push(Some(rv)));
                    assert(nsrc is None || csrc is None);
                    assert(cell_decoded(key@, nsrc, csrc, None, Some(rv)));
                }
            },
        }
        proof {
            assert forall|k: int| 0 <= k < j + 1 implies #[trigger] cell_decoded(
                key@,
                nonces.deep_view()[offset + k],
                cts.deep_view()[offset + k],
                plain.deep_view()[k],
                errs.deep_view()[k],
            ) by {
                if k < j {
                    assert(plain.deep_view()[k] == pre_plain[k]);
                    assert(errs.deep_view()[k] == pre_errs[k]);
                    assert(cell_decoded(
                        key@,
                        nonces.deep_view()[offset + k],
                        cts.deep_view()[offset + k],
                        pre_plain[k],
                        pre_errs[k],
                    ));
                }
            }
        }
        j += 1;
    }
    proof {
        let nsub = nonces.deep_view().subrange(offset as int, offset as int + len as int);
        let csub = cts.deep_view().subrange(offset as int, offset as int + len as int);
        assert forall|i: int| 0 <= i < nsub.len() implies #[trigger] cell_decoded(
            key@,
            nsub[i],
            csub[i],
            plain.deep_view()[i],
            errs.deep_view()[i],
        ) by {
            assert(nsub[i] == nonces.deep_view()[offset + i]);
            assert(csub[i] == cts.deep_view()[offset + i]);
            assert(cell_decoded(
                key@,
                nonces.deep_view()[offset + i],
                cts.deep_view()[offset + i],
                plain.deep_view()[i],
                errs.deep_view()[i],
            ));
        }
    }
    (plain, errs)
}

/// Encrypt a whole column: `(ciphertext_column, nonce_column)`, named
/// `<name>_encrypted` and `<name>_nonce`, one row per input row.
pub fn encode_column(col: &Column, key: &Key) -> (r: (Column, Column))
    requires
        key.wf(),
    ensures
        r.0.name@ == col.name@ + "_encrypted"@,
        r.1.name@ == col.name@ + "_nonce"@,
        encoded_cells(key@, col.cells.deep_view(), r.0.cells.deep_view(), r.1.cells.deep_view()),
{
    let n: usize = col.cells.len();
    let (ct, nonce) = encode_slice(&col.cells, 0, n, key);
    proof {
        assert(col.cells.deep_view().subrange(0, n as int) =~= col.cells.deep_view());
    }
    (
        Column { name: col.name.clone().concat("_encrypted"), cells: ct },
        Column { name: col.name.clone().concat("_nonce"), cells: nonce },
    )
}

/// Decrypt a whole pair of columns: `(plaintext_column, error_column)`,
/// named `<ciphertext name>_decrypted` and `<ciphertext name>_decryption_errors`,
/// one row per input row, exactly one side populated per row.
pub fn decode_column(nonces: &Column, cts: &Column, key: &Key) -> (r: (Column, Column))
    requires
        key.wf(),
        nonces.cells@.len() == cts.cells@.len(),
    ensures
        r.0.name@ == cts.name@ + "_decrypted"@,
        r.1.name@ == cts.name@ + "_decryption_errors"@,
        decoded_cells(
            key@,
            nonces.cells.deep_view(),
            cts.cells.deep_view(),
            r.0.cells.deep_view(),
            r.1.cells.deep_view(),
        ),
{
    let n: usize = nonces.cells.len();
    let (plain, errs) = decode_slice(&nonces.cells, &cts.cells, 0, n, key);
    proof {
        assert(nonces.cells.deep_view().subrange(0, n as int) =~= nonces.cells.deep_view());
        assert(cts.cells.deep_view().subrange(0, n as int) =~= cts.cells.deep_view());
    }
    (
        Column { name: cts.name.clone().concat("_decrypted"), cells: plain },
        Column { name: cts.name.clone().concat("_decryption_errors"), cells: errs },
    )
}

/// Encrypt one named column of a table. The key is derived once; the row
/// range is split into one chunk per available worker and the per-chunk
/// outputs are reassembled in chunk order, so the result holds exactly the
/// input's rows in the input's order: a fresh two-column table
/// `<name>_encrypted`, `<name>_nonce`, nulls propagated, every text cell
/// sealed so that it decodes back to itself under the same passphrase.
pub fn encrypt_column(table: &Table, name: &str, passphrase: &str) -> (r: Result<
    Table,
    CodecError,
>)
    requires
        table.wf(),
    ensures
        !table.has_col(name@) ==> r == Err::<Table, CodecError>(CodecError::ColumnNotFound),
        r matches Err(e) ==> (e == CodecError::ColumnNotFound && !table.has_col(name@)) || (e
            == CodecError::KeyDerivationFailed && table.has_col(name@)),
        r matches Ok(out) ==> ({
            &&& table.has_col(name@)
            &&& out.wf()
            &&& out.cols@.len() == 2
            &&& out.height_spec() == table.height_spec()
            &&& out.cols@[0].name@ == table.col_named(name@).name@ + "_encrypted"@
            &&& out.cols@[1].name@ == table.col_named(name@).name@ + "_nonce"@
            &&& encoded_cells(
                key_of(passphrase@),
                table.col_named(name@).cells.deep_view(),
                out.cols@[0].cells.deep_view(),
                out.cols@[1].cells.deep_view(),
            )
        }),
{
    let idx: usize = match table.find_col(name) {
        None => {
            return Err(CodecError::ColumnNotFound);
        },
        Some(i) => i,
    };
    let key = match derive_key(passphrase) {
        None => {
            return Err(CodecError::KeyDerivationFailed);
        },
        Some(k) => k,
    };
    let n_rows: usize = table.cols[idx].cells.len();
    let chunks = split_offsets(n_rows, worker_count());
    let n_chunks: usize = chunks.len();
    let ghost cv = table.cols@[idx as int].cells.deep_view();
    let mut ct_cells: Vec<Option<String>> = Vec::new();
    let mut nonce_cells: Vec<Option<String>> = Vec::new();
    let mut c: usize = 0;
    while c < n_chunks
        invariant
            key.wf(),
            key@ == key_of(passphrase@),
            table.wf(),
            0 <= idx < table.cols@.len(),
            cv == table.cols@[idx as int].cells.deep_view(),
            table.cols@[idx as int].cells@.len() == n_rows,
            chunks@.len() == n_chunks,
            n_chunks >= 1,
            chunks@[0].0 == 0,
            forall|i: int|
                0 <= i < n_chunks - 1 ==> chunks@[i + 1].0 == chunks@[i].0 + chunks@[i].1,
            chunks@[n_chunks - 1].0 + chunks@[n_chunks - 1].1 == n_rows,
            forall|i: int| 0 <= i < n_chunks ==> chunks@[i].0 + chunks@[i].1 <= n_rows,
            c <= n_chunks,
            nonce_cells@.len() == ct_cells@.len(),
            ct_cells@.len() == (if c < n_chunks {
                chunks@[c as int].0 as int
            } else {
                n_rows as int
            }),
            encoded_cells(
                key@,
                cv.subrange(0, ct_cells@.len() as int),
                ct_cells.deep_view(),
                nonce_cells.deep_view(),
            ),
        decreases n_chunks - c,
    {
        let pair = chunks[c];
        let off: usize = pair.0;
        let l: usize = pair.1;
        let ghost pre_ct = ct_cells.deep_view();
        let ghost pre_nonce = nonce_cells.deep_view();
        let (mut c0, mut n0) = encode_slice(&table.cols[idx].cells, off, l, &key);
        let ghost c0v = c0.deep_view();
        let ghost n0v = n0.deep_view();
        ct_cells.append(&mut c0);
        nonce_cells.append(&mut n0);
        proof {
            assert(ct_cells.deep_view() =~= pre_ct + c0v);
            assert(nonce_cells.deep_view() =~= pre_nonce + n0v);
            let done: int = off + l;
            assert forall|i: int| 0 <= i < done implies #[trigger] cell_encoded(
                key@,
                cv.subrange(0, done as int)[i],
                ct_cells.deep_view()[i],
                nonce_cells.deep_view()[i],
            ) by {
                assert(cv.subrange(0, done as int)[i] == cv[i]);
                if i < off {
                    assert(cv.subrange(0, off as int)[i] == cv[i]);
                    assert(ct_cells.deep_view()[i] == pre_ct[i]);
                    assert(nonce_cells.deep_view()[i] == pre_nonce[i]);
                    assert(cell_encoded(key@, cv.subrange(0, off as int)[i], pre_ct[i], pre_nonce[i]));
                } else {
                    let s = cv.subrange(off as int, off as int + l as int);
                    assert(s[i - off] == cv[i]);
                    assert(ct_cells.deep_view()[i] == c0v[i - off]);
                    assert(nonce_cells.deep_view()[i] == n0v[i - off]);
                    assert(cell_encoded(key@, s[i - off], c0v[i - off], n0v[i - off]));
                }
            }
        }
        c += 1;
    }
    proof {
        assert(cv.subrange(0, n_rows as int) =~= cv);
    }
    let base = &table.cols[idx].name;
    let out = Table {
        cols: vec![
            Column { name: base.clone().concat("_encrypted"), cells: ct_cells },
            Column { name: base.clone().concat("_nonce"), cells: nonce_cells },
        ],
    };
    proof {
        assert(out.cols@.len() == 2);
        assert(out.height_spec() == n_rows);
        assert(out.wf());
        assert(table.col_named(name@) == table.cols@[idx as int]);
        assert(out.height_spec() == table.height_spec());
    }
    Ok(out)
}

/// Decrypt a ciphertext column against its nonce column. The key is
/// derived once; the row range is split into one chunk per available
/// worker and the per-chunk outputs are reassembled in chunk order: a
/// fresh two-column table `<ciphertext name>_decrypted`,
/// `<ciphertext name>_decryption_errors`, one row per input row, exactly
/// one side populated per row, per-cell failures recorded inline.
pub fn decrypt_columns(
    table: &Table,
    encrypted_name: &str,
    nonces_name: &str,
    passphrase: &str,
) -> (r: Result<Table, CodecError>)
    requires
        table.wf(),
    ensures
        !table.has_col(encrypted_name@) || !table.has_col(nonces_name@) ==> r == Err::<
            Table,
            CodecError,
        >(CodecError::ColumnNotFound),
        r matches Err(e) ==> (e == CodecError::ColumnNotFound && (!table.has_col(encrypted_name@)
            || !table.has_col(nonces_name@))) || (e == CodecError::KeyDerivationFailed
            && table.has_col(encrypted_name@) && table.has_col(nonces_name@)),
        r matches Ok(out) ==> ({
            &&& table.has_col(encrypted_name@)
            &&& table.has_col(nonces_name@)
            &&& out.wf()
            &&& out.cols@.len() == 2
            &&& out.height_spec() == table.height_spec()
            &&& out.cols@[0].name@ == table.col_named(encrypted_name@).name@ + "_decrypted"@
            &&& out.cols@[1].name@ == table.col_named(encrypted_name@).name@
                + "_decryption_errors"@
            &&& decoded_cells(
                key_of(passphrase@),
                table.col_named(nonces_name@).cells.deep_view(),
                table.col_named(encrypted_name@).cells.deep_view(),
                out.cols@[0].cells.deep_view(),
                out.cols@[1].cells.deep_view(),
            )
        }),
{
    let nidx: usize = match table.find_col(nonces_name) {
        None => {
            return Err(CodecError::ColumnNotFound);
        },
        Some(i) => i,
    };
    let cidx: usize = match table.find_col(encrypted_name) {
        None => {
            return Err(CodecError::ColumnNotFound);
        },
        Some(i) => i,
    };
    let key = match derive_key(passphrase) {
        None => {
            return Err(CodecError::KeyDerivationFailed);
        },
        Some(k) => k,
    };
    let n_rows: usize = table.cols[nidx].cells.len();
    let chunks = split_offsets(n_rows, worker_count());
    let n_chunks: usize = chunks.len();
    let ghost nv = table.cols@[nidx as int].cells.deep_view();
    let ghost cv = table.cols@[cidx as int].cells.deep_view();
    let mut plain_cells: Vec<Option<String>> = Vec::new();
    let mut err_cells: Vec<Option<String>> = Vec::new();
    let mut c: usize = 0;
    while c < n_chunks
        invariant
            key.wf(),
            key@ == key_of(passphrase@),
            table.wf(),
            0 <= nidx < table.cols@.len(),
            0 <= cidx < table.cols@.len(),
            nv == table.cols@[nidx as int].cells.deep_view(),
            cv == table.cols@[cidx as int].cells.deep_view(),
            table.cols@[nidx as int].cells@.len() == n_rows,
            table.cols@[cidx as int].cells@.len() == n_rows,
            chunks@.len() == n_chunks,
            n_chunks >= 1,
            chunks@[0].0 == 0,
            forall|i: int|
                0 <= i < n_chunks - 1 ==> chunks@[i + 1].0 == chunks@[i].0 + chunks@[i].1,
            chunks@[n_chunks - 1].0 + chunks@[n_chunks - 1].1 == n_rows,
            forall|i: int| 0 <= i < n_chunks ==> chunks@[i].0 + chunks@[i].1 <= n_rows,
            c <= n_chunks,
            err_cells@.len() == plain_cells@.len(),
            plain_cells@.len() == (if c < n_chunks {
                chunks@[c as int].0 as int
            } else {
                n_rows as int
            }),
            decoded_cells(
                key@,
                nv.subrange(0, plain_cells@.len() as int),
                cv.subrange(0, plain_cells@.len() as int),
                plain_cells.deep_view(),
                err_cells.deep_view(),
            ),
        decreases n_chunks - c,
    {
        let pair = chunks[c];
        let off: usize = pair.0;
        let l: usize = pair.1;
        let ghost pre_plain = plain_cells.deep_view();
        let ghost pre_errs = err_cells.deep_view();
        let (mut p0, mut e0) = decode_slice(
            &table.cols[nidx].cells,
            &table.cols[cidx].cells,
            off,
            l,
            &key,
        );
        let ghost p0v = p0.deep_view();
        let ghost e0v = e0.deep_view();
        plain_cells.append(&mut p0);
        err_cells.append(&mut e0);
        proof {
            assert(plain_cells.deep_view() =~= pre_plain + p0v);
            assert(err_cells.deep_view() =~= pre_errs + e0v);
            let done: int = off + l;
            assert forall|i: int| 0 <= i < done implies #[trigger] cell_decoded(
                key@,
                nv.subrange(0, done as int)[i],
                cv.subrange(0, done as int)[i],
                plain_cells.deep_view()[i],
                err_cells.deep_view()[i],
            ) by {
                assert(nv.subrange(0, done as int)[i] == nv[i]);
                assert(cv.subrange(0, done as int)[i] == cv[i]);
                if i < off {
                    assert(nv.subrange(0, off as int)[i] == nv[i]);
                    assert(cv.subrange(0, off as int)[i] == cv[i]);
                    assert(plain_cells.deep_view()[i] == pre_plain[i]);
                    assert(err_cells.deep_view()[i] == pre_errs[i]);
                    assert(cell_decoded(
                        key@,
                        nv.subrange(0, off as int)[i],
                        cv.subrange(0, off as int)[i],
                        pre_plain[i],
                        pre_errs[i],
                    ));
                } else {
                    let ns = nv.subrange(off as int, off as int + l as int);
                    let cs = cv.subrange(off as int, off as int + l as int);
                    assert(ns[i - off] == nv[i]);
                    assert(cs[i - off] == cv[i]);
                    assert(plain_cells.deep_view()[i] == p0v[i - off]);
                    assert(err_cells.deep_view()[i] == e0v[i - off]);
                    assert(cell_decoded(key@, ns[i - off], cs[i - off], p0v[i - off], e0v[i - off]));
                }
            }
        }
        c += 1;
    }
    proof {
        assert(nv.subrange(0, n_rows as int) =~= nv);
        assert(cv.subrange(0, n_rows as int) =~= cv);
    }
    let base = &table.cols[cidx].name;
    let out = Table {
        cols: vec![
            Column { name: base.clone().concat("_decrypted"), cells: plain_cells },
            Column { name: base.clone().concat("_decryption_errors"), cells: err_cells },
        ],
    };
    proof {
        assert(out.cols@.len() == 2);
        assert(out.height_spec() == n_rows);
        assert(out.wf());
        assert(table.col_named(nonces_name@) == table.cols@[nidx as int]);
        assert(table.col_named(encrypted_name@) == table.cols@[cidx as int]);
        assert(out.height_spec() == table.height_spec());
    }
    Ok(out)
}

} // verus!
