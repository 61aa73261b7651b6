//! CSV with bare descriptions, read and written whole.
//!
//! The header and the row layout are those of [`crate::codec::csv`]; here a
//! decoded description loses its enclosing double quotes and encoding puts
//! them back. Numbers may be surrounded by whitespace; type and status names
//! must match exactly. A row's numbers are checked before its type and status.
//! Errors give line numbers counted from one, the header being line 1.
use crate::codec::csv::{
    bad_value, blank, csv_row, csv_safe, header_chars, header_line, is_blank_chars,
    lemma_header_line, lemma_parse_csv_row, push_row_head, row_head, row_parts, split_row,
    split_row_chars, validate_header_chars,
};
use crate::codec::read_text_line;
use crate::error::{ReaderError, ReaderErrorView, WriterError};
use crate::text::{
    chars_of, chars_views, decimal, free_of, is_digit, joined_lines, lemma_decimal,
    lemma_free_concat, lemma_parse_decimal, lemma_text_lines_joined, lemma_trim_no_ws,
    line_chars, parse_u64_range, parse_u64_value, plain_line, push_str_chars, push_utf8,
    split_lines, string_of, text_lines, trim, trim_bounds, trim_end,
};
use crate::transaction::model::{
    Transaction, TransactionView, TxStatus, TxType, lemma_tx_status_roundtrip, lemma_tx_type_roundtrip,
    txs_view,
};
use crate::transaction::schema::{field_name, field_str};
use crate::transaction::{TransactionDecoder, TransactionEncoder};
use vstd::prelude::*;
use vstd::utf8::encode_utf8;

pub use crate::codec::csv::{is_blank, validate_header};
pub use crate::codec::csv::split_fields as split_tx_line;

verus! {

/// CSV codec whose descriptions carry no quotes.
pub struct Csv;

// ─────────────────────────────────────────────────────────────────────────
// Specification
// ─────────────────────────────────────────────────────────────────────────

/// A number field: its trimmed text parsed as `u64`; the error names field
/// `i` and holds the text as it stands.
pub open spec fn number_field(value: Seq<char>, i: int, line_no: usize) -> Result<
    u64,
    ReaderErrorView,
> {
    match parse_u64_value(trim(value)) {
        Some(n) => Ok(n),
        None => Err(bad_value(line_no, i, value)),
    }
}

/// The record of a row's seven fields and description: the numbers in field
/// order first, then the type, then the status.
pub open spec fn bare_record(parts: Seq<Seq<char>>, desc: Seq<char>, line_no: usize) -> Result<
    TransactionView,
    ReaderErrorView,
> {
    match number_field(parts[0], 0, line_no) {
        Err(e) => Err(e),
        Ok(tx_id) => match number_field(parts[2], 2, line_no) {
            Err(e) => Err(e),
            Ok(from_user_id) => match number_field(parts[3], 3, line_no) {
                Err(e) => Err(e),
                Ok(to_user_id) => match number_field(parts[4], 4, line_no) {
                    Err(e) => Err(e),
                    Ok(amount) => match number_field(parts[5], 5, line_no) {
                        Err(e) => Err(e),
                        Ok(timestamp) => match TxType::from_name(parts[1]) {
                            None => Err(bad_value(line_no, 1, parts[1])),
                            Some(tx_type) => match TxStatus::from_name(parts[6]) {
                                None => Err(bad_value(line_no, 6, parts[6])),
                                Some(status) => Ok(
                                    TransactionView {
                                        tx_id,
                                        tx_type,
                                        from_user_id,
                                        to_user_id,
                                        amount,
                                        timestamp,
                                        status,
                                        description: desc,
                                    },
                                ),
                            },
                        },
                    },
                },
            },
        },
    }
}

/// Parsing one row.
pub open spec fn bare_row(l: Seq<char>, line_no: usize) -> Result<TransactionView, ReaderErrorView> {
    match split_row(l, line_no) {
        Err(e) => Err(e),
        Ok((parts, desc)) => bare_record(parts, desc, line_no),
    }
}

/// Decoding the rows after the header from row `i` on: blank rows are
/// skipped, the first error ends decoding. Row `i` is line `i + 2` of the
/// input: the header is line 1, and errors count lines from one.
pub open spec fn bare_rows(rows: Seq<Option<Seq<char>>>, i: int) -> Result<
    Seq<TransactionView>,
    ReaderErrorView,
>
    decreases rows.len() - i,
{
    if i < 0 || i >= rows.len() {
        Ok(seq![])
    } else {
        match rows[i] {
            None => Err(ReaderErrorView::Io),
            Some(l) => if blank(l) {
                bare_rows(rows, i + 1)
            } else {
                match bare_row(l, (i + 2) as usize) {
                    Err(e) => Err(e),
                    Ok(t) => match bare_rows(rows, i + 1) {
                        Ok(ts) => Ok(seq![t] + ts),
                        Err(e) => Err(e),
                    },
                }
            },
        }
    }
}

/// Decoding: the header must match (an empty input has an empty header),
/// then the rows.
pub open spec fn bare_decode(data: Seq<u8>) -> Result<Seq<TransactionView>, ReaderErrorView> {
    let ls = text_lines(data);
    let header = if ls.len() == 0 {
        Some(Seq::<char>::empty())
    } else {
        ls[0]
    };
    match header {
        None => Err(ReaderErrorView::Io),
        Some(h) => if trim(h) != header_line() {
            Err(ReaderErrorView::InvalidCsvHeader { header: trim_end(h) })
        } else {
            bare_rows(ls.drop_first(), 0)
        },
    }
}

/// The line of a transaction (without line feed): its fields, the
/// description in double quotes.
pub open spec fn bare_line(t: TransactionView) -> Seq<char> {
    row_head(t) + seq![','] + seq!['"'] + t.description + seq!['"']
}

/// The lines of `txs`, each followed by a line feed.
pub open spec fn bare_lines(txs: Seq<TransactionView>) -> Seq<char>
    decreases txs.len(),
{
    if txs.len() == 0 {
        seq![]
    } else {
        bare_line(txs[0]) + seq!['\n'] + bare_lines(txs.drop_first())
    }
}

/// The text of `txs`: the header line, then one line per transaction.
pub open spec fn bare_text(txs: Seq<TransactionView>) -> Seq<char> {
    header_line() + seq!['\n'] + bare_lines(txs)
}

// ─────────────────────────────────────────────────────────────────────────
// Decoding
// ─────────────────────────────────────────────────────────────────────────

/// [`parse_u64_field`] on characters.
fn number_chars(value: &[char], field_name: &str, line_no: usize) -> (res: Result<u64, ReaderError>)
    ensures
        match parse_u64_value(trim(value@)) {
            Some(n) => res == Ok::<u64, ReaderError>(n),
            None => res matches Err(e) && e@ == (ReaderErrorView::InvalidFieldValue {
                line_no,
                field: field_name@,
                value: value@,
            }),
        },
{
    let (a, b) = trim_bounds(value, 0, value.len());
    assert(value@.subrange(0, value@.len() as int) =~= value@);
    match parse_u64_range(value, a, b) {
        Some(n) => Ok(n),
        None => {
            let name = chars_of(field_name);
            Err(ReaderError::InvalidFieldValue {
                line_no,
                field: string_of(&name),
                value: string_of(value),
            })
        },
    }
}

/// Parses a number field, ignoring surrounding whitespace; an error names
/// `field_name` and holds `value` as it stands.
pub fn parse_u64_field(value: &str, field_name: &str, line_no: usize) -> (res: Result<
    u64,
    ReaderError,
>)
    ensures
        match parse_u64_value(trim(value@)) {
            Some(n) => res == Ok::<u64, ReaderError>(n),
            None => res matches Err(e) && e@ == (ReaderErrorView::InvalidFieldValue {
                line_no,
                field: field_name@,
                value: value@,
            }),
        },
{
    let cs = chars_of(value);
    number_chars(&cs, field_name, line_no)
}

/// The number in field `i` of a split row.
fn row_number(parts: &Vec<Vec<char>>, i: usize, line_no: usize) -> (res: Result<u64, ReaderError>)
    requires
        i < parts@.len(),
        i < 8,
    ensures
        match number_field(parts@[i as int]@, i as int, line_no) {
            Ok(n) => res == Ok::<u64, ReaderError>(n),
            Err(e) => res matches Err(err) && err@ == e,
        },
{
    number_chars(&parts[i], field_str(i), line_no)
}

/// Parses one row; `line_no` goes into errors.
fn parse_bare_row(line: &[char], line_no: usize) -> (res: Result<Transaction, ReaderError>)
    ensures
        match bare_row(line@, line_no) {
            Ok(t) => res matches Ok(tx) && tx@ == t,
            Err(e) => res matches Err(err) && err@ == e,
        },
{
    let (parts, desc) = match split_row_chars(line, line_no) {
        Ok(r) => r,
        Err(e) => {
            return Err(e);
        },
    };
    let ghost p = chars_views(parts@);
    assert(p.len() == 7);
    assert(forall|k: int| 0 <= k < 7 ==> #[trigger] parts@[k]@ == p[k]);
    assert(bare_row(line@, line_no) == bare_record(p, desc@, line_no));
    let tx_id = match row_number(&parts, 0, line_no) {
        Ok(n) => n,
        Err(e) => {
            return Err(e);
        },
    };
    let from_user_id = match row_number(&parts, 2, line_no) {
        Ok(n) => n,
        Err(e) => {
            return Err(e);
        },
    };
    let to_user_id = match row_number(&parts, 3, line_no) {
        Ok(n) => n,
        Err(e) => {
            return Err(e);
        },
    };
    let amount = match row_number(&parts, 4, line_no) {
        Ok(n) => n,
        Err(e) => {
            return Err(e);
        },
    };
    let timestamp = match row_number(&parts, 5, line_no) {
        Ok(n) => n,
        Err(e) => {
            return Err(e);
        },
    };
    let tx_type = match TxType::parse_exact_chars(&parts[1]) {
        Some(t) => t,
        None => {
            let name = chars_of(field_str(1));
            return Err(
                ReaderError::InvalidFieldValue {
                    line_no,
                    field: string_of(&name),
                    value: string_of(&parts[1]),
                },
            );
        },
    };
    let status = match TxStatus::parse_exact_chars(&parts[6]) {
        Some(s) => s,
        None => {
            let name = chars_of(field_str(6));
            return Err(
                ReaderError::InvalidFieldValue {
                    line_no,
                    field: string_of(&name),
                    value: string_of(&parts[6]),
                },
            );
        },
    };
    Ok(
        Transaction {
            tx_id,
            tx_type,
            from_user_id,
            to_user_id,
            amount,
            timestamp,
            status,
            description: string_of(&desc),
        },
    )
}

impl TransactionDecoder for Csv {
    open spec fn decoded(&self, data: Seq<u8>) -> Result<Seq<TransactionView>, ReaderErrorView> {
        bare_decode(data)
    }

    /// Decodes the header line, then one record per non-blank line.
    #[verifier::rlimit(50)]
    fn decode_all(&self, data: &[u8]) -> (res: Result<Vec<Transaction>, ReaderError>) {
        let lines = split_lines(data);
        let ghost ls = text_lines(data@);
        proof {
            assert(ls.len() == lines@.len());
            assert(forall|k: int| 0 <= k < ls.len() ==> #[trigger] ls[k] == line_chars(
                lines@[k]@,
            ));
        }
        let header: Vec<char> = if lines.len() == 0 {
            Vec::new()
        } else {
            match read_text_line(&lines, 0) {
                Ok(h) => h,
                Err(e) => {
                    return Err(e);
                },
            }
        };
        match validate_header_chars(&header) {
            Ok(()) => {},
            Err(e) => {
                return Err(e);
            },
        }
        let ghost rows = ls.drop_first();
        let mut txs: Vec<Transaction> = Vec::new();
        let mut i: usize = 1;
        while i < lines.len()
            invariant
                1 <= i <= lines@.len() + 1,
                lines@.len() >= 1,
                ls == text_lines(data@),
                ls.len() == lines@.len(),
                rows == ls.drop_first(),
                forall|k: int| 0 <= k < ls.len() ==> #[trigger] ls[k] == line_chars(lines@[k]@),
                match bare_rows(rows, i - 1) {
                    Ok(rest) => bare_decode(data@) == Ok::<Seq<TransactionView>, ReaderErrorView>(
                        txs_view(txs@) + rest,
                    ),
                    Err(e) => bare_decode(data@) == Err::<Seq<TransactionView>, ReaderErrorView>(e),
                },
            decreases lines@.len() - i,
        {
            let line_no = i + 1;
            let l = match read_text_line(&lines, i) {
                Ok(l) => l,
                Err(e) => {
                    return Err(e);
                },
            };
            if !is_blank_chars(&l) {
                match parse_bare_row(&l, line_no) {
                    Ok(tx) => {
                        let ghost old_txs = txs_view(txs@);
                        txs.push(tx);
                        proof {
                            assert(txs_view(txs@) =~= old_txs + seq![tx@]);
                            match bare_rows(rows, i as int) {
                                Ok(rest) => {
                                    assert(old_txs + (seq![tx@] + rest) =~= txs_view(txs@) + rest);
                                },
                                Err(e) => {},
                            }
                        }
                    },
                    Err(e) => {
                        return Err(e);
                    },
                }
            }
            i += 1;
        }
        proof {
            assert(bare_rows(rows, i - 1) == Ok::<Seq<TransactionView>, ReaderErrorView>(seq![]));
            assert(txs_view(txs@) + Seq::<TransactionView>::empty() =~= txs_view(txs@));
        }
        Ok(txs)
    }
}

// ─────────────────────────────────────────────────────────────────────────
// Encoding
// ─────────────────────────────────────────────────────────────────────────

proof fn lemma_bare_lines_push(txs: Seq<TransactionView>, t: TransactionView)
    ensures
        bare_lines(txs.push(t)) == bare_lines(txs) + bare_line(t) + seq!['\n'],
    decreases txs.len(),
{
    if txs.len() == 0 {
        assert(txs.push(t).drop_first() =~= Seq::<TransactionView>::empty());
        assert(bare_lines(Seq::<TransactionView>::empty()) == Seq::<char>::empty());
        assert(txs.push(t)[0] == t);
        assert(bare_lines(txs.push(t)) =~= bare_lines(txs) + bare_line(t) + seq!['\n']);
    } else {
        lemma_bare_lines_push(txs.drop_first(), t);
        assert(txs.push(t).drop_first() =~= txs.drop_first().push(t));
        assert(bare_lines(txs.push(t)) =~= bare_lines(txs) + bare_line(t) + seq!['\n']);
    }
}

impl TransactionEncoder for Csv {
    open spec fn encoded(&self, txs: Seq<TransactionView>) -> Option<Seq<u8>> {
        Some(encode_utf8(bare_text(txs)))
    }

    /// Writes the header line, then one line per transaction with its
    /// description in double quotes.
    fn encode_all(&self, txs: &Vec<Transaction>, w: &mut Vec<u8>) -> (res: Result<(), WriterError>) {
        let ghost v = txs_view(txs@);
        let mut text = header_chars();
        text.push('\n');
        let mut i: usize = 0;
        assert(v.take(0) =~= Seq::<TransactionView>::empty());
        while i < txs.len()
            invariant
                i <= txs@.len(),
                v == txs_view(txs@),
                text@ == header_line() + seq!['\n'] + bare_lines(v.take(i as int)),
            decreases txs@.len() - i,
        {
            let tx = &txs[i];
            push_row_head(&mut text, tx);
            text.push(',');
            text.push('"');
            push_str_chars(&mut text, tx.description.as_str());
            text.push('"');
            text.push('\n');
            proof {
                assert(v.take(i + 1) =~= v.take(i as int).push(v[i as int]));
                lemma_bare_lines_push(v.take(i as int), v[i as int]);
                assert(text@ =~= header_line() + seq!['\n'] + bare_lines(v.take(i + 1)));
            }
            i += 1;
        }
        assert(v.take(txs@.len() as int) =~= v);
        push_utf8(w, &text);
        Ok(())
    }
}

// ─────────────────────────────────────────────────────────────────────────
// Round trip
// ─────────────────────────────────────────────────────────────────────────

/// A transaction's line parses back into the transaction when its
/// description holds no line feed.
proof fn lemma_parse_bare_line(t: TransactionView, line_no: usize)
    requires
        free_of(t.description, '\n'),
    ensures
        !blank(bare_line(t)),
        plain_line(bare_line(t)),
        bare_row(bare_line(t), line_no) == Ok::<TransactionView, ReaderErrorView>(t),
{
    let q = seq!['"'] + t.description + seq!['"'];
    let tq = TransactionView { description: q, ..t };
    assert(free_of(seq!['"'], '\n'));
    lemma_free_concat(seq!['"'], t.description, '\n');
    lemma_free_concat(seq!['"'] + t.description, seq!['"'], '\n');
    assert(csv_safe(tq));
    assert(row_head(tq) == row_head(t));
    assert(row_parts(tq) == row_parts(t));
    assert(csv_row(tq) =~= bare_line(t));
    lemma_parse_csv_row(tq, line_no);
    assert(q.subrange(1, q.len() - 1) =~= t.description);
    let p = row_parts(t);
    assert forall|k: int| 0 <= k < 7 && k != 1 && k != 6 implies trim(#[trigger] p[k]) == p[k] by {
        let n: nat = if k == 0 {
            t.tx_id as nat
        } else if k == 2 {
            t.from_user_id as nat
        } else if k == 3 {
            t.to_user_id as nat
        } else if k == 4 {
            t.amount as nat
        } else {
            t.timestamp as nat
        };
        assert(p[k] == decimal(n));
        lemma_decimal(n);
        assert(is_digit(p[k][0]));
        assert(is_digit(p[k][p[k].len() - 1]));
        lemma_trim_no_ws(p[k]);
    }
    assert(trim(p[0]) == p[0]);
    assert(trim(p[2]) == p[2]);
    assert(trim(p[3]) == p[3]);
    assert(trim(p[4]) == p[4]);
    assert(trim(p[5]) == p[5]);
    lemma_parse_decimal(t.tx_id);
    lemma_parse_decimal(t.from_user_id);
    lemma_parse_decimal(t.to_user_id);
    lemma_parse_decimal(t.amount);
    lemma_parse_decimal(t.timestamp);
    lemma_tx_type_roundtrip(t.tx_type);
    lemma_tx_status_roundtrip(t.status);
}

/// The rows of the text are the transactions' lines, each with a line feed.
proof fn lemma_bare_lines_joined(txs: Seq<TransactionView>)
    ensures
        bare_lines(txs) == joined_lines(txs.map_values(|t: TransactionView| bare_line(t))),
    decreases txs.len(),
{
    if txs.len() > 0 {
        lemma_bare_lines_joined(txs.drop_first());
        assert(txs.map_values(|t: TransactionView| bare_line(t)).drop_first()
            =~= txs.drop_first().map_values(|t: TransactionView| bare_line(t)));
    } else {
        assert(txs.map_values(|t: TransactionView| bare_line(t)) =~= Seq::<Seq<char>>::empty());
    }
}

/// Rows that are transactions' lines decode to those transactions.
proof fn lemma_bare_rows(txs: Seq<TransactionView>, i: int)
    requires
        0 <= i <= txs.len(),
        forall|k: int| 0 <= k < txs.len() ==> free_of(#[trigger] txs[k].description, '\n'),
    ensures
        bare_rows(txs.map_values(|t: TransactionView| Some(bare_line(t))), i) == Ok::<
            Seq<TransactionView>,
            ReaderErrorView,
        >(txs.subrange(i, txs.len() as int)),
    decreases txs.len() - i,
{
    let rows = txs.map_values(|t: TransactionView| Some(bare_line(t)));
    if i < txs.len() {
        assert(free_of(txs[i].description, '\n'));
        lemma_parse_bare_line(txs[i], (i + 2) as usize);
        lemma_bare_rows(txs, i + 1);
        assert(rows[i] == Some(bare_line(txs[i])));
        assert(seq![txs[i]] + txs.subrange(i + 1, txs.len() as int) =~= txs.subrange(
            i,
            txs.len() as int,
        ));
    } else {
        assert(txs.subrange(i, txs.len() as int) =~= Seq::<TransactionView>::empty());
    }
}

/// Decoding what the encoder writes gives back the transactions, whenever no
/// description holds a line feed.
pub proof fn lemma_bare_csv_roundtrip(txs: Seq<TransactionView>)
    requires
        forall|i: int| 0 <= i < txs.len() ==> free_of(#[trigger] txs[i].description, '\n'),
    ensures
        bare_decode(encode_utf8(bare_text(txs))) == Ok::<Seq<TransactionView>, ReaderErrorView>(
            txs,
        ),
{
    let lines = txs.map_values(|t: TransactionView| bare_line(t));
    let ls = seq![header_line()] + lines;
    lemma_bare_lines_joined(txs);
    assert(ls.drop_first() =~= lines);
    assert(bare_text(txs) =~= joined_lines(ls));
    lemma_header_line();
    assert forall|i: int| 0 <= i < ls.len() implies plain_line(#[trigger] ls[i]) by {
        if i > 0 {
            assert(ls[i] == bare_line(txs[i - 1]));
            assert(free_of(txs[i - 1].description, '\n'));
            lemma_parse_bare_line(txs[i - 1], 0);
        }
    }
    lemma_text_lines_joined(ls);
    let tl = text_lines(encode_utf8(bare_text(txs)));
    assert(tl == ls.map_values(|l: Seq<char>| Some(l)));
    assert(tl[0] == Some(header_line()));
    assert(tl.drop_first() =~= txs.map_values(|t: TransactionView| Some(bare_line(t))));
    lemma_bare_rows(txs, 0);
    assert(txs.subrange(0, txs.len() as int) =~= txs);
}

/// The line of a transaction is one prefix, the same whatever the
/// description, then the description exactly as it stands, then the closing
/// quote.
pub proof fn lemma_bare_line_description(t: TransactionView, d: Seq<char>)
    ensures
        bare_line(TransactionView { description: d, ..t }) == bare_line(
            TransactionView { description: seq![], ..t },
        ).drop_last() + d + seq!['"'],
{
    let td = TransactionView { description: d, ..t };
    let te = TransactionView { description: seq![], ..t };
    assert(bare_line(td) =~= bare_line(te).drop_last() + d + seq!['"']);
}

} // verus!
