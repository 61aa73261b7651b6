//! The CSV format.
//!
//! The first line is the header
//! `TX_ID,TX_TYPE,FROM_USER_ID,TO_USER_ID,AMOUNT,TIMESTAMP,STATUS,DESCRIPTION`;
//! each further non-blank line is a record whose last field, the
//! description, is enclosed in double quotes (it may hold commas and quotes
//! itself). Decoded descriptions keep their quotes, and encoding writes them
//! as they stand. Errors give line numbers counted from one, the header
//! being line 1.
use crate::codec::{Decoder, Encoder, read_text_line};
use crate::error::{ReaderError, ReaderErrorView, WriterError};
use crate::text::{
    free_of, is_digit, joined_lines, lemma_decimal, lemma_digits_free,
    lemma_free_concat, lemma_index_from, lemma_parse_decimal, lemma_split_first,
    lemma_split_single, lemma_text_lines_joined, lemma_trim_no_ws, lemma_upper_free, plain_line,
    upper_word, chars_of, chars_views, copy_chars, decimal, find_first, find_last, index_from,
    line_chars, push_decimal, push_range, push_str_chars, push_utf8, range_eq, rindex_before,
    skip_ws_end, split_chars, split_lines, split_on, string_of, text_lines, trim, trim_bounds,
    trim_end, trim_end_char, trim_end_char_bound,
};
use crate::transaction::builder::{
    BuilderView, TransactionBuilder, build_record, is_quoted, set_field,
};
use crate::transaction::model::{
    Transaction, TransactionView, TxStatus, TxType, lemma_tx_status_roundtrip, lemma_tx_type_roundtrip,
    txs_view,
};
use crate::transaction::schema::{field_index, field_name, field_str, lemma_field_index};
use crate::text::parse_u64_value;
use vstd::prelude::*;
use vstd::utf8::encode_utf8;

verus! {

/// CSV transaction codec.
pub struct Csv;

// ─────────────────────────────────────────────────────────────────────────
// Specification
// ─────────────────────────────────────────────────────────────────────────

/// The header line: the field names joined by commas.
pub open spec fn header_line() -> Seq<char> {
    field_name(0) + seq![','] + field_name(1) + seq![','] + field_name(2) + seq![','] + field_name(
        3,
    ) + seq![','] + field_name(4) + seq![','] + field_name(5) + seq![','] + field_name(6) + seq![
        ',',
    ] + field_name(7)
}

/// Whether a line is empty once trimmed.
pub open spec fn blank(l: Seq<char>) -> bool {
    trim(l).len() == 0
}

/// The reason given for a row without any double quote.
pub open spec fn no_opening_quote_reason() -> Seq<char> {
    "missing opening quote for DESCRIPTION"@
}

/// The reason given for a row without a closing double quote.
pub open spec fn no_closing_quote_reason() -> Seq<char> {
    "missing closing quote for DESCRIPTION"@
}

/// The reason given for a row whose only double quote opens the description.
pub open spec fn broken_quotes_row_reason() -> Seq<char> {
    "broken quotes for DESCRIPTION"@
}

/// The reason given for a row with the wrong number of fields before the description.
pub open spec fn field_count_reason(n: nat) -> Seq<char> {
    "expected 7 fields before DESCRIPTION, got "@ + decimal(n)
}

/// Splitting a row: the trimmed row's description lies between its first and
/// last double quote; what stands before it, without trailing commas, must
/// hold seven comma-separated fields.
pub open spec fn split_row(l: Seq<char>, line_no: usize) -> Result<
    (Seq<Seq<char>>, Seq<char>),
    ReaderErrorView,
> {
    let t = trim(l);
    let start = index_from(t, '"', 0);
    let end = rindex_before(t, '"', t.len() as int);
    if start < 0 {
        Err(ReaderErrorView::InvalidRow { line_no, reason: no_opening_quote_reason() })
    } else if end < 0 {
        Err(ReaderErrorView::InvalidRow { line_no, reason: no_closing_quote_reason() })
    } else if end <= start {
        Err(ReaderErrorView::InvalidRow { line_no, reason: broken_quotes_row_reason() })
    } else {
        let parts = split_on(trim_end_char(t.take(start), ','), ',');
        if parts.len() != 7 {
            Err(ReaderErrorView::InvalidRow { line_no, reason: field_count_reason(parts.len()) })
        } else {
            Ok((parts, t.subrange(start + 1, end)))
        }
    }
}

/// The error for field `i` holding `value`.
pub open spec fn bad_value(line_no: usize, i: int, value: Seq<char>) -> ReaderErrorView {
    ReaderErrorView::InvalidFieldValue { line_no, field: field_name(i), value }
}

/// The record that the seven fields and the (unquoted) description make:
/// numbers are parsed as they stand, type and status names ignore
/// surrounding whitespace, the first field that does not parse is the error,
/// and the description gets its quotes back.
pub open spec fn row_record(parts: Seq<Seq<char>>, desc: Seq<char>, line_no: usize) -> Result<
    TransactionView,
    ReaderErrorView,
> {
    match parse_u64_value(parts[0]) {
        None => Err(bad_value(line_no, 0, parts[0])),
        Some(tx_id) => match TxType::from_name(trim(parts[1])) {
            None => Err(bad_value(line_no, 1, parts[1])),
            Some(tx_type) => match parse_u64_value(parts[2]) {
                None => Err(bad_value(line_no, 2, parts[2])),
                Some(from_user_id) => match parse_u64_value(parts[3]) {
                    None => Err(bad_value(line_no, 3, parts[3])),
                    Some(to_user_id) => match parse_u64_value(parts[4]) {
                        None => Err(bad_value(line_no, 4, parts[4])),
                        Some(amount) => match parse_u64_value(parts[5]) {
                            None => Err(bad_value(line_no, 5, parts[5])),
                            Some(timestamp) => match TxStatus::from_name(trim(parts[6])) {
                                None => Err(bad_value(line_no, 6, parts[6])),
                                Some(status) => Ok(
                                    TransactionView {
                                        tx_id,
                                        tx_type,
                                        from_user_id,
                                        to_user_id,
                                        amount,
                                        timestamp,
                                        status,
                                        description: seq!['"'] + desc + seq!['"'],
                                    },
                                ),
                            },
                        },
                    },
                },
            },
        },
    }
}

/// Parsing one row into a record.
pub open spec fn parse_row(l: Seq<char>, line_no: usize) -> Result<
    TransactionView,
    ReaderErrorView,
> {
    match split_row(l, line_no) {
        Err(e) => Err(e),
        Ok((parts, desc)) => row_record(parts, desc, line_no),
    }
}

/// Decoding the rows after the header from row `i` on: blank rows are
/// skipped, the first error ends decoding. Row `i` is line `i + 2` of the
/// input: the header is line 1, and errors count lines from one.
pub open spec fn decode_rows(rows: Seq<Option<Seq<char>>>, i: int) -> Result<
    Seq<TransactionView>,
    ReaderErrorView,
>
    decreases rows.len() - i,
{
    if i < 0 || i >= rows.len() {
        Ok(seq![])
    } else {
        match rows[i] {
            None => Err(ReaderErrorView::Io),
            Some(l) => if blank(l) {
                decode_rows(rows, i + 1)
            } else {
                match parse_row(l, (i + 2) as usize) {
                    Err(e) => Err(e),
                    Ok(t) => match decode_rows(rows, i + 1) {
                        Ok(ts) => Ok(seq![t] + ts),
                        Err(e) => Err(e),
                    },
                }
            },
        }
    }
}

/// Decoding CSV input: the header must match (an empty input has an empty
/// header), then the rows.
pub open spec fn csv_decode(data: Seq<u8>) -> Result<Seq<TransactionView>, ReaderErrorView> {
    let ls = text_lines(data);
    let header = if ls.len() == 0 {
        Some(Seq::<char>::empty())
    } else {
        ls[0]
    };
    match header {
        None => Err(ReaderErrorView::Io),
        Some(h) => if trim(h) != header_line() {
            Err(ReaderErrorView::InvalidCsvHeader { header: trim_end(h) })
        } else {
            decode_rows(ls.drop_first(), 0)
        },
    }
}

/// The CSV line of a transaction (without line feed): its fields in schema
/// order, the description as it stands.
pub open spec fn csv_row(t: TransactionView) -> Seq<char> {
    decimal(t.tx_id as nat) + seq![','] + t.tx_type.name() + seq![','] + decimal(
        t.from_user_id as nat,
    ) + seq![','] + decimal(t.to_user_id as nat) + seq![','] + decimal(t.amount as nat) + seq![
        ',',
    ] + decimal(t.timestamp as nat) + seq![','] + t.status.name() + seq![','] + t.description
}

/// The rows of `txs`, each followed by a line feed.
pub open spec fn csv_rows(txs: Seq<TransactionView>) -> Seq<char>
    decreases txs.len(),
{
    if txs.len() == 0 {
        seq![]
    } else {
        csv_row(txs[0]) + seq!['\n'] + csv_rows(txs.drop_first())
    }
}

/// The CSV text of `txs`: header line, then one line per transaction.
pub open spec fn csv_text(txs: Seq<TransactionView>) -> Seq<char> {
    header_line() + seq!['\n'] + csv_rows(txs)
}

// ─────────────────────────────────────────────────────────────────────────
// Row helpers
// ─────────────────────────────────────────────────────────────────────────

/// The header line as characters.
pub(crate) fn header_chars() -> (res: Vec<char>)
    ensures
        res@ == header_line(),
{
    let mut res: Vec<char> = Vec::new();
    let mut i: usize = 0;
    while i < 8
        invariant
            i <= 8,
            res@ == header_upto(i as int),
        decreases 8 - i,
    {
        if i > 0 {
            res.push(',');
        }
        push_str_chars(&mut res, field_str(i));
        i += 1;
    }
    assert(header_upto(8) =~= header_line()) by {
        reveal_with_fuel(header_upto, 9);
    }
    res
}

/// The first `n` field names joined by commas.
spec fn header_upto(n: int) -> Seq<char>
    decreases n,
{
    if n <= 0 {
        seq![]
    } else if n == 1 {
        field_name(0)
    } else {
        header_upto(n - 1) + seq![','] + field_name(n - 1)
    }
}

/// Whether a line is blank, i.e. empty once trimmed.
pub fn is_blank(s: &str) -> (b: bool)
    ensures
        b == blank(s@),
{
    let cs = chars_of(s);
    is_blank_chars(&cs)
}

/// [`is_blank`] on characters.
pub fn is_blank_chars(s: &[char]) -> (b: bool)
    ensures
        b == blank(s@),
{
    let (a, e) = trim_bounds(s, 0, s.len());
    assert(s@.subrange(0, s@.len() as int) =~= s@);
    a == e
}

/// Checks the header line.
pub fn validate_header(line: &str) -> (res: Result<(), ReaderError>)
    ensures
        trim(line@) == header_line() ==> res is Ok,
        trim(line@) != header_line() ==> (res matches Err(e) && e@
            == (ReaderErrorView::InvalidCsvHeader { header: trim_end(line@) })),
{
    let cs = chars_of(line);
    validate_header_chars(&cs)
}

/// [`validate_header`] on characters.
pub fn validate_header_chars(line: &[char]) -> (res: Result<(), ReaderError>)
    ensures
        trim(line@) == header_line() ==> res is Ok,
        trim(line@) != header_line() ==> (res matches Err(e) && e@
            == (ReaderErrorView::InvalidCsvHeader { header: trim_end(line@) })),
{
    assert(line@.subrange(0, line@.len() as int) =~= line@);
    let (a, b) = trim_bounds(line, 0, line.len());
    let header = header_chars();
    if range_eq(line, a, b, &header) {
        Ok(())
    } else {
        let e = skip_ws_end(line, 0, line.len());
        Err(ReaderError::InvalidCsvHeader { header: string_from_range(line, e) })
    }
}

/// A `String` of `cs[..hi]`.
fn string_from_range(cs: &[char], hi: usize) -> (res: String)
    requires
        hi <= cs@.len(),
    ensures
        res@ == cs@.subrange(0, hi as int),
{
    crate::text::string_from(cs, 0, hi)
}

/// Splits a row into its seven leading fields and its description (without quotes).
pub fn split_fields(line: &str, line_no: usize) -> (res: Result<(Vec<String>, String), ReaderError>)
    ensures
        match split_row(line@, line_no) {
            Ok((parts, desc)) => res matches Ok((f, d)) && f@.len() == 7 && (forall|i: int|
                0 <= i < 7 ==> #[trigger] f@[i]@ == parts[i]) && d@ == desc,
            Err(e) => res matches Err(err) && err@ == e,
        },
{
    let cs = chars_of(line);
    match split_row_chars(&cs, line_no) {
        Ok((parts, desc)) => {
            let mut fields: Vec<String> = Vec::new();
            let mut i: usize = 0;
            while i < 7
                invariant
                    i <= 7,
                    parts@.len() == 7,
                    fields@.len() == i,
                    forall|j: int| 0 <= j < i ==> #[trigger] fields@[j]@ == parts@[j]@,
                decreases 7 - i,
            {
                fields.push(string_of(&parts[i]));
                i += 1;
            }
            Ok((fields, string_of(&desc)))
        },
        Err(e) => Err(e),
    }
}

/// [`split_fields`] on characters.
pub fn split_row_chars(line: &[char], line_no: usize) -> (res: Result<
    (Vec<Vec<char>>, Vec<char>),
    ReaderError,
>)
    ensures
        match split_row(line@, line_no) {
            Ok((parts, desc)) => res matches Ok((p, d)) && chars_views(p@) == parts && d@ == desc,
            Err(e) => res matches Err(err) && err@ == e,
        },
{
    let (a, b) = trim_bounds(line, 0, line.len());
    assert(line@.subrange(0, line@.len() as int) =~= line@);
    let t = copy_chars(line, a, b);
    let start = match find_first(&t, '"') {
        Some(k) => k,
        None => {
            let cs = chars_of("missing opening quote for DESCRIPTION");
            return Err(ReaderError::InvalidRow { line_no, reason: string_of(&cs) });
        },
    };
    let end = match find_last(&t, '"') {
        Some(k) => k,
        None => {
            let cs = chars_of("missing closing quote for DESCRIPTION");
            return Err(ReaderError::InvalidRow { line_no, reason: string_of(&cs) });
        },
    };
    if end <= start {
        let cs = chars_of("broken quotes for DESCRIPTION");
        return Err(ReaderError::InvalidRow { line_no, reason: string_of(&cs) });
    }
    let description = copy_chars(&t, start + 1, end);
    let pe = trim_end_char_bound(&t, start, ',');
    let prefix = copy_chars(&t, 0, pe);
    assert(t@.take(start as int) =~= t@.subrange(0, start as int));
    let parts = split_chars(&prefix, ',');
    if parts.len() != 7 {
        let mut cs = chars_of("expected 7 fields before DESCRIPTION, got ");
        push_decimal(&mut cs, parts.len() as u64);
        return Err(ReaderError::InvalidRow { line_no, reason: string_of(&cs) });
    }
    Ok((parts, description))
}

/// The quoted form of a description: `"` + `desc` + `"`.
fn quoted(desc: &[char]) -> (res: Vec<char>)
    ensures
        res@ == seq!['"'] + desc@ + seq!['"'],
{
    let mut q: Vec<char> = Vec::new();
    q.push('"');
    push_range(&mut q, desc, 0, desc.len());
    q.push('"');
    assert(desc@.subrange(0, desc@.len() as int) =~= desc@);
    assert(q@ =~= seq!['"'] + desc@ + seq!['"']);
    q
}

/// Parses one row into a record; `line_no` goes into errors.
pub fn parse_line(line: &str, line_no: usize) -> (res: Result<Transaction, ReaderError>)
    ensures
        match parse_row(line@, line_no) {
            Ok(t) => res matches Ok(tx) && tx@ == t,
            Err(e) => res matches Err(err) && err@ == e,
        },
{
    let cs = chars_of(line);
    parse_line_chars(&cs, line_no)
}

/// Sets field `i` of the builder from `value`.
fn set_field_at(b: &mut TransactionBuilder, i: usize, value: &[char], line_no: usize) -> (res: Result<
    (),
    ReaderError,
>)
    requires
        i < 8,
    ensures
        match set_field(old(b)@, field_name(i as int), value@, line_no) {
            Ok(nb) => res is Ok && final(b)@ == nb,
            Err(e) => res matches Err(err) && err@ == e,
        },
{
    let key = chars_of(field_str(i));
    b.set_chars(&key, value, line_no)
}

/// [`parse_line`] on characters.
pub fn parse_line_chars(line: &[char], line_no: usize) -> (res: Result<Transaction, ReaderError>)
    ensures
        match parse_row(line@, line_no) {
            Ok(t) => res matches Ok(tx) && tx@ == t,
            Err(e) => res matches Err(err) && err@ == e,
        },
{
    let (parts, desc) = match split_row_chars(line, line_no) {
        Ok(r) => r,
        Err(e) => {
            return Err(e);
        },
    };
    let ghost p = chars_views(parts@);
    assert(p.len() == 7);
    assert(parse_row(line@, line_no) == row_record(p, desc@, line_no));
    assert(forall|k: int| 0 <= k < 7 ==> #[trigger] parts@[k]@ == p[k]);
    proof {
        lemma_field_index(0);
        lemma_field_index(1);
        lemma_field_index(2);
        lemma_field_index(3);
        lemma_field_index(4);
        lemma_field_index(5);
        lemma_field_index(6);
        lemma_field_index(7);
    }
    let mut b = TransactionBuilder::new();
    let mut i: usize = 0;
    while i < 7
        invariant
            i <= 7,
            parts@.len() == 7,
            p == chars_views(parts@),
            forall|k: int| 0 <= k < 8 ==> field_index(#[trigger] field_name(k)) == Some(k),
            row_prefix_ok(p, i as int, line_no),
            b@ == row_builder(p, i as int),
            parse_row(line@, line_no) == row_record(p, desc@, line_no),
        decreases 7 - i,
    {
        match set_field_at(&mut b, i, &parts[i], line_no) {
            Ok(()) => {},
            Err(e) => {
                proof {
                    lemma_row_record_fails(p, desc@, i as int, line_no);
                }
                return Err(e);
            },
        }
        proof {
            lemma_row_step(p, i as int, line_no);
        }
        i += 1;
    }
    let q = quoted(&desc);
    proof {
        lemma_row_builder_no_desc(p, 7);
        assert(is_quoted(q@));
    }
    match set_field_at(&mut b, 7, &q, line_no) {
        Ok(()) => {},
        Err(e) => {
            return Err(e);
        },
    }
    proof {
        lemma_row_complete(p, desc@, line_no, b@);
    }
    b.build(line_no)
}

/// Whether the first `n` fields of a row parse.
spec fn row_prefix_ok(p: Seq<Seq<char>>, n: int, line_no: usize) -> bool {
    forall|k: int| 0 <= k < n ==> set_field(row_builder(p, k), field_name(k), p[k], line_no) is Ok
}

/// The builder after the first `n` fields of a row.
spec fn row_builder(p: Seq<Seq<char>>, n: int) -> BuilderView
    decreases n,
{
    if n <= 0 {
        BuilderView::empty()
    } else {
        let prev = row_builder(p, n - 1);
        match set_field(prev, field_name(n - 1), p[n - 1], 0) {
            Ok(b) => b,
            Err(_) => prev,
        }
    }
}

proof fn lemma_row_builder_no_desc(p: Seq<Seq<char>>, n: int)
    requires
        0 <= n <= 7,
        forall|k: int| 0 <= k < 8 ==> field_index(#[trigger] field_name(k)) == Some(k),
    ensures
        row_builder(p, n).description is None,
    decreases n,
{
    if n > 0 {
        lemma_row_builder_no_desc(p, n - 1);
    }
}

proof fn lemma_row_step(p: Seq<Seq<char>>, i: int, line_no: usize)
    requires
        0 <= i < 7,
        row_prefix_ok(p, i, line_no),
        forall|k: int| 0 <= k < 8 ==> field_index(#[trigger] field_name(k)) == Some(k),
    ensures
        set_field(row_builder(p, i), field_name(i), p[i], line_no) is Ok ==> row_prefix_ok(
            p,
            i + 1,
            line_no,
        ),
{
}

proof fn lemma_row_record_fails(p: Seq<Seq<char>>, desc: Seq<char>, i: int, line_no: usize)
    requires
        0 <= i < 7,
        row_prefix_ok(p, i, line_no),
        forall|k: int| 0 <= k < 8 ==> field_index(#[trigger] field_name(k)) == Some(k),
    ensures
        set_field(row_builder(p, i), field_name(i), p[i], line_no) matches Err(e) ==> row_record(
            p,
            desc,
            line_no,
        ) == Err::<TransactionView, ReaderErrorView>(e),
{
}

proof fn lemma_row_complete(p: Seq<Seq<char>>, desc: Seq<char>, line_no: usize, b: BuilderView)
    requires
        row_prefix_ok(p, 7, line_no),
        forall|k: int| 0 <= k < 8 ==> field_index(#[trigger] field_name(k)) == Some(k),
        set_field(row_builder(p, 7), field_name(7), seq!['"'] + desc + seq!['"'], line_no) == Ok::<
            BuilderView,
            ReaderErrorView,
        >(b),
    ensures
        build_record(b, line_no) == row_record(p, desc, line_no),
{
}

impl Decoder for Csv {
    open spec fn decoding(&self, data: Seq<u8>) -> Result<Seq<TransactionView>, ReaderErrorView> {
        csv_decode(data)
    }

    /// Decodes CSV input: the header line, then one record per non-blank line.
    #[verifier::rlimit(50)]
    fn decode(&self, data: &[u8]) -> (res: Result<Vec<Transaction>, ReaderError>)
        ensures
            match csv_decode(data@) {
                Ok(txs) => res matches Ok(v) && txs_view(v@) == txs,
                Err(e) => res matches Err(err) && err@ == e,
            },
    {
        let lines = split_lines(data);
        let ghost ls = text_lines(data@);
        proof {
            assert(ls.len() == lines@.len());
            assert(forall|k: int| 0 <= k < ls.len() ==> #[trigger] ls[k] == line_chars(
                lines@[k]@,
            ));
        }
        let header: Vec<char> = if lines.len() == 0 {
            Vec::new()
        } else {
            match read_text_line(&lines, 0) {
                Ok(h) => h,
                Err(e) => {
                    return Err(e);
                },
            }
        };
        match validate_header_chars(&header) {
            Ok(()) => {},
            Err(e) => {
                return Err(e);
            },
        }
        let ghost rows = ls.drop_first();
        let mut txs: Vec<Transaction> = Vec::new();
        let mut i: usize = 1;
        while i < lines.len()
            invariant
                1 <= i <= lines@.len() + 1,
                lines@.len() >= 1,
                ls == text_lines(data@),
                ls.len() == lines@.len(),
                rows == ls.drop_first(),
                forall|k: int| 0 <= k < ls.len() ==> #[trigger] ls[k] == line_chars(lines@[k]@),
                match decode_rows(rows, i - 1) {
                    Ok(rest) => csv_decode(data@) == Ok::<Seq<TransactionView>, ReaderErrorView>(
                        txs_view(txs@) + rest,
                    ),
                    Err(e) => csv_decode(data@) == Err::<Seq<TransactionView>, ReaderErrorView>(e),
                },
            decreases lines@.len() - i,
        {
            let line_no = i + 1;
            let l = match read_text_line(&lines, i) {
                Ok(l) => l,
                Err(e) => {
                    return Err(e);
                },
            };
            if !is_blank_chars(&l) {
                match parse_line_chars(&l, line_no) {
                    Ok(tx) => {
                        let ghost old_txs = txs_view(txs@);
                        txs.push(tx);
                        proof {
                            assert(txs_view(txs@) =~= old_txs + seq![tx@]);
                            match decode_rows(rows, i as int) {
                                Ok(rest) => {
                                    assert(old_txs + (seq![tx@] + rest) =~= txs_view(txs@) + rest);
                                },
                                Err(e) => {},
                            }
                        }
                    },
                    Err(e) => {
                        return Err(e);
                    },
                }
            }
            i += 1;
        }
        proof {
            assert(decode_rows(rows, i - 1) == Ok::<Seq<TransactionView>, ReaderErrorView>(seq![]));
            assert(txs_view(txs@) + Seq::<TransactionView>::empty() =~= txs_view(txs@));
        }
        Ok(txs)
    }
}

/// Appends the fields of `tx` before its description, joined by commas.
pub(crate) fn push_row_head(out: &mut Vec<char>, tx: &Transaction)
    ensures
        final(out)@ == old(out)@ + row_head(tx@),
{
    push_decimal(out, tx.tx_id);
    out.push(',');
    let mut ty = tx.tx_type.name_chars();
    out.append(&mut ty);
    out.push(',');
    push_decimal(out, tx.from_user_id);
    out.push(',');
    push_decimal(out, tx.to_user_id);
    out.push(',');
    push_decimal(out, tx.amount);
    out.push(',');
    push_decimal(out, tx.timestamp);
    out.push(',');
    let mut st = tx.status.name_chars();
    out.append(&mut st);
    assert(out@ =~= old(out)@ + row_head(tx@));
}

/// Appends the CSV line of `tx` (without line feed) to `out`.
fn push_row(out: &mut Vec<char>, tx: &Transaction)
    ensures
        final(out)@ == old(out)@ + csv_row(tx@),
{
    push_row_head(out, tx);
    out.push(',');
    push_str_chars(out, tx.description.as_str());
    assert(out@ =~= old(out)@ + csv_row(tx@));
}

proof fn lemma_csv_rows_push(txs: Seq<TransactionView>, t: TransactionView)
    ensures
        csv_rows(txs.push(t)) == csv_rows(txs) + csv_row(t) + seq!['\n'],
    decreases txs.len(),
{
    if txs.len() == 0 {
        assert(txs.push(t).drop_first() =~= Seq::<TransactionView>::empty());
        assert(csv_rows(Seq::<TransactionView>::empty()) == Seq::<char>::empty());
        assert(txs.push(t)[0] == t);
        assert(csv_rows(txs.push(t)) =~= csv_rows(txs) + csv_row(t) + seq!['\n']);
    } else {
        lemma_csv_rows_push(txs.drop_first(), t);
        assert(txs.push(t).drop_first() =~= txs.drop_first().push(t));
        assert(csv_rows(txs.push(t)) =~= csv_rows(txs) + csv_row(t) + seq!['\n']);
    }
}

impl Encoder for Csv {
    open spec fn encoding(&self, txs: Seq<TransactionView>) -> (Seq<u8>, bool) {
        (encode_utf8(csv_text(txs)), true)
    }

    /// Writes the header line, then one line per transaction.
    fn encode(&self, txs: &[Transaction], w: &mut Vec<u8>) -> (res: Result<(), WriterError>)
        ensures
            res is Ok,
            final(w)@ == old(w)@ + encode_utf8(csv_text(txs_view(txs@))),
    {
        let ghost v = txs_view(txs@);
        let mut text = header_chars();
        text.push('\n');
        let mut i: usize = 0;
        assert(v.take(0) =~= Seq::<TransactionView>::empty());
        while i < txs.len()
            invariant
                i <= txs@.len(),
                v == txs_view(txs@),
                text@ == header_line() + seq!['\n'] + csv_rows(v.take(i as int)),
            decreases txs@.len() - i,
        {
            push_row(&mut text, &txs[i]);
            text.push('\n');
            proof {
                assert(v.take(i + 1) =~= v.take(i as int).push(v[i as int]));
                lemma_csv_rows_push(v.take(i as int), v[i as int]);
                assert(text@ =~= header_line() + seq!['\n'] + csv_rows(v.take(i + 1)));
            }
            i += 1;
        }
        assert(v.take(txs@.len() as int) =~= v);
        push_utf8(w, &text);
        Ok(())
    }
}

// ─────────────────────────────────────────────────────────────────────────
// Round trip
// ─────────────────────────────────────────────────────────────────────────

/// Whether a transaction reads back from its CSV line: its description is
/// enclosed in double quotes and holds no line feed.
pub open spec fn csv_safe(t: TransactionView) -> bool {
    is_quoted(t.description) && free_of(t.description, '\n')
}

/// The fields of a CSV line before the description, joined by commas.
pub open spec fn row_head(t: TransactionView) -> Seq<char> {
    decimal(t.tx_id as nat) + seq![','] + t.tx_type.name() + seq![','] + decimal(
        t.from_user_id as nat,
    ) + seq![','] + decimal(t.to_user_id as nat) + seq![','] + decimal(t.amount as nat) + seq![
        ',',
    ] + decimal(t.timestamp as nat) + seq![','] + t.status.name()
}

/// The seven fields of a CSV line before the description.
pub open spec fn row_parts(t: TransactionView) -> Seq<Seq<char>> {
    seq![
        decimal(t.tx_id as nat),
        t.tx_type.name(),
        decimal(t.from_user_id as nat),
        decimal(t.to_user_id as nat),
        decimal(t.amount as nat),
        decimal(t.timestamp as nat),
        t.status.name(),
    ]
}

/// A CSV line's leading fields hold none of the characters that structure it.
#[verifier::spinoff_prover]
pub(crate) proof fn lemma_row_head_free(t: TransactionView, c: char)
    requires
        !is_digit(c),
        !(65 <= (c as u32) <= 90 || c as u32 == 95),
        c != ',',
    ensures
        free_of(row_head(t), c),
{
    let d0 = decimal(t.tx_id as nat);
    let n1 = t.tx_type.name();
    let d2 = decimal(t.from_user_id as nat);
    let d3 = decimal(t.to_user_id as nat);
    let d4 = decimal(t.amount as nat);
    let d5 = decimal(t.timestamp as nat);
    let n6 = t.status.name();
    let comma = seq![','];
    lemma_decimal(t.tx_id as nat);
    lemma_decimal(t.from_user_id as nat);
    lemma_decimal(t.to_user_id as nat);
    lemma_decimal(t.amount as nat);
    lemma_decimal(t.timestamp as nat);
    lemma_tx_type_roundtrip(t.tx_type);
    lemma_tx_status_roundtrip(t.status);
    lemma_digits_free(d0, c);
    lemma_digits_free(d2, c);
    lemma_digits_free(d3, c);
    lemma_digits_free(d4, c);
    lemma_digits_free(d5, c);
    lemma_upper_free(n1, c);
    lemma_upper_free(n6, c);
    assert(free_of(comma, c));
    let h1 = d0 + comma;
    lemma_free_concat(d0, comma, c);
    let h2 = h1 + n1;
    lemma_free_concat(h1, n1, c);
    let h3 = h2 + comma;
    lemma_free_concat(h2, comma, c);
    let h4 = h3 + d2;
    lemma_free_concat(h3, d2, c);
    let h5 = h4 + comma;
    lemma_free_concat(h4, comma, c);
    let h6 = h5 + d3;
    lemma_free_concat(h5, d3, c);
    let h7 = h6 + comma;
    lemma_free_concat(h6, comma, c);
    let h8 = h7 + d4;
    lemma_free_concat(h7, d4, c);
    let h9 = h8 + comma;
    lemma_free_concat(h8, comma, c);
    let h10 = h9 + d5;
    lemma_free_concat(h9, d5, c);
    let h11 = h10 + comma;
    lemma_free_concat(h10, comma, c);
    lemma_free_concat(h11, n6, c);
    assert(row_head(t) == h11 + n6);
}

/// A CSV line's leading fields start with a digit, do not end with a comma,
/// and split back into the seven fields.
#[verifier::spinoff_prover]
#[verifier::rlimit(60)]
pub(crate) proof fn lemma_row_head(t: TransactionView)
    ensures
        row_head(t).len() > 0,
        is_digit(row_head(t)[0]),
        row_head(t).last() != ',',
        split_on(row_head(t), ',') == row_parts(t),
{
    let d0 = decimal(t.tx_id as nat);
    let n1 = t.tx_type.name();
    let d2 = decimal(t.from_user_id as nat);
    let d3 = decimal(t.to_user_id as nat);
    let d4 = decimal(t.amount as nat);
    let d5 = decimal(t.timestamp as nat);
    let n6 = t.status.name();
    let comma = seq![','];
    lemma_decimal(t.tx_id as nat);
    lemma_decimal(t.from_user_id as nat);
    lemma_decimal(t.to_user_id as nat);
    lemma_decimal(t.amount as nat);
    lemma_decimal(t.timestamp as nat);
    lemma_tx_type_roundtrip(t.tx_type);
    lemma_tx_status_roundtrip(t.status);
    assert(row_head(t)[0] == d0[0]);
    assert(row_head(t).last() == n6.last());
    assert(65 <= (n6.last() as u32) <= 90 || n6.last() as u32 == 95);
    lemma_digits_free(d0, ',');
    lemma_digits_free(d2, ',');
    lemma_digits_free(d3, ',');
    lemma_digits_free(d4, ',');
    lemma_digits_free(d5, ',');
    lemma_upper_free(n1, ',');
    lemma_upper_free(n6, ',');
    let r6 = n6;
    let r5 = d5 + comma + r6;
    let r4 = d4 + comma + r5;
    let r3 = d3 + comma + r4;
    let r2 = d2 + comma + r3;
    let r1 = n1 + comma + r2;
    assert(row_head(t) =~= d0 + comma + r1);
    lemma_split_single(n6, ',');
    lemma_split_first(d5, ',', r6);
    lemma_split_first(d4, ',', r5);
    lemma_split_first(d3, ',', r4);
    lemma_split_first(d2, ',', r3);
    lemma_split_first(n1, ',', r2);
    lemma_split_first(d0, ',', r1);
    assert(split_on(row_head(t), ',') =~= row_parts(t));
}

/// A transaction's CSV line splits into its fields and unquoted
/// description, and parses back into the transaction.
pub(crate) proof fn lemma_parse_csv_row(t: TransactionView, line_no: usize)
    requires
        csv_safe(t),
    ensures
        !blank(csv_row(t)),
        plain_line(csv_row(t)),
        split_row(csv_row(t), line_no) == Ok::<(Seq<Seq<char>>, Seq<char>), ReaderErrorView>(
            (row_parts(t), t.description.subrange(1, t.description.len() - 1)),
        ),
        parse_row(csv_row(t), line_no) == Ok::<TransactionView, ReaderErrorView>(t),
{
    let head = row_head(t);
    let desc = t.description;
    let a = head + seq![','];
    let row = csv_row(t);
    lemma_row_head(t);
    lemma_row_head_free(t, '"');
    lemma_row_head_free(t, '\n');
    assert(row =~= a + desc);
    assert(row[0] == head[0]);
    assert(row.last() == '"');
    lemma_trim_no_ws(row);
    assert(!blank(row));
    assert(free_of(seq![','], '"'));
    lemma_free_concat(head, seq![','], '"');
    assert forall|j: int| 0 <= j < a.len() implies #[trigger] row[j] != '"' by {
        assert(row[j] == a[j]);
    }
    assert(row[a.len() as int] == desc[0]);
    lemma_index_from(row, '"', 0, a.len() as int);
    assert(rindex_before(row, '"', row.len() as int) == row.len() - 1);
    assert(row.take(a.len() as int) =~= a);
    assert(a.drop_last() =~= head);
    assert(trim_end_char(head, ',') == head);
    assert(trim_end_char(a, ',') == head);
    assert(row.subrange((a.len() + 1) as int, row.len() - 1) =~= desc.subrange(1, desc.len() - 1));
    assert(seq!['"'] + desc.subrange(1, desc.len() - 1) + seq!['"'] =~= desc);
    assert(free_of(seq![','], '\n'));
    lemma_free_concat(head, seq![','], '\n');
    lemma_free_concat(a, desc, '\n');
    lemma_parse_decimal(t.tx_id);
    lemma_parse_decimal(t.from_user_id);
    lemma_parse_decimal(t.to_user_id);
    lemma_parse_decimal(t.amount);
    lemma_parse_decimal(t.timestamp);
    lemma_tx_type_roundtrip(t.tx_type);
    lemma_tx_status_roundtrip(t.status);
    assert(split_row(row, line_no) == Ok::<(Seq<Seq<char>>, Seq<char>), ReaderErrorView>(
        (row_parts(t), desc.subrange(1, desc.len() - 1)),
    ));
}

/// The rows of the CSV text are the transactions' lines, each with a line feed.
proof fn lemma_csv_rows_joined(txs: Seq<TransactionView>)
    ensures
        csv_rows(txs) == joined_lines(txs.map_values(|t: TransactionView| csv_row(t))),
    decreases txs.len(),
{
    if txs.len() > 0 {
        lemma_csv_rows_joined(txs.drop_first());
        assert(txs.map_values(|t: TransactionView| csv_row(t)).drop_first() =~= txs.drop_first().map_values(
            |t: TransactionView| csv_row(t),
        ));
    } else {
        assert(txs.map_values(|t: TransactionView| csv_row(t)) =~= Seq::<Seq<char>>::empty());
    }
}

/// Rows that are transactions' lines decode to those transactions.
proof fn lemma_decode_csv_rows(txs: Seq<TransactionView>, i: int)
    requires
        0 <= i <= txs.len(),
        forall|k: int| 0 <= k < txs.len() ==> csv_safe(#[trigger] txs[k]),
    ensures
        decode_rows(
            txs.map_values(|t: TransactionView| Some(csv_row(t))),
            i,
        ) == Ok::<Seq<TransactionView>, ReaderErrorView>(txs.subrange(i, txs.len() as int)),
    decreases txs.len() - i,
{
    let rows = txs.map_values(|t: TransactionView| Some(csv_row(t)));
    if i < txs.len() {
        assert(csv_safe(txs[i]));
        lemma_parse_csv_row(txs[i], (i + 2) as usize);
        lemma_decode_csv_rows(txs, i + 1);
        assert(rows[i] == Some(csv_row(txs[i])));
        assert(seq![txs[i]] + txs.subrange(i + 1, txs.len() as int) =~= txs.subrange(
            i,
            txs.len() as int,
        ));
    } else {
        assert(txs.subrange(i, txs.len() as int) =~= Seq::<TransactionView>::empty());
    }
}

/// The header line is one plain line that trims to itself.
pub(crate) proof fn lemma_header_line()
    ensures
        plain_line(header_line()),
        trim(header_line()) == header_line(),
{
    assert forall|n: int| 0 <= n <= 8 implies free_of(#[trigger] header_upto(n), '\n') by {
        lemma_header_upto_free(n);
    }
    assert(header_upto(8) =~= header_line()) by {
        reveal_with_fuel(header_upto, 9);
    }
    assert(header_line()[0] == 'T');
    assert(header_line().last() == 'N');
    lemma_trim_no_ws(header_line());
}

proof fn lemma_header_upto_free(n: int)
    ensures
        free_of(header_upto(n), '\n'),
    decreases n,
{
    if n > 0 {
        lemma_header_upto_free(n - 1);
        let k = n - 1;
        assert(upper_word(field_name(k)));
        lemma_upper_free(field_name(k), '\n');
        if n == 1 {
        } else {
            assert(free_of(seq![','], '\n'));
            lemma_free_concat(header_upto(n - 1), seq![','], '\n');
            lemma_free_concat(header_upto(n - 1) + seq![','], field_name(k), '\n');
        }
    }
}

/// Decoding what the encoder writes gives back the transactions, whenever
/// each description is enclosed in double quotes and holds no line feed.
pub proof fn lemma_csv_roundtrip(txs: Seq<TransactionView>)
    requires
        forall|i: int| 0 <= i < txs.len() ==> csv_safe(#[trigger] txs[i]),
    ensures
        csv_decode(encode_utf8(csv_text(txs))) == Ok::<Seq<TransactionView>, ReaderErrorView>(txs),
{
    let rows = txs.map_values(|t: TransactionView| csv_row(t));
    let ls = seq![header_line()] + rows;
    lemma_csv_rows_joined(txs);
    assert(ls.drop_first() =~= rows);
    assert(csv_text(txs) =~= joined_lines(ls));
    lemma_header_line();
    assert forall|i: int| 0 <= i < ls.len() implies plain_line(#[trigger] ls[i]) by {
        if i > 0 {
            assert(ls[i] == csv_row(txs[i - 1]));
            lemma_parse_csv_row(txs[i - 1], 0);
        }
    }
    lemma_text_lines_joined(ls);
    let tl = text_lines(encode_utf8(csv_text(txs)));
    assert(tl == ls.map_values(|l: Seq<char>| Some(l)));
    assert(tl[0] == Some(header_line()));
    assert(tl.drop_first() =~= txs.map_values(|t: TransactionView| Some(csv_row(t))));
    lemma_decode_csv_rows(txs, 0);
    assert(txs.subrange(0, txs.len() as int) =~= txs);
}

/// The CSV line of a transaction is one prefix, the same whatever the
/// description, followed by the description exactly as it stands: quoted or
/// not, nothing of it is dropped, added or changed.
pub proof fn lemma_csv_row_description(t: TransactionView, d: Seq<char>)
    ensures
        csv_row(TransactionView { description: d, ..t }) == csv_row(
            TransactionView { description: seq![], ..t },
        ) + d,
        csv_text(seq![TransactionView { description: d, ..t }]) == csv_text(
            seq![TransactionView { description: seq![], ..t }],
        ).drop_last() + d + seq!['\n'],
{
    let td = TransactionView { description: d, ..t };
    let te = TransactionView { description: seq![], ..t };
    assert(csv_row(td) =~= csv_row(te) + d);
    assert(seq![td].drop_first() =~= Seq::<TransactionView>::empty());
    assert(seq![te].drop_first() =~= Seq::<TransactionView>::empty());
    assert(csv_rows(Seq::<TransactionView>::empty()) == Seq::<char>::empty());
    assert(seq![td][0] == td);
    assert(seq![te][0] == te);
    assert(csv_rows(seq![td]) =~= csv_row(td) + seq!['\n']);
    assert(csv_rows(seq![te]) =~= csv_row(te) + seq!['\n']);
    assert(csv_text(seq![td]) =~= csv_text(seq![te]).drop_last() + d + seq!['\n']);
}

} // verus!
