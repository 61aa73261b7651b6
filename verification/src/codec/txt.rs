//! The plain-text format.
//!
//! Each record is a block of `KEY: value` lines, one per field, in any
//! order; blocks are separated by blank lines, and lines that start with `#`
//! (after leading whitespace) are comments. The description keeps its
//! enclosing double quotes. Errors give line numbers counted from one.
use crate::codec::{Decoder, Encoder, read_text_line};
use crate::error::{ReaderError, ReaderErrorView, WriterError};
use crate::text::{
    free_of, is_digit, is_ws, lemma_decimal, lemma_digits_free,
    lemma_free_concat, lemma_index_from, lemma_parse_decimal, lemma_text_lines_joined,
    lemma_trim_no_ws, lemma_upper_free, plain_line, upper_word, chars_of, copy_chars, decimal, find_first, index_from, joined_lines, push_decimal,
    push_str_chars, push_utf8, string_of, text_lines, trim, trim_bounds,
};
use crate::transaction::builder::{
    BuilderView, TransactionBuilder, build_record, is_quoted, set_field,
};
use crate::transaction::model::{
    Transaction, TransactionView, lemma_tx_status_roundtrip, lemma_tx_type_roundtrip,
    txs_view,
};
use crate::transaction::schema::{field_name, field_str, lemma_field_index};
use vstd::prelude::*;
use vstd::utf8::encode_utf8;

verus! {

/// Plain-text transaction codec.
pub struct Txt;

// ─────────────────────────────────────────────────────────────────────────
// Specification
// ─────────────────────────────────────────────────────────────────────────

/// Splitting a `KEY: value` line at its first colon; both sides are trimmed
/// and must not be empty.
pub open spec fn kv_split(f: Seq<char>) -> Option<(Seq<char>, Seq<char>)> {
    let c = index_from(f, ':', 0);
    if c < 0 {
        None
    } else {
        let k = trim(f.take(c));
        let v = trim(f.skip(c + 1));
        if k.len() == 0 || v.len() == 0 {
            None
        } else {
            Some((k, v))
        }
    }
}

/// Whether a trimmed line is a comment.
pub open spec fn is_comment(f: Seq<char>) -> bool {
    f.len() > 0 && f[0] == '#'
}

/// Decoding lines from line `i` on. `done` holds the records read so far;
/// `cur` the record being assembled and the line where it started, if any
/// field has been read since the last blank line. A blank line (or the end
/// of input) completes the current record.
pub open spec fn txt_run(
    ls: Seq<Option<Seq<char>>>,
    i: int,
    done: Seq<TransactionView>,
    cur: Option<(BuilderView, usize)>,
) -> Result<Seq<TransactionView>, ReaderErrorView>
    decreases ls.len() - i,
{
    if i < 0 || i >= ls.len() {
        match cur {
            None => Ok(done),
            Some((b, start)) => match build_record(b, start) {
                Ok(t) => Ok(done.push(t)),
                Err(e) => Err(e),
            },
        }
    } else {
        match ls[i] {
            None => Err(ReaderErrorView::Io),
            Some(l) => {
                let f = trim(l);
                if is_comment(f) {
                    txt_run(ls, i + 1, done, cur)
                } else if f.len() == 0 {
                    match cur {
                        None => txt_run(ls, i + 1, done, cur),
                        Some((b, start)) => match build_record(b, start) {
                            Ok(t) => txt_run(ls, i + 1, done.push(t), None),
                            Err(e) => Err(e),
                        },
                    }
                } else {
                    let (b, start) = match cur {
                        None => (BuilderView::empty(), (i + 1) as usize),
                        Some(c) => c,
                    };
                    match kv_split(f) {
                        None => Err(ReaderErrorView::InvalidRow { line_no: (i + 1) as usize, reason: f }),
                        Some((k, v)) => match set_field(b, k, v, (i + 1) as usize) {
                            Err(e) => Err(e),
                            Ok(nb) => txt_run(ls, i + 1, done, Some((nb, start))),
                        },
                    }
                }
            },
        }
    }
}

/// Decoding plain-text input. Errors give the line of the input they
/// concern, counted from one; a record's missing fields are reported at
/// the line of its first field.
pub open spec fn txt_decode(data: Seq<u8>) -> Result<Seq<TransactionView>, ReaderErrorView> {
    txt_run(text_lines(data), 0, seq![], None)
}

/// The text of field `k` of `t` (schema order).
pub open spec fn txt_value(t: TransactionView, k: int) -> Seq<char> {
    if k == 0 {
        decimal(t.tx_id as nat)
    } else if k == 1 {
        t.tx_type.name()
    } else if k == 2 {
        decimal(t.from_user_id as nat)
    } else if k == 3 {
        decimal(t.to_user_id as nat)
    } else if k == 4 {
        decimal(t.amount as nat)
    } else if k == 5 {
        decimal(t.timestamp as nat)
    } else if k == 6 {
        t.status.name()
    } else {
        t.description
    }
}

/// The line of field `k` of `t`: `NAME:value`.
pub open spec fn kv_line(t: TransactionView, k: int) -> Seq<char> {
    field_name(k) + seq![':'] + txt_value(t, k)
}

/// The lines of one record: its eight fields, then two blank lines.
pub open spec fn txt_block(t: TransactionView) -> Seq<Seq<char>> {
    seq![
        kv_line(t, 0),
        kv_line(t, 1),
        kv_line(t, 2),
        kv_line(t, 3),
        kv_line(t, 4),
        kv_line(t, 5),
        kv_line(t, 6),
        kv_line(t, 7),
        seq![],
        seq![],
    ]
}

/// The lines of all records.
pub open spec fn txt_lines(txs: Seq<TransactionView>) -> Seq<Seq<char>>
    decreases txs.len(),
{
    if txs.len() == 0 {
        seq![]
    } else {
        txt_block(txs[0]) + txt_lines(txs.drop_first())
    }
}

/// The text of `txs`.
pub open spec fn txt_text(txs: Seq<TransactionView>) -> Seq<char> {
    joined_lines(txt_lines(txs))
}

// ─────────────────────────────────────────────────────────────────────────
// Decoding
// ─────────────────────────────────────────────────────────────────────────

/// Splits a `KEY: value` line at its first colon, trimming both sides;
/// `None` where there is no colon or a side is empty.
pub fn parse_kv(line: &str) -> (res: Option<(String, String)>)
    ensures
        match kv_split(line@) {
            Some((k, v)) => res matches Some((rk, rv)) && rk@ == k && rv@ == v,
            None => res is None,
        },
{
    let cs = chars_of(line);
    match parse_kv_chars(&cs) {
        Some((k, v)) => Some((string_of(&k), string_of(&v))),
        None => None,
    }
}

/// [`parse_kv`] on characters.
pub fn parse_kv_chars(f: &[char]) -> (res: Option<(Vec<char>, Vec<char>)>)
    ensures
        match kv_split(f@) {
            Some((k, v)) => res matches Some((rk, rv)) && rk@ == k && rv@ == v,
            None => res is None,
        },
{
    let n = f.len();
    let c = match find_first(f, ':') {
        Some(c) => c,
        None => {
            return None;
        },
    };
    let (ka, kb) = trim_bounds(f, 0, c);
    let (va, vb) = trim_bounds(f, c + 1, n);
    assert(f@.take(c as int) =~= f@.subrange(0, c as int));
    assert(f@.skip(c + 1) =~= f@.subrange(c + 1, f@.len() as int));
    if ka == kb || va == vb {
        return None;
    }
    Some((copy_chars(f, ka, kb), copy_chars(f, va, vb)))
}

impl Decoder for Txt {
    open spec fn decoding(&self, data: Seq<u8>) -> Result<Seq<TransactionView>, ReaderErrorView> {
        txt_decode(data)
    }

    /// Decodes plain-text input, one record per block of field lines.
    #[verifier::rlimit(50)]
    fn decode(&self, data: &[u8]) -> (res: Result<Vec<Transaction>, ReaderError>)
        ensures
            match txt_decode(data@) {
                Ok(txs) => res matches Ok(v) && txs_view(v@) == txs,
                Err(e) => res matches Err(err) && err@ == e,
            },
    {
        let lines = crate::text::split_lines(data);
        let ghost ls = text_lines(data@);
        proof {
            assert(ls.len() == lines@.len());
            assert(forall|k: int| 0 <= k < ls.len() ==> #[trigger] ls[k]
                == crate::text::line_chars(lines@[k]@));
        }
        let mut txs: Vec<Transaction> = Vec::new();
        let mut builder = TransactionBuilder::new();
        let mut start: usize = 0;
        let mut has_fields = false;
        let mut i: usize = 0;
        assert(txs_view(txs@) =~= Seq::<TransactionView>::empty());
        while i < lines.len()
            invariant
                i <= lines@.len(),
                ls == text_lines(data@),
                ls.len() == lines@.len(),
                forall|k: int| 0 <= k < ls.len() ==> #[trigger] ls[k]
                    == crate::text::line_chars(lines@[k]@),
                !has_fields ==> builder@ == BuilderView::empty(),
                txt_decode(data@) == txt_run(
                    ls,
                    i as int,
                    txs_view(txs@),
                    if has_fields {
                        Some((builder@, start))
                    } else {
                        None
                    },
                ),
            decreases lines@.len() - i,
        {
            let l = match read_text_line(&lines, i) {
                Ok(l) => l,
                Err(e) => {
                    return Err(e);
                },
            };
            let (a, b) = trim_bounds(&l, 0, l.len());
            proof {
                assert(l@.subrange(0, l@.len() as int) =~= l@);
            }
            if a < b && l[a] == '#' {
                i += 1;
                continue;
            }
            if a == b {
                if has_fields {
                    let done = builder;
                    builder = TransactionBuilder::new();
                    match done.build(start) {
                        Ok(t) => {
                            proof {
                                assert(txs_view(txs@.push(t)) =~= txs_view(txs@).push(t@));
                            }
                            txs.push(t);
                        },
                        Err(e) => {
                            return Err(e);
                        },
                    }
                    has_fields = false;
                }
                i += 1;
                continue;
            }
            if !has_fields {
                start = i + 1;
                has_fields = true;
            }
            let field = copy_chars(&l, a, b);
            match parse_kv_chars(&field) {
                None => {
                    return Err(ReaderError::InvalidRow { line_no: i + 1, reason: string_of(&field) });
                },
                Some((k, v)) => match builder.set_chars(&k, &v, i + 1) {
                    Ok(()) => {},
                    Err(e) => {
                        return Err(e);
                    },
                },
            }
            i += 1;
        }
        if has_fields {
            match builder.build(start) {
                Ok(t) => {
                    proof {
                        assert(txs_view(txs@.push(t)) =~= txs_view(txs@).push(t@));
                    }
                    txs.push(t);
                },
                Err(e) => {
                    return Err(e);
                },
            }
        }
        Ok(txs)
    }
}

// ─────────────────────────────────────────────────────────────────────────
// Encoding
// ─────────────────────────────────────────────────────────────────────────

/// Appends the text of field `k` of `tx`.
fn push_value(out: &mut Vec<char>, tx: &Transaction, k: usize)
    requires
        k < 8,
    ensures
        final(out)@ == old(out)@ + txt_value(tx@, k as int),
{
    if k == 0 {
        push_decimal(out, tx.tx_id);
    } else if k == 1 {
        let mut n = tx.tx_type.name_chars();
        out.append(&mut n);
    } else if k == 2 {
        push_decimal(out, tx.from_user_id);
    } else if k == 3 {
        push_decimal(out, tx.to_user_id);
    } else if k == 4 {
        push_decimal(out, tx.amount);
    } else if k == 5 {
        push_decimal(out, tx.timestamp);
    } else if k == 6 {
        let mut n = tx.status.name_chars();
        out.append(&mut n);
    } else {
        push_str_chars(out, tx.description.as_str());
    }
}

/// Joining lines after more lines appends their text.
pub proof fn lemma_joined_concat(a: Seq<Seq<char>>, b: Seq<Seq<char>>)
    ensures
        joined_lines(a + b) == joined_lines(a) + joined_lines(b),
    decreases a.len(),
{
    if a.len() == 0 {
        assert(a + b =~= b);
        assert(joined_lines(a) + joined_lines(b) =~= joined_lines(b));
    } else {
        lemma_joined_concat(a.drop_first(), b);
        assert((a + b).drop_first() =~= a.drop_first() + b);
        assert((a + b)[0] == a[0]);
        assert(joined_lines(a + b) =~= joined_lines(a) + joined_lines(b));
    }
}

/// Joining one more line appends it and a line feed.
proof fn lemma_joined_push(a: Seq<Seq<char>>, l: Seq<char>)
    ensures
        joined_lines(a.push(l)) == joined_lines(a) + l + seq!['\n'],
{
    lemma_joined_concat(a, seq![l]);
    assert(a.push(l) =~= a + seq![l]);
    assert(seq![l].drop_first() =~= Seq::<Seq<char>>::empty());
    assert(joined_lines(Seq::<Seq<char>>::empty()) == Seq::<char>::empty());
    assert(joined_lines(seq![l]) =~= l + seq!['\n']);
    assert(joined_lines(a.push(l)) =~= joined_lines(a) + l + seq!['\n']);
}

/// Appends the text of one record: its field lines, then two blank lines.
#[verifier::spinoff_prover]
#[verifier::rlimit(40)]
fn push_block(out: &mut Vec<char>, tx: &Transaction)
    ensures
        final(out)@ == old(out)@ + joined_lines(txt_block(tx@)),
{
    let ghost blk = txt_block(tx@);
    let mut k: usize = 0;
    assert(blk.take(0) =~= Seq::<Seq<char>>::empty());
    while k < 8
        invariant
            k <= 8,
            blk == txt_block(tx@),
            out@ == old(out)@ + joined_lines(blk.take(k as int)),
        decreases 8 - k,
    {
        let ghost before = out@;
        push_str_chars(out, field_str(k));
        out.push(':');
        push_value(out, tx, k);
        out.push('\n');
        proof {
            assert(blk.take(k + 1) =~= blk.take(k as int).push(kv_line(tx@, k as int)));
            lemma_joined_push(blk.take(k as int), kv_line(tx@, k as int));
            assert(out@ =~= old(out)@ + joined_lines(blk.take(k + 1)));
        }
        k += 1;
    }
    out.push('\n');
    out.push('\n');
    proof {
        assert(blk.take(9) =~= blk.take(8).push(Seq::<char>::empty()));
        lemma_joined_push(blk.take(8), Seq::<char>::empty());
        assert(blk =~= blk.take(9).push(Seq::<char>::empty()));
        lemma_joined_push(blk.take(9), Seq::<char>::empty());
        assert(out@ =~= old(out)@ + joined_lines(blk));
    }
}

proof fn lemma_txt_lines_push(txs: Seq<TransactionView>, t: TransactionView)
    ensures
        txt_lines(txs.push(t)) == txt_lines(txs) + txt_block(t),
    decreases txs.len(),
{
    if txs.len() == 0 {
        assert(txs.push(t).drop_first() =~= Seq::<TransactionView>::empty());
        assert(txt_lines(Seq::<TransactionView>::empty()) == Seq::<Seq<char>>::empty());
        assert(txs.push(t)[0] == t);
        assert(txt_lines(txs.push(t)) =~= txt_lines(txs) + txt_block(t));
    } else {
        lemma_txt_lines_push(txs.drop_first(), t);
        assert(txs.push(t).drop_first() =~= txs.drop_first().push(t));
        assert(txt_lines(txs.push(t)) =~= txt_lines(txs) + txt_block(t));
    }
}

impl Encoder for Txt {
    open spec fn encoding(&self, txs: Seq<TransactionView>) -> (Seq<u8>, bool) {
        (encode_utf8(txt_text(txs)), true)
    }

    /// Writes one block of field lines per transaction.
    fn encode(&self, txs: &[Transaction], w: &mut Vec<u8>) -> (res: Result<(), WriterError>)
        ensures
            res is Ok,
            final(w)@ == old(w)@ + encode_utf8(txt_text(txs_view(txs@))),
    {
        let ghost v = txs_view(txs@);
        let mut text: Vec<char> = Vec::new();
        let mut i: usize = 0;
        assert(v.take(0) =~= Seq::<TransactionView>::empty());
        while i < txs.len()
            invariant
                i <= txs@.len(),
                v == txs_view(txs@),
                text@ == txt_text(v.take(i as int)),
            decreases txs@.len() - i,
        {
            push_block(&mut text, &txs[i]);
            proof {
                assert(v.take(i + 1) =~= v.take(i as int).push(v[i as int]));
                lemma_txt_lines_push(v.take(i as int), v[i as int]);
                lemma_joined_concat(txt_lines(v.take(i as int)), txt_block(v[i as int]));
            }
            i += 1;
        }
        assert(v.take(txs@.len() as int) =~= v);
        push_utf8(w, &text);
        Ok(())
    }
}

// ─────────────────────────────────────────────────────────────────────────
// Round trip
// ─────────────────────────────────────────────────────────────────────────

/// Whether a transaction reads back from its text block: its description is
/// enclosed in double quotes and holds no line feed.
pub open spec fn txt_safe(t: TransactionView) -> bool {
    is_quoted(t.description) && free_of(t.description, '\n')
}

/// The builder after the first `k` fields of `t` have been set.
spec fn kv_builder(t: TransactionView, k: int) -> BuilderView {
    BuilderView {
        tx_id: if k > 0 { Some(t.tx_id) } else { None },
        tx_type: if k > 1 { Some(t.tx_type) } else { None },
        from_user_id: if k > 2 { Some(t.from_user_id) } else { None },
        to_user_id: if k > 3 { Some(t.to_user_id) } else { None },
        amount: if k > 4 { Some(t.amount) } else { None },
        timestamp: if k > 5 { Some(t.timestamp) } else { None },
        status: if k > 6 { Some(t.status) } else { None },
        description: if k > 7 { Some(t.description) } else { None },
    }
}

/// What a field's text is made of: it is not empty, it neither starts nor
/// ends with whitespace, it holds no colon or line feed except inside a
/// description, and it does not end with a carriage return.
proof fn lemma_txt_value(t: TransactionView, k: int)
    requires
        0 <= k < 8,
        txt_safe(t),
    ensures
        txt_value(t, k).len() > 0,
        !is_ws(txt_value(t, k)[0]),
        !is_ws(txt_value(t, k).last()),
        txt_value(t, k).last() != '\r',
        free_of(txt_value(t, k), '\n'),
        trim(txt_value(t, k)) == txt_value(t, k),
{
    let v = txt_value(t, k);
    if k == 1 {
        lemma_tx_type_roundtrip(t.tx_type);
        lemma_upper_free(v, '\n');
        assert(65 <= (v[0] as u32) <= 90 || v[0] as u32 == 95);
        assert(65 <= (v.last() as u32) <= 90 || v.last() as u32 == 95);
    } else if k == 6 {
        lemma_tx_status_roundtrip(t.status);
        lemma_upper_free(v, '\n');
        assert(65 <= (v[0] as u32) <= 90 || v[0] as u32 == 95);
        assert(65 <= (v.last() as u32) <= 90 || v.last() as u32 == 95);
    } else if k == 7 {
    } else {
        let n: nat = if k == 0 {
            t.tx_id as nat
        } else if k == 2 {
            t.from_user_id as nat
        } else if k == 3 {
            t.to_user_id as nat
        } else if k == 4 {
            t.amount as nat
        } else {
            t.timestamp as nat
        };
        assert(v == decimal(n));
        lemma_decimal(n);
        lemma_digits_free(v, '\n');
        assert(is_digit(v[0]));
        assert(is_digit(v[v.len() - 1]));
    }
    lemma_trim_no_ws(v);
}

/// A field line is a plain line that trims to itself, is no comment, and
/// splits into the field's name and text.
proof fn lemma_kv_line(t: TransactionView, k: int)
    requires
        0 <= k < 8,
        txt_safe(t),
    ensures
        plain_line(kv_line(t, k)),
        trim(kv_line(t, k)) == kv_line(t, k),
        kv_line(t, k).len() > 0,
        !is_comment(kv_line(t, k)),
        kv_split(kv_line(t, k)) == Some((field_name(k), txt_value(t, k))),
{
    let name = field_name(k);
    let v = txt_value(t, k);
    let line = kv_line(t, k);
    lemma_txt_value(t, k);
    assert(upper_word(name));
    assert(name.len() > 0);
    lemma_upper_free(name, '\n');
    lemma_upper_free(name, ':');
    assert(free_of(seq![':'], '\n'));
    lemma_free_concat(name, seq![':'], '\n');
    lemma_free_concat(name + seq![':'], v, '\n');
    assert(line[0] == name[0]);
    assert(65 <= (name[0] as u32) <= 90 || name[0] as u32 == 95);
    assert(line.last() == v.last());
    lemma_trim_no_ws(line);
    lemma_trim_no_ws(name);
    assert forall|j: int| 0 <= j < name.len() implies #[trigger] line[j] != ':' by {
        assert(line[j] == name[j]);
    }
    lemma_index_from(line, ':', 0, name.len() as int);
    assert(line.take(name.len() as int) =~= name);
    assert(line.skip((name.len() + 1) as int) =~= v);
}

/// Setting field `k` of a builder holding the first `k` fields of `t`.
proof fn lemma_kv_set(t: TransactionView, k: int, line_no: usize)
    requires
        0 <= k < 8,
        txt_safe(t),
    ensures
        set_field(kv_builder(t, k), field_name(k), txt_value(t, k), line_no) == Ok::<
            BuilderView,
            ReaderErrorView,
        >(kv_builder(t, k + 1)),
{
    lemma_field_index(k);
    lemma_txt_value(t, k);
    if k == 1 {
        lemma_tx_type_roundtrip(t.tx_type);
    } else if k == 6 {
        lemma_tx_status_roundtrip(t.status);
    } else if k == 7 {
    } else {
        lemma_parse_decimal(t.tx_id);
        lemma_parse_decimal(t.from_user_id);
        lemma_parse_decimal(t.to_user_id);
        lemma_parse_decimal(t.amount);
        lemma_parse_decimal(t.timestamp);
    }
    assert(set_field(kv_builder(t, k), field_name(k), txt_value(t, k), line_no) == Ok::<
        BuilderView,
        ReaderErrorView,
    >(kv_builder(t, k + 1)));
}

/// The state of decoding before line `k` of a block of `t` that starts at `i`.
spec fn block_state(t: TransactionView, i: int, k: int) -> Option<(BuilderView, usize)> {
    if k == 0 {
        None
    } else {
        Some((kv_builder(t, k), (i + 1) as usize))
    }
}

/// Decoding one field line of a block.
proof fn lemma_run_kv(
    ls: Seq<Option<Seq<char>>>,
    i: int,
    k: int,
    done: Seq<TransactionView>,
    t: TransactionView,
)
    requires
        0 <= i,
        0 <= k < 8,
        i + k < ls.len(),
        txt_safe(t),
        ls[i + k] == Some(kv_line(t, k)),
    ensures
        txt_run(ls, i + k, done, block_state(t, i, k)) == txt_run(
            ls,
            i + k + 1,
            done,
            block_state(t, i, k + 1),
        ),
{
    lemma_kv_line(t, k);
    lemma_kv_set(t, k, (i + k + 1) as usize);
}

/// Decoding the field lines of a block.
proof fn lemma_run_fields(
    ls: Seq<Option<Seq<char>>>,
    i: int,
    k: int,
    done: Seq<TransactionView>,
    t: TransactionView,
)
    requires
        0 <= i,
        0 <= k <= 8,
        i + 8 <= ls.len(),
        txt_safe(t),
        forall|j: int| 0 <= j < 8 ==> #[trigger] ls[i + j] == Some(kv_line(t, j)),
    ensures
        txt_run(ls, i + k, done, block_state(t, i, k)) == txt_run(
            ls,
            i + 8,
            done,
            block_state(t, i, 8),
        ),
    decreases 8 - k,
{
    if k < 8 {
        assert(ls[i + k] == Some(kv_line(t, k)));
        lemma_run_kv(ls, i, k, done, t);
        lemma_run_fields(ls, i, k + 1, done, t);
    }
}

/// Decoding a whole block adds its transaction.
proof fn lemma_run_block(
    ls: Seq<Option<Seq<char>>>,
    i: int,
    done: Seq<TransactionView>,
    t: TransactionView,
)
    requires
        0 <= i,
        i + 10 <= ls.len(),
        txt_safe(t),
        forall|j: int| 0 <= j < 10 ==> #[trigger] ls[i + j] == Some(txt_block(t)[j]),
    ensures
        txt_run(ls, i, done, None) == txt_run(ls, i + 10, done.push(t), None),
{
    assert forall|j: int| 0 <= j < 8 implies #[trigger] ls[i + j] == Some(kv_line(t, j)) by {
        assert(ls[i + j] == Some(txt_block(t)[j]));
    }
    lemma_run_fields(ls, i, 0, done, t);
    assert(ls[i + 8] == Some(Seq::<char>::empty()));
    assert(ls[i + 9] == Some(Seq::<char>::empty()));
    assert(trim(Seq::<char>::empty()) == Seq::<char>::empty());
    assert(build_record(kv_builder(t, 8), (i + 1) as usize) == Ok::<TransactionView, ReaderErrorView>(t));
    assert(txt_run(ls, i + 8, done, block_state(t, i, 8)) == txt_run(ls, i + 9, done.push(t), None));
    assert(txt_run(ls, i + 9, done.push(t), None) == txt_run(ls, i + 10, done.push(t), None));
}

/// Where each line of the text of `txs` comes from.
proof fn lemma_txt_lines_index(txs: Seq<TransactionView>)
    ensures
        txt_lines(txs).len() == 10 * txs.len(),
        forall|j: int, k: int|
            0 <= j < txs.len() && 0 <= k < 10 ==> #[trigger] txt_lines(txs)[10 * j + k] == txt_block(
                txs[j],
            )[k],
    decreases txs.len(),
{
    if txs.len() > 0 {
        let rest = txs.drop_first();
        lemma_txt_lines_index(rest);
        assert forall|j: int, k: int|
            0 <= j < txs.len() && 0 <= k < 10 implies #[trigger] txt_lines(txs)[10 * j + k]
            == txt_block(txs[j])[k] by {
            if j == 0 {
                assert(txt_lines(txs)[k] == txt_block(txs[0])[k]);
            } else {
                assert(txt_lines(txs)[10 * j + k] == txt_lines(rest)[10 * (j - 1) + k]);
                assert(rest[j - 1] == txs[j]);
            }
        }
    }
}

/// Decoding the blocks of `txs` from block `j` on.
proof fn lemma_run_blocks(ls: Seq<Option<Seq<char>>>, txs: Seq<TransactionView>, j: int)
    requires
        0 <= j <= txs.len(),
        ls.len() == 10 * txs.len(),
        forall|i: int| 0 <= i < txs.len() ==> txt_safe(#[trigger] txs[i]),
        forall|a: int, k: int|
            0 <= a < txs.len() && 0 <= k < 10 ==> #[trigger] ls[10 * a + k] == Some(
                txt_block(txs[a])[k],
            ),
    ensures
        txt_run(ls, 10 * j, txs.take(j), None) == Ok::<Seq<TransactionView>, ReaderErrorView>(txs),
    decreases txs.len() - j,
{
    if j < txs.len() {
        assert forall|k: int| 0 <= k < 10 implies #[trigger] ls[10 * j + k] == Some(
            txt_block(txs[j])[k],
        ) by {}
        assert(txt_safe(txs[j]));
        lemma_run_block(ls, 10 * j, txs.take(j), txs[j]);
        assert(txs.take(j).push(txs[j]) =~= txs.take(j + 1));
        lemma_run_blocks(ls, txs, j + 1);
        assert(10 * j + 10 == 10 * (j + 1));
    } else {
        assert(txs.take(j) =~= txs);
    }
}

/// Decoding what the encoder writes gives back the transactions, whenever
/// each description is enclosed in double quotes and holds no line feed.
pub proof fn lemma_txt_roundtrip(txs: Seq<TransactionView>)
    requires
        forall|i: int| 0 <= i < txs.len() ==> txt_safe(#[trigger] txs[i]),
    ensures
        txt_decode(encode_utf8(txt_text(txs))) == Ok::<Seq<TransactionView>, ReaderErrorView>(txs),
{
    let lines = txt_lines(txs);
    lemma_txt_lines_index(txs);
    assert forall|i: int| 0 <= i < lines.len() implies plain_line(#[trigger] lines[i]) by {
        let a = i / 10;
        let k = i % 10;
        assert(i == 10 * a + k);
        assert(lines[i] == txt_block(txs[a])[k]);
        assert(txt_safe(txs[a]));
        if k < 8 {
            lemma_kv_line(txs[a], k);
        } else {
            assert(txt_block(txs[a])[k] == Seq::<char>::empty());
        }
    }
    lemma_text_lines_joined(lines);
    let ls = text_lines(encode_utf8(txt_text(txs)));
    assert(ls == lines.map_values(|l: Seq<char>| Some(l)));
    assert forall|a: int, k: int|
        0 <= a < txs.len() && 0 <= k < 10 implies #[trigger] ls[10 * a + k] == Some(
            txt_block(txs[a])[k],
        ) by {
        assert(lines[10 * a + k] == txt_block(txs[a])[k]);
    }
    assert(txs.take(0) =~= Seq::<TransactionView>::empty());
    lemma_run_blocks(ls, txs, 0);
}

// ─────────────────────────────────────────────────────────────────────────
// Comments and blank lines
// ─────────────────────────────────────────────────────────────────────────

/// Whether a line is blank: empty once trimmed.
pub open spec fn blank_line(l: Option<Seq<char>>) -> bool {
    l matches Some(x) && trim(x).len() == 0
}

/// Whether inserting line `c` before line `pos` of `ls` leaves a successful
/// decoding unchanged: a comment line may go anywhere, a blank line at the
/// start, at the end, or next to a blank line.
pub open spec fn harmless_insert(ls: Seq<Option<Seq<char>>>, pos: int, c: Seq<char>) -> bool {
    ||| is_comment(trim(c))
    ||| trim(c).len() == 0 && (pos == 0 || pos == ls.len() || blank_line(ls[pos - 1])
        || blank_line(ls[pos]))
}

/// Whether two decoding states hold the same record so far, wherever it started.
spec fn same_cur(a: Option<(BuilderView, usize)>, b: Option<(BuilderView, usize)>) -> bool {
    match a {
        None => b is None,
        Some((x, _)) => b matches Some((y, _)) && x == y,
    }
}

/// Decoding the same lines at other positions gives the same successful
/// result: line numbers only ever go into errors.
proof fn lemma_txt_run_shift(
    ls: Seq<Option<Seq<char>>>,
    p: int,
    ls2: Seq<Option<Seq<char>>>,
    q: int,
    done: Seq<TransactionView>,
    cur: Option<(BuilderView, usize)>,
    cur2: Option<(BuilderView, usize)>,
)
    requires
        0 <= p <= ls.len(),
        0 <= q <= ls2.len(),
        ls.len() - p == ls2.len() - q,
        forall|j: int| p <= j < ls.len() ==> ls2[j + q - p] == #[trigger] ls[j],
        same_cur(cur, cur2),
        txt_run(ls, p, done, cur) is Ok,
    ensures
        txt_run(ls2, q, done, cur2) == txt_run(ls, p, done, cur),
    decreases ls.len() - p,
{
    if p < ls.len() {
        assert(ls2[q] == ls[p]);
        match ls[p] {
            None => {},
            Some(l) => {
                let f = trim(l);
                if is_comment(f) {
                    lemma_txt_run_shift(ls, p + 1, ls2, q + 1, done, cur, cur2);
                } else if f.len() == 0 {
                    match cur {
                        None => {
                            lemma_txt_run_shift(ls, p + 1, ls2, q + 1, done, cur, cur2);
                        },
                        Some((b, start)) => {
                            let start2 = match cur2 {
                                Some((_, s2)) => s2,
                                None => start,
                            };
                            match build_record(b, start) {
                                Ok(t) => {
                                    assert(build_record(b, start2) == build_record(b, start));
                                    lemma_txt_run_shift(ls, p + 1, ls2, q + 1, done.push(t), None, None);
                                },
                                Err(e) => {},
                            }
                        },
                    }
                } else {
                    let (b, start) = match cur {
                        None => (BuilderView::empty(), (p + 1) as usize),
                        Some(c) => c,
                    };
                    let (b2, start2) = match cur2 {
                        None => (BuilderView::empty(), (q + 1) as usize),
                        Some(c) => c,
                    };
                    assert(b2 == b);
                    match kv_split(f) {
                        None => {},
                        Some((k, v)) => match set_field(b, k, v, (p + 1) as usize) {
                            Err(e) => {},
                            Ok(nb) => {
                                assert(set_field(b, k, v, (q + 1) as usize) == set_field(
                                    b,
                                    k,
                                    v,
                                    (p + 1) as usize,
                                ));
                                lemma_txt_run_shift(
                                    ls,
                                    p + 1,
                                    ls2,
                                    q + 1,
                                    done,
                                    Some((nb, start)),
                                    Some((nb, start2)),
                                );
                            },
                        },
                    }
                }
            },
        }
    } else {
        match cur {
            None => {},
            Some((b, start)) => {
                let start2 = match cur2 {
                    Some((_, s2)) => s2,
                    None => start,
                };
                assert(build_record(b, start2) == build_record(b, start));
            },
        }
    }
}

/// Decoding from line `i` up to the insertion point and beyond.
proof fn lemma_txt_run_insert(
    ls: Seq<Option<Seq<char>>>,
    pos: int,
    c: Seq<char>,
    i: int,
    done: Seq<TransactionView>,
    cur: Option<(BuilderView, usize)>,
)
    requires
        0 <= i <= pos <= ls.len(),
        harmless_insert(ls, pos, c),
        i == pos ==> (is_comment(trim(c)) || cur is None || pos == ls.len() || blank_line(
            ls[pos],
        )),
        txt_run(ls, i, done, cur) is Ok,
    ensures
        txt_run(ls.insert(pos, Some(c)), i, done, cur) == txt_run(ls, i, done, cur),
    decreases pos - i,
{
    let ls2 = ls.insert(pos, Some(c));
    assert(ls2.len() == ls.len() + 1);
    assert(forall|j: int| 0 <= j < pos ==> ls2[j] == #[trigger] ls[j]);
    assert(ls2[pos] == Some(c));
    assert(forall|j: int| pos <= j < ls.len() ==> ls2[j + 1] == #[trigger] ls[j]);
    if i < pos {
        assert(ls2[i] == ls[i]);
        match ls[i] {
            None => {},
            Some(l) => {
                let f = trim(l);
                if is_comment(f) {
                    lemma_txt_run_insert(ls, pos, c, i + 1, done, cur);
                } else if f.len() == 0 {
                    match cur {
                        None => {
                            lemma_txt_run_insert(ls, pos, c, i + 1, done, cur);
                        },
                        Some((b, start)) => match build_record(b, start) {
                            Ok(t) => {
                                lemma_txt_run_insert(ls, pos, c, i + 1, done.push(t), None);
                            },
                            Err(e) => {},
                        },
                    }
                } else {
                    let (b, start) = match cur {
                        None => (BuilderView::empty(), (i + 1) as usize),
                        Some(x) => x,
                    };
                    match kv_split(f) {
                        None => {},
                        Some((k, v)) => match set_field(b, k, v, (i + 1) as usize) {
                            Err(e) => {},
                            Ok(nb) => {
                                assert(!blank_line(ls[i]));
                                lemma_txt_run_insert(ls, pos, c, i + 1, done, Some((nb, start)));
                            },
                        },
                    }
                }
            },
        }
    } else {
        let f = trim(c);
        if is_comment(f) {
            assert(txt_run(ls2, pos, done, cur) == txt_run(ls2, pos + 1, done, cur));
            lemma_txt_run_shift(ls, pos, ls2, pos + 1, done, cur, cur);
        } else {
            assert(f.len() == 0);
            match cur {
                None => {
                    assert(txt_run(ls2, pos, done, cur) == txt_run(ls2, pos + 1, done, cur));
                    lemma_txt_run_shift(ls, pos, ls2, pos + 1, done, cur, cur);
                },
                Some((b, start)) => {
                    match build_record(b, start) {
                        Ok(t) => {
                            assert(txt_run(ls2, pos, done, cur) == txt_run(
                                ls2,
                                pos + 1,
                                done.push(t),
                                None,
                            ));
                            if pos == ls.len() {
                                assert(txt_run(ls2, pos + 1, done.push(t), None) == Ok::<
                                    Seq<TransactionView>,
                                    ReaderErrorView,
                                >(done.push(t)));
                            } else {
                                assert(blank_line(ls[pos]));
                                assert(ls2[pos + 1] == ls[pos]);
                                assert(txt_run(ls2, pos + 1, done.push(t), None) == txt_run(
                                    ls2,
                                    pos + 2,
                                    done.push(t),
                                    None,
                                ));
                                assert(txt_run(ls, pos, done, cur) == txt_run(
                                    ls,
                                    pos + 1,
                                    done.push(t),
                                    None,
                                ));
                                lemma_txt_run_shift(
                                    ls,
                                    pos + 1,
                                    ls2,
                                    pos + 2,
                                    done.push(t),
                                    None,
                                    None,
                                );
                            }
                        },
                        Err(e) => {},
                    }
                },
            }
        }
    }
}

/// Inserting a comment line anywhere, or a blank line at the start, at the
/// end, or next to a blank line, leaves a successful decoding unchanged.
pub proof fn lemma_txt_harmless_line(a: Seq<u8>, b: Seq<u8>, pos: int, c: Seq<char>)
    requires
        0 <= pos <= text_lines(a).len(),
        text_lines(b) == text_lines(a).insert(pos, Some(c)),
        harmless_insert(text_lines(a), pos, c),
        txt_decode(a) is Ok,
    ensures
        txt_decode(b) == txt_decode(a),
{
    lemma_txt_run_insert(text_lines(a), pos, c, 0, seq![], None);
}

/// The lines `ls` after inserting line `cs[j]` before line `ps[j]`, for `j`
/// from 0 to `k - 1`, one insertion after another.
pub open spec fn insert_lines(
    ls: Seq<Option<Seq<char>>>,
    ps: Seq<int>,
    cs: Seq<Seq<char>>,
    k: int,
) -> Seq<Option<Seq<char>>>
    decreases k,
{
    if k <= 0 {
        ls
    } else {
        insert_lines(ls, ps, cs, k - 1).insert(ps[k - 1], Some(cs[k - 1]))
    }
}

/// Whether each of the first `k` insertions is harmless where it is made.
pub open spec fn harmless_inserts(
    ls: Seq<Option<Seq<char>>>,
    ps: Seq<int>,
    cs: Seq<Seq<char>>,
    k: int,
) -> bool
    decreases k,
{
    k <= 0 || (harmless_inserts(ls, ps, cs, k - 1) && 0 <= ps[k - 1] <= insert_lines(
        ls,
        ps,
        cs,
        k - 1,
    ).len() && harmless_insert(insert_lines(ls, ps, cs, k - 1), ps[k - 1], cs[k - 1]))
}

/// Harmless insertions, one after another, leave a successful decoding of
/// lines unchanged.
proof fn lemma_txt_run_inserts(
    ls: Seq<Option<Seq<char>>>,
    ps: Seq<int>,
    cs: Seq<Seq<char>>,
    k: int,
)
    requires
        0 <= k <= ps.len(),
        cs.len() == ps.len(),
        harmless_inserts(ls, ps, cs, k),
        txt_run(ls, 0, seq![], None) is Ok,
    ensures
        txt_run(insert_lines(ls, ps, cs, k), 0, seq![], None) == txt_run(ls, 0, seq![], None),
    decreases k,
{
    if k > 0 {
        lemma_txt_run_inserts(ls, ps, cs, k - 1);
        let prev = insert_lines(ls, ps, cs, k - 1);
        assert(0 <= ps[k - 1] <= prev.len() && harmless_insert(prev, ps[k - 1], cs[k - 1]));
        lemma_txt_run_insert(prev, ps[k - 1], cs[k - 1], 0, seq![], None);
    }
}

/// Inserting any number of comment lines anywhere, and of blank lines at
/// the start, at the end or next to a blank line, leaves a successful
/// decoding unchanged.
pub proof fn lemma_txt_harmless_lines(a: Seq<u8>, b: Seq<u8>, ps: Seq<int>, cs: Seq<Seq<char>>)
    requires
        cs.len() == ps.len(),
        text_lines(b) == insert_lines(text_lines(a), ps, cs, ps.len() as int),
        harmless_inserts(text_lines(a), ps, cs, ps.len() as int),
        txt_decode(a) is Ok,
    ensures
        txt_decode(b) == txt_decode(a),
{
    lemma_txt_run_inserts(text_lines(a), ps, cs, ps.len() as int);
}

/// An input made only of comment lines and blank lines decodes to no
/// transaction.
pub proof fn lemma_txt_only_comments_and_blanks(b: Seq<u8>, ps: Seq<int>, cs: Seq<Seq<char>>)
    requires
        cs.len() == ps.len(),
        text_lines(b) == insert_lines(seq![], ps, cs, ps.len() as int),
        harmless_inserts(seq![], ps, cs, ps.len() as int),
    ensures
        txt_decode(b) == Ok::<Seq<TransactionView>, ReaderErrorView>(seq![]),
{
    let empty = Seq::<Option<Seq<char>>>::empty();
    assert(txt_run(empty, 0, seq![], None) == Ok::<Seq<TransactionView>, ReaderErrorView>(
        seq![],
    ));
    lemma_txt_run_inserts(empty, ps, cs, ps.len() as int);
}

/// The text of one transaction: its first seven field lines, its
/// description line, and the three line feeds that end the block.
proof fn lemma_txt_text_single(x: TransactionView)
    ensures
        txt_text(seq![x]) == joined_lines(txt_block(x).take(7)) + kv_line(x, 7) + seq![
            '\n',
            '\n',
            '\n',
        ],
{
    let b = txt_block(x);
    assert(txt_lines(Seq::<TransactionView>::empty()) == Seq::<Seq<char>>::empty());
    assert(seq![x].drop_first() =~= Seq::<TransactionView>::empty());
    assert(seq![x][0] == x);
    assert(txt_lines(seq![x]) =~= b);
    assert(b.take(8) =~= b.take(7).push(kv_line(x, 7)));
    assert(b.take(9) =~= b.take(8).push(Seq::<char>::empty()));
    assert(b =~= b.take(9).push(Seq::<char>::empty()));
    lemma_joined_push(b.take(7), kv_line(x, 7));
    lemma_joined_push(b.take(8), Seq::<char>::empty());
    lemma_joined_push(b.take(9), Seq::<char>::empty());
    assert(joined_lines(b) =~= joined_lines(b.take(7)) + kv_line(x, 7) + seq!['\n', '\n', '\n']);
}

/// The text of a transaction is the same whatever its description, except
/// that the description, exactly as it stands, follows `DESCRIPTION:` just
/// before the three line feeds that end the block.
pub proof fn lemma_txt_description(t: TransactionView, d: Seq<char>)
    ensures
        ({
            let e = txt_text(seq![TransactionView { description: seq![], ..t }]);
            &&& e.len() >= 3
            &&& e.subrange(e.len() - 3, e.len() as int) == seq!['\n', '\n', '\n']
            &&& txt_text(seq![TransactionView { description: d, ..t }]) == e.subrange(
                0,
                e.len() - 3,
            ) + d + seq!['\n', '\n', '\n']
        }),
{
    let td = TransactionView { description: d, ..t };
    let te = TransactionView { description: seq![], ..t };
    lemma_txt_text_single(td);
    lemma_txt_text_single(te);
    assert(txt_block(td).take(7) =~= txt_block(te).take(7));
    let pre = joined_lines(txt_block(te).take(7));
    assert(kv_line(td, 7) =~= kv_line(te, 7) + d);
    let e = txt_text(seq![te]);
    assert(e.subrange(e.len() - 3, e.len() as int) =~= seq!['\n', '\n', '\n']);
    assert(e.subrange(0, e.len() - 3) =~= pre + kv_line(te, 7));
    assert(txt_text(seq![td]) =~= e.subrange(0, e.len() - 3) + d + seq!['\n', '\n', '\n']);
}

} // verus!
