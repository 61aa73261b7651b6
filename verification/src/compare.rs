//! Comparing two lists of transactions.
//!
//! Records are matched by their identifier: a record of the left list whose
//! identifier the right list lacks is reported as only on the left, one of
//! the right list whose identifier the left list lacks as only on the right,
//! and a left record whose first counterpart on the right differs in some
//! field as a mismatch naming those fields in schema order.
use crate::error::strings_view;
use crate::text::{chars_eq, chars_of, decimal, push_decimal, push_range, push_str_chars, string_of};
use crate::transaction::model::{Transaction, TransactionView, TxStatus, TxType, txs_view};
use crate::transaction::schema::{field_name, field_str};
use vstd::prelude::*;

verus! {

/// One difference between two lists of transactions.
#[derive(Debug)]
pub enum Difference {
    /// Only the left list holds a record with this identifier.
    OnlyLeft { tx: Transaction },
    /// Only the right list holds a record with this identifier.
    OnlyRight { tx: Transaction },
    /// Both lists hold a record with this identifier, and these fields
    /// (named in schema order) differ.
    Mismatch { left: Transaction, right: Transaction, fields: Vec<String> },
}

/// The mathematical value of a [`Difference`].
pub enum DifferenceView {
    OnlyLeft { tx: TransactionView },
    OnlyRight { tx: TransactionView },
    Mismatch { left: TransactionView, right: TransactionView, fields: Seq<Seq<char>> },
}

impl View for Difference {
    type V = DifferenceView;

    open spec fn view(&self) -> DifferenceView {
        match self {
            Difference::OnlyLeft { tx } => DifferenceView::OnlyLeft { tx: tx@ },
            Difference::OnlyRight { tx } => DifferenceView::OnlyRight { tx: tx@ },
            Difference::Mismatch { left, right, fields } => DifferenceView::Mismatch {
                left: left@,
                right: right@,
                fields: strings_view(fields@),
            },
        }
    }
}

/// The views of a sequence of differences.
pub open spec fn diffs_view(v: Seq<Difference>) -> Seq<DifferenceView> {
    v.map_values(|d: Difference| d@)
}

// ─────────────────────────────────────────────────────────────────────────
// Specification
// ─────────────────────────────────────────────────────────────────────────

/// The index of the first record of `s` from `i` on with identifier `id`, or -1.
pub open spec fn first_with_id(s: Seq<TransactionView>, id: u64, i: int) -> int
    decreases s.len() - i,
{
    if i < 0 || i >= s.len() {
        -1
    } else if s[i].tx_id == id {
        i
    } else {
        first_with_id(s, id, i + 1)
    }
}

/// Whether field `k` (schema order) of `a` and `b` differs.
pub open spec fn field_differs(a: TransactionView, b: TransactionView, k: int) -> bool {
    if k == 0 {
        a.tx_id != b.tx_id
    } else if k == 1 {
        a.tx_type != b.tx_type
    } else if k == 2 {
        a.from_user_id != b.from_user_id
    } else if k == 3 {
        a.to_user_id != b.to_user_id
    } else if k == 4 {
        a.amount != b.amount
    } else if k == 5 {
        a.timestamp != b.timestamp
    } else if k == 6 {
        a.status != b.status
    } else {
        a.description != b.description
    }
}

/// The names of the first `n` fields in which `a` and `b` differ.
pub open spec fn differing_upto(a: TransactionView, b: TransactionView, n: int) -> Seq<Seq<char>>
    decreases n,
{
    if n <= 0 {
        seq![]
    } else if field_differs(a, b, n - 1) {
        differing_upto(a, b, n - 1).push(field_name(n - 1))
    } else {
        differing_upto(a, b, n - 1)
    }
}

/// The names of the fields in which `a` and `b` differ, in schema order.
pub open spec fn differing_fields(a: TransactionView, b: TransactionView) -> Seq<Seq<char>> {
    differing_upto(a, b, 8)
}

/// What a left record contributes: nothing where its first counterpart on
/// the right is equal to it.
pub open spec fn left_entry(t: TransactionView, right: Seq<TransactionView>) -> Seq<DifferenceView> {
    let k = first_with_id(right, t.tx_id, 0);
    if k < 0 {
        seq![DifferenceView::OnlyLeft { tx: t }]
    } else if differing_fields(t, right[k]).len() == 0 {
        seq![]
    } else {
        seq![DifferenceView::Mismatch { left: t, right: right[k], fields: differing_fields(t, right[k]) }]
    }
}

/// What a right record contributes.
pub open spec fn right_entry(t: TransactionView, left: Seq<TransactionView>) -> Seq<DifferenceView> {
    if first_with_id(left, t.tx_id, 0) < 0 {
        seq![DifferenceView::OnlyRight { tx: t }]
    } else {
        seq![]
    }
}

/// The differences of the first `n` left records, in order.
pub open spec fn left_diffs(left: Seq<TransactionView>, right: Seq<TransactionView>, n: int) -> Seq<
    DifferenceView,
>
    decreases n,
{
    if n <= 0 || n > left.len() {
        seq![]
    } else {
        left_diffs(left, right, n - 1) + left_entry(left[n - 1], right)
    }
}

/// The records among the first `n` right ones without a counterpart on the left.
pub open spec fn right_diffs(left: Seq<TransactionView>, right: Seq<TransactionView>, n: int) -> Seq<
    DifferenceView,
>
    decreases n,
{
    if n <= 0 || n > right.len() {
        seq![]
    } else {
        right_diffs(left, right, n - 1) + right_entry(right[n - 1], left)
    }
}

/// The differences between two lists: those of the left records in their
/// order, then the right records without a counterpart in theirs.
pub open spec fn differences(left: Seq<TransactionView>, right: Seq<TransactionView>) -> Seq<
    DifferenceView,
> {
    left_diffs(left, right, left.len() as int) + right_diffs(left, right, right.len() as int)
}

/// Whether no two records of `s` share an identifier.
pub open spec fn distinct_ids(s: Seq<TransactionView>) -> bool {
    forall|i: int, j: int| 0 <= i < j < s.len() ==> s[i].tx_id != s[j].tx_id
}

/// The name of a type in a report.
pub open spec fn type_label(t: TxType) -> Seq<char> {
    match t {
        TxType::Deposit => "Deposit"@,
        TxType::Transfer => "Transfer"@,
        TxType::Withdrawal => "Withdrawal"@,
    }
}

/// The name of a status in a report.
pub open spec fn status_label(s: TxStatus) -> Seq<char> {
    match s {
        TxStatus::Success => "Success"@,
        TxStatus::Failure => "Failure"@,
        TxStatus::Pending => "Pending"@,
    }
}

/// The label of field `i` (schema order) in a report.
pub open spec fn field_label(i: int) -> Seq<char> {
    if i == 0 {
        "tx_id"@
    } else if i == 1 {
        "type"@
    } else if i == 2 {
        "from"@
    } else if i == 3 {
        "to"@
    } else if i == 4 {
        "amount"@
    } else if i == 5 {
        "ts"@
    } else if i == 6 {
        "status"@
    } else {
        "desc"@
    }
}

/// The text of field `i` (schema order) of `t` in a report.
pub open spec fn field_text(t: TransactionView, i: int) -> Seq<char> {
    if i == 0 {
        decimal(t.tx_id as nat)
    } else if i == 1 {
        type_label(t.tx_type)
    } else if i == 2 {
        decimal(t.from_user_id as nat)
    } else if i == 3 {
        decimal(t.to_user_id as nat)
    } else if i == 4 {
        decimal(t.amount as nat)
    } else if i == 5 {
        decimal(t.timestamp as nat)
    } else if i == 6 {
        status_label(t.status)
    } else {
        t.description
    }
}

/// One record in a report: `tx_id=.. type=.. from=.. to=.. amount=..
/// status=.. ts=.. desc=..`.
pub open spec fn record_line(t: TransactionView) -> Seq<char> {
    "tx_id="@ + field_text(t, 0) + " type="@ + field_text(t, 1) + " from="@ + field_text(t, 2)
        + " to="@ + field_text(t, 3) + " amount="@ + field_text(t, 4) + " status="@ + field_text(
        t,
        6,
    ) + " ts="@ + field_text(t, 5) + " desc="@ + field_text(t, 7)
}

/// The line of a field that differs: `~ label:  old -> new`.
pub open spec fn change_line(a: TransactionView, b: TransactionView, i: int) -> Seq<char> {
    "    ~ "@ + field_label(i) + ":  "@ + field_text(a, i) + " -> "@ + field_text(b, i)
}

/// The lines of the first `n` fields in which `a` and `b` differ.
pub open spec fn change_lines(a: TransactionView, b: TransactionView, n: int) -> Seq<Seq<char>>
    decreases n,
{
    if n <= 0 {
        seq![]
    } else if field_differs(a, b, n - 1) {
        change_lines(a, b, n - 1).push(change_line(a, b, n - 1))
    } else {
        change_lines(a, b, n - 1)
    }
}

/// A heading: `[ID] ` and `rest`.
pub open spec fn heading_line(tx_id: u64, rest: Seq<char>) -> Seq<char> {
    "["@ + decimal(tx_id as nat) + "] "@ + rest
}

/// The lines that report a difference: a heading with the identifier, the
/// record of each side (`<` left, `>` right), and for a mismatch one line
/// per differing field.
pub open spec fn difference_block(d: DifferenceView, left_name: Seq<char>, right_name: Seq<char>) -> Seq<
    Seq<char>,
> {
    match d {
        DifferenceView::OnlyLeft { tx } => seq![
            heading_line(tx.tx_id, "only in "@ + left_name),
            "  < "@ + record_line(tx),
        ],
        DifferenceView::OnlyRight { tx } => seq![
            heading_line(tx.tx_id, "only in "@ + right_name),
            "  > "@ + record_line(tx),
        ],
        DifferenceView::Mismatch { left, right, .. } => seq![
            heading_line(left.tx_id, "mismatched"@),
            "  < "@ + record_line(left),
            "  > "@ + record_line(right),
        ] + change_lines(left, right, 8),
    }
}

/// The blocks of the first `n` differences, separated by empty lines.
pub open spec fn report_blocks(
    ds: Seq<DifferenceView>,
    left_name: Seq<char>,
    right_name: Seq<char>,
    n: int,
) -> Seq<Seq<char>>
    decreases n,
{
    if n <= 0 || n > ds.len() {
        seq![]
    } else if n == 1 {
        difference_block(ds[0], left_name, right_name)
    } else {
        report_blocks(ds, left_name, right_name, n - 1) + seq![seq![]] + difference_block(
            ds[n - 1],
            left_name,
            right_name,
        )
    }
}

/// The message when two lists show no difference.
pub open spec fn identical_message() -> Seq<char> {
    "No differences: both files hold the same records."@
}

/// The lines of the report comparing `left` (read from `left_name`) with
/// `right` (read from `right_name`): one block per difference, or the
/// message that there is none.
pub open spec fn report_lines(
    left: Seq<TransactionView>,
    right: Seq<TransactionView>,
    left_name: Seq<char>,
    right_name: Seq<char>,
) -> Seq<Seq<char>> {
    let ds = differences(left, right);
    if ds.len() == 0 {
        seq![identical_message()]
    } else {
        report_blocks(ds, left_name, right_name, ds.len() as int)
    }
}

// ─────────────────────────────────────────────────────────────────────────
// Implementation
// ─────────────────────────────────────────────────────────────────────────

/// The index of the first record of `s` with identifier `id`.
fn find_id(s: &[Transaction], id: u64) -> (res: Option<usize>)
    ensures
        match res {
            Some(k) => k < s@.len() && first_with_id(txs_view(s@), id, 0) == k,
            None => first_with_id(txs_view(s@), id, 0) == -1,
        },
{
    let ghost v = txs_view(s@);
    let mut i: usize = 0;
    while i < s.len()
        invariant
            i <= s@.len(),
            v == txs_view(s@),
            first_with_id(v, id, 0) == first_with_id(v, id, i as int),
        decreases s@.len() - i,
    {
        if s[i].tx_id == id {
            return Some(i);
        }
        i += 1;
    }
    None
}

/// Whether field `k` of `a` and `b` differs.
fn differs_at(a: &Transaction, b: &Transaction, k: usize) -> (r: bool)
    requires
        k < 8,
    ensures
        r == field_differs(a@, b@, k as int),
{
    if k == 0 {
        a.tx_id != b.tx_id
    } else if k == 1 {
        a.tx_type != b.tx_type
    } else if k == 2 {
        a.from_user_id != b.from_user_id
    } else if k == 3 {
        a.to_user_id != b.to_user_id
    } else if k == 4 {
        a.amount != b.amount
    } else if k == 5 {
        a.timestamp != b.timestamp
    } else if k == 6 {
        a.status != b.status
    } else {
        let x = chars_of(a.description.as_str());
        let y = chars_of(b.description.as_str());
        !chars_eq(&x, &y)
    }
}

/// The names of the fields in which `a` and `b` differ, in schema order.
pub fn mismatched_fields(a: &Transaction, b: &Transaction) -> (res: Vec<String>)
    ensures
        strings_view(res@) == differing_fields(a@, b@),
{
    let mut res: Vec<String> = Vec::new();
    let mut k: usize = 0;
    while k < 8
        invariant
            k <= 8,
            strings_view(res@) == differing_upto(a@, b@, k as int),
        decreases 8 - k,
    {
        if differs_at(a, b, k) {
            let name = chars_of(field_str(k));
            let ghost before = res@;
            res.push(string_of(&name));
            assert(strings_view(res@) =~= strings_view(before).push(field_name(k as int)));
        }
        k += 1;
    }
    res
}

/// Compares two lists of transactions by identifier: first what each left
/// record contributes, in order (only on the left, or a mismatch with the
/// first right record of its identifier), then the right records whose
/// identifier the left list lacks, in order.
pub fn compare(left: &[Transaction], right: &[Transaction]) -> (res: Vec<Difference>)
    ensures
        diffs_view(res@) == differences(txs_view(left@), txs_view(right@)),
{
    let ghost lv = txs_view(left@);
    let ghost rv = txs_view(right@);
    let mut res: Vec<Difference> = Vec::new();
    let mut i: usize = 0;
    assert(diffs_view(res@) =~= Seq::<DifferenceView>::empty());
    while i < left.len()
        invariant
            i <= left@.len(),
            lv == txs_view(left@),
            rv == txs_view(right@),
            diffs_view(res@) == left_diffs(lv, rv, i as int),
        decreases left@.len() - i,
    {
        let t = &left[i];
        let ghost before = diffs_view(res@);
        match find_id(right, t.tx_id) {
            None => {
                res.push(Difference::OnlyLeft { tx: copy_transaction(t) });
            },
            Some(k) => {
                let fields = mismatched_fields(t, &right[k]);
                if fields.len() > 0 {
                    res.push(
                        Difference::Mismatch {
                            left: copy_transaction(t),
                            right: copy_transaction(&right[k]),
                            fields,
                        },
                    );
                }
            },
        }
        assert(diffs_view(res@) =~= before + left_entry(lv[i as int], rv));
        i += 1;
    }
    let ghost mid = diffs_view(res@);
    let mut j: usize = 0;
    assert(mid =~= mid + right_diffs(lv, rv, 0));
    while j < right.len()
        invariant
            j <= right@.len(),
            lv == txs_view(left@),
            rv == txs_view(right@),
            mid == left_diffs(lv, rv, lv.len() as int),
            diffs_view(res@) == mid + right_diffs(lv, rv, j as int),
        decreases right@.len() - j,
    {
        let t = &right[j];
        let ghost before = diffs_view(res@);
        if find_id(left, t.tx_id).is_none() {
            res.push(Difference::OnlyRight { tx: copy_transaction(t) });
        }
        assert(diffs_view(res@) =~= before + right_entry(rv[j as int], lv));
        assert(mid + right_diffs(lv, rv, j + 1) =~= mid + right_diffs(lv, rv, j as int)
            + right_entry(rv[j as int], lv));
        j += 1;
    }
    res
}

/// A copy of `t`.
fn copy_transaction(t: &Transaction) -> (r: Transaction)
    ensures
        r@ == t@,
{
    let d = chars_of(t.description.as_str());
    Transaction {
        tx_id: t.tx_id,
        tx_type: t.tx_type,
        from_user_id: t.from_user_id,
        to_user_id: t.to_user_id,
        amount: t.amount,
        timestamp: t.timestamp,
        status: t.status,
        description: string_of(&d),
    }
}

/// Appends the text of field `i` of `t`.
fn push_field_text(out: &mut Vec<char>, t: &Transaction, i: usize)
    requires
        i < 8,
    ensures
        final(out)@ == old(out)@ + field_text(t@, i as int),
{
    if i == 0 {
        push_decimal(out, t.tx_id);
    } else if i == 1 {
        match t.tx_type {
            TxType::Deposit => push_str_chars(out, "Deposit"),
            TxType::Transfer => push_str_chars(out, "Transfer"),
            TxType::Withdrawal => push_str_chars(out, "Withdrawal"),
        }
    } else if i == 2 {
        push_decimal(out, t.from_user_id);
    } else if i == 3 {
        push_decimal(out, t.to_user_id);
    } else if i == 4 {
        push_decimal(out, t.amount);
    } else if i == 5 {
        push_decimal(out, t.timestamp);
    } else if i == 6 {
        match t.status {
            TxStatus::Success => push_str_chars(out, "Success"),
            TxStatus::Failure => push_str_chars(out, "Failure"),
            TxStatus::Pending => push_str_chars(out, "Pending"),
        }
    } else {
        push_str_chars(out, t.description.as_str());
    }
}

/// Appends the label of field `i`.
fn push_field_label(out: &mut Vec<char>, i: usize)
    requires
        i < 8,
    ensures
        final(out)@ == old(out)@ + field_label(i as int),
{
    if i == 0 {
        push_str_chars(out, "tx_id");
    } else if i == 1 {
        push_str_chars(out, "type");
    } else if i == 2 {
        push_str_chars(out, "from");
    } else if i == 3 {
        push_str_chars(out, "to");
    } else if i == 4 {
        push_str_chars(out, "amount");
    } else if i == 5 {
        push_str_chars(out, "ts");
    } else if i == 6 {
        push_str_chars(out, "status");
    } else {
        push_str_chars(out, "desc");
    }
}

/// The line `prefix` + the record of `t`.
fn record_text(prefix: &str, t: &Transaction) -> (res: String)
    ensures
        res@ == prefix@ + record_line(t@),
{
    let mut out: Vec<char> = Vec::new();
    push_str_chars(&mut out, prefix);
    push_str_chars(&mut out, "tx_id=");
    push_field_text(&mut out, t, 0);
    push_str_chars(&mut out, " type=");
    push_field_text(&mut out, t, 1);
    push_str_chars(&mut out, " from=");
    push_field_text(&mut out, t, 2);
    push_str_chars(&mut out, " to=");
    push_field_text(&mut out, t, 3);
    push_str_chars(&mut out, " amount=");
    push_field_text(&mut out, t, 4);
    push_str_chars(&mut out, " status=");
    push_field_text(&mut out, t, 6);
    push_str_chars(&mut out, " ts=");
    push_field_text(&mut out, t, 5);
    push_str_chars(&mut out, " desc=");
    push_field_text(&mut out, t, 7);
    assert(out@ =~= prefix@ + record_line(t@));
    string_of(&out)
}

/// The heading `[id]` + `rest`.
fn heading(tx_id: u64, rest: &[char]) -> (res: String)
    ensures
        res@ == heading_line(tx_id, rest@),
{
    let mut out: Vec<char> = Vec::new();
    push_str_chars(&mut out, "[");
    push_decimal(&mut out, tx_id);
    push_str_chars(&mut out, "] ");
    push_range(&mut out, rest, 0, rest.len());
    assert(rest@.subrange(0, rest@.len() as int) =~= rest@);
    assert(out@ =~= heading_line(tx_id, rest@));
    string_of(&out)
}

impl Difference {
    /// The lines that report this difference: `[ID] only in NAME` or
    /// `[ID] mismatched`, then `  < ` and the left record, `  > ` and the
    /// right record, and for a mismatch `    ~ label:  old -> new` for each
    /// field that differs, in schema order.
    pub fn lines(&self, left_name: &str, right_name: &str) -> (res: Vec<String>)
        ensures
            strings_view(res@) == difference_block(self@, left_name@, right_name@),
    {
        let mut res: Vec<String> = Vec::new();
        match self {
            Difference::OnlyLeft { tx } => {
                let mut rest = chars_of("only in ");
                let mut n = chars_of(left_name);
                rest.append(&mut n);
                res.push(heading(tx.tx_id, &rest));
                res.push(record_text("  < ", tx));
                assert(strings_view(res@) =~= difference_block(self@, left_name@, right_name@));
            },
            Difference::OnlyRight { tx } => {
                let mut rest = chars_of("only in ");
                let mut n = chars_of(right_name);
                rest.append(&mut n);
                res.push(heading(tx.tx_id, &rest));
                res.push(record_text("  > ", tx));
                assert(strings_view(res@) =~= difference_block(self@, left_name@, right_name@));
            },
            Difference::Mismatch { left, right, .. } => {
                let rest = chars_of("mismatched");
                res.push(heading(left.tx_id, &rest));
                res.push(record_text("  < ", left));
                res.push(record_text("  > ", right));
                let ghost head = strings_view(res@);
                let mut k: usize = 0;
                while k < 8
                    invariant
                        k <= 8,
                        strings_view(res@) == head + change_lines(left@, right@, k as int),
                    decreases 8 - k,
                {
                    if differs_at(left, right, k) {
                        let mut out: Vec<char> = Vec::new();
                        push_str_chars(&mut out, "    ~ ");
                        push_field_label(&mut out, k);
                        push_str_chars(&mut out, ":  ");
                        push_field_text(&mut out, left, k);
                        push_str_chars(&mut out, " -> ");
                        push_field_text(&mut out, right, k);
                        assert(out@ =~= change_line(left@, right@, k as int));
                        let ghost before = strings_view(res@);
                        res.push(string_of(&out));
                        assert(strings_view(res@) =~= before.push(change_line(left@, right@, k as int)));
                    }
                    k += 1;
                }
                assert(strings_view(res@) =~= difference_block(self@, left_name@, right_name@));
            },
        }
        res
    }
}

/// The report comparing `left` (read from `left_name`) with `right` (read
/// from `right_name`): the blocks of [`Difference::lines`] for each
/// difference that [`compare`] finds, separated by empty lines, or a single
/// line saying that there is none.
pub fn report(left: &[Transaction], right: &[Transaction], left_name: &str, right_name: &str) -> (res:
    Vec<String>)
    ensures
        strings_view(res@) == report_lines(
            txs_view(left@),
            txs_view(right@),
            left_name@,
            right_name@,
        ),
{
    let diffs = compare(left, right);
    let ghost ds = diffs_view(diffs@);
    let mut res: Vec<String> = Vec::new();
    if diffs.len() == 0 {
        let m = chars_of("No differences: both files hold the same records.");
        res.push(string_of(&m));
        assert(strings_view(res@) =~= seq![identical_message()]);
        return res;
    }
    let mut i: usize = 0;
    assert(strings_view(res@) =~= report_blocks(ds, left_name@, right_name@, 0));
    while i < diffs.len()
        invariant
            i <= diffs@.len(),
            ds == diffs_view(diffs@),
            strings_view(res@) == report_blocks(ds, left_name@, right_name@, i as int),
        decreases diffs@.len() - i,
    {
        let ghost before = strings_view(res@);
        if i > 0 {
            res.push(String::new());
        }
        let mut block = diffs[i].lines(left_name, right_name);
        let ghost mid = res@;
        let ghost bv = block@;
        res.append(&mut block);
        proof {
            assert(res@ =~= mid + bv);
            assert(strings_view(res@) =~= strings_view(mid) + strings_view(bv));
            assert(ds[i as int] == diffs@[i as int]@);
            if i == 0 {
                assert(strings_view(res@) =~= difference_block(ds[0], left_name@, right_name@));
            } else {
                assert(strings_view(res@) =~= before + seq![Seq::<char>::empty()]
                    + difference_block(ds[i as int], left_name@, right_name@));
            }
        }
        i += 1;
    }
    res
}

// ─────────────────────────────────────────────────────────────────────────
// Laws
// ─────────────────────────────────────────────────────────────────────────

/// The search from `i` finds record `k` when it has the identifier and no
/// record between them does.
proof fn lemma_first_with_id(s: Seq<TransactionView>, id: u64, i: int, k: int)
    requires
        0 <= i <= k < s.len(),
        s[k].tx_id == id,
        forall|j: int| i <= j < k ==> s[j].tx_id != id,
    ensures
        first_with_id(s, id, i) == k,
    decreases k - i,
{
    if i < k {
        lemma_first_with_id(s, id, i + 1, k);
    }
}

/// A record differs from itself in no field.
proof fn lemma_no_differing_fields(t: TransactionView, n: int)
    requires
        n <= 8,
    ensures
        differing_upto(t, t, n).len() == 0,
    decreases n,
{
    if n > 0 {
        lemma_no_differing_fields(t, n - 1);
    }
}

/// With distinct identifiers, no left record contributes a difference.
proof fn lemma_left_diffs_self(s: Seq<TransactionView>, n: int)
    requires
        0 <= n <= s.len(),
        distinct_ids(s),
    ensures
        left_diffs(s, s, n) == Seq::<DifferenceView>::empty(),
    decreases n,
{
    if n > 0 {
        lemma_left_diffs_self(s, n - 1);
        let t = s[n - 1];
        assert forall|j: int| 0 <= j < n - 1 implies s[j].tx_id != t.tx_id by {}
        lemma_first_with_id(s, t.tx_id, 0, n - 1);
        lemma_no_differing_fields(t, 8);
        assert(left_entry(t, s) =~= Seq::<DifferenceView>::empty());
        assert(left_diffs(s, s, n) =~= Seq::<DifferenceView>::empty());
    }
}

/// Every record finds itself, so no right record lacks a counterpart.
proof fn lemma_right_diffs_self(s: Seq<TransactionView>, n: int)
    requires
        0 <= n <= s.len(),
        distinct_ids(s),
    ensures
        right_diffs(s, s, n) == Seq::<DifferenceView>::empty(),
    decreases n,
{
    if n > 0 {
        lemma_right_diffs_self(s, n - 1);
        let t = s[n - 1];
        assert forall|j: int| 0 <= j < n - 1 implies s[j].tx_id != t.tx_id by {}
        lemma_first_with_id(s, t.tx_id, 0, n - 1);
        assert(right_entry(t, s) =~= Seq::<DifferenceView>::empty());
        assert(right_diffs(s, s, n) =~= Seq::<DifferenceView>::empty());
    }
}

/// A list whose identifiers are distinct shows no difference from itself.
pub proof fn lemma_compare_self(s: Seq<TransactionView>)
    requires
        distinct_ids(s),
    ensures
        differences(s, s) == Seq::<DifferenceView>::empty(),
{
    lemma_left_diffs_self(s, s.len() as int);
    lemma_right_diffs_self(s, s.len() as int);
    assert(differences(s, s) =~= Seq::<DifferenceView>::empty());
}

/// Where the search from `i` stops: at the first record from `i` on with
/// the identifier, or at -1 when there is none.
proof fn lemma_first_with_id_from(s: Seq<TransactionView>, id: u64, i: int)
    requires
        0 <= i <= s.len(),
    ensures
        ({
            let k = first_with_id(s, id, i);
            ||| k == -1 && forall|j: int| i <= j < s.len() ==> #[trigger] s[j].tx_id != id
            ||| i <= k < s.len() && s[k].tx_id == id && forall|j: int| i <= j < k ==> #[trigger] s[j].tx_id
                != id
        }),
    decreases s.len() - i,
{
    if i < s.len() && s[i].tx_id != id {
        lemma_first_with_id_from(s, id, i + 1);
    }
}

/// A record is matched with the first record of the other list that has its
/// identifier, and with none exactly when no record there has it.
pub proof fn lemma_counterpart(s: Seq<TransactionView>, id: u64)
    ensures
        first_with_id(s, id, 0) == -1 <==> forall|j: int| 0 <= j < s.len() ==> #[trigger] s[j].tx_id != id,
        first_with_id(s, id, 0) != -1 ==> ({
            let k = first_with_id(s, id, 0);
            &&& 0 <= k < s.len()
            &&& s[k].tx_id == id
            &&& forall|j: int| 0 <= j < k ==> #[trigger] s[j].tx_id != id
        }),
{
    lemma_first_with_id_from(s, id, 0);
    if first_with_id(s, id, 0) != -1 {
        let k = first_with_id(s, id, 0);
        assert(s[k].tx_id == id);
    }
}

/// Two records differ in no field exactly when they are equal, so a left
/// record is reported as a mismatch exactly when its counterpart is not
/// equal to it.
pub proof fn lemma_differing_fields_empty(a: TransactionView, b: TransactionView)
    ensures
        (differing_fields(a, b).len() == 0) <==> (a == b),
{
    reveal_with_fuel(differing_upto, 9);
    if a != b {
        if a.tx_id != b.tx_id {
            lemma_differing_upto_keeps(a, b, 1, 8);
        } else if a.tx_type != b.tx_type {
            lemma_differing_upto_keeps(a, b, 2, 8);
        } else if a.from_user_id != b.from_user_id {
            lemma_differing_upto_keeps(a, b, 3, 8);
        } else if a.to_user_id != b.to_user_id {
            lemma_differing_upto_keeps(a, b, 4, 8);
        } else if a.amount != b.amount {
            lemma_differing_upto_keeps(a, b, 5, 8);
        } else if a.timestamp != b.timestamp {
            lemma_differing_upto_keeps(a, b, 6, 8);
        } else if a.status != b.status {
            lemma_differing_upto_keeps(a, b, 7, 8);
        } else {
            assert(a.description != b.description);
        }
    } else {
        lemma_no_differing_fields(a, 8);
    }
}

/// A field found differing among the first `m` is still counted among the
/// first `n >= m`.
proof fn lemma_differing_upto_keeps(a: TransactionView, b: TransactionView, m: int, n: int)
    requires
        0 < m <= n,
        field_differs(a, b, m - 1),
    ensures
        differing_upto(a, b, n).len() > 0,
    decreases n - m,
{
    if n > m {
        lemma_differing_upto_keeps(a, b, m, n - 1);
    }
}

} // verus!
