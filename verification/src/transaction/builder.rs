//! A builder that assembles a [`Transaction`] field by field, validating each value.
use crate::error::{ReaderError, ReaderErrorView, strings_view};
use crate::text::{chars_eq, chars_of, parse_u64_value, parse_u64_range, string_of, trim};
use crate::transaction::model::{Transaction, TransactionView, TxStatus, TxType};
use crate::transaction::schema::{field_index, field_name, field_str};
use vstd::prelude::*;

verus! {

/// Assembles a [`Transaction`] from named fields, as the text decoders read them.
///
/// Each field may be set once; a record is complete when all eight are set.
pub struct TransactionBuilder {
    tx_id: Option<u64>,
    tx_type: Option<TxType>,
    from_user_id: Option<u64>,
    to_user_id: Option<u64>,
    amount: Option<u64>,
    timestamp: Option<u64>,
    status: Option<TxStatus>,
    description: Option<String>,
}

/// The fields that a builder holds so far.
pub struct BuilderView {
    pub tx_id: Option<u64>,
    pub tx_type: Option<TxType>,
    pub from_user_id: Option<u64>,
    pub to_user_id: Option<u64>,
    pub amount: Option<u64>,
    pub timestamp: Option<u64>,
    pub status: Option<TxStatus>,
    pub description: Option<Seq<char>>,
}

impl View for TransactionBuilder {
    type V = BuilderView;

    closed spec fn view(&self) -> BuilderView {
        BuilderView {
            tx_id: self.tx_id,
            tx_type: self.tx_type,
            from_user_id: self.from_user_id,
            to_user_id: self.to_user_id,
            amount: self.amount,
            timestamp: self.timestamp,
            status: self.status,
            description: match self.description {
                Some(s) => Some(s@),
                None => None,
            },
        }
    }
}

/// One if `b` holds, else none.
pub open spec fn name_if(b: bool, i: int) -> Seq<Seq<char>> {
    if b {
        seq![field_name(i)]
    } else {
        seq![]
    }
}

impl BuilderView {
    /// A builder with no field set.
    pub open spec fn empty() -> BuilderView {
        BuilderView {
            tx_id: None,
            tx_type: None,
            from_user_id: None,
            to_user_id: None,
            amount: None,
            timestamp: None,
            status: None,
            description: None,
        }
    }

    /// Whether field `i` (schema order) is set.
    pub open spec fn is_set(self, i: int) -> bool {
        if i == 0 {
            self.tx_id is Some
        } else if i == 1 {
            self.tx_type is Some
        } else if i == 2 {
            self.from_user_id is Some
        } else if i == 3 {
            self.to_user_id is Some
        } else if i == 4 {
            self.amount is Some
        } else if i == 5 {
            self.timestamp is Some
        } else if i == 6 {
            self.status is Some
        } else {
            self.description is Some
        }
    }

    /// The names of the fields not set yet, in schema order.
    pub open spec fn missing(self) -> Seq<Seq<char>> {
        name_if(!self.is_set(0), 0) + name_if(!self.is_set(1), 1) + name_if(!self.is_set(2), 2)
            + name_if(!self.is_set(3), 3) + name_if(!self.is_set(4), 4) + name_if(
            !self.is_set(5),
            5,
        ) + name_if(!self.is_set(6), 6) + name_if(!self.is_set(7), 7)
    }

    /// The builder with numeric field `i` (0, 2, 3, 4 or 5) set to `n`.
    pub open spec fn with_number(self, i: int, n: u64) -> BuilderView {
        if i == 0 {
            BuilderView { tx_id: Some(n), ..self }
        } else if i == 2 {
            BuilderView { from_user_id: Some(n), ..self }
        } else if i == 3 {
            BuilderView { to_user_id: Some(n), ..self }
        } else if i == 4 {
            BuilderView { amount: Some(n), ..self }
        } else {
            BuilderView { timestamp: Some(n), ..self }
        }
    }
}

/// Whether a description value is enclosed in double quotes.
pub open spec fn is_quoted(value: Seq<char>) -> bool {
    value.len() >= 2 && value[0] == '"' && value.last() == '"'
}

/// The reason given for a description that is not enclosed in quotes.
pub open spec fn broken_quotes_reason() -> Seq<char> {
    "broken quotes for "@ + field_name(7)
}

/// What setting the field named `key` to `value` gives: the builder with the
/// field set, or the error, in this order: unknown name, field already set,
/// value that does not parse.
pub open spec fn set_field(b: BuilderView, key: Seq<char>, value: Seq<char>, line_no: usize) -> Result<
    BuilderView,
    ReaderErrorView,
> {
    match field_index(key) {
        None => Err(ReaderErrorView::UnknownField { line_no, field: key }),
        Some(i) => if b.is_set(i) {
            Err(ReaderErrorView::DuplicateField { line_no, field: key })
        } else if i == 1 {
            match TxType::from_name(trim(value)) {
                Some(t) => Ok(BuilderView { tx_type: Some(t), ..b }),
                None => Err(ReaderErrorView::InvalidFieldValue { line_no, field: key, value }),
            }
        } else if i == 6 {
            match TxStatus::from_name(trim(value)) {
                Some(s) => Ok(BuilderView { status: Some(s), ..b }),
                None => Err(ReaderErrorView::InvalidFieldValue { line_no, field: key, value }),
            }
        } else if i == 7 {
            if is_quoted(value) {
                Ok(BuilderView { description: Some(value), ..b })
            } else {
                Err(ReaderErrorView::InvalidRow { line_no, reason: broken_quotes_reason() })
            }
        } else {
            match parse_u64_value(value) {
                Some(n) => Ok(b.with_number(i, n)),
                None => Err(ReaderErrorView::InvalidFieldValue { line_no, field: key, value }),
            }
        },
    }
}

/// What completing a builder gives: the transaction, or the list of missing fields.
pub open spec fn build_record(b: BuilderView, line_no: usize) -> Result<
    TransactionView,
    ReaderErrorView,
> {
    if b.missing().len() > 0 {
        Err(ReaderErrorView::MissingFields { line_no, fields: b.missing() })
    } else {
        Ok(
            TransactionView {
                tx_id: b.tx_id->0,
                tx_type: b.tx_type->0,
                from_user_id: b.from_user_id->0,
                to_user_id: b.to_user_id->0,
                amount: b.amount->0,
                timestamp: b.timestamp->0,
                status: b.status->0,
                description: b.description->0,
            },
        )
    }
}

/// The index of the field named exactly `key`.
fn field_index_of(key: &[char]) -> (res: Option<usize>)
    ensures
        match field_index(key@) {
            Some(i) => res == Some(i as usize),
            None => res is None,
        },
{
    let mut i: usize = 0;
    while i < 8
        invariant
            i <= 8,
            forall|j: int| 0 <= j < i ==> key@ != field_name(j),
        decreases 8 - i,
    {
        let name = chars_of(field_str(i));
        if chars_eq(key, &name) {
            return Some(i);
        }
        i += 1;
    }
    None
}

impl Default for TransactionBuilder {
    fn default() -> (b: Self)
        ensures
            b@ == BuilderView::empty(),
    {
        TransactionBuilder::new()
    }
}

impl TransactionBuilder {
    /// A builder with no field set.
    pub fn new() -> (b: Self)
        ensures
            b@ == BuilderView::empty(),
    {
        TransactionBuilder {
            tx_id: None,
            tx_type: None,
            from_user_id: None,
            to_user_id: None,
            amount: None,
            timestamp: None,
            status: None,
            description: None,
        }
    }

    /// Sets the field named `key` from its textual `value`; `line_no` goes into errors.
    ///
    /// Numbers are parsed as they stand, type and status names may carry
    /// surrounding whitespace, and a description must be enclosed in double
    /// quotes, which it keeps. On error the builder is unchanged.
    pub fn set(&mut self, key: &str, value: &str, line_no: usize) -> (res: Result<(), ReaderError>)
        ensures
            match set_field(old(self)@, key@, value@, line_no) {
                Ok(b) => res is Ok && final(self)@ == b,
                Err(e) => res matches Err(err) && err@ == e && final(self)@ == old(self)@,
            },
    {
        let k = chars_of(key);
        let v = chars_of(value);
        self.set_chars(&k, &v, line_no)
    }

    /// [`TransactionBuilder::set`] on characters.
    pub fn set_chars(&mut self, key: &[char], value: &[char], line_no: usize) -> (res: Result<
        (),
        ReaderError,
    >)
        ensures
            match set_field(old(self)@, key@, value@, line_no) {
                Ok(b) => res is Ok && final(self)@ == b,
                Err(e) => res matches Err(err) && err@ == e && final(self)@ == old(self)@,
            },
    {
        let i = match field_index_of(key) {
            Some(i) => i,
            None => {
                return Err(ReaderError::UnknownField { line_no, field: string_of(key) });
            },
        };
        let set = if i == 0 {
            self.tx_id.is_some()
        } else if i == 1 {
            self.tx_type.is_some()
        } else if i == 2 {
            self.from_user_id.is_some()
        } else if i == 3 {
            self.to_user_id.is_some()
        } else if i == 4 {
            self.amount.is_some()
        } else if i == 5 {
            self.timestamp.is_some()
        } else if i == 6 {
            self.status.is_some()
        } else {
            self.description.is_some()
        };
        if set {
            return Err(ReaderError::DuplicateField { line_no, field: string_of(key) });
        }
        if i == 1 {
            let t = Self::parse_tx_type(key, value, line_no)?;
            self.tx_type = Some(t);
        } else if i == 6 {
            let s = Self::parse_status(key, value, line_no)?;
            self.status = Some(s);
        } else if i == 7 {
            let d = Self::parse_description(value, line_no)?;
            self.description = Some(d);
        } else {
            let n = Self::parse_u64(key, value, line_no)?;
            if i == 0 {
                self.tx_id = Some(n);
            } else if i == 2 {
                self.from_user_id = Some(n);
            } else if i == 3 {
                self.to_user_id = Some(n);
            } else if i == 4 {
                self.amount = Some(n);
            } else {
                self.timestamp = Some(n);
            }
        }
        Ok(())
    }

    /// Completes the record; `line_no` is where it started.
    pub fn build(self, line_no: usize) -> (res: Result<Transaction, ReaderError>)
        ensures
            match build_record(self@, line_no) {
                Ok(t) => res matches Ok(tx) && tx@ == t,
                Err(e) => res matches Err(err) && err@ == e,
            },
    {
        let mut missing: Vec<String> = Vec::new();
        let ghost b = self@;
        let mut i: usize = 0;
        while i < 8
            invariant
                i <= 8,
                b == self@,
                strings_view(missing@) == Self::missing_upto(b, i as int),
            decreases 8 - i,
        {
            let set = if i == 0 {
                self.tx_id.is_some()
            } else if i == 1 {
                self.tx_type.is_some()
            } else if i == 2 {
                self.from_user_id.is_some()
            } else if i == 3 {
                self.to_user_id.is_some()
            } else if i == 4 {
                self.amount.is_some()
            } else if i == 5 {
                self.timestamp.is_some()
            } else if i == 6 {
                self.status.is_some()
            } else {
                self.description.is_some()
            };
            proof {
                assert(strings_view(missing@) + name_if(!set, i as int) == Self::missing_upto(
                    b,
                    i + 1,
                ));
            }
            if !set {
                let name = field_str(i);
                let s = string_of(&chars_of(name));
                proof {
                    assert(strings_view(missing@.push(s)) =~= strings_view(missing@).push(s@));
                    assert(strings_view(missing@).push(s@) =~= strings_view(missing@) + name_if(
                        true,
                        i as int,
                    ));
                }
                missing.push(s);
            } else {
                assert(strings_view(missing@) + name_if(false, i as int) =~= strings_view(
                    missing@,
                ));
            }
            i += 1;
        }
        assert(Self::missing_upto(b, 8) =~= b.missing()) by {
            reveal_with_fuel(TransactionBuilder::missing_upto, 9);
        }
        if missing.len() > 0 {
            return Err(ReaderError::MissingFields { line_no, fields: missing });
        }
        match (
            self.tx_id,
            self.tx_type,
            self.from_user_id,
            self.to_user_id,
            self.amount,
            self.timestamp,
            self.status,
            self.description,
        ) {
            (
                Some(tx_id),
                Some(tx_type),
                Some(from_user_id),
                Some(to_user_id),
                Some(amount),
                Some(timestamp),
                Some(status),
                Some(description),
            ) => Ok(
                Transaction {
                    tx_id,
                    tx_type,
                    from_user_id,
                    to_user_id,
                    amount,
                    timestamp,
                    status,
                    description,
                },
            ),
            _ => {
                proof {
                    assert(b.missing().len() > 0);
                }
                Err(ReaderError::MissingFields { line_no, fields: missing })
            },
        }
    }

    /// The names of the unset fields among the first `n`.
    spec fn missing_upto(b: BuilderView, n: int) -> Seq<Seq<char>>
        decreases n,
    {
        if n <= 0 {
            seq![]
        } else {
            Self::missing_upto(b, n - 1) + name_if(!b.is_set(n - 1), n - 1)
        }
    }

    /// Parses a numeric field value.
    fn parse_u64(field: &[char], value: &[char], line_no: usize) -> (res: Result<u64, ReaderError>)
        ensures
            match parse_u64_value(value@) {
                Some(n) => res == Ok::<u64, ReaderError>(n),
                None => res matches Err(e) && e@ == (ReaderErrorView::InvalidFieldValue {
                    line_no,
                    field: field@,
                    value: value@,
                }),
            },
    {
        let r = parse_u64_range(value, 0, value.len());
        assert(value@.subrange(0, value@.len() as int) =~= value@);
        match r {
            Some(n) => Ok(n),
            None => Err(
                ReaderError::InvalidFieldValue {
                    line_no,
                    field: string_of(field),
                    value: string_of(value),
                },
            ),
        }
    }

    /// Parses a transaction type value.
    fn parse_tx_type(field: &[char], value: &[char], line_no: usize) -> (res: Result<
        TxType,
        ReaderError,
    >)
        ensures
            match TxType::from_name(trim(value@)) {
                Some(t) => res == Ok::<TxType, ReaderError>(t),
                None => res matches Err(e) && e@ == (ReaderErrorView::InvalidFieldValue {
                    line_no,
                    field: field@,
                    value: value@,
                }),
            },
    {
        let r = TxType::parse_range(value, 0, value.len());
        assert(value@.subrange(0, value@.len() as int) =~= value@);
        match r {
            Some(t) => Ok(t),
            None => Err(
                ReaderError::InvalidFieldValue {
                    line_no,
                    field: string_of(field),
                    value: string_of(value),
                },
            ),
        }
    }

    /// Parses a status value.
    fn parse_status(field: &[char], value: &[char], line_no: usize) -> (res: Result<
        TxStatus,
        ReaderError,
    >)
        ensures
            match TxStatus::from_name(trim(value@)) {
                Some(s) => res == Ok::<TxStatus, ReaderError>(s),
                None => res matches Err(e) && e@ == (ReaderErrorView::InvalidFieldValue {
                    line_no,
                    field: field@,
                    value: value@,
                }),
            },
    {
        let r = TxStatus::parse_range(value, 0, value.len());
        assert(value@.subrange(0, value@.len() as int) =~= value@);
        match r {
            Some(s) => Ok(s),
            None => Err(
                ReaderError::InvalidFieldValue {
                    line_no,
                    field: string_of(field),
                    value: string_of(value),
                },
            ),
        }
    }

    /// Checks that a description is enclosed in double quotes and keeps it whole.
    fn parse_description(value: &[char], line_no: usize) -> (res: Result<String, ReaderError>)
        ensures
            is_quoted(value@) ==> (res matches Ok(s) && s@ == value@),
            !is_quoted(value@) ==> (res matches Err(e) && e@ == (ReaderErrorView::InvalidRow {
                line_no,
                reason: broken_quotes_reason(),
            })),
    {
        let n = value.len();
        if n >= 2 && value[0] == '"' && value[n - 1] == '"' {
            Ok(string_of(value))
        } else {
            let mut reason = chars_of("broken quotes for ");
            let mut name = chars_of(field_str(7));
            reason.append(&mut name);
            Err(ReaderError::InvalidRow { line_no, reason: string_of(&reason) })
        }
    }
}

// ─────────────────────────────────────────────────────────────────────────
// Setting every field
// ─────────────────────────────────────────────────────────────────────────

/// Setting fields one after another on a new builder: the builder after the
/// first `k` calls `set(keys[j], values[j], lines[j])`, or the first error.
pub open spec fn set_all(
    keys: Seq<Seq<char>>,
    values: Seq<Seq<char>>,
    lines: Seq<usize>,
    k: int,
) -> Result<BuilderView, ReaderErrorView>
    decreases k,
{
    if k <= 0 {
        Ok(BuilderView::empty())
    } else {
        match set_all(keys, values, lines, k - 1) {
            Err(e) => Err(e),
            Ok(b) => set_field(b, keys[k - 1], values[k - 1], lines[k - 1]),
        }
    }
}

/// Whether field `key` of record `t` is what its text `value` gives: the
/// number it parses to, the type or status it names, or the description
/// itself.
pub open spec fn record_holds(t: TransactionView, key: Seq<char>, value: Seq<char>) -> bool {
    match field_index(key) {
        Some(i) => if i == 0 {
            parse_u64_value(value) == Some(t.tx_id)
        } else if i == 1 {
            TxType::from_name(trim(value)) == Some(t.tx_type)
        } else if i == 2 {
            parse_u64_value(value) == Some(t.from_user_id)
        } else if i == 3 {
            parse_u64_value(value) == Some(t.to_user_id)
        } else if i == 4 {
            parse_u64_value(value) == Some(t.amount)
        } else if i == 5 {
            parse_u64_value(value) == Some(t.timestamp)
        } else if i == 6 {
            TxStatus::from_name(trim(value)) == Some(t.status)
        } else {
            t.description == value
        },
        None => false,
    }
}

/// Whether field `i` of `b` is set to what its text `value` gives.
spec fn holds_value(b: BuilderView, i: int, value: Seq<char>) -> bool {
    if i == 0 {
        b.tx_id is Some && b.tx_id == parse_u64_value(value)
    } else if i == 1 {
        b.tx_type is Some && b.tx_type == TxType::from_name(trim(value))
    } else if i == 2 {
        b.from_user_id is Some && b.from_user_id == parse_u64_value(value)
    } else if i == 3 {
        b.to_user_id is Some && b.to_user_id == parse_u64_value(value)
    } else if i == 4 {
        b.amount is Some && b.amount == parse_u64_value(value)
    } else if i == 5 {
        b.timestamp is Some && b.timestamp == parse_u64_value(value)
    } else if i == 6 {
        b.status is Some && b.status == TxStatus::from_name(trim(value))
    } else {
        b.description == Some(value)
    }
}

/// Whether field `i` is the same in `a` and `b`.
spec fn same_field(a: BuilderView, b: BuilderView, i: int) -> bool {
    if i == 0 {
        a.tx_id == b.tx_id
    } else if i == 1 {
        a.tx_type == b.tx_type
    } else if i == 2 {
        a.from_user_id == b.from_user_id
    } else if i == 3 {
        a.to_user_id == b.to_user_id
    } else if i == 4 {
        a.amount == b.amount
    } else if i == 5 {
        a.timestamp == b.timestamp
    } else if i == 6 {
        a.status == b.status
    } else {
        a.description == b.description
    }
}

/// The number of fields set in `b`.
spec fn set_count(b: BuilderView) -> int {
    (if b.is_set(0) { 1int } else { 0int }) + (if b.is_set(1) { 1int } else { 0int }) + (if b.is_set(2) {
        1int
    } else {
        0int
    }) + (if b.is_set(3) { 1int } else { 0int }) + (if b.is_set(4) { 1int } else { 0int }) + (
    if b.is_set(5) {
        1int
    } else {
        0int
    }) + (if b.is_set(6) { 1int } else { 0int }) + (if b.is_set(7) { 1int } else { 0int })
}

/// A successful `set` sets one field that was not set, to what its value
/// gives, and leaves the others as they were.
proof fn lemma_set_step(b: BuilderView, key: Seq<char>, value: Seq<char>, line_no: usize, nb: BuilderView)
    requires
        set_field(b, key, value, line_no) == Ok::<BuilderView, ReaderErrorView>(nb),
    ensures
        field_index(key) is Some,
        0 <= field_index(key)->0 < 8,
        !b.is_set(field_index(key)->0),
        holds_value(nb, field_index(key)->0, value),
        set_count(nb) == set_count(b) + 1,
        forall|f: int| 0 <= f < 8 && f != field_index(key)->0 ==> #[trigger] same_field(b, nb, f),
{
}

/// After `k` successful calls, `k` fields are set, each to what its value gives.
proof fn lemma_set_all(
    keys: Seq<Seq<char>>,
    values: Seq<Seq<char>>,
    lines: Seq<usize>,
    k: int,
    b: BuilderView,
)
    requires
        0 <= k <= keys.len(),
        values.len() == keys.len(),
        lines.len() == keys.len(),
        set_all(keys, values, lines, k) == Ok::<BuilderView, ReaderErrorView>(b),
    ensures
        set_count(b) == k,
        forall|j: int|
            0 <= j < k ==> field_index(#[trigger] keys[j]) is Some && 0 <= field_index(keys[j])->0 < 8
                && holds_value(b, field_index(keys[j])->0, values[j]),
    decreases k,
{
    if k > 0 {
        match set_all(keys, values, lines, k - 1) {
            Err(e) => {},
            Ok(pb) => {
                lemma_set_all(keys, values, lines, k - 1, pb);
                lemma_set_step(pb, keys[k - 1], values[k - 1], lines[k - 1], b);
                let i = field_index(keys[k - 1])->0;
                assert forall|j: int| 0 <= j < k implies field_index(#[trigger] keys[j]) is Some && 0
                    <= field_index(keys[j])->0 < 8 && holds_value(
                    b,
                    field_index(keys[j])->0,
                    values[j],
                ) by {
                    if j < k - 1 {
                        let f = field_index(keys[j])->0;
                        assert(holds_value(pb, f, values[j]));
                        assert(pb.is_set(f));
                        assert(f != i);
                        assert(same_field(pb, b, f));
                    }
                }
            },
        }
    }
}

/// Setting all eight fields, in any order, one successful call each, and
/// then building gives the record of the values set, whatever line number
/// `build` is given.
pub proof fn lemma_build_after_all_fields(
    keys: Seq<Seq<char>>,
    values: Seq<Seq<char>>,
    lines: Seq<usize>,
    b: BuilderView,
    line_no: usize,
)
    requires
        keys.len() == 8,
        values.len() == 8,
        lines.len() == 8,
        set_all(keys, values, lines, 8) == Ok::<BuilderView, ReaderErrorView>(b),
    ensures
        build_record(b, line_no) matches Ok(t) && forall|j: int|
            0 <= j < 8 ==> record_holds(t, #[trigger] keys[j], values[j]),
{
    lemma_set_all(keys, values, lines, 8, b);
    assert(b.missing() =~= Seq::<Seq<char>>::empty());
    let t = build_record(b, line_no)->Ok_0;
    assert forall|j: int| 0 <= j < 8 implies record_holds(t, #[trigger] keys[j], values[j]) by {
        let f = field_index(keys[j])->0;
        assert(holds_value(b, f, values[j]));
    }
}

} // verus!
