//! The field names of the transaction schema, in the order of the CSV header.
use vstd::prelude::*;

verus! {

/// `TX_ID`: transaction identifier.
pub const TX_ID: &'static str = "TX_ID";

/// `TX_TYPE`: transaction type.
pub const TX_TYPE: &'static str = "TX_TYPE";

/// `FROM_USER_ID`: sender user identifier.
pub const FROM_USER_ID: &'static str = "FROM_USER_ID";

/// `TO_USER_ID`: receiver user identifier.
pub const TO_USER_ID: &'static str = "TO_USER_ID";

/// `AMOUNT`: transaction amount.
pub const AMOUNT: &'static str = "AMOUNT";

/// `TIMESTAMP`: Unix timestamp in milliseconds.
pub const TIMESTAMP: &'static str = "TIMESTAMP";

/// `STATUS`: execution status.
pub const STATUS: &'static str = "STATUS";

/// `DESCRIPTION`: free-text description.
pub const DESCRIPTION: &'static str = "DESCRIPTION";

/// All field names, in schema order.
pub const FIELDS_NAMES: [&'static str; 8] = [
    TX_ID,
    TX_TYPE,
    FROM_USER_ID,
    TO_USER_ID,
    AMOUNT,
    TIMESTAMP,
    STATUS,
    DESCRIPTION,
];

/// The number of fields in the schema.
pub open spec fn field_count() -> int {
    8
}

/// The name of field `i` (schema order).
pub open spec fn field_name(i: int) -> Seq<char> {
    if i == 0 {
        seq!['T', 'X', '_', 'I', 'D']
    } else if i == 1 {
        seq!['T', 'X', '_', 'T', 'Y', 'P', 'E']
    } else if i == 2 {
        seq!['F', 'R', 'O', 'M', '_', 'U', 'S', 'E', 'R', '_', 'I', 'D']
    } else if i == 3 {
        seq!['T', 'O', '_', 'U', 'S', 'E', 'R', '_', 'I', 'D']
    } else if i == 4 {
        seq!['A', 'M', 'O', 'U', 'N', 'T']
    } else if i == 5 {
        seq!['T', 'I', 'M', 'E', 'S', 'T', 'A', 'M', 'P']
    } else if i == 6 {
        seq!['S', 'T', 'A', 'T', 'U', 'S']
    } else {
        seq!['D', 'E', 'S', 'C', 'R', 'I', 'P', 'T', 'I', 'O', 'N']
    }
}

/// The index of the field named exactly `s`, if any.
pub open spec fn field_index(s: Seq<char>) -> Option<int> {
    if s == field_name(0) {
        Some(0)
    } else if s == field_name(1) {
        Some(1)
    } else if s == field_name(2) {
        Some(2)
    } else if s == field_name(3) {
        Some(3)
    } else if s == field_name(4) {
        Some(4)
    } else if s == field_name(5) {
        Some(5)
    } else if s == field_name(6) {
        Some(6)
    } else if s == field_name(7) {
        Some(7)
    } else {
        None
    }
}

/// Each field name is found at its own index.
pub proof fn lemma_field_index(i: int)
    requires
        0 <= i < 8,
    ensures
        field_index(field_name(i)) == Some(i),
{
    assert(field_name(4)[0] != field_name(6)[0]);
    assert(field_name(0).len() == 5);
    assert(field_name(1).len() == 7);
    assert(field_name(2).len() == 12);
    assert(field_name(3).len() == 10);
    assert(field_name(4).len() == 6);
    assert(field_name(5).len() == 9);
    assert(field_name(6).len() == 6);
    assert(field_name(7).len() == 11);
}

/// The name of field `i` as a string slice.
pub fn field_str(i: usize) -> (res: &'static str)
    requires
        i < 8,
    ensures
        res@ == field_name(i as int),
{
    proof {
        reveal_strlit("TX_ID");
        reveal_strlit("TX_TYPE");
        reveal_strlit("FROM_USER_ID");
        reveal_strlit("TO_USER_ID");
        reveal_strlit("AMOUNT");
        reveal_strlit("TIMESTAMP");
        reveal_strlit("STATUS");
        reveal_strlit("DESCRIPTION");
    }
    if i == 0 {
        TX_ID
    } else if i == 1 {
        TX_TYPE
    } else if i == 2 {
        FROM_USER_ID
    } else if i == 3 {
        TO_USER_ID
    } else if i == 4 {
        AMOUNT
    } else if i == 5 {
        TIMESTAMP
    } else if i == 6 {
        STATUS
    } else {
        DESCRIPTION
    }
}

} // verus!
