use ypbank::transaction::schema;
use ypbank::transaction::TransactionBuilder;
use ypbank::{ReaderError, TxStatus, TxType};

fn complete_builder() -> TransactionBuilder {
    let mut b = TransactionBuilder::new();
    let _ = b.set(schema::TX_ID, "1234567890", 0);
    let _ = b.set(schema::TX_TYPE, "DEPOSIT", 0);
    let _ = b.set(schema::FROM_USER_ID, "0", 0);
    let _ = b.set(schema::TO_USER_ID, "9876543210", 0);
    let _ = b.set(schema::AMOUNT, "10000", 0);
    let _ = b.set(schema::TIMESTAMP, "1633036800000", 0);
    let _ = b.set(schema::STATUS, "SUCCESS", 0);
    let _ = b.set(schema::DESCRIPTION, "\"Test deposit\"", 0);
    b
}

#[test]
fn build_complete_transaction() {
    let result = complete_builder().build(0);
    assert!(result.is_ok());

    let tx = match result {
        Ok(tx) => tx,
        Err(_) => return,
    };

    assert_eq!(tx.tx_id, 1234567890);
    assert_eq!(tx.tx_type, TxType::Deposit);
    assert_eq!(tx.from_user_id, 0);
    assert_eq!(tx.to_user_id, 9876543210);
    assert_eq!(tx.amount, 10000);
    assert_eq!(tx.timestamp, 1633036800000);
    assert_eq!(tx.status, TxStatus::Success);
    assert_eq!(tx.description, "\"Test deposit\"");
}

#[test]
fn build_all_tx_types() {
    for (s, expected) in [
        ("DEPOSIT", TxType::Deposit),
        ("TRANSFER", TxType::Transfer),
        ("WITHDRAWAL", TxType::Withdrawal),
    ] {
        let mut b = TransactionBuilder::new();
        assert!(b.set(schema::TX_ID, "123", 0).is_ok());
        assert!(b.set(schema::TX_TYPE, s, 0).is_ok());
        assert!(b.set(schema::FROM_USER_ID, "0", 0).is_ok());
        assert!(b.set(schema::TO_USER_ID, "456", 0).is_ok());
        assert!(b.set(schema::AMOUNT, "100", 0).is_ok());
        assert!(b.set(schema::TIMESTAMP, "1000", 0).is_ok());
        assert!(b.set(schema::STATUS, "SUCCESS", 0).is_ok());
        assert!(b.set(schema::DESCRIPTION, "\"test\"", 0).is_ok());

        let result = b.build(0);
        assert!(result.is_ok());

        if let Ok(tx) = result {
            assert_eq!(tx.tx_type, expected);
        }
    }
}

#[test]
fn build_all_statuses() {
    for (s, expected) in [
        ("SUCCESS", TxStatus::Success),
        ("FAILURE", TxStatus::Failure),
        ("PENDING", TxStatus::Pending),
    ] {
        let mut b = TransactionBuilder::new();
        assert!(b.set(schema::TX_ID, "123", 0).is_ok());
        assert!(b.set(schema::TX_TYPE, "DEPOSIT", 0).is_ok());
        assert!(b.set(schema::FROM_USER_ID, "0", 0).is_ok());
        assert!(b.set(schema::TO_USER_ID, "456", 0).is_ok());
        assert!(b.set(schema::AMOUNT, "100", 0).is_ok());
        assert!(b.set(schema::TIMESTAMP, "1000", 0).is_ok());
        assert!(b.set(schema::STATUS, s, 0).is_ok());
        assert!(b.set(schema::DESCRIPTION, "\"test\"", 0).is_ok());

        let result = b.build(0);
        assert!(result.is_ok());

        if let Ok(tx) = result {
            assert_eq!(tx.status, expected);
        }
    }
}

#[test]
fn set_duplicate_field_error() {
    let mut b = TransactionBuilder::new();
    assert!(b.set(schema::TX_ID, "123", 0).is_ok());

    let err = b.set(schema::TX_ID, "456", 5);
    assert!(err.is_err());

    if let Err(ReaderError::DuplicateField { line_no, field }) = err {
        assert_eq!(line_no, 5);
        assert_eq!(field, schema::TX_ID);
    } else {
        panic!("expected DuplicateField");
    }
}

#[test]
fn set_duplicate_all_fields() {
    for field_name in schema::FIELDS_NAMES {
        let mut b = complete_builder();
        let err = b.set(field_name, "\"test\"", 10);

        assert!(
            matches!(&err, Err(ReaderError::DuplicateField { field, .. }) if field == field_name),
            "expected DuplicateField for {}, got {:?}",
            field_name,
            err
        );
    }
}

// ─────────────────────────────────────────────────────────────────────
// Missing fields
// ─────────────────────────────────────────────────────────────────────
#[test]
fn build_empty_reports_all_missing() {
    let b = TransactionBuilder::new();
    let err = b.build(42);
    assert!(err.is_err());

    if let Err(ReaderError::MissingFields { line_no, fields }) = err {
        assert_eq!(line_no, 42);
        assert_eq!(fields.len(), 8);
        assert!(fields.contains(&schema::TX_ID.to_string()));
        assert!(fields.contains(&schema::DESCRIPTION.to_string()));
    } else {
        panic!("expected MissingFields");
    }
}

#[test]
fn build_partial_reports_missing() {
    let mut b = TransactionBuilder::new();
    assert!(b.set(schema::TX_ID, "123", 0).is_ok());
    assert!(b.set(schema::TX_TYPE, "DEPOSIT", 0).is_ok());

    let err = b.build(5);
    assert!(err.is_err());

    if let Err(ReaderError::MissingFields { line_no, fields }) = err {
        assert_eq!(line_no, 5);
        assert_eq!(fields.len(), 6);
        assert!(!fields.contains(&schema::TX_ID.to_string()));
        assert!(!fields.contains(&schema::TX_TYPE.to_string()));
        assert!(fields.contains(&schema::AMOUNT.to_string()));
    } else {
        panic!("expected MissingFields");
    }
}

// ─────────────────────────────────────────────────────────────────────
// Unknown field
// ─────────────────────────────────────────────────────────────────────
#[test]
fn set_unknown_field_error() {
    let mut b = TransactionBuilder::new();
    let err = b.set("UNKNOWN_FIELD", "value", 10);
    assert!(err.is_err());

    if let Err(ReaderError::UnknownField { line_no, field }) = err {
        assert_eq!(line_no, 10);
        assert_eq!(field, "UNKNOWN_FIELD");
    } else {
        panic!("expected UnknownField");
    }
}

// ─────────────────────────────────────────────────────────────────────
// Invalid u64 values
// ─────────────────────────────────────────────────────────────────────
#[test]
fn set_invalid_u64_negative() {
    let mut b = TransactionBuilder::new();
    let err = b.set(schema::TX_ID, "-1", 3);
    assert!(err.is_err());

    if let Err(ReaderError::InvalidFieldValue {
        line_no,
        field,
        value,
    }) = err
    {
        assert_eq!(line_no, 3);
        assert_eq!(field, schema::TX_ID);
        assert_eq!(value, "-1");
    } else {
        panic!("expected InvalidFieldValue");
    }
}

#[test]
fn set_invalid_u64_overflow() {
    let mut b = TransactionBuilder::new();
    let err = b.set(schema::AMOUNT, "18446744073709551616", 0);

    assert!(matches!(
        err,
        Err(ReaderError::InvalidFieldValue { field, .. }) if field == schema::AMOUNT
    ));
}

#[test]
fn set_invalid_u64_non_numeric() {
    let mut b = TransactionBuilder::new();
    let err = b.set(schema::TIMESTAMP, "abc", 0);

    assert!(matches!(
        err,
        Err(ReaderError::InvalidFieldValue { field, .. }) if field == schema::TIMESTAMP
    ));
}

// ─────────────────────────────────────────────────────────────────────
// Invalid TX_TYPE
// ─────────────────────────────────────────────────────────────────────
#[test]
fn set_invalid_tx_type() {
    let mut b = TransactionBuilder::new();
    let err = b.set(schema::TX_TYPE, "INVALID", 7);
    assert!(err.is_err());

    if let Err(ReaderError::InvalidFieldValue {
        line_no,
        field,
        value,
    }) = err
    {
        assert_eq!(line_no, 7);
        assert_eq!(field, schema::TX_TYPE);
        assert_eq!(value, "INVALID");
    } else {
        panic!("expected InvalidFieldValue");
    }
}

#[test]
fn set_tx_type_case_sensitive() {
    let mut b = TransactionBuilder::new();
    assert!(b.set(schema::TX_TYPE, "Deposit", 0).is_err());

    let mut b2 = TransactionBuilder::new();
    assert!(b2.set(schema::TX_TYPE, "deposit", 0).is_err());
}

// ─────────────────────────────────────────────────────────────────────
// Invalid STATUS
// ─────────────────────────────────────────────────────────────────────
#[test]
fn set_invalid_status() {
    let mut b = TransactionBuilder::new();
    let err = b.set(schema::STATUS, "UNKNOWN", 0);

    assert!(matches!(
        err,
        Err(ReaderError::InvalidFieldValue { field, .. }) if field == schema::STATUS
    ));
}

// ─────────────────────────────────────────────────────────────────────
// Invalid DESCRIPTION (quotes)
// ─────────────────────────────────────────────────────────────────────
#[test]
fn set_description_valid_quotes() {
    for desc in ["\"hello\"", "\"\"", "\" \"", "\"a, b: c\""] {
        let mut b = TransactionBuilder::new();
        assert!(b.set(schema::DESCRIPTION, desc, 0).is_ok());
    }
}

#[test]
fn set_description_missing_quotes() {
    let mut b = TransactionBuilder::new();
    let err = b.set(schema::DESCRIPTION, "no quotes", 0);

    assert!(matches!(
        &err,
        Err(ReaderError::InvalidRow { reason, .. }) if reason.contains(schema::DESCRIPTION)
    ));
}

#[test]
fn set_description_missing_opening_quote() {
    let mut b = TransactionBuilder::new();
    assert!(b.set(schema::DESCRIPTION, "hello\"", 0).is_err());
}

#[test]
fn set_description_missing_closing_quote() {
    let mut b = TransactionBuilder::new();
    assert!(b.set(schema::DESCRIPTION, "\"hello", 0).is_err());
}

#[test]
fn set_description_single_quote() {
    let mut b = TransactionBuilder::new();
    assert!(b.set(schema::DESCRIPTION, "\"", 0).is_err());
}

// ─────────────────────────────────────────────────────────────────────
// Line number propagation
// ─────────────────────────────────────────────────────────────────────
#[test]
fn line_no_in_set_error() {
    let mut b = TransactionBuilder::new();
    let err = b.set(schema::TX_ID, "bad", 123);

    if let Err(ReaderError::InvalidFieldValue { line_no, .. }) = err {
        assert_eq!(line_no, 123);
    } else {
        panic!("wrong error type");
    }
}

#[test]
fn line_no_in_build_error() {
    let b = TransactionBuilder::new();
    let err = b.build(456);

    if let Err(ReaderError::MissingFields { line_no, .. }) = err {
        assert_eq!(line_no, 456);
    } else {
        panic!("wrong error type");
    }
}

// ─────────────────────────────────────────────────────────────────────────
// Further cases
// ─────────────────────────────────────────────────────────────────────────

#[test]
fn builder_duplicate_keeps_first_value() {
    let mut b = complete_builder();
    assert!(b.set(schema::TX_ID, "1", 0).is_err());
    assert_eq!(b.build(0).unwrap().tx_id, 1234567890);
}

#[test]
fn builder_missing_fields_in_schema_order() {
    let mut b = TransactionBuilder::new();
    assert!(b.set(schema::STATUS, "PENDING", 0).is_ok());
    assert!(b.set(schema::FROM_USER_ID, "1", 0).is_ok());
    match b.build(9) {
        Err(ReaderError::MissingFields { line_no, fields }) => {
            assert_eq!(line_no, 9);
            assert_eq!(
                fields,
                vec!["TX_ID", "TX_TYPE", "TO_USER_ID", "AMOUNT", "TIMESTAMP", "DESCRIPTION"]
            );
        }
        other => panic!("unexpected {:?}", other),
    }
}

#[test]
fn builder_description_error_reason() {
    let mut b = TransactionBuilder::new();
    match b.set(schema::DESCRIPTION, "\"", 4) {
        Err(ReaderError::InvalidRow { line_no, reason }) => {
            assert_eq!(line_no, 4);
            assert_eq!(reason, "broken quotes for DESCRIPTION");
        }
        other => panic!("unexpected {:?}", other),
    }
}

#[test]
fn builder_numbers_as_str_parse() {
    let mut b = TransactionBuilder::new();
    assert!(b.set(schema::AMOUNT, "+42", 0).is_ok());
    assert!(b.set(schema::TX_ID, " 1", 0).is_err());
    assert!(b.set(schema::TX_ID, "", 0).is_err());
    assert!(b.set(schema::TX_ID, "+", 0).is_err());
}

#[test]
fn builder_type_name_whitespace_is_ignored() {
    let mut b = TransactionBuilder::new();
    assert!(b.set(schema::TX_TYPE, " TRANSFER ", 0).is_ok());
}

#[test]
fn builder_fields_in_any_order() {
    let mut b = TransactionBuilder::new();
    let fields = [
        (schema::DESCRIPTION, "\"d\""),
        (schema::STATUS, " FAILURE "),
        (schema::TIMESTAMP, "4"),
        (schema::AMOUNT, "+3"),
        (schema::TO_USER_ID, "2"),
        (schema::FROM_USER_ID, "1"),
        (schema::TX_TYPE, "TRANSFER"),
        (schema::TX_ID, "9"),
    ];
    for (i, (k, v)) in fields.iter().enumerate() {
        assert!(b.set(k, v, i * 10).is_ok());
    }
    let tx = b.build(77).unwrap();
    assert_eq!(tx.tx_id, 9);
    assert_eq!(tx.tx_type, TxType::Transfer);
    assert_eq!(tx.from_user_id, 1);
    assert_eq!(tx.to_user_id, 2);
    assert_eq!(tx.amount, 3);
    assert_eq!(tx.timestamp, 4);
    assert_eq!(tx.status, TxStatus::Failure);
    assert_eq!(tx.description, "\"d\"");
}
