use ypbank::codec::txt::parse_kv;
use ypbank::{Decoder, Encoder, ReaderError, Transaction, TxStatus, TxType, Txt};

#[test]
fn txt_test_parse_kv_ok() {
    assert_eq!(parse_kv("TX_ID: 123"), Some(("TX_ID".to_string(), "123".to_string())));
    assert_eq!(
        parse_kv("DESCRIPTION: \"ABC\""),
        Some(("DESCRIPTION".to_string(), "\"ABC\"".to_string()))
    );
    assert_eq!(
        parse_kv("DESCRIPTION: \"ABC: CDE\""),
        Some(("DESCRIPTION".to_string(), "\"ABC: CDE\"".to_string()))
    );
}

#[test]
fn txt_parse_kv_ok_with_empty_quotes() {
    let line = "TX_ID: 123";
    let kv = parse_kv(line).unwrap();
    assert_eq!(kv, ("TX_ID".to_string(), "123".to_string()));

    let line = "DESCRIPTION: \"ABC\"";
    let kv = parse_kv(line).unwrap();
    assert_eq!(kv, ("DESCRIPTION".to_string(), "\"ABC\"".to_string()));

    let line = "DESCRIPTION: \"ABC: CDE\"";
    let kv = parse_kv(line).unwrap();
    assert_eq!(kv, ("DESCRIPTION".to_string(), "\"ABC: CDE\"".to_string()));

    let line = "DESCRIPTION: \"\"";
    let kv = parse_kv(line).unwrap();
    assert_eq!(kv, ("DESCRIPTION".to_string(), "\"\"".to_string()));
}

#[test]
fn test_parse_kv_invalid() {
    assert_eq!(parse_kv("TX_ID"), None);
    assert_eq!(parse_kv(":ABC"), None);
    assert_eq!(parse_kv("ABC:"), None);
    assert_eq!(parse_kv(":"), None);
    assert_eq!(parse_kv(""), None);
}

#[test]
fn test_parse_kv_empty() {
    let line = "TX_ID";
    let kv = parse_kv(line);
    assert_eq!(kv, None);

    let line = ":ABC";
    let kv = parse_kv(line);
    assert_eq!(kv, None);

    let line = "ABC:";
    let kv = parse_kv(line);
    assert_eq!(kv, None);

    let line = ":";
    let kv = parse_kv(line);
    assert_eq!(kv, None);
}

// ─────────────────────────────────────────────────────────────────────
// Decode: Success cases
// ─────────────────────────────────────────────────────────────────────
#[test]
fn decode_single_transaction() {
    let data = r#"TX_ID: 123
TX_TYPE: DEPOSIT
FROM_USER_ID: 0
TO_USER_ID: 456
AMOUNT: 10000
TIMESTAMP: 1633036800000
STATUS: SUCCESS
DESCRIPTION: "Test deposit"
"#;

    let result = Txt.decode(data.as_bytes());
    assert!(result.is_ok());

    if let Ok(txs) = result {
        assert_eq!(txs.len(), 1);
        assert_eq!(txs[0].tx_id, 123);
        assert_eq!(txs[0].tx_type, TxType::Deposit);
        assert_eq!(txs[0].from_user_id, 0);
        assert_eq!(txs[0].to_user_id, 456);
        assert_eq!(txs[0].amount, 10000);
        assert_eq!(txs[0].timestamp, 1633036800000);
        assert_eq!(txs[0].status, TxStatus::Success);
        assert_eq!(txs[0].description, "\"Test deposit\"");
    }
}

#[test]
fn decode_multiple_transactions() {
    let data = r#"TX_ID: 1
TX_TYPE: DEPOSIT
FROM_USER_ID: 0
TO_USER_ID: 100
AMOUNT: 1000
TIMESTAMP: 1000000
STATUS: SUCCESS
DESCRIPTION: "First"

TX_ID: 2
TX_TYPE: TRANSFER
FROM_USER_ID: 100
TO_USER_ID: 200
AMOUNT: 500
TIMESTAMP: 2000000
STATUS: PENDING
DESCRIPTION: "Second"

TX_ID: 3
TX_TYPE: WITHDRAWAL
FROM_USER_ID: 200
TO_USER_ID: 0
AMOUNT: 100
TIMESTAMP: 3000000
STATUS: FAILURE
DESCRIPTION: "Third"
"#;

    let result = Txt.decode(data.as_bytes());
    assert!(result.is_ok());

    if let Ok(txs) = result {
        assert_eq!(txs.len(), 3);
        assert_eq!(txs[0].tx_id, 1);
        assert_eq!(txs[0].tx_type, TxType::Deposit);
        assert_eq!(txs[1].tx_id, 2);
        assert_eq!(txs[1].tx_type, TxType::Transfer);
        assert_eq!(txs[1].status, TxStatus::Pending);
        assert_eq!(txs[2].tx_id, 3);
        assert_eq!(txs[2].tx_type, TxType::Withdrawal);
        assert_eq!(txs[2].status, TxStatus::Failure);
    }
}

#[test]
fn decode_with_comments() {
    let data = r#"# This is a comment
TX_ID: 123
# Another comment
TX_TYPE: DEPOSIT
FROM_USER_ID: 0
TO_USER_ID: 456
AMOUNT: 10000
TIMESTAMP: 1633036800000
STATUS: SUCCESS
DESCRIPTION: "Test"
# Trailing comment
"#;

    let result = Txt.decode(data.as_bytes());
    assert!(result.is_ok());

    if let Ok(txs) = result {
        assert_eq!(txs.len(), 1);
        assert_eq!(txs[0].tx_id, 123);
    }
}

#[test]
fn decode_with_multiple_empty_lines() {
    let data = r#"TX_ID: 1
TX_TYPE: DEPOSIT
FROM_USER_ID: 0
TO_USER_ID: 100
AMOUNT: 1000
TIMESTAMP: 1000000
STATUS: SUCCESS
DESCRIPTION: "First"

TX_ID: 2
TX_TYPE: TRANSFER
FROM_USER_ID: 100
TO_USER_ID: 200
AMOUNT: 500
TIMESTAMP: 2000000
STATUS: SUCCESS
DESCRIPTION: "Second"
"#;

    let result = Txt.decode(data.as_bytes());
    assert!(result.is_ok());

    if let Ok(txs) = result {
        assert_eq!(txs.len(), 2);
    }
}

#[test]
fn decode_fields_any_order() {
    let data = r#"DESCRIPTION: "Reversed order"
STATUS: SUCCESS
TIMESTAMP: 1633036800000
AMOUNT: 10000
TO_USER_ID: 456
FROM_USER_ID: 0
TX_TYPE: DEPOSIT
TX_ID: 123
"#;

    let result = Txt.decode(data.as_bytes());
    assert!(result.is_ok());

    if let Ok(txs) = result {
        assert_eq!(txs.len(), 1);
        assert_eq!(txs[0].tx_id, 123);
        assert_eq!(txs[0].tx_type, TxType::Deposit);
    }
}

#[test]
fn txt_decode_empty_file() {
    let data = "";
    let result = Txt.decode(data.as_bytes());
    assert!(result.is_ok());

    if let Ok(txs) = result {
        assert!(txs.is_empty());
    }
}

#[test]
fn decode_only_comments_and_empty_lines() {
    let data = r#"# Comment 1
# Comment 2

# Comment 3
"#;

    let result = Txt.decode(data.as_bytes());
    assert!(result.is_ok());

    if let Ok(txs) = result {
        assert!(txs.is_empty());
    }
}

#[test]
fn decode_no_trailing_newline() {
    let data = "TX_ID: 123
TX_TYPE: DEPOSIT
FROM_USER_ID: 0
TO_USER_ID: 456
AMOUNT: 10000
TIMESTAMP: 1633036800000
STATUS: SUCCESS
DESCRIPTION: \"Test\"";

    let result = Txt.decode(data.as_bytes());
    assert!(result.is_ok());

    if let Ok(txs) = result {
        assert_eq!(txs.len(), 1);
    }
}

#[test]
fn decode_description_with_colon() {
    let data = r#"TX_ID: 123
TX_TYPE: DEPOSIT
FROM_USER_ID: 0
TO_USER_ID: 456
AMOUNT: 10000
TIMESTAMP: 1633036800000
STATUS: SUCCESS
DESCRIPTION: "Key: Value inside"
"#;

    let result = Txt.decode(data.as_bytes());
    assert!(result.is_ok());

    if let Ok(txs) = result {
        assert_eq!(txs[0].description, "\"Key: Value inside\"");
    }
}

#[test]
fn decode_with_leading_empty_lines() {
    let data = r#"

TX_ID: 123
TX_TYPE: DEPOSIT
FROM_USER_ID: 0
TO_USER_ID: 456
AMOUNT: 10000
TIMESTAMP: 1633036800000
STATUS: SUCCESS
DESCRIPTION: "Test"
"#;

    let result = Txt.decode(data.as_bytes());
    assert!(result.is_ok());

    if let Ok(txs) = result {
        assert_eq!(txs.len(), 1);
    }
}

// ─────────────────────────────────────────────────────────────────────
// Decode: Error cases
// ─────────────────────────────────────────────────────────────────────
#[test]
fn decode_missing_field() {
    let data = r#"TX_ID: 123
TX_TYPE: DEPOSIT
FROM_USER_ID: 0
TO_USER_ID: 456
AMOUNT: 10000
TIMESTAMP: 1633036800000
STATUS: SUCCESS
"#;

    let result = Txt.decode(data.as_bytes());
    assert!(result.is_err());

    if let Err(ReaderError::MissingFields { fields, .. }) = result {
        assert!(fields.contains(&"DESCRIPTION".to_string()));
    } else {
        panic!("expected MissingFields");
    }
}

#[test]
fn decode_missing_multiple_fields() {
    let data = r#"TX_ID: 123
TX_TYPE: DEPOSIT
FROM_USER_ID: 0
"#;

    let result = Txt.decode(data.as_bytes());
    assert!(result.is_err());

    if let Err(ReaderError::MissingFields { fields, .. }) = result {
        assert!(fields.contains(&"TO_USER_ID".to_string()));
        assert!(fields.contains(&"AMOUNT".to_string()));
        assert!(fields.contains(&"TIMESTAMP".to_string()));
        assert!(fields.contains(&"STATUS".to_string()));
        assert!(fields.contains(&"DESCRIPTION".to_string()));
    } else {
        panic!("expected MissingFields");
    }
}

#[test]
fn decode_duplicate_field() {
    let data = r#"TX_ID: 123
TX_ID: 456
TX_TYPE: DEPOSIT
FROM_USER_ID: 0
TO_USER_ID: 456
AMOUNT: 10000
TIMESTAMP: 1633036800000
STATUS: SUCCESS
DESCRIPTION: "Test"
"#;

    let result = Txt.decode(data.as_bytes());
    assert!(result.is_err());

    if let Err(ReaderError::DuplicateField { field, .. }) = result {
        assert_eq!(field, "TX_ID");
    } else {
        panic!("expected DuplicateField");
    }
}

#[test]
fn decode_unknown_field() {
    let data = r#"TX_ID: 123
TX_TYPE: DEPOSIT
FROM_USER_ID: 0
TO_USER_ID: 456
AMOUNT: 10000
TIMESTAMP: 1633036800000
STATUS: SUCCESS
DESCRIPTION: "Test"
UNKNOWN_FIELD: value
"#;

    let result = Txt.decode(data.as_bytes());
    assert!(result.is_err());

    if let Err(ReaderError::UnknownField { field, .. }) = result {
        assert_eq!(field, "UNKNOWN_FIELD");
    } else {
        panic!("expected UnknownField");
    }
}

#[test]
fn decode_invalid_tx_id() {
    let data = r#"TX_ID: not_a_number
TX_TYPE: DEPOSIT
FROM_USER_ID: 0
TO_USER_ID: 456
AMOUNT: 10000
TIMESTAMP: 1633036800000
STATUS: SUCCESS
DESCRIPTION: "Test"
"#;

    let result = Txt.decode(data.as_bytes());
    assert!(result.is_err());

    assert!(matches!(
        result,
        Err(ReaderError::InvalidFieldValue { field, .. }) if field == "TX_ID"
    ));
}

#[test]
fn txt_decode_invalid_tx_type() {
    let data = r#"TX_ID: 123
TX_TYPE: INVALID
FROM_USER_ID: 0
TO_USER_ID: 456
AMOUNT: 10000
TIMESTAMP: 1633036800000
STATUS: SUCCESS
DESCRIPTION: "Test"
"#;

    let result = Txt.decode(data.as_bytes());
    assert!(result.is_err());

    assert!(matches!(
        result,
        Err(ReaderError::InvalidFieldValue { field, .. }) if field == "TX_TYPE"
    ));
}

#[test]
fn txt_decode_invalid_status() {
    let data = r#"TX_ID: 123
TX_TYPE: DEPOSIT
FROM_USER_ID: 0
TO_USER_ID: 456
AMOUNT: 10000
TIMESTAMP: 1633036800000
STATUS: UNKNOWN
DESCRIPTION: "Test"
"#;

    let result = Txt.decode(data.as_bytes());
    assert!(result.is_err());

    assert!(matches!(
        result,
        Err(ReaderError::InvalidFieldValue { field, .. }) if field == "STATUS"
    ));
}

#[test]
fn decode_invalid_amount_negative() {
    let data = r#"TX_ID: 123
TX_TYPE: DEPOSIT
FROM_USER_ID: 0
TO_USER_ID: 456
AMOUNT: -100
TIMESTAMP: 1633036800000
STATUS: SUCCESS
DESCRIPTION: "Test"
"#;

    let result = Txt.decode(data.as_bytes());
    assert!(result.is_err());

    assert!(matches!(
        result,
        Err(ReaderError::InvalidFieldValue { field, .. }) if field == "AMOUNT"
    ));
}

#[test]
fn decode_description_missing_quotes() {
    let data = r#"TX_ID: 123
TX_TYPE: DEPOSIT
FROM_USER_ID: 0
TO_USER_ID: 456
AMOUNT: 10000
TIMESTAMP: 1633036800000
STATUS: SUCCESS
DESCRIPTION: No quotes here
"#;

    let result = Txt.decode(data.as_bytes());
    assert!(result.is_err());

    assert!(matches!(
        result,
        Err(ReaderError::InvalidRow { reason, .. }) if reason.contains("DESCRIPTION")
    ));
}

#[test]
fn decode_description_missing_closing_quote() {
    let data = r#"TX_ID: 123
TX_TYPE: DEPOSIT
FROM_USER_ID: 0
TO_USER_ID: 456
AMOUNT: 10000
TIMESTAMP: 1633036800000
STATUS: SUCCESS
DESCRIPTION: "No closing quote
"#;

    let result = Txt.decode(data.as_bytes());
    assert!(result.is_err());
}

#[test]
fn decode_invalid_line_format() {
    let data = r#"TX_ID: 123
TX_TYPE: DEPOSIT
this is not a valid line
FROM_USER_ID: 0
TO_USER_ID: 456
AMOUNT: 10000
TIMESTAMP: 1633036800000
STATUS: SUCCESS
DESCRIPTION: "Test"
"#;

    let result = Txt.decode(data.as_bytes());
    assert!(result.is_err());

    assert!(matches!(result, Err(ReaderError::InvalidRow { .. })));
}

#[test]
fn decode_error_in_second_transaction() {
    let data = r#"TX_ID: 1
TX_TYPE: DEPOSIT
FROM_USER_ID: 0
TO_USER_ID: 100
AMOUNT: 1000
TIMESTAMP: 1000000
STATUS: SUCCESS
DESCRIPTION: "First"

TX_ID: invalid
TX_TYPE: DEPOSIT
FROM_USER_ID: 0
TO_USER_ID: 100
AMOUNT: 1000
TIMESTAMP: 1000000
STATUS: SUCCESS
DESCRIPTION: "Second"
"#;

    let result = Txt.decode(data.as_bytes());
    assert!(result.is_err());

    assert!(matches!(
        result,
        Err(ReaderError::InvalidFieldValue { field, .. }) if field == "TX_ID"
    ));
}

// ─────────────────────────────────────────────────────────────────────
// Encode: Success cases
// ─────────────────────────────────────────────────────────────────────
#[test]
fn txt_encode_single_transaction() {
    let txs = vec![Transaction {
        tx_id: 123,
        tx_type: TxType::Deposit,
        from_user_id: 0,
        to_user_id: 456,
        amount: 10000,
        timestamp: 1633036800000,
        status: TxStatus::Success,
        description: "\"Test deposit\"".to_string(),
    }];

    let mut buffer = Vec::new();
    let result = Txt.encode(&txs, &mut buffer);
    assert!(result.is_ok());

    let output = String::from_utf8(buffer);
    assert!(output.is_ok());

    if let Ok(s) = output {
        assert!(s.contains("TX_ID:123"));
        assert!(s.contains("TX_TYPE:DEPOSIT"));
        assert!(s.contains("AMOUNT:10000"));
        assert!(s.contains("DESCRIPTION:\"Test deposit\""));
    }
}

#[test]
fn txt_encode_empty_list() {
    let txs: Vec<Transaction> = vec![];

    let mut buffer = Vec::new();
    let result = Txt.encode(&txs, &mut buffer);
    assert!(result.is_ok());

    let output = String::from_utf8(buffer);
    assert!(output.is_ok());

    if let Ok(s) = output {
        assert!(s.is_empty());
    }
}

#[test]
fn encode_multiple_transactions() {
    let txs = vec![
        Transaction {
            tx_id: 1,
            tx_type: TxType::Deposit,
            from_user_id: 0,
            to_user_id: 100,
            amount: 1000,
            timestamp: 1000000,
            status: TxStatus::Success,
            description: "\"First\"".to_string(),
        },
        Transaction {
            tx_id: 2,
            tx_type: TxType::Transfer,
            from_user_id: 100,
            to_user_id: 200,
            amount: 500,
            timestamp: 2000000,
            status: TxStatus::Pending,
            description: "\"Second\"".to_string(),
        },
    ];

    let mut buffer = Vec::new();
    let result = Txt.encode(&txs, &mut buffer);
    assert!(result.is_ok());

    let output = String::from_utf8(buffer);
    assert!(output.is_ok());

    if let Ok(s) = output {
        assert!(s.contains("TX_ID:1"));
        assert!(s.contains("TX_ID:2"));
        assert!(s.contains("TX_TYPE:DEPOSIT"));
        assert!(s.contains("TX_TYPE:TRANSFER"));
    }
}

// ─────────────────────────────────────────────────────────────────────
// Roundtrip
// ─────────────────────────────────────────────────────────────────────
#[test]
fn txt_encode_decode_roundtrip() {
    let sent = vec![
        Transaction {
            tx_id: 1001,
            tx_type: TxType::Deposit,
            from_user_id: 0,
            to_user_id: 501,
            amount: 50000,
            timestamp: 1672531200000,
            status: TxStatus::Success,
            description: "\"Initial funding\"".to_string(),
        },
        Transaction {
            tx_id: 1002,
            tx_type: TxType::Transfer,
            from_user_id: 501,
            to_user_id: 502,
            amount: 15000,
            timestamp: 1672534800000,
            status: TxStatus::Failure,
            description: "\"Payment: invoice #123\"".to_string(),
        },
    ];

    let mut buffer = Vec::new();
    let encode_result = Txt.encode(&sent, &mut buffer);
    assert!(encode_result.is_ok());

    let decode_result = Txt.decode(&buffer);
    assert!(decode_result.is_ok());

    if let Ok(decoded) = decode_result {
        assert_eq!(sent, decoded);
    }
}

#[test]
fn encode_decode_all_tx_types() {
    for tx_type in [TxType::Deposit, TxType::Transfer, TxType::Withdrawal] {
        let sent = vec![Transaction {
            tx_id: 1,
            tx_type,
            from_user_id: 0,
            to_user_id: 100,
            amount: 1000,
            timestamp: 1000000,
            status: TxStatus::Success,
            description: "\"Test\"".to_string(),
        }];

        let mut buffer = Vec::new();
        assert!(Txt.encode(&sent, &mut buffer).is_ok());

        let decode_result = Txt.decode(&buffer);
        assert!(decode_result.is_ok());

        if let Ok(decoded) = decode_result {
            assert_eq!(decoded[0].tx_type, tx_type);
        }
    }
}

#[test]
fn encode_decode_all_statuses() {
    for status in [TxStatus::Success, TxStatus::Failure, TxStatus::Pending] {
        let sent = vec![Transaction {
            tx_id: 1,
            tx_type: TxType::Deposit,
            from_user_id: 0,
            to_user_id: 100,
            amount: 1000,
            timestamp: 1000000,
            status,
            description: "\"Test\"".to_string(),
        }];

        let mut buffer = Vec::new();
        assert!(Txt.encode(&sent, &mut buffer).is_ok());

        let decode_result = Txt.decode(&buffer);
        assert!(decode_result.is_ok());

        if let Ok(decoded) = decode_result {
            assert_eq!(decoded[0].status, status);
        }
    }
}

// ─────────────────────────────────────────────────────────────────────────
// Further cases
// ─────────────────────────────────────────────────────────────────────────

#[test]
fn txt_exact_text() {
    let txs = vec![Transaction {
        tx_id: 1,
        tx_type: TxType::Withdrawal,
        from_user_id: 2,
        to_user_id: 3,
        amount: 4,
        timestamp: 5,
        status: TxStatus::Failure,
        description: "\"d\"".to_string(),
    }];
    let mut buffer = Vec::new();
    Txt.encode(&txs, &mut buffer).unwrap();
    assert_eq!(
        String::from_utf8(buffer).unwrap(),
        "TX_ID:1\nTX_TYPE:WITHDRAWAL\nFROM_USER_ID:2\nTO_USER_ID:3\nAMOUNT:4\nTIMESTAMP:5\nSTATUS:FAILURE\nDESCRIPTION:\"d\"\n\n\n"
    );
}

#[test]
fn txt_record_line_numbers() {
    let data = "\n# note\nTX_ID: 1\nTX_TYPE: DEPOSIT\n";
    match Txt.decode(data.as_bytes()) {
        Err(ReaderError::MissingFields { line_no, fields }) => {
            assert_eq!(line_no, 3);
            assert_eq!(
                fields,
                vec!["FROM_USER_ID", "TO_USER_ID", "AMOUNT", "TIMESTAMP", "STATUS", "DESCRIPTION"]
            );
        }
        other => panic!("unexpected {:?}", other),
    }
}

#[test]
fn txt_invalid_line_error() {
    let data = "TX_ID: 1\n  no colon here  \n";
    match Txt.decode(data.as_bytes()) {
        Err(ReaderError::InvalidRow { line_no, reason }) => {
            assert_eq!(line_no, 2);
            assert_eq!(reason, "no colon here");
        }
        other => panic!("unexpected {:?}", other),
    }
}

#[test]
fn txt_crlf_lines() {
    let data = "TX_ID: 1\r\nTX_TYPE: DEPOSIT\r\nFROM_USER_ID: 0\r\nTO_USER_ID: 2\r\nAMOUNT: 3\r\nTIMESTAMP: 4\r\nSTATUS: PENDING\r\nDESCRIPTION: \"x\"\r\n";
    let txs = Txt.decode(data.as_bytes()).unwrap();
    assert_eq!(txs.len(), 1);
    assert_eq!(txs[0].status, TxStatus::Pending);
    assert_eq!(txs[0].description, "\"x\"");
}

#[test]
fn txt_parse_kv_splits_at_first_colon() {
    assert_eq!(parse_kv("  A : b : c  "), Some(("A".to_string(), "b : c".to_string())));
}

#[test]
fn txt_line_numbers_count_from_one() {
    let data = "TX_ID: 123\nTX_TYPE: DEPOSIT\nthis is not a valid line\nFROM_USER_ID: 0\nTO_USER_ID: 456\nAMOUNT: 10000\nTIMESTAMP: 1633036800000\nSTATUS: SUCCESS\nDESCRIPTION: \"Test\"\n";
    match Txt.decode(data.as_bytes()) {
        Err(ReaderError::InvalidRow { line_no, reason }) => {
            assert_eq!(line_no, 3);
            assert_eq!(reason, "this is not a valid line");
        }
        other => panic!("unexpected {:?}", other),
    }
    let data = "TX_ID: 1\nTX_ID: 2\n";
    assert!(matches!(
        Txt.decode(data.as_bytes()),
        Err(ReaderError::DuplicateField { line_no: 2, .. })
    ));
}

#[test]
fn txt_comments_and_blank_lines_change_nothing() {
    let plain = "TX_ID: 1\nTX_TYPE: DEPOSIT\nFROM_USER_ID: 0\nTO_USER_ID: 2\nAMOUNT: 3\nTIMESTAMP: 4\nSTATUS: SUCCESS\nDESCRIPTION: \"a\"\n\nTX_ID: 5\nTX_TYPE: TRANSFER\nFROM_USER_ID: 6\nTO_USER_ID: 7\nAMOUNT: 8\nTIMESTAMP: 9\nSTATUS: PENDING\nDESCRIPTION: \"b\"\n";
    let padded = "  \n# head\nTX_ID: 1\nTX_TYPE: DEPOSIT\n  # inside\nFROM_USER_ID: 0\nTO_USER_ID: 2\nAMOUNT: 3\nTIMESTAMP: 4\nSTATUS: SUCCESS\nDESCRIPTION: \"a\"\n\n\t\n# between\nTX_ID: 5\nTX_TYPE: TRANSFER\nFROM_USER_ID: 6\nTO_USER_ID: 7\nAMOUNT: 8\nTIMESTAMP: 9\nSTATUS: PENDING\nDESCRIPTION: \"b\"\n\n# tail\n";
    let a = Txt.decode(plain.as_bytes()).unwrap();
    assert_eq!(a.len(), 2);
    assert_eq!(Txt.decode(padded.as_bytes()).unwrap(), a);
    assert!(Txt.decode(b"# only\n\n  \n").unwrap().is_empty());
}
