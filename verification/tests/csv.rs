use ypbank::codec::csv::{is_blank, parse_line, split_fields, validate_header};
use ypbank::csv::Csv as BareCsv;
use ypbank::{Csv, Decoder, Encoder, ReaderError, Transaction, TransactionDecoder, TxStatus, TxType};

const HEADER: &str = "TX_ID,TX_TYPE,FROM_USER_ID,TO_USER_ID,AMOUNT,TIMESTAMP,STATUS,DESCRIPTION";

fn encode_text(txs: &[Transaction]) -> String {
    let mut buffer = Vec::new();
    Csv.encode(txs, &mut buffer).unwrap();
    String::from_utf8(buffer).unwrap()
}

#[test]
fn csv_test_is_blank() {
    assert!(is_blank(""));
    assert!(is_blank("   "));
    assert!(is_blank("\t\n"));
    assert!(!is_blank("x"));
    assert!(!is_blank(" x "));
}

#[test]
fn csv_test_validate_header_ok() {
    let header = "TX_ID,TX_TYPE,FROM_USER_ID,TO_USER_ID,AMOUNT,TIMESTAMP,STATUS,DESCRIPTION\n";
    assert!(validate_header(header).is_ok());
}

#[test]
fn test_validate_header_ok_no_newline() {
    let header = "TX_ID,TX_TYPE,FROM_USER_ID,TO_USER_ID,AMOUNT,TIMESTAMP,STATUS,DESCRIPTION";
    assert!(validate_header(header).is_ok());
}

#[test]
fn csv_test_validate_header_wrong() {
    let header = "WRONG,HEADER\n";
    assert!(matches!(validate_header(header), Err(ReaderError::InvalidCsvHeader { .. })));
}

#[test]
fn test_validate_header_wrong_order() {
    let header = "TX_TYPE,TX_ID,FROM_USER_ID,TO_USER_ID,AMOUNT,TIMESTAMP,STATUS,DESCRIPTION\n";
    assert!(matches!(validate_header(header), Err(ReaderError::InvalidCsvHeader { .. })));
}

#[test]
fn test_split_fields_ok() {
    let line = r#"1002,TRANSFER,501,502,15000,1672534800000,FAILURE,"Payment, invoice #123""#;
    let result = split_fields(line, 0);
    assert!(result.is_ok());

    if let Ok((fields, desc)) = result {
        assert_eq!(fields[0], "1002");
        assert_eq!(fields[1], "TRANSFER");
        assert_eq!(fields[6], "FAILURE");
        assert_eq!(desc, "Payment, invoice #123");
    }
}

#[test]
fn test_split_fields_no_quotes() {
    let line = "1001,DEPOSIT,0,501,50000,1672531200000,SUCCESS,No quotes";
    assert!(matches!(split_fields(line, 0), Err(ReaderError::InvalidRow { .. })));
}

#[test]
fn test_split_fields_missing_closing_quote() {
    let line = r#"1001,DEPOSIT,0,501,50000,1672531200000,SUCCESS,"No closing"#;
    assert!(matches!(split_fields(line, 0), Err(ReaderError::InvalidRow { .. })));
}

#[test]
fn test_split_fields_wrong_field_count() {
    let line = r#"1001,DEPOSIT,0,501,50000,"Missing two fields""#;
    let result = split_fields(line, 5);

    if let Err(ReaderError::InvalidRow { line_no, reason }) = result {
        assert_eq!(line_no, 5);
        assert!(reason.contains("expected 7"));
    } else {
        panic!("expected InvalidRow");
    }
}

#[test]
fn decode_single_row() {
    let data = r#"TX_ID,TX_TYPE,FROM_USER_ID,TO_USER_ID,AMOUNT,TIMESTAMP,STATUS,DESCRIPTION
1001,DEPOSIT,0,501,50000,1672531200000,SUCCESS,"Initial funding"
"#;

    let result = Csv.decode(data.as_bytes());
    assert!(result.is_ok());

    if let Ok(txs) = result {
        assert_eq!(txs.len(), 1);
        assert_eq!(txs[0].tx_id, 1001);
        assert_eq!(txs[0].tx_type, TxType::Deposit);
        assert_eq!(txs[0].status, TxStatus::Success);
    }
}

#[test]
fn decode_multiple_rows() {
    let data = r#"TX_ID,TX_TYPE,FROM_USER_ID,TO_USER_ID,AMOUNT,TIMESTAMP,STATUS,DESCRIPTION
1001,DEPOSIT,0,501,50000,1672531200000,SUCCESS,"First"
1002,TRANSFER,501,502,15000,1672534800000,FAILURE,"Second"
1003,WITHDRAWAL,502,0,1000,1672538400000,PENDING,"Third"
"#;

    let result = Csv.decode(data.as_bytes());
    assert!(result.is_ok());

    if let Ok(txs) = result {
        assert_eq!(txs.len(), 3);
        assert_eq!(txs[0].tx_type, TxType::Deposit);
        assert_eq!(txs[1].tx_type, TxType::Transfer);
        assert_eq!(txs[2].tx_type, TxType::Withdrawal);
    }
}

#[test]
fn decode_description_with_comma() {
    let data = r#"TX_ID,TX_TYPE,FROM_USER_ID,TO_USER_ID,AMOUNT,TIMESTAMP,STATUS,DESCRIPTION
1001,DEPOSIT,0,501,50000,1672531200000,SUCCESS,"Payment for services, invoice #123"
"#;

    let result = Csv.decode(data.as_bytes());
    assert!(result.is_ok());

    if let Ok(txs) = result {
        assert_eq!(txs[0].description, "\"Payment for services, invoice #123\"");
    }
}

#[test]
fn decode_with_empty_lines() {
    let data = r#"TX_ID,TX_TYPE,FROM_USER_ID,TO_USER_ID,AMOUNT,TIMESTAMP,STATUS,DESCRIPTION
1001,DEPOSIT,0,501,50000,1672531200000,SUCCESS,"First"

1002,TRANSFER,501,502,15000,1672534800000,SUCCESS,"Second"

"#;

    let result = Csv.decode(data.as_bytes());
    assert!(result.is_ok());

    if let Ok(txs) = result {
        assert_eq!(txs.len(), 2);
    }
}

#[test]
fn decode_header_only() {
    let data = "TX_ID,TX_TYPE,FROM_USER_ID,TO_USER_ID,AMOUNT,TIMESTAMP,STATUS,DESCRIPTION\n";

    let result = Csv.decode(data.as_bytes());
    assert!(result.is_ok());

    if let Ok(txs) = result {
        assert!(txs.is_empty());
    }
}

#[test]
fn csv_decode_invalid_header() {
    let data = "WRONG,HEADER\n1,2,3\n";
    let result = Csv.decode(data.as_bytes());
    assert!(matches!(result, Err(ReaderError::InvalidCsvHeader { .. })));
}

#[test]
fn csv_decode_empty_file() {
    let data = "";
    let result = Csv.decode(data.as_bytes());
    assert!(matches!(result, Err(ReaderError::InvalidCsvHeader { .. })));
}

#[test]
fn csv_decode_invalid_tx_type() {
    let data = r#"TX_ID,TX_TYPE,FROM_USER_ID,TO_USER_ID,AMOUNT,TIMESTAMP,STATUS,DESCRIPTION
1001,INVALID,0,501,50000,1672531200000,SUCCESS,"Test"
"#;
    let result = Csv.decode(data.as_bytes());
    assert!(matches!(
        result,
        Err(ReaderError::InvalidFieldValue { field, .. }) if field == "TX_TYPE"
    ));
}

#[test]
fn csv_decode_invalid_status() {
    let data = r#"TX_ID,TX_TYPE,FROM_USER_ID,TO_USER_ID,AMOUNT,TIMESTAMP,STATUS,DESCRIPTION
1001,DEPOSIT,0,501,50000,1672531200000,UNKNOWN,"Test"
"#;
    let result = Csv.decode(data.as_bytes());
    assert!(matches!(
        result,
        Err(ReaderError::InvalidFieldValue { field, .. }) if field == "STATUS"
    ));
}

#[test]
fn csv_decode_invalid_amount() {
    let data = r#"TX_ID,TX_TYPE,FROM_USER_ID,TO_USER_ID,AMOUNT,TIMESTAMP,STATUS,DESCRIPTION
1001,DEPOSIT,0,501,-100,1672531200000,SUCCESS,"Test"
"#;
    let result = Csv.decode(data.as_bytes());
    assert!(matches!(
        result,
        Err(ReaderError::InvalidFieldValue { field, .. }) if field == "AMOUNT"
    ));
}

#[test]
fn decode_missing_quotes() {
    let data = r#"TX_ID,TX_TYPE,FROM_USER_ID,TO_USER_ID,AMOUNT,TIMESTAMP,STATUS,DESCRIPTION
1001,DEPOSIT,0,501,50000,1672531200000,SUCCESS,No quotes here
"#;
    let result = Csv.decode(data.as_bytes());
    assert!(matches!(result, Err(ReaderError::InvalidRow { .. })));
}

#[test]
fn decode_wrong_field_count() {
    let data = r#"TX_ID,TX_TYPE,FROM_USER_ID,TO_USER_ID,AMOUNT,TIMESTAMP,STATUS,DESCRIPTION
1001,DEPOSIT,0,501,"Missing fields"
"#;
    let result = Csv.decode(data.as_bytes());
    assert!(matches!(result, Err(ReaderError::InvalidRow { .. })));
}

#[test]
fn csv_encode_single_transaction() {
    let txs = vec![Transaction {
        tx_id: 1001,
        tx_type: TxType::Deposit,
        from_user_id: 0,
        to_user_id: 501,
        amount: 50000,
        timestamp: 1672531200000,
        status: TxStatus::Success,
        description: "\"Test\"".to_string(),
    }];

    let mut buffer = Vec::new();
    let result = Csv.encode(&txs, &mut buffer);
    assert!(result.is_ok());

    let output = String::from_utf8(buffer);
    assert!(output.is_ok());

    if let Ok(s) = output {
        assert!(s.starts_with("TX_ID,TX_TYPE,"));
        assert!(s.contains("1001,DEPOSIT,0,501,50000,1672531200000,SUCCESS,\"Test\""));
    }
}

#[test]
fn csv_encode_empty_list() {
    let txs: Vec<Transaction> = vec![];

    let mut buffer = Vec::new();
    let result = Csv.encode(&txs, &mut buffer);
    assert!(result.is_ok());

    let output = String::from_utf8(buffer);
    assert!(output.is_ok());

    if let Ok(s) = output {
        assert!(s.starts_with("TX_ID,TX_TYPE,"));
        assert_eq!(s.lines().count(), 1);
    }
}

#[test]
fn csv_encode_decode_roundtrip() {
    let sent = vec![
        Transaction {
            tx_id: 1001,
            tx_type: TxType::Deposit,
            from_user_id: 0,
            to_user_id: 501,
            amount: 50000,
            timestamp: 1672531200000,
            status: TxStatus::Success,
            description: "\"Initial funding\"".to_string(),
        },
        Transaction {
            tx_id: 1002,
            tx_type: TxType::Transfer,
            from_user_id: 501,
            to_user_id: 502,
            amount: 15000,
            timestamp: 1672534800000,
            status: TxStatus::Failure,
            description: "\"Payment, invoice\"".to_string(),
        },
    ];

    let mut buffer = Vec::new();
    let encode_result = Csv.encode(&sent, &mut buffer);
    assert!(encode_result.is_ok());

    let decode_result = Csv.decode(&buffer);
    assert!(decode_result.is_ok());

    if let Ok(decoded) = decode_result {
        assert_eq!(sent, decoded);
    }
}

// ─────────────────────────────────────────────────────────────────────────
// Further cases
// ─────────────────────────────────────────────────────────────────────────

#[test]
fn csv_exact_text() {
    let txs = vec![Transaction {
        tx_id: 7,
        tx_type: TxType::Withdrawal,
        from_user_id: 8,
        to_user_id: 0,
        amount: 9,
        timestamp: 10,
        status: TxStatus::Pending,
        description: "\"x\"".to_string(),
    }];
    assert_eq!(encode_text(&txs), format!("{}\n7,WITHDRAWAL,8,0,9,10,PENDING,\"x\"\n", HEADER));
}

#[test]
fn csv_header_error_keeps_line() {
    match Csv.decode(b"  WRONG,HEADER  \r\n") {
        Err(ReaderError::InvalidCsvHeader { header }) => assert_eq!(header, "  WRONG,HEADER"),
        other => panic!("unexpected {:?}", other),
    }
}

#[test]
fn csv_header_with_surrounding_whitespace() {
    let data = format!("  {}  \r\n1,DEPOSIT,0,1,2,3,SUCCESS,\"d\"\r\n", HEADER);
    let txs = Csv.decode(data.as_bytes()).unwrap();
    assert_eq!(txs.len(), 1);
    assert_eq!(txs[0].description, "\"d\"");
}

#[test]
fn csv_row_error_line_numbers() {
    let data = format!("{}\n\n1,DEPOSIT,0,1,2,3,SUCCESS,\"d\"\n1,DEPOSIT,0,1,x,3,SUCCESS,\"d\"\n", HEADER);
    match Csv.decode(data.as_bytes()) {
        Err(ReaderError::InvalidFieldValue { line_no, field, value }) => {
            assert_eq!(line_no, 4);
            assert_eq!(field, "AMOUNT");
            assert_eq!(value, "x");
        }
        other => panic!("unexpected {:?}", other),
    }
}

#[test]
fn csv_broken_quotes() {
    match split_fields("1,DEPOSIT,0,1,2,3,SUCCESS,\"only", 4) {
        Err(ReaderError::InvalidRow { line_no, reason }) => {
            assert_eq!(line_no, 4);
            assert_eq!(reason, "broken quotes for DESCRIPTION");
        }
        other => panic!("unexpected {:?}", other),
    }
    match split_fields("no quotes at all", 0) {
        Err(ReaderError::InvalidRow { reason, .. }) => {
            assert_eq!(reason, "missing opening quote for DESCRIPTION")
        }
        other => panic!("unexpected {:?}", other),
    }
    match split_fields("1,2,\"x\"", 0) {
        Err(ReaderError::InvalidRow { reason, .. }) => {
            assert_eq!(reason, "expected 7 fields before DESCRIPTION, got 2")
        }
        other => panic!("unexpected {:?}", other),
    }
}

#[test]
fn csv_trailing_commas_before_description() {
    let (fields, desc) = split_fields("1,DEPOSIT,0,1,2,3,SUCCESS,,,\"a\"b\"", 0).unwrap();
    assert_eq!(fields.len(), 7);
    assert_eq!(fields[6], "SUCCESS");
    assert_eq!(desc, "a\"b");
}

#[test]
fn csv_parse_line_keeps_quotes() {
    let tx = parse_line("  5,TRANSFER,1,2,3,4,FAILURE,\"hi, there\"  ", 0).unwrap();
    assert_eq!(tx.tx_id, 5);
    assert_eq!(tx.tx_type, TxType::Transfer);
    assert_eq!(tx.status, TxStatus::Failure);
    assert_eq!(tx.description, "\"hi, there\"");
}

#[test]
fn csv_parse_line_plus_sign_number() {
    let tx = parse_line("+5,DEPOSIT,1,2,3,4,SUCCESS,\"\"", 0).unwrap();
    assert_eq!(tx.tx_id, 5);
    assert_eq!(tx.description, "\"\"");
}

#[test]
fn csv_invalid_utf8_line_is_io_error() {
    let mut data = format!("{}\n", HEADER).into_bytes();
    data.extend_from_slice(&[0xFF, b'\n']);
    assert!(matches!(Csv.decode(&data), Err(ReaderError::Io(_))));
}

#[test]
fn csv_roundtrip_law_example() {
    let txs = vec![Transaction {
        tx_id: u64::MAX,
        tx_type: TxType::Deposit,
        from_user_id: 0,
        to_user_id: 1,
        amount: 2,
        timestamp: 3,
        status: TxStatus::Success,
        description: "\"a, \"b\": c\"".to_string(),
    }];
    let mut buffer = Vec::new();
    Csv.encode(&txs, &mut buffer).unwrap();
    assert_eq!(Csv.decode(&buffer).unwrap(), txs);
}

#[test]
fn csv_line_numbers_count_from_one() {
    let data = "TX_ID,TX_TYPE,FROM_USER_ID,TO_USER_ID,AMOUNT,TIMESTAMP,STATUS,DESCRIPTION\n1001,INVALID,0,501,50000,1672531200000,SUCCESS,\"Test\"\n";
    match Csv.decode(data.as_bytes()) {
        Err(ReaderError::InvalidFieldValue { line_no, field, value }) => {
            assert_eq!(line_no, 2);
            assert_eq!(field, "TX_TYPE");
            assert_eq!(value, "INVALID");
        }
        other => panic!("unexpected {:?}", other),
    }
    match BareCsv.decode_all(data.as_bytes()) {
        Err(ReaderError::InvalidFieldValue { line_no, .. }) => assert_eq!(line_no, 2),
        other => panic!("unexpected {:?}", other),
    }
}
