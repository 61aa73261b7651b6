use ypbank::csv::{is_blank, parse_u64_field, split_tx_line, validate_header, Csv};
use ypbank::{
    read_transactions, write_transactions, ReaderError, Transaction, TransactionDecoder,
    TransactionEncoder, TxStatus, TxType,
};

const HEADER: &str = "TX_ID,TX_TYPE,FROM_USER_ID,TO_USER_ID,AMOUNT,TIMESTAMP,STATUS,DESCRIPTION";

#[test]
fn test_split_tx_line_ok_with_comma_in_description() {
    let line = r#"1002,TRANSFER,501,502,15000,1672534800000,FAILURE,"Payment for services, invoice #123""#;
    let (data, desc) = split_tx_line(line, 0).unwrap();

    assert_eq!(data[0], "1002");
    assert_eq!(data[1], "TRANSFER");
    assert_eq!(data[2], "501");
    assert_eq!(data[3], "502");
    assert_eq!(data[4], "15000");
    assert_eq!(data[5], "1672534800000");
    assert_eq!(data[6], "FAILURE");
    assert_eq!(desc, "Payment for services, invoice #123");
}

#[test]
fn test_split_tx_line_err_no_quotes() {
    let line = "1001,DEPOSIT,0,501,50000,1672531200000,SUCCESS,Initial account funding";
    let err = split_tx_line(line, 0).unwrap_err();
    assert!(matches!(err, ReaderError::InvalidRow { .. }));
}

#[test]
fn test_split_tx_line_err_missing_last_quote() {
    let line = r#"1001,DEPOSIT,0,501,50000,1672531200000,SUCCESS,"Initial account funding"#;
    let err = split_tx_line(line, 0).unwrap_err();
    assert!(matches!(err, ReaderError::InvalidRow { .. }));
}

#[test]
fn test_split_tx_line_err_wrong_data_field_count() {
    let line = r#"1001,DEPOSIT,0,501,50000,1672531200000,"Initial account funding""#;
    let err = split_tx_line(line, 0).unwrap_err();
    assert!(matches!(err, ReaderError::InvalidRow { .. }));
}

#[test]
fn test_parse_u64_field_ok() {
    assert_eq!(parse_u64_field("123", "TEST", 0).unwrap(), 123);
    assert_eq!(parse_u64_field("  456  ", "TEST", 0).unwrap(), 456);
}

#[test]
fn test_parse_u64_field_err() {
    let err = parse_u64_field("abc", "TEST", 5).unwrap_err();
    assert!(matches!(err, ReaderError::InvalidFieldValue { line_no: 5, .. }));
}

#[test]
fn decode_valid_csv() {
    let csv = r#"TX_ID,TX_TYPE,FROM_USER_ID,TO_USER_ID,AMOUNT,TIMESTAMP,STATUS,DESCRIPTION
1001,DEPOSIT,0,501,50000,1672531200000,SUCCESS,"Initial account funding"
1002,TRANSFER,501,502,15000,1672534800000,FAILURE,"Payment for services, invoice #123"
1003,WITHDRAWAL,502,0,1000,1672538400000,PENDING,"ATM withdrawal"
"#;

    let txs = Csv.decode_all(csv.as_bytes()).unwrap();

    assert_eq!(txs.len(), 3);

    assert_eq!(txs[0].tx_id, 1001);
    assert_eq!(txs[0].tx_type, TxType::Deposit);
    assert_eq!(txs[0].from_user_id, 0);
    assert_eq!(txs[0].to_user_id, 501);
    assert_eq!(txs[0].amount, 50000);
    assert_eq!(txs[0].timestamp, 1672531200000);
    assert_eq!(txs[0].status, TxStatus::Success);
    assert_eq!(txs[0].description, "Initial account funding");

    assert_eq!(txs[1].tx_id, 1002);
    assert_eq!(txs[1].status, TxStatus::Failure);
    assert_eq!(txs[1].description, "Payment for services, invoice #123");

    assert_eq!(txs[2].tx_id, 1003);
    assert_eq!(txs[2].tx_type, TxType::Withdrawal);
    assert_eq!(txs[2].status, TxStatus::Pending);
}

#[test]
fn decode_valid_csv_with_empty_lines() {
    let csv = r#"TX_ID,TX_TYPE,FROM_USER_ID,TO_USER_ID,AMOUNT,TIMESTAMP,STATUS,DESCRIPTION
1001,DEPOSIT,0,501,50000,1672531200000,SUCCESS,"Initial account funding"

1002,TRANSFER,501,502,15000,1672534800000,FAILURE,"Payment for services, invoice #123"

1003,WITHDRAWAL,502,0,1000,1672538400000,PENDING,"ATM withdrawal"
"#;

    let txs = Csv.decode_all(csv.as_bytes()).unwrap();

    assert_eq!(txs.len(), 3);

    assert_eq!(txs[0].tx_id, 1001);
    assert_eq!(txs[0].tx_type, TxType::Deposit);
    assert_eq!(txs[0].from_user_id, 0);
    assert_eq!(txs[0].to_user_id, 501);
    assert_eq!(txs[0].amount, 50000);
    assert_eq!(txs[0].timestamp, 1672531200000);
    assert_eq!(txs[0].status, TxStatus::Success);
    assert_eq!(txs[0].description, "Initial account funding");

    assert_eq!(txs[1].tx_id, 1002);
    assert_eq!(txs[1].status, TxStatus::Failure);
    assert_eq!(txs[1].description, "Payment for services, invoice #123");

    assert_eq!(txs[2].tx_id, 1003);
    assert_eq!(txs[2].tx_type, TxType::Withdrawal);
    assert_eq!(txs[2].status, TxStatus::Pending);
}

#[test]
fn decode_empty_csv() {
    let csv1 = r#"TX_ID,TX_TYPE,FROM_USER_ID,TO_USER_ID,AMOUNT,TIMESTAMP,STATUS,DESCRIPTION"#;
    let txs1 = Csv.decode_all(csv1.as_bytes()).unwrap();
    let csv2 = r#"TX_ID,TX_TYPE,FROM_USER_ID,TO_USER_ID,AMOUNT,TIMESTAMP,STATUS,DESCRIPTION

        "#;
    let txs2 = Csv.decode_all(csv2.as_bytes()).unwrap();

    assert!(txs1.is_empty());
    assert!(txs2.is_empty());
}

#[test]
fn first_line_is_not_header_err() {
    let csv = r#"
        TX_ID,TX_TYPE,FROM_USER_ID,TO_USER_ID,AMOUNT,TIMESTAMP,STATUS,DESCRIPTION"#;
    let err = Csv.decode_all(csv.as_bytes()).unwrap_err();
    assert!(matches!(err, ReaderError::InvalidCsvHeader { .. }));
}

#[test]
fn encode_writes_correct_header() {
    let txs = vec![Transaction {
        tx_id: 1002,
        tx_type: TxType::Transfer,
        from_user_id: 501,
        to_user_id: 502,
        amount: 15000,
        timestamp: 1672534800000,
        status: TxStatus::Failure,
        description: "Payment, invoice #123".to_string(),
    }];

    let mut buffer = Vec::new();
    Csv.encode_all(&txs, &mut buffer).unwrap();

    let output = String::from_utf8(buffer).unwrap();
    let first_line = output.lines().next().unwrap();

    assert_eq!(first_line, HEADER);
}

#[test]
fn test_wrong_header() {
    let decoder = Csv;
    let data = br#"wrong,header,columns
1,2,3
"#;

    let err = read_transactions(&decoder, data).unwrap_err();

    assert!(matches!(err, ReaderError::InvalidCsvHeader { .. }));
}

#[test]
fn test_correct_header() {
    let decoder = Csv;
    let data = br#"TX_ID,TX_TYPE,FROM_USER_ID,TO_USER_ID,AMOUNT,TIMESTAMP,STATUS,DESCRIPTION
1001,DEPOSIT,0,501,50000,1672531200000,SUCCESS,"Initial account funding"
"#;

    let result = read_transactions(&decoder, data);

    assert!(result.is_ok());
}

#[test]
fn test_correct_data() {
    let decoder = Csv;
    let data = br#"TX_ID,TX_TYPE,FROM_USER_ID,TO_USER_ID,AMOUNT,TIMESTAMP,STATUS,DESCRIPTION
1001,DEPOSIT,0,501,50000,1672531200000,SUCCESS,"Initial account funding"
1002,TRANSFER,501,502,15000,1672534800000,FAILURE,"Payment for services, invoice #123"
1003,WITHDRAWAL,502,0,1000,1672538400000,PENDING,"ATM withdrawal"
"#;

    let result = read_transactions(&decoder, data);

    assert_eq!(result.unwrap().len(), 3);
}

// ─────────────────────────────────────────────────────────────────────────
// Further cases
// ─────────────────────────────────────────────────────────────────────────

#[test]
fn bare_exact_text() {
    let txs = vec![Transaction {
        tx_id: 1,
        tx_type: TxType::Deposit,
        from_user_id: 0,
        to_user_id: 2,
        amount: 3,
        timestamp: 4,
        status: TxStatus::Success,
        description: "hello".to_string(),
    }];
    let mut buffer = Vec::new();
    write_transactions(&Csv, &txs, &mut buffer).unwrap();
    assert_eq!(String::from_utf8(buffer).unwrap(), format!("{}\n1,DEPOSIT,0,2,3,4,SUCCESS,\"hello\"\n", HEADER));
}

#[test]
fn bare_numbers_are_trimmed_names_are_not() {
    let data = format!("{}\n 1 ,DEPOSIT, 0 ,2,3,4,SUCCESS,\"d\"\n", HEADER);
    let txs = Csv.decode_all(data.as_bytes()).unwrap();
    assert_eq!(txs[0].tx_id, 1);
    assert_eq!(txs[0].from_user_id, 0);

    let data = format!("{}\n1, DEPOSIT,0,2,3,4,SUCCESS,\"d\"\n", HEADER);
    match Csv.decode_all(data.as_bytes()) {
        Err(ReaderError::InvalidFieldValue { field, value, .. }) => {
            assert_eq!(field, "TX_TYPE");
            assert_eq!(value, " DEPOSIT");
        }
        other => panic!("unexpected {:?}", other),
    }
}

#[test]
fn bare_numbers_are_checked_before_type() {
    let data = format!("{}\n1,BAD,0,2,x,4,BAD,\"d\"\n", HEADER);
    match Csv.decode_all(data.as_bytes()) {
        Err(ReaderError::InvalidFieldValue { line_no, field, value }) => {
            assert_eq!(line_no, 2);
            assert_eq!(field, "AMOUNT");
            assert_eq!(value, "x");
        }
        other => panic!("unexpected {:?}", other),
    }
}

#[test]
fn bare_parse_u64_field_error_keeps_value() {
    match parse_u64_field(" 12a ", "AMOUNT", 3) {
        Err(ReaderError::InvalidFieldValue { line_no, field, value }) => {
            assert_eq!(line_no, 3);
            assert_eq!(field, "AMOUNT");
            assert_eq!(value, " 12a ");
        }
        other => panic!("unexpected {:?}", other),
    }
    assert!(parse_u64_field("18446744073709551616", "AMOUNT", 0).is_err());
    assert_eq!(parse_u64_field("18446744073709551615", "AMOUNT", 0).unwrap(), u64::MAX);
}

#[test]
fn bare_roundtrip_with_quotes_in_description() {
    let txs = vec![
        Transaction {
            tx_id: 5,
            tx_type: TxType::Withdrawal,
            from_user_id: 6,
            to_user_id: 0,
            amount: 7,
            timestamp: 8,
            status: TxStatus::Pending,
            description: "\"quoted\", and \"more\"".to_string(),
        },
        Transaction {
            tx_id: 9,
            tx_type: TxType::Transfer,
            from_user_id: 1,
            to_user_id: 2,
            amount: 3,
            timestamp: 4,
            status: TxStatus::Failure,
            description: String::new(),
        },
    ];
    let mut buffer = Vec::new();
    write_transactions(&Csv, &txs, &mut buffer).unwrap();
    assert_eq!(read_transactions(&Csv, &buffer).unwrap(), txs);
}

#[test]
fn bare_csv_test_is_blank() {
    assert!(is_blank(""));
    assert!(is_blank("   "));
    assert!(is_blank("\n\t "));
    assert!(!is_blank("x"));
    assert!(!is_blank("  x  "));
}

#[test]
fn bare_csv_test_validate_header_ok() {
    let header = "TX_ID,TX_TYPE,FROM_USER_ID,TO_USER_ID,AMOUNT,TIMESTAMP,STATUS,DESCRIPTION\n";
    assert!(validate_header(header).is_ok());
}

#[test]
fn bare_csv_test_validate_header_wrong() {
    let header = "TX_ID,TX_TYPE,FROM_USER_ID,TO_USER_ID,AMOUNT,TIMESTAMP,STATUS,DESCR\n";
    assert!(matches!(validate_header(header), Err(ReaderError::InvalidCsvHeader { .. })));
}

#[test]
fn bare_csv_decode_invalid_header() {

    let csv = "WRONG,HEADER\n";
    let err = Csv.decode_all(csv.as_bytes()).unwrap_err();
    assert!(matches!(err, ReaderError::InvalidCsvHeader { .. }));
}

#[test]
fn bare_csv_decode_invalid_tx_type() {

    let csv = r#"TX_ID,TX_TYPE,FROM_USER_ID,TO_USER_ID,AMOUNT,TIMESTAMP,STATUS,DESCRIPTION
1002,Transfer,501,502,100,1672534800000,FAILURE,"Payment for services, invoice #123"
"#;
    let err = Csv.decode_all(csv.as_bytes()).unwrap_err();
    assert!(matches!(err, ReaderError::InvalidFieldValue { field, .. } if field == "TX_TYPE"));
}

#[test]
fn bare_csv_decode_invalid_status() {

    let csv = r#"TX_ID,TX_TYPE,FROM_USER_ID,TO_USER_ID,AMOUNT,TIMESTAMP,STATUS,DESCRIPTION
1002,TRANSFER,501,502,100,1672534800000,FAIL,"Payment for services, invoice #123"
"#;
    let err = Csv.decode_all(csv.as_bytes()).unwrap_err();
    assert!(matches!(err, ReaderError::InvalidFieldValue { field, .. } if field == "STATUS"));
}

#[test]
fn bare_csv_decode_invalid_amount() {

    let csv1 = r#"TX_ID,TX_TYPE,FROM_USER_ID,TO_USER_ID,AMOUNT,TIMESTAMP,STATUS,DESCRIPTION
1002,TRANSFER,501,502,-1,1672534800000,FAILURE,"Payment for services, invoice #123"
"#;
    let csv2 = r#"TX_ID,TX_TYPE,FROM_USER_ID,TO_USER_ID,AMOUNT,TIMESTAMP,STATUS,DESCRIPTION
1002,TRANSFER,501,502,18446744073709551616,1672534800000,FAILURE,"Payment for services, invoice #123"
"#;
    let err1 = Csv.decode_all(csv1.as_bytes()).unwrap_err();
    let err2 = Csv.decode_all(csv2.as_bytes()).unwrap_err();
    assert!(matches!(err1, ReaderError::InvalidFieldValue { field, .. } if field == "AMOUNT"));
    assert!(matches!(err2, ReaderError::InvalidFieldValue { field, .. } if field == "AMOUNT"));
}

#[test]
fn bare_csv_encode_decode_roundtrip() {
    let sent = vec![
        Transaction {
            tx_id: 1001,
            tx_type: TxType::Deposit,
            from_user_id: 0,
            to_user_id: 501,
            amount: 50000,
            timestamp: 1672531200000,
            status: TxStatus::Success,
            description: "Initial \"funding\"".to_string(),
        },
        Transaction {
            tx_id: 1002,
            tx_type: TxType::Transfer,
            from_user_id: 501,
            to_user_id: 502,
            amount: 15000,
            timestamp: 1672534800000,
            status: TxStatus::Failure,
            description: "Payment, invoice #123".to_string(),
        },
    ];

    let mut buffer = Vec::new();
    Csv.encode_all(&sent, &mut buffer).unwrap();
    let decoded = Csv.decode_all(&buffer).unwrap();
    assert_eq!(sent, decoded);
}
