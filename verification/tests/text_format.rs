use ypbank::error::{Field, FormatError, IntErrorKind};
use ypbank::text_format::{TextTransactionReader, TextTransactionWriter};
use ypbank::transaction::{Transaction, TransactionStatus, TransactionType};

fn trn1() -> Transaction {
    Transaction::new(
        1234567890123456,
        TransactionType::Deposit,
        TransactionStatus::Success,
        1633036800000,
        0,
        9876543210987654,
        10000,
        "Terminal deposit".to_string(),
    )
}

fn trn2() -> Transaction {
    Transaction::new(
        2312321321321321,
        TransactionType::Transfer,
        TransactionStatus::Failure,
        1633056800000,
        1231231231231231,
        9876543210987654,
        1000,
        "User transfer".to_string(),
    )
}

fn trn3() -> Transaction {
    Transaction::new(
        3213213213213213,
        TransactionType::Withdrawal,
        TransactionStatus::Success,
        1633066800000,
        9876543210987654,
        0,
        100,
        "User withdrawal".to_string(),
    )
}

#[test]
fn text_format_test_read() {
    let source_text = String::from(
        "# Record 1 (Deposit)\n\
        TX_ID: 1234567890123456\n\
        TX_TYPE: DEPOSIT\n\
        FROM_USER_ID: 0\n\
        TO_USER_ID: 9876543210987654\n\
        AMOUNT: 10000\n\
        TIMESTAMP: 1633036800000\n\
        STATUS: SUCCESS\n\
        DESCRIPTION: \"Terminal deposit\"\n\
        \n\
        # Record 2 (Transfer)\n\
        TX_ID: 2312321321321321\n\
        TIMESTAMP: 1633056800000\n\
        STATUS: FAILURE\n\
        TX_TYPE: TRANSFER\n\
        FROM_USER_ID: 1231231231231231\n\
        TO_USER_ID: 9876543210987654\n\
        AMOUNT: 1000\n\
        DESCRIPTION: \"User transfer\"\n\
        \n\
        # Record 3 (Withdrawal)\n\
        TX_ID: 3213213213213213\n\
        AMOUNT: 100\n\
        TX_TYPE: WITHDRAWAL\n\
        FROM_USER_ID: 9876543210987654\n\
        TO_USER_ID: 0\n\
        TIMESTAMP: 1633066800000\n\
        STATUS: SUCCESS\n\
        DESCRIPTION: \"User withdrawal\"\n",
    );

    let mut reader = TextTransactionReader::new(source_text.into_bytes());

    assert_eq!(reader.read_next().unwrap(), Some(trn1()));
    assert_eq!(reader.read_next().unwrap(), Some(trn2()));
    assert_eq!(reader.read_next().unwrap(), Some(trn3()));
    assert!(reader.read_next().unwrap().is_none());
}

#[test]
fn text_format_test_write_read() {
    let mut writer = TextTransactionWriter::new(Vec::new());

    assert!(writer.write_next(&trn1()).is_ok());
    assert!(writer.write_next(&trn2()).is_ok());
    assert!(writer.write_next(&trn3()).is_ok());
    assert!(writer.flush().is_ok());

    let buffer = writer.take_output();
    let mut reader = TextTransactionReader::new(buffer);

    assert_eq!(reader.read_next().unwrap(), Some(trn1()));
    assert_eq!(reader.read_next().unwrap(), Some(trn2()));
    assert_eq!(reader.read_next().unwrap(), Some(trn3()));
    assert!(reader.read_next().unwrap().is_none());
}

fn read_one(text: &str) -> Result<Option<Transaction>, FormatError> {
    let mut reader = TextTransactionReader::new(text.as_bytes().to_vec());
    reader.read_next()
}

#[test]
fn text_record_layout() {
    let mut writer = TextTransactionWriter::new(Vec::new());
    assert!(writer.write_next(&trn3()).is_ok());
    let text = String::from_utf8(writer.take_output()).unwrap();
    assert_eq!(
        text,
        "\nTX_ID: 3213213213213213\n\
         TX_TYPE: WITHDRAWAL\n\
         FROM_USER_ID: 9876543210987654\n\
         TO_USER_ID: 0\n\
         AMOUNT: 100\n\
         TIMESTAMP: 1633066800000\n\
         STATUS: SUCCESS\n\
         DESCRIPTION: \"User withdrawal\"\n"
    );
}

#[test]
fn text_defaults_for_deposit_withdrawal_and_description() {
    let deposit = read_one("TX_ID: 1\nTX_TYPE: DEPOSIT\nTO_USER_ID: 5\nAMOUNT: 7\nTIMESTAMP: 9\nSTATUS: PENDING\n")
        .unwrap()
        .unwrap();
    assert_eq!(
        deposit,
        Transaction::new(1, TransactionType::Deposit, TransactionStatus::Pending, 9, 0, 5, 7, String::new())
    );
    let withdrawal = read_one("TX_ID: 2\nTX_TYPE: WITHDRAWAL\nFROM_USER_ID: 5\nAMOUNT: 7\nTIMESTAMP: 9\nSTATUS: SUCCESS\n")
        .unwrap()
        .unwrap();
    assert_eq!(withdrawal.to_user_id(), 0);
    assert_eq!(withdrawal.description(), "");
}

#[test]
fn text_blank_lines_and_comments_only() {
    assert!(read_one("\n   \n# nothing here\n\n").unwrap().is_none());
}

#[test]
fn text_missed_field() {
    let r = read_one("TX_TYPE: DEPOSIT\nTO_USER_ID: 5\nAMOUNT: 7\nTIMESTAMP: 9\nSTATUS: PENDING\n");
    assert!(matches!(r, Err(FormatError::MissedField { field: Field::Id })));
    let r = read_one("TX_ID: 1\nTX_TYPE: TRANSFER\nTO_USER_ID: 5\nAMOUNT: 7\nTIMESTAMP: 9\nSTATUS: PENDING\n");
    assert!(matches!(r, Err(FormatError::MissedField { field: Field::FromUserId })));
}

#[test]
fn text_duplicated_field() {
    let r = read_one("TX_ID: 1\nTX_ID: 2\n");
    assert!(matches!(r, Err(FormatError::DuplicatedField { field: Field::Id })));
}

#[test]
fn text_bad_numbers() {
    assert!(matches!(
        read_one("AMOUNT: 12x\n"),
        Err(FormatError::BadNumber { field: Field::Amount, kind: IntErrorKind::InvalidDigit })
    ));
    assert!(matches!(
        read_one("TIMESTAMP: 99999999999999999999\n"),
        Err(FormatError::BadNumber { field: Field::Timestamp, kind: IntErrorKind::PosOverflow })
    ));
    assert!(matches!(
        read_one("TX_ID:\n"),
        Err(FormatError::BadNumber { field: Field::Id, kind: IntErrorKind::Empty })
    ));
    assert_eq!(
        read_one("TX_ID: +3\nTX_TYPE: DEPOSIT\nTO_USER_ID: 5\nAMOUNT: 7\nTIMESTAMP: 9\nSTATUS: PENDING\n")
            .unwrap()
            .unwrap()
            .id(),
        3
    );
}

#[test]
fn text_illegal_names() {
    match read_one("TX_TYPE: BONUS\n") {
        Err(FormatError::IllegalTypeName { name }) => assert_eq!(name, "BONUS"),
        other => panic!("unexpected {:?}", other),
    }
    match read_one("STATUS: OK\n") {
        Err(FormatError::IllegalStatusName { name }) => assert_eq!(name, "OK"),
        other => panic!("unexpected {:?}", other),
    }
}

#[test]
fn text_illegal_description() {
    assert!(matches!(read_one("DESCRIPTION: no quotes\n"), Err(FormatError::IllegalDescription)));
}

#[test]
fn text_unparsed_line() {
    match read_one("HELLO\n") {
        Err(FormatError::UnparsedLine { line }) => assert!(line.starts_with("HELLO")),
        other => panic!("unexpected {:?}", other),
    }
}

#[test]
fn text_invalid_utf8_line() {
    let mut reader = TextTransactionReader::new(vec![b'T', 0xFF, b'\n']);
    assert!(matches!(reader.read_next(), Err(FormatError::InvalidLineUtf8)));
}

#[test]
fn text_lone_quote_description_is_not_taken() {
    let reader = TextTransactionReader::new(b"TX_ID: 1\nDESCRIPTION: \"\n".to_vec());
    assert!(reader.next_meets_lone_quote());
    let reader = TextTransactionReader::new(b"TX_ID: 1\nDESCRIPTION: \"\"\n".to_vec());
    assert!(!reader.next_meets_lone_quote());
    let reader = TextTransactionReader::new(b"DESCRIPTION: \"a\"\nDESCRIPTION: \"\n".to_vec());
    assert!(!reader.next_meets_lone_quote());
}
