use ypbank::csv_format::{CsvTransactionReader, CsvTransactionWriter};
use ypbank::error::{Field, FormatError, IntErrorKind};
use ypbank::transaction::{Transaction, TransactionStatus, TransactionType};

fn trn1() -> Transaction {
    Transaction::new(
        1001,
        TransactionType::Deposit,
        TransactionStatus::Success,
        1672531200000,
        0,
        501,
        50000,
        "Initial account funding".to_string(),
    )
}

fn trn2() -> Transaction {
    Transaction::new(
        1002,
        TransactionType::Transfer,
        TransactionStatus::Failure,
        1672534800000,
        501,
        502,
        15000,
        "Payment for services, invoice #123".to_string(),
    )
}

fn trn3() -> Transaction {
    Transaction::new(
        1003,
        TransactionType::Withdrawal,
        TransactionStatus::Pending,
        1672538400000,
        502,
        0,
        1000,
        "ATM withdrawal".to_string(),
    )
}

#[test]
fn csv_format_test_read() {
    let source_text = String::from(
        "TX_ID,TX_TYPE,FROM_USER_ID,TO_USER_ID,AMOUNT,TIMESTAMP,STATUS,DESCRIPTION\n\
        1001,DEPOSIT,0,501,50000,1672531200000,SUCCESS,\"Initial account funding\"\n\
        1002,TRANSFER,501,502,15000,1672534800000,FAILURE,\"Payment for services, invoice #123\"\n\
        1003,WITHDRAWAL,502,0,1000,1672538400000,PENDING,\"ATM withdrawal\"\n",
    );

    let mut reader = CsvTransactionReader::new(source_text.into_bytes());

    assert_eq!(reader.read_next().unwrap(), Some(trn1()));
    assert_eq!(reader.read_next().unwrap(), Some(trn2()));
    assert_eq!(reader.read_next().unwrap(), Some(trn3()));
    assert!(reader.read_next().unwrap().is_none());
}

#[test]
fn csv_format_test_write_read() {
    let buffer: Vec<u8>;

    {
        let mut writer = CsvTransactionWriter::new(Vec::new());

        assert!(writer.write_next(&trn1()).is_ok());
        assert!(writer.write_next(&trn2()).is_ok());
        assert!(writer.write_next(&trn3()).is_ok());
        assert!(writer.flush().is_ok());
        buffer = writer.take_output();
    }

    {
        let mut reader = CsvTransactionReader::new(buffer);

        assert_eq!(reader.read_next().unwrap(), Some(trn1()));
        assert_eq!(reader.read_next().unwrap(), Some(trn2()));
        assert_eq!(reader.read_next().unwrap(), Some(trn3()));
        assert!(reader.read_next().unwrap().is_none());
    }
}

#[test]
fn csv_written_text() {
    let mut writer = CsvTransactionWriter::new(Vec::new());
    assert!(writer.write_next(&trn2()).is_ok());
    let text = String::from_utf8(writer.take_output()).unwrap();
    assert_eq!(
        text,
        "\"TX_ID\",\"TX_TYPE\",\"FROM_USER_ID\",\"TO_USER_ID\",\"AMOUNT\",\"TIMESTAMP\",\"STATUS\",\"DESCRIPTION\"\n\
         1002,\"TRANSFER\",501,502,15000,1672534800000,\"FAILURE\",\"Payment for services, invoice #123\"\n"
    );
}

#[test]
fn csv_empty_input() {
    let mut reader = CsvTransactionReader::new(Vec::new());
    assert!(reader.read_next().unwrap().is_none());
}

#[test]
fn csv_bad_header() {
    let mut reader = CsvTransactionReader::new(b"TX_ID,KIND\n1,DEPOSIT\n".to_vec());
    assert!(matches!(
        reader.read_next(),
        Err(FormatError::BadHeader { column: 1, expected: Field::Type })
    ));
}

#[test]
fn csv_bad_values() {
    let header = "TX_ID,TX_TYPE,FROM_USER_ID,TO_USER_ID,AMOUNT,TIMESTAMP,STATUS,DESCRIPTION\n";
    let mut reader = CsvTransactionReader::new(format!("{header}x,DEPOSIT,0,1,2,3,SUCCESS,d\n").into_bytes());
    assert!(matches!(
        reader.read_next(),
        Err(FormatError::BadNumber { field: Field::Id, kind: IntErrorKind::InvalidDigit })
    ));
    let mut reader = CsvTransactionReader::new(format!("{header}1,GIFT,0,1,2,3,SUCCESS,d\n").into_bytes());
    assert!(matches!(reader.read_next(), Err(FormatError::IllegalTypeName { .. })));
    let mut reader = CsvTransactionReader::new(format!("{header}1,DEPOSIT,0,1,2,3,SUCCESS\n").into_bytes());
    assert!(reader.read_next().is_err());
}

fn row(fields: &[&str]) -> Result<Vec<String>, String> {
    Ok(fields.iter().map(|f| f.to_string()).collect())
}

#[test]
fn csv_rows_decode() {
    let header = row(&["TX_ID", "TX_TYPE", "FROM_USER_ID", "TO_USER_ID", "AMOUNT", "TIMESTAMP", "STATUS", "DESCRIPTION"]);
    let rows = vec![
        header,
        row(&["1003", "WITHDRAWAL", "502", "0", "1000", "1672538400000", "PENDING", "ATM withdrawal"]),
        Err("broken row".to_string()),
    ];
    let mut reader = CsvTransactionReader::from_rows(rows);
    assert_eq!(reader.read_next().unwrap(), Some(trn3()));
    match reader.read_next() {
        Err(FormatError::Csv { message }) => assert_eq!(message, "broken row"),
        other => panic!("unexpected {:?}", other),
    }
    assert!(reader.read_next().unwrap().is_none());
}
