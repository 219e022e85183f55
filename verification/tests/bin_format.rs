use ypbank::bin_format::{BinTransactionReader, BinTransactionWriter};
use ypbank::error::FormatError;
use ypbank::transaction::{Transaction, TransactionStatus, TransactionType};

fn trn1() -> Transaction {
    Transaction::new(
        1001,
        TransactionType::Deposit,
        TransactionStatus::Success,
        1672531200000,
        0,
        501,
        50000,
        "Initial account funding".to_string(),
    )
}

fn trn2() -> Transaction {
    Transaction::new(
        1002,
        TransactionType::Transfer,
        TransactionStatus::Failure,
        1672534800000,
        501,
        502,
        15000,
        "Payment for services, invoice #123".to_string(),
    )
}

fn trn3() -> Transaction {
    Transaction::new(
        1003,
        TransactionType::Withdrawal,
        TransactionStatus::Pending,
        1672538400000,
        502,
        0,
        1000,
        "ATM withdrawal".to_string(),
    )
}

#[test]
fn bin_format_test_write_read() {
    let buffer: Vec<u8>;

    {
        let mut writer = BinTransactionWriter::new(Vec::new());

        assert!(writer.write_next(&trn1()).is_ok());
        assert!(writer.write_next(&trn2()).is_ok());
        assert!(writer.write_next(&trn3()).is_ok());
        assert!(writer.flush().is_ok());
        buffer = writer.take_output();
    }

    {
        let mut reader = BinTransactionReader::new(buffer);

        assert_eq!(reader.read_next().unwrap(), Some(trn1()));
        assert_eq!(reader.read_next().unwrap(), Some(trn2()));
        assert_eq!(reader.read_next().unwrap(), Some(trn3()));
        assert!(reader.read_next().unwrap().is_none());
    }
}

fn encoded(t: &Transaction) -> Vec<u8> {
    let mut writer = BinTransactionWriter::new(Vec::new());
    assert!(writer.write_next(t).is_ok());
    writer.take_output()
}

#[test]
fn bin_record_layout() {
    let t = Transaction::new(
        0x0102030405060708,
        TransactionType::Transfer,
        TransactionStatus::Pending,
        9,
        10,
        11,
        12,
        "ab".to_string(),
    );
    let bytes = encoded(&t);
    let mut expected: Vec<u8> = vec![0x59, 0x50, 0x42, 0x4E, 0, 0, 0, 48];
    expected.extend_from_slice(&[1, 2, 3, 4, 5, 6, 7, 8]);
    expected.push(1);
    expected.extend_from_slice(&[0, 0, 0, 0, 0, 0, 0, 10]);
    expected.extend_from_slice(&[0, 0, 0, 0, 0, 0, 0, 11]);
    expected.extend_from_slice(&[0, 0, 0, 0, 0, 0, 0, 12]);
    expected.extend_from_slice(&[0, 0, 0, 0, 0, 0, 0, 9]);
    expected.push(2);
    expected.extend_from_slice(&[0, 0, 0, 2]);
    expected.extend_from_slice(b"ab");
    assert_eq!(bytes, expected);
}

#[test]
fn bin_empty_input_ends() {
    let mut reader = BinTransactionReader::new(Vec::new());
    assert!(reader.read_next().unwrap().is_none());
}

#[test]
fn bin_bad_magic() {
    let mut bytes = encoded(&trn1());
    bytes[0] = 0;
    let mut reader = BinTransactionReader::new(bytes);
    assert!(matches!(reader.read_next(), Err(FormatError::BadMagic)));
}

#[test]
fn bin_truncated_record() {
    let mut bytes = encoded(&trn1());
    bytes.truncate(20);
    let mut reader = BinTransactionReader::new(bytes);
    assert!(matches!(reader.read_next(), Err(FormatError::UnexpectedEof)));
}

#[test]
fn bin_illegal_type_code() {
    let mut bytes = encoded(&trn1());
    bytes[16] = 7;
    let mut reader = BinTransactionReader::new(bytes);
    assert!(matches!(reader.read_next(), Err(FormatError::IllegalTypeCode { code: 7 })));
}

#[test]
fn bin_illegal_status_code() {
    let mut bytes = encoded(&trn1());
    bytes[49] = 9;
    let mut reader = BinTransactionReader::new(bytes);
    assert!(matches!(reader.read_next(), Err(FormatError::IllegalStatusCode { code: 9 })));
}

#[test]
fn bin_record_too_small() {
    let mut bytes = encoded(&trn1());
    bytes[4..8].copy_from_slice(&[0, 0, 0, 10]);
    let mut reader = BinTransactionReader::new(bytes);
    assert!(matches!(reader.read_next(), Err(FormatError::RecordTooSmall { declared: 10 })));
}

#[test]
fn bin_record_size_mismatch() {
    let mut bytes = encoded(&trn1());
    // "Initial account funding" is 23 bytes: the record is 46 + 23 = 69 bytes.
    bytes[4..8].copy_from_slice(&[0, 0, 0, 70]);
    let mut reader = BinTransactionReader::new(bytes);
    assert!(matches!(
        reader.read_next(),
        Err(FormatError::RecordSizeMismatch { declared: 70, actual: 69 })
    ));
}

#[test]
fn bin_invalid_utf8_description() {
    let mut bytes = encoded(&trn1());
    let last = bytes.len() - 1;
    bytes[last] = 0xFF;
    let mut reader = BinTransactionReader::new(bytes);
    assert!(matches!(reader.read_next(), Err(FormatError::InvalidUtf8)));
}

#[test]
fn bin_writer_appends_records() {
    let mut writer = BinTransactionWriter::new(vec![1, 2, 3]);
    assert!(writer.write_next(&trn3()).is_ok());
    let mut expected = vec![1u8, 2, 3];
    expected.extend(encoded(&trn3()));
    assert_eq!(writer.output(), &expected);
}

#[test]
fn bin_records_then_trailing_bytes() {
    let mut bytes = encoded(&trn1());
    bytes.extend(encoded(&trn2()));
    let mut rest = encoded(&trn3());
    rest.truncate(20);
    bytes.extend(rest);
    let mut reader = BinTransactionReader::new(bytes);
    assert_eq!(reader.read_next().unwrap(), Some(trn1()));
    assert_eq!(reader.read_next().unwrap(), Some(trn2()));
    assert!(matches!(reader.read_next(), Err(FormatError::UnexpectedEof)));
}
