use ypbank::bin_format::BinTransactionWriter;
use ypbank::convert::{
    convert, encode_transactions, format_from_name, read_text_until_lone_quote, read_transactions,
    text_input_meets_lone_quote, Format,
};
use ypbank::error::FormatError;
use ypbank::transaction::{Transaction, TransactionStatus, TransactionType};

fn sample() -> Vec<Transaction> {
    vec![
        Transaction::new(
            1001,
            TransactionType::Deposit,
            TransactionStatus::Success,
            1672531200000,
            0,
            501,
            50000,
            "Initial account funding".to_string(),
        ),
        Transaction::new(
            1002,
            TransactionType::Transfer,
            TransactionStatus::Failure,
            1672534800000,
            501,
            502,
            15000,
            "Payment for services, invoice #123".to_string(),
        ),
    ]
}

fn binary_of(ts: &[Transaction]) -> Vec<u8> {
    let mut writer = BinTransactionWriter::new(Vec::new());
    for t in ts {
        assert!(writer.write_next(t).is_ok());
    }
    writer.take_output()
}

#[test]
fn format_names() {
    assert_eq!(format_from_name("bin"), Some(Format::Binary));
    assert_eq!(format_from_name("binary"), Some(Format::Binary));
    assert_eq!(format_from_name("txt"), Some(Format::Text));
    assert_eq!(format_from_name("csv"), Some(Format::Csv));
    assert_eq!(format_from_name("xml"), None);
    assert_eq!(format_from_name(""), None);
}

#[test]
fn convert_through_every_format_and_back() {
    let input = binary_of(&sample());
    for format in [Format::Binary, Format::Text, Format::Csv] {
        let (out, result) = convert(input.clone(), Format::Binary, format);
        assert!(result.is_ok());
        let (back, result) = convert(out, format, Format::Binary);
        assert!(result.is_ok());
        assert_eq!(back, input);
    }
}

#[test]
fn read_transactions_stops_at_first_error() {
    let mut input = binary_of(&sample());
    input.extend_from_slice(&[1, 2, 3, 4, 5]);
    let (ts, error) = read_transactions(input, Format::Binary);
    assert_eq!(ts, sample());
    assert!(matches!(error, Some(FormatError::BadMagic)));
}

#[test]
fn convert_keeps_what_was_read_before_an_error() {
    let mut input = binary_of(&sample());
    input.push(0x59);
    let (out, result) = convert(input, Format::Binary, Format::Binary);
    assert!(matches!(result, Err(FormatError::UnexpectedEof)));
    assert_eq!(out, binary_of(&sample()));
}

#[test]
fn lone_quote_detection_over_records() {
    let good = b"TX_ID: 1\nTX_TYPE: DEPOSIT\nTO_USER_ID: 5\nAMOUNT: 7\nTIMESTAMP: 9\nSTATUS: PENDING\n\n".to_vec();
    assert!(!text_input_meets_lone_quote(&good));
    let mut bad = good.clone();
    bad.extend_from_slice(b"TX_ID: 2\nDESCRIPTION: \"\n");
    assert!(text_input_meets_lone_quote(&bad));
    let mut after_error = b"TX_ID: x\n\n".to_vec();
    after_error.extend_from_slice(b"DESCRIPTION: \"\n");
    assert!(!text_input_meets_lone_quote(&after_error));
}

#[test]
fn text_read_stops_before_a_lone_quote() {
    let good = b"TX_ID: 1\nTX_TYPE: DEPOSIT\nTO_USER_ID: 5\nAMOUNT: 7\nTIMESTAMP: 9\nSTATUS: PENDING\n\n".to_vec();
    let (ts, error, lone) = read_text_until_lone_quote(good.clone());
    assert_eq!(ts.len(), 1);
    assert!(error.is_none());
    assert!(!lone);
    assert_eq!(ts, read_transactions(good.clone(), Format::Text).0);
    let mut bad = good.clone();
    bad.extend_from_slice(b"TX_ID: 2\nDESCRIPTION: \"\n");
    let (ts, error, lone) = read_text_until_lone_quote(bad);
    assert_eq!(ts.len(), 1);
    assert_eq!(ts[0].id(), 1);
    assert!(error.is_none());
    assert!(lone);
    let (ts, error, lone) = read_text_until_lone_quote(b"TX_ID: x\n\nDESCRIPTION: \"\n".to_vec());
    assert!(ts.is_empty());
    assert!(error.is_some());
    assert!(!lone);
}

#[test]
fn encode_transactions_matches_convert() {
    let input = binary_of(&sample());
    for format in [Format::Binary, Format::Text, Format::Csv] {
        let (out, result) = convert(input.clone(), Format::Binary, format);
        assert!(result.is_ok());
        assert_eq!(encode_transactions(&sample(), format), out);
    }
    assert!(encode_transactions(&Vec::new(), Format::Csv).is_empty());
}
