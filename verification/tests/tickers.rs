use ypbank::tickers::parse_tickers;

#[test]
fn tickers_are_trimmed_lines_without_blanks() {
    assert_eq!(parse_tickers("  AAPL \n\n MSFT\r\nGOOG"), vec!["AAPL", "MSFT", "GOOG"]);
    assert_eq!(parse_tickers("TSLA\n"), vec!["TSLA"]);
}

#[test]
fn tickers_of_blank_files() {
    assert!(parse_tickers("").is_empty());
    assert!(parse_tickers("\n \t\n\n").is_empty());
}
