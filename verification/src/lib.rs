//! Bank transaction records in three wire formats (binary, text, CSV) and
//! the decision logic of a small stock-quote publish/subscribe service.

pub mod transaction;
pub mod error;
pub mod bytes;
pub mod bin_format;
pub mod chars;
pub mod names;
pub mod text_format;
pub mod text_roundtrip;
pub mod csv_format;
pub mod convert;
pub mod compare;
pub mod compare_laws;
pub mod quote_protocol;
pub mod quote_client;
pub mod stock_quote;
pub mod clock;
pub mod event_channel;
pub mod subscription;
pub mod quote_server;
pub mod quote_laws;
pub mod tickers;
