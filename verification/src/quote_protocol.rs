//! The messages that a quote client and a quote server exchange: over TCP
//! to open a subscription, over UDP to keep it alive and to carry quotes.
//! A session is named by the 128 bits of its UUID.

use vstd::prelude::*;

verus! {

/// What a client sends over TCP.
#[derive(Debug, Clone)]
pub enum ClientTcpMessage {
    /// Asks for the quotes of some tickers, sent to a UDP port of the client.
    OpenSubscriptionRequest { tickers_subscribed: Vec<String>, client_udp_port: u16 },
}

/// Why the server refused a subscription.
#[derive(Debug, Clone)]
pub enum OpenSubscriptionError {
    /// The request named no ticker.
    EmptyTickers,
    /// The request named tickers that the server does not quote.
    UnknownTickers { tickers: Vec<String> },
    /// The server is shutting down.
    ShuttingDown,
}

/// What the server answers over TCP.
#[derive(Debug, Clone)]
pub enum ServerTcpMessage {
    /// The subscription is open: the session, where to ping, how often to
    /// ping, and how often quotes come.
    OpenSubscriptionSucceed {
        session_id: u128,
        server_udp_port: u16,
        ping_timeout_ms: u32,
        update_period_ms: u32,
    },
    /// The subscription was refused.
    OpenSubscriptionFailed { error: OpenSubscriptionError },
    /// The server could not read the client's message.
    ClientMessageUnrecognized,
}

/// What a client sends over UDP: a ping that keeps its session alive.
#[derive(Debug, Clone, Copy, PartialEq, Eq, Structural)]
pub enum ClientUdpMessage {
    Ping { session_id: u128 },
}

/// What a client receives over UDP.
#[derive(Debug, Clone)]
pub enum ServerUdpMessage {
    /// A quote of a ticker, for a session.
    Quote { session_id: u128, ticker: String, price: u64, volume: u32, timestamp: i64 },
    /// Nothing came within the socket's read timeout.
    TimedOut,
}

} // verus!
