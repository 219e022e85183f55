//! The decisions of a quote client: what the server's answer to a
//! subscription request comes to, which UDP messages belong to the
//! session and what line a quote prints as.

use std::sync::atomic::{AtomicBool, Ordering};
use std::sync::Arc;

use vstd::prelude::*;

use crate::chars::{
    decimal, push_decimal, push_signed_decimal, push_str_chars, signed_decimal, string_from_chars,
};
use crate::chars::strings_view;
use crate::quote_protocol::{OpenSubscriptionError, ServerTcpMessage, ServerUdpMessage};

verus! {

/// How many update periods may pass without a message before a client
/// gives up on its session.
pub const INCOMING_MESSAGE_TIMEOUT_FACTOR: u64 = 4;

/// Why the server did not open a session.
#[derive(Debug, Clone)]
pub enum ServerTcpError {
    EmptySubscriptionTickers,
    UnknownSubscriptionTickers { tickers: Vec<String> },
    ServerIsShuttingDown,
    ClientMessageUnrecognized,
}

/// The items with `sep` between each two.
pub open spec fn joined(items: Seq<Seq<char>>, sep: Seq<char>) -> Seq<char>
    decreases items.len(),
{
    if items.len() == 0 {
        seq![]
    } else if items.len() == 1 {
        items[0]
    } else {
        joined(items.drop_last(), sep) + sep + items.last()
    }
}

/// The message that tells a user why the session was not opened.
pub open spec fn server_tcp_error_text(e: ServerTcpError) -> Seq<char> {
    match e {
        ServerTcpError::EmptySubscriptionTickers => "Connection failed, no tickers specified for subscription"@,
        ServerTcpError::UnknownSubscriptionTickers { tickers } =>
            "Connection failed, unknown tickers specified for subscription: "@ + joined(strings_view(tickers@), ", "@),
        ServerTcpError::ServerIsShuttingDown => "Connection failed, server is shutting down"@,
        ServerTcpError::ClientMessageUnrecognized => "Connection failed, incompartible client version"@,
    }
}

/// Appends the strings of `items` with `sep` between each two.
fn push_joined(out: &mut Vec<char>, items: &Vec<String>, sep: &str)
    ensures
        final(out)@ == old(out)@ + joined(strings_view(items@), sep@),
{
    let ghost start = out@;
    let ghost all = strings_view(items@);
    let mut i: usize = 0;
    assert(all.take(0) =~= Seq::<Seq<char>>::empty());
    while i < items.len()
        invariant
            i <= items@.len(),
            all == strings_view(items@),
            out@ == start + joined(all.take(i as int), sep@),
        decreases items@.len() - i,
    {
        assert(all.take(i + 1).drop_last() =~= all.take(i as int));
        assert(all.take(i + 1).last() == items@[i as int]@);
        if i > 0 {
            push_str_chars(out, sep);
        }
        push_str_chars(out, items[i].as_str());
        assert(out@ =~= start + joined(all.take(i + 1), sep@));
        i = i + 1;
    }
    assert(all.take(items@.len() as int) =~= all);
}

impl ServerTcpError {
    /// The message that tells a user why the session was not opened.
    pub fn describe(&self) -> (r: String)
        ensures
            r@ == server_tcp_error_text(*self),
    {
        let mut out: Vec<char> = Vec::new();
        match self {
            ServerTcpError::EmptySubscriptionTickers => {
                push_str_chars(&mut out, "Connection failed, no tickers specified for subscription");
            },
            ServerTcpError::UnknownSubscriptionTickers { tickers } => {
                push_str_chars(&mut out, "Connection failed, unknown tickers specified for subscription: ");
                push_joined(&mut out, tickers, ", ");
            },
            ServerTcpError::ServerIsShuttingDown => {
                push_str_chars(&mut out, "Connection failed, server is shutting down");
            },
            ServerTcpError::ClientMessageUnrecognized => {
                push_str_chars(&mut out, "Connection failed, incompartible client version");
            },
        }
        string_from_chars(out.as_slice())
    }
}

/// The client's reading of a refusal by the server.
pub open spec fn client_error_for(error: OpenSubscriptionError) -> ServerTcpError {
    match error {
        OpenSubscriptionError::EmptyTickers => ServerTcpError::EmptySubscriptionTickers,
        OpenSubscriptionError::UnknownTickers { tickers } => ServerTcpError::UnknownSubscriptionTickers { tickers },
        OpenSubscriptionError::ShuttingDown => ServerTcpError::ServerIsShuttingDown,
    }
}

/// The client's reading of a refusal by the server.
pub fn map_server_open_subscription_error(error: OpenSubscriptionError) -> (r: ServerTcpError)
    ensures
        r == client_error_for(error),
{
    match error {
        OpenSubscriptionError::EmptyTickers => ServerTcpError::EmptySubscriptionTickers,
        OpenSubscriptionError::UnknownTickers { tickers } => ServerTcpError::UnknownSubscriptionTickers { tickers },
        OpenSubscriptionError::ShuttingDown => ServerTcpError::ServerIsShuttingDown,
    }
}

/// What the server granted a session.
#[derive(Debug, Clone, Copy, PartialEq, Eq, Structural)]
pub struct SessionParams {
    pub session_id: u128,
    pub server_udp_port: u16,
    pub ping_timeout_ms: u32,
    pub update_period_ms: u32,
}

/// The session that the server's answer opens, or why it opens none.
pub fn session_from_response(response: ServerTcpMessage) -> (r: Result<SessionParams, ServerTcpError>)
    ensures
        match response {
            ServerTcpMessage::OpenSubscriptionSucceed {
                session_id,
                server_udp_port,
                ping_timeout_ms,
                update_period_ms,
            } => r == Ok::<SessionParams, ServerTcpError>(
                SessionParams { session_id, server_udp_port, ping_timeout_ms, update_period_ms },
            ),
            ServerTcpMessage::OpenSubscriptionFailed { error } => r == Err::<SessionParams, ServerTcpError>(
                client_error_for(error),
            ),
            ServerTcpMessage::ClientMessageUnrecognized => r == Err::<SessionParams, ServerTcpError>(
                ServerTcpError::ClientMessageUnrecognized,
            ),
        },
{
    match response {
        ServerTcpMessage::OpenSubscriptionSucceed {
            session_id,
            server_udp_port,
            ping_timeout_ms,
            update_period_ms,
        } => Ok(SessionParams { session_id, server_udp_port, ping_timeout_ms, update_period_ms }),
        ServerTcpMessage::OpenSubscriptionFailed { error } => Err(map_server_open_subscription_error(error)),
        ServerTcpMessage::ClientMessageUnrecognized => Err(ServerTcpError::ClientMessageUnrecognized),
    }
}

/// How long a client waits for a message of its session before it opens
/// a new one, in milliseconds.
pub fn incoming_message_timeout_ms(update_period_ms: u32) -> (r: u64)
    ensures
        r == update_period_ms * INCOMING_MESSAGE_TIMEOUT_FACTOR,
{
    update_period_ms as u64 * INCOMING_MESSAGE_TIMEOUT_FACTOR
}

/// The line that a quote prints as.
pub open spec fn quote_line_text(ticker: Seq<char>, price: u64, volume: u32, timestamp: i64) -> Seq<char> {
    "ticker: "@ + ticker + "; price: "@ + decimal(price as nat) + "; volume: "@ + decimal(volume as nat)
        + "; timestamp: "@ + signed_decimal(timestamp as int)
}

/// The line to print for a message, where it is a quote of the session
/// `session_id`; nothing for a quote of another session or a timeout.
pub fn map_udp_server_message(session_id: u128, message: &ServerUdpMessage) -> (r: Option<String>)
    ensures
        match message {
            ServerUdpMessage::Quote { session_id: s, ticker, price, volume, timestamp } => if *s == session_id {
                r matches Some(line) && line@ == quote_line_text(ticker@, *price, *volume, *timestamp)
            } else {
                r is None
            },
            ServerUdpMessage::TimedOut => r is None,
        },
{
    match message {
        ServerUdpMessage::Quote { session_id: s, ticker, price, volume, timestamp } => {
            if *s != session_id {
                return None;
            }
            let mut out: Vec<char> = Vec::new();
            push_str_chars(&mut out, "ticker: ");
            push_str_chars(&mut out, ticker.as_str());
            push_str_chars(&mut out, "; price: ");
            push_decimal(&mut out, *price);
            push_str_chars(&mut out, "; volume: ");
            push_decimal(&mut out, *volume as u64);
            push_str_chars(&mut out, "; timestamp: ");
            push_signed_decimal(&mut out, *timestamp);
            Some(string_from_chars(out.as_slice()))
        },
        ServerUdpMessage::TimedOut => None,
    }
}

/// A handle that stops a running client.
pub struct QuoteClientHandle {
    client_active: Arc<AtomicBool>,
}

impl QuoteClientHandle {
    /// A handle on the flag that keeps a client running.
    pub fn new(client_active: Arc<AtomicBool>) -> (r: Self)
        ensures
            r.flag() == client_active,
    {
        QuoteClientHandle { client_active }
    }

    /// The flag that keeps the client running.
    pub closed spec fn flag(&self) -> Arc<AtomicBool> {
        self.client_active
    }

    /// Tells the client to stop: it clears the flag.
    pub fn stop(&self) {
        self.client_active.store(false, Ordering::Relaxed);
    }
}

} // verus!
