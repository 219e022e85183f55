//! The decisions of a quote server: what it answers a subscription
//! request, what it sends a subscriber, and one round of quote updates.

use vstd::prelude::*;

use crate::quote_client::{client_error_for, ServerTcpError};
use crate::chars::strings_view;
use crate::event_channel::ChannelModel;
use crate::quote_protocol::{OpenSubscriptionError, ServerTcpMessage, ServerUdpMessage};
use crate::stock_quote::{all_one_step, entry_quotes, entry_tickers, first_occurrences, StockQuote, StockQuoteSource};
use crate::subscription::{
    after_event, event_sent, events_in_order, lemma_events_in_order_empty, lemma_events_in_order_step, session_opened, unknown_topics, Subscription, SubscriptionManager,
    SubscriptionManagerError,
};

verus! {

/// A client is told to ping this many times within the client timeout.
pub const CLIENT_TIMEOUT_FACTOR: u32 = 4;

/// The refusal that a manager's error is answered with.
pub open spec fn refusal_for(error: SubscriptionManagerError) -> OpenSubscriptionError {
    match error {
        SubscriptionManagerError::EmptyTopics => OpenSubscriptionError::EmptyTickers,
        SubscriptionManagerError::UnknownTopics { topics } => OpenSubscriptionError::UnknownTickers { tickers: topics },
        SubscriptionManagerError::ShuttingDown => OpenSubscriptionError::ShuttingDown,
    }
}

/// The answer that refuses a subscription for a manager's error.
pub fn response_subscription_error(error: SubscriptionManagerError) -> (r: ServerTcpMessage)
    ensures
        r == (ServerTcpMessage::OpenSubscriptionFailed { error: refusal_for(error) }),
{
    let error_cause = match error {
        SubscriptionManagerError::EmptyTopics => OpenSubscriptionError::EmptyTickers,
        SubscriptionManagerError::UnknownTopics { topics } => OpenSubscriptionError::UnknownTickers { tickers: topics },
        SubscriptionManagerError::ShuttingDown => OpenSubscriptionError::ShuttingDown,
    };
    ServerTcpMessage::OpenSubscriptionFailed { error: error_cause }
}

/// The answer to a client whose session opened: its id, the server's UDP
/// port, how often to ping (a quarter of the client timeout, rounded
/// down) and how often quotes come.
pub fn subscription_succeeded(
    session_id: u128,
    server_udp_port: u16,
    client_timeout_ms: u32,
    update_period_ms: u32,
) -> (r: ServerTcpMessage)
    ensures
        r == (ServerTcpMessage::OpenSubscriptionSucceed {
            session_id,
            server_udp_port,
            ping_timeout_ms: (client_timeout_ms / CLIENT_TIMEOUT_FACTOR) as u32,
            update_period_ms,
        }),
{
    ServerTcpMessage::OpenSubscriptionSucceed {
        session_id,
        server_udp_port,
        ping_timeout_ms: client_timeout_ms / CLIENT_TIMEOUT_FACTOR,
        update_period_ms,
    }
}

/// Handles a subscription request for `tickers`: the answer for the
/// client, and the subscription where one opened. A refusal changes
/// nothing; which request is refused, and how, is `subscribe`'s.
pub fn open_subscription(
    manager: &mut SubscriptionManager<StockQuote>,
    tickers: Vec<String>,
    server_udp_port: u16,
    client_timeout_ms: u32,
    update_period_ms: u32,
) -> (r: (ServerTcpMessage, Option<Subscription<StockQuote>>))
    ensures
        !old(manager).model().active ==> (r.0 matches ServerTcpMessage::OpenSubscriptionFailed {
            error: OpenSubscriptionError::ShuttingDown,
        } && r.1 is None && final(manager).model() == old(manager).model()),
        old(manager).model().active && tickers@.len() == 0 ==> (r.0 matches ServerTcpMessage::OpenSubscriptionFailed {
            error: OpenSubscriptionError::EmptyTickers,
        } && r.1 is None && final(manager).model() == old(manager).model()),
        old(manager).model().active && tickers@.len() > 0 && unknown_topics(
            old(manager).model().topics,
            strings_view(tickers@),
        ).len() > 0 ==> (r.0 matches ServerTcpMessage::OpenSubscriptionFailed {
            error: OpenSubscriptionError::UnknownTickers { tickers: u },
        } && strings_view(u@) == unknown_topics(old(manager).model().topics, strings_view(tickers@)) && r.1 is None
            && final(manager).model() == old(manager).model()),
        old(manager).model().active && tickers@.len() > 0 && unknown_topics(
            old(manager).model().topics,
            strings_view(tickers@),
        ).len() == 0 ==> (r.1 matches Some(sub) && r.0 == (ServerTcpMessage::OpenSubscriptionSucceed {
            session_id: sub.session_id,
            server_udp_port,
            ping_timeout_ms: (client_timeout_ms / CLIENT_TIMEOUT_FACTOR) as u32,
            update_period_ms,
        }) && session_opened(
            old(manager).model(),
            sub.session_id,
            first_occurrences(strings_view(tickers@)),
            sub.event_receiver.tag(),
            final(manager).model(),
        )),
{
    match manager.subscribe(tickers) {
        Ok(subscription) => {
            let message = subscription_succeeded(
                subscription.session_id,
                server_udp_port,
                client_timeout_ms,
                update_period_ms,
            );
            (message, Some(subscription))
        },
        Err(e) => (response_subscription_error(e), None),
    }
}

/// The UDP message that carries a quote of `ticker` to the session `session_id`.
pub fn quote_message(session_id: u128, ticker: String, quote: StockQuote) -> (r: ServerUdpMessage)
    ensures
        r matches ServerUdpMessage::Quote { session_id: s, ticker: t, price, volume, timestamp } && s == session_id
            && t@ == ticker@ && price == quote.price && volume == quote.volume && timestamp == quote.timestamp,
{
    ServerUdpMessage::Quote {
        session_id,
        ticker,
        price: quote.price,
        volume: quote.volume,
        timestamp: quote.timestamp,
    }
}

/// One round of quote updates: every quote moves one step, all at one
/// time, then each quote is sent, ticker by ticker in order, to the
/// subscribers of its ticker. `false` where the manager is shut down and
/// there was a quote to send, the sign to stop, with the manager as it
/// was; `true` otherwise.
pub fn publish_quotes(manager: &mut SubscriptionManager<StockQuote>, source: &mut StockQuoteSource) -> (r: bool)
    ensures
        r == (old(manager).model().active || old(source).tickers().len() == 0),
        final(source).tickers() == old(source).tickers(),
        exists|now: i64| #[trigger] all_one_step(old(source).quotes(), final(source).quotes(), now),
        r ==> events_in_order(
            old(manager).model(),
            final(source).tickers(),
            final(source).quotes(),
            final(manager).model(),
        ),
        !r ==> final(manager).model() == old(manager).model(),
{
    source.update();
    let entries = source.quotes_by_ticker();
    let ghost tickers = entry_tickers(entries@);
    let ghost quotes = entry_quotes(entries@);
    let ghost start = old(manager).model();
    let ghost old_tickers = old(source).tickers();
    let ghost old_quotes = old(source).quotes();
    let mut i: usize = 0;
    assert(tickers.take(0) =~= Seq::<Seq<char>>::empty());
    assert(quotes.take(0) =~= Seq::<StockQuote>::empty());
    proof {
        lemma_events_in_order_empty(start);
    }
    while i < entries.len()
        invariant
            i <= entries@.len(),
            tickers == entry_tickers(entries@),
            quotes == entry_quotes(entries@),
            tickers == source.tickers(),
            quotes == source.quotes(),
            tickers == old_tickers,
            old_tickers == old(source).tickers(),
            old_quotes == old(source).quotes(),
            exists|now: i64| #[trigger] all_one_step(old_quotes, quotes, now),
            start == old(manager).model(),
            events_in_order(start, tickers.take(i as int), quotes.take(i as int), manager.model()),
            manager.model().active == start.active,
            i > 0 ==> start.active,
            i == 0 ==> manager.model() == start,
        decreases entries@.len() - i,
    {
        let ghost before = manager.model();
        let ghost topic = tickers[i as int];
        let ghost quote = quotes[i as int];
        assert(entries@[i as int].0@ == topic);
        assert(entries@[i as int].1 == quote);
        match manager.send_event(&entries[i].0, &entries[i].1) {
            Ok(count) => {
                proof {
                    let (now, sent, copies, closed) = choose|
                        now: i64,
                        sent: Map<u128, bool>,
                        copies: Map<u128, StockQuote>,
                        closed: Map<u128, ChannelModel<StockQuote>>,
                    | #[trigger] after_event(before, topic, quote, now, sent, copies, closed, manager.model(), count as int);
                    assert(tickers.take(i as int).push(topic) =~= tickers.take(i + 1));
                    assert(quotes.take(i as int).push(quote) =~= quotes.take(i + 1));
                    assert(event_sent(before, topic, quote, manager.model(), count as int));
                    lemma_events_in_order_step(
                        start,
                        tickers.take(i as int),
                        quotes.take(i as int),
                        before,
                        topic,
                        quote,
                        manager.model(),
                        count as int,
                    );
                }
            },
            Err(_) => {
                return false;
            },
        }
        i = i + 1;
    }
    assert(tickers.take(i as int) =~= tickers);
    assert(quotes.take(i as int) =~= quotes);
    true
}

/// A refused request reaches the client as the matching error: no ticker
/// as no ticker, the unknown tickers as those same tickers, a shut-down
/// manager as a server shutting down.
pub proof fn refusal_reaches_client(error: SubscriptionManagerError)
    ensures
        client_error_for(refusal_for(error)) == match error {
            SubscriptionManagerError::EmptyTopics => ServerTcpError::EmptySubscriptionTickers,
            SubscriptionManagerError::UnknownTopics { topics } => ServerTcpError::UnknownSubscriptionTickers {
                tickers: topics,
            },
            SubscriptionManagerError::ShuttingDown => ServerTcpError::ServerIsShuttingDown,
        },
{
}

} // verus!
