use std::sync::atomic::{AtomicBool, Ordering};
use std::sync::Arc;

use ypbank::quote_client::{
    incoming_message_timeout_ms, map_server_open_subscription_error, map_udp_server_message,
    session_from_response, QuoteClientHandle, ServerTcpError, SessionParams,
};
use ypbank::quote_protocol::{OpenSubscriptionError, ServerTcpMessage, ServerUdpMessage};
use ypbank::quote_server::{open_subscription, publish_quotes, quote_message, response_subscription_error};
use ypbank::stock_quote::{
    adjusted_quote, StockQuote, StockQuoteSource, PRICE_MAX, PRICE_MIN, VOLUME_MAX, VOLUME_MIN,
};
use ypbank::subscription::{delivery_step, DeliveryStep, SubscriptionManager, SubscriptionManagerError};

fn strings(items: &[&str]) -> Vec<String> {
    items.iter().map(|s| s.to_string()).collect()
}

#[test]
fn quote_step_formula() {
    let q = StockQuote { price: 5_000, volume: 500, timestamp: 0 };
    assert_eq!(adjusted_quote(q, -100, 9, 77), StockQuote { price: 4_900, volume: 509, timestamp: 77 });
    let low = StockQuote { price: 1_050, volume: 105, timestamp: 0 };
    assert_eq!(adjusted_quote(low, -100, -10, 1), StockQuote { price: 1_000, volume: 100, timestamp: 1 });
    let high = StockQuote { price: 999_950, volume: 99_995, timestamp: 0 };
    assert_eq!(adjusted_quote(high, 99, 9, 2), StockQuote { price: 1_000_000, volume: 100_000, timestamp: 2 });
}

#[test]
fn quote_source_stays_in_bounds() {
    let tickers = strings(&["AAPL", "MSFT", "AAPL"]);
    let mut source = StockQuoteSource::new(&tickers);
    assert_eq!(source.quotes_by_ticker().len(), 2);
    for (_, q) in source.quotes_by_ticker() {
        assert!(PRICE_MIN <= q.price && q.price < PRICE_MAX);
        assert!(VOLUME_MIN <= q.volume && q.volume < VOLUME_MAX);
        assert_eq!(q.timestamp, 0);
    }
    for _ in 0..50 {
        let before: Vec<StockQuote> = source.quotes_by_ticker().iter().map(|e| e.1).collect();
        source.update();
        let after: Vec<StockQuote> = source.quotes_by_ticker().iter().map(|e| e.1).collect();
        for (b, a) in before.iter().zip(after.iter()) {
            assert!(PRICE_MIN <= a.price && a.price <= PRICE_MAX);
            assert!(VOLUME_MIN <= a.volume && a.volume <= VOLUME_MAX);
            assert!((a.price as i64 - b.price as i64).abs() <= 100);
            assert!((a.volume as i64 - b.volume as i64).abs() <= 10);
            assert_eq!(a.timestamp, after[0].timestamp);
        }
    }
    assert!(source.get(&"MSFT".to_string()).is_some());
    assert!(source.get(&"GOOG".to_string()).is_none());
}

#[test]
fn subscribe_refusals() {
    let mut manager: SubscriptionManager<StockQuote> = SubscriptionManager::new(&strings(&["A", "B"]), 1000);
    assert_eq!(manager.topics_supported().len(), 2);
    assert!(matches!(manager.subscribe(Vec::new()), Err(SubscriptionManagerError::EmptyTopics)));
    match manager.subscribe(strings(&["A", "X", "Y", "X"])) {
        Err(SubscriptionManagerError::UnknownTopics { topics }) => assert_eq!(topics, strings(&["X", "Y", "X"])),
        _ => panic!("expected unknown topics"),
    }
    manager.shut_down();
    assert!(!manager.is_active());
    assert!(matches!(manager.subscribe(strings(&["A"])), Err(SubscriptionManagerError::ShuttingDown)));
    assert!(matches!(manager.refresh_subscription(1), Err(SubscriptionManagerError::ShuttingDown)));
    let q = StockQuote { price: 1_000, volume: 100, timestamp: 0 };
    assert!(matches!(manager.send_event(&"A".to_string(), &q), Err(SubscriptionManagerError::ShuttingDown)));
}

#[test]
fn events_reach_subscribers_of_their_topic() {
    let mut manager: SubscriptionManager<StockQuote> =
        SubscriptionManager::new(&strings(&["A", "B"]), 1_000_000);
    let sub_a = manager.subscribe(strings(&["A", "A"])).ok().unwrap();
    let sub_b = manager.subscribe(strings(&["B"])).ok().unwrap();
    let q = StockQuote { price: 2_000, volume: 300, timestamp: 5 };
    assert_eq!(manager.send_event(&"A".to_string(), &q).ok(), Some(1));
    let (topic, got) = sub_a.event_receiver.receiver().try_recv().unwrap();
    assert_eq!(topic, "A");
    assert_eq!(got, q);
    assert!(sub_b.event_receiver.receiver().try_recv().is_err());
    assert_eq!(manager.refresh_subscription(sub_b.session_id).ok(), Some(true));
    assert_eq!(manager.refresh_subscription(sub_b.session_id ^ 1).ok(), Some(false));
    let b_id = sub_b.session_id;
    drop(sub_b);
    assert_eq!(manager.send_event(&"B".to_string(), &q).ok(), Some(0));
    assert_eq!(manager.refresh_subscription(b_id).ok(), Some(false));
    assert_eq!(manager.refresh_subscription(sub_a.session_id).ok(), Some(true));
}

#[test]
fn timed_out_sessions_are_dropped() {
    let mut manager: SubscriptionManager<StockQuote> = SubscriptionManager::new(&strings(&["A"]), 50);
    let sub = manager.subscribe(strings(&["A"])).ok().unwrap();
    let q = StockQuote { price: 2_000, volume: 300, timestamp: 5 };
    let start = std::time::Instant::now();
    while start.elapsed() < std::time::Duration::from_millis(120) {}
    assert_eq!(manager.send_event(&"A".to_string(), &q).ok(), Some(0));
    assert_eq!(manager.refresh_subscription(sub.session_id).ok(), Some(false));
}

#[test]
fn server_answers() {
    let mut manager: SubscriptionManager<StockQuote> = SubscriptionManager::new(&strings(&["A"]), 400);
    let (message, sub) = open_subscription(&mut manager, strings(&["A"]), 7000, 400, 250);
    let sub = sub.unwrap();
    match message {
        ServerTcpMessage::OpenSubscriptionSucceed { session_id, server_udp_port, ping_timeout_ms, update_period_ms } => {
            assert_eq!(session_id, sub.session_id);
            assert_eq!(server_udp_port, 7000);
            assert_eq!(ping_timeout_ms, 100);
            assert_eq!(update_period_ms, 250);
        },
        _ => panic!("expected success"),
    }
    let (message, sub2) = open_subscription(&mut manager, strings(&["Z"]), 7000, 400, 250);
    assert!(sub2.is_none());
    match message {
        ServerTcpMessage::OpenSubscriptionFailed { error: OpenSubscriptionError::UnknownTickers { tickers } } => {
            assert_eq!(tickers, strings(&["Z"]))
        },
        _ => panic!("expected refusal"),
    }
    assert!(matches!(
        response_subscription_error(SubscriptionManagerError::EmptyTopics),
        ServerTcpMessage::OpenSubscriptionFailed { error: OpenSubscriptionError::EmptyTickers }
    ));
    let m = quote_message(9, "A".to_string(), StockQuote { price: 1_234, volume: 567, timestamp: -8 });
    assert!(matches!(
        m,
        ServerUdpMessage::Quote { session_id: 9, price: 1_234, volume: 567, timestamp: -8, .. }
    ));
}

#[test]
fn publishing_stops_after_shut_down() {
    let tickers = strings(&["A", "B"]);
    let mut manager: SubscriptionManager<StockQuote> = SubscriptionManager::new(&tickers, 1_000_000);
    let mut source = StockQuoteSource::new(manager.topics_supported());
    let sub = manager.subscribe(strings(&["B"])).ok().unwrap();
    assert!(publish_quotes(&mut manager, &mut source));
    let (topic, _) = sub.event_receiver.receiver().try_recv().unwrap();
    assert_eq!(topic, "B");
    manager.shut_down();
    assert!(!publish_quotes(&mut manager, &mut source));
}

#[test]
fn client_reads_refusals() {
    assert_eq!(
        ServerTcpError::UnknownSubscriptionTickers { tickers: strings(&["X", "Y"]) }.describe(),
        "Connection failed, unknown tickers specified for subscription: X, Y"
    );
    assert_eq!(
        ServerTcpError::EmptySubscriptionTickers.describe(),
        "Connection failed, no tickers specified for subscription"
    );
    assert_eq!(ServerTcpError::ServerIsShuttingDown.describe(), "Connection failed, server is shutting down");
    assert_eq!(
        ServerTcpError::ClientMessageUnrecognized.describe(),
        "Connection failed, incompartible client version"
    );
    assert!(matches!(
        map_server_open_subscription_error(OpenSubscriptionError::ShuttingDown),
        ServerTcpError::ServerIsShuttingDown
    ));
    let ok = session_from_response(ServerTcpMessage::OpenSubscriptionSucceed {
        session_id: 42,
        server_udp_port: 1,
        ping_timeout_ms: 2,
        update_period_ms: 3,
    });
    assert_eq!(
        ok.ok(),
        Some(SessionParams { session_id: 42, server_udp_port: 1, ping_timeout_ms: 2, update_period_ms: 3 })
    );
    let refused = session_from_response(ServerTcpMessage::OpenSubscriptionFailed {
        error: OpenSubscriptionError::UnknownTickers { tickers: strings(&["Q"]) },
    });
    match refused {
        Err(ServerTcpError::UnknownSubscriptionTickers { tickers }) => assert_eq!(tickers, strings(&["Q"])),
        _ => panic!("expected refusal"),
    }
    assert!(matches!(
        session_from_response(ServerTcpMessage::ClientMessageUnrecognized),
        Err(ServerTcpError::ClientMessageUnrecognized)
    ));
    assert_eq!(incoming_message_timeout_ms(250), 1000);
}

#[test]
fn client_prints_quotes_of_its_session() {
    let quote = ServerUdpMessage::Quote {
        session_id: 7,
        ticker: "AAPL".to_string(),
        price: 123456,
        volume: 789,
        timestamp: -1700000000,
    };
    assert_eq!(
        map_udp_server_message(7, &quote),
        Some("ticker: AAPL; price: 123456; volume: 789; timestamp: -1700000000".to_string())
    );
    assert_eq!(map_udp_server_message(8, &quote), None);
    assert_eq!(map_udp_server_message(7, &ServerUdpMessage::TimedOut), None);
}

#[test]
fn client_handle_stops() {
    let flag = Arc::new(AtomicBool::new(true));
    let handle = QuoteClientHandle::new(flag.clone());
    handle.stop();
    assert!(!flag.load(Ordering::Relaxed));
}

#[test]
fn ping_timeout_counts_milliseconds() {
    let mut manager: SubscriptionManager<StockQuote> = SubscriptionManager::new(&strings(&["A"]), 5_000);
    let sub = manager.subscribe(strings(&["A"])).ok().unwrap();
    let q = StockQuote { price: 2_000, volume: 300, timestamp: 5 };
    let start = std::time::Instant::now();
    while start.elapsed() < std::time::Duration::from_millis(1100) {}
    assert_eq!(manager.send_event(&"A".to_string(), &q).ok(), Some(1));
    assert_eq!(sub.event_receiver.receiver().try_recv().unwrap().1, q);
}

#[test]
fn delivery_step_decides_by_time_then_topic() {
    assert_eq!(delivery_step(1_000, 900, 100, true), DeliveryStep::Deliver);
    assert_eq!(delivery_step(1_001, 900, 100, true), DeliveryStep::TimedOut);
    assert_eq!(delivery_step(1_001, 900, 100, false), DeliveryStep::TimedOut);
    assert_eq!(delivery_step(1_000, 900, 100, false), DeliveryStep::NotSubscribed);
    assert_eq!(delivery_step(i64::MIN, i64::MAX, 0, true), DeliveryStep::Deliver);
    assert_eq!(delivery_step(i64::MAX, i64::MIN, u32::MAX, true), DeliveryStep::TimedOut);
}

#[test]
fn send_event_at_given_time() {
    let mut manager: SubscriptionManager<StockQuote> = SubscriptionManager::new(&strings(&["A", "B"]), 1_000);
    let sub_a = manager.subscribe(strings(&["A"])).ok().unwrap();
    let sub_b = manager.subscribe(strings(&["B"])).ok().unwrap();
    let q = StockQuote { price: 3_000, volume: 400, timestamp: 9 };
    let (r, closed) = manager.send_event_at(&"A".to_string(), &q, i64::MIN);
    assert_eq!(r.ok(), Some(1));
    assert!(closed.is_empty());
    assert_eq!(sub_a.event_receiver.receiver().try_recv().unwrap(), ("A".to_string(), q));
    assert!(sub_b.event_receiver.receiver().try_recv().is_err());
    let (r, closed) = manager.send_event_at(&"B".to_string(), &q, i64::MAX);
    assert_eq!(r.ok(), Some(0));
    assert_eq!(closed.len(), 2);
    assert!(closed.contains_key(&sub_a.session_id));
    assert!(closed.contains_key(&sub_b.session_id));
    drop(closed);
    assert!(sub_b.event_receiver.receiver().try_recv().is_err());
    assert_eq!(manager.refresh_subscription(sub_a.session_id).ok(), Some(false));
    assert_eq!(manager.refresh_subscription(sub_b.session_id).ok(), Some(false));
    manager.shut_down();
    let (r, closed) = manager.send_event_at(&"A".to_string(), &q, 0);
    assert!(matches!(r, Err(SubscriptionManagerError::ShuttingDown)));
    assert!(closed.is_empty());
}

#[test]
fn topics_served_in_string_order() {
    let manager: SubscriptionManager<StockQuote> =
        SubscriptionManager::new(&strings(&["MSFT", "AAPL", "MSFT", "AA", "GOOG"]), 100);
    assert_eq!(manager.topics_supported().to_vec(), strings(&["AA", "AAPL", "GOOG", "MSFT"]));
}
