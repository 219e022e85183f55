//! What the quote service promises across its operations: quotes never
//! leave their bounds and move by less than a step; an opened session is
//! there under its id, on the channel the subscriber listens to, with
//! nothing sent yet; an event reaches only live subscribers, each with one
//! message more, and leaves no timed-out session behind.

use vstd::prelude::*;

use crate::stock_quote::{
    moved_price, moved_volume, one_step, quote_in_bounds, StockQuote, PRICE_MAX, PRICE_MIN, PRICE_STEP,
    VOLUME_MAX, VOLUME_MIN, VOLUME_STEP,
};
use crate::event_channel::ChannelModel;
use crate::subscription::{
    after_event, after_ping, channel_of, receiver_ids, session_handed, session_opened, session_stays, timed_out, ManagerModel,
    SessionModel,
};

verus! {

/// A quote after one step of the walk lies within its bounds, and where
/// it started within them, its price moved by less than `PRICE_STEP` and
/// its volume by less than `VOLUME_STEP`, either way.
pub proof fn quote_walk_stays_in_bounds(old: StockQuote, new: StockQuote, timestamp: i64)
    requires
        one_step(old, new, timestamp),
    ensures
        quote_in_bounds(new),
        quote_in_bounds(old) ==> old.price - PRICE_STEP <= new.price < old.price + PRICE_STEP,
        quote_in_bounds(old) ==> old.volume - VOLUME_STEP <= new.volume < old.volume + VOLUME_STEP,
{
    let d = choose|d: int| -PRICE_STEP <= d < PRICE_STEP && new.price == #[trigger] moved_price(old.price, d);
    let e = choose|e: int| -VOLUME_STEP <= e < VOLUME_STEP && new.volume == #[trigger] moved_volume(old.volume, e);
    assert(new.price == moved_price(old.price, d));
    assert(new.volume == moved_volume(old.volume, e));
}

/// The ids of the sessions that asked for `topic`.
pub open spec fn subscriber_ids<E>(s: Map<u128, SessionModel<E>>, topic: Seq<char>) -> Set<u128> {
    s.dom().filter(|id: u128| s[id].topics.contains(topic))
}

/// `new` is the sending end `old` after it was handed, once, a message of
/// `topic` with a clone of `event`: the same channel, and that message
/// after what was handed before.
pub open spec fn handed_once<E: Clone>(old: ChannelModel<E>, new: ChannelModel<E>, topic: Seq<char>, event: E) -> bool {
    &&& new.channel == old.channel
    &&& exists|c: E| #[trigger] cloned(event, c) && new.handed == old.handed.push((topic, c))
}

/// `new` is the session `old` after an event `event` of `topic` that it
/// did not miss: the same topics, last ping and channel, and, where it
/// asked for the topic, a clone of the event with the topic handed to its
/// channel and gone in, after what was there; else the same messages.
pub open spec fn follows_event<E: Clone>(old: SessionModel<E>, new: SessionModel<E>, topic: Seq<char>, event: E) -> bool {
    &&& new.topics == old.topics
    &&& new.last_ping == old.last_ping
    &&& new.channel == old.channel
    &&& if old.topics.contains(topic) {
        exists|c: E|
            #[trigger] cloned(event, c) && new.handed == old.handed.push((topic, c)) && new.delivered
                == old.delivered.push((topic, c))
    } else {
        new.handed == old.handed && new.delivered == old.delivered
    }
}

/// After the event `event` of `topic` at `now`: no more sessions received
/// it than had asked for the topic; each session either stays or has its
/// sending end closed; every session that did not time out and asked for
/// the topic was handed the event once, whether it stayed or not; every
/// session left did not time out and follows the event as
/// `follows_event` says.
pub proof fn event_reaches_only_live_subscribers<E: Clone>(
    old: ManagerModel<E>,
    topic: Seq<char>,
    event: E,
    now: i64,
    sent: Map<u128, bool>,
    copies: Map<u128, E>,
    closed: Map<u128, ChannelModel<E>>,
    new: ManagerModel<E>,
    count: int,
)
    requires
        old.sessions.dom().finite(),
        after_event(old, topic, event, now, sent, copies, closed, new, count),
    ensures
        count <= subscriber_ids(old.sessions, topic).len(),
        forall|id: u128| #[trigger] new.sessions.contains_key(id) ==> old.sessions.contains_key(id),
        forall|id: u128| #[trigger] closed.contains_key(id) ==> old.sessions.contains_key(id),
        forall|id: u128|
            #[trigger] old.sessions.contains_key(id) ==> (new.sessions.contains_key(id) <==> !closed.contains_key(id)),
        forall|id: u128|
            old.sessions.contains_key(id) && #[trigger] session_handed(old.sessions[id], topic, now, old.ping_timeout_ms)
                ==> handed_once(
                channel_of(old.sessions[id]),
                if new.sessions.contains_key(id) {
                    channel_of(new.sessions[id])
                } else {
                    closed[id]
                },
                topic,
                event,
            ),
        forall|id: u128|
            #[trigger] new.sessions.contains_key(id) ==> !timed_out(now, new.sessions[id].last_ping, old.ping_timeout_ms),
        forall|id: u128|
            #[trigger] new.sessions.contains_key(id) ==> follows_event(old.sessions[id], new.sessions[id], topic, event),
{
    let t = old.ping_timeout_ms;
    let r = receiver_ids(old.sessions, topic, now, t, sent);
    let subs = subscriber_ids(old.sessions, topic);
    assert(r.subset_of(subs));
    old.sessions.dom().lemma_len_filter(|id: u128| old.sessions[id].topics.contains(topic));
    vstd::set_lib::lemma_len_subset(r, subs);
    assert forall|id: u128|
        old.sessions.contains_key(id) && #[trigger] session_handed(old.sessions[id], topic, now, t) implies handed_once(
        channel_of(old.sessions[id]),
        if new.sessions.contains_key(id) {
            channel_of(new.sessions[id])
        } else {
            closed[id]
        },
        topic,
        event,
    ) by {
        assert(cloned(event, copies[id]));
    }
    assert forall|id: u128| #[trigger] new.sessions.contains_key(id) implies follows_event(
        old.sessions[id],
        new.sessions[id],
        topic,
        event,
    ) by {
        let o = old.sessions[id];
        assert(session_stays(o, topic, now, t, sent[id]));
        if o.topics.contains(topic) {
            assert(session_handed(o, topic, now, t));
            assert(cloned(event, copies[id]));
        }
    }
}

/// Once a session is opened, the manager holds it under its id, for the
/// topics asked, sending on the channel whose receiving end the subscriber
/// got, with nothing sent yet; every other session is as it was.
pub proof fn opened_session_is_there<E>(
    old: ManagerModel<E>,
    id: u128,
    topics: Seq<Seq<char>>,
    channel: int,
    new: ManagerModel<E>,
)
    requires
        session_opened(old, id, topics, channel, new),
    ensures
        new.sessions.contains_key(id),
        new.sessions[id].topics == topics,
        new.sessions[id].channel == channel,
        new.sessions[id].handed == Seq::<(Seq<char>, E)>::empty(),
        new.sessions[id].delivered == Seq::<(Seq<char>, E)>::empty(),
        forall|k: u128| k != id ==> (#[trigger] new.sessions.contains_key(k) <==> old.sessions.contains_key(k)),
        forall|k: u128| k != id && #[trigger] new.sessions.contains_key(k) ==> new.sessions[k] == old.sessions[k],
{
}


/// A ping at time `t` keeps a session alive: its last ping becomes `t`,
/// so an event at a time `u` no more than the timeout later does not find
/// it timed out; where it asked for the event's topic it is handed the
/// event, and where that went through it stays with the event gone in;
/// where it did not ask for the topic it stays as it was.
pub proof fn ping_keeps_session_alive<E: Clone>(
    old: ManagerModel<E>,
    id: u128,
    t: i64,
    pinged: ManagerModel<E>,
    topic: Seq<char>,
    event: E,
    u: i64,
    sent: Map<u128, bool>,
    copies: Map<u128, E>,
    closed: Map<u128, ChannelModel<E>>,
    new: ManagerModel<E>,
    count: int,
)
    requires
        after_ping(old, id, t, pinged),
        after_event(pinged, topic, event, u, sent, copies, closed, new, count),
        u - t <= old.ping_timeout_ms,
    ensures
        pinged.sessions.contains_key(id),
        pinged.sessions[id].last_ping == t,
        pinged.sessions[id].topics == old.sessions[id].topics,
        !timed_out(u, pinged.sessions[id].last_ping, pinged.ping_timeout_ms),
        pinged.sessions[id].topics.contains(topic) ==> session_handed(
            pinged.sessions[id],
            topic,
            u,
            pinged.ping_timeout_ms,
        ),
        pinged.sessions[id].topics.contains(topic) && sent[id] ==> new.sessions.contains_key(id)
            && new.sessions[id].delivered == pinged.sessions[id].delivered.push((topic, copies[id])),
        !pinged.sessions[id].topics.contains(topic) ==> new.sessions.contains_key(id) && new.sessions[id]
            == pinged.sessions[id],
{
}

} // verus!
