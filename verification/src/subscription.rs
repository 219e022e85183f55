//! Subscriptions of clients to topics: who asked for what, who is still
//! alive, and which subscriber an event goes to.

use std::collections::HashMap;

use vstd::prelude::*;

use crate::chars::{
    chars_less, lemma_chars_less_irreflexive, lemma_chars_less_total, lemma_chars_less_transitive, string_before,
    strings_view,
};
use crate::clock::Clock;
use crate::event_channel::{channel_models, new_event_channel, ChannelModel, EventReceiver, EventSender};
use crate::stock_quote::{first_occurrences, no_duplicates};

verus! {

broadcast use vstd::std_specs::hash::group_hash_axioms;

/// chrono's `Utc::now().timestamp_millis()`: the milliseconds since the
/// Unix epoch, read from `clock`, whose readings it joins. Nothing is
/// stated of the value: it is the time.
#[verifier::external_body]
fn now_millis(clock: &mut Clock) -> (r: i64)
    ensures
        final(clock).readings() == old(clock).readings().push(r),
{
    chrono::Utc::now().timestamp_millis()
}

/// uuid's `Uuid::new_v4`, taken as its 128 bits: a random session id.
/// Nothing is stated of it: it is chance.
#[verifier::external_body]
fn new_session_id() -> u128 {
    uuid::Uuid::new_v4().as_u128()
}

/// Why a request to the manager was refused.
#[derive(Debug, Clone)]
pub enum SubscriptionManagerError {
    /// The request named no topic.
    EmptyTopics,
    /// The request named topics that the manager does not serve.
    UnknownTopics { topics: Vec<String> },
    /// The manager is shut down.
    ShuttingDown,
}

/// A subscription that was opened: its session and where its events arrive.
#[verifier::reject_recursive_types(E)]
pub struct Subscription<E> {
    pub session_id: u128,
    pub event_receiver: EventReceiver<E>,
}

/// A session as the manager sees it: its topics, its last ping (in
/// milliseconds), the channel its events go to, the messages handed to
/// that channel and those that went in, so far.
pub struct SessionModel<E> {
    pub topics: Seq<Seq<char>>,
    pub last_ping: i64,
    pub channel: int,
    pub handed: Seq<(Seq<char>, E)>,
    pub delivered: Seq<(Seq<char>, E)>,
}

/// The state of a manager: its sessions by id.
pub struct ManagerModel<E> {
    pub active: bool,
    pub topics: Seq<Seq<char>>,
    pub ping_timeout_ms: u32,
    pub sessions: Map<u128, SessionModel<E>>,
}

#[verifier::reject_recursive_types(E)]
struct SessionData<E> {
    topics: Vec<String>,
    sender: EventSender<E>,
    last_ping: i64,
}

/// What the manager sees of a session.
spec fn session_model<E>(s: SessionData<E>) -> SessionModel<E> {
    SessionModel {
        topics: strings_view(s.topics@),
        last_ping: s.last_ping,
        channel: s.sender.tag(),
        handed: s.sender.handed(),
        delivered: s.sender.log(),
    }
}

/// The sending end of a session, as known of it.
pub open spec fn channel_of<E>(s: SessionModel<E>) -> ChannelModel<E> {
    ChannelModel { channel: s.channel, handed: s.handed, delivered: s.delivered }
}

/// What the manager sees of each session.
spec fn session_models<E>(m: Map<u128, SessionData<E>>) -> Map<u128, SessionModel<E>> {
    m.map_values(|s: SessionData<E>| session_model(s))
}

/// Each string comes before the next, in the order of strings.
pub open spec fn sorted_strictly(s: Seq<Seq<char>>) -> bool {
    forall|i: int, j: int| 0 <= i < j < s.len() ==> chars_less(s[i], s[j])
}

/// Strings sorted strictly hold no string twice.
pub proof fn lemma_sorted_no_duplicates(s: Seq<Seq<char>>)
    requires
        sorted_strictly(s),
    ensures
        no_duplicates(s),
{
    assert forall|i: int, j: int| 0 <= i < j < s.len() implies s[i] != s[j] by {
        lemma_chars_less_irreflexive(s[i]);
    }
}

/// A session asks for some of the topics served, each once.
pub open spec fn session_fits<E>(supported: Seq<Seq<char>>, s: SessionModel<E>) -> bool {
    &&& no_duplicates(s.topics)
    &&& forall|k: int| 0 <= k < s.topics.len() ==> supported.contains(#[trigger] s.topics[k])
}

/// The requested topics that are not served, in the order of the request.
pub open spec fn unknown_topics(supported: Seq<Seq<char>>, requested: Seq<Seq<char>>) -> Seq<Seq<char>>
    decreases requested.len(),
{
    if requested.len() == 0 {
        seq![]
    } else {
        unknown_topics(supported, requested.drop_last()) + if supported.contains(requested.last()) {
            Seq::<Seq<char>>::empty()
        } else {
            seq![requested.last()]
        }
    }
}

/// More than `timeout_ms` milliseconds passed between the last ping and
/// `now`, both clock readings in milliseconds.
pub open spec fn timed_out(now: i64, last_ping: i64, timeout_ms: u32) -> bool {
    now - last_ping > timeout_ms
}

/// Whether an event of `topic` at `now` is handed to a session: it did
/// not time out and it asked for the topic.
pub open spec fn session_handed<E>(s: SessionModel<E>, topic: Seq<char>, now: i64, timeout_ms: u32) -> bool {
    !timed_out(now, s.last_ping, timeout_ms) && s.topics.contains(topic)
}

/// Whether a session stays after an event of `topic` at `now`, where
/// `sent` says whether the message handed to it went through: it stays
/// unless it timed out, or it was handed the message and it did not go through.
pub open spec fn session_stays<E>(s: SessionModel<E>, topic: Seq<char>, now: i64, timeout_ms: u32, sent: bool) -> bool {
    !timed_out(now, s.last_ping, timeout_ms) && (!s.topics.contains(topic) || sent)
}

/// Whether a session receives an event of `topic` at `now`: it was handed
/// the message and it went through.
pub open spec fn session_receives<E>(s: SessionModel<E>, topic: Seq<char>, now: i64, timeout_ms: u32, sent: bool) -> bool {
    session_handed(s, topic, now, timeout_ms) && sent
}

/// The session after an event of `topic` at `now`: where it is handed the
/// message `(topic, copy)`, the message joins what was handed to its
/// channel, and where it went through, what went in; else the session as it was.
pub open spec fn after_handing<E>(
    s: SessionModel<E>,
    topic: Seq<char>,
    now: i64,
    timeout_ms: u32,
    sent: bool,
    copy: E,
) -> SessionModel<E> {
    if session_handed(s, topic, now, timeout_ms) {
        SessionModel {
            topics: s.topics,
            last_ping: s.last_ping,
            channel: s.channel,
            handed: s.handed.push((topic, copy)),
            delivered: if sent {
                s.delivered.push((topic, copy))
            } else {
                s.delivered
            },
        }
    } else {
        s
    }
}

/// The ids of the sessions that receive an event of `topic` at `now`,
/// where `sent[id]` says whether the message to session `id` went through.
pub open spec fn receiver_ids<E>(
    s: Map<u128, SessionModel<E>>,
    topic: Seq<char>,
    now: i64,
    timeout_ms: u32,
    sent: Map<u128, bool>,
) -> Set<u128> {
    s.dom().filter(|id: u128| session_receives(s[id], topic, now, timeout_ms, sent[id]))
}

/// The sessions that stay after an event of `topic` at `now`, each as
/// `after_handing` says with the message `(topic, copies[id])`.
pub open spec fn sessions_after_event<E>(
    s: Map<u128, SessionModel<E>>,
    topic: Seq<char>,
    now: i64,
    timeout_ms: u32,
    sent: Map<u128, bool>,
    copies: Map<u128, E>,
) -> Map<u128, SessionModel<E>> {
    Map::new(
        |id: u128| s.contains_key(id) && session_stays(s[id], topic, now, timeout_ms, sent[id]),
        |id: u128| after_handing(s[id], topic, now, timeout_ms, sent[id], copies[id]),
    )
}

/// The sending ends of the sessions dropped by an event of `topic` at
/// `now`, each as `after_handing` says with the message `(topic, copies[id])`.
pub open spec fn channels_closed_by_event<E>(
    s: Map<u128, SessionModel<E>>,
    topic: Seq<char>,
    now: i64,
    timeout_ms: u32,
    sent: Map<u128, bool>,
    copies: Map<u128, E>,
) -> Map<u128, ChannelModel<E>> {
    Map::new(
        |id: u128| s.contains_key(id) && !session_stays(s[id], topic, now, timeout_ms, sent[id]),
        |id: u128| channel_of(after_handing(s[id], topic, now, timeout_ms, sent[id], copies[id])),
    )
}

/// `new` is `old` after the event `event` of `topic` at `now`, where
/// `sent[id]` says of session `id` whether the message handed to it went
/// through and `copies[id]` is the clone of `event` in that message: each
/// session that did not time out and asked for the topic was handed
/// `(topic, copies[id])` once; `count` sessions received it; the sessions
/// that timed out or whose message did not go through were dropped, their
/// sending ends, with what was handed to them, being `closed`.
pub open spec fn after_event<E: Clone>(
    old: ManagerModel<E>,
    topic: Seq<char>,
    event: E,
    now: i64,
    sent: Map<u128, bool>,
    copies: Map<u128, E>,
    closed: Map<u128, ChannelModel<E>>,
    new: ManagerModel<E>,
    count: int,
) -> bool {
    &&& forall|id: u128|
        old.sessions.contains_key(id) && #[trigger] session_handed(old.sessions[id], topic, now, old.ping_timeout_ms)
            ==> cloned(event, copies[id])
    &&& new.active == old.active
    &&& new.topics == old.topics
    &&& new.ping_timeout_ms == old.ping_timeout_ms
    &&& new.sessions == sessions_after_event(old.sessions, topic, now, old.ping_timeout_ms, sent, copies)
    &&& closed == channels_closed_by_event(old.sessions, topic, now, old.ping_timeout_ms, sent, copies)
    &&& count == receiver_ids(old.sessions, topic, now, old.ping_timeout_ms, sent).len()
}

/// `new` is `old` with the session `id` pinged at `now`.
pub open spec fn after_ping<E>(old: ManagerModel<E>, id: u128, now: i64, new: ManagerModel<E>) -> bool {
    &&& old.sessions.contains_key(id)
    &&& new.active == old.active
    &&& new.topics == old.topics
    &&& new.ping_timeout_ms == old.ping_timeout_ms
    &&& new.sessions == old.sessions.insert(
        id,
        SessionModel {
            topics: old.sessions[id].topics,
            last_ping: now,
            channel: old.sessions[id].channel,
            handed: old.sessions[id].handed,
            delivered: old.sessions[id].delivered,
        },
    )
}

/// `new` is `old` with a session of id `id` for `topics`, pinged at `now`,
/// sending on the channel `channel`, to which nothing was handed yet, in place
/// of any session of that id.
pub open spec fn after_subscribe<E>(
    old: ManagerModel<E>,
    id: u128,
    topics: Seq<Seq<char>>,
    channel: int,
    now: i64,
    new: ManagerModel<E>,
) -> bool {
    &&& new.active == old.active
    &&& new.topics == old.topics
    &&& new.ping_timeout_ms == old.ping_timeout_ms
    &&& new.sessions == old.sessions.insert(
        id,
        SessionModel { topics, last_ping: now, channel, handed: Seq::empty(), delivered: Seq::empty() },
    )
}

/// `new` is `old` after the event `event` of `topic` reached `count`
/// sessions, as `after_event` says, at some time, with some of the
/// messages going through.
pub open spec fn event_sent<E: Clone>(
    old: ManagerModel<E>,
    topic: Seq<char>,
    event: E,
    new: ManagerModel<E>,
    count: int,
) -> bool {
    exists|now: i64, sent: Map<u128, bool>, copies: Map<u128, E>, closed: Map<u128, ChannelModel<E>>|
        #[trigger] after_event(old, topic, event, now, sent, copies, closed, new, count)
}

/// `states` runs from `old` through the events `events[i]` of `topics[i]`,
/// sent in that order, each as `event_sent` says, reaching `counts[i]`
/// sessions.
pub open spec fn event_chain<E: Clone>(
    old: ManagerModel<E>,
    topics: Seq<Seq<char>>,
    events: Seq<E>,
    states: Seq<ManagerModel<E>>,
    counts: Seq<int>,
) -> bool {
    &&& events.len() == topics.len()
    &&& states.len() == topics.len() + 1
    &&& counts.len() == topics.len()
    &&& states[0] == old
    &&& forall|i: int|
        0 <= i < topics.len() ==> #[trigger] event_sent(states[i], topics[i], events[i], states[i + 1], counts[i])
}

/// `new` is `old` after the events `events[i]` of `topics[i]` were sent in
/// that order, each as `event_sent` says.
pub open spec fn events_in_order<E: Clone>(
    old: ManagerModel<E>,
    topics: Seq<Seq<char>>,
    events: Seq<E>,
    new: ManagerModel<E>,
) -> bool {
    exists|states: Seq<ManagerModel<E>>, counts: Seq<int>|
        #[trigger] event_chain(old, topics, events, states, counts) && states.last() == new
}

/// No event leaves the manager as it was.
pub proof fn lemma_events_in_order_empty<E: Clone>(old: ManagerModel<E>)
    ensures
        events_in_order(old, Seq::<Seq<char>>::empty(), Seq::<E>::empty(), old),
{
    assert(event_chain(old, Seq::<Seq<char>>::empty(), Seq::<E>::empty(), seq![old], Seq::<int>::empty()));
}

/// One more event after a run of events in order.
pub proof fn lemma_events_in_order_step<E: Clone>(
    old: ManagerModel<E>,
    topics: Seq<Seq<char>>,
    events: Seq<E>,
    mid: ManagerModel<E>,
    topic: Seq<char>,
    event: E,
    new: ManagerModel<E>,
    count: int,
)
    requires
        events_in_order(old, topics, events, mid),
        event_sent(mid, topic, event, new, count),
    ensures
        events_in_order(old, topics.push(topic), events.push(event), new),
{
    let (states, counts) = choose|states: Seq<ManagerModel<E>>, counts: Seq<int>|
        #[trigger] event_chain(old, topics, events, states, counts) && states.last() == mid;
    let st = states.push(new);
    let cs = counts.push(count);
    let ts = topics.push(topic);
    let es = events.push(event);
    assert forall|i: int| 0 <= i < ts.len() implies #[trigger] event_sent(st[i], ts[i], es[i], st[i + 1], cs[i]) by {
        if i < topics.len() {
            assert(st[i] == states[i] && st[i + 1] == states[i + 1] && ts[i] == topics[i] && es[i] == events[i]
                && cs[i] == counts[i]);
            assert(event_sent(states[i], topics[i], events[i], states[i + 1], counts[i]));
        } else {
            assert(st[i] == mid && st[i + 1] == new && ts[i] == topic && es[i] == event && cs[i] == count);
        }
    }
    assert(event_chain(old, ts, es, st, cs));
}

/// `new` is `old` with the session `id` pinged at some time.
pub open spec fn pinged<E>(old: ManagerModel<E>, id: u128, new: ManagerModel<E>) -> bool {
    exists|now: i64| #[trigger] after_ping(old, id, now, new)
}

/// `new` is `old` with a session of id `id` for `topics`, sending on the
/// channel `channel`, pinged at some time, in place of any session of that id.
pub open spec fn session_opened<E>(
    old: ManagerModel<E>,
    id: u128,
    topics: Seq<Seq<char>>,
    channel: int,
    new: ManagerModel<E>,
) -> bool {
    exists|now: i64| #[trigger] after_subscribe(old, id, topics, channel, now, new)
}

/// Adding to a finite set a key it lacks adds one to the number of its
/// keys that pass `f` exactly where the new key passes it.
proof fn lemma_filter_insert(p: Set<u128>, k: u128, f: spec_fn(u128) -> bool)
    requires
        p.finite(),
        !p.contains(k),
    ensures
        p.insert(k).filter(f).len() == p.filter(f).len() + if f(k) {
            1int
        } else {
            0int
        },
        p.insert(k).finite(),
{
    assert(p.filter(f).finite()) by {
        p.lemma_len_filter(f);
    }
    if f(k) {
        assert(p.insert(k).filter(f) =~= p.filter(f).insert(k));
    } else {
        assert(p.insert(k).filter(f) =~= p.filter(f));
    }
}

/// Whether `s` has an item of the characters of `x`.
fn contains_string(v: &Vec<String>, x: &String) -> (r: bool)
    ensures
        r == strings_view(v@).contains(x@),
{
    let mut i: usize = 0;
    while i < v.len()
        invariant
            i <= v@.len(),
            forall|j: int| 0 <= j < i ==> strings_view(v@)[j] != x@,
        decreases v@.len() - i,
    {
        if v[i] == *x {
            assert(strings_view(v@)[i as int] == x@);
            return true;
        }
        i = i + 1;
    }
    false
}

/// The ids of the sessions, each once, in the order the map walks them.
fn session_ids<E>(sessions: &HashMap<u128, SessionData<E>>) -> (r: Vec<u128>)
    ensures
        r@.no_duplicates(),
        r@.to_set() == sessions@.dom(),
{
    let mut r: Vec<u128> = Vec::new();
    let keys = sessions.keys();
    let ghost walk = vstd::std_specs::iter::IteratorSpec::remaining(&keys);
    for k in it: keys
        invariant
            r@.len() == it.index(),
            forall|i: int| 0 <= i < it.index() ==> r@[i] == *it.seq()[i],
    {
        r.push(*k);
    }
    assert(r@ =~= walk.unref());
    r
}

/// What an event does with one session, its topics and the time aside.
#[derive(Clone, Copy, PartialEq, Eq, Structural, Debug)]
pub enum DeliveryStep {
    /// The session timed out: it is dropped and gets nothing.
    TimedOut,
    /// The session did not ask for the topic: it stays and gets nothing.
    NotSubscribed,
    /// The event is handed to the session's channel.
    Deliver,
}

/// What an event at `now` does with a session last pinged at `last_ping`
/// that did or did not ask for its topic.
pub open spec fn delivery_step_of(now: i64, last_ping: i64, timeout_ms: u32, subscribed: bool) -> DeliveryStep {
    if timed_out(now, last_ping, timeout_ms) {
        DeliveryStep::TimedOut
    } else if !subscribed {
        DeliveryStep::NotSubscribed
    } else {
        DeliveryStep::Deliver
    }
}

/// What an event at `now` does with a session last pinged at
/// `last_ping`: a session silent for more than `timeout_ms` milliseconds
/// timed out; else one that did not ask for the topic is left alone; else
/// the event is handed to it.
pub fn delivery_step(now: i64, last_ping: i64, timeout_ms: u32, subscribed: bool) -> (r: DeliveryStep)
    ensures
        r == delivery_step_of(now, last_ping, timeout_ms, subscribed),
{
    let wide_now: i128 = now as i128;
    let wide_last: i128 = last_ping as i128;
    if wide_now - wide_last > timeout_ms as i128 {
        DeliveryStep::TimedOut
    } else if !subscribed {
        DeliveryStep::NotSubscribed
    } else {
        DeliveryStep::Deliver
    }
}

/// Serves events of some topics to the sessions that subscribe to them,
/// and drops the sessions that stop pinging or stop listening.
#[verifier::reject_recursive_types(E)]
pub struct SubscriptionManager<E: Clone> {
    active: bool,
    topics_supported: Vec<String>,
    session_ping_timeout_ms: u32,
    sessions_by_id: HashMap<u128, SessionData<E>>,
    clock: Clock,
}

impl<E: Clone> SubscriptionManager<E> {
    #[verifier::type_invariant]
    spec fn well_formed(&self) -> bool {
        let m = self.model();
        &&& sorted_strictly(m.topics)
        &&& no_duplicates(m.topics)
        &&& forall|id: u128| #[trigger] m.sessions.contains_key(id) ==> session_fits(m.topics, m.sessions[id])
        &&& !m.active ==> m.sessions.dom() == Set::<u128>::empty()
    }

    /// The state of the manager.
    pub closed spec fn model(&self) -> ManagerModel<E> {
        ManagerModel {
            active: self.active,
            topics: strings_view(self.topics_supported@),
            ping_timeout_ms: self.session_ping_timeout_ms,
            sessions: session_models(self.sessions_by_id@),
        }
    }

    /// The readings taken from the manager's clock, in milliseconds,
    /// oldest first.
    pub closed spec fn clock_readings(&self) -> Seq<i64> {
        self.clock.readings()
    }

    /// Reads the manager's clock.
    fn read_clock(&mut self) -> (now: i64)
        ensures
            final(self).model() == old(self).model(),
            final(self).clock_readings() == old(self).clock_readings().push(now),
    {
        proof {
            use_type_invariant(&*self);
        }
        let mut clock = Clock::new();
        std::mem::swap(&mut clock, &mut self.clock);
        let now = now_millis(&mut clock);
        self.clock = clock;
        now
    }

    /// An active manager of `topics`, each once and in the order of
    /// strings, with no session; a session that does not ping for
    /// `ping_timeout_ms` is dropped.
    pub fn new(topics: &Vec<String>, ping_timeout_ms: u32) -> (r: Self)
        ensures
            r.model().active,
            sorted_strictly(r.model().topics),
            forall|t: Seq<char>| r.model().topics.contains(t) <==> strings_view(topics@).contains(t),
            r.model().ping_timeout_ms == ping_timeout_ms,
            r.model().sessions == Map::<u128, SessionModel<E>>::empty(),
            r.clock_readings() == Seq::<i64>::empty(),
    {
        let ghost all = strings_view(topics@);
        let mut supported: Vec<String> = Vec::new();
        let mut i: usize = 0;
        while i < topics.len()
            invariant
                i <= topics@.len(),
                all == strings_view(topics@),
                sorted_strictly(strings_view(supported@)),
                forall|t: Seq<char>| strings_view(supported@).contains(t) <==> all.take(i as int).contains(t),
            decreases topics@.len() - i,
        {
            let ghost sv = strings_view(supported@);
            let ghost x = topics@[i as int]@;
            assert(all.take(i + 1) =~= all.take(i as int).push(x));
            let ghost grown = all.take(i + 1);
            let ghost before_i = all.take(i as int);
            assert forall|t: Seq<char>| grown.contains(t) <==> (before_i.contains(t) || t == x) by {
                if grown.contains(t) {
                    let k = choose|k: int| 0 <= k < grown.len() && grown[k] == t;
                    if k < before_i.len() {
                        assert(before_i[k] == t);
                    }
                }
                if before_i.contains(t) {
                    let k = choose|k: int| 0 <= k < before_i.len() && before_i[k] == t;
                    assert(grown[k] == t);
                }
                if t == x {
                    assert(grown[i as int] == t);
                }
            }
            let mut p: usize = 0;
            while p < supported.len() && string_before(&supported[p], &topics[i])
                invariant
                    p <= supported@.len(),
                    i < topics@.len(),
                    sv == strings_view(supported@),
                    x == topics@[i as int]@,
                    forall|j: int| 0 <= j < p ==> chars_less(#[trigger] sv[j], x),
                decreases supported@.len() - p,
            {
                p = p + 1;
            }
            if p < supported.len() && supported[p] == topics[i] {
                assert(sv[p as int] == x);
            } else {
                proof {
                    if p < sv.len() {
                        lemma_chars_less_total(sv[p as int], x);
                    }
                }
                supported.insert(p, topics[i].clone());
                proof {
                    let nv = strings_view(supported@);
                    assert(nv =~= sv.take(p as int) + seq![x] + sv.skip(p as int));
                    assert forall|a: int, b: int| 0 <= a < b < nv.len() implies chars_less(nv[a], nv[b]) by {
                        if b < p {
                            assert(nv[a] == sv[a] && nv[b] == sv[b]);
                        } else if b == p {
                            assert(nv[a] == sv[a]);
                        } else if a < p {
                            assert(nv[a] == sv[a] && nv[b] == sv[b - 1]);
                        } else if a == p {
                            assert(nv[b] == sv[b - 1]);
                            if b - 1 > p {
                                lemma_chars_less_transitive(x, sv[p as int], sv[b - 1]);
                            }
                        } else {
                            assert(nv[a] == sv[a - 1] && nv[b] == sv[b - 1]);
                        }
                    }
                    assert forall|t: Seq<char>| nv.contains(t) <==> (sv.contains(t) || t == x) by {
                        if nv.contains(t) {
                            let k = choose|k: int| 0 <= k < nv.len() && nv[k] == t;
                            if k < p {
                                assert(sv[k] == t);
                            } else if k > p {
                                assert(sv[k - 1] == t);
                            }
                        }
                        if sv.contains(t) {
                            let k = choose|k: int| 0 <= k < sv.len() && sv[k] == t;
                            if k < p {
                                assert(nv[k] == t);
                            } else {
                                assert(nv[k + 1] == t);
                            }
                        }
                        if t == x {
                            assert(nv[p as int] == t);
                        }
                    }
                }
            }
            i = i + 1;
        }
        assert(all.take(topics@.len() as int) =~= all);
        proof {
            lemma_sorted_no_duplicates(strings_view(supported@));
        }
        let r = SubscriptionManager {
            active: true,
            topics_supported: supported,
            session_ping_timeout_ms: ping_timeout_ms,
            sessions_by_id: HashMap::new(),
            clock: Clock::new(),
        };
        assert(r.model().sessions =~= Map::<u128, SessionModel<E>>::empty());
        r
    }

    /// A manager holds finitely many sessions.
    pub proof fn sessions_finite(&self)
        ensures
            self.model().sessions.dom().finite(),
    {
        assert(self.model().sessions.dom() =~= self.sessions_by_id@.dom());
    }

    /// The topics served, each once, in the order of strings.
    pub fn topics_supported(&self) -> (r: &[String])
        ensures
            strings_view(r@) == self.model().topics,
            sorted_strictly(self.model().topics),
            no_duplicates(self.model().topics),
    {
        proof {
            use_type_invariant(self);
        }
        self.topics_supported.as_slice()
    }

    /// Whether the manager still serves requests.
    pub fn is_active(&self) -> (r: bool)
        ensures
            r == self.model().active,
    {
        self.active
    }

    /// Opens a session for `topics`. Refused while shut down, for no
    /// topic, and for topics not served (named in the error, in the order
    /// of the request); else the session, of a random id, asks for each
    /// topic once, counts as pinged now, and sends on a new channel whose
    /// receiving end the subscription holds.
    pub fn subscribe(&mut self, topics: Vec<String>) -> (r: Result<Subscription<E>, SubscriptionManagerError>)
        ensures
            !old(self).model().active ==> (r matches Err(SubscriptionManagerError::ShuttingDown)
                && final(self).model() == old(self).model()),
            old(self).model().active && topics@.len() == 0 ==> (r matches Err(SubscriptionManagerError::EmptyTopics)
                && final(self).model() == old(self).model()),
            old(self).model().active && topics@.len() > 0 && unknown_topics(
                old(self).model().topics,
                strings_view(topics@),
            ).len() > 0 ==> (r matches Err(SubscriptionManagerError::UnknownTopics { topics: u }) && strings_view(u@)
                == unknown_topics(old(self).model().topics, strings_view(topics@)) && final(self).model() == old(
                self,
            ).model()),
            old(self).model().active && topics@.len() > 0 && unknown_topics(
                old(self).model().topics,
                strings_view(topics@),
            ).len() == 0 ==> (r matches Ok(sub) && session_opened(
                old(self).model(),
                sub.session_id,
                first_occurrences(strings_view(topics@)),
                sub.event_receiver.tag(),
                final(self).model(),
            ) && final(self).model().sessions.contains_key(sub.session_id) && final(self).clock_readings()
                == old(self).clock_readings().push(final(self).model().sessions[sub.session_id].last_ping)),
            r is Err ==> final(self).clock_readings() == old(self).clock_readings(),
    {
        proof {
            use_type_invariant(&*self);
        }
        if !self.active {
            return Err(SubscriptionManagerError::ShuttingDown);
        }
        if topics.len() == 0 {
            return Err(SubscriptionManagerError::EmptyTopics);
        }
        let ghost supported = strings_view(self.topics_supported@);
        let ghost requested = strings_view(topics@);
        let mut subscribed: Vec<String> = Vec::new();
        let mut unknown: Vec<String> = Vec::new();
        let mut i: usize = 0;
        assert(requested.take(0) =~= Seq::<Seq<char>>::empty());
        while i < topics.len()
            invariant
                i <= topics@.len(),
                supported == strings_view(self.topics_supported@),
                requested == strings_view(topics@),
                strings_view(unknown@) == unknown_topics(supported, requested.take(i as int)),
                unknown@.len() == 0 ==> strings_view(subscribed@) == first_occurrences(requested.take(i as int)),
                no_duplicates(strings_view(subscribed@)),
                forall|k: int| 0 <= k < subscribed@.len() ==> supported.contains(#[trigger] strings_view(subscribed@)[k]),
            decreases topics@.len() - i,
        {
            assert(requested.take(i + 1).drop_last() =~= requested.take(i as int));
            assert(requested.take(i + 1).last() == topics@[i as int]@);
            let ghost subscribed_before = strings_view(subscribed@);
            if !contains_string(&self.topics_supported, &topics[i]) {
                unknown.push(topics[i].clone());
            } else if !contains_string(&subscribed, &topics[i]) {
                let topic = topics[i].clone();
                subscribed.push(topic);
                assert(strings_view(subscribed@) =~= subscribed_before.push(topics@[i as int]@));
            }
            assert(strings_view(unknown@) =~= unknown_topics(supported, requested.take(i + 1)));
            assert(unknown@.len() == 0 ==> strings_view(subscribed@) =~= first_occurrences(requested.take(i + 1)));
            i = i + 1;
        }
        assert(requested.take(topics@.len() as int) =~= requested);
        if unknown.len() > 0 {
            return Err(SubscriptionManagerError::UnknownTopics { topics: unknown });
        }
        let (event_sender, event_receiver) = new_event_channel();
        let now = self.read_clock();
        let session_id = new_session_id();
        let data = SessionData { topics: subscribed, sender: event_sender, last_ping: now };
        let ghost before = self.model();
        let ghost channel = event_receiver.tag();
        let ghost added = session_model(data);
        let mut sessions: HashMap<u128, SessionData<E>> = HashMap::new();
        std::mem::swap(&mut sessions, &mut self.sessions_by_id);
        let ghost all = sessions@;
        sessions.insert(session_id, data);
        proof {
            assert(sessions@ =~= all.insert(session_id, data));
            assert(session_models(sessions@) =~= before.sessions.insert(session_id, added));
        }
        self.sessions_by_id = sessions;
        assert(after_subscribe(before, session_id, first_occurrences(requested), channel, now, self.model()));
        Ok(Subscription { session_id, event_receiver })
    }

    /// Counts a ping of the session `session_id`: refused while shut
    /// down; `true` where the session is there, its last ping now set to
    /// the current time; `false`, with nothing changed, where it is not.
    pub fn refresh_subscription(&mut self, session_id: u128) -> (r: Result<bool, SubscriptionManagerError>)
        ensures
            !old(self).model().active ==> (r matches Err(SubscriptionManagerError::ShuttingDown)
                && final(self).model() == old(self).model()),
            old(self).model().active && !old(self).model().sessions.contains_key(session_id) ==> (r matches Ok(false)
                && final(self).model() == old(self).model()),
            old(self).model().active && old(self).model().sessions.contains_key(session_id) ==> (r matches Ok(true)
                && pinged(old(self).model(), session_id, final(self).model())),
            r matches Ok(true) ==> final(self).clock_readings() == old(self).clock_readings().push(
                final(self).model().sessions[session_id].last_ping,
            ) && after_ping(
                old(self).model(),
                session_id,
                final(self).clock_readings().last(),
                final(self).model(),
            ),
            !(r matches Ok(true)) ==> final(self).clock_readings() == old(self).clock_readings(),
    {
        proof {
            use_type_invariant(&*self);
        }
        if !self.active {
            return Err(SubscriptionManagerError::ShuttingDown);
        }
        let ghost before = self.model();
        let mut sessions: HashMap<u128, SessionData<E>> = HashMap::new();
        std::mem::swap(&mut sessions, &mut self.sessions_by_id);
        let ghost all = sessions@;
        match sessions.remove(&session_id) {
            None => {
                assert(sessions@ =~= all);
                self.sessions_by_id = sessions;
                Ok(false)
            },
            Some(mut data) => {
                let now = self.read_clock();
                data.last_ping = now;
                let ghost pinged_model = session_model(data);
                sessions.insert(session_id, data);
                proof {
                    assert(sessions@ =~= all.insert(session_id, data));
                    assert(session_models(sessions@) =~= before.sessions.insert(session_id, pinged_model));
                }
                self.sessions_by_id = sessions;
                assert(after_ping(before, session_id, now, self.model()));
                Ok(true)
            },
        }
    }

    /// Sends `event` of `topic` to the live sessions that asked for the
    /// topic and counts those it reached. Refused while shut down. A
    /// session that timed out, or whose receiving end is gone, is dropped.
    /// The time is read from the clock; what follows is `send_event_at`'s.
    pub fn send_event(&mut self, topic: &String, event: &E) -> (r: Result<usize, SubscriptionManagerError>)
        ensures
            !old(self).model().active ==> (r matches Err(SubscriptionManagerError::ShuttingDown)
                && final(self).model() == old(self).model() && final(self).clock_readings()
                == old(self).clock_readings()),
            old(self).model().active ==> (r matches Ok(count) && event_sent(
                old(self).model(),
                topic@,
                *event,
                final(self).model(),
                count as int,
            )),
            old(self).model().active ==> final(self).clock_readings().len() == old(self).clock_readings().len() + 1
                && final(self).clock_readings().drop_last() == old(self).clock_readings() && (r matches Ok(count)
                && exists|sent: Map<u128, bool>, copies: Map<u128, E>, closed: Map<u128, ChannelModel<E>>|
                #[trigger] after_event(
                old(self).model(),
                topic@,
                *event,
                final(self).clock_readings().last(),
                sent,
                copies,
                closed,
                final(self).model(),
                count as int,
            )),
    {
        if !self.is_active() {
            return Err(SubscriptionManagerError::ShuttingDown);
        }
        let ghost readings = self.clock_readings();
        let now = self.read_clock();
        let (r, closed) = self.send_event_at(topic, event, now);
        proof {
            let count = r->Ok_0;
            let (sent, copies) = choose|sent: Map<u128, bool>, copies: Map<u128, E>|
                #[trigger] after_event(
                    old(self).model(),
                    topic@,
                    *event,
                    now,
                    sent,
                    copies,
                    channel_models(closed@),
                    self.model(),
                    count as int,
                );
            assert(after_event(
                old(self).model(),
                topic@,
                *event,
                now,
                sent,
                copies,
                channel_models(closed@),
                self.model(),
                count as int,
            ));
            assert(self.clock_readings() == readings.push(now));
            assert(self.clock_readings().drop_last() =~= readings);
            assert(self.clock_readings().last() == now);
        }
        r
    }

    /// `send_event` at the time `now`, in milliseconds: refused, with
    /// nothing changed and no channel closed, while shut down; else each
    /// session that did not time out at `now` and asked for `topic` is
    /// handed `(topic, event)` once, the count is of those whose message
    /// went through, and the sessions that timed out or whose message did
    /// not go through are dropped; their sending ends are handed back, by
    /// session id, to be closed.
    pub fn send_event_at(&mut self, topic: &String, event: &E, now: i64) -> (r: (
        Result<usize, SubscriptionManagerError>,
        HashMap<u128, EventSender<E>>,
    ))
        ensures
            !old(self).model().active ==> (r.0 matches Err(SubscriptionManagerError::ShuttingDown)
                && final(self).model() == old(self).model() && r.1@ == Map::<u128, EventSender<E>>::empty()),
            final(self).clock_readings() == old(self).clock_readings(),
            old(self).model().active ==> (r.0 matches Ok(count) && exists|sent: Map<u128, bool>, copies: Map<u128, E>|
                #[trigger] after_event(
                    old(self).model(),
                    topic@,
                    *event,
                    now,
                    sent,
                    copies,
                    channel_models(r.1@),
                    final(self).model(),
                    count as int,
                )),
    {
        proof {
            use_type_invariant(&*self);
        }
        if !self.active {
            return (Err(SubscriptionManagerError::ShuttingDown), HashMap::new());
        }
        let ghost before = self.model();
        let timeout = self.session_ping_timeout_ms;
        let mut pending: HashMap<u128, SessionData<E>> = HashMap::new();
        std::mem::swap(&mut pending, &mut self.sessions_by_id);
        let ghost all = pending@;
        let ghost models = session_models(all);
        let ids = session_ids(&pending);
        let mut stayed: HashMap<u128, SessionData<E>> = HashMap::new();
        let mut closed: HashMap<u128, EventSender<E>> = HashMap::new();
        let ghost mut sent: Map<u128, bool> = Map::empty();
        let ghost mut copies: Map<u128, E> = Map::empty();
        let mut count: usize = 0;
        let mut i: usize = 0;
        assert(ids@.take(0).to_set() =~= Set::<u128>::empty());
        assert(session_models(stayed@) =~= sessions_after_event(
            models.restrict(Set::<u128>::empty()),
            topic@,
            now,
            timeout,
            sent,
            copies,
        ));
        assert(channel_models(closed@) =~= channels_closed_by_event(
            models.restrict(Set::<u128>::empty()),
            topic@,
            now,
            timeout,
            sent,
            copies,
        ));
        assert(Set::<u128>::empty().filter(
            |id: u128| session_receives(models[id], topic@, now, timeout, sent[id]),
        ) =~= Set::<u128>::empty());
        while i < ids.len()
            invariant
                i <= ids@.len(),
                ids@.no_duplicates(),
                ids@.to_set() == all.dom(),
                models == session_models(all),
                before.sessions == models,
                timeout == before.ping_timeout_ms,
                forall|k: u128|
                    #[trigger] pending@.contains_key(k) <==> (all.contains_key(k) && !ids@.take(
                        i as int,
                    ).to_set().contains(k)),
                forall|k: u128| #[trigger] pending@.contains_key(k) ==> pending@[k] == all[k],
                sent.dom() == ids@.take(i as int).to_set(),
                copies.dom() == ids@.take(i as int).to_set(),
                session_models(stayed@) == sessions_after_event(
                    models.restrict(ids@.take(i as int).to_set()),
                    topic@,
                    now,
                    timeout,
                    sent,
                    copies,
                ),
                channel_models(closed@) == channels_closed_by_event(
                    models.restrict(ids@.take(i as int).to_set()),
                    topic@,
                    now,
                    timeout,
                    sent,
                    copies,
                ),
                count == ids@.take(i as int).to_set().filter(
                    |id: u128| session_receives(models[id], topic@, now, timeout, sent[id]),
                ).len(),
                count <= i,
                forall|id: u128|
                    ids@.take(i as int).to_set().contains(id) && #[trigger] session_handed(
                        models[id],
                        topic@,
                        now,
                        timeout,
                    ) ==> cloned(*event, copies[id]),
            decreases ids@.len() - i,
        {
            let id = ids[i];
            let ghost done = ids@.take(i as int).to_set();
            let ghost sent_before = sent;
            let ghost copies_before = copies;
            let ghost stayed_before = stayed@;
            let ghost closed_before = closed@;
            proof {
                assert(ids@.take(i + 1) =~= ids@.take(i as int).push(id));
                ids@.take(i as int).lemma_push_to_set_commute(id);
                assert(ids@.take(i + 1).to_set() =~= done.insert(id));
                assert(!done.contains(id)) by {
                    if done.contains(id) {
                        let j = choose|j: int| 0 <= j < i && ids@.take(i as int)[j] == id;
                        assert(ids@[j] == ids@[i as int]);
                    }
                }
                assert(ids@.to_set().contains(id));
                vstd::seq_lib::seq_to_set_is_finite(ids@.take(i as int));
            }
            let mut data = pending.remove(&id).unwrap();
            let ghost m = models[id];
            assert(session_model(data) == m);
            let subscribed = contains_string(&data.topics, topic);
            let step = delivery_step(now, data.last_ping, timeout, subscribed);
            let stays: bool;
            match step {
                DeliveryStep::TimedOut => {
                    stays = false;
                    proof {
                        sent = sent.insert(id, false);
                        copies = copies.insert(id, *event);
                    }
                },
                DeliveryStep::NotSubscribed => {
                    stays = true;
                    proof {
                        sent = sent.insert(id, false);
                        copies = copies.insert(id, *event);
                    }
                },
                DeliveryStep::Deliver => {
                    let copy = event.clone();
                    let ghost handed = copy;
                    let ok = data.sender.send(topic.clone(), copy);
                    if ok {
                        count = count + 1;
                    }
                    stays = ok;
                    proof {
                        sent = sent.insert(id, ok);
                        copies = copies.insert(id, handed);
                    }
                },
            }
            let ghost after_model = session_model(data);
            assert(stays == session_stays(m, topic@, now, timeout, sent[id]));
            assert(after_model == after_handing(m, topic@, now, timeout, sent[id], copies[id]));
            assert(data.sender.model() == channel_of(after_model));
            let ghost data_now = data;
            if stays {
                stayed.insert(id, data);
            } else {
                closed.insert(id, data.sender);
            }
            proof {
                let next = done.insert(id);
                let f = |k: u128| session_receives(models[k], topic@, now, timeout, sent[k]);
                let g = |k: u128| session_receives(models[k], topic@, now, timeout, sent_before[k]);
                assert(done.filter(f) =~= done.filter(g));
                lemma_filter_insert(done, id, f);
                let new_exp = sessions_after_event(models.restrict(next), topic@, now, timeout, sent, copies);
                let old_exp = sessions_after_event(
                    models.restrict(done),
                    topic@,
                    now,
                    timeout,
                    sent_before,
                    copies_before,
                );
                let new_closed = channels_closed_by_event(models.restrict(next), topic@, now, timeout, sent, copies);
                let old_closed = channels_closed_by_event(
                    models.restrict(done),
                    topic@,
                    now,
                    timeout,
                    sent_before,
                    copies_before,
                );
                assert(session_models(stayed_before) == old_exp);
                assert(channel_models(closed_before) == old_closed);
                assert(stayed@ == if stays {
                    stayed_before.insert(id, data_now)
                } else {
                    stayed_before
                });
                assert(closed@ == if stays {
                    closed_before
                } else {
                    closed_before.insert(id, data_now.sender)
                });
                assert forall|k: u128| k != id implies (#[trigger] new_exp.contains_key(k) == old_exp.contains_key(k)
                    && (new_exp.contains_key(k) ==> new_exp[k] == old_exp[k]) && new_closed.contains_key(k)
                    == old_closed.contains_key(k) && (new_closed.contains_key(k) ==> new_closed[k]
                    == old_closed[k])) by {
                    assert(sent[k] == sent_before[k]);
                    assert(copies[k] == copies_before[k]);
                    assert(models.restrict(next).contains_key(k) == models.restrict(done).contains_key(k));
                }
                assert(new_exp.contains_key(id) == stays);
                assert(new_closed.contains_key(id) == !stays);
                assert(stays ==> new_exp[id] == after_model);
                assert(!stays ==> new_closed[id] == channel_of(after_model));
                assert(session_models(stayed@) =~= new_exp);
                let cm = channel_models(closed@);
                assert forall|k: u128| #[trigger] cm.contains_key(k) == new_closed.contains_key(k) by {
                    if k != id {
                        assert(old_closed.contains_key(k) == channel_models(closed_before).contains_key(k));
                    }
                }
                assert forall|k: u128| #[trigger] cm.contains_key(k) implies cm[k] == new_closed[k] by {
                    if k != id {
                        assert(closed@[k] == closed_before[k]);
                        assert(channel_models(closed_before)[k] == old_closed[k]);
                    } else {
                        assert(closed@[k] == data_now.sender);
                    }
                }
                assert(cm =~= new_closed);
            }
            i = i + 1;
        }
        proof {
            assert(ids@.take(i as int) =~= ids@);
            assert(models.restrict(all.dom()) =~= models);
            assert(receiver_ids(models, topic@, now, timeout, sent) =~= all.dom().filter(
                |id: u128| session_receives(models[id], topic@, now, timeout, sent[id]),
            ));
            let m = session_models(stayed@);
            assert forall|id: u128| #[trigger] m.contains_key(id) implies session_fits(
                strings_view(self.topics_supported@),
                m[id],
            ) by {
                assert(models.contains_key(id));
            }
        }
        self.sessions_by_id = stayed;
        let result = (Ok(count), closed);
        assert(result.1@ == closed@);
        assert(before == old(self).model());
        assert(result.0 matches Ok(c) && c == count);
        assert(after_event(
            before,
            topic@,
            *event,
            now,
            sent,
            copies,
            channel_models(result.1@),
            self.model(),
            count as int,
        ));
        assert(after_event(
            before,
            topic@,
            *event,
            now,
            sent,
            copies,
            channel_models(result.1@),
            self.model(),
            count as int,
        ));
        result
    }

    /// Shuts the manager down: it drops every session and refuses every
    /// request from then on.
    pub fn shut_down(&mut self)
        ensures
            !final(self).model().active,
            final(self).model().sessions == Map::<u128, SessionModel<E>>::empty(),
            final(self).model().topics == old(self).model().topics,
            final(self).model().ping_timeout_ms == old(self).model().ping_timeout_ms,
            final(self).clock_readings() == old(self).clock_readings(),
    {
        proof {
            use_type_invariant(&*self);
        }
        if self.active {
            let mut sessions: HashMap<u128, SessionData<E>> = HashMap::new();
            std::mem::swap(&mut sessions, &mut self.sessions_by_id);
            assert(session_models(self.sessions_by_id@) =~= Map::<u128, SessionModel<E>>::empty());
            self.active = false;
        }
        assert(self.model().sessions =~= Map::<u128, SessionModel<E>>::empty());
    }
}

} // verus!
