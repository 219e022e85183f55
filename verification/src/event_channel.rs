//! The channel on which a session's events travel: a crossbeam channel
//! whose sending end keeps, as ghost state, every message that went in.

use crossbeam::channel::{unbounded, Receiver, Sender};

use vstd::prelude::*;

verus! {

#[verifier::external_type_specification]
#[verifier::external_body]
#[verifier::reject_recursive_types(T)]
pub struct ExSender<T>(Sender<T>);

#[verifier::external_type_specification]
#[verifier::external_body]
#[verifier::reject_recursive_types(T)]
pub struct ExReceiver<T>(Receiver<T>);

/// The sending end of an event channel. `tag` names the channel, `handed`
/// holds every message handed to `send`, and `log` the messages that went
/// into the channel, each in order.
#[verifier::reject_recursive_types(E)]
pub struct EventSender<E> {
    sender: Sender<(String, E)>,
    tag: Ghost<int>,
    handed: Ghost<Seq<(Seq<char>, E)>>,
    log: Ghost<Seq<(Seq<char>, E)>>,
}

/// What is known of a channel's sending end: the channel, the messages
/// handed to it, and those that went in.
pub struct ChannelModel<E> {
    pub channel: int,
    pub handed: Seq<(Seq<char>, E)>,
    pub delivered: Seq<(Seq<char>, E)>,
}

/// What is known of each sending end of a map.
pub open spec fn channel_models<E>(m: Map<u128, EventSender<E>>) -> Map<u128, ChannelModel<E>> {
    m.map_values(|s: EventSender<E>| s.model())
}

/// The receiving end of an event channel, named by the same tag as its
/// sending end.
#[verifier::reject_recursive_types(E)]
pub struct EventReceiver<E> {
    receiver: Receiver<(String, E)>,
    tag: Ghost<int>,
}

impl<E> EventSender<E> {
    /// The channel this end sends on.
    pub closed spec fn tag(&self) -> int {
        self.tag@
    }

    /// The messages handed to `send`, oldest first, whether they went in or not.
    pub closed spec fn handed(&self) -> Seq<(Seq<char>, E)> {
        self.handed@
    }

    /// The messages that went into the channel, oldest first.
    pub closed spec fn log(&self) -> Seq<(Seq<char>, E)> {
        self.log@
    }

    /// The channel, what was handed to it and what went in.
    pub open spec fn model(&self) -> ChannelModel<E> {
        ChannelModel { channel: self.tag(), handed: self.handed(), delivered: self.log() }
    }

    /// crossbeam's `Sender::send` of `(topic, event)`: the message is
    /// handed to the channel, whatever comes back; true where it went into
    /// the channel, which then holds it after the messages before it;
    /// false, with nothing sent, where every receiving end is gone. Which
    /// of the two comes depends on other threads.
    #[verifier::external_body]
    pub(crate) fn send(&mut self, topic: String, event: E) -> (sent: bool)
        ensures
            final(self).tag() == old(self).tag(),
            final(self).handed() == old(self).handed().push((topic@, event)),
            final(self).log() == if sent {
                old(self).log().push((topic@, event))
            } else {
                old(self).log()
            },
    {
        self.sender.send((topic, event)).is_ok()
    }
}

impl<E> EventReceiver<E> {
    /// The channel this end receives from.
    pub closed spec fn tag(&self) -> int {
        self.tag@
    }

    /// The crossbeam receiving end.
    pub fn receiver(&self) -> &Receiver<(String, E)> {
        &self.receiver
    }

    /// The crossbeam receiving end, taken out.
    pub fn into_receiver(self) -> Receiver<(String, E)> {
        self.receiver
    }
}

/// crossbeam's `unbounded`: a new channel without a bound, as its sending
/// and its receiving end. Both ends carry the same tag, and nothing was
/// handed to the channel yet. Which tag a new channel gets is left unsaid.
#[verifier::external_body]
pub(crate) fn new_event_channel<E>() -> (r: (EventSender<E>, EventReceiver<E>))
    ensures
        r.0.tag() == r.1.tag(),
        r.0.handed() == Seq::<(Seq<char>, E)>::empty(),
        r.0.log() == Seq::<(Seq<char>, E)>::empty(),
{
    let (sender, receiver) = unbounded();
    let tag = Ghost(0);
    (
        EventSender { sender, tag, handed: Ghost(Seq::empty()), log: Ghost(Seq::empty()) },
        EventReceiver { receiver, tag },
    )
}

} // verus!
