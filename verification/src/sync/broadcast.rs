//! The broadcaster of server-sent events: every phone that listens on
//! `/api/events` holds a channel, and each event goes to all of them.
use vstd::prelude::*;
use std::collections::HashMap;
use crossbeam_channel::{Receiver, Sender};
use crate::text::{owned, push_all, push_decimal, decimal};

verus! {

broadcast use vstd::string::group_string_axioms, vstd::std_specs::hash::group_hash_axioms;

/// The sending end of a `crossbeam_channel` channel.
#[verifier::external_type_specification]
#[verifier::external_body]
#[verifier::reject_recursive_types(T)]
pub struct ExSender<T>(Sender<T>);

/// The receiving end of a `crossbeam_channel` channel.
#[verifier::external_type_specification]
#[verifier::external_body]
#[verifier::reject_recursive_types(T)]
pub struct ExReceiver<T>(Receiver<T>);

/// The number of events that a listener's channel holds before it counts as
/// stalled.
pub const CLIENT_BUFFER: usize = 32;

/// The channel that a sending end feeds.
pub uninterp spec fn sender_channel(tx: Sender<String>) -> nat;

/// The channel that a receiving end reads.
pub uninterp spec fn receiver_channel(rx: Receiver<String>) -> nat;

/// What this sending end has handed to its channel, in order: each message
/// with whether the channel took it.
pub uninterp spec fn handed(tx: Sender<String>) -> Seq<(Seq<char>, bool)>;

/// `crossbeam_channel::bounded(cap)`: a new channel that holds up to `cap`
/// messages, as its sending and receiving ends. The contract claims that both
/// ends belong to the one channel and that nothing was handed through the
/// sending end yet; the crate panics only for a capacity too large to
/// allocate, which `requires` rules out.
#[verifier::external_body]
fn channel_bounded(cap: usize) -> (r: (Sender<String>, Receiver<String>))
    requires
        cap <= 4096,
    ensures
        sender_channel(r.0) == receiver_channel(r.1),
        handed(r.0) == Seq::<(Seq<char>, bool)>::empty(),
{
    crossbeam_channel::bounded(cap)
}

/// `Sender::try_send`: hands `msg` to the channel without blocking, `true`
/// where the channel took it. Whether it does depends on the other end (a
/// full buffer or a dropped receiver refuse it), so the result is not
/// claimed; the contract claims that the sending end stays on its channel
/// and has handed `msg` once more, with that result.
#[verifier::external_body]
fn channel_try_send(tx: &mut Sender<String>, msg: String) -> (sent: bool)
    ensures
        sender_channel(*final(tx)) == sender_channel(*old(tx)),
        handed(*final(tx)) == handed(*old(tx)).push((msg@, sent)),
{
    tx.try_send(msg).is_ok()
}

/// An event in the server-sent events wire format.
pub open spec fn event_text(event_type: Seq<char>, data: Seq<char>) -> Seq<char> {
    "event: "@ + event_type + "\ndata: "@ + data + "\n\n"@
}

/// An event in the server-sent events wire format:
/// `event: {event_type}\ndata: {data}\n\n`.
pub fn format_event(event_type: &str, data: &str) -> (s: String)
    ensures
        s@ == event_text(event_type@, data@),
{
    let mut s = owned("event: ");
    push_all(&mut s, event_type);
    push_all(&mut s, "\ndata: ");
    push_all(&mut s, data);
    push_all(&mut s, "\n\n");
    s
}

/// The first event a new listener gets: its client id.
pub open spec fn connected_event_text(id: nat) -> Seq<char> {
    event_text("connected"@, "{\"id\":"@ + decimal(id) + "}"@)
}

/// The first event a new listener gets:
/// `event: connected\ndata: {"id":<id>}\n\n`.
pub fn connected_event(id: u64) -> (s: String)
    ensures
        s@ == connected_event_text(id as nat),
{
    let mut data = owned("{\"id\":");
    push_decimal(&mut data, id);
    push_all(&mut data, "}");
    format_event("connected", data.as_str())
}

/// The id that follows `id`; counting wraps at the top of `u64`, as an
/// atomic `fetch_add` does.
pub open spec fn next_client_id(id: u64) -> u64 {
    if id == u64::MAX {
        0
    } else {
        (id + 1) as u64
    }
}

/// The listeners of server-sent events and the id the next one gets.
pub struct EventBroadcaster {
    clients: HashMap<u64, Sender<String>>,
    next_id: u64,
    /// The sending ends that the last broadcast forgot, by id, as they were
    /// when their channel refused the event.
    dropped: Ghost<Map<u64, Sender<String>>>,
}

impl EventBroadcaster {
    /// The listeners' sending ends, by client id.
    pub closed spec fn clients(&self) -> Map<u64, Sender<String>> {
        self.clients@
    }

    /// The id that the next listener gets.
    pub closed spec fn next_id(&self) -> u64 {
        self.next_id
    }

    /// The sending ends that the last broadcast forgot, by id, as they were
    /// after their channel refused the event.
    pub closed spec fn dropped(&self) -> Map<u64, Sender<String>> {
        self.dropped@
    }

    /// No listeners; the first gets id 1.
    pub fn new() -> (b: Self)
        ensures
            b.clients() == Map::<u64, Sender<String>>::empty(),
            b.next_id() == 1,
            b.dropped() == Map::<u64, Sender<String>>::empty(),
    {
        EventBroadcaster { clients: HashMap::new(), next_id: 1, dropped: Ghost(Map::empty()) }
    }

    /// Registers a new listener: it gets the next id and a fresh channel,
    /// whose sending end is kept under the id and whose receiving end is
    /// returned. A listener that still held that id (only possible once the
    /// ids have wrapped) is replaced.
    pub fn subscribe(&mut self) -> (r: (u64, Receiver<String>))
        ensures
            r.0 == old(self).next_id(),
            final(self).next_id() == next_client_id(old(self).next_id()),
            final(self).clients().dom() == old(self).clients().dom().insert(r.0),
            sender_channel(final(self).clients()[r.0]) == receiver_channel(r.1),
            handed(final(self).clients()[r.0]) == Seq::<(Seq<char>, bool)>::empty(),
            forall|k: u64|
                k != r.0 && old(self).clients().contains_key(k) ==> #[trigger] final(self).clients()[k]
                    == old(self).clients()[k],
            final(self).dropped() == old(self).dropped(),
    {
        let (tx, rx) = channel_bounded(CLIENT_BUFFER);
        let id = self.next_id;
        self.next_id = id.wrapping_add(1);
        self.clients.insert(id, tx);
        (id, rx)
    }

    /// Forgets the listener with id `id`, if there is one; its sending end
    /// is dropped, so its channel closes.
    pub fn unsubscribe(&mut self, id: u64)
        ensures
            final(self).clients() == old(self).clients().remove(id),
            final(self).next_id() == old(self).next_id(),
            final(self).dropped() == old(self).dropped(),
    {
        self.clients.remove(&id);
    }

    /// The ids of the listeners, each once.
    fn client_ids(&self) -> (ids: Vec<u64>)
        ensures
            ids@.no_duplicates(),
            forall|k: u64| #[trigger] ids@.contains(k) <==> self.clients@.contains_key(k),
    {
        let mut ids: Vec<u64> = Vec::new();
        for id in it: self.clients.keys()
            invariant
                it.seq().unref().to_set() == self.clients@.dom(),
                it.seq().unref().no_duplicates(),
                0 <= it.index() <= it.seq().len(),
                ids@ == it.seq().unref().take(it.index()),
                it.index() == 0 && it.seq().len() == 0 ==> ids@ == it.seq().unref(),
                it.index() == it.seq().len() ==> ids@ == it.seq().unref(),
        {
            proof {
                assert(it.seq().unref()[it.index()] == *id);
                assert(it.seq().unref().take(it.index() + 1) =~= ids@.push(*id));
                assert(it.index() + 1 == it.seq().len() ==> it.seq().unref().take(it.index() + 1)
                    =~= it.seq().unref());
            }
            ids.push(*id);
        }
        proof {
            assert forall|k: u64| #[trigger] ids@.contains(k) <==> self.clients@.contains_key(k) by {
                assert(ids@.to_set().contains(k) == ids@.contains(k));
            }
        }
        ids
    }

    /// Sends the event `event: <event_type>\ndata: <data>\n\n` to every
    /// listener without waiting: each listener's sending end hands it once to
    /// its channel. A listener whose channel took it is kept; one whose
    /// channel refused it (its buffer full, or nobody receiving any more) is
    /// forgotten, and its sending end, as it ended, is in `dropped`. Which
    /// channels refuse is up to their other ends.
    pub fn broadcast(&mut self, event_type: &str, data: &str)
        ensures
            final(self).next_id() == old(self).next_id(),
            final(self).dropped().dom().subset_of(old(self).clients().dom()),
            final(self).clients().dom() == old(self).clients().dom().difference(final(self).dropped().dom()),
            forall|k: u64| #[trigger] final(self).clients().contains_key(k) ==> {
                &&& sender_channel(final(self).clients()[k]) == sender_channel(old(self).clients()[k])
                &&& handed(final(self).clients()[k]) == handed(old(self).clients()[k]).push(
                    (event_text(event_type@, data@), true),
                )
            },
            forall|k: u64| #[trigger] final(self).dropped().contains_key(k) ==> {
                &&& sender_channel(final(self).dropped()[k]) == sender_channel(old(self).clients()[k])
                &&& handed(final(self).dropped()[k]) == handed(old(self).clients()[k]).push(
                    (event_text(event_type@, data@), false),
                )
            },
    {
        let event = format_event(event_type, data);
        let ghost msg = event@;
        let ghost start = self.clients@;
        let ids = self.client_ids();
        let ghost mut dropped: Map<u64, Sender<String>> = Map::empty();
        let mut i: usize = 0;
        while i < ids.len()
            invariant
                i <= ids@.len(),
                event@ == msg,
                ids@.no_duplicates(),
                forall|k: u64| #[trigger] ids@.contains(k) <==> start.contains_key(k),
                self.next_id == old(self).next_id,
                start == old(self).clients@,
                forall|k: u64| #[trigger] self.clients@.contains_key(k) ==> start.contains_key(k),
                forall|k: u64| #[trigger] dropped.contains_key(k) ==> start.contains_key(k),
                forall|k: u64| start.contains_key(k) && !ids@.subrange(0, i as int).contains(k)
                    ==> #[trigger] self.clients@.contains_key(k) && !dropped.contains_key(k)
                    && self.clients@[k] == start[k],
                forall|k: u64| #[trigger] ids@.subrange(0, i as int).contains(k) ==> (self.clients@.contains_key(k)
                    != dropped.contains_key(k)),
                forall|k: u64| #[trigger] self.clients@.contains_key(k) && ids@.subrange(0, i as int).contains(k) ==> {
                    &&& sender_channel(self.clients@[k]) == sender_channel(start[k])
                    &&& handed(self.clients@[k]) == handed(start[k]).push((msg, true))
                },
                forall|k: u64| #[trigger] dropped.contains_key(k) ==> {
                    &&& ids@.subrange(0, i as int).contains(k)
                    &&& sender_channel(dropped[k]) == sender_channel(start[k])
                    &&& handed(dropped[k]) == handed(start[k]).push((msg, false))
                },
            decreases ids.len() - i,
        {
            let id = ids[i];
            let ghost done = ids@.subrange(0, i as int);
            let ghost before = self.clients@;
            let ghost dropped_before = dropped;
            proof {
                assert(ids@.contains(id));
                assert(!done.contains(id)) by {
                    if done.contains(id) {
                        let j = choose|j: int| 0 <= j < done.len() && done[j] == id;
                        assert(ids@[j] == ids@[i as int]);
                    }
                }
                assert(ids@.subrange(0, i + 1) =~= done.push(id));
            }
            match self.clients.remove(&id) {
                Some(mut tx) => {
                    let offer = event.clone();
                    let sent = channel_try_send(&mut tx, offer);
                    if sent {
                        self.clients.insert(id, tx);
                    } else {
                        proof {
                            dropped = dropped.insert(id, tx);
                        }
                    }
                },
                None => {
                    assert(false);
                },
            }
            proof {
                let now = ids@.subrange(0, i + 1);
                assert forall|k: u64| #[trigger] now.contains(k) <==> (done.contains(k) || k == id) by {
                    if now.contains(k) {
                        let j = choose|j: int| 0 <= j < now.len() && now[j] == k;
                        if j < i {
                            assert(done[j] == k);
                        }
                    }
                    if done.contains(k) {
                        let j = choose|j: int| 0 <= j < done.len() && done[j] == k;
                        assert(now[j] == k);
                    }
                    if k == id {
                        assert(now[i as int] == k);
                    }
                }
                assert forall|k: u64| start.contains_key(k) && !now.contains(k) implies #[trigger] self.clients@.contains_key(k)
                    && !dropped.contains_key(k) && self.clients@[k] == start[k] by {
                    assert(!done.contains(k) && k != id);
                    assert(before.contains_key(k));
                    assert(!dropped_before.contains_key(k));
                }
            }
            i = i + 1;
        }
        proof {
            assert(ids@.subrange(0, ids@.len() as int) =~= ids@);
            self.dropped@ = dropped;
            assert(self.clients@.dom() =~= start.dom().difference(dropped.dom()));
        }
    }
}

/// The header block that opens a server-sent events stream.
pub fn sse_headers() -> (s: String)
    ensures
        s@ == "HTTP/1.1 200 OK\r\nContent-Type: text/event-stream\r\nCache-Control: no-cache\r\nConnection: keep-alive\r\nAccess-Control-Allow-Origin: *\r\nX-Accel-Buffering: no\r\n\r\n"@,
{
    owned("HTTP/1.1 200 OK\r\nContent-Type: text/event-stream\r\nCache-Control: no-cache\r\nConnection: keep-alive\r\nAccess-Control-Allow-Origin: *\r\nX-Accel-Buffering: no\r\n\r\n")
}

/// What the event stream to one listener brings next.
pub enum SseEvent {
    /// An event to pass on.
    Message(String),
    /// Nothing came for a while; `idle_nanos` nanoseconds have passed since
    /// the last event was passed on.
    Timeout { idle_nanos: u64 },
    /// The broadcaster dropped the channel.
    Closed,
}

/// What the stream writer does about it.
pub enum SseAction {
    /// Write this text and go on.
    Write(String),
    /// Write a keep-alive comment; then end the stream where `close` holds.
    KeepAlive { close: bool },
    /// End the stream.
    Close,
}

/// How long a stream may stay without events before it is closed: five
/// minutes, in nanoseconds.
pub const SSE_IDLE_LIMIT_NANOS: u64 = 300_000_000_000;

/// The text of a keep-alive comment.
pub fn keepalive_comment() -> (s: String)
    ensures
        s@ == ": keepalive\n\n"@,
{
    owned(": keepalive\n\n")
}

/// The stream writer's decision: pass events on, answer a quiet spell with
/// a keep-alive comment and close once the stream has been idle for more
/// than five minutes, and stop when the channel closes.
pub fn sse_next(event: SseEvent) -> (a: SseAction)
    ensures
        match event {
            SseEvent::Message(text) => a == SseAction::Write(text),
            SseEvent::Timeout { idle_nanos } => a == (SseAction::KeepAlive {
                close: idle_nanos > SSE_IDLE_LIMIT_NANOS,
            }),
            SseEvent::Closed => a == SseAction::Close,
        },
{
    match event {
        SseEvent::Message(text) => SseAction::Write(text),
        SseEvent::Timeout { idle_nanos } => SseAction::KeepAlive { close: idle_nanos > SSE_IDLE_LIMIT_NANOS },
        SseEvent::Closed => SseAction::Close,
    }
}

} // verus!
