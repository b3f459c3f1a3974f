//! The receive side of a connection as a state machine.
//!
//! The caller reads exactly [`Receiver::wanted`] bytes from the stream and
//! hands them to [`Receiver::feed`], which returns what the bytes completed:
//! nothing yet, a request to answer, or the payload of a response. The
//! machine does no input or output of its own.

use crate::message::MessageType;
use crate::text::ascii_text;
use crate::text::ascii_to_string;
use crate::text::is_ascii_bytes;
use crate::wire::append_bytes;
use crate::wire::from_be32;
use crate::wire::get_be32;
use vstd::prelude::*;
use vstd::slice::slice_subrange;
use vstd::slice::slice_to_vec;

verus! {

/// What the receiver waits for next.
#[derive(Debug, Clone, Copy, PartialEq, Eq, Structural)]
pub enum Expect {
    /// The kind byte of the next message.
    Kind,
    /// The count field of a peer response.
    PeerCount,
    /// One address of a peer response that still lacks `remaining` of them.
    PeerIp { remaining: u32 },
    /// The count field of an archive response.
    ArchiveCount,
    /// The length byte of an entry of an archive response that still lacks
    /// `remaining` entries.
    EntryLength { remaining: u32 },
    /// Message, nonce and digest of an entry whose length byte was `length`.
    EntryBody { remaining: u32, length: u8 },
    /// The length byte of a notification.
    NotificationLength,
    /// The text of a notification whose length byte was `length`.
    NotificationBody { length: u8 },
}

/// What a chunk of bytes completed.
#[derive(Debug, Clone, PartialEq, Eq)]
pub enum Event {
    /// The message is not complete yet.
    Pending,
    /// The byte was no kind byte and was dropped.
    Ignored,
    /// The peer asks for the peer registry.
    PeerRequest,
    /// The peer has sent these addresses.
    PeerResponse(Vec<u32>),
    /// The peer asks for the archive.
    ArchiveRequest,
    /// The peer has sent an archive. The bytes are the whole archive
    /// response, kind byte and count included.
    ArchiveResponse(Vec<u8>),
    /// The peer has sent a notification with this text.
    Notification(String),
    /// The peer has sent a notification that is not ASCII text.
    Malformed,
}

/// The model of an [`Event`].
pub enum EventView {
    Pending,
    Ignored,
    PeerRequest,
    PeerResponse(Seq<u32>),
    ArchiveRequest,
    ArchiveResponse(Seq<u8>),
    Notification(Seq<char>),
    Malformed,
}

impl View for Event {
    type V = EventView;

    open spec fn view(&self) -> EventView {
        match self {
            Event::Pending => EventView::Pending,
            Event::Ignored => EventView::Ignored,
            Event::PeerRequest => EventView::PeerRequest,
            Event::PeerResponse(ips) => EventView::PeerResponse(ips@),
            Event::ArchiveRequest => EventView::ArchiveRequest,
            Event::ArchiveResponse(frame) => EventView::ArchiveResponse(frame@),
            Event::Notification(text) => EventView::Notification(text@),
            Event::Malformed => EventView::Malformed,
        }
    }
}

impl Event {
    /// Whether the connection ends with this event. Only a malformed
    /// notification ends it; what the peer sends is otherwise answered or
    /// dropped.
    pub fn closes(&self) -> (end: bool)
        ensures
            end == (self@ is Malformed),
    {
        match self {
            Event::Malformed => true,
            _ => false,
        }
    }
}

/// The receive side of one connection: what it waits for, and what it has
/// gathered of the message that is under way.
#[derive(Debug)]
pub struct Receiver {
    expect: Expect,
    ips: Vec<u32>,
    frame: Vec<u8>,
}

/// The model of a [`Receiver`].
pub struct ReceiverView {
    pub expect: Expect,
    pub ips: Seq<u32>,
    pub frame: Seq<u8>,
}

impl View for Receiver {
    type V = ReceiverView;

    closed spec fn view(&self) -> ReceiverView {
        ReceiverView { expect: self.expect, ips: self.ips@, frame: self.frame@ }
    }
}

/// The receiver between two messages.
pub open spec fn idle() -> ReceiverView {
    ReceiverView { expect: Expect::Kind, ips: Seq::empty(), frame: Seq::empty() }
}

/// The states that a receiver can be in: a message that is under way still
/// lacks something.
pub open spec fn reachable(expect: Expect) -> bool {
    match expect {
        Expect::PeerIp { remaining } => remaining > 0,
        Expect::EntryLength { remaining } => remaining > 0,
        Expect::EntryBody { remaining, .. } => remaining > 0,
        Expect::NotificationBody { length } => length > 0,
        _ => true,
    }
}

/// How many bytes a receiver that waits for `expect` takes next. In the
/// states that a receiver can be in, it is never zero.
pub open spec fn wanted(expect: Expect) -> nat {
    match expect {
        Expect::Kind => 1,
        Expect::PeerCount => 4,
        Expect::PeerIp { .. } => 4,
        Expect::ArchiveCount => 4,
        Expect::EntryLength { .. } => 1,
        Expect::EntryBody { length, .. } => (length + 32) as nat,
        Expect::NotificationLength => 1,
        Expect::NotificationBody { length } => length as nat,
    }
}

/// The event that ends a notification with the payload `bytes`.
pub open spec fn notification(bytes: Seq<u8>) -> EventView {
    if is_ascii_bytes(bytes) {
        EventView::Notification(ascii_text(bytes))
    } else {
        EventView::Malformed
    }
}

/// One step of the receiver: the state after `bytes` and what they completed.
/// `bytes` holds as many bytes as the state wants.
pub open spec fn step(state: ReceiverView, bytes: Seq<u8>) -> (ReceiverView, EventView)
    recommends
        bytes.len() == wanted(state.expect),
{
    match state.expect {
        Expect::Kind => {
            if bytes[0] == 1 {
                (idle(), EventView::PeerRequest)
            } else if bytes[0] == 2 {
                (ReceiverView { expect: Expect::PeerCount, ..idle() }, EventView::Pending)
            } else if bytes[0] == 3 {
                (idle(), EventView::ArchiveRequest)
            } else if bytes[0] == 4 {
                (
                    ReceiverView { expect: Expect::ArchiveCount, frame: seq![4u8], ..idle() },
                    EventView::Pending,
                )
            } else if bytes[0] == 5 {
                (ReceiverView { expect: Expect::NotificationLength, ..idle() }, EventView::Pending)
            } else {
                (idle(), EventView::Ignored)
            }
        },
        Expect::PeerCount => {
            let count = from_be32(bytes);
            if count == 0 {
                (idle(), EventView::PeerResponse(Seq::empty()))
            } else {
                (
                    ReceiverView { expect: Expect::PeerIp { remaining: count }, ..idle() },
                    EventView::Pending,
                )
            }
        },
        Expect::PeerIp { remaining } => {
            let ips = state.ips.push(from_be32(bytes));
            if remaining <= 1 {
                (idle(), EventView::PeerResponse(ips))
            } else {
                (
                    ReceiverView {
                        expect: Expect::PeerIp { remaining: (remaining - 1) as u32 },
                        ips,
                        ..idle()
                    },
                    EventView::Pending,
                )
            }
        },
        Expect::ArchiveCount => {
            let count = from_be32(bytes);
            let frame = state.frame + bytes;
            if count == 0 {
                (idle(), EventView::ArchiveResponse(frame))
            } else {
                (
                    ReceiverView {
                        expect: Expect::EntryLength { remaining: count },
                        frame,
                        ..idle()
                    },
                    EventView::Pending,
                )
            }
        },
        Expect::EntryLength { remaining } => (
            ReceiverView {
                expect: Expect::EntryBody { remaining, length: bytes[0] },
                frame: state.frame + bytes,
                ..idle()
            },
            EventView::Pending,
        ),
        Expect::EntryBody { remaining, length } => {
            let frame = state.frame + bytes;
            if remaining <= 1 {
                (idle(), EventView::ArchiveResponse(frame))
            } else {
                (
                    ReceiverView {
                        expect: Expect::EntryLength { remaining: (remaining - 1) as u32 },
                        frame,
                        ..idle()
                    },
                    EventView::Pending,
                )
            }
        },
        Expect::NotificationLength => {
            if bytes[0] == 0 {
                (idle(), notification(Seq::empty()))
            } else {
                (
                    ReceiverView {
                        expect: Expect::NotificationBody { length: bytes[0] },
                        ..idle()
                    },
                    EventView::Pending,
                )
            }
        },
        Expect::NotificationBody { length } => (idle(), notification(bytes)),
    }
}

/// What a receiver makes of a stream of bytes.
pub struct Run {
    /// The state in which the receiver is left.
    pub state: ReceiverView,
    /// What the stream completed, in order.
    pub events: Seq<EventView>,
    /// How many bytes the receiver took. The bytes after them do not fill
    /// the chunk that the receiver waits for.
    pub used: int,
}

/// Feeds `stream` to a receiver in `state`, chunk by chunk, each chunk as
/// long as the receiver wants it, until the bytes that are left do not fill
/// the next chunk.
pub open spec fn run(state: ReceiverView, stream: Seq<u8>) -> Run
    decreases stream.len(),
{
    let n = wanted(state.expect) as int;
    if n == 0 || stream.len() < n {
        Run { state, events: Seq::empty(), used: 0 }
    } else {
        let (next, event) = step(state, stream.subrange(0, n));
        let rest = run(next, stream.skip(n));
        Run {
            state: rest.state,
            events: if event is Pending {
                rest.events
            } else {
                seq![event] + rest.events
            },
            used: n + rest.used,
        }
    }
}

/// The models of the events of `events`.
pub open spec fn views(events: Seq<Event>) -> Seq<EventView> {
    events.map_values(|event: Event| event@)
}

/// The event that ends a notification with the payload `bytes`.
fn notification_event(bytes: Vec<u8>) -> (event: Event)
    ensures
        event@ == notification(bytes@),
{
    match ascii_to_string(bytes) {
        Some(text) => Event::Notification(text),
        None => Event::Malformed,
    }
}

impl Receiver {
    /// A receiver at the start of a connection.
    pub fn new() -> (receiver: Receiver)
        ensures
            receiver@ == idle(),
    {
        Receiver { expect: Expect::Kind, ips: Vec::new(), frame: Vec::new() }
    }

    /// What the receiver waits for.
    pub fn expect(&self) -> (expect: Expect)
        ensures
            expect == self@.expect,
    {
        self.expect
    }

    /// How many bytes the next call of [`Receiver::feed`] takes.
    pub fn wanted(&self) -> (n: usize)
        ensures
            n == wanted(self@.expect),
    {
        match self.expect {
            Expect::Kind => 1,
            Expect::PeerCount => 4,
            Expect::PeerIp { .. } => 4,
            Expect::ArchiveCount => 4,
            Expect::EntryLength { .. } => 1,
            Expect::EntryBody { length, .. } => length as usize + 32,
            Expect::NotificationLength => 1,
            Expect::NotificationBody { length } => length as usize,
        }
    }

    /// Forgets the message that is under way and hands out what was gathered
    /// of it.
    fn finish(&mut self) -> (gathered: (Vec<u32>, Vec<u8>))
        ensures
            final(self)@ == idle(),
            gathered.0@ == old(self)@.ips,
            gathered.1@ == old(self)@.frame,
    {
        let mut ips: Vec<u32> = Vec::new();
        let mut frame: Vec<u8> = Vec::new();
        std::mem::swap(&mut ips, &mut self.ips);
        std::mem::swap(&mut frame, &mut self.frame);
        self.expect = Expect::Kind;
        (ips, frame)
    }

    /// Takes the bytes that the receiver waits for and says what they
    /// completed.
    pub fn feed(&mut self, bytes: &[u8]) -> (event: Event)
        requires
            bytes@.len() == wanted(old(self)@.expect),
        ensures
            (final(self)@, event@) == step(old(self)@, bytes@),
    {
        match self.expect {
            Expect::Kind => {
                let _ = self.finish();
                let kind: u8 = bytes[0];
                if !MessageType::is_valid_message(kind) {
                    return Event::Ignored;
                }
                match MessageType::from(kind) {
                    MessageType::PeerRequest => Event::PeerRequest,
                    MessageType::PeerResponse => {
                        self.expect = Expect::PeerCount;
                        Event::Pending
                    },
                    MessageType::ArchiveRequest => Event::ArchiveRequest,
                    MessageType::ArchiveResponse => {
                        self.frame.push(kind);
                        self.expect = Expect::ArchiveCount;
                        assert(self.frame@ =~= seq![4u8]);
                        Event::Pending
                    },
                    MessageType::NotificationMessage => {
                        self.expect = Expect::NotificationLength;
                        Event::Pending
                    },
                }
            },
            Expect::PeerCount => {
                let _ = self.finish();
                let count: u32 = get_be32(bytes, 0);
                assert(bytes@.subrange(0, 4) =~= bytes@);
                if count == 0 {
                    Event::PeerResponse(Vec::new())
                } else {
                    self.expect = Expect::PeerIp { remaining: count };
                    Event::Pending
                }
            },
            Expect::PeerIp { remaining } => {
                let ip: u32 = get_be32(bytes, 0);
                assert(bytes@.subrange(0, 4) =~= bytes@);
                self.ips.push(ip);
                if remaining <= 1 {
                    let (ips, _) = self.finish();
                    Event::PeerResponse(ips)
                } else {
                    self.frame = Vec::new();
                    self.expect = Expect::PeerIp { remaining: remaining - 1 };
                    Event::Pending
                }
            },
            Expect::ArchiveCount => {
                let count: u32 = get_be32(bytes, 0);
                assert(bytes@.subrange(0, 4) =~= bytes@);
                append_bytes(&mut self.frame, bytes);
                if count == 0 {
                    let (_, frame) = self.finish();
                    Event::ArchiveResponse(frame)
                } else {
                    self.ips = Vec::new();
                    self.expect = Expect::EntryLength { remaining: count };
                    Event::Pending
                }
            },
            Expect::EntryLength { remaining } => {
                append_bytes(&mut self.frame, bytes);
                self.ips = Vec::new();
                self.expect = Expect::EntryBody { remaining, length: bytes[0] };
                Event::Pending
            },
            Expect::EntryBody { remaining, length } => {
                append_bytes(&mut self.frame, bytes);
                if remaining <= 1 {
                    let (_, frame) = self.finish();
                    Event::ArchiveResponse(frame)
                } else {
                    self.ips = Vec::new();
                    self.expect = Expect::EntryLength { remaining: remaining - 1 };
                    Event::Pending
                }
            },
            Expect::NotificationLength => {
                let _ = self.finish();
                let length: u8 = bytes[0];
                if length == 0 {
                    notification_event(Vec::new())
                } else {
                    self.expect = Expect::NotificationBody { length };
                    Event::Pending
                }
            },
            Expect::NotificationBody { length } => {
                let _ = self.finish();
                notification_event(slice_to_vec(bytes))
            },
        }
    }
    /// Feeds a stream of bytes to the receiver, chunk by chunk, and returns
    /// what it completed together with the number of bytes taken. The bytes
    /// after them are the start of a chunk that is not complete yet.
    pub fn feed_stream(&mut self, stream: &[u8]) -> (out: (Vec<Event>, usize))
        ensures
            final(self)@ == run(old(self)@, stream@).state,
            views(out.0@) == run(old(self)@, stream@).events,
            out.1 == run(old(self)@, stream@).used,
            out.1 <= stream@.len(),
    {
        let mut events: Vec<Event> = Vec::new();
        let mut offset: usize = 0;
        let ghost whole = run(old(self)@, stream@);
        assert(stream@.skip(0) =~= stream@);
        assert(views(events@) =~= Seq::<EventView>::empty());
        assert(Seq::<EventView>::empty() + whole.events =~= whole.events);
        loop
            invariant
                offset <= stream@.len(),
                whole == run(old(self)@, stream@),
                whole.state == run(self@, stream@.skip(offset as int)).state,
                whole.events == views(events@) + run(self@, stream@.skip(offset as int)).events,
                whole.used == offset + run(self@, stream@.skip(offset as int)).used,
            ensures
                offset <= stream@.len(),
                whole.state == self@,
                whole.events == views(events@),
                whole.used == offset,
            decreases stream@.len() - offset,
        {
            let n: usize = self.wanted();
            let ghost tail = stream@.skip(offset as int);
            let ghost before = self@;
            let ghost so_far = views(events@);
            if n == 0 || stream.len() - offset < n {
                assert(run(before, tail).events =~= Seq::<EventView>::empty());
                assert(so_far + Seq::<EventView>::empty() =~= so_far);
                break;
            }
            let chunk: &[u8] = slice_subrange(stream, offset, offset + n);
            assert(chunk@ =~= tail.subrange(0, n as int));
            assert(tail.skip(n as int) =~= stream@.skip(offset + n));
            let event: Event = self.feed(chunk);
            let ghost rest = run(self@, stream@.skip(offset + n));
            match event {
                Event::Pending => {
                    assert(run(before, tail).events == rest.events);
                },
                _ => {
                    events.push(event);
                    proof {
                        assert(views(events@) =~= so_far.push(event@));
                        assert(so_far + (seq![event@] + rest.events) =~= views(events@)
                            + rest.events);
                    }
                },
            }
            offset += n;
        }
        (events, offset)
    }
}

/// A receiver that starts between two messages stays in the states in which
/// a message under way still lacks something, so it always wants at least
/// one byte.
pub proof fn lemma_step_reachable(state: ReceiverView, bytes: Seq<u8>)
    requires
        reachable(state.expect),
        bytes.len() == wanted(state.expect),
    ensures
        wanted(state.expect) > 0,
        reachable(step(state, bytes).0.expect),
{
}

} // verus!
