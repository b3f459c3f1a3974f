//! What whole messages do to a receiver: each message that this library
//! writes is read back by the receive side as the event that carries the
//! same content.

use crate::archive::archive_wire;
use crate::archive::decode_archive;
use crate::archive::entries_wf;
use crate::archive::lemma_decode_archive_of_wire;
use crate::archive::lemma_wire_concat_front;
use crate::archive::wire_concat;
use crate::connection::idle;
use crate::connection::run;
use crate::connection::step;
use crate::connection::wanted;
use crate::connection::EventView;
use crate::connection::Expect;
use crate::connection::ReceiverView;
use crate::connection::Run;
use crate::message::ChatView;
use crate::node::archive_reply;
use crate::node::gossip_wire;
use crate::peer::ips_wire;
use crate::peer::peer_wire;
use crate::wire::be32;
use crate::wire::lemma_be32_roundtrip;
use vstd::prelude::*;

verus! {

/// A stream that ends where a chunk ends can be fed in two parts: the
/// receiver makes of `a + b` what it makes of `a` and then of `b`.
pub proof fn lemma_run_concat(state: ReceiverView, a: Seq<u8>, b: Seq<u8>)
    requires
        run(state, a).used == a.len(),
    ensures
        run(state, a + b) == (Run {
            state: run(run(state, a).state, b).state,
            events: run(state, a).events + run(run(state, a).state, b).events,
            used: a.len() + run(run(state, a).state, b).used,
        }),
    decreases a.len(),
{
    let n = wanted(state.expect) as int;
    if n == 0 || a.len() < n {
        assert(a + b =~= b);
        assert(run(state, a).events + run(state, b).events =~= run(state, b).events);
    } else {
        let (next, event) = step(state, a.subrange(0, n));
        assert((a + b).subrange(0, n) =~= a.subrange(0, n));
        assert((a + b).skip(n) =~= a.skip(n) + b);
        lemma_run_concat(next, a.skip(n), b);
        let first = run(next, a.skip(n));
        let second = run(first.state, b);
        assert((seq![event] + first.events) + second.events =~= seq![event] + (first.events
            + second.events));
    }
}

/// A receiver makes nothing of no bytes.
pub proof fn lemma_run_empty(state: ReceiverView)
    ensures
        run(state, Seq::empty()) == (Run { state, events: Seq::empty(), used: 0 }),
{
}

/// A peer request or an archive request is one byte; the receiver answers it
/// with the matching event and is between two messages again.
pub proof fn lemma_receive_request(kind: u8)
    requires
        kind == 1 || kind == 3,
    ensures
        run(idle(), seq![kind]) == (Run {
            state: idle(),
            events: seq![
                if kind == 1 {
                    EventView::PeerRequest
                } else {
                    EventView::ArchiveRequest
                },
            ],
            used: 1,
        }),
{
    let stream = seq![kind];
    assert(stream.subrange(0, 1) =~= stream);
    assert(stream.skip(1) =~= Seq::<u8>::empty());
    lemma_run_empty(idle());
    let event = if kind == 1 {
        EventView::PeerRequest
    } else {
        EventView::ArchiveRequest
    };
    assert(seq![event] + Seq::<EventView>::empty() =~= seq![event]);
}

/// A byte that is no kind byte is dropped: the receiver reports it as ignored
/// and waits for the next kind byte.
pub proof fn lemma_receive_unknown_kind(kind: u8)
    requires
        !(1 <= kind <= 5),
    ensures
        run(idle(), seq![kind]) == (Run {
            state: idle(),
            events: seq![EventView::Ignored],
            used: 1,
        }),
{
    let stream = seq![kind];
    assert(stream.subrange(0, 1) =~= stream);
    assert(stream.skip(1) =~= Seq::<u8>::empty());
    lemma_run_empty(idle());
    assert(seq![EventView::Ignored] + Seq::<EventView>::empty() =~= seq![EventView::Ignored]);
}

/// The entries of an archive response, read one by one: the receiver that
/// has gathered `frame` and still lacks all of `entries` ends with the event
/// that carries `frame` and the wire forms of `entries`.
proof fn lemma_receive_entries(frame: Seq<u8>, entries: Seq<ChatView>)
    requires
        0 < entries.len() <= u32::MAX,
        forall|i: int| 0 <= i < entries.len() ==> (#[trigger] entries[i]).wf(),
    ensures
        run(
            ReceiverView {
                expect: Expect::EntryLength { remaining: entries.len() as u32 },
                frame,
                ..idle()
            },
            wire_concat(entries),
        ) == (Run {
            state: idle(),
            events: seq![EventView::ArchiveResponse(frame + wire_concat(entries))],
            used: wire_concat(entries).len() as int,
        }),
    decreases entries.len(),
{
    let remaining = entries.len() as u32;
    let first = entries[0];
    let others = entries.drop_first();
    assert(entries =~= seq![first] + others);
    lemma_wire_concat_front(first, others);
    let stream = wire_concat(entries);
    let length = first.message.len() as u8;
    let body = first.message + first.nonce + first.digest;
    assert(stream =~= seq![length] + body + wire_concat(others));

    let s0 = ReceiverView { expect: Expect::EntryLength { remaining }, frame, ..idle() };
    let s1 = ReceiverView {
        expect: Expect::EntryBody { remaining, length },
        frame: frame + seq![length],
        ..idle()
    };
    assert(stream.subrange(0, 1) =~= seq![length]);
    assert(step(s0, stream.subrange(0, 1)) == (s1, EventView::Pending));
    let after_length = stream.skip(1);
    assert(after_length =~= body + wire_concat(others));
    let n = length as int + 32;
    assert(after_length.subrange(0, n) =~= body);
    assert(after_length.skip(n) =~= wire_concat(others));
    assert(frame + seq![length] + body =~= frame + first.wire());
    let gathered = frame + first.wire();
    assert(run(s0, stream) == (Run {
        state: run(s1, after_length).state,
        events: run(s1, after_length).events,
        used: 1 + run(s1, after_length).used,
    }));

    if others.len() == 0 {
        assert(wire_concat(others) =~= Seq::<u8>::empty());
        assert(step(s1, body) == (idle(), EventView::ArchiveResponse(gathered)));
        lemma_run_empty(idle());
        assert(seq![EventView::ArchiveResponse(gathered)] + Seq::<EventView>::empty()
            =~= seq![EventView::ArchiveResponse(gathered)]);
        assert(gathered =~= frame + wire_concat(entries));
    } else {
        let s2 = ReceiverView {
            expect: Expect::EntryLength { remaining: (remaining - 1) as u32 },
            frame: gathered,
            ..idle()
        };
        assert(step(s1, body) == (s2, EventView::Pending));
        assert forall|i: int| 0 <= i < others.len() implies (#[trigger] others[i]).wf() by {
            assert(others[i] == entries[i + 1]);
        }
        lemma_receive_entries(gathered, others);
        assert(gathered + wire_concat(others) =~= frame + wire_concat(entries));
        assert(run(s1, after_length) == (Run {
            state: run(s2, wire_concat(others)).state,
            events: run(s2, wire_concat(others)).events,
            used: n + run(s2, wire_concat(others)).used,
        }));
    }
}

/// An archive response that is written by this library is read by the
/// receiver as one event, which carries the response as it was written.
pub proof fn lemma_receive_archive(entries: Seq<ChatView>)
    requires
        entries_wf(entries),
    ensures
        run(idle(), archive_wire(entries)) == (Run {
            state: idle(),
            events: seq![EventView::ArchiveResponse(archive_wire(entries))],
            used: archive_wire(entries).len() as int,
        }),
{
    let count = entries.len() as u32;
    let stream = archive_wire(entries);
    lemma_be32_roundtrip(count);
    let head = seq![4u8] + be32(count);
    assert(stream =~= seq![4u8] + (be32(count) + wire_concat(entries)));
    assert(stream.subrange(0, 1) =~= seq![4u8]);
    let s1 = ReceiverView { expect: Expect::ArchiveCount, frame: seq![4u8], ..idle() };
    assert(step(idle(), stream.subrange(0, 1)) == (s1, EventView::Pending));
    let after_kind = stream.skip(1);
    assert(after_kind =~= be32(count) + wire_concat(entries));
    assert(after_kind.subrange(0, 4) =~= be32(count));
    assert(after_kind.skip(4) =~= wire_concat(entries));
    assert(run(idle(), stream) == (Run {
        state: run(s1, after_kind).state,
        events: run(s1, after_kind).events,
        used: 1 + run(s1, after_kind).used,
    }));
    if count == 0 {
        assert(wire_concat(entries) =~= Seq::<u8>::empty());
        assert(step(s1, be32(count)) == (idle(), EventView::ArchiveResponse(head)));
        lemma_run_empty(idle());
        assert(seq![EventView::ArchiveResponse(head)] + Seq::<EventView>::empty()
            =~= seq![EventView::ArchiveResponse(head)]);
        assert(head =~= stream);
    } else {
        let s2 = ReceiverView {
            expect: Expect::EntryLength { remaining: count },
            frame: head,
            ..idle()
        };
        assert(step(s1, be32(count)) == (s2, EventView::Pending));
        lemma_receive_entries(head, entries);
        assert(head + wire_concat(entries) =~= stream);
        assert(run(s1, after_kind) == (Run {
            state: run(s2, wire_concat(entries)).state,
            events: run(s2, wire_concat(entries)).events,
            used: 4 + run(s2, wire_concat(entries)).used,
        }));
    }
}

/// The addresses of a list that starts with `first` start with the four bytes
/// of `first`.
pub proof fn lemma_ips_wire_front(first: u32, rest: Seq<u32>)
    ensures
        ips_wire(seq![first] + rest) == be32(first) + ips_wire(rest),
    decreases rest.len(),
{
    let all = seq![first] + rest;
    if rest.len() == 0 {
        assert(all.drop_last() =~= Seq::<u32>::empty());
        assert(ips_wire(all.drop_last()) =~= Seq::<u8>::empty());
        assert(ips_wire(rest) =~= Seq::<u8>::empty());
        assert(all.last() == first);
        assert(ips_wire(all) =~= be32(first) + ips_wire(rest));
    } else {
        lemma_ips_wire_front(first, rest.drop_last());
        assert(all.drop_last() =~= seq![first] + rest.drop_last());
        assert(all.last() == rest.last());
        assert(ips_wire(all) =~= be32(first) + ips_wire(rest));
    }
}

/// The addresses of a peer response, read one by one: the receiver that has
/// gathered `seen` and still lacks all of `ips` ends with the event that
/// carries `seen` and then `ips`.
proof fn lemma_receive_ips(seen: Seq<u32>, ips: Seq<u32>)
    requires
        0 < ips.len() <= u32::MAX,
    ensures
        run(
            ReceiverView {
                expect: Expect::PeerIp { remaining: ips.len() as u32 },
                ips: seen,
                ..idle()
            },
            ips_wire(ips),
        ) == (Run {
            state: idle(),
            events: seq![EventView::PeerResponse(seen + ips)],
            used: ips_wire(ips).len() as int,
        }),
    decreases ips.len(),
{
    let remaining = ips.len() as u32;
    let first = ips[0];
    let others = ips.drop_first();
    assert(ips =~= seq![first] + others);
    lemma_ips_wire_front(first, others);
    lemma_be32_roundtrip(first);
    let stream = ips_wire(ips);
    let s0 = ReceiverView { expect: Expect::PeerIp { remaining }, ips: seen, ..idle() };
    assert(stream.subrange(0, 4) =~= be32(first));
    assert(stream.skip(4) =~= ips_wire(others));
    let gathered = seen.push(first);
    if others.len() == 0 {
        assert(ips_wire(others) =~= Seq::<u8>::empty());
        assert(step(s0, be32(first)) == (idle(), EventView::PeerResponse(gathered)));
        lemma_run_empty(idle());
        assert(seq![EventView::PeerResponse(gathered)] + Seq::<EventView>::empty()
            =~= seq![EventView::PeerResponse(gathered)]);
        assert(gathered =~= seen + ips);
    } else {
        let s1 = ReceiverView {
            expect: Expect::PeerIp { remaining: (remaining - 1) as u32 },
            ips: gathered,
            ..idle()
        };
        assert(step(s0, be32(first)) == (s1, EventView::Pending));
        lemma_receive_ips(gathered, others);
        assert(gathered + others =~= seen + ips);
    }
}

/// A peer response that is written by this library is read by the receiver as
/// one event, which carries the addresses in the order in which they were
/// written.
pub proof fn lemma_receive_peers(ips: Seq<u32>)
    requires
        ips.len() <= u32::MAX,
    ensures
        run(idle(), peer_wire(ips)) == (Run {
            state: idle(),
            events: seq![EventView::PeerResponse(ips)],
            used: peer_wire(ips).len() as int,
        }),
{
    let count = ips.len() as u32;
    let stream = peer_wire(ips);
    lemma_be32_roundtrip(count);
    assert(stream =~= seq![2u8] + (be32(count) + ips_wire(ips)));
    assert(stream.subrange(0, 1) =~= seq![2u8]);
    let s1 = ReceiverView { expect: Expect::PeerCount, ..idle() };
    assert(step(idle(), stream.subrange(0, 1)) == (s1, EventView::Pending));
    let after_kind = stream.skip(1);
    assert(after_kind =~= be32(count) + ips_wire(ips));
    assert(after_kind.subrange(0, 4) =~= be32(count));
    assert(after_kind.skip(4) =~= ips_wire(ips));
    assert(run(idle(), stream) == (Run {
        state: run(s1, after_kind).state,
        events: run(s1, after_kind).events,
        used: 1 + run(s1, after_kind).used,
    }));
    if count == 0 {
        assert(ips_wire(ips) =~= Seq::<u8>::empty());
        assert(ips =~= Seq::<u32>::empty());
        lemma_run_empty(idle());
        assert(seq![EventView::PeerResponse(ips)] + Seq::<EventView>::empty()
            =~= seq![EventView::PeerResponse(ips)]);
    } else {
        let s2 = ReceiverView { expect: Expect::PeerIp { remaining: count }, ..idle() };
        assert(step(s1, be32(count)) == (s2, EventView::Pending));
        lemma_receive_ips(Seq::empty(), ips);
        assert(Seq::<u32>::empty() + ips =~= ips);
        assert(run(s1, after_kind) == (Run {
            state: run(s2, ips_wire(ips)).state,
            events: run(s2, ips_wire(ips)).events,
            used: 4 + run(s2, ips_wire(ips)).used,
        }));
    }
}

/// What a node sends in one gossip cycle, the peer's receiver reads as a peer
/// request, an archive request and, unless the archive is empty, an archive
/// response from which the archive can be read back as it is.
pub proof fn lemma_receive_gossip(entries: Seq<ChatView>)
    requires
        entries_wf(entries),
    ensures
        run(idle(), gossip_wire(entries)).state == idle(),
        run(idle(), gossip_wire(entries)).used == gossip_wire(entries).len(),
        entries.len() == 0 ==> run(idle(), gossip_wire(entries)).events == seq![
            EventView::PeerRequest,
            EventView::ArchiveRequest,
        ],
        entries.len() > 0 ==> run(idle(), gossip_wire(entries)).events == seq![
            EventView::PeerRequest,
            EventView::ArchiveRequest,
            EventView::ArchiveResponse(archive_wire(entries)),
        ],
        decode_archive(archive_wire(entries)) == Some(entries),
{
    let reply = archive_reply(entries);
    lemma_receive_request(1);
    lemma_receive_request(3);
    lemma_run_concat(idle(), seq![1u8], seq![3u8]);
    assert(seq![1u8] + seq![3u8] =~= seq![1u8, 3u8]);
    assert(seq![EventView::PeerRequest] + seq![EventView::ArchiveRequest] =~= seq![
        EventView::PeerRequest,
        EventView::ArchiveRequest,
    ]);
    lemma_run_concat(idle(), seq![1u8, 3u8], reply);
    if entries.len() == 0 {
        lemma_run_empty(idle());
        assert(seq![EventView::PeerRequest, EventView::ArchiveRequest] + Seq::<
            EventView,
        >::empty() =~= seq![EventView::PeerRequest, EventView::ArchiveRequest]);
    } else {
        lemma_receive_archive(entries);
        assert(seq![EventView::PeerRequest, EventView::ArchiveRequest] + seq![
            EventView::ArchiveResponse(archive_wire(entries)),
        ] =~= seq![
            EventView::PeerRequest,
            EventView::ArchiveRequest,
            EventView::ArchiveResponse(archive_wire(entries)),
        ]);
    }
    lemma_decode_archive_of_wire(entries, Seq::empty());
    assert(archive_wire(entries) + Seq::<u8>::empty() =~= archive_wire(entries));
}

} // verus!
