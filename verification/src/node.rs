//! What a node does with its archive when a peer asks for it, when a peer
//! sends one, and when a gossip cycle is due.

use crate::archive::archive_wire;
use crate::archive::chain_valid;
use crate::archive::decode_archive;
use crate::archive::entries_wf;
use crate::archive::lemma_decode_archive_of_wire;
use crate::archive::lemma_wire_of_decode_archive;
use crate::archive::Archive;
use crate::message::ChatView;
use crate::message::MessageType;
use crate::wire::append_bytes;
use vstd::prelude::*;

verus! {

/// The TCP port on which every node listens and to which every node dials.
pub const TCP_PORT: u16 = 51511;

/// The seconds between two gossip cycles on one connection.
pub const GOSSIP_PERIOD_SECS: u64 = 5;

/// What answers an archive request: the archive response, or nothing at all
/// where the archive is empty.
pub open spec fn archive_reply(entries: Seq<ChatView>) -> Seq<u8> {
    if entries.len() == 0 {
        Seq::empty()
    } else {
        archive_wire(entries)
    }
}

/// What a node sends in one gossip cycle: a peer request, an archive request,
/// then its own archive as if the peer had asked for it.
pub open spec fn gossip_wire(entries: Seq<ChatView>) -> Seq<u8> {
    seq![1u8, 3u8] + archive_reply(entries)
}

/// The bytes that answer an archive request. An empty archive is not sent.
pub fn handle_archive_request(archive: &Archive) -> (reply: Vec<u8>)
    ensures
        reply@ == archive_reply(archive@),
{
    if archive.len() > 0 {
        archive.to_bytes()
    } else {
        Vec::new()
    }
}

/// The archive that a node holds after an archive response: the archive that
/// `frame` carries where `frame` can be read, the archive meets the chain
/// rule at every entry and is strictly longer than `local`; in every other
/// case `local`.
pub open spec fn after_response(local: Seq<ChatView>, frame: Seq<u8>) -> Seq<ChatView> {
    match decode_archive(frame) {
        Some(received) => if chain_valid(received) && received.len() > local.len() {
            received
        } else {
            local
        },
        None => local,
    }
}

/// Takes in an archive response. The archive that `frame` carries replaces
/// `local` where `frame` can be read, the archive meets the chain rule at
/// every entry and is strictly longer than `local`. In every other case
/// `local` stays as it is.
pub fn handle_archive_response(local: &mut Archive, frame: &[u8]) -> (adopted: bool)
    ensures
        final(local)@ == after_response(old(local)@, frame@),
        adopted == (decode_archive(frame@) matches Some(received) && chain_valid(received)
            && received.len() > old(local)@.len()),
        adopted ==> final(local).wf() && chain_valid(final(local)@),
        !adopted ==> *final(local) == *old(local),
        chain_valid(old(local)@) ==> chain_valid(final(local)@),
        final(local)@.len() >= old(local)@.len(),
        decode_archive(frame@) matches Some(received) ==> (chain_valid(received)
            ==> received.len() <= final(local)@.len()),
{
    match Archive::from_bytes(frame) {
        Some(received) => {
            if received.len() > local.len() && received.is_valid() {
                *local = received;
                true
            } else {
                false
            }
        },
        None => false,
    }
}

/// The bytes that a node sends in one gossip cycle.
pub fn gossip_round(archive: &Archive) -> (bytes: Vec<u8>)
    ensures
        bytes@ == gossip_wire(archive@),
{
    let mut bytes: Vec<u8> = Vec::new();
    bytes.push(MessageType::PeerRequest.to_byte());
    bytes.push(MessageType::ArchiveRequest.to_byte());
    let reply: Vec<u8> = handle_archive_request(archive);
    append_bytes(&mut bytes, reply.as_slice());
    bytes
}

/// Whatever arrives, a node whose archive meets the chain rule holds one that
/// meets it afterwards: an archive is adopted only if it does.
pub proof fn lemma_response_keeps_valid(local: Seq<ChatView>, frame: Seq<u8>)
    requires
        chain_valid(local),
    ensures
        chain_valid(after_response(local, frame)),
{
}

/// A node's archive never gets shorter, and after a response that carries an
/// archive which meets the chain rule it is at least as long as that one.
/// What the node holds then fits the wire form if what it held before did.
pub proof fn lemma_response_never_shortens(local: Seq<ChatView>, frame: Seq<u8>)
    ensures
        after_response(local, frame).len() >= local.len(),
        decode_archive(frame) matches Some(received) ==> (chain_valid(received) ==> received.len()
            <= after_response(local, frame).len()),
        entries_wf(local) ==> entries_wf(after_response(local, frame)),
{
    if decode_archive(frame) is Some {
        lemma_wire_of_decode_archive(frame);
    }
}

/// The longest archive wins: a node that is sent an archive which fits the
/// wire form, meets the chain rule and is strictly longer than its own holds
/// that archive afterwards.
pub proof fn lemma_longer_archive_wins(local: Seq<ChatView>, remote: Seq<ChatView>)
    requires
        entries_wf(remote),
        chain_valid(remote),
        remote.len() > local.len(),
    ensures
        after_response(local, archive_wire(remote)) == remote,
{
    lemma_decode_archive_of_wire(remote, Seq::empty());
    assert(archive_wire(remote) + Seq::<u8>::empty() =~= archive_wire(remote));
}

/// A node that is sent an archive which is not longer than its own, or
/// which breaks the chain rule at some entry, keeps its own.
pub proof fn lemma_other_archives_lose(local: Seq<ChatView>, remote: Seq<ChatView>)
    requires
        entries_wf(remote),
        remote.len() <= local.len() || !chain_valid(remote),
    ensures
        after_response(local, archive_wire(remote)) == local,
{
    lemma_decode_archive_of_wire(remote, Seq::empty());
    assert(archive_wire(remote) + Seq::<u8>::empty() =~= archive_wire(remote));
}

} // verus!
