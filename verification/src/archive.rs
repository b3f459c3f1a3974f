//! The chat archive: an ordered chain of entries, each sealed by the MD5
//! digest of a window of the chain that ends in the entry itself.

use crate::digest::md5_digest;
use crate::digest::md5_of;
use crate::message::decode_chat;
use crate::message::lemma_decode_chat_of_wire;
use crate::message::lemma_wire_of_decode_chat;
use crate::message::Chat;
use crate::message::ChatView;
use crate::wire::append_bytes;
use crate::wire::be32;
use crate::wire::from_be32;
use crate::wire::get_be32;
use crate::wire::lemma_be32_roundtrip;
use crate::wire::lemma_from_be32_roundtrip;
use crate::wire::put_be32;
use crate::random::draw_nonce;
use vstd::prelude::*;
use vstd::slice::slice_subrange;
use vstd::string::is_ascii_spec_bytes;
use vstd::utf8::encode_utf8;
use vstd::utf8::encode_utf8_valid_utf8;
use vstd::utf8::is_ascii_chars;
use vstd::utf8::is_ascii_chars_encode_utf8;
use vstd::utf8::is_ascii_chars_nat_bound;
use vstd::utf8::valid_utf8;

verus! {

/// How many entries before an entry enter its digest.
pub const WINDOW_PREDECESSORS: usize = 19;

/// How many nonces `add_message` draws before it gives up. One draw in 65536
/// is expected to be on target.
pub const MINING_ATTEMPTS: u64 = 0xffff_ffff_ffff_ffff;

/// The ordered sequence of chat entries that a node holds. Index 0 is the
/// oldest entry.
#[derive(Debug, Clone, PartialEq, Eq)]
pub struct Archive {
    pub chats: Vec<Chat>,
}

impl View for Archive {
    type V = Seq<ChatView>;

    open spec fn view(&self) -> Seq<ChatView> {
        self.chats@.map_values(|chat: Chat| chat@)
    }
}

/// The wire forms of `entries`, one after the other.
pub open spec fn wire_concat(entries: Seq<ChatView>) -> Seq<u8>
    decreases entries.len(),
{
    if entries.len() == 0 {
        Seq::empty()
    } else {
        wire_concat(entries.drop_last()) + entries.last().wire()
    }
}

/// The archive response that carries `entries`: the kind byte, the number of
/// entries in four bytes, then the entries. More than `u32::MAX` entries do
/// not fit the wire form; the count field then holds what is left of their
/// number after division by 2^32.
pub open spec fn archive_wire(entries: Seq<ChatView>) -> Seq<u8> {
    seq![4u8] + be32((entries.len() % 0x1_0000_0000) as u32) + wire_concat(entries)
}

/// Reads `count` entries from the front of `data`, or `None` as soon as one of
/// them cannot be read.
pub open spec fn decode_entries(data: Seq<u8>, count: nat) -> Option<Seq<ChatView>>
    decreases count,
{
    if count == 0 {
        Some(Seq::empty())
    } else {
        match decode_chat(data) {
            None => None,
            Some((entry, used)) => match decode_entries(data.skip(used), (count - 1) as nat) {
                None => None,
                Some(rest) => Some(seq![entry] + rest),
            },
        }
    }
}

/// Reads an archive response: `None` unless `data` starts with the kind byte
/// and a count and then holds that many entries. Bytes after the last entry
/// are left alone.
pub open spec fn decode_archive(data: Seq<u8>) -> Option<Seq<ChatView>> {
    if data.len() < 5 || data[0] != 4 {
        None
    } else {
        decode_entries(data.skip(5), from_be32(data.subrange(1, 5)) as nat)
    }
}

/// An archive that the wire form can carry: every entry fits it, and the
/// number of entries fits the count field.
pub open spec fn entries_wf(entries: Seq<ChatView>) -> bool {
    &&& entries.len() <= u32::MAX
    &&& forall|i: int| 0 <= i < entries.len() ==> (#[trigger] entries[i]).wf()
}

/// The index of the oldest entry that enters the digest of entry `i`.
pub open spec fn window_start(i: int) -> int {
    if i > WINDOW_PREDECESSORS {
        i - WINDOW_PREDECESSORS
    } else {
        0
    }
}

/// What is hashed for entry `i`: the wire forms of the entries of its window
/// before it, then its own wire form without the digest.
pub open spec fn preimage(entries: Seq<ChatView>, i: int) -> Seq<u8>
    recommends
        0 <= i < entries.len(),
{
    wire_concat(entries.subrange(window_start(i), i)) + entries[i].unsealed()
}

/// What is hashed while a nonce is tried for a new message: the preimage of
/// the entry that the message and the nonce would make at the end of
/// `entries`.
pub open spec fn mining_preimage(entries: Seq<ChatView>, message: Seq<u8>, nonce: Seq<u8>) -> Seq<
    u8,
> {
    preimage(
        entries.push(ChatView { message, nonce, digest: Seq::empty() }),
        entries.len() as int,
    )
}

/// The entry that `nonce` makes of `message` at the end of `entries`: its
/// digest is the MD5 digest of what is hashed while the nonce is tried.
pub open spec fn sealed_entry(entries: Seq<ChatView>, message: Seq<u8>, nonce: Seq<u8>) -> ChatView {
    ChatView { message, nonce, digest: md5_digest(mining_preimage(entries, message, nonce)) }
}

/// The difficulty target: the digest starts with two zero bytes.
pub open spec fn meets_target(digest: Seq<u8>) -> bool {
    digest.len() >= 2 && digest[0] == 0 && digest[1] == 0
}

/// The chain rule at entry `i`: its digest meets the target and is the MD5
/// digest of its preimage.
pub open spec fn entry_valid(entries: Seq<ChatView>, i: int) -> bool
    recommends
        0 <= i < entries.len(),
{
    meets_target(entries[i].digest) && md5_digest(preimage(entries, i)) == entries[i].digest
}

/// The chain rule holds at every entry. The empty archive is valid.
pub open spec fn chain_valid(entries: Seq<ChatView>) -> bool {
    forall|i: int| 0 <= i < entries.len() ==> #[trigger] entry_valid(entries, i)
}

/// A message that may be appended: 1 to 255 characters, each of them a space
/// or a printable ASCII character.
pub open spec fn valid_message(text: Seq<char>) -> bool {
    &&& 1 <= text.len() <= 255
    &&& forall|i: int| 0 <= i < text.len() ==> ' ' <= #[trigger] text[i] <= '~'
}

/// Whether the digest starts with two zero bytes.
pub fn has_zero_prefix(digest: &[u8; 16]) -> (ok: bool)
    ensures
        ok == meets_target(digest@),
{
    digest[0] == 0 && digest[1] == 0
}

/// Whether two 16-byte blocks hold the same bytes.
fn same_block(a: &[u8; 16], b: &[u8; 16]) -> (same: bool)
    ensures
        same == (a@ == b@),
{
    let mut i: usize = 0;
    while i < 16
        invariant
            i <= 16,
            forall|j: int| 0 <= j < i ==> a@[j] == b@[j],
        decreases 16 - i,
    {
        if a[i] != b[i] {
            return false;
        }
        i += 1;
    }
    assert(a@ =~= b@);
    true
}

impl Chat {
    /// Whether `digest`, computed over this entry's preimage, seals the
    /// entry: the stored digest meets the target and equals `digest`.
    pub fn is_sealed_by(&self, digest: &[u8; 16]) -> (ok: bool)
        ensures
            ok == (meets_target(self@.digest) && digest@ == self@.digest),
    {
        has_zero_prefix(&self.md5_hash) && same_block(digest, &self.md5_hash)
    }
}

impl Archive {
    /// Whether the wire form can carry this archive.
    pub open spec fn wf(&self) -> bool {
        entries_wf(self@)
    }

    /// The empty archive.
    pub fn new() -> (archive: Archive)
        ensures
            archive@ == Seq::<ChatView>::empty(),
            archive.wf(),
    {
        let archive = Archive { chats: Vec::new() };
        assert(archive@ =~= Seq::<ChatView>::empty());
        archive
    }

    /// The number of entries.
    pub fn len(&self) -> (n: usize)
        ensures
            n == self@.len(),
    {
        self.chats.len()
    }

    /// Appends the wire forms of the entries `from..to` to `out`.
    fn write_entries(&self, from: usize, to: usize, out: &mut Vec<u8>)
        requires
            from <= to <= self@.len(),
        ensures
            final(out)@ == old(out)@ + wire_concat(self@.subrange(from as int, to as int)),
    {
        let mut j: usize = from;
        assert(self@.subrange(from as int, from as int) =~= Seq::<ChatView>::empty());
        while j < to
            invariant
                from <= j <= to <= self@.len(),
                self@.len() == self.chats@.len(),
                out@ == old(out)@ + wire_concat(self@.subrange(from as int, j as int)),
            decreases to - j,
        {
            let entry: Vec<u8> = self.chats[j].to_bytes();
            append_bytes(out, entry.as_slice());
            proof {
                let upto = self@.subrange(from as int, j + 1);
                assert(upto.drop_last() =~= self@.subrange(from as int, j as int));
                assert(upto.last() == self.chats@[j as int]@);
                assert(out@ =~= old(out)@ + wire_concat(upto));
            }
            j += 1;
        }
    }

    /// The archive response that carries this archive. Where the archive fits
    /// the wire form, it can be read back from the bytes.
    pub fn to_bytes(&self) -> (bytes: Vec<u8>)
        ensures
            bytes@ == archive_wire(self@),
            self.wf() ==> decode_archive(bytes@) == Some(self@),
    {
        proof {
            if self.wf() {
                lemma_decode_archive_of_wire(self@, Seq::empty());
                assert(archive_wire(self@) + Seq::<u8>::empty() =~= archive_wire(self@));
            }
        }
        let mut bytes: Vec<u8> = Vec::new();
        bytes.push(4);
        let count: u32 = (self.chats.len() as u64 % 0x1_0000_0000) as u32;
        put_be32(&mut bytes, count);
        self.write_entries(0, self.chats.len(), &mut bytes);
        assert(self@.subrange(0, self@.len() as int) =~= self@);
        bytes
    }

    /// The bytes that are hashed for the entry at `index`.
    pub fn window_preimage(&self, index: usize) -> (bytes: Vec<u8>)
        requires
            index < self@.len(),
        ensures
            bytes@ == preimage(self@, index as int),
    {
        let start: usize = if index > WINDOW_PREDECESSORS {
            index - WINDOW_PREDECESSORS
        } else {
            0
        };
        let mut bytes: Vec<u8> = Vec::new();
        self.write_entries(start, index, &mut bytes);
        self.chats[index].write_unsealed(&mut bytes);
        bytes
    }

    /// Whether the chain rule holds at `index`. An index past the end has no
    /// entry, so the answer there is `false`.
    pub fn validate_chat_at_index(&self, index: usize) -> (ok: bool)
        ensures
            ok == (index < self@.len() && entry_valid(self@, index as int)),
    {
        if index >= self.chats.len() {
            return false;
        }
        let bytes: Vec<u8> = self.window_preimage(index);
        let digest: [u8; 16] = md5_of(bytes.as_slice());
        self.chats[index].is_sealed_by(&digest)
    }

    /// Whether the chain rule holds at every entry.
    pub fn is_valid(&self) -> (ok: bool)
        ensures
            ok == chain_valid(self@),
    {
        let mut i: usize = 0;
        while i < self.chats.len()
            invariant
                i <= self.chats@.len(),
                self@.len() == self.chats@.len(),
                forall|j: int| 0 <= j < i ==> #[trigger] entry_valid(self@, j),
            decreases self.chats@.len() - i,
        {
            if !self.validate_chat_at_index(i) {
                return false;
            }
            i += 1;
        }
        true
    }

    /// Whether `message` may be appended: 1 to 255 characters, each of them a
    /// space or a printable ASCII character.
    pub fn is_valid_message(message: &str) -> (ok: bool)
        ensures
            ok == valid_message(message@),
    {
        broadcast use is_ascii_spec_bytes;

        if !message.is_ascii() {
            proof {
                if valid_message(message@) {
                    assert forall|i: int| 0 <= i < message@.len() implies '\0'
                        <= #[trigger] message@[i] <= '\u{7f}' by {
                        assert(' ' <= message@[i] <= '~');
                    }
                    assert(is_ascii_chars(message@));
                }
            }
            return false;
        }
        let bytes: &[u8] = message.as_bytes();
        assert(bytes@.len() == message@.len());
        if bytes.len() == 0 || bytes.len() > 255 {
            return false;
        }
        let mut i: usize = 0;
        while i < bytes.len()
            invariant
                i <= bytes@.len(),
                bytes@.len() == message@.len(),
                forall|j: int| 0 <= j < bytes@.len() ==> bytes@[j] == message@[j] as u8,
                is_ascii_chars(message@),
                forall|j: int| 0 <= j < i ==> ' ' <= #[trigger] message@[j] <= '~',
            decreases bytes@.len() - i,
        {
            let b: u8 = bytes[i];
            proof {
                is_ascii_chars_nat_bound(message@);
                assert((message@[i as int] as nat) < 128);
                assert(b == message@[i as int] as u8);
            }
            if b < 0x20 || b > 0x7e {
                return false;
            }
            i += 1;
        }
        true
    }

    /// The bytes that are hashed while `nonce` is tried for `message`.
    pub fn candidate_preimage(&self, message: &str, nonce: &[u8; 16]) -> (bytes: Vec<u8>)
        ensures
            bytes@ == mining_preimage(self@, encode_utf8(message@), nonce@),
    {
        let len: usize = self.chats.len();
        let start: usize = if len > WINDOW_PREDECESSORS {
            len - WINDOW_PREDECESSORS
        } else {
            0
        };
        let mut bytes: Vec<u8> = Vec::new();
        self.write_entries(start, len, &mut bytes);
        let text: &[u8] = message.as_bytes();
        bytes.push((text.len() % 256) as u8);
        append_bytes(&mut bytes, text);
        append_bytes(&mut bytes, nonce.as_slice());
        proof {
            let entry = ChatView {
                message: encode_utf8(message@),
                nonce: nonce@,
                digest: Seq::empty(),
            };
            let longer = self@.push(entry);
            assert(longer.subrange(start as int, len as int) =~= self@.subrange(
                start as int,
                len as int,
            ));
            assert(bytes@ =~= preimage(longer, len as int));
        }
        bytes
    }

    /// Ends one mining attempt: where `digest` meets the target, the entry
    /// made of `message`, `nonce` and `digest` is appended; otherwise nothing
    /// changes.
    pub fn append_mined(&mut self, message: &str, nonce: [u8; 16], digest: [u8; 16]) -> (ok: bool)
        ensures
            ok == meets_target(digest@),
            ok ==> final(self)@ == old(self)@.push(
                ChatView { message: encode_utf8(message@), nonce: nonce@, digest: digest@ },
            ),
            !ok ==> *final(self) == *old(self),
    {
        if !has_zero_prefix(&digest) {
            return false;
        }
        let entry = Chat { message: message.to_owned(), verification_code: nonce, md5_hash: digest };
        self.chats.push(entry);
        assert(self@ =~= old(self)@.push(entry@));
        true
    }

    /// One mining attempt with a given nonce: hashes what the nonce and
    /// `message` make at the end of the archive and appends the sealed entry
    /// where the digest is on target. Otherwise nothing changes.
    pub fn try_nonce(&mut self, message: &str, nonce: [u8; 16]) -> (ok: bool)
        ensures
            ok == meets_target(sealed_entry(old(self)@, encode_utf8(message@), nonce@).digest),
            ok ==> final(self)@ == old(self)@.push(
                sealed_entry(old(self)@, encode_utf8(message@), nonce@),
            ),
            ok ==> entry_valid(final(self)@, old(self)@.len() as int),
            ok && chain_valid(old(self)@) ==> chain_valid(final(self)@),
            !ok ==> *final(self) == *old(self),
    {
        let bytes: Vec<u8> = self.candidate_preimage(message, &nonce);
        let digest: [u8; 16] = md5_of(bytes.as_slice());
        let ok: bool = self.append_mined(message, nonce, digest);
        proof {
            if ok {
                let entry = sealed_entry(old(self)@, encode_utf8(message@), nonce@);
                lemma_preimage_ignores_digest(old(self)@, entry, Seq::empty());
                lemma_push_keeps_valid(old(self)@, entry);
            }
        }
        ok
    }

    /// Searches a nonce for `message`: draws up to `attempts` random nonces
    /// and appends the entry that the first of them on target seals. Where
    /// none of them is on target, nothing changes. Which nonces are drawn is
    /// a matter of chance; what each of them does is what
    /// [`Archive::try_nonce`] does with it.
    pub fn mine(&mut self, message: &str, attempts: u64) -> (ok: bool)
        ensures
            attempts == 0 ==> !ok,
            !ok ==> *final(self) == *old(self),
            ok ==> {
                &&& final(self)@.len() == old(self)@.len() + 1
                &&& final(self)@.drop_last() == old(self)@
                &&& final(self)@.last().message == encode_utf8(message@)
                &&& entry_valid(final(self)@, old(self)@.len() as int)
            },
            ok && chain_valid(old(self)@) ==> chain_valid(final(self)@),
    {
        let mut rng = rand::rng();
        let mut attempts_left: u64 = attempts;
        while attempts_left > 0
            invariant
                *self == *old(self),
                attempts_left <= attempts,
            decreases attempts_left,
        {
            let nonce: [u8; 16] = draw_nonce(&mut rng);
            if self.try_nonce(message, nonce) {
                assert(self@.drop_last() =~= old(self)@);
                return true;
            }
            attempts_left -= 1;
        }
        false
    }

    /// Mines a nonce for `message` and appends the sealed entry. Returns
    /// `false`, and leaves the archive as it was, where `message` is not a
    /// valid message. The search draws up to [`MINING_ATTEMPTS`] nonces, far
    /// more than any run sees; should every one of them miss the target, the
    /// archive is left as it was, too.
    pub fn add_message(&mut self, message: String) -> (ok: bool)
        ensures
            !valid_message(message@) ==> !ok,
            !ok ==> *final(self) == *old(self),
            ok ==> {
                &&& valid_message(message@)
                &&& final(self)@.len() == old(self)@.len() + 1
                &&& final(self)@.drop_last() == old(self)@
                &&& final(self)@.last().message == encode_utf8(message@)
                &&& entry_valid(final(self)@, old(self)@.len() as int)
            },
            ok && chain_valid(old(self)@) ==> chain_valid(final(self)@),
            ok && old(self).wf() && old(self)@.len() < u32::MAX ==> final(self).wf(),
    {
        if !Archive::is_valid_message(message.as_str()) {
            return false;
        }
        let ok: bool = self.mine(message.as_str(), MINING_ATTEMPTS);
        proof {
            if ok && old(self).wf() {
                lemma_valid_message_fits(message@);
                assert forall|i: int| 0 <= i < self@.len() implies (#[trigger] self@[i]).wf() by {
                    if i < old(self)@.len() {
                        assert(self@[i] == self@.drop_last()[i]);
                    }
                }
            }
        }
        ok
    }

    /// Reads an archive response. Fails unless `data` starts with the kind
    /// byte and a count and then holds that many entries; bytes after the
    /// last entry are left alone. The digests are not looked at: see
    /// [`Archive::is_valid`]. Writing the archive out gives back the bytes
    /// that it was read from.
    pub fn from_bytes(data: &[u8]) -> (r: Option<Archive>)
        ensures
            match r {
                Some(archive) => decode_archive(data@) == Some(archive@) && archive.wf(),
                None => decode_archive(data@) is None,
            },
            r matches Some(archive) ==> archive_wire(archive@).len() <= data@.len()
                && archive_wire(archive@) == data@.subrange(
                0,
                archive_wire(archive@).len() as int,
            ),
    {
        proof {
            if decode_archive(data@) is Some {
                lemma_wire_of_decode_archive(data@);
            }
        }
        if data.len() < 5 || data[0] != 4 {
            return None;
        }
        let count: u32 = get_be32(data, 1);
        let mut chats: Vec<Chat> = Vec::new();
        let mut offset: usize = 5;
        let mut k: u32 = 0;
        let ghost body = data@.skip(5);
        assert(chats@.map_values(|chat: Chat| chat@) =~= Seq::<ChatView>::empty());
        assert(decode_entries(body, count as nat) is Some ==> Seq::<ChatView>::empty()
            + decode_entries(body, count as nat)->0 =~= decode_entries(body, count as nat)->0);
        while k < count
            invariant
                5 <= offset <= data@.len(),
                k <= count,
                chats@.len() == k,
                body == data@.skip(5),
                decode_archive(data@) == decode_entries(body, count as nat),
                forall|i: int| 0 <= i < k ==> (#[trigger] chats@[i]).wf(),
                decode_entries(body, count as nat) == (match decode_entries(
                    data@.skip(offset as int),
                    (count - k) as nat,
                ) {
                    None => None,
                    Some(rest) => Some(chats@.map_values(|chat: Chat| chat@) + rest),
                }),
            decreases count - k,
        {
            let ghost before = chats@.map_values(|chat: Chat| chat@);
            let ghost tail = data@.skip(offset as int);
            assert(data@.subrange(offset as int, data@.len() as int) =~= tail);
            match Chat::from_bytes(slice_subrange(data, offset, data.len())) {
                Some((chat, size)) => {
                    proof {
                        assert(tail.skip(size as int) =~= data@.skip(offset + size));
                        let after = chats@.push(chat).map_values(|chat: Chat| chat@);
                        assert(after =~= before.push(chat@));
                        match decode_entries(data@.skip(offset + size), (count - k - 1) as nat) {
                            Some(rest) => {
                                assert(before + (seq![chat@] + rest) =~= after + rest);
                            },
                            None => {},
                        }
                    }
                    chats.push(chat);
                    offset += size;
                },
                None => {
                    assert(decode_entries(tail, (count - k) as nat) is None);
                    return None;
                },
            }
            k += 1;
        }
        let archive = Archive { chats };
        proof {
            assert(archive@ + Seq::<ChatView>::empty() =~= archive@);
            assert forall|i: int| 0 <= i < archive@.len() implies (#[trigger] archive@[i]).wf() by {
                assert(archive.chats@[i].wf());
            }
        }
        Some(archive)
    }
}

/// The wire forms of a sequence that starts with `first` start with the wire
/// form of `first`.
pub proof fn lemma_wire_concat_front(first: ChatView, rest: Seq<ChatView>)
    ensures
        wire_concat(seq![first] + rest) == first.wire() + wire_concat(rest),
    decreases rest.len(),
{
    let all = seq![first] + rest;
    if rest.len() == 0 {
        assert(all.drop_last() =~= Seq::<ChatView>::empty());
        assert(wire_concat(all.drop_last()) =~= Seq::<u8>::empty());
        assert(wire_concat(rest) =~= Seq::<u8>::empty());
        assert(all.last() == first);
        assert(wire_concat(all) =~= first.wire() + wire_concat(rest));
    } else {
        lemma_wire_concat_front(first, rest.drop_last());
        assert(all.drop_last() =~= seq![first] + rest.drop_last());
        assert(all.last() == rest.last());
        assert(wire_concat(all) =~= first.wire() + wire_concat(rest));
    }
}

/// Entries that are written out and read back are the same entries, whatever
/// follows them on the wire.
pub proof fn lemma_decode_entries_of_wire(entries: Seq<ChatView>, rest: Seq<u8>)
    requires
        forall|i: int| 0 <= i < entries.len() ==> (#[trigger] entries[i]).wf(),
    ensures
        decode_entries(wire_concat(entries) + rest, entries.len()) == Some(entries),
    decreases entries.len(),
{
    if entries.len() > 0 {
        let first = entries[0];
        let others = entries.drop_first();
        assert(entries =~= seq![first] + others);
        lemma_wire_concat_front(first, others);
        let data = wire_concat(entries) + rest;
        assert(data =~= first.wire() + (wire_concat(others) + rest));
        lemma_decode_chat_of_wire(first, wire_concat(others) + rest);
        assert(data.skip(first.wire().len() as int) =~= wire_concat(others) + rest);
        lemma_decode_entries_of_wire(others, rest);
    } else {
        assert(entries =~= Seq::<ChatView>::empty());
    }
}

/// Entries that were read from bytes are as many as were asked for, each is
/// well formed, and writing them out gives back the bytes they were read from.
pub proof fn lemma_wire_of_decode_entries(data: Seq<u8>, count: nat)
    requires
        decode_entries(data, count) is Some,
    ensures
        decode_entries(data, count) matches Some(entries) && entries.len() == count
            && wire_concat(entries).len() <= data.len() && wire_concat(entries) == data.subrange(
            0,
            wire_concat(entries).len() as int,
        ) && forall|i: int| 0 <= i < entries.len() ==> (#[trigger] entries[i]).wf(),
    decreases count,
{
    if count == 0 {
        assert(data.subrange(0, 0) =~= Seq::<u8>::empty());
    } else {
        lemma_wire_of_decode_chat(data);
        match decode_chat(data) {
            Some((entry, used)) => {
                lemma_wire_of_decode_entries(data.skip(used), (count - 1) as nat);
                match decode_entries(data.skip(used), (count - 1) as nat) {
                    Some(others) => {
                        let entries = seq![entry] + others;
                        lemma_wire_concat_front(entry, others);
                        let n = wire_concat(others).len() as int;
                        assert(data.skip(used).subrange(0, n) =~= data.subrange(used, used + n));
                        assert(data.subrange(0, used) + data.subrange(used, used + n)
                            =~= data.subrange(0, used + n));
                    },
                    None => {},
                }
            },
            None => {},
        }
    }
}

/// An archive that fits the wire form, written out and read back, is the same
/// archive, whatever follows it on the wire.
pub proof fn lemma_decode_archive_of_wire(entries: Seq<ChatView>, rest: Seq<u8>)
    requires
        entries_wf(entries),
    ensures
        decode_archive(archive_wire(entries) + rest) == Some(entries),
{
    let count = entries.len() as u32;
    let data = archive_wire(entries) + rest;
    lemma_be32_roundtrip(count);
    assert(data.subrange(1, 5) =~= be32(count));
    assert(data.skip(5) =~= wire_concat(entries) + rest);
    lemma_decode_entries_of_wire(entries, rest);
}

/// An archive that was read from bytes fits the wire form, and writing it out
/// gives back the bytes that it was read from.
pub proof fn lemma_wire_of_decode_archive(data: Seq<u8>)
    requires
        decode_archive(data) is Some,
    ensures
        decode_archive(data) matches Some(entries) && entries_wf(entries) && archive_wire(
            entries,
        ).len() <= data.len() && archive_wire(entries) == data.subrange(
            0,
            archive_wire(entries).len() as int,
        ),
{
    let count = from_be32(data.subrange(1, 5));
    lemma_wire_of_decode_entries(data.skip(5), count as nat);
    lemma_from_be32_roundtrip(data.subrange(1, 5));
    match decode_archive(data) {
        Some(entries) => {
            let n = wire_concat(entries).len() as int;
            assert(data.subrange(1, 5).subrange(0, 4) =~= data.subrange(1, 5));
            assert(data.skip(5).subrange(0, n) =~= data.subrange(5, 5 + n));
            assert(archive_wire(entries) =~= data.subrange(0, 5 + n));
        },
        None => {},
    }
}

/// The preimage of an entry does not depend on the entry's own digest.
pub proof fn lemma_preimage_ignores_digest(entries: Seq<ChatView>, entry: ChatView, digest: Seq<u8>)
    ensures
        preimage(entries.push(entry), entries.len() as int) == preimage(
            entries.push(ChatView { digest, ..entry }),
            entries.len() as int,
        ),
{
    let n = entries.len() as int;
    let a = entries.push(entry);
    let b = entries.push(ChatView { digest, ..entry });
    assert(a.subrange(window_start(n), n) =~= b.subrange(window_start(n), n));
}

/// Appending an entry changes the preimage of no entry before it.
pub proof fn lemma_preimage_of_push(entries: Seq<ChatView>, entry: ChatView, i: int)
    requires
        0 <= i < entries.len(),
    ensures
        preimage(entries.push(entry), i) == preimage(entries, i),
{
    assert(entries.push(entry).subrange(window_start(i), i) =~= entries.subrange(
        window_start(i),
        i,
    ));
}

/// A valid archive stays valid when an entry is appended that meets the chain
/// rule at its place.
pub proof fn lemma_push_keeps_valid(entries: Seq<ChatView>, entry: ChatView)
    requires
        entry_valid(entries.push(entry), entries.len() as int),
    ensures
        chain_valid(entries) ==> chain_valid(entries.push(entry)),
{
    if chain_valid(entries) {
        let longer = entries.push(entry);
        assert forall|i: int| 0 <= i < longer.len() implies #[trigger] entry_valid(longer, i) by {
            if i < entries.len() {
                lemma_preimage_of_push(entries, entry, i);
                assert(entry_valid(entries, i));
            }
        }
    }
}

/// A valid message is ASCII, so it has as many bytes as characters: between 1
/// and 255.
pub proof fn lemma_valid_message_fits(text: Seq<char>)
    requires
        valid_message(text),
    ensures
        1 <= encode_utf8(text).len() <= 255,
        encode_utf8(text).len() == text.len(),
        valid_utf8(encode_utf8(text)),
{
    assert forall|i: int| 0 <= i < text.len() implies '\0' <= #[trigger] text[i] <= '\u{7f}' by {
        assert(' ' <= text[i] <= '~');
    }
    assert(is_ascii_chars(text));
    is_ascii_chars_encode_utf8(text);
    encode_utf8_valid_utf8(text);
}

/// Bytes from which an archive can be read and which end where its last
/// entry ends are the bytes that the archive is written as.
pub proof fn lemma_decode_then_encode(data: Seq<u8>)
    requires
        decode_archive(data) is Some,
        data.len() == archive_wire(decode_archive(data)->0).len(),
    ensures
        archive_wire(decode_archive(data)->0) == data,
{
    lemma_wire_of_decode_archive(data);
    assert(data.subrange(0, data.len() as int) =~= data);
}

/// The window of an entry starts at most 19 entries before it, and exactly
/// 19 before it as soon as there are that many.
pub proof fn lemma_window(i: int)
    requires
        0 <= i,
    ensures
        0 <= window_start(i) <= i,
        i - window_start(i) <= WINDOW_PREDECESSORS,
        i >= WINDOW_PREDECESSORS ==> window_start(i) == i - WINDOW_PREDECESSORS,
        i <= WINDOW_PREDECESSORS ==> window_start(i) == 0,
{
}

} // verus!
