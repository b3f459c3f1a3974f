//! Message kinds of the wire protocol and the chat entry codec.
//!
//! A chat entry travels as one length byte, the message bytes, a 16-byte
//! nonce and a 16-byte digest. The model of an entry is [`ChatView`]; the
//! functions [`ChatView::wire`] and [`decode_chat`] are the two directions of
//! the codec, and the lemmas at the end of this file show that each undoes the
//! other.

use crate::text::string_from_utf8;
use crate::wire::append_bytes;
use vstd::prelude::*;
use vstd::slice::slice_subrange;
use vstd::slice::slice_to_vec;
use vstd::utf8::decode_utf8_encode_utf8;
use vstd::utf8::encode_utf8;
use vstd::utf8::valid_utf8;

verus! {

/// The five message kinds, each framed on the wire by one leading byte.
#[derive(Debug, Clone, Copy, PartialEq, Eq, Structural)]
pub enum MessageType {
    PeerRequest,
    PeerResponse,
    ArchiveRequest,
    ArchiveResponse,
    NotificationMessage,
}

impl MessageType {
    /// The byte that announces a message of this kind.
    pub open spec fn byte(self) -> u8 {
        match self {
            MessageType::PeerRequest => 1,
            MessageType::PeerResponse => 2,
            MessageType::ArchiveRequest => 3,
            MessageType::ArchiveResponse => 4,
            MessageType::NotificationMessage => 5,
        }
    }

    /// Whether `value` is the leading byte of one of the five message kinds.
    pub fn is_valid_message(value: u8) -> (ok: bool)
        ensures
            ok == (1 <= value <= 5),
            ok == exists|kind: MessageType| kind.byte() == value,
    {
        proof {
            if 1 <= value <= 5 {
                let kind = if value == 1 {
                    MessageType::PeerRequest
                } else if value == 2 {
                    MessageType::PeerResponse
                } else if value == 3 {
                    MessageType::ArchiveRequest
                } else if value == 4 {
                    MessageType::ArchiveResponse
                } else {
                    MessageType::NotificationMessage
                };
                assert(kind.byte() == value);
            }
        }
        1 <= value && value <= 5
    }

    /// The kind that `value` announces. Only the five kind bytes have one.
    pub fn from(value: u8) -> (kind: MessageType)
        requires
            1 <= value <= 5,
        ensures
            kind.byte() == value,
    {
        if value == 1 {
            MessageType::PeerRequest
        } else if value == 2 {
            MessageType::PeerResponse
        } else if value == 3 {
            MessageType::ArchiveRequest
        } else if value == 4 {
            MessageType::ArchiveResponse
        } else {
            MessageType::NotificationMessage
        }
    }

    /// The byte that announces a message of this kind.
    pub fn to_byte(self) -> (value: u8)
        ensures
            value == self.byte(),
            1 <= value <= 5,
    {
        match self {
            MessageType::PeerRequest => 1,
            MessageType::PeerResponse => 2,
            MessageType::ArchiveRequest => 3,
            MessageType::ArchiveResponse => 4,
            MessageType::NotificationMessage => 5,
        }
    }
}

/// One entry of the archive: a message, the nonce that was mined for it and
/// the digest that the nonce produced.
#[derive(Debug, Clone, PartialEq, Eq)]
pub struct Chat {
    pub message: String,
    pub verification_code: [u8; 16],
    pub md5_hash: [u8; 16],
}

/// What a chat entry is on the wire: the bytes of its message, its nonce and
/// its digest.
pub struct ChatView {
    pub message: Seq<u8>,
    pub nonce: Seq<u8>,
    pub digest: Seq<u8>,
}

impl ChatView {
    /// An entry that the wire form can carry: the message fits the length
    /// byte and is text, nonce and digest have 16 bytes each.
    pub open spec fn wf(self) -> bool {
        &&& self.message.len() <= 255
        &&& valid_utf8(self.message)
        &&& self.nonce.len() == 16
        &&& self.digest.len() == 16
    }

    /// The wire form without the digest: length byte, message, nonce. This is
    /// what the entry contributes to its own digest. A message of more than
    /// 255 bytes does not fit the wire form; its length byte holds what is
    /// left of the length after division by 256.
    pub open spec fn unsealed(self) -> Seq<u8> {
        seq![(self.message.len() % 256) as u8] + self.message + self.nonce
    }

    /// The wire form: length byte, message, nonce, digest.
    pub open spec fn wire(self) -> Seq<u8> {
        self.unsealed() + self.digest
    }
}

impl View for Chat {
    type V = ChatView;

    open spec fn view(&self) -> ChatView {
        ChatView {
            message: encode_utf8(self.message@),
            nonce: self.verification_code@,
            digest: self.md5_hash@,
        }
    }
}

/// Reads one entry from the front of `data`: the entry and the number of bytes
/// it took, or `None` where `data` is empty, ends before the entry does, or
/// holds a message that is not UTF-8.
pub open spec fn decode_chat(data: Seq<u8>) -> Option<(ChatView, int)> {
    if data.len() == 0 {
        None
    } else {
        let n = data[0] as int;
        if data.len() < 1 + n + 32 {
            None
        } else if !valid_utf8(data.subrange(1, 1 + n)) {
            None
        } else {
            Some(
                (
                    ChatView {
                        message: data.subrange(1, 1 + n),
                        nonce: data.subrange(1 + n, 17 + n),
                        digest: data.subrange(17 + n, 33 + n),
                    },
                    33 + n,
                ),
            )
        }
    }
}

/// Copies the 16 bytes at `data[at..at + 16]`.
fn take16(data: &[u8], at: usize) -> (block: [u8; 16])
    requires
        at + 16 <= data@.len(),
    ensures
        block@ == data@.subrange(at as int, at + 16),
{
    let mut block: [u8; 16] = [0u8; 16];
    let len: usize = data.len();
    let mut i: usize = 0;
    while i < 16
        invariant
            i <= 16,
            len == data@.len(),
            at + 16 <= len,
            forall|j: int| 0 <= j < i ==> block@[j] == data@[at + j],
        decreases 16 - i,
    {
        block[i] = data[at + i];
        i += 1;
    }
    assert(block@ =~= data@.subrange(at as int, at + 16));
    block
}

impl Chat {
    /// Whether this entry fits the wire form: its message has at most 255
    /// bytes.
    pub open spec fn wf(&self) -> bool {
        self@.wf()
    }

    /// Appends the wire form without the digest to `out`.
    pub fn write_unsealed(&self, out: &mut Vec<u8>)
        ensures
            final(out)@ == old(out)@ + self@.unsealed(),
    {
        let text: &[u8] = self.message.as_str().as_bytes();
        out.push((text.len() % 256) as u8);
        append_bytes(out, text);
        append_bytes(out, self.verification_code.as_slice());
        assert(out@ =~= old(out)@ + self@.unsealed());
    }

    /// The wire form of this entry.
    pub fn to_bytes(&self) -> (bytes: Vec<u8>)
        ensures
            bytes@ == self@.wire(),
    {
        let mut bytes: Vec<u8> = Vec::new();
        self.write_unsealed(&mut bytes);
        append_bytes(&mut bytes, self.md5_hash.as_slice());
        assert(bytes@ =~= self@.wire());
        bytes
    }

    /// Reads one entry from the front of `data` and says how many bytes it
    /// took. Fails where `data` is empty, ends before the entry does, or holds
    /// a message that is not UTF-8; bytes after the entry are left alone.
    pub fn from_bytes(data: &[u8]) -> (r: Option<(Chat, usize)>)
        ensures
            match r {
                Some((chat, used)) => decode_chat(data@) == Some((chat@, used as int)),
                None => decode_chat(data@) is None,
            },
            r matches Some((chat, used)) ==> chat.wf() && used <= data@.len(),
    {
        if data.len() == 0 {
            return None;
        }
        let msg_len: usize = data[0] as usize;
        if data.len() < 1 + msg_len + 32 {
            return None;
        }
        let text: Vec<u8> = slice_to_vec(slice_subrange(data, 1, 1 + msg_len));
        let message: String = match string_from_utf8(text) {
            Some(m) => m,
            None => {
                return None;
            },
        };
        proof {
            decode_utf8_encode_utf8(data@.subrange(1, 1 + msg_len));
        }
        let verification_code: [u8; 16] = take16(data, 1 + msg_len);
        let md5_hash: [u8; 16] = take16(data, 1 + msg_len + 16);
        Some((Chat { message, verification_code, md5_hash }, 1 + msg_len + 32))
    }
}

/// A well-formed entry that is written out and read back is the same entry,
/// whatever follows it on the wire.
pub proof fn lemma_decode_chat_of_wire(entry: ChatView, rest: Seq<u8>)
    requires
        entry.wf(),
    ensures
        decode_chat(entry.wire() + rest) == Some((entry, entry.wire().len() as int)),
        entry.wire().len() == 33 + entry.message.len(),
{
    let data = entry.wire() + rest;
    let n = entry.message.len() as int;
    assert(data[0] == n as u8);
    assert(data.subrange(1, 1 + n) =~= entry.message);
    assert(data.subrange(1 + n, 17 + n) =~= entry.nonce);
    assert(data.subrange(17 + n, 33 + n) =~= entry.digest);
}

/// An entry that was read from bytes is well formed, and writing it out gives
/// back the bytes that it was read from.
pub proof fn lemma_wire_of_decode_chat(data: Seq<u8>)
    requires
        decode_chat(data) is Some,
    ensures
        decode_chat(data) matches Some((entry, used)) && entry.wf() && 0 <= used <= data.len()
            && entry.wire() == data.subrange(0, used),
{
    match decode_chat(data) {
        Some((entry, used)) => {
            assert(entry.wire() =~= data.subrange(0, used));
        },
        None => {},
    }
}

} // verus!
