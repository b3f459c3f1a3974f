use p2p_chat::archive::Archive;
use p2p_chat::message::Chat;
use p2p_chat::message::MessageType;
use p2p_chat::wire::append_bytes;
use p2p_chat::wire::get_be32;
use p2p_chat::wire::put_be32;

fn entry(message: &str, nonce: u8, digest: u8) -> Chat {
    Chat {
        message: message.to_string(),
        verification_code: [nonce; 16],
        md5_hash: [digest; 16],
    }
}

#[test]
fn be32_is_most_significant_first() {
    let mut out = vec![9u8];
    put_be32(&mut out, 0x0102_0304);
    assert_eq!(out, vec![9, 1, 2, 3, 4]);
    let mut out = Vec::new();
    put_be32(&mut out, u32::MAX);
    put_be32(&mut out, 0);
    put_be32(&mut out, 256);
    assert_eq!(out, vec![255, 255, 255, 255, 0, 0, 0, 0, 0, 0, 1, 0]);
}

#[test]
fn be32_reads_what_was_written() {
    let data = [7u8, 0xde, 0xad, 0xbe, 0xef, 1];
    assert_eq!(get_be32(&data, 1), 0xdead_beef);
    assert_eq!(get_be32(&data, 0), 0x07de_adbe);
    for x in [0u32, 1, 255, 256, 65_535, 65_536, 0x7fff_ffff, u32::MAX] {
        let mut out = Vec::new();
        put_be32(&mut out, x);
        assert_eq!(out, x.to_be_bytes().to_vec());
        assert_eq!(get_be32(&out, 0), x);
    }
}

#[test]
fn append_bytes_keeps_what_was_there() {
    let mut out = vec![1u8, 2];
    append_bytes(&mut out, &[3, 4, 5]);
    append_bytes(&mut out, &[]);
    assert_eq!(out, vec![1, 2, 3, 4, 5]);
}

#[test]
fn kind_bytes_are_one_to_five() {
    assert!(!MessageType::is_valid_message(0));
    for b in 1u8..=5 {
        assert!(MessageType::is_valid_message(b));
        assert_eq!(MessageType::from(b).to_byte(), b);
    }
    for b in 6u8..=255 {
        assert!(!MessageType::is_valid_message(b));
    }
    assert_eq!(MessageType::from(1), MessageType::PeerRequest);
    assert_eq!(MessageType::from(2), MessageType::PeerResponse);
    assert_eq!(MessageType::from(3), MessageType::ArchiveRequest);
    assert_eq!(MessageType::from(4), MessageType::ArchiveResponse);
    assert_eq!(MessageType::from(5), MessageType::NotificationMessage);
}

#[test]
fn chat_wire_form_is_length_message_nonce_digest() {
    let chat = entry("hi", 0xaa, 0xbb);
    let mut expected = vec![2u8, b'h', b'i'];
    expected.extend_from_slice(&[0xaa; 16]);
    expected.extend_from_slice(&[0xbb; 16]);
    assert_eq!(chat.to_bytes(), expected);
    assert_eq!(chat.to_bytes().len(), 1 + 2 + 32);

    let mut unsealed = vec![0u8];
    chat.write_unsealed(&mut unsealed);
    assert_eq!(unsealed[1..], expected[..expected.len() - 16]);
}

#[test]
fn chat_length_byte_counts_bytes_not_characters() {
    let chat = entry("é", 1, 2);
    let bytes = chat.to_bytes();
    assert_eq!(bytes[0], 2);
    assert_eq!(&bytes[1..3], "é".as_bytes());
    assert_eq!(bytes.len(), 35);
}

#[test]
fn chat_reads_back_and_reports_its_size() {
    let chat = entry("hello world", 3, 4);
    let mut bytes = chat.to_bytes();
    bytes.extend_from_slice(&[9, 9, 9]);
    let (back, used) = Chat::from_bytes(&bytes).unwrap();
    assert_eq!(back, chat);
    assert_eq!(used, 1 + 11 + 32);
    assert_eq!(back.message, "hello world");
    assert_eq!(back.verification_code, [3; 16]);
    assert_eq!(back.md5_hash, [4; 16]);
}

#[test]
fn chat_with_empty_message_reads_back() {
    let chat = entry("", 5, 6);
    let bytes = chat.to_bytes();
    assert_eq!(bytes.len(), 33);
    assert_eq!(Chat::from_bytes(&bytes), Some((chat, 33)));
}

#[test]
fn chat_of_255_bytes_reads_back() {
    let chat = entry(&"x".repeat(255), 5, 6);
    let bytes = chat.to_bytes();
    assert_eq!(bytes.len(), 288);
    assert_eq!(bytes[0], 255);
    assert_eq!(Chat::from_bytes(&bytes), Some((chat, 288)));
}

#[test]
fn chat_decode_rejects_empty_and_truncated_input() {
    assert_eq!(Chat::from_bytes(&[]), None);
    let bytes = entry("abc", 1, 2).to_bytes();
    for cut in 0..bytes.len() {
        assert_eq!(Chat::from_bytes(&bytes[..cut]), None);
    }
    assert!(Chat::from_bytes(&bytes).is_some());
}

#[test]
fn chat_decode_rejects_text_that_is_not_utf8() {
    let mut bytes = entry("abc", 1, 2).to_bytes();
    bytes[2] = 0xff;
    assert_eq!(Chat::from_bytes(&bytes), None);
    let mut bytes = entry("abc", 1, 2).to_bytes();
    bytes[3] = 0xc3;
    assert_eq!(Chat::from_bytes(&bytes), None);
}

#[test]
fn empty_archive_is_kind_byte_and_zero_count() {
    let archive = Archive::new();
    assert_eq!(archive.len(), 0);
    assert_eq!(archive.to_bytes(), vec![4, 0, 0, 0, 0]);
    assert_eq!(Archive::from_bytes(&[4, 0, 0, 0, 0]), Some(Archive::new()));
}

#[test]
fn archive_wire_form_is_kind_count_entries() {
    let a = entry("one", 1, 2);
    let b = entry("three", 3, 4);
    let archive = Archive { chats: vec![a.clone(), b.clone()] };
    let mut expected = vec![4u8, 0, 0, 0, 2];
    expected.extend_from_slice(&a.to_bytes());
    expected.extend_from_slice(&b.to_bytes());
    assert_eq!(archive.to_bytes(), expected);
    assert_eq!(archive.len(), 2);
}

#[test]
fn archive_reads_back_what_it_wrote() {
    let archive = Archive {
        chats: vec![entry("one", 1, 2), entry("", 3, 4), entry(&"z".repeat(255), 5, 6)],
    };
    let bytes = archive.to_bytes();
    let back = Archive::from_bytes(&bytes).unwrap();
    assert_eq!(back, archive);
    assert_eq!(back.to_bytes(), bytes);
}

#[test]
fn archive_decode_leaves_trailing_bytes_alone() {
    let archive = Archive { chats: vec![entry("one", 1, 2)] };
    let bytes = archive.to_bytes();
    let mut longer = bytes.clone();
    longer.extend_from_slice(&[1, 2, 3]);
    let back = Archive::from_bytes(&longer).unwrap();
    assert_eq!(back, archive);
    assert_eq!(back.to_bytes(), bytes);
}

#[test]
fn archive_decode_rejects_malformed_input() {
    assert_eq!(Archive::from_bytes(&[]), None);
    assert_eq!(Archive::from_bytes(&[4]), None);
    assert_eq!(Archive::from_bytes(&[4, 0, 0, 0]), None);
    assert_eq!(Archive::from_bytes(&[2, 0, 0, 0, 0]), None);
    assert_eq!(Archive::from_bytes(&[4, 0, 0, 0, 1]), None);

    let archive = Archive { chats: vec![entry("one", 1, 2), entry("two", 3, 4)] };
    let bytes = archive.to_bytes();
    for cut in 0..bytes.len() {
        assert_eq!(Archive::from_bytes(&bytes[..cut]), None);
    }
    let mut more = bytes.clone();
    more[4] = 3;
    assert_eq!(Archive::from_bytes(&more), None);
    let mut fewer = bytes.clone();
    fewer[4] = 1;
    assert_eq!(Archive::from_bytes(&fewer).unwrap().len(), 1);
}
