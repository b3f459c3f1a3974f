use p2p_chat::archive::Archive;
use p2p_chat::connection::Event;
use p2p_chat::connection::Expect;
use p2p_chat::connection::Receiver;
use p2p_chat::message::Chat;
use p2p_chat::node::gossip_round;
use p2p_chat::node::GOSSIP_PERIOD_SECS;
use p2p_chat::node::TCP_PORT;
use p2p_chat::peer::encode_peer_response;
use p2p_chat::text::ascii_to_string;

fn entry(message: &str, nonce: u8, digest: u8) -> Chat {
    Chat {
        message: message.to_string(),
        verification_code: [nonce; 16],
        md5_hash: [digest; 16],
    }
}

fn feed_all(receiver: &mut Receiver, stream: &[u8]) -> Vec<Event> {
    let (events, used) = receiver.feed_stream(stream);
    assert_eq!(used, stream.len());
    events
}

#[test]
fn receiver_starts_by_waiting_for_a_kind_byte() {
    let receiver = Receiver::new();
    assert_eq!(receiver.expect(), Expect::Kind);
    assert_eq!(receiver.wanted(), 1);
}

#[test]
fn requests_are_complete_after_one_byte() {
    let mut receiver = Receiver::new();
    assert_eq!(receiver.feed(&[1]), Event::PeerRequest);
    assert_eq!(receiver.expect(), Expect::Kind);
    assert_eq!(receiver.feed(&[3]), Event::ArchiveRequest);
    assert_eq!(receiver.expect(), Expect::Kind);
}

#[test]
fn unknown_kind_bytes_are_dropped() {
    let mut receiver = Receiver::new();
    for b in [0u8, 6, 7, 0x80, 0xff] {
        assert_eq!(receiver.feed(&[b]), Event::Ignored);
        assert_eq!(receiver.expect(), Expect::Kind);
        assert_eq!(receiver.wanted(), 1);
    }
    assert_eq!(receiver.feed(&[1]), Event::PeerRequest);
    assert!(!Event::Ignored.closes());
}

#[test]
fn peer_response_is_read_count_then_addresses() {
    let mut receiver = Receiver::new();
    assert_eq!(receiver.feed(&[2]), Event::Pending);
    assert_eq!(receiver.expect(), Expect::PeerCount);
    assert_eq!(receiver.wanted(), 4);
    assert_eq!(receiver.feed(&[0, 0, 0, 2]), Event::Pending);
    assert_eq!(receiver.expect(), Expect::PeerIp { remaining: 2 });
    assert_eq!(receiver.wanted(), 4);
    assert_eq!(receiver.feed(&[10, 0, 0, 1]), Event::Pending);
    assert_eq!(receiver.expect(), Expect::PeerIp { remaining: 1 });
    assert_eq!(
        receiver.feed(&[192, 168, 1, 2]),
        Event::PeerResponse(vec![0x0a00_0001, 0xc0a8_0102])
    );
    assert_eq!(receiver.expect(), Expect::Kind);
}

#[test]
fn empty_peer_response_ends_with_the_count() {
    let mut receiver = Receiver::new();
    assert_eq!(receiver.feed(&[2]), Event::Pending);
    assert_eq!(receiver.feed(&[0, 0, 0, 0]), Event::PeerResponse(Vec::new()));
    assert_eq!(receiver.expect(), Expect::Kind);
}

#[test]
fn two_peer_responses_do_not_mix() {
    let mut receiver = Receiver::new();
    let mut stream = encode_peer_response(&[1, 2, 3]);
    stream.extend_from_slice(&encode_peer_response(&[4]));
    assert_eq!(
        feed_all(&mut receiver, &stream),
        vec![Event::PeerResponse(vec![1, 2, 3]), Event::PeerResponse(vec![4])]
    );
}

#[test]
fn archive_response_is_gathered_into_one_frame() {
    let archive = Archive { chats: vec![entry("hello", 1, 2), entry("", 3, 4)] };
    let bytes = archive.to_bytes();
    let mut receiver = Receiver::new();

    assert_eq!(receiver.feed(&bytes[0..1]), Event::Pending);
    assert_eq!(receiver.expect(), Expect::ArchiveCount);
    assert_eq!(receiver.feed(&bytes[1..5]), Event::Pending);
    assert_eq!(receiver.expect(), Expect::EntryLength { remaining: 2 });
    assert_eq!(receiver.wanted(), 1);
    assert_eq!(receiver.feed(&bytes[5..6]), Event::Pending);
    assert_eq!(receiver.expect(), Expect::EntryBody { remaining: 2, length: 5 });
    assert_eq!(receiver.wanted(), 5 + 32);
    assert_eq!(receiver.feed(&bytes[6..43]), Event::Pending);
    assert_eq!(receiver.expect(), Expect::EntryLength { remaining: 1 });
    assert_eq!(receiver.feed(&bytes[43..44]), Event::Pending);
    assert_eq!(receiver.expect(), Expect::EntryBody { remaining: 1, length: 0 });
    assert_eq!(receiver.wanted(), 32);
    let event = receiver.feed(&bytes[44..76]);
    assert_eq!(bytes.len(), 76);
    assert_eq!(event, Event::ArchiveResponse(bytes.clone()));
    assert_eq!(receiver.expect(), Expect::Kind);
    match event {
        Event::ArchiveResponse(frame) => {
            assert_eq!(Archive::from_bytes(&frame), Some(archive));
        }
        _ => unreachable!(),
    }
}

#[test]
fn empty_archive_response_ends_with_the_count() {
    let mut receiver = Receiver::new();
    assert_eq!(
        feed_all(&mut receiver, &[4, 0, 0, 0, 0]),
        vec![Event::ArchiveResponse(vec![4, 0, 0, 0, 0])]
    );
    assert_eq!(receiver.expect(), Expect::Kind);
}

#[test]
fn entry_of_255_bytes_wants_287_more() {
    let mut receiver = Receiver::new();
    feed_all(&mut receiver, &[4, 0, 0, 0, 1, 255]);
    assert_eq!(receiver.expect(), Expect::EntryBody { remaining: 1, length: 255 });
    assert_eq!(receiver.wanted(), 287);
}

#[test]
fn notification_carries_its_text() {
    let mut receiver = Receiver::new();
    assert_eq!(receiver.feed(&[5]), Event::Pending);
    assert_eq!(receiver.expect(), Expect::NotificationLength);
    assert_eq!(receiver.feed(&[3]), Event::Pending);
    assert_eq!(receiver.expect(), Expect::NotificationBody { length: 3 });
    assert_eq!(receiver.wanted(), 3);
    let event = receiver.feed(b"hey");
    assert_eq!(event, Event::Notification("hey".to_string()));
    assert!(!event.closes());
    assert_eq!(receiver.expect(), Expect::Kind);
}

#[test]
fn empty_notification_is_complete_after_its_length() {
    let mut receiver = Receiver::new();
    assert_eq!(receiver.feed(&[5]), Event::Pending);
    assert_eq!(receiver.feed(&[0]), Event::Notification(String::new()));
    assert_eq!(receiver.expect(), Expect::Kind);
}

#[test]
fn notification_outside_ascii_ends_the_connection() {
    let mut receiver = Receiver::new();
    let events = feed_all(&mut receiver, &[5, 2, 0xc3, 0xa9]);
    assert_eq!(events, vec![Event::Malformed]);
    assert!(events[0].closes());
    let events = feed_all(&mut receiver, &[5, 3, b'a', 0x80, b'b']);
    assert_eq!(events, vec![Event::Malformed]);
    let events = feed_all(&mut receiver, &[5, 2, 0x7f, 0x00]);
    assert_eq!(events, vec![Event::Notification("\u{7f}\0".to_string())]);
}

#[test]
fn only_a_malformed_notification_closes() {
    assert!(Event::Malformed.closes());
    assert!(!Event::Pending.closes());
    assert!(!Event::Ignored.closes());
    assert!(!Event::PeerRequest.closes());
    assert!(!Event::ArchiveRequest.closes());
    assert!(!Event::PeerResponse(vec![1]).closes());
    assert!(!Event::ArchiveResponse(vec![4, 0, 0, 0, 0]).closes());
    assert!(!Event::Notification("x".to_string()).closes());
}

#[test]
fn ascii_bytes_become_text() {
    assert_eq!(ascii_to_string(Vec::new()), Some(String::new()));
    assert_eq!(ascii_to_string(b"plain text".to_vec()), Some("plain text".to_string()));
    assert_eq!(ascii_to_string(vec![0x00, 0x7f]), Some("\0\u{7f}".to_string()));
    assert_eq!(ascii_to_string(vec![0x80]), None);
    assert_eq!(ascii_to_string(vec![b'a', 0xff]), None);
    assert_eq!(ascii_to_string("é".as_bytes().to_vec()), None);
}

#[test]
fn stream_may_end_inside_a_message() {
    let archive = Archive { chats: vec![entry("hello", 1, 2)] };
    let bytes = archive.to_bytes();
    let mut receiver = Receiver::new();
    let (events, used) = receiver.feed_stream(&bytes[..20]);
    assert_eq!(events, Vec::<Event>::new());
    assert_eq!(used, 6);
    assert_eq!(receiver.expect(), Expect::EntryBody { remaining: 1, length: 5 });
    let (events, used) = receiver.feed_stream(&bytes[6..]);
    assert_eq!(used, bytes.len() - 6);
    assert_eq!(events, vec![Event::ArchiveResponse(bytes)]);
}

#[test]
fn gossip_round_of_an_empty_archive_is_two_requests() {
    let bytes = gossip_round(&Archive::new());
    assert_eq!(bytes, vec![1, 3]);
    let mut receiver = Receiver::new();
    assert_eq!(
        feed_all(&mut receiver, &bytes),
        vec![Event::PeerRequest, Event::ArchiveRequest]
    );
}

#[test]
fn gossip_round_carries_the_archive() {
    let archive = Archive { chats: vec![entry("one", 1, 2), entry("two", 3, 4)] };
    let bytes = gossip_round(&archive);
    let mut expected = vec![1u8, 3];
    expected.extend_from_slice(&archive.to_bytes());
    assert_eq!(bytes, expected);
    let mut receiver = Receiver::new();
    assert_eq!(
        feed_all(&mut receiver, &bytes),
        vec![
            Event::PeerRequest,
            Event::ArchiveRequest,
            Event::ArchiveResponse(archive.to_bytes())
        ]
    );
}

#[test]
fn nodes_listen_on_51511_and_gossip_every_five_seconds() {
    assert_eq!(TCP_PORT, 51511);
    assert_eq!(GOSSIP_PERIOD_SECS, 5);
}
