use bevy_simple_websockets::packet::describe_packet;
use bevy_simple_websockets::tasks::{send_step, SendAction, SendEvent};
use bevy_simple_websockets::{NetworkPacket, Payload};

fn packet(kind: &str, data: &[u8]) -> NetworkPacket {
    NetworkPacket { kind: String::from(kind), data: Payload::Encoded(data.to_vec()) }
}

#[test]
fn a_packet_survives_the_wire() {
    for (kind, data) in [("example:UserInput", &[1u8, 2, 3][..]), ("", &[]), ("größe", &[0, 255])] {
        let sent = packet(kind, data);
        let frame = sent.encode().unwrap();
        assert_eq!(NetworkPacket::decode(&frame), Some(sent));
    }
}

#[test]
fn a_frame_is_the_kind_followed_by_the_message() {
    let frame = packet("hé", &[9, 8]).encode().unwrap();
    assert_eq!(frame, vec![3, 0, 0, 0, 0, 0, 0, 0, b'h', 0xc3, 0xa9, 9, 8]);
}

#[test]
fn a_frame_is_what_bincode_makes_of_the_fields() {
    let data: u32 = 0x01020304;
    let whole = bincode::serialize(&("example:UserInput", data)).unwrap();
    let frame = packet("example:UserInput", &bincode::serialize(&data).unwrap()).encode().unwrap();
    assert_eq!(frame, whole);
}

#[test]
fn a_received_packet_would_be_sent_as_it_came() {
    let frame = vec![1, 0, 0, 0, 0, 0, 0, 0, b'k', 4, 5, 6];
    let received = NetworkPacket::decode(&frame).unwrap();
    assert_eq!(received, packet("k", &[4, 5, 6]));
    assert_eq!(received.encode(), Some(frame));
}

#[test]
fn a_frame_without_a_kind_holds_no_packet() {
    assert_eq!(NetworkPacket::decode(&[]), None);
    assert_eq!(NetworkPacket::decode(&[1, 0, 0, 0, 0, 0, 0]), None);
    assert_eq!(NetworkPacket::decode(&[2, 0, 0, 0, 0, 0, 0, 0, b'k']), None);
    assert_eq!(NetworkPacket::decode(&[255; 12]), None);
    assert_eq!(NetworkPacket::decode(&[1, 0, 0, 0, 0, 0, 0, 0, 0xff]), None);
    assert_eq!(NetworkPacket::decode(&[0; 8]), Some(packet("", &[])));
}

#[test]
fn a_message_without_an_encoding_has_no_frame() {
    let unencodable = NetworkPacket { kind: String::from("k"), data: Payload::Unencodable };
    assert_eq!(unencodable.encode(), None);
}

#[test]
fn the_writing_task_is_told_what_to_do() {
    let sent = packet("k", &[4, 5, 6]);
    let frame = sent.encode().unwrap();
    match send_step(SendEvent::Packet(sent)) {
        SendAction::Write(bytes) => assert_eq!(bytes, frame),
        other => panic!("{:?}", other),
    }
    let unencodable = NetworkPacket { kind: String::from("k"), data: Payload::Unencodable };
    assert!(matches!(send_step(SendEvent::Packet(unencodable)), SendAction::Next));
    assert!(matches!(send_step(SendEvent::Written), SendAction::Next));
    assert!(matches!(send_step(SendEvent::WriteFailed), SendAction::Stop));
    assert!(matches!(send_step(SendEvent::Closed), SendAction::Stop));
}

#[test]
fn a_packet_in_words_is_its_kind() {
    assert_eq!(
        packet("example:UserInput", &[1, 2, 3]).description(),
        "NetworkPacket { kind: \"example:UserInput\" }"
    );
    assert_eq!(packet("a\"b\n", &[]).description(), "NetworkPacket { kind: \"a\\\"b\\n\" }");
    assert_eq!(describe_packet("shown"), "NetworkPacket { kind: shown }");
}

/// Runs the task that writes to a client, where the write number `fails` fails, and returns the
/// frames that it tried to write.
fn written(packets: Vec<NetworkPacket>, fails: usize) -> Vec<Vec<u8>> {
    let mut waiting = packets.into_iter();
    let mut frames: Vec<Vec<u8>> = Vec::new();
    let mut action = SendAction::Next;
    loop {
        let event = match action {
            SendAction::Next => match waiting.next() {
                Some(packet) => SendEvent::Packet(packet),
                None => SendEvent::Closed,
            },
            SendAction::Write(frame) => {
                frames.push(frame);
                if frames.len() == fails {
                    SendEvent::WriteFailed
                } else {
                    SendEvent::Written
                }
            }
            SendAction::Stop => return frames,
        };
        action = send_step(event);
    }
}

fn some_packets() -> Vec<NetworkPacket> {
    vec![
        packet("a", &[1]),
        NetworkPacket { kind: String::from("b"), data: Payload::Unencodable },
        packet("c", &[3]),
        packet("a", &[1]),
    ]
}

#[test]
fn packets_are_written_once_in_order() {
    let first = packet("a", &[1]).encode().unwrap();
    let third = packet("c", &[3]).encode().unwrap();
    assert_eq!(written(some_packets(), 0), vec![first.clone(), third, first]);
    assert!(written(Vec::new(), 0).is_empty());
}

#[test]
fn nothing_is_written_after_a_failed_write() {
    let first = packet("a", &[1]).encode().unwrap();
    let third = packet("c", &[3]).encode().unwrap();
    assert_eq!(written(some_packets(), 1), vec![first.clone()]);
    assert_eq!(written(some_packets(), 2), vec![first, third]);
}
