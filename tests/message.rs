use std::time::{SystemTime, UNIX_EPOCH};
use talk_proto::{Message, Serialize, SerializeError};

fn now_nanos() -> u64 {
    SystemTime::now().duration_since(UNIX_EPOCH).unwrap().as_nanos() as u64
}

#[test]
fn content() {
    let content = "Test message".to_string();
    let from = 1;
    let to = 0;
    let message = Message::new(content.clone(), from, to);

    assert_eq!(message.content(), &content);
    assert_eq!(message.from(), &from);
    assert_eq!(message.to(), &to);
    assert_ne!(message.time(), &now_nanos());
}

#[test]
fn message_time_is_now() {
    let before = now_nanos();
    let message = Message::new(String::new(), 1, 2);
    let after = now_nanos();
    assert!(before <= *message.time() && *message.time() <= after);
}

#[test]
fn message_layout_and_round_trip() {
    let message = Message::new("hi".to_string(), 0x11, 0x22);
    let mut buffer = [0xABu8; 40];
    assert_eq!(message.serialize(&mut buffer), Ok(27));
    assert_eq!(&buffer[0..8], &0x11u64.to_le_bytes());
    assert_eq!(&buffer[8..16], &0x22u64.to_le_bytes());
    assert_eq!(&buffer[16..24], &message.time().to_le_bytes());
    assert_eq!(&buffer[24..28], &[b'h', b'i', 0, 0xAB]);
    assert_eq!(Message::deserialize(&buffer).unwrap(), message);
}

#[test]
fn message_content_may_end_with_the_buffer() {
    let mut buffer = vec![0u8; 24];
    buffer.extend_from_slice(b"tail");
    let message = Message::deserialize(&buffer).unwrap();
    assert_eq!(message.content(), "tail");
    assert_eq!(Message::deserialize(&buffer[..23]), Err(SerializeError::NotEnoughData));
}

#[test]
fn message_with_zero_byte_is_encode_overflow() {
    let message = Message::new("a\0b".to_string(), 1, 2);
    let mut buffer = [0u8; 64];
    assert_eq!(message.serialize(&mut buffer), Err(SerializeError::EncodeOverflow));
}
