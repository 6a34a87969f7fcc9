use talk_proto::{
    Comm, CommError, Message, Serialize, SerializeError, User, MAX_PASS_BYTE_LEN, NET_BUFF_SIZE,
};

fn round_trip(c: &Comm) -> Comm {
    let mut buffer = [0xAAu8; NET_BUFF_SIZE];
    let n = c.serialize(&mut buffer).unwrap();
    assert!(buffer[n..].iter().all(|&b| b == 0xAA));
    Comm::deserialize(&buffer).unwrap()
}

#[test]
fn comm_connect() {
    let buffer = [0u8, 1, 0, 0, 0, 0, 0, 0, 0];
    assert_eq!(Comm::deserialize(&buffer).unwrap(), Comm::Connected(1));
    assert_ne!(Comm::deserialize(&buffer).unwrap(), Comm::Connected(2));
}

#[test]
fn comm_disconnected() {
    let buffer = [1u8, 1, 0, 0, 0, 0, 0, 0, 0];
    assert_eq!(Comm::deserialize(&buffer).unwrap(), Comm::Disconnected(1));
    assert_ne!(Comm::deserialize(&buffer).unwrap(), Comm::Disconnected(2));
}

#[test]
fn login_encodes_to_fixed_layout() {
    let c = Comm::Login { id: 42, password: "abcd".to_string() };
    let mut buffer = [0xFFu8; NET_BUFF_SIZE];
    let n = c.serialize(&mut buffer).unwrap();
    assert_eq!(n, 1 + 8 + MAX_PASS_BYTE_LEN);
    let mut expected = vec![2u8, 42, 0, 0, 0, 0, 0, 0, 0, b'a', b'b', b'c', b'd'];
    expected.resize(39, 0);
    assert_eq!(&buffer[..39], &expected[..]);
    assert_eq!(buffer[39], 0xFF);
    assert_eq!(Comm::deserialize(&buffer[..39]).unwrap(), c);
}

#[test]
fn every_variant_round_trips() {
    let mut user = User::new(9, "pässwörd".to_string());
    user.add_invitation(4);
    user.add_invitation(5);
    user.add_friend(4);
    user.add_invitation(6);
    let values = vec![
        Comm::Connected(u64::MAX),
        Comm::Disconnected(0x0102_0304_0506_0708),
        Comm::Login { id: 1, password: "x".repeat(MAX_PASS_BYTE_LEN) },
        Comm::Accepted,
        Comm::Rejected(CommError::BadLoginData),
        Comm::Rejected(CommError::InvalidUserId),
        Comm::Rejected(CommError::InvalidPassword),
        Comm::Rejected(CommError::InvalidOperation),
        Comm::Rejected(CommError::Unknown),
        Comm::User(user),
        Comm::ChangePassword { new_password: "new one".to_string(), old_password: String::new() },
        Comm::Message(Message::new("hello there".to_string(), 3, 8)),
        Comm::AddInvitation(11),
        Comm::RemoveInvitation(12),
        Comm::AddFriend(13),
        Comm::RemoveFriend(14),
    ];
    for v in &values {
        assert_eq!(&round_trip(v), v);
    }
}

#[test]
fn id_is_little_endian() {
    let c = Comm::AddFriend(0x0102_0304_0506_0708);
    let mut buffer = [0u8; 9];
    assert_eq!(c.serialize(&mut buffer), Ok(9));
    assert_eq!(buffer, [10, 8, 7, 6, 5, 4, 3, 2, 1]);
}

#[test]
fn tags_from_twelve_are_unknown() {
    for tag in 12..=255u8 {
        let mut buffer = [0u8; NET_BUFF_SIZE];
        buffer[0] = tag;
        assert_eq!(Comm::deserialize(&buffer), Err(SerializeError::UnknownSignature(tag)));
        assert_eq!(Comm::deserialize(&[tag]), Err(SerializeError::UnknownSignature(tag)));
    }
}

#[test]
fn truncated_buffers_are_not_enough_data() {
    assert_eq!(Comm::deserialize(&[]), Err(SerializeError::NotEnoughData));
    let minimum: [(u8, usize); 11] =
        [(0, 9), (1, 9), (2, 39), (4, 2), (5, 41), (6, 61), (7, 25), (8, 9), (9, 9), (10, 9), (11, 9)];
    for (tag, min) in minimum {
        let mut buffer = vec![0u8; min];
        buffer[0] = tag;
        assert!(Comm::deserialize(&buffer).is_ok(), "tag {}", tag);
        for len in 1..min {
            assert_eq!(
                Comm::deserialize(&buffer[..len]),
                Err(SerializeError::NotEnoughData),
                "tag {} length {}",
                tag,
                len
            );
        }
    }
    assert_eq!(Comm::deserialize(&[3]), Ok(Comm::Accepted));
}

#[test]
fn account_lists_longer_than_buffer_are_not_enough_data() {
    let mut buffer = [0u8; 41 + 8];
    buffer[0] = 5;
    buffer[39] = 1;
    buffer[40] = 1;
    assert_eq!(Comm::deserialize(&buffer), Err(SerializeError::NotEnoughData));
    buffer[40] = 0;
    assert!(Comm::deserialize(&buffer).is_ok());
}

#[test]
fn rejected_with_unknown_ordinal_fails() {
    assert_eq!(Comm::deserialize(&[4, 5]), Err(SerializeError::UnknownSignature(5)));
    assert_eq!(Comm::deserialize(&[4, 4]), Ok(Comm::Rejected(CommError::Unknown)));
}

#[test]
fn too_long_password_is_encode_overflow() {
    let c = Comm::Login { id: 1, password: "x".repeat(MAX_PASS_BYTE_LEN + 1) };
    let mut buffer = [7u8; NET_BUFF_SIZE];
    assert_eq!(c.serialize(&mut buffer), Err(SerializeError::EncodeOverflow));
    assert!(buffer.iter().all(|&b| b == 7));
    let c = Comm::ChangePassword { new_password: "a\0b".to_string(), old_password: "abcd".to_string() };
    assert_eq!(c.serialize(&mut buffer), Err(SerializeError::EncodeOverflow));
}

#[test]
fn small_buffer_is_not_enough_data_and_untouched() {
    let c = Comm::Login { id: 1, password: "abcd".to_string() };
    let mut buffer = [7u8; 38];
    assert_eq!(c.serialize(&mut buffer), Err(SerializeError::NotEnoughData));
    assert!(buffer.iter().all(|&b| b == 7));
    let mut empty: [u8; 0] = [];
    assert_eq!(Comm::Accepted.serialize(&mut empty), Err(SerializeError::NotEnoughData));
}

#[test]
fn invalid_utf8_password_reads_as_empty() {
    let mut buffer = [0u8; 39];
    buffer[0] = 2;
    buffer[9] = 0xC3;
    buffer[10] = 0x28;
    assert_eq!(Comm::deserialize(&buffer), Ok(Comm::Login { id: 0, password: String::new() }));
}

#[test]
fn change_password_layout() {
    let c = Comm::ChangePassword { new_password: "new".to_string(), old_password: "old".to_string() };
    let mut buffer = [0xEEu8; 61];
    assert_eq!(c.serialize(&mut buffer), Ok(61));
    assert_eq!(buffer[0], 6);
    assert_eq!(&buffer[1..5], b"new\0");
    assert_eq!(&buffer[31..35], b"old\0");
    assert!(buffer[4..31].iter().all(|&b| b == 0));
    assert!(buffer[34..61].iter().all(|&b| b == 0));
}
