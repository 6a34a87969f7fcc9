use std::collections::HashSet;
use talk_proto::{CommParseError, Serialize, SerializeError, User, NET_BUFF_SIZE};

#[test]
fn change_password() {
    let original_password = "abcd".to_string();
    let new_password = "new_password".to_string();
    let mut user = User::new(0, original_password.clone());

    // We shouldn't be able to change password if we don't provide old one correct
    assert!(!user.change_password(new_password.clone(), &"bad_password".to_string()));
    assert_eq!(user.password(), &original_password);

    // When we provide proper old password then we can change it to new one
    assert!(user.change_password(new_password, &original_password));
    assert_ne!(user.password(), &original_password);
}

#[test]
fn send_and_recive() {
    let mut s = User::new(1, "abcd".to_string());
    s.add_friend(2);
    s.add_friend(3);
    s.add_invitation(10);
    s.add_invitation(11);

    let mut buffer = [0u8; NET_BUFF_SIZE];
    User::try_into(&s, &mut buffer).unwrap();
    let r = User::try_from(&buffer).unwrap();

    assert_eq!(s, r);
}

fn set(ids: &[u64]) -> HashSet<u64> {
    ids.iter().copied().collect()
}

fn sample_account() -> User {
    let mut s = User::new(1, "abcd".to_string());
    for id in [2, 3, 10, 11] {
        assert!(s.add_invitation(id));
    }
    assert!(s.add_friend(2));
    assert!(s.add_friend(3));
    s
}

#[test]
fn account_layout() {
    let s = sample_account();
    assert_eq!(s.friends(), &set(&[2, 3]));
    assert_eq!(s.invitations(), &set(&[10, 11]));
    let mut buffer = [0xCCu8; NET_BUFF_SIZE];
    assert_eq!(User::try_into(&s, &mut buffer), Ok(40 + 8 * 4));
    assert_eq!(&buffer[0..8], &1u64.to_le_bytes());
    assert_eq!(&buffer[8..12], b"abcd");
    assert!(buffer[12..38].iter().all(|&b| b == 0));
    assert_eq!(buffer[38], 2);
    assert_eq!(buffer[39], 2);
    let id_at = |i: usize| u64::from_le_bytes(buffer[i..i + 8].try_into().unwrap());
    assert_eq!(set(&[id_at(40), id_at(48)]), set(&[2, 3]));
    assert_eq!(set(&[id_at(56), id_at(64)]), set(&[10, 11]));
    assert!(buffer[72..].iter().all(|&b| b == 0xCC));
    let r = User::try_from(&buffer).unwrap();
    assert_eq!(r.friends(), &set(&[2, 3]));
    assert_eq!(r.invitations(), &set(&[10, 11]));
    assert_eq!(r, s);
}

#[test]
fn add_friend_needs_invitation() {
    let mut s = User::new(5, "abcd".to_string());
    assert!(!s.add_friend(7));
    assert!(!s.has_friend(&7));
    assert!(s.friends().is_empty());
    assert!(s.invitations().is_empty());
    assert!(s.add_invitation(7));
    assert!(s.has_invitation(&7));
    assert!(s.add_friend(7));
    assert!(s.has_friend(&7));
    assert!(!s.has_invitation(&7));
    assert!(!s.add_friend(7));
}

#[test]
fn friends_and_invitations_stay_disjoint() {
    let mut s = User::new(5, "abcd".to_string());
    assert!(s.add_invitation(1));
    assert!(!s.add_invitation(1));
    assert!(s.add_friend(1));
    assert!(!s.add_invitation(1));
    assert!(s.add_invitation(2));
    assert!(s.remove_friend(1));
    assert!(!s.remove_friend(1));
    assert!(s.add_invitation(1));
    assert!(s.remove_invitation(2));
    assert!(!s.remove_invitation(2));
    assert!(s.friends().is_disjoint(s.invitations()));
    assert_eq!(s.invitations(), &set(&[1]));
    assert!(s.friends().is_empty());
}

#[test]
fn failed_password_change_keeps_everything() {
    let mut s = sample_account();
    assert!(!s.change_password("zzzz".to_string(), "abc"));
    assert_eq!(s.password(), "abcd");
    assert_eq!(s.id(), 1);
    assert_eq!(s, sample_account());
}

#[test]
fn conflicting_contacts_are_refused() {
    let mut buffer = [0u8; 56];
    buffer[38] = 1;
    buffer[39] = 1;
    buffer[40..48].copy_from_slice(&9u64.to_le_bytes());
    buffer[48..56].copy_from_slice(&9u64.to_le_bytes());
    assert_eq!(User::deserialize(&buffer), Err(SerializeError::ConflictingContacts));
    assert_eq!(User::try_from(&buffer), Err(CommParseError::ConflictingContacts));
}

#[test]
fn account_errors() {
    assert_eq!(User::try_from(&[0u8; 39]), Err(CommParseError::NotEnoughData));
    let s = sample_account();
    let mut small = [0u8; 71];
    assert_eq!(User::try_into(&s, &mut small), Err(CommParseError::NotEnoughData));
    assert!(small.iter().all(|&b| b == 0));
    let long = User::new(1, "p".repeat(31));
    assert_eq!(User::try_into(&long, &mut [0u8; NET_BUFF_SIZE]), Err(CommParseError::EncodeOverflow));
    let mut many = User::new(1, "abcd".to_string());
    for id in 0..256u64 {
        many.add_invitation(id);
    }
    let mut big = vec![0u8; 40 + 8 * 256];
    assert_eq!(many.serialize(&mut big), Err(SerializeError::EncodeOverflow));
    many.remove_invitation(0);
    assert_eq!(many.serialize(&mut big), Ok(40 + 8 * 255));
    assert_eq!(User::deserialize(&big).unwrap(), many);
}
