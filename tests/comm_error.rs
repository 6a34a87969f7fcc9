use talk_proto::{CommError, Serialize, SerializeError};

#[test]
fn bad_login_data() {
    let mut buffer = [0xFF];
    let e1 = CommError::BadLoginData;
    e1.serialize(&mut buffer).unwrap();
    let e2 = CommError::deserialize(&buffer).unwrap();
    assert_eq!(e1, e2);
}

#[test]
fn invalid_user_id() {
    let mut buffer = [0xFF];
    let e1 = CommError::InvalidUserId;
    e1.serialize(&mut buffer).unwrap();
    let e2 = CommError::deserialize(&buffer).unwrap();
    assert_eq!(e1, e2);
}

#[test]
fn invalid_password() {
    let mut buffer = [0xFF];
    let e1 = CommError::InvalidPassword;
    e1.serialize(&mut buffer).unwrap();
    let e2 = CommError::deserialize(&buffer).unwrap();
    assert_eq!(e1, e2);
}

#[test]
fn invalid_operation() {
    let mut buffer = [0xFF];
    let e1 = CommError::InvalidOperation;
    e1.serialize(&mut buffer).unwrap();
    let e2 = CommError::deserialize(&buffer).unwrap();
    assert_eq!(e1, e2);
}

#[test]
fn unknown_signature() {
    let buffer = [0xFF];
    match CommError::deserialize(&buffer) {
        Ok(_) => panic!(),
        Err(e) => assert_eq!(e, SerializeError::UnknownSignature(0xFF)),
    }
}

#[test]
fn ordinals_are_fixed() {
    let all = [
        CommError::BadLoginData,
        CommError::InvalidUserId,
        CommError::InvalidPassword,
        CommError::InvalidOperation,
        CommError::Unknown,
    ];
    for (i, e) in all.iter().enumerate() {
        let mut buffer = [0xFF, 0xFF];
        assert_eq!(e.serialize(&mut buffer), Ok(1));
        assert_eq!(buffer, [i as u8, 0xFF]);
    }
    assert_eq!(CommError::deserialize(&[5]), Err(SerializeError::UnknownSignature(5)));
    assert_eq!(CommError::deserialize(&[]), Err(SerializeError::NotEnoughData));
    let mut empty: [u8; 0] = [];
    assert_eq!(CommError::Unknown.serialize(&mut empty), Err(SerializeError::NotEnoughData));
}
