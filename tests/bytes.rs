use talk_proto::{parse_id_from_bytes, parse_string_from_bytes, write_bytes_to_buffer};

#[test]
fn string_from_bytes() {
    let bytes = [
        'H' as u8, 'e' as u8, 'l' as u8, 'l' as u8, 'o' as u8, 0, 'W' as u8, 'o' as u8,
    ];

    let string = parse_string_from_bytes(&bytes);
    assert_eq!(string, "Hello");
}

#[test]
fn string_without_terminator_takes_all_bytes() {
    assert_eq!(parse_string_from_bytes("żółw".as_bytes()), "żółw");
    assert_eq!(parse_string_from_bytes(&[]), "");
    assert_eq!(parse_string_from_bytes(&[0, b'a']), "");
}

#[test]
fn string_with_invalid_utf8_is_empty() {
    assert_eq!(parse_string_from_bytes(&[b'a', 0xFF, b'b', 0]), "");
}

#[test]
fn id_from_bytes_is_little_endian() {
    assert_eq!(parse_id_from_bytes(&[1, 2, 3, 4, 5, 6, 7, 8, 9]), 0x0807_0605_0403_0201);
}

#[test]
fn write_bytes_keeps_the_rest() {
    let mut buffer = [9u8; 6];
    assert_eq!(write_bytes_to_buffer(&mut buffer, &[1, 2, 3]), 3);
    assert_eq!(buffer, [1, 2, 3, 9, 9, 9]);
}
