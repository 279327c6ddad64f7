use aabb_quad_tree::net::{encode, find_player, ConnectionStatus, Login, Receiver, HEADER_LEN};

#[test]
fn the_header_has_four_bytes() {
    assert_eq!(HEADER_LEN, 4);
}

#[test]
fn a_frame_starts_with_its_own_length() {
    assert_eq!(encode(&[]), Ok(vec![0, 0, 0, 4]));
    assert_eq!(encode(&[7, 8, 9]), Ok(vec![0, 0, 0, 7, 7, 8, 9]));
    let long = vec![1u8; 0x1_02_03];
    let frame = encode(&long).unwrap();
    assert_eq!(&frame[..4], &[0, 1, 2, 7]);
    assert_eq!(&frame[4..], &long[..]);
}

#[test]
fn a_receiver_waits_for_the_whole_frame() {
    let mut receiver = Receiver::default();
    assert_eq!(receiver.consume(), None);
    receiver.extend(&[0, 0, 0], 3);
    assert_eq!(receiver.consume(), None);
    receiver.extend(&[6, 42], 2);
    assert_eq!(receiver.consume(), None);
    receiver.extend(&[43, 0, 0, 99], 3);
    assert_eq!(receiver.consume(), Some(vec![42, 43]));
    assert_eq!(receiver.consume(), None);
    receiver.extend(&[0, 4, 0, 0, 0, 5, 1], 7);
    assert_eq!(receiver.consume(), Some(vec![]));
    assert_eq!(receiver.consume(), Some(vec![1]));
    assert_eq!(receiver.consume(), None);
}

#[test]
fn only_the_bytes_that_were_read_are_taken_in() {
    let mut receiver = Receiver::default();
    receiver.extend(&[0, 0, 0, 5, 1, 2, 3], 5);
    assert_eq!(receiver.consume(), Some(vec![1]));
    receiver.extend(&[9, 9], 0);
    assert_eq!(receiver.consume(), None);
}

#[test]
fn the_length_is_read_most_significant_byte_first() {
    let mut receiver = Receiver::default();
    let mut bytes = vec![0u8, 0, 1, 2];
    bytes.extend(std::iter::repeat(5u8).take(0x102 - 4));
    bytes.push(77);
    receiver.extend(&bytes, bytes.len());
    assert_eq!(receiver.consume(), Some(vec![5u8; 0x102 - 4]));
    receiver.extend(&[0, 0, 0], 3);
    assert_eq!(receiver.consume(), None);
}

#[test]
fn a_frame_shorter_than_its_header_has_no_message() {
    let mut receiver = Receiver::default();
    receiver.extend(&[0, 0, 0, 2, 0, 0, 0, 5, 8], 9);
    assert_eq!(receiver.consume(), Some(vec![]));
    assert_eq!(receiver.consume(), None);
    receiver.extend(&[0, 0], 2);
    assert_eq!(receiver.consume(), None);
}

#[test]
fn what_was_encoded_is_read_back() {
    let mut receiver = Receiver::default();
    let first = encode(b"hello").unwrap();
    let second = encode(b"").unwrap();
    let third = encode(&[0, 0, 0, 4]).unwrap();
    receiver.extend(&first, first.len());
    receiver.extend(&second, second.len());
    receiver.extend(&third, third.len());
    assert_eq!(receiver.consume(), Some(b"hello".to_vec()));
    assert_eq!(receiver.consume(), Some(Vec::new()));
    assert_eq!(receiver.consume(), Some(vec![0, 0, 0, 4]));
    assert_eq!(receiver.consume(), None);
}

#[test]
fn the_link_has_three_states() {
    assert_ne!(ConnectionStatus::Connected, ConnectionStatus::Connecting);
    assert_ne!(ConnectionStatus::Connecting, ConnectionStatus::Disconnected);
    let login = Login { username: String::from("u"), password: String::from("p") };
    assert_eq!(format!("{:?}", login), "Login { username: \"u\", password: \"p\" }");
}

#[test]
fn only_a_link_that_is_up_is_connected() {
    assert!(ConnectionStatus::Connected.is_connected());
    assert!(!ConnectionStatus::Connecting.is_connected());
    assert!(!ConnectionStatus::Disconnected.is_connected());
}

#[test]
fn the_first_player_of_the_name_is_found() {
    let names = vec![
        String::from("ann"),
        String::from("bob"),
        String::from("Bob"),
        String::from("bob"),
    ];
    let login = |name: &str| Login { username: String::from(name), password: String::from("x") };
    assert_eq!(find_player(&names, &login("bob")), Some(1));
    assert_eq!(find_player(&names, &login("Bob")), Some(2));
    assert_eq!(find_player(&names, &login("ann")), Some(0));
    assert_eq!(find_player(&names, &login("x")), None);
    assert_eq!(find_player(&names, &login("")), None);
    assert_eq!(find_player(&Vec::new(), &login("ann")), None);
}
