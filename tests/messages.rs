use bobbin_cli::message::{decode, render_message, Message, MessageError};

#[test]
fn boot_record_decodes_to_one_boot_message() {
    let frame = [1u8, 4, b'v', b'1', b'.', b'0'];
    let msgs = decode(&frame);
    assert_eq!(msgs, vec![Ok(Message::Boot(b"v1.0".to_vec()))]);
}

#[test]
fn empty_frame_has_no_messages() {
    assert!(decode(&[]).is_empty());
}

#[test]
fn records_are_decoded_in_order() {
    let frame = [2u8, 2, b'h', b'i', 3, 1, b'!', 9, 0, 7, 1, b'x'];
    assert_eq!(
        decode(&frame),
        vec![
            Ok(Message::Stdout(b"hi".to_vec())),
            Ok(Message::Stderr(b"!".to_vec())),
            Ok(Message::Other(9, vec![])),
            Ok(Message::Other(7, b"x".to_vec())),
        ]
    );
}

#[test]
fn truncated_record_ends_the_frame() {
    assert_eq!(
        decode(&[2u8, 1, b'a', 2, 5, b'b']),
        vec![Ok(Message::Stdout(b"a".to_vec())), Err(MessageError::Truncated)]
    );
    assert_eq!(decode(&[2u8]), vec![Err(MessageError::Truncated)]);
}

#[test]
fn rendering_of_each_kind() {
    assert_eq!(render_message(&Message::Boot(b"v1.0".to_vec())), Some(b"boot: v1.0\r\n".to_vec()));
    assert_eq!(render_message(&Message::Stdout(b"out".to_vec())), Some(b"out".to_vec()));
    assert_eq!(render_message(&Message::Stderr(vec![0xFF, 0])), Some(vec![0xFFu8, 0]));
    assert_eq!(render_message(&Message::Other(9, b"x".to_vec())), None);
}
