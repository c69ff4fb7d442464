use dirsync::message_handler::{
    compose_data_message, read_msg_body, read_msg_length, write_msg, write_msg_done, MessageError,
    MessageType, StreamRead,
};

#[test]
fn parse_error_keeps_the_connection() {
    let e = MessageError::parse_error("Failed to parse message");
    assert!(!e.is_disconnected());
    assert_eq!(e.message(), "Failed to parse message");
}

#[test]
fn disconnect_error_ends_the_connection() {
    let e = MessageError::disconnect_error("Disconnected");
    assert!(e.is_disconnected());
    assert_eq!(e.message(), "Disconnected");
}

#[test]
fn error_prints_its_fields() {
    let e = MessageError::disconnect_error("gone");
    let shown = format!("{:?}", e);
    assert!(shown.contains("MessageError"));
    assert!(shown.contains("gone"));
    assert!(shown.contains("true"));
}

#[test]
fn header_of_four_bytes_gives_the_length() {
    assert_eq!(read_msg_length(&StreamRead::Bytes(vec![0, 0, 0, 16])).unwrap(), 16);
    assert_eq!(read_msg_length(&StreamRead::Bytes(vec![0, 0, 1, 2])).unwrap(), 0x0102);
    assert_eq!(read_msg_length(&StreamRead::Bytes(vec![1, 2, 3, 4])).unwrap(), 0x01020304);
    assert_eq!(read_msg_length(&StreamRead::Bytes(vec![0, 0, 0, 0])).unwrap(), 0);
    assert_eq!(
        read_msg_length(&StreamRead::Bytes(vec![0xff, 0xff, 0xff, 0xff])).unwrap(),
        0xffff_ffff
    );
}

#[test]
fn no_byte_is_a_disconnect() {
    let e = read_msg_length(&StreamRead::Bytes(vec![])).unwrap_err();
    assert!(e.is_disconnected());
    assert_eq!(e.message(), "Disconnected");
}

#[test]
fn failed_header_read_keeps_the_connection() {
    let e = read_msg_length(&StreamRead::Failed).unwrap_err();
    assert!(!e.is_disconnected());
    assert_eq!(e.message(), "Failed to read length");
}

#[test]
fn header_of_another_length_is_a_failed_read() {
    for header in [vec![0], vec![0, 0], vec![0, 0, 0], vec![0, 0, 0, 1, 0]] {
        let e = read_msg_length(&StreamRead::Bytes(header)).unwrap_err();
        assert!(!e.is_disconnected());
        assert_eq!(e.message(), "Failed to read length");
    }
}

#[test]
fn body_decodes_to_the_message() {
    let msg = MessageType::ModifyEvent { path: "a".to_string(), contents: vec![1, 2, 3] };
    let frame = compose_data_message(&msg);
    let len = read_msg_length(&StreamRead::Bytes(frame[..4].to_vec())).unwrap();
    assert_eq!(len, frame.len() - 4);
    let got = read_msg_body(len, &StreamRead::Bytes(frame[4..].to_vec())).unwrap();
    assert_eq!(got, msg);
}

#[test]
fn failed_body_read_keeps_the_connection() {
    let e = read_msg_body(3, &StreamRead::Failed).unwrap_err();
    assert!(!e.is_disconnected());
    assert_eq!(e.message(), "Failed to read length");
}

#[test]
fn short_body_is_a_failed_read() {
    let msg = MessageType::DeleteEvent { path: "a".to_string() };
    let frame = compose_data_message(&msg);
    let len = frame.len() - 4;
    let e = read_msg_body(len, &StreamRead::Bytes(frame[4..frame.len() - 1].to_vec())).unwrap_err();
    assert!(!e.is_disconnected());
    assert_eq!(e.message(), "Failed to read length");
}

#[test]
fn malformed_body_is_a_parse_error() {
    let e = read_msg_body(3, &StreamRead::Bytes(vec![9, 9, 9])).unwrap_err();
    assert!(!e.is_disconnected());
    assert_eq!(e.message(), "Failed to parse message");
    let e = read_msg_body(0, &StreamRead::Bytes(vec![])).unwrap_err();
    assert!(!e.is_disconnected());
    assert_eq!(e.message(), "Failed to parse message");
}

#[test]
fn write_msg_gives_the_frame() {
    let msg = MessageType::Sync { files: vec![] };
    assert_eq!(write_msg(&msg).unwrap(), vec![0, 0, 0, 5, 0, 0, 0, 0, 0]);
    assert_eq!(write_msg(&msg).unwrap(), compose_data_message(&msg));
}

#[test]
fn write_outcome() {
    assert!(write_msg_done(true).is_ok());
    let e = write_msg_done(false).unwrap_err();
    assert!(e.is_disconnected());
    assert_eq!(e.message(), "Failed to write message");
}
