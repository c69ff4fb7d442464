use dirsync::message_handler::{MessageError, MessageType};
use dirsync::session::{
    feed_step, is_authoritative, reader_step, FeedStep, ReaderStep, Role, IDLE_SLEEP_MS,
};

#[test]
fn server_is_the_authority() {
    assert!(is_authoritative(Role::Server));
    assert!(!is_authoritative(Role::Client));
}

#[test]
fn message_is_applied() {
    let msg = MessageType::DeleteEvent { path: "a".to_string() };
    match reader_step(Ok(msg.clone())) {
        ReaderStep::Apply(m) => assert_eq!(m, msg),
        other => panic!("unexpected step {:?}", other),
    }
}

#[test]
fn disconnect_stops_the_reader() {
    let step = reader_step(Err(MessageError::disconnect_error("Disconnected")));
    assert!(matches!(step, ReaderStep::Stop));
}

#[test]
fn parse_error_is_passed_over() {
    let step = reader_step(Err(MessageError::parse_error("Failed to parse message")));
    assert!(matches!(step, ReaderStep::Skip));
}

#[test]
fn frame_is_sent() {
    assert_eq!(feed_step(Some(vec![0, 0, 0, 1, 9])), FeedStep::Send(vec![0, 0, 0, 1, 9]));
}

#[test]
fn nothing_is_sent_without_a_frame() {
    assert_eq!(feed_step(None), FeedStep::Skip);
    assert_eq!(feed_step(Some(vec![])), FeedStep::Skip);
}

#[test]
fn idle_sleep() {
    assert_eq!(IDLE_SLEEP_MS, 10);
}
