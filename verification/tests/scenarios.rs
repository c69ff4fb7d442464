use dirsync::actions::FsAction;
use dirsync::events::{EventKind, ModifyKind, Probe, WatchEvent};
use dirsync::file_watcher::FileWatcher;
use dirsync::listing::ListedFile;
use dirsync::message_handler::{
    read_msg_body, read_msg_length, write_msg, FileEntry, MessageError, MessageType, StreamRead,
};
use dirsync::server::PeerRegistry;
use dirsync::session::{feed_step, is_authoritative, reader_step, FeedStep, ReaderStep, Role};

fn listed(path: &str, contents: &[u8]) -> ListedFile {
    ListedFile { path: path.to_string(), contents: Some(contents.to_vec()) }
}

fn event(kind: EventKind, path: &str) -> WatchEvent {
    WatchEvent { kind, paths: vec![path.to_string()] }
}

/// Carries one frame over a stream that delivers it whole.
fn deliver(frame: &[u8]) -> Result<MessageType, MessageError> {
    let len = read_msg_length(&StreamRead::Bytes(frame[..4].to_vec()))?;
    read_msg_body(len, &StreamRead::Bytes(frame[4..].to_vec()))
}

fn initial_sync(server: &FileWatcher, contents: &Vec<Vec<u8>>) -> Vec<u8> {
    let files = server.get_relative_files(contents);
    write_msg(&MessageType::Sync { files }).expect("the dump fits a frame")
}

#[test]
fn client_of_an_empty_server_receives_an_empty_dump() {
    let server = FileWatcher::new("/srv/data", &vec![]);
    let mut client = FileWatcher::new("/mirror", &vec![]);
    let frame = initial_sync(&server, &vec![]);
    let msg = deliver(&frame).expect("frame arrives");
    assert_eq!(msg, MessageType::Sync { files: vec![] });
    let actions = client.handle_message(&msg, is_authoritative(Role::Client), 0);
    assert!(actions.is_empty());
}

#[test]
fn client_materialises_the_files_of_the_server() {
    let server = FileWatcher::new("/srv/data", &vec![listed("/srv/data/a.txt", b"hello")]);
    let mut client = FileWatcher::new("/mirror", &vec![]);
    let frame = initial_sync(&server, &vec![b"hello".to_vec()]);
    let msg = deliver(&frame).expect("frame arrives");
    assert_eq!(
        msg,
        MessageType::Sync {
            files: vec![FileEntry { path: "a.txt".to_string(), contents: b"hello".to_vec() }]
        }
    );
    let actions = client.handle_message(&msg, is_authoritative(Role::Client), 0);
    assert_eq!(
        actions,
        vec![
            FsAction::EnsureParent { path: "/mirror/a.txt".to_string() },
            FsAction::Write { path: "/mirror/a.txt".to_string(), contents: b"hello".to_vec() },
        ]
    );
}

#[test]
fn local_write_on_the_server_reaches_the_client_once() {
    let mut server = FileWatcher::new("/srv/data", &vec![]);
    let mut client = FileWatcher::new("/mirror", &vec![]);

    let created = event(EventKind::Create, "/srv/data/b.txt");
    let walk = vec![listed("/srv/data/b.txt", b"x")];
    assert!(server.try_get_event(&created, &Probe::Listing(walk), 1_000));
    let frame = match feed_step(server.make_msg_data(&created, b"x".to_vec())) {
        FeedStep::Send(frame) => frame,
        FeedStep::Skip => panic!("the change is to be sent"),
    };

    let modified = event(EventKind::Modify(ModifyKind::Data), "/srv/data/b.txt");
    assert!(!server.try_get_event(&modified, &Probe::Contents(b"x".to_vec()), 1_010));
    assert!(!server.try_get_event(&modified, &Probe::Contents(b"x".to_vec()), 1_499));

    let msg = deliver(&frame).expect("frame arrives");
    let actions = client.handle_message(&msg, is_authoritative(Role::Client), 2_000);
    assert_eq!(
        actions,
        vec![
            FsAction::EnsureParent { path: "/mirror/b.txt".to_string() },
            FsAction::Write { path: "/mirror/b.txt".to_string(), contents: b"x".to_vec() },
        ]
    );

    let echo = event(EventKind::Create, "/mirror/b.txt");
    let walk = vec![listed("/mirror/b.txt", b"x")];
    assert!(!client.try_get_event(&echo, &Probe::Listing(walk), 2_100));
}

#[test]
fn change_of_one_client_reaches_the_other_and_does_not_come_back() {
    let mut server = FileWatcher::new("/srv/data", &vec![]);
    let mut client_a = FileWatcher::new("/a", &vec![]);
    let mut client_b = FileWatcher::new("/b", &vec![]);
    let mut registry: PeerRegistry<u8> = PeerRegistry::new();
    registry.register("a".to_string(), 0);
    registry.register("b".to_string(), 1);

    let created = event(EventKind::Create, "/a/new.txt");
    assert!(client_a.try_get_event(&created, &Probe::Listing(vec![listed("/a/new.txt", b"n")]), 10));
    let frame = client_a.make_msg_data(&created, b"n".to_vec()).expect("a message");

    let msg = match reader_step(deliver(&frame)) {
        ReaderStep::Apply(msg) => msg,
        other => panic!("unexpected step {:?}", other),
    };
    let actions = server.handle_message(&msg, is_authoritative(Role::Server), 20);
    assert_eq!(
        actions,
        vec![
            FsAction::EnsureParent { path: "/srv/data/new.txt".to_string() },
            FsAction::Write { path: "/srv/data/new.txt".to_string(), contents: b"n".to_vec() },
        ]
    );
    let targets = registry.relay_targets("a", &msg);
    assert_eq!(targets, vec![1]);
    assert_eq!(registry.peers()[targets[0]].id, "b");

    let echo = event(EventKind::Create, "/srv/data/new.txt");
    let walk = vec![listed("/srv/data/new.txt", b"n")];
    assert!(!server.try_get_event(&echo, &Probe::Listing(walk), 30));

    let relayed = write_msg(&msg).expect("the message fits a frame");
    let at_b = deliver(&relayed).expect("frame arrives");
    let actions = client_b.handle_message(&at_b, is_authoritative(Role::Client), 40);
    assert_eq!(
        actions,
        vec![
            FsAction::EnsureParent { path: "/b/new.txt".to_string() },
            FsAction::Write { path: "/b/new.txt".to_string(), contents: b"n".to_vec() },
        ]
    );
    let echo = event(EventKind::Create, "/b/new.txt");
    assert!(!client_b.try_get_event(&echo, &Probe::Listing(vec![listed("/b/new.txt", b"n")]), 50));
}

#[test]
fn full_dump_from_a_client_is_ignored_and_the_connection_stays() {
    let mut server = FileWatcher::new("/srv/data", &vec![listed("/srv/data/a.txt", b"hello")]);
    let mut registry: PeerRegistry<u8> = PeerRegistry::new();
    registry.register("a".to_string(), 0);
    registry.register("b".to_string(), 1);

    let violation = write_msg(&MessageType::Sync {
        files: vec![FileEntry { path: "a.txt".to_string(), contents: b"evil".to_vec() }],
    })
    .unwrap();
    let msg = match reader_step(deliver(&violation)) {
        ReaderStep::Apply(msg) => msg,
        other => panic!("the connection must stay open, got {:?}", other),
    };
    assert!(server.handle_message(&msg, is_authoritative(Role::Server), 5).is_empty());
    assert!(registry.relay_targets("a", &msg).is_empty());
    assert!(registry.contains("a"));

    let legitimate =
        write_msg(&MessageType::ModifyEvent { path: "a.txt".to_string(), contents: b"v2".to_vec() })
            .unwrap();
    let msg = match reader_step(deliver(&legitimate)) {
        ReaderStep::Apply(msg) => msg,
        other => panic!("unexpected step {:?}", other),
    };
    assert_eq!(
        server.handle_message(&msg, is_authoritative(Role::Server), 6),
        vec![
            FsAction::EnsureParent { path: "/srv/data/a.txt".to_string() },
            FsAction::Write { path: "/srv/data/a.txt".to_string(), contents: b"v2".to_vec() },
        ]
    );
    let targets = registry.relay_targets("a", &msg);
    assert_eq!(targets.len(), 1);
    assert_eq!(registry.peers()[targets[0]].id, "b");
}

#[test]
fn malformed_frame_does_not_end_the_reading_loop() {
    let broken = vec![0, 0, 0, 3, 9, 9, 9];
    assert!(matches!(reader_step(deliver(&broken)), ReaderStep::Skip));
    let closed = read_msg_length(&StreamRead::Bytes(vec![])).map(|_| MessageType::Sync { files: vec![] });
    assert!(matches!(reader_step(closed), ReaderStep::Stop));
}
