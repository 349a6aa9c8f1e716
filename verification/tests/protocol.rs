use hcs_server::data::{
    ChangeEvent, DirectoryCreate, DirectoryEvent, DirectoryMove, ErrorKind, FileCreate,
    FileDelete, FileEvent, FileModify, FileMove, Frame, Transmission,
};
use hcs_server::serve::{
    SessionState, SyncServer, handle_sync_client_to_server, handle_sync_server_to_client,
    receive_payload, session_step,
};

fn bytes(s: &str) -> Vec<u8> {
    s.as_bytes().to_vec()
}

fn file_create_event(path: &str, size: u64) -> ChangeEvent {
    ChangeEvent::File(FileEvent::Create(FileCreate::new(bytes(path), size)))
}

fn file_modify_event(path: &str, size: u64) -> ChangeEvent {
    ChangeEvent::File(FileEvent::Modify(FileModify::new(bytes(path), size)))
}

fn file_delete_event(path: &str) -> ChangeEvent {
    ChangeEvent::File(FileEvent::Delete(FileDelete::new(bytes(path))))
}

fn dir_create_event(path: &str) -> ChangeEvent {
    ChangeEvent::Directory(DirectoryEvent::Create(DirectoryCreate::new(bytes(path))))
}

/// Pushes `n` directory-create events so the server reaches version `n`.
fn advance_to_version(server: &mut SyncServer, n: u64) {
    for i in 0..n {
        let path = format!("seed{}", i);
        let frames = vec![Frame::Message(Transmission::ChangeEvent(dir_create_event(&path)))];
        let (outs, ok) = handle_sync_client_to_server(server, i, 1, &frames);
        assert!(ok);
        assert_eq!(outs.len(), 2);
    }
    assert_eq!(server.log.current_version(), n);
}

#[test]
fn greeting_opens_payload_loop() {
    let mut server = SyncServer::new();
    let extra: Vec<Frame> = Vec::new();
    let (state, frames) = session_step(
        SessionState::AwaitGreeting,
        &mut server,
        Transmission::Greeting { version: 1 },
        &extra,
    );
    assert_eq!(state, SessionState::PayloadLoop);
    assert_eq!(frames, vec![Frame::Message(Transmission::Proceed)]);
}

#[test]
fn non_greeting_terminates() {
    let mut server = SyncServer::new();
    let extra: Vec<Frame> = Vec::new();
    let (state, frames) = session_step(
        SessionState::AwaitGreeting,
        &mut server,
        Transmission::Proceed,
        &extra,
    );
    assert_eq!(state, SessionState::Terminated);
    assert!(frames.is_empty());
}

#[test]
fn end_connection_terminates() {
    let mut server = SyncServer::new();
    let extra: Vec<Frame> = Vec::new();
    let (state, frames) = session_step(
        SessionState::PayloadLoop,
        &mut server,
        Transmission::EndConnection,
        &extra,
    );
    assert_eq!(state, SessionState::Terminated);
    assert!(frames.is_empty());
}

#[test]
fn unexpected_payload_terminates() {
    let mut server = SyncServer::new();
    let extra: Vec<Frame> = Vec::new();
    let (state, _) = session_step(
        SessionState::PayloadLoop,
        &mut server,
        Transmission::ChangeEvent(file_delete_event("a")),
        &extra,
    );
    assert_eq!(state, SessionState::Terminated);
    let r = receive_payload(&mut server, Transmission::Other, &extra);
    assert_eq!(r.error, Some(ErrorKind::ProtocolViolation));
    assert!(r.frames.is_empty());
}

#[test]
fn server_version_request_answered() {
    let mut server = SyncServer::new();
    advance_to_version(&mut server, 3);
    let extra: Vec<Frame> = Vec::new();
    let (state, frames) = session_step(
        SessionState::PayloadLoop,
        &mut server,
        Transmission::ServerVersionRequest,
        &extra,
    );
    assert_eq!(state, SessionState::PayloadLoop);
    assert_eq!(
        frames,
        vec![Frame::Message(Transmission::ServerVersion { version: 3 })]
    );
}

#[test]
fn empty_delta_sends_version_and_complete() {
    let mut server = SyncServer::new();
    advance_to_version(&mut server, 7);
    let (frames, ok) = handle_sync_server_to_client(&server, 7);
    assert!(ok);
    assert_eq!(
        frames,
        vec![
            Frame::Message(Transmission::ServerVersion { version: 7 }),
            Frame::Message(Transmission::TransactionComplete),
        ]
    );
}

#[test]
fn single_file_push() {
    let mut server = SyncServer::new();
    let frames = vec![
        Frame::Message(Transmission::ChangeEvent(file_create_event("a.txt", 5))),
        Frame::FileBody(bytes("hello")),
    ];
    let (outs, ok) = handle_sync_client_to_server(&mut server, 0, 1, &frames);
    assert!(ok);
    assert_eq!(
        outs,
        vec![
            Transmission::Proceed,
            Transmission::ServerVersion { version: 1 },
        ]
    );
    let content = server.fs.file_content(&bytes("a.txt")).unwrap();
    assert_eq!(content, &bytes("hello"));
    let records = server.log.changes_in(0, 1);
    assert_eq!(records.len(), 1);
    assert_eq!(records[0].version, 1);
    assert_eq!(records[0].event, file_create_event("a.txt", 5));
}

#[test]
fn coalesced_pull() {
    let mut server = SyncServer::new();
    let frames = vec![
        Frame::Message(Transmission::ChangeEvent(file_create_event("b.txt", 3))),
        Frame::FileBody(bytes("abc")),
        Frame::Message(Transmission::ChangeEvent(file_modify_event("b.txt", 5))),
        Frame::FileBody(bytes("abcde")),
        Frame::Message(Transmission::ChangeEvent(file_delete_event("b.txt"))),
        Frame::Message(Transmission::ChangeEvent(file_create_event("c.txt", 2))),
        Frame::FileBody(bytes("hi")),
    ];
    let (outs, ok) = handle_sync_client_to_server(&mut server, 0, 4, &frames);
    assert!(ok);
    assert_eq!(outs.len(), 5);
    assert_eq!(server.log.current_version(), 4);

    let (down, down_ok) = handle_sync_server_to_client(&server, 0);
    assert!(down_ok);
    assert_eq!(
        down,
        vec![
            Frame::Message(Transmission::ChangeEvent(file_create_event("c.txt", 2))),
            Frame::FileBody(bytes("hi")),
            Frame::Message(Transmission::ServerVersion { version: 4 }),
            Frame::Message(Transmission::TransactionComplete),
        ]
    );
}

#[test]
fn stale_client_on_push() {
    let mut server = SyncServer::new();
    advance_to_version(&mut server, 9);
    // the frames after the request would be read only if the client were in
    // sync; a stale client gets one answer and nothing is consumed
    let frames = vec![
        Frame::Message(Transmission::ChangeEvent(file_delete_event("x"))),
        Frame::Message(Transmission::ChangeEvent(file_delete_event("y"))),
    ];
    let (outs, ok) = handle_sync_client_to_server(&mut server, 8, 2, &frames);
    assert!(ok);
    assert_eq!(outs, vec![Transmission::ServerVersion { version: 9 }]);
    assert_eq!(server.log.current_version(), 9);
    assert!(server.log.changes_in(0, 9).iter().all(|r| r.version <= 9));
}

#[test]
fn missing_source_on_rename_is_recorded() {
    let mut server = SyncServer::new();
    let mv = ChangeEvent::File(FileEvent::Move(FileMove::new(bytes("missing"), bytes("q"))));
    let frames = vec![Frame::Message(Transmission::ChangeEvent(mv.clone()))];
    let (outs, ok) = handle_sync_client_to_server(&mut server, 0, 1, &frames);
    assert!(ok);
    assert_eq!(
        outs,
        vec![
            Transmission::Proceed,
            Transmission::ServerVersion { version: 1 },
        ]
    );
    assert_eq!(server.log.current_version(), 1);
    let records = server.log.changes_in(0, 1);
    assert_eq!(records[0].event, mv);
    assert!(!server.fs.contains_path(&bytes("q")));
}

#[test]
fn push_of_undo_delete_is_a_protocol_violation() {
    let mut server = SyncServer::new();
    let undo = ChangeEvent::File(FileEvent::UndoDelete(
        hcs_server::data::FileUndoDelete { path: bytes("a") },
    ));
    let frames = vec![Frame::Message(Transmission::ChangeEvent(undo))];
    let (outs, ok) = handle_sync_client_to_server(&mut server, 0, 1, &frames);
    assert!(!ok);
    // the preamble already went out before the violation was seen
    assert_eq!(outs, vec![Transmission::Proceed]);
    assert_eq!(server.log.current_version(), 0);
}

#[test]
fn rename_coalesced_on_pull() {
    let mut server = SyncServer::new();
    let frames = vec![
        Frame::Message(Transmission::ChangeEvent(dir_create_event("/x"))),
        Frame::Message(Transmission::ChangeEvent(ChangeEvent::Directory(
            DirectoryEvent::Move(DirectoryMove::new(bytes("/x"), bytes("/y"))),
        ))),
        Frame::Message(Transmission::ChangeEvent(ChangeEvent::Directory(
            DirectoryEvent::Move(DirectoryMove::new(bytes("/y"), bytes("/z"))),
        ))),
    ];
    let (outs, ok) = handle_sync_client_to_server(&mut server, 0, 3, &frames);
    assert!(ok);
    assert_eq!(outs.len(), 4);
    let (down, down_ok) = handle_sync_server_to_client(&server, 0);
    assert!(down_ok);
    assert_eq!(
        down,
        vec![
            Frame::Message(Transmission::ChangeEvent(dir_create_event("/z"))),
            Frame::Message(Transmission::ServerVersion { version: 3 }),
            Frame::Message(Transmission::TransactionComplete),
        ]
    );
    assert!(server.fs.contains_path(&bytes("/z")));
    assert!(!server.fs.contains_path(&bytes("/x")));
}

#[test]
fn skip_current_for_vanished_file() {
    let mut server = SyncServer::new();
    let frames = vec![
        Frame::Message(Transmission::ChangeEvent(file_create_event("gone.txt", 3))),
        Frame::FileBody(bytes("abc")),
    ];
    let (_, ok) = handle_sync_client_to_server(&mut server, 0, 1, &frames);
    assert!(ok);
    // the file disappears from the content store behind the log's back
    server.fs.file_delete(&bytes("gone.txt"));
    let (down, down_ok) = handle_sync_server_to_client(&server, 0);
    assert!(down_ok);
    assert_eq!(
        down,
        vec![
            Frame::Message(Transmission::SkipCurrent),
            Frame::Message(Transmission::ServerVersion { version: 1 }),
            Frame::Message(Transmission::TransactionComplete),
        ]
    );
}

#[test]
fn client_ahead_of_server_gets_empty_delta() {
    let mut server = SyncServer::new();
    advance_to_version(&mut server, 2);
    let (frames, ok) = handle_sync_server_to_client(&server, 5);
    assert!(ok);
    assert_eq!(
        frames,
        vec![
            Frame::Message(Transmission::ServerVersion { version: 2 }),
            Frame::Message(Transmission::TransactionComplete),
        ]
    );
}

#[test]
fn undo_delete_in_the_log_is_fatal_on_pull() {
    let mut server = SyncServer::new();
    let undo = ChangeEvent::File(FileEvent::UndoDelete(
        hcs_server::data::FileUndoDelete { path: bytes("u") },
    ));
    // only a write that bypasses the protocol can put a reserved record in
    // the log; streaming it is unimplemented and kills the session
    server.log.insert(undo);
    let (frames, ok) = handle_sync_server_to_client(&server, 0);
    assert!(!ok);
    assert!(frames.is_empty());
    let extra: Vec<Frame> = Vec::new();
    let (state, sent) = session_step(
        SessionState::PayloadLoop,
        &mut server,
        Transmission::SyncServerToClient { client_version: 0 },
        &extra,
    );
    assert_eq!(state, SessionState::Terminated);
    assert!(sent.is_empty());
}

#[test]
fn failed_batch_keeps_the_accepted_prefix_and_its_acks() {
    let mut server = SyncServer::new();
    let frames = vec![
        Frame::Message(Transmission::ChangeEvent(file_delete_event("a"))),
        // the second expected change event never comes: a stray message
        Frame::Message(Transmission::Proceed),
    ];
    let (outs, ok) = handle_sync_client_to_server(&mut server, 0, 2, &frames);
    assert!(!ok);
    // the preamble and the ack of the accepted first event are handed back
    assert_eq!(
        outs,
        vec![
            Transmission::Proceed,
            Transmission::ServerVersion { version: 1 },
        ]
    );
    assert_eq!(server.log.current_version(), 1);
}
