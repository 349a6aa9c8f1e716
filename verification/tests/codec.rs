use hcs_server::codec::{bytes_to_transmission_type, transmission_type_to_bytes};
use hcs_server::data::{
    ChangeEvent, DirectoryCreate, DirectoryDelete, DirectoryEvent, DirectoryMove,
    DirectoryUndoDelete, ErrorKind, FileCreate, FileDelete, FileEvent, FileModify, FileMove,
    FileUndoDelete, Transmission,
};

fn bytes(s: &str) -> Vec<u8> {
    s.as_bytes().to_vec()
}

fn round_trip(t: Transmission) {
    let encoded = transmission_type_to_bytes(&t);
    let decoded = bytes_to_transmission_type(&encoded).unwrap();
    assert_eq!(decoded, t);
}

#[test]
fn round_trip_control_messages() {
    round_trip(Transmission::Greeting { version: 1 });
    round_trip(Transmission::Proceed);
    round_trip(Transmission::SkipCurrent);
    round_trip(Transmission::TransactionComplete);
    round_trip(Transmission::EndConnection);
    round_trip(Transmission::ServerVersionRequest);
    round_trip(Transmission::Other);
}

#[test]
fn round_trip_versions() {
    round_trip(Transmission::ServerVersion { version: 0 });
    round_trip(Transmission::ServerVersion { version: u64::MAX });
    round_trip(Transmission::ServerVersion { version: 0x0123_4567_89ab_cdef });
    round_trip(Transmission::SyncClientToServer { client_version: 7, number_of_changes: 3 });
    round_trip(Transmission::SyncServerToClient { client_version: 9 });
}

#[test]
fn round_trip_errors() {
    round_trip(Transmission::Error(ErrorKind::ProtocolViolation));
    round_trip(Transmission::Error(ErrorKind::StorageFailure));
    round_trip(Transmission::Error(ErrorKind::Unimplemented));
}

#[test]
fn round_trip_change_events() {
    round_trip(Transmission::ChangeEvent(ChangeEvent::File(FileEvent::Create(
        FileCreate::new(bytes("a.txt"), 5),
    ))));
    round_trip(Transmission::ChangeEvent(ChangeEvent::File(FileEvent::Modify(
        FileModify::new(bytes("a.txt"), 0),
    ))));
    round_trip(Transmission::ChangeEvent(ChangeEvent::File(FileEvent::Delete(
        FileDelete::new(bytes("x/y/z")),
    ))));
    round_trip(Transmission::ChangeEvent(ChangeEvent::File(FileEvent::Move(
        FileMove::new(bytes("from"), bytes("to")),
    ))));
    round_trip(Transmission::ChangeEvent(ChangeEvent::File(FileEvent::UndoDelete(
        FileUndoDelete { path: bytes("u") },
    ))));
    round_trip(Transmission::ChangeEvent(ChangeEvent::Directory(DirectoryEvent::Create(
        DirectoryCreate::new(bytes("")),
    ))));
    round_trip(Transmission::ChangeEvent(ChangeEvent::Directory(DirectoryEvent::Delete(
        DirectoryDelete::new(bytes("d")),
    ))));
    round_trip(Transmission::ChangeEvent(ChangeEvent::Directory(DirectoryEvent::Move(
        DirectoryMove::new(bytes("/x"), bytes("/y")),
    ))));
    round_trip(Transmission::ChangeEvent(ChangeEvent::Directory(DirectoryEvent::UndoDelete(
        DirectoryUndoDelete { path: bytes("v") },
    ))));
}

#[test]
fn encoding_is_tag_first() {
    let encoded = transmission_type_to_bytes(&Transmission::Proceed);
    assert_eq!(encoded, vec![1u8]);
    let encoded = transmission_type_to_bytes(&Transmission::ServerVersion { version: 2 });
    assert_eq!(encoded, vec![5u8, 2, 0, 0, 0, 0, 0, 0, 0]);
}

#[test]
fn unknown_tag_is_rejected() {
    assert_eq!(
        bytes_to_transmission_type(&vec![99u8]),
        Err(ErrorKind::ProtocolViolation)
    );
    assert_eq!(
        bytes_to_transmission_type(&vec![12u8, 0, 0]),
        Err(ErrorKind::ProtocolViolation)
    );
}

#[test]
fn empty_input_is_rejected() {
    assert_eq!(
        bytes_to_transmission_type(&Vec::new()),
        Err(ErrorKind::ProtocolViolation)
    );
}

#[test]
fn trailing_bytes_are_rejected() {
    let mut encoded = transmission_type_to_bytes(&Transmission::Proceed);
    encoded.push(0);
    assert_eq!(
        bytes_to_transmission_type(&encoded),
        Err(ErrorKind::ProtocolViolation)
    );
}

#[test]
fn truncated_fields_are_rejected() {
    let encoded = transmission_type_to_bytes(&Transmission::Greeting { version: 1 });
    let truncated = encoded[..encoded.len() - 1].to_vec();
    assert_eq!(
        bytes_to_transmission_type(&truncated),
        Err(ErrorKind::ProtocolViolation)
    );
    // a path length field that overruns the buffer
    let short = vec![8u8, 2, 255, 0, 0, 0, 0, 0, 0, 0];
    assert_eq!(
        bytes_to_transmission_type(&short),
        Err(ErrorKind::ProtocolViolation)
    );
}

#[test]
fn packet_counts_round_up() {
    assert_eq!(hcs_server::calculate_num_packets(0), 0);
    assert_eq!(hcs_server::calculate_num_packets(1), 1);
    assert_eq!(hcs_server::calculate_num_packets(1024), 1);
    assert_eq!(hcs_server::calculate_num_packets(1025), 2);
    assert_eq!(hcs_server::calculate_num_packets(2048), 2);
}
