use hcs_server::changelog::ChangeLog;
use hcs_server::data::{
    ChangeEvent, DirectoryCreate, DirectoryEvent, ErrorKind, FileCreate, FileDelete, FileEvent,
};
use hcs_server::fs_model::FsModel;

fn bytes(s: &str) -> Vec<u8> {
    s.as_bytes().to_vec()
}

fn some_event(i: u64) -> ChangeEvent {
    if i % 2 == 0 {
        ChangeEvent::Directory(DirectoryEvent::Create(DirectoryCreate::new(bytes("d"))))
    } else {
        ChangeEvent::File(FileEvent::Delete(FileDelete::new(bytes("f"))))
    }
}

#[test]
fn current_version_counts_inserts() {
    let mut log = ChangeLog::new();
    assert_eq!(log.current_version(), 0);
    for i in 0..10 {
        let v = log.insert(some_event(i));
        assert_eq!(v, i + 1);
        assert_eq!(log.current_version(), i + 1);
    }
}

#[test]
fn exactly_one_record_per_version() {
    let mut log = ChangeLog::new();
    for i in 0..8 {
        log.insert(some_event(i));
    }
    let all = log.changes_in(0, 8);
    assert_eq!(all.len(), 8);
    for v in 1..=8u64 {
        let holders: Vec<_> = all.iter().filter(|r| r.version == v).collect();
        assert_eq!(holders.len(), 1);
    }
}

#[test]
fn changes_in_selects_the_half_open_window() {
    let mut log = ChangeLog::new();
    for i in 0..6 {
        log.insert(some_event(i));
    }
    let window = log.changes_in(2, 5);
    let versions: Vec<u64> = window.iter().map(|r| r.version).collect();
    assert_eq!(versions, vec![3, 4, 5]);
    assert!(log.changes_in(5, 5).is_empty());
    assert!(log.changes_in(6, 2).is_empty());
}

#[test]
fn file_write_read_delete() {
    let mut fs = FsModel::new();
    assert!(!fs.contains_path(&bytes("a")));
    fs.file_write(&bytes("a"), bytes("one"));
    assert_eq!(fs.file_content(&bytes("a")).unwrap(), &bytes("one"));
    fs.file_write(&bytes("a"), bytes("two"));
    assert_eq!(fs.file_content(&bytes("a")).unwrap(), &bytes("two"));
    fs.file_delete(&bytes("a"));
    assert!(!fs.contains_path(&bytes("a")));
    // deleting a missing path changes nothing
    fs.file_delete(&bytes("a"));
    assert!(!fs.contains_path(&bytes("a")));
}

#[test]
fn file_move_carries_content() {
    let mut fs = FsModel::new();
    fs.file_write(&bytes("p"), bytes("payload"));
    fs.file_write(&bytes("q"), bytes("old"));
    fs.file_move(&bytes("p"), &bytes("q"));
    assert!(!fs.contains_path(&bytes("p")));
    assert_eq!(fs.file_content(&bytes("q")).unwrap(), &bytes("payload"));
    // a missing source changes nothing
    fs.file_move(&bytes("p"), &bytes("r"));
    assert!(!fs.contains_path(&bytes("r")));
}

#[test]
fn dir_create_tolerates_existing() {
    let mut fs = FsModel::new();
    fs.dir_create(&bytes("d"));
    assert!(fs.contains_path(&bytes("d")));
    fs.dir_create(&bytes("d"));
    assert!(fs.contains_path(&bytes("d")));
    assert!(fs.file_content(&bytes("d")).is_none());
}

#[test]
fn dir_delete_removes_the_subtree() {
    let mut fs = FsModel::new();
    fs.dir_create(&bytes("d"));
    fs.file_write(&bytes("d/f"), bytes("x"));
    fs.file_write(&bytes("d/sub/g"), bytes("y"));
    fs.file_write(&bytes("dx"), bytes("z"));
    fs.dir_delete(&bytes("d"));
    assert!(!fs.contains_path(&bytes("d")));
    assert!(!fs.contains_path(&bytes("d/f")));
    assert!(!fs.contains_path(&bytes("d/sub/g")));
    // a sibling whose name merely starts with the same letters survives
    assert!(fs.contains_path(&bytes("dx")));
}

#[test]
fn dir_move_carries_the_subtree() {
    let mut fs = FsModel::new();
    fs.dir_create(&bytes("a"));
    fs.file_write(&bytes("a/f"), bytes("inner"));
    fs.file_write(&bytes("b/old"), bytes("gone"));
    fs.dir_move(&bytes("a"), &bytes("b"));
    assert!(!fs.contains_path(&bytes("a")));
    assert!(!fs.contains_path(&bytes("a/f")));
    assert!(fs.contains_path(&bytes("b")));
    assert_eq!(fs.file_content(&bytes("b/f")).unwrap(), &bytes("inner"));
    // what stood at the destination was overwritten by the move
    assert!(!fs.contains_path(&bytes("b/old")));
}

#[test]
fn dir_move_of_missing_source_changes_nothing() {
    let mut fs = FsModel::new();
    fs.file_write(&bytes("keep"), bytes("k"));
    fs.dir_move(&bytes("nope"), &bytes("elsewhere"));
    assert!(fs.contains_path(&bytes("keep")));
    assert!(!fs.contains_path(&bytes("elsewhere")));
}

#[test]
fn sending_a_vanished_file_is_a_storage_failure() {
    let mut fs = FsModel::new();
    let missing = FileCreate::new(bytes("gone"), 4);
    let r = hcs_server::sync_server_to_client::handle_file_create(&fs, &missing);
    assert_eq!(r, Err(ErrorKind::StorageFailure));
    fs.dir_create(&bytes("gone"));
    let r = hcs_server::sync_server_to_client::handle_file_create(&fs, &missing);
    assert_eq!(r, Err(ErrorKind::StorageFailure));
}
