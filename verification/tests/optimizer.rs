use hcs_server::data::{
    ChangeEvent, ChangeRecord, DirectoryCreate, DirectoryDelete, DirectoryEvent, DirectoryMove,
    FileCreate, FileDelete, FileEvent, FileModify, FileMove,
};
use hcs_server::optimize::optimize_changes;

fn bytes(s: &str) -> Vec<u8> {
    s.as_bytes().to_vec()
}

fn rec(version: u64, event: ChangeEvent) -> ChangeRecord {
    ChangeRecord { version, event }
}

fn create(path: &str, size: u64) -> ChangeEvent {
    ChangeEvent::File(FileEvent::Create(FileCreate::new(bytes(path), size)))
}

fn modify(path: &str, size: u64) -> ChangeEvent {
    ChangeEvent::File(FileEvent::Modify(FileModify::new(bytes(path), size)))
}

fn delete(path: &str) -> ChangeEvent {
    ChangeEvent::File(FileEvent::Delete(FileDelete::new(bytes(path))))
}

fn mv(from: &str, to: &str) -> ChangeEvent {
    ChangeEvent::File(FileEvent::Move(FileMove::new(bytes(from), bytes(to))))
}

fn dir_create(path: &str) -> ChangeEvent {
    ChangeEvent::Directory(DirectoryEvent::Create(DirectoryCreate::new(bytes(path))))
}

fn dir_delete(path: &str) -> ChangeEvent {
    ChangeEvent::Directory(DirectoryEvent::Delete(DirectoryDelete::new(bytes(path))))
}

fn dir_move(from: &str, to: &str) -> ChangeEvent {
    ChangeEvent::Directory(DirectoryEvent::Move(DirectoryMove::new(
        bytes(from),
        bytes(to),
    )))
}

#[test]
fn create_then_delete_cancels() {
    let xs = vec![rec(1, create("p", 3)), rec(2, delete("p"))];
    assert_eq!(optimize_changes(xs), vec![]);
}

#[test]
fn create_then_modify_keeps_one_create_with_final_size() {
    let xs = vec![rec(1, create("p", 3)), rec(2, modify("p", 9))];
    assert_eq!(optimize_changes(xs), vec![rec(2, create("p", 9))]);
}

#[test]
fn modify_then_modify_keeps_the_last() {
    let xs = vec![rec(1, modify("p", 3)), rec(2, modify("p", 9))];
    assert_eq!(optimize_changes(xs), vec![rec(2, modify("p", 9))]);
}

#[test]
fn create_then_move_becomes_create_at_destination() {
    let xs = vec![rec(1, create("p", 3)), rec(2, mv("p", "q"))];
    assert_eq!(optimize_changes(xs), vec![rec(2, create("q", 3))]);
}

#[test]
fn modify_then_move_becomes_modify_at_destination() {
    let xs = vec![rec(1, modify("p", 3)), rec(2, mv("p", "q"))];
    assert_eq!(optimize_changes(xs), vec![rec(2, modify("q", 3))]);
}

#[test]
fn chained_moves_collapse() {
    let xs = vec![rec(1, mv("p", "q")), rec(2, mv("q", "r"))];
    assert_eq!(optimize_changes(xs), vec![rec(2, mv("p", "r"))]);
}

#[test]
fn move_chain_back_to_origin_disappears() {
    let xs = vec![rec(1, mv("p", "q")), rec(2, mv("q", "p"))];
    assert_eq!(optimize_changes(xs), vec![]);
}

#[test]
fn delete_then_create_is_kept() {
    let xs = vec![rec(1, delete("p")), rec(2, create("p", 3))];
    assert_eq!(
        optimize_changes(xs),
        vec![rec(1, delete("p")), rec(2, create("p", 3))]
    );
}

#[test]
fn directory_rename_chain_collapses_to_one_create() {
    let xs = vec![
        rec(1, dir_create("/x")),
        rec(2, dir_move("/x", "/y")),
        rec(3, dir_move("/y", "/z")),
    ];
    assert_eq!(optimize_changes(xs), vec![rec(3, dir_create("/z"))]);
}

#[test]
fn directory_delete_cancels_what_was_made_inside() {
    let xs = vec![
        rec(1, dir_create("d")),
        rec(2, create("d/f", 3)),
        rec(3, dir_delete("d")),
    ];
    assert_eq!(optimize_changes(xs), vec![]);
}

#[test]
fn directory_delete_without_create_is_kept() {
    let xs = vec![rec(1, create("d/f", 3)), rec(2, dir_delete("d"))];
    assert_eq!(
        optimize_changes(xs),
        vec![rec(1, create("d/f", 3)), rec(2, dir_delete("d"))]
    );
}

#[test]
fn unrelated_paths_stay_in_order() {
    let xs = vec![rec(1, create("a", 1)), rec(2, create("b", 2))];
    assert_eq!(
        optimize_changes(xs),
        vec![rec(1, create("a", 1)), rec(2, create("b", 2))]
    );
}

#[test]
fn intervening_event_on_a_related_path_blocks_coalescing() {
    // the re-create of the moved-away source keeps the move chain apart
    let xs = vec![
        rec(1, mv("x", "p")),
        rec(2, create("x", 1)),
        rec(3, mv("p", "q")),
    ];
    assert_eq!(
        optimize_changes(xs),
        vec![
            rec(1, mv("x", "p")),
            rec(2, create("x", 1)),
            rec(3, mv("p", "q")),
        ]
    );
}

#[test]
fn optimize_is_idempotent_on_a_mixed_history() {
    let xs = vec![
        rec(1, create("a", 1)),
        rec(2, modify("a", 2)),
        rec(3, mv("a", "b")),
        rec(4, dir_create("d")),
        rec(5, create("d/f", 3)),
        rec(6, delete("d/f")),
        rec(7, dir_move("d", "e")),
        rec(8, modify("b", 9)),
    ];
    let once = optimize_changes(xs.clone());
    let twice = optimize_changes(once.clone());
    assert_eq!(once, twice);
}

#[test]
fn collapsed_event_keeps_the_last_contributing_version() {
    let xs = vec![
        rec(4, create("p", 1)),
        rec(7, modify("p", 2)),
        rec(9, mv("p", "q")),
    ];
    assert_eq!(optimize_changes(xs), vec![rec(9, create("q", 2))]);
}

#[test]
fn optimize_of_empty_history_is_empty() {
    assert_eq!(optimize_changes(vec![]), vec![]);
}
