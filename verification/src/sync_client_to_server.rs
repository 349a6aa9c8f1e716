//! Client-to-server synchronization: applying one pushed change event.
//!
//! Each handler performs the content-store effect of one change event and
//! then records the event in the change log, returning the newly assigned
//! server version. The content-store effect is lenient, so the event is
//! recorded even when the filesystem had drifted (a missing source, an
//! already existing directory); the change log, not the filesystem, is
//! authoritative.

use vstd::prelude::*;

use crate::changelog::ChangeLog;
use crate::data::{
    ChangeEvent, DirectoryCreate, DirectoryDelete, DirectoryEvent, DirectoryMove, EventV,
    FileCreate, FileDelete, FileEvent, FileModify, FileMove, RecordV,
};
use crate::fs_model::{
    FsModel, apply_dir_create, apply_dir_delete, apply_dir_move, apply_file_delete,
    apply_file_move, apply_file_write,
};

verus! {

/// Concatenation of a sequence of byte strings.
pub open spec fn concat_bytes(s: Seq<Seq<u8>>) -> Seq<u8>
    decreases s.len(),
{
    if s.len() == 0 {
        Seq::empty()
    } else {
        concat_bytes(s.drop_last()) + s.last()
    }
}

/// View of a sequence of byte strings.
pub open spec fn chunks_view(s: Seq<Vec<u8>>) -> Seq<Seq<u8>> {
    s.map_values(|v: Vec<u8>| v@)
}

/// Concatenates the body chunks read off the wire into one file body.
pub fn concat_chunks(chunks: &Vec<Vec<u8>>) -> (r: Vec<u8>)
    ensures
        r@ == concat_bytes(chunks_view(chunks@)),
{
    let ghost cv = chunks_view(chunks@);
    let mut out: Vec<u8> = Vec::new();
    let mut i: usize = 0;
    proof {
        assert(out@ =~= concat_bytes(cv.take(0)));
    }
    while i < chunks.len()
        invariant
            i <= chunks@.len(),
            cv == chunks_view(chunks@),
            out@ == concat_bytes(cv.take(i as int)),
        decreases chunks@.len() - i,
    {
        proof {
            assert(cv.take(i + 1 as int).drop_last() =~= cv.take(i as int));
            assert(cv.take(i + 1 as int).last() == cv[i as int]);
            assert(cv[i as int] == chunks@[i as int]@);
        }
        let ghost out0 = out@;
        let chunk = &chunks[i];
        let mut j: usize = 0;
        while j < chunk.len()
            invariant
                j <= chunk@.len(),
                out@ == out0 + chunk@.take(j as int),
            decreases chunk@.len() - j,
        {
            out.push(chunk[j]);
            proof {
                assert(out0 + chunk@.take(j + 1 as int) =~= (out0 + chunk@.take(j as int)).push(
                    chunk@[j as int],
                ));
            }
            j = j + 1;
        }
        proof {
            assert(chunk@.take(chunk@.len() as int) =~= chunk@);
        }
        i = i + 1;
    }
    proof {
        assert(cv.take(cv.len() as int) =~= cv);
    }
    out
}

/// Writes the pushed file body under the event's path and records the
/// file-create event, returning the new server version.
pub fn handle_file_create(
    log: &mut ChangeLog,
    fs: &mut FsModel,
    file_create: FileCreate,
    chunks: &Vec<Vec<u8>>,
) -> (r: u64)
    requires
        old(log).well_formed(),
        old(log).spec_current_version() < u64::MAX,
        old(fs).wf(),
    ensures
        final(log).well_formed(),
        final(fs).wf(),
        final(fs)@ == apply_file_write(
            old(fs)@,
            file_create.path@,
            concat_bytes(chunks_view(chunks@)),
        ),
        r == old(log).spec_current_version() + 1,
        final(log)@ == old(log)@.push(
            RecordV {
                version: r,
                event: EventV::FileCreate { path: file_create.path@, size: file_create.size },
            },
        ),
{
    let body = concat_chunks(chunks);
    fs.file_write(&file_create.path, body);
    log.insert(ChangeEvent::File(FileEvent::Create(file_create)))
}

/// Overwrites the file under the event's path with the pushed body and
/// records the file-modify event, returning the new server version.
pub fn handle_file_modify(
    log: &mut ChangeLog,
    fs: &mut FsModel,
    file_modify: FileModify,
    chunks: &Vec<Vec<u8>>,
) -> (r: u64)
    requires
        old(log).well_formed(),
        old(log).spec_current_version() < u64::MAX,
        old(fs).wf(),
    ensures
        final(log).well_formed(),
        final(fs).wf(),
        final(fs)@ == apply_file_write(
            old(fs)@,
            file_modify.path@,
            concat_bytes(chunks_view(chunks@)),
        ),
        r == old(log).spec_current_version() + 1,
        final(log)@ == old(log)@.push(
            RecordV {
                version: r,
                event: EventV::FileModify { path: file_modify.path@, size: file_modify.size },
            },
        ),
{
    let body = concat_chunks(chunks);
    fs.file_write(&file_modify.path, body);
    log.insert(ChangeEvent::File(FileEvent::Modify(file_modify)))
}

/// Deletes the file and records the event, returning the new server
/// version; a missing path is tolerated and still recorded.
pub fn handle_file_delete(log: &mut ChangeLog, fs: &mut FsModel, file_delete: FileDelete) -> (r:
    u64)
    requires
        old(log).well_formed(),
        old(log).spec_current_version() < u64::MAX,
        old(fs).wf(),
    ensures
        final(log).well_formed(),
        final(fs).wf(),
        final(fs)@ == apply_file_delete(old(fs)@, file_delete.path@),
        r == old(log).spec_current_version() + 1,
        final(log)@ == old(log)@.push(
            RecordV { version: r, event: EventV::FileDelete { path: file_delete.path@ } },
        ),
{
    fs.file_delete(&file_delete.path);
    log.insert(ChangeEvent::File(FileEvent::Delete(file_delete)))
}

/// Moves the file and records the event, returning the new server version;
/// a missing source is tolerated and still recorded.
pub fn handle_file_move(log: &mut ChangeLog, fs: &mut FsModel, file_move: FileMove) -> (r: u64)
    requires
        old(log).well_formed(),
        old(log).spec_current_version() < u64::MAX,
        old(fs).wf(),
    ensures
        final(log).well_formed(),
        final(fs).wf(),
        final(fs)@ == apply_file_move(old(fs)@, file_move.from_path@, file_move.to_path@),
        r == old(log).spec_current_version() + 1,
        final(log)@ == old(log)@.push(
            RecordV {
                version: r,
                event: EventV::FileMove { from: file_move.from_path@, to: file_move.to_path@ },
            },
        ),
{
    fs.file_move(&file_move.from_path, &file_move.to_path);
    log.insert(ChangeEvent::File(FileEvent::Move(file_move)))
}

/// Creates the directory and records the event, returning the new server
/// version; an existing directory is tolerated and still recorded.
pub fn handle_directory_create(
    log: &mut ChangeLog,
    fs: &mut FsModel,
    directory_create: DirectoryCreate,
) -> (r: u64)
    requires
        old(log).well_formed(),
        old(log).spec_current_version() < u64::MAX,
        old(fs).wf(),
    ensures
        final(log).well_formed(),
        final(fs).wf(),
        final(fs)@ == apply_dir_create(old(fs)@, directory_create.path@),
        r == old(log).spec_current_version() + 1,
        final(log)@ == old(log)@.push(
            RecordV { version: r, event: EventV::DirCreate { path: directory_create.path@ } },
        ),
{
    fs.dir_create(&directory_create.path);
    log.insert(ChangeEvent::Directory(DirectoryEvent::Create(directory_create)))
}

/// Deletes the directory and records the event, returning the new server
/// version; a missing path is tolerated and still recorded.
pub fn handle_directory_delete(
    log: &mut ChangeLog,
    fs: &mut FsModel,
    directory_delete: DirectoryDelete,
) -> (r: u64)
    requires
        old(log).well_formed(),
        old(log).spec_current_version() < u64::MAX,
        old(fs).wf(),
    ensures
        final(log).well_formed(),
        final(fs).wf(),
        final(fs)@ == apply_dir_delete(old(fs)@, directory_delete.path@),
        r == old(log).spec_current_version() + 1,
        final(log)@ == old(log)@.push(
            RecordV { version: r, event: EventV::DirDelete { path: directory_delete.path@ } },
        ),
{
    fs.dir_delete(&directory_delete.path);
    log.insert(ChangeEvent::Directory(DirectoryEvent::Delete(directory_delete)))
}

/// Moves the directory and records the event, returning the new server
/// version; a missing source is tolerated and still recorded.
pub fn handle_directory_move(
    log: &mut ChangeLog,
    fs: &mut FsModel,
    directory_move: DirectoryMove,
) -> (r: u64)
    requires
        old(log).well_formed(),
        old(log).spec_current_version() < u64::MAX,
        old(fs).wf(),
    ensures
        final(log).well_formed(),
        final(fs).wf(),
        final(fs)@ == apply_dir_move(old(fs)@, directory_move.from_path@, directory_move.to_path@),
        r == old(log).spec_current_version() + 1,
        final(log)@ == old(log)@.push(
            RecordV {
                version: r,
                event: EventV::DirMove {
                    from: directory_move.from_path@,
                    to: directory_move.to_path@,
                },
            },
        ),
{
    fs.dir_move(&directory_move.from_path, &directory_move.to_path);
    log.insert(ChangeEvent::Directory(DirectoryEvent::Move(directory_move)))
}

} // verus!
