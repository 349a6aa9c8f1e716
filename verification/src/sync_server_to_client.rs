//! Server-to-client synchronization: transmitting one change event.
//!
//! Each handler renders one change event as the frames the server puts on
//! the wire. An event that carries a file body is restatted first: the
//! event goes out with the file's actual size and is followed by the body,
//! split into packets of at most `BUFFER_SIZE` bytes. A file that has
//! meanwhile disappeared cannot be transmitted; the caller then sends
//! `SkipCurrent` in its place and moves on. The reserved undo-delete events
//! are unimplemented: rendering one fails, which is fatal to the session.

use vstd::prelude::*;

use crate::BUFFER_SIZE;
use crate::changelog::clone_event;
use crate::data::{
    ChangeEvent, DirectoryEvent, ErrorKind, EventV, FileCreate, FileEvent, FileModify, Frame,
    FrameV, TransV, Transmission, clone_bytes, frames_view,
};
use crate::fs_model::{FsModel, NodeV};

verus! {

/// A file body split into wire packets: full packets of `BUFFER_SIZE`
/// bytes, then what remains.
pub open spec fn spec_chunks(b: Seq<u8>) -> Seq<Seq<u8>>
    decreases b.len(),
{
    if b.len() == 0 {
        Seq::empty()
    } else if b.len() <= BUFFER_SIZE as int {
        seq![b]
    } else {
        seq![b.take(BUFFER_SIZE as int)] + spec_chunks(b.skip(BUFFER_SIZE as int))
    }
}

/// The body packets of a file as frames.
pub open spec fn body_frames(b: Seq<u8>) -> Seq<FrameV> {
    spec_chunks(b).map_values(|c: Seq<u8>| FrameV::FileBody(c))
}

/// The frames that transmit one change event against the given content
/// store: the event (restatted for file bodies) and its body packets, or a
/// single `SkipCurrent` when the event cannot be transmitted.
pub open spec fn spec_send_event(fs: Map<Seq<u8>, NodeV>, e: EventV) -> Seq<FrameV> {
    match e {
        EventV::FileCreate { path, .. } => if fs.contains_key(path) && fs[path] is File {
            seq![
                FrameV::Message(
                    TransV::ChangeEvent(
                        EventV::FileCreate { path, size: fs[path]->File_0.len() as u64 },
                    ),
                ),
            ] + body_frames(fs[path]->File_0)
        } else {
            seq![FrameV::Message(TransV::SkipCurrent)]
        },
        EventV::FileModify { path, .. } => if fs.contains_key(path) && fs[path] is File {
            seq![
                FrameV::Message(
                    TransV::ChangeEvent(
                        EventV::FileModify { path, size: fs[path]->File_0.len() as u64 },
                    ),
                ),
            ] + body_frames(fs[path]->File_0)
        } else {
            seq![FrameV::Message(TransV::SkipCurrent)]
        },
        // the reserved undo-delete events are never rendered: the renderer
        // fails on them and the session terminates
        EventV::FileUndoDelete { .. } => Seq::empty(),
        EventV::DirUndoDelete { .. } => Seq::empty(),
        _ => seq![FrameV::Message(TransV::ChangeEvent(e))],
    }
}

/// Appends the body packets of `content` from `offset` on.
fn push_body_frames(content: &Vec<u8>, offset: usize, out: &mut Vec<Frame>)
    requires
        offset <= content@.len(),
    ensures
        frames_view(final(out)@) == frames_view(old(out)@) + body_frames(
            content@.skip(offset as int),
        ),
    decreases content@.len() - offset,
{
    let ghost rem = content@.skip(offset as int);
    if offset == content.len() {
        proof {
            assert(rem =~= Seq::<u8>::empty());
            assert(body_frames(rem) =~= Seq::<FrameV>::empty());
            assert(frames_view(out@) =~= frames_view(out@) + body_frames(rem));
        }
        return ;
    }
    let remaining = content.len() - offset;
    let chunk_len: usize = if remaining as u64 <= BUFFER_SIZE {
        remaining
    } else {
        BUFFER_SIZE as usize
    };
    let mut chunk: Vec<u8> = Vec::new();
    let mut t: usize = 0;
    proof {
        assert(chunk@ =~= content@.subrange(offset as int, offset as int));
    }
    while t < chunk_len
        invariant
            content@.len() <= usize::MAX,
            offset + chunk_len <= content@.len(),
            t <= chunk_len,
            chunk@ == content@.subrange(offset as int, offset + t),
        decreases chunk_len - t,
    {
        chunk.push(content[offset + t]);
        proof {
            assert(content@.subrange(offset as int, offset + t + 1) =~= content@.subrange(
                offset as int,
                offset + t,
            ).push(content@[offset + t]));
        }
        t = t + 1;
    }
    let ghost out0 = frames_view(out@);
    out.push(Frame::FileBody(chunk));
    proof {
        assert(frames_view(out@) =~= out0.push(FrameV::FileBody(rem.take(chunk_len as int)))) by {
            assert(chunk@ =~= rem.take(chunk_len as int));
        }
    }
    push_body_frames(content, offset + chunk_len, out);
    proof {
        assert(content@.skip(offset + chunk_len) =~= rem.skip(chunk_len as int));
        if rem.len() <= BUFFER_SIZE as int {
            assert(rem.take(chunk_len as int) =~= rem);
            assert(rem.skip(chunk_len as int) =~= Seq::<u8>::empty());
            assert(body_frames(rem.skip(chunk_len as int)) =~= Seq::<FrameV>::empty());
            assert(spec_chunks(rem) == seq![rem]);
            assert(body_frames(rem) =~= seq![FrameV::FileBody(rem)]);
            assert(frames_view(out@) =~= out0 + body_frames(rem));
        } else {
            assert(spec_chunks(rem) == seq![rem.take(BUFFER_SIZE as int)] + spec_chunks(
                rem.skip(BUFFER_SIZE as int),
            ));
            assert(body_frames(rem) =~= seq![FrameV::FileBody(rem.take(BUFFER_SIZE as int))]
                + body_frames(rem.skip(BUFFER_SIZE as int)));
            assert(frames_view(out@) =~= out0 + body_frames(rem));
        }
    }
}

/// Restats the file, then renders the file-create event with its actual
/// size followed by the body packets; fails when no file stands at the
/// path any more.
pub fn handle_file_create(fs: &FsModel, file_create: &FileCreate) -> (r: Result<
    Vec<Frame>,
    ErrorKind,
>)
    requires
        fs.wf(),
    ensures
        match r {
            Result::Ok(frames) => fs@.contains_key(file_create.path@) && fs@[file_create.path@]
                is File && frames_view(frames@) == spec_send_event(
                fs@,
                EventV::FileCreate { path: file_create.path@, size: file_create.size },
            ),
            Result::Err(k) => k == ErrorKind::StorageFailure && (!fs@.contains_key(
                file_create.path@,
            ) || fs@[file_create.path@] is Dir),
        },
{
    match fs.file_content(&file_create.path) {
        Option::Some(content) => {
            let size = content.len() as u64;
            let mut frames: Vec<Frame> = Vec::new();
            frames.push(
                Frame::Message(
                    Transmission::ChangeEvent(
                        ChangeEvent::File(
                            FileEvent::Create(
                                FileCreate { path: clone_bytes(&file_create.path), size },
                            ),
                        ),
                    ),
                ),
            );
            let ghost head = frames_view(frames@);
            proof {
                assert(head =~= seq![
                    FrameV::Message(
                        TransV::ChangeEvent(
                            EventV::FileCreate { path: file_create.path@, size: size },
                        ),
                    ),
                ]);
            }
            push_body_frames(content, 0, &mut frames);
            proof {
                assert(content@.skip(0) =~= content@);
                assert(frames_view(frames@) =~= spec_send_event(
                    fs@,
                    EventV::FileCreate { path: file_create.path@, size: file_create.size },
                ));
            }
            Ok(frames)
        },
        Option::None => Err(ErrorKind::StorageFailure),
    }
}

/// Restats the file, then renders the file-modify event with its actual
/// size followed by the body packets; fails when no file stands at the
/// path any more.
pub fn handle_file_modify(fs: &FsModel, file_modify: &FileModify) -> (r: Result<
    Vec<Frame>,
    ErrorKind,
>)
    requires
        fs.wf(),
    ensures
        match r {
            Result::Ok(frames) => fs@.contains_key(file_modify.path@) && fs@[file_modify.path@]
                is File && frames_view(frames@) == spec_send_event(
                fs@,
                EventV::FileModify { path: file_modify.path@, size: file_modify.size },
            ),
            Result::Err(k) => k == ErrorKind::StorageFailure && (!fs@.contains_key(
                file_modify.path@,
            ) || fs@[file_modify.path@] is Dir),
        },
{
    match fs.file_content(&file_modify.path) {
        Option::Some(content) => {
            let size = content.len() as u64;
            let mut frames: Vec<Frame> = Vec::new();
            frames.push(
                Frame::Message(
                    Transmission::ChangeEvent(
                        ChangeEvent::File(
                            FileEvent::Modify(
                                FileModify { path: clone_bytes(&file_modify.path), size },
                            ),
                        ),
                    ),
                ),
            );
            proof {
                assert(frames_view(frames@) =~= seq![
                    FrameV::Message(
                        TransV::ChangeEvent(
                            EventV::FileModify { path: file_modify.path@, size: size },
                        ),
                    ),
                ]);
            }
            push_body_frames(content, 0, &mut frames);
            proof {
                assert(content@.skip(0) =~= content@);
                assert(frames_view(frames@) =~= spec_send_event(
                    fs@,
                    EventV::FileModify { path: file_modify.path@, size: file_modify.size },
                ));
            }
            Ok(frames)
        },
        Option::None => Err(ErrorKind::StorageFailure),
    }
}

/// Renders an event that carries no file body as its single frame.
fn plain_event_frame(e: &ChangeEvent) -> (r: Vec<Frame>)
    ensures
        frames_view(r@) == seq![FrameV::Message(TransV::ChangeEvent(e@))],
{
    let mut frames: Vec<Frame> = Vec::new();
    frames.push(Frame::Message(Transmission::ChangeEvent(clone_event(e))));
    proof {
        assert(frames_view(frames@) =~= seq![FrameV::Message(TransV::ChangeEvent(e@))]);
    }
    frames
}

/// Renders a file-delete event.
pub fn handle_file_delete(e: &ChangeEvent) -> (r: Vec<Frame>)
    ensures
        frames_view(r@) == seq![FrameV::Message(TransV::ChangeEvent(e@))],
{
    plain_event_frame(e)
}

/// Renders a file-move event.
pub fn handle_file_move(e: &ChangeEvent) -> (r: Vec<Frame>)
    ensures
        frames_view(r@) == seq![FrameV::Message(TransV::ChangeEvent(e@))],
{
    plain_event_frame(e)
}

/// Renders a directory-create event.
pub fn handle_directory_create(e: &ChangeEvent) -> (r: Vec<Frame>)
    ensures
        frames_view(r@) == seq![FrameV::Message(TransV::ChangeEvent(e@))],
{
    plain_event_frame(e)
}

/// Renders a directory-delete event.
pub fn handle_directory_delete(e: &ChangeEvent) -> (r: Vec<Frame>)
    ensures
        frames_view(r@) == seq![FrameV::Message(TransV::ChangeEvent(e@))],
{
    plain_event_frame(e)
}

/// Renders a directory-move event.
pub fn handle_directory_move(e: &ChangeEvent) -> (r: Vec<Frame>)
    ensures
        frames_view(r@) == seq![FrameV::Message(TransV::ChangeEvent(e@))],
{
    plain_event_frame(e)
}

/// Whether an event is one of the reserved, unimplemented undo-delete
/// kinds.
pub open spec fn is_undo_event(e: EventV) -> bool {
    e is FileUndoDelete || e is DirUndoDelete
}

/// Renders one change event against the content store: the frames that
/// transmit it, or a single `SkipCurrent` when the event's file cannot be
/// transmitted any more. Rendering a reserved undo-delete event is
/// unimplemented and fails, which terminates the session.
pub fn handle_server_to_client_change_event(fs: &FsModel, change_event: &ChangeEvent) -> (r:
    Result<Vec<Frame>, ErrorKind>)
    requires
        fs.wf(),
    ensures
        match r {
            Result::Ok(frames) => !is_undo_event(change_event@) && frames_view(frames@)
                == spec_send_event(fs@, change_event@),
            Result::Err(k) => is_undo_event(change_event@) && k == ErrorKind::Unimplemented,
        },
{
    match change_event {
        ChangeEvent::File(fe) => match fe {
            FileEvent::Create(file_create) => match handle_file_create(fs, file_create) {
                Result::Ok(frames) => Ok(frames),
                Result::Err(_) => {
                    let mut frames: Vec<Frame> = Vec::new();
                    frames.push(Frame::Message(Transmission::SkipCurrent));
                    proof {
                        assert(frames_view(frames@) =~= seq![
                            FrameV::Message(TransV::SkipCurrent),
                        ]);
                    }
                    Ok(frames)
                },
            },
            FileEvent::Modify(file_modify) => match handle_file_modify(fs, file_modify) {
                Result::Ok(frames) => Ok(frames),
                Result::Err(_) => {
                    let mut frames: Vec<Frame> = Vec::new();
                    frames.push(Frame::Message(Transmission::SkipCurrent));
                    proof {
                        assert(frames_view(frames@) =~= seq![
                            FrameV::Message(TransV::SkipCurrent),
                        ]);
                    }
                    Ok(frames)
                },
            },
            FileEvent::Delete(_) => Ok(handle_file_delete(change_event)),
            FileEvent::Move(_) => Ok(handle_file_move(change_event)),
            FileEvent::UndoDelete(_) => Err(ErrorKind::Unimplemented),
        },
        ChangeEvent::Directory(de) => match de {
            DirectoryEvent::Create(_) => Ok(handle_directory_create(change_event)),
            DirectoryEvent::Delete(_) => Ok(handle_directory_delete(change_event)),
            DirectoryEvent::Move(_) => Ok(handle_directory_move(change_event)),
            DirectoryEvent::UndoDelete(_) => Err(ErrorKind::Unimplemented),
        },
    }
}

} // verus!
