//! The per-connection session engine.
//!
//! A session drives one connection through greeting, payload loop and
//! termination. The engine here is the decision core: it consumes the
//! frames the transport hands it and yields the frames to send back,
//! together with the next session state. The listener, the sockets and the
//! real disk and database live outside the library; they mirror the change
//! log and content store held here.

use vstd::prelude::*;

use crate::changelog::{ChangeLog, spec_changes_in};
use crate::data::{
    ChangeEvent, DirectoryEvent, ErrorKind, EventV, FileEvent, Frame, FrameV, RecordV, TransV,
    Transmission, clone_bytes, frames_view, records_view,
};
use crate::fs_model::{
    FsModel, NodeV, apply_dir_create, apply_dir_delete, apply_dir_move, apply_file_delete,
    apply_file_move, apply_file_write,
};
use crate::optimize::{optimize_changes, spec_optimize};
use crate::spec_num_packets;
use crate::sync_client_to_server;
use crate::sync_client_to_server::{chunks_view, concat_bytes};
use crate::sync_server_to_client::{handle_server_to_client_change_event, is_undo_event, spec_send_event};

verus! {

/// The server state a session works against: the shared change log and
/// content store.
pub struct SyncServer {
    pub log: ChangeLog,
    pub fs: FsModel,
}

impl SyncServer {
    pub open spec fn wf(&self) -> bool {
        self.log.well_formed() && self.fs.wf()
    }

    pub fn new() -> (r: SyncServer)
        ensures
            r.wf(),
            r.log@ == Seq::<RecordV>::empty(),
            r.fs@ == Map::<Seq<u8>, NodeV>::empty(),
    {
        SyncServer { log: ChangeLog::new(), fs: FsModel::new() }
    }
}

/// View of a sequence of transmissions.
pub open spec fn trans_view(s: Seq<Transmission>) -> Seq<TransV> {
    s.map_values(|t: Transmission| t@)
}

/// The body bytes a frame carries; empty for a message frame.
pub open spec fn frame_body(f: FrameV) -> Seq<u8> {
    match f {
        FrameV::FileBody(b) => b,
        _ => Seq::empty(),
    }
}

/// Frames `[lo, lo + k)` all carry file-body bytes.
pub open spec fn all_bodies(frames: Seq<FrameV>, lo: int, k: int) -> bool {
    forall|j: int| lo <= j < lo + k ==> (#[trigger] frames[j]) is FileBody
}

/// The file body carried by frames `[lo, lo + k)`, concatenated.
pub open spec fn body_of(frames: Seq<FrameV>, lo: int, k: int) -> Seq<u8> {
    concat_bytes(frames.subrange(lo, lo + k).map_values(|f: FrameV| frame_body(f)))
}

// ---------------------------------------------------------------------------
// Client-to-server synchronization
// ---------------------------------------------------------------------------

/// What remains of a sync-up after some events: whether the input was
/// well-formed so far, the state reached, and the acknowledgments sent.
pub struct UpOutcome {
    pub ok: bool,
    pub log: Seq<RecordV>,
    pub fs: Map<Seq<u8>, NodeV>,
    pub outs: Seq<TransV>,
}

/// A sync-up step that fails on a protocol violation: the state so far is
/// kept, nothing more is sent.
pub open spec fn up_fail(log: Seq<RecordV>, fs: Map<Seq<u8>, NodeV>) -> UpOutcome {
    UpOutcome { ok: false, log, fs, outs: Seq::empty() }
}

/// Records one accepted event against the already-updated content store,
/// acknowledges its new version, and goes on with the remaining events.
pub open spec fn up_applied(
    log: Seq<RecordV>,
    fs2: Map<Seq<u8>, NodeV>,
    e: EventV,
    frames: Seq<FrameV>,
    next_pos: int,
    n: nat,
) -> UpOutcome
    decreases n, 1nat,
{
    let v = (log.len() + 1) as u64;
    let rest = spec_sync_up_events(log.push(RecordV { version: v, event: e }), fs2, frames, next_pos, n);
    UpOutcome {
        ok: rest.ok,
        log: rest.log,
        fs: rest.fs,
        outs: seq![TransV::ServerVersion { version: v }] + rest.outs,
    }
}

/// The main sync-up loop: reads `n` change events from the frames starting
/// at `pos`, applies each to the content store, records it in the change
/// log and acknowledges its new version; any frame that is not the expected
/// change event or file body is a protocol violation that stops the loop.
pub open spec fn spec_sync_up_events(
    log: Seq<RecordV>,
    fs: Map<Seq<u8>, NodeV>,
    frames: Seq<FrameV>,
    pos: int,
    n: nat,
) -> UpOutcome
    decreases n, 0nat,
{
    if n == 0 {
        UpOutcome { ok: true, log, fs, outs: Seq::empty() }
    } else if !(0 <= pos < frames.len()) {
        up_fail(log, fs)
    } else {
        match frames[pos] {
            FrameV::Message(TransV::ChangeEvent(e)) => match e {
                EventV::FileCreate { path, size } => {
                    let k = spec_num_packets(size);
                    if pos + 1 + k > frames.len() || !all_bodies(frames, pos + 1, k) {
                        up_fail(log, fs)
                    } else {
                        up_applied(
                            log,
                            apply_file_write(fs, path, body_of(frames, pos + 1, k)),
                            e,
                            frames,
                            pos + 1 + k,
                            (n - 1) as nat,
                        )
                    }
                },
                EventV::FileModify { path, size } => {
                    let k = spec_num_packets(size);
                    if pos + 1 + k > frames.len() || !all_bodies(frames, pos + 1, k) {
                        up_fail(log, fs)
                    } else {
                        up_applied(
                            log,
                            apply_file_write(fs, path, body_of(frames, pos + 1, k)),
                            e,
                            frames,
                            pos + 1 + k,
                            (n - 1) as nat,
                        )
                    }
                },
                EventV::FileDelete { path } => up_applied(
                    log,
                    apply_file_delete(fs, path),
                    e,
                    frames,
                    pos + 1,
                    (n - 1) as nat,
                ),
                EventV::FileMove { from, to } => up_applied(
                    log,
                    apply_file_move(fs, from, to),
                    e,
                    frames,
                    pos + 1,
                    (n - 1) as nat,
                ),
                EventV::DirCreate { path } => up_applied(
                    log,
                    apply_dir_create(fs, path),
                    e,
                    frames,
                    pos + 1,
                    (n - 1) as nat,
                ),
                EventV::DirDelete { path } => up_applied(
                    log,
                    apply_dir_delete(fs, path),
                    e,
                    frames,
                    pos + 1,
                    (n - 1) as nat,
                ),
                EventV::DirMove { from, to } => up_applied(
                    log,
                    apply_dir_move(fs, from, to),
                    e,
                    frames,
                    pos + 1,
                    (n - 1) as nat,
                ),
                _ => up_fail(log, fs),
            },
            _ => up_fail(log, fs),
        }
    }
}

/// Runs the sync-up loop, mirroring `spec_sync_up_events`.
fn sync_up_events(
    server: &mut SyncServer,
    frames: &Vec<Frame>,
    pos: usize,
    n: u64,
    outs: &mut Vec<Transmission>,
) -> (r: bool)
    requires
        old(server).wf(),
        old(server).log@.len() + n <= u64::MAX,
        pos <= frames@.len(),
    ensures
        final(server).wf(),
        ({
            let o = spec_sync_up_events(
                old(server).log@,
                old(server).fs@,
                frames_view(frames@),
                pos as int,
                n as nat,
            );
            r == o.ok && final(server).log@ == o.log && final(server).fs@ == o.fs && trans_view(
                final(outs)@,
            ) == trans_view(old(outs)@) + o.outs
        }),
    decreases n,
{
    let ghost fv = frames_view(frames@);
    let ghost outs0 = trans_view(outs@);
    if n == 0 {
        proof {
            assert(trans_view(outs@) =~= outs0 + Seq::<TransV>::empty());
        }
        return true;
    }
    if pos >= frames.len() {
        proof {
            assert(trans_view(outs@) =~= outs0 + Seq::<TransV>::empty());
        }
        return false;
    }
    proof {
        assert(fv[pos as int] == frames@[pos as int]@);
    }
    let event: ChangeEvent = match &frames[pos] {
        Frame::Message(Transmission::ChangeEvent(e)) => crate::changelog::clone_event(e),
        _ => {
            proof {
                assert(trans_view(outs@) =~= outs0 + Seq::<TransV>::empty());
            }
            return false;
        },
    };
    let next_pos: usize;
    let version: u64;
    match event {
        ChangeEvent::File(FileEvent::Create(fc)) => {
            let k64 = crate::calculate_num_packets(fc.size);
            let avail = (frames.len() - pos - 1) as u64;
            if k64 > avail {
                proof {
                    assert(trans_view(outs@) =~= outs0 + Seq::<TransV>::empty());
                }
                return false;
            }
            let k = k64 as usize;
            let chunks = match gather_chunks(frames, pos + 1, k) {
                Option::Some(c) => c,
                Option::None => {
                    proof {
                        assert(trans_view(outs@) =~= outs0 + Seq::<TransV>::empty());
                    }
                    return false;
                },
            };
            version = sync_client_to_server::handle_file_create(
                &mut server.log,
                &mut server.fs,
                fc,
                &chunks,
            );
            next_pos = pos + 1 + k;
        },
        ChangeEvent::File(FileEvent::Modify(fm)) => {
            let k64 = crate::calculate_num_packets(fm.size);
            let avail = (frames.len() - pos - 1) as u64;
            if k64 > avail {
                proof {
                    assert(trans_view(outs@) =~= outs0 + Seq::<TransV>::empty());
                }
                return false;
            }
            let k = k64 as usize;
            let chunks = match gather_chunks(frames, pos + 1, k) {
                Option::Some(c) => c,
                Option::None => {
                    proof {
                        assert(trans_view(outs@) =~= outs0 + Seq::<TransV>::empty());
                    }
                    return false;
                },
            };
            version = sync_client_to_server::handle_file_modify(
                &mut server.log,
                &mut server.fs,
                fm,
                &chunks,
            );
            next_pos = pos + 1 + k;
        },
        ChangeEvent::File(FileEvent::Delete(fd)) => {
            version = sync_client_to_server::handle_file_delete(&mut server.log, &mut server.fs, fd);
            next_pos = pos + 1;
        },
        ChangeEvent::File(FileEvent::Move(fm)) => {
            version = sync_client_to_server::handle_file_move(&mut server.log, &mut server.fs, fm);
            next_pos = pos + 1;
        },
        ChangeEvent::Directory(DirectoryEvent::Create(dc)) => {
            version = sync_client_to_server::handle_directory_create(
                &mut server.log,
                &mut server.fs,
                dc,
            );
            next_pos = pos + 1;
        },
        ChangeEvent::Directory(DirectoryEvent::Delete(dd)) => {
            version = sync_client_to_server::handle_directory_delete(
                &mut server.log,
                &mut server.fs,
                dd,
            );
            next_pos = pos + 1;
        },
        ChangeEvent::Directory(DirectoryEvent::Move(dm)) => {
            version = sync_client_to_server::handle_directory_move(
                &mut server.log,
                &mut server.fs,
                dm,
            );
            next_pos = pos + 1;
        },
        _ => {
            proof {
                assert(trans_view(outs@) =~= outs0 + Seq::<TransV>::empty());
            }
            return false;
        },
    }
    let ghost outs_mid = trans_view(outs@);
    outs.push(Transmission::ServerVersion { version });
    proof {
        assert(trans_view(outs@) =~= outs_mid.push(TransV::ServerVersion { version }));
    }
    let ghost mid_log = server.log@;
    let ghost mid_fs = server.fs@;
    let r = sync_up_events(server, frames, next_pos, n - 1, outs);
    proof {
        let rest = spec_sync_up_events(mid_log, mid_fs, fv, next_pos as int, (n - 1) as nat);
        assert(outs_mid.push(TransV::ServerVersion { version }) + rest.outs =~= outs0 + (seq![
            TransV::ServerVersion { version },
        ] + rest.outs));
    }
    r
}

/// Collects `k` file-body chunks starting at `lo`; fails when any frame in
/// that range is not a file body.
fn gather_chunks(frames: &Vec<Frame>, lo: usize, k: usize) -> (r: Option<Vec<Vec<u8>>>)
    requires
        lo + k <= frames@.len(),
    ensures
        match r {
            Option::Some(chunks) => all_bodies(frames_view(frames@), lo as int, k as int)
                && chunks_view(chunks@) == frames_view(frames@).subrange(
                lo as int,
                lo + k,
            ).map_values(|f: FrameV| frame_body(f)),
            Option::None => !all_bodies(frames_view(frames@), lo as int, k as int),
        },
{
    let ghost fv = frames_view(frames@);
    let total = frames.len();
    proof {
        assert(total == frames@.len());
    }
    let mut chunks: Vec<Vec<u8>> = Vec::new();
    let mut j: usize = 0;
    proof {
        assert(chunks_view(chunks@) =~= fv.subrange(lo as int, lo as int).map_values(
            |f: FrameV| frame_body(f),
        ));
    }
    while j < k
        invariant
            j <= k,
            frames@.len() <= usize::MAX,
            lo + k <= frames@.len(),
            fv == frames_view(frames@),
            forall|t: int| lo <= t < lo + j ==> (#[trigger] fv[t]) is FileBody,
            chunks_view(chunks@) == fv.subrange(lo as int, lo + j).map_values(
                |f: FrameV| frame_body(f),
            ),
        decreases k - j,
    {
        proof {
            assert(fv[lo + j] == frames@[lo + j]@);
        }
        match &frames[lo + j] {
            Frame::FileBody(b) => {
                let ghost c0 = chunks_view(chunks@);
                chunks.push(clone_bytes(b));
                proof {
                    assert(chunks_view(chunks@) =~= c0.push(b@));
                    assert(fv.subrange(lo as int, lo + j + 1).map_values(
                        |f: FrameV| frame_body(f),
                    ) =~= fv.subrange(lo as int, lo + j).map_values(
                        |f: FrameV| frame_body(f),
                    ).push(frame_body(fv[lo + j])));
                }
            },
            _ => {
                proof {
                    assert(!(fv[lo + j] is FileBody));
                }
                return None;
            },
        }
        j = j + 1;
    }
    Some(chunks)
}

// ---------------------------------------------------------------------------
// The payload handlers
// ---------------------------------------------------------------------------

/// Handles one client-to-server synchronization request.
///
/// When the client's version is not the server's current version, the
/// client is stale: the server answers with a single `ServerVersion` and
/// returns at once, reading no events and changing nothing; the client is
/// expected to sync down first and retry. Otherwise the server sends
/// `Proceed` and runs the main sync-up loop over the frames that follow,
/// acknowledging each accepted event with its newly assigned version. A
/// frame out of protocol stops the loop: the flag comes back false, the
/// events accepted before it stay recorded, and the transmissions already
/// produced — `Proceed` and their acknowledgments — are still handed back
/// to be sent before the session terminates.
pub fn handle_sync_client_to_server(
    server: &mut SyncServer,
    client_version: u64,
    number_of_changes: u64,
    frames: &Vec<Frame>,
) -> (r: (Vec<Transmission>, bool))
    requires
        old(server).wf(),
        old(server).log.spec_current_version() == client_version ==> old(server).log@.len()
            + number_of_changes <= u64::MAX,
    ensures
        final(server).wf(),
        old(server).log.spec_current_version() != client_version ==> final(server).log@ == old(server).log@ && final(server).fs@ == old(server).fs@ && r.1 == true && trans_view(r.0@) == seq![
            TransV::ServerVersion { version: old(server).log.spec_current_version() },
        ],
        old(server).log.spec_current_version() == client_version ==> ({
            let o = spec_sync_up_events(
                old(server).log@,
                old(server).fs@,
                frames_view(frames@),
                0,
                number_of_changes as nat,
            );
            final(server).log@ == o.log && final(server).fs@ == o.fs && r.1 == o.ok && trans_view(
                r.0@,
            ) == seq![TransV::Proceed] + o.outs
        }),
{
    let sv = server.log.current_version();
    if sv != client_version {
        let mut outs: Vec<Transmission> = Vec::new();
        outs.push(Transmission::ServerVersion { version: sv });
        proof {
            assert(trans_view(outs@) =~= seq![TransV::ServerVersion { version: sv }]);
        }
        return (outs, true);
    }
    let mut outs: Vec<Transmission> = Vec::new();
    outs.push(Transmission::Proceed);
    proof {
        assert(trans_view(outs@) =~= seq![TransV::Proceed]);
    }
    let ok = sync_up_events(server, frames, 0, number_of_changes, &mut outs);
    (outs, ok)
}

// ---------------------------------------------------------------------------
// Server-to-client synchronization
// ---------------------------------------------------------------------------

/// What streaming a delta yields: the frames put on the wire, and whether
/// the stream ran to completion. It does not when a reserved undo-delete
/// record is reached: that event is unimplemented and fatal to the session.
pub struct DownOutcome {
    pub ok: bool,
    pub frames: Seq<FrameV>,
}

/// The frames that stream the optimized delta: each event's frames, then
/// the client's new checkpoint, which is the event's own version except
/// after the last event, where it is the server's current version. A
/// reserved undo-delete record stops the stream there, fatally.
pub open spec fn spec_down_events(
    fs: Map<Seq<u8>, NodeV>,
    opt: Seq<RecordV>,
    sv: u64,
) -> DownOutcome
    decreases opt.len(),
{
    if opt.len() == 0 {
        DownOutcome { ok: true, frames: Seq::empty() }
    } else if is_undo_event(opt[0].event) {
        DownOutcome { ok: false, frames: Seq::empty() }
    } else {
        let ack: u64 = if opt.len() == 1 {
            sv
        } else {
            opt[0].version
        };
        let rest = spec_down_events(fs, opt.skip(1), sv);
        DownOutcome {
            ok: rest.ok,
            frames: spec_send_event(fs, opt[0].event) + seq![
                FrameV::Message(TransV::ServerVersion { version: ack }),
            ] + rest.frames,
        }
    }
}

/// The full answer to a server-to-client synchronization request: the
/// records past the client's version, optimized, streamed, and closed with
/// `TransactionComplete`; an empty delta sends the current version alone. A
/// stream stopped at an undo-delete record gets no `TransactionComplete`.
pub open spec fn spec_sync_down(
    log: Seq<RecordV>,
    fs: Map<Seq<u8>, NodeV>,
    client_version: u64,
) -> DownOutcome {
    let sv = log.len() as u64;
    let opt = spec_optimize(spec_changes_in(log, client_version, sv));
    if opt.len() == 0 {
        DownOutcome {
            ok: true,
            frames: seq![
                FrameV::Message(TransV::ServerVersion { version: sv }),
                FrameV::Message(TransV::TransactionComplete),
            ],
        }
    } else {
        let d = spec_down_events(fs, opt, sv);
        if d.ok {
            DownOutcome {
                ok: true,
                frames: d.frames + seq![FrameV::Message(TransV::TransactionComplete)],
            }
        } else {
            d
        }
    }
}

/// Handles one server-to-client synchronization request, mirroring
/// `spec_sync_down`. The flag comes back false when the delta held a
/// reserved undo-delete record: the frames produced before it are still
/// handed back to be sent, and the session then terminates.
pub fn handle_sync_server_to_client(server: &SyncServer, client_version: u64) -> (r: (
    Vec<Frame>,
    bool,
))
    requires
        server.wf(),
    ensures
        ({
            let d = spec_sync_down(server.log@, server.fs@, client_version);
            frames_view(r.0@) == d.frames && r.1 == d.ok
        }),
{
    let sv = server.log.current_version();
    let records = server.log.changes_in(client_version, sv);
    let opt = optimize_changes(records);
    let ghost ov = records_view(opt@);
    let ghost full = spec_down_events(server.fs@, ov, sv);
    let mut out: Vec<Frame> = Vec::new();
    if opt.len() == 0 {
        out.push(Frame::Message(Transmission::ServerVersion { version: sv }));
        out.push(Frame::Message(Transmission::TransactionComplete));
        proof {
            assert(frames_view(out@) =~= spec_sync_down(
                server.log@,
                server.fs@,
                client_version,
            ).frames);
        }
        return (out, true);
    }
    let mut i: usize = 0;
    proof {
        assert(ov.skip(0) =~= ov);
        assert(frames_view(out@) =~= Seq::<FrameV>::empty());
        assert(Seq::<FrameV>::empty() + spec_down_events(server.fs@, ov, sv).frames
            =~= spec_down_events(server.fs@, ov, sv).frames);
    }
    while i < opt.len()
        invariant
            i <= opt@.len(),
            server.wf(),
            ov == records_view(opt@),
            sv == server.log.spec_current_version(),
            ov == spec_optimize(spec_changes_in(server.log@, client_version, sv)),
            ov.len() > 0,
            full == spec_down_events(server.fs@, ov, sv),
            full.ok == spec_down_events(server.fs@, ov.skip(i as int), sv).ok,
            full.frames == frames_view(out@) + spec_down_events(
                server.fs@,
                ov.skip(i as int),
                sv,
            ).frames,
        decreases opt@.len() - i,
    {
        proof {
            assert(ov[i as int] == opt@[i as int]@);
            assert(ov.skip(i as int)[0] == ov[i as int]);
            assert(ov.skip(i as int).skip(1) =~= ov.skip(i + 1));
            assert(ov.skip(i as int).len() == ov.len() - i);
        }
        let ghost out0 = frames_view(out@);
        let mut event_frames = match handle_server_to_client_change_event(
            &server.fs,
            &opt[i].event,
        ) {
            Result::Ok(frames) => frames,
            Result::Err(_) => {
                proof {
                    assert(is_undo_event(ov[i as int].event));
                    assert(spec_down_events(server.fs@, ov.skip(i as int), sv) == (DownOutcome {
                        ok: false,
                        frames: Seq::<FrameV>::empty(),
                    }));
                    assert(full.frames =~= frames_view(out@));
                    assert(spec_sync_down(server.log@, server.fs@, client_version) == (DownOutcome {
                        ok: false,
                        frames: full.frames,
                    }));
                }
                return (out, false);
            },
        };
        let ghost ef = frames_view(event_frames@);
        out.append(&mut event_frames);
        proof {
            assert(frames_view(out@) =~= out0 + ef);
        }
        let ack: u64 = if i == opt.len() - 1 {
            sv
        } else {
            opt[i].version
        };
        let ghost out1 = frames_view(out@);
        out.push(Frame::Message(Transmission::ServerVersion { version: ack }));
        proof {
            assert(frames_view(out@) =~= out1.push(
                FrameV::Message(TransV::ServerVersion { version: ack }),
            ));
            assert(frames_view(out@) =~= out0 + (spec_send_event(server.fs@, ov[i as int].event)
                + seq![FrameV::Message(TransV::ServerVersion { version: ack })]));
            assert(full.frames =~= frames_view(out@) + spec_down_events(
                server.fs@,
                ov.skip(i + 1),
                sv,
            ).frames);
        }
        i = i + 1;
    }
    proof {
        assert(ov.skip(ov.len() as int) =~= Seq::<RecordV>::empty());
        assert(full.frames =~= frames_view(out@));
    }
    let ghost out2 = frames_view(out@);
    out.push(Frame::Message(Transmission::TransactionComplete));
    proof {
        assert(frames_view(out@) =~= out2.push(FrameV::Message(TransV::TransactionComplete)));
        assert(frames_view(out@) =~= spec_sync_down(
            server.log@,
            server.fs@,
            client_version,
        ).frames);
    }
    (out, true)
}

/// Answers a version request with the current server version.
pub fn handle_server_version(server: &SyncServer) -> (r: Transmission)
    ensures
        r == (Transmission::ServerVersion { version: server.log.spec_current_version() }),
{
    Transmission::ServerVersion { version: server.log.current_version() }
}

// ---------------------------------------------------------------------------
// The session state machine
// ---------------------------------------------------------------------------

/// Where a session stands: waiting for the greeting, in the payload loop,
/// or done.
#[derive(Debug, Clone, Copy, PartialEq, Eq, Structural)]
pub enum SessionState {
    AwaitGreeting,
    PayloadLoop,
    Terminated,
}

/// Answers a greeting. The greeting's version is carried but not yet
/// negotiated; every greeting is answered with `Proceed`.
pub fn greet(_greeting_version: u64) -> (r: Transmission)
    ensures
        r == Transmission::Proceed,
{
    Transmission::Proceed
}

/// What one payload-loop dispatch produced: whether the client asked to end
/// the connection, the frames to send — on a fatal error still those
/// produced before it — and the error when the dispatch was fatal.
pub struct PayloadResult {
    pub end: bool,
    pub frames: Vec<Frame>,
    pub error: Option<ErrorKind>,
}

/// Dispatches one payload-loop transmission. Sync requests consume the
/// extra frames that follow them. A transmission out of protocol, and a
/// reserved undo-delete event in either direction, is an error that
/// terminates the session; the frames produced before the error are still
/// handed back to be sent.
pub fn receive_payload(
    server: &mut SyncServer,
    payload: Transmission,
    extra: &Vec<Frame>,
) -> (r: PayloadResult)
    requires
        old(server).wf(),
        match payload@ {
            TransV::SyncClientToServer { client_version, number_of_changes } => old(server).log.spec_current_version() == client_version ==> old(server).log@.len()
                + number_of_changes <= u64::MAX,
            _ => true,
        },
    ensures
        final(server).wf(),
        match payload@ {
            TransV::SyncClientToServer { client_version, number_of_changes } => {
                if old(server).log.spec_current_version() != client_version {
                    final(server).log@ == old(server).log@ && final(server).fs@ == old(server).fs@
                        && r.end == false && r.error is None && frames_view(r.frames@) == seq![
                        FrameV::Message(
                            TransV::ServerVersion {
                                version: old(server).log.spec_current_version(),
                            },
                        ),
                    ]
                } else {
                    let o = spec_sync_up_events(
                        old(server).log@,
                        old(server).fs@,
                        frames_view(extra@),
                        0,
                        number_of_changes as nat,
                    );
                    final(server).log@ == o.log && final(server).fs@ == o.fs && r.end == false
                        && frames_view(r.frames@) == seq![FrameV::Message(TransV::Proceed)]
                        + o.outs.map_values(|t: TransV| FrameV::Message(t)) && (o.ok ==> r.error
                        is None) && (!o.ok ==> r.error == Some(ErrorKind::ProtocolViolation))
                }
            },
            TransV::SyncServerToClient { client_version } => final(server).log@ == old(server).log@ && final(server).fs@ == old(server).fs@ && ({
                let d = spec_sync_down(old(server).log@, old(server).fs@, client_version);
                r.end == false && frames_view(r.frames@) == d.frames && (d.ok ==> r.error is None)
                    && (!d.ok ==> r.error == Some(ErrorKind::Unimplemented))
            }),
            TransV::ServerVersionRequest => final(server).log@ == old(server).log@ && final(server).fs@ == old(server).fs@ && r.end == false && r.error is None && frames_view(
                r.frames@,
            ) == seq![
                FrameV::Message(
                    TransV::ServerVersion { version: old(server).log.spec_current_version() },
                ),
            ],
            TransV::EndConnection => final(server).log@ == old(server).log@ && final(server).fs@
                == old(server).fs@ && r.end == true && r.error is None && r.frames@.len() == 0,
            _ => final(server).log@ == old(server).log@ && final(server).fs@ == old(server).fs@
                && r.error == Some(ErrorKind::ProtocolViolation) && r.frames@.len() == 0,
        },
{
    match payload {
        Transmission::SyncClientToServer { client_version, number_of_changes } => {
            let (outs, ok) = handle_sync_client_to_server(
                server,
                client_version,
                number_of_changes,
                extra,
            );
            let frames = wrap_messages(outs);
            let error = if ok {
                None
            } else {
                Some(ErrorKind::ProtocolViolation)
            };
            proof {
                if old(server).log.spec_current_version() != client_version {
                    assert(frames_view(frames@) =~= seq![
                        FrameV::Message(
                            TransV::ServerVersion {
                                version: old(server).log.spec_current_version(),
                            },
                        ),
                    ]);
                } else {
                    let o = spec_sync_up_events(
                        old(server).log@,
                        old(server).fs@,
                        frames_view(extra@),
                        0,
                        number_of_changes as nat,
                    );
                    assert((seq![TransV::Proceed] + o.outs).map_values(
                        |t: TransV| FrameV::Message(t),
                    ) =~= seq![FrameV::Message(TransV::Proceed)] + o.outs.map_values(
                        |t: TransV| FrameV::Message(t),
                    ));
                }
            }
            PayloadResult { end: false, frames, error }
        },
        Transmission::SyncServerToClient { client_version } => {
            let (frames, ok) = handle_sync_server_to_client(server, client_version);
            let error = if ok {
                None
            } else {
                Some(ErrorKind::Unimplemented)
            };
            PayloadResult { end: false, frames, error }
        },
        Transmission::ServerVersionRequest => {
            let mut frames: Vec<Frame> = Vec::new();
            frames.push(Frame::Message(handle_server_version(server)));
            proof {
                assert(frames_view(frames@) =~= seq![
                    FrameV::Message(
                        TransV::ServerVersion { version: server.log.spec_current_version() },
                    ),
                ]);
            }
            PayloadResult { end: false, frames, error: None }
        },
        Transmission::EndConnection => PayloadResult {
            end: true,
            frames: Vec::new(),
            error: None,
        },
        _ => PayloadResult {
            end: false,
            frames: Vec::new(),
            error: Some(ErrorKind::ProtocolViolation),
        },
    }
}

/// Wraps acknowledgment transmissions as message frames.
#[verifier::loop_isolation(false)]
fn wrap_messages(outs: Vec<Transmission>) -> (r: Vec<Frame>)
    ensures
        frames_view(r@) == trans_view(outs@).map_values(|t: TransV| FrameV::Message(t)),
{
    let ghost tv = trans_view(outs@);
    let mut outs = outs;
    let total = outs.len();
    let mut frames: Vec<Frame> = Vec::new();
    let mut i: usize = 0;
    proof {
        assert(frames_view(frames@) =~= tv.take(0).map_values(|t: TransV| FrameV::Message(t)));
    }
    loop
        invariant
            outs@.len() + i == tv.len(),
            tv.skip(i as int) == trans_view(outs@),
            frames_view(frames@) == tv.take(i as int).map_values(|t: TransV| FrameV::Message(t)),
        decreases outs@.len(),
    {
        if outs.len() == 0 {
            proof {
                assert(tv.take(i as int) =~= tv);
            }
            return frames;
        }
        let ghost f0 = frames_view(frames@);
        let ghost rest0 = trans_view(outs@);
        let ghost before = outs@;
        let t = outs.remove(0);
        proof {
            before.remove_ensures(0);
            rest0.remove_ensures(0);
            assert(trans_view(outs@) =~= rest0.remove(0));
        }
        frames.push(Frame::Message(t));
        proof {
            assert(t@ == rest0[0]);
            assert(t@ == tv[i as int]);
            assert(frames_view(frames@) =~= f0.push(FrameV::Message(tv[i as int])));
            assert(tv.take(i + 1 as int).map_values(|x: TransV| FrameV::Message(x)) =~= tv.take(
                i as int,
            ).map_values(|x: TransV| FrameV::Message(x)).push(FrameV::Message(tv[i as int])));
            assert(tv.skip(i + 1 as int) =~= rest0.remove(0));
        }
        i = i + 1;
    }
}

/// One step of the session state machine: consumes one transmission (and,
/// for sync requests, the extra frames that follow it) and yields the next
/// state and the frames to send. A greeting is answered with `Proceed` and
/// opens the payload loop; anything else before the greeting, and anything
/// out of protocol inside the loop, terminates the session — the frames
/// produced before the error are still sent.
pub fn session_step(
    state: SessionState,
    server: &mut SyncServer,
    input: Transmission,
    extra: &Vec<Frame>,
) -> (r: (SessionState, Vec<Frame>))
    requires
        old(server).wf(),
        match input@ {
            TransV::SyncClientToServer { client_version, number_of_changes } => (state
                == SessionState::PayloadLoop && old(server).log.spec_current_version()
                == client_version) ==> old(server).log@.len() + number_of_changes <= u64::MAX,
            _ => true,
        },
    ensures
        final(server).wf(),
        state == SessionState::Terminated ==> r.0 == SessionState::Terminated && r.1@.len() == 0
            && final(server).log@ == old(server).log@ && final(server).fs@ == old(server).fs@,
        state == SessionState::AwaitGreeting ==> final(server).log@ == old(server).log@ && final(server).fs@ == old(server).fs@ && (match input@ {
            TransV::Greeting { .. } => r.0 == SessionState::PayloadLoop && frames_view(r.1@)
                == seq![FrameV::Message(TransV::Proceed)],
            _ => r.0 == SessionState::Terminated && r.1@.len() == 0,
        }),
        state == SessionState::PayloadLoop ==> (match input@ {
            TransV::EndConnection => r.0 == SessionState::Terminated && r.1@.len() == 0 && final(server).log@ == old(server).log@ && final(server).fs@ == old(server).fs@,
            TransV::Greeting { .. } | TransV::Proceed | TransV::SkipCurrent
                | TransV::TransactionComplete | TransV::ServerVersion { .. }
                | TransV::ChangeEvent(_) | TransV::Other | TransV::Error(_) => r.0
                == SessionState::Terminated && r.1@.len() == 0 && final(server).log@ == old(server).log@ && final(server).fs@ == old(server).fs@,
            TransV::ServerVersionRequest => r.0 == SessionState::PayloadLoop && frames_view(r.1@)
                == seq![
                FrameV::Message(
                    TransV::ServerVersion { version: old(server).log.spec_current_version() },
                ),
            ] && final(server).log@ == old(server).log@ && final(server).fs@ == old(server).fs@,
            TransV::SyncServerToClient { client_version } => final(server).log@ == old(server).log@ && final(server).fs@ == old(server).fs@ && ({
                let d = spec_sync_down(old(server).log@, old(server).fs@, client_version);
                frames_view(r.1@) == d.frames && (d.ok ==> r.0 == SessionState::PayloadLoop) && (
                !d.ok ==> r.0 == SessionState::Terminated)
            }),
            TransV::SyncClientToServer { client_version, number_of_changes } => {
                if old(server).log.spec_current_version() != client_version {
                    r.0 == SessionState::PayloadLoop && final(server).log@ == old(server).log@
                        && final(server).fs@ == old(server).fs@ && frames_view(r.1@) == seq![
                        FrameV::Message(
                            TransV::ServerVersion {
                                version: old(server).log.spec_current_version(),
                            },
                        ),
                    ]
                } else {
                    let o = spec_sync_up_events(
                        old(server).log@,
                        old(server).fs@,
                        frames_view(extra@),
                        0,
                        number_of_changes as nat,
                    );
                    final(server).log@ == o.log && final(server).fs@ == o.fs && frames_view(r.1@)
                        == seq![FrameV::Message(TransV::Proceed)] + o.outs.map_values(
                        |t: TransV| FrameV::Message(t),
                    ) && (o.ok ==> r.0 == SessionState::PayloadLoop) && (!o.ok ==> r.0
                        == SessionState::Terminated)
                }
            },
        }),
{
    match state {
        SessionState::Terminated => (SessionState::Terminated, Vec::new()),
        SessionState::AwaitGreeting => match input {
            Transmission::Greeting { version } => {
                let mut frames: Vec<Frame> = Vec::new();
                frames.push(Frame::Message(greet(version)));
                proof {
                    assert(frames_view(frames@) =~= seq![FrameV::Message(TransV::Proceed)]);
                }
                (SessionState::PayloadLoop, frames)
            },
            _ => (SessionState::Terminated, Vec::new()),
        },
        SessionState::PayloadLoop => {
            let result = receive_payload(server, input, extra);
            let next = if result.error.is_some() || result.end {
                SessionState::Terminated
            } else {
                SessionState::PayloadLoop
            };
            (next, result.frames)
        },
    }
}

// ---------------------------------------------------------------------------
// The sync round trip
// ---------------------------------------------------------------------------

/// What one accepted change event does to the content store, given the file
/// body that accompanies it (empty for events without one).
pub open spec fn apply_event_model(
    fs: Map<Seq<u8>, NodeV>,
    e: EventV,
    body: Seq<u8>,
) -> Map<Seq<u8>, NodeV> {
    match e {
        EventV::FileCreate { path, .. } => apply_file_write(fs, path, body),
        EventV::FileModify { path, .. } => apply_file_write(fs, path, body),
        EventV::FileDelete { path } => apply_file_delete(fs, path),
        EventV::FileMove { from, to } => apply_file_move(fs, from, to),
        EventV::DirCreate { path } => apply_dir_create(fs, path),
        EventV::DirDelete { path } => apply_dir_delete(fs, path),
        EventV::DirMove { from, to } => apply_dir_move(fs, from, to),
        _ => fs,
    }
}

/// The sync round trip for one change event.
///
/// A client in sync pushes event `e` with its body frames; the server
/// accepts it, records it at the next version and acknowledges it. A
/// sync-down from the client's old version then selects exactly that
/// record, its optimized form is the record itself, and a mirror that
/// equalled the server's old content store reaches the server's new content
/// store by replaying the event with the same body.
pub proof fn lemma_sync_round_trip(
    log: Seq<RecordV>,
    fs: Map<Seq<u8>, NodeV>,
    frames: Seq<FrameV>,
    e: EventV,
)
    requires
        forall|i: int| 0 <= i < log.len() ==> (#[trigger] log[i].version) == i + 1,
        log.len() < u64::MAX,
        frames.len() >= 1,
        frames[0] == FrameV::Message(TransV::ChangeEvent(e)),
        !(e is FileUndoDelete),
        !(e is DirUndoDelete),
        e matches EventV::FileCreate { size, .. } ==> frames.len() == 1 + spec_num_packets(size)
            && all_bodies(frames, 1, spec_num_packets(size)),
        e matches EventV::FileModify { size, .. } ==> frames.len() == 1 + spec_num_packets(size)
            && all_bodies(frames, 1, spec_num_packets(size)),
        !(e is FileCreate) && !(e is FileModify) ==> frames.len() == 1,
    ensures
        ({
            let v = (log.len() + 1) as u64;
            let o = spec_sync_up_events(log, fs, frames, 0, 1);
            let record = RecordV { version: v, event: e };
            o.ok && o.log == log.push(record) && o.outs == seq![
                TransV::ServerVersion { version: v },
            ] && o.fs == apply_event_model(fs, e, body_of(frames, 1, frames.len() - 1))
                && spec_changes_in(o.log, log.len() as u64, (log.len() + 1) as u64) == seq![record]
                && spec_optimize(seq![record]) == seq![record]
        }),
{
    let v = (log.len() + 1) as u64;
    let record = RecordV { version: v, event: e };
    let o = spec_sync_up_events(log, fs, frames, 0, 1);
    match e {
        EventV::FileCreate { path, size } => {
            let k = spec_num_packets(size);
            let fs2 = apply_file_write(fs, path, body_of(frames, 1, k));
            let log2 = log.push(record);
            assert(spec_sync_up_events(log2, fs2, frames, 1 + k, 0nat) == (UpOutcome {
                ok: true,
                log: log2,
                fs: fs2,
                outs: Seq::<TransV>::empty(),
            }));
            assert(o == up_applied(log, fs2, e, frames, 1 + k, 0));
            assert(o.outs =~= seq![TransV::ServerVersion { version: v }]);
        },
        EventV::FileModify { path, size } => {
            let k = spec_num_packets(size);
            let fs2 = apply_file_write(fs, path, body_of(frames, 1, k));
            let log2 = log.push(record);
            assert(spec_sync_up_events(log2, fs2, frames, 1 + k, 0nat) == (UpOutcome {
                ok: true,
                log: log2,
                fs: fs2,
                outs: Seq::<TransV>::empty(),
            }));
            assert(o == up_applied(log, fs2, e, frames, 1 + k, 0));
            assert(o.outs =~= seq![TransV::ServerVersion { version: v }]);
        },
        _ => {
            assert(frames.len() == 1);
            let fs2 = apply_event_model(fs, e, body_of(frames, 1, 0));
            let log2 = log.push(record);
            assert(spec_sync_up_events(log2, fs2, frames, 1, 0nat) == (UpOutcome {
                ok: true,
                log: log2,
                fs: fs2,
                outs: Seq::<TransV>::empty(),
            }));
            assert(o == up_applied(log, fs2, e, frames, 1, 0));
            assert(o.outs =~= seq![TransV::ServerVersion { version: v }]);
            assert(body_of(frames, 1, 0) =~= concat_bytes(
                frames.subrange(1, 1).map_values(|f: FrameV| frame_body(f)),
            ));
            assert(frames.subrange(1, 1).map_values(|f: FrameV| frame_body(f))
                =~= Seq::<Seq<u8>>::empty());
        },
    }
    crate::changelog::lemma_changes_in_push(log, record);
    crate::optimize::lemma_optimize_singleton(record);
}

} // verus!
