//! Wire data model: change events, transmissions, and their mathematical
//! views.
//!
//! A change event is one atomic filesystem mutation. Events tag first into
//! `File` or `Directory`, then into create / delete / modify / move /
//! undo-delete (undo-delete is reserved and unimplemented). A transmission is
//! the top-level framed wire message. Paths are byte strings relative to the
//! storage root.

use vstd::prelude::*;

verus! {

// ---------------------------------------------------------------------------
// Event payloads
// ---------------------------------------------------------------------------

#[derive(Debug, Clone, PartialEq, Eq)]
pub struct FileCreate {
    pub path: Vec<u8>,
    pub size: u64,
}

#[derive(Debug, Clone, PartialEq, Eq)]
pub struct FileModify {
    pub path: Vec<u8>,
    pub size: u64,
}

#[derive(Debug, Clone, PartialEq, Eq)]
pub struct FileDelete {
    pub path: Vec<u8>,
}

#[derive(Debug, Clone, PartialEq, Eq)]
pub struct FileMove {
    pub from_path: Vec<u8>,
    pub to_path: Vec<u8>,
}

#[derive(Debug, Clone, PartialEq, Eq)]
pub struct FileUndoDelete {
    pub path: Vec<u8>,
}

#[derive(Debug, Clone, PartialEq, Eq)]
pub struct DirectoryCreate {
    pub path: Vec<u8>,
}

#[derive(Debug, Clone, PartialEq, Eq)]
pub struct DirectoryDelete {
    pub path: Vec<u8>,
}

#[derive(Debug, Clone, PartialEq, Eq)]
pub struct DirectoryMove {
    pub from_path: Vec<u8>,
    pub to_path: Vec<u8>,
}

#[derive(Debug, Clone, PartialEq, Eq)]
pub struct DirectoryUndoDelete {
    pub path: Vec<u8>,
}

#[derive(Debug, Clone, PartialEq, Eq)]
pub enum FileEvent {
    Create(FileCreate),
    Delete(FileDelete),
    Modify(FileModify),
    Move(FileMove),
    UndoDelete(FileUndoDelete),
}

#[derive(Debug, Clone, PartialEq, Eq)]
pub enum DirectoryEvent {
    Create(DirectoryCreate),
    Delete(DirectoryDelete),
    Move(DirectoryMove),
    UndoDelete(DirectoryUndoDelete),
}

#[derive(Debug, Clone, PartialEq, Eq)]
pub enum ChangeEvent {
    File(FileEvent),
    Directory(DirectoryEvent),
}

impl FileCreate {
    pub fn new(path: Vec<u8>, size: u64) -> (r: FileCreate)
        ensures
            r.path@ == path@ && r.size == size,
    {
        FileCreate { path, size }
    }

    pub fn path(&self) -> (r: &Vec<u8>)
        ensures
            r@ == self.path@,
    {
        &self.path
    }

    pub fn size(&self) -> (r: u64)
        ensures
            r == self.size,
    {
        self.size
    }

    pub fn set_size(&mut self, size: u64)
        ensures
            final(self).size == size && final(self).path@ == old(self).path@,
    {
        self.size = size;
    }
}

impl FileModify {
    pub fn new(path: Vec<u8>, size: u64) -> (r: FileModify)
        ensures
            r.path@ == path@ && r.size == size,
    {
        FileModify { path, size }
    }

    pub fn path(&self) -> (r: &Vec<u8>)
        ensures
            r@ == self.path@,
    {
        &self.path
    }

    pub fn size(&self) -> (r: u64)
        ensures
            r == self.size,
    {
        self.size
    }

    pub fn set_size(&mut self, size: u64)
        ensures
            final(self).size == size && final(self).path@ == old(self).path@,
    {
        self.size = size;
    }
}

impl FileDelete {
    pub fn new(path: Vec<u8>) -> (r: FileDelete)
        ensures
            r.path@ == path@,
    {
        FileDelete { path }
    }

    pub fn path(&self) -> (r: &Vec<u8>)
        ensures
            r@ == self.path@,
    {
        &self.path
    }
}

impl FileMove {
    pub fn new(from_path: Vec<u8>, to_path: Vec<u8>) -> (r: FileMove)
        ensures
            r.from_path@ == from_path@ && r.to_path@ == to_path@,
    {
        FileMove { from_path, to_path }
    }

    pub fn from_path(&self) -> (r: &Vec<u8>)
        ensures
            r@ == self.from_path@,
    {
        &self.from_path
    }

    pub fn to_path(&self) -> (r: &Vec<u8>)
        ensures
            r@ == self.to_path@,
    {
        &self.to_path
    }
}

impl DirectoryCreate {
    pub fn new(path: Vec<u8>) -> (r: DirectoryCreate)
        ensures
            r.path@ == path@,
    {
        DirectoryCreate { path }
    }

    pub fn path(&self) -> (r: &Vec<u8>)
        ensures
            r@ == self.path@,
    {
        &self.path
    }
}

impl DirectoryDelete {
    pub fn new(path: Vec<u8>) -> (r: DirectoryDelete)
        ensures
            r.path@ == path@,
    {
        DirectoryDelete { path }
    }

    pub fn path(&self) -> (r: &Vec<u8>)
        ensures
            r@ == self.path@,
    {
        &self.path
    }
}

impl DirectoryMove {
    pub fn new(from_path: Vec<u8>, to_path: Vec<u8>) -> (r: DirectoryMove)
        ensures
            r.from_path@ == from_path@ && r.to_path@ == to_path@,
    {
        DirectoryMove { from_path, to_path }
    }

    pub fn from_path(&self) -> (r: &Vec<u8>)
        ensures
            r@ == self.from_path@,
    {
        &self.from_path
    }

    pub fn to_path(&self) -> (r: &Vec<u8>)
        ensures
            r@ == self.to_path@,
    {
        &self.to_path
    }
}

// ---------------------------------------------------------------------------
// Mathematical view of an event
// ---------------------------------------------------------------------------

/// Spec-level value of a change event: one flat case per concrete mutation,
/// with paths as byte sequences.
pub enum EventV {
    FileCreate { path: Seq<u8>, size: u64 },
    FileModify { path: Seq<u8>, size: u64 },
    FileDelete { path: Seq<u8> },
    FileMove { from: Seq<u8>, to: Seq<u8> },
    FileUndoDelete { path: Seq<u8> },
    DirCreate { path: Seq<u8> },
    DirDelete { path: Seq<u8> },
    DirMove { from: Seq<u8>, to: Seq<u8> },
    DirUndoDelete { path: Seq<u8> },
}

impl View for ChangeEvent {
    type V = EventV;

    open spec fn view(&self) -> EventV {
        match self {
            ChangeEvent::File(fe) => match fe {
                FileEvent::Create(p) => EventV::FileCreate { path: p.path@, size: p.size },
                FileEvent::Delete(p) => EventV::FileDelete { path: p.path@ },
                FileEvent::Modify(p) => EventV::FileModify { path: p.path@, size: p.size },
                FileEvent::Move(p) => EventV::FileMove { from: p.from_path@, to: p.to_path@ },
                FileEvent::UndoDelete(p) => EventV::FileUndoDelete { path: p.path@ },
            },
            ChangeEvent::Directory(de) => match de {
                DirectoryEvent::Create(p) => EventV::DirCreate { path: p.path@ },
                DirectoryEvent::Delete(p) => EventV::DirDelete { path: p.path@ },
                DirectoryEvent::Move(p) => EventV::DirMove { from: p.from_path@, to: p.to_path@ },
                DirectoryEvent::UndoDelete(p) => EventV::DirUndoDelete { path: p.path@ },
            },
        }
    }
}

// ---------------------------------------------------------------------------
// Change records
// ---------------------------------------------------------------------------

/// A persisted `(version, event)` pair of the change log.
#[derive(Debug, Clone, PartialEq, Eq)]
pub struct ChangeRecord {
    pub version: u64,
    pub event: ChangeEvent,
}

/// Spec-level value of a change record.
pub struct RecordV {
    pub version: u64,
    pub event: EventV,
}

impl View for ChangeRecord {
    type V = RecordV;

    open spec fn view(&self) -> RecordV {
        RecordV { version: self.version, event: self.event@ }
    }
}

/// View of a sequence of change records.
pub open spec fn records_view(s: Seq<ChangeRecord>) -> Seq<RecordV> {
    s.map_values(|r: ChangeRecord| r@)
}

// ---------------------------------------------------------------------------
// Transmissions
// ---------------------------------------------------------------------------

/// Error kinds a transmission can carry back to a peer.
#[derive(Debug, Clone, Copy, PartialEq, Eq)]
pub enum ErrorKind {
    ProtocolViolation,
    StorageFailure,
    Unimplemented,
}

/// The top-level wire message.
#[derive(Debug, Clone, PartialEq, Eq)]
pub enum Transmission {
    Greeting { version: u64 },
    Proceed,
    SkipCurrent,
    TransactionComplete,
    EndConnection,
    ServerVersion { version: u64 },
    SyncClientToServer { client_version: u64, number_of_changes: u64 },
    SyncServerToClient { client_version: u64 },
    ChangeEvent(ChangeEvent),
    ServerVersionRequest,
    Other,
    Error(ErrorKind),
}

/// Spec-level value of a transmission.
pub enum TransV {
    Greeting { version: u64 },
    Proceed,
    SkipCurrent,
    TransactionComplete,
    EndConnection,
    ServerVersion { version: u64 },
    SyncClientToServer { client_version: u64, number_of_changes: u64 },
    SyncServerToClient { client_version: u64 },
    ChangeEvent(EventV),
    ServerVersionRequest,
    Other,
    Error(ErrorKind),
}

impl View for Transmission {
    type V = TransV;

    open spec fn view(&self) -> TransV {
        match self {
            Transmission::Greeting { version } => TransV::Greeting { version: *version },
            Transmission::Proceed => TransV::Proceed,
            Transmission::SkipCurrent => TransV::SkipCurrent,
            Transmission::TransactionComplete => TransV::TransactionComplete,
            Transmission::EndConnection => TransV::EndConnection,
            Transmission::ServerVersion { version } => TransV::ServerVersion { version: *version },
            Transmission::SyncClientToServer { client_version, number_of_changes } => {
                TransV::SyncClientToServer {
                    client_version: *client_version,
                    number_of_changes: *number_of_changes,
                }
            },
            Transmission::SyncServerToClient { client_version } => {
                TransV::SyncServerToClient { client_version: *client_version }
            },
            Transmission::ChangeEvent(e) => TransV::ChangeEvent(e@),
            Transmission::ServerVersionRequest => TransV::ServerVersionRequest,
            Transmission::Other => TransV::Other,
            Transmission::Error(k) => TransV::Error(*k),
        }
    }
}

// ---------------------------------------------------------------------------
// Frames
// ---------------------------------------------------------------------------

/// One framed chunk on the wire: the encoding of a transmission, or a raw
/// slice of a file body that follows a file create or modify.
#[derive(Debug, Clone, PartialEq, Eq)]
pub enum Frame {
    Message(Transmission),
    FileBody(Vec<u8>),
}

/// Spec-level value of a frame.
pub enum FrameV {
    Message(TransV),
    FileBody(Seq<u8>),
}

impl View for Frame {
    type V = FrameV;

    open spec fn view(&self) -> FrameV {
        match self {
            Frame::Message(t) => FrameV::Message(t@),
            Frame::FileBody(b) => FrameV::FileBody(b@),
        }
    }
}

/// View of a sequence of frames.
pub open spec fn frames_view(s: Seq<Frame>) -> Seq<FrameV> {
    s.map_values(|f: Frame| f@)
}

// ---------------------------------------------------------------------------
// Byte-string helpers shared by the library
// ---------------------------------------------------------------------------

/// Copy of a byte string.
pub fn clone_bytes(v: &Vec<u8>) -> (r: Vec<u8>)
    ensures
        r@ == v@,
{
    let mut out: Vec<u8> = Vec::new();
    let mut i: usize = 0;
    while i < v.len()
        invariant
            i <= v.len(),
            out@ == v@.take(i as int),
        decreases v.len() - i,
    {
        out.push(v[i]);
        proof {
            assert(v@.take(i + 1 as int) == v@.take(i as int).push(v@[i as int]));
        }
        i = i + 1;
    }
    proof {
        assert(v@.take(v@.len() as int) == v@);
    }
    out
}

/// Whether two byte strings hold the same bytes.
pub fn bytes_eq(a: &Vec<u8>, b: &Vec<u8>) -> (r: bool)
    ensures
        r == (a@ == b@),
{
    if a.len() != b.len() {
        proof {
            assert(a@.len() != b@.len());
        }
        return false;
    }
    let mut i: usize = 0;
    while i < a.len()
        invariant
            i <= a.len(),
            a@.len() == b@.len(),
            forall|j: int| 0 <= j < i ==> a@[j] == b@[j],
        decreases a.len() - i,
    {
        if a[i] != b[i] {
            return false;
        }
        i = i + 1;
    }
    proof {
        assert(a@ =~= b@);
    }
    true
}

} // verus!
