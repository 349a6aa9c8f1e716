//! Change-log store model.
//!
//! The change log persists change events keyed by server version. Versions
//! are assigned in insertion order, starting at 1, so the record at index
//! `i` carries version `i + 1` and the current version equals the number of
//! records. `changes_in(cv, sv)` answers "give me every record with version
//! in `(cv, sv]`", in ascending version order.

use vstd::prelude::*;

use crate::data::{
    ChangeEvent, ChangeRecord, DirectoryCreate, DirectoryDelete, DirectoryEvent, DirectoryMove,
    DirectoryUndoDelete, FileCreate, FileDelete, FileEvent, FileModify, FileMove, FileUndoDelete,
    RecordV, clone_bytes, records_view,
};

verus! {

/// Every record with version in `(cv, sv]`, in log order.
pub open spec fn spec_changes_in(log: Seq<RecordV>, cv: u64, sv: u64) -> Seq<RecordV>
    decreases log.len(),
{
    if log.len() == 0 {
        Seq::empty()
    } else {
        let rest = spec_changes_in(log.drop_last(), cv, sv);
        let r = log.last();
        if cv < r.version && r.version <= sv {
            rest.push(r)
        } else {
            rest
        }
    }
}

/// Deep copy of a change event.
pub fn clone_event(e: &ChangeEvent) -> (r: ChangeEvent)
    ensures
        r@ == e@,
{
    match e {
        ChangeEvent::File(fe) => ChangeEvent::File(
            match fe {
                FileEvent::Create(p) => FileEvent::Create(
                    FileCreate { path: clone_bytes(&p.path), size: p.size },
                ),
                FileEvent::Delete(p) => FileEvent::Delete(
                    FileDelete { path: clone_bytes(&p.path) },
                ),
                FileEvent::Modify(p) => FileEvent::Modify(
                    FileModify { path: clone_bytes(&p.path), size: p.size },
                ),
                FileEvent::Move(p) => FileEvent::Move(
                    FileMove {
                        from_path: clone_bytes(&p.from_path),
                        to_path: clone_bytes(&p.to_path),
                    },
                ),
                FileEvent::UndoDelete(p) => FileEvent::UndoDelete(
                    FileUndoDelete { path: clone_bytes(&p.path) },
                ),
            },
        ),
        ChangeEvent::Directory(de) => ChangeEvent::Directory(
            match de {
                DirectoryEvent::Create(p) => DirectoryEvent::Create(
                    DirectoryCreate { path: clone_bytes(&p.path) },
                ),
                DirectoryEvent::Delete(p) => DirectoryEvent::Delete(
                    DirectoryDelete { path: clone_bytes(&p.path) },
                ),
                DirectoryEvent::Move(p) => DirectoryEvent::Move(
                    DirectoryMove {
                        from_path: clone_bytes(&p.from_path),
                        to_path: clone_bytes(&p.to_path),
                    },
                ),
                DirectoryEvent::UndoDelete(p) => DirectoryEvent::UndoDelete(
                    DirectoryUndoDelete { path: clone_bytes(&p.path) },
                ),
            },
        ),
    }
}

/// Deep copy of a change record.
pub fn clone_record(r: &ChangeRecord) -> (out: ChangeRecord)
    ensures
        out@ == r@,
{
    ChangeRecord { version: r.version, event: clone_event(&r.event) }
}

/// The ordered change log. The authoritative record of every mutation the
/// server has accepted.
pub struct ChangeLog {
    records: Vec<ChangeRecord>,
}

impl View for ChangeLog {
    type V = Seq<RecordV>;

    closed spec fn view(&self) -> Seq<RecordV> {
        records_view(self.records@)
    }
}

impl ChangeLog {
    /// Versions are dense: the record at index `i` carries version `i + 1`.
    pub open spec fn well_formed(&self) -> bool {
        forall|i: int| 0 <= i < self@.len() ==> #[trigger] self@[i].version == i + 1
    }

    /// Highest version inserted so far; 0 when the log is empty.
    pub open spec fn spec_current_version(&self) -> u64 {
        self@.len() as u64
    }

    pub fn new() -> (r: ChangeLog)
        ensures
            r@ == Seq::<RecordV>::empty(),
            r.well_formed(),
            r.spec_current_version() == 0,
    {
        let r = ChangeLog { records: Vec::new() };
        proof {
            assert(r@ =~= Seq::<RecordV>::empty());
        }
        r
    }

    pub fn current_version(&self) -> (r: u64)
        ensures
            r == self.spec_current_version(),
            r as nat == self@.len(),
    {
        self.records.len() as u64
    }

    /// Appends a record, atomically assigning the next version, which it
    /// returns. Each successful insert raises the current version by exactly
    /// one, so the current version always counts the inserts performed since
    /// the log was empty.
    pub fn insert(&mut self, event: ChangeEvent) -> (r: u64)
        requires
            old(self).well_formed(),
            old(self).spec_current_version() < u64::MAX,
        ensures
            final(self).well_formed(),
            r == old(self).spec_current_version() + 1,
            final(self).spec_current_version() == old(self).spec_current_version() + 1,
            final(self)@ == old(self)@.push(RecordV { version: r, event: event@ }),
    {
        let ghost ev = event@;
        let version = self.records.len() as u64 + 1;
        self.records.push(ChangeRecord { version, event });
        proof {
            assert(self@ =~= old(self)@.push(RecordV { version, event: ev }));
        }
        version
    }

    /// Every record with version in `(client_version, server_version]`,
    /// in ascending version order.
    pub fn changes_in(&self, client_version: u64, server_version: u64) -> (r: Vec<ChangeRecord>)
        ensures
            records_view(r@) == spec_changes_in(self@, client_version, server_version),
    {
        let mut out: Vec<ChangeRecord> = Vec::new();
        let mut i: usize = 0;
        while i < self.records.len()
            invariant
                i <= self.records@.len(),
                self@.len() == self.records@.len(),
                records_view(out@) == spec_changes_in(
                    self@.take(i as int),
                    client_version,
                    server_version,
                ),
            decreases self.records@.len() - i,
        {
            proof {
                assert(self@.take(i + 1 as int).drop_last() =~= self@.take(i as int));
                assert(self@.take(i + 1 as int).last() == self@[i as int]);
            }
            let ghost out0 = out@;
            let rec = &self.records[i];
            if client_version < rec.version && rec.version <= server_version {
                out.push(clone_record(rec));
                proof {
                    assert(records_view(out@) =~= records_view(out0).push(self@[i as int]));
                }
            }
            i = i + 1;
        }
        proof {
            assert(self@.take(self@.len() as int) =~= self@);
        }
        out
    }
}

/// Exactly one record carries each version `v` with `1 <= v <= current`:
/// the record at index `v - 1`, and no other.
pub proof fn lemma_exactly_one_record_per_version(log: &ChangeLog, v: u64)
    requires
        log.well_formed(),
        1 <= v <= log.spec_current_version(),
    ensures
        log@[v - 1].version == v,
        forall|i: int, j: int|
            0 <= i < log@.len() && 0 <= j < log@.len() && #[trigger] log@[i].version
                == #[trigger] log@[j].version ==> i == j,
{
}

/// The current version counts the records, hence the successful inserts
/// performed since the log was empty: `new` starts both at zero and every
/// `insert` raises both by exactly one.
pub proof fn lemma_current_version_counts_inserts(log: &ChangeLog)
    requires
        log.well_formed(),
    ensures
        log.spec_current_version() as nat == log@.len(),
{
    if log@.len() > 0 {
        assert(log@[log@.len() - 1].version == log@.len());
    }
}

/// A window above every version in the log selects nothing.
pub proof fn lemma_changes_in_none(log: Seq<RecordV>, cv: u64, sv: u64)
    requires
        forall|i: int| 0 <= i < log.len() ==> (#[trigger] log[i].version) <= cv,
    ensures
        spec_changes_in(log, cv, sv) == Seq::<RecordV>::empty(),
    decreases log.len(),
{
    if log.len() > 0 {
        assert(forall|i: int|
            0 <= i < log.len() - 1 ==> (#[trigger] log.drop_last()[i]) == log[i]);
        lemma_changes_in_none(log.drop_last(), cv, sv);
        assert(log.last() == log[log.len() - 1]);
    }
}

/// After one record is appended, the window from the old current version to
/// the new one selects exactly that record.
pub proof fn lemma_changes_in_push(log: Seq<RecordV>, r: RecordV)
    requires
        forall|i: int| 0 <= i < log.len() ==> (#[trigger] log[i].version) == i + 1,
        log.len() < u64::MAX,
        r.version == log.len() + 1,
    ensures
        spec_changes_in(log.push(r), log.len() as u64, (log.len() + 1) as u64) == seq![r],
{
    let log2 = log.push(r);
    assert(log2.drop_last() =~= log);
    assert(log2.last() == r);
    lemma_changes_in_none(log, log.len() as u64, (log.len() + 1) as u64);
    assert(spec_changes_in(log2, log.len() as u64, (log.len() + 1) as u64) =~= seq![r]);
}

} // verus!
