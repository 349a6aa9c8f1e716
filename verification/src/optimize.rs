//! Change-event optimizer.
//!
//! Collapses an ordered sequence of `(version, event)` records into an
//! equivalent shorter sequence before it is streamed to a client. Working
//! left to right, each incoming event is coalesced with the most recent
//! surviving event that touches the same path, when one of the rules below
//! applies and no intervening survivor touches a related path:
//!
//! - create then delete of the same path cancel each other;
//! - create then modify keep a single create with the final size;
//! - modify then modify keep only the last;
//! - create or modify followed by a move of that path become a create or
//!   modify of the destination;
//! - two chained moves become one move, and a move chain that returns to its
//!   origin disappears;
//! - a directory delete cancels the surviving events strictly inside the
//!   directory that follow its create, then cancels the create itself.
//!
//! A coalesced event keeps the version of the last input event that
//! contributed to it. Passes are repeated until no rule fires, so the result
//! is a fixed point: optimizing twice returns the same sequence as
//! optimizing once.

use vstd::prelude::*;

use crate::data::{
    ChangeEvent, ChangeRecord, DirectoryCreate, DirectoryEvent, DirectoryMove, EventV, FileCreate,
    FileEvent, FileModify, FileMove, RecordV, bytes_eq, clone_bytes, records_view,
};
use crate::changelog::clone_record;

verus! {

/// Path separator byte.
pub const SEPARATOR: u8 = 47;

// ---------------------------------------------------------------------------
// Path and event relations
// ---------------------------------------------------------------------------

/// `p` names something strictly inside directory `d`.
pub open spec fn strictly_inside(p: Seq<u8>, d: Seq<u8>) -> bool {
    p.len() > d.len() && p.subrange(0, d.len() as int) == d && p[d.len() as int] == SEPARATOR
}

/// `q` and `p` name the same path or one lies strictly inside the other.
pub open spec fn path_related(q: Seq<u8>, p: Seq<u8>) -> bool {
    q == p || strictly_inside(q, p) || strictly_inside(p, q)
}

/// First path an event names.
pub open spec fn first_path(e: EventV) -> Seq<u8> {
    match e {
        EventV::FileCreate { path, .. } => path,
        EventV::FileModify { path, .. } => path,
        EventV::FileDelete { path } => path,
        EventV::FileMove { from, .. } => from,
        EventV::FileUndoDelete { path } => path,
        EventV::DirCreate { path } => path,
        EventV::DirDelete { path } => path,
        EventV::DirMove { from, .. } => from,
        EventV::DirUndoDelete { path } => path,
    }
}

/// Second path an event names; for single-path events, the first again.
pub open spec fn second_path(e: EventV) -> Seq<u8> {
    match e {
        EventV::FileMove { to, .. } => to,
        EventV::DirMove { to, .. } => to,
        _ => first_path(e),
    }
}

/// The event names exactly path `p`.
pub open spec fn touches(e: EventV, p: Seq<u8>) -> bool {
    first_path(e) == p || second_path(e) == p
}

/// The event names a path related to `p`.
pub open spec fn related(e: EventV, p: Seq<u8>) -> bool {
    path_related(first_path(e), p) || path_related(second_path(e), p)
}

/// The event names a path related to a path of event `y`.
pub open spec fn related_to_event(e: EventV, y: EventV) -> bool {
    related(e, first_path(y)) || related(e, second_path(y))
}

/// Every path of the event lies strictly inside directory `d`.
pub open spec fn all_inside(e: EventV, d: Seq<u8>) -> bool {
    strictly_inside(first_path(e), d) && strictly_inside(second_path(e), d)
}

// ---------------------------------------------------------------------------
// Coalescing rules
// ---------------------------------------------------------------------------

/// The path an incoming event is coalesced on, when any rule can apply to it.
pub open spec fn subject(e: EventV) -> Option<Seq<u8>> {
    match e {
        EventV::FileModify { path, .. } => Some(path),
        EventV::FileDelete { path } => Some(path),
        EventV::FileMove { from, .. } => Some(from),
        EventV::DirDelete { path } => Some(path),
        EventV::DirMove { from, .. } => Some(from),
        _ => None,
    }
}

/// Outcome of holding an incoming event against the most recent survivor on
/// its subject path.
pub enum MergeStep {
    /// A rule rewrote the two events into one; it replaces both.
    Merged(EventV),
    /// The two events cancel; both disappear.
    Cancel,
    /// A directory delete met the directory's create: the create, the delete
    /// and the survivors strictly inside the directory all disappear.
    CancelInside,
    /// No rule applies; the incoming event is kept as it is.
    Keep,
}

/// The coalescing rules, as a function of the most recent survivor `c` on
/// the incoming event's subject path and the incoming event `a`.
pub open spec fn try_merge(c: EventV, a: EventV) -> MergeStep {
    match a {
        EventV::FileModify { path: p, size: s } => match c {
            EventV::FileCreate { path: cp, .. } => if cp == p {
                MergeStep::Merged(EventV::FileCreate { path: p, size: s })
            } else {
                MergeStep::Keep
            },
            EventV::FileModify { path: cp, .. } => if cp == p {
                MergeStep::Merged(EventV::FileModify { path: p, size: s })
            } else {
                MergeStep::Keep
            },
            _ => MergeStep::Keep,
        },
        EventV::FileDelete { path: p } => match c {
            EventV::FileCreate { path: cp, .. } => if cp == p {
                MergeStep::Cancel
            } else {
                MergeStep::Keep
            },
            _ => MergeStep::Keep,
        },
        EventV::FileMove { from: p, to: q } => match c {
            EventV::FileCreate { path: cp, size: s } => if cp == p {
                MergeStep::Merged(EventV::FileCreate { path: q, size: s })
            } else {
                MergeStep::Keep
            },
            EventV::FileModify { path: cp, size: s } => if cp == p {
                MergeStep::Merged(EventV::FileModify { path: q, size: s })
            } else {
                MergeStep::Keep
            },
            EventV::FileMove { from: x, to: y } => if y == p {
                if x == q {
                    MergeStep::Cancel
                } else {
                    MergeStep::Merged(EventV::FileMove { from: x, to: q })
                }
            } else {
                MergeStep::Keep
            },
            _ => MergeStep::Keep,
        },
        EventV::DirDelete { path: p } => match c {
            EventV::DirCreate { path: cp } => if cp == p {
                MergeStep::CancelInside
            } else {
                MergeStep::Keep
            },
            _ => MergeStep::Keep,
        },
        EventV::DirMove { from: p, to: q } => match c {
            EventV::DirCreate { path: cp } => if cp == p {
                MergeStep::Merged(EventV::DirCreate { path: q })
            } else {
                MergeStep::Keep
            },
            EventV::DirMove { from: x, to: y } => if y == p {
                if x == q {
                    MergeStep::Cancel
                } else {
                    MergeStep::Merged(EventV::DirMove { from: x, to: q })
                }
            } else {
                MergeStep::Keep
            },
            _ => MergeStep::Keep,
        },
        _ => MergeStep::Keep,
    }
}

// ---------------------------------------------------------------------------
// One pass
// ---------------------------------------------------------------------------

/// Index of the most recent survivor touching `p`; -1 when none does.
pub open spec fn find_candidate(s: Seq<RecordV>, p: Seq<u8>) -> int
    decreases s.len(),
{
    if s.len() == 0 {
        -1
    } else if touches(s.last().event, p) {
        s.len() - 1
    } else {
        find_candidate(s.drop_last(), p)
    }
}

/// A survivor after position `i` touches a path related to the candidate
/// `c` or to the incoming event `a`: coalescing across it is not attempted.
pub open spec fn blocked(s: Seq<RecordV>, i: int, c: EventV, a: EventV) -> bool {
    exists|j: int|
        i < j < s.len() && (related_to_event(#[trigger] s[j].event, c) || related_to_event(
            s[j].event,
            a,
        ))
}

/// A survivor after position `i` is related to directory `d` without lying
/// wholly inside it: the directory delete cannot cancel across it.
pub open spec fn dir_delete_blocked(s: Seq<RecordV>, i: int, d: Seq<u8>) -> bool {
    exists|j: int|
        i < j < s.len() && related(#[trigger] s[j].event, d) && !all_inside(s[j].event, d)
}

/// The records whose events do not lie wholly inside directory `d`.
pub open spec fn drop_inside(s: Seq<RecordV>, d: Seq<u8>) -> Seq<RecordV>
    decreases s.len(),
{
    if s.len() == 0 {
        Seq::empty()
    } else {
        let rest = drop_inside(s.drop_last(), d);
        if all_inside(s.last().event, d) {
            rest
        } else {
            rest.push(s.last())
        }
    }
}

/// Inserts one incoming record into the survivors: coalesces it with the
/// most recent survivor on its subject path when a rule applies and no
/// related survivor stands between, and appends it otherwise. A coalesced
/// event keeps the incoming record's version and joins the survivors as the
/// most recent one.
pub open spec fn spec_insert(s: Seq<RecordV>, r: RecordV) -> Seq<RecordV>
    decreases s.len(),
    via spec_insert_decreases
{
    match subject(r.event) {
        Option::None => s.push(r),
        Option::Some(p) => {
            let i = find_candidate(s, p);
            if i < 0 {
                s.push(r)
            } else {
                let c = s[i].event;
                match try_merge(c, r.event) {
                    MergeStep::Keep => s.push(r),
                    MergeStep::Merged(m) => if blocked(s, i, c, r.event) {
                        s.push(r)
                    } else {
                        spec_insert(s.remove(i), RecordV { version: r.version, event: m })
                    },
                    MergeStep::Cancel => if blocked(s, i, c, r.event) {
                        s.push(r)
                    } else {
                        s.remove(i)
                    },
                    MergeStep::CancelInside => if dir_delete_blocked(s, i, p) {
                        s.push(r)
                    } else {
                        s.take(i) + drop_inside(s.skip(i + 1), p)
                    },
                }
            }
        },
    }
}

/// The candidate index lies in `[-1, s.len())`.
pub proof fn lemma_find_candidate_bounds(s: Seq<RecordV>, p: Seq<u8>)
    ensures
        -1 <= find_candidate(s, p) < s.len(),
    decreases s.len(),
{
    if s.len() > 0 && !touches(s.last().event, p) {
        lemma_find_candidate_bounds(s.drop_last(), p);
    }
}

#[via_fn]
proof fn spec_insert_decreases(s: Seq<RecordV>, r: RecordV) {
    match subject(r.event) {
        Option::None => {},
        Option::Some(p) => {
            lemma_find_candidate_bounds(s, p);
            let i = find_candidate(s, p);
            if 0 <= i < s.len() {
                s.remove_ensures(i);
            }
        },
    }
}

/// One left-to-right pass over the input records.
pub open spec fn spec_pass(xs: Seq<RecordV>) -> Seq<RecordV>
    decreases xs.len(),
{
    if xs.len() == 0 {
        Seq::empty()
    } else {
        spec_insert(spec_pass(xs.drop_last()), xs.last())
    }
}

// ---------------------------------------------------------------------------
// Fixed point
// ---------------------------------------------------------------------------

proof fn lemma_drop_inside_len(s: Seq<RecordV>, d: Seq<u8>)
    ensures
        drop_inside(s, d).len() <= s.len(),
    decreases s.len(),
{
    if s.len() > 0 {
        lemma_drop_inside_len(s.drop_last(), d);
    }
}

/// Inserting one record grows the survivors by at most one, and grows them
/// by exactly one only by appending the record unchanged.
proof fn lemma_insert_len(s: Seq<RecordV>, r: RecordV)
    ensures
        spec_insert(s, r).len() <= s.len() + 1,
        spec_insert(s, r).len() == s.len() + 1 ==> spec_insert(s, r) == s.push(r),
    decreases s.len(),
{
    match subject(r.event) {
        Option::None => {},
        Option::Some(p) => {
            lemma_find_candidate_bounds(s, p);
            let i = find_candidate(s, p);
            if i >= 0 {
                s.remove_ensures(i);
                let c = s[i].event;
                match try_merge(c, r.event) {
                    MergeStep::Keep => {},
                    MergeStep::Merged(m) => {
                        if !blocked(s, i, c, r.event) {
                            lemma_insert_len(s.remove(i), RecordV { version: r.version, event: m });
                        }
                    },
                    MergeStep::Cancel => {},
                    MergeStep::CancelInside => {
                        if !dir_delete_blocked(s, i, p) {
                            lemma_drop_inside_len(s.skip(i + 1), p);
                        }
                    },
                }
            }
        },
    }
}

/// A pass never lengthens the sequence, and a pass that does not shorten it
/// returns it unchanged.
pub proof fn lemma_pass_len(xs: Seq<RecordV>)
    ensures
        spec_pass(xs).len() <= xs.len(),
        spec_pass(xs).len() == xs.len() ==> spec_pass(xs) == xs,
    decreases xs.len(),
{
    if xs.len() > 0 {
        lemma_pass_len(xs.drop_last());
        lemma_insert_len(spec_pass(xs.drop_last()), xs.last());
        if spec_pass(xs).len() == xs.len() {
            assert(spec_pass(xs.drop_last()) == xs.drop_last());
            assert(xs.drop_last().push(xs.last()) =~= xs);
        }
    }
}

/// The optimized form of an ordered record sequence: passes are applied
/// until one changes nothing.
pub open spec fn spec_optimize(xs: Seq<RecordV>) -> Seq<RecordV>
    decreases xs.len(),
    via spec_optimize_decreases
{
    if spec_pass(xs).len() == xs.len() {
        xs
    } else {
        spec_optimize(spec_pass(xs))
    }
}

#[via_fn]
proof fn spec_optimize_decreases(xs: Seq<RecordV>) {
    lemma_pass_len(xs);
}

/// The optimized sequence is a fixed point of the pass.
pub proof fn lemma_optimize_fixed_point(xs: Seq<RecordV>)
    ensures
        spec_pass(spec_optimize(xs)) == spec_optimize(xs),
    decreases xs.len(),
{
    lemma_pass_len(xs);
    if spec_pass(xs).len() == xs.len() {
        assert(spec_pass(xs) == xs);
    } else {
        lemma_optimize_fixed_point(spec_pass(xs));
    }
}

/// Optimizing is idempotent: a second optimization changes nothing.
pub proof fn lemma_optimize_idempotent(xs: Seq<RecordV>)
    ensures
        spec_optimize(spec_optimize(xs)) == spec_optimize(xs),
{
    lemma_optimize_fixed_point(xs);
}

/// A delta of one record is already optimal: optimizing it returns it
/// unchanged.
pub proof fn lemma_optimize_singleton(r: RecordV)
    ensures
        spec_optimize(seq![r]) == seq![r],
{
    let xs = seq![r];
    assert(xs.drop_last() =~= Seq::<RecordV>::empty());
    assert(xs.last() == r);
    assert(spec_pass(Seq::<RecordV>::empty()) =~= Seq::<RecordV>::empty());
    assert(find_candidate(Seq::<RecordV>::empty(), first_path(r.event)) == -1);
    assert(spec_insert(Seq::<RecordV>::empty(), r) =~= xs) by {
        match subject(r.event) {
            Option::None => {},
            Option::Some(p) => {
                assert(find_candidate(Seq::<RecordV>::empty(), p) == -1);
            },
        }
    }
    assert(spec_pass(xs) == xs);
}

// ---------------------------------------------------------------------------
// Executable path and event relations
// ---------------------------------------------------------------------------

/// Whether `p` names something strictly inside directory `d`.
pub fn is_strictly_inside(p: &Vec<u8>, d: &Vec<u8>) -> (r: bool)
    ensures
        r == strictly_inside(p@, d@),
{
    if p.len() <= d.len() {
        return false;
    }
    let mut i: usize = 0;
    while i < d.len()
        invariant
            i <= d.len(),
            d@.len() < p@.len(),
            forall|j: int| 0 <= j < i ==> p@[j] == d@[j],
        decreases d.len() - i,
    {
        if p[i] != d[i] {
            proof {
                assert(p@.subrange(0, d@.len() as int)[i as int] == p@[i as int]);
            }
            return false;
        }
        i = i + 1;
    }
    proof {
        assert(p@.subrange(0, d@.len() as int) =~= d@);
    }
    p[d.len()] == SEPARATOR
}

/// Whether `q` and `p` are the same path or one lies strictly inside the
/// other.
pub fn paths_related(q: &Vec<u8>, p: &Vec<u8>) -> (r: bool)
    ensures
        r == path_related(q@, p@),
{
    bytes_eq(q, p) || is_strictly_inside(q, p) || is_strictly_inside(p, q)
}

/// First path the event names.
pub fn first_path_of<'a>(e: &'a ChangeEvent) -> (r: &'a Vec<u8>)
    ensures
        r@ == first_path(e@),
{
    match e {
        ChangeEvent::File(fe) => match fe {
            FileEvent::Create(x) => &x.path,
            FileEvent::Delete(x) => &x.path,
            FileEvent::Modify(x) => &x.path,
            FileEvent::Move(x) => &x.from_path,
            FileEvent::UndoDelete(x) => &x.path,
        },
        ChangeEvent::Directory(de) => match de {
            DirectoryEvent::Create(x) => &x.path,
            DirectoryEvent::Delete(x) => &x.path,
            DirectoryEvent::Move(x) => &x.from_path,
            DirectoryEvent::UndoDelete(x) => &x.path,
        },
    }
}

/// Second path the event names; for single-path events, the first again.
pub fn second_path_of<'a>(e: &'a ChangeEvent) -> (r: &'a Vec<u8>)
    ensures
        r@ == second_path(e@),
{
    match e {
        ChangeEvent::File(FileEvent::Move(x)) => &x.to_path,
        ChangeEvent::Directory(DirectoryEvent::Move(x)) => &x.to_path,
        _ => first_path_of(e),
    }
}

/// Whether the event names exactly path `p`.
pub fn touches_path(e: &ChangeEvent, p: &Vec<u8>) -> (r: bool)
    ensures
        r == touches(e@, p@),
{
    bytes_eq(first_path_of(e), p) || bytes_eq(second_path_of(e), p)
}

/// Whether the event names a path related to `p`.
pub fn related_to_path(e: &ChangeEvent, p: &Vec<u8>) -> (r: bool)
    ensures
        r == related(e@, p@),
{
    paths_related(first_path_of(e), p) || paths_related(second_path_of(e), p)
}

/// Whether the event names a path related to a path of event `y`.
pub fn related_to(e: &ChangeEvent, y: &ChangeEvent) -> (r: bool)
    ensures
        r == related_to_event(e@, y@),
{
    related_to_path(e, first_path_of(y)) || related_to_path(e, second_path_of(y))
}

/// Whether every path of the event lies strictly inside directory `d`.
pub fn event_all_inside(e: &ChangeEvent, d: &Vec<u8>) -> (r: bool)
    ensures
        r == all_inside(e@, d@),
{
    is_strictly_inside(first_path_of(e), d) && is_strictly_inside(second_path_of(e), d)
}

// ---------------------------------------------------------------------------
// Executable optimizer
// ---------------------------------------------------------------------------

proof fn lemma_records_view_remove(s: Seq<ChangeRecord>, i: int)
    requires
        0 <= i < s.len(),
    ensures
        records_view(s.remove(i)) == records_view(s).remove(i),
{
    s.remove_ensures(i);
    records_view(s).remove_ensures(i);
    assert(records_view(s.remove(i)) =~= records_view(s).remove(i));
}

/// The incoming event's subject path, when any rule can apply to it.
fn subject_of(e: &ChangeEvent) -> (r: Option<Vec<u8>>)
    ensures
        match r {
            Option::Some(p) => subject(e@) == Option::Some(p@),
            Option::None => subject(e@) is None,
        },
{
    match e {
        ChangeEvent::File(FileEvent::Modify(x)) => Some(clone_bytes(&x.path)),
        ChangeEvent::File(FileEvent::Delete(x)) => Some(clone_bytes(&x.path)),
        ChangeEvent::File(FileEvent::Move(x)) => Some(clone_bytes(&x.from_path)),
        ChangeEvent::Directory(DirectoryEvent::Delete(x)) => Some(clone_bytes(&x.path)),
        ChangeEvent::Directory(DirectoryEvent::Move(x)) => Some(clone_bytes(&x.from_path)),
        _ => None,
    }
}

/// Index of the most recent survivor touching `p`, when one does.
fn find_candidate_index(s: &Vec<ChangeRecord>, p: &Vec<u8>) -> (r: Option<usize>)
    ensures
        match r {
            Option::Some(i) => i < s@.len() && find_candidate(records_view(s@), p@) == i as int,
            Option::None => find_candidate(records_view(s@), p@) == -1,
        },
{
    let ghost sv = records_view(s@);
    let mut k: usize = s.len();
    proof {
        assert(sv.take(k as int) =~= sv);
    }
    while k > 0
        invariant
            k <= s@.len(),
            sv == records_view(s@),
            find_candidate(sv, p@) == find_candidate(sv.take(k as int), p@),
        decreases k,
    {
        proof {
            assert(sv.take(k as int).drop_last() =~= sv.take(k - 1 as int));
            assert(sv.take(k as int).last() == sv[k - 1 as int]);
        }
        if touches_path(&s[k - 1].event, p) {
            return Some(k - 1);
        }
        k = k - 1;
    }
    proof {
        assert(sv.take(0) =~= Seq::<RecordV>::empty());
    }
    None
}

/// Executable outcome of the coalescing rules.
enum MergeOutcome {
    Merged(ChangeEvent),
    Cancel,
    CancelInside,
    Keep,
}

impl View for MergeOutcome {
    type V = MergeStep;

    closed spec fn view(&self) -> MergeStep {
        match self {
            MergeOutcome::Merged(e) => MergeStep::Merged(e@),
            MergeOutcome::Cancel => MergeStep::Cancel,
            MergeOutcome::CancelInside => MergeStep::CancelInside,
            MergeOutcome::Keep => MergeStep::Keep,
        }
    }
}

/// The coalescing rules on concrete events.
fn merge_events(c: &ChangeEvent, a: &ChangeEvent) -> (r: MergeOutcome)
    ensures
        r@ == try_merge(c@, a@),
{
    match a {
        ChangeEvent::File(FileEvent::Modify(am)) => match c {
            ChangeEvent::File(FileEvent::Create(cm)) => if bytes_eq(&cm.path, &am.path) {
                MergeOutcome::Merged(
                    ChangeEvent::File(
                        FileEvent::Create(FileCreate { path: clone_bytes(&am.path), size: am.size }),
                    ),
                )
            } else {
                MergeOutcome::Keep
            },
            ChangeEvent::File(FileEvent::Modify(cm)) => if bytes_eq(&cm.path, &am.path) {
                MergeOutcome::Merged(
                    ChangeEvent::File(
                        FileEvent::Modify(FileModify { path: clone_bytes(&am.path), size: am.size }),
                    ),
                )
            } else {
                MergeOutcome::Keep
            },
            _ => MergeOutcome::Keep,
        },
        ChangeEvent::File(FileEvent::Delete(ad)) => match c {
            ChangeEvent::File(FileEvent::Create(cm)) => if bytes_eq(&cm.path, &ad.path) {
                MergeOutcome::Cancel
            } else {
                MergeOutcome::Keep
            },
            _ => MergeOutcome::Keep,
        },
        ChangeEvent::File(FileEvent::Move(mv)) => match c {
            ChangeEvent::File(FileEvent::Create(cm)) => if bytes_eq(&cm.path, &mv.from_path) {
                MergeOutcome::Merged(
                    ChangeEvent::File(
                        FileEvent::Create(
                            FileCreate { path: clone_bytes(&mv.to_path), size: cm.size },
                        ),
                    ),
                )
            } else {
                MergeOutcome::Keep
            },
            ChangeEvent::File(FileEvent::Modify(cm)) => if bytes_eq(&cm.path, &mv.from_path) {
                MergeOutcome::Merged(
                    ChangeEvent::File(
                        FileEvent::Modify(
                            FileModify { path: clone_bytes(&mv.to_path), size: cm.size },
                        ),
                    ),
                )
            } else {
                MergeOutcome::Keep
            },
            ChangeEvent::File(FileEvent::Move(cv)) => if bytes_eq(&cv.to_path, &mv.from_path) {
                if bytes_eq(&cv.from_path, &mv.to_path) {
                    MergeOutcome::Cancel
                } else {
                    MergeOutcome::Merged(
                        ChangeEvent::File(
                            FileEvent::Move(
                                FileMove {
                                    from_path: clone_bytes(&cv.from_path),
                                    to_path: clone_bytes(&mv.to_path),
                                },
                            ),
                        ),
                    )
                }
            } else {
                MergeOutcome::Keep
            },
            _ => MergeOutcome::Keep,
        },
        ChangeEvent::Directory(DirectoryEvent::Delete(ad)) => match c {
            ChangeEvent::Directory(DirectoryEvent::Create(cm)) => if bytes_eq(&cm.path, &ad.path) {
                MergeOutcome::CancelInside
            } else {
                MergeOutcome::Keep
            },
            _ => MergeOutcome::Keep,
        },
        ChangeEvent::Directory(DirectoryEvent::Move(mv)) => match c {
            ChangeEvent::Directory(DirectoryEvent::Create(cm)) => if bytes_eq(
                &cm.path,
                &mv.from_path,
            ) {
                MergeOutcome::Merged(
                    ChangeEvent::Directory(
                        DirectoryEvent::Create(DirectoryCreate { path: clone_bytes(&mv.to_path) }),
                    ),
                )
            } else {
                MergeOutcome::Keep
            },
            ChangeEvent::Directory(DirectoryEvent::Move(cv)) => if bytes_eq(
                &cv.to_path,
                &mv.from_path,
            ) {
                if bytes_eq(&cv.from_path, &mv.to_path) {
                    MergeOutcome::Cancel
                } else {
                    MergeOutcome::Merged(
                        ChangeEvent::Directory(
                            DirectoryEvent::Move(
                                DirectoryMove {
                                    from_path: clone_bytes(&cv.from_path),
                                    to_path: clone_bytes(&mv.to_path),
                                },
                            ),
                        ),
                    )
                }
            } else {
                MergeOutcome::Keep
            },
            _ => MergeOutcome::Keep,
        },
        _ => MergeOutcome::Keep,
    }
}

/// Whether a survivor after position `i` keeps the incoming event `a` from
/// coalescing with the candidate at `i`.
fn blocked_after(s: &Vec<ChangeRecord>, i: usize, a: &ChangeEvent) -> (r: bool)
    requires
        i < s@.len(),
    ensures
        r == blocked(records_view(s@), i as int, records_view(s@)[i as int].event, a@),
{
    let ghost sv = records_view(s@);
    let n = s.len();
    let mut j: usize = i + 1;
    while j < n
        invariant
            n == s@.len(),
            i < j <= s@.len(),
            sv == records_view(s@),
            forall|j0: int|
                i < j0 < j ==> !related_to_event(#[trigger] sv[j0].event, sv[i as int].event)
                    && !related_to_event(sv[j0].event, a@),
        decreases s@.len() - j,
    {
        if related_to(&s[j].event, &s[i].event) || related_to(&s[j].event, a) {
            proof {
                assert(sv.len() == s@.len());
                let j0 = j as int;
                assert(sv[j0] == s@[j0]@);
                assert(sv[i as int] == s@[i as int]@);
                assert(sv[j0].event == s@[j0].event@);
                assert(sv[i as int].event == s@[i as int].event@);
                assert(related_to_event(sv[j0].event, sv[i as int].event) || related_to_event(
                    sv[j0].event,
                    a@,
                ));
                assert(blocked(sv, i as int, sv[i as int].event, a@));
            }
            return true;
        }
        j = j + 1;
    }
    false
}

/// Whether a survivor after position `i` keeps a directory delete of `d`
/// from cancelling back to the directory's create at `i`.
fn dir_delete_blocked_after(s: &Vec<ChangeRecord>, i: usize, d: &Vec<u8>) -> (r: bool)
    requires
        i < s@.len(),
    ensures
        r == dir_delete_blocked(records_view(s@), i as int, d@),
{
    let ghost sv = records_view(s@);
    let n = s.len();
    let mut j: usize = i + 1;
    while j < n
        invariant
            n == s@.len(),
            i < j <= s@.len(),
            sv == records_view(s@),
            forall|j0: int|
                i < j0 < j ==> !(related(#[trigger] sv[j0].event, d@) && !all_inside(
                    sv[j0].event,
                    d@,
                )),
        decreases s@.len() - j,
    {
        if related_to_path(&s[j].event, d) && !event_all_inside(&s[j].event, d) {
            proof {
                assert(sv.len() == s@.len());
                let j0 = j as int;
                assert(sv[j0] == s@[j0]@);
                assert(sv[j0].event == s@[j0].event@);
                assert(related(sv[j0].event, d@) && !all_inside(sv[j0].event, d@));
                assert(dir_delete_blocked(sv, i as int, d@));
            }
            return true;
        }
        j = j + 1;
    }
    false
}

/// Appends `r` to `s`, with the view of the result pinned.
fn push_record(s: Vec<ChangeRecord>, r: ChangeRecord) -> (out: Vec<ChangeRecord>)
    ensures
        records_view(out@) == records_view(s@).push(r@),
{
    let ghost sv = records_view(s@);
    let ghost rv = r@;
    let mut s = s;
    s.push(r);
    proof {
        assert(records_view(s@) =~= sv.push(rv));
    }
    s
}

/// Inserts one incoming record into the survivors, coalescing by the rules.
fn optimize_insert(s: Vec<ChangeRecord>, r: ChangeRecord) -> (out: Vec<ChangeRecord>)
    ensures
        records_view(out@) == spec_insert(records_view(s@), r@),
    decreases s@.len(),
{
    let ghost sv = records_view(s@);
    let subj = subject_of(&r.event);
    let p = match subj {
        Option::Some(p) => p,
        Option::None => {
            return push_record(s, r);
        },
    };
    let i = match find_candidate_index(&s, &p) {
        Option::Some(i) => i,
        Option::None => {
            return push_record(s, r);
        },
    };
    let step = merge_events(&s[i].event, &r.event);
    match step {
        MergeOutcome::Keep => push_record(s, r),
        MergeOutcome::Merged(m) => {
            if blocked_after(&s, i, &r.event) {
                push_record(s, r)
            } else {
                let version = r.version;
                let mut s = s;
                let ghost before = s@;
                s.remove(i);
                proof {
                    lemma_records_view_remove(before, i as int);
                }
                optimize_insert(s, ChangeRecord { version, event: m })
            }
        },
        MergeOutcome::Cancel => {
            if blocked_after(&s, i, &r.event) {
                push_record(s, r)
            } else {
                let mut s = s;
                let ghost before = s@;
                s.remove(i);
                proof {
                    lemma_records_view_remove(before, i as int);
                }
                s
            }
        },
        MergeOutcome::CancelInside => {
            if dir_delete_blocked_after(&s, i, &p) {
                push_record(s, r)
            } else {
                let mut out: Vec<ChangeRecord> = Vec::new();
                let mut k: usize = 0;
                while k < i
                    invariant
                        k <= i < s@.len(),
                        sv == records_view(s@),
                        records_view(out@) == sv.take(k as int),
                    decreases i - k,
                {
                    let ghost out0 = records_view(out@);
                    out.push(clone_record(&s[k]));
                    proof {
                        assert(records_view(out@) =~= out0.push(sv[k as int]));
                        assert(sv.take(k + 1 as int) =~= sv.take(k as int).push(sv[k as int]));
                    }
                    k = k + 1;
                }
                let ghost tail = sv.skip(i + 1 as int);
                let mut j: usize = i + 1;
                while j < s.len()
                    invariant
                        i < j <= s@.len(),
                        sv == records_view(s@),
                        tail == sv.skip(i + 1 as int),
                        subject(r@.event) == Option::Some(p@),
                        records_view(out@) == sv.take(i as int) + drop_inside(
                            tail.take(j - i - 1),
                            p@,
                        ),
                    decreases s@.len() - j,
                {
                    proof {
                        assert(tail.take(j - i) =~= tail.take(j - i - 1).push(tail[j - i - 1]));
                        assert(tail.take(j - i).drop_last() =~= tail.take(j - i - 1));
                        assert(tail[j - i - 1] == sv[j as int]);
                    }
                    let ghost out0 = records_view(out@);
                    if !event_all_inside(&s[j].event, &p) {
                        out.push(clone_record(&s[j]));
                        proof {
                            assert(records_view(out@) =~= out0.push(sv[j as int]));
                        }
                    }
                    j = j + 1;
                }
                proof {
                    assert(tail.take(s@.len() - i - 1) =~= tail);
                }
                out
            }
        },
    }
}

/// One left-to-right pass over the records.
fn optimize_pass(records: &Vec<ChangeRecord>) -> (out: Vec<ChangeRecord>)
    ensures
        records_view(out@) == spec_pass(records_view(records@)),
{
    let ghost rv = records_view(records@);
    let mut out: Vec<ChangeRecord> = Vec::new();
    let mut k: usize = 0;
    proof {
        assert(records_view(out@) =~= spec_pass(rv.take(0)));
    }
    while k < records.len()
        invariant
            k <= records@.len(),
            rv == records_view(records@),
            records_view(out@) == spec_pass(rv.take(k as int)),
        decreases records@.len() - k,
    {
        proof {
            assert(rv.take(k + 1 as int).drop_last() =~= rv.take(k as int));
            assert(rv.take(k + 1 as int).last() == rv[k as int]);
        }
        out = optimize_insert(out, clone_record(&records[k]));
        k = k + 1;
    }
    proof {
        assert(rv.take(rv.len() as int) =~= rv);
    }
    out
}

/// Optimizes an ordered sequence of change records: applies coalescing
/// passes until one changes nothing, so the result is its own optimized
/// form.
#[verifier::loop_isolation(false)]
pub fn optimize_changes(records: Vec<ChangeRecord>) -> (out: Vec<ChangeRecord>)
    ensures
        records_view(out@) == spec_optimize(records_view(records@)),
{
    let ghost orig = records_view(records@);
    let mut cur = records;
    loop
        invariant
            spec_optimize(records_view(cur@)) == spec_optimize(orig),
        decreases records_view(cur@).len(),
    {
        let ghost cv = records_view(cur@);
        let next = optimize_pass(&cur);
        proof {
            lemma_pass_len(cv);
        }
        if next.len() == cur.len() {
            proof {
                assert(records_view(next@).len() == next@.len());
                assert(records_view(cur@).len() == cur@.len());
                assert(spec_pass(cv).len() == cv.len());
                assert(spec_optimize(cv) == cv);
            }
            return cur;
        }
        proof {
            assert(records_view(next@).len() == next@.len());
            assert(records_view(cur@).len() == cur@.len());
            assert(spec_pass(cv).len() != cv.len());
            assert(spec_optimize(cv) == spec_optimize(spec_pass(cv)));
        }
        cur = next;
    }
}

} // verus!
