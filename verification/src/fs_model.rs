//! Content-store model.
//!
//! The content store is the directory tree under the configured storage
//! root. The model holds it as a finite map from paths to nodes: a file
//! node carries its content bytes, a directory node carries nothing. The
//! operations mirror the filesystem primitives the server performs, with
//! the lenient semantics the protocol asks for: deleting or moving a
//! missing path and re-creating an existing directory change nothing and
//! never fail.

use vstd::prelude::*;
use vstd::map::*;

use crate::data::{bytes_eq, clone_bytes};
use crate::data::{EventV, RecordV};
use crate::optimize::{
    MergeStep, blocked, find_candidate, is_strictly_inside, lemma_optimize_singleton,
    path_related, paths_related, spec_insert, spec_optimize, spec_pass, strictly_inside, subject,
    touches, try_merge,
};

verus! {

/// A node of the content store: a file with its content, or a directory.
#[derive(Debug, Clone, PartialEq, Eq)]
pub enum Node {
    File(Vec<u8>),
    Dir,
}

/// Spec-level node value.
pub enum NodeV {
    File(Seq<u8>),
    Dir,
}

impl View for Node {
    type V = NodeV;

    open spec fn view(&self) -> NodeV {
        match self {
            Node::File(content) => NodeV::File(content@),
            Node::Dir => NodeV::Dir,
        }
    }
}

/// One entry of the content store.
#[derive(Debug, Clone, PartialEq, Eq)]
pub struct FsEntry {
    pub path: Vec<u8>,
    pub node: Node,
}

/// Spec-level entry value.
pub struct EntryV {
    pub path: Seq<u8>,
    pub node: NodeV,
}

impl View for FsEntry {
    type V = EntryV;

    open spec fn view(&self) -> EntryV {
        EntryV { path: self.path@, node: self.node@ }
    }
}

/// View of a sequence of entries.
pub open spec fn entries_view(s: Seq<FsEntry>) -> Seq<EntryV> {
    s.map_values(|e: FsEntry| e@)
}

/// The map an entry sequence denotes; a later entry wins over an earlier
/// one with the same path.
pub open spec fn entries_map(s: Seq<EntryV>) -> Map<Seq<u8>, NodeV>
    decreases s.len(),
{
    if s.len() == 0 {
        Map::empty()
    } else {
        entries_map(s.drop_last()).insert(s.last().path, s.last().node)
    }
}

// ---------------------------------------------------------------------------
// The model-level filesystem operations
// ---------------------------------------------------------------------------

/// Writing a file sets its content, creating or overwriting the path.
pub open spec fn apply_file_write(m: Map<Seq<u8>, NodeV>, p: Seq<u8>, content: Seq<u8>) -> Map<
    Seq<u8>,
    NodeV,
> {
    m.insert(p, NodeV::File(content))
}

/// Deleting a file removes the path; a missing path changes nothing.
pub open spec fn apply_file_delete(m: Map<Seq<u8>, NodeV>, p: Seq<u8>) -> Map<Seq<u8>, NodeV> {
    m.remove(p)
}

/// Moving a file carries the node from `p` to `q`, overwriting `q`; a
/// missing source changes nothing.
pub open spec fn apply_file_move(m: Map<Seq<u8>, NodeV>, p: Seq<u8>, q: Seq<u8>) -> Map<
    Seq<u8>,
    NodeV,
> {
    if m.contains_key(p) {
        m.remove(p).insert(q, m[p])
    } else {
        m
    }
}

/// Creating a directory adds the path; an existing path changes nothing.
pub open spec fn apply_dir_create(m: Map<Seq<u8>, NodeV>, p: Seq<u8>) -> Map<Seq<u8>, NodeV> {
    if m.contains_key(p) {
        m
    } else {
        m.insert(p, NodeV::Dir)
    }
}

/// Deleting a directory removes the path and everything strictly inside it.
pub open spec fn apply_dir_delete(m: Map<Seq<u8>, NodeV>, d: Seq<u8>) -> Map<Seq<u8>, NodeV> {
    Map::new(
        |k: Seq<u8>| m.contains_key(k) && !(k == d || strictly_inside(k, d)),
        |k: Seq<u8>| m[k],
    )
}

/// The path `k` rewritten from prefix `p` to prefix `q`.
pub open spec fn rewrite_path(k: Seq<u8>, p: Seq<u8>, q: Seq<u8>) -> Seq<u8> {
    q + k.skip(p.len() as int)
}

/// The map after the subtree at `p` is carried to `q`: a destination-range
/// path holds what its source held, the source range is gone, and every
/// other path is untouched.
pub open spec fn moved_map(m: Map<Seq<u8>, NodeV>, p: Seq<u8>, q: Seq<u8>) -> Map<Seq<u8>, NodeV> {
    Map::new(
        |k: Seq<u8>|
            if k == q || strictly_inside(k, q) {
                m.contains_key(p + k.skip(q.len() as int))
            } else if k == p || strictly_inside(k, p) {
                false
            } else {
                m.contains_key(k)
            },
        |k: Seq<u8>|
            if k == q || strictly_inside(k, q) {
                m[p + k.skip(q.len() as int)]
            } else {
                m[k]
            },
    )
}

/// Moving a directory carries the path and everything strictly inside it
/// from `p` to `q`, overwriting what stood at the destination. A missing
/// source changes nothing; so does a move between two related paths, which
/// the filesystem refuses.
pub open spec fn apply_dir_move(m: Map<Seq<u8>, NodeV>, p: Seq<u8>, q: Seq<u8>) -> Map<
    Seq<u8>,
    NodeV,
> {
    if m.contains_key(p) && !path_related(p, q) {
        moved_map(m, p, q)
    } else {
        m
    }
}

// ---------------------------------------------------------------------------
// Carrying a subtree between two unrelated prefixes
// ---------------------------------------------------------------------------

proof fn lemma_rewrite_facts(k0: Seq<u8>, p: Seq<u8>, q: Seq<u8>)
    requires
        k0 == p || strictly_inside(k0, p),
    ensures
        rewrite_path(k0, p, q) == q || strictly_inside(rewrite_path(k0, p, q), q),
        p + rewrite_path(k0, p, q).skip(q.len() as int) == k0,
        (k0 == p) <==> (rewrite_path(k0, p, q) == q),
{
    let rw = rewrite_path(k0, p, q);
    if k0 == p {
        assert(k0.skip(p.len() as int) =~= Seq::<u8>::empty());
        assert(rw =~= q);
        assert(rw.skip(q.len() as int) =~= Seq::<u8>::empty());
        assert(p + rw.skip(q.len() as int) =~= k0);
    } else {
        assert(forall|t: int| 0 <= t < p.len() ==> p[t] == k0.subrange(0, p.len() as int)[t]);
        assert(rw.subrange(0, q.len() as int) =~= q);
        assert(rw[q.len() as int] == k0[p.len() as int]);
        assert(strictly_inside(rw, q));
        assert(rw.len() > q.len());
        assert(rw.skip(q.len() as int) =~= k0.skip(p.len() as int));
        assert(p + rw.skip(q.len() as int) =~= k0);
    }
}

proof fn lemma_unrewrite_facts(k: Seq<u8>, p: Seq<u8>, q: Seq<u8>)
    requires
        k == q || strictly_inside(k, q),
    ensures
        (p + k.skip(q.len() as int)) == p || strictly_inside(p + k.skip(q.len() as int), p),
        rewrite_path(p + k.skip(q.len() as int), p, q) == k,
{
    let k0 = p + k.skip(q.len() as int);
    if k == q {
        assert(k.skip(q.len() as int) =~= Seq::<u8>::empty());
        assert(k0 =~= p);
        assert(k0.skip(p.len() as int) =~= Seq::<u8>::empty());
        assert(q + k0.skip(p.len() as int) =~= k);
    } else {
        assert(forall|t: int| 0 <= t < q.len() ==> q[t] == k.subrange(0, q.len() as int)[t]);
        assert(k0.subrange(0, p.len() as int) =~= p);
        assert(k0[p.len() as int] == k[q.len() as int]);
        assert(strictly_inside(k0, p));
        assert(k0.skip(p.len() as int) =~= k.skip(q.len() as int));
        assert(q + k0.skip(p.len() as int) =~= k);
    }
}

/// A path lying in both the source and the destination range forces the two
/// prefixes to be related; with unrelated prefixes the ranges are disjoint.
proof fn lemma_ranges_disjoint(k: Seq<u8>, p: Seq<u8>, q: Seq<u8>)
    requires
        k == p || strictly_inside(k, p),
        k == q || strictly_inside(k, q),
    ensures
        path_related(p, q),
{
    if k == p && k == q {
    } else if k == p {
        assert(strictly_inside(p, q));
    } else if k == q {
        assert(strictly_inside(q, p));
    } else {
        assert(forall|t: int| 0 <= t < p.len() ==> p[t] == k.subrange(0, p.len() as int)[t]);
        assert(forall|t: int| 0 <= t < q.len() ==> q[t] == k.subrange(0, q.len() as int)[t]);
        if p.len() == q.len() {
            assert(p =~= q);
        } else if p.len() < q.len() {
            assert(q.subrange(0, p.len() as int) =~= p);
            assert(q[p.len() as int] == k[p.len() as int]);
            assert(strictly_inside(q, p));
        } else {
            assert(p.subrange(0, q.len() as int) =~= q);
            assert(p[q.len() as int] == k[q.len() as int]);
            assert(strictly_inside(p, q));
        }
    }
}

/// The entries after the subtree at `p` is carried to `q`: source-range
/// entries reappear under `q`, destination-range entries give way, the rest
/// stay.
pub open spec fn spec_move_under(s: Seq<EntryV>, p: Seq<u8>, q: Seq<u8>) -> Seq<EntryV>
    decreases s.len(),
{
    if s.len() == 0 {
        Seq::empty()
    } else {
        let rest = spec_move_under(s.drop_last(), p, q);
        let e = s.last();
        if e.path == p || strictly_inside(e.path, p) {
            rest.push(EntryV { path: rewrite_path(e.path, p, q), node: e.node })
        } else if e.path == q || strictly_inside(e.path, q) {
            rest
        } else {
            rest.push(e)
        }
    }
}

/// Some entry of `s` names path `x`.
pub open spec fn has_path(s: Seq<EntryV>, x: Seq<u8>) -> bool {
    exists|i: int| 0 <= i < s.len() && (#[trigger] s[i].path) == x
}

proof fn lemma_move_under_unique(s: Seq<EntryV>, p: Seq<u8>, q: Seq<u8>)
    requires
        unique_paths(s),
        !path_related(p, q),
    ensures
        unique_paths(spec_move_under(s, p, q)),
        forall|x: Seq<u8>|
            #[trigger] has_path(spec_move_under(s, p, q), x) ==> if x == q || strictly_inside(
                x,
                q,
            ) {
                has_path(s, p + x.skip(q.len() as int))
            } else {
                has_path(s, x)
            },
    decreases s.len(),
{
    if s.len() > 0 {
        let dl = s.drop_last();
        let e = s.last();
        let rest = spec_move_under(dl, p, q);
        let f = spec_move_under(s, p, q);
        assert(unique_paths(dl)) by {
            assert(forall|i: int| 0 <= i < s.len() - 1 ==> (#[trigger] dl[i]) == s[i]);
        }
        lemma_move_under_unique(dl, p, q);
        assert(forall|i: int| 0 <= i < dl.len() ==> (#[trigger] dl[i].path) != e.path) by {
            assert(forall|i: int| 0 <= i < s.len() - 1 ==> (#[trigger] dl[i]) == s[i]);
        }
        if e.path == p || strictly_inside(e.path, p) {
            lemma_rewrite_facts(e.path, p, q);
            let rw = rewrite_path(e.path, p, q);
            let ne = EntryV { path: rw, node: e.node };
            assert(f == rest.push(ne));
            assert(forall|j: int| 0 <= j < rest.len() ==> (#[trigger] f[j]) == rest[j]);
            assert(f[f.len() - 1] == ne);
            assert forall|j: int| 0 <= j < rest.len() implies (#[trigger] rest[j].path) != rw by {
                if rest[j].path == rw {
                    assert(has_path(rest, rw));
                    assert(has_path(dl, p + rw.skip(q.len() as int)));
                    assert(p + rw.skip(q.len() as int) == e.path);
                }
            }
            assert(unique_paths(f));
            assert forall|x: Seq<u8>| #[trigger] has_path(f, x) implies if x == q
                || strictly_inside(x, q) {
                has_path(s, p + x.skip(q.len() as int))
            } else {
                has_path(s, x)
            } by {
                let j = choose|j: int| 0 <= j < f.len() && (#[trigger] f[j].path) == x;
                if j < rest.len() {
                    assert(has_path(rest, x));
                    if x == q || strictly_inside(x, q) {
                        assert(has_path(dl, p + x.skip(q.len() as int)));
                        let i = choose|i: int|
                            0 <= i < dl.len() && (#[trigger] dl[i].path) == p + x.skip(
                                q.len() as int,
                            );
                        assert(s[i].path == p + x.skip(q.len() as int));
                    } else {
                        let i = choose|i: int| 0 <= i < dl.len() && (#[trigger] dl[i].path) == x;
                        assert(s[i].path == x);
                    }
                } else {
                    assert(x == rw);
                    assert(p + x.skip(q.len() as int) == e.path);
                    assert(s[s.len() - 1].path == e.path);
                }
            }
        } else if e.path == q || strictly_inside(e.path, q) {
            assert(f == rest);
            assert forall|x: Seq<u8>| #[trigger] has_path(f, x) implies if x == q
                || strictly_inside(x, q) {
                has_path(s, p + x.skip(q.len() as int))
            } else {
                has_path(s, x)
            } by {
                assert(has_path(rest, x));
                if x == q || strictly_inside(x, q) {
                    assert(has_path(dl, p + x.skip(q.len() as int)));
                    let i = choose|i: int|
                        0 <= i < dl.len() && (#[trigger] dl[i].path) == p + x.skip(q.len() as int);
                    assert(s[i].path == p + x.skip(q.len() as int));
                } else {
                    let i = choose|i: int| 0 <= i < dl.len() && (#[trigger] dl[i].path) == x;
                    assert(s[i].path == x);
                }
            }
        } else {
            assert(f == rest.push(e));
            assert(forall|j: int| 0 <= j < rest.len() ==> (#[trigger] f[j]) == rest[j]);
            assert(f[f.len() - 1] == e);
            assert forall|j: int|
                0 <= j < rest.len() implies (#[trigger] rest[j].path) != e.path by {
                if rest[j].path == e.path {
                    assert(has_path(rest, e.path));
                    assert(has_path(dl, e.path));
                }
            }
            assert(unique_paths(f));
            assert forall|x: Seq<u8>| #[trigger] has_path(f, x) implies if x == q
                || strictly_inside(x, q) {
                has_path(s, p + x.skip(q.len() as int))
            } else {
                has_path(s, x)
            } by {
                let j = choose|j: int| 0 <= j < f.len() && (#[trigger] f[j].path) == x;
                if j < rest.len() {
                    assert(has_path(rest, x));
                    if x == q || strictly_inside(x, q) {
                        assert(has_path(dl, p + x.skip(q.len() as int)));
                        let i = choose|i: int|
                            0 <= i < dl.len() && (#[trigger] dl[i].path) == p + x.skip(
                                q.len() as int,
                            );
                        assert(s[i].path == p + x.skip(q.len() as int));
                    } else {
                        let i = choose|i: int| 0 <= i < dl.len() && (#[trigger] dl[i].path) == x;
                        assert(s[i].path == x);
                    }
                } else {
                    assert(x == e.path);
                    assert(s[s.len() - 1].path == x);
                }
            }
        }
    }
}

proof fn lemma_move_under_map(s: Seq<EntryV>, p: Seq<u8>, q: Seq<u8>)
    requires
        !path_related(p, q),
    ensures
        entries_map(spec_move_under(s, p, q)) == moved_map(entries_map(s), p, q),
    decreases s.len(),
{
    if s.len() == 0 {
        assert(entries_map(spec_move_under(s, p, q)) =~= moved_map(entries_map(s), p, q));
    } else {
        let dl = s.drop_last();
        let e = s.last();
        lemma_move_under_map(dl, p, q);
        let lhs_dl = entries_map(spec_move_under(dl, p, q));
        let m1 = entries_map(dl);
        let m2 = entries_map(s);
        assert(m2 == m1.insert(e.path, e.node));
        let f = spec_move_under(s, p, q);
        if e.path == p || strictly_inside(e.path, p) {
            lemma_rewrite_facts(e.path, p, q);
            let rw = rewrite_path(e.path, p, q);
            assert(f == spec_move_under(dl, p, q).push(EntryV { path: rw, node: e.node }));
            assert(f.drop_last() =~= spec_move_under(dl, p, q));
            assert(entries_map(f) == lhs_dl.insert(rw, e.node));
            assert forall|k: Seq<u8>| #[trigger]
                moved_map(m2, p, q).contains_key(k) implies entries_map(f).contains_key(k)
                && entries_map(f)[k] == moved_map(m2, p, q)[k] by {
                if k == q || strictly_inside(k, q) {
                    lemma_unrewrite_facts(k, p, q);
                    let k0 = p + k.skip(q.len() as int);
                    if k0 == e.path {
                        assert(k == rw);
                    } else {
                        assert(m1.contains_key(k0));
                        assert(moved_map(m1, p, q).contains_key(k));
                        assert(k != rw);
                    }
                } else if k == p || strictly_inside(k, p) {
                    assert(false);
                } else {
                    assert(k != e.path);
                    assert(m1.contains_key(k));
                    assert(moved_map(m1, p, q).contains_key(k));
                    assert(k != rw);
                }
            }
            assert forall|k: Seq<u8>| #[trigger]
                entries_map(f).contains_key(k) implies moved_map(m2, p, q).contains_key(k) by {
                if k == rw {
                    assert(m2.contains_key(p + rw.skip(q.len() as int)));
                } else {
                    assert(lhs_dl.contains_key(k));
                    assert(moved_map(m1, p, q).contains_key(k));
                    if k == q || strictly_inside(k, q) {
                        lemma_unrewrite_facts(k, p, q);
                        let k0 = p + k.skip(q.len() as int);
                        assert(k0 != e.path);
                        assert(m2.contains_key(k0));
                    } else if k == p || strictly_inside(k, p) {
                        assert(false);
                    } else {
                        assert(k != e.path);
                        assert(m2.contains_key(k));
                    }
                }
            }
            assert(entries_map(f) =~= moved_map(m2, p, q));
        } else if e.path == q || strictly_inside(e.path, q) {
            assert(f == spec_move_under(dl, p, q));
            assert forall|k: Seq<u8>| #[trigger]
                moved_map(m2, p, q).contains_key(k) implies moved_map(m1, p, q).contains_key(k)
                && moved_map(m1, p, q)[k] == moved_map(m2, p, q)[k] by {
                if k == q || strictly_inside(k, q) {
                    lemma_unrewrite_facts(k, p, q);
                    let k0 = p + k.skip(q.len() as int);
                    if k0 == e.path {
                        lemma_ranges_disjoint(e.path, p, q);
                    }
                    assert(m1.contains_key(k0));
                } else if k == p || strictly_inside(k, p) {
                    assert(false);
                } else {
                    assert(k != e.path);
                    assert(m1.contains_key(k));
                }
            }
            assert forall|k: Seq<u8>| #[trigger]
                moved_map(m1, p, q).contains_key(k) implies moved_map(m2, p, q).contains_key(
                k,
            ) by {
                if k == q || strictly_inside(k, q) {
                    lemma_unrewrite_facts(k, p, q);
                    let k0 = p + k.skip(q.len() as int);
                    if k0 == e.path {
                        lemma_ranges_disjoint(e.path, p, q);
                    }
                    assert(m2.contains_key(k0));
                } else if k == p || strictly_inside(k, p) {
                    assert(false);
                } else {
                    assert(k != e.path);
                    assert(m2.contains_key(k));
                }
            }
            assert(entries_map(f) =~= moved_map(m2, p, q));
        } else {
            assert(f == spec_move_under(dl, p, q).push(e));
            assert(f.drop_last() =~= spec_move_under(dl, p, q));
            assert(entries_map(f) == lhs_dl.insert(e.path, e.node));
            assert forall|k: Seq<u8>| #[trigger]
                moved_map(m2, p, q).contains_key(k) implies entries_map(f).contains_key(k)
                && entries_map(f)[k] == moved_map(m2, p, q)[k] by {
                if k == q || strictly_inside(k, q) {
                    lemma_unrewrite_facts(k, p, q);
                    let k0 = p + k.skip(q.len() as int);
                    assert(k0 == p || strictly_inside(k0, p));
                    assert(k0 != e.path);
                    assert(m1.contains_key(k0));
                    assert(moved_map(m1, p, q).contains_key(k));
                    assert(k != e.path);
                } else if k == p || strictly_inside(k, p) {
                    assert(false);
                } else {
                    if k == e.path {
                    } else {
                        assert(m1.contains_key(k));
                        assert(moved_map(m1, p, q).contains_key(k));
                    }
                }
            }
            assert forall|k: Seq<u8>| #[trigger]
                entries_map(f).contains_key(k) implies moved_map(m2, p, q).contains_key(k) by {
                if k == e.path {
                    assert(m2.contains_key(k));
                } else {
                    assert(lhs_dl.contains_key(k));
                    assert(moved_map(m1, p, q).contains_key(k));
                    if k == q || strictly_inside(k, q) {
                        lemma_unrewrite_facts(k, p, q);
                        let k0 = p + k.skip(q.len() as int);
                        assert(k0 != e.path);
                        assert(m2.contains_key(k0));
                    } else if k == p || strictly_inside(k, p) {
                        assert(false);
                    } else {
                        assert(m2.contains_key(k));
                    }
                }
            }
            assert(entries_map(f) =~= moved_map(m2, p, q));
        }
    }
}

// ---------------------------------------------------------------------------
// The executable content store
// ---------------------------------------------------------------------------

/// The content store: the modelled directory tree under the storage root.
pub struct FsModel {
    entries: Vec<FsEntry>,
}

impl View for FsModel {
    type V = Map<Seq<u8>, NodeV>;

    closed spec fn view(&self) -> Map<Seq<u8>, NodeV> {
        entries_map(entries_view(self.entries@))
    }
}

/// No two entries name the same path.
pub open spec fn unique_paths(s: Seq<EntryV>) -> bool {
    forall|i: int, j: int|
        0 <= i < s.len() && 0 <= j < s.len() && i != j ==> (#[trigger] s[i].path)
            != (#[trigger] s[j].path)
}

/// Membership in the denoted map is existence of an entry, and the value is
/// that entry's node.
proof fn lemma_entries_map_characterization(s: Seq<EntryV>)
    requires
        unique_paths(s),
    ensures
        forall|k: Seq<u8>|
            #[trigger] entries_map(s).contains_key(k) <==> exists|i: int|
                0 <= i < s.len() && (#[trigger] s[i].path) == k,
        forall|i: int|
            0 <= i < s.len() ==> entries_map(s).contains_key(#[trigger] s[i].path)
                && entries_map(s)[s[i].path] == s[i].node,
    decreases s.len(),
{
    if s.len() > 0 {
        assert(unique_paths(s.drop_last())) by {
            assert(forall|i: int|
                0 <= i < s.len() - 1 ==> (#[trigger] s.drop_last()[i]) == s[i]);
        }
        lemma_entries_map_characterization(s.drop_last());
        assert forall|k: Seq<u8>| #[trigger]
            entries_map(s).contains_key(k) implies exists|i: int|
            0 <= i < s.len() && (#[trigger] s[i].path) == k by {
            if k == s.last().path {
                assert(s[s.len() - 1].path == k);
            } else {
                assert(entries_map(s.drop_last()).contains_key(k));
                let i = choose|i: int| 0 <= i < s.len() - 1 && (#[trigger] s.drop_last()[i].path)
                    == k;
                assert(s[i].path == k);
            }
        }
        assert forall|i: int| 0 <= i < s.len() implies entries_map(s).contains_key(
            #[trigger] s[i].path,
        ) && entries_map(s)[s[i].path] == s[i].node by {
            if i == s.len() - 1 {
            } else {
                assert(s.drop_last()[i] == s[i]);
                assert(s[i].path != s.last().path);
            }
        }
    }
}

/// Appending an entry with a fresh path inserts it into the denoted map.
proof fn lemma_entries_map_push(s: Seq<EntryV>, e: EntryV)
    requires
        unique_paths(s),
        forall|j: int| 0 <= j < s.len() ==> (#[trigger] s[j].path) != e.path,
    ensures
        unique_paths(s.push(e)),
        entries_map(s.push(e)) == entries_map(s).insert(e.path, e.node),
{
    assert(s.push(e).drop_last() =~= s);
    assert(s.push(e).last() == e);
    assert(unique_paths(s.push(e))) by {
        assert(forall|j: int| 0 <= j < s.len() ==> (#[trigger] s.push(e)[j]) == s[j]);
    }
}

/// Removing an entry removes its path from the denoted map.
proof fn lemma_entries_map_remove(s: Seq<EntryV>, i: int)
    requires
        unique_paths(s),
        0 <= i < s.len(),
    ensures
        unique_paths(s.remove(i)),
        entries_map(s.remove(i)) == entries_map(s).remove(s[i].path),
{
    s.remove_ensures(i);
    let rem = s.remove(i);
    assert(unique_paths(rem)) by {
        assert forall|a: int, b: int|
            0 <= a < rem.len() && 0 <= b < rem.len() && a != b implies (#[trigger] rem[a].path)
            != (#[trigger] rem[b].path) by {
            let a0: int = if a < i { a } else { a + 1 };
            let b0: int = if b < i { b } else { b + 1 };
            assert(rem[a] == s[a0]);
            assert(rem[b] == s[b0]);
        }
    }
    lemma_entries_map_characterization(s);
    lemma_entries_map_characterization(rem);
    let p = s[i].path;
    assert forall|k: Seq<u8>| #[trigger]
        entries_map(rem).contains_key(k) implies entries_map(s).remove(p).contains_key(k) by {
        let j = choose|j: int| 0 <= j < rem.len() && (#[trigger] rem[j].path) == k;
        let j0: int = if j < i { j } else { j + 1 };
        assert(s[j0].path == k);
        assert(k != p);
    }
    assert forall|k: Seq<u8>| #[trigger]
        entries_map(s).remove(p).contains_key(k) implies entries_map(rem).contains_key(k) by {
        let j = choose|j: int| 0 <= j < s.len() && (#[trigger] s[j].path) == k;
        assert(j != i);
        let j0: int = if j < i { j } else { j - 1 };
        assert(rem[j0].path == k);
    }
    assert forall|k: Seq<u8>| #[trigger]
        entries_map(rem).contains_key(k) implies entries_map(rem)[k] == entries_map(s).remove(p)[k] by {
        let j = choose|j: int| 0 <= j < rem.len() && (#[trigger] rem[j].path) == k;
        let j0: int = if j < i { j } else { j + 1 };
        assert(rem[j] == s[j0]);
        assert(entries_map(rem)[k] == rem[j].node);
        assert(entries_map(s)[k] == s[j0].node);
    }
    assert(entries_map(rem) =~= entries_map(s).remove(p));
}

impl FsModel {
    /// The entries name pairwise distinct paths.
    pub closed spec fn wf(&self) -> bool {
        unique_paths(entries_view(self.entries@))
    }

    pub fn new() -> (r: FsModel)
        ensures
            r.wf(),
            r@ == Map::<Seq<u8>, NodeV>::empty(),
    {
        let r = FsModel { entries: Vec::new() };
        proof {
            assert(entries_view(r.entries@) =~= Seq::<EntryV>::empty());
        }
        r
    }

    /// Index of the entry naming `p`, when one does.
    fn find_index(&self, p: &Vec<u8>) -> (r: Option<usize>)
        ensures
            match r {
                Option::Some(i) => i < self.entries@.len() && entries_view(self.entries@)[i as int].path
                    == p@,
                Option::None => forall|i: int|
                    0 <= i < self.entries@.len() ==> (#[trigger] entries_view(
                        self.entries@,
                    )[i].path) != p@,
            },
    {
        let mut i: usize = 0;
        while i < self.entries.len()
            invariant
                i <= self.entries@.len(),
                forall|j: int|
                    0 <= j < i ==> (#[trigger] entries_view(self.entries@)[j].path) != p@,
            decreases self.entries@.len() - i,
        {
            if bytes_eq(&self.entries[i].path, p) {
                proof {
                    assert(entries_view(self.entries@)[i as int].path == p@);
                }
                return Some(i);
            }
            proof {
                assert(entries_view(self.entries@)[i as int].path == self.entries@[i as int].path@);
            }
            i = i + 1;
        }
        None
    }

    /// Whether any node stands at `p`.
    pub fn contains_path(&self, p: &Vec<u8>) -> (r: bool)
        requires
            self.wf(),
        ensures
            r == self@.contains_key(p@),
    {
        proof {
            lemma_entries_map_characterization(entries_view(self.entries@));
        }
        match self.find_index(p) {
            Option::Some(_) => true,
            Option::None => false,
        }
    }

    /// Content of the file at `p`, when a file stands there.
    pub fn file_content(&self, p: &Vec<u8>) -> (r: Option<&Vec<u8>>)
        requires
            self.wf(),
        ensures
            match r {
                Option::Some(c) => self@.contains_key(p@) && self@[p@] == NodeV::File(c@),
                Option::None => !self@.contains_key(p@) || self@[p@] is Dir,
            },
    {
        proof {
            lemma_entries_map_characterization(entries_view(self.entries@));
        }
        match self.find_index(p) {
            Option::Some(i) => match &self.entries[i].node {
                Node::File(content) => Some(content),
                Node::Dir => None,
            },
            Option::None => None,
        }
    }

    /// Removes the entry at `i`, keeping the rest in order.
    fn remove_entry(&mut self, i: usize)
        requires
            i < old(self).entries@.len(),
        ensures
            entries_view(final(self).entries@) == entries_view(old(self).entries@).remove(i as int),
    {
        let ghost before = self.entries@;
        self.entries.remove(i);
        proof {
            before.remove_ensures(i as int);
            entries_view(before).remove_ensures(i as int);
            assert(entries_view(self.entries@) =~= entries_view(before).remove(i as int));
        }
    }

    /// Appends an entry.
    fn push_entry(&mut self, e: FsEntry)
        ensures
            entries_view(final(self).entries@) == entries_view(old(self).entries@).push(e@),
    {
        let ghost ev = e@;
        let ghost before = self.entries@;
        self.entries.push(e);
        proof {
            assert(entries_view(self.entries@) =~= entries_view(before).push(ev));
        }
    }

    /// Writes a file: sets the content at `p`, creating or overwriting.
    pub fn file_write(&mut self, p: &Vec<u8>, content: Vec<u8>)
        requires
            old(self).wf(),
        ensures
            final(self).wf(),
            final(self)@ == apply_file_write(old(self)@, p@, content@),
    {
        let ghost before = entries_view(self.entries@);
        let ghost cv = content@;
        match self.find_index(p) {
            Option::Some(i) => {
                self.remove_entry(i);
                proof {
                    lemma_entries_map_remove(before, i as int);
                }
                let ghost mid = entries_view(self.entries@);
                proof {
                    assert(forall|j: int|
                        0 <= j < mid.len() ==> (#[trigger] mid[j].path) != p@) by {
                        before.remove_ensures(i as int);
                    }
                    lemma_entries_map_push(mid, EntryV { path: p@, node: NodeV::File(cv) });
                }
                self.push_entry(FsEntry { path: clone_bytes(p), node: Node::File(content) });
                proof {
                    assert(self@ =~= apply_file_write(entries_map(before), p@, cv));
                }
            },
            Option::None => {
                proof {
                    lemma_entries_map_push(before, EntryV { path: p@, node: NodeV::File(cv) });
                }
                self.push_entry(FsEntry { path: clone_bytes(p), node: Node::File(content) });
            },
        }
    }

    /// Deletes the node at `p`; a missing path changes nothing.
    pub fn file_delete(&mut self, p: &Vec<u8>)
        requires
            old(self).wf(),
        ensures
            final(self).wf(),
            final(self)@ == apply_file_delete(old(self)@, p@),
    {
        let ghost before = entries_view(self.entries@);
        match self.find_index(p) {
            Option::Some(i) => {
                self.remove_entry(i);
                proof {
                    lemma_entries_map_remove(before, i as int);
                }
            },
            Option::None => {
                proof {
                    lemma_entries_map_characterization(before);
                    assert(!entries_map(before).contains_key(p@));
                    assert(self@ =~= apply_file_delete(entries_map(before), p@));
                }
            },
        }
    }

    /// Moves the node at `p` to `q`, overwriting `q`; a missing source
    /// changes nothing.
    pub fn file_move(&mut self, p: &Vec<u8>, q: &Vec<u8>)
        requires
            old(self).wf(),
        ensures
            final(self).wf(),
            final(self)@ == apply_file_move(old(self)@, p@, q@),
    {
        let ghost before = entries_view(self.entries@);
        proof {
            lemma_entries_map_characterization(before);
        }
        let i = match self.find_index(p) {
            Option::Some(i) => i,
            Option::None => {
                proof {
                    assert(!entries_map(before).contains_key(p@));
                }
                return ;
            },
        };
        let node = match &self.entries[i].node {
            Node::File(content) => Node::File(clone_bytes(content)),
            Node::Dir => Node::Dir,
        };
        proof {
            assert(before[i as int] == self.entries@[i as int]@);
            assert(node@ == entries_map(before)[p@]);
        }
        let ghost moved = node@;
        self.remove_entry(i);
        proof {
            lemma_entries_map_remove(before, i as int);
        }
        let ghost mid1 = entries_view(self.entries@);
        match self.find_index(q) {
            Option::Some(j) => {
                self.remove_entry(j);
                proof {
                    lemma_entries_map_remove(mid1, j as int);
                }
            },
            Option::None => {
                proof {
                    lemma_entries_map_characterization(mid1);
                    assert(!entries_map(mid1).contains_key(q@));
                    assert(entries_map(mid1) =~= entries_map(mid1).remove(q@));
                }
            },
        }
        let ghost mid2 = entries_view(self.entries@);
        proof {
            assert(entries_map(mid2) == entries_map(before).remove(p@).remove(q@));
            assert(forall|j: int| 0 <= j < mid2.len() ==> (#[trigger] mid2[j].path) != q@) by {
                lemma_entries_map_characterization(mid2);
            }
            lemma_entries_map_push(mid2, EntryV { path: q@, node: moved });
        }
        self.push_entry(FsEntry { path: clone_bytes(q), node });
        proof {
            assert(self@ =~= apply_file_move(entries_map(before), p@, q@));
        }
    }

    /// The entries left after a directory delete of `d`.
    /// (spec helper for `dir_delete`)
    pub open spec fn spec_drop_under(s: Seq<EntryV>, d: Seq<u8>) -> Seq<EntryV>
        decreases s.len(),
    {
        if s.len() == 0 {
            Seq::empty()
        } else {
            let rest = Self::spec_drop_under(s.drop_last(), d);
            let e = s.last();
            if e.path == d || strictly_inside(e.path, d) {
                rest
            } else {
                rest.push(e)
            }
        }
    }

    /// Deletes the directory at `d` and everything strictly inside it; a
    /// missing path still removes what lies inside.
    pub fn dir_delete(&mut self, d: &Vec<u8>)
        requires
            old(self).wf(),
        ensures
            final(self).wf(),
            final(self)@ == apply_dir_delete(old(self)@, d@),
    {
        let ghost before = entries_view(self.entries@);
        let mut kept: Vec<FsEntry> = Vec::new();
        let mut k: usize = 0;
        proof {
            assert(entries_view(kept@) =~= Self::spec_drop_under(before.take(0), d@));
        }
        while k < self.entries.len()
            invariant
                k <= self.entries@.len(),
                before == entries_view(self.entries@),
                unique_paths(before),
                entries_view(kept@) == Self::spec_drop_under(before.take(k as int), d@),
                unique_paths(entries_view(kept@)),
                forall|j: int|
                    0 <= j < entries_view(kept@).len() ==> exists|i: int|
                        0 <= i < k && (#[trigger] entries_view(kept@)[j]) == before[i],
            decreases self.entries@.len() - k,
        {
            proof {
                assert(before.take(k + 1 as int).drop_last() =~= before.take(k as int));
                assert(before.take(k + 1 as int).last() == before[k as int]);
                assert(before[k as int] == self.entries@[k as int]@);
            }
            let ghost kept0 = entries_view(kept@);
            let e = &self.entries[k];
            if !(bytes_eq(&e.path, d) || is_strictly_inside(&e.path, d)) {
                kept.push(
                    FsEntry {
                        path: clone_bytes(&e.path),
                        node: match &e.node {
                            Node::File(c) => Node::File(clone_bytes(c)),
                            Node::Dir => Node::Dir,
                        },
                    },
                );
                proof {
                    assert(entries_view(kept@) =~= kept0.push(before[k as int]));
                    assert(unique_paths(entries_view(kept@))) by {
                        assert forall|j: int|
                            0 <= j < kept0.len() implies (#[trigger] kept0[j].path) != before[
                            k as int
                        ].path by {
                            let i = choose|i: int| 0 <= i < k && (#[trigger] kept0[j]) == before[i];
                            assert(before[i].path != before[k as int].path);
                        }
                    }
                    assert forall|j: int|
                        0 <= j < entries_view(kept@).len() implies exists|i: int|
                        0 <= i < k + 1 && (#[trigger] entries_view(kept@)[j]) == before[i] by {
                        if j < kept0.len() {
                            let i = choose|i: int| 0 <= i < k && (#[trigger] kept0[j]) == before[i];
                            assert(entries_view(kept@)[j] == before[i]);
                        } else {
                            assert(entries_view(kept@)[j] == before[k as int]);
                        }
                    }
                }
            }
            k = k + 1;
        }
        proof {
            assert(before.take(before.len() as int) =~= before);
            Self::lemma_drop_under_map(before, d@);
        }
        self.entries = kept;
    }

    /// The denoted map of the kept entries is the directory-delete of the
    /// denoted map.
    proof fn lemma_drop_under_map(s: Seq<EntryV>, d: Seq<u8>)
        ensures
            entries_map(Self::spec_drop_under(s, d)) == apply_dir_delete(entries_map(s), d),
        decreases s.len(),
    {
        if s.len() == 0 {
            assert(entries_map(Self::spec_drop_under(s, d)) =~= apply_dir_delete(
                entries_map(s),
                d,
            ));
        } else {
            let dl = s.drop_last();
            let e = s.last();
            Self::lemma_drop_under_map(dl, d);
            if e.path == d || strictly_inside(e.path, d) {
                assert(entries_map(Self::spec_drop_under(s, d)) =~= apply_dir_delete(
                    entries_map(s),
                    d,
                ));
            } else {
                let f = Self::spec_drop_under(s, d);
                assert(f == Self::spec_drop_under(dl, d).push(e));
                assert(f.drop_last() =~= Self::spec_drop_under(dl, d));
                assert(f.last() == e);
                assert(entries_map(f) == entries_map(Self::spec_drop_under(dl, d)).insert(
                    e.path,
                    e.node,
                ));
                assert(entries_map(Self::spec_drop_under(s, d)) =~= apply_dir_delete(
                    entries_map(s),
                    d,
                ));
            }
        }
    }

    /// Moves the directory at `from`, and everything strictly inside it, to
    /// `to`, overwriting what stood at the destination. A missing source or
    /// a move between two related paths changes nothing.
    pub fn dir_move(&mut self, from: &Vec<u8>, to: &Vec<u8>)
        requires
            old(self).wf(),
        ensures
            final(self).wf(),
            final(self)@ == apply_dir_move(old(self)@, from@, to@),
    {
        if paths_related(from, to) {
            return ;
        }
        proof {
            lemma_entries_map_characterization(entries_view(self.entries@));
        }
        if !self.contains_path(from) {
            return ;
        }
        let ghost before = entries_view(self.entries@);
        let mut kept: Vec<FsEntry> = Vec::new();
        let mut k: usize = 0;
        proof {
            assert(entries_view(kept@) =~= spec_move_under(before.take(0), from@, to@));
        }
        while k < self.entries.len()
            invariant
                k <= self.entries@.len(),
                before == entries_view(self.entries@),
                entries_view(kept@) == spec_move_under(before.take(k as int), from@, to@),
            decreases self.entries@.len() - k,
        {
            proof {
                assert(before.take(k + 1 as int).drop_last() =~= before.take(k as int));
                assert(before.take(k + 1 as int).last() == before[k as int]);
                assert(before[k as int] == self.entries@[k as int]@);
            }
            let ghost kept0 = entries_view(kept@);
            let e = &self.entries[k];
            let node = match &e.node {
                Node::File(c) => Node::File(clone_bytes(c)),
                Node::Dir => Node::Dir,
            };
            proof {
                assert(node@ == before[k as int].node);
            }
            if bytes_eq(&e.path, from) || is_strictly_inside(&e.path, from) {
                let mut np = clone_bytes(to);
                let mut t: usize = from.len();
                proof {
                    assert(np@ =~= to@ + e.path@.subrange(from@.len() as int, t as int));
                }
                while t < e.path.len()
                    invariant
                        from@.len() <= t <= e.path@.len(),
                        np@ == to@ + e.path@.subrange(from@.len() as int, t as int),
                    decreases e.path@.len() - t,
                {
                    np.push(e.path[t]);
                    proof {
                        assert(to@ + e.path@.subrange(from@.len() as int, t + 1 as int) =~= (to@
                            + e.path@.subrange(from@.len() as int, t as int)).push(
                            e.path@[t as int],
                        ));
                    }
                    t = t + 1;
                }
                proof {
                    assert(e.path@.subrange(from@.len() as int, e.path@.len() as int)
                        =~= e.path@.skip(from@.len() as int));
                    assert(np@ == rewrite_path(before[k as int].path, from@, to@));
                }
                kept.push(FsEntry { path: np, node });
                proof {
                    assert(entries_view(kept@) =~= kept0.push(
                        EntryV {
                            path: rewrite_path(before[k as int].path, from@, to@),
                            node: before[k as int].node,
                        },
                    ));
                }
            } else if bytes_eq(&e.path, to) || is_strictly_inside(&e.path, to) {
                proof {
                    assert(entries_view(kept@) == spec_move_under(
                        before.take(k + 1 as int),
                        from@,
                        to@,
                    ));
                }
            } else {
                kept.push(FsEntry { path: clone_bytes(&e.path), node });
                proof {
                    assert(entries_view(kept@) =~= kept0.push(before[k as int]));
                }
            }
            k = k + 1;
        }
        proof {
            assert(before.take(before.len() as int) =~= before);
            lemma_move_under_unique(before, from@, to@);
            lemma_move_under_map(before, from@, to@);
        }
        self.entries = kept;
    }

    /// Creates a directory at `p`; an existing path changes nothing.
    pub fn dir_create(&mut self, p: &Vec<u8>)
        requires
            old(self).wf(),
        ensures
            final(self).wf(),
            final(self)@ == apply_dir_create(old(self)@, p@),
    {
        let ghost before = entries_view(self.entries@);
        proof {
            lemma_entries_map_characterization(before);
        }
        match self.find_index(p) {
            Option::Some(_) => {
                proof {
                    assert(entries_map(before).contains_key(p@));
                }
            },
            Option::None => {
                proof {
                    assert(!entries_map(before).contains_key(p@));
                    lemma_entries_map_push(before, EntryV { path: p@, node: NodeV::Dir });
                }
                self.push_entry(FsEntry { path: clone_bytes(p), node: Node::Dir });
            },
        }
    }
}

// ---------------------------------------------------------------------------
// Soundness of the file coalescing rules on the model
// ---------------------------------------------------------------------------

/// Creating then modifying a file equals one create with the final content.
pub proof fn lemma_rule_create_modify(m: Map<Seq<u8>, NodeV>, p: Seq<u8>, c1: Seq<u8>, c2: Seq<u8>)
    ensures
        apply_file_write(apply_file_write(m, p, c1), p, c2) == apply_file_write(m, p, c2),
{
    assert(apply_file_write(apply_file_write(m, p, c1), p, c2) =~= apply_file_write(m, p, c2));
}

/// Modifying a file twice equals the last modification alone.
pub proof fn lemma_rule_modify_modify(m: Map<Seq<u8>, NodeV>, p: Seq<u8>, c1: Seq<u8>, c2: Seq<u8>)
    ensures
        apply_file_write(apply_file_write(m, p, c1), p, c2) == apply_file_write(m, p, c2),
{
    lemma_rule_create_modify(m, p, c1, c2);
}

/// Creating then deleting a file that did not exist before leaves the store
/// as it was.
pub proof fn lemma_rule_create_delete(m: Map<Seq<u8>, NodeV>, p: Seq<u8>, c: Seq<u8>)
    requires
        !m.contains_key(p),
    ensures
        apply_file_delete(apply_file_write(m, p, c), p) == m,
{
    assert(apply_file_delete(apply_file_write(m, p, c), p) =~= m);
}

/// Creating a file that did not exist before and then moving it equals one
/// create at the destination.
pub proof fn lemma_rule_create_move(m: Map<Seq<u8>, NodeV>, p: Seq<u8>, q: Seq<u8>, c: Seq<u8>)
    requires
        !m.contains_key(p),
    ensures
        apply_file_move(apply_file_write(m, p, c), p, q) == apply_file_write(m, p, c).remove(
            p,
        ).insert(q, NodeV::File(c)),
        p != q ==> apply_file_move(apply_file_write(m, p, c), p, q) == apply_file_write(m, q, c),
{
    if p != q {
        assert(apply_file_move(apply_file_write(m, p, c), p, q) =~= apply_file_write(m, q, c));
    }
}

/// Two chained moves equal one move from the first source to the last
/// destination, when the intermediate path was free.
pub proof fn lemma_rule_move_move(m: Map<Seq<u8>, NodeV>, p: Seq<u8>, q: Seq<u8>, r: Seq<u8>)
    requires
        !m.contains_key(q),
        p != q,
        q != r,
    ensures
        apply_file_move(apply_file_move(m, p, q), q, r) == apply_file_move(m, p, r),
{
    if m.contains_key(p) {
        assert(apply_file_move(apply_file_move(m, p, q), q, r) =~= apply_file_move(m, p, r));
    } else {
        assert(apply_file_move(m, p, q) == m);
    }
}

/// A move chain that returns to its origin, over a free intermediate path,
/// leaves the store as it was.
pub proof fn lemma_rule_move_back(m: Map<Seq<u8>, NodeV>, p: Seq<u8>, q: Seq<u8>)
    requires
        !m.contains_key(q),
        p != q,
    ensures
        apply_file_move(apply_file_move(m, p, q), q, p) == m,
{
    if m.contains_key(p) {
        assert(apply_file_move(apply_file_move(m, p, q), q, p) =~= m);
    }
}

/// Creating a directory, filling a file inside it and then deleting the
/// directory leaves a store that held nothing at or inside that path as it
/// was.
pub proof fn lemma_rule_dir_create_delete(
    m: Map<Seq<u8>, NodeV>,
    d: Seq<u8>,
    f: Seq<u8>,
    c: Seq<u8>,
)
    requires
        !m.contains_key(d),
        strictly_inside(f, d),
        forall|k: Seq<u8>| #[trigger] m.contains_key(k) ==> !strictly_inside(k, d),
    ensures
        apply_dir_delete(apply_file_write(apply_dir_create(m, d), f, c), d) == m,
{
    assert(apply_dir_delete(apply_file_write(apply_dir_create(m, d), f, c), d) =~= m);
}

// ---------------------------------------------------------------------------
// The optimizer on a pair of records, held to the model
// ---------------------------------------------------------------------------

proof fn lemma_insert_empty(r: RecordV)
    ensures
        spec_insert(Seq::empty(), r) == seq![r],
{
    match subject(r.event) {
        Option::None => {},
        Option::Some(p) => {
            assert(find_candidate(Seq::<RecordV>::empty(), p) == -1);
        },
    }
    assert(Seq::<RecordV>::empty().push(r) =~= seq![r]);
}

proof fn lemma_pass_pair(r1: RecordV, r2: RecordV)
    ensures
        spec_pass(seq![r1, r2]) == spec_insert(seq![r1], r2),
{
    let xs = seq![r1, r2];
    assert(xs.drop_last() =~= seq![r1]);
    assert(xs.last() == r2);
    assert(seq![r1].drop_last() =~= Seq::<RecordV>::empty());
    assert(seq![r1].last() == r1);
    assert(spec_pass(Seq::<RecordV>::empty()) == Seq::<RecordV>::empty());
    lemma_insert_empty(r1);
    assert(spec_pass(seq![r1]) == seq![r1]);
}

proof fn lemma_optimize_pair_merged(r1: RecordV, r2: RecordV, out: RecordV)
    requires
        spec_insert(seq![r1], r2) == seq![out],
    ensures
        spec_optimize(seq![r1, r2]) == seq![out],
{
    lemma_pass_pair(r1, r2);
    assert(spec_pass(seq![r1, r2]).len() == 1);
    lemma_optimize_singleton(out);
}

proof fn lemma_optimize_pair_cancelled(r1: RecordV, r2: RecordV)
    requires
        spec_insert(seq![r1], r2) == Seq::<RecordV>::empty(),
    ensures
        spec_optimize(seq![r1, r2]) == Seq::<RecordV>::empty(),
{
    lemma_pass_pair(r1, r2);
    assert(spec_pass(seq![r1, r2]).len() == 0);
    assert(spec_pass(Seq::<RecordV>::empty()) == Seq::<RecordV>::empty());
    assert(spec_optimize(Seq::<RecordV>::empty()) == Seq::<RecordV>::empty());
}

/// A file create followed by its delete optimizes to nothing, and applying
/// nothing to a store that did not hold the path equals applying both.
pub proof fn lemma_p5_create_then_delete(
    m: Map<Seq<u8>, NodeV>,
    p: Seq<u8>,
    s: u64,
    c: Seq<u8>,
    v1: u64,
    v2: u64,
)
    requires
        !m.contains_key(p),
    ensures
        spec_optimize(
            seq![
                RecordV { version: v1, event: EventV::FileCreate { path: p, size: s } },
                RecordV { version: v2, event: EventV::FileDelete { path: p } },
            ],
        ) == Seq::<RecordV>::empty(),
        apply_file_delete(apply_file_write(m, p, c), p) == m,
{
    let r1 = RecordV { version: v1, event: EventV::FileCreate { path: p, size: s } };
    let r2 = RecordV { version: v2, event: EventV::FileDelete { path: p } };
    assert(seq![r1].last() == r1);
    assert(touches(r1.event, p));
    assert(find_candidate(seq![r1], p) == 0);
    assert(!blocked(seq![r1], 0, r1.event, r2.event));
    assert(try_merge(r1.event, r2.event) == MergeStep::Cancel);
    assert(seq![r1].remove(0) =~= Seq::<RecordV>::empty());
    assert(spec_insert(seq![r1], r2) == Seq::<RecordV>::empty());
    lemma_optimize_pair_cancelled(r1, r2);
    lemma_rule_create_delete(m, p, c);
}

/// A file create followed by a modify optimizes to one create carrying the
/// final size, and one write of the final content equals both writes.
pub proof fn lemma_p5_create_then_modify(
    m: Map<Seq<u8>, NodeV>,
    p: Seq<u8>,
    s1: u64,
    s2: u64,
    c1: Seq<u8>,
    c2: Seq<u8>,
    v1: u64,
    v2: u64,
)
    ensures
        spec_optimize(
            seq![
                RecordV { version: v1, event: EventV::FileCreate { path: p, size: s1 } },
                RecordV { version: v2, event: EventV::FileModify { path: p, size: s2 } },
            ],
        ) == seq![RecordV { version: v2, event: EventV::FileCreate { path: p, size: s2 } }],
        apply_file_write(apply_file_write(m, p, c1), p, c2) == apply_file_write(m, p, c2),
{
    let r1 = RecordV { version: v1, event: EventV::FileCreate { path: p, size: s1 } };
    let r2 = RecordV { version: v2, event: EventV::FileModify { path: p, size: s2 } };
    let out = RecordV { version: v2, event: EventV::FileCreate { path: p, size: s2 } };
    assert(seq![r1].last() == r1);
    assert(touches(r1.event, p));
    assert(find_candidate(seq![r1], p) == 0);
    assert(!blocked(seq![r1], 0, r1.event, r2.event));
    assert(try_merge(r1.event, r2.event) == MergeStep::Merged(out.event));
    assert(seq![r1].remove(0) =~= Seq::<RecordV>::empty());
    lemma_insert_empty(out);
    assert(spec_insert(seq![r1], r2) == seq![out]);
    lemma_optimize_pair_merged(r1, r2, out);
    lemma_rule_create_modify(m, p, c1, c2);
}

/// Two modifies of one file optimize to the last alone, and one write of
/// the final content equals both writes.
pub proof fn lemma_p5_modify_then_modify(
    m: Map<Seq<u8>, NodeV>,
    p: Seq<u8>,
    s1: u64,
    s2: u64,
    c1: Seq<u8>,
    c2: Seq<u8>,
    v1: u64,
    v2: u64,
)
    ensures
        spec_optimize(
            seq![
                RecordV { version: v1, event: EventV::FileModify { path: p, size: s1 } },
                RecordV { version: v2, event: EventV::FileModify { path: p, size: s2 } },
            ],
        ) == seq![RecordV { version: v2, event: EventV::FileModify { path: p, size: s2 } }],
        apply_file_write(apply_file_write(m, p, c1), p, c2) == apply_file_write(m, p, c2),
{
    let r1 = RecordV { version: v1, event: EventV::FileModify { path: p, size: s1 } };
    let r2 = RecordV { version: v2, event: EventV::FileModify { path: p, size: s2 } };
    let out = RecordV { version: v2, event: EventV::FileModify { path: p, size: s2 } };
    assert(seq![r1].last() == r1);
    assert(touches(r1.event, p));
    assert(find_candidate(seq![r1], p) == 0);
    assert(!blocked(seq![r1], 0, r1.event, r2.event));
    assert(try_merge(r1.event, r2.event) == MergeStep::Merged(out.event));
    assert(seq![r1].remove(0) =~= Seq::<RecordV>::empty());
    lemma_insert_empty(out);
    assert(spec_insert(seq![r1], r2) == seq![out]);
    lemma_optimize_pair_merged(r1, r2, out);
    lemma_rule_modify_modify(m, p, c1, c2);
}

/// A create followed by a move of that file optimizes to one create at the
/// destination, and creating there directly equals creating then moving,
/// when neither path was taken.
pub proof fn lemma_p5_create_then_move(
    m: Map<Seq<u8>, NodeV>,
    p: Seq<u8>,
    q: Seq<u8>,
    s: u64,
    c: Seq<u8>,
    v1: u64,
    v2: u64,
)
    requires
        !m.contains_key(p),
        p != q,
    ensures
        spec_optimize(
            seq![
                RecordV { version: v1, event: EventV::FileCreate { path: p, size: s } },
                RecordV { version: v2, event: EventV::FileMove { from: p, to: q } },
            ],
        ) == seq![RecordV { version: v2, event: EventV::FileCreate { path: q, size: s } }],
        apply_file_move(apply_file_write(m, p, c), p, q) == apply_file_write(m, q, c),
{
    let r1 = RecordV { version: v1, event: EventV::FileCreate { path: p, size: s } };
    let r2 = RecordV { version: v2, event: EventV::FileMove { from: p, to: q } };
    let out = RecordV { version: v2, event: EventV::FileCreate { path: q, size: s } };
    assert(seq![r1].last() == r1);
    assert(touches(r1.event, p));
    assert(find_candidate(seq![r1], p) == 0);
    assert(!blocked(seq![r1], 0, r1.event, r2.event));
    assert(try_merge(r1.event, r2.event) == MergeStep::Merged(out.event));
    assert(seq![r1].remove(0) =~= Seq::<RecordV>::empty());
    lemma_insert_empty(out);
    assert(spec_insert(seq![r1], r2) == seq![out]);
    lemma_optimize_pair_merged(r1, r2, out);
    lemma_rule_create_move(m, p, q, c);
}

/// Two chained moves optimize to one, and one move equals the chain on a
/// store whose intermediate path was free.
pub proof fn lemma_p5_move_then_move(
    m: Map<Seq<u8>, NodeV>,
    p: Seq<u8>,
    q: Seq<u8>,
    r: Seq<u8>,
    v1: u64,
    v2: u64,
)
    requires
        !m.contains_key(q),
        p != q,
        q != r,
        p != r,
    ensures
        spec_optimize(
            seq![
                RecordV { version: v1, event: EventV::FileMove { from: p, to: q } },
                RecordV { version: v2, event: EventV::FileMove { from: q, to: r } },
            ],
        ) == seq![RecordV { version: v2, event: EventV::FileMove { from: p, to: r } }],
        apply_file_move(apply_file_move(m, p, q), q, r) == apply_file_move(m, p, r),
{
    let r1 = RecordV { version: v1, event: EventV::FileMove { from: p, to: q } };
    let r2 = RecordV { version: v2, event: EventV::FileMove { from: q, to: r } };
    let out = RecordV { version: v2, event: EventV::FileMove { from: p, to: r } };
    assert(seq![r1].last() == r1);
    assert(touches(r1.event, q));
    assert(find_candidate(seq![r1], q) == 0);
    assert(!blocked(seq![r1], 0, r1.event, r2.event));
    assert(try_merge(r1.event, r2.event) == MergeStep::Merged(out.event));
    assert(seq![r1].remove(0) =~= Seq::<RecordV>::empty());
    lemma_insert_empty(out);
    assert(spec_insert(seq![r1], r2) == seq![out]);
    lemma_optimize_pair_merged(r1, r2, out);
    lemma_rule_move_move(m, p, q, r);
}

/// A move chain that returns to its origin optimizes to nothing, and on a
/// store whose intermediate path was free the chain changes nothing.
pub proof fn lemma_p5_move_then_move_back(
    m: Map<Seq<u8>, NodeV>,
    p: Seq<u8>,
    q: Seq<u8>,
    v1: u64,
    v2: u64,
)
    requires
        !m.contains_key(q),
        p != q,
    ensures
        spec_optimize(
            seq![
                RecordV { version: v1, event: EventV::FileMove { from: p, to: q } },
                RecordV { version: v2, event: EventV::FileMove { from: q, to: p } },
            ],
        ) == Seq::<RecordV>::empty(),
        apply_file_move(apply_file_move(m, p, q), q, p) == m,
{
    let r1 = RecordV { version: v1, event: EventV::FileMove { from: p, to: q } };
    let r2 = RecordV { version: v2, event: EventV::FileMove { from: q, to: p } };
    assert(seq![r1].last() == r1);
    assert(touches(r1.event, q));
    assert(find_candidate(seq![r1], q) == 0);
    assert(!blocked(seq![r1], 0, r1.event, r2.event));
    assert(try_merge(r1.event, r2.event) == MergeStep::Cancel);
    assert(seq![r1].remove(0) =~= Seq::<RecordV>::empty());
    assert(spec_insert(seq![r1], r2) == Seq::<RecordV>::empty());
    lemma_optimize_pair_cancelled(r1, r2);
    lemma_rule_move_back(m, p, q);
}

} // verus!
