//! The directory mirror engine, verified over an in-memory model of the
//! two file trees. A file is modelled by the metadata the copy heuristic
//! reads (modification time and byte size), a directory by its named
//! entries, and anything else (a symlink, a special file) by `Other`,
//! which the engine refuses to copy. The runtime around this core walks
//! the real filesystem in the same order and takes every decision —
//! whether to copy a file, which target entries are orphans — from the
//! verified functions here.

use vstd::prelude::*;
use vstd::string::StrSliceExecFns;
use vstd::string::StringExecFns;
use crate::seqs::{lemma_take_all, lemma_take_filter_step};

verus! {

/// The ghost image of a file tree.
pub ghost enum Tree {
    File { mtime: u64, size: u64 },
    Dir { entries: Seq<TreeEntry> },
    Other,
}

/// One named entry of a ghost directory.
pub ghost struct TreeEntry {
    pub name: Seq<char>,
    pub tree: Tree,
}

/// An in-memory file tree, as the runtime snapshots it.
#[derive(Debug)]
pub enum FsTree {
    File { mtime: u64, size: u64 },
    Dir { entries: Vec<FsEntry> },
    Other,
}

/// One named entry of a directory.
#[derive(Debug)]
pub struct FsEntry {
    pub name: String,
    pub tree: FsTree,
}

/// The ghost image of a tree.
pub open spec fn tree_view(t: FsTree) -> Tree
    decreases t,
{
    match t {
        FsTree::File { mtime, size } => Tree::File { mtime, size },
        FsTree::Other => Tree::Other,
        FsTree::Dir { entries } => Tree::Dir { entries: entries_view(entries@) },
    }
}

/// The ghost image of a directory's entries, in order.
pub open spec fn entries_view(es: Seq<FsEntry>) -> Seq<TreeEntry>
    decreases es,
{
    if es.len() == 0 {
        Seq::<TreeEntry>::empty()
    } else {
        seq![TreeEntry { name: es[0].name@, tree: tree_view(es[0].tree) }] + entries_view(
            es.skip(1),
        )
    }
}

/// `entries_view` maps the entries one for one.
pub proof fn lemma_entries_view(es: Seq<FsEntry>)
    ensures
        entries_view(es).len() == es.len(),
        forall|i: int|
            0 <= i < es.len() ==> #[trigger] entries_view(es)[i] == (TreeEntry {
                name: es[i].name@,
                tree: tree_view(es[i].tree),
            }),
    decreases es,
{
    if es.len() > 0 {
        lemma_entries_view(es.skip(1));
    }
}

impl View for FsTree {
    type V = Tree;

    open spec fn view(&self) -> Tree {
        tree_view(*self)
    }
}

impl View for FsEntry {
    type V = TreeEntry;

    open spec fn view(&self) -> TreeEntry {
        TreeEntry { name: self.name@, tree: tree_view(self.tree) }
    }
}

/// The ghost image of an optional tree.
pub open spec fn view_opt(t: Option<&FsTree>) -> Option<Tree> {
    match t {
        Some(x) => Some(x@),
        None => None,
    }
}

/// Whether some entry carries this name.
pub open spec fn has_name(es: Seq<TreeEntry>, n: Seq<char>) -> bool {
    exists|k: int| 0 <= k < es.len() && (#[trigger] es[k]).name == n
}

/// The subtree under this name, if any. With unique names the witness is
/// the one entry of that name.
pub open spec fn lookup(es: Seq<TreeEntry>, n: Seq<char>) -> Option<Tree> {
    if has_name(es, n) {
        let k = choose|k: int| 0 <= k < es.len() && (#[trigger] es[k]).name == n;
        Some(es[k].tree)
    } else {
        None
    }
}

/// No two entries share a name.
pub open spec fn unique_names(es: Seq<TreeEntry>) -> bool {
    forall|i: int, j: int| 0 <= i < j < es.len() ==> es[i].name != es[j].name
}

/// A well-formed tree: every directory lists each name once, as a real
/// directory does.
pub open spec fn wf(t: Tree) -> bool
    decreases t,
{
    match t {
        Tree::Dir { entries } => unique_names(entries) && (forall|i: int|
            0 <= i < entries.len() ==> wf((#[trigger] entries[i]).tree)),
        _ => true,
    }
}

/// `wf`, lifted to an optional tree.
pub open spec fn wf_opt(t: Option<Tree>) -> bool {
    match t {
        Some(x) => wf(x),
        None => true,
    }
}

/// The copy heuristic over the model: a file is copied when the target
/// is missing, is not a plain file, is older than the source, or differs
/// in size.
pub open spec fn spec_should_copy(mtime: u64, size: u64, target: Option<Tree>) -> bool {
    match target {
        Some(Tree::File { mtime: tm, size: ts }) => mtime > tm || size != ts,
        Some(_) => true,
        None => true,
    }
}

/// The number of nodes of a tree; bounds the work any sync can do.
pub open spec fn count_nodes(t: Tree) -> nat
    decreases t,
{
    match t {
        Tree::Dir { entries } => 1 + count_nodes_entries(entries),
        _ => 1,
    }
}

/// The node count of a directory's entries.
pub open spec fn count_nodes_entries(es: Seq<TreeEntry>) -> nat
    decreases es,
{
    if es.len() == 0 {
        0
    } else {
        count_nodes(es[0].tree) + count_nodes_entries(es.skip(1))
    }
}

/// The target entries whose name no source entry carries: the orphans of
/// one directory level, in target order.
pub open spec fn keep_missing(tes: Seq<TreeEntry>, src: Seq<TreeEntry>) -> Seq<TreeEntry>
    decreases tes,
{
    if tes.len() == 0 {
        Seq::<TreeEntry>::empty()
    } else {
        (if has_name(src, tes[0].name) {
            Seq::<TreeEntry>::empty()
        } else {
            seq![tes[0]]
        }) + keep_missing(tes.skip(1), src)
    }
}

/// What one sync does, over the model: the target tree afterwards (`None`
/// when nothing could be created), the number of file copies performed,
/// and the number of entries that failed (an `Other` source is refused).
/// In mirror mode the target entries absent from the source are dropped;
/// otherwise they are kept, after the synced entries.
pub open spec fn spec_sync(source: Tree, target: Option<Tree>, mirror: bool) -> (
    Option<Tree>,
    nat,
    nat,
)
    decreases source,
{
    match source {
        Tree::File { mtime, size } => {
            if spec_should_copy(mtime, size, target) {
                (Some(Tree::File { mtime, size }), 1 as nat, 0 as nat)
            } else {
                (target, 0 as nat, 0 as nat)
            }
        },
        Tree::Other => (target, 0 as nat, 1 as nat),
        Tree::Dir { entries } => {
            let tes = match target {
                Some(Tree::Dir { entries: t }) => t,
                _ => Seq::<TreeEntry>::empty(),
            };
            let r = spec_sync_entries(entries, tes, mirror);
            let leftovers = if mirror {
                Seq::<TreeEntry>::empty()
            } else {
                keep_missing(tes, entries)
            };
            (Some(Tree::Dir { entries: r.0 + leftovers }), r.1, r.2)
        },
    }
}

/// `entries_view` distributes over concatenation.
pub proof fn lemma_entries_view_concat(a: Seq<FsEntry>, b: Seq<FsEntry>)
    ensures
        entries_view(a + b) == entries_view(a) + entries_view(b),
    decreases a,
{
    if a.len() == 0 {
        assert(a + b =~= b);
        assert(entries_view(a) + entries_view(b) =~= entries_view(b));
    } else {
        lemma_entries_view_concat(a.skip(1), b);
        assert((a + b).skip(1) =~= a.skip(1) + b);
        assert(entries_view(a + b) =~= entries_view(a) + entries_view(b));
    }
}

/// The view of a one-entry list.
pub proof fn lemma_entries_view_one(e: FsEntry)
    ensures
        entries_view(seq![e]) == seq![
            (TreeEntry { name: e.name@, tree: tree_view(e.tree) }),
        ],
{
    reveal_with_fuel(entries_view, 2);
    assert(seq![e].skip(1) =~= Seq::<FsEntry>::empty());
    assert(entries_view(seq![e]) =~= seq![
        (TreeEntry { name: e.name@, tree: tree_view(e.tree) }),
    ]);
}

/// With unique names, the entry found at an index is the lookup result.
pub proof fn lemma_lookup_at(es: Seq<TreeEntry>, n: Seq<char>, k: int)
    requires
        unique_names(es),
        0 <= k < es.len(),
        es[k].name == n,
    ensures
        lookup(es, n) == Some(es[k].tree),
{
    assert(has_name(es, n));
    let j = choose|j: int| 0 <= j < es.len() && (#[trigger] es[j]).name == n;
    if j != k {
        assert(es[j].name == es[k].name);
    }
}

/// Syncs each source entry, in order, against the target entry of the
/// same name; an entry that could not be created contributes nothing.
pub open spec fn spec_sync_entries(src: Seq<TreeEntry>, tes: Seq<TreeEntry>, mirror: bool) -> (
    Seq<TreeEntry>,
    nat,
    nat,
)
    decreases src,
{
    if src.len() == 0 {
        (Seq::<TreeEntry>::empty(), 0 as nat, 0 as nat)
    } else {
        let head = src[0];
        let r0 = spec_sync(head.tree, lookup(tes, head.name), mirror);
        let rest = spec_sync_entries(src.skip(1), tes, mirror);
        let this = match r0.0 {
            Some(t) => seq![TreeEntry { name: head.name, tree: t }],
            None => Seq::<TreeEntry>::empty(),
        };
        ((this + rest.0), (r0.1 + rest.1) as nat, (r0.2 + rest.2) as nat)
    }
}

/// A directory member's node count is bounded by the entries' count.
proof fn lemma_count_member(es: Seq<TreeEntry>, i: int)
    requires
        0 <= i < es.len(),
    ensures
        count_nodes(es[i].tree) <= count_nodes_entries(es),
    decreases es,
{
    if i > 0 {
        lemma_count_member(es.skip(1), i - 1);
        assert(es.skip(1)[i - 1] == es[i]);
    }
}

/// A sync copies at most one file per source node and fails at most
/// once per source node.
pub proof fn lemma_sync_counts(source: Tree, target: Option<Tree>, mirror: bool)
    ensures
        spec_sync(source, target, mirror).1 <= count_nodes(source),
        spec_sync(source, target, mirror).2 <= count_nodes(source),
    decreases source,
{
    match source {
        Tree::Dir { entries } => {
            let tes = match target {
                Some(Tree::Dir { entries: t }) => t,
                _ => Seq::<TreeEntry>::empty(),
            };
            lemma_sync_entries_counts(entries, tes, mirror);
        },
        _ => {},
    }
}

proof fn lemma_sync_entries_counts(src: Seq<TreeEntry>, tes: Seq<TreeEntry>, mirror: bool)
    ensures
        spec_sync_entries(src, tes, mirror).1 <= count_nodes_entries(src),
        spec_sync_entries(src, tes, mirror).2 <= count_nodes_entries(src),
    decreases src,
{
    if src.len() > 0 {
        lemma_sync_counts(src[0].tree, lookup(tes, src[0].name), mirror);
        lemma_sync_entries_counts(src.skip(1), tes, mirror);
    }
}

/// The synced entries carry source names only, once each, and under a
/// source entry's name stands exactly the sync of that entry.
proof fn lemma_sync_entries_structure(src: Seq<TreeEntry>, tes: Seq<TreeEntry>, mirror: bool)
    requires
        unique_names(src),
    ensures
        forall|n: Seq<char>|
            #[trigger] has_name(spec_sync_entries(src, tes, mirror).0, n) ==> has_name(src, n),
        unique_names(spec_sync_entries(src, tes, mirror).0),
        forall|i: int|
            0 <= i < src.len() ==> lookup(
                spec_sync_entries(src, tes, mirror).0,
                (#[trigger] src[i]).name,
            ) == spec_sync(src[i].tree, lookup(tes, src[i].name), mirror).0,
    decreases src,
{
    let r = spec_sync_entries(src, tes, mirror);
    if src.len() > 0 {
        let head = src[0];
        let r0 = spec_sync(head.tree, lookup(tes, head.name), mirror);
        let rest = spec_sync_entries(src.skip(1), tes, mirror);
        assert(forall|i: int| 0 <= i < src.skip(1).len() ==> #[trigger] src.skip(1)[i] == src[i + 1]);
        assert(unique_names(src.skip(1)));
        lemma_sync_entries_structure(src.skip(1), tes, mirror);

        // Names of the result come from the source.
        assert forall|n: Seq<char>| #[trigger] has_name(r.0, n) implies has_name(src, n) by {
            let k = choose|k: int| 0 <= k < r.0.len() && (#[trigger] r.0[k]).name == n;
            if r0.0 is Some && k == 0 {
                assert(src[0].name == n);
            } else {
                let off: int = if r0.0 is Some {
                    1
                } else {
                    0
                };
                assert(rest.0[k - off].name == n);
                assert(has_name(rest.0, n));
                let m = choose|m: int|
                    0 <= m < src.skip(1).len() && (#[trigger] src.skip(1)[m]).name == n;
                assert(src[m + 1].name == n);
            }
        }
        // The head's name does not recur among the synced tail.
        assert(!has_name(src.skip(1), head.name)) by {
            if has_name(src.skip(1), head.name) {
                let m = choose|m: int|
                    0 <= m < src.skip(1).len() && (#[trigger] src.skip(1)[m]).name == head.name;
                assert(src[m + 1].name == src[0].name);
            }
        }
        assert(!has_name(rest.0, head.name));

        // Uniqueness of the result.
        assert forall|i: int, j: int| 0 <= i < j < r.0.len() implies r.0[i].name != r.0[j].name by {
            let off: int = if r0.0 is Some {
                1
            } else {
                0
            };
            if off == 1 && i == 0 {
                if r.0[j].name == head.name {
                    assert(rest.0[j - 1].name == head.name);
                    assert(has_name(rest.0, head.name));
                }
            } else {
                assert(r.0[i] == rest.0[i - off] && r.0[j] == rest.0[j - off]);
            }
        }

        // Lookup of each source name.
        assert forall|i: int| 0 <= i < src.len() implies lookup(r.0, (#[trigger] src[i]).name)
            == spec_sync(src[i].tree, lookup(tes, src[i].name), mirror).0 by {
            if i == 0 {
                match r0.0 {
                    Some(t) => {
                        assert(r.0[0] == (TreeEntry { name: head.name, tree: t }));
                        lemma_lookup_at(r.0, head.name, 0);
                    },
                    None => {
                        assert(r.0 =~= rest.0);
                        assert(!has_name(r.0, head.name));
                    },
                }
            } else {
                let n = src[i].name;
                assert(src.skip(1)[i - 1] == src[i]);
                assert(lookup(rest.0, n) == spec_sync(src[i].tree, lookup(tes, n), mirror).0);
                let off: int = if r0.0 is Some {
                    1
                } else {
                    0
                };
                if has_name(rest.0, n) {
                    let k = choose|k: int|
                        0 <= k < rest.0.len() && (#[trigger] rest.0[k]).name == n;
                    lemma_lookup_at(rest.0, n, k);
                    assert(r.0[k + off] == rest.0[k]);
                    lemma_lookup_at(r.0, n, k + off);
                } else {
                    assert(n != head.name) by {
                        assert(src.skip(1)[i - 1].name == n);
                    }
                    assert(!has_name(r.0, n)) by {
                        if has_name(r.0, n) {
                            let k = choose|k: int|
                                0 <= k < r.0.len() && (#[trigger] r.0[k]).name == n;
                            if off == 1 && k == 0 {
                            } else {
                                assert(rest.0[k - off].name == n);
                            }
                        }
                    }
                }
            }
        }
    }
}

/// The orphans kept by `keep_missing` are target entries whose name the
/// source does not carry; no name is added or doubled.
proof fn lemma_keep_missing(tes: Seq<TreeEntry>, src: Seq<TreeEntry>)
    ensures
        forall|n: Seq<char>|
            #[trigger] has_name(keep_missing(tes, src), n) ==> has_name(tes, n) && !has_name(
                src,
                n,
            ),
        unique_names(tes) ==> unique_names(keep_missing(tes, src)),
        forall|k: int|
            0 <= k < keep_missing(tes, src).len() ==> tes.contains(
                #[trigger] keep_missing(tes, src)[k],
            ),
    decreases tes,
{
    let r = keep_missing(tes, src);
    if tes.len() > 0 {
        let rest = keep_missing(tes.skip(1), src);
        lemma_keep_missing(tes.skip(1), src);
        let off: int = if has_name(src, tes[0].name) {
            0
        } else {
            1
        };
        assert(forall|k: int| 0 <= k < rest.len() ==> #[trigger] r[k + off] == rest[k]);

        assert forall|n: Seq<char>| #[trigger] has_name(r, n) implies has_name(tes, n)
            && !has_name(src, n) by {
            let k = choose|k: int| 0 <= k < r.len() && (#[trigger] r[k]).name == n;
            if off == 1 && k == 0 {
                assert(tes[0].name == n);
            } else {
                assert(rest[k - off].name == n);
                assert(has_name(rest, n));
                let m = choose|m: int|
                    0 <= m < tes.skip(1).len() && (#[trigger] tes.skip(1)[m]).name == n;
                assert(tes[m + 1].name == n);
            }
        }
        assert forall|k: int| 0 <= k < r.len() implies tes.contains(#[trigger] r[k]) by {
            if off == 1 && k == 0 {
                assert(tes[0] == r[0]);
            } else {
                assert(tes.skip(1).contains(r[k]));
                let m = choose|m: int| 0 <= m < tes.skip(1).len() && tes.skip(1)[m] == r[k];
                assert(tes[m + 1] == r[k]);
            }
        }
        if unique_names(tes) {
            assert(forall|i: int| 0 <= i < tes.skip(1).len() ==> #[trigger] tes.skip(1)[i]
                == tes[i + 1]);
            assert(unique_names(tes.skip(1)));
            assert(!has_name(tes.skip(1), tes[0].name)) by {
                if has_name(tes.skip(1), tes[0].name) {
                    let m = choose|m: int|
                        0 <= m < tes.skip(1).len() && (#[trigger] tes.skip(1)[m]).name == tes[0].name;
                    assert(tes[m + 1].name == tes[0].name);
                }
            }
            assert forall|i: int, j: int| 0 <= i < j < r.len() implies r[i].name != r[j].name by {
                if off == 1 && i == 0 {
                    if r[j].name == tes[0].name {
                        assert(rest[j - 1].name == tes[0].name);
                        assert(has_name(rest, tes[0].name));
                    }
                } else {
                    assert(r[i] == rest[i - off] && r[j] == rest[j - off]);
                }
            }
        }
    }
}

/// A sync leaves a well-formed target tree behind.
pub proof fn lemma_sync_wf(source: Tree, target: Option<Tree>, mirror: bool)
    requires
        wf(source),
        wf_opt(target),
    ensures
        wf_opt(spec_sync(source, target, mirror).0),
    decreases source,
{
    match source {
        Tree::Dir { entries } => {
            let tes = match target {
                Some(Tree::Dir { entries: t }) => t,
                _ => Seq::<TreeEntry>::empty(),
            };
            let r = spec_sync_entries(entries, tes, mirror);
            let leftovers = if mirror {
                Seq::<TreeEntry>::empty()
            } else {
                keep_missing(tes, entries)
            };
            lemma_sync_entries_structure(entries, tes, mirror);
            lemma_sync_entries_wf(entries, tes, mirror);
            lemma_keep_missing(tes, entries);
            let out = r.0 + leftovers;
            assert forall|i: int, j: int| 0 <= i < j < out.len() implies out[i].name != out[
                j].name by {
                if i < r.0.len() && j >= r.0.len() {
                    assert(out[j] == leftovers[j - r.0.len()]);
                    if out[i].name == out[j].name {
                        assert(has_name(r.0, out[i].name));
                        assert(has_name(leftovers, out[j].name));
                    }
                } else if i >= r.0.len() {
                    assert(out[i] == leftovers[i - r.0.len()] && out[j] == leftovers[j
                        - r.0.len()]);
                } else {
                    assert(out[i] == r.0[i] && out[j] == r.0[j]);
                }
            }
            assert forall|k: int| 0 <= k < out.len() implies wf((#[trigger] out[k]).tree) by {
                if k < r.0.len() {
                    assert(out[k] == r.0[k]);
                } else {
                    assert(out[k] == leftovers[k - r.0.len()]);
                    assert(tes.contains(leftovers[k - r.0.len()]));
                    let m = choose|m: int| 0 <= m < tes.len() && tes[m] == out[k];
                    assert(wf(tes[m].tree));
                }
            }
        },
        _ => {},
    }
}

/// Every synced entry's subtree is well formed.
proof fn lemma_sync_entries_wf(src: Seq<TreeEntry>, tes: Seq<TreeEntry>, mirror: bool)
    requires
        forall|i: int| 0 <= i < src.len() ==> wf((#[trigger] src[i]).tree),
        forall|j: int| 0 <= j < tes.len() ==> wf((#[trigger] tes[j]).tree),
    ensures
        forall|k: int|
            0 <= k < spec_sync_entries(src, tes, mirror).0.len() ==> wf(
                (#[trigger] spec_sync_entries(src, tes, mirror).0[k]).tree,
            ),
    decreases src,
{
    let r = spec_sync_entries(src, tes, mirror);
    if src.len() > 0 {
        let head = src[0];
        let r0 = spec_sync(head.tree, lookup(tes, head.name), mirror);
        let rest = spec_sync_entries(src.skip(1), tes, mirror);
        assert(wf_opt(lookup(tes, head.name)));
        lemma_sync_wf(head.tree, lookup(tes, head.name), mirror);
        assert(forall|i: int| 0 <= i < src.skip(1).len() ==> #[trigger] src.skip(1)[i] == src[
            i + 1]);
        lemma_sync_entries_wf(src.skip(1), tes, mirror);
        let off: int = if r0.0 is Some {
            1
        } else {
            0
        };
        assert forall|k: int| 0 <= k < r.0.len() implies wf((#[trigger] r.0[k]).tree) by {
            if off == 1 && k == 0 {
            } else {
                assert(r.0[k] == rest.0[k - off]);
            }
        }
    }
}

/// The law of idempotence: a second sync, right after a first one and
/// with the source unchanged, performs zero copies.
pub proof fn lemma_sync_idempotent(source: Tree, target: Option<Tree>, mirror: bool)
    requires
        wf(source),
        wf_opt(target),
    ensures
        spec_sync(source, spec_sync(source, target, mirror).0, mirror).1 == 0,
    decreases source,
{
    match source {
        Tree::Dir { entries } => {
            let tes = match target {
                Some(Tree::Dir { entries: t }) => t,
                _ => Seq::<TreeEntry>::empty(),
            };
            let r = spec_sync_entries(entries, tes, mirror);
            let leftovers = if mirror {
                Seq::<TreeEntry>::empty()
            } else {
                keep_missing(tes, entries)
            };
            let tes2 = r.0 + leftovers;
            lemma_sync_wf(source, target, mirror);
            lemma_sync_entries_structure(entries, tes, mirror);
            lemma_keep_missing(tes, entries);
            // Under each source name, the first sync's result is what the
            // second sync finds.
            assert forall|i: int| 0 <= i < entries.len() implies lookup(
                tes2,
                (#[trigger] entries[i]).name,
            ) == spec_sync(entries[i].tree, lookup(tes, entries[i].name), mirror).0 by {
                let n = entries[i].name;
                let child = spec_sync(entries[i].tree, lookup(tes, n), mirror).0;
                assert(lookup(r.0, n) == child);
                match child {
                    Some(t) => {
                        assert(has_name(r.0, n));
                        let k = choose|k: int|
                            0 <= k < r.0.len() && (#[trigger] r.0[k]).name == n;
                        lemma_lookup_at(r.0, n, k);
                        assert(tes2[k] == r.0[k]);
                        lemma_lookup_at(tes2, n, k);
                    },
                    None => {
                        assert(!has_name(r.0, n));
                        assert(!has_name(tes2, n)) by {
                            if has_name(tes2, n) {
                                let k = choose|k: int|
                                    0 <= k < tes2.len() && (#[trigger] tes2[k]).name == n;
                                if k < r.0.len() {
                                    assert(r.0[k].name == n);
                                } else {
                                    assert(leftovers[k - r.0.len()].name == n);
                                    assert(has_name(leftovers, n));
                                    assert(has_name(entries, n));
                                }
                            }
                        }
                    },
                }
            }
            lemma_sync_entries_idem(entries, tes, tes2, mirror);
        },
        _ => {},
    }
}

/// Helper for the idempotence law: when the second sync finds, under
/// each source name, exactly what the first sync left there, it copies
/// nothing.
proof fn lemma_sync_entries_idem(
    src: Seq<TreeEntry>,
    tes: Seq<TreeEntry>,
    tes2: Seq<TreeEntry>,
    mirror: bool,
)
    requires
        forall|i: int| 0 <= i < src.len() ==> wf((#[trigger] src[i]).tree),
        forall|j: int| 0 <= j < tes.len() ==> wf((#[trigger] tes[j]).tree),
        forall|i: int|
            0 <= i < src.len() ==> lookup(tes2, (#[trigger] src[i]).name) == spec_sync(
                src[i].tree,
                lookup(tes, src[i].name),
                mirror,
            ).0,
    ensures
        spec_sync_entries(src, tes2, mirror).1 == 0,
    decreases src,
{
    if src.len() > 0 {
        let head = src[0];
        assert(wf_opt(lookup(tes, head.name)));
        lemma_sync_idempotent(head.tree, lookup(tes, head.name), mirror);
        assert(forall|i: int| 0 <= i < src.skip(1).len() ==> #[trigger] src.skip(1)[i] == src[
            i + 1]);
        lemma_sync_entries_idem(src.skip(1), tes, tes2, mirror);
    }
}

/// An orphan of the target level survives `keep_missing`.
proof fn lemma_keep_missing_keeps(tes: Seq<TreeEntry>, src: Seq<TreeEntry>, n: Seq<char>)
    requires
        has_name(tes, n),
        !has_name(src, n),
    ensures
        has_name(keep_missing(tes, src), n),
    decreases tes,
{
    let k = choose|k: int| 0 <= k < tes.len() && (#[trigger] tes[k]).name == n;
    let r = keep_missing(tes, src);
    if k == 0 {
        assert(r[0] == tes[0]);
    } else {
        assert(tes.skip(1)[k - 1].name == n);
        assert(has_name(tes.skip(1), n));
        lemma_keep_missing_keeps(tes.skip(1), src, n);
        let rest = keep_missing(tes.skip(1), src);
        let m = choose|m: int| 0 <= m < rest.len() && (#[trigger] rest[m]).name == n;
        let off: int = if has_name(src, tes[0].name) {
            0
        } else {
            1
        };
        assert(r[m + off] == rest[m]);
    }
}

/// The law of mirror pruning: after a mirror sync of a directory, every
/// name the target carries is a source name — no orphan survives.
pub proof fn lemma_mirror_prunes(source: Tree, target: Option<Tree>, n: Seq<char>)
    requires
        wf(source),
        source is Dir,
    ensures
        ({
            let r = spec_sync(source, target, true).0;
            &&& r matches Some(t)
            &&& t is Dir
            &&& (has_name(t->Dir_entries, n) ==> has_name(source->Dir_entries, n))
        }),
{
    let entries = source->Dir_entries;
    let tes = match target {
        Some(Tree::Dir { entries: t }) => t,
        _ => Seq::<TreeEntry>::empty(),
    };
    lemma_sync_entries_structure(entries, tes, true);
    let r = spec_sync_entries(entries, tes, true);
    assert(r.0 + Seq::<TreeEntry>::empty() =~= r.0);
}

/// The law of non-mirror preservation: without the mirror flag, every
/// name the target held before the sync it still holds afterwards.
pub proof fn lemma_no_mirror_keeps(source: Tree, target: Tree, n: Seq<char>)
    requires
        wf(source),
        wf(target),
        source is Dir,
        target is Dir,
        has_name(target->Dir_entries, n),
    ensures
        ({
            let r = spec_sync(source, Some(target), false).0;
            &&& r matches Some(t)
            &&& t is Dir
            &&& has_name(t->Dir_entries, n)
        }),
{
    let entries = source->Dir_entries;
    let tes = target->Dir_entries;
    lemma_sync_entries_structure(entries, tes, false);
    let r = spec_sync_entries(entries, tes, false);
    let leftovers = keep_missing(tes, entries);
    if has_name(entries, n) {
        let i = choose|i: int| 0 <= i < entries.len() && (#[trigger] entries[i]).name == n;
        lemma_lookup_at(tes, n, choose|k: int|
            0 <= k < tes.len() && (#[trigger] tes[k]).name == n);
        // With the target entry present, the child sync always leaves a
        // tree behind, whatever the source entry's kind is.
        assert(lookup(tes, n) is Some);
        assert(spec_sync(entries[i].tree, lookup(tes, n), false).0 is Some);
        assert(lookup(r.0, entries[i].name) == spec_sync(entries[i].tree, lookup(tes, n), false).0);
        assert(has_name(r.0, n));
        let m = choose|m: int| 0 <= m < r.0.len() && (#[trigger] r.0[m]).name == n;
        assert((r.0 + leftovers)[m] == r.0[m]);
    } else {
        lemma_keep_missing_keeps(tes, entries, n);
        let m = choose|m: int| 0 <= m < leftovers.len() && (#[trigger] leftovers[m]).name == n;
        assert((r.0 + leftovers)[m + r.0.len()] == leftovers[m]);
    }
}

/// The law of copy correctness: after a sync of a directory, each source
/// file entry stands in the target under its own name, with the source's
/// byte size; its stamp is the source's, or a newer one that the
/// heuristic already accepted.
pub proof fn lemma_sync_file_content(source: Tree, target: Option<Tree>, mirror: bool, i: int)
    requires
        wf(source),
        wf_opt(target),
        source is Dir,
        0 <= i < source->Dir_entries.len(),
        source->Dir_entries[i].tree is File,
    ensures
        ({
            let r = spec_sync(source, target, mirror).0;
            let e = source->Dir_entries[i];
            &&& r matches Some(t)
            &&& t is Dir
            &&& (lookup(t->Dir_entries, e.name) matches Some(found) && found matches Tree::File {
                mtime: fm,
                size: fs,
            } && fs == e.tree->File_size && fm >= e.tree->File_mtime)
        }),
{
    let entries = source->Dir_entries;
    let tes = match target {
        Some(Tree::Dir { entries: t }) => t,
        _ => Seq::<TreeEntry>::empty(),
    };
    let r = spec_sync_entries(entries, tes, mirror);
    let leftovers = if mirror {
        Seq::<TreeEntry>::empty()
    } else {
        keep_missing(tes, entries)
    };
    lemma_sync_entries_structure(entries, tes, mirror);
    lemma_keep_missing(tes, entries);
    lemma_sync_wf(source, target, mirror);
    let e = entries[i];
    let child = spec_sync(e.tree, lookup(tes, e.name), mirror).0;
    assert(child is Some);
    assert(lookup(r.0, e.name) == child);
    let k = choose|k: int| 0 <= k < r.0.len() && (#[trigger] r.0[k]).name == e.name;
    assert((r.0 + leftovers)[k] == r.0[k]);
    lemma_lookup_at(r.0 + leftovers, e.name, k);
}

/// `keep_missing` distributes over concatenation of the target entries.
proof fn lemma_keep_missing_concat(a: Seq<TreeEntry>, b: Seq<TreeEntry>, src: Seq<TreeEntry>)
    ensures
        keep_missing(a + b, src) == keep_missing(a, src) + keep_missing(b, src),
    decreases a,
{
    if a.len() == 0 {
        assert(a + b =~= b);
        assert(keep_missing(a, src) + keep_missing(b, src) =~= keep_missing(b, src));
    } else {
        lemma_keep_missing_concat(a.skip(1), b, src);
        assert((a + b).skip(1) =~= a.skip(1) + b);
        assert(keep_missing(a + b, src) =~= keep_missing(a, src) + keep_missing(b, src));
    }
}

/// `keep_missing` of a single target entry.
proof fn lemma_keep_missing_one(e: TreeEntry, src: Seq<TreeEntry>)
    ensures
        keep_missing(seq![e], src) == (if has_name(src, e.name) {
            Seq::<TreeEntry>::empty()
        } else {
            seq![e]
        }),
{
    reveal_with_fuel(keep_missing, 2);
    assert(seq![e].skip(1) =~= Seq::<TreeEntry>::empty());
    if has_name(src, e.name) {
        assert(keep_missing(seq![e], src) =~= Seq::<TreeEntry>::empty());
    } else {
        assert(keep_missing(seq![e], src) =~= seq![e]);
    }
}

/// The copy heuristic on probed metadata, as the runtime's walk applies
/// it to one file: copy when the target is missing, the source is newer,
/// or the byte sizes differ.
pub fn should_copy(
    target_exists: bool,
    source_mtime: u64,
    source_size: u64,
    target_mtime: u64,
    target_size: u64,
) -> (r: bool)
    ensures
        r == (!target_exists || source_mtime > target_mtime || source_size != target_size),
{
    !target_exists || source_mtime > target_mtime || source_size != target_size
}

/// Whether some string in the list holds these characters.
pub open spec fn has_str(ss: Seq<String>, n: Seq<char>) -> bool {
    exists|k: int| 0 <= k < ss.len() && (#[trigger] ss[k])@ == n
}

/// Whether `name` occurs among `names`.
fn contains_str(names: &Vec<String>, name: &String) -> (r: bool)
    ensures
        r == has_str(names@, name@),
{
    let mut i: usize = 0;
    while i < names.len()
        invariant
            i <= names@.len(),
            forall|k: int| 0 <= k < i ==> (#[trigger] names@[k])@ != name@,
        decreases names@.len() - i,
    {
        if names[i] == *name {
            return true;
        }
        i = i + 1;
    }
    false
}

/// The orphans of one directory level: the target entry names that have
/// no source entry of the same name, in target order. In mirror mode
/// these are deleted before any recursion into children.
pub fn orphan_names(source_names: &Vec<String>, target_names: &Vec<String>) -> (r: Vec<String>)
    ensures
        r@ == target_names@.filter(|n: String| !has_str(source_names@, n@)),
{
    let ghost pred = |n: String| !has_str(source_names@, n@);
    let mut r: Vec<String> = Vec::new();
    let mut i: usize = 0;
    while i < target_names.len()
        invariant
            i <= target_names@.len(),
            r@ == target_names@.take(i as int).filter(pred),
            pred == (|n: String| !has_str(source_names@, n@)),
        decreases target_names@.len() - i,
    {
        proof {
            lemma_take_filter_step(target_names@, pred, i as int);
        }
        if !contains_str(source_names, &target_names[i]) {
            r.push(target_names[i].clone());
        }
        i = i + 1;
    }
    proof {
        lemma_take_all(target_names@);
    }
    r
}

/// The index of the entry carrying `name`, if any.
fn find_entry_index(tes: &Vec<FsEntry>, name: &String) -> (r: Option<usize>)
    ensures
        (r matches Some(j) ==> 0 <= j < tes@.len() && tes@[j as int].name@ == name@),
        (r is None ==> !has_name(entries_view(tes@), name@)),
{
    let mut i: usize = 0;
    while i < tes.len()
        invariant
            i <= tes@.len(),
            forall|k: int| 0 <= k < i ==> (#[trigger] tes@[k]).name@ != name@,
        decreases tes@.len() - i,
    {
        if tes[i].name == *name {
            return Some(i);
        }
        i = i + 1;
    }
    proof {
        lemma_entries_view(tes@);
    }
    None
}

/// A structurally equal copy of a tree.
#[verifier::loop_isolation(false)]
pub fn clone_tree(t: &FsTree) -> (r: FsTree)
    ensures
        r@ == t@,
    decreases t,
{
    match t {
        FsTree::File { mtime, size } => FsTree::File { mtime: *mtime, size: *size },
        FsTree::Other => FsTree::Other,
        FsTree::Dir { entries } => {
            let mut out: Vec<FsEntry> = Vec::new();
            let mut i: usize = 0;
            while i < entries.len()
                invariant
                    i <= entries@.len(),
                    entries_view(out@) == entries_view(entries@.take(i as int)),
                decreases entries@.len() - i,
            {
                let e = &entries[i];
                proof {
                    assert(t->Dir_entries == *entries);
                    assert(decreases_to!(*t => t->Dir_entries));
                    assert(decreases_to!(*entries => entries@));
                    assert(decreases_to!(entries@ => entries@[i as int]));
                    assert(decreases_to!(entries@[i as int] => entries@[i as int].tree));
                }
                let sub = clone_tree(&e.tree);
                let ghost prev = out@;
                out.push(FsEntry { name: e.name.clone(), tree: sub });
                proof {
                    assert(out@ =~= prev + seq![out@.last()]);
                    lemma_entries_view_concat(prev, seq![out@.last()]);
                    assert(entries@.take(i + 1) =~= entries@.take(i as int) + seq![
                        entries@[i as int],
                    ]);
                    lemma_entries_view_concat(entries@.take(i as int), seq![entries@[i as int]]);
                    lemma_entries_view_one(out@.last());
                    lemma_entries_view_one(entries@[i as int]);
                    assert(entries_view(seq![out@.last()]) =~= entries_view(
                        seq![entries@[i as int]],
                    ));
                }
                i = i + 1;
            }
            proof {
                lemma_take_all(entries@);
            }
            FsTree::Dir { entries: out }
        },
    }
}

/// The characters after the last `/` of a path; empty when the path ends
/// with a separator or is empty.
pub open spec fn tail_component(p: Seq<char>) -> Seq<char>
    decreases p.len(),
{
    if p.len() == 0 {
        Seq::<char>::empty()
    } else if p.last() == '/' {
        Seq::<char>::empty()
    } else {
        tail_component(p.drop_last()).push(p.last())
    }
}

/// Whether a file-name read steps over the path's last character: a
/// separator, or the dot of a trailing `.` component.
pub open spec fn trailing_skipped(p: Seq<char>) -> bool {
    p.len() > 0 && (p.last() == '/' || (p.last() == '.' && (p.len() == 1 || p[p.len() - 2]
        == '/')))
}

/// The file name a path denotes: its last component, ignoring trailing
/// separators and trailing `.` components, the way a path read does.
/// Empty when nothing remains; a final `..` component comes back
/// verbatim, for the caller to refuse.
pub open spec fn file_name_of(p: Seq<char>) -> Seq<char>
    decreases p.len(),
{
    if p.len() == 0 {
        Seq::<char>::empty()
    } else if trailing_skipped(p) {
        file_name_of(p.drop_last())
    } else {
        tail_component(p)
    }
}

/// Whether the file-name read steps over the character that ends the
/// prefix of the first `e` characters.
fn steps_over(source: &str, e: usize) -> (r: bool)
    requires
        e <= source@.len(),
    ensures
        r == trailing_skipped(source@.take(e as int)),
{
    if e == 0 {
        return false;
    }
    let c = source.get_char(e - 1);
    if c == '/' {
        true
    } else if c == '.' {
        e == 1 || source.get_char(e - 2) == '/'
    } else {
        false
    }
}

/// The destination for copying a source under its own name into the
/// target directory: the target path joined with the source's file name,
/// a trailing separator or `.` component ignored. A source without a
/// usable file name (none left, or a bare `..`) is refused with the
/// error the run records.
pub fn copy_with_name(source: &str, target: &str) -> (r: Result<String, String>)
    ensures
        (file_name_of(source@).len() == 0 || file_name_of(source@) == ".."@) ==> (r matches Err(m)
            && m@ == "Source path ["@ + source@ + "] has no file name"@),
        !(file_name_of(source@).len() == 0 || file_name_of(source@) == ".."@) ==> (r matches Ok(d)
            && d@ == target@ + seq!['/'] + file_name_of(source@)),
{
    let n = source.unicode_len();
    let mut e: usize = n;
    proof {
        assert(source@.take(n as int) =~= source@);
    }
    while steps_over(source, e)
        invariant
            e <= n,
            n == source@.len(),
            file_name_of(source@) == file_name_of(source@.take(e as int)),
        decreases e,
    {
        proof {
            let p = source@.take(e as int);
            assert(p.drop_last() =~= source@.take(e - 1));
        }
        e = e - 1;
    }
    let mut i: usize = e;
    proof {
        assert(source@.take(e as int).skip(e as int) =~= Seq::<char>::empty());
        assert(tail_component(source@.take(e as int)) =~= tail_component(source@.take(e as int))
            + source@.subrange(e as int, e as int));
    }
    while i > 0 && source.get_char(i - 1) != '/'
        invariant
            i <= e <= n,
            n == source@.len(),
            tail_component(source@.take(e as int)) == tail_component(source@.take(i as int))
                + source@.subrange(i as int, e as int),
        decreases i,
    {
        proof {
            let p = source@.take(i as int);
            assert(p.last() == source@[i - 1]);
            assert(p.drop_last() =~= source@.take(i - 1));
            assert(tail_component(source@.take(i - 1)).push(source@[i - 1]) + source@.subrange(
                i as int,
                e as int,
            ) =~= tail_component(source@.take(i - 1)) + source@.subrange(i - 1, e as int));
        }
        i = i - 1;
    }
    proof {
        if i > 0 {
            assert(source@.take(i as int).last() == '/');
            assert(tail_component(source@.take(i as int)) =~= Seq::<char>::empty());
        } else {
            assert(source@.take(0) =~= Seq::<char>::empty());
        }
        if e == 0 {
            assert(source@.subrange(0, 0) =~= Seq::<char>::empty());
        }
        assert(file_name_of(source@) =~= source@.subrange(i as int, e as int));
    }
    let name = source.substring_char(i, e);
    if name.unicode_len() == 0 || crate::strutil::str_eq(name, "..") {
        let mut m = String::from_str("Source path [");
        m.append(source);
        m.append("] has no file name");
        proof {
            reveal_strlit("..");
            assert(m@ =~= "Source path ["@ + source@ + "] has no file name"@);
        }
        Err(m)
    } else {
        let mut d = String::from_str(target);
        d.append("/");
        d.append(name);
        proof {
            reveal_strlit("/");
            reveal_strlit("..");
            assert(d@ =~= target@ + seq!['/'] + file_name_of(source@));
        }
        Ok(d)
    }
}

/// The outcome of one model-level sync: the target tree afterwards, and
/// how many file copies and how many failures the run would record.
pub struct SyncOutcome {
    pub tree: Option<FsTree>,
    pub copies: usize,
    pub failures: usize,
}

/// The ghost image of an owned optional tree.
pub open spec fn opt_view(t: Option<FsTree>) -> Option<Tree> {
    match t {
        Some(x) => Some(tree_view(x)),
        None => None,
    }
}

/// One sync over the model: reconciles the target tree to the source
/// tree, exactly as `spec_sync` describes — files are copied only when
/// the heuristic asks for it, an `Other` source fails and is skipped,
/// and in mirror mode the target's orphaned entries are dropped while
/// siblings of a failed entry are still synced.
#[verifier::loop_isolation(false)]
#[verifier::rlimit(60)]
pub fn sync_tree(source: &FsTree, target: Option<&FsTree>, mirror: bool) -> (r: SyncOutcome)
    requires
        wf(source@),
        wf_opt(view_opt(target)),
        count_nodes(source@) <= usize::MAX,
    ensures
        opt_view(r.tree) == spec_sync(source@, view_opt(target), mirror).0,
        r.copies == spec_sync(source@, view_opt(target), mirror).1,
        r.failures == spec_sync(source@, view_opt(target), mirror).2,
    decreases source,
{
    match source {
        FsTree::File { mtime, size } => {
            match target {
                Some(FsTree::File { mtime: tm, size: ts }) => {
                    if *mtime > *tm || *size != *ts {
                        SyncOutcome {
                            tree: Some(FsTree::File { mtime: *mtime, size: *size }),
                            copies: 1,
                            failures: 0,
                        }
                    } else {
                        SyncOutcome {
                            tree: Some(FsTree::File { mtime: *tm, size: *ts }),
                            copies: 0,
                            failures: 0,
                        }
                    }
                },
                _ => SyncOutcome {
                    tree: Some(FsTree::File { mtime: *mtime, size: *size }),
                    copies: 1,
                    failures: 0,
                },
            }
        },
        FsTree::Other => {
            let t = match target {
                Some(x) => Some(clone_tree(x)),
                None => None,
            };
            SyncOutcome { tree: t, copies: 0, failures: 1 }
        },
        FsTree::Dir { entries } => {
            let empty_tes: Vec<FsEntry> = Vec::new();
            let tes: &Vec<FsEntry> = match target {
                Some(FsTree::Dir { entries: t }) => t,
                _ => &empty_tes,
            };
            let ghost srcv = entries_view(entries@);
            let ghost tesv = entries_view(tes@);
            let ghost full = spec_sync_entries(srcv, tesv, mirror);
            proof {
                lemma_entries_view(entries@);
                lemma_entries_view(tes@);
                lemma_sync_entries_counts(srcv, tesv, mirror);
                assert(count_nodes(source@) == 1 + count_nodes_entries(srcv));
            }
            let mut out: Vec<FsEntry> = Vec::new();
            let mut copies: usize = 0;
            let mut failures: usize = 0;
            let mut i: usize = 0;
            proof {
                assert(srcv.skip(0) =~= srcv);
                assert(entries_view(out@) =~= Seq::<TreeEntry>::empty());
                assert(entries_view(out@) + full.0 =~= full.0);
            }
            while i < entries.len()
                invariant
                    i <= entries@.len(),
                    entries_view(out@) + spec_sync_entries(srcv.skip(i as int), tesv, mirror).0
                        =~= full.0,
                    copies + spec_sync_entries(srcv.skip(i as int), tesv, mirror).1 == full.1,
                    failures + spec_sync_entries(srcv.skip(i as int), tesv, mirror).2 == full.2,
                decreases entries@.len() - i,
            {
                let ghost rem = srcv.skip(i as int);
                proof {
                    assert(rem[0] == srcv[i as int]);
                    assert(rem.skip(1) =~= srcv.skip(i as int + 1));
                }
                let e = &entries[i];
                let idx = find_entry_index(tes, &e.name);
                let child_target: Option<&FsTree> = match idx {
                    Some(j) => Some(&tes[j].tree),
                    None => None,
                };
                proof {
                    match idx {
                        Some(j) => {
                            lemma_lookup_at(tesv, e.name@, j as int);
                        },
                        None => {},
                    }
                    assert(view_opt(child_target) == lookup(tesv, srcv[i as int].name));
                    assert(wf(srcv[i as int].tree));
                    assert(wf_opt(lookup(tesv, srcv[i as int].name)));
                    lemma_count_member(srcv, i as int);
                    assert(source->Dir_entries == *entries);
                    assert(decreases_to!(*source => source->Dir_entries));
                    assert(decreases_to!(*entries => entries@));
                    assert(decreases_to!(entries@ => entries@[i as int]));
                    assert(decreases_to!(entries@[i as int] => entries@[i as int].tree));
                }
                let cr = sync_tree(&e.tree, child_target, mirror);
                let ghost child_spec = spec_sync(
                    srcv[i as int].tree,
                    lookup(tesv, srcv[i as int].name),
                    mirror,
                );
                match cr.tree {
                    Some(t) => {
                        let ghost prev = out@;
                        out.push(FsEntry { name: e.name.clone(), tree: t });
                        proof {
                            assert(out@ =~= prev + seq![out@.last()]);
                            lemma_entries_view_concat(prev, seq![out@.last()]);
                            lemma_entries_view_one(out@.last());
                        }
                    },
                    None => (),
                }
                copies = copies + cr.copies;
                failures = failures + cr.failures;
                i = i + 1;
            }
            proof {
                assert(srcv.skip(srcv.len() as int) =~= Seq::<TreeEntry>::empty());
                assert(entries_view(out@) + Seq::<TreeEntry>::empty() =~= entries_view(out@));
                assert(entries_view(out@) =~= full.0);
            }
            if !mirror {
                let ghost synced = full.0;
                let mut k: usize = 0;
                while k < tes.len()
                    invariant
                        k <= tes@.len(),
                        entries_view(out@) =~= synced + keep_missing(tesv.take(k as int), srcv),
                    decreases tes@.len() - k,
                {
                    proof {
                        assert(tesv.take(k as int + 1) =~= tesv.take(k as int) + seq![
                            tesv[k as int],
                        ]);
                        lemma_keep_missing_concat(tesv.take(k as int), seq![tesv[k as int]], srcv);
                        lemma_keep_missing_one(tesv[k as int], srcv);
                    }
                    let te = &tes[k];
                    let present = find_entry_index(entries, &te.name);
                    match present {
                        Some(j) => {
                            proof {
                                assert(entries@[j as int].name@ == te.name@);
                                assert(srcv[j as int].name == tesv[k as int].name);
                                assert(has_name(srcv, tesv[k as int].name));
                            }
                        },
                        None => {
                            let ghost prev = out@;
                            out.push(
                                FsEntry { name: te.name.clone(), tree: clone_tree(&te.tree) },
                            );
                            proof {
                                assert(!has_name(srcv, tesv[k as int].name));
                                assert(out@ =~= prev + seq![out@.last()]);
                                lemma_entries_view_concat(prev, seq![out@.last()]);
                                lemma_entries_view_one(out@.last());
                                assert(entries_view(seq![out@.last()]) =~= seq![tesv[k as int]]);
                            }
                        },
                    }
                    k = k + 1;
                }
                proof {
                    assert(tesv.take(tesv.len() as int) =~= tesv);
                }
            }
            SyncOutcome { tree: Some(FsTree::Dir { entries: out }), copies, failures }
        },
    }
}

} // verus!
