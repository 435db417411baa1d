//! Snapshot model of a directory tree, and the meaning of the walks over it.
//!
//! A node is a file, a symbolic link, or a directory with named entries. Each
//! entry carries what the walker learns about it at its parent: the
//! metadata-reported byte length (with a flag for metadata that could not be
//! read) and a flag for a file type that could not be resolved. A directory
//! carries whether its own listing succeeds. Symbolic links are never
//! followed.

use vstd::prelude::*;

verus! {

/// One node of the tree: a file, a symbolic link (never followed), or a
/// directory. An unreadable directory is one whose listing fails: a walk
/// rooted there fails as a branch and contributes nothing from below it.
pub enum FsNode {
    File,
    Symlink,
    Dir { readable: bool, entries: Vec<FsEntry> },
}

/// One directory entry: its name, the byte length its metadata reports
/// (`meta_ok` is false where metadata cannot be read, and the length then
/// counts as zero), whether its file type could be resolved (`kind_ok`), and
/// the node it leads to.
pub struct FsEntry {
    pub name: String,
    pub len: u64,
    pub meta_ok: bool,
    pub kind_ok: bool,
    pub node: FsNode,
}

/// The reserved directory name the finder stops at.
pub open spec fn nm_name() -> Seq<char> {
    "node_modules"@
}

/// The bytes the size walk counts across the first `i` entries of a listed
/// directory: each entry contributes its metadata length (zero where
/// metadata cannot be read), and a readable subdirectory whose type resolved
/// additionally contributes the walk of its own entries. Symbolic links are
/// not descended into; an unreadable subdirectory contributes only its
/// metadata length.
pub open spec fn size_upto(entries: Seq<FsEntry>, i: int) -> nat
    decreases entries, i,
{
    if i <= 0 || i > entries.len() {
        0
    } else {
        let e = entries[i - 1];
        let meta: nat = if e.meta_ok {
            e.len as nat
        } else {
            0
        };
        let sub: nat = if e.kind_ok {
            match e.node {
                FsNode::Dir { readable, entries: sub_entries } => {
                    if readable {
                        size_upto(sub_entries@, sub_entries@.len() as int)
                    } else {
                        0
                    }
                },
                _ => 0,
            }
        } else {
            0
        };
        size_upto(entries, i - 1) + meta + sub
    }
}

/// The size the aggregation reports for a whole node: the walk of its
/// entries where it is a readable directory, zero otherwise (a root whose
/// listing fails degrades to zero, it does not fail the operation).
pub open spec fn node_size(n: FsNode) -> nat {
    match n {
        FsNode::Dir { readable, entries } => {
            if readable {
                size_upto(entries@, entries@.len() as int)
            } else {
                0
            }
        },
        _ => 0,
    }
}

/// `p` is a prefix of `q` as component sequences: `q` lies at or under `p`.
pub open spec fn is_prefix(p: Seq<Seq<char>>, q: Seq<Seq<char>>) -> bool {
    p.len() <= q.len() && forall|k: int| 0 <= k < p.len() ==> q[k] == p[k]
}

/// The index of the first entry at or after `i` whose name is `name`, or the
/// number of entries where there is none.
pub open spec fn first_match_from(entries: Seq<FsEntry>, name: Seq<char>, i: int) -> int
    decreases entries.len() - i,
{
    if i < 0 || i >= entries.len() {
        entries.len() as int
    } else if entries[i].name@ == name {
        i
    } else {
        first_match_from(entries, name, i + 1)
    }
}

/// The node the path's components from position `i` on lead to from `n`,
/// following at each directory its first entry of the wanted name; `None`
/// where a component is missing or something other than a directory stands
/// in the way.
pub open spec fn resolve_node(n: FsNode, path: Seq<Seq<char>>, i: int) -> Option<FsNode>
    decreases path.len() - i,
{
    if i < 0 || i > path.len() {
        None
    } else if i == path.len() {
        Some(n)
    } else {
        match n {
            FsNode::Dir { readable: _, entries } => {
                let j = first_match_from(entries@, path[i], 0);
                if j < entries@.len() {
                    resolve_node(entries@[j].node, path, i + 1)
                } else {
                    None
                }
            },
            _ => None,
        }
    }
}

/// The size the aggregation reports for the subtree the path's components
/// from position `from` on lead to under `root`: the size of that node, or
/// zero where the path no longer leads anywhere (a vanished tree degrades to
/// zero, it is not an error).
pub open spec fn size_at(root: FsNode, path: Seq<Seq<char>>, from: int) -> nat {
    match resolve_node(root, path, from) {
        Some(n) => node_size(n),
        None => 0,
    }
}

/// The records the finder collects across the first `i` entries of a listed
/// directory, depth first and in entry order. A subdirectory named
/// `node_modules` is recorded, with no size yet, and not descended into; any
/// other readable subdirectory is descended into; an unreadable one fails as
/// a branch and contributes nothing. Entries that are not directories, are
/// symbolic links, or whose type could not be resolved are ignored.
pub open spec fn find_upto(prefix: Seq<Seq<char>>, entries: Seq<FsEntry>, i: int) -> Seq<
    crate::node_modules::NodeModulesV,
>
    decreases entries, i,
{
    if i <= 0 || i > entries.len() {
        Seq::empty()
    } else {
        let e = entries[i - 1];
        let here: Seq<crate::node_modules::NodeModulesV> = if e.kind_ok {
            match e.node {
                FsNode::Dir { readable, entries: sub_entries } => {
                    if e.name@ == nm_name() {
                        seq![
                            crate::node_modules::NodeModulesV {
                                path: prefix.push(e.name@),
                                size: None,
                            },
                        ]
                    } else if readable {
                        find_upto(prefix.push(e.name@), sub_entries@, sub_entries@.len() as int)
                    } else {
                        Seq::empty()
                    }
                },
                _ => Seq::empty(),
            }
        } else {
            Seq::empty()
        };
        find_upto(prefix, entries, i - 1) + here
    }
}

/// How many `node_modules` directories stand at non-overlapping branches of
/// the first `i` entries: one per `node_modules` directory reachable without
/// passing through another one (descent stops at a match, so nothing nested
/// inside a found directory is counted).
pub open spec fn nm_branch_count(entries: Seq<FsEntry>, i: int) -> nat
    decreases entries, i,
{
    if i <= 0 || i > entries.len() {
        0
    } else {
        let e = entries[i - 1];
        let here: nat = if e.kind_ok {
            match e.node {
                FsNode::Dir { readable, entries: sub_entries } => {
                    if e.name@ == nm_name() {
                        1
                    } else if readable {
                        nm_branch_count(sub_entries@, sub_entries@.len() as int)
                    } else {
                        0
                    }
                },
                _ => 0,
            }
        } else {
            0
        };
        nm_branch_count(entries, i - 1) + here
    }
}

/// The sum of the byte lengths of the files among the first `i` entries and,
/// at any depth, under the directories among them.
pub open spec fn files_size_upto(entries: Seq<FsEntry>, i: int) -> nat
    decreases entries, i,
{
    if i <= 0 || i > entries.len() {
        0
    } else {
        let e = entries[i - 1];
        let here: nat = match e.node {
            FsNode::File => if e.meta_ok {
                e.len as nat
            } else {
                0
            },
            FsNode::Dir { readable: _, entries: sub_entries } => {
                files_size_upto(sub_entries@, sub_entries@.len() as int)
            },
            FsNode::Symlink => 0,
        };
        files_size_upto(entries, i - 1) + here
    }
}

/// A tree with no errors in the way of the size walk: every directory's type
/// resolved, every directory readable, and no directory or symbolic link
/// reporting a byte length of its own (so only files weigh anything).
pub open spec fn clean_tree(entries: Seq<FsEntry>, i: int) -> bool
    decreases entries, i,
{
    if i <= 0 || i > entries.len() {
        true
    } else {
        let e = entries[i - 1];
        let here: bool = match e.node {
            FsNode::File => true,
            FsNode::Symlink => !e.meta_ok || e.len == 0,
            FsNode::Dir { readable, entries: sub_entries } => {
                &&& e.kind_ok
                &&& readable
                &&& (!e.meta_ok || e.len == 0)
                &&& clean_tree(sub_entries@, sub_entries@.len() as int)
            },
        };
        clean_tree(entries, i - 1) && here
    }
}

/// Law: the size walk counts exactly the files. On a tree whose directories
/// all list and weigh nothing of their own, the walked size over the first
/// `i` entries is exactly the sum of the byte lengths of the readable files
/// at any depth among them; a file whose metadata cannot be read is excluded
/// from both sides (the walk degrades, it does not fail).
pub proof fn lemma_size_counts_files(entries: Seq<FsEntry>, i: int)
    requires
        0 <= i <= entries.len(),
        clean_tree(entries, i),
    ensures
        size_upto(entries, i) == files_size_upto(entries, i),
    decreases entries, i,
{
    if i > 0 {
        lemma_size_counts_files(entries, i - 1);
        let e = entries[i - 1];
        if e.kind_ok && e.node is Dir && e.node->Dir_readable {
            lemma_size_counts_files(
                e.node->Dir_entries@,
                e.node->Dir_entries@.len() as int,
            );
        }
    }
}

/// Law: the finder returns exactly one record per `node_modules` directory
/// standing at a non-overlapping branch. A found directory is recorded once
/// and not descended into, so whatever is nested inside it, `node_modules`
/// directories included, adds nothing to the count.
pub proof fn lemma_find_counts_branches(prefix: Seq<Seq<char>>, entries: Seq<FsEntry>, i: int)
    requires
        0 <= i <= entries.len(),
    ensures
        find_upto(prefix, entries, i).len() == nm_branch_count(entries, i),
    decreases entries, i,
{
    if i > 0 {
        lemma_find_counts_branches(prefix, entries, i - 1);
        let e = entries[i - 1];
        if e.kind_ok && e.node is Dir && e.name@ != nm_name() && e.node->Dir_readable {
            lemma_find_counts_branches(
                prefix.push(e.name@),
                e.node->Dir_entries@,
                e.node->Dir_entries@.len() as int,
            );
        }
    }
}

/// Law: no junk among the finder's records. Every record the walk of the
/// first `i` entries yields is still unmeasured, lies strictly below the
/// walked directory's own path, and is itself named `node_modules`.
pub proof fn lemma_find_records_shape(prefix: Seq<Seq<char>>, entries: Seq<FsEntry>, i: int)
    requires
        0 <= i <= entries.len(),
    ensures
        forall|k: int|
            0 <= k < find_upto(prefix, entries, i).len() ==> {
                let r = #[trigger] find_upto(prefix, entries, i)[k];
                &&& r.size is None
                &&& r.path.len() > prefix.len()
                &&& r.path.subrange(0, prefix.len() as int) == prefix
                &&& r.path.last() == nm_name()
            },
    decreases entries, i,
{
    if i > 0 {
        lemma_find_records_shape(prefix, entries, i - 1);
        let e = entries[i - 1];
        if e.kind_ok && e.node is Dir {
            if e.name@ == nm_name() {
                assert(prefix.push(e.name@).subrange(0, prefix.len() as int) =~= prefix);
            } else if e.node->Dir_readable {
                let sub = e.node->Dir_entries@;
                let p2 = prefix.push(e.name@);
                lemma_find_records_shape(p2, sub, sub.len() as int);
                let part = find_upto(p2, sub, sub.len() as int);
                assert forall|k: int| 0 <= k < part.len() implies (#[trigger] part[k]).path.subrange(
                    0,
                    prefix.len() as int,
                ) == prefix by {
                    assert(part[k].path.subrange(0, p2.len() as int) == p2);
                    assert forall|idx: int| 0 <= idx < prefix.len() implies part[k].path[idx]
                        == prefix[idx] by {
                        assert(part[k].path.subrange(0, p2.len() as int)[idx] == part[k].path[idx]);
                        assert(p2[idx] == prefix[idx]);
                    }
                    assert(part[k].path.subrange(0, prefix.len() as int) =~= prefix);
                }
            }
        }
    }
}

/// Sibling entries all carry distinct names, as entries of a real directory
/// do.
pub open spec fn unique_names(entries: Seq<FsEntry>) -> bool {
    forall|a: int, b: int| 0 <= a < b < entries.len() ==> entries[a].name@ != entries[b].name@
}

/// A well-formed listing: within the first `i` entries, every subdirectory's
/// own listing has unique names, recursively.
pub open spec fn wf_upto(entries: Seq<FsEntry>, i: int) -> bool
    decreases entries, i,
{
    if i <= 0 || i > entries.len() {
        true
    } else {
        let e = entries[i - 1];
        wf_upto(entries, i - 1) && match e.node {
            FsNode::Dir { readable: _, entries: sub } => {
                unique_names(sub@) && wf_upto(sub@, sub@.len() as int)
            },
            _ => true,
        }
    }
}

/// Law: the finder's records lie at non-overlapping branches. On a
/// well-formed tree no recorded path is a prefix of another, distinct
/// records included twice over: descent stops at a match, and sibling
/// branches bear distinct names. This is exactly what the deletion laws ask
/// of a batch of records.
pub proof fn lemma_find_paths_non_overlapping(
    prefix: Seq<Seq<char>>,
    entries: Seq<FsEntry>,
    i: int,
)
    requires
        0 <= i <= entries.len(),
        unique_names(entries),
        wf_upto(entries, i),
    ensures
        forall|k1: int, k2: int|
            0 <= k1 < find_upto(prefix, entries, i).len() && 0 <= k2 < find_upto(
                prefix,
                entries,
                i,
            ).len() && k1 != k2 ==> !is_prefix(
                (#[trigger] find_upto(prefix, entries, i)[k1]).path,
                (#[trigger] find_upto(prefix, entries, i)[k2]).path,
            ),
        forall|k: int|
            0 <= k < find_upto(prefix, entries, i).len() ==> exists|j: int|
                0 <= j < i && (#[trigger] find_upto(prefix, entries, i)[k]).path[prefix.len() as int]
                    == entries[j].name@,
    decreases entries, i,
{
    let part = find_upto(prefix, entries, i);
    let plen = prefix.len() as int;
    if i > 0 {
        lemma_find_paths_non_overlapping(prefix, entries, i - 1);
        lemma_find_records_shape(prefix, entries, i - 1);
        lemma_find_records_shape(prefix, entries, i);
        let e = entries[i - 1];
        let prev = find_upto(prefix, entries, i - 1);
        let here: Seq<crate::node_modules::NodeModulesV> = if e.kind_ok && e.node is Dir {
            if e.name@ == nm_name() {
                seq![crate::node_modules::NodeModulesV { path: prefix.push(e.name@), size: None }]
            } else if e.node->Dir_readable {
                find_upto(
                    prefix.push(e.name@),
                    e.node->Dir_entries@,
                    e.node->Dir_entries@.len() as int,
                )
            } else {
                Seq::empty()
            }
        } else {
            Seq::empty()
        };
        assert(part == prev + here);
        if e.kind_ok && e.node is Dir && e.name@ != nm_name() && e.node->Dir_readable {
            let p2 = prefix.push(e.name@);
            let sub = e.node->Dir_entries@;
            lemma_find_paths_non_overlapping(p2, sub, sub.len() as int);
            lemma_find_records_shape(p2, sub, sub.len() as int);
            assert forall|k: int| 0 <= k < here.len() implies (#[trigger] here[k]).path[plen]
                == e.name@ by {
                assert(here[k].path.subrange(0, p2.len() as int) == p2);
                assert(here[k].path.subrange(0, p2.len() as int)[plen] == here[k].path[plen]);
                assert(p2[plen] == e.name@);
            }
        }
        assert forall|k: int| 0 <= k < here.len() implies (#[trigger] here[k]).path[plen]
            == e.name@ && here[k].path.len() > plen by {
            if e.kind_ok && e.node is Dir && e.name@ == nm_name() {
                assert(here[k].path == prefix.push(e.name@));
            }
        }
        assert forall|k: int| 0 <= k < part.len() implies exists|j: int|
            0 <= j < i && (#[trigger] part[k]).path[plen] == entries[j].name@ by {
            if k < prev.len() {
                assert(part[k] == prev[k]);
                let j = choose|j: int|
                    0 <= j < i - 1 && (#[trigger] prev[k]).path[plen] == entries[j].name@;
                assert(0 <= j < i && part[k].path[plen] == entries[j].name@);
            } else {
                assert(part[k] == here[k - prev.len()]);
                assert(0 <= i - 1 < i && part[k].path[plen] == entries[i - 1].name@);
            }
        }
        assert forall|k1: int, k2: int|
            0 <= k1 < part.len() && 0 <= k2 < part.len() && k1 != k2 implies !is_prefix(
            (#[trigger] part[k1]).path,
            (#[trigger] part[k2]).path,
        ) by {
            let r1 = part[k1];
            let r2 = part[k2];
            if k1 < prev.len() && k2 < prev.len() {
                assert(r1 == prev[k1] && r2 == prev[k2]);
            } else if k1 >= prev.len() && k2 >= prev.len() {
                assert(r1 == here[k1 - prev.len()] && r2 == here[k2 - prev.len()]);
            } else {
                let (ka, kb) = if k1 < prev.len() {
                    (k1, k2)
                } else {
                    (k2, k1)
                };
                let ra = prev[ka];
                let rb = here[kb - prev.len()];
                let j = choose|j: int|
                    0 <= j < i - 1 && (#[trigger] prev[ka]).path[plen] == entries[j].name@;
                assert(entries[j].name@ != entries[i - 1].name@);
                assert(ra.path[plen] != rb.path[plen]);
                assert(ra.path.len() > plen && rb.path.len() > plen);
                if is_prefix(ra.path, rb.path) {
                    assert(rb.path[plen] == ra.path[plen]);
                }
                if is_prefix(rb.path, ra.path) {
                    assert(ra.path[plen] == rb.path[plen]);
                }
            }
        }
    }
}

/// Law: the finder is a function of the snapshot alone. Two runs over an
/// unmodified tree yield the same set of paths (their order is not part of
/// the guarantee).
pub proof fn lemma_find_idempotent(
    prefix: Seq<Seq<char>>,
    entries: Seq<FsEntry>,
    r1: Seq<crate::node_modules::NodeModulesV>,
    r2: Seq<crate::node_modules::NodeModulesV>,
)
    requires
        r1 == find_upto(prefix, entries, entries.len() as int),
        r2 == find_upto(prefix, entries, entries.len() as int),
    ensures
        r1.map_values(|r: crate::node_modules::NodeModulesV| r.path).to_set()
            == r2.map_values(|r: crate::node_modules::NodeModulesV| r.path).to_set(),
{
}

} // verus!
