//! The verified walks over a directory snapshot: finding `node_modules`
//! directories, aggregating sizes, and writing measured sizes back into the
//! records. Every directory-level step takes a permit from the shared pool
//! and returns it before its children run, so depth never multiplies the
//! number of permits out at once.

use vstd::prelude::*;

pub use crate::delete::nuke_node_modules;
use crate::limiter::Limiter;
use crate::node_modules::NodeModules;
use crate::node_modules::NodeModulesV;
use crate::tree::FsEntry;
use crate::tree::FsNode;
use crate::tree::find_upto;
use crate::tree::nm_name;
use crate::tree::node_size;
use crate::tree::size_upto;

verus! {

/// A typed failure of one of the walks. Failures below the starting
/// directory are recovered locally and never surface here; only the start
/// path itself can fail a whole call.
#[derive(Debug)]
pub enum WalkError {
    /// A directory's entries could not be enumerated; carries the path.
    DirectoryRead { path: Vec<String> },
    /// One entry's metadata or type could not be read; the entry is skipped.
    EntryMetadata,
    /// No permit could be acquired; the requesting branch fails.
    PermitAcquisition,
    /// One tree could not be removed; its contribution is zero.
    Deletion,
}

/// The views of a sequence of records.
pub open spec fn recs_view(s: Seq<NodeModules>) -> Seq<NodeModulesV> {
    s.map_values(|r: NodeModules| r@)
}

proof fn lemma_recs_view_push(s: Seq<NodeModules>, x: NodeModules)
    ensures
        recs_view(s.push(x)) == recs_view(s).push(x@),
{
    assert(recs_view(s.push(x)) =~= recs_view(s).push(x@));
}

proof fn lemma_recs_view_concat(a: Seq<NodeModules>, b: Seq<NodeModules>)
    ensures
        recs_view(a + b) == recs_view(a) + recs_view(b),
{
    assert(recs_view(a + b) =~= recs_view(a) + recs_view(b));
}

proof fn lemma_path_deep_view_push(a: Vec<String>, b: Vec<String>, s: String)
    requires
        b@ == a@.push(s),
    ensures
        b.deep_view() == a.deep_view().push(s@),
{
    assert(b.deep_view() =~= a.deep_view().push(s@));
}

/// Whether an entry name is exactly the reserved `node_modules` name.
fn is_node_modules(name: &String) -> (r: bool)
    ensures
        r == (name@ == nm_name()),
{
    let nm: String = "node_modules".to_owned();
    *name == nm
}

/// A copy of a path, component for component.
pub(crate) fn clone_path(p: &Vec<String>) -> (r: Vec<String>)
    ensures
        r.deep_view() == p.deep_view(),
{
    let mut r: Vec<String> = Vec::new();
    let mut i: usize = 0;
    while i < p.len()
        invariant
            i <= p@.len(),
            r@.len() == i,
            forall|j: int| 0 <= j < i ==> r@[j]@ == p@[j]@,
        decreases p@.len() - i,
    {
        r.push(p[i].clone());
        i = i + 1;
    }
    proof {
        assert(r.deep_view() =~= p.deep_view());
    }
    r
}

/// The walked size is non-decreasing in the number of entries counted.
proof fn lemma_size_upto_mono(entries: Seq<FsEntry>, i: int, j: int)
    requires
        0 <= i <= j <= entries.len(),
    ensures
        size_upto(entries, i) <= size_upto(entries, j),
    decreases j - i,
{
    if i < j {
        lemma_size_upto_mono(entries, i, j - 1);
    }
}

/// One directory level of the size walk: a permit is taken while this
/// level's entries are enumerated and returned before the children are
/// walked.
fn calc_dir_size(entries: &Vec<FsEntry>, lim: &mut Limiter) -> (s: u64)
    requires
        old(lim).wf(),
        old(lim).held() < old(lim).capacity(),
        size_upto(entries@, entries@.len() as int) <= u64::MAX,
    ensures
        final(lim).wf(),
        final(lim).same_state(old(lim)),
        s == size_upto(entries@, entries@.len() as int),
    decreases entries@,
{
    lim.acquire();
    lim.release();
    let mut s: u64 = 0;
    let mut idx: usize = 0;
    while idx < entries.len()
        invariant
            idx <= entries@.len(),
            s == size_upto(entries@, idx as int),
            size_upto(entries@, entries@.len() as int) <= u64::MAX,
            lim.wf(),
            lim.same_state(old(lim)),
            old(lim).held() < old(lim).capacity(),
        decreases entries@.len() - idx,
    {
        proof {
            lemma_size_upto_mono(entries@, idx + 1, entries@.len() as int);
        }
        let e = &entries[idx];
        let ghost eg = entries@[idx as int];
        let ghost e_meta: nat = if eg.meta_ok {
            eg.len as nat
        } else {
            0
        };
        let ghost e_sub: nat = if eg.kind_ok && eg.node is Dir && eg.node->Dir_readable {
            size_upto(eg.node->Dir_entries@, eg.node->Dir_entries@.len() as int)
        } else {
            0
        };
        assert(size_upto(entries@, idx + 1) == size_upto(entries@, idx as int) + e_meta + e_sub);
        if e.meta_ok {
            s = s + e.len;
        }
        if e.kind_ok {
            match &e.node {
                FsNode::Dir { readable, entries: sub_entries } => {
                    if *readable {
                        let sub = calc_dir_size(sub_entries, lim);
                        s = s + sub;
                    }
                },
                _ => {},
            }
        }
        idx = idx + 1;
    }
    s
}

/// The total on-disk size of one subtree: the sum of the metadata-reported
/// byte lengths of every entry found anywhere beneath `root`, descending
/// into every readable subdirectory and never following symbolic links.
/// Never fails outright: a root that is not a readable directory, like any
/// unreadable branch below, degrades to a zero contribution.
pub fn size_of(root: &FsNode, lim: &mut Limiter) -> (s: u64)
    requires
        old(lim).wf(),
        old(lim).held() < old(lim).capacity(),
        node_size(*root) <= u64::MAX,
    ensures
        final(lim).wf(),
        final(lim).same_state(old(lim)),
        s == node_size(*root),
    decreases *root,
{
    match root {
        FsNode::Dir { readable, entries } => {
            if *readable {
                calc_dir_size(entries, lim)
            } else {
                0
            }
        },
        _ => 0,
    }
}

fn entry_lookup<'a>(entries: &'a Vec<FsEntry>, name: &String) -> (r: Option<&'a FsEntry>)
    ensures
        ({
            let j = crate::tree::first_match_from(entries@, name@, 0);
            if j < entries@.len() {
                r matches Some(e) && *e == entries@[j]
            } else {
                r is None
            }
        }),
{
    let mut i: usize = 0;
    while i < entries.len()
        invariant
            i <= entries@.len(),
            crate::tree::first_match_from(entries@, name@, 0) == crate::tree::first_match_from(
                entries@,
                name@,
                i as int,
            ),
        decreases entries@.len() - i,
    {
        let ei = &entries[i];
        if ei.name == *name {
            return Some(ei);
        }
        i = i + 1;
    }
    None
}

/// The node the path's components lead to from `root`, or nothing where the
/// path no longer leads anywhere.
fn resolve<'a>(root: &'a FsNode, path: &Vec<String>, from: usize) -> (r: Option<&'a FsNode>)
    requires
        from <= path@.len(),
    ensures
        match crate::tree::resolve_node(*root, path.deep_view(), from as int) {
            Some(m) => r matches Some(n) && *n == m,
            None => r is None,
        },
    decreases path@.len() - from,
{
    if from == path.len() {
        return Some(root);
    }
    proof {
        assert(path.deep_view()[from as int] == path@[from as int]@);
    }
    match root {
        FsNode::Dir { readable: _, entries } => {
            let name = &path[from];
            match entry_lookup(entries, name) {
                Some(e) => resolve(&e.node, path, from + 1),
                None => None,
            }
        },
        _ => None,
    }
}

/// The sum, over the first `i` records, of the size of the subtree each
/// record's path leads to under `root` once its first `from` components (the
/// path of `root` itself) are skipped; zero where a path leads nowhere.
pub open spec fn sizes_total_upto(root: FsNode, recs: Seq<NodeModulesV>, from: int, i: int) -> nat
    decreases i,
{
    if i <= 0 || i > recs.len() {
        0
    } else {
        sizes_total_upto(root, recs, from, i - 1) + crate::tree::size_at(
            root,
            recs[i - 1].path,
            from,
        )
    }
}

proof fn lemma_sizes_total_mono(
    root: FsNode,
    recs: Seq<NodeModulesV>,
    from: int,
    i: int,
    j: int,
)
    requires
        0 <= i <= j <= recs.len(),
    ensures
        sizes_total_upto(root, recs, from, i) <= sizes_total_upto(root, recs, from, j),
    decreases j - i,
{
    if i < j {
        lemma_sizes_total_mono(root, recs, from, i, j - 1);
    }
}

/// Measure every record's subtree and write the size into the record, in
/// place, keyed by the record's position; return the grand total. Each
/// record's path is taken relative to `root` after its first `start_depth`
/// components, which name the walked root itself. One measurement per
/// record, all sharing one permit pool; a record whose path no longer leads
/// to a readable directory gets size zero, it never fails the batch.
pub fn calc_node_modules_sizes(
    node_modules: &mut Vec<NodeModules>,
    root: &FsNode,
    start_depth: usize,
    lim: &mut Limiter,
) -> (total: u64)
    requires
        old(lim).wf(),
        old(lim).held() < old(lim).capacity(),
        sizes_total_upto(
            *root,
            recs_view(old(node_modules)@),
            start_depth as int,
            old(node_modules)@.len() as int,
        ) <= u64::MAX,
    ensures
        final(lim).wf(),
        final(lim).same_state(old(lim)),
        final(node_modules)@.len() == old(node_modules)@.len(),
        forall|k: int|
            0 <= k < old(node_modules)@.len() ==> {
                &&& (#[trigger] final(node_modules)@[k])@.path == old(node_modules)@[k]@.path
                &&& final(node_modules)@[k]@.size == Some(
                    (crate::tree::size_at(
                        *root,
                        old(node_modules)@[k]@.path,
                        start_depth as int,
                    ) as u64),
                )
            },
        total == sizes_total_upto(
            *root,
            recs_view(old(node_modules)@),
            start_depth as int,
            old(node_modules)@.len() as int,
        ),
{
    let ghost orig = old(node_modules)@;
    let ghost recs0 = recs_view(old(node_modules)@);
    let mut total: u64 = 0;
    let mut i: usize = 0;
    while i < node_modules.len()
        invariant
            i <= orig.len(),
            node_modules@.len() == orig.len(),
            recs0 == recs_view(orig),
            recs0.len() == orig.len(),
            forall|k: int| i <= k < orig.len() ==> node_modules@[k] == orig[k],
            forall|k: int|
                0 <= k < i ==> {
                    &&& (#[trigger] node_modules@[k])@.path == orig[k]@.path
                    &&& node_modules@[k]@.size == Some(
                        (crate::tree::size_at(*root, orig[k]@.path, start_depth as int) as u64),
                    )
                },
            total == sizes_total_upto(*root, recs0, start_depth as int, i as int),
            sizes_total_upto(*root, recs0, start_depth as int, recs0.len() as int) <= u64::MAX,
            lim.wf(),
            lim.same_state(old(lim)),
            old(lim).held() < old(lim).capacity(),
        decreases orig.len() - i,
    {
        proof {
            lemma_sizes_total_mono(*root, recs0, start_depth as int, i + 1, recs0.len() as int);
            assert(sizes_total_upto(*root, recs0, start_depth as int, i + 1) == sizes_total_upto(
                *root,
                recs0,
                start_depth as int,
                i as int,
            ) + crate::tree::size_at(*root, recs0[i as int].path, start_depth as int));
            assert(recs0[i as int] == orig[i as int]@);
        }
        let p = clone_path(&node_modules[i].path);
        let sz: u64 = if start_depth <= p.len() {
            match resolve(root, &p, start_depth) {
                Some(n) => size_of(n, lim),
                None => 0,
            }
        } else {
            0
        };
        assert(sz == crate::tree::size_at(*root, orig[i as int]@.path, start_depth as int));
        let newr = NodeModules { path: p, size: Some(sz) };
        node_modules[i] = newr;
        total = total + sz;
        i = i + 1;
    }
    total
}

/// One directory level of the finder walk. A subdirectory named
/// `node_modules` is recorded and not descended into; any other readable
/// subdirectory is walked in turn; everything else is ignored. The permit
/// for this level is returned before the children run.
fn find_node_modules_inner(prefix: &Vec<String>, entries: &Vec<FsEntry>, lim: &mut Limiter) -> (r:
    Vec<NodeModules>)
    requires
        old(lim).wf(),
        old(lim).held() < old(lim).capacity(),
    ensures
        final(lim).wf(),
        final(lim).same_state(old(lim)),
        recs_view(r@) == find_upto(prefix.deep_view(), entries@, entries@.len() as int),
    decreases entries@,
{
    lim.acquire();
    lim.release();
    let mut out: Vec<NodeModules> = Vec::new();
    let mut idx: usize = 0;
    while idx < entries.len()
        invariant
            idx <= entries@.len(),
            recs_view(out@) == find_upto(prefix.deep_view(), entries@, idx as int),
            lim.wf(),
            lim.same_state(old(lim)),
            old(lim).held() < old(lim).capacity(),
        decreases entries@.len() - idx,
    {
        let ghost out_before = out@;
        let e = &entries[idx];
        if e.kind_ok {
            match &e.node {
                FsNode::Dir { readable, entries: sub_entries } => {
                    if is_node_modules(&e.name) {
                        let mut p = clone_path(prefix);
                        let name_copy = e.name.clone();
                        let ghost p_before = p;
                        p.push(name_copy);
                        proof {
                            lemma_path_deep_view_push(p_before, p, e.name);
                        }
                        let rec = NodeModules::new(p);
                        out.push(rec);
                        proof {
                            lemma_recs_view_push(out_before, out@.last());
                        }
                    } else if *readable {
                        let mut p = clone_path(prefix);
                        let name_copy = e.name.clone();
                        let ghost p_before = p;
                        p.push(name_copy);
                        proof {
                            lemma_path_deep_view_push(p_before, p, e.name);
                        }
                        let mut child = find_node_modules_inner(&p, sub_entries, lim);
                        let ghost child_seq = child@;
                        out.append(&mut child);
                        proof {
                            lemma_recs_view_concat(out_before, child_seq);
                        }
                    }
                },
                _ => {},
            }
        }
        idx = idx + 1;
        assert(recs_view(out@) == find_upto(prefix.deep_view(), entries@, idx as int));
    }
    out
}

/// Find every `node_modules` directory under the starting directory, in
/// depth-first entry order, each recorded with its path and no size yet.
/// Descent stops at a match, so nothing nested inside a found directory is
/// recorded separately. Fails only where the starting directory itself
/// cannot be enumerated.
pub fn find_node_modules(start_path: &Vec<String>, root: &FsNode, lim: &mut Limiter) -> (r: Result<
    Vec<NodeModules>,
    WalkError,
>)
    requires
        old(lim).wf(),
        old(lim).held() < old(lim).capacity(),
    ensures
        final(lim).wf(),
        final(lim).same_state(old(lim)),
        match *root {
            FsNode::Dir { readable: true, entries } => {
                &&& r matches Ok(v)
                &&& recs_view(v@) == find_upto(
                    start_path.deep_view(),
                    entries@,
                    entries@.len() as int,
                )
            },
            _ => {
                &&& r matches Err(e)
                &&& e matches WalkError::DirectoryRead { path }
                &&& path.deep_view() == start_path.deep_view()
            },
        },
{
    match root {
        FsNode::Dir { readable, entries } => {
            if *readable {
                Ok(find_node_modules_inner(start_path, entries, lim))
            } else {
                Err(WalkError::DirectoryRead { path: clone_path(start_path) })
            }
        },
        _ => Err(WalkError::DirectoryRead { path: clone_path(start_path) }),
    }
}

} // verus!

