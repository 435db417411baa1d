//! The deletion executor: a flat bounded batch over already-identified
//! directories. The disk is modelled as the list of directory paths that
//! exist; removing one tree removes the path and every path under it. Each
//! record's tree is removed as one operation under a permit; a tree that no
//! longer exists contributes zero and is left alone, it never fails the
//! batch.

use vstd::prelude::*;

use crate::limiter::Limiter;
use crate::node_modules::NodeModules;
use crate::node_modules::NodeModulesV;
use crate::node_modules::size_or_zero;
use crate::fs::recs_view;
use crate::tree::is_prefix;

verus! {

/// The paths among the first `i` of `disk` that do not lie at or under `p`:
/// what a recursive removal of the tree at `p` leaves of them.
pub open spec fn keep_upto(disk: Seq<Seq<Seq<char>>>, p: Seq<Seq<char>>, i: int) -> Seq<
    Seq<Seq<char>>,
>
    decreases i,
{
    if i <= 0 || i > disk.len() {
        Seq::empty()
    } else {
        let prev = keep_upto(disk, p, i - 1);
        if is_prefix(p, disk[i - 1]) {
            prev
        } else {
            prev.push(disk[i - 1])
        }
    }
}

/// The disk after the tree at `p` is removed: every path at or under `p` is
/// gone, everything else stays, in order.
pub open spec fn remove_prefixed(disk: Seq<Seq<Seq<char>>>, p: Seq<Seq<char>>) -> Seq<
    Seq<Seq<char>>,
> {
    keep_upto(disk, p, disk.len() as int)
}

/// The disk after the first `i` records' trees are removed, in order: a
/// record whose path still exists has its tree removed; one whose path is
/// already gone changes nothing.
pub open spec fn delete_disk_upto(
    disk: Seq<Seq<Seq<char>>>,
    recs: Seq<NodeModulesV>,
    i: int,
) -> Seq<Seq<Seq<char>>>
    decreases i,
{
    if i <= 0 || i > recs.len() {
        disk
    } else {
        let d = delete_disk_upto(disk, recs, i - 1);
        if d.contains(recs[i - 1].path) {
            remove_prefixed(d, recs[i - 1].path)
        } else {
            d
        }
    }
}

/// The bytes reclaimed by the first `i` removals: each record whose path
/// still existed when its turn came contributes its recorded size (zero
/// where none was recorded), every other record contributes zero.
pub open spec fn delete_total_upto(
    disk: Seq<Seq<Seq<char>>>,
    recs: Seq<NodeModulesV>,
    i: int,
) -> nat
    decreases i,
{
    if i <= 0 || i > recs.len() {
        0
    } else {
        delete_total_upto(disk, recs, i - 1) + if delete_disk_upto(disk, recs, i - 1).contains(
            recs[i - 1].path,
        ) {
            size_or_zero(recs[i - 1]) as nat
        } else {
            0
        }
    }
}

/// The sum of the recorded sizes of the first `i` records.
pub open spec fn sum_sizes(recs: Seq<NodeModulesV>, i: int) -> nat
    decreases i,
{
    if i <= 0 || i > recs.len() {
        0
    } else {
        sum_sizes(recs, i - 1) + size_or_zero(recs[i - 1]) as nat
    }
}

proof fn lemma_delete_total_mono(disk: Seq<Seq<Seq<char>>>, recs: Seq<NodeModulesV>, i: int, j: int)
    requires
        0 <= i <= j <= recs.len(),
    ensures
        delete_total_upto(disk, recs, i) <= delete_total_upto(disk, recs, j),
    decreases j - i,
{
    if i < j {
        lemma_delete_total_mono(disk, recs, i, j - 1);
    }
}

proof fn lemma_keep_props(disk: Seq<Seq<Seq<char>>>, p: Seq<Seq<char>>, i: int)
    requires
        0 <= i <= disk.len(),
    ensures
        forall|x: Seq<Seq<char>>|
            #[trigger] keep_upto(disk, p, i).contains(x) ==> disk.contains(x) && !is_prefix(p, x),
        forall|j: int|
            0 <= j < i && !is_prefix(p, disk[j]) ==> keep_upto(disk, p, i).contains(disk[j]),
    decreases i,
{
    if i > 0 {
        lemma_keep_props(disk, p, i - 1);
        let prev = keep_upto(disk, p, i - 1);
        let cur = keep_upto(disk, p, i);
        assert forall|x: Seq<Seq<char>>| #[trigger] cur.contains(x) implies disk.contains(x)
            && !is_prefix(p, x) by {
            let idx = choose|idx: int| 0 <= idx < cur.len() && cur[idx] == x;
            if idx < prev.len() {
                assert(prev.contains(x));
            } else {
                assert(x == disk[i - 1]);
                assert(disk.contains(x));
            }
        }
        assert forall|j: int| 0 <= j < i && !is_prefix(p, disk[j]) implies cur.contains(
            disk[j],
        ) by {
            if j < i - 1 {
                let idx = choose|idx: int| 0 <= idx < prev.len() && prev[idx] == disk[j];
                if is_prefix(p, disk[i - 1]) {
                    assert(cur[idx] == disk[j]);
                } else {
                    assert(cur[idx] == disk[j]);
                }
            } else {
                assert(cur[cur.len() - 1] == disk[i - 1]);
            }
        }
    }
}

proof fn lemma_delete_run(disk: Seq<Seq<Seq<char>>>, recs: Seq<NodeModulesV>, k: int)
    requires
        0 <= k <= recs.len(),
        forall|i: int| 0 <= i < recs.len() ==> disk.contains(#[trigger] recs[i].path),
        forall|i: int, j: int|
            0 <= i < recs.len() && 0 <= j < recs.len() && i != j ==> !is_prefix(
                recs[i].path,
                recs[j].path,
            ),
    ensures
        forall|j: int|
            k <= j < recs.len() ==> delete_disk_upto(disk, recs, k).contains(
                #[trigger] recs[j].path,
            ),
        forall|j: int|
            0 <= j < k ==> !delete_disk_upto(disk, recs, k).contains(#[trigger] recs[j].path),
        delete_total_upto(disk, recs, k) == sum_sizes(recs, k),
    decreases k,
{
    if k > 0 {
        lemma_delete_run(disk, recs, k - 1);
        let d = delete_disk_upto(disk, recs, k - 1);
        let p = recs[k - 1].path;
        assert(d.contains(p));
        let cur = delete_disk_upto(disk, recs, k);
        lemma_keep_props(d, p, d.len() as int);
        assert(cur == remove_prefixed(d, p));
        assert forall|j: int| k <= j < recs.len() implies cur.contains(
            #[trigger] recs[j].path,
        ) by {
            assert(d.contains(recs[j].path));
            let idx = choose|idx: int| 0 <= idx < d.len() && d[idx] == recs[j].path;
            assert(!is_prefix(p, recs[j].path));
            assert(cur.contains(d[idx]));
        }
        assert forall|j: int| 0 <= j < k implies !cur.contains(#[trigger] recs[j].path) by {
            if j == k - 1 {
                assert(is_prefix(p, p));
                if cur.contains(p) {
                    assert(!is_prefix(p, p));
                }
            } else {
                if cur.contains(recs[j].path) {
                    assert(d.contains(recs[j].path));
                }
            }
        }
    }
}

/// Law: deleting a batch of records whose directories all still exist, none
/// lying under another, removes every one of them from the disk and returns
/// exactly the sum of their recorded sizes.
pub proof fn lemma_delete_all_removes_existing(disk: Seq<Seq<Seq<char>>>, recs: Seq<NodeModulesV>)
    requires
        forall|i: int| 0 <= i < recs.len() ==> disk.contains(#[trigger] recs[i].path),
        forall|i: int, j: int|
            0 <= i < recs.len() && 0 <= j < recs.len() && i != j ==> !is_prefix(
                recs[i].path,
                recs[j].path,
            ),
    ensures
        delete_total_upto(disk, recs, recs.len() as int) == sum_sizes(recs, recs.len() as int),
        forall|j: int|
            0 <= j < recs.len() ==> !delete_disk_upto(disk, recs, recs.len() as int).contains(
                #[trigger] recs[j].path,
            ),
{
    lemma_delete_run(disk, recs, recs.len() as int);
}

/// Law: deleting a batch of records whose directories are all already gone
/// reclaims nothing and leaves the disk untouched; every removal fails in
/// isolation, the batch never does.
pub proof fn lemma_delete_all_already_gone(disk: Seq<Seq<Seq<char>>>, recs: Seq<NodeModulesV>)
    requires
        forall|i: int| 0 <= i < recs.len() ==> !disk.contains(#[trigger] recs[i].path),
    ensures
        delete_total_upto(disk, recs, recs.len() as int) == 0,
        delete_disk_upto(disk, recs, recs.len() as int) == disk,
{
    lemma_delete_gone_run(disk, recs, recs.len() as int);
}

proof fn lemma_delete_gone_run(disk: Seq<Seq<Seq<char>>>, recs: Seq<NodeModulesV>, k: int)
    requires
        0 <= k <= recs.len(),
        forall|i: int| 0 <= i < recs.len() ==> !disk.contains(#[trigger] recs[i].path),
    ensures
        delete_disk_upto(disk, recs, k) == disk,
        delete_total_upto(disk, recs, k) == 0,
    decreases k,
{
    if k > 0 {
        lemma_delete_gone_run(disk, recs, k - 1);
    }
}

fn path_eq(a: &Vec<String>, b: &Vec<String>) -> (r: bool)
    ensures
        r == (a.deep_view() == b.deep_view()),
{
    if a.len() != b.len() {
        proof {
            assert(a.deep_view().len() == a@.len());
            assert(b.deep_view().len() == b@.len());
        }
        return false;
    }
    let mut i: usize = 0;
    while i < a.len()
        invariant
            a@.len() == b@.len(),
            i <= a@.len(),
            forall|k: int| 0 <= k < i ==> a@[k]@ == b@[k]@,
        decreases a@.len() - i,
    {
        let ai = &a[i];
        let bi = &b[i];
        if !(*ai == *bi) {
            proof {
                assert(a.deep_view()[i as int] == a@[i as int]@);
                assert(b.deep_view()[i as int] == b@[i as int]@);
            }
            return false;
        }
        i = i + 1;
    }
    proof {
        assert(a.deep_view() =~= b.deep_view());
    }
    true
}

fn path_is_prefix(p: &Vec<String>, q: &Vec<String>) -> (r: bool)
    ensures
        r == is_prefix(p.deep_view(), q.deep_view()),
{
    if p.len() > q.len() {
        proof {
            assert(p.deep_view().len() == p@.len());
            assert(q.deep_view().len() == q@.len());
        }
        return false;
    }
    let mut i: usize = 0;
    while i < p.len()
        invariant
            p@.len() <= q@.len(),
            i <= p@.len(),
            forall|k: int| 0 <= k < i ==> q.deep_view()[k] == p.deep_view()[k],
        decreases p@.len() - i,
    {
        let pi = &p[i];
        let qi = &q[i];
        if !(*pi == *qi) {
            proof {
                assert(p.deep_view()[i as int] == p@[i as int]@);
                assert(q.deep_view()[i as int] == q@[i as int]@);
            }
            return false;
        }
        i = i + 1;
    }
    true
}

fn disk_contains(disk: &Vec<Vec<String>>, p: &Vec<String>) -> (r: bool)
    ensures
        r == disk.deep_view().contains(p.deep_view()),
{
    let mut i: usize = 0;
    while i < disk.len()
        invariant
            i <= disk@.len(),
            forall|k: int| 0 <= k < i ==> disk.deep_view()[k] != p.deep_view(),
        decreases disk@.len() - i,
    {
        if path_eq(&disk[i], p) {
            proof {
                assert(disk.deep_view()[i as int] == p.deep_view());
            }
            return true;
        }
        proof {
            assert(disk.deep_view()[i as int] == disk@[i as int].deep_view());
        }
        i = i + 1;
    }
    false
}

fn remove_tree(disk: &mut Vec<Vec<String>>, p: &Vec<String>)
    ensures
        final(disk).deep_view() == remove_prefixed(old(disk).deep_view(), p.deep_view()),
{
    let ghost orig = old(disk).deep_view();
    let mut out: Vec<Vec<String>> = Vec::new();
    let mut i: usize = 0;
    while i < disk.len()
        invariant
            i <= disk@.len(),
            disk.deep_view() == orig,
            out.deep_view() == keep_upto(orig, p.deep_view(), i as int),
        decreases disk@.len() - i,
    {
        let ghost out_before = out.deep_view();
        proof {
            assert(disk.deep_view()[i as int] == disk@[i as int].deep_view());
        }
        if !path_is_prefix(p, &disk[i]) {
            let q = crate::fs::clone_path(&disk[i]);
            out.push(q);
            proof {
                assert(out.deep_view() =~= out_before.push(disk@[i as int].deep_view()));
            }
        }
        i = i + 1;
    }
    *disk = out;
}

/// Remove every record's directory tree from the disk, each removal one
/// bounded operation under a permit, and return the total bytes reclaimed: a
/// record whose path still exists contributes its recorded size; one whose
/// tree is already gone contributes zero and never fails the batch.
pub fn nuke_node_modules(
    node_modules: &Vec<NodeModules>,
    disk: &mut Vec<Vec<String>>,
    lim: &mut Limiter,
) -> (total: u64)
    requires
        old(lim).wf(),
        old(lim).held() < old(lim).capacity(),
        delete_total_upto(
            old(disk).deep_view(),
            recs_view(node_modules@),
            node_modules@.len() as int,
        ) <= u64::MAX,
    ensures
        final(lim).wf(),
        final(lim).same_state(old(lim)),
        final(disk).deep_view() == delete_disk_upto(
            old(disk).deep_view(),
            recs_view(node_modules@),
            node_modules@.len() as int,
        ),
        total == delete_total_upto(
            old(disk).deep_view(),
            recs_view(node_modules@),
            node_modules@.len() as int,
        ),
{
    let ghost orig = old(disk).deep_view();
    let ghost recs = recs_view(node_modules@);
    let mut total: u64 = 0;
    let mut i: usize = 0;
    while i < node_modules.len()
        invariant
            i <= node_modules@.len(),
            recs == recs_view(node_modules@),
            recs.len() == node_modules@.len(),
            disk.deep_view() == delete_disk_upto(orig, recs, i as int),
            total == delete_total_upto(orig, recs, i as int),
            delete_total_upto(orig, recs, recs.len() as int) <= u64::MAX,
            lim.wf(),
            lim.same_state(old(lim)),
            old(lim).held() < old(lim).capacity(),
        decreases node_modules@.len() - i,
    {
        proof {
            lemma_delete_total_mono(orig, recs, i + 1, recs.len() as int);
            assert(recs[i as int] == node_modules@[i as int]@);
        }
        lim.acquire();
        let rec = &node_modules[i];
        if disk_contains(disk, &rec.path) {
            remove_tree(disk, &rec.path);
            total = total + rec.size_bytes();
        }
        lim.release();
        i = i + 1;
    }
    total
}

} // verus!
