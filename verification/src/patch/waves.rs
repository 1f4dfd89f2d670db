//! The order in which the entries of a patch are applied.
//!
//! An entry may be patched from a file that another entry overwrites. The
//! first must then be applied before the second.

use crate::error::Message;
use crate::ordered;
use crate::patch::plan;
use crate::patch::plan::{PatchPlan, PlannedPatchSource};
use crate::patch::steps;
use crate::path;
use crate::path::{FilePath, PathModel};
use crate::text;
use vstd::prelude::*;

verus! {

/// Whether an earlier entry goes by a path.
pub open spec fn taken(plan: PatchPlan, i: int, path: PathModel) -> bool {
    exists|j: int| 0 <= j < i && #[trigger] plan::alias(plan, j, path)
}

/// The path by which an entry and an earlier one both go. Of two such paths it
/// is the one that comes first in the order of paths.
pub open spec fn clash_at(plan: PatchPlan, i: int) -> Option<PathModel> {
    let written = plan.entries@[i].destination@;
    let logical = plan::logical_destination(plan, i);
    if taken(plan, i, written) && taken(plan, i, logical) {
        if ordered::path_less(logical, written) {
            Some(logical)
        } else {
            Some(written)
        }
    } else if taken(plan, i, written) {
        Some(written)
    } else if taken(plan, i, logical) {
        Some(logical)
    } else {
        None
    }
}

/// The first clash of the entries from the `i`th on.
pub open spec fn clash_from(plan: PatchPlan, i: int) -> Option<PathModel>
    decreases plan.entries@.len() - i,
{
    if i < 0 || i >= plan.entries@.len() {
        None
    } else if clash_at(plan, i) is Some {
        clash_at(plan, i)
    } else {
        clash_from(plan, i + 1)
    }
}

/// Whether entry `i` must be applied before entry `w`: it is patched from a
/// file that `w` overwrites.
pub open spec fn before(plan: PatchPlan, i: int, w: int) -> bool {
    &&& 0 <= i < plan.entries@.len()
    &&& 0 <= w < plan.entries@.len()
    &&& i != w
    &&& plan.base(i) is Some
    &&& plan::alias(plan, w, plan.base(i)->0)
}

/// Whether an entry is applied within the first `k` waves: everything that
/// must come before it is applied within the first `k - 1`.
pub open spec fn settled(plan: PatchPlan, k: nat, i: int) -> bool
    decreases k,
{
    &&& k > 0
    &&& 0 <= i < plan.entries@.len()
    &&& forall|j: int| #[trigger] before(plan, j, i) ==> settled(plan, (k - 1) as nat, j)
}

/// Whether an entry is applied in wave `k`.
pub open spec fn in_wave(plan: PatchPlan, k: nat, i: int) -> bool {
    settled(plan, k + 1, i) && !settled(plan, k, i)
}

/// Whether a list names the entries of wave `k`, in rising order.
pub open spec fn is_wave(plan: PatchPlan, k: nat, list: Seq<usize>) -> bool {
    &&& list.len() > 0
    &&& forall|a: int, b: int| 0 <= a < b < list.len() ==> list[a] < list[b]
    &&& forall|i: usize| #[trigger] list.contains(i) <==> in_wave(plan, k, i as int)
}

/// Whether lists are the waves of a plan, all of them.
pub open spec fn are_waves(plan: PatchPlan, waves: Seq<Vec<usize>>) -> bool {
    &&& forall|k: int| 0 <= k < waves.len() ==> is_wave(plan, k as nat, (#[trigger] waves[k])@)
    &&& forall|i: int|
        0 <= i < plan.entries@.len() ==> #[trigger] settled(plan, waves.len(), i)
}

/// The names of the entries among the first `m` that can never be applied.
pub open spec fn blocked_names(plan: PatchPlan, m: int) -> Seq<Seq<char>>
    decreases m,
{
    if m <= 0 {
        Seq::empty()
    } else if settled(plan, plan.entries@.len(), m - 1) {
        blocked_names(plan, m - 1)
    } else {
        blocked_names(plan, m - 1).push(plan.entries@[m - 1].name@)
    }
}

/// What keeps the entries from being ordered, if anything does.
pub open spec fn order_fault(plan: PatchPlan) -> Option<Seq<char>> {
    let blocked = blocked_names(plan, plan.entries@.len() as int);
    if clash_from(plan, 0) is Some {
        Some("Patch plan has multiple writers for "@ + clash_from(plan, 0)->0.text())
    } else if blocked.len() > 0 {
        Some(
            "Patch dependency graph contains a destructive overwrite cycle: "@ + path::joined(
                blocked,
                ", "@,
            ),
        )
    } else {
        None
    }
}

/// Later waves keep what earlier ones settled.
pub proof fn lemma_settled_grows(plan: PatchPlan, k: nat, i: int)
    requires
        settled(plan, k, i),
    ensures
        settled(plan, k + 1, i),
    decreases k,
{
    assert forall|j: int| #[trigger] before(plan, j, i) implies settled(plan, k, j) by {
        assert(settled(plan, (k - 1) as nat, j));
        lemma_settled_grows(plan, (k - 1) as nat, j);
    }
}

/// Later waves keep what earlier ones settled.
pub proof fn lemma_settled_stays(plan: PatchPlan, k: nat, m: nat, i: int)
    requires
        settled(plan, k, i),
        k <= m,
    ensures
        settled(plan, m, i),
    decreases m - k,
{
    if k < m {
        lemma_settled_grows(plan, k, i);
        lemma_settled_stays(plan, k + 1, m, i);
    }
}

/// A wave that settles nothing is the end.
proof fn lemma_settled_stops(plan: PatchPlan, k: nat, m: nat)
    requires
        forall|i: int| !(#[trigger] in_wave(plan, k, i)),
        k <= m,
    ensures
        forall|i: int| #[trigger] settled(plan, m, i) <==> settled(plan, k, i),
    decreases m - k,
{
    if k < m {
        lemma_settled_stops(plan, k, (m - 1) as nat);
        assert forall|i: int| #[trigger] settled(plan, m, i) <==> settled(plan, k, i) by {
            if settled(plan, m, i) {
                assert forall|j: int| #[trigger] before(plan, j, i) implies settled(plan, k, j) by {
                    assert(settled(plan, (m - 1) as nat, j));
                }
                assert(settled(plan, k + 1, i));
                assert(!in_wave(plan, k, i));
            }
            if settled(plan, k, i) {
                lemma_settled_stays(plan, k, m, i);
            }
        }
    }
}

proof fn lemma_no_clash(plan: PatchPlan, i: int, k: int)
    requires
        0 <= i <= k < plan.entries@.len(),
        clash_from(plan, i) is None,
    ensures
        clash_at(plan, k) is None,
    decreases k - i,
{
    if i < k {
        lemma_no_clash(plan, i + 1, k);
    }
}

/// Where nothing clashes, each path is gone by by one entry at most.
pub(crate) proof fn lemma_one_writer(plan: PatchPlan, i: int, j: int, path: PathModel)
    requires
        clash_from(plan, 0) is None,
        0 <= i < plan.entries@.len(),
        0 <= j < plan.entries@.len(),
        plan::alias(plan, i, path),
        plan::alias(plan, j, path),
    ensures
        i == j,
{
    if i < j {
        lemma_no_clash(plan, 0, j);
        assert(taken(plan, j, path));
    } else if j < i {
        lemma_no_clash(plan, 0, i);
        assert(taken(plan, i, path));
    }
}

/// The paths of the entries in the install.
fn logical_destinations(plan: &PatchPlan) -> (paths: Vec<FilePath>)
    ensures
        paths@.len() == plan.entries@.len(),
        forall|i: int|
            0 <= i < paths@.len() ==> (#[trigger] paths@[i])@ == plan::logical_destination(
                *plan,
                i,
            ),
{
    let root = plan.logical_vfs_root();
    let mut paths: Vec<FilePath> = Vec::new();
    let mut k: usize = 0;
    while k < plan.entries.len()
        invariant
            root@ == plan.vfs_root(),
            k == paths@.len(),
            k <= plan.entries@.len(),
            forall|i: int|
                0 <= i < k ==> (#[trigger] paths@[i])@ == plan::logical_destination(*plan, i),
        decreases plan.entries@.len() - k,
    {
        paths.push(root.join(&FilePath::parse(plan.entries[k].name.as_str())));
        k = k + 1;
    }
    paths
}

/// The first entry among the first `n` that goes by a path.
fn find_writer(plan: &PatchPlan, logical: &Vec<FilePath>, n: usize, wanted: &FilePath) -> (found:
    Option<usize>)
    requires
        n <= plan.entries@.len(),
        logical@.len() == plan.entries@.len(),
        forall|i: int|
            0 <= i < logical@.len() ==> (#[trigger] logical@[i])@ == plan::logical_destination(
                *plan,
                i,
            ),
    ensures
        match found {
            Some(w) => w < n && plan::alias(*plan, w as int, wanted@),
            None => !taken(*plan, n as int, wanted@),
        },
{
    let mut k: usize = 0;
    while k < n
        invariant
            k <= n <= plan.entries@.len(),
            logical@.len() == plan.entries@.len(),
            forall|i: int|
                0 <= i < logical@.len() ==> (#[trigger] logical@[i])@
                    == plan::logical_destination(*plan, i),
            forall|j: int| 0 <= j < k ==> !(#[trigger] plan::alias(*plan, j, wanted@)),
        decreases n - k,
    {
        if plan.entries[k].destination.same(wanted) || logical[k].same(wanted) {
            return Some(k);
        }
        k = k + 1;
    }
    None
}

fn find_clash(plan: &PatchPlan, logical: &Vec<FilePath>) -> (clash: Option<FilePath>)
    requires
        logical@.len() == plan.entries@.len(),
        forall|i: int|
            0 <= i < logical@.len() ==> (#[trigger] logical@[i])@ == plan::logical_destination(
                *plan,
                i,
            ),
    ensures
        match clash {
            Some(path) => clash_from(*plan, 0) == Some(path@),
            None => clash_from(*plan, 0) is None,
        },
{
    let mut k: usize = 0;
    while k < plan.entries.len()
        invariant
            k <= plan.entries@.len(),
            logical@.len() == plan.entries@.len(),
            forall|i: int|
                0 <= i < logical@.len() ==> (#[trigger] logical@[i])@
                    == plan::logical_destination(*plan, i),
            clash_from(*plan, 0) == clash_from(*plan, k as int),
        decreases plan.entries@.len() - k,
    {
        let written = &plan.entries[k].destination;
        let by_written = find_writer(plan, logical, k, written);
        let by_logical = find_writer(plan, logical, k, &logical[k]);
        if let Some(w) = by_written {
            assert(plan::alias(*plan, w as int, written@));
        }
        if let Some(w) = by_logical {
            assert(plan::alias(*plan, w as int, logical@[k as int]@));
        }
        if by_written.is_some() && by_logical.is_some() {
            if ordered::path_before(&logical[k], written) {
                return Some(logical[k].copied());
            }
            return Some(written.copied());
        }
        if by_written.is_some() {
            return Some(written.copied());
        }
        if by_logical.is_some() {
            return Some(logical[k].copied());
        }
        k = k + 1;
    }
    None
}

/// For each entry, the entry that overwrites what it is patched from.
fn overwriters(plan: &PatchPlan, logical: &Vec<FilePath>) -> (targets: Vec<Option<usize>>)
    requires
        clash_from(*plan, 0) is None,
        logical@.len() == plan.entries@.len(),
        forall|i: int|
            0 <= i < logical@.len() ==> (#[trigger] logical@[i])@ == plan::logical_destination(
                *plan,
                i,
            ),
    ensures
        targets@.len() == plan.entries@.len(),
        forall|i: int, w: int|
            0 <= i < targets@.len() && 0 <= w < plan.entries@.len() ==> (#[trigger] before(
                *plan,
                i,
                w,
            ) <==> targets@[i] == Some(w as usize)),
        forall|i: int|
            0 <= i < targets@.len() && (#[trigger] targets@[i]) is Some ==> targets@[i]->0
                < plan.entries@.len(),
{
    let mut targets: Vec<Option<usize>> = Vec::new();
    let n = plan.entries.len();
    let mut k: usize = 0;
    while k < n
        invariant
            k == targets@.len(),
            k <= n,
            n == plan.entries@.len(),
            clash_from(*plan, 0) is None,
            logical@.len() == plan.entries@.len(),
            forall|i: int|
                0 <= i < logical@.len() ==> (#[trigger] logical@[i])@
                    == plan::logical_destination(*plan, i),
            forall|i: int, w: int|
                0 <= i < k && 0 <= w < n ==> (#[trigger] before(*plan, i, w) <==> targets@[i]
                    == Some(w as usize)),
            forall|i: int|
                0 <= i < k && (#[trigger] targets@[i]) is Some ==> targets@[i]->0 < n,
        decreases n - k,
    {
        let mut target: Option<usize> = None;
        if let PlannedPatchSource::Hdiff { base, .. } = &plan.entries[k].source {
            let found = find_writer(plan, logical, n, base);
            proof {
                assert(plan.base(k as int) == Some(base@));
                assert forall|w: int| 0 <= w < n && #[trigger] before(
                    *plan,
                    k as int,
                    w,
                ) implies found == Some(w as usize) && w != k by {
                    match found {
                        Some(f) => {
                            lemma_one_writer(*plan, f as int, w, base@);
                        },
                        None => {
                            assert(plan::alias(*plan, w, base@));
                        },
                    }
                }
            }
            if let Some(w) = found {
                if w != k {
                    target = Some(w);
                }
            }
        }
        targets.push(target);
        k = k + 1;
    }
    targets
}

/// The entries that are not done and that no entry that is not done must come
/// before.
fn next_wave(targets: &Vec<Option<usize>>, done: &Vec<bool>) -> (wave: Vec<usize>)
    requires
        targets@.len() == done@.len(),
        forall|i: int|
            0 <= i < targets@.len() && (#[trigger] targets@[i]) is Some ==> targets@[i]->0
                < done@.len(),
    ensures
        forall|a: int, b: int| 0 <= a < b < wave@.len() ==> wave@[a] < wave@[b],
        forall|i: usize| #[trigger]
            wave@.contains(i) <==> i < done@.len() && !done@[i as int] && forall|j: int|
                0 <= j < targets@.len() && #[trigger] targets@[j] == Some(i) ==> done@[j],
{
    let n = targets.len();
    let mut blocked: Vec<bool> = vec![false; n];
    let mut k: usize = 0;
    while k < n
        invariant
            k <= n,
            n == targets@.len(),
            n == done@.len(),
            n == blocked@.len(),
            forall|i: int|
                0 <= i < targets@.len() && (#[trigger] targets@[i]) is Some ==> targets@[i]->0
                    < done@.len(),
            forall|w: int|
                0 <= w < n ==> (#[trigger] blocked@[w] <==> exists|j: int|
                    0 <= j < k && #[trigger] targets@[j] == Some(w as usize) && !done@[j]),
        decreases n - k,
    {
        let ghost earlier = blocked@;
        if !done[k] {
            if let Some(w) = targets[k] {
                blocked.set(w, true);
            }
        }
        proof {
            assert forall|w: int| 0 <= w < n implies (#[trigger] blocked@[w] <==> exists|j: int|
                0 <= j < k + 1 && #[trigger] targets@[j] == Some(w as usize) && !done@[j]) by {
                if earlier[w] {
                    let j = choose|j: int|
                        0 <= j < k && #[trigger] targets@[j] == Some(w as usize) && !done@[j];
                    assert(targets@[j] == Some(w as usize));
                }
                if targets@[k as int] == Some(w as usize) && !done@[k as int] {
                    assert(blocked@[w]);
                }
            }
        }
        k = k + 1;
    }
    let mut wave: Vec<usize> = Vec::new();
    let mut m: usize = 0;
    while m < n
        invariant
            m <= n,
            n == targets@.len(),
            n == done@.len(),
            n == blocked@.len(),
            forall|w: int|
                0 <= w < n ==> (#[trigger] blocked@[w] <==> exists|j: int|
                    0 <= j < n && #[trigger] targets@[j] == Some(w as usize) && !done@[j]),
            forall|a: int| 0 <= a < wave@.len() ==> #[trigger] wave@[a] < m,
            forall|a: int, b: int| 0 <= a < b < wave@.len() ==> wave@[a] < wave@[b],
            forall|i: usize| #[trigger]
                wave@.contains(i) <==> i < m && !done@[i as int] && !blocked@[i as int],
        decreases n - m,
    {
        let ghost earlier = wave@;
        if !done[m] && !blocked[m] {
            wave.push(m);
        }
        proof {
            assert forall|i: usize| #[trigger]
                wave@.contains(i) <==> i < m + 1 && !done@[i as int] && !blocked@[i as int] by {
                if earlier.contains(i) {
                    let a = choose|a: int| 0 <= a < earlier.len() && earlier[a] == i;
                    assert(wave@[a] == i);
                }
                if i == m && !done@[m as int] && !blocked@[m as int] {
                    assert(wave@[earlier.len() as int] == m);
                }
                if wave@.contains(i) {
                    let a = choose|a: int| 0 <= a < wave@.len() && wave@[a] == i;
                    if a < earlier.len() {
                        assert(earlier[a] == i);
                        assert(earlier.contains(i));
                    }
                }
            }
        }
        m = m + 1;
    }
    proof {
        assert forall|i: usize| #[trigger]
            wave@.contains(i) <==> i < done@.len() && !done@[i as int] && forall|j: int|
                0 <= j < targets@.len() && #[trigger] targets@[j] == Some(i) ==> done@[j] by {
            if i < n {
                if blocked@[i as int] {
                    let j = choose|j: int|
                        0 <= j < n && #[trigger] targets@[j] == Some(i) && !done@[j];
                    assert(targets@[j] == Some(i));
                } else {
                    assert forall|j: int| 0 <= j < n && #[trigger] targets@[j] == Some(
                        i,
                    ) implies done@[j] by {}
                }
            }
        }
    }
    wave
}

/// The names of the entries that are not done, one after another.
fn blocked_text(plan: &PatchPlan, done: &Vec<bool>) -> (found: (String, bool))
    requires
        done@.len() == plan.entries@.len(),
        forall|i: int|
            0 <= i < done@.len() ==> (#[trigger] done@[i] == settled(
                *plan,
                plan.entries@.len(),
                i,
            )),
    ensures
        found.0@ == path::joined(blocked_names(*plan, plan.entries@.len() as int), ", "@),
        found.1 == (blocked_names(*plan, plan.entries@.len() as int).len() > 0),
{
    let mut out = String::new();
    let mut any = false;
    let mut k: usize = 0;
    while k < plan.entries.len()
        invariant
            k <= plan.entries@.len(),
            done@.len() == plan.entries@.len(),
            forall|i: int|
                0 <= i < done@.len() ==> (#[trigger] done@[i] == settled(
                    *plan,
                    plan.entries@.len(),
                    i,
                )),
            any == (blocked_names(*plan, k as int).len() > 0),
            out@ == path::joined(blocked_names(*plan, k as int), ", "@),
        decreases plan.entries@.len() - k,
    {
        let ghost names = blocked_names(*plan, k as int);
        if !done[k] {
            if any {
                text::push_text(&mut out, ", ");
            }
            text::push_text(&mut out, plan.entries[k].name.as_str());
            proof {
                let more = blocked_names(*plan, k + 1);
                assert(more == names.push(plan.entries@[k as int].name@));
                assert(more.drop_last() =~= names);
                assert(out@ =~= path::joined(more, ", "@));
            }
            any = true;
        }
        k = k + 1;
    }
    (out, any)
}

/// Runs waves until one is empty, and says which entries were settled.
fn settle(plan: &PatchPlan, targets: &Vec<Option<usize>>) -> (out: (Vec<Vec<usize>>, Vec<bool>))
    requires
        targets@.len() == plan.entries@.len(),
        forall|i: int, w: int|
            0 <= i < targets@.len() && 0 <= w < plan.entries@.len() ==> (#[trigger] before(
                *plan,
                i,
                w,
            ) <==> targets@[i] == Some(w as usize)),
        forall|i: int|
            0 <= i < targets@.len() && (#[trigger] targets@[i]) is Some ==> targets@[i]->0
                < plan.entries@.len(),
    ensures
        forall|k: int|
            0 <= k < out.0@.len() ==> is_wave(*plan, k as nat, (#[trigger] out.0@[k])@),
        out.1@.len() == plan.entries@.len(),
        forall|i: int|
            0 <= i < out.1@.len() ==> (#[trigger] out.1@[i] == settled(
                *plan,
                plan.entries@.len(),
                i,
            )),
        forall|i: int|
            0 <= i < out.1@.len() ==> (#[trigger] out.1@[i] == settled(*plan, out.0@.len(), i)),
{
    let n = plan.entries.len();
    let mut waves: Vec<Vec<usize>> = Vec::new();
    let mut done: Vec<bool> = vec![false; n];
    let mut k: usize = 0;
    while k < n
        invariant
            k <= n,
            n == plan.entries@.len(),
            n == targets@.len(),
            n == done@.len(),
            waves@.len() == k,
            forall|i: int, w: int|
                0 <= i < targets@.len() && 0 <= w < plan.entries@.len() ==> (#[trigger] before(
                    *plan,
                    i,
                    w,
                ) <==> targets@[i] == Some(w as usize)),
            forall|i: int|
                0 <= i < targets@.len() && (#[trigger] targets@[i]) is Some ==> targets@[i]->0
                    < plan.entries@.len(),
            forall|i: int| 0 <= i < n ==> (#[trigger] done@[i] == settled(*plan, k as nat, i)),
            forall|m: int|
                0 <= m < k ==> is_wave(*plan, m as nat, (#[trigger] waves@[m])@),
        decreases n - k,
    {
        let wave = next_wave(targets, &done);
        proof {
            assert forall|i: usize| #[trigger]
                wave@.contains(i) <==> in_wave(*plan, k as nat, i as int) by {
                if i < n {
                    if forall|j: int|
                        0 <= j < targets@.len() && #[trigger] targets@[j] == Some(i) ==> done@[j] {
                        assert forall|j: int| #[trigger] before(*plan, j, i as int) implies settled(
                            *plan,
                            k as nat,
                            j,
                        ) by {
                            assert(targets@[j] == Some(i));
                        }
                        assert(settled(*plan, (k + 1) as nat, i as int));
                    } else {
                        let j = choose|j: int|
                            0 <= j < targets@.len() && #[trigger] targets@[j] == Some(i)
                                && !done@[j];
                        assert(before(*plan, j, i as int));
                        assert(!settled(*plan, k as nat, j));
                    }
                }
            }
        }
        if wave.len() == 0 {
            proof {
                assert forall|i: int| !(#[trigger] in_wave(*plan, k as nat, i)) by {
                    if in_wave(*plan, k as nat, i) {
                        assert(wave@.contains(i as usize));
                    }
                }
                lemma_settled_stops(*plan, k as nat, n as nat);
            }
            return (waves, done);
        }
        let ghost before_done = done@;
        proof {
            assert forall|a: int| 0 <= a < wave@.len() implies #[trigger] wave@[a] < n by {
                assert(wave@.contains(wave@[a]));
            }
        }
        let mut m: usize = 0;
        while m < wave.len()
            invariant
                m <= wave@.len(),
                n == done@.len(),
                n == before_done.len(),
                forall|a: int| 0 <= a < wave@.len() ==> #[trigger] wave@[a] < n,
                forall|i: int|
                    0 <= i < n ==> (#[trigger] done@[i] <==> before_done[i] || wave@.take(
                        m as int,
                    ).contains(i as usize)),
            decreases wave@.len() - m,
        {
            let ghost earlier = done@;
            done.set(wave[m], true);
            proof {
                let more = wave@.take(m + 1);
                let less = wave@.take(m as int);
                assert forall|i: int| 0 <= i < n implies (#[trigger] done@[i] <==> before_done[i]
                    || more.contains(i as usize)) by {
                    assert(earlier[i] <==> before_done[i] || less.contains(i as usize));
                    if less.contains(i as usize) {
                        let a = choose|a: int| 0 <= a < less.len() && less[a] == i as usize;
                        assert(more[a] == i as usize);
                    }
                    if i == wave@[m as int] {
                        assert(more[m as int] == i as usize);
                    }
                    if more.contains(i as usize) {
                        let a = choose|a: int| 0 <= a < more.len() && more[a] == i as usize;
                        if a < m {
                            assert(less[a] == i as usize);
                        }
                    }
                }
            }
            m = m + 1;
        }
        proof {
            assert(wave@.take(m as int) =~= wave@);
            assert forall|i: int| 0 <= i < n implies (#[trigger] done@[i] == settled(
                *plan,
                (k + 1) as nat,
                i,
            )) by {
                assert(before_done[i] == settled(*plan, k as nat, i));
                assert(wave@.contains(i as usize) <==> in_wave(*plan, k as nat, i));
                if settled(*plan, k as nat, i) {
                    lemma_settled_grows(*plan, k as nat, i);
                }
            }
        }
        waves.push(wave);
        k = k + 1;
    }
    (waves, done)
}

/// The entries of a plan in waves. The entries of a wave are independent of
/// each other; an entry that is patched from a file is in an earlier wave than
/// the entry that overwrites the file.
pub fn entry_waves(plan: &PatchPlan) -> (result: Result<Vec<Vec<usize>>, Message>)
    ensures
        match result {
            Ok(waves) => order_fault(*plan) is None && are_waves(*plan, waves@),
            Err(message) => message.context@ == "VFS error: "@ && order_fault(*plan) == Some(
                message.detail@,
            ),
        },
{
    let logical = logical_destinations(plan);
    if let Some(clash) = find_clash(plan, &logical) {
        let mut detail = "Patch plan has multiple writers for ".to_owned();
        text::push_text(&mut detail, clash.text().as_str());
        return Err(steps::vfs_error(detail));
    }
    let targets = overwriters(plan, &logical);
    let (waves, done) = settle(plan, &targets);
    let (names, any) = blocked_text(plan, &done);
    if any {
        let mut detail =
            "Patch dependency graph contains a destructive overwrite cycle: ".to_owned();
        text::push_text(&mut detail, names.as_str());
        return Err(steps::vfs_error(detail));
    }
    proof {
        assert forall|i: int| 0 <= i < plan.entries@.len() implies #[trigger] settled(
            *plan,
            waves@.len(),
            i,
        ) by {
            lemma_none_blocked(*plan, plan.entries@.len() as int, i);
            assert(done@[i]);
        }
    }
    Ok(waves)
}

proof fn lemma_none_blocked(plan: PatchPlan, m: int, i: int)
    requires
        0 <= i < m <= plan.entries@.len(),
        blocked_names(plan, m).len() == 0,
    ensures
        settled(plan, plan.entries@.len(), i),
    decreases m,
{
    if i < m - 1 {
        lemma_none_blocked(plan, m - 1, i);
    }
}

/// Lists one after another.
pub open spec fn flattened(lists: Seq<Vec<usize>>) -> Seq<usize>
    decreases lists.len(),
{
    if lists.len() == 0 {
        Seq::empty()
    } else {
        flattened(lists.drop_last()) + lists.last()@
    }
}

/// The entries of a plan in an order in which they can be applied one by one.
pub fn ordered_entries(plan: &PatchPlan) -> (result: Result<Vec<usize>, Message>)
    ensures
        match result {
            Ok(order) => order_fault(*plan) is None && exists|waves: Seq<Vec<usize>>|
                #[trigger] are_waves(*plan, waves) && order@ == flattened(waves),
            Err(message) => message.context@ == "VFS error: "@ && order_fault(*plan) == Some(
                message.detail@,
            ),
        },
{
    let waves = match entry_waves(plan) {
        Ok(waves) => waves,
        Err(message) => {
            return Err(message);
        },
    };
    let mut order: Vec<usize> = Vec::new();
    let mut k: usize = 0;
    assert(waves@.take(0).len() == 0);
    while k < waves.len()
        invariant
            k <= waves@.len(),
            order@ == flattened(waves@.take(k as int)),
        decreases waves@.len() - k,
    {
        let mut m: usize = 0;
        let ghost start = order@;
        while m < waves[k].len()
            invariant
                k < waves@.len(),
                m <= waves@[k as int]@.len(),
                order@ == start + waves@[k as int]@.take(m as int),
            decreases waves@[k as int]@.len() - m,
        {
            order.push(waves[k][m]);
            m = m + 1;
            assert(order@ =~= start + waves@[k as int]@.take(m as int));
        }
        proof {
            assert(waves@[k as int]@.take(m as int) =~= waves@[k as int]@);
            assert(waves@.take(k + 1).drop_last() =~= waves@.take(k as int));
            assert(waves@.take(k + 1).last() == waves@[k as int]);
        }
        k = k + 1;
    }
    assert(waves@.take(k as int) =~= waves@);
    assert(are_waves(*plan, waves@));
    Ok(order)
}

/// For each entry, the entries that must be applied before it, in rising
/// order. Fails where the entries cannot be told apart by their paths.
pub fn entry_dependency_indices(plan: &PatchPlan) -> (result: Result<Vec<Vec<usize>>, Message>)
    ensures
        match result {
            Ok(lists) => clash_from(*plan, 0) is None && lists@.len() == plan.entries@.len()
                && forall|w: int|
                0 <= w < lists@.len() ==> #[trigger] lists_predecessors(*plan, w, lists@[w]@),
            Err(message) => message.context@ == "VFS error: "@ && clash_from(*plan, 0) is Some
                && order_fault(*plan) == Some(message.detail@),
        },
{
    let logical = logical_destinations(plan);
    if let Some(clash) = find_clash(plan, &logical) {
        let mut detail = "Patch plan has multiple writers for ".to_owned();
        text::push_text(&mut detail, clash.text().as_str());
        return Err(steps::vfs_error(detail));
    }
    let targets = overwriters(plan, &logical);
    let n = plan.entries.len();
    let mut lists: Vec<Vec<usize>> = Vec::new();
    let mut w: usize = 0;
    while w < n
        invariant
            w <= n,
            w == lists@.len(),
            n == plan.entries@.len(),
            n == targets@.len(),
            forall|i: int, v: int|
                0 <= i < targets@.len() && 0 <= v < plan.entries@.len() ==> (#[trigger] before(
                    *plan,
                    i,
                    v,
                ) <==> targets@[i] == Some(v as usize)),
            forall|v: int|
                0 <= v < lists@.len() ==> #[trigger] lists_predecessors(*plan, v, lists@[v]@),
        decreases n - w,
    {
        let mut list: Vec<usize> = Vec::new();
        let mut k: usize = 0;
        while k < n
            invariant
                w < n,
                k <= n,
                n == plan.entries@.len(),
                n == targets@.len(),
                forall|i: int, v: int|
                    0 <= i < targets@.len() && 0 <= v < plan.entries@.len() ==> (
                    #[trigger] before(*plan, i, v) <==> targets@[i] == Some(v as usize)),
                forall|a: int| 0 <= a < list@.len() ==> #[trigger] list@[a] < k,
                forall|a: int, b: int| 0 <= a < b < list@.len() ==> list@[a] < list@[b],
                forall|i: usize| #[trigger]
                    list@.contains(i) <==> i < k && before(*plan, i as int, w as int),
            decreases n - k,
        {
            let ghost earlier = list@;
            let here = match targets[k] {
                Some(v) => v == w,
                None => false,
            };
            if here {
                list.push(k);
            }
            proof {
                assert(here == before(*plan, k as int, w as int));
                assert forall|i: usize| #[trigger]
                    list@.contains(i) <==> i < k + 1 && before(*plan, i as int, w as int) by {
                    if earlier.contains(i) {
                        let a = choose|a: int| 0 <= a < earlier.len() && earlier[a] == i;
                        assert(list@[a] == i);
                    }
                    if i == k && here {
                        assert(list@[earlier.len() as int] == k);
                    }
                    if list@.contains(i) {
                        let a = choose|a: int| 0 <= a < list@.len() && list@[a] == i;
                        if a < earlier.len() {
                            assert(earlier[a] == i);
                            assert(earlier.contains(i));
                        }
                    }
                }
            }
            k = k + 1;
        }
        proof {
            assert forall|i: usize| #[trigger]
                list@.contains(i) <==> before(*plan, i as int, w as int) by {}
        }
        lists.push(list);
        w = w + 1;
    }
    Ok(lists)
}

/// Whether a list names the entries that must be applied before an entry, in
/// rising order.
pub open spec fn lists_predecessors(plan: PatchPlan, w: int, list: Seq<usize>) -> bool {
    &&& forall|a: int, b: int| 0 <= a < b < list.len() ==> list[a] < list[b]
    &&& forall|i: usize| #[trigger] list.contains(i) <==> before(plan, i as int, w)
}

/// An entry that is patched from a file is applied in an earlier wave than the
/// entry that overwrites the file.
pub proof fn law_base_is_read_before_it_is_overwritten(
    plan: PatchPlan,
    waves: Seq<Vec<usize>>,
    i: usize,
    w: usize,
    a: int,
    b: int,
)
    requires
        are_waves(plan, waves),
        before(plan, i as int, w as int),
        0 <= a < waves.len(),
        0 <= b < waves.len(),
        waves[a]@.contains(i),
        waves[b]@.contains(w),
    ensures
        a < b,
{
    assert(is_wave(plan, a as nat, waves[a]@));
    assert(is_wave(plan, b as nat, waves[b]@));
    assert(in_wave(plan, a as nat, i as int));
    assert(in_wave(plan, b as nat, w as int));
    assert(settled(plan, b as nat, i as int));
    if b <= a {
        lemma_settled_stays(plan, b as nat, a as nat, i as int);
    }
}

/// Every entry is in exactly one wave.
pub proof fn law_every_entry_has_one_wave(plan: PatchPlan, waves: Seq<Vec<usize>>, i: usize)
    requires
        are_waves(plan, waves),
        i < plan.entries@.len(),
    ensures
        exists|a: int| 0 <= a < waves.len() && (#[trigger] waves[a])@.contains(i),
        forall|a: int, b: int|
            0 <= a < b < waves.len() && (#[trigger] waves[a])@.contains(i) ==> !(
            #[trigger] waves[b])@.contains(i),
{
    assert(settled(plan, waves.len(), i as int));
    lemma_has_wave(plan, waves.len(), i as int);
    let a = choose|a: nat| a < waves.len() && #[trigger] in_wave(plan, a, i as int);
    assert(is_wave(plan, a, waves[a as int]@));
    assert(waves[a as int]@.contains(i));
    assert forall|x: int, y: int|
        0 <= x < y < waves.len() && (#[trigger] waves[x])@.contains(i) implies !(
    #[trigger] waves[y])@.contains(i) by {
        assert(is_wave(plan, x as nat, waves[x]@));
        assert(is_wave(plan, y as nat, waves[y]@));
        if waves[y]@.contains(i) {
            assert(in_wave(plan, x as nat, i as int));
            assert(in_wave(plan, y as nat, i as int));
            lemma_settled_stays(plan, (x + 1) as nat, y as nat, i as int);
        }
    }
}

proof fn lemma_has_wave(plan: PatchPlan, k: nat, i: int)
    requires
        settled(plan, k, i),
    ensures
        exists|a: nat| a < k && #[trigger] in_wave(plan, a, i),
    decreases k,
{
    let b = (k - 1) as nat;
    if settled(plan, b, i) {
        lemma_has_wave(plan, b, i);
        let a = choose|a: nat| a < b && #[trigger] in_wave(plan, a, i);
        assert(in_wave(plan, a, i));
    } else {
        assert(in_wave(plan, b, i));
    }
}

/// The waves of a plan are determined by the plan.
pub proof fn law_waves_are_determined(
    plan: PatchPlan,
    left: Seq<Vec<usize>>,
    right: Seq<Vec<usize>>,
)
    requires
        are_waves(plan, left),
        are_waves(plan, right),
    ensures
        left.len() == right.len(),
        forall|k: int, i: usize|
            0 <= k < left.len() ==> (#[trigger] left[k]@.contains(i) <==> right[k]@.contains(i)),
{
    if left.len() < right.len() {
        lemma_wave_beyond(plan, left.len(), right);
    } else if right.len() < left.len() {
        lemma_wave_beyond(plan, right.len(), left);
    }
    assert forall|k: int, i: usize| 0 <= k < left.len() implies (#[trigger] left[k]@.contains(i)
        <==> right[k]@.contains(i)) by {
        assert(is_wave(plan, k as nat, left[k]@));
        assert(is_wave(plan, k as nat, right[k]@));
    }
}

/// Where `k` waves settle everything, there is no further wave.
proof fn lemma_wave_beyond(plan: PatchPlan, k: nat, waves: Seq<Vec<usize>>)
    requires
        forall|i: int| 0 <= i < plan.entries@.len() ==> #[trigger] settled(plan, k, i),
        are_waves(plan, waves),
    ensures
        waves.len() <= k,
{
    if k < waves.len() {
        assert(is_wave(plan, k, waves[k as int]@));
        let i = waves[k as int]@[0];
        assert(waves[k as int]@.contains(i));
        assert(in_wave(plan, k, i as int));
        assert(settled(plan, k, i as int));
    }
}

} // verus!
