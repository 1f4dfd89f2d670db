//! The order in which the steps of a patch run.

use crate::archive::work;
use crate::graph::expansion;
use crate::graph::expansion::{ExpansionNodeId, GraphExpansion, LocalNode, TaskRun};
use crate::ordered;
use crate::patch::plan::{PatchPlan, PlannedPatchSource};
use crate::patch::waves;
use crate::path::{FilePath, PathModel};
use crate::sorted;
use crate::task::{ArchiveWork, Task};
use std::sync::Arc;
use vstd::prelude::*;

verus! {

/// How many entries the first `a` lists hold.
pub open spec fn start(lists: Seq<Vec<usize>>, a: int) -> int {
    waves::flattened(lists.take(a)).len() as int
}

proof fn lemma_start_step(lists: Seq<Vec<usize>>, a: int)
    requires
        0 <= a < lists.len(),
    ensures
        start(lists, a + 1) == start(lists, a) + lists[a]@.len(),
{
    assert(lists.take(a + 1).drop_last() =~= lists.take(a));
    assert(lists.take(a + 1).last() == lists[a]);
}

proof fn lemma_start_grows(lists: Seq<Vec<usize>>, a: int, b: int)
    requires
        0 <= a < b <= lists.len(),
    ensures
        start(lists, a) + lists[a]@.len() <= start(lists, b),
    decreases b - a,
{
    lemma_start_step(lists, b - 1);
    if a < b - 1 {
        lemma_start_grows(lists, a, b - 1);
    }
}

proof fn lemma_flat_value(lists: Seq<Vec<usize>>, a: int, o: int)
    requires
        0 <= a < lists.len(),
        0 <= o < lists[a]@.len(),
    ensures
        0 <= start(lists, a) + o < waves::flattened(lists).len(),
        waves::flattened(lists)[start(lists, a) + o] == lists[a]@[o],
    decreases lists.len(),
{
    let rest = lists.drop_last();
    if a == lists.len() - 1 {
        assert(lists.take(a) =~= rest);
    } else {
        assert(lists.take(a) =~= rest.take(a));
        lemma_flat_value(rest, a, o);
    }
}

proof fn lemma_flat_place(lists: Seq<Vec<usize>>, t: int) -> (place: (int, int))
    requires
        0 <= t < waves::flattened(lists).len(),
    ensures
        0 <= place.0 < lists.len(),
        0 <= place.1 < lists[place.0]@.len(),
        t == start(lists, place.0) + place.1,
        waves::flattened(lists)[t] == lists[place.0]@[place.1],
    decreases lists.len(),
{
    let rest = lists.drop_last();
    let before = waves::flattened(rest).len() as int;
    if t < before {
        let place = lemma_flat_place(rest, t);
        assert(lists.take(place.0) =~= rest.take(place.0));
        place
    } else {
        assert(lists.take(lists.len() - 1) =~= rest);
        (lists.len() - 1, t - before)
    }
}

/// Whether a list names the entries of a plan wave by wave.
pub open spec fn is_order(plan: PatchPlan, order: Seq<usize>) -> bool {
    exists|lists: Seq<Vec<usize>>| #[trigger]
        waves::are_waves(plan, lists) && order == waves::flattened(lists)
}

/// Every entry is in the order once, and an entry that is patched from a file
/// comes before the entry that overwrites the file.
pub proof fn law_order_names_every_entry_once(plan: PatchPlan, order: Seq<usize>, i: usize)
    requires
        is_order(plan, order),
        i < plan.entries@.len(),
    ensures
        exists|t: int| 0 <= t < order.len() && order[t] == i,
        forall|t: int, u: int|
            0 <= t < order.len() && 0 <= u < order.len() && #[trigger] order[t] == #[trigger] order[u]
                ==> t == u,
        forall|t: int| 0 <= t < order.len() ==> #[trigger] order[t] < plan.entries@.len(),
{
    let lists = choose|lists: Seq<Vec<usize>>| #[trigger]
        waves::are_waves(plan, lists) && order == waves::flattened(lists);
    waves::law_every_entry_has_one_wave(plan, lists, i);
    let a = choose|a: int| 0 <= a < lists.len() && (#[trigger] lists[a])@.contains(i);
    let o = choose|o: int| 0 <= o < lists[a]@.len() && lists[a]@[o] == i;
    lemma_flat_value(lists, a, o);
    assert(order[start(lists, a) + o] == i);
    lemma_order_is_distinct(&plan, lists);
}

pub proof fn lemma_order_is_in_range(plan: &PatchPlan, order: Seq<usize>)
    requires
        is_order(*plan, order),
    ensures
        forall|t: int| 0 <= t < order.len() ==> #[trigger] order[t] < plan.entries@.len(),
{
    let lists = choose|lists: Seq<Vec<usize>>| #[trigger]
        waves::are_waves(*plan, lists) && order == waves::flattened(lists);
    lemma_order_is_distinct(plan, lists);
}

proof fn lemma_order_is_distinct(plan: &PatchPlan, lists: Seq<Vec<usize>>)
    requires
        waves::are_waves(*plan, lists),
    ensures
        ({
            let order = waves::flattened(lists);
            &&& forall|t: int, u: int|
                0 <= t < order.len() && 0 <= u < order.len() && #[trigger] order[t]
                    == #[trigger] order[u] ==> t == u
            &&& forall|t: int| 0 <= t < order.len() ==> #[trigger] order[t] < plan.entries@.len()
        }),
{
    let order = waves::flattened(lists);
    assert forall|t: int| 0 <= t < order.len() implies #[trigger] order[t]
        < plan.entries@.len() by {
        let (a, o) = lemma_flat_place(lists, t);
        assert(waves::is_wave(*plan, a as nat, lists[a]@));
        assert(lists[a]@.contains(order[t]));
    }
    assert forall|t: int, u: int|
        0 <= t < order.len() && 0 <= u < order.len() && #[trigger] order[t]
            == #[trigger] order[u] implies t == u by {
        let (a, o) = lemma_flat_place(lists, t);
        let (b, p) = lemma_flat_place(lists, u);
        let i = order[t];
        assert(lists[a]@.contains(i));
        assert(lists[b]@.contains(i));
        assert(order[t] < plan.entries@.len());
        waves::law_every_entry_has_one_wave(*plan, lists, i);
        if a < b {
            assert(!lists[b]@.contains(i));
        } else if b < a {
            assert(!lists[a]@.contains(i));
        }
        assert(waves::is_wave(*plan, a as nat, lists[a]@));
        if o < p {
            assert(lists[a]@[o] < lists[a]@[p]);
        } else if p < o {
            assert(lists[a]@[p] < lists[a]@[o]);
        }
    }
}

/// An entry that is patched from a file comes before the entry that overwrites
/// the file.
pub proof fn law_order_keeps_bases(plan: PatchPlan, order: Seq<usize>, t: int, u: int)
    requires
        is_order(plan, order),
        0 <= t < order.len(),
        0 <= u < order.len(),
        waves::before(plan, order[t] as int, order[u] as int),
    ensures
        t < u,
{
    let lists = choose|lists: Seq<Vec<usize>>| #[trigger]
        waves::are_waves(plan, lists) && order == waves::flattened(lists);
    let (a, o) = lemma_flat_place(lists, t);
    let (b, p) = lemma_flat_place(lists, u);
    assert(lists[a]@.contains(order[t]));
    assert(lists[b]@.contains(order[u]));
    waves::law_base_is_read_before_it_is_overwritten(plan, lists, order[t], order[u], a, b);
    lemma_start_grows(lists, a, b);
}

/// Whether a node applies an earlier entry that must come first.
pub open spec fn preceded(plan: PatchPlan, order: Seq<usize>, t: int, d: int) -> bool {
    exists|u: int|
        0 <= u < t && d == u + 1 && #[trigger] waves::before(
            plan,
            order[u] as int,
            order[t] as int,
        )
}

/// Whether a node waits for what a condition says, and for no token.
pub open spec fn waits(node: LocalNode, task: Task, needed: spec_fn(int) -> bool) -> bool {
    &&& node.task == task
    &&& sorted::ascending(node.dependencies)
    &&& forall|d: u64| #[trigger] node.dependencies.contains(d) <==> needed(d as int)
    &&& node.tokens.len() == 0
    &&& node.binding is None
}

/// Whether an entry of the order is in place: it waits for the preparation, and
/// for every earlier entry that reads a file that it overwrites.
pub open spec fn entry_laid(
    nodes: Seq<LocalNode>,
    plan: Arc<PatchPlan>,
    order: Seq<usize>,
    t: int,
) -> bool {
    &&& t + 1 < nodes.len()
    &&& waits(
        nodes[t + 1],
        Task::ApplyPatchEntry { plan, entry_index: order[t] },
        |d: int| d == 0 || preceded(*plan, order, t, d),
    )
}

/// Whether a node applies an entry of the order that is patched from a file.
pub open spec fn consumes(
    plan: PatchPlan,
    order: Seq<usize>,
    k: int,
    base: PathModel,
    d: int,
) -> bool {
    1 <= d <= k && plan.base(order[d - 1] as int) == Some(base)
}

/// Whether the release of a file is in place: it waits for every entry that is
/// patched from the file.
pub open spec fn release_laid(
    nodes: Seq<LocalNode>,
    plan: Arc<PatchPlan>,
    order: Seq<usize>,
    bases: Seq<PathModel>,
    b: int,
) -> bool {
    let at = 1 + order.len() + b;
    &&& at < nodes.len()
    &&& nodes[at].task matches Task::ReleasePatchBase { plan: p, base } && p == plan && base@
        == bases[b] && waits(
        nodes[at],
        nodes[at].task,
        |d: int| consumes(*plan, order, order.len() as int, bases[b], d),
    )
}

/// Whether a list names the files that entries are patched from, each once, in
/// the order of paths.
pub open spec fn are_bases(plan: PatchPlan, order: Seq<usize>, bases: Seq<PathModel>) -> bool {
    &&& forall|a: int, b: int|
        0 <= a < b < bases.len() ==> ordered::path_less(#[trigger] bases[a], #[trigger] bases[b])
    &&& forall|base: PathModel| #[trigger]
        bases.contains(base) <==> exists|d: int| #[trigger]
            consumes(plan, order, order.len() as int, base, d)
}

/// The subgraph that applies a patch: the preparation, the entries, the release
/// of each file that entries are patched from, the deletes, the files that are
/// put in place last, and the end.
pub open spec fn is_patch(
    nodes: Seq<LocalNode>,
    archive: Arc<ArchiveWork>,
    plan: Arc<PatchPlan>,
    order: Seq<usize>,
    bases: Seq<PathModel>,
) -> bool {
    let deletes = 1 + order.len() + bases.len() as int;
    &&& are_bases(*plan, order, bases)
    &&& nodes.len() == deletes + 3
    &&& waits(nodes[0], Task::PreparePatchApply { plan }, |d: int| false)
    &&& forall|t: int| 0 <= t < order.len() ==> #[trigger] entry_laid(nodes, plan, order, t)
    &&& forall|b: int| 0 <= b < bases.len() ==> #[trigger] release_laid(nodes, plan, order, bases, b)
    &&& waits(
        nodes[deletes],
        Task::ApplyPatchDeletes { plan },
        |d: int|
            if deletes == 1 {
                d == 0
            } else {
                1 <= d < deletes
            },
    )
    &&& waits(nodes[deletes + 1], Task::CommitPatchDeferred { plan }, |d: int| d == deletes)
    &&& waits(
        nodes[deletes + 2],
        Task::CleanPatchApply { plan, archive },
        |d: int| d == deletes + 1,
    )
}

/// The nodes that apply entries that are patched from the same file.
struct Consumers {
    base: FilePath,
    nodes: Vec<ExpansionNodeId>,
}

/// Whether a list holds a node for a file.
spec fn noted(list: Seq<Consumers>, base: PathModel, id: ExpansionNodeId) -> bool {
    exists|b: int|
        0 <= b < list.len() && (#[trigger] list[b]).base@ == base && list[b].nodes@.contains(id)
}

spec fn bases_rise(list: Seq<Consumers>) -> bool {
    &&& forall|a: int, b: int|
        0 <= a < b < list.len() ==> ordered::path_less(
            (#[trigger] list[a]).base@,
            (#[trigger] list[b]).base@,
        )
    &&& forall|b: int| 0 <= b < list.len() ==> (#[trigger] list[b]).nodes@.len() > 0
}

fn note_consumer(list: &mut Vec<Consumers>, base: &FilePath, node: ExpansionNodeId)
    requires
        bases_rise(old(list)@),
    ensures
        bases_rise(final(list)@),
        forall|path: PathModel, id: ExpansionNodeId| #[trigger]
            noted(final(list)@, path, id) <==> noted(old(list)@, path, id) || (path == base@ && id
                == node),
{
    let ghost before = list@;
    let mut k: usize = 0;
    while k < list.len() && ordered::path_before(&list[k].base, base)
        invariant
            k <= list@.len(),
            list@ == before,
            forall|b: int|
                0 <= b < k ==> ordered::path_less((#[trigger] before[b]).base@, base@),
        decreases list@.len() - k,
    {
        k = k + 1;
    }
    if k < list.len() && list[k].base.same(base) {
        list[k].nodes.push(node);
        proof {
            let old_nodes = before[k as int].nodes@;
            let new_nodes = list@[k as int].nodes@;
            assert(new_nodes == old_nodes.push(node));
            assert(list@[k as int].base == before[k as int].base);
            assert forall|path: PathModel, id: ExpansionNodeId| #[trigger]
                noted(list@, path, id) <==> noted(before, path, id) || (path == base@ && id
                    == node) by {
                if noted(before, path, id) {
                    let b = choose|b: int|
                        0 <= b < before.len() && (#[trigger] before[b]).base@ == path
                            && before[b].nodes@.contains(id);
                    if b == k {
                        let i = choose|i: int| 0 <= i < old_nodes.len() && old_nodes[i] == id;
                        assert(new_nodes[i] == id);
                    } else {
                        assert(list@[b] == before[b]);
                    }
                    assert(list@[b].base@ == path);
                }
                if path == base@ && id == node {
                    assert(new_nodes[old_nodes.len() as int] == id);
                    assert(list@[k as int].base@ == path);
                }
                if noted(list@, path, id) {
                    let b = choose|b: int|
                        0 <= b < list@.len() && (#[trigger] list@[b]).base@ == path
                            && list@[b].nodes@.contains(id);
                    if b == k {
                        let i = choose|i: int| 0 <= i < new_nodes.len() && new_nodes[i] == id;
                        if i < old_nodes.len() {
                            assert(old_nodes[i] == id);
                            assert(before[b].base@ == path);
                        }
                    } else {
                        assert(list@[b] == before[b]);
                        assert(before[b].base@ == path);
                    }
                }
            }
            assert forall|a: int, b: int| 0 <= a < b < list@.len() implies ordered::path_less(
                (#[trigger] list@[a]).base@,
                (#[trigger] list@[b]).base@,
            ) by {
                assert(ordered::path_less(before[a].base@, before[b].base@));
            }
            assert forall|b: int| 0 <= b < list@.len() implies (
            #[trigger] list@[b]).nodes@.len() > 0 by {
                if b != k {
                    assert(list@[b] == before[b]);
                }
            }
        }
        return ;
    }
    let mut nodes: Vec<ExpansionNodeId> = Vec::new();
    nodes.push(node);
    let ghost added = nodes@;
    assert(added[0] == node);
    let path = base.copied();
    list.insert(k, Consumers { base: path, nodes });
    proof {
        let at = k as int;
        assert forall|b: int| at <= b < before.len() implies ordered::path_less(
            base@,
            (#[trigger] before[b]).base@,
        ) by {
            let first = before[at].base@;
            ordered::law_path_order_is_total(first, base@);
            assert(ordered::path_less(base@, first));
            if b > at {
                assert(ordered::path_less(before[at].base@, before[b].base@));
                ordered::law_path_order_is_transitive(base@, first, before[b].base@);
            }
        }
        assert forall|a: int, b: int| 0 <= a < b < list@.len() implies ordered::path_less(
            (#[trigger] list@[a]).base@,
            (#[trigger] list@[b]).base@,
        ) by {
            if b < at {
                assert(ordered::path_less(before[a].base@, before[b].base@));
            } else if b == at {
                assert(ordered::path_less(before[a].base@, base@));
            } else if a == at {
                assert(ordered::path_less(base@, before[b - 1].base@));
            } else if a < at {
                assert(ordered::path_less(before[a].base@, before[b - 1].base@));
            } else {
                assert(ordered::path_less(before[a - 1].base@, before[b - 1].base@));
            }
        }
        assert forall|b: int| 0 <= b < list@.len() implies (#[trigger] list@[b]).nodes@.len()
            > 0 by {
            if b < at {
                assert(list@[b] == before[b]);
            } else if b > at {
                assert(list@[b] == before[b - 1]);
            }
        }
        assert forall|p: PathModel, id: ExpansionNodeId| #[trigger]
            noted(list@, p, id) <==> noted(before, p, id) || (p == base@ && id == node) by {
            if noted(before, p, id) {
                let b = choose|b: int|
                    0 <= b < before.len() && (#[trigger] before[b]).base@ == p
                        && before[b].nodes@.contains(id);
                let c = if b < at {
                    b
                } else {
                    b + 1
                };
                assert(list@[c] == before[b]);
                assert(list@[c].base@ == p);
            }
            if p == base@ && id == node {
                assert(list@[at].nodes@[0] == id);
                assert(list@[at].base@ == p);
            }
            if noted(list@, p, id) {
                let b = choose|b: int|
                    0 <= b < list@.len() && (#[trigger] list@[b]).base@ == p
                        && list@[b].nodes@.contains(id);
                if b < at {
                    assert(before[b].base@ == p);
                } else if b > at {
                    assert(list@[b] == before[b - 1]);
                    assert(before[b - 1].base@ == p);
                } else {
                    let i = choose|i: int| 0 <= i < added.len() && added[i] == id;
                }
            }
        }
    }
}

proof fn lemma_no_tokens(node: LocalNode)
    requires
        expansion::sorts(node.tokens, Seq::<u64>::empty()),
    ensures
        node.tokens.len() == 0,
{
    if node.tokens.len() > 0 {
        assert(node.tokens.contains(node.tokens[0]));
    }
}

/// Adds a node that waits for what a condition says.
fn add_step(
    expansion: &mut GraphExpansion,
    task: Task,
    list: Vec<ExpansionNodeId>,
    Ghost(needed): Ghost<spec_fn(int) -> bool>,
)
    requires
        old(expansion).inv(),
        expansion::all_below(list@, old(expansion)@.len() as int),
        forall|d: u64| #[trigger]
            expansion::positions(list@).contains(d) <==> needed(d as int),
    ensures
        final(expansion).inv(),
        final(expansion)@.len() == old(expansion)@.len() + 1,
        final(expansion)@.drop_last() == old(expansion)@,
        waits(final(expansion)@.last(), task, needed),
{
    expansion.append(task, list, Vec::new());
    proof {
        let node = expansion@.last();
        assert(expansion::token_numbers(Seq::empty()) =~= Seq::<u64>::empty());
        lemma_no_tokens(node);
    }
}

proof fn lemma_entry_stays(
    before: Seq<LocalNode>,
    after: Seq<LocalNode>,
    plan: Arc<PatchPlan>,
    order: Seq<usize>,
    t: int,
)
    requires
        0 <= t,
        entry_laid(before, plan, order, t),
        before.len() <= after.len(),
        after.take(before.len() as int) == before,
    ensures
        entry_laid(after, plan, order, t),
{
    assert(after[t + 1] == after.take(before.len() as int)[t + 1]);
}

proof fn lemma_release_stays(
    before: Seq<LocalNode>,
    after: Seq<LocalNode>,
    plan: Arc<PatchPlan>,
    order: Seq<usize>,
    bases: Seq<PathModel>,
    b: int,
)
    requires
        0 <= b,
        release_laid(before, plan, order, bases, b),
        before.len() <= after.len(),
        after.take(before.len() as int) == before,
    ensures
        release_laid(after, plan, order, bases, b),
{
    let at = 1 + order.len() + b;
    assert(after[at] == after.take(before.len() as int)[at]);
}

/// What the first `k` entries of the order look like in the table of nodes.
spec fn places_known(places: Seq<Option<usize>>, order: Seq<usize>, k: int) -> bool {
    forall|i: int|
        0 <= i < places.len() ==> match #[trigger] places[i] {
            Some(at) => 1 <= at <= k && order[at - 1] == i,
            None => forall|u: int| 0 <= u < k ==> #[trigger] order[u] != i,
        }
}

fn empty_places(count: usize) -> (places: Vec<Option<usize>>)
    ensures
        places@.len() == count,
        forall|i: int| 0 <= i < count ==> (#[trigger] places@[i]) is None,
{
    let mut places: Vec<Option<usize>> = Vec::new();
    let mut k: usize = 0;
    while k < count
        invariant
            k <= count,
            places@.len() == k,
            forall|i: int| 0 <= i < k ==> (#[trigger] places@[i]) is None,
        decreases count - k,
    {
        places.push(None);
        k = k + 1;
    }
    places
}

/// The nodes that an entry of the order waits for.
fn prerequisites(
    plan: &PatchPlan,
    dependencies: &Vec<usize>,
    places: &Vec<Option<usize>>,
    Ghost(order): Ghost<Seq<usize>>,
    Ghost(t): Ghost<int>,
) -> (list: Vec<ExpansionNodeId>)
    requires
        0 <= t < order.len(),
        places@.len() == plan.entries@.len(),
        places_known(places@, order, t),
        forall|u: int, v: int|
            0 <= u < order.len() && 0 <= v < order.len() && #[trigger] order[u]
                == #[trigger] order[v] ==> u == v,
        waves::lists_predecessors(*plan, order[t] as int, dependencies@),
    ensures
        expansion::all_below(list@, t + 1),
        forall|d: u64| #[trigger]
            expansion::positions(list@).contains(d) <==> (d == 0 || preceded(
                *plan,
                order,
                t,
                d as int,
            )),
{
    let mut list: Vec<ExpansionNodeId> = Vec::new();
    list.push(ExpansionNodeId(0));
    let mut k: usize = 0;
    while k < dependencies.len()
        invariant
            k <= dependencies@.len(),
            places@.len() == plan.entries@.len(),
            places_known(places@, order, t),
            waves::lists_predecessors(*plan, order[t] as int, dependencies@),
            list@.len() > 0,
            list@[0].0 == 0,
            forall|i: int|
                0 < i < list@.len() ==> preceded(*plan, order, t, (#[trigger] list@[i]).0 as int)
                    && list@[i].0 <= t,
            forall|j: int|
                0 <= j < k ==> match places@[#[trigger] dependencies@[j] as int] {
                    Some(at) => list@.contains(ExpansionNodeId(at)),
                    None => true,
                },
        decreases dependencies@.len() - k,
    {
        let index = dependencies[k];
        let ghost before = list@;
        proof {
            assert(dependencies@.contains(index));
            assert(waves::before(*plan, index as int, order[t] as int));
        }
        if let Some(at) = places[index] {
            proof {
                assert(waves::before(*plan, order[at - 1] as int, order[t] as int));
                assert(preceded(*plan, order, t, at as int));
            }
            list.push(ExpansionNodeId(at));
            assert(list@[before.len() as int] == ExpansionNodeId(at));
        }
        proof {
            assert forall|j: int| 0 <= j < k + 1 implies match places@[#[trigger] dependencies@[j] as int] {
                Some(at) => list@.contains(ExpansionNodeId(at)),
                None => true,
            } by {
                if j < k {
                    if let Some(at) = places@[dependencies@[j] as int] {
                        assert(before.contains(ExpansionNodeId(at)));
                        let i = choose|i: int| 0 <= i < before.len() && before[i] == ExpansionNodeId(at);
                        assert(list@[i] == ExpansionNodeId(at));
                    }
                }
            }
        }
        k = k + 1;
    }
    proof {
        let ps = expansion::positions(list@);
        assert forall|d: u64| #[trigger]
            ps.contains(d) <==> (d == 0 || preceded(*plan, order, t, d as int)) by {
            if ps.contains(d) {
                let i = choose|i: int| 0 <= i < ps.len() && ps[i] == d;
                assert(list@[i].0 == d);
            }
            if d == 0 {
                assert(ps[0] == 0);
            }
            if preceded(*plan, order, t, d as int) {
                let u = choose|u: int|
                    0 <= u < t && d as int == u + 1 && #[trigger] waves::before(
                        *plan,
                        order[u] as int,
                        order[t] as int,
                    );
                assert(dependencies@.contains(order[u]));
                let j = choose|j: int|
                    0 <= j < dependencies@.len() && dependencies@[j] == order[u];
                match places@[order[u] as int] {
                    Some(at) => {
                        assert(order[at - 1] == order[u]);
                        assert(at - 1 == u);
                        assert(list@.contains(ExpansionNodeId(at)));
                        let i = choose|i: int|
                            0 <= i < list@.len() && list@[i] == ExpansionNodeId(at);
                        assert(ps[i] == d);
                    },
                    None => {
                        assert(order[u] != order[u] as int);
                    },
                }
            }
        }
        assert forall|i: int| 0 <= i < list@.len() implies (#[trigger] list@[i]).0 < t + 1 by {
            if i > 0 {
                assert(list@[i].0 <= t);
            }
        }
    }
    list
}

/// The positions from one up to another, as nodes.
fn node_range(from: usize, to: usize) -> (list: Vec<ExpansionNodeId>)
    requires
        from <= to,
    ensures
        forall|i: int| 0 <= i < list@.len() ==> (#[trigger] list@[i]).0 < to,
        forall|d: u64| #[trigger]
            expansion::positions(list@).contains(d) <==> from <= d < to,
{
    let mut list: Vec<ExpansionNodeId> = Vec::new();
    let mut k: usize = from;
    while k < to
        invariant
            from <= k <= to,
            list@.len() == k - from,
            forall|i: int| 0 <= i < list@.len() ==> (#[trigger] list@[i]).0 == from + i,
        decreases to - k,
    {
        list.push(ExpansionNodeId(k));
        k = k + 1;
    }
    proof {
        let ps = expansion::positions(list@);
        assert forall|d: u64| #[trigger] ps.contains(d) <==> from <= d < to by {
            if ps.contains(d) {
                let i = choose|i: int| 0 <= i < ps.len() && ps[i] == d;
                assert(list@[i].0 == from + i);
            }
            if from <= d < to {
                assert(list@[d - from].0 == d);
                assert(ps[d - from] == d);
            }
        }
    }
    list
}

/// The preparation and the entries of a patch, and what reads each file.
struct LaidEntries {
    expansion: GraphExpansion,
    consumers: Vec<Consumers>,
}

spec fn consumers_known(
    list: Seq<Consumers>,
    plan: PatchPlan,
    order: Seq<usize>,
    k: int,
) -> bool {
    forall|base: PathModel, id: ExpansionNodeId| #[trigger]
        noted(list, base, id) <==> consumes(plan, order, k, base, id.0 as int)
}

#[verifier::rlimit(40)]
fn lay_entries(plan: &Arc<PatchPlan>, order: &Vec<usize>, dependencies: &Vec<Vec<usize>>) -> (laid:
    LaidEntries)
    requires
        is_order(**plan, order@),
        dependencies@.len() == plan.entries@.len(),
        forall|w: int|
            0 <= w < dependencies@.len() ==> #[trigger] waves::lists_predecessors(
                **plan,
                w,
                dependencies@[w]@,
            ),
    ensures
        laid.expansion.inv(),
        laid.expansion@.len() == 1 + order@.len(),
        waits(laid.expansion@[0], Task::PreparePatchApply { plan: *plan }, |d: int| false),
        forall|t: int|
            0 <= t < order@.len() ==> #[trigger] entry_laid(
                laid.expansion@,
                *plan,
                order@,
                t,
            ),
        bases_rise(laid.consumers@),
        consumers_known(laid.consumers@, **plan, order@, order@.len() as int),
{
    proof {
        let lists = choose|lists: Seq<Vec<usize>>| #[trigger]
            waves::are_waves(**plan, lists) && order@ == waves::flattened(lists);
        lemma_order_is_distinct(&**plan, lists);
    }
    let mut expansion = GraphExpansion::new();
    let ghost nothing = |d: int| false;
    add_step(
        &mut expansion,
        Task::PreparePatchApply { plan: plan.clone() },
        Vec::new(),
        Ghost(nothing),
    );
    assert(expansion@.last() == expansion@[0]);
    let mut consumers: Vec<Consumers> = Vec::new();
    let mut places = empty_places(plan.entries.len());
    assert(consumers_known(consumers@, **plan, order@, 0));
    let mut t: usize = 0;
    while t < order.len()
        invariant
            t <= order@.len(),
            dependencies@.len() == plan.entries@.len(),
            forall|w: int|
                0 <= w < dependencies@.len() ==> #[trigger] waves::lists_predecessors(
                    **plan,
                    w,
                    dependencies@[w]@,
                ),
            forall|u: int, v: int|
                0 <= u < order@.len() && 0 <= v < order@.len() && #[trigger] order@[u]
                    == #[trigger] order@[v] ==> u == v,
            forall|u: int|
                0 <= u < order@.len() ==> #[trigger] order@[u] < plan.entries@.len(),
            expansion.inv(),
            expansion@.len() == 1 + t,
            waits(expansion@[0], Task::PreparePatchApply { plan: *plan }, |d: int| false),
            forall|u: int|
                0 <= u < t ==> #[trigger] entry_laid(expansion@, *plan, order@, u),
            places@.len() == plan.entries@.len(),
            places_known(places@, order@, t as int),
            bases_rise(consumers@),
            consumers_known(consumers@, **plan, order@, t as int),
        decreases order@.len() - t,
    {
        let ghost before = expansion@;
        let ghost known = consumers@;
        let ghost placed = places@;
        let index = order[t];
        let at = expansion.len();
        assert(waves::lists_predecessors(**plan, index as int, dependencies@[index as int]@));
        let list = prerequisites(
            plan,
            &dependencies[index],
            &places,
            Ghost(order@),
            Ghost(t as int),
        );
        let ghost needed = |d: int| d == 0 || preceded(**plan, order@, t as int, d);
        add_step(
            &mut expansion,
            Task::ApplyPatchEntry { plan: plan.clone(), entry_index: index },
            list,
            Ghost(needed),
        );
        places.set(index, Some(at));
        match &plan.entries[index].source {
            PlannedPatchSource::Hdiff { base, .. } => {
                note_consumer(&mut consumers, base, ExpansionNodeId(at));
            },
            _ => {},
        }
        proof {
            let now = expansion@;
            assert(now.take(before.len() as int) =~= now.drop_last());
            assert(now[0] == now.drop_last()[0]);
            assert forall|u: int| 0 <= u < t implies #[trigger] entry_laid(
                now,
                *plan,
                order@,
                u,
            ) by {
                assert(entry_laid(before, *plan, order@, u));
                lemma_entry_stays(before, now, *plan, order@, u);
            }
            assert(now.last() == now[t + 1]);
            assert(entry_laid(now, *plan, order@, t as int));
            assert forall|i: int| 0 <= i < places@.len() implies match #[trigger] places@[i] {
                Some(p) => 1 <= p <= t + 1 && order@[p - 1] == i,
                None => forall|u: int| 0 <= u < t + 1 ==> #[trigger] order@[u] != i,
            } by {
                if i != index {
                    assert(places@[i] == placed[i]);
                }
            }
            assert forall|base: PathModel, id: ExpansionNodeId| #[trigger]
                noted(consumers@, base, id) <==> consumes(
                    **plan,
                    order@,
                    t + 1,
                    base,
                    id.0 as int,
                ) by {
                assert(noted(known, base, id) <==> consumes(
                    **plan,
                    order@,
                    t as int,
                    base,
                    id.0 as int,
                ));
            }
        }
        t = t + 1;
    }
    LaidEntries { expansion, consumers }
}

/// The files that entries are patched from.
spec fn base_list(list: Seq<Consumers>) -> Seq<PathModel> {
    Seq::new(list.len(), |b: int| list[b].base@)
}

proof fn lemma_base_list(list: Seq<Consumers>, plan: &PatchPlan, order: Seq<usize>)
    requires
        bases_rise(list),
        order.len() < usize::MAX,
        consumers_known(list, *plan, order, order.len() as int),
    ensures
        are_bases(*plan, order, base_list(list)),
{
    let bases = base_list(list);
    let n = order.len() as int;
    assert forall|base: PathModel| #[trigger] bases.contains(base) <==> exists|d: int| #[trigger]
        consumes(*plan, order, n, base, d) by {
        if bases.contains(base) {
            let b = choose|b: int| 0 <= b < bases.len() && bases[b] == base;
            let id = list[b].nodes@[0];
            assert(list[b].base@ == base);
            assert(list[b].nodes@.contains(id));
            assert(noted(list, base, id));
            assert(consumes(*plan, order, n, base, id.0 as int));
        }
        if exists|d: int| #[trigger] consumes(*plan, order, n, base, d) {
            let d = choose|d: int| #[trigger] consumes(*plan, order, n, base, d);
            let id = ExpansionNodeId(d as usize);
            assert(consumes(*plan, order, n, base, id.0 as int));
            assert(noted(list, base, id));
            let b = choose|b: int|
                0 <= b < list.len() && (#[trigger] list[b]).base@ == base
                    && list[b].nodes@.contains(id);
            assert(bases[b] == base);
        }
    }
}

proof fn lemma_consumers_of(list: Seq<Consumers>, plan: &PatchPlan, order: Seq<usize>, b: int)
    requires
        bases_rise(list),
        order.len() < usize::MAX,
        consumers_known(list, *plan, order, order.len() as int),
        0 <= b < list.len(),
    ensures
        expansion::all_below(list[b].nodes@, 1 + order.len() as int),
        forall|d: u64| #[trigger]
            expansion::positions(list[b].nodes@).contains(d) <==> consumes(
                *plan,
                order,
                order.len() as int,
                list[b].base@,
                d as int,
            ),
{
    let n = order.len() as int;
    let base = list[b].base@;
    let ids = list[b].nodes@;
    let ps = expansion::positions(ids);
    assert forall|i: int| 0 <= i < ids.len() implies (#[trigger] ids[i]).0 < 1 + n by {
        assert(ids.contains(ids[i]));
        assert(noted(list, base, ids[i]));
    }
    assert forall|d: u64| #[trigger] ps.contains(d) <==> consumes(
        *plan,
        order,
        n,
        base,
        d as int,
    ) by {
        if ps.contains(d) {
            let i = choose|i: int| 0 <= i < ps.len() && ps[i] == d;
            assert(ids.contains(ids[i]));
            assert(noted(list, base, ids[i]));
        }
        if consumes(*plan, order, n, base, d as int) {
            let id = ExpansionNodeId(d as usize);
            assert(consumes(*plan, order, n, base, id.0 as int));
            assert(noted(list, base, id));
            let c = choose|c: int|
                0 <= c < list.len() && (#[trigger] list[c]).base@ == base
                    && list[c].nodes@.contains(id);
            ordered::law_path_order_is_total(base, base);
            if c < b {
                assert(ordered::path_less(list[c].base@, list[b].base@));
            } else if b < c {
                assert(ordered::path_less(list[b].base@, list[c].base@));
            }
            let i = choose|i: int| 0 <= i < ids.len() && ids[i] == id;
            assert(ps[i] == d);
        }
    }
}

/// One node, as a list.
fn only(node: usize) -> (list: Vec<ExpansionNodeId>)
    ensures
        forall|i: int| 0 <= i < list@.len() ==> (#[trigger] list@[i]).0 == node,
        forall|d: u64| #[trigger] expansion::positions(list@).contains(d) <==> d == node,
{
    let mut list: Vec<ExpansionNodeId> = Vec::new();
    list.push(ExpansionNodeId(node));
    proof {
        let ps = expansion::positions(list@);
        assert(ps[0] == node as u64);
        assert forall|d: u64| #[trigger] ps.contains(d) <==> d == node by {
            if d == node {
                assert(ps[0] == d);
            }
        }
    }
    list
}

#[verifier::rlimit(60)]
fn lay_patch(
    archive: Arc<ArchiveWork>,
    plan: Arc<PatchPlan>,
    order: &Vec<usize>,
    dependencies: &Vec<Vec<usize>>,
) -> (expansion: GraphExpansion)
    requires
        is_order(*plan, order@),
        dependencies@.len() == plan.entries@.len(),
        forall|w: int|
            0 <= w < dependencies@.len() ==> #[trigger] waves::lists_predecessors(
                *plan,
                w,
                dependencies@[w]@,
            ),
    ensures
        expansion.inv(),
        exists|bases: Seq<PathModel>| #[trigger]
            is_patch(expansion@, archive, plan, order@, bases),
{
    let LaidEntries { expansion, consumers } = lay_entries(&plan, order, dependencies);
    let mut expansion = expansion;
    let prepared = expansion.len();
    let ghost base = expansion@;
    let ghost known = consumers@;
    let ghost bases = base_list(known);
    let ghost n = order@.len() as int;
    proof {
        lemma_base_list(known, &*plan, order@);
    }
    let mut b: usize = 0;
    let total = consumers.len();
    for consumer in it: consumers
        invariant
            it.seq() == known,
            b == it.index(),
            total == known.len(),
            n == order@.len(),
            n < usize::MAX,
            bases == base_list(known),
            bases_rise(known),
            consumers_known(known, *plan, order@, n),
            base.len() == 1 + n,
            expansion.inv(),
            expansion@.len() == base.len() + b,
            expansion@.take(base.len() as int) == base,
            forall|c: int|
                0 <= c < b ==> #[trigger] release_laid(expansion@, plan, order@, bases, c),
    {
        let ghost before = expansion@;
        let ghost c = b as int;
        proof {
            assert(known[c] == consumer);
            lemma_consumers_of(known, &*plan, order@, c);
        }
        let Consumers { base: path, nodes } = consumer;
        let ghost wanted = path@;
        let ghost needed = |d: int| consumes(*plan, order@, n, bases[c], d);
        assert(bases[c] == wanted);
        add_step(
            &mut expansion,
            Task::ReleasePatchBase { plan: plan.clone(), base: path },
            nodes,
            Ghost(needed),
        );
        proof {
            let now = expansion@;
            assert(now.take(before.len() as int) =~= now.drop_last());
            assert(now.take(base.len() as int) =~= base) by {
                assert forall|i: int| 0 <= i < base.len() implies now[i] == base[i] by {
                    assert(now.drop_last()[i] == before[i]);
                    assert(before.take(base.len() as int)[i] == before[i]);
                }
            }
            assert forall|e: int| 0 <= e < c implies #[trigger] release_laid(
                now,
                plan,
                order@,
                bases,
                e,
            ) by {
                assert(release_laid(before, plan, order@, bases, e));
                lemma_release_stays(before, now, plan, order@, bases, e);
            }
            assert(now.last() == now[1 + n + c]);
            assert(release_laid(now, plan, order@, bases, c));
        }
        b = b + 1;
    }
    let ghost released = expansion@;
    let deletes = expansion.len();
    let list = if deletes == 1 {
        only(0)
    } else {
        node_range(1, deletes)
    };
    let ghost needed = |d: int|
        if deletes == 1 {
            d == 0
        } else {
            1 <= d < deletes
        };
    add_step(
        &mut expansion,
        Task::ApplyPatchDeletes { plan: plan.clone() },
        list,
        Ghost(needed),
    );
    let ghost with_deletes = expansion@;
    let ghost after_deletes = |d: int| d == deletes;
    add_step(
        &mut expansion,
        Task::CommitPatchDeferred { plan: plan.clone() },
        only(deletes),
        Ghost(after_deletes),
    );
    let ghost with_commit = expansion@;
    let commit = expansion.len() - 1;
    let ghost after_commit = |d: int| d == deletes + 1;
    add_step(
        &mut expansion,
        Task::CleanPatchApply { plan: plan.clone(), archive: archive.clone() },
        only(commit),
        Ghost(after_commit),
    );
    proof {
        let now = expansion@;
        let at = deletes as int;
        assert forall|i: int| 0 <= i < with_commit.len() implies now[i] == with_commit[i] by {
            assert(now.drop_last()[i] == with_commit[i]);
        }
        assert forall|i: int| 0 <= i < with_deletes.len() implies now[i] == with_deletes[i] by {
            assert(with_commit.drop_last()[i] == with_deletes[i]);
            assert(now[i] == with_commit[i]);
        }
        assert forall|i: int| 0 <= i < released.len() implies now[i] == released[i] by {
            assert(with_deletes.drop_last()[i] == released[i]);
            assert(now[i] == with_deletes[i]);
        }
        assert(now.take(released.len() as int) =~= released);
        assert(now.take(base.len() as int) =~= base) by {
            assert forall|i: int| 0 <= i < base.len() implies now[i] == base[i] by {
                assert(now[i] == released[i]);
                assert(released.take(base.len() as int)[i] == released[i]);
            }
        }
        assert(now[0] == base[0]) by {
            assert(now.take(base.len() as int)[0] == now[0]);
        }
        assert(now[at] == with_deletes.last());
        assert(now[at + 1] == with_commit.last());
        assert(now[at + 2] == now.last());
        assert forall|t: int| 0 <= t < n implies #[trigger] entry_laid(now, plan, order@, t) by {
            assert(entry_laid(base, plan, order@, t));
            lemma_entry_stays(base, now, plan, order@, t);
        }
        assert forall|c: int| 0 <= c < bases.len() implies #[trigger] release_laid(
            now,
            plan,
            order@,
            bases,
            c,
        ) by {
            assert(release_laid(released, plan, order@, bases, c));
            lemma_release_stays(released, now, plan, order@, bases, c);
        }
        assert(is_patch(now, archive, plan, order@, bases));
    }
    expansion
}

/// Whether a run applies a patch as a subgraph.
pub open spec fn applies_patch(
    run: TaskRun,
    archive: Arc<ArchiveWork>,
    plan: Arc<PatchPlan>,
) -> bool {
    run matches TaskRun::Expand { expansion: e, next } && next is None && e.inv() && exists|
        order: Seq<usize>,
        bases: Seq<PathModel>,
    |
        is_order(*plan, order) && #[trigger] is_patch(e@, archive, plan, order, bases)
}

/// Schedules the steps of a patch. A plan whose entries cannot be ordered fails.
pub fn schedule_patch_apply(archive: Arc<ArchiveWork>, plan: Arc<PatchPlan>) -> (run: TaskRun)
    ensures
        match waves::order_fault(*plan) {
            Some(detail) => work::fails_with(run, "VFS error: "@ + detail),
            None => applies_patch(run, archive, plan),
        },
{
    let dependencies = match waves::entry_dependency_indices(&plan) {
        Ok(dependencies) => dependencies,
        Err(message) => {
            return TaskRun::failed(message.message());
        },
    };
    let order = match waves::ordered_entries(&plan) {
        Ok(order) => order,
        Err(message) => {
            return TaskRun::failed(message.message());
        },
    };
    assert(is_order(*plan, order@));
    let expansion = lay_patch(archive, plan, &order, &dependencies);
    TaskRun::expand(expansion)
}

/// What ends a patch runs after every entry: the deletes wait for all entries
/// and releases, the files that are put in place last wait for the deletes.
pub proof fn law_deletes_follow_every_entry(
    nodes: Seq<LocalNode>,
    archive: Arc<ArchiveWork>,
    plan: Arc<PatchPlan>,
    order: Seq<usize>,
    bases: Seq<PathModel>,
    t: int,
)
    requires
        is_patch(nodes, archive, plan, order, bases),
        nodes.len() <= u64::MAX,
        0 <= t < order.len(),
    ensures
        ({
            let deletes = 1 + order.len() + bases.len() as int;
            &&& nodes[deletes].task is ApplyPatchDeletes
            &&& nodes[deletes].dependencies.contains((t + 1) as u64)
            &&& nodes[deletes + 1].task is CommitPatchDeferred
            &&& nodes[deletes + 1].dependencies.contains(deletes as u64)
        }),
{
    let deletes = 1 + order.len() + bases.len() as int;
    let d = (t + 1) as u64;
    assert(1 <= d < deletes);
    assert(nodes[deletes].dependencies.contains(d));
    let e = deletes as u64;
    assert(nodes[deletes + 1].dependencies.contains(e));
}

} // verus!
