//! What becomes of a node that was expanded, over any number of steps.

use crate::error::GraphError;
use crate::graph::exec::TaskGraph;
use crate::graph::expansion::{GraphExpansion, LocalNode, TaskRun};
use crate::graph::model::{GraphModel, NodeModel, NodeState};
use crate::graph::node::{NodeId, ReadyTask};
use crate::graph::{effect, install, laws, lemmas, model, node};
use crate::task::Task;
use vstd::prelude::*;

verus! {

/// The leaves of an expansion, by their place in the grown graph.
pub open spec fn leaves_of(m: GraphModel, exp: Seq<LocalNode>) -> Set<int> {
    Set::new(
        |x: int|
            m.nodes.len() <= x < m.nodes.len() + exp.len() && install::leaf(
                m,
                exp,
                x - m.nodes.len(),
            ),
    )
}

/// Some leaf has ended without success.
pub open spec fn any_broken(m: GraphModel, leaves: Set<int>) -> bool {
    exists|i: int| leaves.contains(i) && (#[trigger] m.state(i)).broken()
}

/// Every leaf has succeeded.
pub open spec fn all_succeeded(m: GraphModel, leaves: Set<int>) -> bool {
    forall|i: int| leaves.contains(i) ==> #[trigger] m.state(i) is Succeeded
}

/// How the parent of an expansion stands: it fails with the first leaf that
/// breaks, waits while a leaf is unfinished, and once every leaf has succeeded
/// it has succeeded too, unless it had another task to go on with.
pub open spec fn stands(
    m: GraphModel,
    parent: int,
    leaves: Set<int>,
    next: Option<Task>,
) -> bool {
    &&& any_broken(m, leaves) ==> m.state(parent) is Failed
    &&& !any_broken(m, leaves) && !all_succeeded(m, leaves) ==> m.state(parent) is Waiting
        && m.nodes[parent].task == next
    &&& all_succeeded(m, leaves) && next is None ==> m.state(parent) is Succeeded
}

/// The parent waits for exactly those leaves that have not succeeded.
pub open spec fn bonded(
    m: GraphModel,
    parent: int,
    leaves: Set<int>,
    next: Option<Task>,
) -> bool {
    &&& m.has(parent)
    &&& m.state(parent) is Waiting
    &&& m.nodes[parent].task == next
    &&& forall|i: int| #[trigger]
        leaves.contains(i) ==> m.has(i) && (m.state(i) is Succeeded || m.waits_for(parent, i))
    &&& forall|i: int| #[trigger] m.waits_for(parent, i) ==> leaves.contains(i)
}

/// A leaf has broken and its parent has failed.
pub open spec fn failed_with_leaf(m: GraphModel, parent: int, leaves: Set<int>) -> bool {
    &&& m.has(parent)
    &&& m.state(parent) is Failed
    &&& forall|i: int| #[trigger] leaves.contains(i) ==> m.has(i)
    &&& any_broken(m, leaves)
}

/// Every leaf has succeeded and the parent with them, or it has gone on.
pub open spec fn through(
    m: GraphModel,
    parent: int,
    leaves: Set<int>,
    next: Option<Task>,
) -> bool {
    &&& m.has(parent)
    &&& forall|i: int| #[trigger] leaves.contains(i) ==> m.has(i)
    &&& all_succeeded(m, leaves)
    &&& next is None ==> m.state(parent) is Succeeded
}

/// The graph in which a ready node has been taken into execution.
pub open spec fn taken(m: GraphModel, id: int) -> GraphModel {
    GraphModel {
        nodes: m.nodes.update(id, NodeModel { state: NodeState::Running, ..m.nodes[id] }),
        ..m
    }
}

/// One step of a graph: a ready node is taken into execution, or the run of a
/// node ends.
pub open spec fn is_step(m0: GraphModel, m1: GraphModel) -> bool {
    ||| exists|id: int| m0.has(id) && m0.state(id) is Ready && m1 == #[trigger] taken(m0, id)
    ||| exists|id: NodeId, run: TaskRun, result: Result<Vec<ReadyTask>, GraphError>|
        #[trigger] effect::run_effect(m0, m1, id, run, result)
}

/// The graphs that a graph goes through.
pub open spec fn is_history(history: Seq<GraphModel>) -> bool {
    &&& forall|k: int| 0 <= k < history.len() ==> (#[trigger] history[k]).valid()
    &&& forall|k: int|
        0 <= k < history.len() - 1 ==> is_step(#[trigger] history[k], history[k + 1])
}

/// What is reached from nodes that have not succeeded has not succeeded.
proof fn lemma_reached_is_open(m: GraphModel, sources: Set<int>, p: Seq<int>, k: int)
    requires
        forall|d: int, i: int| #[trigger]
            m.depends(d, i) && m.state(d) is Succeeded ==> m.state(i) is Succeeded,
        forall|w: int, i: int| #[trigger]
            m.waits_for(w, i) ==> m.state(w) is Waiting || m.state(w) is Failed,
        forall|x: int| #[trigger] sources.contains(x) ==> !m.state(x).terminal(),
        m.path(p),
        sources.contains(p[0]),
        0 <= k < p.len(),
    ensures
        !(m.state(p[k]) is Succeeded),
    decreases k,
{
    if k > 0 {
        lemma_reached_is_open(m, sources, p, k - 1);
        assert(m.edge(p[k - 1], p[(k - 1) + 1]));
        if m.state(p[k]) is Succeeded {
            assert(m.depends(p[k], p[k - 1]));
        }
    }
}

/// What a break does to a waiting parent and its leaves.
proof fn lemma_break(
    m: GraphModel,
    sources: Set<int>,
    end: NodeState,
    parent: int,
    leaves: Set<int>,
    next: Option<Task>,
)
    requires
        bonded(m, parent, leaves, next),
        end is Failed || end is Cancelled,
        forall|d: int, i: int| #[trigger]
            m.depends(d, i) && (m.state(d) is Succeeded || m.state(d) is Waiting) ==> m.state(
                i,
            ) is Succeeded,
        forall|w: int, i: int| #[trigger]
            m.waits_for(w, i) ==> !m.state(i).terminal() && (m.state(w) is Waiting || m.state(
                w,
            ) is Failed),
        forall|x: int| #[trigger]
            sources.contains(x) ==> m.has(x) && !m.state(x).terminal() && x != parent,
    ensures
        ({
            let n = model::after_failure(m, sources, end);
            bonded(n, parent, leaves, next) || failed_with_leaf(n, parent, leaves)
        }),
{
    let n = model::after_failure(m, sources, end);
    assert(n.nodes[parent] == model::node_after_failure(m, sources, end, parent));
    if m.reached_from(sources, parent) {
        let a = choose|a: int| sources.contains(a) && #[trigger] m.reaches(a, parent);
        let p = choose|p: Seq<int>| #[trigger] m.path(p) && p[0] == a && p.last() == parent;
        let k = p.len() - 2;
        assert(p.len() > 1);
        let i = p[k];
        assert(m.edge(p[k], p[k + 1]));
        lemma_reached_is_open(m, sources, p, k);
        assert(!m.depends(parent, i));
        assert(m.waits_for(parent, i));
        let q = p.drop_last();
        assert forall|j: int| 0 <= j < q.len() - 1 implies m.edge(#[trigger] q[j], q[j + 1]) by {
            assert(m.edge(p[j], p[j + 1]));
        }
        assert forall|j: int| 0 <= j < q.len() implies m.has(#[trigger] q[j]) by {
            assert(m.has(p[j]));
        }
        assert(m.path(q) && q[0] == a && q.last() == i);
        assert(m.reaches(a, i));
        assert(m.reached_from(sources, i));
        assert(n.nodes[i] == model::node_after_failure(m, sources, end, i));
        assert(n.state(i).broken());
        assert(leaves.contains(i));
    } else {
        assert forall|i: int| #[trigger] leaves.contains(i) implies n.has(i) && (n.state(
            i,
        ) is Succeeded || n.waits_for(parent, i)) by {
            assert(n.nodes[i] == model::node_after_failure(m, sources, end, i));
            if !(m.state(i) is Succeeded) {
                assert(m.waits_for(parent, i));
                if sources.contains(i) {
                    lemmas::lemma_reach_self(m, sources, i);
                }
                if m.reached_from(sources, i) {
                    assert(m.edge(i, parent));
                    lemmas::lemma_reach_next(m, sources, i, parent);
                }
            }
        }
        assert forall|i: int| #[trigger] n.waits_for(parent, i) implies leaves.contains(i) by {
            assert(n.nodes[i] == model::node_after_failure(m, sources, end, i));
            assert(m.waits_for(parent, i));
        }
    }
}

/// What the success of another node does to a waiting parent and its leaves.
proof fn lemma_success(
    m0: GraphModel,
    m1: GraphModel,
    id: int,
    parent: int,
    leaves: Set<int>,
    next: Option<Task>,
)
    requires
        m0.valid(),
        bonded(m0, parent, leaves, next),
        m0.has(id),
        m0.state(id) is Running,
        model::success_step(m0, m1, id),
    ensures
        bonded(m1, parent, leaves, next) || (through(m1, parent, leaves, next) && m0.state(
            parent,
        ) is Waiting && m1.state(parent) == (if next is Some {
            NodeState::Ready
        } else {
            NodeState::Succeeded
        })),
{
    assert(m1.nodes[parent] == model::node_after_success(m0, m1, id, parent));
    assert forall|i: int| #[trigger] m1.waits_for(parent, i) implies m0.waits_for(parent, i) by {
        assert(m1.nodes[i] == model::node_after_success(m0, m1, id, i));
    }
    assert forall|i: int| #[trigger] leaves.contains(i) implies m1.has(i) && (m1.state(
        i,
    ) is Succeeded || m1.waits_for(parent, i)) by {
        assert(m1.nodes[i] == model::node_after_success(m0, m1, id, i));
        if !(m1.state(i) is Succeeded) {
            assert(m0.waits_for(parent, i));
        }
    }
    if !m1.awaits(parent) {
        assert forall|i: int| leaves.contains(i) implies #[trigger] m1.state(i) is Succeeded by {
            if m1.waits_for(parent, i) {
                assert(m1.awaits(parent));
            }
        }
    }
}

/// What the expansion of another node does to a waiting parent and its leaves.
proof fn lemma_expansion(
    m: GraphModel,
    id: int,
    exp: Seq<LocalNode>,
    more: Option<Task>,
    parent: int,
    leaves: Set<int>,
    next: Option<Task>,
)
    requires
        m.valid(),
        bonded(m, parent, leaves, next),
        m.has(id),
        m.state(id) is Running,
    ensures
        ({
            let n = install::expanded(m, id, exp, more);
            bonded(n, parent, leaves, next) || failed_with_leaf(n, parent, leaves)
        }),
{
    let mid = install::installed(m, id, exp, more);
    assert(mid.nodes[parent] == install::installed_node(m, id, exp, more, parent));
    assert forall|i: int| #[trigger] mid.waits_for(parent, i) <==> m.waits_for(parent, i) by {
        if mid.has(i) {
            assert(mid.nodes[i] == install::installed_node(m, id, exp, more, i));
        }
    }
    assert forall|i: int| #[trigger] leaves.contains(i) implies mid.has(i) && (mid.state(
        i,
    ) is Succeeded || mid.waits_for(parent, i)) by {
        assert(mid.nodes[i] == install::installed_node(m, id, exp, more, i));
    }
    lemma_settled(m, id, exp, more, parent, leaves, next);
}

/// The edges of a grown graph agree with its states as far as a break needs.
proof fn lemma_grown(m: GraphModel, id: int, exp: Seq<LocalNode>, more: Option<Task>)
    requires
        m.valid(),
        m.has(id),
        m.state(id) is Running,
    ensures
        ({
            let mid = install::installed(m, id, exp, more);
            &&& forall|d: int, i: int| #[trigger]
                mid.depends(d, i) && (mid.state(d) is Succeeded || mid.state(d) is Waiting)
                    ==> mid.state(i) is Succeeded
            &&& forall|w: int, i: int| #[trigger]
                mid.waits_for(w, i) ==> !mid.state(i).terminal() && (mid.state(w) is Waiting
                    || mid.state(w) is Failed)
        }),
{
    let base = m.nodes.len() as int;
    let mid = install::installed(m, id, exp, more);
    assert forall|x: int| mid.has(x) implies #[trigger] mid.nodes[x] == install::installed_node(
        m,
        id,
        exp,
        more,
        x,
    ) by {}
    assert forall|d: int, i: int| #[trigger]
        mid.depends(d, i) && (mid.state(d) is Succeeded || mid.state(d) is Waiting) implies mid.state(
        i,
    ) is Succeeded by {
        let gain = install::gained(m, exp, i, exp.len());
        install::lemma_gained(m, exp, i, exp.len());
        assert(mid.nodes[i] == install::installed_node(m, id, exp, more, i));
        let all = mid.nodes[i].dependents;
        let k = choose|k: int| 0 <= k < all.len() && all[k] == d;
        if i < base {
            let before = m.nodes[i].dependents;
            if k >= before.len() {
                assert(gain[k - before.len()] == d);
                assert(gain.contains(d));
                assert(mid.nodes[d] == install::installed_node(m, id, exp, more, d));
            } else {
                assert(before[k] == d);
                assert(m.depends(d, i));
                assert(mid.nodes[d] == install::installed_node(m, id, exp, more, d));
                assert(m.state(i) is Succeeded);
            }
        } else {
            assert(gain.contains(d));
            assert(mid.nodes[d] == install::installed_node(m, id, exp, more, d));
        }
    }
    assert forall|w: int, i: int| #[trigger] mid.waits_for(w, i) implies !mid.state(i).terminal()
        && (mid.state(w) is Waiting || mid.state(w) is Failed) by {
        assert(mid.nodes[i] == install::installed_node(m, id, exp, more, i));
        if i < base {
            assert(m.waits_for(w, i));
            assert(mid.nodes[w] == install::installed_node(m, id, exp, more, w));
        } else {
            assert(mid.nodes[i].waiters.contains(w));
            let k = choose|k: int|
                0 <= k < mid.nodes[i].waiters.len() && mid.nodes[i].waiters[k] == w;
            assert(w == id);
            assert(mid.nodes[id] == install::installed_node(m, id, exp, more, id));
        }
    }
}

/// What an expansion breaks at once, and what it releases.
proof fn lemma_settled(
    m: GraphModel,
    id: int,
    exp: Seq<LocalNode>,
    more: Option<Task>,
    parent: int,
    leaves: Set<int>,
    next: Option<Task>,
)
    requires
        m.valid(),
        m.has(id),
        m.state(id) is Running,
        m.has(parent),
        bonded(install::installed(m, id, exp, more), parent, leaves, next),
    ensures
        ({
            let n = install::expanded(m, id, exp, more);
            bonded(n, parent, leaves, next) || failed_with_leaf(n, parent, leaves)
        }),
{
    let base = m.nodes.len() as int;
    let mid = install::installed(m, id, exp, more);
    let late = install::settled(m, id, exp, more);
    let n = install::expanded(m, id, exp, more);
    let sources = install::doomed(m, exp);
    lemma_grown(m, id, exp, more);
    assert forall|x: int| #[trigger] sources.contains(x) implies mid.has(x) && !mid.state(
        x,
    ).terminal() && x != parent by {
        assert(mid.nodes[x] == install::installed_node(m, id, exp, more, x));
    }
    lemma_break(mid, sources, NodeState::Cancelled, parent, leaves, next);
    assert forall|x: int| late.has(x) implies (#[trigger] n.nodes[x]).waiters
        == late.nodes[x].waiters && (n.state(x) == late.state(x) || (late.state(x) is Pending
        && n.state(x) is Ready)) by {}
    assert(n.nodes[parent] == late.nodes[parent]);
    if bonded(late, parent, leaves, next) {
        assert forall|i: int| #[trigger] leaves.contains(i) implies n.has(i) && (n.state(
            i,
        ) is Succeeded || n.waits_for(parent, i)) by {
            assert(late.has(i));
            assert(n.nodes[i].waiters == late.nodes[i].waiters);
            if !(late.state(i) is Succeeded) {
                assert(late.waits_for(parent, i));
            }
        }
        assert forall|i: int| #[trigger] n.waits_for(parent, i) implies leaves.contains(i) by {
            assert(n.nodes[i].waiters == late.nodes[i].waiters);
            assert(late.waits_for(parent, i));
        }
    } else {
        let i = choose|i: int| leaves.contains(i) && (#[trigger] late.state(i)).broken();
        assert(late.has(i));
        assert(n.nodes[i].waiters == late.nodes[i].waiters);
        assert(n.state(i).broken());
    }
}

/// A change of one other node that keeps it open keeps the bond.
proof fn lemma_other_node(
    m0: GraphModel,
    m1: GraphModel,
    id: int,
    parent: int,
    leaves: Set<int>,
    next: Option<Task>,
)
    requires
        bonded(m0, parent, leaves, next),
        m0.has(id),
        id != parent,
        !m0.state(id).terminal(),
        m1.nodes == m0.nodes.update(id, m1.nodes[id]),
        m1.nodes[id].waiters == m0.nodes[id].waiters,
    ensures
        bonded(m1, parent, leaves, next),
{
    assert forall|i: int| #[trigger] m1.waits_for(parent, i) <==> m0.waits_for(parent, i) by {}
    assert forall|i: int| #[trigger] leaves.contains(i) implies m1.has(i) && (m1.state(
        i,
    ) is Succeeded || m1.waits_for(parent, i)) by {
        if !(m0.state(i) is Succeeded) {
            assert(m0.waits_for(parent, i));
            assert(m1.waits_for(parent, i));
        }
    }
}

/// What the end of another run does to a waiting parent and its leaves.
proof fn lemma_run(
    m0: GraphModel,
    m1: GraphModel,
    id: NodeId,
    run: TaskRun,
    result: Result<Vec<ReadyTask>, GraphError>,
    parent: int,
    leaves: Set<int>,
    next: Option<Task>,
)
    requires
        m0.valid(),
        bonded(m0, parent, leaves, next),
        effect::run_effect(m0, m1, id, run, result),
    ensures
        bonded(m1, parent, leaves, next) || failed_with_leaf(m1, parent, leaves) || (through(
            m1,
            parent,
            leaves,
            next,
        ) && (next matches Some(task) ==> m1.state(parent) is Ready && result is Ok
            && resumes(result->Ok_0@, parent, task))),
{
    if m0.has(id.idx()) && m0.state(id.idx()) is Running {
        let sources = set![id.idx()];
        match run {
            TaskRun::Succeeded => {
                lemma_success(m0, m1, id.idx(), parent, leaves, next);
                lemma_resumes(m0, m1, id, result->Ok_0@, parent, next);
            },
            TaskRun::Failed { .. } => {
                lemma_break(m0, sources, NodeState::Failed, parent, leaves, next);
            },
            TaskRun::Cancelled => {
                lemma_break(m0, sources, NodeState::Cancelled, parent, leaves, next);
            },
            TaskRun::Continue { .. } => {
                lemma_other_node(m0, m1, id.idx(), parent, leaves, next);
            },
            TaskRun::Expand { expansion, next: more } => {
                if expansion@.len() > 0 {
                    if result is Ok {
                        lemma_expansion(m0, id.idx(), expansion@, more, parent, leaves, next);
                    }
                } else if more is Some {
                    lemma_other_node(m0, m1, id.idx(), parent, leaves, next);
                } else {
                    lemma_success(m0, m1, id.idx(), parent, leaves, next);
                    lemma_resumes(m0, m1, id, result->Ok_0@, parent, next);
                }
            },
        }
    }
}

/// The node is handed out with the task that it goes on with, marked as one
/// that goes on.
pub open spec fn resumes(ready: Seq<ReadyTask>, parent: int, task: Task) -> bool {
    exists|k: int|
        0 <= k < ready.len() && (#[trigger] ready[k]).id.idx() == parent && ready[k].task == task
            && ready[k].continuation
}

proof fn lemma_resumes(
    m0: GraphModel,
    m1: GraphModel,
    id: NodeId,
    ready: Seq<ReadyTask>,
    parent: int,
    next: Option<Task>,
)
    requires
        effect::success_effect(m0, m1, id, ready),
        m0.has(parent),
        m0.state(parent) is Waiting,
        m0.nodes[parent].task == next,
    ensures
        m1.state(parent) is Ready ==> next is Some && resumes(ready, parent, next->0),
{
    assert(m1.nodes[parent] == model::node_after_success(m0, m1, id.idx(), parent));
    if m1.state(parent) is Ready {
        assert(node::newly_ready(m0, m1, parent));
        let k = choose|k: int| 0 <= k < ready.len() && (#[trigger] ready[k]).id.idx() == parent;
        assert(ready[k].task == next->0);
    }
}

/// An expansion that is refused changes nothing; one that is installed counts,
/// and its parent waits for every leaf, unless a leaf cannot run any more: then
/// the parent has failed.
pub proof fn law_parent_waits_for_every_leaf(
    m0: GraphModel,
    m1: GraphModel,
    id: NodeId,
    exp: Seq<LocalNode>,
    next: Option<Task>,
    result: Result<Vec<ReadyTask>, GraphError>,
)
    requires
        m0.valid(),
        m0.has(id.idx()),
        m0.state(id.idx()) is Running,
        exp.len() > 0,
        effect::expand_effect(m0, m1, id, exp, next, result),
    ensures
        result is Err ==> m1 == m0,
        result is Ok ==> m1.dynamic_expansions == (if m0.dynamic_expansions < usize::MAX {
            m0.dynamic_expansions + 1
        } else {
            usize::MAX as int
        }),
        result is Ok ==> if any_broken(m1, leaves_of(m0, exp)) {
            m1.state(id.idx()) is Failed
        } else {
            &&& m1.state(id.idx()) is Waiting
            &&& forall|i: int|
                leaves_of(m0, exp).contains(i) <==> #[trigger] m1.waits_for(id.idx(), i)
        },
{
    if result is Ok {
        lemma_bond_forms(m0, id.idx(), exp, next);
        let leaves = leaves_of(m0, exp);
        if bonded(m1, id.idx(), leaves, next) {
            assert forall|i: int|
                leaves.contains(i) implies #[trigger] m1.waits_for(id.idx(), i) by {
                lemma_new_is_open(m0, id.idx(), exp, next, i);
            }
            assert forall|i: int| leaves.contains(i) implies !(#[trigger] m1.state(i)).broken() by {
                assert(m1.waits_for(id.idx(), i));
                lemma_waited_for_is_open(m0, id.idx(), exp, next, i);
            }
        }
    }
}

/// A node that an expansion adds has not succeeded.
proof fn lemma_new_is_open(
    m: GraphModel,
    parent: int,
    exp: Seq<LocalNode>,
    next: Option<Task>,
    i: int,
)
    requires
        m.nodes.len() <= i < m.nodes.len() + exp.len(),
    ensures
        !(install::expanded(m, parent, exp, next).state(i) is Succeeded),
{
    let mid = install::installed(m, parent, exp, next);
    let late = install::settled(m, parent, exp, next);
    assert(mid.nodes[i] == install::installed_node(m, parent, exp, next, i));
    assert(late.nodes[i] == model::node_after_failure(
        mid,
        install::doomed(m, exp),
        NodeState::Cancelled,
        i,
    ));
}

/// What an expansion's parent waits for has not ended.
proof fn lemma_waited_for_is_open(
    m: GraphModel,
    parent: int,
    exp: Seq<LocalNode>,
    next: Option<Task>,
    i: int,
)
    requires
        install::expanded(m, parent, exp, next).waits_for(parent, i),
    ensures
        !install::expanded(m, parent, exp, next).state(i).terminal(),
{
    let mid = install::installed(m, parent, exp, next);
    let late = install::settled(m, parent, exp, next);
    assert(late.nodes[i] == model::node_after_failure(
        mid,
        install::doomed(m, exp),
        NodeState::Cancelled,
        i,
    ));
}

proof fn lemma_bond_forms(m: GraphModel, parent: int, exp: Seq<LocalNode>, next: Option<Task>)
    requires
        m.valid(),
        m.has(parent),
        m.state(parent) is Running,
    ensures
        ({
            let n = install::expanded(m, parent, exp, next);
            bonded(n, parent, leaves_of(m, exp), next) || failed_with_leaf(
                n,
                parent,
                leaves_of(m, exp),
            )
        }),
{
    let mid = install::installed(m, parent, exp, next);
    let leaves = leaves_of(m, exp);
    assert(mid.nodes[parent] == install::installed_node(m, parent, exp, next, parent));
    assert forall|i: int| #[trigger] leaves.contains(i) implies mid.has(i) && (mid.state(
        i,
    ) is Succeeded || mid.waits_for(parent, i)) by {
        assert(mid.nodes[i] == install::installed_node(m, parent, exp, next, i));
        assert(mid.nodes[i].waiters[0] == parent);
    }
    assert forall|i: int| #[trigger] mid.waits_for(parent, i) implies leaves.contains(i) by {
        assert(mid.nodes[i] == install::installed_node(m, parent, exp, next, i));
        if i < m.nodes.len() {
            assert(m.waits_for(parent, i));
        }
    }
    lemma_settled(m, parent, exp, next, parent, leaves, next);
}

/// Over any number of steps, the parent of an expansion waits for every leaf,
/// fails with the first that breaks, and succeeds with the last, unless it has
/// another task to go on with.
pub proof fn law_parent_follows_its_leaves(
    m: GraphModel,
    parent: int,
    exp: Seq<LocalNode>,
    next: Option<Task>,
    history: Seq<GraphModel>,
    k: int,
)
    requires
        m.valid(),
        m.has(parent),
        m.state(parent) is Running,
        is_history(history),
        0 <= k < history.len(),
        history[0] == install::expanded(m, parent, exp, next),
    ensures
        stands(history[k], parent, leaves_of(m, exp), next),
{
    lemma_phases(m, parent, exp, next, history, k);
    let n = history[k];
    let leaves = leaves_of(m, exp);
    if bonded(n, parent, leaves, next) {
        assert(n.awaits(parent));
        let i = choose|i: int| #[trigger] n.waits_for(parent, i);
        assert(leaves.contains(i));
        assert(!n.state(i).terminal());
        if any_broken(n, leaves) {
            let j = choose|j: int| leaves.contains(j) && (#[trigger] n.state(j)).broken();
            assert(n.waits_for(parent, j));
        }
    } else if failed_with_leaf(n, parent, leaves) {
        let j = choose|j: int| leaves.contains(j) && (#[trigger] n.state(j)).broken();
        assert(!(n.state(j) is Succeeded));
    }
}

/// The parent waits, has failed with a leaf, or is through with its leaves.
proof fn lemma_phases(
    m: GraphModel,
    parent: int,
    exp: Seq<LocalNode>,
    next: Option<Task>,
    history: Seq<GraphModel>,
    k: int,
)
    requires
        m.valid(),
        m.has(parent),
        m.state(parent) is Running,
        is_history(history),
        0 <= k < history.len(),
        history[0] == install::expanded(m, parent, exp, next),
    ensures
        ({
            let leaves = leaves_of(m, exp);
            ||| bonded(history[k], parent, leaves, next)
            ||| failed_with_leaf(history[k], parent, leaves)
            ||| through(history[k], parent, leaves, next)
        }),
    decreases k,
{
    let leaves = leaves_of(m, exp);
    if k == 0 {
        lemma_bond_forms(m, parent, exp, next);
    } else {
        lemma_phases(m, parent, exp, next, history, k - 1);
        let m0 = history[k - 1];
        let m1 = history[k];
        assert(is_step(history[k - 1], history[(k - 1) + 1]));
        if bonded(m0, parent, leaves, next) {
            if exists|id: int|
                m0.has(id) && m0.state(id) is Ready && m1 == #[trigger] taken(m0, id) {
                let id = choose|id: int|
                    m0.has(id) && m0.state(id) is Ready && m1 == #[trigger] taken(m0, id);
                lemma_other_node(m0, m1, id, parent, leaves, next);
            } else {
                let (id, run, result) = choose|
                    id: NodeId,
                    run: TaskRun,
                    result: Result<Vec<ReadyTask>, GraphError>,
                | #[trigger] effect::run_effect(m0, m1, id, run, result);
                lemma_run(m0, m1, id, run, result, parent, leaves, next);
            }
        } else {
            assert forall|x: int| m0.has(x) && (#[trigger] m0.state(x)).terminal() implies m1.has(x)
                && m1.state(x) == m0.state(x) by {
                lemma_step_keeps_ends(m0, m1, x);
            }
            assert forall|i: int| #[trigger] leaves.contains(i) implies m1.has(i) by {
                lemma_step_keeps_nodes(m0, m1, i);
            }
            lemma_step_keeps_nodes(m0, m1, parent);
            if failed_with_leaf(m0, parent, leaves) {
                let j = choose|j: int| leaves.contains(j) && (#[trigger] m0.state(j)).broken();
                assert(m1.state(j).broken());
                assert(m0.state(parent).terminal());
            } else {
                assert forall|i: int| leaves.contains(i) implies #[trigger] m1.state(
                    i,
                ) is Succeeded by {
                    assert(m0.state(i) is Succeeded);
                }
                if next is None {
                    assert(m0.state(parent).terminal());
                }
            }
        }
    }
}

proof fn lemma_step_keeps_ends(m0: GraphModel, m1: GraphModel, x: int)
    requires
        m0.valid(),
        is_step(m0, m1),
        m0.has(x),
        m0.state(x).terminal(),
    ensures
        m1.has(x),
        m1.state(x) == m0.state(x),
{
    if exists|id: int| m0.has(id) && m0.state(id) is Ready && m1 == #[trigger] taken(m0, id) {
    } else {
        let (id, run, result) = choose|
            id: NodeId,
            run: TaskRun,
            result: Result<Vec<ReadyTask>, GraphError>,
        | #[trigger] effect::run_effect(m0, m1, id, run, result);
        laws::law_terminal_is_final(m0, m1, id, run, result, x);
    }
}

proof fn lemma_step_keeps_nodes(m0: GraphModel, m1: GraphModel, x: int)
    requires
        is_step(m0, m1),
        m0.has(x),
    ensures
        m1.has(x),
{
}

/// The parent goes on with the last of its leaves: in the step in which the
/// last leaf succeeds, it succeeds as well, or it is handed out again with the
/// task that it goes on with.
pub proof fn law_parent_goes_on_with_the_last_leaf(
    m0: GraphModel,
    m1: GraphModel,
    id: NodeId,
    run: TaskRun,
    result: Result<Vec<ReadyTask>, GraphError>,
    parent: int,
    leaves: Set<int>,
    next: Option<Task>,
)
    requires
        m0.valid(),
        m1.valid(),
        bonded(m0, parent, leaves, next),
        effect::run_effect(m0, m1, id, run, result),
        all_succeeded(m1, leaves),
    ensures
        match next {
            None => m1.state(parent) is Succeeded,
            Some(task) => m1.state(parent) is Ready && result is Ok && resumes(
                result->Ok_0@,
                parent,
                task,
            ),
        },
{
    lemma_run(m0, m1, id, run, result, parent, leaves, next);
    if bonded(m1, parent, leaves, next) {
        assert(m1.awaits(parent));
        let i = choose|i: int| #[trigger] m1.waits_for(parent, i);
        assert(leaves.contains(i));
        assert(m1.state(i) is Succeeded);
    }
}

/// The states that a graph goes through: at each step a ready node is taken into
/// execution, or the run of a node ends.
pub open spec fn is_graph_history(graphs: Seq<TaskGraph>) -> bool {
    &&& forall|k: int| 0 <= k < graphs.len() ==> (#[trigger] graphs[k]).inv()
    &&& forall|k: int|
        0 <= k < graphs.len() - 1 ==> is_step((#[trigger] graphs[k])@, graphs[k + 1]@)
}

/// A run that ends in an expansion which is refused leaves every node as it was,
/// the node that ran among them. One that is installed counts as an expansion,
/// and from then on the node waits until every leaf has succeeded and then has
/// succeeded too, or fails as soon as one leaf has failed or was cancelled.
pub proof fn law_expanded_node_follows_its_leaves(
    graphs: Seq<TaskGraph>,
    id: NodeId,
    expansion: GraphExpansion,
    result: Result<Vec<ReadyTask>, GraphError>,
    k: int,
)
    requires
        is_graph_history(graphs),
        1 <= k < graphs.len(),
        graphs[0]@.has(id.idx()),
        graphs[0]@.state(id.idx()) is Running,
        expansion@.len() > 0,
        effect::run_effect(
            graphs[0]@,
            graphs[1]@,
            id,
            TaskRun::Expand { expansion, next: None },
            result,
        ),
    ensures
        result is Err ==> graphs[1]@ == graphs[0]@,
        result is Ok ==> {
            let leaves = leaves_of(graphs[0]@, expansion@);
            let state = graphs[k]@.state(id.idx());
            &&& graphs[1]@.dynamic_expansions == (if graphs[0]@.dynamic_expansions < usize::MAX {
                graphs[0]@.dynamic_expansions + 1
            } else {
                usize::MAX as int
            })
            &&& any_broken(graphs[k]@, leaves) ==> state is Failed
            &&& all_succeeded(graphs[k]@, leaves) ==> state is Succeeded
            &&& !any_broken(graphs[k]@, leaves) && !all_succeeded(graphs[k]@, leaves)
                ==> state is Waiting
        },
{
    graphs[0].lemma_valid();
    law_parent_waits_for_every_leaf(graphs[0]@, graphs[1]@, id, expansion@, None, result);
    if result is Ok {
        let history = Seq::new((graphs.len() - 1) as nat, |i: int| graphs[i + 1]@);
        assert forall|i: int| 0 <= i < history.len() implies (#[trigger] history[i]).valid() by {
            graphs[i + 1].lemma_valid();
        }
        assert forall|i: int| 0 <= i < history.len() - 1 implies is_step(
            #[trigger] history[i],
            history[i + 1],
        ) by {
            assert(is_step(graphs[i + 1]@, graphs[(i + 1) + 1]@));
        }
        law_parent_follows_its_leaves(
            graphs[0]@,
            id.idx(),
            expansion@,
            None,
            history,
            k - 1,
        );
        assert(history[k - 1] == graphs[k]@);
    }
}

} // verus!
