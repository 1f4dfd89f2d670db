//! What holds of every task graph.

use crate::error::GraphError;
use crate::graph::exec::TaskGraph;
use crate::graph::expansion::{LocalNode, TaskRun};
use crate::graph::model::{GraphModel, NodeModel, NodeState};
use crate::graph::node::{NodeId, ReadyTask};
use crate::graph::{effect, expansion, install, lemmas, model, node};
use crate::task::Task;
use vstd::prelude::*;

verus! {

/// A task is released, runs, expands and succeeds only after everything that
/// its node depends on has succeeded.
pub proof fn law_runs_after_dependencies(graph: &TaskGraph, d: int, i: int)
    requires
        graph.inv(),
        graph@.depends(d, i),
        graph@.state(d) is Ready || graph@.state(d) is Running || graph@.state(d) is Waiting
            || graph@.state(d) is Succeeded,
    ensures
        graph@.state(i) is Succeeded,
{
    graph.lemma_valid();
}

/// A started graph never stalls: while a node is unfinished, some node is
/// ready or running.
pub proof fn law_never_stalls(m: GraphModel)
    requires
        m.valid(),
        m.started(),
        m.open_nodes().len() > 0,
    ensures
        exists|x: int| m.has(x) && (#[trigger] m.state(x) is Ready || m.state(x) is Running),
{
    let rank = choose|rank: Seq<int>| m.ranked(rank);
    lemmas::lemma_finite(m);
    let x = m.open_nodes().choose();
    assert(m.open_nodes().contains(x));
    let low = lemma_lower_bound(rank);
    lemma_descend(m, rank, low, x);
}

proof fn lemma_lower_bound(rank: Seq<int>) -> (low: int)
    ensures
        forall|i: int| 0 <= i < rank.len() ==> low <= #[trigger] rank[i],
    decreases rank.len(),
{
    if rank.len() == 0 {
        0
    } else {
        let l = lemma_lower_bound(rank.drop_last());
        let low = if l <= rank.last() {
            l
        } else {
            rank.last()
        };
        assert forall|i: int| 0 <= i < rank.len() implies low <= #[trigger] rank[i] by {
            if i < rank.len() - 1 {
                assert(rank.drop_last()[i] == rank[i]);
            }
        }
        low
    }
}

/// From an unfinished node, what it waits for leads to one that can go on.
proof fn lemma_descend(m: GraphModel, rank: Seq<int>, low: int, x: int)
    requires
        m.valid(),
        m.started(),
        m.ranked(rank),
        forall|i: int| 0 <= i < rank.len() ==> low <= #[trigger] rank[i],
        m.has(x),
        !m.state(x).terminal(),
    ensures
        exists|y: int| m.has(y) && (#[trigger] m.state(y) is Ready || m.state(y) is Running),
    decreases rank[x] - low,
{
    if m.state(x) is Pending {
        assert(m.blocked(x));
        let i = choose|i: int| #[trigger] m.depends(x, i) && !(m.state(i) is Succeeded);
        assert(m.edge(i, x));
        lemma_descend(m, rank, low, i);
    } else if m.state(x) is Waiting {
        assert(m.awaits(x));
        let i = choose|i: int| #[trigger] m.waits_for(x, i);
        assert(m.edge(i, x));
        lemma_descend(m, rank, low, i);
    }
}

/// A node that has reached a terminal state stays there, however other nodes
/// end.
pub proof fn law_terminal_is_final(
    m0: GraphModel,
    m1: GraphModel,
    id: NodeId,
    run: TaskRun,
    result: Result<Vec<ReadyTask>, GraphError>,
    x: int,
)
    requires
        m0.valid(),
        effect::run_effect(m0, m1, id, run, result),
        m0.has(x),
        m0.state(x).terminal(),
    ensures
        m1.has(x),
        m1.state(x) == m0.state(x),
{
    if m0.has(id.idx()) && m0.state(id.idx()) is Running {
        match run {
            TaskRun::Succeeded => {
                assert(m1.nodes[x] == model::node_after_success(m0, m1, id.idx(), x));
            },
            TaskRun::Expand { expansion, next } => {
                if expansion@.len() > 0 {
                    if result is Ok {
                        let exp = expansion@;
                        let mid = install::installed(m0, id.idx(), exp, next);
                        assert(mid.nodes[x] == install::installed_node(m0, id.idx(), exp, next, x));
                        assert(!install::doomed(m0, exp).contains(x));
                        let late = install::settled(m0, id.idx(), exp, next);
                        assert(late.nodes[x] == model::node_after_failure(
                            mid,
                            install::doomed(m0, exp),
                            NodeState::Cancelled,
                            x,
                        ));
                    }
                } else if next is None {
                    assert(m1.nodes[x] == model::node_after_success(m0, m1, id.idx(), x));
                }
            },
            _ => {},
        }
    }
}

/// A failure cancels or fails only what cannot finish without the failed node;
/// every other node stays as it is, and nothing is released.
pub proof fn law_failure_spares_the_rest(
    m0: GraphModel,
    m1: GraphModel,
    id: NodeId,
    run: TaskRun,
    result: Result<Vec<ReadyTask>, GraphError>,
    x: int,
)
    requires
        m0.valid(),
        m0.has(id.idx()),
        m0.state(id.idx()) is Running,
        run is Failed || run is Cancelled,
        effect::run_effect(m0, m1, id, run, result),
        m0.has(x),
        !m0.reaches(id.idx(), x),
    ensures
        m1.nodes[x] == m0.nodes[x],
        result matches Ok(ready) && ready@.len() == 0,
{
    let sources = set![id.idx()];
    assert(!m0.reached_from(sources, x));
    assert(x != id.idx()) by {
        lemmas::lemma_reach_self(m0, sources, id.idx());
    }
    if m0.state(x).terminal() {
        if m0.nodes[x].waiters.len() > 0 {
            assert(m0.nodes[x].waiters.contains(m0.nodes[x].waiters[0]));
            assert(m0.waits_for(m0.nodes[x].waiters[0], x));
        }
        assert(m0.nodes[x].waiters =~= Seq::empty());
    }
    assert(m1.nodes[x] =~= m0.nodes[x]);
}

/// What depends on a failed node, directly or through others, never runs: it
/// is cancelled, or fails if it was waiting for its own expansion.
pub proof fn law_failure_stops_descendants(
    m0: GraphModel,
    m1: GraphModel,
    id: NodeId,
    run: TaskRun,
    result: Result<Vec<ReadyTask>, GraphError>,
    x: int,
)
    requires
        m0.valid(),
        m0.has(id.idx()),
        m0.state(id.idx()) is Running,
        run is Failed || run is Cancelled,
        effect::run_effect(m0, m1, id, run, result),
        m0.has(x),
        x != id.idx(),
        m0.reaches(id.idx(), x),
        !m0.state(x).terminal(),
    ensures
        m1.state(x) == (if m0.state(x) is Waiting {
            NodeState::Failed
        } else {
            NodeState::Cancelled
        }),
{
    let sources = set![id.idx()];
    assert(sources.contains(id.idx()));
    assert(m0.reached_from(sources, x));
}

/// Every node is in exactly one state.
pub proof fn law_summary_adds_up(nodes: Seq<NodeModel>)
    ensures
        model::tally(nodes, NodeState::Pending) + model::tally(nodes, NodeState::Ready)
            + model::tally(nodes, NodeState::Running) + model::tally(nodes, NodeState::Waiting)
            + model::tally(nodes, NodeState::Succeeded) + model::tally(nodes, NodeState::Failed)
            + model::tally(nodes, NodeState::Cancelled) == nodes.len(),
    decreases nodes.len(),
{
    if nodes.len() > 0 {
        law_summary_adds_up(nodes.drop_last());
    }
}

/// A success determines the graph that it leads to.
pub proof fn law_success_is_determined(m: GraphModel, a: GraphModel, b: GraphModel, id: int)
    requires
        m.valid(),
        m.has(id),
        m.state(id) is Running,
        model::success_step(m, a, id),
        model::success_step(m, b, id),
    ensures
        a == b,
{
    let rank = choose|rank: Seq<int>| m.ranked(rank);
    let low = lemma_lower_bound(rank);
    assert forall|x: int| m.has(x) implies #[trigger] a.nodes[x] == b.nodes[x] by {
        lemma_same_state(m, a, b, id, rank, low, x);
        assert(a.nodes[x] == model::node_after_success(m, a, id, x));
        assert(b.nodes[x] == model::node_after_success(m, b, id, x));
    }
    assert(a =~= b);
}

proof fn lemma_same_state(
    m: GraphModel,
    a: GraphModel,
    b: GraphModel,
    id: int,
    rank: Seq<int>,
    low: int,
    x: int,
)
    requires
        m.valid(),
        m.has(id),
        m.state(id) is Running,
        model::success_step(m, a, id),
        model::success_step(m, b, id),
        m.ranked(rank),
        forall|i: int| 0 <= i < rank.len() ==> low <= #[trigger] rank[i],
        m.has(x),
    ensures
        a.state(x) == b.state(x),
        model::state_after_success(m, a, id, x) == model::state_after_success(m, b, id, x),
    decreases rank[x] - low,
{
    assert(a.nodes[x] == model::node_after_success(m, a, id, x));
    assert(b.nodes[x] == model::node_after_success(m, b, id, x));
    assert forall|i: int| #[trigger] m.edge(i, x) implies a.state(i) == b.state(i) by {
        lemma_same_state(m, a, b, id, rank, low, i);
    }
    assert(a.blocked(x) == b.blocked(x)) by {
        lemma_blocked_carries(m, a, b, id, x);
        lemma_blocked_carries(m, b, a, id, x);
    }
    assert(a.awaits(x) == b.awaits(x)) by {
        lemma_awaits_carries(m, a, b, id, x);
        lemma_awaits_carries(m, b, a, id, x);
    }
}

proof fn lemma_blocked_carries(m: GraphModel, a: GraphModel, b: GraphModel, id: int, x: int)
    requires
        model::success_step(m, a, id),
        model::success_step(m, b, id),
        m.has(x),
        forall|i: int| #[trigger] m.edge(i, x) ==> a.state(i) == b.state(i),
    ensures
        a.blocked(x) ==> b.blocked(x),
{
    if a.blocked(x) {
        let i = choose|i: int| #[trigger] a.depends(x, i) && !(a.state(i) is Succeeded);
        assert(a.nodes[i] == model::node_after_success(m, a, id, i));
        assert(b.nodes[i] == model::node_after_success(m, b, id, i));
        assert(m.depends(x, i));
        assert(m.edge(i, x));
        assert(b.depends(x, i));
    }
}

proof fn lemma_awaits_carries(m: GraphModel, a: GraphModel, b: GraphModel, id: int, x: int)
    requires
        model::success_step(m, a, id),
        model::success_step(m, b, id),
        m.has(x),
        forall|i: int| #[trigger] m.edge(i, x) ==> a.state(i) == b.state(i),
    ensures
        a.awaits(x) ==> b.awaits(x),
{
    if a.awaits(x) {
        let i = choose|i: int| #[trigger] a.waits_for(x, i);
        assert(a.nodes[i] == model::node_after_success(m, a, id, i));
        assert(b.nodes[i] == model::node_after_success(m, b, id, i));
        assert(m.waits_for(x, i));
        assert(m.edge(i, x));
        assert(b.waits_for(x, i));
    }
}

/// Once started, a graph stays started: no node without an unfinished
/// dependency is ever left unreleased.
pub proof fn law_stays_started(
    m0: GraphModel,
    m1: GraphModel,
    id: NodeId,
    run: TaskRun,
    result: Result<Vec<ReadyTask>, GraphError>,
)
    requires
        m0.valid(),
        m0.started(),
        run matches TaskRun::Expand { expansion, .. } ==> expansion.inv(),
        effect::run_effect(m0, m1, id, run, result),
    ensures
        m1.started(),
{
    if m0.has(id.idx()) && m0.state(id.idx()) is Running {
        match run {
            TaskRun::Succeeded => {
                lemma_success_stays_started(m0, m1, id.idx());
            },
            TaskRun::Failed { .. } => {
                lemma_failure_stays_started(m0, set![id.idx()], NodeState::Failed, 0);
            },
            TaskRun::Cancelled => {
                lemma_failure_stays_started(m0, set![id.idx()], NodeState::Cancelled, 0);
            },
            TaskRun::Continue { .. } => {
                lemma_continue_stays_started(m0, id.idx());
            },
            TaskRun::Expand { expansion, next } => {
                if expansion@.len() > 0 {
                    if result is Ok {
                        lemma_expansion_stays_started(m0, id.idx(), expansion@, next);
                    }
                } else {
                    match next {
                        Some(_) => {
                            lemma_continue_stays_started(m0, id.idx());
                        },
                        None => {
                            lemma_success_stays_started(m0, m1, id.idx());
                        },
                    }
                }
            },
        }
    }
}

proof fn lemma_success_stays_started(m0: GraphModel, m1: GraphModel, id: int)
    requires
        m0.started(),
        model::success_step(m0, m1, id),
    ensures
        m1.started(),
{
    assert forall|d: int| m1.has(d) && #[trigger] m1.state(d) is Pending implies m1.blocked(d) by {
        assert(m1.nodes[d] == model::node_after_success(m0, m1, id, d));
        assert(m0.state(d) is Pending);
        assert(m0.blocked(d));
    }
}

proof fn lemma_continue_stays_started(m0: GraphModel, id: int)
    requires
        m0.started(),
        m0.has(id),
        m0.state(id) is Running,
    ensures
        effect::continued(m0, id).started(),
{
    let m1 = effect::continued(m0, id);
    assert forall|d: int| m1.has(d) && #[trigger] m1.state(d) is Pending implies m1.blocked(d) by {
        assert(m0.state(d) is Pending);
        let i = choose|i: int| #[trigger] m0.depends(d, i) && !(m0.state(i) is Succeeded);
        assert(m1.depends(d, i));
    }
}

/// A break adds no success, so what was blocked stays blocked.
proof fn lemma_failure_stays_started(
    m: GraphModel,
    sources: Set<int>,
    end: NodeState,
    base: int,
)
    requires
        forall|d: int|
            m.has(d) && d >= base && #[trigger] m.state(d) is Pending ==> m.blocked(d),
        end is Failed || end is Cancelled,
        forall|x: int| #[trigger] sources.contains(x) ==> !m.state(x).terminal(),
    ensures
        forall|d: int|
            m.has(d) && d >= base && #[trigger] model::after_failure(m, sources, end).state(
                d,
            ) is Pending ==> model::after_failure(m, sources, end).blocked(d),
{
    let n = model::after_failure(m, sources, end);
    assert forall|d: int| m.has(d) && d >= base && #[trigger] n.state(d) is Pending implies n.blocked(
        d,
    ) by {
        assert(n.nodes[d] == model::node_after_failure(m, sources, end, d));
        assert(m.state(d) is Pending);
        let i = choose|i: int| #[trigger] m.depends(d, i) && !(m.state(i) is Succeeded);
        assert(n.nodes[i] == model::node_after_failure(m, sources, end, i));
        assert(n.depends(d, i));
    }
}

proof fn lemma_expansion_stays_started(
    m: GraphModel,
    parent: int,
    exp: Seq<LocalNode>,
    next: Option<Task>,
)
    requires
        m.valid(),
        m.started(),
        m.has(parent),
        m.state(parent) is Running,
    ensures
        install::expanded(m, parent, exp, next).started(),
{
    let base = m.nodes.len() as int;
    let mid = install::installed(m, parent, exp, next);
    let late = install::settled(m, parent, exp, next);
    let n = install::expanded(m, parent, exp, next);
    let sources = install::doomed(m, exp);
    assert forall|d: int| n.has(d) && #[trigger] n.state(d) is Pending implies n.blocked(d) by {
        assert(late.state(d) is Pending);
        assert(late.nodes[d] == model::node_after_failure(mid, sources, NodeState::Cancelled, d));
        assert(mid.state(d) is Pending);
        if d < base {
            assert(mid.nodes[d] == install::installed_node(m, parent, exp, next, d));
            assert(m.state(d) is Pending);
            let i = choose|i: int| #[trigger] m.depends(d, i) && !(m.state(i) is Succeeded);
            assert(mid.nodes[i] == install::installed_node(m, parent, exp, next, i));
            let k = choose|k: int|
                0 <= k < m.nodes[i].dependents.len() && m.nodes[i].dependents[k] == d;
            assert(mid.nodes[i].dependents[k] == d);
            assert(mid.depends(d, i));
            assert(late.nodes[i] == model::node_after_failure(
                mid,
                sources,
                NodeState::Cancelled,
                i,
            ));
            assert(late.depends(d, i));
            assert(late.blocked(d));
        }
        assert(late.blocked(d));
        let i = choose|i: int| #[trigger] late.depends(d, i) && !(late.state(i) is Succeeded);
        assert(n.nodes[i].dependents == late.nodes[i].dependents);
        assert(n.depends(d, i));
    }
}

/// The end of a run hands out exactly the nodes that have become ready, each of
/// them once.
pub proof fn law_hands_out_what_became_ready(
    m0: GraphModel,
    m1: GraphModel,
    id: NodeId,
    run: TaskRun,
    ready: Vec<ReadyTask>,
    x: int,
)
    requires
        m0.valid(),
        effect::run_effect(m0, m1, id, run, Ok(ready)),
    ensures
        handed_out(ready@, x) <==> m1.has(x) && m1.state(x) is Ready && !(m0.has(x) && m0.state(
            x,
        ) is Ready),
        forall|j: int, k: int|
            0 <= j < k < ready@.len() ==> (#[trigger] ready@[j]).id != (#[trigger] ready@[k]).id,
{
    if m1.has(x) && m1.state(x) is Ready {
        law_ready_tasks_are_handed_out(m0, m1, id, run, ready, x);
    }
    if handed_out(ready@, x) {
        let k = choose|k: int| 0 <= k < ready@.len() && (#[trigger] ready@[k]).id.idx() == x;
        match run {
            TaskRun::Expand { expansion, next } => {
                if expansion@.len() > 0 {
                    assert(node::newly_ready(
                        install::settled(m0, id.idx(), expansion@, next),
                        m1,
                        x,
                    ));
                }
            },
            _ => {},
        }
    }
}

/// A node is among the tasks that are handed out.
pub open spec fn handed_out(ready: Seq<ReadyTask>, x: int) -> bool {
    exists|k: int| 0 <= k < ready.len() && (#[trigger] ready[k]).id.idx() == x
}

/// No released task gets lost: after the end of a run, a node is ready because
/// it was ready before, or its task is handed out now.
pub proof fn law_ready_tasks_are_handed_out(
    m0: GraphModel,
    m1: GraphModel,
    id: NodeId,
    run: TaskRun,
    ready: Vec<ReadyTask>,
    x: int,
)
    requires
        m0.valid(),
        effect::run_effect(m0, m1, id, run, Ok(ready)),
        m1.has(x),
        m1.state(x) is Ready,
    ensures
        (m0.has(x) && m0.state(x) is Ready) || exists|k: int|
            0 <= k < ready@.len() && (#[trigger] ready@[k]).id.idx() == x,
{
    match run {
        TaskRun::Succeeded => {
            assert(m1.nodes[x] == model::node_after_success(m0, m1, id.idx(), x));
            if !(m0.state(x) is Ready) {
                assert(node::newly_ready(m0, m1, x));
            }
        },
        TaskRun::Failed { .. } => {
            assert(m1.nodes[x] == model::node_after_failure(
                m0,
                set![id.idx()],
                NodeState::Failed,
                x,
            ));
        },
        TaskRun::Cancelled => {
            assert(m1.nodes[x] == model::node_after_failure(
                m0,
                set![id.idx()],
                NodeState::Cancelled,
                x,
            ));
        },
        TaskRun::Continue { task } => {
            assert(ready@[0].id == id);
        },
        TaskRun::Expand { expansion, next } => {
            if expansion@.len() > 0 {
                let exp = expansion@;
                let base = m0.nodes.len() as int;
                let mid = install::installed(m0, id.idx(), exp, next);
                let late = install::settled(m0, id.idx(), exp, next);
                if late.state(x) is Ready {
                    assert(late.nodes[x] == model::node_after_failure(
                        mid,
                        install::doomed(m0, exp),
                        NodeState::Cancelled,
                        x,
                    ));
                    assert(mid.state(x) is Ready);
                    if x < base {
                        assert(mid.nodes[x] == install::installed_node(
                            m0,
                            id.idx(),
                            exp,
                            next,
                            x,
                        ));
                    }
                } else {
                    assert(node::newly_ready(late, m1, x));
                }
            } else if next is None {
                assert(m1.nodes[x] == model::node_after_success(m0, m1, id.idx(), x));
                if !(m0.state(x) is Ready) {
                    assert(node::newly_ready(m0, m1, x));
                }
            } else {
                assert(ready@[0].id == id);
            }
        },
    }
}

} // verus!
