//! The mathematical model of a task graph.
//!
//! A node is known by its index. `depends(d, i)` says that node `d` may run
//! only after node `i` has succeeded; `waits_for(w, i)` says that the running
//! node `w` was expanded into a subgraph and that `i` is one of the subgraph's
//! unfinished leaves.

use crate::task::Task;
use vstd::prelude::*;

verus! {

/// The most nodes that one graph can hold: identifiers are 32 bits wide.
pub const MAX_NODES: u64 = 0x1_0000_0000;

/// Where a node stands in its life.
#[derive(Clone, Copy, PartialEq, Eq, Structural, Debug)]
pub enum NodeState {
    Pending,
    Ready,
    Running,
    Waiting,
    Succeeded,
    Failed,
    Cancelled,
}

impl NodeState {
    /// A terminal state is never left.
    pub open spec fn terminal(self) -> bool {
        self is Succeeded || self is Failed || self is Cancelled
    }

    /// A terminal state that is not a success.
    pub open spec fn broken(self) -> bool {
        self is Failed || self is Cancelled
    }

    pub fn is_terminal(self) -> (terminal: bool)
        ensures
            terminal == self.terminal(),
    {
        match self {
            NodeState::Succeeded | NodeState::Failed | NodeState::Cancelled => true,
            _ => false,
        }
    }

    pub fn is_broken(self) -> (broken: bool)
        ensures
            broken == self.broken(),
    {
        match self {
            NodeState::Failed | NodeState::Cancelled => true,
            _ => false,
        }
    }
}

/// How many nodes of a graph are in which state.
#[derive(Clone, Copy, PartialEq, Eq, Structural, Debug)]
pub struct TaskGraphSummary {
    pub total_nodes: usize,
    pub pending_nodes: usize,
    pub ready_nodes: usize,
    pub running_nodes: usize,
    pub waiting_nodes: usize,
    pub succeeded_nodes: usize,
    pub failed_nodes: usize,
    pub cancelled_nodes: usize,
    pub dynamic_expansions: usize,
}

/// One node of the model. `task` is what the node runs next: the task of a
/// pending node, or the task that a waiting node resumes with.
#[verifier::ext_equal]
pub struct NodeModel {
    pub task: Option<Task>,
    pub state: NodeState,
    pub dependents: Seq<int>,
    pub waiters: Seq<int>,
    pub continuation: bool,
}

/// A graph: its nodes, how often it was expanded, and which token is bound to
/// which node.
#[verifier::ext_equal]
pub struct GraphModel {
    pub nodes: Seq<NodeModel>,
    pub dynamic_expansions: usize,
    pub bindings: Map<u64, int>,
}

/// Whether a summary says how many nodes are in which state.
pub open spec fn is_summary(m: GraphModel, summary: TaskGraphSummary) -> bool {
    &&& summary.total_nodes == m.nodes.len()
    &&& summary.pending_nodes == tally(m.nodes, NodeState::Pending)
    &&& summary.ready_nodes == tally(m.nodes, NodeState::Ready)
    &&& summary.running_nodes == tally(m.nodes, NodeState::Running)
    &&& summary.waiting_nodes == tally(m.nodes, NodeState::Waiting)
    &&& summary.succeeded_nodes == tally(m.nodes, NodeState::Succeeded)
    &&& summary.failed_nodes == tally(m.nodes, NodeState::Failed)
    &&& summary.cancelled_nodes == tally(m.nodes, NodeState::Cancelled)
    &&& summary.dynamic_expansions == m.dynamic_expansions
}

/// How many nodes are in a state.
pub open spec fn tally(nodes: Seq<NodeModel>, state: NodeState) -> nat
    decreases nodes.len(),
{
    if nodes.len() == 0 {
        0
    } else {
        tally(nodes.drop_last(), state) + (if nodes.last().state == state {
            1nat
        } else {
            0nat
        })
    }
}

/// Whether a sequence rises strictly, so that it names nothing twice.
pub open spec fn rising(s: Seq<int>) -> bool {
    forall|a: int, b: int| 0 <= a < b < s.len() ==> s[a] < s[b]
}

impl GraphModel {
    pub open spec fn has(self, i: int) -> bool {
        0 <= i < self.nodes.len()
    }

    pub open spec fn state(self, i: int) -> NodeState {
        self.nodes[i].state
    }

    /// Node `d` may run only after node `i` has succeeded.
    pub open spec fn depends(self, d: int, i: int) -> bool {
        self.has(i) && self.nodes[i].dependents.contains(d)
    }

    /// Node `w` waits for node `i`, an unfinished leaf of its expansion.
    pub open spec fn waits_for(self, w: int, i: int) -> bool {
        self.has(i) && self.nodes[i].waiters.contains(w)
    }

    /// Node `j` cannot finish before node `i` has finished.
    pub open spec fn edge(self, i: int, j: int) -> bool {
        self.depends(j, i) || self.waits_for(j, i)
    }

    /// The dependencies of `d` that have not succeeded.
    pub open spec fn blockers(self, d: int) -> Set<int> {
        Set::new(|i: int| self.depends(d, i) && !(self.state(i) is Succeeded))
    }

    pub open spec fn blocked(self, d: int) -> bool {
        exists|i: int| #[trigger] self.depends(d, i) && !(self.state(i) is Succeeded)
    }

    /// The unfinished leaves that `w` waits for.
    pub open spec fn leaves(self, w: int) -> Set<int> {
        Set::new(|i: int| self.waits_for(w, i))
    }

    pub open spec fn awaits(self, w: int) -> bool {
        exists|i: int| #[trigger] self.waits_for(w, i)
    }

    /// The nodes that have not reached a terminal state.
    pub open spec fn open_nodes(self) -> Set<int> {
        Set::new(|i: int| self.has(i) && !self.state(i).terminal())
    }

    /// Edges stay inside the graph, lead from dependencies to later nodes and
    /// from leaves to earlier ones, and no node waits on behalf of two parents.
    pub open spec fn shape(self) -> bool {
        &&& self.nodes.len() <= MAX_NODES
        &&& forall|i: int, d: int| #[trigger] self.depends(d, i) ==> i < d < self.nodes.len()
        &&& forall|i: int, w: int| #[trigger] self.waits_for(w, i) ==> 0 <= w < i
        &&& forall|i: int| self.has(i) ==> rising(#[trigger] self.nodes[i].dependents)
        &&& forall|i: int| self.has(i) ==> (#[trigger] self.nodes[i].waiters).len() <= 1
        &&& forall|t: u64| #[trigger] self.bindings.contains_key(t) ==> self.has(self.bindings[t])
    }

    /// The states agree with the edges, leaving aside what `c` waits for.
    pub open spec fn consistent_but(self, c: int) -> bool {
        &&& forall|d: int, i: int| #[trigger]
            self.depends(d, i) && !(self.state(d) is Pending) && !(self.state(d) is Cancelled)
                ==> self.state(i) is Succeeded
        &&& forall|w: int, i: int| #[trigger]
            self.waits_for(w, i) ==> !self.state(i).terminal() && (self.state(w) is Waiting
                || self.state(w) is Failed)
        &&& forall|w: int|
            self.has(w) && #[trigger] self.state(w) is Waiting && w != c ==> self.awaits(w)
        &&& forall|d: int, i: int| #[trigger]
            self.depends(d, i) && self.state(i).broken() ==> self.state(d) is Cancelled
        &&& forall|i: int|
            self.has(i) && #[trigger] self.state(i) is Pending ==> self.nodes[i].task is Some
    }

    /// The states agree with the edges: what has started has had all its
    /// dependencies succeed, a waiting node has an unfinished leaf, and what
    /// depends on a broken node is cancelled.
    pub open spec fn consistent(self) -> bool {
        self.consistent_but(-1)
    }

    /// A rank that rises along every edge.
    pub open spec fn ranked(self, rank: Seq<int>) -> bool {
        &&& rank.len() == self.nodes.len()
        &&& forall|i: int, j: int| #[trigger] self.edge(i, j) ==> rank[i] < rank[j]
    }

    /// No node waits for itself, directly or through others.
    pub open spec fn acyclic(self) -> bool {
        exists|rank: Seq<int>| self.ranked(rank)
    }

    pub open spec fn valid(self) -> bool {
        self.shape() && self.consistent() && self.acyclic()
    }

    /// Every node without unfinished dependencies has been released.
    pub open spec fn started(self) -> bool {
        forall|d: int| self.has(d) && #[trigger] self.state(d) is Pending ==> self.blocked(d)
    }

    /// A path of edges.
    pub open spec fn path(self, p: Seq<int>) -> bool {
        &&& p.len() > 0
        &&& forall|k: int| 0 <= k < p.len() ==> self.has(#[trigger] p[k])
        &&& forall|k: int| 0 <= k < p.len() - 1 ==> self.edge(#[trigger] p[k], p[k + 1])
    }

    /// Node `b` is `a`, or cannot finish before `a` has finished.
    pub open spec fn reaches(self, a: int, b: int) -> bool {
        exists|p: Seq<int>| #[trigger] self.path(p) && p[0] == a && p.last() == b
    }

    /// Some node of a set reaches `b`.
    pub open spec fn reached_from(self, sources: Set<int>, b: int) -> bool {
        exists|a: int| sources.contains(a) && #[trigger] self.reaches(a, b)
    }
}

/// The state that node `x` takes when node `id` succeeds. A pending node is
/// released once its last dependency has succeeded; a waiting node whose last
/// leaf has succeeded resumes with its next task, or succeeds if it has none.
pub open spec fn state_after_success(old: GraphModel, new: GraphModel, id: int, x: int) -> NodeState {
    if x == id {
        NodeState::Succeeded
    } else if old.state(x) is Pending && old.blocked(x) && !new.blocked(x) {
        NodeState::Ready
    } else if old.state(x) is Waiting && !new.awaits(x) {
        if old.nodes[x].task is Some {
            NodeState::Ready
        } else {
            NodeState::Succeeded
        }
    } else {
        old.state(x)
    }
}

/// What becomes of node `x` when node `id` succeeds.
pub open spec fn node_after_success(
    old: GraphModel,
    new: GraphModel,
    id: int,
    x: int,
) -> NodeModel {
    let state = state_after_success(old, new, id, x);
    let resumed = old.state(x) is Waiting && state is Ready;
    NodeModel {
        state,
        task: if state is Ready && !(old.state(x) is Ready) {
            None
        } else {
            old.nodes[x].task
        },
        dependents: old.nodes[x].dependents,
        waiters: if state is Succeeded {
            Seq::empty()
        } else {
            old.nodes[x].waiters
        },
        continuation: old.nodes[x].continuation || resumed,
    }
}

/// Two graphs that differ at most in their nodes, and hold equally many.
pub open spec fn same_frame(old: GraphModel, new: GraphModel) -> bool {
    &&& new.nodes.len() == old.nodes.len()
    &&& new.dynamic_expansions == old.dynamic_expansions
    &&& new.bindings == old.bindings
}

/// What the success of node `id` does to a graph.
pub open spec fn success_step(old: GraphModel, new: GraphModel, id: int) -> bool {
    &&& same_frame(old, new)
    &&& forall|x: int|
        old.has(x) ==> #[trigger] new.nodes[x] == node_after_success(old, new, id, x)
}

/// The state that node `x` takes when the `sources` end in state `end` without
/// success: whatever is waiting for one of them fails, whatever depends on one
/// of them is cancelled, and so on along every path; nothing else changes.
pub open spec fn state_after_failure(
    old: GraphModel,
    sources: Set<int>,
    end: NodeState,
    x: int,
) -> NodeState {
    if sources.contains(x) {
        end
    } else if old.reached_from(sources, x) && !old.state(x).terminal() {
        if old.state(x) is Waiting {
            NodeState::Failed
        } else {
            NodeState::Cancelled
        }
    } else {
        old.state(x)
    }
}

/// What becomes of node `x` when the `sources` end without success.
pub open spec fn node_after_failure(
    old: GraphModel,
    sources: Set<int>,
    end: NodeState,
    x: int,
) -> NodeModel {
    let state = state_after_failure(old, sources, end, x);
    NodeModel {
        state,
        waiters: if state.terminal() {
            Seq::empty()
        } else {
            old.nodes[x].waiters
        },
        ..old.nodes[x]
    }
}

/// A graph once the `sources` have ended in state `end` without success.
pub open spec fn after_failure(old: GraphModel, sources: Set<int>, end: NodeState) -> GraphModel {
    GraphModel {
        nodes: Seq::new(
            old.nodes.len(),
            |x: int| node_after_failure(old, sources, end, x),
        ),
        ..old
    }
}

} // verus!
