//! The running task graph.

use crate::error::GraphError;
use crate::graph::model::{TaskGraphSummary, GraphModel, NodeModel, NodeState, MAX_NODES};
use crate::graph::node::{NodeId, ReadyTask, TaskNode};
use crate::graph::{install, lemmas, model, node, release};
use std::collections::HashMap;
use vstd::prelude::*;

mod grow;

verus! {

broadcast use vstd::std_specs::hash::group_hash_axioms;

/// A command-scoped, append-only task graph. A running node may be expanded
/// into a subgraph; it then stays `Waiting` until every leaf of that subgraph
/// has succeeded.
pub struct TaskGraph {
    pub(crate) nodes: Vec<TaskNode>,
    pub(crate) unresolved: usize,
    pub(crate) dynamic_expansions: usize,
    pub(crate) bindings: HashMap<u64, NodeId>,
}

impl View for TaskGraph {
    type V = GraphModel;

    closed spec fn view(&self) -> GraphModel {
        GraphModel {
            nodes: self.nodes@.map_values(|node: TaskNode| node.model()),
            dynamic_expansions: self.dynamic_expansions,
            bindings: self.bindings@.map_values(|id: NodeId| id.idx()),
        }
    }
}

impl TaskGraph {
    /// The counters agree with the edges and the states.
    pub(crate) closed spec fn counted_but(&self, c: int) -> bool {
        &&& forall|d: int|
            self@.has(d) ==> (#[trigger] self.nodes@[d]).remaining_dependencies
                == self@.blockers(d).len()
        &&& forall|w: int|
            self@.has(w) && #[trigger] self@.state(w) is Waiting && w != c
                ==> self.nodes@[w].waiting_remaining == self@.leaves(w).len()
        &&& self.unresolved == self@.open_nodes().len()
    }

    /// What every graph keeps between two operations.
    pub closed spec fn inv(&self) -> bool {
        self@.valid() && self.counted_but(-1)
    }

    /// What every graph keeps includes that its model is in order.
    pub proof fn lemma_valid(&self)
        requires
            self.inv(),
        ensures
            self@.valid(),
    {
    }

    pub fn node_count(&self) -> (count: usize)
        ensures
            count == self@.nodes.len(),
    {
        self.nodes.len()
    }

    pub fn node_state(&self, id: NodeId) -> (state: Option<NodeState>)
        ensures
            self@.has(id.idx()) ==> state == Some(self@.state(id.idx())),
            !self@.has(id.idx()) ==> state is None,
    {
        if id.index() < self.nodes.len() {
            Some(self.nodes[id.index()].state)
        } else {
            None
        }
    }

    /// How many nodes are in which state.
    pub fn summary(&self) -> (summary: TaskGraphSummary)
        ensures
            model::is_summary(self@, summary),
    {
        let mut summary = TaskGraphSummary {
            total_nodes: self.nodes.len(),
            pending_nodes: 0,
            ready_nodes: 0,
            running_nodes: 0,
            waiting_nodes: 0,
            succeeded_nodes: 0,
            failed_nodes: 0,
            cancelled_nodes: 0,
            dynamic_expansions: self.dynamic_expansions,
        };
        let mut k: usize = 0;
        while k < self.nodes.len()
            invariant
                k <= self.nodes@.len(),
                self@.nodes.len() == self.nodes@.len(),
                summary.total_nodes == self.nodes@.len(),
                summary.dynamic_expansions == self.dynamic_expansions,
                summary.pending_nodes == model::tally(
                    self@.nodes.take(k as int),
                    NodeState::Pending,
                ) <= k,
                summary.ready_nodes == model::tally(self@.nodes.take(k as int), NodeState::Ready)
                    <= k,
                summary.running_nodes == model::tally(
                    self@.nodes.take(k as int),
                    NodeState::Running,
                ) <= k,
                summary.waiting_nodes == model::tally(
                    self@.nodes.take(k as int),
                    NodeState::Waiting,
                ) <= k,
                summary.succeeded_nodes == model::tally(
                    self@.nodes.take(k as int),
                    NodeState::Succeeded,
                ) <= k,
                summary.failed_nodes == model::tally(self@.nodes.take(k as int), NodeState::Failed)
                    <= k,
                summary.cancelled_nodes == model::tally(
                    self@.nodes.take(k as int),
                    NodeState::Cancelled,
                ) <= k,
            decreases self.nodes@.len() - k,
        {
            proof {
                assert(self@.nodes.take(k + 1).drop_last() =~= self@.nodes.take(k as int));
                assert(self@.nodes.take(k + 1).last() == self.nodes@[k as int].model());
            }
            match self.nodes[k].state {
                NodeState::Pending => {
                    summary.pending_nodes = summary.pending_nodes + 1;
                },
                NodeState::Ready => {
                    summary.ready_nodes = summary.ready_nodes + 1;
                },
                NodeState::Running => {
                    summary.running_nodes = summary.running_nodes + 1;
                },
                NodeState::Waiting => {
                    summary.waiting_nodes = summary.waiting_nodes + 1;
                },
                NodeState::Succeeded => {
                    summary.succeeded_nodes = summary.succeeded_nodes + 1;
                },
                NodeState::Failed => {
                    summary.failed_nodes = summary.failed_nodes + 1;
                },
                NodeState::Cancelled => {
                    summary.cancelled_nodes = summary.cancelled_nodes + 1;
                },
            }
            k = k + 1;
        }
        assert(self@.nodes.take(k as int) =~= self@.nodes);
        summary
    }

    pub fn has_unresolved(&self) -> (unresolved: bool)
        requires
            self.inv(),
        ensures
            unresolved == (self@.open_nodes().len() > 0),
    {
        self.unresolved > 0
    }

    pub fn unresolved_count(&self) -> (count: usize)
        requires
            self.inv(),
        ensures
            count == self@.open_nodes().len(),
    {
        self.unresolved
    }

    pub fn is_ready(&self, id: NodeId) -> (ready: bool)
        ensures
            ready == (self@.has(id.idx()) && self@.state(id.idx()) is Ready),
    {
        id.index() < self.nodes.len() && self.nodes[id.index()].state == NodeState::Ready
    }

    /// Takes a released node into execution.
    pub fn mark_running(&mut self, id: NodeId) -> (result: Result<(), GraphError>)
        requires
            old(self).inv(),
        ensures
            final(self).inv(),
            match result {
                Ok(_) => old(self)@.has(id.idx()) && old(self)@.state(id.idx()) is Ready
                    && final(self)@ == (GraphModel {
                    nodes: old(self)@.nodes.update(
                        id.idx(),
                        NodeModel { state: NodeState::Running, ..old(self)@.nodes[id.idx()] },
                    ),
                    ..old(self)@
                }),
                Err(error) => final(self)@ == old(self)@ && error == (if old(self)@.has(id.idx()) {
                    GraphError::InvalidStart {
                        node: id.idx() as usize,
                        state: old(self)@.state(id.idx()),
                    }
                } else {
                    GraphError::UnknownNode { node: id.idx() as usize }
                }) && !(old(self)@.has(id.idx()) && old(self)@.state(id.idx()) is Ready),
            },
    {
        let index = id.index();
        if index >= self.nodes.len() {
            return Err(GraphError::UnknownNode { node: index });
        }
        let state = self.nodes[index].state;
        if state != NodeState::Ready {
            return Err(GraphError::InvalidStart { node: index, state });
        }
        self.nodes[index].state = NodeState::Running;
        proof {
            let m = old(self)@;
            let n = self@;
            assert(n.nodes =~= m.nodes.update(
                id.idx(),
                NodeModel { state: NodeState::Running, ..m.nodes[id.idx()] },
            ));
            assert forall|i: int|
                m.has(i) implies ((#[trigger] n.state(i)) is Succeeded <==> m.state(i) is Succeeded)
                && (n.state(i).terminal() <==> m.state(i).terminal()) by {}
            lemmas::lemma_light_change(m, n);
        }
        Ok(())
    }

    /// Releases a pending node that has no unfinished dependency left.
    fn activate_if_ready(&mut self, index: usize, ready: &mut Vec<ReadyTask>)
        requires
            index < old(self).nodes@.len() <= MAX_NODES,
            old(self).nodes@[index as int].state is Pending ==> old(self).nodes@[index as int].task
                is Some,
        ensures
            final(self).unresolved == old(self).unresolved,
            final(self).dynamic_expansions == old(self).dynamic_expansions,
            final(self).bindings == old(self).bindings,
            ({
                let node = old(self).nodes@[index as int];
                if node.state is Pending && node.remaining_dependencies == 0 {
                    &&& final(self).nodes@ == old(self).nodes@.update(
                        index as int,
                        TaskNode { state: NodeState::Ready, task: None, ..node },
                    )
                    &&& final(ready)@ == old(ready)@.push(
                        ReadyTask {
                            id: NodeId(index as u32),
                            task: node.task->0,
                            continuation: node.continuation,
                        },
                    )
                } else {
                    final(self).nodes@ == old(self).nodes@ && final(ready)@ == old(ready)@
                }
            }),
    {
        if self.nodes[index].state != NodeState::Pending
            || self.nodes[index].remaining_dependencies != 0 {
            return ;
        }
        self.nodes[index].state = NodeState::Ready;
        let task = self.nodes[index].task.take();
        let continuation = self.nodes[index].continuation;
        if let Some(task) = task {
            ready.push(ReadyTask { id: NodeId(index as u32), task, continuation });
        }
    }

    /// Node `x` after the first `k` dependents of `c` have been told that `c`
    /// has succeeded.
    closed spec fn told(a: GraphModel, n0: Seq<TaskNode>, c: int, k: int, x: int) -> TaskNode {
        if x == c {
            TaskNode { state: NodeState::Succeeded, ..n0[x] }
        } else if a.nodes[c].dependents.take(k).contains(x) {
            TaskNode {
                state: if lemmas::freed_by(a, c, x) {
                    NodeState::Ready
                } else {
                    n0[x].state
                },
                task: if lemmas::freed_by(a, c, x) {
                    None
                } else {
                    n0[x].task
                },
                remaining_dependencies: (n0[x].remaining_dependencies - 1) as usize,
                ..n0[x]
            }
        } else {
            n0[x]
        }
    }

    /// Marks one node as succeeded and tells its dependents, releasing those
    /// that this frees.
    fn tell_dependents(&mut self, id: NodeId, ready: &mut Vec<ReadyTask>)
        requires
            old(self)@.shape(),
            old(self)@.consistent_but(id.idx()),
            old(self).counted_but(id.idx()),
            lemmas::may_succeed(old(self)@, id.idx()),
        ensures
            final(self).nodes@.len() == old(self).nodes@.len(),
            final(self).dynamic_expansions == old(self).dynamic_expansions,
            final(self).bindings == old(self).bindings,
            final(self).unresolved == old(self).unresolved - 1,
            forall|x: int|
                old(self)@.has(x) ==> #[trigger] final(self).nodes@[x] == Self::told(
                    old(self)@,
                    old(self).nodes@,
                    id.idx(),
                    old(self)@.nodes[id.idx()].dependents.len() as int,
                    x,
                ),
            Self::freed(old(self)@, id.idx(), old(ready)@, final(ready)@),
    {
        let ghost a = self@;
        let ghost n0 = self.nodes@;
        let ghost r0 = ready@;
        let ghost c = id.idx();
        let index = id.index();
        proof {
            lemmas::lemma_finite(a);
            assert(a.open_nodes().contains(c));
            assert forall|x: int| a.has(x) implies #[trigger] a.nodes[x] == n0[x].model() by {}
        }
        self.nodes[index].state = NodeState::Succeeded;
        self.unresolved = self.unresolved - 1;
        let count = self.nodes[index].dependents.len();
        let mut k: usize = 0;
        while k < count
            invariant
                index == c,
                a == old(self)@,
                n0 == old(self).nodes@,
                r0 == old(ready)@,
                a.shape(),
                a.consistent_but(c),
                lemmas::may_succeed(a, c),
                k <= count == a.nodes[c].dependents.len(),
                0 <= c < n0.len(),
                n0.len() == a.nodes.len(),
                forall|x: int| a.has(x) ==> #[trigger] a.nodes[x] == n0[x].model(),
                forall|x: int|
                    a.has(x) ==> (#[trigger] n0[x]).remaining_dependencies == a.blockers(x).len(),
                self.nodes@.len() == n0.len(),
                self.dynamic_expansions == old(self).dynamic_expansions,
                self.bindings == old(self).bindings,
                self.unresolved == old(self).unresolved - 1,
                forall|x: int|
                    a.has(x) ==> #[trigger] self.nodes@[x] == Self::told(a, n0, c, k as int, x),
                r0.len() <= ready@.len(),
                ready@.take(r0.len() as int) == r0,
                forall|j: int|
                    r0.len() <= j < ready@.len() ==> {
                        let x = (#[trigger] ready@[j]).id.idx();
                        &&& a.nodes[c].dependents.take(k as int).contains(x)
                        &&& lemmas::freed_by(a, c, x)
                        &&& a.nodes[x].task == Some(ready@[j].task)
                        &&& ready@[j].continuation == a.nodes[x].continuation
                    },
                forall|i: int, j: int|
                    r0.len() <= i < j < ready@.len() ==> (#[trigger] ready@[i]).id.idx() < (
                    #[trigger] ready@[j]).id.idx(),
                forall|x: int| #[trigger]
                    a.nodes[c].dependents.take(k as int).contains(x) && lemmas::freed_by(a, c, x)
                        ==> exists|j: int|
                        r0.len() <= j < ready@.len() && (#[trigger] ready@[j]).id.idx() == x,
            decreases count - k,
        {
            let ghost ready1 = ready@;
            let ghost nodes1 = self.nodes@;
            let ghost deps = a.nodes[c].dependents;
            proof {
                assert(self.nodes@[c] == Self::told(a, n0, c, k as int, c));
                assert(deps[k as int] == n0[c].dependents@[k as int].idx());
            }
            let d = self.nodes[index].dependents[k].index();
            proof {
                assert(deps[k as int] == d);
                assert(deps.contains(d as int));
                assert(a.depends(d as int, c));
                assert(!deps.take(k as int).contains(d as int)) by {
                    if deps.take(k as int).contains(d as int) {
                        let j = choose|j: int|
                            0 <= j < deps.take(k as int).len() && deps.take(k as int)[j] == d;
                        assert(model::rising(deps));
                        assert(deps[j] < deps[k as int]);
                    }
                }
                lemmas::lemma_last_blocker(a, c, d as int);
                assert(self.nodes@[d as int] == n0[d as int]);
                assert(a.nodes[d as int] == n0[d as int].model());
                if a.state(d as int) is Pending {
                    assert(a.nodes[d as int].task is Some);
                }
            }
            let remaining: usize = self.nodes[d].remaining_dependencies - 1;
            self.nodes[d].remaining_dependencies = remaining;
            self.activate_if_ready(d, ready);
            proof {
                let k1 = k + 1;
                assert(deps.take(k1) =~= deps.take(k as int).push(d as int));
                assert forall|x: int| a.has(x) implies #[trigger] self.nodes@[x] == Self::told(
                    a,
                    n0,
                    c,
                    k1,
                    x,
                ) by {
                    assert(nodes1[x] == Self::told(a, n0, c, k as int, x));
                    if x != d {
                        assert(deps.take(k1).contains(x) == deps.take(k as int).contains(x)) by {
                            if deps.take(k1).contains(x) {
                                let j = choose|j: int| 0 <= j < k1 && deps.take(k1)[j] == x;
                                assert(deps.take(k as int)[j] == x);
                            }
                            if deps.take(k as int).contains(x) {
                                let j = choose|j: int| 0 <= j < k && deps.take(k as int)[j] == x;
                                assert(deps.take(k1)[j] == x);
                            }
                        }
                    } else {
                        assert(deps.take(k1)[k as int] == x);
                        assert(deps.take(k1).contains(x));
                    }
                }
                assert forall|x: int| #[trigger]
                    deps.take(k1).contains(x) && lemmas::freed_by(a, c, x) implies exists|j: int|
                    r0.len() <= j < ready@.len() && (#[trigger] ready@[j]).id.idx() == x by {
                    if x == d {
                        assert(ready@[ready1.len() as int].id.idx() == x);
                    } else {
                        let i = choose|i: int| 0 <= i < k1 && deps.take(k1)[i] == x;
                        assert(deps.take(k as int)[i] == x);
                        assert(deps.take(k as int).contains(x));
                        let j = choose|j: int|
                            r0.len() <= j < ready1.len() && (#[trigger] ready1[j]).id.idx() == x;
                        assert(ready@[j] == ready1[j]);
                    }
                }
                assert forall|j: int| r0.len() <= j < ready@.len() implies ({
                    let x = (#[trigger] ready@[j]).id.idx();
                    &&& deps.take(k1).contains(x)
                    &&& lemmas::freed_by(a, c, x)
                    &&& a.nodes[x].task == Some(ready@[j].task)
                    &&& ready@[j].continuation == a.nodes[x].continuation
                }) by {
                    if j < ready1.len() {
                        assert(ready@[j] == ready1[j]);
                        let x = ready1[j].id.idx();
                        let i = choose|i: int| 0 <= i < k && deps.take(k as int)[i] == x;
                        assert(deps.take(k1)[i] == x);
                    } else {
                        assert(deps.take(k1)[k as int] == d);
                    }
                }
                assert(ready@.take(r0.len() as int) =~= r0);
                assert forall|i: int, j: int| r0.len() <= i < j < ready@.len() implies (
                #[trigger] ready@[i]).id.idx() < (#[trigger] ready@[j]).id.idx() by {
                    assert(ready@[i] == ready1[i]);
                    if j < ready1.len() {
                        assert(ready@[j] == ready1[j]);
                    } else {
                        let x = ready1[i].id.idx();
                        let l = choose|l: int| 0 <= l < k && deps.take(k as int)[l] == x;
                        assert(model::rising(deps));
                        assert(deps[l] < deps[k as int]);
                    }
                }
            }
            k = k + 1;
        }
        proof {
            assert(a.nodes[c].dependents.take(k as int) =~= a.nodes[c].dependents);
            assert forall|x: int| lemmas::freed_by(a, c, x) implies #[trigger] a.nodes[c].dependents.take(
                k as int,
            ).contains(x) by {
                assert(a.depends(x, c));
            }
        }
    }

    /// The list of released tasks has grown by the nodes that the success of
    /// `c` frees, in rising order.
    closed spec fn freed(
        a: GraphModel,
        c: int,
        r0: Seq<ReadyTask>,
        r1: Seq<ReadyTask>,
    ) -> bool {
        &&& r0.len() <= r1.len()
        &&& r1.take(r0.len() as int) == r0
        &&& forall|j: int|
            r0.len() <= j < r1.len() ==> {
                let x = (#[trigger] r1[j]).id.idx();
                &&& lemmas::freed_by(a, c, x)
                &&& a.nodes[x].task == Some(r1[j].task)
                &&& r1[j].continuation == a.nodes[x].continuation
            }
        &&& forall|i: int, j: int|
            r0.len() <= i < j < r1.len() ==> (#[trigger] r1[i]).id.idx() < (
            #[trigger] r1[j]).id.idx()
        &&& forall|x: int| #[trigger]
            lemmas::freed_by(a, c, x) ==> exists|j: int|
                r0.len() <= j < r1.len() && (#[trigger] r1[j]).id.idx() == x
    }

    /// Tells the node that waits for a succeeded one. It resumes if that was
    /// its last leaf and it has a next task; it is returned if that was its
    /// last leaf and it has none.
    fn tell_waiter(&mut self, id: NodeId, ready: &mut Vec<ReadyTask>) -> (next: Option<NodeId>)
        requires
            id.idx() < old(self).nodes@.len(),
            old(self).nodes@[id.idx()].waiters@.len() <= 1,
            old(self).nodes@[id.idx()].waiters@.len() == 1 ==> ({
                let w = old(self).nodes@[id.idx()].waiters@[0].idx();
                &&& w < id.idx()
                &&& old(self).nodes@[w].state is Waiting ==> old(self).nodes@[w].waiting_remaining
                    > 0
            }),
        ensures
            final(self).nodes@.len() == old(self).nodes@.len(),
            final(self).dynamic_expansions == old(self).dynamic_expansions,
            final(self).bindings == old(self).bindings,
            final(self).unresolved == old(self).unresolved,
            final(self).nodes@[id.idx()].waiters@ == Seq::<NodeId>::empty(),
            final(self).nodes@[id.idx()] == (TaskNode {
                waiters: final(self).nodes@[id.idx()].waiters,
                ..old(self).nodes@[id.idx()]
            }),
            ({
                let ws = old(self).nodes@[id.idx()].waiters@;
                if ws.len() == 1 && old(self).nodes@[ws[0].idx()].state is Waiting {
                    let w = ws[0].idx();
                    let n = old(self).nodes@[w];
                    &&& forall|x: int|
                        0 <= x < old(self).nodes@.len() && x != id.idx() && x != w
                            ==> #[trigger] final(self).nodes@[x] == old(self).nodes@[x]
                    &&& if n.waiting_remaining == 1 && n.task is Some {
                        &&& final(self).nodes@[w] == (TaskNode {
                            state: NodeState::Ready,
                            task: None,
                            continuation: true,
                            waiting_remaining: 0,
                            ..n
                        })
                        &&& final(ready)@ == old(ready)@.push(
                            ReadyTask { id: ws[0], task: n.task->0, continuation: true },
                        )
                        &&& next is None
                    } else {
                        &&& final(self).nodes@[w] == (TaskNode {
                            waiting_remaining: (n.waiting_remaining - 1) as usize,
                            ..n
                        })
                        &&& final(ready)@ == old(ready)@
                        &&& next == (if n.waiting_remaining == 1 {
                            Some(ws[0])
                        } else {
                            None
                        })
                    }
                } else {
                    &&& forall|x: int|
                        0 <= x < old(self).nodes@.len() && x != id.idx()
                            ==> #[trigger] final(self).nodes@[x] == old(self).nodes@[x]
                    &&& final(ready)@ == old(ready)@
                    &&& next is None
                }
            }),
    {
        let index = id.index();
        let waiter = self.nodes[index].waiters.pop();
        proof {
            assert(self.nodes@[id.idx()].waiters@ =~= Seq::<NodeId>::empty());
        }
        if let Some(w) = waiter {
            let wi = w.index();
            if self.nodes[wi].state == NodeState::Waiting {
                let remaining: usize = self.nodes[wi].waiting_remaining - 1;
                self.nodes[wi].waiting_remaining = remaining;
                if remaining == 0 {
                    let task = self.nodes[wi].task.take();
                    match task {
                        None => {
                            return Some(w);
                        },
                        Some(task) => {
                            self.nodes[wi].state = NodeState::Ready;
                            self.nodes[wi].continuation = true;
                            ready.push(ReadyTask { id: w, task, continuation: true });
                        },
                    }
                }
            }
        }
        None
    }

    /// Lets one node succeed, releases the dependents that this frees and
    /// resumes the waiting node that this completes. Returns the waiting node
    /// that must succeed next, if there is one.
    #[verifier::rlimit(40)]
    fn succeed_node(&mut self, id: NodeId, ready: &mut Vec<ReadyTask>) -> (next: Option<NodeId>)
        requires
            old(self)@.shape(),
            old(self)@.acyclic(),
            old(self)@.consistent_but(id.idx()),
            old(self).counted_but(id.idx()),
            lemmas::may_succeed(old(self)@, id.idx()),
        ensures
            lemmas::one_success(old(self)@, final(self)@, id.idx()),
            ({
                let w: int = match next {
                    Some(w) => w.idx(),
                    None => -1,
                };
                &&& lemmas::next_success(old(self)@, id.idx(), w)
                &&& final(self).counted_but(w)
            }),
            old(ready)@.len() <= final(ready)@.len(),
            final(ready)@.take(old(ready)@.len() as int) == old(ready)@,
            node::releases(
                old(self)@,
                final(self)@,
                final(ready)@.skip(old(ready)@.len() as int),
            ),
            forall|j: int, k: int|
                old(ready)@.len() <= j < k < final(ready)@.len() ==> {
                    let x = (#[trigger] final(ready)@[j]).id.idx();
                    let y = (#[trigger] final(ready)@[k]).id.idx();
                    &&& old(self)@.state(x) is Pending
                    &&& old(self)@.state(y) is Waiting || x < y
                },
    {
        let ghost a = self@;
        let ghost n0 = self.nodes@;
        let ghost r0 = ready@;
        let ghost c = id.idx();
        let ghost k = a.nodes[c].dependents.len() as int;
        let index = id.index();
        proof {
            lemmas::lemma_finite(a);
            assert(a.open_nodes().contains(c));
            assert forall|x: int| a.has(x) implies #[trigger] a.nodes[x] == n0[x].model() by {}
        }
        self.tell_dependents(id, ready);
        let ghost n1 = self.nodes@;
        let ghost r1 = ready@;
        let ghost deps = a.nodes[c].dependents;
        proof {
            assert(deps.take(k) =~= deps);
            assert(n1[c] == Self::told(a, n0, c, k, c));
            assert(a.nodes[c].waiters =~= node::indices(n1[c].waiters@));
            if n1[c].waiters@.len() > 0 {
                assert(n1[c].waiters@.len() == 1);
                let w = n1[c].waiters@[0].idx();
                assert(a.nodes[c].waiters[0] == w);
                assert(a.nodes[c].waiters.contains(w));
                assert(a.waits_for(w, c));
                lemmas::lemma_last_leaf(a, c, w);
                lemmas::lemma_one_waiter(a, c, w, w);
                assert(!deps.contains(w)) by {
                    if deps.contains(w) {
                        assert(a.depends(w, c));
                    }
                }
                assert(n1[w] == Self::told(a, n0, c, k, w));
                assert(n1[w] == n0[w]);
                assert(a.nodes[w] == n0[w].model());
            }
        }
        let next = self.tell_waiter(id, ready);
        proof {
            let b = self@;
            let w: int = match next {
                Some(w) => w.idx(),
                None => -1,
            };
            assert forall|x: int| a.has(x) implies #[trigger] b.nodes[x] == lemmas::node_after_one(
                a,
                c,
                x,
            ) by {
                assert(n1[x] == Self::told(a, n0, c, k, x));
                assert(a.nodes[x] == n0[x].model());
                assert(b.nodes[x] == self.nodes@[x].model());
                assert(a.depends(x, c) == deps.contains(x));
                if lemmas::completed_by(a, c, x) {
                    assert(a.nodes[c].waiters.contains(x));
                }
                if x == c {
                    assert(b.nodes[x].waiters =~= Seq::empty());
                    assert(!lemmas::completed_by(a, c, c)) by {
                        if a.waits_for(c, c) {
                            assert(c < c);
                        }
                    }
                }
                assert(b.nodes[x] =~= lemmas::node_after_one(a, c, x));
            }
            assert(lemmas::one_success(a, b, c));
            if w < 0 {
                assert forall|x: int| #[trigger] a.waits_for(x, c) implies !(lemmas::completed_by(
                    a,
                    c,
                    x,
                ) && a.nodes[x].task is None) by {
                    lemmas::lemma_one_waiter(a, c, x, x);
                }
            }
            assert(lemmas::next_success(a, c, w));
            lemmas::lemma_one_success(a, b, c, w);
            assert forall|d: int| b.has(d) implies (#[trigger] self.nodes@[d]).remaining_dependencies
                == b.blockers(d).len() by {
                assert(n1[d] == Self::told(a, n0, c, k, d));
                assert(b.blockers(d) == a.blockers(d).remove(c));
                assert(self.nodes@[d].remaining_dependencies == n1[d].remaining_dependencies);
                assert(a.depends(d, c) == deps.contains(d));
                if a.depends(d, c) {
                    lemmas::lemma_last_blocker(a, c, d);
                } else {
                    assert(!a.blockers(d).contains(c));
                    assert(a.blockers(d).remove(c) =~= a.blockers(d));
                }
            }
            assert forall|x: int|
                b.has(x) && #[trigger] b.state(x) is Waiting && x != w implies self.nodes@[x].waiting_remaining
                == b.leaves(x).len() by {
                assert(b.nodes[x] == lemmas::node_after_one(a, c, x));
                assert(a.state(x) is Waiting && x != c);
                assert(n1[x] == Self::told(a, n0, c, k, x));
                assert(b.leaves(x) == a.leaves(x).remove(c));
                if a.waits_for(x, c) {
                    lemmas::lemma_last_leaf(a, c, x);
                    lemmas::lemma_one_waiter(a, c, x, x);
                } else {
                    assert(!a.leaves(x).contains(c));
                    assert(a.leaves(x).remove(c) =~= a.leaves(x));
                }
            }
            assert(self.unresolved == b.open_nodes().len());
            let added = ready@.skip(r0.len() as int);
            assert(ready@.take(r0.len() as int) =~= r0);
            assert forall|j: int| 0 <= j < added.len() implies ({
                let x = (#[trigger] added[j]).id.idx();
                &&& node::newly_ready(a, b, x)
                &&& a.nodes[x].task == Some(added[j].task)
                &&& added[j].continuation == b.nodes[x].continuation
            }) by {
                let x = added[j].id.idx();
                assert(added[j] == ready@[r0.len() + j]);
                if r0.len() + j < r1.len() {
                    assert(ready@[r0.len() + j] == r1[r0.len() + j]);
                    assert(lemmas::freed_by(a, c, x));
                    assert(a.depends(x, c));
                }
                assert(b.nodes[x] == lemmas::node_after_one(a, c, x));
            }
            assert forall|i: int, j: int| 0 <= i < j < added.len() implies (#[trigger] added[i]).id
                != (#[trigger] added[j]).id by {
                assert(added[i] == ready@[r0.len() + i]);
                assert(added[j] == ready@[r0.len() + j]);
                assert(ready@[r0.len() + i] == r1[r0.len() + i]);
                let x = r1[r0.len() + i].id.idx();
                assert(lemmas::freed_by(a, c, x));
                if r0.len() + j < r1.len() {
                    assert(ready@[r0.len() + j] == r1[r0.len() + j]);
                    assert(r1[r0.len() + i].id.idx() < r1[r0.len() + j].id.idx());
                } else {
                    assert(a.state(added[j].id.idx()) is Waiting);
                }
            }
            assert forall|i: int, j: int| r0.len() <= i < j < ready@.len() implies ({
                let x = (#[trigger] ready@[i]).id.idx();
                let y = (#[trigger] ready@[j]).id.idx();
                &&& a.state(x) is Pending
                &&& a.state(y) is Waiting || x < y
            }) by {
                assert(ready@[i] == r1[i]);
                assert(lemmas::freed_by(a, c, r1[i].id.idx()));
                if j < r1.len() {
                    assert(ready@[j] == r1[j]);
                }
            }
            assert forall|x: int| #[trigger] node::newly_ready(a, b, x) implies exists|j: int|
                0 <= j < added.len() && (#[trigger] added[j]).id.idx() == x by {
                assert(b.nodes[x] == lemmas::node_after_one(a, c, x));
                if lemmas::freed_by(a, c, x) {
                    let j = choose|j: int|
                        r0.len() <= j < r1.len() && (#[trigger] r1[j]).id.idx() == x;
                    assert(added[j - r0.len()] == r1[j]);
                } else {
                    assert(lemmas::completed_by(a, c, x));
                    lemmas::lemma_one_waiter(a, c, x, x);
                    assert(added[added.len() - 1].id.idx() == x);
                }
            }
        }
        next
    }

    /// Lets a running node succeed, and with it the waiting nodes that this
    /// completes.
    fn finish_succeeded(&mut self, id: NodeId) -> (ready: Vec<ReadyTask>)
        requires
            old(self).inv(),
            old(self)@.has(id.idx()),
            old(self)@.state(id.idx()) is Running,
        ensures
            final(self).inv(),
            model::success_step(old(self)@, final(self)@, id.idx()),
            node::releases(old(self)@, final(self)@, ready@),
            node::in_release_order(old(self)@, final(self)@, ready@),
    {
        let ghost o = self@;
        let mut ready: Vec<ReadyTask> = Vec::new();
        let mut current = Some(id);
        let ghost mut c: int = id.idx();
        proof {
            lemmas::lemma_success_starts(o, id.idx());
            lemmas::lemma_finite(o);
        }
        while current.is_some()
            invariant
                o == old(self)@,
                o.valid(),
                o.has(id.idx()),
                o.state(id.idx()) is Running,
                c == (match current {
                    Some(w) => w.idx(),
                    None => -1,
                }),
                self@.shape(),
                self@.acyclic(),
                self@.consistent_but(c),
                self.counted_but(c),
                current is Some ==> lemmas::may_succeed(self@, c),
                lemmas::success_so_far(o, self@, id.idx(), c),
                c == id.idx() || (self@.state(id.idx()) is Succeeded && (current is Some
                    ==> self@.state(c) is Waiting)),
                c == id.idx() ==> current is Some,
                forall|i: int| #[trigger]
                    self@.state(i) is Succeeded && o.has(i) && !(o.state(i) is Succeeded) ==> c < i,
                node::releases(o, self@, ready@),
                node::in_release_order(o, self@, ready@),
                current is Some ==> forall|k: int|
                    0 <= k < ready@.len() ==> o.state((#[trigger] ready@[k]).id.idx()) is Pending,
            decreases self@.open_nodes().len(),
        {
            let ghost a = self@;
            let ghost r0 = ready@;
            if let Some(node) = current {
                current = self.succeed_node(node, &mut ready);
                proof {
                    let b = self@;
                    let w: int = match current {
                        Some(w) => w.idx(),
                        None => -1,
                    };
                    lemmas::lemma_one_success(a, b, c, w);
                    lemmas::lemma_success_goes_on(o, a, b, id.idx(), c, w);
                    lemmas::lemma_finite(a);
                    assert(a.open_nodes().contains(c));
                    release::lemma_join(o, a, b, id.idx(), c, w, r0, ready@);
                    release::lemma_join_order(o, a, b, id.idx(), c, w, r0, ready@);
                    c = w;
                }
            }
        }
        ready
    }

    /// Ends the sources in the given state and carries the break along every
    /// edge: a node that waits for a broken one fails, a node that depends on
    /// a broken one is cancelled.
    fn break_nodes(&mut self, sources: Vec<NodeId>, end: NodeState)
        requires
            old(self)@.shape(),
            old(self)@.acyclic(),
            lemmas::consistent_around(old(self)@, node::id_set(sources@)),
            lemmas::may_break(old(self)@, node::id_set(sources@), end),
            old(self).counted_but(-1),
            node::distinct(sources@),
        ensures
            final(self).inv(),
            final(self)@ == model::after_failure(old(self)@, node::id_set(sources@), end),
    {
        let ghost o = self@;
        let ghost n0 = self.nodes@;
        let ghost set = node::id_set(sources@);
        proof {
            lemmas::lemma_finite(o);
            assert forall|x: int| o.has(x) implies #[trigger] o.nodes[x] == n0[x].model() by {}
        }
        let mut k: usize = 0;
        while k < sources.len()
            invariant
                o == old(self)@,
                n0 == old(self).nodes@,
                set == node::id_set(sources@),
                k <= sources@.len(),
                node::distinct(sources@),
                lemmas::may_break(o, set, end),
                o.nodes.len() == n0.len(),
                forall|x: int| o.has(x) ==> #[trigger] o.nodes[x] == n0[x].model(),
                self.nodes@.len() == n0.len(),
                self.dynamic_expansions == old(self).dynamic_expansions,
                self.bindings == old(self).bindings,
                forall|x: int|
                    o.has(x) ==> #[trigger] self.nodes@[x] == (if node::id_set(
                        sources@.take(k as int),
                    ).contains(x) {
                        TaskNode { state: end, ..n0[x] }
                    } else {
                        n0[x]
                    }),
                self.unresolved == self@.open_nodes().len(),
            decreases sources@.len() - k,
        {
            let ghost n1 = self.nodes@;
            let ghost b = self@;
            let id = sources[k];
            proof {
                let x = id.idx();
                assert(set.contains(x));
                let done = sources@.take(k as int);
                assert(!node::id_set(done).contains(x)) by {
                    if node::id_set(done).contains(x) {
                        let j = choose|j: int|
                            0 <= j < done.len() && (#[trigger] done[j]).idx() == x;
                        assert(sources@[j].idx() == sources@[k as int].idx());
                    }
                }
                assert(sources@.take(k + 1) =~= done.push(id));
                node::lemma_id_set_push(done, id);
                assert(n1[x] == n0[x]);
                lemmas::lemma_finite(b);
                assert(b.nodes[x] == n1[x].model());
                assert(o.nodes[x] == n0[x].model());
                assert(b.open_nodes().contains(x));
            }
            self.nodes[id.index()].state = end;
            self.unresolved = self.unresolved - 1;
            proof {
                assert forall|y: int| b.has(y) && y != id.idx() implies #[trigger] self@.nodes[y]
                    == b.nodes[y] by {
                    assert(self.nodes@[y] == n1[y]);
                }
                assert(self@.open_nodes() =~= b.open_nodes().remove(id.idx()));
            }
            k = k + 1;
        }
        proof {
            assert(sources@.take(k as int) =~= sources@);
            let b = self@;
            assert forall|x: int| o.has(x) implies #[trigger] b.nodes[x] == (if set.contains(x) {
                NodeModel { state: end, ..o.nodes[x] }
            } else {
                o.nodes[x]
            }) by {
                assert(self.nodes@[x] == (if set.contains(x) {
                    TaskNode { state: end, ..n0[x] }
                } else {
                    n0[x]
                }));
            }
            lemmas::lemma_break_starts(o, b, set, end);
        }
        let mut stack: Vec<NodeId> = sources;
        while stack.len() > 0
            invariant
                o == old(self)@,
                n0 == old(self).nodes@,
                o.shape(),
                lemmas::consistent_around(o, set),
                lemmas::may_break(o, set, end),
                o.nodes.len() == n0.len(),
                self.nodes@.len() == n0.len(),
                node::distinct(stack@),
                lemmas::broken_so_far(o, self@, set, end, node::id_set(stack@)),
                self.unresolved == self@.open_nodes().len(),
                forall|x: int|
                    o.has(x) ==> (#[trigger] self.nodes@[x]).remaining_dependencies
                        == n0[x].remaining_dependencies && self.nodes@[x].waiting_remaining
                        == n0[x].waiting_remaining,
            decreases self@.open_nodes().len(), stack@.len(),
        {
            let ghost all = stack@;
            let ghost before = self@.open_nodes().len();
            proof {
                node::lemma_id_set_pop(all);
            }
            let popped = stack.pop();
            if let Some(id) = popped {
                proof {
                    assert(node::id_set(all) =~= node::id_set(stack@).insert(id.idx()));
                }
                self.cancel_dependents(id, &mut stack, Ghost(o), Ghost(set), Ghost(end));
                self.fail_waiter(id, &mut stack, Ghost(o), Ghost(set), Ghost(end));
            }
        }
        proof {
            let b = self@;
            assert(node::id_set(stack@) =~= Set::empty());
            lemmas::lemma_break_done(o, b, set, end);
            assert forall|x: int| o.has(x) implies (#[trigger] b.state(x) is Succeeded <==> o.state(
                x,
            ) is Succeeded) by {
                assert(lemmas::broken_node(o, b, set, end, Set::empty(), lemmas::to_mark(x)));
            }
            assert forall|d: int, i: int| #[trigger] b.depends(d, i) == o.depends(d, i) by {
                if o.has(i) {
                    assert(lemmas::broken_node(o, b, set, end, Set::empty(), lemmas::to_mark(i)));
                }
            }
            assert forall|d: int| b.has(d) implies (#[trigger] self.nodes@[d]).remaining_dependencies
                == b.blockers(d).len() by {
                assert(b.blockers(d) =~= o.blockers(d)) by {
                    assert forall|i: int| b.blockers(d).contains(i) == o.blockers(d).contains(i) by {
                        if o.has(i) {
                            assert(b.state(i) is Succeeded <==> o.state(i) is Succeeded);
                        }
                    }
                }
            }
            assert forall|w: int|
                b.has(w) && #[trigger] b.state(w) is Waiting && w != -1 implies self.nodes@[w].waiting_remaining
                == b.leaves(w).len() by {
                assert(lemmas::broken_node(o, b, set, end, Set::empty(), lemmas::to_mark(w)));
                assert(o.state(w) is Waiting);
                assert(b.leaves(w) =~= o.leaves(w)) by {
                    assert forall|i: int| b.leaves(w).contains(i) == o.leaves(w).contains(i) by {
                        if o.has(i) {
                            assert(lemmas::broken_node(
                                o,
                                b,
                                set,
                                end,
                                Set::empty(),
                                lemmas::to_mark(i),
                            ));
                            if o.waits_for(w, i) && b.state(i).terminal() {
                                assert(b.state(i).broken());
                                assert(b.state(w) is Failed);
                            }
                        }
                    }
                }
            }
        }
    }

    /// Cancels the pending dependents of a broken node and adds them to those
    /// whose neighbours have yet to be told.
    fn cancel_dependents(
        &mut self,
        id: NodeId,
        stack: &mut Vec<NodeId>,
        Ghost(o): Ghost<GraphModel>,
        Ghost(set): Ghost<Set<int>>,
        Ghost(end): Ghost<NodeState>,
    )
        requires
            o.shape(),
            lemmas::consistent_around(o, set),
            lemmas::may_break(o, set, end),
            node::distinct(old(stack)@),
            !node::id_set(old(stack)@).contains(id.idx()),
            lemmas::broken_so_far(
                o,
                old(self)@,
                set,
                end,
                node::id_set(old(stack)@).insert(id.idx()),
            ),
            old(self).unresolved == old(self)@.open_nodes().len(),
        ensures
            node::distinct(final(stack)@),
            !node::id_set(final(stack)@).contains(id.idx()),
            lemmas::broken_so_far(
                o,
                final(self)@,
                set,
                end,
                node::id_set(final(stack)@).insert(id.idx()),
            ),
            final(self).unresolved == final(self)@.open_nodes().len(),
            final(self).nodes@.len() == old(self).nodes@.len(),
            forall|x: int|
                o.has(x) ==> (#[trigger] final(self).nodes@[x]).remaining_dependencies == old(self).nodes@[x].remaining_dependencies && final(self).nodes@[x].waiting_remaining
                    == old(self).nodes@[x].waiting_remaining,
            forall|d: int| #[trigger]
                o.depends(d, id.idx()) ==> final(self)@.state(d) is Cancelled,
            final(self)@.open_nodes().len() < old(self)@.open_nodes().len() || (final(self)@.open_nodes().len() == old(self)@.open_nodes().len() && final(stack)@ == old(stack)@),
    {
        let ghost x = id.idx();
        let index = id.index();
        proof {
            let open = node::id_set(stack@).insert(x);
            assert(open.contains(x));
            assert(lemmas::broken_node(o, self@, set, end, open, lemmas::to_mark(x)));
            assert(self@.nodes[x] == self.nodes@[x].model());
        }
        let count = self.nodes[index].dependents.len();
        let mut k: usize = 0;
        while k < count
            invariant
                o.shape(),
                lemmas::consistent_around(o, set),
                lemmas::may_break(o, set, end),
                self.nodes@.len() == old(self).nodes@.len() == o.nodes.len(),
                x == id.idx(),
                index == x,
                o.has(x),
                k <= count == o.nodes[x].dependents.len(),
                node::distinct(stack@),
                !node::id_set(stack@).contains(x),
                lemmas::broken_so_far(o, self@, set, end, node::id_set(stack@).insert(x)),
                self.unresolved == self@.open_nodes().len(),
                forall|x: int|
                    o.has(x) ==> (#[trigger] self.nodes@[x]).remaining_dependencies == old(self).nodes@[x].remaining_dependencies && self.nodes@[x].waiting_remaining == old(self).nodes@[x].waiting_remaining,
                forall|j: int|
                    0 <= j < k ==> self@.state(#[trigger] o.nodes[x].dependents[j]) is Cancelled,
                self@.open_nodes().len() < old(self)@.open_nodes().len() || (
                self@.open_nodes().len() == old(self)@.open_nodes().len() && stack@ == old(stack)@),
            decreases count - k,
        {
            let ghost b = self@;
            let ghost n1 = self.nodes@;
            let ghost open = node::id_set(stack@).insert(x);
            let ghost deps = o.nodes[x].dependents;
            proof {
                assert(open.contains(x));
                assert(lemmas::broken_node(o, b, set, end, open, lemmas::to_mark(x)));
                assert(b.nodes[x] == n1[x].model());
                assert(deps[k as int] == n1[x].dependents@[k as int].idx());
            }
            let dependent = self.nodes[index].dependents[k];
            let ghost d = dependent.idx();
            proof {
                assert(deps[k as int] == d);
                assert(deps.contains(d));
                assert(o.depends(d, x));
                assert(lemmas::broken_node(o, b, set, end, open, lemmas::to_mark(d)));
                assert(b.nodes[d] == n1[d].model());
                // what depends on a node that never succeeded has not started
                assert(b.state(d) is Pending || b.state(d) is Cancelled) by {
                    assert(!(o.state(x) is Succeeded));
                    assert(o.state(d) is Pending || o.state(d) is Cancelled);
                    if set.contains(d) {
                        assert(o.state(d) is Pending);
                    }
                }
            }
            if self.nodes[dependent.index()].state == NodeState::Pending {
                proof {
                    lemmas::lemma_finite(b);
                    assert(b.open_nodes().contains(d));
                }
                self.nodes[dependent.index()].state = NodeState::Cancelled;
                self.unresolved = self.unresolved - 1;
                proof {
                    let b2 = self@;
                    assert(b2.nodes =~= b.nodes.update(
                        d,
                        NodeModel { state: NodeState::Cancelled, ..b.nodes[d] },
                    ));
                    assert(o.edge(x, d));
                    lemmas::lemma_break_neighbour(o, b, b2, set, end, open, x, d);
                    node::lemma_id_set_push(stack@, dependent);
                }
                stack.push(dependent);
                proof {
                    assert(open.insert(d) =~= node::id_set(stack@).insert(x));
                    assert(x != d);
                }
            }
            proof {
                assert forall|j: int| 0 <= j < k + 1 implies self@.state(
                    #[trigger] deps[j],
                ) is Cancelled by {
                    if j < k {
                        assert(b.state(deps[j]) is Cancelled);
                        assert(deps.contains(deps[j]));
                        assert(o.depends(deps[j], x));
                    }
                }
            }
            k = k + 1;
        }
        proof {
            assert forall|d: int| #[trigger] o.depends(d, x) implies self@.state(d) is Cancelled by {
                let j = choose|j: int|
                    0 <= j < o.nodes[x].dependents.len() && o.nodes[x].dependents[j] == d;
                assert(self@.state(o.nodes[x].dependents[j]) is Cancelled);
            }
        }
    }

    /// Fails the node that waits for a broken one and closes the broken one.
    fn fail_waiter(
        &mut self,
        id: NodeId,
        stack: &mut Vec<NodeId>,
        Ghost(o): Ghost<GraphModel>,
        Ghost(set): Ghost<Set<int>>,
        Ghost(end): Ghost<NodeState>,
    )
        requires
            o.shape(),
            lemmas::consistent_around(o, set),
            lemmas::may_break(o, set, end),
            node::distinct(old(stack)@),
            !node::id_set(old(stack)@).contains(id.idx()),
            lemmas::broken_so_far(
                o,
                old(self)@,
                set,
                end,
                node::id_set(old(stack)@).insert(id.idx()),
            ),
            old(self).unresolved == old(self)@.open_nodes().len(),
            forall|d: int| #[trigger]
                o.depends(d, id.idx()) ==> old(self)@.state(d) is Cancelled,
        ensures
            node::distinct(final(stack)@),
            lemmas::broken_so_far(o, final(self)@, set, end, node::id_set(final(stack)@)),
            final(self).unresolved == final(self)@.open_nodes().len(),
            final(self).nodes@.len() == old(self).nodes@.len(),
            forall|x: int|
                o.has(x) ==> (#[trigger] final(self).nodes@[x]).remaining_dependencies == old(self).nodes@[x].remaining_dependencies && final(self).nodes@[x].waiting_remaining
                    == old(self).nodes@[x].waiting_remaining,
            final(self)@.open_nodes().len() < old(self)@.open_nodes().len() || (final(self)@.open_nodes().len() == old(self)@.open_nodes().len() && final(stack)@ == old(stack)@),
    {
        let ghost x = id.idx();
        let index = id.index();
        let ghost b = self@;
        let ghost n1 = self.nodes@;
        let ghost open = node::id_set(stack@).insert(x);
        proof {
            assert(open.contains(x));
            assert(lemmas::broken_node(o, b, set, end, open, lemmas::to_mark(x)));
            assert(b.nodes[x] == n1[x].model());
            assert(b.nodes[x].waiters == o.nodes[x].waiters);
            assert(o.nodes[x].waiters.len() <= 1);
        }
        let waiter = self.nodes[index].waiters.pop();
        let ghost b1 = self@;
        let ghost n2 = self.nodes@;
        proof {
            assert(b1.nodes =~= b.nodes.update(
                x,
                NodeModel { waiters: Seq::empty(), ..b.nodes[x] },
            )) by {
                assert(b1.nodes[x].waiters =~= Seq::empty());
                assert forall|y: int| o.has(y) && y != x implies #[trigger] b1.nodes[y]
                    == b.nodes[y] by {
                    assert(n2[y] == n1[y]);
                }
            }
            assert(b1.open_nodes() =~= b.open_nodes());
        }
        if let Some(w) = waiter {
            proof {
                assert(o.nodes[x].waiters[0] == w.idx());
                assert(o.nodes[x].waiters.contains(w.idx()));
                assert(o.waits_for(w.idx(), x));
                lemmas::lemma_one_waiter(o, x, w.idx(), w.idx());
                assert(lemmas::broken_node(o, b, set, end, open, lemmas::to_mark(w.idx())));
                assert(b.nodes[w.idx()] == n1[w.idx()].model());
                assert(n2[w.idx()] == n1[w.idx()]);
            }
            if self.nodes[w.index()].state == NodeState::Waiting {
                proof {
                    lemmas::lemma_finite(b1);
                    assert(b1.open_nodes().contains(w.idx()));
                }
                self.nodes[w.index()].state = NodeState::Failed;
                self.unresolved = self.unresolved - 1;
                proof {
                    let y = w.idx();
                    let b2 = GraphModel {
                        nodes: b.nodes.update(
                            y,
                            NodeModel { state: NodeState::Failed, ..b.nodes[y] },
                        ),
                        ..b
                    };
                    assert(o.edge(x, y));
                    lemmas::lemma_break_neighbour(o, b, b2, set, end, open, x, y);
                    let b3 = self@;
                    assert(b3.nodes =~= b2.nodes.update(
                        x,
                        NodeModel { waiters: Seq::empty(), ..b2.nodes[x] },
                    ));
                    assert forall|d: int| #[trigger] o.depends(d, x) implies b2.state(
                        d,
                    ) is Cancelled by {
                        assert(b.state(d) is Cancelled);
                    }
                    assert forall|v: int| #[trigger] o.waits_for(v, x) implies b2.state(
                        v,
                    ) is Failed by {
                        lemmas::lemma_one_waiter(o, x, v, y);
                    }
                    lemmas::lemma_break_close(o, b2, b3, set, end, open.insert(y), x);
                    node::lemma_id_set_push(stack@, w);
                    assert(open.insert(y).remove(x) =~= node::id_set(stack@.push(w)));
                    lemmas::lemma_finite(b);
                }
                stack.push(w);
            } else {
                proof {
                    assert forall|v: int| #[trigger] o.waits_for(v, x) implies b.state(
                        v,
                    ) is Failed by {
                        lemmas::lemma_one_waiter(o, x, v, w.idx());
                    }
                    lemmas::lemma_break_close(o, b, self@, set, end, open, x);
                    assert(open.remove(x) =~= node::id_set(stack@));
                }
            }
        } else {
            proof {
                assert forall|v: int| #[trigger] o.waits_for(v, x) implies b.state(
                    v,
                ) is Failed by {
                    assert(o.nodes[x].waiters.contains(v));
                }
                lemmas::lemma_break_close(o, b, self@, set, end, open, x);
                assert(open.remove(x) =~= node::id_set(stack@));
            }
        }
    }

    /// Releases every unblocked pending node from an index on.
    fn release_from(&mut self, base: usize) -> (ready: Vec<ReadyTask>)
        requires
            old(self).inv(),
        ensures
            final(self).inv(),
            final(self)@ == install::activated(old(self)@, base as int),
            node::releases(old(self)@, final(self)@, ready@),
            forall|j: int, k: int|
                0 <= j < k < ready@.len() ==> (#[trigger] ready@[j]).id.idx() < (
                #[trigger] ready@[k]).id.idx(),
    {
        let ghost m = self@;
        let ghost n0 = self.nodes@;
        let ghost n = install::activated(m, base as int);
        let mut ready: Vec<ReadyTask> = Vec::new();
        let mut at: usize = base;
        while at < self.nodes.len()
            invariant
                m == old(self)@,
                n0 == old(self).nodes@,
                n == install::activated(m, base as int),
                old(self).inv(),
                m.nodes.len() == n0.len(),
                base <= at,
                base <= n0.len() ==> at <= n0.len(),
                n0.len() <= MAX_NODES,
                self.nodes@.len() == n0.len(),
                self.unresolved == old(self).unresolved,
                self.dynamic_expansions == old(self).dynamic_expansions,
                self.bindings == old(self).bindings,
                forall|x: int|
                    m.has(x) ==> #[trigger] self.nodes@[x] == (if base <= x < at && m.state(
                        x,
                    ) is Pending && !m.blocked(x) {
                        TaskNode { state: NodeState::Ready, task: None, ..n0[x] }
                    } else {
                        n0[x]
                    }),
                forall|k: int|
                    0 <= k < ready@.len() ==> {
                        let x = (#[trigger] ready@[k]).id.idx();
                        &&& base <= x < at
                        &&& x < n0.len()
                        &&& m.state(x) is Pending
                        &&& !m.blocked(x)
                        &&& m.nodes[x].task == Some(ready@[k].task)
                        &&& ready@[k].continuation == m.nodes[x].continuation
                    },
                forall|j: int, k: int|
                    0 <= j < k < ready@.len() ==> (#[trigger] ready@[j]).id.idx() < (
                    #[trigger] ready@[k]).id.idx(),
                forall|x: int|
                    base <= x < at && m.has(x) && m.state(x) is Pending && !(#[trigger] m.blocked(
                        x,
                    )) ==> exists|k: int|
                        0 <= k < ready@.len() && (#[trigger] ready@[k]).id.idx() == x,
            decreases n0.len() - at,
        {
            let ghost r0 = ready@;
            proof {
                let x = at as int;
                assert(m.nodes[x] == n0[x].model());
                lemmas::lemma_blocked_count(m, x);
                assert(n0[x].remaining_dependencies == m.blockers(x).len());
                if m.state(x) is Pending {
                    assert(m.nodes[x].task is Some);
                }
            }
            self.activate_if_ready(at, &mut ready);
            proof {
                assert forall|x: int|
                    base <= x < at + 1 && m.has(x) && m.state(x) is Pending
                        && !(#[trigger] m.blocked(x)) implies exists|k: int|
                    0 <= k < ready@.len() && (#[trigger] ready@[k]).id.idx() == x by {
                    if x < at {
                        let k = choose|k: int| 0 <= k < r0.len() && (#[trigger] r0[k]).id.idx() == x;
                        assert(ready@[k] == r0[k]);
                    } else {
                        assert(ready@[r0.len() as int].id.idx() == x);
                    }
                }
            }
            at = at + 1;
        }
        proof {
            assert forall|x: int| m.has(x) implies #[trigger] self@.nodes[x] == n.nodes[x] by {
                assert(m.nodes[x] == n0[x].model());
                assert(self@.nodes[x] == self.nodes@[x].model());
            }
            assert(self@ =~= n);
            install::lemma_activated(m, base as int);
            assert forall|x: int| #[trigger] node::newly_ready(m, n, x) implies exists|k: int|
                0 <= k < ready@.len() && (#[trigger] ready@[k]).id.idx() == x by {
                assert(!m.blocked(x));
            }
        }
        ready
    }

    /// Releases every node that depends on nothing unfinished.
    pub fn start(&mut self) -> (ready: Vec<ReadyTask>)
        requires
            old(self).inv(),
        ensures
            final(self).inv(),
            final(self)@ == install::activated(old(self)@, 0),
            final(self)@.started(),
            node::releases(old(self)@, final(self)@, ready@),
            forall|j: int, k: int|
                0 <= j < k < ready@.len() ==> (#[trigger] ready@[j]).id.idx() < (
                #[trigger] ready@[k]).id.idx(),
    {
        let ghost m = self@;
        let ready = self.release_from(0);
        proof {
            let n = self@;
            assert forall|d: int| n.has(d) && #[trigger] n.state(d) is Pending implies n.blocked(
                d,
            ) by {
                assert(m.blocked(d));
                let i = choose|i: int| #[trigger] m.depends(d, i) && !(m.state(i) is Succeeded);
                assert(n.nodes[i].dependents == m.nodes[i].dependents);
                assert(n.depends(d, i));
            }
        }
        ready
    }
}

} // verus!
