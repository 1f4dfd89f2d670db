//! Node identifiers, the nodes themselves, and what the graph hands out.

use crate::error::GraphError;
use crate::graph::model::{GraphModel, NodeModel, NodeState, MAX_NODES};
use crate::task::Task;
use vstd::prelude::*;

verus! {

/// The identifier of a node: its index in the graph.
#[derive(Clone, Copy, PartialEq, Eq, Structural, Debug, Hash, PartialOrd, Ord)]
pub struct NodeId(pub u32);

impl NodeId {
    pub open spec fn idx(self) -> int {
        self.0 as int
    }

    /// The identifier of the node at an index, if identifiers reach that far.
    pub fn new(index: usize) -> (id: Result<NodeId, GraphError>)
        ensures
            index < MAX_NODES ==> id is Ok && id->Ok_0.idx() == index,
            index >= MAX_NODES ==> id == Err::<NodeId, GraphError>(GraphError::TooManyNodes),
    {
        if index as u64 >= MAX_NODES {
            Err(GraphError::TooManyNodes)
        } else {
            Ok(NodeId(index as u32))
        }
    }

    pub fn index(self) -> (index: usize)
        ensures
            index == self.idx(),
    {
        self.0 as usize
    }

    pub fn from_index(index: u32) -> (id: NodeId)
        ensures
            id.idx() == index,
    {
        NodeId(index)
    }
}

/// The indices that a list of identifiers stands for.
pub open spec fn indices(ids: Seq<NodeId>) -> Seq<int> {
    ids.map_values(|id: NodeId| id.idx())
}

/// A handle by which later work depends on a node that an earlier expansion
/// installed.
#[derive(Clone, Copy, PartialEq, Eq, Structural, Debug, Hash, PartialOrd, Ord)]
pub struct TaskDependencyToken(pub u64);

/// One node of a graph. The two counters repeat what the edges say.
pub struct TaskNode {
    pub task: Option<Task>,
    pub state: NodeState,
    pub remaining_dependencies: usize,
    pub dependents: Vec<NodeId>,
    pub waiters: Vec<NodeId>,
    pub waiting_remaining: usize,
    pub continuation: bool,
}

impl TaskNode {
    pub open spec fn model(self) -> NodeModel {
        NodeModel {
            task: self.task,
            state: self.state,
            dependents: indices(self.dependents@),
            waiters: indices(self.waiters@),
            continuation: self.continuation,
        }
    }
}

/// A task that the graph has released.
pub struct ReadyTask {
    pub id: NodeId,
    pub task: Task,
    pub continuation: bool,
}

/// Node `x` is ready in `m1` and was not in `m0`.
pub open spec fn newly_ready(m0: GraphModel, m1: GraphModel, x: int) -> bool {
    m1.has(x) && m1.state(x) is Ready && !(m0.state(x) is Ready)
}

/// A list of released tasks names each node that has become ready once, with
/// the task that the node held.
pub open spec fn releases(m0: GraphModel, m1: GraphModel, ready: Seq<ReadyTask>) -> bool {
    &&& forall|k: int|
        0 <= k < ready.len() ==> {
            let x = (#[trigger] ready[k]).id.idx();
            &&& newly_ready(m0, m1, x)
            &&& m0.nodes[x].task == Some(ready[k].task)
            &&& ready[k].continuation == m1.nodes[x].continuation
        }
    &&& forall|j: int, k: int|
        0 <= j < k < ready.len() ==> (#[trigger] ready[j]).id != (#[trigger] ready[k]).id
    &&& forall|x: int| #[trigger]
        newly_ready(m0, m1, x) ==> exists|k: int|
            0 <= k < ready.len() && (#[trigger] ready[k]).id.idx() == x
}

/// Node `c` is the last dependency of `x` to succeed on the way from `m0` to
/// `m1`. Successes run from a leaf to the node that waits for it, which has
/// the smaller index, so the last one is the least.
pub open spec fn released_by(m0: GraphModel, m1: GraphModel, x: int, c: int) -> bool {
    &&& m0.depends(x, c)
    &&& m1.state(c) is Succeeded
    &&& !(m0.state(c) is Succeeded)
    &&& forall|i: int| #[trigger]
        m0.depends(x, i) && m1.state(i) is Succeeded && !(m0.state(i) is Succeeded) ==> c <= i
}

/// Node `x` is released before node `y`: its last dependency succeeded
/// earlier, or both were freed at once and `x` is the older node. A node that
/// resumes comes last.
pub open spec fn released_before(m0: GraphModel, m1: GraphModel, x: int, y: int) -> bool {
    &&& m0.state(x) is Pending
    &&& m0.state(y) is Waiting || exists|c: int, e: int| #[trigger]
        released_by(m0, m1, x, c) && #[trigger] released_by(m0, m1, y, e) && (e < c || (e == c && x
            < y))
}

/// The released tasks come in the order of their release.
pub open spec fn in_release_order(m0: GraphModel, m1: GraphModel, ready: Seq<ReadyTask>) -> bool {
    forall|j: int, k: int|
        0 <= j < k < ready.len() ==> released_before(
            m0,
            m1,
            (#[trigger] ready[j]).id.idx(),
            (#[trigger] ready[k]).id.idx(),
        )
}

/// The nodes that a list of identifiers names.
pub open spec fn id_set(ids: Seq<NodeId>) -> Set<int> {
    Set::new(|x: int| exists|k: int| 0 <= k < ids.len() && (#[trigger] ids[k]).idx() == x)
}

/// A list that names no node twice.
pub open spec fn distinct(ids: Seq<NodeId>) -> bool {
    forall|j: int, k: int|
        0 <= j < k < ids.len() ==> (#[trigger] ids[j]).idx() != (#[trigger] ids[k]).idx()
}

pub proof fn lemma_id_set_push(ids: Seq<NodeId>, id: NodeId)
    ensures
        id_set(ids.push(id)) == id_set(ids).insert(id.idx()),
        distinct(ids) && !id_set(ids).contains(id.idx()) ==> distinct(ids.push(id)),
{
    let more = ids.push(id);
    assert forall|x: int| id_set(more).contains(x) == id_set(ids).insert(id.idx()).contains(x) by {
        if id_set(ids).contains(x) {
            let k = choose|k: int| 0 <= k < ids.len() && (#[trigger] ids[k]).idx() == x;
            assert(more[k].idx() == x);
        }
        if x == id.idx() {
            assert(more[ids.len() as int].idx() == x);
        }
        if id_set(more).contains(x) {
            let k = choose|k: int| 0 <= k < more.len() && (#[trigger] more[k]).idx() == x;
            if k < ids.len() {
                assert(ids[k].idx() == x);
            }
        }
    }
    assert(id_set(more) =~= id_set(ids).insert(id.idx()));
    if distinct(ids) && !id_set(ids).contains(id.idx()) {
        assert forall|j: int, k: int| 0 <= j < k < more.len() implies (#[trigger] more[j]).idx()
            != (#[trigger] more[k]).idx() by {
            assert(more[j] == ids[j]);
            if k < ids.len() {
                assert(more[k] == ids[k]);
            }
        }
    }
}

pub proof fn lemma_id_set_pop(ids: Seq<NodeId>)
    requires
        ids.len() > 0,
        distinct(ids),
    ensures
        id_set(ids.drop_last()) == id_set(ids).remove(ids.last().idx()),
        id_set(ids).contains(ids.last().idx()),
        distinct(ids.drop_last()),
{
    let less = ids.drop_last();
    assert(ids[ids.len() - 1] == ids.last());
    assert forall|x: int| id_set(less).contains(x) == id_set(ids).remove(
        ids.last().idx(),
    ).contains(x) by {
        if id_set(less).contains(x) {
            let k = choose|k: int| 0 <= k < less.len() && (#[trigger] less[k]).idx() == x;
            assert(ids[k].idx() == x);
        }
        if id_set(ids).contains(x) && x != ids.last().idx() {
            let k = choose|k: int| 0 <= k < ids.len() && (#[trigger] ids[k]).idx() == x;
            assert(less[k].idx() == x);
        }
    }
    assert(id_set(less) =~= id_set(ids).remove(ids.last().idx()));
    assert forall|j: int, k: int| 0 <= j < k < less.len() implies (#[trigger] less[j]).idx() != (
    #[trigger] less[k]).idx() by {
        assert(less[j] == ids[j] && less[k] == ids[k]);
    }
}

} // verus!
