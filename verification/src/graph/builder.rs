//! Building a task graph.

use crate::error::GraphError;
use crate::graph::exec::TaskGraph;
use crate::graph::expansion::{ExpansionNodeId, GraphExpansion, LocalNode};
use crate::graph::model::MAX_NODES;
use crate::graph::node::NodeId;
use crate::graph::{expansion, install, node};
use crate::task::Task;
use vstd::prelude::*;

verus! {

/// Builds a command-scoped graph. A newly added node may depend only on nodes
/// already present in the builder, so cycles and forward references are
/// rejected at construction time.
pub struct TaskGraphBuilder {
    pub(crate) local: GraphExpansion,
}

impl View for TaskGraphBuilder {
    type V = Seq<LocalNode>;

    closed spec fn view(&self) -> Seq<LocalNode> {
        self.local@
    }
}

/// The least identifier at or above a bound.
pub open spec fn least_id_from(ids: Seq<NodeId>, bound: int, least: usize) -> bool {
    &&& bound <= least
    &&& exists|k: int| 0 <= k < ids.len() && (#[trigger] ids[k]).idx() == least
    &&& forall|k: int|
        0 <= k < ids.len() && (#[trigger] ids[k]).idx() >= bound ==> least <= ids[k].idx()
}

/// Whether all identifiers lie below a bound.
pub open spec fn ids_below(ids: Seq<NodeId>, bound: int) -> bool {
    forall|k: int| 0 <= k < ids.len() ==> (#[trigger] ids[k]).idx() < bound
}

impl TaskGraphBuilder {
    pub open spec fn inv(&self) -> bool {
        &&& install::plain(self@)
        &&& expansion::well_ordered(self@)
        &&& self@.len() <= MAX_NODES
    }

    pub fn new() -> (builder: TaskGraphBuilder)
        ensures
            builder.inv(),
            builder@ == Seq::<LocalNode>::empty(),
    {
        TaskGraphBuilder { local: GraphExpansion::new() }
    }

    /// Adds a task that depends on nothing.
    pub fn add_root(&mut self, task: Task) -> (id: NodeId)
        requires
            old(self).inv(),
            old(self)@.len() < MAX_NODES,
        ensures
            final(self).inv(),
            id.idx() == old(self)@.len(),
            final(self)@ == old(self)@.push(expansion::plain_node(task)),
    {
        let position = self.local.add_root(task);
        NodeId(position.0 as u32)
    }

    /// Adds a task that depends on nodes added before.
    pub fn add_task(&mut self, task: Task, dependencies: Vec<NodeId>) -> (result: Result<
        NodeId,
        GraphError,
    >)
        requires
            old(self).inv(),
        ensures
            final(self).inv(),
            if old(self)@.len() >= MAX_NODES {
                &&& result == Err::<NodeId, GraphError>(GraphError::TooManyNodes)
                &&& final(self)@ == old(self)@
            } else if ids_below(dependencies@, old(self)@.len() as int) {
                &&& result matches Ok(id) && id.idx() == old(self)@.len()
                &&& final(self)@.len() == old(self)@.len() + 1
                &&& final(self)@.drop_last() == old(self)@
                &&& final(self)@.last() == (LocalNode {
                    dependencies: final(self)@.last().dependencies,
                    ..expansion::plain_node(task)
                })
                &&& crate::sorted::ascending(final(self)@.last().dependencies)
                &&& forall|d: u64| #[trigger]
                    final(self)@.last().dependencies.contains(d) <==> exists|k: int|
                        0 <= k < dependencies@.len() && (#[trigger] dependencies@[k]).idx() == d
            } else {
                &&& result matches Err(GraphError::UnknownDependency { node, dependency }) && node
                    == old(self)@.len() && least_id_from(
                    dependencies@,
                    old(self)@.len() as int,
                    dependency,
                )
                &&& final(self)@ == old(self)@
            },
    {
        let len = self.local.len();
        if len as u64 >= MAX_NODES {
            return Err(GraphError::TooManyNodes);
        }
        let ghost before = self@;
        let positions = Self::local_positions(&dependencies);
        proof {
            if ids_below(dependencies@, len as int) {
                assert forall|k: int| 0 <= k < positions@.len() implies (#[trigger] positions@[k]).0
                    < len by {
                    assert(dependencies@[k].idx() < len);
                }
            }
            if expansion::all_below(positions@, len as int) {
                assert forall|k: int| 0 <= k < dependencies@.len() implies (
                #[trigger] dependencies@[k]).idx() < len by {
                    assert(positions@[k].0 < len);
                }
            }
        }
        match self.local.add_task(task, positions) {
            Ok(id) => {
                proof {
                    let last = self@.last();
                    assert(expansion::token_numbers(Seq::empty()) =~= Seq::<u64>::empty());
                    assert(last.tokens =~= Seq::empty()) by {
                        if last.tokens.len() > 0 {
                            assert(last.tokens.contains(last.tokens[0]));
                            assert(Seq::<u64>::empty().contains(last.tokens[0]));
                        }
                    }
                    assert forall|i: int| 0 <= i < self@.len() implies (
                    #[trigger] self@[i]).tokens.len() == 0 && self@[i].binding is None by {
                        if i < before.len() {
                            assert(self@.drop_last()[i] == before[i]);
                        } else {
                            assert(self@[i] == last);
                        }
                    }
                    assert forall|d: u64| #[trigger] last.dependencies.contains(d) <==> exists|
                        k: int,
                    |
                        0 <= k < dependencies@.len() && (#[trigger] dependencies@[k]).idx()
                            == d by {
                        let ps = expansion::positions(positions@);
                        if ps.contains(d) {
                            let k = choose|k: int| 0 <= k < ps.len() && ps[k] == d;
                            assert(dependencies@[k].idx() == d);
                        }
                        if exists|k: int|
                            0 <= k < dependencies@.len() && (#[trigger] dependencies@[k]).idx()
                                == d {
                            let k = choose|k: int|
                                0 <= k < dependencies@.len() && (#[trigger] dependencies@[k]).idx()
                                    == d;
                            assert(ps[k] == d);
                        }
                    }
                }
                Ok(NodeId(id.0 as u32))
            },
            Err(error) => {
                match error {
                    GraphError::UnknownLocalDependency { node, dependency } => {
                        proof {
                            let k = choose|k: int|
                                0 <= k < positions@.len() && (#[trigger] positions@[k]).0
                                    == dependency;
                            assert(dependencies@[k].idx() == dependency);
                            assert forall|j: int|
                                0 <= j < dependencies@.len() && (
                                #[trigger] dependencies@[j]).idx() >= len implies dependency
                                <= dependencies@[j].idx() by {
                                assert(positions@[j].0 >= len);
                            }
                            assert(least_id_from(dependencies@, len as int, dependency));
                        }
                        Err(GraphError::UnknownDependency { node, dependency })
                    },
                    other => Err(other),
                }
            },
        }
    }

    fn local_positions(ids: &Vec<NodeId>) -> (positions: Vec<ExpansionNodeId>)
        ensures
            positions@.len() == ids@.len(),
            forall|k: int| 0 <= k < ids@.len() ==> (#[trigger] positions@[k]).0 == ids@[k].idx(),
    {
        let mut positions: Vec<ExpansionNodeId> = Vec::new();
        let mut k: usize = 0;
        while k < ids.len()
            invariant
                k <= ids@.len(),
                positions@.len() == k,
                forall|j: int| 0 <= j < k ==> (#[trigger] positions@[j]).0 == ids@[j].idx(),
            decreases ids@.len() - k,
        {
            positions.push(ExpansionNodeId(ids[k].index()));
            k = k + 1;
        }
        positions
    }

    pub fn build(self) -> (graph: TaskGraph)
        requires
            self.inv(),
        ensures
            graph.inv(),
            graph@ == install::built(self@),
    {
        TaskGraph::from_nodes(self.local.into_nodes())
    }

    /// Builds the graph. A builder holds only what a graph can hold, so this
    /// does not fail.
    pub fn build_checked(self) -> (result: Result<TaskGraph, GraphError>)
        requires
            self.inv(),
        ensures
            result matches Ok(graph) && graph.inv() && graph@ == install::built(self@),
    {
        Ok(self.build())
    }
}

impl TaskGraph {
    pub fn builder() -> (builder: TaskGraphBuilder)
        ensures
            builder.inv(),
            builder@ == Seq::<LocalNode>::empty(),
    {
        TaskGraphBuilder::new()
    }

    /// The graph of tasks that do not depend on each other.
    pub fn from_tasks(tasks: Vec<Task>) -> (graph: TaskGraph)
        requires
            tasks@.len() <= MAX_NODES,
        ensures
            graph.inv(),
            graph@ == install::built(tasks@.map_values(|task: Task| expansion::plain_node(task))),
    {
        let local = GraphExpansion::parallel(tasks);
        let builder = TaskGraphBuilder { local };
        builder.build()
    }
}

} // verus!
