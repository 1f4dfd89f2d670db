//! What the end of a run does to a graph.

use crate::error::GraphError;
use crate::graph::expansion::TaskRun;
use crate::graph::model::{GraphModel, NodeModel, NodeState};
use crate::graph::node::{NodeId, ReadyTask};
use crate::graph::{install, model, node};
use crate::task::Task;
use vstd::prelude::*;

verus! {

/// The graph in which a node has been made ready for another task.
pub open spec fn continued(m: GraphModel, id: int) -> GraphModel {
    GraphModel {
        nodes: m.nodes.update(
            id,
            NodeModel {
                state: NodeState::Ready,
                task: None,
                continuation: true,
                ..m.nodes[id]
            },
        ),
        ..m
    }
}

/// The effect of a success: what it frees and resumes is handed out.
pub open spec fn success_effect(
    m0: GraphModel,
    m1: GraphModel,
    id: NodeId,
    ready: Seq<ReadyTask>,
) -> bool {
    &&& model::success_step(m0, m1, id.idx())
    &&& node::releases(m0, m1, ready)
    &&& node::in_release_order(m0, m1, ready)
}

/// The effect of going on with another task: the same node is handed out again.
pub open spec fn continue_effect(
    m0: GraphModel,
    m1: GraphModel,
    id: NodeId,
    task: Task,
    ready: Seq<ReadyTask>,
) -> bool {
    &&& m1 == continued(m0, id.idx())
    &&& ready == seq![ReadyTask { id, task, continuation: true }]
}

/// The effect of an expansion: it is refused, or the new nodes that can run
/// are handed out from the oldest to the newest.
pub open spec fn expand_effect(
    m0: GraphModel,
    m1: GraphModel,
    id: NodeId,
    exp: Seq<crate::graph::expansion::LocalNode>,
    next: Option<Task>,
    result: Result<Vec<ReadyTask>, GraphError>,
) -> bool {
    match result {
        Ok(ready) => {
            &&& install::install_error(m0, id.idx(), exp) is None
            &&& m1 == install::expanded(m0, id.idx(), exp, next)
            &&& node::releases(install::settled(m0, id.idx(), exp, next), m1, ready@)
            &&& forall|j: int, k: int|
                0 <= j < k < ready@.len() ==> (#[trigger] ready@[j]).id.idx() < (
                #[trigger] ready@[k]).id.idx()
        },
        Err(error) => {
            &&& install::install_error(m0, id.idx(), exp) == Some(error)
            &&& m1 == m0
        },
    }
}

/// What the end of the run of node `id` does to a graph.
pub open spec fn run_effect(
    m0: GraphModel,
    m1: GraphModel,
    id: NodeId,
    run: TaskRun,
    result: Result<Vec<ReadyTask>, GraphError>,
) -> bool {
    if !(m0.has(id.idx()) && m0.state(id.idx()) is Running) {
        &&& result matches Err(error) && error == (GraphError::NotRunning {
            node: id.idx() as usize,
        })
        &&& m1 == m0
    } else {
        match run {
            TaskRun::Succeeded => result matches Ok(ready) && success_effect(m0, m1, id, ready@),
            TaskRun::Failed { .. } => {
                &&& result matches Ok(ready) && ready@.len() == 0
                &&& m1 == model::after_failure(m0, set![id.idx()], NodeState::Failed)
            },
            TaskRun::Cancelled => {
                &&& result matches Ok(ready) && ready@.len() == 0
                &&& m1 == model::after_failure(m0, set![id.idx()], NodeState::Cancelled)
            },
            TaskRun::Continue { task } => result matches Ok(ready) && continue_effect(
                m0,
                m1,
                id,
                task,
                ready@,
            ),
            TaskRun::Expand { expansion, next } => {
                if expansion@.len() > 0 {
                    expand_effect(m0, m1, id, expansion@, next, result)
                } else {
                    match next {
                        Some(task) => result matches Ok(ready) && continue_effect(
                            m0,
                            m1,
                            id,
                            task,
                            ready@,
                        ),
                        None => result matches Ok(ready) && success_effect(m0, m1, id, ready@),
                    }
                }
            },
        }
    }
}

} // verus!
