//! Subgraphs that a running task discovers, and what a run ends in.

use crate::error::GraphError;
use crate::graph::node::TaskDependencyToken;
use crate::sorted;
use crate::task::Task;
use vstd::prelude::*;

verus! {

/// The position of a node in an expansion.
#[derive(Clone, Copy, PartialEq, Eq, Structural, Debug, PartialOrd, Ord)]
pub struct ExpansionNodeId(pub usize);

/// One node of an expansion. Its dependencies are positions of earlier nodes,
/// its tokens name nodes bound by this or an earlier expansion; both lists
/// ascend.
pub struct ExpansionNode {
    pub task: Task,
    pub dependencies: Vec<u64>,
    pub token_dependencies: Vec<u64>,
    pub binding: Option<TaskDependencyToken>,
}

/// One node of an expansion, as plain values.
#[verifier::ext_equal]
pub struct LocalNode {
    pub task: Task,
    pub dependencies: Seq<u64>,
    pub tokens: Seq<u64>,
    pub binding: Option<u64>,
}

impl ExpansionNode {
    pub open spec fn local(self) -> LocalNode {
        LocalNode {
            task: self.task,
            dependencies: self.dependencies@,
            tokens: self.token_dependencies@,
            binding: match self.binding {
                Some(token) => Some(token.0),
                None => None,
            },
        }
    }
}

/// Every node depends on earlier nodes only.
pub open spec fn well_ordered(nodes: Seq<LocalNode>) -> bool {
    forall|i: int|
        0 <= i < nodes.len() ==> {
            &&& sorted::ascending((#[trigger] nodes[i]).dependencies)
            &&& sorted::ascending(nodes[i].tokens)
            &&& forall|d: u64| #[trigger] nodes[i].dependencies.contains(d) ==> d < i
        }
}

/// A node that depends on nothing and is bound to nothing.
pub open spec fn plain_node(task: Task) -> LocalNode {
    LocalNode { task, dependencies: Seq::empty(), tokens: Seq::empty(), binding: None }
}

/// The numbers behind a list of positions.
pub open spec fn positions(ids: Seq<ExpansionNodeId>) -> Seq<u64> {
    ids.map_values(|id: ExpansionNodeId| id.0 as u64)
}

/// The numbers behind a list of tokens.
pub open spec fn token_numbers(tokens: Seq<TaskDependencyToken>) -> Seq<u64> {
    tokens.map_values(|token: TaskDependencyToken| token.0)
}

/// A list holds what another holds, in ascending order and without repetition.
pub open spec fn sorts(list: Seq<u64>, values: Seq<u64>) -> bool {
    &&& sorted::ascending(list)
    &&& forall|x: u64| #[trigger] list.contains(x) <==> values.contains(x)
}

/// Whether a node holds a task that waits for nodes and tokens.
pub open spec fn is_joined(
    node: LocalNode,
    task: Task,
    dependencies: Seq<u64>,
    tokens: Seq<u64>,
) -> bool {
    &&& node.task == task
    &&& sorts(node.dependencies, dependencies)
    &&& sorts(node.tokens, tokens)
    &&& node.binding is None
}

/// Whether all positions lie below a bound.
pub open spec fn all_below(ids: Seq<ExpansionNodeId>, bound: int) -> bool {
    forall|k: int| 0 <= k < ids.len() ==> (#[trigger] ids[k]).0 < bound
}

/// The least position at or above a bound.
pub open spec fn least_from(ids: Seq<ExpansionNodeId>, bound: int, least: usize) -> bool {
    &&& bound <= least
    &&& exists|k: int| 0 <= k < ids.len() && (#[trigger] ids[k]).0 == least
    &&& forall|k: int| 0 <= k < ids.len() && (#[trigger] ids[k]).0 >= bound ==> least <= ids[k].0
}

/// An append-only subgraph that one task run produces.
pub struct GraphExpansion {
    pub(crate) nodes: Vec<ExpansionNode>,
}

impl View for GraphExpansion {
    type V = Seq<LocalNode>;

    closed spec fn view(&self) -> Seq<LocalNode> {
        self.nodes@.map_values(|node: ExpansionNode| node.local())
    }
}

impl GraphExpansion {
    /// The nodes themselves.
    pub(crate) fn into_nodes(self) -> (nodes: Vec<ExpansionNode>)
        ensures
            nodes@.map_values(|node: ExpansionNode| node.local()) == self@,
    {
        self.nodes
    }
}

impl GraphExpansion {
    pub open spec fn inv(&self) -> bool {
        well_ordered(self@)
    }

    pub fn new() -> (expansion: GraphExpansion)
        ensures
            expansion@ == Seq::<LocalNode>::empty(),
            expansion.inv(),
    {
        let expansion = GraphExpansion { nodes: Vec::new() };
        assert(expansion@ =~= Seq::<LocalNode>::empty());
        expansion
    }

    pub fn is_empty(&self) -> (empty: bool)
        ensures
            empty == (self@.len() == 0),
    {
        self.nodes.len() == 0
    }

    pub fn len(&self) -> (len: usize)
        ensures
            len == self@.len(),
    {
        self.nodes.len()
    }

    /// An expansion of one task.
    pub fn single(task: Task) -> (expansion: GraphExpansion)
        ensures
            expansion@ == seq![plain_node(task)],
            expansion.inv(),
    {
        let mut expansion = GraphExpansion::new();
        expansion.add_root(task);
        assert(expansion@ =~= seq![plain_node(task)]);
        expansion
    }

    /// An expansion of tasks that do not depend on each other.
    pub fn parallel(tasks: Vec<Task>) -> (expansion: GraphExpansion)
        ensures
            expansion@ == tasks@.map_values(|task: Task| plain_node(task)),
            expansion.inv(),
    {
        let mut expansion = GraphExpansion::new();
        let ghost all = tasks@;
        for task in it: tasks
            invariant
                it.seq() == all,
                expansion.inv(),
                expansion@ == all.take(it.index()).map_values(|task: Task| plain_node(task)),
        {
            expansion.add_root(task);
            assert(expansion@ =~= all.take(it.index() + 1).map_values(
                |task: Task| plain_node(task),
            ));
        }
        assert(expansion@ =~= all.map_values(|task: Task| plain_node(task)));
        expansion
    }

    /// Adds a task that depends on nothing.
    pub fn add_root(&mut self, task: Task) -> (id: ExpansionNodeId)
        requires
            old(self).inv(),
        ensures
            final(self).inv(),
            id.0 == old(self)@.len(),
            final(self)@ == old(self)@.push(plain_node(task)),
    {
        self.push_node(task, Vec::new(), Vec::new(), None)
    }

    /// Adds a task that depends on nothing and binds it to a token.
    pub fn add_root_bound(&mut self, task: Task, binding: TaskDependencyToken) -> (position: usize)
        requires
            old(self).inv(),
        ensures
            final(self).inv(),
            position == old(self)@.len(),
            final(self)@ == old(self)@.push(
                LocalNode { binding: Some(binding.0), ..plain_node(task) },
            ),
    {
        self.push_node(task, Vec::new(), Vec::new(), Some(binding)).0
    }

    /// Adds a task that depends on the nodes bound to some tokens.
    pub fn add_root_with_tokens(
        &mut self,
        task: Task,
        token_dependencies: Vec<TaskDependencyToken>,
    ) -> (result: Result<ExpansionNodeId, GraphError>)
        requires
            old(self).inv(),
        ensures
            final(self).inv(),
            result == Ok::<ExpansionNodeId, GraphError>(
                ExpansionNodeId(old(self)@.len() as usize),
            ),
            final(self)@.len() == old(self)@.len() + 1,
            final(self)@.drop_last() == old(self)@,
            final(self)@.last() == (LocalNode {
                tokens: final(self)@.last().tokens,
                ..plain_node(task)
            }),
            sorts(final(self)@.last().tokens, token_numbers(token_dependencies@)),
    {
        let added = self.add_task_internal(task, Vec::new(), token_dependencies, None);
        proof {
            if self@.len() > old(self)@.len() {
                let ds = self@.last().dependencies;
                assert(ds =~= Seq::empty()) by {
                    if ds.len() > 0 {
                        assert(ds.contains(ds[0]));
                        let none = positions(Seq::<ExpansionNodeId>::empty());
                        assert(none.contains(ds[0]));
                    }
                }
            }
        }
        added
    }

    /// Adds a task that depends on earlier nodes of this expansion.
    pub fn add_task(
        &mut self,
        task: Task,
        dependencies: Vec<ExpansionNodeId>,
    ) -> (result: Result<ExpansionNodeId, GraphError>)
        requires
            old(self).inv(),
        ensures
            final(self).inv(),
            Self::added(
                old(self)@,
                final(self)@,
                task,
                dependencies@,
                Seq::empty(),
                None,
                result,
            ),
    {
        self.add_task_internal(task, dependencies, Vec::new(), None)
    }

    /// Adds a task that depends on earlier nodes and on bound nodes.
    pub fn add_task_with_tokens(
        &mut self,
        task: Task,
        dependencies: Vec<ExpansionNodeId>,
        token_dependencies: Vec<TaskDependencyToken>,
    ) -> (result: Result<ExpansionNodeId, GraphError>)
        requires
            old(self).inv(),
        ensures
            final(self).inv(),
            Self::added(
                old(self)@,
                final(self)@,
                task,
                dependencies@,
                token_dependencies@,
                None,
                result,
            ),
    {
        self.add_task_internal(task, dependencies, token_dependencies, None)
    }

    /// Adds a task that depends on nodes that are there, and on bound nodes.
    pub(crate) fn append(
        &mut self,
        task: Task,
        dependencies: Vec<ExpansionNodeId>,
        token_dependencies: Vec<TaskDependencyToken>,
    ) -> (id: ExpansionNodeId)
        requires
            old(self).inv(),
            all_below(dependencies@, old(self)@.len() as int),
        ensures
            final(self).inv(),
            id.0 == old(self)@.len(),
            final(self)@.len() == old(self)@.len() + 1,
            final(self)@.drop_last() == old(self)@,
            is_joined(
                final(self)@.last(),
                task,
                positions(dependencies@),
                token_numbers(token_dependencies@),
            ),
    {
        let id = ExpansionNodeId(self.nodes.len());
        match self.add_task_internal(task, dependencies, token_dependencies, None) {
            Ok(found) => found,
            Err(_) => id,
        }
    }

    /// What adding a node does: the node goes to the end with both lists
    /// sorted, unless a dependency is not there yet; then nothing changes and
    /// the least such dependency is named.
    pub open spec fn added(
        before: Seq<LocalNode>,
        after: Seq<LocalNode>,
        task: Task,
        dependencies: Seq<ExpansionNodeId>,
        tokens: Seq<TaskDependencyToken>,
        binding: Option<TaskDependencyToken>,
        result: Result<ExpansionNodeId, GraphError>,
    ) -> bool {
        if all_below(dependencies, before.len() as int) {
            &&& result == Ok::<ExpansionNodeId, GraphError>(ExpansionNodeId(before.len() as usize))
            &&& after.len() == before.len() + 1
            &&& after.drop_last() == before
            &&& after.last().task == task
            &&& after.last().binding == (match binding {
                Some(token) => Some(token.0),
                None => None,
            })
            &&& sorts(after.last().dependencies, positions(dependencies))
            &&& sorts(after.last().tokens, token_numbers(tokens))
        } else {
            &&& after == before
            &&& result matches Err(GraphError::UnknownLocalDependency { node, dependency })
                && node == before.len() && least_from(
                dependencies,
                before.len() as int,
                dependency,
            )
        }
    }

    /// Adds a node of any kind.
    pub fn add_task_internal(
        &mut self,
        task: Task,
        dependencies: Vec<ExpansionNodeId>,
        token_dependencies: Vec<TaskDependencyToken>,
        binding: Option<TaskDependencyToken>,
    ) -> (result: Result<ExpansionNodeId, GraphError>)
        requires
            old(self).inv(),
        ensures
            final(self).inv(),
            Self::added(
                old(self)@,
                final(self)@,
                task,
                dependencies@,
                token_dependencies@,
                binding,
                result,
            ),
    {
        let len = self.nodes.len();
        let raw = Self::raw_positions(&dependencies);
        let sorted_dependencies = sorted::sorted_distinct(&raw);
        proof {
            assert(raw@ =~= positions(dependencies@));
        }
        let mut k: usize = 0;
        while k < sorted_dependencies.len()
            invariant
                k <= sorted_dependencies@.len(),
                len == old(self)@.len(),
                self@ == old(self)@,
                old(self).inv(),
                sorts(sorted_dependencies@, positions(dependencies@)),
                forall|j: int| 0 <= j < k ==> sorted_dependencies@[j] < len,
            decreases sorted_dependencies@.len() - k,
        {
            let dependency = sorted_dependencies[k];
            if dependency >= len as u64 {
                proof {
                    assert(sorted_dependencies@.contains(dependency));
                    let i = choose|i: int|
                        0 <= i < positions(dependencies@).len() && positions(dependencies@)[i]
                            == dependency;
                    assert(dependencies@[i].0 == dependency);
                    assert forall|j: int|
                        0 <= j < dependencies@.len() && (#[trigger] dependencies@[j]).0
                            >= len implies dependency <= dependencies@[j].0 by {
                        let d = dependencies@[j].0 as u64;
                        assert(positions(dependencies@)[j] == d);
                        assert(positions(dependencies@).contains(d));
                        assert(sorted_dependencies@.contains(d));
                        let l = choose|l: int|
                            0 <= l < sorted_dependencies@.len() && sorted_dependencies@[l] == d;
                        if l > k {
                            assert(sorted_dependencies@[k as int] < sorted_dependencies@[l]);
                        }
                    }
                    assert(least_from(dependencies@, len as int, dependency as usize));
                    assert(!all_below(dependencies@, len as int));
                }
                return Err(
                    GraphError::UnknownLocalDependency {
                        node: len,
                        dependency: dependency as usize,
                    },
                );
            }
            k = k + 1;
        }
        let tokens = Self::raw_tokens(&token_dependencies);
        let sorted_tokens = sorted::sorted_distinct(&tokens);
        proof {
            assert(tokens@ =~= token_numbers(token_dependencies@));
            assert(all_below(dependencies@, len as int)) by {
                assert forall|j: int| 0 <= j < dependencies@.len() implies (
                #[trigger] dependencies@[j]).0 < len by {
                    let d = dependencies@[j].0 as u64;
                    assert(positions(dependencies@)[j] == d);
                    assert(positions(dependencies@).contains(d));
                    assert(sorted_dependencies@.contains(d));
                }
            }
            assert forall|d: u64| #[trigger] sorted_dependencies@.contains(d) implies d < len by {
                let l = choose|l: int|
                    0 <= l < sorted_dependencies@.len() && sorted_dependencies@[l] == d;
            }
        }
        let id = self.push_node(task, sorted_dependencies, sorted_tokens, binding);
        proof {
            assert(self@.drop_last() =~= old(self)@);
        }
        Ok(id)
    }

    fn push_node(
        &mut self,
        task: Task,
        dependencies: Vec<u64>,
        token_dependencies: Vec<u64>,
        binding: Option<TaskDependencyToken>,
    ) -> (id: ExpansionNodeId)
        requires
            old(self).inv(),
            sorted::ascending(dependencies@),
            sorted::ascending(token_dependencies@),
            forall|d: u64| #[trigger] dependencies@.contains(d) ==> d < old(self)@.len(),
        ensures
            final(self).inv(),
            id.0 == old(self)@.len(),
            final(self)@ == old(self)@.push(
                LocalNode {
                    task,
                    dependencies: dependencies@,
                    tokens: token_dependencies@,
                    binding: match binding {
                        Some(token) => Some(token.0),
                        None => None,
                    },
                },
            ),
    {
        let id = ExpansionNodeId(self.nodes.len());
        let ghost node = ExpansionNode { task, dependencies, token_dependencies, binding };
        self.nodes.push(ExpansionNode { task, dependencies, token_dependencies, binding });
        proof {
            assert(self@ =~= old(self)@.push(node.local()));
            assert forall|i: int| 0 <= i < self@.len() implies ({
                &&& sorted::ascending((#[trigger] self@[i]).dependencies)
                &&& sorted::ascending(self@[i].tokens)
                &&& forall|d: u64| #[trigger] self@[i].dependencies.contains(d) ==> d < i
            }) by {
                if i < old(self)@.len() {
                    assert(self@[i] == old(self)@[i]);
                }
            }
        }
        id
    }

    fn raw_positions(ids: &Vec<ExpansionNodeId>) -> (raw: Vec<u64>)
        ensures
            raw@ == positions(ids@),
    {
        let mut raw: Vec<u64> = Vec::new();
        let mut k: usize = 0;
        while k < ids.len()
            invariant
                k <= ids@.len(),
                raw@ == positions(ids@.take(k as int)),
            decreases ids@.len() - k,
        {
            raw.push(ids[k].0 as u64);
            k = k + 1;
            assert(raw@ =~= positions(ids@.take(k as int)));
        }
        assert(ids@.take(k as int) =~= ids@);
        raw
    }

    fn raw_tokens(tokens: &Vec<TaskDependencyToken>) -> (raw: Vec<u64>)
        ensures
            raw@ == token_numbers(tokens@),
    {
        let mut raw: Vec<u64> = Vec::new();
        let mut k: usize = 0;
        while k < tokens.len()
            invariant
                k <= tokens@.len(),
                raw@ == token_numbers(tokens@.take(k as int)),
            decreases tokens@.len() - k,
        {
            raw.push(tokens[k].0);
            k = k + 1;
            assert(raw@ =~= token_numbers(tokens@.take(k as int)));
        }
        assert(tokens@.take(k as int) =~= tokens@);
        raw
    }
}

/// What one run of a task ends in.
pub enum TaskRun {
    Succeeded,
    Failed { reason: String, report: bool },
    Cancelled,
    /// The node goes on with another task.
    Continue { task: Task },
    /// The node waits for a subgraph, and then goes on with `next` or succeeds.
    Expand { expansion: GraphExpansion, next: Option<Task> },
}

impl TaskRun {
    pub fn succeeded() -> (run: TaskRun)
        ensures
            run is Succeeded,
    {
        TaskRun::Succeeded
    }

    pub fn failed(reason: String) -> (run: TaskRun)
        ensures
            run == (TaskRun::Failed { reason, report: true }),
    {
        TaskRun::Failed { reason, report: true }
    }

    pub fn silent_failure(reason: String) -> (run: TaskRun)
        ensures
            run == (TaskRun::Failed { reason, report: false }),
    {
        TaskRun::Failed { reason, report: false }
    }

    pub fn cancelled() -> (run: TaskRun)
        ensures
            run is Cancelled,
    {
        TaskRun::Cancelled
    }

    /// Goes on with another task in the same node.
    pub fn then(task: Task) -> (run: TaskRun)
        ensures
            run == (TaskRun::Continue { task }),
    {
        TaskRun::Continue { task }
    }

    /// Waits for a subgraph and succeeds with it.
    pub fn expand(expansion: GraphExpansion) -> (run: TaskRun)
        ensures
            run == (if expansion@.len() == 0 {
                TaskRun::Succeeded
            } else {
                TaskRun::Expand { expansion, next: None }
            }),
    {
        if expansion.is_empty() {
            TaskRun::Succeeded
        } else {
            TaskRun::Expand { expansion, next: None }
        }
    }

    /// Waits for a subgraph and then goes on with another task.
    pub fn expand_then(expansion: GraphExpansion, task: Task) -> (run: TaskRun)
        ensures
            run == (if expansion@.len() == 0 {
                TaskRun::Continue { task }
            } else {
                TaskRun::Expand { expansion, next: Some(task) }
            }),
    {
        if expansion.is_empty() {
            TaskRun::Continue { task }
        } else {
            TaskRun::Expand { expansion, next: Some(task) }
        }
    }

    /// The reason of a failure and whether it is to be reported.
    pub fn failure_details(&self) -> (details: Option<(&String, bool)>)
        ensures
            details == (match *self {
                TaskRun::Failed { reason, report } => Some((&reason, report)),
                _ => None,
            }),
    {
        match self {
            TaskRun::Failed { reason, report } => Some((reason, *report)),
            _ => None,
        }
    }
}

} // verus!
