//! What holds of every run: no released task gets lost.

use crate::error::GraphError;
use crate::graph;
use crate::graph::model::{GraphModel, NodeModel, NodeState};
use crate::graph::node::ReadyTask;
use crate::scheduler::backlog;
use crate::scheduler::backlog::{BacklogModel, Lanes, RoutedTask};
use crate::scheduler::config::TaskPoolConfig;
use crate::scheduler::coordinator;
use crate::scheduler::coordinator::{RunModel, TaskFinish};
use crate::scheduler::laws;
use crate::scheduler::order;
use crate::scheduler::order::{QueueModel, QueuedTask};
use crate::scheduler::progress::TaskProgress;
use crate::scheduler::queue::ScheduledTask;
use crate::scheduler::routes;
use vstd::prelude::*;

verus! {

/// Whether a list holds the task of a node.
pub open spec fn holds(list: Seq<ReadyTask>, x: int) -> bool {
    exists|k: int| 0 <= k < list.len() && (#[trigger] list[k]).id.idx() == x
}

/// Whether lanes hold the task of a node.
pub open spec fn waits_in(lanes: Lanes, x: int) -> bool {
    ||| holds(lanes.async_io, x)
    ||| holds(lanes.cpu, x)
    ||| holds(lanes.blocking, x)
}

/// Whether the task of a node waits to be routed.
pub open spec fn backlogged(m: BacklogModel, x: int) -> bool {
    waits_in(m.continuation, x) || waits_in(m.bulk, x)
}

/// Whether a list holds the routed task of a node.
pub open spec fn queues(list: Seq<QueuedTask>, x: int) -> bool {
    exists|k: int| 0 <= k < list.len() && (#[trigger] list[k]).node_id.idx() == x
}

/// Whether the task of a node waits to be admitted.
pub open spec fn queued(queue: QueueModel, x: int) -> bool {
    queues(queue.continuation, x) || queues(queue.bulk, x)
}

/// Whether a run still has the task of a node.
pub open spec fn keeps(m: RunModel, x: int) -> bool {
    backlogged(m.backlog, x) || queued(m.queue, x)
}

/// Whether a run still has the task of every ready node but `hand`.
pub open spec fn keeps_all_but(m: RunModel, hand: Option<int>) -> bool {
    forall|x: int|
        m.graph.has(x) && #[trigger] m.graph.state(x) is Ready && hand != Some(x) ==> keeps(m, x)
}

proof fn lemma_pushed(m: BacklogModel, ready: ReadyTask, x: int)
    requires
        backlogged(m, x) || ready.id.idx() == x,
    ensures
        backlogged(m.pushed(ready), x),
{
    let n = m.pushed(ready);
    let class = order::class_index(routes::lane(ready.task));
    let before = if ready.continuation {
        m.continuation.lane(class)
    } else {
        m.bulk.lane(class)
    };
    let after = before.push(ready);
    if holds(before, x) {
        let k = choose|k: int| 0 <= k < before.len() && (#[trigger] before[k]).id.idx() == x;
        assert(after[k] == before[k]);
        assert(holds(after, x));
    }
    assert(after[before.len() as int] == ready);
    if ready.id.idx() == x {
        assert(holds(after, x));
    }
}

proof fn lemma_pushed_all(m: BacklogModel, list: Seq<ReadyTask>, k: int, x: int)
    requires
        0 <= k <= list.len(),
        backlogged(m, x) || holds(list.take(k), x),
    ensures
        backlogged(m.pushed_all(list, k), x),
    decreases k,
{
    if k > 0 {
        if !backlogged(m, x) && list[k - 1].id.idx() != x {
            let j = choose|j: int|
                0 <= j < list.take(k).len() && (#[trigger] list.take(k)[j]).id.idx() == x;
            assert(list.take(k - 1)[j] == list.take(k)[j]);
            assert(holds(list.take(k - 1), x));
        }
        if backlogged(m, x) || list[k - 1].id.idx() != x {
            lemma_pushed_all(m, list, k - 1, x);
        }
        lemma_pushed(m.pushed_all(list, k - 1), list[k - 1], x);
    }
}

/// What is added to a backlog, or was there before, is there.
pub proof fn law_backlog_keeps_tasks(m: BacklogModel, list: Seq<ReadyTask>, x: int)
    requires
        backlogged(m, x) || holds(list, x),
    ensures
        backlogged(m.extended(list), x),
{
    assert(list.take(list.len() as int) =~= list);
    lemma_pushed_all(m, list, list.len() as int, x);
}

proof fn lemma_lanes_popped(lanes: Lanes, x: int)
    requires
        0 <= lanes.cursor < 3,
        waits_in(lanes, x),
    ensures
        ({
            let (rest, task) = lanes.popped();
            &&& 0 <= rest.cursor < 3
            &&& waits_in(rest, x) || (task matches Some(ready) && ready.id.idx() == x)
        }),
{
    let (rest, task) = lanes.popped();
    if task is Some {
        let index = lanes.next_lane(0)->0;
        lemma_next_lane_in_range(lanes, 0);
        let before = lanes.lane(index);
        let after = before.drop_first();
        if holds(before, x) && before[0].id.idx() != x {
            let k = choose|k: int| 0 <= k < before.len() && (#[trigger] before[k]).id.idx() == x;
            assert(after[k - 1] == before[k]);
            assert(holds(after, x));
        }
    }
}

proof fn lemma_next_lane_in_range(lanes: Lanes, offset: int)
    requires
        0 <= offset,
        0 <= lanes.cursor,
    ensures
        lanes.next_lane(offset) matches Some(index) ==> 0 <= index < 3,
    decreases 3 - offset,
{
    if offset < 3 {
        lemma_next_lane_in_range(lanes, offset + 1);
    }
}

proof fn lemma_popped(m: BacklogModel, x: int)
    requires
        m.wf(),
        backlogged(m, x),
    ensures
        ({
            let (rest, task) = m.popped();
            backlogged(rest, x) || (task matches Some(ready) && ready.id.idx() == x)
        }),
{
    if waits_in(m.continuation, x) {
        lemma_lanes_popped(m.continuation, x);
    }
    if waits_in(m.bulk, x) {
        lemma_lanes_popped(m.bulk, x);
    }
}

proof fn lemma_window_wf(m: BacklogModel, n: nat)
    requires
        m.wf(),
    ensures
        m.window(n).0.wf(),
    decreases n,
{
    if n > 0 {
        lemma_window_wf(m, (n - 1) as nat);
        backlog::lemma_popped(m.window((n - 1) as nat).0);
    }
}

/// What leaves a backlog is in the window that was taken.
pub proof fn law_window_takes_what_leaves(m: BacklogModel, n: nat, x: int)
    requires
        m.wf(),
        backlogged(m, x),
    ensures
        backlogged(m.window(n).0, x) || holds(m.window(n).1, x),
    decreases n,
{
    if n > 0 {
        let before = (n - 1) as nat;
        law_window_takes_what_leaves(m, before, x);
        lemma_window_wf(m, before);
        let (rest, tasks) = m.window(before);
        let (after, task) = rest.popped();
        if backlogged(rest, x) {
            lemma_popped(rest, x);
        }
        if task is Some {
            let more = tasks.push(task->0);
            if holds(tasks, x) {
                let k = choose|k: int| 0 <= k < tasks.len() && (#[trigger] tasks[k]).id.idx() == x;
                assert(more[k] == tasks[k]);
                assert(holds(more, x));
            }
            assert(more[tasks.len() as int] == task->0);
        }
    }
}

proof fn lemma_enqueued(
    queue: QueueModel,
    window: Seq<RoutedTask>,
    added: Seq<QueuedTask>,
    k: int,
    x: int,
)
    requires
        0 <= k <= added.len(),
        queued(queue, x) || queues(added.take(k), x),
    ensures
        queued(backlog::enqueued(queue, window, added, k), x),
    decreases k,
{
    if k > 0 {
        let rest = backlog::enqueued(queue, window, added, k - 1);
        let before = if window[k - 1].ready.continuation {
            rest.continuation
        } else {
            rest.bulk
        };
        let after = before.push(added[k - 1]);
        assert(after[before.len() as int] == added[k - 1]);
        if added[k - 1].node_id.idx() == x {
            assert(queues(after, x));
        } else {
            if !queued(queue, x) {
                let j = choose|j: int|
                    0 <= j < added.take(k).len() && (#[trigger] added.take(k)[j]).node_id.idx()
                        == x;
                assert(added.take(k - 1)[j] == added.take(k)[j]);
                assert(queues(added.take(k - 1), x));
            }
            lemma_enqueued(queue, window, added, k - 1, x);
            if queues(before, x) {
                let j = choose|j: int|
                    0 <= j < before.len() && (#[trigger] before[j]).node_id.idx() == x;
                assert(after[j] == before[j]);
                assert(queues(after, x));
            }
        }
    }
}

/// Whether routed tasks are those of a window.
pub open spec fn routes_window(routed: Seq<RoutedTask>, window: Seq<ReadyTask>) -> bool {
    &&& routed.len() == window.len()
    &&& forall|i: int| 0 <= i < window.len() ==> (#[trigger] routed[i]).ready == window[i]
}

/// Routing a window loses no task: a run that routes what it took out still
/// has the task of every ready node.
pub proof fn law_routing_loses_nothing(
    m: RunModel,
    n: RunModel,
    limit: nat,
    routed: Seq<RoutedTask>,
    now: u64,
    hand: Option<int>,
)
    requires
        m.backlog.wf(),
        keeps_all_but(m, hand),
        routes_window(routed, m.backlog.window(limit).1),
        backlog::are_enqueued(m.queue, n.queue, routed, now),
        n.backlog == m.backlog.window(limit).0,
        n.graph == m.graph,
    ensures
        keeps_all_but(n, hand),
{
    let window = m.backlog.window(limit).1;
    let added = choose|added: Seq<QueuedTask>|
        added.len() == routed.len() && (forall|i: int|
            0 <= i < routed.len() ==> backlog::is_routed(added[i], #[trigger] routed[i], now))
            && n.queue == #[trigger] backlog::enqueued(m.queue, routed, added, routed.len() as int);
    assert(added.take(added.len() as int) =~= added);
    assert forall|x: int|
        n.graph.has(x) && #[trigger] n.graph.state(x) is Ready && hand != Some(x) implies keeps(
        n,
        x,
    ) by {
        assert(m.graph.state(x) is Ready);
        if backlogged(m.backlog, x) {
            law_window_takes_what_leaves(m.backlog, limit, x);
            if holds(window, x) {
                let k = choose|k: int|
                    0 <= k < window.len() && (#[trigger] window[k]).id.idx() == x;
                assert(routed[k].ready == window[k]);
                assert(added[k].node_id.idx() == x);
                assert(queues(added, x));
            }
        }
        if queued(m.queue, x) || queues(added, x) {
            lemma_enqueued(m.queue, routed, added, added.len() as int, x);
        }
    }
}

proof fn lemma_took(before: QueueModel, after: QueueModel, task: QueuedTask, x: int)
    requires
        laws::took(before, after, task),
        queued(before, x),
    ensures
        queued(after, x) || task.node_id.idx() == x,
{
    if task.node_id.idx() != x {
        if queues(before.continuation, x) {
            let k = choose|k: int|
                0 <= k < before.continuation.len() && (
                #[trigger] before.continuation[k]).node_id.idx() == x;
            if after.continuation != before.continuation {
                let i = choose|i: int|
                    0 <= i < before.continuation.len() && task == #[trigger] before.continuation[i]
                        && after.continuation == before.continuation.remove(i);
                let j = if k < i {
                    k
                } else {
                    k - 1
                };
                assert(after.continuation[j] == before.continuation[k]);
            } else {
                assert(after.continuation[k].node_id.idx() == x);
            }
            assert(queues(after.continuation, x));
        } else {
            let k = choose|k: int|
                0 <= k < before.bulk.len() && (#[trigger] before.bulk[k]).node_id.idx() == x;
            if after.bulk != before.bulk {
                let i = choose|i: int|
                    0 <= i < before.bulk.len() && task == #[trigger] before.bulk[i] && after.bulk
                        == before.bulk.remove(i);
                let j = if k < i {
                    k
                } else {
                    k - 1
                };
                assert(after.bulk[j] == before.bulk[k]);
            } else {
                assert(after.bulk[k].node_id.idx() == x);
            }
            assert(queues(after.bulk, x));
        }
    }
}

proof fn lemma_admitted(
    queue: QueueModel,
    graph: GraphModel,
    config: TaskPoolConfig,
    blocking: bool,
    now: u64,
    x: int,
)
    requires
        queue.wf(),
        queued(queue, x),
        graph.has(x),
        graph.state(x) is Ready,
    ensures
        ({
            let (after, task) = coordinator::admitted(queue, graph, config, blocking, now);
            queued(after, x) || (task matches Some(q) && q.node_id.idx() == x)
        }),
    decreases queue.waiting().len(),
{
    laws::law_pop_conserves_tasks(queue, config, blocking, now);
    let (after, task) = queue.popped(config, blocking, now);
    match task {
        Some(q) => {
            lemma_took(queue, after, q, x);
            if !coordinator::is_ready(graph, q.node_id) {
                let released = coordinator::queue_released(after, q.resources);
                assert(released.wf());
                assert(queued(released, x));
                lemma_admitted(released, graph, config, blocking, now, x);
            }
        },
        None => {
            assert(after.waiting() == queue.waiting());
            lemma_same_waiting(queue, after, x);
        },
    }
}

proof fn lemma_same_waiting(a: QueueModel, b: QueueModel, x: int)
    requires
        a.waiting() == b.waiting(),
        queued(a, x),
    ensures
        queued(b, x),
{
    let all = a.waiting();
    let k = if queues(a.continuation, x) {
        let k = choose|k: int|
            0 <= k < a.continuation.len() && (#[trigger] a.continuation[k]).node_id.idx() == x;
        assert(all[k] == a.continuation[k]);
        k
    } else {
        let k = choose|k: int|
            0 <= k < a.bulk.len() && (#[trigger] a.bulk[k]).node_id.idx() == x;
        assert(all[a.continuation.len() + k] == a.bulk[k]);
        a.continuation.len() + k
    };
    assert(k < all.len());
    assert(b.waiting()[k].node_id.idx() == x);
    assert(b.waiting().len() == b.continuation.len() + b.bulk.len());
    if k < b.continuation.len() {
        assert(b.continuation[k].node_id.idx() == x);
    } else {
        assert(b.bulk[k - b.continuation.len()].node_id.idx() == x);
    }
}

/// Admission loses no task: but for the admitted task, a run still has the
/// task of every ready node.
pub proof fn law_admission_loses_nothing(
    m: RunModel,
    n: RunModel,
    config: TaskPoolConfig,
    blocking: bool,
    now: u64,
)
    requires
        m.queue.wf(),
        keeps_all_but(m, None),
        n == (RunModel {
            queue: coordinator::admitted(m.queue, m.graph, config, blocking, now).0,
            ..m
        }),
    ensures
        keeps_all_but(
            n,
            match coordinator::admitted(m.queue, m.graph, config, blocking, now).1 {
                Some(q) => Some(q.node_id.idx()),
                None => None,
            },
        ),
{
    let (queue, task) = coordinator::admitted(m.queue, m.graph, config, blocking, now);
    let hand = match task {
        Some(q) => Some(q.node_id.idx()),
        None => None,
    };
    assert forall|x: int|
        n.graph.has(x) && #[trigger] n.graph.state(x) is Ready && hand != Some(x) implies keeps(
        n,
        x,
    ) by {
        if queued(m.queue, x) {
            lemma_admitted(m.queue, m.graph, config, blocking, now, x);
        }
    }
}

/// A task that has been started, or was turned away, is no longer missing.
pub proof fn law_dispatch_loses_nothing(m: RunModel, n: RunModel, scheduled: ScheduledTask)
    requires
        keeps_all_but(m, Some(scheduled.node_id.idx())),
        m.graph.has(scheduled.node_id.idx()),
        ({
            let id = scheduled.node_id.idx();
            ||| n.queue == m.queue && n.backlog == m.backlog && n.graph == (GraphModel {
                nodes: m.graph.nodes.update(
                    id,
                    NodeModel { state: NodeState::Running, ..m.graph.nodes[id] },
                ),
                ..m.graph
            })
            ||| n.graph == m.graph && n.backlog == m.backlog && n.queue.continuation
                == seq![scheduled.queued()] + m.queue.continuation && n.queue.bulk == m.queue.bulk
        }),
    ensures
        keeps_all_but(n, None),
{
    let id = scheduled.node_id.idx();
    assert forall|x: int| n.graph.has(x) && #[trigger] n.graph.state(x) is Ready implies keeps(
        n,
        x,
    ) by {
        if x == id {
            assert(n.queue.continuation[0] == scheduled.queued());
            assert(queues(n.queue.continuation, x));
        } else {
            assert(m.graph.state(x) is Ready);
            if queues(m.queue.continuation, x) && n.queue.continuation != m.queue.continuation {
                let k = choose|k: int|
                    0 <= k < m.queue.continuation.len() && (
                    #[trigger] m.queue.continuation[k]).node_id.idx() == x;
                assert(n.queue.continuation[k + 1] == m.queue.continuation[k]);
                assert(queues(n.queue.continuation, x));
            }
        }
    }
}

/// A run that has begun has the task of every ready node.
pub proof fn law_begun_run_has_every_task(
    graph: GraphModel,
    progress: TaskProgress,
    run: RunModel,
)
    requires
        graph.valid(),
        forall|x: int| graph.has(x) ==> !(#[trigger] graph.state(x) is Ready),
        coordinator::began(graph, progress, run),
    ensures
        keeps_all_but(run, None),
{
    let ready = choose|ready: Seq<ReadyTask>| #[trigger] coordinator::starts(graph, ready, run);
    assert forall|x: int|
        run.graph.has(x) && #[trigger] run.graph.state(x) is Ready implies keeps(run, x) by {
        assert(!(graph.state(x) is Ready));
        assert(graph::node::newly_ready(graph, run.graph, x));
        assert(holds(ready, x));
        law_backlog_keeps_tasks(BacklogModel::empty(), ready, x);
    }
}

/// The end of a task loses no other: a run still has the task of every ready
/// node, and what has become ready is there too.
pub proof fn law_completion_loses_nothing(
    m: RunModel,
    n: RunModel,
    finish: TaskFinish,
    result: Result<Vec<ReadyTask>, GraphError>,
)
    requires
        m.graph.valid(),
        keeps_all_but(m, None),
        coordinator::completes(m, n, finish, result),
    ensures
        keeps_all_but(n, None),
{
    assert forall|x: int| n.graph.has(x) && #[trigger] n.graph.state(x) is Ready implies keeps(
        n,
        x,
    ) by {
        match result {
            Ok(ready) => {
                graph::laws::law_ready_tasks_are_handed_out(
                    m.graph,
                    n.graph,
                    finish.node_id,
                    finish.run,
                    ready,
                    x,
                );
                if m.graph.has(x) && m.graph.state(x) is Ready {
                    assert(keeps(m, x));
                } else {
                    assert(holds(ready@, x));
                }
                if backlogged(m.backlog, x) || holds(ready@, x) {
                    law_backlog_keeps_tasks(m.backlog, ready@, x);
                }
            },
            Err(_) => {
                assert(m.graph.state(x) is Ready);
            },
        }
    }
}

/// A run that is not at its end and in which nothing runs has a task to start:
/// it never waits for nothing.
pub proof fn law_idle_run_has_a_task(m: RunModel)
    requires
        m.graph.valid(),
        m.graph.started(),
        m.graph.open_nodes().len() > 0,
        forall|x: int| m.graph.has(x) ==> !(#[trigger] m.graph.state(x) is Running),
        keeps_all_but(m, None),
    ensures
        exists|x: int| #[trigger] keeps(m, x),
{
    graph::laws::law_never_stalls(m.graph);
    let x = choose|x: int|
        m.graph.has(x) && (#[trigger] m.graph.state(x) is Ready || m.graph.state(x) is Running);
    assert(keeps(m, x));
}

} // verus!
