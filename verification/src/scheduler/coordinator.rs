//! One run of a task graph, step by step.

use crate::error::{GraphError, Message};
use crate::event::{TaskOutcome, WorkerEvent};
use crate::graph::effect;
use crate::graph::exec::TaskGraph;
use crate::graph::expansion::TaskRun;
use crate::graph::install;
use crate::graph::model;
use crate::graph::model::{GraphModel, NodeModel, NodeState};
use crate::graph::node;
use crate::graph::node::{NodeId, ReadyTask};
use crate::scheduler::backlog;
use crate::scheduler::backlog::{BacklogModel, ReadyBacklog, RoutedTask, VolumeKeyCache};
use crate::scheduler::config::TaskPoolConfig;
use crate::scheduler::counts;
use crate::scheduler::laws;
use crate::scheduler::metrics;
use crate::scheduler::metrics::{SchedulerMetrics, TaskPoolMetrics, TimingSample};
use crate::scheduler::order::{QueueModel, QueuedTask};
use crate::scheduler::progress;
use crate::scheduler::progress::{ProgressUpdate, Shown, TaskProgress, TaskProgressReducer};
use crate::scheduler::queue::{ScheduledTask, SchedulerQueue};
use crate::scheduler::request::ResourceRequest;
use crate::scheduler::routes;
use crate::text;
use vstd::prelude::*;

verus! {

/// How often an idle run tries again to start a blocking task.
pub const MAX_IDLE_BLOCKING_DISPATCH_RETRIES: usize = 100;

/// How many reports are taken in at a time.
pub const MAX_WORKER_EVENTS_PER_TICK: usize = 256;

/// How many finished tasks are taken in at a time.
pub const MAX_TASK_FINISHES_PER_TICK: usize = 256;

/// A task that has come to its end. Times are in nanoseconds.
pub struct TaskFinish {
    pub node_id: NodeId,
    pub path: String,
    pub resources: ResourceRequest,
    pub queue_wait: u64,
    pub run_time: u64,
    pub run: TaskRun,
}

/// A run in the mathematical model.
#[verifier::ext_equal]
pub struct RunModel {
    pub graph: GraphModel,
    pub queue: QueueModel,
    pub backlog: BacklogModel,
    /// The finished tasks.
    pub samples: Seq<TimingSample>,
    /// What has been shown.
    pub shown: Shown,
    /// What became of files.
    pub outcomes: Seq<TaskOutcome>,
    /// How many tasks are running.
    pub in_flight: int,
    /// Whether the blocking pool has turned a task away in this round.
    pub busy: bool,
    /// How often an idle run has tried again.
    pub retries: int,
    /// How many reports came in this round.
    pub handled: int,
    /// When the first task was started.
    pub first_start: Option<u64>,
}

/// What a run does next.
pub enum Step {
    /// Every node has come to its end.
    Finished,
    /// Nothing runs: route this many released tasks.
    Route { limit: usize },
    /// Nothing runs and the blocking pool is full: try again a little later.
    Retry,
    /// The run cannot go on.
    Stop { message: Message },
    /// Take in finished tasks. If there is none, wait for one.
    Collect { wait: bool },
}

/// Whether a node is ready.
pub open spec fn is_ready(graph: GraphModel, id: NodeId) -> bool {
    graph.has(id.idx()) && graph.state(id.idx()) is Ready
}

/// A queue that has given back what a task took.
pub open spec fn queue_released(queue: QueueModel, resources: ResourceRequest) -> QueueModel {
    QueueModel { usage: queue.usage.released(resources), ..queue }
}

/// The queue without the next task to start, and that task. What is not ready
/// any more is dropped on the way.
pub open spec fn admitted(
    queue: QueueModel,
    graph: GraphModel,
    config: TaskPoolConfig,
    blocking: bool,
    now: u64,
) -> (QueueModel, Option<QueuedTask>)
    decreases queue.waiting().len(),
    when queue.wf()
    via admitted_ends
{
    let (after, task) = queue.popped(config, blocking, now);
    match task {
        Some(queued) => if is_ready(graph, queued.node_id) {
            (after, Some(queued))
        } else {
            admitted(queue_released(after, queued.resources), graph, config, blocking, now)
        },
        None => (after, None),
    }
}

#[via_fn]
proof fn admitted_ends(
    queue: QueueModel,
    graph: GraphModel,
    config: TaskPoolConfig,
    blocking: bool,
    now: u64,
) {
    laws::law_pop_conserves_tasks(queue, config, blocking, now);
}

/// The text for a blocking pool that stays full.
pub open spec fn full_pool_text(queue: QueueModel, config: TaskPoolConfig) -> Seq<char> {
    "compio blocking pool remained full with "@ + text::decimal(
        counts::capped(queue.waiting().len() as int) as nat,
    ) + " queued task(s); blocking_pool_limit="@ + text::decimal(config.blocking_pool_limit as nat)
        + " cpu_slots="@ + text::decimal(config.cpu_slots as nat) + " blocking_slots="@
        + text::decimal(config.blocking_slots as nat)
}

/// The text for a run in which nothing can start.
pub open spec fn deadlock_text(graph: GraphModel, queue: QueueModel) -> Seq<char> {
    "task graph admission deadlock: "@ + text::decimal(graph.open_nodes().len())
        + " unresolved node(s), "@ + text::decimal(
        counts::capped(queue.waiting().len() as int) as nat,
    ) + " queued, none in flight"@
}

/// What a run does next, and what it is then.
pub open spec fn steps(m: RunModel, n: RunModel, config: TaskPoolConfig, step: Step) -> bool {
    if m.graph.open_nodes().len() == 0 {
        n == m && step is Finished
    } else if m.in_flight > 0 {
        n == m && step == (Step::Collect { wait: m.handled < MAX_WORKER_EVENTS_PER_TICK })
    } else if m.backlog.len > 0 && config.ready_frontier > 0 {
        n == m && step == (Step::Route { limit: config.ready_frontier })
    } else if m.busy {
        let retries = counts::capped(m.retries + 1);
        &&& n == (RunModel { retries, ..m })
        &&& if retries > MAX_IDLE_BLOCKING_DISPATCH_RETRIES {
            step matches Step::Stop { message } && message.context@ == "Task pool error: "@
                && message.detail@ == full_pool_text(m.queue, config)
        } else {
            step is Retry
        }
    } else {
        &&& n == m
        &&& step matches Step::Stop { message } && message.context@ == "Task pool error: "@
            && message.detail@ == deadlock_text(m.graph, m.queue)
    }
}

/// The measured task.
pub open spec fn is_sample(sample: TimingSample, finish: TaskFinish) -> bool {
    &&& sample.queue_wait == finish.queue_wait
    &&& sample.run_time == finish.run_time
    &&& sample.estimated_bytes == finish.resources.estimated_bytes
    &&& sample.read_volumes@ == finish.resources.read_volumes@
    &&& sample.write_volumes@ == finish.resources.write_volumes@
    &&& sample.metadata_volumes@ == finish.resources.metadata_volumes@
}

/// Whether a report tells of the failure of a task that is to be reported.
pub open spec fn is_failure_report(finish: TaskFinish, event: Option<WorkerEvent>) -> bool {
    match finish.run {
        TaskRun::Failed { reason, report } => if report {
            event matches Some(WorkerEvent::Outcome { outcome: TaskOutcome::Failed { path, reason: r } })
                && path@ == finish.path@ && r@ == reason@
        } else {
            event is None
        },
        _ => event is None,
    }
}

/// What the end of a task does to a run.
pub open spec fn completes(
    m: RunModel,
    n: RunModel,
    finish: TaskFinish,
    result: Result<Vec<ReadyTask>, GraphError>,
) -> bool {
    &&& effect::run_effect(m.graph, n.graph, finish.node_id, finish.run, result)
    &&& n.backlog == (match result {
        Ok(ready) => m.backlog.extended(ready@),
        Err(_) => m.backlog,
    })
    &&& n.queue == queue_released(m.queue, finish.resources)
    &&& n.in_flight == counts::monus(m.in_flight, 1)
    &&& n.samples.len() == m.samples.len() + 1
    &&& n.samples.drop_last() == m.samples
    &&& is_sample(n.samples.last(), finish)
    &&& n.shown == m.shown
    &&& n.outcomes == m.outcomes
    &&& n.busy == m.busy
    &&& n.retries == m.retries
    &&& n.handled == m.handled
    &&& n.first_start == m.first_start
}

/// How long the first steps of a run took, in nanoseconds.
#[derive(Clone, Copy, PartialEq, Eq, Structural, Debug)]
pub struct StartTimes {
    pub initial_graph_time: u64,
    pub initial_routing_time: u64,
}

/// The metrics of a run that has ended.
pub open spec fn is_account(
    m: RunModel,
    times: StartTimes,
    config: TaskPoolConfig,
    asked: (u64, u64),
    metrics: TaskPoolMetrics,
) -> bool {
    &&& metrics::is_snapshot(m.samples, metrics)
    &&& model::is_summary(m.graph, metrics.graph)
    &&& metrics.initial_graph_time == times.initial_graph_time
    &&& metrics.initial_routing_time == times.initial_routing_time
    &&& metrics.first_task_start == (match m.first_start {
        Some(start) => start,
        None => 0,
    })
    &&& metrics.ready_frontier_limit == config.ready_frontier
    &&& metrics.ready_backlog_peak == m.backlog.peak
    &&& (metrics.volume_cache_hits, metrics.volume_cache_misses) == asked
}

/// What became of the files of a run, and how the run went.
pub struct TaskPoolResult {
    pub outcomes: Vec<TaskOutcome>,
    pub metrics: TaskPoolMetrics,
}

/// One run of a task graph.
pub struct GraphRun {
    graph: TaskGraph,
    queue: SchedulerQueue,
    backlog: ReadyBacklog,
    metrics: SchedulerMetrics,
    progress: TaskProgressReducer,
    outcomes: Vec<TaskOutcome>,
    in_flight: usize,
    busy: bool,
    retries: usize,
    handled: usize,
    first_start: Option<u64>,
}

impl View for GraphRun {
    type V = RunModel;

    closed spec fn view(&self) -> RunModel {
        RunModel {
            graph: self.graph@,
            queue: self.queue@,
            backlog: self.backlog@,
            samples: self.metrics.recorded(),
            shown: self.progress@,
            outcomes: self.outcomes@,
            in_flight: self.in_flight as int,
            busy: self.busy,
            retries: self.retries as int,
            handled: self.handled as int,
            first_start: self.first_start,
        }
    }
}

impl GraphRun {
    pub closed spec fn inv(&self) -> bool {
        &&& self.graph.inv()
        &&& self.queue.inv()
        &&& self.backlog@.wf()
    }

    /// What every run keeps includes that its graph, its queue and its backlog
    /// are in order.
    pub proof fn lemma_wf(&self)
        requires
            self.inv(),
        ensures
            self@.graph.valid(),
            self@.queue.wf(),
            self@.queue.usage.counted(),
            self@.backlog.wf(),
    {
        self.graph.lemma_valid();
        self.queue.lemma_wf();
    }

    /// Starts a graph: what depends on nothing is released. Says what is
    /// shown first.
    pub fn begin(graph: TaskGraph, progress: TaskProgress) -> (begun: (
        GraphRun,
        Vec<ProgressUpdate>,
    ))
        requires
            graph.inv(),
        ensures
            begun.0.inv(),
            began(graph@, progress, begun.0@),
            progress::updates(begun.1@) == Shown::opening(progress),
    {
        let mut graph = graph;
        let ghost before = graph@;
        let ready = graph.start();
        let mut backlog = ReadyBacklog::default();
        let ghost released = ready@;
        backlog.extend(ready);
        let (reducer, shown) = TaskProgressReducer::new(progress);
        let run = GraphRun {
            graph,
            queue: SchedulerQueue::default(),
            backlog,
            metrics: SchedulerMetrics::new(),
            progress: reducer,
            outcomes: Vec::new(),
            in_flight: 0,
            busy: false,
            retries: 0,
            handled: 0,
            first_start: None,
        };
        assert(starts(before, released, run@));
        (run, shown)
    }

    /// How many released tasks may be routed at the start of a round.
    pub fn frontier_room(&self, config: &TaskPoolConfig) -> (room: usize)
        ensures
            room == counts::monus(
                config.ready_frontier as int,
                counts::capped(
                    counts::capped(self@.queue.waiting().len() as int) + self@.in_flight,
                ),
            ),
    {
        backlog::frontier_room(
            config.ready_frontier_limit(),
            self.queue.queued_len(),
            self.in_flight,
        )
    }

    /// Takes released tasks out, at most so many, to be routed.
    pub fn take_window(&mut self, max_tasks: usize) -> (window: Vec<ReadyTask>)
        requires
            old(self).inv(),
        ensures
            final(self).inv(),
            window@ == old(self)@.backlog.window(max_tasks as nat).1,
            final(self)@ == (RunModel {
                backlog: old(self)@.backlog.window(max_tasks as nat).0,
                ..old(self)@
            }),
    {
        self.backlog.take_window(max_tasks)
    }

    /// Lets routed tasks wait for admission.
    pub fn route(&mut self, window: Vec<RoutedTask>, now: u64) -> (routed: usize)
        requires
            old(self).inv(),
            forall|i: int|
                0 <= i < window@.len() ==> routes::routable(
                    (#[trigger] window@[i]).ready.task,
                    window@[i].facts,
                ),
        ensures
            final(self).inv(),
            routed == window@.len(),
            backlog::are_enqueued(old(self)@.queue, final(self)@.queue, window@, now),
            final(self)@ == (RunModel { queue: final(self)@.queue, ..old(self)@ }),
    {
        backlog::route_ready_tasks(&mut self.queue, window, now)
    }

    /// Starts a round.
    pub fn begin_round(&mut self)
        requires
            old(self).inv(),
        ensures
            final(self).inv(),
            final(self)@ == (RunModel { busy: false, handled: 0, ..old(self)@ }),
    {
        self.busy = false;
        self.handled = 0;
    }

    /// Takes in a report. Says what changes on the display.
    pub fn record_worker_event(&mut self, event: WorkerEvent) -> (shown: Vec<ProgressUpdate>)
        requires
            old(self).inv(),
        ensures
            final(self).inv(),
            (final(self)@.shown, progress::updates(shown@)) == old(self)@.shown.step(event),
            final(self)@ == (RunModel {
                shown: final(self)@.shown,
                outcomes: match event {
                    WorkerEvent::Outcome { outcome } => old(self)@.outcomes.push(outcome),
                    _ => old(self)@.outcomes,
                },
                handled: counts::capped(old(self)@.handled + 1),
                ..old(self)@
            }),
    {
        let shown = self.progress.handle(&event);
        match event {
            WorkerEvent::Outcome { outcome } => {
                self.outcomes.push(outcome);
            },
            _ => {},
        }
        self.handled = self.handled.saturating_add(1);
        shown
    }

    /// Admits the next task to start, if there is one.
    pub fn next_task(&mut self, config: &TaskPoolConfig, now: u64) -> (scheduled: Option<ScheduledTask>)
        requires
            old(self).inv(),
        ensures
            final(self).inv(),
            ({
                let (queue, task) = admitted(
                    old(self)@.queue,
                    old(self)@.graph,
                    *config,
                    !old(self)@.busy,
                    now,
                );
                &&& final(self)@ == (RunModel { queue, ..old(self)@ })
                &&& match scheduled {
                    Some(inner) => task == Some(inner.queued()) && inner.started_at == now,
                    None => task is None,
                }
            }),
    {
        let blocking = !self.busy;
        loop
            invariant
                self.inv(),
                blocking == !self.busy,
                self@ == (RunModel { queue: self@.queue, ..old(self)@ }),
                admitted(self@.queue, self@.graph, *config, blocking, now) == admitted(
                    old(self)@.queue,
                    old(self)@.graph,
                    *config,
                    blocking,
                    now,
                ),
            decreases self@.queue.waiting().len(),
        {
            let ghost before = self@.queue;
            proof {
                self.queue.lemma_wf();
                laws::law_pop_conserves_tasks(before, *config, blocking, now);
            }
            match self.queue.pop_next(config, blocking, now) {
                Some(scheduled) => {
                    if self.graph.is_ready(scheduled.node_id) {
                        return Some(scheduled);
                    }
                    self.queue.release(&scheduled.resources);
                },
                None => {
                    return None;
                },
            }
        }
    }

    /// The admitted task has been started, at a time counted from the start of
    /// the run.
    pub fn submitted(&mut self, id: NodeId, now: u64) -> (result: Result<(), GraphError>)
        requires
            old(self).inv(),
        ensures
            final(self).inv(),
            match result {
                Ok(()) => is_ready(old(self)@.graph, id) && final(self)@ == (RunModel {
                    graph: GraphModel {
                        nodes: old(self)@.graph.nodes.update(
                            id.idx(),
                            NodeModel {
                                state: NodeState::Running,
                                ..old(self)@.graph.nodes[id.idx()]
                            },
                        ),
                        ..old(self)@.graph
                    },
                    in_flight: counts::capped(old(self)@.in_flight + 1),
                    first_start: match old(self)@.first_start {
                        Some(start) => Some(start),
                        None => Some(now),
                    },
                    retries: 0,
                    ..old(self)@
                }),
                Err(error) => !is_ready(old(self)@.graph, id) && final(self)@ == old(self)@
                    && error == (if old(self)@.graph.has(id.idx()) {
                    GraphError::InvalidStart {
                        node: id.idx() as usize,
                        state: old(self)@.graph.state(id.idx()),
                    }
                } else {
                    GraphError::UnknownNode { node: id.idx() as usize }
                }),
            },
    {
        match self.graph.mark_running(id) {
            Ok(()) => {
                self.in_flight = self.in_flight.saturating_add(1);
                if self.first_start.is_none() {
                    self.first_start = Some(now);
                }
                self.retries = 0;
                Ok(())
            },
            Err(error) => Err(error),
        }
    }

    /// The blocking pool has turned the admitted task away: it waits in front,
    /// and no other blocking task is tried in this round.
    pub fn turned_away(&mut self, scheduled: ScheduledTask)
        requires
            old(self).inv(),
        ensures
            final(self).inv(),
            final(self)@ == (RunModel {
                queue: QueueModel {
                    continuation: seq![scheduled.queued()] + old(self)@.queue.continuation,
                    usage: old(self)@.queue.usage.released(scheduled.resources),
                    ..old(self)@.queue
                },
                busy: true,
                ..old(self)@
            }),
    {
        self.queue.restore_front(scheduled);
        self.busy = true;
    }

    fn full_pool_message(&self, config: &TaskPoolConfig) -> (message: Message)
        ensures
            message.context@ == "Task pool error: "@,
            message.detail@ == full_pool_text(self@.queue, *config),
    {
        let mut detail = "compio blocking pool remained full with ".to_owned();
        text::push_size(&mut detail, self.queue.queued_len());
        text::push_text(&mut detail, " queued task(s); blocking_pool_limit=");
        text::push_size(&mut detail, config.blocking_pool_limit);
        text::push_text(&mut detail, " cpu_slots=");
        text::push_size(&mut detail, config.cpu_slots);
        text::push_text(&mut detail, " blocking_slots=");
        text::push_size(&mut detail, config.blocking_slots);
        Message::new("Task pool error: ", detail)
    }

    fn deadlock_message(&self) -> (message: Message)
        requires
            self.inv(),
        ensures
            message.context@ == "Task pool error: "@,
            message.detail@ == deadlock_text(self@.graph, self@.queue),
    {
        let mut detail = "task graph admission deadlock: ".to_owned();
        text::push_size(&mut detail, self.graph.unresolved_count());
        text::push_text(&mut detail, " unresolved node(s), ");
        text::push_size(&mut detail, self.queue.queued_len());
        text::push_text(&mut detail, " queued, none in flight");
        Message::new("Task pool error: ", detail)
    }

    /// What to do when no further task can be started in this round.
    pub fn next_step(&mut self, config: &TaskPoolConfig) -> (step: Step)
        requires
            old(self).inv(),
        ensures
            final(self).inv(),
            steps(old(self)@, final(self)@, *config, step),
    {
        if !self.graph.has_unresolved() {
            return Step::Finished;
        }
        if self.in_flight > 0 {
            return Step::Collect { wait: self.handled < MAX_WORKER_EVENTS_PER_TICK };
        }
        let limit = config.ready_frontier_limit();
        if !self.backlog.is_empty() && limit > 0 {
            return Step::Route { limit };
        }
        if self.busy {
            self.retries = self.retries.saturating_add(1);
            if self.retries > MAX_IDLE_BLOCKING_DISPATCH_RETRIES {
                return Step::Stop { message: self.full_pool_message(config) };
            }
            return Step::Retry;
        }
        Step::Stop { message: self.deadlock_message() }
    }

    /// Takes in a finished task. Says what is to be reported of it.
    pub fn complete_task(&mut self, finish: TaskFinish) -> (result: Result<
        Option<WorkerEvent>,
        GraphError,
    >)
        requires
            old(self).inv(),
            finish.run matches TaskRun::Expand { expansion, .. } ==> expansion.inv(),
        ensures
            final(self).inv(),
            match result {
                Ok(event) => is_failure_report(finish, event) && exists|ready: Vec<ReadyTask>| #[trigger]
                    completes(old(self)@, final(self)@, finish, Ok(ready)),
                Err(error) => completes(old(self)@, final(self)@, finish, Err(error)),
            },
    {
        let ghost full = finish;
        let TaskFinish { node_id, path, resources, queue_wait, run_time, run } = finish;
        self.in_flight = self.in_flight.saturating_sub(1);
        self.queue.release(&resources);
        self.metrics.record(queue_wait, run_time, &resources);
        let mut event: Option<WorkerEvent> = None;
        if let Some((reason, report)) = run.failure_details() {
            if report {
                event = Some(WorkerEvent::failed(path, reason.clone()));
            }
        }
        let result = self.graph.finish(node_id, run);
        let ghost outcome = result;
        match result {
            Ok(ready) => {
                self.backlog.extend(ready);
                assert(completes(old(self)@, self@, full, outcome));
                Ok(event)
            },
            Err(error) => {
                assert(completes(old(self)@, self@, full, outcome));
                Err(error)
            },
        }
    }

    /// Ends the run. Says what is shown last.
    pub fn finish(self, times: StartTimes, config: &TaskPoolConfig, volumes: &VolumeKeyCache) -> (ended: (
        TaskPoolResult,
        Vec<ProgressUpdate>,
    ))
        requires
            self.inv(),
        ensures
            ended.0.outcomes@ == self@.outcomes,
            is_account(self@, times, *config, volumes.asked(), ended.0.metrics),
            progress::updates(ended.1@) == self@.shown.closing(),
    {
        let shown = self.progress.finish();
        let mut metrics = self.metrics.snapshot();
        let ghost measured = metrics;
        metrics.graph = self.graph.summary();
        metrics.initial_graph_time = times.initial_graph_time;
        metrics.initial_routing_time = times.initial_routing_time;
        if let Some(start) = self.first_start {
            metrics.first_task_start = start;
        }
        metrics.ready_frontier_limit = config.ready_frontier_limit();
        metrics.ready_backlog_peak = self.backlog.peak_len();
        let (hits, misses) = volumes.stats();
        metrics.volume_cache_hits = hits;
        metrics.volume_cache_misses = misses;
        assert(metrics.volumes == measured.volumes);
        assert(metrics::is_snapshot(self@.samples, metrics));
        (TaskPoolResult { outcomes: self.outcomes, metrics }, shown)
    }
}

/// A run that has released a list of tasks and done nothing else.
pub open spec fn starts(graph: GraphModel, ready: Seq<ReadyTask>, run: RunModel) -> bool {
    &&& run.graph == install::activated(graph, 0)
    &&& run.graph.started()
    &&& node::releases(graph, run.graph, ready)
    &&& forall|j: int, k: int|
        0 <= j < k < ready.len() ==> (#[trigger] ready[j]).id.idx() < (
        #[trigger] ready[k]).id.idx()
    &&& run.backlog == BacklogModel::empty().extended(ready)
}

/// A run that has just begun.
pub open spec fn began(graph: GraphModel, progress: TaskProgress, run: RunModel) -> bool {
    &&& exists|ready: Seq<ReadyTask>| #[trigger] starts(graph, ready, run)
    &&& run.queue == QueueModel::empty()
    &&& run.samples.len() == 0
    &&& run.outcomes.len() == 0
    &&& run.shown == Shown::nothing(progress)
    &&& run.in_flight == 0
    &&& !run.busy
    &&& run.retries == 0
    &&& run.handled == 0
    &&& run.first_start is None
}

} // verus!
