//! Runners, and what they share.

use crate::error::Message;
use crate::graph::exec::TaskGraph;
use crate::graph::expansion;
use crate::graph::install;
use crate::graph::model::MAX_NODES;
use crate::scheduler::config::{validate_config, TaskPoolConfig};
use crate::scheduler::coordinator;
use crate::scheduler::coordinator::GraphRun;
use crate::scheduler::progress;
use crate::scheduler::progress::{ProgressUpdate, Shown, TaskProgress};
use crate::task::Task;
use std::sync::Arc;
use vstd::prelude::*;

verus! {

/// The worker threads and the blocking pool of a dispatcher.
pub struct DispatcherPlan {
    pub worker_threads: usize,
    pub blocking_pool_limit: usize,
}

fn plan_dispatcher(config: &TaskPoolConfig) -> (dispatcher: Arc<DispatcherPlan>)
    ensures
        dispatcher.worker_threads == config.dispatcher_threads,
        dispatcher.blocking_pool_limit == config.blocking_pool_limit,
{
    Arc::new(
        DispatcherPlan {
            worker_threads: config.dispatcher_threads,
            blocking_pool_limit: config.blocking_pool_limit,
        },
    )
}

/// Runs task graphs under the limits of a configuration.
pub struct TaskPoolRunner {
    pub config: TaskPoolConfig,
    pub dispatcher: Arc<DispatcherPlan>,
}

/// A dispatcher that several runners share.
pub struct TaskPoolRunnerGroup {
    pub dispatcher: Arc<DispatcherPlan>,
    pub dispatcher_threads: usize,
    pub blocking_pool_limit: usize,
}

/// Whether an error says what is wrong with a configuration.
pub open spec fn refuses(config: TaskPoolConfig, message: Message) -> bool {
    message.context@ == "Task pool error: "@ && config.fault() == Some(message.detail@)
}

fn runner_with_dispatcher(config: TaskPoolConfig, dispatcher: Arc<DispatcherPlan>) -> (result:
    Result<TaskPoolRunner, Message>)
    ensures
        match result {
            Ok(runner) => config.fault() is None && runner == (TaskPoolRunner {
                config,
                dispatcher,
            }),
            Err(message) => refuses(config, message),
        },
{
    match validate_config(&config) {
        Ok(()) => Ok(TaskPoolRunner { config, dispatcher }),
        Err(message) => Err(message),
    }
}

impl TaskPoolRunnerGroup {
    /// The configuration of a runner of this group: it gets the group's
    /// threads and blocking pool.
    pub open spec fn shared(&self, config: TaskPoolConfig) -> TaskPoolConfig {
        TaskPoolConfig {
            dispatcher_threads: self.dispatcher_threads,
            blocking_pool_limit: self.blocking_pool_limit,
            ..config
        }
    }

    pub fn new(config: TaskPoolConfig) -> (result: Result<TaskPoolRunnerGroup, Message>)
        ensures
            match result {
                Ok(group) => config.fault() is None && group.dispatcher_threads
                    == config.dispatcher_threads && group.blocking_pool_limit
                    == config.blocking_pool_limit && group.dispatcher.worker_threads
                    == config.dispatcher_threads && group.dispatcher.blocking_pool_limit
                    == config.blocking_pool_limit,
                Err(message) => refuses(config, message),
            },
    {
        match validate_config(&config) {
            Ok(()) => Ok(
                TaskPoolRunnerGroup {
                    dispatcher: plan_dispatcher(&config),
                    dispatcher_threads: config.dispatcher_threads,
                    blocking_pool_limit: config.blocking_pool_limit,
                },
            ),
            Err(message) => Err(message),
        }
    }

    /// A runner on the shared dispatcher. One that needs more than the shared
    /// pool holds is refused.
    pub fn runner(&self, config: TaskPoolConfig) -> (result: Result<TaskPoolRunner, Message>)
        ensures
            match result {
                Ok(runner) => self.shared(config).fault() is None && runner == (TaskPoolRunner {
                    config: self.shared(config),
                    dispatcher: self.dispatcher,
                }),
                Err(message) => refuses(self.shared(config), message),
            },
    {
        let mut config = config;
        config.dispatcher_threads = self.dispatcher_threads;
        config.blocking_pool_limit = self.blocking_pool_limit;
        runner_with_dispatcher(config, self.dispatcher.clone())
    }
}

impl TaskPoolRunner {
    /// A runner with a dispatcher of its own.
    pub fn new(config: TaskPoolConfig) -> (result: Result<TaskPoolRunner, Message>)
        ensures
            match result {
                Ok(runner) => config.fault() is None && runner.config == config
                    && runner.dispatcher.worker_threads == config.dispatcher_threads
                    && runner.dispatcher.blocking_pool_limit == config.blocking_pool_limit,
                Err(message) => refuses(config, message),
            },
    {
        match validate_config(&config) {
            Ok(()) => {
                let dispatcher = plan_dispatcher(&config);
                runner_with_dispatcher(config, dispatcher)
            },
            Err(message) => Err(message),
        }
    }

    /// Begins the run of tasks that do not depend on each other. Says what is
    /// shown first.
    pub fn run_batch(&self, root_tasks: Vec<Task>, progress: TaskProgress) -> (begun: (
        GraphRun,
        Vec<ProgressUpdate>,
    ))
        requires
            root_tasks@.len() <= MAX_NODES,
        ensures
            begun.0.inv(),
            coordinator::began(batch(root_tasks@), progress, begun.0@),
            progress::updates(begun.1@) == Shown::opening(progress),
    {
        self.run_graph(TaskGraph::from_tasks(root_tasks), progress)
    }

    /// Begins the run of a graph. Says what is shown first.
    pub fn run_graph(&self, graph: TaskGraph, progress: TaskProgress) -> (begun: (
        GraphRun,
        Vec<ProgressUpdate>,
    ))
        requires
            graph.inv(),
        ensures
            begun.0.inv(),
            coordinator::began(graph@, progress, begun.0@),
            progress::updates(begun.1@) == Shown::opening(progress),
    {
        GraphRun::begin(graph, progress)
    }
}

/// The graph of tasks that do not depend on each other.
pub open spec fn batch(tasks: Seq<Task>) -> crate::graph::model::GraphModel {
    install::built(tasks.map_values(|task: Task| expansion::plain_node(task)))
}

/// A run that has begun, with the runner that carries it.
pub struct StartedRun {
    pub runner: TaskPoolRunner,
    pub run: GraphRun,
    /// What is shown first.
    pub updates: Vec<ProgressUpdate>,
}

/// Whether a graph has been started under a configuration, or the
/// configuration refused.
pub open spec fn is_started(
    graph: crate::graph::model::GraphModel,
    config: TaskPoolConfig,
    progress: TaskProgress,
    result: Result<StartedRun, Message>,
) -> bool {
    match result {
        Ok(started) => {
            &&& config.fault() is None
            &&& started.runner.config == config
            &&& started.runner.dispatcher.worker_threads == config.dispatcher_threads
            &&& started.runner.dispatcher.blocking_pool_limit == config.blocking_pool_limit
            &&& started.run.inv()
            &&& coordinator::began(graph, progress, started.run@)
            &&& progress::updates(started.updates@) == Shown::opening(progress)
        },
        Err(message) => refuses(config, message),
    }
}

/// Begins the run of a graph on a runner of its own, with a display.
pub fn run_task_graph_with_progress(
    graph: TaskGraph,
    config: TaskPoolConfig,
    progress: TaskProgress,
) -> (result: Result<StartedRun, Message>)
    requires
        graph.inv(),
    ensures
        is_started(graph@, config, progress, result),
{
    match TaskPoolRunner::new(config) {
        Ok(runner) => {
            let (run, updates) = runner.run_graph(graph, progress);
            Ok(StartedRun { runner, run, updates })
        },
        Err(message) => Err(message),
    }
}

/// Begins the run of a graph on a runner of its own, without a display.
pub fn run_task_graph(graph: TaskGraph, config: TaskPoolConfig) -> (result: Result<
    StartedRun,
    Message,
>)
    requires
        graph.inv(),
    ensures
        is_started(graph@, config, progress::no_display(), result),
{
    run_task_graph_with_progress(graph, config, TaskProgress::disabled())
}

/// Begins the run of tasks that do not depend on each other, with a display.
pub fn run_tasks_with_progress(
    root_tasks: Vec<Task>,
    config: TaskPoolConfig,
    progress: TaskProgress,
) -> (result: Result<StartedRun, Message>)
    requires
        root_tasks@.len() <= MAX_NODES,
    ensures
        is_started(batch(root_tasks@), config, progress, result),
{
    run_task_graph_with_progress(TaskGraph::from_tasks(root_tasks), config, progress)
}

/// Begins the run of tasks that do not depend on each other, without a
/// display.
pub fn run_tasks(root_tasks: Vec<Task>, config: TaskPoolConfig) -> (result: Result<
    StartedRun,
    Message,
>)
    requires
        root_tasks@.len() <= MAX_NODES,
    ensures
        is_started(batch(root_tasks@), config, progress::no_display(), result),
{
    run_tasks_with_progress(root_tasks, config, TaskProgress::disabled())
}

} // verus!
