use griffr_common::error::GraphError;
use griffr_common::event::{ProgressPhase, TaskOutcome, WorkerEvent};
use griffr_common::graph::builder::TaskGraphBuilder;
use griffr_common::graph::exec::TaskGraph;
use griffr_common::graph::expansion::{ExpansionNodeId, GraphExpansion, TaskRun};
use griffr_common::graph::model::NodeState;
use griffr_common::graph::node::{NodeId, TaskDependencyToken};
use griffr_common::path::FilePath;
use griffr_common::scheduler::backlog::{RoutedTask, VolumeKeyCache};
use griffr_common::scheduler::config::TaskPoolConfig;
use griffr_common::scheduler::coordinator::{GraphRun, StartTimes, Step, TaskFinish};
use griffr_common::scheduler::naming::task_path;
use griffr_common::scheduler::pool::{run_tasks, TaskPoolRunner};
use griffr_common::scheduler::progress::{
    ProgressLane, ProgressUpdate, TaskProgress, TaskProgressReducer,
};
use griffr_common::scheduler::routes::RouteFacts;
use griffr_common::task::Task;

fn path(text: &str) -> FilePath {
    FilePath::parse(text)
}

fn task(name: &str) -> Task {
    Task::Hardlink {
        src: FilePath::parse(&format!("{name}.src")),
        dest: FilePath::parse(name),
    }
}

fn drive(run: &mut GraphRun, config: &TaskPoolConfig, answer: &dyn Fn(&Task) -> TaskRun) -> Vec<String> {
    let mut done = Vec::new();
    loop {
        run.begin_round();
        let room = run.frontier_room(config);
        let mut window = Vec::new();
        for ready in run.take_window(room) {
            window.push(RoutedTask { ready, facts: RouteFacts::new() });
        }
        run.route(window, 0);
        let mut started = Vec::new();
        while let Some(scheduled) = run.next_task(config, 0) {
            run.submitted(scheduled.node_id, 7).unwrap();
            started.push(scheduled);
        }
        for scheduled in started {
            done.push(task_path(&scheduled.task));
            let finish = TaskFinish {
                node_id: scheduled.node_id,
                path: task_path(&scheduled.task),
                resources: scheduled.resources,
                queue_wait: 1,
                run_time: 2,
                run: answer(&scheduled.task),
            };
            if let Some(event) = run.complete_task(finish).unwrap() {
                run.record_worker_event(event);
            }
        }
        match run.next_step(config) {
            Step::Finished => return done,
            Step::Stop { .. } => unreachable!(),
            Step::Route { .. } | Step::Retry | Step::Collect { .. } => {}
        }
    }
}

#[test]
fn a_run_executes_every_task_once() {
    let config = TaskPoolConfig::default();
    let runner = TaskPoolRunner::new(TaskPoolConfig::default()).unwrap_or_else(|_| unreachable!());
    let (mut run, _) =
        runner.run_batch(vec![task("a"), task("b"), task("c")], TaskProgress::disabled());
    let mut done = drive(&mut run, &config, &|_| TaskRun::succeeded());
    done.sort();
    assert_eq!(done, vec!["a", "b", "c"]);
    let mut volumes = VolumeKeyCache::new();
    volumes.remember(&path("game/a"), "v".to_string());
    assert_eq!(volumes.lookup(&path("game/b")).as_deref(), Some("v"));
    let asked = volumes.stats();
    let times = StartTimes { initial_graph_time: 3, initial_routing_time: 4 };
    let (result, _) = run.finish(times, &config, &volumes);
    let metrics = &result.metrics;
    assert_eq!(metrics.graph.succeeded_nodes, 3);
    assert_eq!(metrics.finished_tasks, 3);
    assert_eq!((metrics.initial_graph_time, metrics.initial_routing_time), (3, 4));
    assert_eq!(metrics.first_task_start, 7);
    assert_eq!(metrics.ready_frontier_limit, config.ready_frontier);
    assert_eq!(metrics.ready_backlog_peak, 3);
    assert_eq!((metrics.volume_cache_hits, metrics.volume_cache_misses), asked);
    assert!(result.outcomes.is_empty());
}

#[test]
fn a_failed_task_is_reported_and_stops_what_waits_for_it() {
    let config = TaskPoolConfig::default();
    let mut builder = TaskGraphBuilder::new();
    let first = builder.add_root(task("first"));
    builder.add_task(task("second"), vec![first]).unwrap();
    let (mut run, _) = GraphRun::begin(builder.build(), TaskProgress::disabled());
    let done = drive(&mut run, &config, &|_| TaskRun::failed("boom".to_string()));
    assert_eq!(done, vec!["first"]);
    let times = StartTimes { initial_graph_time: 0, initial_routing_time: 0 };
    let (result, _) = run.finish(times, &config, &VolumeKeyCache::new());
    assert_eq!(result.metrics.graph.failed_nodes, 1);
    assert_eq!(result.metrics.graph.cancelled_nodes, 1);
    assert!(matches!(
        result.outcomes.as_slice(),
        [TaskOutcome::Failed { path, reason }] if path == "first" && reason == "boom"
    ));
}

#[test]
fn tasks_that_are_turned_away_wait_for_their_turn() {
    let config = TaskPoolConfig::default();
    let started = run_tasks(
        vec![Task::ApplyExtractedVfsPatchManifest { install_root: FilePath::parse("game") }],
        TaskPoolConfig::default(),
    )
    .unwrap_or_else(|_| unreachable!());
    let mut run = started.run;
    run.begin_round();
    let window = run
        .take_window(16)
        .into_iter()
        .map(|ready| RoutedTask { ready, facts: RouteFacts::new() })
        .collect();
    assert_eq!(run.route(window, 0), 1);
    let scheduled = run.next_task(&config, 0).unwrap();
    run.turned_away(scheduled);
    assert!(run.next_task(&config, 0).is_none());
    run.begin_round();
    assert!(run.next_task(&config, 0).is_some());
}

#[test]
fn graph_errors_say_what_is_wrong() {
    let mut builder = TaskGraphBuilder::new();
    let error = builder.add_task(task("a"), vec![NodeId::from_index(5)]).unwrap_err();
    assert!(matches!(error, GraphError::UnknownDependency { dependency: 5, .. }));
    let root = builder.add_root(task("root"));
    let mut graph = builder.build_checked().unwrap_or_else(|_| unreachable!());
    assert!(matches!(graph.mark_running(root), Err(GraphError::InvalidStart { .. })));
    let _ = graph.start();
    assert!(matches!(
        graph.mark_running(NodeId::from_index(9)),
        Err(GraphError::UnknownNode { node: 9 })
    ));
    assert!(matches!(
        graph.finish(root, TaskRun::succeeded()),
        Err(GraphError::NotRunning { .. })
    ));
    graph.mark_running(root).unwrap();
    let mut expansion = GraphExpansion::new();
    assert!(matches!(
        expansion.add_task(task("x"), vec![ExpansionNodeId(3)]),
        Err(GraphError::UnknownLocalDependency { .. })
    ));
    expansion.add_root_with_tokens(task("x"), vec![TaskDependencyToken(77)]).unwrap();
    assert!(matches!(
        graph.finish(root, TaskRun::expand(expansion)),
        Err(GraphError::UnboundToken { token: 77, .. })
    ));
    let message = GraphError::UnknownNode { node: 9 }.message().message();
    assert!(message.starts_with("Task pool error: "));
}

#[test]
fn tokens_are_bound_once() {
    let mut graph = TaskGraph::from_tasks(vec![task("a")]);
    let ready = graph.start();
    graph.mark_running(ready[0].id).unwrap();
    let mut expansion = GraphExpansion::new();
    expansion.add_root_bound(task("x"), TaskDependencyToken(1));
    expansion.add_root_bound(task("y"), TaskDependencyToken(1));
    assert!(matches!(
        graph.finish(ready[0].id, TaskRun::expand(expansion)),
        Err(GraphError::TokenBoundTwice { token: 1 })
    ));
}

#[test]
fn summaries_add_up() {
    let mut builder = TaskGraph::builder();
    let first = builder.add_root(task("a"));
    builder.add_root(task("b"));
    builder.add_task(task("c"), vec![first]).unwrap();
    let mut graph = builder.build();
    let _ = graph.start();
    graph.mark_running(first).unwrap();
    let summary = graph.summary();
    assert_eq!(summary.total_nodes, 3);
    assert_eq!(summary.running_nodes, 1);
    assert_eq!(summary.ready_nodes, 1);
    assert_eq!(summary.pending_nodes, 1);
    assert_eq!(graph.node_state(NodeId::from_index(3)), None);
    assert_eq!(graph.node_state(first), Some(NodeState::Running));
    assert_eq!(graph.unresolved_count(), 3);
    assert!(graph.has_unresolved());
}

fn lanes() -> TaskProgress {
    TaskProgress {
        verify: Some((ProgressLane(1), 2)),
        download: Some(ProgressLane(2)),
        extract: Some(ProgressLane(3)),
        commit: Some(ProgressLane(4)),
        patch: Some(ProgressLane(5)),
        delete: Some(ProgressLane(6)),
    }
}

fn is_started(update: &ProgressUpdate, wanted: u32) -> bool {
    matches!(update, ProgressUpdate::Started { lane, .. } if lane.0 == wanted)
}

#[test]
fn verified_files_are_counted_once() {
    let (mut reducer, opening) = TaskProgressReducer::new(lanes());
    assert!(opening.iter().any(|update| is_started(update, 1)));
    let verified = WorkerEvent::verified("a.bin".to_string(), true, None);
    let first = reducer.handle(&verified);
    assert!(matches!(
        first.as_slice(),
        [ProgressUpdate::Advanced { completed: 1, total: Some(2), .. }]
    ));
    assert!(reducer.handle(&verified).is_empty());
    let closing = reducer.finish();
    assert!(closing
        .iter()
        .any(|update| matches!(update, ProgressUpdate::Finished { lane } if lane.0 == 1)));
}

#[test]
fn byte_progress_is_summed_over_files() {
    let (mut reducer, _) = TaskProgressReducer::new(lanes());
    let step = |path: &str, completed: u64, reset: bool| {
        WorkerEvent::progress(ProgressPhase::Download, path.to_string(), completed, 10, reset)
    };
    let updates = reducer.handle(&step("a", 4, false));
    assert!(is_started(&updates[0], 2));
    let updates = reducer.handle(&step("b", 5, false));
    assert!(!updates.iter().any(|update| is_started(update, 2)));
    assert!(matches!(
        updates.last(),
        Some(ProgressUpdate::Advanced { completed: 9, total: Some(20), .. })
    ));
}
