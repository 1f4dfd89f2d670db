use griffr_common::graph::builder::TaskGraphBuilder;
use griffr_common::graph::expansion::{GraphExpansion, TaskRun};
use griffr_common::graph::model::NodeState;
use griffr_common::path::FilePath;
use griffr_common::task::Task;

fn task(name: &str) -> Task {
    Task::Hardlink {
        src: FilePath::parse(&format!("{name}.src")),
        dest: FilePath::parse(name),
    }
}

#[test]
fn graph_fan_in_releases_only_after_all_dependencies_succeed() {
    let mut builder = TaskGraphBuilder::new();
    let left = builder.add_root(task("left"));
    let right = builder.add_root(task("right"));
    let join = builder.add_task(task("join"), vec![left, right]).unwrap();
    let mut graph = builder.build_checked().unwrap();

    let ready = graph.start();
    assert_eq!(ready.len(), 2);
    graph.mark_running(left).unwrap();
    assert!(graph
        .finish(left, TaskRun::succeeded())
        .unwrap()
        .is_empty());
    assert_eq!(graph.node_state(join), Some(NodeState::Pending));

    graph.mark_running(right).unwrap();
    let ready = graph.finish(right, TaskRun::succeeded()).unwrap();
    assert_eq!(ready.len(), 1);
    assert_eq!(ready[0].id, join);
}

#[test]
fn graph_dynamic_expansion_keeps_parent_waiting_for_leaf() {
    let mut builder = TaskGraphBuilder::new();
    let parent = builder.add_root(task("parent"));
    let dependent = builder.add_task(task("dependent"), vec![parent]).unwrap();
    let mut graph = builder.build_checked().unwrap();
    let _ = graph.start();
    graph.mark_running(parent).unwrap();

    let ready = graph
        .finish(
            parent,
            TaskRun::expand(GraphExpansion::single(task("child"))),
        )
        .unwrap();
    assert_eq!(graph.node_state(parent), Some(NodeState::Waiting));
    assert_eq!(graph.node_state(dependent), Some(NodeState::Pending));
    assert_eq!(ready.len(), 1);

    let child = ready[0].id;
    graph.mark_running(child).unwrap();
    let ready = graph.finish(child, TaskRun::succeeded()).unwrap();
    assert_eq!(graph.node_state(parent), Some(NodeState::Succeeded));
    assert_eq!(ready.len(), 1);
    assert_eq!(ready[0].id, dependent);
}

#[test]
fn graph_failed_dependency_cancels_only_its_descendants() {
    let mut builder = TaskGraphBuilder::new();
    let failed_root = builder.add_root(task("failed-root"));
    let independent = builder.add_root(task("independent"));
    let dependent = builder.add_task(task("dependent"), vec![failed_root]).unwrap();
    let mut graph = builder.build_checked().unwrap();
    let _ = graph.start();
    graph.mark_running(failed_root).unwrap();
    graph
        .finish(failed_root, TaskRun::failed("boom".to_string()))
        .unwrap();

    assert_eq!(graph.node_state(dependent), Some(NodeState::Cancelled));
    assert_eq!(graph.node_state(independent), Some(NodeState::Ready));
}

#[test]
fn graph_duplicate_dependencies_are_collapsed() {
    let mut builder = TaskGraphBuilder::new();
    let root = builder.add_root(task("root"));
    let dependent = builder.add_task(task("dependent"), vec![root, root]).unwrap();
    let mut graph = builder.build_checked().unwrap();
    let _ = graph.start();
    graph.mark_running(root).unwrap();

    let ready = graph.finish(root, TaskRun::succeeded()).unwrap();
    assert_eq!(ready.len(), 1);
    assert_eq!(ready[0].id, dependent);
}

#[test]
fn graph_cooperative_cancellation_fails_the_waiting_parent_without_reporting_failure() {
    let mut builder = TaskGraphBuilder::new();
    let parent = builder.add_root(task("parent"));
    let dependent = builder.add_task(task("dependent"), vec![parent]).unwrap();
    let mut graph = builder.build_checked().unwrap();
    let _ = graph.start();
    graph.mark_running(parent).unwrap();

    let ready = graph
        .finish(
            parent,
            TaskRun::expand(GraphExpansion::single(task("child"))),
        )
        .unwrap();
    let child = ready[0].id;
    graph.mark_running(child).unwrap();
    graph.finish(child, TaskRun::cancelled()).unwrap();

    assert_eq!(graph.node_state(child), Some(NodeState::Cancelled));
    assert_eq!(graph.node_state(parent), Some(NodeState::Failed));
    assert_eq!(graph.node_state(dependent), Some(NodeState::Cancelled));
}

#[test]
fn expanded_nodes_follow_their_leaves() {
    let mut builder = TaskGraphBuilder::new();
    let parent = builder.add_root(task("parent"));
    let mut graph = builder.build_checked().unwrap();
    let _ = graph.start();
    graph.mark_running(parent).unwrap();
    let mut expansion = GraphExpansion::new();
    let _ = expansion.add_root(task("left"));
    let _ = expansion.add_root(task("right"));
    let ready = graph.finish(parent, TaskRun::expand(expansion)).unwrap();
    assert_eq!(ready.len(), 2);
    graph.mark_running(ready[0].id).unwrap();
    graph.finish(ready[0].id, TaskRun::succeeded()).unwrap();
    assert_eq!(graph.node_state(parent), Some(NodeState::Waiting));
    graph.mark_running(ready[1].id).unwrap();
    graph.finish(ready[1].id, TaskRun::failed("boom".to_string())).unwrap();
    assert_eq!(graph.node_state(parent), Some(NodeState::Failed));
}
