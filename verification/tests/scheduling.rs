use griffr_common::graph::builder::TaskGraphBuilder;
use griffr_common::graph::exec::TaskGraph;
use griffr_common::path::FilePath;
use griffr_common::patch::plan::{griffr_patch_path, PatchPlan, PATCH_DEFERRED_DIR, PATCH_STAGE_DIR};
use griffr_common::patch::steps::patch_prepare_commit_files;
use griffr_common::scheduler::backlog::{route_ready_tasks, ReadyBacklog, RoutedTask, VolumeKeyCache};
use griffr_common::scheduler::config::{
    validate_config, TaskPoolConfig, BLOCKING_POOL_INTERNAL_RESERVE,
};
use griffr_common::scheduler::metrics::{percentile, SchedulerMetrics};
use griffr_common::scheduler::naming::task_path;
use griffr_common::scheduler::pool::TaskPoolRunnerGroup;
use griffr_common::scheduler::probes::probed_paths;
use griffr_common::scheduler::queue::SchedulerQueue;
use griffr_common::scheduler::request::{
    NetworkClass, ResourceRequest, RunClass, StorageReservation, TaskPriority,
};
use griffr_common::scheduler::resources::mutation_paths_conflict;
use griffr_common::scheduler::route::{
    is_routable, route_archive_range_write, run_class, task_resources,
};
use griffr_common::scheduler::routes::{ManifestFacts, ManifestFile, RouteFacts};
use griffr_common::scheduler::routing::{normalize_volumes, path_key};
use griffr_common::task::{
    ArchiveRangeRequest, ByteRange, DownloadResumeState, FileDownload, FileRepair, Task,
    TransferClass,
};

fn path(text: &str) -> FilePath {
    FilePath::parse(text)
}

fn verify_task(file: FilePath) -> Task {
    Task::Verify {
        logical_path: file.text(),
        path: file,
        expected_md5: "00".repeat(16),
        expected_size: Some(1),
        on_fail: None,
    }
}

fn facts_on(volume: &str, files: &[&str]) -> RouteFacts {
    let mut facts = RouteFacts::new();
    for file in files {
        facts.disk.volumes.push((path(file), volume.to_string()));
    }
    facts
}

#[test]
fn ready_frontier_routes_only_the_requested_window() {
    let mut backlog = ReadyBacklog::default();
    let tasks = (0..300)
        .map(|index| verify_task(path("work").child(&format!("{index}.bin"))))
        .collect();
    let mut graph = TaskGraph::from_tasks(tasks);
    backlog.extend(graph.start());
    let mut queue = SchedulerQueue::default();
    let mut volumes = VolumeKeyCache::new();

    let mut window = Vec::new();
    for ready in backlog.take_window(256) {
        let mut facts = RouteFacts::new();
        if let Task::Verify { path, .. } = &ready.task {
            let key = match volumes.lookup(path) {
                Some(key) => key,
                None => {
                    volumes.remember(path, "device:1".to_string());
                    "device:1".to_string()
                }
            };
            facts.disk.volumes.push((path.copied(), key));
        }
        assert!(is_routable(&ready.task, &facts));
        window.push(RoutedTask { ready, facts });
    }
    let routed = route_ready_tasks(&mut queue, window, 0);

    assert_eq!(routed, 256);
    assert_eq!(queue.queued_len(), 256);
    assert_eq!(backlog.len(), 44);
    assert_eq!(volumes.stats(), (255, 1));
}

#[test]
fn ready_backlog_round_robins_run_classes() {
    let mut backlog = ReadyBacklog::default();
    let mut graph = TaskGraph::from_tasks(vec![
        verify_task(path("cpu.bin")),
        Task::ApplyExtractedVfsPatchManifest {
            install_root: path("blocking"),
        },
        Task::ApplyDeleteManifest {
            install_root: path("async"),
        },
    ]);
    backlog.extend(graph.start());

    assert_eq!(run_class(&backlog.pop().unwrap().task), RunClass::AsyncIo);
    assert_eq!(run_class(&backlog.pop().unwrap().task), RunClass::Cpu);
    assert_eq!(run_class(&backlog.pop().unwrap().task), RunClass::Blocking);
}

#[test]
fn runner_group_reuses_one_dispatcher() {
    let mut dispatcher_config = TaskPoolConfig::default();
    dispatcher_config.fit_blocking_pool_for_runners(2);
    let group = TaskPoolRunnerGroup::new(dispatcher_config).unwrap_or_else(|_| unreachable!());
    let runner_config = TaskPoolConfig::default();
    let first = group.runner(runner_config.clone()).unwrap_or_else(|_| unreachable!());
    let second = group.runner(runner_config).unwrap_or_else(|_| unreachable!());

    assert!(std::sync::Arc::ptr_eq(
        &first.dispatcher,
        &second.dispatcher
    ));
}

#[test]
fn runner_group_rejects_runner_larger_than_its_shared_pool() {
    let mut dispatcher_config = TaskPoolConfig {
        cpu_slots: 1,
        blocking_slots: 2,
        ..TaskPoolConfig::default()
    };
    dispatcher_config.fit_blocking_pool();
    let group = TaskPoolRunnerGroup::new(dispatcher_config).unwrap_or_else(|_| unreachable!());

    let runner_config = TaskPoolConfig {
        cpu_slots: 12,
        blocking_slots: 8,
        ..TaskPoolConfig::default()
    };
    assert!(group.runner(runner_config).is_err());
}

#[test]
fn blocking_pool_limit_reserves_compio_fallback_capacity() {
    let mut config = TaskPoolConfig::default();
    config.blocking_pool_limit = config
        .cpu_slots
        .saturating_add(config.blocking_slots)
        .saturating_add(BLOCKING_POOL_INTERNAL_RESERVE)
        .saturating_sub(1);

    let error = validate_config(&config).unwrap_err().message();
    assert!(error.contains("reserved compio fallback lanes"));
}

#[test]
fn fitted_pool_passes_the_check() {
    let mut config = TaskPoolConfig {
        cpu_slots: 7,
        blocking_slots: 9,
        blocking_pool_limit: 1,
        ..TaskPoolConfig::default()
    };
    assert!(validate_config(&config).is_err());
    config.fit_blocking_pool();
    assert!(validate_config(&config).is_ok());
}

#[test]
fn snapshot_reports_percentiles_and_volume_service_bytes() {
    let mut metrics = SchedulerMetrics::new();
    let resources = ResourceRequest {
        run: RunClass::Cpu,
        read_volumes: vec!["volume-a".to_string()],
        estimated_bytes: 1024,
        ..ResourceRequest::default()
    };
    metrics.record(10_000_000, 20_000_000, &resources);
    metrics.record(30_000_000, 40_000_000, &resources);

    let snapshot = metrics.snapshot();
    assert_eq!(snapshot.finished_tasks, 2);
    assert_eq!(snapshot.queue_wait_p50, 10_000_000);
    assert_eq!(snapshot.queue_wait_p95, 30_000_000);
    let volume = &snapshot.volumes[0];
    assert_eq!(volume.0, "volume-a");
    assert_eq!(volume.1.read_bytes, 2048);
}

#[test]
fn percentiles_are_of_the_sorted_samples() {
    let samples: Vec<u64> = vec![50, 10, 40, 20, 30];
    for (percent, value) in [(50, 30), (95, 50), (0, 10), (100, 50), (250, 50)] {
        let mut list = samples.clone();
        assert_eq!(percentile(&mut list, percent), value);
        assert_eq!(list, vec![10, 20, 30, 40, 50]);
    }
    assert_eq!(percentile(&mut Vec::new(), 50), 0);
}

#[test]
fn mutation_paths_reject_ancestor_conflicts() {
    assert!(mutation_paths_conflict(
        "c:/games",
        "c:/games/endfield/file.bin"
    ));
    assert!(mutation_paths_conflict("/", "/tmp/file.bin"));
    assert!(mutation_paths_conflict("c:/", "c:/games/file.bin"));
}

#[test]
fn mutation_paths_allow_sibling_files() {
    assert!(!mutation_paths_conflict(
        "c:/games/endfield/a.bin",
        "c:/games/endfield/b.bin"
    ));
    assert!(!mutation_paths_conflict("c:/games", "c:/games-old"));
}

#[test]
fn mutation_path_conflicts_go_both_ways() {
    assert!(mutation_paths_conflict("a/b", "a"));
    assert!(mutation_paths_conflict("a", "a/b"));
    assert!(mutation_paths_conflict("a", "a"));
}

#[test]
fn mutation_path_keys_preserve_case_on_case_sensitive_platforms() {
    assert_ne!(path_key(&path("Data")), path_key(&path("data")));
}

fn reuse_task(copy_only: bool) -> Task {
    Task::ReuseFile {
        source: path("volume-a/source.bin"),
        copy_only,
        remaining_source_candidates: Vec::new(),
        repair: FileRepair {
            dest: path("volume-a/dest.bin"),
            logical_path: "volume-a/dest.bin".to_string(),
            expected_md5: "00000000000000000000000000000000".to_string(),
            expected_size: 1,
            download_url: None,
            allow_copy_fallback: true,
            verify_destination_fallback: false,
            retry_count: 0,
            transfer_class: TransferClass::General,
            archive_repair: None,
        },
    }
}

fn reuse_facts() -> RouteFacts {
    facts_on("device:1", &["volume-a/source.bin", "volume-a/dest.bin"])
}

#[test]
fn hardlink_reuse_accounts_for_hashing_and_metadata_capacity() {
    let resources = task_resources(&reuse_task(false), &reuse_facts());
    assert_eq!(resources.read_volumes.len(), 1);
    assert!(resources.write_volumes.is_empty());
    assert_eq!(resources.metadata_volumes.len(), 1);
    assert!(resources.reuse_commit);
    assert_eq!(resources.estimated_bytes, 1);
    assert_eq!(resources.run, RunClass::Cpu);
}

#[test]
fn copy_reuse_preserves_same_volume_read_and_write_pressure() {
    let resources = task_resources(&reuse_task(true), &reuse_facts());
    assert_eq!(resources.read_volumes.len(), 1);
    assert_eq!(resources.write_volumes.len(), 1);
    assert_eq!(resources.read_volumes, resources.write_volumes);
    assert!(resources.metadata_volumes.is_empty());
    assert_eq!(resources.storage_reservations.len(), 1);
    assert_eq!(resources.storage_reservations[0].bytes, 1);
    assert!(!resources.reuse_commit);
    assert_eq!(resources.run, RunClass::AsyncIo);
}

#[test]
fn delete_manifest_uses_async_dispatcher_runtime() {
    let resources = task_resources(
        &Task::ApplyDeleteManifest {
            install_root: path("game"),
        },
        &RouteFacts::new(),
    );
    assert_eq!(resources.run, RunClass::AsyncIo);
}

#[test]
fn reuse_hardlink_uses_cpu_dispatcher_runtime() {
    let reuse = task_resources(&reuse_task(false), &reuse_facts());
    assert_eq!(reuse.run, RunClass::Cpu);
}

fn download(expected_size: u64, archive_repair: Option<u64>) -> FileDownload {
    FileDownload {
        url: "https://example.invalid/file.bin".to_string(),
        dest: path("game/file.bin"),
        logical_path: "file.bin".to_string(),
        expected_md5: "00".repeat(16),
        expected_size: Some(expected_size),
        retry_count: 0,
        transfer_class: TransferClass::General,
        archive_repair,
    }
}

#[test]
fn repair_route_waits_for_its_network_lane_before_source_selection() {
    let resources = task_resources(
        &Task::Download {
            download: download(4, Some(1)),
            resume: Some(DownloadResumeState::new(0)),
        },
        &RouteFacts::new(),
    );

    assert_eq!(resources.run, RunClass::AsyncIo);
    assert_eq!(resources.network, Some(NetworkClass::General));
    assert_eq!(resources.estimated_bytes, 4);
    assert_eq!(resources.storage_reservations.len(), 1);
    assert_eq!(resources.storage_reservations[0].bytes, 4);
}

#[test]
fn archive_range_reserves_only_the_partial_file_suffix() {
    let cache_path = path("cache/v0000-0-10.range");
    let part_path = cache_path.with_extension("range.part");
    let mut facts = RouteFacts::new();
    facts.disk.lengths.push((part_path, 4));
    let range = ArchiveRangeRequest {
        volume_index: 0,
        local_range: ByteRange { start: 0, end: 10 },
        global_range: ByteRange { start: 0, end: 10 },
        url: "https://example.invalid/archive.zip.001".to_string(),
        cache_path,
    };
    let mut resources = ResourceRequest::default();

    route_archive_range_write(&mut resources, &facts.disk, &range);
    normalize_volumes(&mut resources);

    assert_eq!(resources.storage_reservations.len(), 1);
    assert_eq!(resources.storage_reservations[0].bytes, 6);
    assert_eq!(resources.mutation_paths.len(), 2);
}

#[test]
fn resumed_download_reserves_only_the_missing_suffix() {
    let resources = task_resources(
        &Task::Download {
            download: download(10, None),
            resume: Some(DownloadResumeState::new(4)),
        },
        &RouteFacts::new(),
    );

    assert_eq!(resources.storage_reservations.len(), 1);
    assert_eq!(resources.storage_reservations[0].bytes, 6);
}

#[test]
fn simultaneous_reservations_on_one_volume_are_combined() {
    let mut resources = ResourceRequest {
        storage_reservations: vec![
            StorageReservation {
                volume: "volume-a".to_string(),
                probe_path: path("a.bin"),
                bytes: 4,
            },
            StorageReservation {
                volume: "volume-a".to_string(),
                probe_path: path("b.bin"),
                bytes: 6,
            },
        ],
        ..ResourceRequest::default()
    };

    normalize_volumes(&mut resources);

    assert_eq!(resources.storage_reservations.len(), 1);
    assert_eq!(resources.storage_reservations[0].bytes, 10);
}

#[test]
fn normal_requests_name_each_volume_once() {
    let mut resources = ResourceRequest {
        read_volumes: vec!["b".to_string(), "a".to_string(), "b".to_string()],
        mutation_paths: vec!["y".to_string(), "x".to_string(), "y".to_string()],
        ..ResourceRequest::default()
    };
    normalize_volumes(&mut resources);
    assert_eq!(resources.read_volumes, vec!["a", "b"]);
    assert_eq!(resources.mutation_paths, vec!["x", "y"]);
}

#[test]
fn patch_prepare_collects_top_level_and_deferred_files_only() {
    let install_root = path("install");
    let stage_root = path("stage");
    let plan = PatchPlan {
        schema_version: 1,
        install_root: install_root.copied(),
        stage_root: stage_root.copied(),
        vfs_base_path: path("Data/VFS"),
        vfs_destination: install_root.join(&path("Data/VFS")),
        work_dir: None,
        entries: Vec::new(),
        delete_paths: Vec::new(),
        deferred_paths: vec![path("config.ini")],
    };
    let staged = vec![
        (stage_root.child("config.ini"), 7),
        (stage_root.child("patch.json"), 2),
        (stage_root.child("top.bin"), 4),
        (stage_root.child(PATCH_STAGE_DIR).child("payload.bin"), 9),
    ];
    let files = patch_prepare_commit_files(&plan, &staged);

    assert_eq!(files.len(), 2);
    let bytes_of = |target: FilePath| {
        files
            .iter()
            .find(|file| file.target.same(&target))
            .map(|file| file.bytes)
    };
    assert_eq!(bytes_of(install_root.child("top.bin")), Some(4));
    assert_eq!(
        bytes_of(
            griffr_patch_path(&install_root)
                .child(PATCH_DEFERRED_DIR)
                .child("config.ini")
        ),
        Some(7)
    );
}

#[test]
fn legacy_vfs_patch_reserves_all_outputs_created_by_one_task() {
    let mut facts = RouteFacts::new();
    facts.manifest = Some(ManifestFacts {
        vfs_base_path: "Data/VFS".to_string(),
        files: vec![
            ManifestFile { name: "a.bin".to_string(), size: 4 },
            ManifestFile { name: "b.bin".to_string(), size: 9 },
        ],
    });

    let resources = task_resources(
        &Task::ApplyExtractedVfsPatchManifest { install_root: path("install") },
        &facts,
    );

    assert_eq!(resources.storage_reservations.len(), 1);
    assert_eq!(resources.storage_reservations[0].bytes, 13);
}

#[test]
fn tasks_are_routed_by_their_probed_paths_alone() {
    let texts = |task: &Task, facts: &RouteFacts| {
        probed_paths(task, facts).iter().map(|path| path.text()).collect::<Vec<_>>()
    };
    let reuse = reuse_task(true);
    let probed = texts(&reuse, &RouteFacts::new());
    assert_eq!(probed, vec!["volume-a/source.bin", "volume-a/dest.bin"]);
    let mut facts = reuse_facts();
    let before = task_resources(&reuse, &facts);
    facts.disk.volumes.push((path("elsewhere.bin"), "device:9".to_string()));
    facts.disk.lengths.push((path("elsewhere.bin"), 77));
    let after = task_resources(&reuse, &facts);
    assert_eq!(before.read_volumes, after.read_volumes);
    assert_eq!(before.write_volumes, after.write_volumes);
    assert_eq!(before.mutation_paths, after.mutation_paths);

    let mut facts = RouteFacts::new();
    facts.manifest = Some(ManifestFacts {
        vfs_base_path: " Data/VFS ".to_string(),
        files: vec![
            ManifestFile { name: "a.bin".to_string(), size: 4 },
            ManifestFile { name: "../b.bin".to_string(), size: 9 },
        ],
    });
    let task = Task::ApplyExtractedVfsPatchManifest { install_root: path("install") };
    let probed = texts(&task, &facts);
    assert_eq!(probed.len(), 4);
    assert_eq!(probed[0], "install");
    assert_eq!(probed[3], "install/Data/VFS/a.bin");
}

#[test]
fn tasks_are_named_by_what_they_change() {
    assert_eq!(task_path(&verify_task(path("a/b.bin"))), "a/b.bin");
    assert_eq!(
        task_path(&Task::Hardlink { src: path("x"), dest: path("y/z") }),
        "y/z"
    );
}

#[test]
fn bulk_work_is_served_after_a_burst_of_continuations() {
    let mut queue = SchedulerQueue::default();
    let config = TaskPoolConfig::default();
    let mut builder = TaskGraphBuilder::new();
    let mut ids = Vec::new();
    for _ in 0..6 {
        ids.push(builder.add_root(verify_task(path("x"))));
    }
    for id in &ids[..5] {
        queue.push(*id, verify_task(path("c")), ResourceRequest::default(), TaskPriority::Continuation, 0);
    }
    queue.push(ids[5], verify_task(path("b")), ResourceRequest::default(), TaskPriority::Bulk, 0);
    let mut order = Vec::new();
    while let Some(scheduled) = queue.pop_next(&config, true, 0) {
        order.push(scheduled.node_id.index());
        queue.release(&scheduled.resources);
    }
    assert_eq!(order, vec![0, 1, 2, 3, 5, 4]);
}

#[test]
fn a_backlog_hands_out_everything_once() {
    let mut builder = TaskGraphBuilder::new();
    for name in ["a", "b", "c"] {
        builder.add_root(verify_task(path(name)));
    }
    let mut backlog = ReadyBacklog::default();
    assert!(backlog.is_empty() && backlog.pop().is_none());
    let mut ready = builder.build().start();
    ready[2].continuation = true;
    backlog.extend(ready);
    assert_eq!(backlog.len(), 3);
    let mut order = Vec::new();
    while let Some(task) = backlog.pop() {
        order.push(task.id.index());
    }
    assert_eq!(order, vec![2, 0, 1]);
    assert!(backlog.is_empty());
    assert_eq!(backlog.peak_len(), 3);
}

#[test]
fn volumes_in_normal_form_stay_as_they_are() {
    let mut request = ResourceRequest {
        read_volumes: vec!["b".to_string(), "a".to_string(), "b".to_string()],
        write_volumes: vec!["a".to_string()],
        ..ResourceRequest::default()
    };
    normalize_volumes(&mut request);
    let reads = request.read_volumes.clone();
    let writes = request.write_volumes.clone();
    normalize_volumes(&mut request);
    assert_eq!(request.read_volumes, reads);
    assert_eq!(request.write_volumes, writes);
}

#[test]
fn released_resources_can_be_taken_again() {
    let mut queue = SchedulerQueue::default();
    let config = TaskPoolConfig::default();
    let changes = || ResourceRequest {
        mutation_paths: vec!["game/file.bin".to_string()],
        ..ResourceRequest::default()
    };
    let mut builder = TaskGraphBuilder::new();
    let first = builder.add_root(verify_task(path("x")));
    let second = builder.add_root(verify_task(path("x")));
    queue.push(first, verify_task(path("x")), changes(), TaskPriority::Bulk, 0);
    queue.push(second, verify_task(path("x")), changes(), TaskPriority::Bulk, 0);

    let running = queue.pop_next(&config, true, 0).unwrap();
    assert!(queue.pop_next(&config, true, 0).is_none());
    queue.release(&running.resources);
    assert!(queue.pop_next(&config, true, 0).is_some());
}
