use std::sync::Arc;

use griffr_common::archive::entries::{patch_archive_entry_groups, selected_entry_bytes};
use griffr_common::archive::extract::PlannedShard;
use griffr_common::archive::fetch::run_read_archive_index;
use griffr_common::archive::finish::{
    probe_patch, run_clean_patch_apply, run_finish_archive, PatchProbe,
};
use griffr_common::archive::planning::{
    begin_archive_extraction, control_sizes_known, patch_staging_dir, run_plan_archive_extraction, run_save_patch_plan,
    save_patch_plan, staging_work_dir, EntrySelection, ExtractionStep, PatchPlanned, Planned,
    SaveStep,
};
use griffr_common::archive::staged::{
    plan_staged_extraction, PatchProbes, StagedArchive, StagedShard, StagedTask,
};
use griffr_common::archive::work::{prepare_remote_archive_work, ArchiveSettings};
use griffr_common::event::{ArchiveCheckReport, ProgressPhase, TaskOutcome, WorkerEvent};
use griffr_common::graph::expansion::TaskRun;
use griffr_common::patch::plan::{
    PatchPlan, PlannedPatchEntry, PlannedPatchSource, PATCH_MANIFEST_NAME,
};
use griffr_common::path::FilePath;
use griffr_common::task::{
    ArchiveIndex, ArchivePart, ArchiveRetention, ArchiveWork, PreparedArchive,
};

fn path(text: &str) -> FilePath {
    FilePath::parse(text)
}

fn work(work_dir: Option<FilePath>, excluded: Vec<String>) -> Arc<ArchiveWork> {
    let parts = vec![ArchivePart {
        sequence: 1,
        url: "https://example.invalid/bundle.zip.001".to_string(),
        dest: path("/archives/bundle.zip.001"),
        logical_path: "bundle.zip.001".to_string(),
        expected_md5: "a".to_string(),
        expected_size: 1,
    }];
    let settings = ArchiveSettings {
        dest: path("/install"),
        retention: ArchiveRetention::DiscardVolumes,
        password: None,
        work_dir,
        expected_files: Arc::new(Vec::new()),
        excluded_commit_paths: excluded,
    };
    Arc::new(
        prepare_remote_archive_work("bundle".to_string(), parts, settings)
            .unwrap_or_else(|_| unreachable!()),
    )
}

fn index(names: &[&str], control_indices: Vec<usize>, has_patch_manifest: bool) -> ArchiveIndex {
    ArchiveIndex {
        names: names.iter().map(|name| name.to_string()).collect(),
        entry_sizes: (1..=names.len() as u64).collect(),
        control_indices,
        has_patch_manifest,
    }
}

fn shard(entries: Vec<usize>, direct: bool) -> PlannedShard {
    PlannedShard { entries, volume_indices: vec![0], estimated_cost: 1, direct, requests: vec![] }
}

fn patch_plan() -> PatchPlan {
    PatchPlan {
        schema_version: 1,
        install_root: path("/install"),
        stage_root: path("/stage"),
        vfs_base_path: path("vfs"),
        vfs_destination: path("/install/vfs"),
        work_dir: None,
        entries: vec![PlannedPatchEntry {
            name: "a.bin".to_string(),
            destination: path("/install/vfs/a.bin"),
            expected_md5: "a".to_string(),
            expected_size: 1,
            source: PlannedPatchSource::Local { payload: path("vfs_files/Used.bin") },
        }],
        delete_paths: Vec::new(),
        deferred_paths: vec![path("Late.bin")],
    }
}

fn patch_names() -> Vec<&'static str> {
    vec!["dir/", "vfs_files/used.bin", "vfs_files/unused.bin", "late.bin", "plain.bin", "out.bin"]
}

#[test]
fn control_files_are_committed_after_every_payload() {
    let archive = work(None, vec!["skipped.bin".to_string()]);
    let names = ["a.bin", "dir/", "delete_files.txt", "Skipped.bin", "b.bin"];
    let index = Arc::new(index(&names, vec![2], false));
    let (step, prepared) = begin_archive_extraction(&archive, &index, path("/staging"), 4);
    assert_eq!(prepared.staging_dir.text(), "/staging");
    assert_eq!(
        prepared.deferred_commit_paths.iter().map(|path| path.text()).collect::<Vec<_>>(),
        vec!["delete_files.txt".to_string()]
    );
    let ExtractionStep::Split { selection } = step else { unreachable!() };
    assert_eq!((selection.direct.clone(), selection.direct_shards), (vec![0, 4], 4));
    assert_eq!((selection.staged.clone(), selection.staged_shards), (vec![2], 1));
    assert_eq!(selection.total_extract_bytes, 1 + 5 + 3);
    assert_eq!(selected_entry_bytes(&index, &vec![0, 4], &vec![2]), 9);

    let split = Ok(vec![shard(vec![0, 4], true), shard(vec![2], false)]);
    let planned = Planned::Shards { selection, split };
    let end = run_plan_archive_extraction(archive, index, path("/staging"), planned);
    assert!(!end.cleanup);
    assert!(matches!(
        end.events.as_slice(),
        [
            WorkerEvent::Progress { phase: ProgressPhase::Commit, total: 2, .. },
            WorkerEvent::Progress { phase: ProgressPhase::Extract, total: 9, .. },
        ]
    ));
    match end.run {
        TaskRun::Expand { expansion, next: None } => assert_eq!(expansion.len(), 3),
        _ => unreachable!(),
    }
}

#[test]
fn archives_with_a_bad_entry_are_not_extracted() {
    let archive = work(None, Vec::new());
    let bad = Arc::new(index(&["a.bin", "../b.bin"], vec![], false));
    let (step, prepared) = begin_archive_extraction(&archive, &bad, path("/staging"), 4);
    assert!(prepared.deferred_commit_paths.is_empty());
    let ExtractionStep::Fail { reason } = step else { unreachable!() };
    assert!(reason.starts_with("Invalid path: Archive entry"));
    let planned = Planned::Refused { reason: reason.clone() };
    let end = run_plan_archive_extraction(archive, bad, path("/staging"), planned);
    assert!(end.cleanup && end.events.is_empty());
    assert_eq!(end.run.failure_details(), Some((&reason, true)));
}

#[test]
fn names_without_a_size_do_not_stop_an_extraction() {
    let archive = work(None, Vec::new());
    let mut more = index(&["a.bin", "delete_files.txt", "b.bin"], vec![1], false);
    more.entry_sizes.truncate(2);
    assert!(control_sizes_known(&archive, &more));
    let (step, _) = begin_archive_extraction(&archive, &more, path("/staging"), 4);
    let ExtractionStep::Split { selection } = step else { unreachable!() };
    assert_eq!((selection.direct, selection.staged), (vec![0], vec![1]));
    assert_eq!(selection.total_extract_bytes, 1 + 2);

    more.control_indices = vec![2];
    assert!(!control_sizes_known(&archive, &more));
    more.control_indices = vec![2, 9];
    assert!(control_sizes_known(&archive, &more));
    let (step, _) = begin_archive_extraction(&archive, &more, path("/staging"), 4);
    let ExtractionStep::Fail { reason } = step else { unreachable!() };
    assert!(reason.contains("ZIP parser has no name for control entry 9"));
}

#[test]
fn patches_are_probed_before_they_are_extracted() {
    let archive = work(Some(path("/scratch")), Vec::new());
    let plain = index(&["a.bin"], vec![], false);
    assert!(staging_work_dir(&archive, &plain).is_none());
    let index = Arc::new(index(&[PATCH_MANIFEST_NAME], vec![0], true));
    let dir = staging_work_dir(&archive, &index).map(|dir| dir.text());
    assert_eq!(dir, Some("/scratch".to_string()));
    let (step, prepared) = begin_archive_extraction(&archive, &index, path("/staging"), 4);
    assert!(matches!(step, ExtractionStep::Probe));
    assert!(prepared.deferred_commit_paths.is_empty());
    let probes = || vec![PatchProbe { path: Some(path("/install/a.bin")), size: 1 }];
    let found = Ok((probes(), Some(path("/install/vfs"))));
    let end = run_plan_archive_extraction(
        archive.clone(),
        index.clone(),
        path("/staging"),
        Planned::Probes { found },
    );
    match end.run {
        TaskRun::Expand { expansion, next: None } => assert_eq!(expansion.len(), 3),
        _ => unreachable!(),
    }
    assert_eq!(probe_patch(archive.clone(), index.clone(), probes(), None).len(), 2);
    let found = Err("unreadable".to_string());
    let end = run_plan_archive_extraction(
        archive,
        index,
        path("/staging"),
        Planned::Probes { found },
    );
    assert!(end.cleanup && matches!(end.run, TaskRun::Failed { report: true, .. }));
}

#[test]
fn unused_payloads_are_not_extracted() {
    let archive = work(None, vec!["out.bin".to_string()]);
    let index = Arc::new(index(&patch_names(), vec![], true));
    let groups = patch_archive_entry_groups(&archive, &index, &patch_plan())
        .unwrap_or_else(|_| unreachable!());
    assert_eq!(groups, (vec![4], vec![1, 3]));

    let mut prepared = Some(PreparedArchive {
        staging_dir: path("/staging"),
        deferred_commit_paths: Vec::new(),
        patch_plan: None,
    });
    let dir = patch_staging_dir(&prepared).unwrap_or_else(|_| unreachable!());
    assert_eq!(dir.text(), "/staging");
    let plan = Arc::new(patch_plan());
    let step = save_patch_plan(&archive, &index, &mut prepared, plan.clone(), 3);
    assert!(prepared.as_ref().is_some_and(|state| state.patch_plan.is_some()));
    let SaveStep::Split { selection } = step else { unreachable!() };
    let EntrySelection { direct_shards, staged_shards, total_extract_bytes, .. } = &selection;
    assert_eq!((*direct_shards, *staged_shards, *total_extract_bytes), (3, 3, 5 + 2 + 4));
    let report = || ArchiveCheckReport { details: "1 entry".to_string() };
    let planned = PatchPlanned::Shards {
        report: report(),
        selection,
        split: Err("no layout".to_string()),
    };
    let end = run_save_patch_plan(archive.clone(), index.clone(), path("/staging"), planned);
    assert!(!end.cleanup);
    assert_eq!(end.events.len(), 3);
    assert!(is_check(&end.events[0]));
    assert_eq!(end.run.failure_details(), Some((&"no layout".to_string(), true)));

    assert_eq!(
        patch_staging_dir(&None).err(),
        Some("patch plan finish started without archive staging state".to_string())
    );
    let step = save_patch_plan(&archive, &index, &mut None, plan, 3);
    let SaveStep::Lost { reason } = step else { unreachable!() };
    assert_eq!(reason, "archive staging state disappeared while finishing the patch plan");
    let planned = PatchPlanned::Lost { reason };
    let end = run_save_patch_plan(archive.clone(), index.clone(), path("/staging"), planned);
    assert!(end.events.is_empty() && matches!(end.run, TaskRun::Failed { .. }));

    let planned = PatchPlanned::Refused { report: report(), reason: "bad entry".to_string() };
    let end = run_save_patch_plan(archive, index, path("/staging"), planned);
    assert!(is_check(&end.events[0]) && matches!(end.run, TaskRun::Failed { .. }));
}

fn is_check(event: &WorkerEvent) -> bool {
    matches!(
        event,
        WorkerEvent::Outcome { outcome: TaskOutcome::ArchiveCheck { report, .. } }
            if report.details == "1 entry"
    )
}

#[test]
fn archives_end_with_their_patch_or_their_control_files() {
    let archive = work(None, Vec::new());
    let run = run_finish_archive(archive.clone(), &None, Ok(()));
    assert_eq!(
        run.failure_details().map(|found| found.0.clone()),
        Some("archive finish started without prepared state".to_string())
    );
    let state = |patch_plan| {
        Some(PreparedArchive {
            staging_dir: path("/staging"),
            deferred_commit_paths: Vec::new(),
            patch_plan,
        })
    };
    match run_finish_archive(archive.clone(), &state(None), Ok(())) {
        TaskRun::Expand { expansion, .. } => assert_eq!(expansion.len(), 2),
        _ => unreachable!(),
    }
    let patch = Some(Arc::new(patch_plan()));
    match run_finish_archive(archive.clone(), &state(patch), Err("unused".to_string())) {
        TaskRun::Expand { expansion, .. } => assert!(expansion.len() > 2),
        _ => unreachable!(),
    }
    match run_clean_patch_apply(archive.clone(), Ok(())) {
        TaskRun::Expand { expansion, .. } => assert_eq!(expansion.len(), 1),
        _ => unreachable!(),
    }
    let run = run_clean_patch_apply(archive, Err("busy".to_string()));
    assert_eq!(run.failure_details(), Some((&"busy".to_string(), true)));
}

#[test]
fn an_index_that_cannot_be_read_fails_the_archive() {
    let archive = work(None, Vec::new());
    let read = Err("bad table".to_string());
    let end = run_read_archive_index(archive.clone(), false, read, Ok(Vec::new()), Vec::new());
    assert!(end.drop_ranges);
    assert_eq!(end.run.failure_details(), Some((&"bad table".to_string(), true)));
    let read = Ok(Arc::new(index(&["a.bin"], vec![], false)));
    let end = run_read_archive_index(archive, false, read, Ok(Vec::new()), Vec::new());
    assert!(matches!(end.run, TaskRun::Continue { .. }));
}

#[test]
fn staged_extraction_commits_last() {
    let shards = || {
        vec![
            StagedShard { requests: 1, volumes: vec![0] },
            StagedShard { requests: 0, volumes: vec![0, 1] },
        ]
    };
    let probes = Some(PatchProbes { files: 1, relocates: true });
    let nodes = plan_staged_extraction(&StagedArchive {
        probes,
        shards: shards(),
        volumes: 2,
        saves_volumes: true,
    });
    let found: Vec<(StagedTask, Vec<usize>, Vec<usize>)> = nodes
        .into_iter()
        .map(|node| (node.task, node.dependencies, node.volumes))
        .collect();
    assert_eq!(
        found,
        vec![
            (StagedTask::Probe { index: 0 }, vec![], vec![]),
            (StagedTask::Measure, vec![], vec![]),
            (StagedTask::FinishPlan, vec![0, 1], vec![]),
            (StagedTask::Fetch { shard: 0, request: 0 }, vec![], vec![]),
            (StagedTask::Extract { shard: 0 }, vec![2, 3], vec![0]),
            (StagedTask::Extract { shard: 1 }, vec![2], vec![0, 1]),
            (StagedTask::FillVolume { volume: 0 }, vec![4, 5], vec![0]),
            (StagedTask::FillVolume { volume: 1 }, vec![5], vec![1]),
            (StagedTask::VolumesComplete, vec![6, 7], vec![]),
            (StagedTask::Commit, vec![8], vec![0, 1]),
        ]
    );
    let nodes = plan_staged_extraction(&StagedArchive {
        probes: None,
        shards: shards(),
        volumes: 2,
        saves_volumes: false,
    });
    assert_eq!(nodes.last().map(|node| node.dependencies.clone()), Some(vec![1, 2]));
    let nodes = plan_staged_extraction(&StagedArchive {
        probes,
        shards: Vec::new(),
        volumes: 1,
        saves_volumes: false,
    });
    assert_eq!(nodes.last().map(|node| node.dependencies.clone()), Some(vec![2]));
}
