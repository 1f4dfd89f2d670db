use std::sync::Arc;

use griffr_common::archive::batches::{
    committed_file_events, missing_batch, run_verify_committed_batch, schedule_archive_commit,
    CommitTask, Inspected,
};
use griffr_common::archive::cache::{
    archive_identity, is_candidate, is_trusted_archive_file, prepare_trusted_archive_file,
    remote_cache_dir, safe_cache_key, sorted_remote_parts, FileFacts, FileStep,
};
use griffr_common::archive::entries::{full_archive_entry_groups, is_install_change_path};
use griffr_common::archive::extract::{
    build_archive_extraction_expansion, extraction_start_events, ExtractionPlan, PlannedShard,
};
use griffr_common::archive::fetch::{
    fetch_progress, fetch_ranges_then, go_on_with, run_discover_archive_directory,
    run_fetch_archive_range, run_read_archive_controls, wanted_ranges, DirectoryDiscovery,
};
use griffr_common::archive::finish::{
    finish_archive, run_clean_archive, run_extract_archive_shard, ArchiveShardRunState,
};
use griffr_common::archive::groups::{plan_archive_groups, ArchiveGroup, PackFile};
use griffr_common::archive::placing::{expected_file, placed_file_events, shard_file_step};
use griffr_common::archive::repair::{
    after_failed_attempt, finish_archive_repair_index, run_extract_archive_repair_file,
    run_fetch_archive_repair_file, select_archive_repair, start_archive_repair_index,
    ArchiveRepairSession, AttemptStep, IndexEnd, RepairFetch, RepairOutcome, RepairSource,
};
use griffr_common::archive::volume_run::{
    run_install_archive_part, run_transfer_archive_part, PartStep,
};
use griffr_common::archive::volumes::{
    after_volume_copy, begin_retain, begin_volume, check_volume, drops_ranges, end_retain,
    fill_volume_gaps, ranges_still_needed, take_volume_bytes, volume_report, RetainStep,
    VolumeStep,
};
use griffr_common::archive::work::{
    prepare_remote_archive_range_work, prepare_remote_archive_work, run_open_archive,
    ArchiveSettings,
};
use griffr_common::commit::CommitFileJob;
use griffr_common::digest::{CopiedFileDigest, ExactRead, RunningDigest};
use griffr_common::download::DownloadPreparation;
use griffr_common::error::Message;
use griffr_common::event::{TaskOutcome, WorkerEvent};
use griffr_common::graph::expansion::TaskRun;
use griffr_common::path::FilePath;
use griffr_common::task::{
    ArchiveFileRepairTask, ArchiveIndex, ArchivePart, ArchiveRangePriority, ArchiveRangeRequest,
    ArchiveRetention, ArchiveSource, ArchiveWork, ByteRange, DownloadResumeState, ExpectedFile,
    FileDownload, Task, TransferClass,
};
use griffr_common::verify::IssueKind;

fn path(text: &str) -> FilePath {
    FilePath::parse(text)
}

fn pack(url: &str) -> PackFile {
    PackFile {
        url: url.to_string(),
        md5: "md5".to_string(),
        package_size: "1".to_string(),
    }
}

#[test]
fn groups_and_orders_archive_parts_by_numeric_sequence() {
    let groups = plan_archive_groups(
        &vec![
            pack("https://cdn.example/game.zip.12"),
            pack("https://cdn.example/other.zip"),
            pack("https://cdn.example/game.zip.2"),
        ],
        &path("downloads"),
    )
    .unwrap_or_else(|_| unreachable!());

    assert_eq!(groups.len(), 2);
    assert_eq!(groups[0].base_name, "game");
    assert_eq!(
        groups[0]
            .parts
            .iter()
            .map(|part| part.sequence)
            .collect::<Vec<_>>(),
        vec![2, 12]
    );
    assert_eq!(groups[1].base_name, "other");
    assert_eq!(groups[1].parts[0].sequence, 0);
    assert_eq!(groups[0].parts[0].dest.text(), "downloads/game.zip.2");
}

#[test]
fn packs_without_a_name_are_refused() {
    let error = plan_archive_groups(&vec![pack("https://cdn.example/")], &path("downloads"))
        .err()
        .unwrap();
    assert!(error.message().starts_with("Configuration error: "));
}

fn md5_of(bytes: &[u8]) -> String {
    let mut digest = RunningDigest::new();
    digest.update(bytes);
    digest.finish()
}

fn part(sequence: u64, bytes: &[u8]) -> ArchivePart {
    ArchivePart {
        sequence,
        url: format!("https://example.invalid/bundle.zip.00{sequence}"),
        dest: path("/archives").child(&format!("bundle.zip.00{sequence}")),
        logical_path: format!("bundle.zip.00{sequence}"),
        expected_md5: md5_of(bytes),
        expected_size: bytes.len() as u64,
    }
}

fn settings(retention: ArchiveRetention) -> ArchiveSettings {
    ArchiveSettings {
        dest: path("/install"),
        retention,
        password: None,
        work_dir: None,
        expected_files: Arc::new(Vec::new()),
        excluded_commit_paths: Vec::new(),
    }
}

fn work(parts: Vec<ArchivePart>) -> Arc<ArchiveWork> {
    Arc::new(
        prepare_remote_archive_work(
            "bundle".to_string(),
            parts,
            settings(ArchiveRetention::KeepVolumes),
        )
        .unwrap_or_else(|_| unreachable!()),
    )
}

#[test]
fn ready_volume_partial_is_promoted_before_range_planning() {
    let bytes = b"full-volume";
    let part = part(1, bytes);
    let found = Some(FileFacts { is_file: true, len: bytes.len() as u64 });
    assert!(is_candidate(found, &part));
    let trusted = is_trusted_archive_file(found, &Some(md5_of(bytes)), &part);
    assert!(trusted);
    let steps = prepare_trusted_archive_file(&part.dest, false, false, trusted)
        .unwrap_or_else(|_| unreachable!());
    assert!(steps.iter().any(|step| matches!(
        step,
        FileStep::Promote { from, to }
            if from.text() == "/archives/.bundle.zip.001.griffr-volume.part"
                && to.text() == "/archives/bundle.zip.001"
    )));
}

#[test]
fn trusted_volumes_are_kept_as_they_are() {
    let part = part(1, b"full-volume");
    let steps = prepare_trusted_archive_file(&part.dest, true, false, false)
        .unwrap_or_else(|_| unreachable!());
    assert!(!steps.iter().any(|step| matches!(
        step,
        FileStep::Remove { path } if path.same(&part.dest)
    )));
    let found = Some(FileFacts { is_file: true, len: 11 });
    assert!(!is_trusted_archive_file(found, &Some("00".repeat(16)), &part));
    assert!(!is_trusted_archive_file(None, &None, &part));
}

#[test]
fn repair_range_work_does_not_scan_or_trust_retained_full_volume() {
    let work = prepare_remote_archive_range_work(
        "bundle".to_string(),
        vec![part(1, b"retained-volume")],
        ArchiveSettings {
            password: Some("secret".to_string()),
            work_dir: Some(path("/work")),
            expected_files: expected(&["Data/a.bin"]),
            excluded_commit_paths: vec!["b.bin".to_string()],
            ..settings(ArchiveRetention::DiscardVolumes)
        },
        0,
    )
    .unwrap_or_else(|_| unreachable!());
    assert_eq!(work.repair_group, Some(0));
    assert_eq!(work.password.as_deref(), Some("secret"));
    assert!(work.work_dir.as_ref().is_some_and(|dir| dir.text() == "/work"));
    assert_eq!(work.expected_files.len(), 1);
    assert_eq!(work.excluded_commit_paths, vec!["b.bin"]);
    assert!(work.remote);
    assert!(!work.keeps_full_volumes());
}

#[test]
fn archives_are_told_apart_by_their_digests_and_sizes() {
    let one = archive_identity(&vec![part(1, b"first-volume")]);
    let two = archive_identity(&vec![part(1, b"second-volume")]);
    assert_ne!(one, two);
    let mut bytes = md5_of(b"first-volume").into_bytes();
    bytes.extend_from_slice(&12u64.to_le_bytes());
    assert_eq!(one, md5_of(&bytes));
    assert_eq!(safe_cache_key("a b/c"), "a_b_c");
    let dir = remote_cache_dir("bundle", &vec![part(1, b"first-volume")], &path("/install"));
    assert_eq!(
        dir.text(),
        format!("/archives/.griffr-range-cache/bundle-{}", &one[..16])
    );
}

#[test]
fn parts_are_put_in_order() {
    let sorted = sorted_remote_parts(vec![part(2, b"b"), part(1, b"a")])
        .unwrap_or_else(|_| unreachable!());
    assert_eq!(sorted.iter().map(|found| found.sequence).collect::<Vec<_>>(), vec![1, 2]);
    assert!(sorted_remote_parts(Vec::new()).is_err());
}

fn range(volume: usize, len: u64) -> ArchiveRangeRequest {
    ArchiveRangeRequest {
        volume_index: volume,
        local_range: ByteRange { start: 0, end: len },
        global_range: ByteRange { start: 0, end: len },
        url: "https://example.invalid/archive".to_string(),
        cache_path: path("/cache").child(&format!("v000{volume}-0-{len}.range")),
    }
}

#[test]
fn fetched_ranges_are_tried_again_so_many_times() {
    let archive = work(vec![part(1, b"first-volume")]);
    let fetch = |retry: u32, fetched: Result<u64, String>| {
        run_fetch_archive_range(
            archive.clone(),
            range(0, 12),
            retry,
            ArchiveRangePriority::ExtractionCritical,
            1,
            false,
            fetched,
        )
    };
    assert!(matches!(fetch(0, Ok(12)).run, TaskRun::Succeeded));
    assert!(matches!(
        fetch(0, Err("reset".to_string())).run,
        TaskRun::Continue { task: Task::FetchArchiveRange { retry_count: 1, .. } }
    ));
    assert!(matches!(fetch(1, Err("reset".to_string())).run, TaskRun::Failed { .. }));
    assert!(matches!(
        fetch_progress(&archive, &range(0, 12), 5),
        WorkerEvent::Progress { completed: 5, total: 12, .. }
    ));
}

#[test]
fn missing_ranges_are_fetched_before_the_next_task() {
    let archive = work(vec![part(1, b"first-volume")]);
    let next = || Task::RetainArchiveVolume { work: archive.clone(), volume_index: 0 };
    let end = fetch_ranges_then(archive.clone(), Ok(Vec::new()), Vec::new(), next());
    assert!(matches!(
        end.run,
        TaskRun::Continue { task: Task::RetainArchiveVolume { .. } }
    ));
    let end = fetch_ranges_then(archive.clone(), Ok(vec![range(0, 12)]), Vec::new(), next());
    match end.run {
        TaskRun::Expand { expansion, .. } => assert!(expansion.len() >= 1),
        _ => unreachable!(),
    }
    let end = fetch_ranges_then(archive.clone(), Err("bad".to_string()), Vec::new(), next());
    assert!(matches!(end.run, TaskRun::Failed { .. }));
}

#[test]
fn directories_are_found_and_then_read() {
    let archive = work(vec![part(1, b"first-volume")]);
    let end = run_discover_archive_directory(
        archive.clone(),
        false,
        None,
        false,
        DirectoryDiscovery::Failed { detail: "no end record".to_string() },
        Ok(Vec::new()),
        Vec::new(),
    );
    assert!(matches!(end.run, TaskRun::Failed { .. }));
    let end = run_discover_archive_directory(
        archive.clone(),
        false,
        None,
        false,
        found(),
        Ok(Vec::new()),
        Vec::new(),
    );
    assert!(matches!(
        end.run,
        TaskRun::Continue { task: Task::InspectArchiveIndex { .. } }
    ));
    let required = ByteRange { start: 2, end: 6 };
    let end = run_discover_archive_directory(
        archive.clone(),
        false,
        Some(required),
        true,
        found(),
        Ok(Vec::new()),
        Vec::new(),
    );
    assert!(matches!(
        end.run,
        TaskRun::Continue { task: Task::InspectArchiveIndex { .. } }
    ));
    let end = run_discover_archive_directory(
        archive,
        false,
        Some(required),
        false,
        found(),
        Ok(Vec::new()),
        Vec::new(),
    );
    assert!(matches!(
        end.run,
        TaskRun::Continue {
            task: Task::DiscoverArchiveDirectory { required_range: Some(range), .. }
        } if range.start == 2 && range.end == 6
    ));
}

fn found() -> DirectoryDiscovery {
    DirectoryDiscovery::Ready {
        central_directory: ByteRange { start: 0, end: 4 },
        end_records: ByteRange { start: 4, end: 12 },
    }
}

#[test]
fn a_required_piece_is_wanted_before_the_directory() {
    let required = ByteRange { start: 2, end: 6 };
    assert_eq!(wanted_ranges(&go_on_with(Some(required), false, found())), vec![required]);
    assert_eq!(
        wanted_ranges(&go_on_with(Some(required), true, found())),
        vec![ByteRange { start: 0, end: 4 }, ByteRange { start: 4, end: 12 }]
    );
    let failed = DirectoryDiscovery::Failed { detail: "no end record".to_string() };
    assert!(wanted_ranges(&go_on_with(None, false, failed)).is_empty());
}

#[test]
fn unreadable_control_files_fail_the_archive() {
    let archive = work(vec![part(1, b"first-volume")]);
    let read = Arc::new(index(&["a.bin"]));
    assert!(run_read_archive_controls(&archive, Ok(read)).is_ok());
    let end = run_read_archive_controls(&archive, Err("bad control".to_string()))
        .err()
        .unwrap();
    assert!(matches!(end.run, TaskRun::Failed { .. }));
}

fn expected(names: &[&str]) -> Arc<Vec<(String, ExpectedFile)>> {
    Arc::new(
        names
            .iter()
            .map(|name| {
                let file = ExpectedFile {
                    path: path(name),
                    md5: md5_of(b"contents").to_uppercase(),
                    size: 8,
                };
                (name.to_lowercase(), file)
            })
            .collect(),
    )
}

fn digest(bytes: &[u8]) -> Option<CopiedFileDigest> {
    Some(CopiedFileDigest { bytes: bytes.len() as u64, md5: md5_of(bytes) })
}

#[test]
fn expected_files_are_placed_only_as_they_are_expected() {
    let archive = prepare_remote_archive_work(
        "bundle".to_string(),
        vec![part(1, b"first-volume")],
        ArchiveSettings {
            expected_files: expected(&["Data/a.bin"]),
            ..settings(ArchiveRetention::DiscardVolumes)
        },
    )
    .unwrap_or_else(|_| unreachable!());
    assert!(expected_file(&archive, "other.bin").is_none());
    let file = || expected_file(&archive, "data/A.bin");
    let root = path("/install");
    let place = |digest| {
        shard_file_step(file(), &root, path("/staging/data/A.bin"), "data/A.bin", digest)
    };
    let step = place(digest(b"contents")).unwrap_or_else(|_| unreachable!());
    assert_eq!(step.job.destination.text(), "/install/Data/a.bin");
    assert_eq!(step.proof_of.as_ref().map(|found| found.bytes), Some(8));
    assert_eq!(
        place(None).err().unwrap().message(),
        "Extraction error: Archive entry data/A.bin has no verified digest"
    );
    assert!(place(digest(b"another")).err().unwrap().message().starts_with("Integrity error: "));
    assert!(place(digest(b"CONTENTS")).is_err());

    let events = placed_file_events(&step.job.logical_path, "data/A.bin", &step.proof_of, 1, 2);
    assert_eq!(events.len(), 3);
    assert!(matches!(
        &events[0],
        WorkerEvent::Outcome { outcome: TaskOutcome::Committed { path, bytes: 8, .. } }
            if path == "Data/a.bin"
    ));

    let step = shard_file_step(None, &root, path("/staging/b.bin"), "b.bin", None)
        .unwrap_or_else(|_| unreachable!());
    assert_eq!(step.job.destination.text(), "/install/b.bin");
    assert!(step.proof_of.is_none());
    assert_eq!(placed_file_events(&step.job.logical_path, "b.bin", &None, 2, 2).len(), 2);
}

#[test]
fn repair_pieces_are_fetched_one_by_one() {
    let mut fetch = RepairFetch::new();
    assert_eq!(fetch.next_piece(2), Some(0));
    assert!(matches!(
        fetch.missed("piece".to_string(), 1, "timeout"),
        AttemptStep::Again { event: WorkerEvent::Retried { path, reason } }
            if path == "piece" && reason == "archive range attempt 1 failed: timeout"
    ));
    assert!(matches!(
        fetch.missed("piece".to_string(), 1, "timeout"),
        AttemptStep::GiveUp
    ));
    assert_eq!(fetch.next_piece(2), Some(0));
    fetch.took(5);
    assert_eq!(fetch, RepairFetch { fetched: 1, attempt: 0, downloaded: 5 });
    fetch.took(u64::MAX);
    assert_eq!(fetch.downloaded, u64::MAX);
    assert_eq!(fetch.next_piece(2), None);
}

#[test]
fn repairs_take_the_place_of_downloads_that_a_session_knows() {
    let download = |archive_repair, expected_size| FileDownload {
        url: "http://host/a.bin".to_string(),
        dest: path("/install/a.bin"),
        logical_path: "a.bin".to_string(),
        expected_md5: "00".repeat(16),
        expected_size,
        retry_count: 2,
        transfer_class: TransferClass::General,
        archive_repair,
    };
    let select = |file: FileDownload| {
        select_archive_repair(
            &file,
            work(vec![part(1, b"first-volume")]),
            Arc::new(index(&["a.bin"])),
            &path("/staging"),
            RepairSource {
                entry_index: 0,
                volume_indices: vec![0],
                source_range: ByteRange { start: 1, end: 4 },
                source_bytes: 3,
            },
        )
    };
    let repair = select(download(Some(1), Some(9))).unwrap();
    assert_eq!((repair.expected_size, repair.source_bytes, repair.retry_count), (9, 3, 2));
    assert_eq!(repair.download_url.as_deref(), Some("http://host/a.bin"));
    assert!(select(download(None, Some(9))).is_none());
    assert!(select(download(Some(1), None)).is_none());
}

fn index(names: &[&str]) -> ArchiveIndex {
    ArchiveIndex {
        names: names.iter().map(|name| name.to_string()).collect(),
        entry_sizes: names.iter().map(|_| 1).collect(),
        control_indices: Vec::new(),
        has_patch_manifest: false,
    }
}

#[test]
fn entries_that_leave_the_install_are_refused() {
    let archive = work(vec![part(1, b"first-volume")]);
    assert!(full_archive_entry_groups(&archive, &index(&["../x.bin"])).is_err());
    let mut listed = index(&["a.bin", "delete_files.txt", "dir/"]);
    listed.control_indices.push(1);
    let groups = full_archive_entry_groups(&archive, &listed).unwrap_or_else(|_| unreachable!());
    assert_eq!(groups.direct, vec![0]);
    assert_eq!(groups.staged, vec![1]);
    assert_eq!(groups.deferred_paths[0].text(), "delete_files.txt");
    assert!(!is_install_change_path(&path("a.bin")));
    assert!(full_archive_entry_groups(&archive, &index(&[".griffr-patch/plan.json"])).is_err());
}

#[test]
fn extraction_waits_for_its_pieces() {
    let archive = work(vec![part(1, b"first-volume")]);
    let plan = ExtractionPlan {
        work: archive.clone(),
        archive_index: Arc::new(index(&["a.bin", "b.bin"])),
        staging_dir: path("/staging"),
        total_extract_bytes: 2,
        direct_files: 2,
    };
    let shards = vec![
        PlannedShard {
            entries: vec![0],
            volume_indices: vec![0],
            estimated_cost: 1,
            direct: true,
            requests: vec![range(0, 12)],
        },
        PlannedShard {
            entries: vec![1],
            volume_indices: vec![0],
            estimated_cost: 1,
            direct: true,
            requests: Vec::new(),
        },
    ];
    let expansion = build_archive_extraction_expansion(&plan, shards);
    // at the least two shards, one piece and the end
    assert!(expansion.len() >= 4);
    assert!(!extraction_start_events(&plan).is_empty());
}

#[test]
fn only_the_last_failed_shard_cleans_up() {
    let archive = work(vec![part(1, b"first-volume")]);
    let mut state = ArchiveShardRunState::new();
    assert!(state.try_begin().is_ok());
    assert!(state.try_begin().is_ok());
    let first =
        run_extract_archive_shard(&mut state, &archive, None, 2, 1, Err("bad crc".to_string()));
    assert!(!first.cleanup_staging);
    assert!(state.is_failed());
    let second = run_extract_archive_shard(&mut state, &archive, None, 2, 1, Ok(()));
    assert!(second.cleanup_staging);
    assert!(state.try_begin().is_err());
}

#[test]
fn finished_archives_are_patched_and_cleaned() {
    let archive = work(vec![part(1, b"first-volume")]);
    match finish_archive(archive.clone(), Ok(())) {
        TaskRun::Expand { expansion, .. } => assert_eq!(expansion.len(), 2),
        _ => unreachable!(),
    }
    assert!(matches!(
        finish_archive(archive.clone(), Err("busy".to_string())),
        TaskRun::Failed { .. }
    ));
    let (run, _) = run_clean_archive(&archive, Ok(()));
    assert!(matches!(run, TaskRun::Succeeded));
}

#[test]
fn repair_metadata_reuses_archive_discovery_and_starts_once() {
    let groups = || {
        vec![ArchiveGroup {
            base_name: "bundle".to_string(),
            parts: vec![ArchivePart {
                sequence: 1,
                url: "https://example.invalid/bundle.zip.001".to_string(),
                dest: path("game/downloads/bundle.zip.001"),
                logical_path: "bundle.zip.001".to_string(),
                expected_md5: "00".repeat(16),
                expected_size: 16,
            }],
        }]
    };
    let mut session =
        ArchiveRepairSession::new(path("game"), 1, expected(&["Data/a.bin"]));

    let first = start_archive_repair_index(&mut session, groups(), true);
    assert!(matches!(
        first.as_slice(),
        [Task::DiscoverArchiveDirectory {
            required_range: None,
            work,
        }] if work.expected_files.len() == 1
    ));
    assert!(start_archive_repair_index(&mut session, groups(), true).is_empty());
}

fn repair_task() -> ArchiveFileRepairTask {
    ArchiveFileRepairTask {
        work: work(vec![part(1, b"first-volume")]),
        archive_index: Arc::new(index(&["a.bin"])),
        staging_dir: path("/staging"),
        entry_index: 0,
        volume_indices: vec![0],
        source_range: ByteRange { start: 0, end: 4 },
        source_bytes: 4,
        dest: path("/install/a.bin"),
        logical_path: "a.bin".to_string(),
        expected_md5: "00".repeat(16),
        expected_size: 4,
        download_url: Some("http://host/a.bin".to_string()),
        retry_count: 0,
        transfer_class: TransferClass::General,
    }
}

#[test]
fn files_are_repaired_from_the_archive_or_directly() {
    let end = run_fetch_archive_repair_file(repair_task(), Ok(4));
    assert!(matches!(
        end.run,
        TaskRun::Continue { task: Task::ExtractArchiveRepairFile { .. } }
    ));
    let end = run_fetch_archive_repair_file(repair_task(), Err(("reset".to_string(), false)));
    assert!(matches!(end.run, TaskRun::Continue { task: Task::Download { .. } }));
    let end = run_extract_archive_repair_file(repair_task(), RepairOutcome::Committed { issue: None });
    assert!(matches!(end.run, TaskRun::Succeeded));
    assert_eq!(end.events.len(), 3);
    let end = run_extract_archive_repair_file(
        repair_task(),
        RepairOutcome::Committed { issue: Some(IssueKind::Md5Mismatch) },
    );
    assert!(matches!(end.run, TaskRun::Continue { task: Task::Download { .. } }));
    assert!(matches!(
        after_failed_attempt("a.bin".to_string(), 0, 1, "reset"),
        AttemptStep::Again { .. }
    ));
    assert!(matches!(
        after_failed_attempt("a.bin".to_string(), 1, 1, "reset"),
        AttemptStep::GiveUp
    ));
}

#[test]
fn volumes_are_assembled_from_their_pieces() {
    let bytes = b"first-volume";
    let part = part(1, bytes);
    let whole = Some(ByteRange { start: 0, end: 12 });
    assert!(matches!(
        begin_volume(0, whole, true, &part, None, Some(IssueKind::Missing)),
        VolumeStep::Copy { .. }
    ));
    let mut read = ExactRead::new(12);
    take_volume_bytes(&mut read, &part, &bytes[..5]).unwrap();
    take_volume_bytes(&mut read, &part, &bytes[5..]).unwrap();
    assert_eq!(read.remaining(), 0);
    assert!(matches!(
        after_volume_copy(&part, Ok(read)),
        VolumeStep::Promote { written: true }
    ));
    let found = Some(FileFacts { is_file: true, len: 12 });
    assert!(matches!(
        begin_volume(0, whole, true, &part, found, None),
        VolumeStep::Promote { written: false }
    ));
    assert!(matches!(
        volume_report(&part, true, None),
        WorkerEvent::Outcome { outcome: TaskOutcome::Verified { ok: true, issue: None, .. } }
    ));
}

#[test]
fn faulty_volumes_are_refused() {
    let part = part(1, b"first-volume");
    let text = |range: Option<ByteRange>, available: bool| {
        check_volume(3, range, available, &part).unwrap_err().message()
    };
    assert_eq!(text(None, true), "Extraction error: archive volume index 3 is out of range");
    assert_eq!(
        text(Some(ByteRange { start: 0, end: 4 }), true),
        "Extraction error: archive volume bundle.zip.001 has layout size 4, expected 12"
    );
    assert_eq!(
        text(Some(ByteRange { start: 0, end: 12 }), false),
        "Extraction error: archive volume bundle.zip.001 is not fully cached before finalization"
    );
    let mut read = ExactRead::new(12);
    take_volume_bytes(&mut read, &part, b"other-volume").unwrap();
    match after_volume_copy(&part, Ok(read)) {
        VolumeStep::Fail { message, remove_temp } => {
            assert!(remove_temp);
            assert!(message.message().contains("MD5 mismatch"));
            assert!(drops_ranges(&message, false));
        }
        _ => unreachable!(),
    }
    let mut short = ExactRead::new(12);
    assert_eq!(
        take_volume_bytes(&mut short, &part, b"").unwrap_err().message(),
        "Extraction error: archive stream ended while finalizing bundle.zip.001"
    );
}

#[test]
fn volumes_are_kept_only_where_they_should_be() {
    let kept = work(vec![part(1, b"first-volume")]);
    assert!(matches!(begin_retain(&kept, 0, false), RetainStep::Make));
    assert!(matches!(begin_retain(&kept, 0, true), RetainStep::Present));
    match begin_retain(&kept, 1, false) {
        RetainStep::End { end } => {
            assert_eq!(
                end.run.failure_details().map(|found| found.0.clone()),
                Some("Extraction error: archive volume index 1 is out of range".to_string())
            );
            assert!(end.drop_ranges && !end.in_place && end.events.is_empty());
        }
        _ => unreachable!(),
    }
    let dropped = prepare_remote_archive_work(
        "bundle".to_string(),
        vec![part(1, b"first-volume")],
        settings(ArchiveRetention::DiscardVolumes),
    )
    .unwrap_or_else(|_| unreachable!());
    match begin_retain(&dropped, 5, false) {
        RetainStep::End { end } => {
            assert!(matches!(end.run, TaskRun::Succeeded));
            assert!(!end.drop_ranges && !end.in_place && end.events.is_empty());
        }
        _ => unreachable!(),
    }
}

#[test]
fn missing_pieces_of_a_kept_volume_are_fetched_first() {
    let kept = work(vec![part(1, b"first-volume")]);
    assert!(fill_volume_gaps(kept.clone(), 0, Ok(Vec::new())).is_none());
    match fill_volume_gaps(kept.clone(), 0, Ok(vec![range(0, 4), range(0, 8)])) {
        Some(TaskRun::Expand { expansion, next }) => {
            assert_eq!(expansion.len(), 2);
            assert!(matches!(
                next,
                Some(Task::RetainArchiveVolume { volume_index: 0, .. })
            ));
        }
        _ => unreachable!(),
    }
    let failed = fill_volume_gaps(kept, 0, Err("no layout".to_string())).unwrap();
    assert_eq!(
        failed.failure_details().map(|found| found.0.clone()),
        Some("no layout".to_string())
    );
}

#[test]
fn keeping_a_volume_is_reported() {
    let part = part(1, b"first-volume");
    let done = end_retain(&part, Ok(()), false, None);
    assert!(matches!(done.run, TaskRun::Succeeded));
    assert!(done.in_place && !done.drop_ranges);
    assert!(matches!(
        done.events.as_slice(),
        [WorkerEvent::Outcome { outcome: TaskOutcome::Verified { ok: true, issue: None, .. } }]
    ));
    let fault = || Message::new("", "Failed to replace a: denied".to_string());
    let failed = end_retain(&part, Err(fault()), false, Some(IssueKind::Missing));
    assert!(!failed.in_place && !failed.drop_ranges);
    assert_eq!(
        failed.run.failure_details().map(|found| found.0.clone()),
        Some("Failed to replace a: denied".to_string())
    );
    assert!(matches!(
        failed.events.as_slice(),
        [WorkerEvent::Outcome {
            outcome: TaskOutcome::Verified { ok: false, issue: Some(IssueKind::Missing), .. }
        }]
    ));
    assert!(end_retain(&part, Err(fault()), true, None).drop_ranges);
    let broken = Message::new("Integrity error: ", "broken".to_string());
    assert!(end_retain(&part, Err(broken), false, None).drop_ranges);
}

#[test]
fn pieces_of_later_volumes_are_kept() {
    let volumes = vec![
        ByteRange { start: 0, end: 12 },
        ByteRange { start: 12, end: 25 },
        ByteRange { start: 25, end: 30 },
    ];
    assert_eq!(ranges_still_needed(&volumes, 0), vec![volumes[1], volumes[2]]);
    assert!(ranges_still_needed(&volumes, 2).is_empty());
    assert!(ranges_still_needed(&volumes, 9).is_empty());
}

#[test]
fn archives_are_opened_from_here_or_there() {
    let remote = run_open_archive(
        "bundle".to_string(),
        ArchiveSource::Remote { parts: vec![part(1, b"first-volume")] },
        settings(ArchiveRetention::KeepVolumes),
    );
    assert!(matches!(
        remote,
        TaskRun::Continue { task: Task::DiscoverArchiveDirectory { .. } } | TaskRun::Expand { .. }
    ));
    let none = run_open_archive(
        "bundle".to_string(),
        ArchiveSource::Remote { parts: Vec::new() },
        settings(ArchiveRetention::KeepVolumes),
    );
    assert!(matches!(none, TaskRun::Failed { .. }));
    let archive = work(vec![part(2, b"second-volume"), part(1, b"first-volume")]);
    assert!(archive.keeps_full_volumes());
    assert_eq!(archive.parts[0].sequence, 1);
    assert_eq!(archive.tokens_for_indices(&vec![0]).len(), archive.all_tokens().len().min(1));
}

#[test]
fn volumes_are_tried_again_so_many_times() {
    let part = part(1, b"first-volume");
    let missing = Some(IssueKind::Missing);
    let end = run_install_archive_part(&part, 0, 1, None, Err("unused".to_string()), None);
    assert!(matches!(end.step, PartStep::Done));
    assert_eq!(end.events.len(), 1);
    let resume = DownloadPreparation::Resume {
        resume: DownloadResumeState::new(4),
        remove_partial: false,
    };
    let end = run_install_archive_part(&part, 0, 1, missing, Ok(resume), missing);
    assert!(matches!(end.step, PartStep::Transfer { resume } if resume.offset == 4));
    let end = run_transfer_archive_part(&part, 0, 1, Err("reset".to_string()), missing);
    assert!(matches!(end.step, PartStep::Again { retry_count: 1 }));
    assert!(matches!(
        &end.events[0],
        WorkerEvent::Retried { reason, .. }
            if reason == "install-archive download attempt 1 failed: reset"
    ));
    let end = run_install_archive_part(&part, 1, 1, missing, Err("busy".to_string()), missing);
    match end.step {
        PartStep::Fail { reason } => {
            assert_eq!(reason, "install-archive preparation failed after retries: busy");
        }
        _ => unreachable!(),
    }
    let end = run_transfer_archive_part(&part, 0, 1, Ok(12), None);
    assert!(matches!(end.step, PartStep::Done));
    assert_eq!(end.events.len(), 2);
}

fn job(name: &str) -> CommitFileJob {
    CommitFileJob {
        source: path("/staging").child(name),
        destination: path("/install").child(name),
        logical_path: path(name),
    }
}

#[test]
fn batches_are_checked_after_they_are_written() {
    let nodes = schedule_archive_commit(2);
    let order: Vec<(CommitTask, Vec<usize>)> =
        nodes.iter().map(|node| (node.task, node.dependencies.clone())).collect();
    assert_eq!(
        order,
        vec![
            (CommitTask::Write { batch: 0 }, vec![]),
            (CommitTask::Verify { batch: 0 }, vec![0]),
            (CommitTask::Write { batch: 1 }, vec![]),
            (CommitTask::Verify { batch: 1 }, vec![2]),
            (CommitTask::Finish, vec![1, 3]),
        ]
    );
    assert_eq!(schedule_archive_commit(0).len(), 1);
    assert_eq!(
        missing_batch("commit", 7).failure_details().map(|found| found.0.clone()),
        Some("archive commit batch index 7 is out of range".to_string())
    );
    assert_eq!(committed_file_events(&job("a.bin"), 1, 2).len(), 2);
}

#[test]
fn the_first_bad_file_fails_its_batch() {
    let jobs = vec![job("a.bin"), job("b.bin"), job("c.bin")];
    let good = vec![Inspected::Good, Inspected::Unexpected, Inspected::Good];
    let end = run_verify_committed_batch(&jobs, &good);
    assert!(matches!(end.run, TaskRun::Succeeded));
    assert_eq!(end.events.len(), 2);
    let bad = vec![
        Inspected::Good,
        Inspected::Bad { issue: IssueKind::Md5Mismatch },
        Inspected::Good,
    ];
    let end = run_verify_committed_batch(&jobs, &bad);
    assert_eq!(end.events.len(), 2);
    assert_eq!(
        end.run.failure_details().map(|found| found.0.clone()),
        Some("committed archive file b.bin failed verification: Md5Mismatch".to_string())
    );
}

#[test]
fn repair_indices_are_ready_once() {
    let archive = prepare_remote_archive_range_work(
        "bundle".to_string(),
        vec![part(1, b"first-volume")],
        settings(ArchiveRetention::DiscardVolumes),
        0,
    )
    .unwrap_or_else(|_| unreachable!());
    let mut session =
        Some(ArchiveRepairSession::new(path("/game"), 1, Arc::new(Vec::new())));
    assert!(matches!(
        finish_archive_repair_index(&archive, &mut session, 1, 2),
        Ok(IndexEnd::Ready { staging_dir })
            if staging_dir.text() == "/.griffr.extract.repair-bundle.1.2"
    ));
    assert!(matches!(
        finish_archive_repair_index(&archive, &mut session, 1, 3),
        Ok(IndexEnd::Refused { .. })
    ));
    assert!(matches!(
        finish_archive_repair_index(&archive, &mut None, 1, 4),
        Ok(IndexEnd::Gone)
    ));
    let plain = work(vec![part(1, b"first-volume")]);
    assert_eq!(
        finish_archive_repair_index(&plain, &mut session, 1, 5).err().unwrap().message(),
        "Task pool error: archive bundle is not repair metadata work"
    );
}
