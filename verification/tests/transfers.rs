use griffr_common::archive::cache::FileFacts;
use griffr_common::commit::{
    after_move, check_copy, check_cross_volume_copy, check_partial_download, commit_error,
    hardlink_error, staged_jobs, staging_dir_error, take_prefix_bytes, MoveStep,
};
use griffr_common::digest::{ByteStream, CopiedFileDigest, ExactRead, RunningDigest};
use griffr_common::download::{
    after_response, check_download, discard_report, discarded_download_path,
    duration_from_setting, needs_digest, prepare_download, range_header, DownloadBody,
    DownloadPreparation, ProgressMeter, ResponseStep, DEFAULT_DOWNLOAD_SEND_TIMEOUT_SECS,
};
use griffr_common::ensure::{
    first_volume_action, install_archive_step, EnsureAction, EnsureEvent, EnsureFile, EnsureRun,
    VolumeAction, VolumeEvent,
};
use griffr_common::error::Message;
use griffr_common::event::{TaskOutcome, WorkerEvent};
use griffr_common::graph::expansion::TaskRun;
use griffr_common::path::FilePath;
use griffr_common::reuse::{
    finish_reuse_file, group_sources, next_candidate, run_repair_file, run_verify_reuse_volume,
    PathReuseMethod, ReuseSource,
};
use griffr_common::runner::{run_hardlink, run_panicked, run_plain, run_verify};
use griffr_common::task::{DownloadResumeState, FileDownload, FileRepair, Task, TransferClass};
use griffr_common::transfer::{retry_or_fail_download, run_prepare_download, run_transfer_download};
use griffr_common::verify::IssueKind;

fn path(text: &str) -> FilePath {
    FilePath::parse(text)
}

fn md5_of(bytes: &[u8]) -> String {
    let mut digest = RunningDigest::new();
    digest.update(bytes);
    digest.finish()
}

#[test]
fn digests_are_those_of_the_bytes() {
    assert_eq!(md5_of(b"hello world"), "5eb63bbbe01eeed093cb22bb8f5acdc3");
    assert_eq!(md5_of(b""), "d41d8cd98f00b204e9800998ecf8427e");
    let mut digest = RunningDigest::new();
    digest.update(b"hello ");
    digest.update(b"world");
    assert_eq!(digest.finish(), "5eb63bbbe01eeed093cb22bb8f5acdc3");
}

fn part_file(len: u64) -> Option<FileFacts> {
    Some(FileFacts { is_file: true, len })
}

#[test]
fn resumed_download_has_the_digest_of_the_whole_file() {
    let mut payload: Vec<u8> = Vec::new();
    for i in 0..(2 * 1024 * 1024 + 333) {
        payload.push((i % 251) as u8);
    }
    let expected_md5 = md5_of(&payload);
    let cut: usize = 1_048_576;

    let prepared = prepare_download(
        &path("asset.chk"),
        part_file(cut as u64),
        &None,
        &expected_md5,
        Some(payload.len() as u64),
    )
    .unwrap();
    let offset = match prepared {
        DownloadPreparation::Resume { resume, remove_partial } => {
            assert!(!remove_partial);
            resume.offset
        }
        DownloadPreparation::Done { .. } => unreachable!(),
    };
    assert_eq!(offset, cut as u64);
    assert_eq!(range_header(offset), Some("bytes=1048576-".to_string()));

    let mut prefix = ExactRead::new(offset);
    while prefix.remaining() > 0 {
        let from = (prefix.total() - prefix.remaining()) as usize;
        let wanted = prefix.next_bytes(65_536);
        take_prefix_bytes(&mut prefix, &path("asset.chk"), &payload[from..from + wanted]).unwrap();
    }
    let start = match after_response(offset, 206, "206 Partial Content", false) {
        ResponseStep::Write { start_offset, reset_progress } => {
            assert!(!reset_progress);
            start_offset
        }
        _ => unreachable!(),
    };
    let mut body = DownloadBody::begin(prefix.into_digest(), start, 0, 0);
    for chunk in payload[cut..].chunks(100_000) {
        body.take(chunk, 1);
    }
    let done = body
        .finish("http://host/blob", Some(payload.len() as u64), &expected_md5)
        .unwrap_or_else(|_| unreachable!());
    assert_eq!(done.bytes, payload.len() as u64);
    assert_eq!(done.md5, expected_md5);
}

#[test]
fn refused_offsets_start_the_download_anew() {
    assert!(matches!(
        after_response(4, 416, "416 Range Not Satisfiable", false),
        ResponseStep::Restart
    ));
    assert!(matches!(
        after_response(4, 416, "416 Range Not Satisfiable", true),
        ResponseStep::Fail { .. }
    ));
    assert!(matches!(
        after_response(4, 200, "200 OK", false),
        ResponseStep::Write { start_offset: 0, reset_progress: true }
    ));
    match after_response(0, 404, "404 Not Found", false) {
        ResponseStep::Fail { message } => {
            assert_eq!(message.message(), "Download error: HTTP error 404 Not Found");
        }
        _ => unreachable!(),
    }
    let mut prepared = RunningDigest::new();
    prepared.update(b"old!");
    let mut body = DownloadBody::begin(prepared, 0, 1, 0);
    assert_eq!(body.take(b"new!", 0), Some(4));
    assert_eq!(body.last_progress(), None);
    let done = body.finish("u", Some(4), &md5_of(b"new!")).unwrap_or_else(|_| unreachable!());
    assert_eq!(done.bytes, 4);
}

#[test]
fn downloads_of_another_size_or_digest_are_refused() {
    let error = check_download("u", Some(3), 4, "aa", "aa").unwrap_err();
    assert_eq!(
        error.message(),
        "Download error: Downloaded size mismatch for u: expected 3, got 4"
    );
    let error = check_download("u", None, 4, "aa", "bb").unwrap_err();
    assert_eq!(error.message(), "Download error: MD5 mismatch: expected aa, got bb");
    assert!(check_download("u", Some(4), 4, "AA", "aa").is_ok());
}

#[test]
fn partial_files_are_used_where_they_can_be() {
    let file = path("asset.chk");
    let fresh = DownloadPreparation::Resume {
        resume: DownloadResumeState::new(0),
        remove_partial: false,
    };
    let anew = DownloadPreparation::Resume {
        resume: DownloadResumeState::new(0),
        remove_partial: true,
    };
    assert_eq!(prepare_download(&file, None, &None, "aa", Some(4)).unwrap(), fresh);
    assert_eq!(prepare_download(&file, part_file(5), &None, "aa", Some(4)).unwrap(), anew);
    assert!(needs_digest(part_file(4), Some(4)));
    assert!(!needs_digest(part_file(3), Some(4)));
    assert_eq!(
        prepare_download(&file, part_file(4), &Some("AA".to_string()), "aa", Some(4)).unwrap(),
        DownloadPreparation::Done { bytes: 4 }
    );
    assert_eq!(
        prepare_download(&file, part_file(4), &Some("bb".to_string()), "aa", Some(4)).unwrap(),
        anew
    );
    let directory = Some(FileFacts { is_file: false, len: 0 });
    assert_eq!(
        prepare_download(&file, directory, &None, "aa", None).unwrap_err().message(),
        "Download error: Partial download path is not a file: asset.chk"
    );
}

#[test]
fn progress_is_shown_now_and_then() {
    let mut meter = ProgressMeter::new(0, 10, 0);
    assert!(!meter.advance(9, 0));
    assert!(meter.advance(10, 0));
    assert!(!meter.advance(11, 99_999_999));
    assert!(meter.advance(12, 100_000_000));
    assert!(!meter.finish(12));
    assert!(meter.finish(13));
}

#[test]
fn timeouts_come_from_settings() {
    let some = |text: &str| Some(text.to_string());
    assert_eq!(duration_from_setting(&some(" 5 "), DEFAULT_DOWNLOAD_SEND_TIMEOUT_SECS), 5);
    assert_eq!(duration_from_setting(&some("0"), DEFAULT_DOWNLOAD_SEND_TIMEOUT_SECS), 60);
    assert_eq!(duration_from_setting(&some("x"), DEFAULT_DOWNLOAD_SEND_TIMEOUT_SECS), 60);
    assert_eq!(duration_from_setting(&None, DEFAULT_DOWNLOAD_SEND_TIMEOUT_SECS), 60);
}

#[test]
fn discarded_downloads_are_measured() {
    assert_eq!(discarded_download_path(&path("/work")).text(), "/work/payload.bin");
    let report = discard_report(Ok(7), 10, 25).unwrap();
    assert_eq!(report.bytes, 7);
    assert_eq!(report.elapsed, 15);
    let failed = discard_report(Err(Message::new("Download error: ", "x".to_string())), 10, 25);
    assert_eq!(failed.unwrap_err().message(), "Download error: x");
}

#[test]
fn copies_are_checked_by_the_bytes_that_were_written() {
    let payload = b"copy-and-hash-in-one-pass";
    let expected = md5_of(payload);
    let mut stream = ByteStream::new();
    stream.take(&payload[..5]);
    stream.take(&payload[5..]);
    assert_eq!(stream.count(), payload.len() as u64);
    let done = check_copy(
        &path("source.bin"),
        &path("destination.bin"),
        payload.len() as u64,
        &expected,
        stream,
    )
    .unwrap_or_else(|_| unreachable!());
    assert_eq!(done.bytes, payload.len() as u64);
    assert_eq!(done.md5, expected);
}

#[test]
fn digests_are_compared_without_regard_to_case() {
    let mut stream = ByteStream::new();
    stream.take(b"new-data");
    let expected = md5_of(b"new-data").to_uppercase();
    let done = check_copy(&path("a"), &path("b"), 8, &expected, stream);
    assert!(done.is_ok());
}

#[test]
fn copies_of_another_digest_are_refused() {
    let mut stream = ByteStream::new();
    stream.take(b"new-data");
    let error = check_copy(
        &path("source.bin"),
        &path("destination.bin"),
        8,
        "00000000000000000000000000000000",
        stream,
    )
    .err()
    .unwrap();
    assert!(error.message().contains("Copy verification failed"));
    let copied = CopiedFileDigest { bytes: 8, md5: "aa".to_string() };
    let from = path("a");
    let to = path("b");
    assert!(check_cross_volume_copy(&from, &to, 8, &copied, "aa").is_ok());
    assert!(check_cross_volume_copy(&from, &to, 9, &copied, "aa").is_err());
    assert!(check_cross_volume_copy(&from, &to, 8, &copied, "bb").is_err());
}

#[test]
fn moves_between_volumes_become_copies() {
    let error = || Message::new("", "busy".to_string());
    let src = path("a");
    assert!(matches!(after_move(Ok(()), false, &src, true), MoveStep::Done));
    assert!(matches!(after_move(Err(error()), true, &src, true), MoveStep::Copy));
    match after_move(Err(error()), true, &src, false) {
        MoveStep::Fail { message } => assert_eq!(
            message.message(),
            "Cross-volume replacement only supports files: a"
        ),
        _ => unreachable!(),
    }
    match after_move(Err(error()), false, &src, true) {
        MoveStep::Fail { message } => assert_eq!(message.message(), "busy"),
        _ => unreachable!(),
    }
}

#[test]
fn staged_files_keep_their_names() {
    let jobs = staged_jobs(&path("/staging"), &path("/install"), &vec![path("delete_files.txt")]);
    assert_eq!(jobs.len(), 1);
    assert_eq!(jobs[0].source.text(), "/staging/delete_files.txt");
    assert_eq!(jobs[0].destination.text(), "/install/delete_files.txt");
    assert_eq!(
        commit_error(&jobs[0], "busy").message(),
        "Failed to move extracted file /staging/delete_files.txt -> /install/delete_files.txt: busy"
    );
    assert_eq!(
        hardlink_error(&path("a"), &path("b"), "busy").message(),
        "Failed to hardlink a -> b: busy"
    );
    assert!(staging_dir_error(&path("/tmp")).message().ends_with("under /tmp"));
}

#[test]
fn partial_files_are_checked_before_they_are_put_in_place() {
    let file = path("x.part");
    assert!(check_partial_download(&file, part_file(3)).is_ok());
    assert_eq!(
        check_partial_download(&file, None).unwrap_err().message(),
        "Download error: Missing partial download file x.part"
    );
    assert_eq!(
        check_partial_download(&file, Some(FileFacts { is_file: false, len: 0 }))
            .unwrap_err()
            .message(),
        "Download error: Partial download path is not a file: x.part"
    );
    let mut read = ExactRead::new(10);
    take_prefix_bytes(&mut read, &file, b"abc").unwrap();
    assert_eq!(
        take_prefix_bytes(&mut read, &file, b"").unwrap_err().message(),
        "Extraction error: Partial file shorter than expected prefix: 3 < 10 for x.part"
    );
}

fn repair(url: Option<&str>, allow_copy: bool) -> FileRepair {
    FileRepair {
        dest: path("game/file.bin"),
        logical_path: "file.bin".to_string(),
        expected_md5: "00".repeat(16),
        expected_size: 4,
        download_url: url.map(|found| found.to_string()),
        allow_copy_fallback: allow_copy,
        verify_destination_fallback: false,
        retry_count: 0,
        transfer_class: TransferClass::General,
        archive_repair: None,
    }
}

fn source(name: &str, volume: &str) -> ReuseSource {
    ReuseSource {
        path: path(name),
        volume: Some(volume.to_string()),
        group_key: volume.to_string(),
    }
}

#[test]
fn sources_on_the_same_volume_are_linked() {
    let sources = vec![source("a", "v1"), source("b", "v2"), source("c", "v1")];
    let groups = group_sources(&sources, &Some("v1".to_string()), true);
    assert_eq!(groups.linked.len(), 1);
    assert_eq!(groups.linked[0].paths.len(), 2);
    assert_eq!(groups.copied.len(), 1);
    let groups = group_sources(&sources, &Some("v1".to_string()), false);
    assert!(groups.copied.is_empty());
}

#[test]
fn a_search_ends_with_the_first_good_source() {
    let sources = vec![source("a", "v1"), source("b", "v2")];
    let start = run_repair_file(
        repair(Some("http://host/file"), true),
        &sources,
        &Some("v1".to_string()),
        Vec::new(),
        9,
    );
    let mut search = start.search.unwrap();
    assert!(!search.is_resolved());
    let tasks = search.finish_volume(false, Some(path("a"))).unwrap_or_else(|_| unreachable!());
    assert!(search.is_resolved());
    assert!(matches!(&tasks[0], Task::ReuseFile { copy_only: false, .. }));
    assert!(search.finish_volume(false, Some(path("b"))).unwrap_or_else(|_| unreachable!()).is_empty());
}

#[test]
fn a_file_without_sources_is_downloaded() {
    let start = run_repair_file(
        repair(Some("http://host/file"), true),
        &Vec::new(),
        &None,
        Vec::new(),
        1,
    );
    assert!(start.search.is_none());
    assert!(matches!(
        start.run,
        TaskRun::Continue { task: Task::Download { .. } } | TaskRun::Expand { .. }
    ));
    let start = run_repair_file(repair(None, true), &Vec::new(), &None, Vec::new(), 1);
    assert!(matches!(start.run, TaskRun::Failed { .. }));
}

#[test]
fn nothing_is_prepared_for_a_repair_that_checks_its_destination_first() {
    let prepare = || vec![Task::Hardlink { src: path("x"), dest: path("y") }];
    let sources = vec![source("a", "v1")];
    let here = Some("v1".to_string());
    let count = |checks: bool, sources: &Vec<ReuseSource>| {
        let mut file = repair(Some("http://host/file"), true);
        file.verify_destination_fallback = checks;
        match run_repair_file(file, sources, &here, prepare(), 1).run {
            TaskRun::Expand { expansion, .. } => expansion.len(),
            TaskRun::Continue { .. } => 1,
            _ => 0,
        }
    };
    assert_eq!(count(false, &sources), 2);
    assert_eq!(count(true, &sources), 1);
}

#[test]
fn a_volume_is_looked_at_until_the_search_ends() {
    assert_eq!(next_candidate(0, 2, false), Some(0));
    assert_eq!(next_candidate(1, 2, false), Some(1));
    assert_eq!(next_candidate(2, 2, false), None);
    assert_eq!(next_candidate(0, 2, true), None);
    let sources = vec![source("a", "v1"), source("b", "v1")];
    let here = Some("v1".to_string());
    let start = run_repair_file(repair(None, true), &sources, &here, Vec::new(), 9);
    let mut search = start.search.unwrap();
    assert!(matches!(
        run_verify_reuse_volume(&mut search, true, false, Some(path("a"))),
        TaskRun::Succeeded
    ));
    assert!(!search.is_resolved());
    assert!(matches!(
        run_verify_reuse_volume(&mut search, false, false, Some(path("a"))),
        TaskRun::Expand { .. } | TaskRun::Continue { .. }
    ));
    assert!(search.is_resolved());
}

#[test]
fn failed_links_become_copies() {
    let end = finish_reuse_file(
        path("a"),
        false,
        vec![path("b")],
        repair(None, true),
        Err("cross device".to_string()),
    );
    assert!(matches!(
        end.run,
        TaskRun::Continue { task: Task::ReuseFile { copy_only: true, .. } }
    ));
    let end = finish_reuse_file(
        path("a"),
        true,
        vec![path("b")],
        repair(None, true),
        Err("disk full".to_string()),
    );
    assert!(matches!(end.run, TaskRun::Continue { task: Task::RepairFile { .. } }));
    let end = finish_reuse_file(path("a"), false, Vec::new(), repair(None, true), Ok(PathReuseMethod::Hardlink));
    assert!(matches!(end.run, TaskRun::Succeeded));
    assert_eq!(end.events.len(), 2);
}

fn download(retry_count: u32) -> FileDownload {
    FileDownload {
        url: "http://host/file".to_string(),
        dest: path("game/file.bin"),
        logical_path: "file.bin".to_string(),
        expected_md5: "00".repeat(16),
        expected_size: Some(4),
        retry_count,
        transfer_class: TransferClass::General,
        archive_repair: None,
    }
}

#[test]
fn failed_downloads_are_tried_again_so_many_times() {
    let again = retry_or_fail_download(download(0), 1, "reset");
    match again.run {
        TaskRun::Continue { task: Task::Download { download, resume } } => {
            assert_eq!(download.retry_count, 1);
            assert!(resume.is_none());
        }
        _ => unreachable!(),
    }
    let last = retry_or_fail_download(download(1), 1, "reset");
    assert!(matches!(last.run, TaskRun::Failed { .. }));
}

#[test]
fn prepared_downloads_are_transferred() {
    let resume = DownloadPreparation::Resume {
        resume: DownloadResumeState::new(2),
        remove_partial: false,
    };
    let end = run_prepare_download(download(0), Ok(resume), Vec::new(), 1);
    assert!(matches!(
        end.run,
        TaskRun::Continue { task: Task::Download { resume: Some(_), .. } }
    ));
    let end = run_prepare_download(
        download(0),
        Ok(DownloadPreparation::Done { bytes: 4 }),
        Vec::new(),
        1,
    );
    assert!(matches!(end.run, TaskRun::Succeeded));
    let end = run_transfer_download(download(0), None, Ok(4), 1);
    assert!(matches!(end.run, TaskRun::Succeeded));
    assert!(!end.events.is_empty());
}

fn ensure_file(prefer_reuse: bool) -> EnsureFile {
    EnsureFile {
        dest: path("game/target.bin"),
        logical_path: "target.bin".to_string(),
        sources: 1,
        downloadable: true,
        prefer_reuse,
        retry_count: 0,
        max_retries: 1,
    }
}

#[test]
fn good_files_are_relinked_when_reuse_is_preferred() {
    let file = ensure_file(true);
    let mut run = EnsureRun::new();
    assert_eq!(run.action(), EnsureAction::InspectDestination);
    run.step(&file, EnsureEvent::Inspected { issue: None });
    assert_eq!(run.action(), EnsureAction::InspectSource { index: 0 });
    run.step(&file, EnsureEvent::Inspected { issue: None });
    assert_eq!(run.action(), EnsureAction::Reuse { index: 0 });
    let events = run.step(&file, EnsureEvent::Reused { result: Ok(PathReuseMethod::Hardlink) });
    let _ = events;
    assert_eq!(run.action(), EnsureAction::InspectReused { index: 0 });
    let events = run.step(&file, EnsureEvent::Inspected { issue: None });
    assert_eq!(run.action(), EnsureAction::Stop);
    assert!(events.iter().any(|event| matches!(
        event,
        WorkerEvent::Outcome { outcome: TaskOutcome::Verified { ok: true, .. } }
    )));
}

#[test]
fn good_files_are_kept() {
    let file = ensure_file(false);
    let mut run = EnsureRun::new();
    run.step(&file, EnsureEvent::Inspected { issue: None });
    assert_eq!(run.action(), EnsureAction::Stop);
}

#[test]
fn broken_files_are_downloaded_in_the_end() {
    let file = ensure_file(false);
    let mut run = EnsureRun::new();
    run.step(&file, EnsureEvent::Inspected { issue: Some(IssueKind::Missing) });
    run.step(&file, EnsureEvent::Inspected { issue: Some(IssueKind::Missing) });
    assert_eq!(run.action(), EnsureAction::Download);
    run.step(&file, EnsureEvent::Downloaded { result: Ok(4) });
    assert_eq!(run.action(), EnsureAction::InspectDownloaded);
    run.step(&file, EnsureEvent::Inspected { issue: None });
    assert_eq!(run.action(), EnsureAction::Stop);
}

#[test]
fn interrupted_volumes_are_downloaded_again() {
    let name = "bundle.zip.001".to_string();
    assert_eq!(first_volume_action(0), VolumeAction::Extract);
    let action = first_volume_action(1);
    assert_eq!(action, VolumeAction::Inspect { part: 0, attempt: 0 });
    let broken = VolumeEvent::Inspected { issue: Some(IssueKind::SizeMismatch) };
    let (action, _) = install_archive_step(1, &name, 1, action, &broken, "");
    assert_eq!(action, VolumeAction::Download { part: 0, attempt: 0 });
    let got = VolumeEvent::Downloaded { result: Ok(10) };
    let (action, _) = install_archive_step(1, &name, 1, action, &got, "");
    assert_eq!(action, VolumeAction::InspectDownloaded { part: 0, attempt: 0 });
    let good = VolumeEvent::Inspected { issue: None };
    let (action, events) = install_archive_step(1, &name, 1, action, &good, "");
    assert_eq!(action, VolumeAction::Extract);
    assert!(!events.is_empty());
}

#[test]
fn single_tasks_end_as_they_should() {
    assert!(matches!(run_plain(Ok(())), TaskRun::Succeeded));
    assert!(matches!(run_plain(Err("x".to_string())), TaskRun::Failed { .. }));
    assert_eq!(
        run_panicked().failure_details().map(|found| found.0.clone()),
        Some("task run panicked".to_string())
    );
    let end = run_hardlink(&path("a/b"), Ok(()));
    assert!(matches!(
        &end.events[0],
        WorkerEvent::Outcome { outcome: TaskOutcome::Hardlinked { path } } if path == "a/b"
    ));
    let end = run_verify("x".to_string(), None, None);
    assert!(matches!(end.run, TaskRun::Succeeded));
    let again = Box::new(Task::Hardlink { src: path("s"), dest: path("d") });
    let end = run_verify("x".to_string(), Some(IssueKind::Missing), Some(again));
    assert!(matches!(end.run, TaskRun::Continue { task: Task::Hardlink { .. } }));
    let end = run_verify("x".to_string(), Some(IssueKind::Missing), None);
    assert!(matches!(end.run, TaskRun::Failed { .. }));
}
