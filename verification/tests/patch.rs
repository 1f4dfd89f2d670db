use std::sync::Arc;

use griffr_common::digest::ByteStream;
use griffr_common::error::Message;
use griffr_common::event::{TaskOutcome, WorkerEvent};
use griffr_common::graph::expansion::TaskRun;
use griffr_common::patch::apply::{
    begin_entry, entry_failure, judge_base, judge_local, plan_entry, EntryAction,
};
use griffr_common::patch::manifest::{
    begin_manifest_entry, choose_candidate, local_entry, local_payload_of, manifest_entry_paths,
    CandidateChoice, CandidateFacts, ManifestEntry, ManifestEntryStep, PatchCandidate,
};
use griffr_common::patch::output::{
    begin_manifest, check_inline_copy, difference_error, local_payload_error, patch_error,
    plan_difference, replace_error, verify_patch_output, ManifestStep,
};
use griffr_common::patch::plan::{PatchPlan, PlannedPatchEntry, PlannedPatchSource};
use griffr_common::patch::run::{resumed_plan, run_steps, step_paths, RunStep};
use griffr_common::patch::schedule::schedule_patch_apply;
use griffr_common::patch::steps::{
    commit_deferred_files, count_base_uses, delete_unreferenced_paths_before_patch,
    prepare_external_vfs_root, release_base_if_unused, release_patch_base, relocation_step,
    remaining_deletes, BaseUses, Occupant, RelocationStep, VfsRootAction,
};
use griffr_common::patch::waves::{entry_dependency_indices, entry_waves, ordered_entries};
use griffr_common::path::FilePath;
use griffr_common::runner::{patch_start_event, run_apply_patch_entry, run_apply_patch_manifest};
use griffr_common::task::{ArchiveRetention, ArchiveWork, Task};
use griffr_common::verify::{IssueKind, Observed};

fn path(text: &str) -> FilePath {
    FilePath::parse(text)
}

fn plan(
    entries: Vec<PlannedPatchEntry>,
    delete_paths: Vec<FilePath>,
    deferred_paths: Vec<FilePath>,
) -> PatchPlan {
    PatchPlan {
        schema_version: 1,
        install_root: path("/install"),
        stage_root: path("/stage"),
        vfs_base_path: path("Game_Data/StreamingAssets/VFS"),
        vfs_destination: path("/install/Game_Data/StreamingAssets/VFS"),
        work_dir: None,
        entries,
        delete_paths,
        deferred_paths,
    }
}

fn entry(name: &str, source: PlannedPatchSource) -> PlannedPatchEntry {
    PlannedPatchEntry {
        name: name.to_string(),
        destination: path("/install/Game_Data/StreamingAssets/VFS").child(name),
        expected_md5: "a".to_string(),
        expected_size: 1,
        source,
    }
}

fn hdiff(base: &str) -> PlannedPatchSource {
    PlannedPatchSource::Hdiff {
        base: path("/install/Game_Data/StreamingAssets/VFS").child(base),
        payload: path("vfs_files/vfs_patch/output.patch"),
        base_md5: "11111111111111111111111111111111".to_string(),
        base_size: 7,
    }
}

#[test]
fn tests_plan_rejects_delete_manifest_conflict_with_output() {
    let plan = plan(
        vec![entry("final.bin", PlannedPatchSource::AlreadyPresent)],
        vec![path("Game_Data/StreamingAssets/VFS/final.bin")],
        Vec::new(),
    );

    assert!(plan.validate().is_err());
}

#[test]
fn transaction_plan_rejects_delete_manifest_conflict_with_output() {
    let output = path("/install/Game_Data/StreamingAssets/VFS/final.bin");
    let mut plan = plan(
        Vec::new(),
        vec![path("Game_Data/StreamingAssets/VFS/final.bin")],
        Vec::new(),
    );
    assert!(plan.validate().is_ok());
    plan.entries.push(PlannedPatchEntry {
        name: "final.bin".to_string(),
        destination: output,
        expected_md5: "a".to_string(),
        expected_size: 1,
        source: PlannedPatchSource::AlreadyPresent,
    });

    assert!(plan.validate().is_err());
}

#[test]
fn tests_base_is_released_only_after_last_consumer() {
    let base = path("/install/Game_Data/StreamingAssets/VFS/old.bin");
    let plan = plan(
        Vec::new(),
        vec![path("Game_Data/StreamingAssets/VFS/old.bin")],
        Vec::new(),
    );
    let mut remaining = BaseUses::new();
    remaining.add_use(&base);
    remaining.add_use(&base);

    assert!(!release_base_if_unused(&plan, &base, &mut remaining));
    assert!(release_base_if_unused(&plan, &base, &mut remaining));
    assert!(release_patch_base(&plan, &base));
}

#[test]
fn transaction_base_is_released_only_after_last_consumer() {
    let plan = plan(
        vec![entry("a.bin", hdiff("old.bin")), entry("b.bin", hdiff("old.bin"))],
        vec![path("Game_Data/StreamingAssets/VFS/old.bin")],
        Vec::new(),
    );
    let base = path("/install/Game_Data/StreamingAssets/VFS/old.bin");
    let mut remaining = count_base_uses(&plan);

    assert!(!release_base_if_unused(&plan, &base, &mut remaining));
    assert!(release_base_if_unused(&plan, &base, &mut remaining));
}

#[test]
fn tests_application_revalidates_persisted_base_metadata() {
    let plan = plan(vec![entry("output.bin", hdiff("base.bin"))], Vec::new(), Vec::new());
    let (base, payload) = match begin_entry(&plan, &plan.entries[0], false) {
        EntryAction::InspectBase { base, payload, .. } => (base, payload),
        _ => unreachable!(),
    };
    let action = judge_base(
        &plan.entries[0],
        base,
        payload,
        Some(IssueKind::Md5Mismatch),
        true,
    );
    let error = match action {
        EntryAction::Fail { message } => message.message(),
        _ => unreachable!(),
    };
    assert!(error.contains("failed verification before applying"));
}

fn external_vfs_plan() -> PatchPlan {
    let mut consumer = entry("final.bin", hdiff("intermediate.bin"));
    consumer.destination = path("/external/final.bin");
    let mut writer = entry(
        "intermediate.bin",
        PlannedPatchSource::Local { payload: path("vfs_files/files/intermediate.bin") },
    );
    writer.destination = path("/external/intermediate.bin");
    let mut plan = plan(vec![writer, consumer], Vec::new(), Vec::new());
    plan.vfs_destination = path("/external");
    plan
}

#[test]
fn tests_dependency_order_uses_logical_path_for_external_vfs() {
    let plan = external_vfs_plan();

    let order = ordered_entries(&plan).unwrap();
    assert_eq!(plan.entries[order[0]].name, "final.bin");
    assert_eq!(plan.entries[order[1]].name, "intermediate.bin");
}

#[test]
fn transaction_dependency_order_uses_logical_path_for_external_vfs() {
    let plan = external_vfs_plan();

    let waves = entry_waves(&plan).unwrap();
    assert_eq!(waves, vec![vec![1], vec![0]]);
    let dependencies = entry_dependency_indices(&plan).unwrap();
    assert_eq!(dependencies, vec![vec![1], vec![]]);
    let order = ordered_entries(&plan).unwrap();
    assert_eq!(plan.entries[order[0]].name, "final.bin");
    assert_eq!(plan.entries[order[1]].name, "intermediate.bin");
}

#[test]
fn circular_bases_are_refused() {
    let plan = plan(
        vec![entry("a.bin", hdiff("b.bin")), entry("b.bin", hdiff("a.bin"))],
        Vec::new(),
        Vec::new(),
    );
    assert!(entry_waves(&plan).is_err());
    assert!(ordered_entries(&plan).is_err());
}

#[test]
fn corrupt_local_payload_does_not_replace_existing_destination() {
    let plan = plan(
        vec![entry(
            "output.bin",
            PlannedPatchSource::Local { payload: path("vfs_files/files/output.bin") },
        )],
        Vec::new(),
        Vec::new(),
    );
    let source = match begin_entry(&plan, &plan.entries[0], false) {
        EntryAction::InspectLocal { source } => source,
        _ => unreachable!(),
    };
    let error =
        match judge_local(&plan.entries[0], source, true, Some(IssueKind::SizeMismatch)) {
            EntryAction::Fail { message } => message,
            _ => unreachable!(),
        };
    assert!(error.message().contains("failed verification"));
    assert!(entry_failure("output.bin", &error).message().contains("output.bin"));
}

#[test]
fn good_local_payload_is_moved_to_its_place() {
    let plan = plan(
        vec![entry(
            "output.bin",
            PlannedPatchSource::Local { payload: path("vfs_files/files/output.bin") },
        )],
        Vec::new(),
        Vec::new(),
    );
    assert!(matches!(begin_entry(&plan, &plan.entries[0], true), EntryAction::Finished));
    let source = path("/stage/vfs_files/files/output.bin");
    match judge_local(&plan.entries[0], source, true, None) {
        EntryAction::MoveLocal { source, target } => {
            assert_eq!(source.text(), "/stage/vfs_files/files/output.bin");
            assert_eq!(target.text(), "/install/Game_Data/StreamingAssets/VFS/output.bin");
        }
        _ => unreachable!(),
    }
    assert!(plan_entry(&plan, 0).is_ok());
    assert!(plan_entry(&plan, 1).is_err());
}

#[test]
fn missing_deferred_marker_blocks_final_commit() {
    let plan = plan(Vec::new(), Vec::new(), vec![path("config.ini")]);

    let error = commit_deferred_files(&plan, &vec![false], &vec![false]).err().unwrap();

    assert!(error.message().contains("Missing deferred patch file"));
}

#[test]
fn deferred_files_are_committed_last() {
    let plan = plan(Vec::new(), Vec::new(), vec![path("config.ini")]);
    let moves = commit_deferred_files(&plan, &vec![true], &vec![false])
        .unwrap_or_else(|_| unreachable!());
    assert_eq!(moves.len(), 1);
    assert_eq!(moves[0].source.text(), "/install/.griffr-patch/deferred/config.ini");
    assert_eq!(moves[0].target.text(), "/install/config.ini");
}

#[test]
fn deferred_files_of_an_earlier_run_stay_in_place() {
    let plan = plan(Vec::new(), Vec::new(), vec![path("config.ini"), path("version.txt")]);
    let moves = commit_deferred_files(&plan, &vec![false, true], &vec![true, true])
        .unwrap_or_else(|_| unreachable!());
    assert_eq!(moves.len(), 1);
    assert_eq!(moves[0].target.text(), "/install/version.txt");
    let moves = commit_deferred_files(&plan, &vec![false, false], &vec![true, true])
        .unwrap_or_else(|_| unreachable!());
    assert!(moves.is_empty());
    let error = commit_deferred_files(&plan, &vec![true, false], &vec![false, false])
        .err()
        .unwrap();
    assert_eq!(
        error.message(),
        "VFS error: Missing deferred patch file /install/.griffr-patch/deferred/version.txt"
    );
}

#[test]
fn a_resumed_patch_takes_the_same_steps() {
    let plan = plan(
        vec![entry("a.bin", hdiff("old.bin")), entry("b.bin", hdiff("old.bin"))],
        vec![path("Game_Data/StreamingAssets/VFS/old.bin")],
        Vec::new(),
    );
    let steps = || -> Vec<String> {
        run_steps(&plan)
            .unwrap_or_else(|_| unreachable!())
            .iter()
            .map(|step| match step {
                RunStep::Apply { entry, finished } => format!("{entry}:{finished}"),
                RunStep::Remove { base } => base.text(),
            })
            .collect()
    };
    assert_eq!(steps(), steps());
    assert_eq!(steps()[..2], ["0:1".to_string(), "1:2".to_string()]);
    for entry in &plan.entries {
        assert!(matches!(begin_entry(&plan, entry, true), EntryAction::Finished));
    }
}

#[test]
fn early_deletes_spare_bases_and_outputs() {
    let plan = plan(
        vec![entry("a.bin", hdiff("old.bin"))],
        vec![
            path("Game_Data/StreamingAssets/VFS/old.bin"),
            path("Game_Data/unused.bin"),
        ],
        Vec::new(),
    );
    let early: Vec<String> = delete_unreferenced_paths_before_patch(&plan)
        .iter()
        .map(|found| found.text())
        .collect();
    assert_eq!(early, vec!["/install/Game_Data/unused.bin"]);
    let steps = remaining_deletes(&plan);
    assert_eq!(steps.len(), 2);
    assert!(steps.iter().all(|step| step.remove.is_some()));
}

#[test]
fn external_roots_are_linked_or_refused() {
    let inside = plan(Vec::new(), Vec::new(), Vec::new());
    assert!(matches!(prepare_external_vfs_root(&inside, None), VfsRootAction::Nothing));
    let mut outside = plan(Vec::new(), Vec::new(), Vec::new());
    outside.vfs_destination = path("/external");
    assert!(matches!(prepare_external_vfs_root(&outside, None), VfsRootAction::Relocate));
    assert!(matches!(
        prepare_external_vfs_root(&outside, Some(path("/external"))),
        VfsRootAction::KeepLink
    ));
    assert!(matches!(
        prepare_external_vfs_root(&outside, Some(path("/elsewhere"))),
        VfsRootAction::Refuse { .. }
    ));
}

#[test]
fn relocated_files_never_overwrite_other_files() {
    let target = path("/external/a.bin");
    let same = Occupant { is_file: true, same_length: true, same_digest: true };
    let other = Occupant { is_file: true, same_length: true, same_digest: false };
    assert!(matches!(relocation_step(None, &target), RelocationStep::MoveFile));
    assert!(matches!(relocation_step(Some(same), &target), RelocationStep::DropSource));
    assert!(matches!(relocation_step(Some(other), &target), RelocationStep::Conflict { .. }));
}

fn archive() -> Arc<ArchiveWork> {
    Arc::new(ArchiveWork {
        base_name: "bundle".to_string(),
        volumes: Vec::new(),
        remote: false,
        dest: path("/install"),
        retention: ArchiveRetention::DiscardVolumes,
        parts: Vec::new(),
        password: None,
        work_dir: None,
        expected_files: Arc::new(Vec::new()),
        excluded_commit_paths: Vec::new(),
        tokens: Vec::new(),
        repair_group: None,
    })
}

#[test]
fn patch_entries_become_a_graph() {
    let plan = Arc::new(external_vfs_plan());
    let expansion = match schedule_patch_apply(archive(), plan) {
        TaskRun::Expand { expansion, next } => {
            assert!(next.is_none());
            expansion
        }
        _ => unreachable!(),
    };
    // preparation, two entries, one base, deletes, deferred files, clean-up
    assert_eq!(expansion.len(), 7);
}

fn manifest_entry(local: Option<&str>, patch: Vec<PatchCandidate>) -> ManifestEntry {
    ManifestEntry {
        name: "ui/direct.ab".to_string(),
        md5: "75c4e133155014e946c3ef39652b0ba8".to_string(),
        size: 13,
        local_path: local.map(|found| found.to_string()),
        patch,
    }
}

fn candidate(base: &str) -> PatchCandidate {
    PatchCandidate {
        base_file: base.to_string(),
        base_file_path: None,
        base_md5: "00".to_string(),
        base_size: 1,
        patch: "x.patch".to_string(),
        patch_path: None,
    }
}

#[test]
fn local_manifest_entries_come_from_the_stage() {
    let entry = manifest_entry(Some("files/ui/direct.ab"), Vec::new());
    let local = local_payload_of(&entry).unwrap();
    let planned = local_entry(
        &path("/install"),
        &path("/install/vfs_files"),
        &path("/install/Arknights_Data"),
        &entry,
        &local,
    )
    .unwrap_or_else(|_| unreachable!());
    assert_eq!(planned.source.text(), "/install/vfs_files/files/ui/direct.ab");
    assert_eq!(planned.target.text(), "/install/Arknights_Data/ui/direct.ab");
    assert_eq!(planned.logical_path, "ui/direct.ab");
    assert!(local_payload_of(&manifest_entry(Some("  "), Vec::new())).is_none());
}

#[test]
fn the_first_good_candidate_is_applied() {
    let root = path("/install");
    let stage = path("/install/vfs_files");
    let dest = path("/install/VFS");
    let entry = manifest_entry(None, vec![candidate("a.ab"), candidate("b.ab")]);
    let bad = || CandidateFacts { base_issue: Some(IssueKind::Missing), payload_is_file: true };
    let good = || CandidateFacts { base_issue: None, payload_is_file: true };
    assert!(matches!(
        choose_candidate(&root, &stage, &dest, &entry, &Vec::new()),
        CandidateChoice::Inspect { index: 0, .. }
    ));
    assert!(matches!(
        choose_candidate(&root, &stage, &dest, &entry, &vec![bad()]),
        CandidateChoice::Inspect { index: 1, .. }
    ));
    assert!(matches!(
        choose_candidate(&root, &stage, &dest, &entry, &vec![bad(), good()]),
        CandidateChoice::Apply { index: 1, .. }
    ));
    match choose_candidate(&root, &stage, &dest, &entry, &vec![bad(), bad()]) {
        CandidateChoice::Fail { message } => {
            assert!(message.message().contains("has no verified base file to patch"));
        }
        _ => unreachable!(),
    }
    let none = manifest_entry(None, Vec::new());
    match choose_candidate(&root, &stage, &dest, &none, &Vec::new()) {
        CandidateChoice::Fail { message } => {
            assert!(message.message().contains("has no applicable patch candidates"));
        }
        _ => unreachable!(),
    }
}

#[test]
fn patch_tasks_end_as_they_should() {
    assert!(patch_start_event(0).is_none());
    assert!(patch_start_event(3).is_some());
    let plan = plan(
        vec![entry("a.bin", hdiff("old.bin")), entry("b.bin", hdiff("old.bin"))],
        Vec::new(),
        Vec::new(),
    );
    let mut applied: usize = 0;
    let done = run_apply_patch_entry(&plan, 1, Ok(()), &mut applied);
    assert!(matches!(done.run, TaskRun::Succeeded));
    assert_eq!(applied, 1);
    assert!(matches!(
        done.events.as_slice(),
        [
            WorkerEvent::Outcome { outcome: TaskOutcome::Changed { path } },
            WorkerEvent::Progress { completed: 1, total: 2, reset: false, .. },
        ] if path == "Game_Data/StreamingAssets/VFS/b.bin"
    ));
    let failed = run_apply_patch_entry(&plan, 0, Err("boom".to_string()), &mut applied);
    assert!(matches!(failed.run, TaskRun::Failed { .. }));
    assert_eq!(applied, 1);
    let out = run_apply_patch_entry(&plan, 2, Ok(()), &mut applied);
    assert_eq!(applied, 1);
    assert_eq!(
        out.run.failure_details().map(|found| found.0.clone()),
        Some("patch entry index 2 is out of range".to_string())
    );
    assert!(matches!(
        run_apply_patch_manifest(path("/install"), false, Ok(())),
        TaskRun::Continue { task: Task::ApplyDeleteManifest { .. } }
    ));
    assert!(matches!(
        run_apply_patch_manifest(path("/install"), true, Ok(())),
        TaskRun::Succeeded
    ));
    assert!(matches!(
        run_apply_patch_manifest(path("/install"), true, Err("boom".to_string())),
        TaskRun::Failed { report: true, .. }
    ));
}

#[test]
fn bases_are_removed_after_their_last_use() {
    let mut plan = plan(
        vec![entry("a.bin", hdiff("old.bin")), entry("b.bin", hdiff("old.bin"))],
        vec![path("Game_Data/StreamingAssets/VFS/old.bin")],
        Vec::new(),
    );
    let steps = run_steps(&plan).unwrap_or_else(|_| unreachable!());
    assert!(matches!(
        steps.as_slice(),
        [
            RunStep::Apply { entry: 0, finished: 1 },
            RunStep::Apply { entry: 1, finished: 2 },
            RunStep::Remove { base },
        ] if base.text() == "/install/Game_Data/StreamingAssets/VFS/old.bin"
    ));
    plan.delete_paths.clear();
    assert_eq!(run_steps(&plan).unwrap_or_else(|_| unreachable!()).len(), 2);
}

#[test]
fn resumed_patches_report_what_the_first_run_reports() {
    let make = || {
        plan(
            vec![
                entry("final.bin", hdiff("middle.bin")),
                entry("middle.bin", PlannedPatchSource::AlreadyPresent),
            ],
            Vec::new(),
            Vec::new(),
        )
    };
    let plan = make();
    let first = run_steps(&plan).unwrap_or_else(|_| unreachable!());
    let again = resumed_plan(Ok(make())).unwrap_or_else(|_| unreachable!());
    let second = run_steps(&again).unwrap_or_else(|_| unreachable!());
    let told = |steps: &Vec<RunStep>| {
        steps
            .iter()
            .map(|step| match step {
                RunStep::Apply { entry, finished } => (*entry, *finished),
                RunStep::Remove { .. } => (usize::MAX, 0),
            })
            .collect::<Vec<_>>()
    };
    assert_eq!(told(&first), told(&second));
    assert_eq!(step_paths(&plan, &first), step_paths(&again, &second));
    assert_eq!(step_paths(&plan, &first).len(), 2);
    assert!(step_paths(&plan, &first)[0].starts_with("Game_Data/StreamingAssets/VFS/"));
}

#[test]
fn patches_without_a_plan_are_not_resumed() {
    let missing = Message::new("", "Failed to read /install/plan.json: no such file".to_string());
    assert_eq!(
        resumed_plan(Err(missing)).err().unwrap().message(),
        "Failed to read /install/plan.json: no such file"
    );
    let torn = plan(
        vec![entry("final.bin", PlannedPatchSource::AlreadyPresent)],
        vec![path("Game_Data/StreamingAssets/VFS/final.bin")],
        Vec::new(),
    );
    assert_eq!(
        resumed_plan(Ok(torn)).err().unwrap().message(),
        "VFS error: Patch plan deletes its own output Game_Data/StreamingAssets/VFS/final.bin"
    );
}

#[test]
fn manifest_entries_begin_with_what_is_there() {
    let root = path("/install");
    let stage = path("/install/vfs_files");
    let dest = path("/install/Data");
    let begin = |entry: &ManifestEntry, right: bool, payload: bool| {
        begin_manifest_entry(&root, &stage, &dest, entry, right, payload)
    };
    let local = manifest_entry(Some(" files/ui/direct.ab "), Vec::new());
    assert!(matches!(begin(&local, true, false), ManifestEntryStep::Finished));
    match begin(&local, false, true) {
        ManifestEntryStep::MoveLocal { local } => {
            assert_eq!(local.source.text(), "/install/vfs_files/files/ui/direct.ab");
            assert_eq!(local.target.text(), "/install/Data/ui/direct.ab");
        }
        _ => unreachable!(),
    }
    match begin(&local, false, false) {
        ManifestEntryStep::Fail { message } => assert_eq!(
            message.message(),
            "VFS error: patch.json local payload is missing for ui/direct.ab: \
             /install/vfs_files/files/ui/direct.ab"
        ),
        _ => unreachable!(),
    }
    let patched = manifest_entry(Some("  "), vec![candidate("old.ab")]);
    match begin(&patched, false, true) {
        ManifestEntryStep::Patch { target, logical_path } => {
            assert_eq!(target.text(), "/install/Data/ui/direct.ab");
            assert_eq!(logical_path, "ui/direct.ab");
        }
        _ => unreachable!(),
    }
    let mut outside = manifest_entry(None, Vec::new());
    outside.name = "../a".to_string();
    match begin(&outside, true, true) {
        ManifestEntryStep::Fail { message } => {
            assert!(message.message().starts_with("Invalid path: patch.json file name"));
        }
        _ => unreachable!(),
    }
    let away = manifest_entry(Some("../b"), Vec::new());
    match begin(&away, false, true) {
        ManifestEntryStep::Fail { message } => {
            assert!(message.message().starts_with("Invalid path: patch.json local_path"));
        }
        _ => unreachable!(),
    }
    let paths = manifest_entry_paths(&root, &stage, &dest, &local);
    assert_eq!(paths.target.unwrap().text(), "/install/Data/ui/direct.ab");
    assert_eq!(paths.payload.unwrap().text(), "/install/vfs_files/files/ui/direct.ab");
    let none = manifest_entry_paths(&root, &stage, &dest, &away);
    assert!(none.target.is_some() && none.payload.is_none());
}

#[test]
fn patch_outputs_are_checked() {
    let seen = |size: u64, md5: &str| Some(Observed { size, md5: md5.to_string() });
    assert!(verify_patch_output("a.bin", &seen(1, "AB"), "ab", 1).is_ok());
    assert_eq!(
        verify_patch_output("a.bin", &seen(1, "cd"), "ab", 1).unwrap_err().message(),
        "VFS error: Patch output a.bin failed verification: kind=Md5Mismatch expected_size=1 \
         actual_size=Some(1) expected_md5=ab actual_md5=Some(\"cd\")"
    );
    assert_eq!(
        verify_patch_output("a.bin", &None, "ab", 1).unwrap_err().message(),
        "VFS error: Patch output a.bin failed verification: kind=Missing expected_size=1 \
         actual_size=None expected_md5=ab actual_md5=None"
    );
    let mut stream = ByteStream::new();
    stream.take(b"hello world");
    let done = check_inline_copy("a.bin", 11, "5EB63BBBE01EEED093CB22BB8F5ACDC3", stream)
        .unwrap_or_else(|_| unreachable!());
    assert_eq!(done.bytes, 11);
    let mut stream = ByteStream::new();
    stream.take(b"hello");
    let error = check_inline_copy("a.bin", 11, "00", stream).err().unwrap();
    assert!(error.message().contains("failed inline copy verification"));
}

#[test]
fn patched_files_are_written_beside_their_place() {
    let target = path("game/a.bin");
    let beside = plan_difference(&target, &None, 7, 3).unwrap_or_else(|_| unreachable!());
    assert_eq!(beside.output.text(), "game/.a.bin.griffr.tmp.7.3");
    assert!(beside.beside.is_none());
    let worked = plan_difference(&target, &Some(path("/scratch")), 7, 3)
        .unwrap_or_else(|_| unreachable!());
    assert_eq!(worked.output.text(), "/scratch/.a.bin.griffr-patch-3.tmp");
    assert_eq!(
        worked.beside.map(|found| found.text()),
        Some("game/.a.bin.griffr.tmp.7.3".to_string())
    );
    assert!(plan_difference(&FilePath::empty(), &None, 7, 3).is_err());
    assert_eq!(
        difference_error(&path("p"), &path("b")).message(),
        "Extraction error: hdiffpatch-rs failed to apply p using base b"
    );
    assert_eq!(
        replace_error(&path("a"), &path("b"), "busy").message(),
        "Failed to replace patched file a -> b: busy"
    );
    assert_eq!(
        local_payload_error(&path("a"), &path("b"), "busy").message(),
        "Failed to apply local patch payload a -> b: busy"
    );
    assert_eq!(
        patch_error("x", &path("b"), "busy").message(),
        "Failed to patch x from base b: busy"
    );
}

#[test]
fn payloads_without_a_manifest_are_refused() {
    let manifest = path("install/patch.json");
    assert!(matches!(
        begin_manifest(&manifest, false, false, false),
        ManifestStep::Nothing
    ));
    assert!(matches!(begin_manifest(&manifest, true, true, true), ManifestStep::Read));
    match begin_manifest(&manifest, false, false, true) {
        ManifestStep::Fail { message } => assert!(message.message().ends_with("install/patch.json")),
        _ => unreachable!(),
    }
}
