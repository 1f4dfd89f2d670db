//! What tasks end in: when they fail, when they are tried again and with what,
//! and what they report.

use crate::archive::batches;
use crate::archive::batches::Inspected;
use crate::archive::entries;
use crate::archive::entries::EntryRules;
use crate::archive::entry_laws;
use crate::archive::fetch;
use crate::archive::fetch::{ArchiveEnd, DirectoryDiscovery};
use crate::archive::finish;
use crate::archive::finish::{ShardEnd, ShardState};
use crate::archive::planning;
use crate::archive::planning::{ExtractionEnd, Planned, SaveStep};
use crate::archive::repair;
use crate::archive::repair::RepairEnd;
use crate::archive::volumes;
use crate::archive::volumes::{RetainEnd, RetainStep};
use crate::commit;
use crate::commit::CommitFileJob;
use crate::digest::CopiedFileDigest;
use crate::download::DownloadPreparation;
use crate::error::Message;
use crate::event::{TaskOutcome, WorkerEvent};
use crate::graph::expansion::TaskRun;
use crate::graph::node::TaskDependencyToken;
use crate::patch::output;
use crate::patch::plan::PatchPlan;
use crate::path::FilePath;
use crate::path_safety;
use crate::reuse::ReuseEnd;
use crate::runner;
use crate::task::{
    ArchiveFileRepairTask, ArchiveIndex, ArchivePart, ArchiveRangePriority, ArchiveRangeRequest,
    ArchiveWork, ByteRange, ExpectedFile, FileDownload, PreparedArchive, Task,
};
use crate::text;
use crate::transfer;
use crate::verify::{IssueKind, Observed};
use std::sync::Arc;
use vstd::prelude::*;

verus! {

/// Whether two downloads bring the same file to the same place.
pub open spec fn same_download(a: FileDownload, b: FileDownload) -> bool {
    &&& a.url@ == b.url@
    &&& a.dest@ == b.dest@
    &&& a.logical_path@ == b.logical_path@
    &&& a.expected_md5@ == b.expected_md5@
    &&& a.expected_size == b.expected_size
    &&& a.transfer_class == b.transfer_class
}

/// Whether a run is a failure that is reported, with a reason that ends in a
/// text.
pub open spec fn fails_for(run: TaskRun, cause: Seq<char>) -> bool {
    run matches TaskRun::Failed { reason, report } && report && exists|lead: Seq<char>|
        reason@ == #[trigger] (lead + cause)
}

/// A download that failed is tried again from the start, for the same file, if and
/// only if attempts are left; else it is a failure that names the error. No
/// failure is passed over.
pub proof fn law_failed_downloads_are_tried_again(
    end: ReuseEnd,
    download: FileDownload,
    max_retries: u32,
    error: Seq<char>,
)
    requires
        transfer::retries_or_fails(end, download, max_retries, error),
    ensures
        download.retry_count < max_retries ==> (end.run matches TaskRun::Continue {
            task: Task::Download { download: next, resume },
        } && resume is None && same_download(next, download) && next.archive_repair
            == download.archive_repair && next.retry_count == download.retry_count + 1),
        download.retry_count < max_retries ==> end.events@.len() == 1 && (
        end.events@[0] matches WorkerEvent::Retried { path, .. } && path@
            == download.logical_path@),
        download.retry_count >= max_retries ==> fails_for(end.run, error),
{
    if download.retry_count >= max_retries {
        assert(end.run->reason@ == "download failed after retries: "@ + error);
    }
}

/// What was prepared is used: a whole file is reported with its size and is good,
/// any other is transferred from where it was left, beside all that else is to be
/// done. A preparation that failed is tried again.
pub proof fn law_prepared_downloads_go_on(
    end: ReuseEnd,
    download: FileDownload,
    prepared: Result<DownloadPreparation, String>,
    prepare: Seq<Task>,
    max_retries: u32,
)
    requires
        transfer::prepared_ends(end, download, prepared, prepare, max_retries),
    ensures
        end.run is Succeeded <==> (prepared matches Ok(found) && found is Done),
        prepared matches Ok(DownloadPreparation::Done { bytes }) ==> end.events@.len() == 2 && (
        end.events@[0] matches WorkerEvent::Outcome {
            outcome: TaskOutcome::Downloaded { path, bytes: b },
        } && path@ == download.logical_path@ && b == bytes),
        prepared matches Ok(DownloadPreparation::Resume { resume, .. }) ==> {
            let transfer = Task::Download { download, resume: Some(resume) };
            ||| prepare.len() == 0 && end.run == (TaskRun::Continue { task: transfer })
            ||| end.run matches TaskRun::Expand { expansion, next } && next is None
                && expansion@.len() == prepare.len() + 1 && expansion@[prepare.len() as int].task
                == transfer && forall|i: int|
                0 <= i < prepare.len() ==> (#[trigger] expansion@[i]).task == prepare[i]
        },
        prepared matches Err(error) ==> (end.run is Continue <==> download.retry_count
            < max_retries) && (end.run is Failed <==> download.retry_count >= max_retries),
{
    if prepared matches Ok(DownloadPreparation::Resume { resume, .. }) {
        let resume = prepared->Ok_0->resume;
        if prepare.len() > 0 {
            let transfer = Task::Download { download, resume: Some(resume) };
            let tasks = prepare.push(transfer);
            let expansion = end.run->Expand_expansion;
            assert forall|i: int| 0 <= i < prepare.len() implies (#[trigger] expansion@[i]).task
                == prepare[i] by {
                assert(tasks[i] == prepare[i]);
            }
            assert(tasks[prepare.len() as int] == transfer);
        }
    }
}

/// A transfer that came to its end is reported with its bytes, and its file is
/// good. One that failed is tried again by a download alone, as long as attempts
/// are left. One that was given up for an archive goes on there.
pub proof fn law_transfers_end(
    end: ReuseEnd,
    download: FileDownload,
    selected: Option<ArchiveFileRepairTask>,
    result: Result<u64, String>,
    max_retries: u32,
)
    requires
        transfer::transfer_ends(end, download, selected, result, max_retries),
    ensures
        selected matches Some(repair) ==> end.run == (TaskRun::Continue {
            task: Task::FetchArchiveRepairFile { repair },
        }),
        end.run is Succeeded <==> selected is None && result is Ok,
        selected is None ==> (result matches Ok(bytes) ==> end.events@.len() == 2 && (
        end.events@[0] matches WorkerEvent::Outcome {
            outcome: TaskOutcome::Downloaded { path, bytes: b },
        } && path@ == download.logical_path@ && b == bytes) && (
        end.events@[1] matches WorkerEvent::Outcome {
            outcome: TaskOutcome::Verified { path, ok, issue },
        } && path@ == download.logical_path@ && ok && issue is None)),
        selected is None && result is Err ==> if download.retry_count < max_retries {
            end.run matches TaskRun::Continue { task: Task::Download { download: next, resume } }
                && resume is None && same_download(next, download) && next.archive_repair is None
                && next.retry_count == download.retry_count + 1
        } else {
            end.run is Failed
        },
{
}

/// A piece that was fetched is reported with its bytes. One that was not is
/// fetched again, the same piece with the same priority, as long as attempts are
/// left. Then the task has failed, unless the archive is one that files are
/// repaired out of: that one is given up, and the task has not failed.
pub proof fn law_fetches_end(
    end: ArchiveEnd,
    archive: Arc<ArchiveWork>,
    request: ArchiveRangeRequest,
    retry_count: u32,
    priority: ArchiveRangePriority,
    max_retries: u32,
    fetched: Result<u64, String>,
)
    requires
        fetch::fetch_ends(end, archive, request, retry_count, priority, max_retries, fetched),
    ensures
        end.run is Continue <==> fetched is Err && retry_count < max_retries,
        end.run matches TaskRun::Continue { task } ==> (task matches Task::FetchArchiveRange {
            work,
            request: same,
            retry_count: next,
            priority: p,
        } && work == archive && same == request && next == retry_count + 1 && p == priority),
        end.run is Failed <==> fetched is Err && retry_count >= max_retries
            && archive.repair_group is None,
        end.failed_group is Some <==> fetched is Err && retry_count >= max_retries
            && archive.repair_group is Some,
        end.failed_group is Some ==> end.failed_group == archive.repair_group,
        !end.drop_ranges,
        fetched matches Ok(bytes) ==> end.events@.len() == 1 && (
        end.events@[0] matches WorkerEvent::Outcome { outcome: TaskOutcome::Downloaded { bytes: b, .. } }
            && b == bytes),
{
}

/// Nothing is gone on with before it is there: each missing piece is fetched, and
/// the next task follows all of them.
pub proof fn law_missing_pieces_are_fetched_first(
    end: ArchiveEnd,
    archive: Arc<ArchiveWork>,
    missing: Result<Vec<ArchiveRangeRequest>, String>,
    bringing: Seq<TaskDependencyToken>,
    next: Task,
    i: int,
)
    requires
        fetch::fetches_then(end, archive, missing, bringing, next),
    ensures
        end.run is Continue <==> (missing matches Ok(requests) && requests@.len() == 0),
        end.run matches TaskRun::Continue { task } ==> task == next,
        missing matches Ok(requests) ==> (requests@.len() > 0 ==> (
        end.run matches TaskRun::Expand { expansion, next: after } && after == Some(next)
            && expansion@.len() == requests@.len() && (0 <= i < requests@.len() ==> (
        expansion@[i].task matches Task::FetchArchiveRange { work, request, retry_count, .. }
            && work == archive && request == requests@[i] && retry_count == 0)))),
        missing is Err && (archive.remote || bringing.len() == 0) ==> if archive.repair_group is Some {
            end.run is Succeeded && end.failed_group == archive.repair_group
        } else {
            end.run is Failed && end.drop_ranges
        },
        missing is Err && !archive.remote && bringing.len() > 0 ==> (
        end.run matches TaskRun::Expand { expansion, next: after } && after is None
            && expansion@.len() == 1 && expansion@[0].task == next && forall|k: int|
            0 <= k < bringing.len() ==> expansion@[0].tokens.contains(
                (#[trigger] bringing[k]).0,
            )),
{
    if missing is Err && !archive.remote && bringing.len() > 0 {
        let expansion = end.run->Expand_expansion;
        let numbers = crate::graph::expansion::token_numbers(bringing);
        assert forall|k: int| 0 <= k < bringing.len() implies expansion@[0].tokens.contains(
            (#[trigger] bringing[k]).0,
        ) by {
            assert(numbers[k] == bringing[k].0);
            assert(numbers.contains(bringing[k].0));
        }
    }
}

/// A file that cannot be repaired out of an archive is downloaded alone, to its
/// place, and is a failure only if it has no URL.
pub proof fn law_failed_repairs_are_downloaded(
    end: RepairEnd,
    task: ArchiveFileRepairTask,
    reason: Seq<char>,
)
    requires
        repair::falls_back(end, task, reason),
    ensures
        end.run is Failed <==> task.download_url is None,
        task.download_url matches Some(url) ==> (end.run matches TaskRun::Continue {
            task: Task::Download { download, resume },
        } && resume is None && download.url@ == url@ && download.dest@ == task.dest@
            && download.logical_path@ == task.logical_path@ && download.expected_md5@
            == task.expected_md5@ && download.expected_size == Some(task.expected_size)
            && download.retry_count == task.retry_count && download.archive_repair is None),
        task.download_url is None ==> fails_for(end.run, reason),
        end.events@.len() == 1 && (end.events@[0] matches WorkerEvent::Retried { path, .. }
            && path@ == task.logical_path@),
{
    if task.download_url is None {
        assert(end.run->reason@ == "archive repair failed for "@ + task.logical_path@
            + " and no individual download URL is available: "@ + reason);
    }
}

/// A repair out of an archive that replaces a download can go back to it: where the
/// repair fails, the same file is downloaded to the same place.
pub proof fn law_repairs_stand_for_their_downloads(
    task: ArchiveFileRepairTask,
    download: FileDownload,
    work: Arc<ArchiveWork>,
    index: Arc<ArchiveIndex>,
    staging_dir: crate::path::PathModel,
    source: crate::archive::repair::RepairSource,
    end: RepairEnd,
    reason: Seq<char>,
)
    requires
        repair::replaces(task, download, work, index, staging_dir, source),
        repair::falls_back(end, task, reason),
    ensures
        end.run matches TaskRun::Continue { task: Task::Download { download: again, .. } }
            && same_download(again, download) && again.retry_count == download.retry_count,
{
}

/// A shard that failed is a failure, reported if and only if it is the first;
/// what was fetched is dropped then, and the pieces of a shard are released if
/// and only if it succeeded. What was extracted is removed only after a failure,
/// and only when no other shard is running.
pub proof fn law_shards_end(
    end: ShardEnd,
    before: ShardState,
    archive: ArchiveWork,
    range_release: Option<usize>,
    total: u64,
    extracted: u64,
    result: Result<(), String>,
)
    requires
        finish::shard_ends(end, before, archive, range_release, total, extracted, result),
    ensures
        end.run is Succeeded <==> result is Ok,
        result matches Err(error) ==> (end.run matches TaskRun::Failed { reason, report } && reason@
            == error@ && (report <==> !before.failed)),
        end.drop_ranges <==> result is Err,
        result is Ok ==> end.release == range_release,
        result is Err ==> end.release is None,
        end.cleanup_staging ==> before.running == 1 && (before.failed || result is Err),
        before.running == 1 && (before.failed || result is Err) ==> end.cleanup_staging,
        end.events@.len() > 0 ==> result is Ok && !before.failed && extracted >= total,
        result is Ok && !before.failed && extracted >= total ==> end.events@.len() == 1,
{
}

proof fn lemma_first_bad(found: Seq<Inspected>, k: int)
    requires
        0 <= k <= found.len(),
    ensures
        match batches::first_bad(found, k) {
            Some(at) => k <= at < found.len() && found[at] is Bad && forall|i: int|
                k <= i < at ==> !((#[trigger] found[i]) is Bad),
            None => forall|i: int| k <= i < found.len() ==> !((#[trigger] found[i]) is Bad),
        },
    decreases found.len() - k,
{
    if k < found.len() && !(found[k] is Bad) {
        lemma_first_bad(found, k + 1);
    }
}

/// A batch of files that were put in place succeeds if and only if none of them
/// was found bad, and its failure names the first that was.
pub proof fn law_batches_fail_for_a_bad_file(
    end: ReuseEnd,
    jobs: Seq<CommitFileJob>,
    found: Seq<Inspected>,
    first: int,
)
    requires
        jobs.len() == found.len(),
        batches::batch_ends(end, jobs, found),
    ensures
        end.run is Succeeded <==> forall|i: int|
            0 <= i < found.len() ==> !((#[trigger] found[i]) is Bad),
        end.run is Succeeded || end.run is Failed,
        0 <= first < found.len() && found[first] is Bad && (forall|i: int|
            0 <= i < first ==> !((#[trigger] found[i]) is Bad)) ==> (
        end.run matches TaskRun::Failed { reason, .. } && reason@ == "committed archive file "@
            + text::replaced(jobs[first].logical_path@.text(), '\\', '/')
            + " failed verification: "@ + found[first]->issue.text()),
{
    lemma_first_bad(found, 0);
    match batches::first_bad(found, 0) {
        Some(at) => {
            assert(found[at] is Bad);
            if 0 <= first < found.len() && found[first] is Bad {
                if at < first {
                    assert(found[at] is Bad);
                }
            }
        },
        None => {},
    }
}

/// A file that was verified is reported good if and only if it is; one that is
/// not is repaired where it can be, without a report, and is a failure else.
pub proof fn law_verification_ends(
    end: ReuseEnd,
    path: Seq<char>,
    found: Option<IssueKind>,
    on_fail: Option<Box<Task>>,
)
    requires
        runner::verify_ends(end, path, found, on_fail),
    ensures
        end.run is Succeeded <==> found is None,
        found is Some && on_fail is Some ==> end.run == (TaskRun::Continue { task: *on_fail->0 })
            && end.events@.len() == 0,
        found is Some && on_fail is None ==> end.run is Failed,
        forall|i: int|
            0 <= i < end.events@.len() ==> ((#[trigger] end.events@[i]) matches WorkerEvent::Outcome {
                outcome: TaskOutcome::Verified { path: p, ok, issue },
            } && p@ == path && (ok <==> found is None) && issue == found),
        !(found is Some && on_fail is Some) ==> end.events@.len() == 1,
{
}

/// An applied entry of a patch counts, once, and is reported with how many are
/// applied then; one that failed does not count and is a failure.
pub proof fn law_applied_entries_count(
    end: ReuseEnd,
    plan: PatchPlan,
    entry_index: usize,
    result: Result<(), String>,
    before: usize,
    after: usize,
)
    requires
        runner::entry_ends(end, plan, entry_index, result, before, after),
        before < usize::MAX,
    ensures
        end.run is Succeeded <==> entry_index < plan.entries@.len() && result is Ok,
        end.run is Succeeded || end.run is Failed,
        after == if end.run is Succeeded {
            before + 1
        } else {
            before as int
        },
        end.run is Succeeded ==> end.events@.len() == 2 && (
        end.events@[1] matches WorkerEvent::Progress { completed, total, .. } && completed == after
            && total == plan.entries@.len()),
        end.run is Failed ==> end.events@.len() == 0,
{
}

/// The planning of an extraction that failed removes what was prepared, and one
/// that did not keeps it.
pub proof fn law_failed_planning_cleans_up(
    end: ExtractionEnd,
    archive: Arc<ArchiveWork>,
    archive_index: Arc<ArchiveIndex>,
    staging_dir: FilePath,
    planned: Planned,
)
    requires
        planning::planning_ends(end, archive, archive_index, staging_dir, planned),
    ensures
        end.cleanup <==> end.run is Failed,
        end.run is Failed || end.run is Expand,
        end.run is Failed <==> match planned {
            Planned::Refused { .. } => true,
            Planned::Probes { found } => found is Err,
            Planned::Shards { split, .. } => split is Err,
        },
{
}

/// What is extracted for a patch is chosen by its plan: every payload that the
/// plan reads is among the entries that are kept aside.
pub proof fn law_saved_plans_extract_their_payloads(
    archive: ArchiveWork,
    index: ArchiveIndex,
    plan: Arc<PatchPlan>,
    rules: EntryRules,
    step: SaveStep,
    before: Option<PreparedArchive>,
    after: Option<PreparedArchive>,
    extract_shards: usize,
    i: usize,
)
    requires
        entries::are_patch_rules(*plan, rules),
        planning::saves_plan(step, before, after, archive, index, plan, rules, extract_shards),
        step is Split,
        i < index.entry_sizes@.len() <= usize::MAX,
    ensures
        before is Some && after is Some && after->0.patch_plan == Some(plan)
            && after->0.staging_dir == before->0.staging_dir,
        ({
            let selection = step->selection;
            let name = index.names@[i as int]@;
            let path = path_safety::safe_relative_path(name)->Ok_0;
            let plain = !entry_laws::ends_in_slash(name) && !entry_laws::steers(path);
            &&& selection.staged@.contains(i) <==> plain && if entry_laws::is_staged_payload(path) {
                entry_laws::plan_reads(*plan, path)
            } else {
                entry_laws::plan_defers(*plan, path)
            }
            &&& selection.direct@.contains(i) <==> plain && !entry_laws::is_staged_payload(path)
                && !entry_laws::plan_defers(*plan, path) && !entry_laws::is_left_out(archive, path)
        }),
{
    let selection = step->selection;
    let result: Result<(Vec<usize>, Vec<usize>), Message> = Ok(
        (selection.direct, selection.staged),
    );
    assert(entries::are_patch_groups(archive, index, *plan, result));
    lemma_by_plan(archive, index, &plan, result, i);
}

proof fn lemma_by_plan(
    archive: ArchiveWork,
    index: ArchiveIndex,
    plan: &PatchPlan,
    result: Result<(Vec<usize>, Vec<usize>), Message>,
    i: usize,
)
    requires
        entries::are_patch_groups(archive, index, *plan, result),
        result is Ok,
        i < index.entry_sizes@.len() <= usize::MAX,
    ensures
        ({
            let direct = result->Ok_0.0@;
            let staged = result->Ok_0.1@;
            let name = index.names@[i as int]@;
            let path = path_safety::safe_relative_path(name)->Ok_0;
            let plain = !entry_laws::ends_in_slash(name) && !entry_laws::steers(path);
            &&& staged.contains(i) <==> plain && if entry_laws::is_staged_payload(path) {
                entry_laws::plan_reads(*plan, path)
            } else {
                entry_laws::plan_defers(*plan, path)
            }
            &&& direct.contains(i) <==> plain && !entry_laws::is_staged_payload(path)
                && !entry_laws::plan_defers(*plan, path) && !entry_laws::is_left_out(archive, path)
        }),
{
    entry_laws::law_patch_entries_go_where_the_plan_says(archive, index, *plan, result, i);
}

/// A volume is kept if and only if volumes are kept at all and the archive has
/// it; it is made if and only if what is in its place is not the volume.
pub proof fn law_volumes_are_made_only_if_missing(
    archive: ArchiveWork,
    volume_index: usize,
    present: bool,
    step: RetainStep,
)
    requires
        volumes::begins_retain(archive, volume_index, present, step),
    ensures
        ({
            let kept = archive.remote && archive.retention is KeepVolumes;
            let there = volume_index < archive.parts@.len();
            &&& step is Make <==> kept && there && !present
            &&& step is Present <==> kept && there && present
            &&& step matches RetainStep::End { end } ==> (end.run is Failed <==> kept) && (
            end.run is Succeeded <==> !kept) && !end.in_place
        }),
{
}

/// Keeping a volume succeeds if and only if the volume is in its place, and it is
/// reported good if and only if it is. What was fetched is dropped only after a
/// failure that it may be the cause of.
pub proof fn law_kept_volumes_are_reported(
    end: RetainEnd,
    part: ArchivePart,
    made: Result<(), Message>,
    read_failed: bool,
    issue: Option<IssueKind>,
)
    requires
        volumes::ends_retain(end, part, made, read_failed, issue),
    ensures
        end.run is Succeeded <==> made is Ok,
        end.in_place <==> made is Ok,
        end.events@.len() == 1 && (end.events@[0] matches WorkerEvent::Outcome {
            outcome: TaskOutcome::Verified { path, ok, .. },
        } && path@ == part.logical_path@ && (ok <==> made is Ok)),
        end.drop_ranges ==> made is Err,
        made matches Err(message) ==> (end.drop_ranges <==> read_failed || message.context@
            == "Integrity error: "@ || message.context@ == "Extraction error: "@),
        made matches Err(message) ==> (end.run matches TaskRun::Failed { reason, report } && report
            && reason@ == message.context@ + message.detail@),
{
}

/// A volume can be assembled if and only if the archive has it, it is as large as
/// was expected, and all its pieces have been fetched.
pub proof fn law_volumes_are_assembled_when_whole(
    index: usize,
    range: Option<ByteRange>,
    available: bool,
    part: ArchivePart,
)
    ensures
        volumes::volume_fault(index, range, available, part) is None <==> (range matches Some(bytes)
            && bytes.end - bytes.start == part.expected_size) && available,
{
}

/// A copy is good if and only if it is as long as was expected and has the digest
/// that was expected, in small or in capital letters.
pub proof fn law_copies_are_judged_by_size_and_digest(
    bytes: u64,
    md5: Seq<char>,
    size: u64,
    expected: Seq<char>,
)
    ensures
        commit::is_good_copy(bytes, md5, size, expected) <==> bytes == size && text::lowered(md5)
            == text::lowered(expected),
        commit::is_true_copy(bytes, md5, size, expected) <==> bytes == size && md5 == expected,
{
}

/// An expected file is put in place only if its size and its digest are right;
/// else it is an error.
pub proof fn law_unexpected_contents_are_refused(
    result: Result<crate::archive::placing::ShardFileStep, Message>,
    expected: ExpectedFile,
    dest_root: FilePath,
    source: FilePath,
    normalized: Seq<char>,
    digest: Option<CopiedFileDigest>,
)
    requires
        crate::archive::placing::places_file(
            result,
            Some(&expected),
            dest_root,
            source,
            normalized,
            digest,
        ),
    ensures
        result is Ok <==> (digest matches Some(found) && found.bytes == expected.size
            && text::lowered(found.md5@) == text::lowered(expected.md5@)),
        result matches Ok(step) ==> step.job.source == source && step.job.destination@
            == dest_root@.join(expected.path@),
{
}

/// What a patch wrote is accepted if and only if it is there with the size and
/// the digest that were wanted.
pub proof fn law_patch_output_is_accepted_only_if_right(
    logical_path: Seq<char>,
    observed: Option<Observed>,
    expected_md5: Seq<char>,
    expected_size: u64,
)
    ensures
        output::output_fault(logical_path, observed, expected_md5, expected_size) is None <==> (
        observed matches Some(file) && file.size == expected_size && text::lowered(file.md5@)
            == text::lowered(expected_md5)),
{
}

/// A piece that is required and is not at hand is fetched before anything else
/// that was found.
pub proof fn law_required_pieces_come_first(
    required: Option<ByteRange>,
    at_hand: bool,
    found: DirectoryDiscovery,
)
    ensures
        required is Some && !at_hand ==> (fetch::next_discovery(required, at_hand, found) matches
            DirectoryDiscovery::NeedsRange { range } && Some(range) == required),
        required is None || at_hand ==> fetch::next_discovery(required, at_hand, found) == found,
{
}

} // verus!
