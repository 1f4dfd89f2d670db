//! What single tasks end in.

use crate::archive::work;
use crate::event::{ProgressPhase, TaskOutcome, WorkerEvent};
use crate::graph::expansion::TaskRun;
use crate::patch::plan::PatchPlan;
use crate::patch::run;
use crate::path::FilePath;
use crate::reuse::ReuseEnd;
use crate::task::Task;
use crate::text;
use crate::verify::IssueKind;
use vstd::prelude::*;

verus! {

/// Whether a verification ends as it should: what was found is reported; where
/// the file is not what it should be, the task that repairs it follows, and
/// without one the verification fails without a report of its own.
pub open spec fn verify_ends(
    end: ReuseEnd,
    path: Seq<char>,
    found: Option<IssueKind>,
    on_fail: Option<Box<Task>>,
) -> bool {
    if found is Some && on_fail is Some {
        end.run == (TaskRun::Continue { task: *on_fail->0 }) && end.events@.len() == 0
    } else {
        &&& end.events@.len() == 1
        &&& end.events@[0] matches WorkerEvent::Outcome {
            outcome: TaskOutcome::Verified { path: p, ok, issue },
        } && p@ == path && ok == (found is None) && issue == found
        &&& match found {
            None => end.run is Succeeded,
            Some(kind) => end.run matches TaskRun::Failed { reason, report } && !report && reason@
                == "verification failed: "@ + kind.text(),
        }
    }
}

/// Ends a verification.
pub fn run_verify(logical_path: String, issue: Option<IssueKind>, on_fail: Option<Box<Task>>) -> (end:
    ReuseEnd)
    ensures
        verify_ends(end, logical_path@, issue, on_fail),
{
    let mut events: Vec<WorkerEvent> = Vec::new();
    match issue {
        None => {
            events.push(WorkerEvent::verified(logical_path, true, None));
            ReuseEnd { run: TaskRun::succeeded(), events }
        },
        Some(kind) => match on_fail {
            Some(task) => ReuseEnd { run: TaskRun::Continue { task: *task }, events },
            None => {
                events.push(WorkerEvent::verified(logical_path, false, issue));
                let mut reason = "verification failed: ".to_owned();
                text::push_text(&mut reason, kind.name());
                ReuseEnd { run: TaskRun::silent_failure(reason), events }
            },
        },
    }
}

/// Ends a link.
pub fn run_hardlink(dest: &FilePath, result: Result<(), String>) -> (end: ReuseEnd)
    ensures
        match result {
            Ok(()) => end.run is Succeeded && end.events@.len() == 1 && (
            end.events@[0] matches WorkerEvent::Outcome {
                outcome: TaskOutcome::Hardlinked { path },
            } && path@ == dest@.text()),
            Err(error) => work::fails_with(end.run, error@) && end.events@.len() == 0,
        },
{
    let mut events: Vec<WorkerEvent> = Vec::new();
    match result {
        Ok(()) => {
            events.push(WorkerEvent::hardlinked(dest));
            ReuseEnd { run: TaskRun::succeeded(), events }
        },
        Err(error) => ReuseEnd { run: TaskRun::failed(error), events },
    }
}

/// Ends the application of a patch. A patch without a plan of its own is followed
/// by its deletes.
pub fn run_apply_patch_manifest(
    install_root: FilePath,
    has_patch_plan: bool,
    result: Result<(), String>,
) -> (run: TaskRun)
    ensures
        match result {
            Ok(()) => if has_patch_plan {
                run is Succeeded
            } else {
                run == (TaskRun::Continue { task: Task::ApplyDeleteManifest { install_root } })
            },
            Err(error) => work::fails_with(run, error@),
        },
{
    match result {
        Ok(()) => {
            if has_patch_plan {
                TaskRun::succeeded()
            } else {
                TaskRun::Continue { task: Task::ApplyDeleteManifest { install_root } }
            }
        },
        Err(error) => TaskRun::failed(error),
    }
}

/// Ends a task that only succeeds or fails.
pub fn run_plain(result: Result<(), String>) -> (run: TaskRun)
    ensures
        match result {
            Ok(()) => run is Succeeded,
            Err(error) => work::fails_with(run, error@),
        },
{
    match result {
        Ok(()) => TaskRun::succeeded(),
        Err(error) => TaskRun::failed(error),
    }
}

/// Ends a task that panicked.
pub fn run_panicked() -> (run: TaskRun)
    ensures
        work::fails_with(run, "task run panicked"@),
{
    TaskRun::failed("task run panicked".to_owned())
}

/// The report with which a patch starts, where it has entries.
pub fn patch_start_event(entries: usize) -> (event: Option<WorkerEvent>)
    ensures
        match event {
            Some(found) => entries > 0 && (found matches WorkerEvent::Progress {
                phase,
                path,
                completed,
                total,
                reset,
            } && phase is Patch && path@ == ""@ && completed == 0 && total == entries && !reset),
            None => entries == 0,
        },
{
    if entries == 0 {
        return None;
    }
    Some(WorkerEvent::progress(ProgressPhase::Patch, "".to_owned(), 0, entries as u64, false))
}

/// Whether applying an entry of a patch ends as it should: an entry that was
/// applied counts, and is reported with how many are applied then.
pub open spec fn entry_ends(
    end: ReuseEnd,
    plan: PatchPlan,
    entry_index: usize,
    result: Result<(), String>,
    before: usize,
    after: usize,
) -> bool {
    if entry_index >= plan.entries@.len() {
        &&& work::fails_with(
            end.run,
            "patch entry index "@ + text::decimal(entry_index as nat) + " is out of range"@,
        )
        &&& end.events@.len() == 0
        &&& after == before
    } else {
        match result {
            Ok(()) => {
                let name = text::replaced(run::entry_path(plan, entry_index as int), '\\', '/');
                &&& after == if before < usize::MAX {
                    before + 1
                } else {
                    usize::MAX as int
                }
                &&& end.run is Succeeded
                &&& end.events@.len() == 2
                &&& end.events@[0] matches WorkerEvent::Outcome {
                    outcome: TaskOutcome::Changed { path: p },
                } && p@ == name
                &&& end.events@[1] matches WorkerEvent::Progress {
                    phase,
                    path: p,
                    completed,
                    total,
                    reset,
                } && phase is Patch && p@ == name && completed == after && total
                    == plan.entries@.len() && !reset
            },
            Err(error) => work::fails_with(end.run, error@) && end.events@.len() == 0 && after
                == before,
        }
    }
}

/// Ends the application of an entry of a patch, of which so many are applied.
pub fn run_apply_patch_entry(
    plan: &PatchPlan,
    entry_index: usize,
    result: Result<(), String>,
    applied: &mut usize,
) -> (end: ReuseEnd)
    ensures
        entry_ends(end, *plan, entry_index, result, *old(applied), *final(applied)),
{
    let mut events: Vec<WorkerEvent> = Vec::new();
    let entries = plan.entries.len();
    if entry_index >= entries {
        let mut detail = "patch entry index ".to_owned();
        text::push_size(&mut detail, entry_index);
        text::push_text(&mut detail, " is out of range");
        return ReuseEnd { run: TaskRun::failed(detail), events };
    }
    match result {
        Ok(()) => {
            if *applied < usize::MAX {
                *applied = *applied + 1;
            }
            let entry_name = FilePath::parse(plan.entries[entry_index].name.as_str());
            let path = plan.vfs_base_path.join(&entry_name).text();
            let name = text::replace_char(path.as_str(), '\\', '/');
            events.push(WorkerEvent::changed(name.clone()));
            events.push(
                WorkerEvent::progress(
                    ProgressPhase::Patch,
                    name,
                    *applied as u64,
                    entries as u64,
                    false,
                ),
            );
            ReuseEnd { run: TaskRun::succeeded(), events }
        },
        Err(error) => ReuseEnd { run: TaskRun::failed(error), events },
    }
}

} // verus!
