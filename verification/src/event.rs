//! What running tasks report.

use crate::path::FilePath;
use crate::text;
use crate::verify::IssueKind;
use vstd::prelude::*;

verus! {

/// The part of the work that a report is about.
#[derive(Clone, Copy, PartialEq, Eq, Structural, Debug)]
pub enum ProgressPhase {
    Download,
    Extract,
    Commit,
    Patch,
    Delete,
}

/// What the planning of a patch has found, for people to read.
pub struct ArchiveCheckReport {
    pub details: String,
}

/// What became of a file.
pub enum TaskOutcome {
    Downloaded { path: String, bytes: u64 },
    Verified { path: String, ok: bool, issue: Option<IssueKind> },
    Changed { path: String },
    Hardlinked { path: String },
    Copied { path: String },
    Failed { path: String, reason: String },
    /// The patch of an archive is planned.
    ArchiveCheck { path: String, report: ArchiveCheckReport },
    /// A file with the size and the digest that were expected is in place.
    Committed { path: String, bytes: u64, md5: String },
}

/// A report of a running task.
pub enum WorkerEvent {
    /// The task is tried again.
    Retried { path: String, reason: String },
    /// The task has come so far; on a reset it starts again from there.
    Progress { phase: ProgressPhase, path: String, completed: u64, total: u64, reset: bool },
    /// Something became of a file.
    Outcome { outcome: TaskOutcome },
}

impl WorkerEvent {
    pub fn progress(
        phase: ProgressPhase,
        path: String,
        completed: u64,
        total: u64,
        reset: bool,
    ) -> (event: WorkerEvent)
        ensures
            event == (WorkerEvent::Progress { phase, path, completed, total, reset }),
    {
        WorkerEvent::Progress { phase, path, completed, total, reset }
    }

    pub fn downloaded(path: String, bytes: u64) -> (event: WorkerEvent)
        ensures
            event == (WorkerEvent::Outcome { outcome: TaskOutcome::Downloaded { path, bytes } }),
    {
        WorkerEvent::Outcome { outcome: TaskOutcome::Downloaded { path, bytes } }
    }

    pub fn verified(path: String, ok: bool, issue: Option<IssueKind>) -> (event: WorkerEvent)
        ensures
            event == (WorkerEvent::Outcome { outcome: TaskOutcome::Verified { path, ok, issue } }),
    {
        WorkerEvent::Outcome { outcome: TaskOutcome::Verified { path, ok, issue } }
    }

    pub fn changed(path: String) -> (event: WorkerEvent)
        ensures
            event == (WorkerEvent::Outcome { outcome: TaskOutcome::Changed { path } }),
    {
        WorkerEvent::Outcome { outcome: TaskOutcome::Changed { path } }
    }

    pub fn hardlinked(path: &FilePath) -> (event: WorkerEvent)
        ensures
            event matches WorkerEvent::Outcome { outcome: TaskOutcome::Hardlinked { path: p } }
                && p@ == path@.text(),
    {
        WorkerEvent::Outcome { outcome: TaskOutcome::Hardlinked { path: path.text() } }
    }

    pub fn copied(path: &FilePath) -> (event: WorkerEvent)
        ensures
            event matches WorkerEvent::Outcome { outcome: TaskOutcome::Copied { path: p } } && p@
                == path@.text(),
    {
        WorkerEvent::Outcome { outcome: TaskOutcome::Copied { path: path.text() } }
    }

    pub fn archive_check(path: String, report: ArchiveCheckReport) -> (event: WorkerEvent)
        ensures
            event == (WorkerEvent::Outcome { outcome: TaskOutcome::ArchiveCheck { path, report } }),
    {
        WorkerEvent::Outcome { outcome: TaskOutcome::ArchiveCheck { path, report } }
    }

    pub fn committed(path: String, bytes: u64, md5: String) -> (event: WorkerEvent)
        ensures
            event == (WorkerEvent::Outcome { outcome: TaskOutcome::Committed { path, bytes, md5 } }),
    {
        WorkerEvent::Outcome { outcome: TaskOutcome::Committed { path, bytes, md5 } }
    }

    pub fn failed(path: String, reason: String) -> (event: WorkerEvent)
        ensures
            event == (WorkerEvent::Outcome { outcome: TaskOutcome::Failed { path, reason } }),
    {
        WorkerEvent::Outcome { outcome: TaskOutcome::Failed { path, reason } }
    }
}

/// One step of a list of paths that is worked off: the path to report, how many
/// are done, and how many there are.
pub struct StepReport {
    pub path: String,
    pub finished: usize,
    pub total: usize,
}

/// Whether reports are those of a list of paths: nothing for an empty list;
/// else one before the first path, under a name of its own, and one after each.
pub open spec fn are_step_reports(
    reports: Seq<StepReport>,
    lead: Seq<char>,
    paths: Seq<Seq<char>>,
) -> bool {
    if paths.len() == 0 {
        reports.len() == 0
    } else {
        &&& reports.len() == paths.len() + 1
        &&& reports[0].path@ == lead
        &&& reports[0].finished == 0
        &&& reports[0].total == paths.len()
        &&& forall|i: int|
            1 <= i < reports.len() ==> (#[trigger] reports[i]).path@ == paths[i - 1]
                && reports[i].finished == i && reports[i].total == paths.len()
    }
}

/// The reports of a list of paths that is worked off.
pub fn step_reports(lead: &str, paths: &Vec<String>) -> (reports: Vec<StepReport>)
    ensures
        are_step_reports(reports@, lead@, text::texts(paths@)),
{
    let mut reports: Vec<StepReport> = Vec::new();
    let total = paths.len();
    if total == 0 {
        return reports;
    }
    reports.push(StepReport { path: lead.to_owned(), finished: 0, total });
    let mut k: usize = 0;
    while k < total
        invariant
            k <= total,
            total == paths@.len(),
            reports@.len() == k + 1,
            reports@[0].path@ == lead@,
            reports@[0].finished == 0,
            reports@[0].total == total,
            forall|i: int|
                1 <= i < reports@.len() ==> (#[trigger] reports@[i]).path@ == text::texts(
                    paths@,
                )[i - 1] && reports@[i].finished == i && reports@[i].total == total,
        decreases total - k,
    {
        reports.push(StepReport { path: paths[k].clone(), finished: k + 1, total });
        k = k + 1;
    }
    reports
}

/// The events of a step: a file that was worked off has changed, and the work
/// has come so far.
pub fn step_events(phase: ProgressPhase, report: &StepReport) -> (events: Vec<WorkerEvent>)
    ensures
        ({
            let name = text::replaced(report.path@, '\\', '/');
            let n = events@.len() as int;
            &&& n == if report.finished > 0 {
                2int
            } else {
                1int
            }
            &&& events@[n - 1] matches WorkerEvent::Progress { phase: p, path, completed, total, reset }
                && p == phase && path@ == name && completed == report.finished && total
                == report.total && !reset
            &&& report.finished > 0 ==> (events@[0] matches WorkerEvent::Outcome {
                outcome: TaskOutcome::Changed { path },
            } && path@ == name)
        }),
{
    let name = text::replace_char(report.path.as_str(), '\\', '/');
    let mut events: Vec<WorkerEvent> = Vec::new();
    if report.finished > 0 {
        events.push(WorkerEvent::changed(name.clone()));
    }
    events.push(
        WorkerEvent::progress(phase, name, report.finished as u64, report.total as u64, false),
    );
    events
}

} // verus!
