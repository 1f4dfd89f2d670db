//! Putting the files of an archive in place batch by batch.

use crate::archive::volume_run;
use crate::archive::work;
use crate::commit::CommitFileJob;
use crate::event::{ProgressPhase, TaskOutcome, WorkerEvent};
use crate::graph::expansion::TaskRun;
use crate::reuse::ReuseEnd;
use crate::text;
use crate::verify::IssueKind;
use vstd::prelude::*;

verus! {

/// A task of the commit of an archive.
#[derive(Clone, Copy, PartialEq, Eq, Structural, Debug)]
pub enum CommitTask {
    /// Put the files of a batch in place.
    Write { batch: usize },
    /// Check the files of a batch.
    Verify { batch: usize },
    /// End the commit.
    Finish,
}

/// A task of the commit, and the earlier tasks that it waits for.
pub struct CommitNode {
    pub task: CommitTask,
    pub dependencies: Vec<usize>,
}

/// Whether tasks commit so many batches: each one is put in place and then
/// checked, and the end waits for every check.
pub open spec fn are_commit_tasks(nodes: Seq<CommitNode>, batches: int) -> bool {
    &&& nodes.len() == 2 * batches + 1
    &&& forall|b: int| 0 <= b < batches ==> commits_batch(nodes, #[trigger] (2 * b), b)
    &&& nodes[2 * batches].task is Finish
    &&& nodes[2 * batches].dependencies@.len() == batches
    &&& forall|b: int|
        0 <= b < batches ==> #[trigger] nodes[2 * batches].dependencies@[b] == 2 * b + 1
}

pub open spec fn commits_batch(nodes: Seq<CommitNode>, at: int, batch: int) -> bool {
    &&& nodes[at].task == (CommitTask::Write { batch: batch as usize })
    &&& nodes[at].dependencies@.len() == 0
    &&& nodes[at + 1].task == (CommitTask::Verify { batch: batch as usize })
    &&& nodes[at + 1].dependencies@ == seq![at as usize]
}

/// Plans the commit of so many batches.
pub fn schedule_archive_commit(batches: usize) -> (nodes: Vec<CommitNode>)
    requires
        2 * batches + 1 <= usize::MAX,
    ensures
        are_commit_tasks(nodes@, batches as int),
{
    let mut nodes: Vec<CommitNode> = Vec::new();
    let mut verified: Vec<usize> = Vec::new();
    let mut batch: usize = 0;
    while batch < batches
        invariant
            batch <= batches,
            2 * batches + 1 <= usize::MAX,
            nodes@.len() == 2 * batch,
            forall|b: int| 0 <= b < batch ==> commits_batch(nodes@, #[trigger] (2 * b), b),
            verified@.len() == batch,
            forall|b: int| 0 <= b < batch ==> #[trigger] verified@[b] == 2 * b + 1,
        decreases batches - batch,
    {
        let ghost before = nodes@;
        let at: usize = nodes.len();
        nodes.push(CommitNode { task: CommitTask::Write { batch }, dependencies: Vec::new() });
        let mut written: Vec<usize> = Vec::new();
        written.push(at);
        assert(written@ =~= seq![at]);
        nodes.push(CommitNode { task: CommitTask::Verify { batch }, dependencies: written });
        verified.push(at + 1);
        assert forall|b: int| 0 <= b < batch + 1 implies commits_batch(
            nodes@,
            #[trigger] (2 * b),
            b,
        ) by {
            if b < batch {
                assert(commits_batch(before, 2 * b, b));
                assert(nodes@[2 * b] == before[2 * b]);
                assert(nodes@[2 * b + 1] == before[2 * b + 1]);
            }
        }
        batch = batch + 1;
    }
    let ghost before = nodes@;
    nodes.push(CommitNode { task: CommitTask::Finish, dependencies: verified });
    assert forall|b: int| 0 <= b < batches implies commits_batch(
        nodes@,
        #[trigger] (2 * b),
        b,
    ) by {
        assert(commits_batch(before, 2 * b, b));
        assert(nodes@[2 * b] == before[2 * b]);
        assert(nodes@[2 * b + 1] == before[2 * b + 1]);
    }
    nodes
}

/// The end of a batch that there is not.
pub fn missing_batch(action: &str, batch_index: usize) -> (run: TaskRun)
    ensures
        work::fails_with(
            run,
            "archive "@ + action@ + " batch index "@ + text::decimal(batch_index as nat)
                + " is out of range"@,
        ),
{
    let mut reason = "archive ".to_owned();
    text::push_text(&mut reason, action);
    text::push_text(&mut reason, " batch index ");
    text::push_size(&mut reason, batch_index);
    text::push_text(&mut reason, " is out of range");
    TaskRun::failed(reason)
}

/// The name by which a file is reported.
pub open spec fn job_name(job: CommitFileJob) -> Seq<char> {
    text::replaced(job.logical_path@.text(), '\\', '/')
}

/// Whether reports say that a file has been put in place.
pub open spec fn reports_commit(
    changed: WorkerEvent,
    progress: WorkerEvent,
    job: CommitFileJob,
    finished: usize,
    total: usize,
) -> bool {
    &&& changed matches WorkerEvent::Outcome { outcome: TaskOutcome::Changed { path } } && path@
        == job_name(job)
    &&& progress matches WorkerEvent::Progress { phase, path, completed, total: all, reset }
        && phase is Commit && path@ == job_name(job) && completed == finished && all == total
        && !reset
}

/// Reports that a file has been put in place.
pub fn committed_file_events(job: &CommitFileJob, finished: usize, total: usize) -> (events: Vec<
    WorkerEvent,
>)
    ensures
        events@.len() == 2,
        reports_commit(events@[0], events@[1], *job, finished, total),
{
    let name = text::replace_char(job.logical_path.text().as_str(), '\\', '/');
    let mut events: Vec<WorkerEvent> = Vec::new();
    events.push(WorkerEvent::changed(name.clone()));
    events.push(
        WorkerEvent::progress(ProgressPhase::Commit, name, finished as u64, total as u64, false),
    );
    events
}

/// What is known of a file that was put in place.
#[derive(Clone, Copy, PartialEq, Eq, Structural, Debug)]
pub enum Inspected {
    /// Nothing is expected of it.
    Unexpected,
    /// It is what was expected.
    Good,
    /// It is not.
    Bad { issue: IssueKind },
}

/// The first of the files from the `k`th on that is not what was expected.
pub open spec fn first_bad(found: Seq<Inspected>, k: int) -> Option<int>
    decreases found.len() - k,
{
    if k >= found.len() {
        None
    } else if found[k] is Bad {
        Some(k)
    } else {
        first_bad(found, k + 1)
    }
}

/// The reports on the first `k` files: those of which something is expected.
pub open spec fn are_reports(
    events: Seq<WorkerEvent>,
    jobs: Seq<CommitFileJob>,
    found: Seq<Inspected>,
    k: int,
) -> bool
    decreases k,
{
    if k <= 0 {
        events.len() == 0
    } else if found[k - 1] is Unexpected {
        are_reports(events, jobs, found, k - 1)
    } else {
        &&& events.len() > 0
        &&& are_reports(events.drop_last(), jobs, found, k - 1)
        &&& volume_run::reports(
            events.last(),
            job_name(jobs[k - 1]),
            found[k - 1] is Good,
            match found[k - 1] {
                Inspected::Bad { issue } => Some(issue),
                _ => None,
            },
        )
    }
}

/// Whether checking a batch ends as it should: every file up to the first that is
/// not what was expected is reported, and that one fails the batch.
pub open spec fn batch_ends(end: ReuseEnd, jobs: Seq<CommitFileJob>, found: Seq<Inspected>) -> bool {
    match first_bad(found, 0) {
        Some(k) => are_reports(end.events@, jobs, found, k + 1) && work::fails_with(
            end.run,
            "committed archive file "@ + job_name(jobs[k]) + " failed verification: "@
                + found[k]->issue.text(),
        ),
        None => are_reports(end.events@, jobs, found, jobs.len() as int) && end.run is Succeeded,
    }
}

/// Ends the check of a batch.
pub fn run_verify_committed_batch(jobs: &Vec<CommitFileJob>, found: &Vec<Inspected>) -> (end: ReuseEnd)
    requires
        jobs@.len() == found@.len(),
    ensures
        batch_ends(end, jobs@, found@),
{
    let mut events: Vec<WorkerEvent> = Vec::new();
    let mut k: usize = 0;
    while k < jobs.len()
        invariant
            k <= jobs@.len() == found@.len(),
            first_bad(found@, 0) == first_bad(found@, k as int),
            are_reports(events@, jobs@, found@, k as int),
        decreases jobs@.len() - k,
    {
        let ghost before = events@;
        match found[k] {
            Inspected::Unexpected => {},
            Inspected::Good => {
                let name = text::replace_char(jobs[k].logical_path.text().as_str(), '\\', '/');
                events.push(WorkerEvent::verified(name, true, None));
                assert(events@.drop_last() =~= before);
            },
            Inspected::Bad { issue } => {
                let name = text::replace_char(jobs[k].logical_path.text().as_str(), '\\', '/');
                let mut reason = "committed archive file ".to_owned();
                text::push_text(&mut reason, name.as_str());
                text::push_text(&mut reason, " failed verification: ");
                text::push_text(&mut reason, issue.name());
                events.push(WorkerEvent::verified(name, false, Some(issue)));
                assert(events@.drop_last() =~= before);
                return ReuseEnd { run: TaskRun::failed(reason), events };
            },
        }
        k = k + 1;
    }
    ReuseEnd { run: TaskRun::succeeded(), events }
}

} // verus!
