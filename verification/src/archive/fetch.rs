//! Finding and fetching the pieces of an archive.

use crate::archive::work;
use crate::event::{ProgressPhase, TaskOutcome, WorkerEvent};
use crate::graph::expansion;
use crate::graph::expansion::{GraphExpansion, LocalNode, TaskRun};
use crate::graph::node::TaskDependencyToken;
use crate::scheduler::naming;
use crate::task::{
    ArchiveIndex, ArchiveRangePriority, ArchiveRangeRequest, ArchiveWork, ByteRange, Task,
};
use crate::text;
use std::sync::Arc;
use vstd::prelude::*;

verus! {

/// What a step of an archive ends in.
pub struct ArchiveEnd {
    pub run: TaskRun,
    /// The repair group that has failed.
    pub failed_group: Option<usize>,
    /// Whether the fetched pieces are dropped.
    pub drop_ranges: bool,
    /// What is reported.
    pub events: Vec<WorkerEvent>,
}

/// Whether a step just ends in a run.
pub open spec fn plainly(end: ArchiveEnd, run: TaskRun) -> bool {
    end.run == run && end.failed_group is None && !end.drop_ranges && end.events@.len() == 0
}

fn plain_end(run: TaskRun) -> (end: ArchiveEnd)
    ensures
        plainly(end, run),
{
    ArchiveEnd { run, failed_group: None, drop_ranges: false, events: Vec::new() }
}

/// Whether a step ends in a failure of the archive. For an archive that files
/// are repaired out of, that is no failure of the task: the files are
/// downloaded instead.
pub open spec fn fails_work(end: ArchiveEnd, archive: ArchiveWork, detail: Seq<char>) -> bool {
    &&& end.events@.len() == 0
    &&& match archive.repair_group {
        Some(group) => end.run is Succeeded && end.failed_group == Some(group)
            && !end.drop_ranges,
        None => work::fails_with(end.run, detail) && end.failed_group is None && end.drop_ranges,
    }
}

/// Ends a step in a failure of the archive.
pub fn fail_archive_work(archive: &ArchiveWork, detail: String) -> (end: ArchiveEnd)
    ensures
        fails_work(end, *archive, detail@),
{
    match archive.repair_group {
        Some(group) => ArchiveEnd {
            run: TaskRun::succeeded(),
            failed_group: Some(group),
            drop_ranges: false,
            events: Vec::new(),
        },
        None => ArchiveEnd {
            run: TaskRun::failed(detail),
            failed_group: None,
            drop_ranges: true,
            events: Vec::new(),
        },
    }
}

/// Reports on a piece while it is fetched.
pub fn fetch_progress(archive: &ArchiveWork, request: &ArchiveRangeRequest, written: u64) -> (event:
    WorkerEvent)
    requires
        request.volume_index < usize::MAX,
        request.local_range.start <= request.local_range.end,
    ensures
        event matches WorkerEvent::Progress { phase, path, completed, total, reset } && phase
            is Download && path@ == naming::range_name(archive.base_name@, *request) && completed
            == written && total == request.local_range.end - request.local_range.start && !reset,
{
    WorkerEvent::progress(
        ProgressPhase::Download,
        naming::archive_range_logical_path(archive, request),
        written,
        request.local_range.end - request.local_range.start,
        false,
    )
}

/// The text for an attempt that failed and is followed by another one.
pub open spec fn attempt_text(lead: Seq<char>, attempt: nat, error: Seq<char>) -> Seq<char> {
    lead + text::decimal(attempt) + " failed: "@ + error
}

/// The text for an attempt that failed and is followed by another one.
pub fn attempt_reason(lead: &str, attempt: u64, error: &str) -> (reason: String)
    ensures
        reason@ == attempt_text(lead@, attempt as nat, error@),
{
    let mut reason = lead.to_owned();
    text::push_decimal(&mut reason, attempt);
    text::push_text(&mut reason, " failed: ");
    text::push_text(&mut reason, error);
    reason
}

/// Whether a report says that a task is tried again.
pub open spec fn is_retry(event: WorkerEvent, path: Seq<char>, reason: Seq<char>) -> bool {
    event matches WorkerEvent::Retried { path: p, reason: r } && p@ == path && r@ == reason
}

/// Whether a report says that a file was downloaded.
pub open spec fn is_download(event: WorkerEvent, path: Seq<char>, bytes: u64) -> bool {
    event matches WorkerEvent::Outcome { outcome: TaskOutcome::Downloaded { path: p, bytes: b } }
        && p@ == path && b == bytes
}

/// Whether fetching a piece ends as it should: what was fetched is reported; a
/// failed attempt is repeated as long as attempts are left, with the same
/// piece; then the archive has failed.
pub open spec fn fetch_ends(
    end: ArchiveEnd,
    archive: Arc<ArchiveWork>,
    request: ArchiveRangeRequest,
    retry_count: u32,
    priority: ArchiveRangePriority,
    max_retries: u32,
    fetched: Result<u64, String>,
) -> bool {
    let name = naming::range_name(archive.base_name@, request);
    match fetched {
        Ok(bytes) => {
            &&& end.run is Succeeded
            &&& end.failed_group is None
            &&& !end.drop_ranges
            &&& end.events@.len() == 1
            &&& is_download(end.events@[0], name, bytes)
        },
        Err(error) => if retry_count < max_retries {
            &&& end.run == (TaskRun::Continue {
                task: Task::FetchArchiveRange {
                    work: archive,
                    request,
                    retry_count: (retry_count + 1) as u32,
                    priority,
                },
            })
            &&& end.failed_group is None
            &&& !end.drop_ranges
            &&& end.events@.len() == 1
            &&& is_retry(
                end.events@[0],
                name,
                attempt_text("archive range attempt "@, (retry_count + 1) as nat, error@),
            )
        } else {
            let detail = "archive range download failed after retries: "@ + error@;
            &&& end.events@.len() == 0
            &&& !end.drop_ranges
            &&& match archive.repair_group {
                Some(group) => end.run is Succeeded && end.failed_group == Some(group),
                None => work::fails_with(end.run, detail) && end.failed_group is None,
            }
        },
    }
}

/// Ends the fetch of a piece. The pieces that were fetched stay, so that a
/// later run can go on with them.
pub fn run_fetch_archive_range(
    archive: Arc<ArchiveWork>,
    request: ArchiveRangeRequest,
    retry_count: u32,
    priority: ArchiveRangePriority,
    max_retries: u32,
    repair_stopped: bool,
    fetched: Result<u64, String>,
) -> (end: ArchiveEnd)
    requires
        request.volume_index < usize::MAX,
    ensures
        if repair_stopped {
            plainly(end, TaskRun::Succeeded)
        } else {
            fetch_ends(end, archive, request, retry_count, priority, max_retries, fetched)
        },
{
    if repair_stopped {
        return plain_end(TaskRun::succeeded());
    }
    let name = naming::archive_range_logical_path(&archive, &request);
    let mut events: Vec<WorkerEvent> = Vec::new();
    match fetched {
        Ok(bytes) => {
            events.push(WorkerEvent::downloaded(name, bytes));
            ArchiveEnd { run: TaskRun::succeeded(), failed_group: None, drop_ranges: false, events }
        },
        Err(error) => {
            if retry_count < max_retries {
                let reason = attempt_reason(
                    "archive range attempt ",
                    retry_count as u64 + 1,
                    error.as_str(),
                );
                events.push(WorkerEvent::Retried { path: name, reason });
                ArchiveEnd {
                    run: TaskRun::Continue {
                        task: Task::FetchArchiveRange {
                            work: archive,
                            request,
                            retry_count: retry_count + 1,
                            priority,
                        },
                    },
                    failed_group: None,
                    drop_ranges: false,
                    events,
                }
            } else {
                let mut detail = "archive range download failed after retries: ".to_owned();
                text::push_text(&mut detail, error.as_str());
                let mut end = fail_archive_work(&archive, detail);
                end.drop_ranges = false;
                end
            }
        },
    }
}

/// The node that fetches a piece.
pub open spec fn fetch_node(
    archive: Arc<ArchiveWork>,
    request: ArchiveRangeRequest,
    priority: ArchiveRangePriority,
) -> LocalNode {
    expansion::plain_node(
        Task::FetchArchiveRange { work: archive, request, retry_count: 0, priority },
    )
}

/// The nodes that fetch pieces.
pub open spec fn fetch_nodes(
    archive: Arc<ArchiveWork>,
    requests: Seq<ArchiveRangeRequest>,
    priority: ArchiveRangePriority,
) -> Seq<LocalNode> {
    Seq::new(requests.len(), |i: int| fetch_node(archive, requests[i], priority))
}

/// What comes after looking for pieces: nothing is missing, and the next task
/// goes on; or the missing pieces are fetched first; or, where the pieces of a
/// local archive are still to be brought by other tasks, the next task waits
/// for those; or the archive has failed.
pub open spec fn fetches_then(
    end: ArchiveEnd,
    archive: Arc<ArchiveWork>,
    missing: Result<Vec<ArchiveRangeRequest>, String>,
    bringing: Seq<TaskDependencyToken>,
    next: Task,
) -> bool {
    match missing {
        Ok(requests) => if requests@.len() == 0 {
            plainly(end, TaskRun::Continue { task: next })
        } else {
            &&& end.run matches TaskRun::Expand { expansion: e, next: n } && n == Some(next) && e@
                == fetch_nodes(archive, requests@, ArchiveRangePriority::ExtractionCritical)
                && e.inv()
            &&& end.failed_group is None
            &&& !end.drop_ranges
            &&& end.events@.len() == 0
        },
        Err(error) => if !archive.remote && bringing.len() > 0 {
            &&& end.run matches TaskRun::Expand { expansion: e, next: n } && n is None && e.inv()
                && e@.len() == 1 && waits_for_tokens(e@[0], next, bringing)
            &&& end.failed_group is None
            &&& !end.drop_ranges
            &&& end.events@.len() == 0
        } else {
            fails_work(end, *archive, error@)
        },
    }
}

/// Whether a node waits for the nodes that are bound to some tokens.
pub open spec fn waits_for_tokens(
    node: LocalNode,
    task: Task,
    tokens: Seq<TaskDependencyToken>,
) -> bool {
    &&& node.task == task
    &&& node.dependencies.len() == 0
    &&& expansion::sorts(node.tokens, expansion::token_numbers(tokens))
    &&& node.binding is None
}

/// Fetches the pieces that are missing, and then goes on.
pub fn fetch_ranges_then(
    archive: Arc<ArchiveWork>,
    missing: Result<Vec<ArchiveRangeRequest>, String>,
    bringing: Vec<TaskDependencyToken>,
    next: Task,
) -> (end: ArchiveEnd)
    ensures
        fetches_then(end, archive, missing, bringing@, next),
{
    let requests = match missing {
        Ok(requests) => requests,
        Err(error) => {
            if !archive.remote && bringing.len() > 0 {
                let mut expansion = GraphExpansion::new();
                match expansion.add_root_with_tokens(next, bringing) {
                    Ok(_) => {},
                    Err(_) => {},
                }
                return plain_end(TaskRun::expand(expansion));
            }
            return fail_archive_work(&archive, error);
        },
    };
    if requests.len() == 0 {
        return plain_end(TaskRun::Continue { task: next });
    }
    let priority = ArchiveRangePriority::ExtractionCritical;
    let expansion = fetch_expansion(GraphExpansion::new(), &archive, requests, priority);
    assert(Seq::<LocalNode>::empty() + fetch_nodes(archive, requests@, priority) =~= fetch_nodes(
        archive,
        requests@,
        priority,
    ));
    plain_end(TaskRun::expand_then(expansion, next))
}

/// An expansion with nodes that fetch pieces.
pub(crate) fn fetch_expansion(
    start: GraphExpansion,
    archive: &Arc<ArchiveWork>,
    requests: Vec<ArchiveRangeRequest>,
    priority: ArchiveRangePriority,
) -> (expansion: GraphExpansion)
    requires
        start.inv(),
    ensures
        expansion.inv(),
        expansion@ == start@ + fetch_nodes(*archive, requests@, priority),
{
    let ghost all = requests@;
    let mut expansion = start;
    assert(start@ + fetch_nodes(*archive, all, priority).take(0) =~= start@);
    for request in it: requests
        invariant
            it.seq() == all,
            expansion.inv(),
            expansion@ == start@ + fetch_nodes(*archive, all, priority).take(it.index()),
    {
        expansion.add_root(
            Task::FetchArchiveRange {
                work: archive.clone(),
                request,
                retry_count: 0,
                priority,
            },
        );
        assert(expansion@ =~= start@ + fetch_nodes(*archive, all, priority).take(it.index() + 1));
    }
    assert(fetch_nodes(*archive, all, priority).take(all.len() as int) =~= fetch_nodes(
        *archive,
        all,
        priority,
    ));
    expansion
}

/// What looking for the table of contents of an archive found.
pub enum DirectoryDiscovery {
    /// A piece must be there first.
    NeedsRange { range: ByteRange },
    /// Where the table and the end records lie.
    Ready { central_directory: ByteRange, end_records: ByteRange },
    /// The archive cannot be read.
    Failed { detail: String },
}

/// The task that reads what was found.
pub open spec fn discovery_task(archive: Arc<ArchiveWork>, found: DirectoryDiscovery) -> Task {
    match found {
        DirectoryDiscovery::NeedsRange { range } => Task::DiscoverArchiveDirectory {
            work: archive,
            required_range: Some(range),
        },
        DirectoryDiscovery::Ready { central_directory, end_records } => Task::InspectArchiveIndex {
            work: archive,
            central_directory,
            end_records,
        },
        DirectoryDiscovery::Failed { .. } => Task::DiscoverArchiveDirectory {
            work: archive,
            required_range: None,
        },
    }
}

/// What is gone on with. A piece that is required and not at hand comes first,
/// whatever was found without it.
pub open spec fn next_discovery(
    required_range: Option<ByteRange>,
    required_at_hand: bool,
    found: DirectoryDiscovery,
) -> DirectoryDiscovery {
    match required_range {
        Some(range) => if required_at_hand {
            found
        } else {
            DirectoryDiscovery::NeedsRange { range }
        },
        None => found,
    }
}

/// What is gone on with.
pub fn go_on_with(
    required_range: Option<ByteRange>,
    required_at_hand: bool,
    found: DirectoryDiscovery,
) -> (next: DirectoryDiscovery)
    ensures
        next == next_discovery(required_range, required_at_hand, found),
{
    match required_range {
        Some(range) => if required_at_hand {
            found
        } else {
            DirectoryDiscovery::NeedsRange { range }
        },
        None => found,
    }
}

/// The pieces that have to be there before what was found can be gone on with.
pub fn wanted_ranges(found: &DirectoryDiscovery) -> (ranges: Vec<ByteRange>)
    ensures
        ranges@ == (match *found {
            DirectoryDiscovery::NeedsRange { range } => seq![range],
            DirectoryDiscovery::Ready { central_directory, end_records } => seq![
                central_directory,
                end_records,
            ],
            DirectoryDiscovery::Failed { .. } => Seq::<ByteRange>::empty(),
        }),
{
    let mut ranges: Vec<ByteRange> = Vec::new();
    match found {
        DirectoryDiscovery::NeedsRange { range } => {
            ranges.push(*range);
        },
        DirectoryDiscovery::Ready { central_directory, end_records } => {
            ranges.push(*central_directory);
            ranges.push(*end_records);
        },
        DirectoryDiscovery::Failed { .. } => {},
    }
    ranges
}

/// Goes on from looking for the table of contents. The pieces that are missing
/// are those that are wanted for what is gone on with.
pub fn run_discover_archive_directory(
    archive: Arc<ArchiveWork>,
    repair_stopped: bool,
    required_range: Option<ByteRange>,
    required_at_hand: bool,
    found: DirectoryDiscovery,
    missing: Result<Vec<ArchiveRangeRequest>, String>,
    bringing: Vec<TaskDependencyToken>,
) -> (end: ArchiveEnd)
    ensures
        if repair_stopped {
            plainly(end, TaskRun::Succeeded)
        } else {
            match next_discovery(required_range, required_at_hand, found) {
                DirectoryDiscovery::Failed { detail } => fails_work(end, *archive, detail@),
                next => fetches_then(
                    end,
                    archive,
                    missing,
                    bringing@,
                    discovery_task(archive, next),
                ),
            }
        },
{
    if repair_stopped {
        return plain_end(TaskRun::succeeded());
    }
    let next = match go_on_with(required_range, required_at_hand, found) {
        DirectoryDiscovery::NeedsRange { range } => Task::DiscoverArchiveDirectory {
            work: archive.clone(),
            required_range: Some(range),
        },
        DirectoryDiscovery::Ready { central_directory, end_records } => Task::InspectArchiveIndex {
            work: archive.clone(),
            central_directory,
            end_records,
        },
        DirectoryDiscovery::Failed { detail } => {
            return fail_archive_work(&archive, detail);
        },
    };
    fetch_ranges_then(archive, missing, bringing, next)
}

/// Goes on from reading the control files: with the table of contents that they
/// complete, or the archive has failed.
pub fn run_read_archive_controls(archive: &ArchiveWork, read: Result<Arc<ArchiveIndex>, String>) -> (result:
    Result<Arc<ArchiveIndex>, ArchiveEnd>)
    ensures
        match read {
            Ok(archive_index) => result == Ok::<Arc<ArchiveIndex>, ArchiveEnd>(archive_index),
            Err(detail) => result matches Err(end) && fails_work(end, *archive, detail@),
        },
{
    match read {
        Ok(archive_index) => Ok(archive_index),
        Err(detail) => Err(fail_archive_work(archive, detail)),
    }
}

/// Goes on from reading the table of contents: an archive that files are
/// repaired out of is ready; any other goes on with its control files.
pub fn run_read_archive_index(
    archive: Arc<ArchiveWork>,
    repair_stopped: bool,
    read: Result<Arc<ArchiveIndex>, String>,
    missing: Result<Vec<ArchiveRangeRequest>, String>,
    bringing: Vec<TaskDependencyToken>,
) -> (end: ArchiveEnd)
    ensures
        if repair_stopped {
            plainly(end, TaskRun::Succeeded)
        } else {
            match read {
                Ok(archive_index) => if archive.repair_group is Some {
                    plainly(end, TaskRun::Succeeded)
                } else {
                    fetches_then(
                        end,
                        archive,
                        missing,
                        bringing@,
                        Task::ReadArchiveControls { work: archive, archive_index },
                    )
                },
                Err(detail) => fails_work(end, *archive, detail@),
            }
        },
{
    if repair_stopped {
        return plain_end(TaskRun::succeeded());
    }
    match read {
        Ok(archive_index) => {
            if archive.repair_group.is_some() {
                return plain_end(TaskRun::succeeded());
            }
            let next = Task::ReadArchiveControls { work: archive.clone(), archive_index };
            fetch_ranges_then(archive, missing, bringing, next)
        },
        Err(detail) => fail_archive_work(&archive, detail),
    }
}

/// Retries of a piece end: each attempt counts one up, and no attempt follows
/// the last.
pub proof fn law_fetch_attempts_end(
    end: ArchiveEnd,
    archive: Arc<ArchiveWork>,
    request: ArchiveRangeRequest,
    retry_count: u32,
    priority: ArchiveRangePriority,
    max_retries: u32,
    fetched: Result<u64, String>,
)
    requires
        fetch_ends(end, archive, request, retry_count, priority, max_retries, fetched),
        end.run is Continue,
    ensures
        retry_count < max_retries,
        end.run->task matches Task::FetchArchiveRange { retry_count: again, .. } && again
            == retry_count + 1,
{
}

} // verus!
