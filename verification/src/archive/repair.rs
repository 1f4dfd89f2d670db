//! Repairing files out of an archive.

use crate::archive::fetch;
use crate::archive::groups::ArchiveGroup;
use crate::archive::parts;
use crate::archive::work;
use crate::archive::work::{prepare_remote_archive_range_work, ArchiveSettings};
use crate::error::Message;
use crate::files;
use crate::event::{TaskOutcome, WorkerEvent};
use crate::graph::expansion::TaskRun;
use crate::path::{FilePath, PathModel};
use crate::path_safety;
use crate::path_safety::parse_safe_relative_path;
use crate::scheduler::routes;
use crate::task::{
    ArchiveFileRepairTask, ArchiveIndex, ArchiveRetention, ArchiveWork, ByteRange, ExpectedFile,
    FileDownload, Task,
};
use crate::text;
use crate::verify::IssueKind;
use std::sync::Arc;
use vstd::prelude::*;

verus! {

/// What is known of an archive that files can be repaired out of.
#[derive(Clone, Copy, PartialEq, Eq, Structural, Debug)]
pub enum GroupState {
    /// It is being looked at.
    Pending,
    /// Files can be repaired out of it.
    Ready,
    /// It cannot be used.
    Failed,
}

/// The archives that files can be repaired out of.
pub struct ArchiveRepairSession {
    pub install_root: FilePath,
    /// The files that the archives are expected to bring.
    pub expected_files: Arc<Vec<(String, ExpectedFile)>>,
    /// Whether the archives are being looked at.
    pub started: bool,
    pub states: Vec<GroupState>,
}

impl ArchiveRepairSession {
    pub open spec fn has_started(&self) -> bool {
        self.started
    }

    pub open spec fn group_states(&self) -> Seq<GroupState> {
        self.states@
    }

    pub fn new(
        install_root: FilePath,
        groups: usize,
        expected_files: Arc<Vec<(String, ExpectedFile)>>,
    ) -> (session: ArchiveRepairSession)
        ensures
            session.install_root == install_root,
            session.expected_files == expected_files,
            !session.has_started(),
            session.group_states().len() == groups,
            forall|i: int| 0 <= i < groups ==> (#[trigger] session.group_states()[i]) is Pending,
    {
        let mut states: Vec<GroupState> = Vec::new();
        let mut k: usize = 0;
        while k < groups
            invariant
                k <= groups,
                states@.len() == k,
                forall|i: int| 0 <= i < k ==> (#[trigger] states@[i]) is Pending,
            decreases groups - k,
        {
            states.push(GroupState::Pending);
            k = k + 1;
        }
        ArchiveRepairSession { install_root, expected_files, started: false, states }
    }

    /// Starts looking at the archives, once.
    pub fn try_start_prepare(&mut self) -> (first: bool)
        ensures
            first == !old(self).has_started(),
            final(self).has_started(),
            final(self).group_states() == old(self).group_states(),
            final(self).install_root == old(self).install_root,
            final(self).expected_files == old(self).expected_files,
    {
        let first = !self.started;
        self.started = true;
        first
    }

    /// Files can be repaired out of an archive, unless it has failed already.
    pub fn set_group_ready(&mut self, group: usize) -> (set: bool)
        ensures
            set == (group < old(self).group_states().len() && old(
                self,
            ).group_states()[group as int] is Pending),
            final(self).group_states() == (if set {
                old(self).group_states().update(group as int, GroupState::Ready)
            } else {
                old(self).group_states()
            }),
            final(self).has_started() == old(self).has_started(),
            final(self).install_root == old(self).install_root,
            final(self).expected_files == old(self).expected_files,
    {
        if group < self.states.len() && self.states[group] == GroupState::Pending {
            self.states.set(group, GroupState::Ready);
            return true;
        }
        false
    }

    /// An archive cannot be used.
    pub fn set_group_failed(&mut self, group: usize)
        ensures
            final(self).group_states() == (if group < old(self).group_states().len() {
                old(self).group_states().update(group as int, GroupState::Failed)
            } else {
                old(self).group_states()
            }),
            final(self).has_started() == old(self).has_started(),
            final(self).install_root == old(self).install_root,
            final(self).expected_files == old(self).expected_files,
    {
        if group < self.states.len() {
            self.states.set(group, GroupState::Failed);
        }
    }

    /// Whether an archive has failed, so that nothing more is done for it.
    pub fn index_stopped(&self, group: usize) -> (stopped: bool)
        ensures
            stopped == (group < self.group_states().len() && self.group_states()[group as int]
                is Failed),
    {
        group < self.states.len() && self.states[group] == GroupState::Failed
    }
}

/// Whether a task finds the table of contents of an archive for a repair.
pub open spec fn discovers_group(
    task: Task,
    group: ArchiveGroup,
    session: ArchiveRepairSession,
    index: int,
) -> bool {
    task matches Task::DiscoverArchiveDirectory { work: archive, required_range }
        && required_range is None && exists|settings: ArchiveSettings| #[trigger]
        are_repair_settings(settings, session) && work::is_repair_work(
            *archive,
            group.base_name@,
            parts::part_views(group.parts@),
            settings,
            index as usize,
        )
}

/// Whether settings are those of the archives of a session: they bring what the
/// session expects to its install, without a password, and leave nothing out.
pub open spec fn are_repair_settings(
    settings: ArchiveSettings,
    session: ArchiveRepairSession,
) -> bool {
    &&& settings.dest@ == session.install_root@
    &&& settings.password is None
    &&& settings.work_dir is None
    &&& settings.expected_files == session.expected_files
    &&& settings.excluded_commit_paths@.len() == 0
}

/// How many of the first `k` archives have volumes.
pub open spec fn usable(groups: Seq<ArchiveGroup>, k: int) -> int
    decreases k,
{
    if k <= 0 {
        0
    } else {
        usable(groups, k - 1) + (if groups[k - 1].parts@.len() > 0 {
            1int
        } else {
            0int
        })
    }
}

/// The states of archives of which those without volumes have failed.
pub open spec fn states_after(
    states: Seq<GroupState>,
    groups: Seq<ArchiveGroup>,
    k: int,
) -> Seq<GroupState>
    decreases k,
{
    if k <= 0 {
        states
    } else {
        let before = states_after(states, groups, k - 1);
        if groups[k - 1].parts@.len() == 0 && k - 1 < before.len() {
            before.update(k - 1, GroupState::Failed)
        } else {
            before
        }
    }
}

/// Whether tasks find the tables of contents of the archives that have volumes,
/// in their order.
pub open spec fn are_discoveries(
    tasks: Seq<Task>,
    groups: Seq<ArchiveGroup>,
    k: int,
    session: ArchiveRepairSession,
) -> bool {
    &&& tasks.len() == usable(groups, k)
    &&& forall|i: int|
        0 <= i < k && (#[trigger] groups[i]).parts@.len() > 0 ==> 0 <= usable(groups, i)
            < tasks.len() && discovers_group(
            tasks[usable(groups, i)],
            groups[i],
            session,
            i,
        )
}

proof fn lemma_usable_grows(groups: Seq<ArchiveGroup>, a: int, b: int)
    requires
        0 <= a <= b,
    ensures
        0 <= usable(groups, a) <= usable(groups, b),
    decreases b,
{
    if a < b {
        lemma_usable_grows(groups, a, b - 1);
    } else if a > 0 {
        lemma_usable_grows(groups, a - 1, a - 1);
    }
}

/// Looks at the archives that files can be repaired out of, once. Where their
/// directory cannot be had, none of them is used.
pub fn start_archive_repair_index(
    session: &mut ArchiveRepairSession,
    groups: Vec<ArchiveGroup>,
    directory_ready: bool,
) -> (tasks: Vec<Task>)
    requires
        groups@.len() == old(session).group_states().len(),
    ensures
        final(session).has_started(),
        final(session).install_root == old(session).install_root,
        final(session).expected_files == old(session).expected_files,
        if old(session).has_started() {
            tasks@.len() == 0 && final(session).group_states() == old(session).group_states()
        } else if !directory_ready {
            tasks@.len() == 0 && final(session).group_states().len() == groups@.len() && forall|
                i: int,
            |
                0 <= i < groups@.len() ==> (#[trigger] final(session).group_states()[i]) is Failed
        } else {
            are_discoveries(tasks@, groups@, groups@.len() as int, *old(session))
                && final(session).group_states() == states_after(
                old(session).group_states(),
                groups@,
                groups@.len() as int,
            )
        },
{
    let mut tasks: Vec<Task> = Vec::new();
    if !session.try_start_prepare() {
        return tasks;
    }
    let count = groups.len();
    if !directory_ready {
        let mut k: usize = 0;
        while k < count
            invariant
                k <= count,
                session.has_started(),
                session.install_root == old(session).install_root,
                session.expected_files == old(session).expected_files,
                session.group_states().len() == count,
                forall|i: int|
                    0 <= i < k ==> (#[trigger] session.group_states()[i]) is Failed,
            decreases count - k,
        {
            session.set_group_failed(k);
            k = k + 1;
        }
        return tasks;
    }
    let ghost all = groups@;
    let ghost states = session.group_states();
    let ghost of = *old(session);
    let mut index: usize = 0;
    for group in it: groups
        invariant
            it.seq() == all,
            index == it.index(),
            count == all.len(),
            session.has_started(),
            session.install_root == of.install_root,
            session.expected_files == of.expected_files,
            session.group_states().len() == states.len() == all.len(),
            session.group_states() == states_after(states, all, index as int),
            are_discoveries(tasks@, all, index as int, of),
    {
        let ghost before = tasks@;
        let ArchiveGroup { base_name, parts: list } = group;
        let settings = ArchiveSettings {
            dest: session.install_root.copied(),
            retention: ArchiveRetention::DiscardVolumes,
            password: None,
            work_dir: None,
            expected_files: session.expected_files.clone(),
            excluded_commit_paths: Vec::new(),
        };
        let ghost given = settings;
        let ghost name = base_name@;
        match prepare_remote_archive_range_work(base_name, list, settings, index) {
            Ok(archive) => {
                let ghost opened = archive;
                tasks.push(
                    Task::DiscoverArchiveDirectory {
                        work: Arc::new(archive),
                        required_range: None,
                    },
                );
                proof {
                    assert(are_repair_settings(given, of));
                    assert(work::is_repair_work(
                        opened,
                        name,
                        parts::part_views(all[index as int].parts@),
                        given,
                        index,
                    ));
                    assert(discovers_group(tasks@.last(), all[index as int], of, index as int));
                }
            },
            Err(_) => {
                session.set_group_failed(index);
            },
        }
        proof {
            assert forall|i: int|
                0 <= i < index + 1 && (#[trigger] all[i]).parts@.len() > 0 implies 0 <= usable(
                all,
                i,
            ) < tasks@.len() && discovers_group(tasks@[usable(all, i)], all[i], of, i) by {
                lemma_usable_grows(all, i, index as int);
                if i < index {
                    lemma_usable_grows(all, i + 1, index as int);
                    assert(discovers_group(before[usable(all, i)], all[i], of, i));
                    assert(tasks@[usable(all, i)] == before[usable(all, i)]);
                }
            }
        }
        index = index + 1;
    }
    tasks
}

/// What a step of a repair ends in.
pub struct RepairEnd {
    pub run: TaskRun,
    /// Whether the fetched pieces are dropped.
    pub drop_ranges: bool,
    /// What is reported.
    pub events: Vec<WorkerEvent>,
}

/// The download that takes the place of a repair.
pub open spec fn is_fallback_download(
    download: FileDownload,
    repair: ArchiveFileRepairTask,
) -> bool {
    &&& repair.download_url == Some(download.url)
    &&& download.dest == repair.dest
    &&& download.logical_path == repair.logical_path
    &&& download.expected_md5 == repair.expected_md5
    &&& download.expected_size == Some(repair.expected_size)
    &&& download.retry_count == repair.retry_count
    &&& download.transfer_class == repair.transfer_class
    &&& download.archive_repair is None
}

/// Whether a repair that failed falls back to a download of the file: the
/// failure is reported, and the file is downloaded, or, where it cannot be, the
/// task fails.
pub open spec fn falls_back(
    end: RepairEnd,
    repair: ArchiveFileRepairTask,
    reason: Seq<char>,
) -> bool {
    &&& end.events@.len() == 1
    &&& fetch::is_retry(
        end.events@[0],
        repair.logical_path@,
        "archive repair failed; using individual file download: "@ + reason,
    )
    &&& match repair.download_url {
        Some(_) => end.run matches TaskRun::Continue { task: Task::Download { download, resume } }
            && resume is None && is_fallback_download(download, repair),
        None => work::fails_with(
            end.run,
            "archive repair failed for "@ + repair.logical_path@
                + " and no individual download URL is available: "@ + reason,
        ),
    }
}

/// Falls back to a download of the file.
pub fn direct_fallback(repair: ArchiveFileRepairTask, reason: &str, drop_ranges: bool) -> (end: RepairEnd)
    ensures
        falls_back(end, repair, reason@),
        end.drop_ranges == drop_ranges,
{
    let mut events: Vec<WorkerEvent> = Vec::new();
    let mut text = "archive repair failed; using individual file download: ".to_owned();
    text::push_text(&mut text, reason);
    events.push(WorkerEvent::Retried { path: repair.logical_path.clone(), reason: text });
    match repair.download_url {
        Some(url) => {
            let download = FileDownload {
                url,
                dest: repair.dest,
                logical_path: repair.logical_path,
                expected_md5: repair.expected_md5,
                expected_size: Some(repair.expected_size),
                retry_count: repair.retry_count,
                transfer_class: repair.transfer_class,
                archive_repair: None,
            };
            RepairEnd {
                run: TaskRun::Continue { task: Task::Download { download, resume: None } },
                drop_ranges,
                events,
            }
        },
        None => {
            let mut detail = "archive repair failed for ".to_owned();
            text::push_text(&mut detail, repair.logical_path.as_str());
            text::push_text(&mut detail, " and no individual download URL is available: ");
            text::push_text(&mut detail, reason);
            RepairEnd { run: TaskRun::failed(detail), drop_ranges, events }
        },
    }
}

/// What follows a failed attempt to fetch a piece for a repair.
pub enum AttemptStep {
    /// Try again, with this report.
    Again { event: WorkerEvent },
    /// Give up the repair.
    GiveUp,
}

/// What follows a failed attempt: another one, as long as attempts are left.
pub fn after_failed_attempt(path: String, attempt: u32, max_retries: u32, error: &str) -> (step: AttemptStep)
    ensures
        match step {
            AttemptStep::Again { event } => attempt < max_retries && fetch::is_retry(
                event,
                path@,
                fetch::attempt_text("archive range attempt "@, (attempt + 1) as nat, error@),
            ),
            AttemptStep::GiveUp => attempt >= max_retries,
        },
{
    if attempt < max_retries {
        let reason = fetch::attempt_reason("archive range attempt ", attempt as u64 + 1, error);
        AttemptStep::Again { event: WorkerEvent::Retried { path, reason } }
    } else {
        AttemptStep::GiveUp
    }
}

/// How far the pieces of a repair have been fetched.
#[derive(Clone, Copy, PartialEq, Eq, Structural, Debug)]
pub struct RepairFetch {
    /// The pieces that are there.
    pub fetched: usize,
    /// The failed attempts at the next one.
    pub attempt: u32,
    pub downloaded: u64,
}

impl RepairFetch {
    pub fn new() -> (fetch: RepairFetch)
        ensures
            fetch == (RepairFetch { fetched: 0, attempt: 0, downloaded: 0 }),
    {
        RepairFetch { fetched: 0, attempt: 0, downloaded: 0 }
    }

    /// The piece to fetch next, unless all are there.
    pub fn next_piece(&self, pieces: usize) -> (next: Option<usize>)
        ensures
            next == (if self.fetched < pieces {
                Some(self.fetched)
            } else {
                None
            }),
    {
        if self.fetched < pieces {
            Some(self.fetched)
        } else {
            None
        }
    }

    /// A piece has been fetched.
    pub fn took(&mut self, bytes: u64)
        requires
            old(self).fetched < usize::MAX,
        ensures
            *final(self) == (RepairFetch {
                fetched: (old(self).fetched + 1) as usize,
                attempt: 0,
                downloaded: routes::capped_sum(old(self).downloaded, bytes),
            }),
    {
        self.fetched = self.fetched + 1;
        self.attempt = 0;
        self.downloaded = self.downloaded.saturating_add(bytes);
    }

    /// An attempt has failed: another one follows, as long as attempts are left.
    pub fn missed(&mut self, path: String, max_retries: u32, error: &str) -> (step: AttemptStep)
        ensures
            match step {
                AttemptStep::Again { event } => old(self).attempt < max_retries && fetch::is_retry(
                    event,
                    path@,
                    fetch::attempt_text(
                        "archive range attempt "@,
                        (old(self).attempt + 1) as nat,
                        error@,
                    ),
                ) && *final(self) == (RepairFetch {
                    attempt: (old(self).attempt + 1) as u32,
                    ..*old(self)
                }),
                AttemptStep::GiveUp => old(self).attempt >= max_retries && *final(self) == *old(
                    self,
                ),
            },
    {
        let step = after_failed_attempt(path, self.attempt, max_retries, error);
        if self.attempt < max_retries {
            self.attempt = self.attempt + 1;
        }
        step
    }
}

/// Where a file lies in an archive.
pub struct RepairSource {
    pub entry_index: usize,
    pub volume_indices: Vec<usize>,
    pub source_range: ByteRange,
    pub source_bytes: u64,
}

/// Whether a file may be taken out of an archive in place of its download: a
/// repair session must know it, and its size must be known.
pub open spec fn may_come_from_archive(download: FileDownload) -> bool {
    download.archive_repair is Some && download.expected_size is Some
}

/// Whether a repair takes the place of a download.
pub open spec fn replaces(
    repair: ArchiveFileRepairTask,
    download: FileDownload,
    work: Arc<ArchiveWork>,
    index: Arc<ArchiveIndex>,
    staging_dir: PathModel,
    source: RepairSource,
) -> bool {
    &&& repair.work == work
    &&& repair.archive_index == index
    &&& repair.staging_dir@ == staging_dir
    &&& repair.entry_index == source.entry_index
    &&& repair.volume_indices == source.volume_indices
    &&& repair.source_range == source.source_range
    &&& repair.source_bytes == source.source_bytes
    &&& repair.dest@ == download.dest@
    &&& repair.logical_path@ == download.logical_path@
    &&& repair.expected_md5@ == download.expected_md5@
    &&& download.expected_size == Some(repair.expected_size)
    &&& repair.download_url is Some && repair.download_url->0@ == download.url@
    &&& repair.retry_count == download.retry_count
    &&& repair.transfer_class == download.transfer_class
}

/// The repair that takes the place of a download, where an archive holds the
/// file.
pub fn select_archive_repair(
    download: &FileDownload,
    work: Arc<ArchiveWork>,
    index: Arc<ArchiveIndex>,
    staging_dir: &FilePath,
    source: RepairSource,
) -> (repair: Option<ArchiveFileRepairTask>)
    ensures
        match repair {
            Some(task) => may_come_from_archive(*download) && replaces(
                task,
                *download,
                work,
                index,
                staging_dir@,
                source,
            ),
            None => !may_come_from_archive(*download),
        },
{
    if download.archive_repair.is_none() {
        return None;
    }
    match download.expected_size {
        Some(expected_size) => Some(
            ArchiveFileRepairTask {
                work,
                archive_index: index,
                staging_dir: staging_dir.copied(),
                entry_index: source.entry_index,
                volume_indices: source.volume_indices,
                source_range: source.source_range,
                source_bytes: source.source_bytes,
                dest: download.dest.copied(),
                logical_path: download.logical_path.clone(),
                expected_md5: download.expected_md5.clone(),
                expected_size,
                download_url: Some(download.url.clone()),
                retry_count: download.retry_count,
                transfer_class: download.transfer_class,
            },
        ),
        None => None,
    }
}

/// Goes on once the pieces of a repair are there, or not: the file is extracted,
/// or downloaded instead.
pub fn run_fetch_archive_repair_file(
    repair: ArchiveFileRepairTask,
    fetched: Result<u64, (String, bool)>,
) -> (end: RepairEnd)
    ensures
        match fetched {
            Ok(bytes) => end.events@.len() == 0 && !end.drop_ranges && end.run
                == (TaskRun::Continue {
                task: Task::ExtractArchiveRepairFile {
                    repair: ArchiveFileRepairTask { source_bytes: bytes, ..repair },
                },
            }),
            Err((error, drop_ranges)) => falls_back(end, repair, error@) && end.drop_ranges
                == drop_ranges,
        },
{
    match fetched {
        Ok(bytes) => {
            let mut repair = repair;
            repair.source_bytes = bytes;
            RepairEnd {
                run: TaskRun::Continue { task: Task::ExtractArchiveRepairFile { repair } },
                drop_ranges: false,
                events: Vec::new(),
            }
        },
        Err((error, drop_ranges)) => direct_fallback(repair, error.as_str(), drop_ranges),
    }
}

/// Where a repaired file lies after it is extracted, or what is wrong.
pub open spec fn repair_source(repair: ArchiveFileRepairTask) -> Result<
    crate::path::PathModel,
    Seq<char>,
> {
    if repair.entry_index >= repair.archive_index.names@.len() {
        Err("archive entry name is unavailable"@)
    } else {
        match path_safety::safe_relative_path(
            repair.archive_index.names@[repair.entry_index as int]@,
        ) {
            Ok(relative) => Ok(repair.staging_dir@.join(relative)),
            Err(detail) => Err("Invalid path: "@ + ("Archive entry"@ + " "@ + detail)),
        }
    }
}

/// Where a repaired file lies after it is extracted.
pub fn extracted_repair_path(repair: &ArchiveFileRepairTask) -> (result: Result<FilePath, String>)
    ensures
        match (result, repair_source(*repair)) {
            (Ok(path), Ok(wanted)) => path@ == wanted,
            (Err(text), Err(detail)) => text@ == detail,
            _ => false,
        },
{
    if repair.entry_index >= repair.archive_index.names.len() {
        return Err("archive entry name is unavailable".to_owned());
    }
    let name = &repair.archive_index.names[repair.entry_index];
    match parse_safe_relative_path("Archive entry", name.as_str()) {
        Ok(relative) => Ok(repair.staging_dir.join(&relative)),
        Err(message) => Err(message.message()),
    }
}

/// What came of extracting a file for a repair and putting it in place.
pub enum RepairOutcome {
    /// It could not be extracted.
    NotExtracted { error: String },
    /// It could not be put in place.
    NotCommitted { error: String },
    /// It is in place, and this is what is wrong with it.
    Committed { issue: Option<IssueKind> },
}

/// Whether reports say that a file was repaired.
pub open spec fn reports_repair(events: Seq<WorkerEvent>, repair: ArchiveFileRepairTask) -> bool {
    &&& events.len() == 3
    &&& fetch::is_download(events[0], repair.logical_path@, repair.source_bytes)
    &&& events[1] matches WorkerEvent::Outcome { outcome: TaskOutcome::Changed { path } } && path@
        == repair.logical_path@
    &&& events[2] matches WorkerEvent::Outcome {
        outcome: TaskOutcome::Verified { path, ok, issue },
    } && path@ == repair.logical_path@ && ok && issue is None
}

/// Whether a repair ends as it should.
pub open spec fn repair_ends(
    repair: ArchiveFileRepairTask,
    outcome: RepairOutcome,
    end: RepairEnd,
) -> bool {
    match outcome {
        RepairOutcome::NotExtracted { error } => falls_back(end, repair, error@)
            && end.drop_ranges,
        RepairOutcome::NotCommitted { error } => falls_back(end, repair, error@)
            && !end.drop_ranges,
        RepairOutcome::Committed { issue: Some(kind) } => falls_back(
            end,
            repair,
            "committed archive file failed verification: "@ + kind.text(),
        ) && !end.drop_ranges,
        RepairOutcome::Committed { issue: None } => end.run is Succeeded && !end.drop_ranges
            && reports_repair(end.events@, repair),
    }
}

/// Ends a repair: a file that is what it should be is reported; any other is
/// downloaded instead.
pub fn run_extract_archive_repair_file(repair: ArchiveFileRepairTask, outcome: RepairOutcome) -> (end:
    RepairEnd)
    ensures
        repair_ends(repair, outcome, end),
{
    match outcome {
        RepairOutcome::NotExtracted { error } => direct_fallback(repair, error.as_str(), true),
        RepairOutcome::NotCommitted { error } => direct_fallback(repair, error.as_str(), false),
        RepairOutcome::Committed { issue } => match issue {
            Some(kind) => {
                let mut reason = "committed archive file failed verification: ".to_owned();
                text::push_text(&mut reason, kind.name());
                direct_fallback(repair, reason.as_str(), false)
            },
            None => {
                let mut events: Vec<WorkerEvent> = Vec::new();
                events.push(
                    WorkerEvent::downloaded(repair.logical_path.clone(), repair.source_bytes),
                );
                events.push(WorkerEvent::changed(repair.logical_path.clone()));
                events.push(WorkerEvent::verified(repair.logical_path, true, None));
                RepairEnd { run: TaskRun::succeeded(), drop_ranges: false, events }
            },
        },
    }
}

/// What follows once the table of contents of an archive has been read, out of
/// which files are to be repaired.
pub enum IndexEnd {
    /// Nobody waits for it: its pieces are of no use.
    Gone,
    /// Files can be repaired out of it, by way of a directory.
    Ready { staging_dir: FilePath },
    /// It has failed meanwhile: the directory and its pieces are of no use.
    Refused { staging_dir: FilePath },
}

/// The directory by way of which files are repaired out of an archive.
pub open spec fn repair_staging(
    install_root: PathModel,
    base_name: Seq<char>,
    process: u32,
    counter: usize,
) -> PathModel {
    files::staging_dir(install_root, "repair-"@ + base_name, None, process, counter)
}

/// Whether an archive is still being looked at for a session.
pub open spec fn is_awaited(session: ArchiveRepairSession, group: usize) -> bool {
    group < session.group_states().len() && session.group_states()[group as int] is Pending
}

/// Whether a session is another one with an archive that can be used now.
pub open spec fn gains(
    after: ArchiveRepairSession,
    before: ArchiveRepairSession,
    group: usize,
) -> bool {
    &&& after.install_root == before.install_root
    &&& after.expected_files == before.expected_files
    &&& after.has_started() == before.has_started()
    &&& after.group_states() == (if is_awaited(before, group) {
        before.group_states().update(group as int, GroupState::Ready)
    } else {
        before.group_states()
    })
}

/// Ends the reading of a table of contents. Only archives that files are repaired
/// out of are read this way.
pub fn finish_archive_repair_index(
    archive: &ArchiveWork,
    session: &mut Option<ArchiveRepairSession>,
    process: u32,
    counter: usize,
) -> (result: Result<IndexEnd, Message>)
    ensures
        match archive.repair_group {
            None => *final(session) == *old(session) && (result matches Err(message)
                && message.context@ == "Task pool error: "@ && message.detail@ == "archive "@
                + archive.base_name@ + " is not repair metadata work"@),
            Some(group) => match *old(session) {
                None => *final(session) is None && result matches Ok(IndexEnd::Gone),
                Some(before) => {
                    let dir = repair_staging(
                        before.install_root@,
                        archive.base_name@,
                        process,
                        counter,
                    );
                    &&& *final(session) matches Some(after) && gains(after, before, group)
                    &&& if is_awaited(before, group) {
                        result matches Ok(IndexEnd::Ready { staging_dir }) && staging_dir@ == dir
                    } else {
                        result matches Ok(IndexEnd::Refused { staging_dir }) && staging_dir@ == dir
                    }
                },
            },
        },
{
    let group = match archive.repair_group {
        Some(group) => group,
        None => {
            let mut detail = "archive ".to_owned();
            text::push_text(&mut detail, archive.base_name.as_str());
            text::push_text(&mut detail, " is not repair metadata work");
            return Err(Message::new("Task pool error: ", detail));
        },
    };
    let mut of = match session.take() {
        Some(of) => of,
        None => {
            return Ok(IndexEnd::Gone);
        },
    };
    let mut name = "repair-".to_owned();
    text::push_text(&mut name, archive.base_name.as_str());
    let staging_dir = files::make_extract_staging_dir(
        &of.install_root,
        name.as_str(),
        &None,
        process,
        counter,
    );
    let ready = of.set_group_ready(group);
    *session = Some(of);
    if ready {
        Ok(IndexEnd::Ready { staging_dir })
    } else {
        Ok(IndexEnd::Refused { staging_dir })
    }
}

/// A repair succeeds if and only if the file is in place and nothing is wrong with it;
/// else the file is downloaded if it has a URL. What was fetched is dropped only where it
/// could not be extracted.
pub proof fn law_only_right_files_are_repaired(
    repair: ArchiveFileRepairTask,
    outcome: RepairOutcome,
    end: RepairEnd,
)
    requires
        repair_ends(repair, outcome, end),
    ensures
        end.run is Succeeded <==> (outcome matches RepairOutcome::Committed { issue } && issue
            is None),
        !(end.run is Succeeded) && repair.download_url is Some ==> (end.run matches
            TaskRun::Continue { task } && task is Download),
        end.run is Failed ==> repair.download_url is None,
        end.drop_ranges <==> outcome is NotExtracted,
        forall|i: int|
            0 <= i < end.events@.len() ==> ((#[trigger] end.events@[i]) matches WorkerEvent::Outcome {
                outcome: TaskOutcome::Verified { ok, .. },
            } ==> ok && end.run is Succeeded),
{
}

} // verus!
