//! From the reports of tasks to what a person is shown.

use crate::event::{ProgressPhase, TaskOutcome, WorkerEvent};
use crate::scheduler::metrics;
use vstd::hash_map::StringHashMap;
use vstd::hash_set::StringHashSet;
use vstd::prelude::*;

verus! {

/// One line of a display.
#[derive(Clone, Copy, PartialEq, Eq, Structural, Debug)]
pub struct ProgressLane(pub u32);

/// What a line counts.
#[derive(Clone, Copy, PartialEq, Eq, Structural, Debug)]
pub enum ProgressUnit {
    Items,
    Bytes,
}

/// A change of a display.
pub enum ProgressUpdate {
    Started { lane: ProgressLane, unit: ProgressUnit, total: Option<u64> },
    Advanced { lane: ProgressLane, completed: u64, total: Option<u64>, item: Option<String> },
    Finished { lane: ProgressLane },
}

/// A change of a display, in the mathematical model.
pub enum Update {
    Started { lane: ProgressLane, unit: ProgressUnit, total: Option<u64> },
    Advanced {
        lane: ProgressLane,
        completed: u64,
        total: Option<u64>,
        item: Option<Seq<char>>,
    },
    Finished { lane: ProgressLane },
}

impl View for ProgressUpdate {
    type V = Update;

    open spec fn view(&self) -> Update {
        match self {
            ProgressUpdate::Started { lane, unit, total } => Update::Started {
                lane: *lane,
                unit: *unit,
                total: *total,
            },
            ProgressUpdate::Advanced { lane, completed, total, item } => Update::Advanced {
                lane: *lane,
                completed: *completed,
                total: *total,
                item: match item {
                    Some(text) => Some(text@),
                    None => None,
                },
            },
            ProgressUpdate::Finished { lane } => Update::Finished { lane: *lane },
        }
    }
}

/// The changes of a list.
pub open spec fn updates(list: Seq<ProgressUpdate>) -> Seq<Update> {
    Seq::new(list.len(), |i: int| list[i]@)
}

/// The lines of a display, for the work that has one.
#[derive(Clone, Copy, Debug)]
pub struct TaskProgress {
    /// The line for verified files, and how many there are.
    pub verify: Option<(ProgressLane, u64)>,
    pub download: Option<ProgressLane>,
    pub extract: Option<ProgressLane>,
    pub commit: Option<ProgressLane>,
    pub patch: Option<ProgressLane>,
    pub delete: Option<ProgressLane>,
}

/// A display without lines.
pub open spec fn no_display() -> TaskProgress {
    TaskProgress {
        verify: None,
        download: None,
        extract: None,
        commit: None,
        patch: None,
        delete: None,
    }
}

impl TaskProgress {
    /// A display without lines.
    pub fn disabled() -> (progress: TaskProgress)
        ensures
            progress == no_display(),
    {
        TaskProgress {
            verify: None,
            download: None,
            extract: None,
            commit: None,
            patch: None,
            delete: None,
        }
    }
}

/// Bytes for each path, and their sum, in the mathematical model.
#[verifier::ext_equal]
pub struct Bytes {
    pub by_path: Map<Seq<char>, u64>,
    pub total: int,
}

impl Bytes {
    pub open spec fn none() -> Bytes {
        Bytes { by_path: Map::empty(), total: 0 }
    }

    /// The bytes of a path.
    pub open spec fn of(self, path: Seq<char>) -> u64 {
        if self.by_path.contains_key(path) {
            self.by_path[path]
        } else {
            0
        }
    }

    /// With other bytes for a path.
    pub open spec fn recorded(self, path: Seq<char>, bytes: u64) -> Bytes {
        let rest = if self.of(path) <= self.total {
            self.total - self.of(path)
        } else {
            0
        };
        Bytes {
            by_path: self.by_path.insert(path, bytes),
            total: metrics::capped64(rest + bytes),
        }
    }

    /// With more bytes for a path, never with fewer.
    pub open spec fn recorded_max(self, path: Seq<char>, bytes: u64) -> Bytes {
        self.recorded(
            path,
            if bytes > self.of(path) {
                bytes
            } else {
                self.of(path)
            },
        )
    }
}

/// Bytes for each path, and their sum.
pub struct RunningByteProgress {
    by_path: StringHashMap<u64>,
    total: u64,
}

impl View for RunningByteProgress {
    type V = Bytes;

    closed spec fn view(&self) -> Bytes {
        Bytes { by_path: self.by_path@, total: self.total as int }
    }
}

impl RunningByteProgress {
    pub fn new() -> (bytes: RunningByteProgress)
        ensures
            bytes@ == Bytes::none(),
    {
        RunningByteProgress { by_path: StringHashMap::new(), total: 0 }
    }

    fn bytes_of(&self, path: &String) -> (bytes: u64)
        ensures
            bytes == self@.of(path@),
    {
        match self.by_path.get(path.as_str()) {
            Some(bytes) => *bytes,
            None => 0,
        }
    }

    /// Sets the bytes of a path.
    pub fn record(&mut self, path: &String, bytes: u64)
        ensures
            final(self)@ == old(self)@.recorded(path@, bytes),
    {
        let before = self.bytes_of(path);
        self.total = self.total.saturating_sub(before).saturating_add(bytes);
        self.by_path.insert(path.clone(), bytes);
    }

    /// Raises the bytes of a path.
    pub fn record_max(&mut self, path: &String, bytes: u64)
        ensures
            final(self)@ == old(self)@.recorded_max(path@, bytes),
    {
        let before = self.bytes_of(path);
        let most = if bytes > before {
            bytes
        } else {
            before
        };
        self.record(path, most);
    }

    pub fn total_bytes(&self) -> (total: u64)
        ensures
            total == self@.total,
    {
        self.total
    }
}

/// What has been shown so far, in the mathematical model.
#[verifier::ext_equal]
pub struct Shown {
    pub config: TaskProgress,
    pub verify_completed: u64,
    pub verified: Set<Seq<char>>,
    pub download_completed: Bytes,
    pub download_totals: Bytes,
    pub extract_completed: Bytes,
    pub extract_totals: Bytes,
    pub download_started: bool,
    pub extract_started: bool,
    pub commit_started: bool,
    pub patch_started: bool,
    pub delete_started: bool,
}

/// A total, where it is known.
pub open spec fn known(total: int) -> Option<u64> {
    if total > 0 {
        Some(total as u64)
    } else {
        None
    }
}

/// The changes for bytes: the line starts, unless it has, and moves on.
pub open spec fn byte_updates(
    started: bool,
    lane: ProgressLane,
    completed: int,
    total: int,
    item: Seq<char>,
) -> Seq<Update> {
    let moved = Update::Advanced {
        lane,
        completed: completed as u64,
        total: known(total),
        item: Some(item),
    };
    if started {
        seq![moved]
    } else {
        seq![Update::Started { lane, unit: ProgressUnit::Bytes, total: known(total) }, moved]
    }
}

/// The changes for items: the line starts, unless it has, and moves on.
pub open spec fn item_updates(
    started: bool,
    lane: ProgressLane,
    completed: u64,
    total: u64,
    item: Seq<char>,
) -> Seq<Update> {
    let moved = Update::Advanced { lane, completed, total: Some(total), item: Some(item) };
    if started {
        seq![moved]
    } else {
        seq![Update::Started { lane, unit: ProgressUnit::Items, total: Some(total) }, moved]
    }
}

impl Shown {
    /// Nothing has been shown.
    pub open spec fn nothing(config: TaskProgress) -> Shown {
        Shown {
            config,
            verify_completed: 0,
            verified: Set::empty(),
            download_completed: Bytes::none(),
            download_totals: Bytes::none(),
            extract_completed: Bytes::none(),
            extract_totals: Bytes::none(),
            download_started: false,
            extract_started: false,
            commit_started: false,
            patch_started: false,
            delete_started: false,
        }
    }

    /// A download moved on.
    pub open spec fn download(self, completed: Bytes, totals: Bytes, item: Seq<char>) -> (
        Shown,
        Seq<Update>,
    ) {
        match self.config.download {
            None => (self, Seq::empty()),
            Some(lane) => (
                Shown {
                    download_completed: completed,
                    download_totals: totals,
                    download_started: true,
                    ..self
                },
                byte_updates(self.download_started, lane, completed.total, totals.total, item),
            ),
        }
    }

    /// A file was verified. Each file counts once.
    pub open spec fn verify(self, path: Seq<char>) -> (Shown, Seq<Update>) {
        match self.config.verify {
            None => (self, Seq::empty()),
            Some((lane, total)) => if self.verified.contains(path) {
                (self, Seq::empty())
            } else {
                let raised = metrics::capped64(self.verify_completed + 1) as u64;
                let completed = if raised <= total {
                    raised
                } else {
                    total
                };
                (
                    Shown {
                        verify_completed: completed,
                        verified: self.verified.insert(path),
                        ..self
                    },
                    seq![
                        Update::Advanced {
                            lane,
                            completed,
                            total: Some(total),
                            item: Some(path),
                        },
                    ],
                )
            },
        }
    }

    /// What a report changes.
    pub open spec fn step(self, event: WorkerEvent) -> (Shown, Seq<Update>) {
        match event {
            WorkerEvent::Retried { .. } => (self, Seq::empty()),
            WorkerEvent::Outcome { outcome } => match outcome {
                TaskOutcome::Verified { path, .. } => self.verify(path@),
                TaskOutcome::Downloaded { path, bytes } => self.download(
                    self.download_completed.recorded_max(path@, bytes),
                    self.download_totals.recorded_max(path@, bytes),
                    path@,
                ),
                _ => (self, Seq::empty()),
            },
            WorkerEvent::Progress { phase, path, completed, total, reset } => match phase {
                ProgressPhase::Download => if reset {
                    self.download(
                        self.download_completed.recorded(path@, completed),
                        self.download_totals,
                        path@,
                    )
                } else {
                    self.download(
                        self.download_completed.recorded_max(path@, completed),
                        self.download_totals.recorded(path@, total),
                        path@,
                    )
                },
                ProgressPhase::Extract => match self.config.extract {
                    None => (self, Seq::empty()),
                    Some(lane) => {
                        let done = self.extract_completed.recorded_max(path@, completed);
                        let totals = self.extract_totals.recorded(path@, total);
                        (
                            Shown {
                                extract_completed: done,
                                extract_totals: totals,
                                extract_started: true,
                                ..self
                            },
                            byte_updates(
                                self.extract_started,
                                lane,
                                done.total,
                                totals.total,
                                path@,
                            ),
                        )
                    },
                },
                ProgressPhase::Commit => match self.config.commit {
                    None => (self, Seq::empty()),
                    Some(lane) => (
                        Shown { commit_started: true, ..self },
                        item_updates(self.commit_started, lane, completed, total, path@),
                    ),
                },
                ProgressPhase::Patch => match self.config.patch {
                    None => (self, Seq::empty()),
                    Some(lane) => (
                        Shown { patch_started: true, ..self },
                        item_updates(self.patch_started, lane, completed, total, path@),
                    ),
                },
                ProgressPhase::Delete => match self.config.delete {
                    None => (self, Seq::empty()),
                    Some(lane) => (
                        Shown { delete_started: true, ..self },
                        item_updates(self.delete_started, lane, completed, total, path@),
                    ),
                },
            },
        }
    }

    /// The changes when the display starts.
    pub open spec fn opening(config: TaskProgress) -> Seq<Update> {
        match config.verify {
            Some((lane, total)) => if total > 0 {
                seq![
                    Update::Started { lane, unit: ProgressUnit::Items, total: Some(total) },
                ]
            } else {
                Seq::empty()
            },
            None => Seq::empty(),
        }
    }

    /// The end of a line that has started.
    pub open spec fn ending(started: bool, lane: Option<ProgressLane>) -> Seq<Update> {
        match lane {
            Some(inner) => if started {
                seq![Update::Finished { lane: inner }]
            } else {
                Seq::empty()
            },
            None => Seq::empty(),
        }
    }

    /// The changes when the display ends: every line that has started ends.
    pub open spec fn closing(self) -> Seq<Update> {
        let verify = match self.config.verify {
            Some((lane, total)) => if total > 0 {
                seq![Update::Finished { lane }]
            } else {
                Seq::empty()
            },
            None => Seq::empty(),
        };
        verify + Self::ending(self.download_started, self.config.download) + Self::ending(
            self.extract_started,
            self.config.extract,
        ) + Self::ending(self.commit_started, self.config.commit) + Self::ending(
            self.patch_started,
            self.config.patch,
        ) + Self::ending(self.delete_started, self.config.delete)
    }
}

fn known_total(total: u64) -> (known: Option<u64>)
    ensures
        known == self::known(total as int),
{
    if total > 0 {
        Some(total)
    } else {
        None
    }
}

fn show_bytes(started: bool, lane: ProgressLane, completed: u64, total: u64, item: &String) -> (
    list: Vec<ProgressUpdate>)
    ensures
        updates(list@) == byte_updates(started, lane, completed as int, total as int, item@),
{
    let mut list: Vec<ProgressUpdate> = Vec::new();
    if !started {
        list.push(
            ProgressUpdate::Started {
                lane,
                unit: ProgressUnit::Bytes,
                total: known_total(total),
            },
        );
    }
    list.push(
        ProgressUpdate::Advanced {
            lane,
            completed,
            total: known_total(total),
            item: Some(item.clone()),
        },
    );
    assert(updates(list@) =~= byte_updates(started, lane, completed as int, total as int, item@));
    list
}

fn show_items(started: bool, lane: ProgressLane, completed: u64, total: u64, item: &String) -> (
    list: Vec<ProgressUpdate>)
    ensures
        updates(list@) == item_updates(started, lane, completed, total, item@),
{
    let mut list: Vec<ProgressUpdate> = Vec::new();
    if !started {
        list.push(
            ProgressUpdate::Started { lane, unit: ProgressUnit::Items, total: Some(total) },
        );
    }
    list.push(
        ProgressUpdate::Advanced { lane, completed, total: Some(total), item: Some(item.clone()) },
    );
    assert(updates(list@) =~= item_updates(started, lane, completed, total, item@));
    list
}

fn show_nothing() -> (list: Vec<ProgressUpdate>)
    ensures
        updates(list@) == Seq::<Update>::empty(),
{
    let list: Vec<ProgressUpdate> = Vec::new();
    assert(updates(list@) =~= Seq::<Update>::empty());
    list
}

/// Turns the reports of tasks into what a person is shown.
pub struct TaskProgressReducer {
    config: TaskProgress,
    verify_completed: u64,
    verified_paths: StringHashSet,
    download_completed: RunningByteProgress,
    download_totals: RunningByteProgress,
    extract_completed: RunningByteProgress,
    extract_totals: RunningByteProgress,
    download_started: bool,
    extract_started: bool,
    commit_started: bool,
    patch_started: bool,
    delete_started: bool,
}

impl View for TaskProgressReducer {
    type V = Shown;

    closed spec fn view(&self) -> Shown {
        Shown {
            config: self.config,
            verify_completed: self.verify_completed,
            verified: self.verified_paths@,
            download_completed: self.download_completed@,
            download_totals: self.download_totals@,
            extract_completed: self.extract_completed@,
            extract_totals: self.extract_totals@,
            download_started: self.download_started,
            extract_started: self.extract_started,
            commit_started: self.commit_started,
            patch_started: self.patch_started,
            delete_started: self.delete_started,
        }
    }
}

impl TaskProgressReducer {
    /// A display that starts, and its first changes.
    pub fn new(config: TaskProgress) -> (made: (TaskProgressReducer, Vec<ProgressUpdate>))
        ensures
            made.0@ == Shown::nothing(config),
            updates(made.1@) == Shown::opening(config),
    {
        let mut list = show_nothing();
        if let Some((lane, total)) = config.verify {
            if total > 0 {
                list.push(
                    ProgressUpdate::Started { lane, unit: ProgressUnit::Items, total: Some(total) },
                );
            }
        }
        assert(updates(list@) =~= Shown::opening(config));
        let reducer = TaskProgressReducer {
            config,
            verify_completed: 0,
            verified_paths: StringHashSet::new(),
            download_completed: RunningByteProgress::new(),
            download_totals: RunningByteProgress::new(),
            extract_completed: RunningByteProgress::new(),
            extract_totals: RunningByteProgress::new(),
            download_started: false,
            extract_started: false,
            commit_started: false,
            patch_started: false,
            delete_started: false,
        };
        (reducer, list)
    }

    fn show_download(&mut self, lane: ProgressLane, item: &String) -> (list: Vec<ProgressUpdate>)
        ensures
            final(self)@ == (Shown { download_started: true, ..old(self)@ }),
            updates(list@) == byte_updates(
                old(self)@.download_started,
                lane,
                old(self)@.download_completed.total,
                old(self)@.download_totals.total,
                item@,
            ),
    {
        let started = self.download_started;
        self.download_started = true;
        show_bytes(
            started,
            lane,
            self.download_completed.total_bytes(),
            self.download_totals.total_bytes(),
            item,
        )
    }

    fn handle_verified(&mut self, path: &String) -> (list: Vec<ProgressUpdate>)
        ensures
            (final(self)@, updates(list@)) == old(self)@.verify(path@),
    {
        let mut list = show_nothing();
        if let Some((lane, total)) = self.config.verify {
            if self.verified_paths.insert(path.clone()) {
                let raised = self.verify_completed.saturating_add(1);
                self.verify_completed = if raised <= total {
                    raised
                } else {
                    total
                };
                list.push(
                    ProgressUpdate::Advanced {
                        lane,
                        completed: self.verify_completed,
                        total: Some(total),
                        item: Some(path.clone()),
                    },
                );
                assert(updates(list@) =~= old(self)@.verify(path@).1);
            } else {
                assert(self.verified_paths@ =~= old(self).verified_paths@);
            }
        }
        list
    }

    fn handle_progress(
        &mut self,
        phase: ProgressPhase,
        path: &String,
        completed: u64,
        total: u64,
        reset: bool,
    ) -> (list: Vec<ProgressUpdate>)
        ensures
            (final(self)@, updates(list@)) == old(self)@.step(
                WorkerEvent::Progress { phase, path: *path, completed, total, reset },
            ),
    {
        match phase {
            ProgressPhase::Download => {
                if let Some(lane) = self.config.download {
                    if reset {
                        self.download_completed.record(path, completed);
                    } else {
                        self.download_completed.record_max(path, completed);
                        self.download_totals.record(path, total);
                    }
                    self.show_download(lane, path)
                } else {
                    show_nothing()
                }
            },
            ProgressPhase::Extract => {
                if let Some(lane) = self.config.extract {
                    self.extract_completed.record_max(path, completed);
                    self.extract_totals.record(path, total);
                    let started = self.extract_started;
                    self.extract_started = true;
                    show_bytes(
                        started,
                        lane,
                        self.extract_completed.total_bytes(),
                        self.extract_totals.total_bytes(),
                        path,
                    )
                } else {
                    show_nothing()
                }
            },
            ProgressPhase::Commit => {
                if let Some(lane) = self.config.commit {
                    let started = self.commit_started;
                    self.commit_started = true;
                    show_items(started, lane, completed, total, path)
                } else {
                    show_nothing()
                }
            },
            ProgressPhase::Patch => {
                if let Some(lane) = self.config.patch {
                    let started = self.patch_started;
                    self.patch_started = true;
                    show_items(started, lane, completed, total, path)
                } else {
                    show_nothing()
                }
            },
            ProgressPhase::Delete => {
                if let Some(lane) = self.config.delete {
                    let started = self.delete_started;
                    self.delete_started = true;
                    show_items(started, lane, completed, total, path)
                } else {
                    show_nothing()
                }
            },
        }
    }

    /// Takes a report and says what changes on the display.
    pub fn handle(&mut self, event: &WorkerEvent) -> (list: Vec<ProgressUpdate>)
        ensures
            (final(self)@, updates(list@)) == old(self)@.step(*event),
    {
        match event {
            WorkerEvent::Retried { .. } => show_nothing(),
            WorkerEvent::Outcome { outcome } => match outcome {
                TaskOutcome::Verified { path, .. } => self.handle_verified(path),
                TaskOutcome::Downloaded { path, bytes } => {
                    if let Some(lane) = self.config.download {
                        self.download_completed.record_max(path, *bytes);
                        self.download_totals.record_max(path, *bytes);
                        self.show_download(lane, path)
                    } else {
                        show_nothing()
                    }
                },
                _ => show_nothing(),
            },
            WorkerEvent::Progress { phase, path, completed, total, reset } => self.handle_progress(
                *phase,
                path,
                *completed,
                *total,
                *reset,
            ),
        }
    }

    fn end_line(list: &mut Vec<ProgressUpdate>, started: bool, lane: Option<ProgressLane>)
        ensures
            updates(final(list)@) == updates(old(list)@) + Shown::ending(started, lane),
    {
        if started {
            if let Some(inner) = lane {
                list.push(ProgressUpdate::Finished { lane: inner });
            }
        }
        assert(updates(list@) =~= updates(old(list)@) + Shown::ending(started, lane));
    }

    /// Ends the display.
    pub fn finish(&self) -> (list: Vec<ProgressUpdate>)
        ensures
            updates(list@) == self@.closing(),
    {
        let mut list = show_nothing();
        let mut verify: Option<ProgressLane> = None;
        if let Some((lane, total)) = self.config.verify {
            if total > 0 {
                verify = Some(lane);
            }
        }
        Self::end_line(&mut list, true, verify);
        assert(Seq::<Update>::empty() + Shown::ending(true, verify) =~= Shown::ending(
            true,
            verify,
        ));
        Self::end_line(&mut list, self.download_started, self.config.download);
        Self::end_line(&mut list, self.extract_started, self.config.extract);
        Self::end_line(&mut list, self.commit_started, self.config.commit);
        Self::end_line(&mut list, self.patch_started, self.config.patch);
        Self::end_line(&mut list, self.delete_started, self.config.delete);
        list
    }
}

/// Verifying a file twice counts it once.
pub proof fn law_verified_files_count_once(shown: Shown, path: Seq<char>)
    ensures
        shown.verify(path).0.verify(path).0 == shown.verify(path).0,
        shown.verify(path).0.verify(path).1 == Seq::<Update>::empty(),
{
}

/// A line starts once: after a report on it, no later report starts it again.
pub proof fn law_lines_start_once(shown: Shown, event: WorkerEvent)
    ensures
        shown.download_started ==> shown.step(event).0.download_started,
        shown.extract_started ==> shown.step(event).0.extract_started,
        shown.commit_started ==> shown.step(event).0.commit_started,
        shown.patch_started ==> shown.step(event).0.patch_started,
        shown.delete_started ==> shown.step(event).0.delete_started,
{
}

/// The count of verified files never exceeds how many there are.
pub proof fn law_verified_count_is_bounded(shown: Shown, event: WorkerEvent)
    requires
        shown.config.verify matches Some((lane, total)) ==> shown.verify_completed <= total,
    ensures
        shown.config.verify matches Some((lane, total)) ==> shown.step(event).0.verify_completed
            <= total,
        shown.step(event).0.config == shown.config,
{
}

} // verus!
