//! Making sure that a file is in place, and that the volumes of an archive are.

use crate::event::{TaskOutcome, WorkerEvent};
use crate::path::FilePath;
use crate::reuse;
use crate::reuse::PathReuseMethod;
use crate::text;
use crate::verify::IssueKind;
use vstd::prelude::*;

verus! {

/// A file that is to be in place.
pub struct EnsureFile {
    pub dest: FilePath,
    pub logical_path: String,
    pub sources: usize,
    pub downloadable: bool,
    pub prefer_reuse: bool,
    pub retry_count: u32,
    pub max_retries: u32,
}

/// What is done next to have a file in place.
#[derive(Clone, Copy, PartialEq, Eq, Structural, Debug)]
pub enum EnsureAction {
    /// Look at what lies in the place.
    InspectDestination,
    /// Look at a source.
    InspectSource { index: usize },
    /// Reuse a source.
    Reuse { index: usize },
    /// Look at what a reused source left in the place.
    InspectReused { index: usize },
    /// Download the file.
    Download,
    /// Look at what was downloaded.
    InspectDownloaded,
    /// Look at what lies in the place after all has failed.
    InspectFailed,
    /// Try all of it again.
    Again,
    /// It is over.
    Stop,
}

/// What came of it.
#[allow(inconsistent_fields)]
pub enum EnsureEvent {
    /// What is wrong with what was looked at.
    Inspected { issue: Option<IssueKind> },
    /// How a source was reused.
    Reused { result: Result<PathReuseMethod, String> },
    /// The bytes that were downloaded.
    Downloaded { result: Result<u64, String> },
}

/// How far it has come, in the mathematical model.
#[verifier::ext_equal]
pub struct EnsureModel {
    /// What is being done.
    pub action: EnsureAction,
    /// Whether what lay in the place was good.
    pub existing_ok: bool,
    /// Why the last attempt failed.
    pub failure: Option<Seq<char>>,
}

/// The next source, or what follows the last one: what lay in the place, or a
/// download, or the end.
pub open spec fn from_source(file: EnsureFile, existing_ok: bool, index: int) -> EnsureAction {
    if index < file.sources {
        EnsureAction::InspectSource { index: index as usize }
    } else if existing_ok {
        EnsureAction::Stop
    } else if file.downloadable {
        EnsureAction::Download
    } else {
        EnsureAction::InspectFailed
    }
}

/// What follows an event: what is done next, and what is known then.
pub open spec fn ensured(file: EnsureFile, m: EnsureModel, event: EnsureEvent) -> EnsureModel {
    match (m.action, event) {
        (EnsureAction::InspectDestination, EnsureEvent::Inspected { issue }) => {
            let ok = issue is None;
            EnsureModel {
                action: if ok && !file.prefer_reuse {
                    EnsureAction::Stop
                } else {
                    from_source(file, ok, 0)
                },
                existing_ok: ok,
                ..m
            }
        },
        (EnsureAction::InspectSource { index }, EnsureEvent::Inspected { issue }) => EnsureModel {
            action: if issue is None {
                EnsureAction::Reuse { index }
            } else {
                from_source(file, m.existing_ok, index + 1)
            },
            ..m
        },
        (EnsureAction::Reuse { index }, EnsureEvent::Reused { result }) => match result {
            Ok(_) => EnsureModel { action: EnsureAction::InspectReused { index }, ..m },
            Err(error) => EnsureModel {
                action: from_source(file, m.existing_ok, index + 1),
                failure: Some(error@),
                ..m
            },
        },
        (EnsureAction::InspectReused { index }, EnsureEvent::Inspected { issue }) => EnsureModel {
            action: if issue is None {
                EnsureAction::Stop
            } else {
                from_source(file, m.existing_ok, index + 1)
            },
            ..m
        },
        (EnsureAction::Download, EnsureEvent::Downloaded { result }) => match result {
            Ok(_) => EnsureModel { action: EnsureAction::InspectDownloaded, ..m },
            Err(error) => if file.retry_count < file.max_retries {
                EnsureModel { action: EnsureAction::Again, ..m }
            } else {
                EnsureModel {
                    action: EnsureAction::InspectFailed,
                    failure: Some(error@),
                    ..m
                }
            },
        },
        (EnsureAction::InspectDownloaded, EnsureEvent::Inspected { .. }) => EnsureModel {
            action: EnsureAction::Stop,
            ..m
        },
        (EnsureAction::InspectFailed, EnsureEvent::Inspected { .. }) => EnsureModel {
            action: EnsureAction::Stop,
            ..m
        },
        _ => m,
    }
}

/// Whether a report says what is wrong with a file, if anything is.
pub open spec fn reports_state(event: WorkerEvent, path: Seq<char>, found: Option<IssueKind>) -> bool {
    event matches WorkerEvent::Outcome { outcome: TaskOutcome::Verified { path: p, ok, issue } }
        && p@ == path && ok == (found is None) && issue == found
}

/// Whether an event makes it known that a file is in place: what lay there is
/// good and is kept.
pub open spec fn keeps_existing(file: EnsureFile, m: EnsureModel, event: EnsureEvent) -> bool {
    let after = ensured(file, m, event);
    after.action is Stop && after.existing_ok && !(m.action is InspectReused && event is Inspected
        && event->issue is None)
}

/// What is reported of an event.
pub open spec fn reports(
    file: EnsureFile,
    m: EnsureModel,
    event: EnsureEvent,
    events: Seq<WorkerEvent>,
) -> bool {
    let path = file.logical_path@;
    match (m.action, event) {
        (EnsureAction::Reuse { .. }, EnsureEvent::Reused { result: Ok(method) }) => events.len()
            == 1 && reuse::is_reused(events[0], method, file.dest@),
        (EnsureAction::InspectReused { .. }, EnsureEvent::Inspected { issue: None }) => events.len()
            == 1 && reports_state(events[0], path, None),
        (EnsureAction::Download, EnsureEvent::Downloaded { result: Ok(bytes) }) => events.len()
            == 1 && crate::archive::fetch::is_download(events[0], path, bytes),
        (EnsureAction::Download, EnsureEvent::Downloaded { result: Err(error) }) =>
            if file.retry_count < file.max_retries {
                events.len() == 1 && crate::archive::fetch::is_retry(
                    events[0],
                    path,
                    crate::archive::fetch::attempt_text(
                        "ensure-file download attempt "@,
                        (file.retry_count + 1) as nat,
                        error@,
                    ),
                )
            } else {
                events.len() == 0
            },
        (EnsureAction::InspectDownloaded, EnsureEvent::Inspected { issue }) => events.len() == 1
            && reports_state(events[0], path, issue),
        (EnsureAction::InspectFailed, EnsureEvent::Inspected { issue }) => {
            &&& events.len() == 2
            &&& events[0] matches WorkerEvent::Outcome {
                outcome: TaskOutcome::Verified { path: p, ok, issue: i },
            } && p@ == path && !ok && i == issue
            &&& events[1] matches WorkerEvent::Outcome {
                outcome: TaskOutcome::Failed { path: p, reason },
            } && p@ == path && reason@ == (match m.failure {
                Some(failure) => failure,
                None => "ensure-file failed"@,
            })
        },
        _ => if keeps_existing(file, m, event) && !(m.action is Stop) {
            events.len() == 1 && reports_state(events[0], path, None)
        } else {
            events.len() == 0
        },
    }
}

/// How far having a file in place has come.
pub struct EnsureRun {
    action: EnsureAction,
    existing_ok: bool,
    failure: Option<String>,
}

impl View for EnsureRun {
    type V = EnsureModel;

    closed spec fn view(&self) -> EnsureModel {
        EnsureModel {
            action: self.action,
            existing_ok: self.existing_ok,
            failure: text::optional(self.failure),
        }
    }
}

fn after_source(file: &EnsureFile, existing_ok: bool, index: usize) -> (action: EnsureAction)
    requires
        index <= file.sources,
    ensures
        action == from_source(*file, existing_ok, index as int),
{
    if index < file.sources {
        EnsureAction::InspectSource { index }
    } else if existing_ok {
        EnsureAction::Stop
    } else if file.downloadable {
        EnsureAction::Download
    } else {
        EnsureAction::InspectFailed
    }
}

impl EnsureRun {
    /// The sources that are spoken of are there.
    pub open spec fn wf(m: EnsureModel, file: EnsureFile) -> bool {
        match m.action {
            EnsureAction::InspectSource { index } => index < file.sources,
            EnsureAction::Reuse { index } => index < file.sources,
            EnsureAction::InspectReused { index } => index < file.sources,
            _ => true,
        }
    }

    pub fn new() -> (run: EnsureRun)
        ensures
            run@ == (EnsureModel {
                action: EnsureAction::InspectDestination,
                existing_ok: false,
                failure: None,
            }),
    {
        EnsureRun {
            action: EnsureAction::InspectDestination,
            existing_ok: false,
            failure: None,
        }
    }

    /// What is to be done.
    pub fn action(&self) -> (action: EnsureAction)
        ensures
            action == self@.action,
    {
        self.action
    }

    fn verified(&self, file: &EnsureFile, issue: Option<IssueKind>) -> (event: WorkerEvent)
        ensures
            reports_state(event, file.logical_path@, issue),
    {
        let ok = issue.is_none();
        WorkerEvent::verified(file.logical_path.clone(), ok, issue)
    }

    /// Goes on after an event. Says what is reported.
    pub fn step(&mut self, file: &EnsureFile, event: EnsureEvent) -> (events: Vec<WorkerEvent>)
        requires
            Self::wf(old(self)@, *file),
        ensures
            Self::wf(final(self)@, *file),
            final(self)@ == ensured(*file, old(self)@, event),
            reports(*file, old(self)@, event, events@),
    {
        let mut events: Vec<WorkerEvent> = Vec::new();
        match self.action {
            EnsureAction::InspectDestination => {
                if let EnsureEvent::Inspected { issue } = event {
                    let ok = issue.is_none();
                    self.existing_ok = ok;
                    self.action = if ok && !file.prefer_reuse {
                        EnsureAction::Stop
                    } else {
                        after_source(file, ok, 0)
                    };
                    if self.action == EnsureAction::Stop {
                        events.push(self.verified(file, None));
                    }
                }
            },
            EnsureAction::InspectSource { index } => {
                if let EnsureEvent::Inspected { issue } = event {
                    if issue.is_none() {
                        self.action = EnsureAction::Reuse { index };
                    } else {
                        self.action = after_source(file, self.existing_ok, index + 1);
                        if self.action == EnsureAction::Stop {
                            events.push(self.verified(file, None));
                        }
                    }
                }
            },
            EnsureAction::Reuse { index } => {
                if let EnsureEvent::Reused { result } = event {
                    match result {
                        Ok(method) => {
                            match method {
                                PathReuseMethod::Hardlink => {
                                    events.push(WorkerEvent::hardlinked(&file.dest));
                                },
                                PathReuseMethod::Copy => {
                                    events.push(WorkerEvent::copied(&file.dest));
                                },
                            }
                            self.action = EnsureAction::InspectReused { index };
                        },
                        Err(error) => {
                            self.failure = Some(error);
                            self.action = after_source(file, self.existing_ok, index + 1);
                            if self.action == EnsureAction::Stop {
                                events.push(self.verified(file, None));
                            }
                        },
                    }
                }
            },
            EnsureAction::InspectReused { index } => {
                if let EnsureEvent::Inspected { issue } = event {
                    if issue.is_none() {
                        self.action = EnsureAction::Stop;
                        events.push(self.verified(file, None));
                    } else {
                        self.action = after_source(file, self.existing_ok, index + 1);
                        if self.action == EnsureAction::Stop {
                            events.push(self.verified(file, None));
                        }
                    }
                }
            },
            EnsureAction::Download => {
                if let EnsureEvent::Downloaded { result } = event {
                    match result {
                        Ok(bytes) => {
                            events.push(
                                WorkerEvent::downloaded(file.logical_path.clone(), bytes),
                            );
                            self.action = EnsureAction::InspectDownloaded;
                        },
                        Err(error) => {
                            if file.retry_count < file.max_retries {
                                let reason = crate::archive::fetch::attempt_reason(
                                    "ensure-file download attempt ",
                                    file.retry_count as u64 + 1,
                                    error.as_str(),
                                );
                                events.push(
                                    WorkerEvent::Retried {
                                        path: file.logical_path.clone(),
                                        reason,
                                    },
                                );
                                self.action = EnsureAction::Again;
                            } else {
                                self.failure = Some(error);
                                self.action = EnsureAction::InspectFailed;
                            }
                        },
                    }
                }
            },
            EnsureAction::InspectDownloaded => {
                if let EnsureEvent::Inspected { issue } = event {
                    events.push(self.verified(file, issue));
                    self.action = EnsureAction::Stop;
                }
            },
            EnsureAction::InspectFailed => {
                if let EnsureEvent::Inspected { issue } = event {
                    events.push(
                        WorkerEvent::verified(file.logical_path.clone(), false, issue),
                    );
                    let reason = match &self.failure {
                        Some(failure) => failure.clone(),
                        None => "ensure-file failed".to_owned(),
                    };
                    events.push(WorkerEvent::failed(file.logical_path.clone(), reason));
                    self.action = EnsureAction::Stop;
                }
            },
            EnsureAction::Again => {},
            EnsureAction::Stop => {},
        }
        events
    }
}

/// What lies in the place is never lost to a failure: where it was good, nothing
/// is downloaded over it.
pub proof fn law_good_files_are_not_downloaded(file: EnsureFile, m: EnsureModel, event: EnsureEvent)
    requires
        m.existing_ok,
        !(m.action is Download),
        !(m.action is InspectDestination),
    ensures
        !(ensured(file, m, event).action is Download),
        ensured(file, m, event).existing_ok,
{
}

/// What is done when the volumes of an archive are made sure of.
#[derive(Clone, Copy, PartialEq, Eq, Structural, Debug)]
pub enum VolumeAction {
    /// Look at a volume, before this attempt at it.
    Inspect { part: usize, attempt: u32 },
    /// Download a volume.
    Download { part: usize, attempt: u32 },
    /// Look at what was downloaded.
    InspectDownloaded { part: usize, attempt: u32 },
    /// Look at a volume that could not be downloaded.
    InspectFailed { part: usize },
    /// Every volume is there: extract the archive.
    Extract,
    /// A volume cannot be had.
    Stop,
}

/// What came of it.
pub enum VolumeEvent {
    /// What is wrong with a volume.
    Inspected { issue: Option<IssueKind> },
    /// The bytes that were downloaded.
    Downloaded { result: Result<u64, String> },
}

/// What comes after a volume that is there.
pub open spec fn next_volume(parts: int, part: int) -> VolumeAction {
    if part + 1 < parts {
        VolumeAction::Inspect { part: (part + 1) as usize, attempt: 0 }
    } else {
        VolumeAction::Extract
    }
}

/// What follows an event. Each volume is looked at first, and downloaded where it
/// is not what it should be, until no attempt is left.
pub open spec fn volume_step(
    parts: int,
    max_retries: u32,
    action: VolumeAction,
    event: VolumeEvent,
) -> VolumeAction {
    match (action, event) {
        (VolumeAction::Inspect { part, attempt }, VolumeEvent::Inspected { issue }) =>
            if issue is None {
                next_volume(parts, part as int)
            } else {
                VolumeAction::Download { part, attempt }
            },
        (VolumeAction::Download { part, attempt }, VolumeEvent::Downloaded { result }) =>
            if result is Ok {
                VolumeAction::InspectDownloaded { part, attempt }
            } else if attempt < max_retries {
                VolumeAction::Inspect { part, attempt: (attempt + 1) as u32 }
            } else {
                VolumeAction::InspectFailed { part }
            },
        (VolumeAction::InspectDownloaded { part, attempt }, VolumeEvent::Inspected { issue }) =>
            if issue is None {
                next_volume(parts, part as int)
            } else if attempt < max_retries {
                VolumeAction::Inspect { part, attempt: (attempt + 1) as u32 }
            } else {
                VolumeAction::Stop
            },
        (VolumeAction::InspectFailed { .. }, VolumeEvent::Inspected { .. }) => VolumeAction::Stop,
        _ => action,
    }
}

/// What is reported of an event on a volume.
pub open spec fn volume_reports(
    path: Seq<char>,
    max_retries: u32,
    action: VolumeAction,
    event: VolumeEvent,
    failure: Seq<char>,
    events: Seq<WorkerEvent>,
) -> bool {
    match (action, event) {
        (VolumeAction::Inspect { .. }, VolumeEvent::Inspected { issue }) => if issue is None {
            events.len() == 1 && reports_state(events[0], path, None)
        } else {
            events.len() == 0
        },
        (VolumeAction::Download { attempt, .. }, VolumeEvent::Downloaded { result }) =>
            match result {
                Ok(bytes) => events.len() == 1 && crate::archive::fetch::is_download(
                    events[0],
                    path,
                    bytes,
                ),
                Err(error) => if attempt < max_retries {
                    events.len() == 1 && crate::archive::fetch::is_retry(
                        events[0],
                        path,
                        crate::archive::fetch::attempt_text(
                            "install-archive download attempt "@,
                            (attempt + 1) as nat,
                            error@,
                        ),
                    )
                } else {
                    events.len() == 0
                },
            },
        (VolumeAction::InspectDownloaded { attempt, .. }, VolumeEvent::Inspected { issue }) =>
            if issue is None {
                events.len() == 1 && reports_state(events[0], path, None)
            } else if attempt < max_retries {
                events.len() == 1 && crate::archive::fetch::is_retry(
                    events[0],
                    path,
                    "install-archive verify attempt "@ + text::decimal((attempt + 1) as nat)
                        + " failed"@,
                )
            } else {
                events.len() == 2 && reports_state(events[0], path, issue) && is_failure(
                    events[1],
                    path,
                    "install-archive verify failed after retries"@,
                )
            },
        (VolumeAction::InspectFailed { .. }, VolumeEvent::Inspected { issue }) => {
            &&& events.len() == 2
            &&& events[0] matches WorkerEvent::Outcome {
                outcome: TaskOutcome::Verified { path: p, ok, issue: i },
            } && p@ == path && !ok && i == issue
            &&& is_failure(
                events[1],
                path,
                "install-archive download failed after retries: "@ + failure,
            )
        },
        _ => events.len() == 0,
    }
}

/// Whether a report tells of a failure.
pub open spec fn is_failure(event: WorkerEvent, path: Seq<char>, reason: Seq<char>) -> bool {
    event matches WorkerEvent::Outcome { outcome: TaskOutcome::Failed { path: p, reason: r } }
        && p@ == path && r@ == reason
}

fn after_volume(parts: usize, part: usize) -> (action: VolumeAction)
    requires
        part < parts,
    ensures
        action == next_volume(parts as int, part as int),
{
    if part + 1 < parts {
        VolumeAction::Inspect { part: part + 1, attempt: 0 }
    } else {
        VolumeAction::Extract
    }
}

/// The first thing to do: look at the first volume, or, where there is none,
/// extract the archive.
pub fn first_volume_action(parts: usize) -> (action: VolumeAction)
    ensures
        action == next_volume(parts as int, -1),
{
    if parts > 0 {
        VolumeAction::Inspect { part: 0, attempt: 0 }
    } else {
        VolumeAction::Extract
    }
}

/// The volume that an action is about.
pub open spec fn part_of(action: VolumeAction) -> Option<usize> {
    match action {
        VolumeAction::Inspect { part, .. } => Some(part),
        VolumeAction::Download { part, .. } => Some(part),
        VolumeAction::InspectDownloaded { part, .. } => Some(part),
        VolumeAction::InspectFailed { part } => Some(part),
        _ => None,
    }
}

/// Goes on after an event on the volume with this path. The failure is that of
/// the last download. Says what is reported.
pub fn install_archive_step(
    parts: usize,
    path: &String,
    max_retries: u32,
    action: VolumeAction,
    event: &VolumeEvent,
    failure: &str,
) -> (step: (VolumeAction, Vec<WorkerEvent>))
    requires
        part_of(action) matches Some(part) ==> part < parts,
    ensures
        step.0 == volume_step(parts as int, max_retries, action, *event),
        volume_reports(path@, max_retries, action, *event, failure@, step.1@),
        part_of(step.0) matches Some(part) ==> part < parts,
{
    let mut events: Vec<WorkerEvent> = Vec::new();
    match action {
        VolumeAction::Inspect { part, attempt } => {
            if let VolumeEvent::Inspected { issue } = event {
                if issue.is_none() {
                    events.push(WorkerEvent::verified(path.clone(), true, None));
                    return (after_volume(parts, part), events);
                }
                return (VolumeAction::Download { part, attempt }, events);
            }
        },
        VolumeAction::Download { part, attempt } => {
            if let VolumeEvent::Downloaded { result } = event {
                match result {
                    Ok(bytes) => {
                        events.push(WorkerEvent::downloaded(path.clone(), *bytes));
                        return (VolumeAction::InspectDownloaded { part, attempt }, events);
                    },
                    Err(error) => {
                        if attempt < max_retries {
                            let reason = crate::archive::fetch::attempt_reason(
                                "install-archive download attempt ",
                                attempt as u64 + 1,
                                error.as_str(),
                            );
                            events.push(WorkerEvent::Retried { path: path.clone(), reason });
                            return (
                                VolumeAction::Inspect { part, attempt: attempt + 1 },
                                events,
                            );
                        }
                        return (VolumeAction::InspectFailed { part }, events);
                    },
                }
            }
        },
        VolumeAction::InspectDownloaded { part, attempt } => {
            if let VolumeEvent::Inspected { issue } = event {
                if issue.is_none() {
                    events.push(WorkerEvent::verified(path.clone(), true, None));
                    return (after_volume(parts, part), events);
                }
                if attempt < max_retries {
                    let mut reason = "install-archive verify attempt ".to_owned();
                    text::push_decimal(&mut reason, attempt as u64 + 1);
                    text::push_text(&mut reason, " failed");
                    events.push(WorkerEvent::Retried { path: path.clone(), reason });
                    return (VolumeAction::Inspect { part, attempt: attempt + 1 }, events);
                }
                events.push(WorkerEvent::verified(path.clone(), false, *issue));
                events.push(
                    WorkerEvent::failed(
                        path.clone(),
                        "install-archive verify failed after retries".to_owned(),
                    ),
                );
                return (VolumeAction::Stop, events);
            }
        },
        VolumeAction::InspectFailed { .. } => {
            if let VolumeEvent::Inspected { issue } = event {
                events.push(WorkerEvent::verified(path.clone(), false, *issue));
                let mut reason = "install-archive download failed after retries: ".to_owned();
                text::push_text(&mut reason, failure);
                events.push(WorkerEvent::failed(path.clone(), reason));
                return (VolumeAction::Stop, events);
            }
        },
        VolumeAction::Extract => {},
        VolumeAction::Stop => {},
    }
    (action, events)
}

/// How much is still to be done: the volumes, then the attempts, then the steps
/// of an attempt.
pub open spec fn work_left(parts: int, max_retries: u32, action: VolumeAction) -> (int, int, int) {
    match action {
        VolumeAction::Inspect { part, attempt } => (parts - part, max_retries - attempt, 3),
        VolumeAction::Download { part, attempt } => (parts - part, max_retries - attempt, 2),
        VolumeAction::InspectDownloaded { part, attempt } => (
            parts - part,
            max_retries - attempt,
            1,
        ),
        VolumeAction::InspectFailed { part } => (parts - part, 0, 1),
        _ => (0, 0, 0),
    }
}

/// Whether no attempt is beyond the last.
pub open spec fn within(action: VolumeAction, max_retries: u32) -> bool {
    match action {
        VolumeAction::Inspect { attempt, .. } => attempt <= max_retries,
        VolumeAction::Download { attempt, .. } => attempt <= max_retries,
        VolumeAction::InspectDownloaded { attempt, .. } => attempt <= max_retries,
        _ => true,
    }
}

/// Making sure of the volumes ends: every event that belongs to what is done
/// brings the end nearer.
pub proof fn law_volumes_are_done_in_the_end(
    parts: usize,
    max_retries: u32,
    action: VolumeAction,
    event: VolumeEvent,
)
    requires
        part_of(action) matches Some(part) && part < parts,
        within(action, max_retries),
        volume_step(parts as int, max_retries, action, event) != action,
    ensures
        within(volume_step(parts as int, max_retries, action, event), max_retries),
        ({
            let before = work_left(parts as int, max_retries, action);
            let after = work_left(
                parts as int,
                max_retries,
                volume_step(parts as int, max_retries, action, event),
            );
            after.0 < before.0 || (after.0 == before.0 && (after.1 < before.1 || (after.1
                == before.1 && after.2 < before.2)))
        }),
{
}

} // verus!
