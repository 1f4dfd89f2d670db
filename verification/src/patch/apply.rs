//! Applying one entry of a patch plan, step by step.

use crate::error::Message;
use crate::patch::plan::{PatchPlan, PlannedPatchEntry, PlannedPatchSource};
use crate::patch::steps;
use crate::path::{FilePath, PathModel};
use crate::text;
use crate::verify::IssueKind;
use vstd::prelude::*;

verus! {

/// What to do next for an entry.
pub enum EntryAction {
    /// The file is as it should be.
    Finished,
    /// The entry cannot be applied.
    Fail { message: Message },
    /// The payload must be looked at.
    InspectLocal { source: FilePath },
    /// The file that the entry is patched from, which has this digest and this
    /// size, and the payload must be looked at.
    InspectBase { base: FilePath, base_md5: String, base_size: u64, payload: FilePath },
    /// The payload replaces the file.
    MoveLocal { source: FilePath, target: FilePath },
    /// The difference is applied; the payload goes afterwards.
    ApplyDifference { base: FilePath, payload: FilePath, target: FilePath },
}

/// The payload of an entry below the stage.
pub open spec fn payload_path(plan: PatchPlan, payload: PathModel) -> PathModel {
    plan.stage_root@.join(payload)
}

/// Whether an action is the first step for an entry: nothing where its file is as
/// it should be, else a look at what it is made from.
pub open spec fn begins(
    plan: PatchPlan,
    entry: PlannedPatchEntry,
    destination_is_right: bool,
    action: EntryAction,
) -> bool {
    match action {
        EntryAction::Finished => destination_is_right,
        EntryAction::Fail { message } => !destination_is_right && entry.source is AlreadyPresent
            && message.context@ == "VFS error: "@ && message.detail@ == "Patch output "@
            + entry.destination@.text() + " no longer matches its completed state"@,
        EntryAction::InspectLocal { source } => !destination_is_right && match entry.source {
            PlannedPatchSource::Local { payload } => source@ == payload_path(plan, payload@),
            _ => false,
        },
        EntryAction::InspectBase { base, base_md5, base_size, payload } => !destination_is_right
            && match entry.source {
            PlannedPatchSource::Hdiff { base: from, payload: with, base_md5: md5, base_size: size } => {
                &&& base@ == from@
                &&& base_md5@ == md5@
                &&& base_size == size
                &&& payload@ == payload_path(plan, with@)
            },
            _ => false,
        },
        _ => false,
    }
}

/// The first step for an entry, given whether its file is as it should be.
pub fn begin_entry(plan: &PatchPlan, entry: &PlannedPatchEntry, destination_is_right: bool) -> (
    action: EntryAction)
    ensures
        begins(*plan, *entry, destination_is_right, action),
{
    if destination_is_right {
        return EntryAction::Finished;
    }
    match &entry.source {
        PlannedPatchSource::AlreadyPresent => {
            let mut detail = "Patch output ".to_owned();
            text::push_text(&mut detail, entry.destination.text().as_str());
            text::push_text(&mut detail, " no longer matches its completed state");
            EntryAction::Fail { message: steps::vfs_error(detail) }
        },
        PlannedPatchSource::Local { payload } => EntryAction::InspectLocal {
            source: plan.stage_root.join(payload),
        },
        PlannedPatchSource::Hdiff { base, payload, base_md5, base_size } => EntryAction::InspectBase {
            base: base.copied(),
            base_md5: base_md5.clone(),
            base_size: *base_size,
            payload: plan.stage_root.join(payload),
        },
    }
}

/// The complaint about a payload that is not there.
pub open spec fn missing_local_text(source: PathModel, name: Seq<char>) -> Seq<char> {
    "Missing local patch payload "@ + source.text() + " for "@ + name
}

/// The complaint about a payload that is not what it should be.
pub open spec fn bad_local_text(
    source: PathModel,
    name: Seq<char>,
    issue: IssueKind,
) -> Seq<char> {
    "Local patch payload "@ + source.text() + " failed verification before replacing "@ + name
        + ": "@ + issue.text()
}

/// Whether an action is the step after a payload was looked at: it replaces the
/// file only where it is what the entry promises.
pub open spec fn follows_local(
    entry: PlannedPatchEntry,
    source: PathModel,
    is_file: bool,
    issue: Option<IssueKind>,
    action: EntryAction,
) -> bool {
    match action {
        EntryAction::MoveLocal { source: from, target } => is_file && issue is None && from@
            == source && target@ == entry.destination@,
        EntryAction::Fail { message } => (!is_file || issue is Some) && message.context@
            == "VFS error: "@ && message.detail@ == if !is_file {
            missing_local_text(source, entry.name@)
        } else {
            bad_local_text(source, entry.name@, issue->0)
        },
        _ => false,
    }
}

/// The step after a payload was looked at. It replaces the file only where it
/// is what the entry promises.
pub fn judge_local(
    entry: &PlannedPatchEntry,
    source: FilePath,
    is_file: bool,
    issue: Option<IssueKind>,
) -> (action: EntryAction)
    ensures
        follows_local(*entry, source@, is_file, issue, action),
{
    if !is_file {
        let mut detail = "Missing local patch payload ".to_owned();
        text::push_text(&mut detail, source.text().as_str());
        text::push_text(&mut detail, " for ");
        text::push_text(&mut detail, entry.name.as_str());
        return EntryAction::Fail { message: steps::vfs_error(detail) };
    }
    if let Some(kind) = issue {
        let mut detail = "Local patch payload ".to_owned();
        text::push_text(&mut detail, source.text().as_str());
        text::push_text(&mut detail, " failed verification before replacing ");
        text::push_text(&mut detail, entry.name.as_str());
        text::push_text(&mut detail, ": ");
        text::push_text(&mut detail, kind.name());
        return EntryAction::Fail { message: steps::vfs_error(detail) };
    }
    EntryAction::MoveLocal { source, target: entry.destination.copied() }
}

/// The complaint about a base that is not what it should be.
pub open spec fn bad_base_text(base: PathModel, name: Seq<char>, issue: IssueKind) -> Seq<char> {
    "Patch base "@ + base.text() + " failed verification before applying "@ + name + ": "@
        + issue.text()
}

/// The complaint about a difference that is not there.
pub open spec fn missing_difference_text(payload: PathModel, name: Seq<char>) -> Seq<char> {
    "Missing HDiff payload "@ + payload.text() + " for "@ + name
}

/// Whether an action is the step after the file that an entry is patched from was
/// looked at.
pub open spec fn follows_base(
    entry: PlannedPatchEntry,
    base: PathModel,
    payload: PathModel,
    base_issue: Option<IssueKind>,
    payload_is_file: bool,
    action: EntryAction,
) -> bool {
    match action {
        EntryAction::ApplyDifference { base: from, payload: with, target } => base_issue is None
            && payload_is_file && from@ == base && with@ == payload && target@
            == entry.destination@,
        EntryAction::Fail { message } => (base_issue is Some || !payload_is_file)
            && message.context@ == "VFS error: "@ && message.detail@ == match base_issue {
            Some(issue) => bad_base_text(base, entry.name@, issue),
            None => missing_difference_text(payload, entry.name@),
        },
        _ => false,
    }
}

/// The step after the file that an entry is patched from was looked at.
pub fn judge_base(
    entry: &PlannedPatchEntry,
    base: FilePath,
    payload: FilePath,
    base_issue: Option<IssueKind>,
    payload_is_file: bool,
) -> (action: EntryAction)
    ensures
        follows_base(*entry, base@, payload@, base_issue, payload_is_file, action),
{
    if let Some(kind) = base_issue {
        let mut detail = "Patch base ".to_owned();
        text::push_text(&mut detail, base.text().as_str());
        text::push_text(&mut detail, " failed verification before applying ");
        text::push_text(&mut detail, entry.name.as_str());
        text::push_text(&mut detail, ": ");
        text::push_text(&mut detail, kind.name());
        return EntryAction::Fail { message: steps::vfs_error(detail) };
    }
    if !payload_is_file {
        let mut detail = "Missing HDiff payload ".to_owned();
        text::push_text(&mut detail, payload.text().as_str());
        text::push_text(&mut detail, " for ");
        text::push_text(&mut detail, entry.name.as_str());
        return EntryAction::Fail { message: steps::vfs_error(detail) };
    }
    EntryAction::ApplyDifference { base, payload, target: entry.destination.copied() }
}

/// The name under which the base of an entry is reported: its path in the
/// install where it lies there, else its path on disk.
pub open spec fn base_name(plan: PatchPlan, base: PathModel) -> Seq<char> {
    text::replaced(
        match plan.logical(base) {
            Some(relative) => relative.text(),
            None => base.text(),
        },
        '\\',
        '/',
    )
}

pub fn base_logical_name(plan: &PatchPlan, base: &FilePath) -> (name: String)
    ensures
        name@ == base_name(*plan, base@),
{
    let raw = match plan.relative_install_path(base) {
        Some(relative) => relative.text(),
        None => base.text(),
    };
    text::replace_char(raw.as_str(), '\\', '/')
}

/// The error of an entry, with the name of the entry in front.
pub fn entry_failure(name: &str, error: &Message) -> (message: Message)
    ensures
        message.context@ == ""@,
        message.detail@ == "Failed to apply patch entry "@ + name@ + ": "@ + (
        error.context@ + error.detail@),
{
    let mut detail = "Failed to apply patch entry ".to_owned();
    text::push_text(&mut detail, name);
    text::push_text(&mut detail, ": ");
    text::push_text(&mut detail, error.message().as_str());
    Message::new("", detail)
}

/// The complaint about an entry that the plan does not hold.
pub open spec fn out_of_range_text(index: usize) -> Seq<char> {
    "patch entry index "@ + text::decimal(index as nat) + " is out of range"@
}

/// An entry of a plan by its index.
pub fn plan_entry(plan: &PatchPlan, index: usize) -> (result: Result<&PlannedPatchEntry, Message>)
    ensures
        match result {
            Ok(entry) => index < plan.entries@.len() && *entry == plan.entries@[index as int],
            Err(message) => index >= plan.entries@.len() && message.context@
                == "Task pool error: "@ && message.detail@ == out_of_range_text(index),
        },
{
    if index < plan.entries.len() {
        return Ok(&plan.entries[index]);
    }
    let mut detail = "patch entry index ".to_owned();
    text::push_size(&mut detail, index);
    text::push_text(&mut detail, " is out of range");
    Err(Message::new("Task pool error: ", detail))
}

} // verus!
