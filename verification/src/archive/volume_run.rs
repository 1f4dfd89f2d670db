//! Bringing a volume of an archive to its place as a whole.

use crate::archive::fetch;
use crate::download::DownloadPreparation;
use crate::event::{TaskOutcome, WorkerEvent};
use crate::task::{ArchivePart, DownloadResumeState};
use crate::text;
use crate::verify::IssueKind;
use vstd::prelude::*;

verus! {

/// What follows an attempt to bring a volume to its place.
pub enum PartStep {
    /// It is in place.
    Done,
    /// Go on where the partial file ends.
    Transfer { resume: DownloadResumeState },
    /// Try it again from the start. So many attempts have failed.
    Again { retry_count: u32 },
    /// It cannot be had.
    Fail { reason: String },
}

/// What an attempt ends in.
pub struct PartEnd {
    pub step: PartStep,
    pub events: Vec<WorkerEvent>,
}

/// Whether a report says whether a volume is good.
pub open spec fn reports(event: WorkerEvent, path: Seq<char>, good: bool, found: Option<IssueKind>) -> bool {
    event matches WorkerEvent::Outcome { outcome: TaskOutcome::Verified { path: p, ok, issue } }
        && p@ == path && ok == good && issue == found
}

/// Whether an attempt ends as a volume that was downloaded.
pub open spec fn is_downloaded(end: PartEnd, path: Seq<char>, bytes: u64) -> bool {
    &&& end.step is Done
    &&& end.events@.len() == 2
    &&& fetch::is_download(end.events@[0], path, bytes)
    &&& reports(end.events@[1], path, true, None)
}

/// Whether a failed attempt ends as it should: it is followed by another one as
/// long as attempts are left; after the last one what is wrong with the volume
/// is reported.
pub open spec fn tries_again_or_fails(
    end: PartEnd,
    path: Seq<char>,
    action: Seq<char>,
    retry_count: u32,
    max_retries: u32,
    error: Seq<char>,
    issue: Option<IssueKind>,
) -> bool {
    &&& end.events@.len() == 1
    &&& if retry_count < max_retries {
        &&& end.step == (PartStep::Again { retry_count: (retry_count + 1) as u32 })
        &&& fetch::is_retry(
            end.events@[0],
            path,
            fetch::attempt_text(
                "install-archive "@ + action + " attempt "@,
                (retry_count + 1) as nat,
                error,
            ),
        )
    } else {
        &&& end.step matches PartStep::Fail { reason } && reason@ == "install-archive "@ + action
            + " failed after retries: "@ + error
        &&& reports(end.events@[0], path, false, issue)
    }
}

fn again_or_fail(
    part: &ArchivePart,
    action: &str,
    retry_count: u32,
    max_retries: u32,
    error: &str,
    issue: Option<IssueKind>,
) -> (end: PartEnd)
    ensures
        tries_again_or_fails(
            end,
            part.logical_path@,
            action@,
            retry_count,
            max_retries,
            error@,
            issue,
        ),
{
    let mut events: Vec<WorkerEvent> = Vec::new();
    let mut lead = "install-archive ".to_owned();
    text::push_text(&mut lead, action);
    if retry_count < max_retries {
        text::push_text(&mut lead, " attempt ");
        let reason = fetch::attempt_reason(lead.as_str(), (retry_count + 1) as u64, error);
        events.push(WorkerEvent::Retried { path: part.logical_path.clone(), reason });
        return PartEnd { step: PartStep::Again { retry_count: retry_count + 1 }, events };
    }
    text::push_text(&mut lead, " failed after retries: ");
    text::push_text(&mut lead, error);
    events.push(WorkerEvent::verified(part.logical_path.clone(), false, issue));
    PartEnd { step: PartStep::Fail { reason: lead }, events }
}

fn downloaded(part: &ArchivePart, bytes: u64) -> (end: PartEnd)
    ensures
        is_downloaded(end, part.logical_path@, bytes),
{
    let mut events: Vec<WorkerEvent> = Vec::new();
    events.push(WorkerEvent::downloaded(part.logical_path.clone(), bytes));
    events.push(WorkerEvent::verified(part.logical_path.clone(), true, None));
    PartEnd { step: PartStep::Done, events }
}

/// Ends the inspection of a volume, and of what is there of it where it is not
/// good. What is still wrong with it afterwards is reported where there are no
/// attempts left.
pub fn run_install_archive_part(
    part: &ArchivePart,
    retry_count: u32,
    max_retries: u32,
    found: Option<IssueKind>,
    prepared: Result<DownloadPreparation, String>,
    issue: Option<IssueKind>,
) -> (end: PartEnd)
    ensures
        if found is None {
            end.step is Done && end.events@.len() == 1 && reports(
                end.events@[0],
                part.logical_path@,
                true,
                None,
            )
        } else {
            match prepared {
                Ok(DownloadPreparation::Done { bytes }) => is_downloaded(
                    end,
                    part.logical_path@,
                    bytes,
                ),
                Ok(DownloadPreparation::Resume { resume, .. }) => end.step == (PartStep::Transfer {
                    resume,
                }) && end.events@.len() == 0,
                Err(error) => tries_again_or_fails(
                    end,
                    part.logical_path@,
                    "preparation"@,
                    retry_count,
                    max_retries,
                    error@,
                    issue,
                ),
            }
        },
{
    if found.is_none() {
        let mut events: Vec<WorkerEvent> = Vec::new();
        events.push(WorkerEvent::verified(part.logical_path.clone(), true, None));
        return PartEnd { step: PartStep::Done, events };
    }
    match prepared {
        Ok(preparation) => match preparation {
            DownloadPreparation::Done { bytes } => downloaded(part, bytes),
            DownloadPreparation::Resume { resume, .. } => PartEnd {
                step: PartStep::Transfer { resume },
                events: Vec::new(),
            },
        },
        Err(error) => again_or_fail(
            part,
            "preparation",
            retry_count,
            max_retries,
            error.as_str(),
            issue,
        ),
    }
}

/// Ends the transfer of a volume.
pub fn run_transfer_archive_part(
    part: &ArchivePart,
    retry_count: u32,
    max_retries: u32,
    result: Result<u64, String>,
    issue: Option<IssueKind>,
) -> (end: PartEnd)
    ensures
        match result {
            Ok(bytes) => is_downloaded(end, part.logical_path@, bytes),
            Err(error) => tries_again_or_fails(
                end,
                part.logical_path@,
                "download"@,
                retry_count,
                max_retries,
                error@,
                issue,
            ),
        },
{
    match result {
        Ok(bytes) => downloaded(part, bytes),
        Err(error) => again_or_fail(
            part,
            "download",
            retry_count,
            max_retries,
            error.as_str(),
            issue,
        ),
    }
}

/// The attempts for a volume end: each one that follows has fewer attempts left.
pub proof fn law_volume_attempts_end(
    end: PartEnd,
    path: Seq<char>,
    action: Seq<char>,
    retry_count: u32,
    max_retries: u32,
    error: Seq<char>,
    issue: Option<IssueKind>,
)
    requires
        tries_again_or_fails(end, path, action, retry_count, max_retries, error, issue),
    ensures
        end.step matches PartStep::Again { retry_count: next } ==> max_retries - next < max_retries
            - retry_count && next <= max_retries,
        retry_count >= max_retries ==> end.step is Fail,
{
}

} // verus!
