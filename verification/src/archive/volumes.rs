//! Assembling the volumes of an archive out of fetched pieces.

use crate::archive::cache::FileFacts;
use crate::archive::fetch;
use crate::archive::work;
use crate::digest;
use crate::digest::ExactRead;
use crate::error::Message;
use crate::event::{TaskOutcome, WorkerEvent};
use crate::graph::expansion::{GraphExpansion, TaskRun};
use crate::task::{
    ArchivePart, ArchiveRangePriority, ArchiveRangeRequest, ArchiveWork, ByteRange, Task,
};
use crate::text;
use crate::verify::IssueKind;
use std::sync::Arc;
use vstd::prelude::*;

verus! {

/// What keeps a volume from being assembled.
pub open spec fn volume_fault(
    index: usize,
    range: Option<ByteRange>,
    available: bool,
    part: ArchivePart,
) -> Option<Seq<char>> {
    match range {
        None => Some(no_volume_text(index)),
        Some(bytes) => if bytes.end - bytes.start != part.expected_size {
            Some(
                "archive volume "@ + part.logical_path@ + " has layout size "@ + text::decimal(
                    (bytes.end - bytes.start) as nat,
                ) + ", expected "@ + text::decimal(part.expected_size as nat),
            )
        } else if !available {
            Some(
                "archive volume "@ + part.logical_path@
                    + " is not fully cached before finalization"@,
            )
        } else {
            None
        },
    }
}

/// Whether a volume can be assembled: it is there, has the size that was
/// expected, and all its pieces have been fetched.
pub fn check_volume(index: usize, range: Option<ByteRange>, available: bool, part: &ArchivePart) -> (result:
    Result<ByteRange, Message>)
    requires
        range matches Some(bytes) ==> bytes.start <= bytes.end,
    ensures
        match result {
            Ok(bytes) => volume_fault(index, range, available, *part) is None && range == Some(
                bytes,
            ),
            Err(message) => message.context@ == "Extraction error: "@ && volume_fault(
                index,
                range,
                available,
                *part,
            ) == Some(message.detail@),
        },
{
    let bytes = match range {
        Some(bytes) => bytes,
        None => {
            let mut detail = "archive volume index ".to_owned();
            text::push_size(&mut detail, index);
            text::push_text(&mut detail, " is out of range");
            return Err(Message::new("Extraction error: ", detail));
        },
    };
    let size = bytes.end - bytes.start;
    if size != part.expected_size {
        let mut detail = "archive volume ".to_owned();
        text::push_text(&mut detail, part.logical_path.as_str());
        text::push_text(&mut detail, " has layout size ");
        text::push_decimal(&mut detail, size);
        text::push_text(&mut detail, ", expected ");
        text::push_decimal(&mut detail, part.expected_size);
        return Err(Message::new("Extraction error: ", detail));
    }
    if !available {
        let mut detail = "archive volume ".to_owned();
        text::push_text(&mut detail, part.logical_path.as_str());
        text::push_text(&mut detail, " is not fully cached before finalization");
        return Err(Message::new("Extraction error: ", detail));
    }
    Ok(bytes)
}

/// Whether a temporary file is the whole volume, so that it only has to be put
/// in place.
pub open spec fn assembled(
    found: Option<FileFacts>,
    issue: Option<IssueKind>,
    part: ArchivePart,
) -> bool {
    &&& found matches Some(facts) && facts.is_file && facts.len == part.expected_size
    &&& issue is None
}

/// Whether a temporary file is the whole volume.
pub fn is_assembled(found: Option<FileFacts>, issue: Option<IssueKind>, part: &ArchivePart) -> (yes: bool)
    ensures
        yes == assembled(found, issue, *part),
{
    match found {
        Some(facts) => facts.is_file && facts.len == part.expected_size && issue.is_none(),
        None => false,
    }
}

/// Takes in the next bytes of a volume. A stream that ends before is refused.
pub fn take_volume_bytes(read: &mut ExactRead, part: &ArchivePart, bytes: &[u8]) -> (result: Result<
    (),
    Message,
>)
    requires
        old(read).wf(),
        bytes@.len() <= old(read).missing(),
    ensures
        final(read).wf(),
        final(read).wanted() == old(read).wanted(),
        final(read).bytes() == old(read).bytes() + bytes@,
        match result {
            Ok(()) => bytes@.len() > 0,
            Err(message) => bytes@.len() == 0 && message.context@ == "Extraction error: "@
                && message.detail@ == "archive stream ended while finalizing "@
                + part.logical_path@,
        },
{
    if bytes.len() == 0 {
        let mut detail = "archive stream ended while finalizing ".to_owned();
        text::push_text(&mut detail, part.logical_path.as_str());
        assert(read.bytes() + bytes@ =~= read.bytes());
        return Err(Message::new("Extraction error: ", detail));
    }
    read.take(bytes);
    Ok(())
}

/// What follows in the making of a volume.
pub enum VolumeStep {
    /// Remove the temporary file, and write the volume anew into it from these
    /// bytes of the archive.
    Copy { bytes: ByteRange },
    /// Put the temporary file in place. Where that fails, a file that was written
    /// just now is removed.
    Promote { written: bool },
    /// The volume cannot be made. A file that was written just now is removed.
    Fail { message: Message, remove_temp: bool },
}

/// Begins to make a volume. A temporary file that is the whole volume already is
/// used as it is.
pub fn begin_volume(
    index: usize,
    range: Option<ByteRange>,
    available: bool,
    part: &ArchivePart,
    temp: Option<FileFacts>,
    temp_issue: Option<IssueKind>,
) -> (step: VolumeStep)
    requires
        range matches Some(bytes) ==> bytes.start <= bytes.end,
    ensures
        match volume_fault(index, range, available, *part) {
            Some(fault) => step matches VolumeStep::Fail { message, remove_temp } && !remove_temp
                && message.context@ == "Extraction error: "@ && message.detail@ == fault,
            None => if assembled(temp, temp_issue, *part) {
                step == (VolumeStep::Promote { written: false })
            } else {
                step matches VolumeStep::Copy { bytes } && range == Some(bytes)
            },
        },
{
    match check_volume(index, range, available, part) {
        Ok(bytes) => {
            if is_assembled(temp, temp_issue, part) {
                VolumeStep::Promote { written: false }
            } else {
                VolumeStep::Copy { bytes }
            }
        },
        Err(message) => VolumeStep::Fail { message, remove_temp: false },
    }
}

/// Whether it is gone on as it should be after a volume was written.
pub open spec fn follows_copy(
    part: ArchivePart,
    copied: Result<ExactRead, Message>,
    step: VolumeStep,
) -> bool {
    match copied {
        Err(error) => step == (VolumeStep::Fail { message: error, remove_temp: true }),
        Ok(read) => {
            let actual = digest::md5_text(read.bytes());
            if actual == text::lowered(part.expected_md5@) {
                step == (VolumeStep::Promote { written: true })
            } else {
                step matches VolumeStep::Fail { message, remove_temp } && remove_temp
                    && message.context@ == "Integrity error: "@ && message.detail@
                    == "archive volume "@ + part.logical_path@ + " MD5 mismatch: expected "@
                    + part.expected_md5@ + ", got "@ + actual
            }
        },
    }
}

/// Goes on after a volume was written: it is put in place if and only if it has
/// the digest that was expected, in small letters.
pub fn after_volume_copy(part: &ArchivePart, copied: Result<ExactRead, Message>) -> (step: VolumeStep)
    ensures
        follows_copy(*part, copied, step),
{
    let read = match copied {
        Ok(read) => read,
        Err(message) => {
            return VolumeStep::Fail { message, remove_temp: true };
        },
    };
    let actual = read.into_digest().finish();
    let expected = text::ascii_lowercase(part.expected_md5.as_str());
    if text::same_text(actual.as_str(), expected.as_str()) {
        return VolumeStep::Promote { written: true };
    }
    let mut detail = "archive volume ".to_owned();
    text::push_text(&mut detail, part.logical_path.as_str());
    text::push_text(&mut detail, " MD5 mismatch: expected ");
    text::push_text(&mut detail, part.expected_md5.as_str());
    text::push_text(&mut detail, ", got ");
    text::push_text(&mut detail, actual.as_str());
    VolumeStep::Fail { message: Message::new("Integrity error: ", detail), remove_temp: true }
}

/// What is reported of a volume: that it is good, or what is wrong with it.
pub fn volume_report(part: &ArchivePart, made: bool, issue: Option<IssueKind>) -> (event: WorkerEvent)
    ensures
        event matches WorkerEvent::Outcome { outcome: TaskOutcome::Verified { path, ok, issue: i } }
            && path@ == part.logical_path@ && ok == made && i == (if made {
            None
        } else {
            issue
        }),
{
    WorkerEvent::verified(
        part.logical_path.clone(),
        made,
        if made {
            None
        } else {
            issue
        },
    )
}

/// Whether what was fetched, or reading it, is at fault.
pub open spec fn at_fault(message: Message, read_failed: bool) -> bool {
    read_failed || message.context@ == "Integrity error: "@ || message.context@
        == "Extraction error: "@
}

/// Whether the pieces in the cache are given up with a volume that could not be
/// made: they are, where what was fetched or reading it is at fault.
pub fn drops_ranges(message: &Message, read_failed: bool) -> (drops: bool)
    ensures
        drops == at_fault(*message, read_failed),
{
    read_failed || text::same_text(message.context, "Integrity error: ") || text::same_text(
        message.context,
        "Extraction error: ",
    )
}

/// What keeping a volume ends in.
pub struct RetainEnd {
    pub run: TaskRun,
    /// What is reported.
    pub events: Vec<WorkerEvent>,
    /// Whether the pieces in the cache are given up.
    pub drop_ranges: bool,
    /// Whether the volume is in place, so that the pieces up to its end are no
    /// longer needed.
    pub in_place: bool,
}

/// What follows for a volume that is kept.
pub enum RetainStep {
    /// There is nothing more to do.
    End { end: RetainEnd },
    /// The volume is in place already.
    Present,
    /// The volume must be made.
    Make,
}

/// The complaint about a volume that an archive does not have.
pub open spec fn no_volume_text(index: usize) -> Seq<char> {
    "archive volume index "@ + text::decimal(index as nat) + " is out of range"@
}

/// Whether a step is the first for a volume: nothing where volumes are not kept,
/// a failure where the archive has no such volume, else what is in its place
/// decides.
pub open spec fn begins_retain(
    archive: ArchiveWork,
    volume_index: usize,
    present: bool,
    step: RetainStep,
) -> bool {
    match step {
        RetainStep::End { end } => {
            &&& end.events@.len() == 0
            &&& !end.in_place
            &&& if archive.saves_volumes() {
                &&& volume_index >= archive.parts@.len()
                &&& work::fails_with(end.run, "Extraction error: "@ + no_volume_text(volume_index))
                &&& end.drop_ranges
            } else {
                end.run is Succeeded && !end.drop_ranges
            }
        },
        RetainStep::Present => archive.saves_volumes() && volume_index < archive.parts@.len()
            && present,
        RetainStep::Make => archive.saves_volumes() && volume_index < archive.parts@.len()
            && !present,
    }
}

/// Begins to keep a volume of an archive, given whether what is in its place is
/// the volume.
pub fn begin_retain(archive: &ArchiveWork, volume_index: usize, present: bool) -> (step: RetainStep)
    ensures
        begins_retain(*archive, volume_index, present, step),
{
    if !archive.should_save_full_volumes() {
        return RetainStep::End {
            end: RetainEnd {
                run: TaskRun::succeeded(),
                events: Vec::new(),
                drop_ranges: false,
                in_place: false,
            },
        };
    }
    if volume_index >= archive.parts.len() {
        let mut detail = "archive volume index ".to_owned();
        text::push_size(&mut detail, volume_index);
        text::push_text(&mut detail, " is out of range");
        let message = Message::new("Extraction error: ", detail);
        return RetainStep::End {
            end: RetainEnd {
                run: TaskRun::failed(message.message()),
                events: Vec::new(),
                drop_ranges: true,
                in_place: false,
            },
        };
    }
    if present {
        RetainStep::Present
    } else {
        RetainStep::Make
    }
}

/// What comes before a volume is made. Where pieces of it are missing, they are
/// fetched in the background, and then the volume is kept; where nothing is
/// missing, it can be made at once.
pub fn fill_volume_gaps(
    archive: Arc<ArchiveWork>,
    volume_index: usize,
    missing: Result<Vec<ArchiveRangeRequest>, String>,
) -> (first: Option<TaskRun>)
    ensures
        match missing {
            Ok(requests) => if requests@.len() == 0 {
                first is None
            } else {
                first matches Some(TaskRun::Expand { expansion, next }) && expansion.inv()
                    && expansion@ == fetch::fetch_nodes(
                    archive,
                    requests@,
                    ArchiveRangePriority::RetentionBackground,
                ) && next == Some(Task::RetainArchiveVolume { work: archive, volume_index })
            },
            Err(error) => first matches Some(run) && work::fails_with(run, error@),
        },
{
    let requests = match missing {
        Ok(requests) => requests,
        Err(error) => {
            return Some(TaskRun::failed(error));
        },
    };
    if requests.len() == 0 {
        return None;
    }
    let priority = ArchiveRangePriority::RetentionBackground;
    let expansion = fetch::fetch_expansion(GraphExpansion::new(), &archive, requests, priority);
    assert(expansion@ =~= fetch::fetch_nodes(archive, requests@, priority));
    Some(TaskRun::expand_then(expansion, Task::RetainArchiveVolume { work: archive, volume_index }))
}

/// Whether keeping a volume ends as it should: one that is in place is good, one
/// that could not be made is reported with what is wrong with it.
pub open spec fn ends_retain(
    end: RetainEnd,
    part: ArchivePart,
    made: Result<(), Message>,
    read_failed: bool,
    issue: Option<IssueKind>,
) -> bool {
    &&& end.events@.len() == 1
    &&& end.events@[0] matches WorkerEvent::Outcome {
        outcome: TaskOutcome::Verified { path, ok, issue: found },
    } && path@ == part.logical_path@ && ok == (made is Ok) && found == (if made is Ok {
        None
    } else {
        issue
    })
    &&& end.in_place == (made is Ok)
    &&& match made {
        Ok(()) => end.run is Succeeded && !end.drop_ranges,
        Err(message) => work::fails_with(end.run, message.context@ + message.detail@)
            && end.drop_ranges == at_fault(message, read_failed),
    }
}

/// Ends the keeping of a volume that was in place, or was made, or could not be
/// made.
pub fn end_retain(
    part: &ArchivePart,
    made: Result<(), Message>,
    read_failed: bool,
    issue: Option<IssueKind>,
) -> (end: RetainEnd)
    ensures
        ends_retain(end, *part, made, read_failed, issue),
{
    let mut events: Vec<WorkerEvent> = Vec::new();
    match made {
        Ok(()) => {
            events.push(volume_report(part, true, issue));
            RetainEnd { run: TaskRun::succeeded(), events, drop_ranges: false, in_place: true }
        },
        Err(message) => {
            events.push(volume_report(part, false, issue));
            RetainEnd {
                run: TaskRun::failed(message.message()),
                events,
                drop_ranges: drops_ranges(&message, read_failed),
                in_place: false,
            }
        },
    }
}

/// The pieces that are still needed once a volume is in place: those of the
/// volumes after it.
pub fn ranges_still_needed(volumes: &Vec<ByteRange>, finalized: usize) -> (needed: Vec<ByteRange>)
    ensures
        needed@ == (if finalized < volumes@.len() {
            volumes@.skip(finalized + 1)
        } else {
            Seq::empty()
        }),
{
    let mut needed: Vec<ByteRange> = Vec::new();
    if finalized >= volumes.len() {
        assert(needed@ =~= Seq::<ByteRange>::empty());
        return needed;
    }
    let mut k: usize = finalized + 1;
    while k < volumes.len()
        invariant
            finalized < k <= volumes@.len(),
            needed@ == volumes@.subrange(finalized + 1, k as int),
        decreases volumes@.len() - k,
    {
        needed.push(volumes[k]);
        k = k + 1;
        assert(needed@ =~= volumes@.subrange(finalized + 1, k as int));
    }
    assert(needed@ =~= volumes@.skip(finalized + 1));
    needed
}

/// A volume that was written is put in place if and only if its bytes have the digest
/// that was expected; in every other case what was written is removed.
pub proof fn law_only_right_volumes_are_put_in_place(
    part: ArchivePart,
    copied: Result<ExactRead, Message>,
    step: VolumeStep,
)
    requires
        follows_copy(part, copied, step),
    ensures
        step is Promote <==> (copied matches Ok(read) && digest::md5_text(read.bytes())
            == text::lowered(part.expected_md5@)),
        !(step is Promote) ==> (step matches VolumeStep::Fail { remove_temp, .. } && remove_temp),
        copied matches Err(error) ==> (step matches VolumeStep::Fail { message, .. } && message
            == error),
{
}

} // verus!
