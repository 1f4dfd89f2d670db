//! Putting an extracted file in place as soon as it is extracted.

use crate::commit;
use crate::commit::CommitFileJob;
use crate::digest::CopiedFileDigest;
use crate::error::Message;
use crate::event::{ProgressPhase, TaskOutcome, WorkerEvent};
use crate::path::FilePath;
use crate::task::{ArchiveWork, ExpectedFile};
use crate::text;
use vstd::prelude::*;

verus! {

/// The place of a key in a list of expected files.
pub open spec fn expected_at(files: Seq<(String, ExpectedFile)>, key: Seq<char>, k: int) -> bool {
    &&& 0 <= k < files.len()
    &&& files[k].0@ == key
    &&& forall|j: int| 0 <= j < k ==> (#[trigger] files[j]).0@ != key
}

/// Whether a file is expected under a key.
pub open spec fn is_expected(files: Seq<(String, ExpectedFile)>, key: Seq<char>) -> bool {
    exists|k: int| #[trigger] expected_at(files, key, k)
}

/// What is expected of an entry, by its path in small letters.
pub fn expected_file<'a>(archive: &'a ArchiveWork, normalized: &str) -> (found: Option<
    &'a ExpectedFile,
>)
    ensures
        ({
            let key = text::lowered(normalized@);
            match found {
                Some(file) => exists|k: int| #[trigger]
                    expected_at(archive.expected_files@, key, k) && archive.expected_files@[k].1
                        == *file,
                None => !is_expected(archive.expected_files@, key),
            }
        }),
{
    let key = text::ascii_lowercase(normalized);
    let files: &'a Vec<(String, ExpectedFile)> = &archive.expected_files;
    let mut k: usize = 0;
    while k < files.len()
        invariant
            k <= files@.len(),
            *files == *archive.expected_files,
            key@ == text::lowered(normalized@),
            forall|j: int| 0 <= j < k ==> (#[trigger] files@[j]).0@ != key@,
        decreases files@.len() - k,
    {
        if text::same_text(files[k].0.as_str(), key.as_str()) {
            assert(expected_at(files@, key@, k as int));
            return Some(&files[k].1);
        }
        k = k + 1;
    }
    None
}

/// How an extracted file is put in place.
pub struct ShardFileStep {
    pub job: CommitFileJob,
    /// The size and the digest that the file was expected to have, and has.
    pub proof_of: Option<CopiedFileDigest>,
}

/// Whether a digest is that of the file that is expected.
pub open spec fn is_as_expected(digest: CopiedFileDigest, expected: ExpectedFile) -> bool {
    commit::is_good_copy(digest.bytes, digest.md5@, expected.size, expected.md5@)
}

/// The text for a file that is not the one that is expected.
pub open spec fn unexpected_text(
    normalized: Seq<char>,
    expected: ExpectedFile,
    digest: CopiedFileDigest,
) -> Seq<char> {
    "Archive entry "@ + normalized + " failed verification: expected size/hash "@ + text::decimal(
        expected.size as nat,
    ) + "/"@ + expected.md5@ + ", got "@ + text::decimal(digest.bytes as nat) + "/"@ + digest.md5@
}

/// Whether an extracted file is put in place as it should be. A file that is
/// expected goes where it is expected, and only with the size and the digest that
/// are expected. Any other file goes where the archive has it.
pub open spec fn places_file(
    result: Result<ShardFileStep, Message>,
    expected: Option<&ExpectedFile>,
    dest_root: FilePath,
    source: FilePath,
    normalized: Seq<char>,
    digest: Option<CopiedFileDigest>,
) -> bool {
    match expected {
        Some(file) => match digest {
            None => result matches Err(message) && message.context@ == "Extraction error: "@
                && message.detail@ == "Archive entry "@ + normalized + " has no verified digest"@,
            Some(found) => if is_as_expected(found, *file) {
                result matches Ok(step) && step.job.source == source && step.job.destination@
                    == dest_root@.join(file.path@) && step.job.logical_path@ == file.path@
                    && step.proof_of == Some(found)
            } else {
                result matches Err(message) && message.context@ == "Integrity error: "@
                    && message.detail@ == unexpected_text(normalized, *file, found)
            },
        },
        None => {
            let relative = crate::path::parsed(normalized);
            result matches Ok(step) && step.job.source == source && step.job.destination@
                == dest_root@.join(relative) && step.job.logical_path@ == relative
                && step.proof_of is None
        },
    }
}

/// How an extracted file is put in place.
pub fn shard_file_step(
    expected: Option<&ExpectedFile>,
    dest_root: &FilePath,
    source: FilePath,
    normalized: &str,
    digest: Option<CopiedFileDigest>,
) -> (result: Result<ShardFileStep, Message>)
    ensures
        places_file(result, expected, *dest_root, source, normalized@, digest),
{
    let file = match expected {
        Some(file) => file,
        None => {
            let logical_path = FilePath::parse(normalized);
            let job = CommitFileJob {
                source,
                destination: dest_root.join(&logical_path),
                logical_path,
            };
            return Ok(ShardFileStep { job, proof_of: None });
        },
    };
    let found = match digest {
        Some(found) => found,
        None => {
            let mut detail = "Archive entry ".to_owned();
            text::push_text(&mut detail, normalized);
            text::push_text(&mut detail, " has no verified digest");
            return Err(Message::new("Extraction error: ", detail));
        },
    };
    if found.bytes != file.size || !text::same_ignoring_case(
        found.md5.as_str(),
        file.md5.as_str(),
    ) {
        let mut detail = "Archive entry ".to_owned();
        text::push_text(&mut detail, normalized);
        text::push_text(&mut detail, " failed verification: expected size/hash ");
        text::push_decimal(&mut detail, file.size);
        text::push_text(&mut detail, "/");
        text::push_text(&mut detail, file.md5.as_str());
        text::push_text(&mut detail, ", got ");
        text::push_decimal(&mut detail, found.bytes);
        text::push_text(&mut detail, "/");
        text::push_text(&mut detail, found.md5.as_str());
        return Err(Message::new("Integrity error: ", detail));
    }
    let job = CommitFileJob {
        source,
        destination: dest_root.join(&file.path),
        logical_path: file.path.copied(),
    };
    Ok(ShardFileStep { job, proof_of: Some(found) })
}

/// Whether reports say that an extracted file is in place: what is proved of it,
/// where something is, that it has changed, and how many files are in place.
pub open spec fn reports_placed(
    events: Seq<WorkerEvent>,
    path: Seq<char>,
    normalized: Seq<char>,
    proof_of: Option<CopiedFileDigest>,
    finished: usize,
    total: usize,
) -> bool {
    let n = events.len() as int;
    &&& n == if proof_of is Some {
        3int
    } else {
        2int
    }
    &&& proof_of matches Some(found) ==> (events[0] matches WorkerEvent::Outcome {
        outcome: TaskOutcome::Committed { path: p, bytes, md5 },
    } && p@ == path && bytes == found.bytes && md5@ == found.md5@)
    &&& events[n - 2] matches WorkerEvent::Outcome { outcome: TaskOutcome::Changed { path: p } }
        && p@ == normalized
    &&& events[n - 1] matches WorkerEvent::Progress { phase, path: p, completed, total: all, reset }
        && phase is Commit && p@ == normalized && completed == finished && all == total && !reset
}

/// Reports that an extracted file is in place.
pub fn placed_file_events(
    path: &FilePath,
    normalized: &str,
    proof_of: &Option<CopiedFileDigest>,
    finished: usize,
    total: usize,
) -> (events: Vec<WorkerEvent>)
    ensures
        reports_placed(events@, path@.text(), normalized@, *proof_of, finished, total),
{
    let mut events: Vec<WorkerEvent> = Vec::new();
    if let Some(found) = proof_of {
        events.push(WorkerEvent::committed(path.text(), found.bytes, found.md5.clone()));
    }
    events.push(WorkerEvent::changed(normalized.to_owned()));
    events.push(
        WorkerEvent::progress(
            ProgressPhase::Commit,
            normalized.to_owned(),
            finished as u64,
            total as u64,
            false,
        ),
    );
    events
}

/// An expected file is put in place only with its own size and digest, whatever
/// the archive holds under its name.
pub proof fn law_expected_files_are_proved(
    step: ShardFileStep,
    expected: &ExpectedFile,
    dest_root: FilePath,
    source: FilePath,
    normalized: Seq<char>,
    digest: Option<CopiedFileDigest>,
)
    requires
        places_file(Ok(step), Some(expected), dest_root, source, normalized, digest),
    ensures
        step.job.destination@ == dest_root@.join(expected.path@),
        step.proof_of matches Some(found) && is_as_expected(found, *expected),
{
}

} // verus!
