//! Putting files in place.

use crate::archive::cache::FileFacts;
use crate::digest;
use crate::digest::{ByteStream, CopiedFileDigest, ExactRead};
use crate::error::Message;
use crate::ordered;
use crate::patch::steps;
use crate::path::{FilePath, PathModel};
use crate::text;
use vstd::prelude::*;

verus! {

/// How many names are tried for a directory to extract into.
pub const STAGING_DIR_ATTEMPTS: usize = 1024;

/// The text for a directory to extract into that cannot be had.
pub fn staging_dir_error(parent: &FilePath) -> (message: Message)
    ensures
        message.context@ == "Task pool error: "@,
        message.detail@ == "Could not allocate a unique extraction directory under "@
            + parent@.text(),
{
    let mut detail = "Could not allocate a unique extraction directory under ".to_owned();
    text::push_text(&mut detail, parent.text().as_str());
    Message::new("Task pool error: ", detail)
}

/// Whether no path of a list comes before an earlier one.
pub open spec fn paths_in_order(paths: Seq<PathModel>) -> bool {
    forall|i: int, j: int|
        0 <= i < j < paths.len() ==> !ordered::path_less(#[trigger] paths[j], #[trigger] paths[i])
}

proof fn lemma_insert_multiset(list: Seq<PathModel>, k: int, path: PathModel)
    requires
        0 <= k <= list.len(),
    ensures
        list.insert(k, path).to_multiset() == list.to_multiset().insert(path),
{
    let more = list.insert(k, path);
    more.to_multiset_ensures();
    list.to_multiset_ensures();
    assert(more.remove(k) =~= list);
    assert(more[k] == path);
    assert(more.contains(path));
    assert(more.to_multiset().remove(path).insert(path) =~= more.to_multiset());
}

/// Sorts paths.
pub fn sort_paths(paths: Vec<FilePath>) -> (sorted: Vec<FilePath>)
    ensures
        paths_in_order(steps::models(sorted@)),
        steps::models(sorted@).to_multiset() == steps::models(paths@).to_multiset(),
{
    let ghost all = paths@;
    let mut sorted: Vec<FilePath> = Vec::new();
    assert(steps::models(sorted@) =~= steps::models(all.take(0)));
    for path in it: paths
        invariant
            it.seq() == all,
            paths_in_order(steps::models(sorted@)),
            steps::models(sorted@).to_multiset() == steps::models(
                all.take(it.index()),
            ).to_multiset(),
    {
        let ghost before = steps::models(sorted@);
        let ghost added = path@;
        let mut k: usize = sorted.len();
        while k > 0 && ordered::path_before(&path, &sorted[k - 1])
            invariant
                k <= sorted@.len(),
                before == steps::models(sorted@),
                path@ == added,
                forall|i: int|
                    k <= i < before.len() ==> ordered::path_less(added, #[trigger] before[i]),
            decreases k,
        {
            k = k - 1;
            assert(before[k as int] == sorted@[k as int]@);
        }
        assert(k > 0 ==> before[k - 1] == sorted@[k - 1]@);
        assert(k > 0 ==> !ordered::path_less(added, before[k - 1]));
        sorted.insert(k, path);
        proof {
            let at = k as int;
            let now = steps::models(sorted@);
            assert(now =~= before.insert(at, added));
            assert forall|i: int| 0 <= i < at implies !ordered::path_less(
                added,
                #[trigger] before[i],
            ) by {
                if i < at - 1 {
                    let last = before[at - 1];
                    assert(!ordered::path_less(last, before[i]));
                    ordered::law_path_order_is_total(before[i], last);
                    if ordered::path_less(added, before[i]) && before[i] != last {
                        ordered::law_path_order_is_transitive(added, before[i], last);
                    }
                }
            }
            assert forall|i: int, j: int| 0 <= i < j < now.len() implies !ordered::path_less(
                #[trigger] now[j],
                #[trigger] now[i],
            ) by {
                if j < at {
                    assert(!ordered::path_less(before[j], before[i]));
                } else if j == at {
                    assert(!ordered::path_less(added, before[i]));
                } else if i == at {
                    assert(ordered::path_less(added, before[j - 1]));
                    ordered::law_path_order_is_total(added, before[j - 1]);
                } else if i < at {
                    assert(!ordered::path_less(before[j - 1], before[i]));
                } else {
                    assert(!ordered::path_less(before[j - 1], before[i - 1]));
                }
            }
            lemma_insert_multiset(before, at, added);
            let from = steps::models(all.take(it.index()));
            assert(steps::models(all.take(it.index() + 1)) =~= from.push(added));
            from.to_multiset_ensures();
        }
    }
    assert(all.take(all.len() as int) =~= all);
    sorted
}

/// A file that is moved to its place.
pub struct CommitFileJob {
    pub source: FilePath,
    pub destination: FilePath,
    pub logical_path: FilePath,
}

/// Whether a job moves a file out of a directory to the same place below
/// another one.
pub open spec fn moves_staged(
    job: CommitFileJob,
    staging_root: PathModel,
    dest_root: PathModel,
    path: PathModel,
) -> bool {
    &&& job.source@ == staging_root.join(path)
    &&& job.destination@ == dest_root.join(path)
    &&& job.logical_path@ == path
}

/// The jobs that move files out of a directory, in their order.
pub fn staged_jobs(staging_root: &FilePath, dest_root: &FilePath, logical_paths: &Vec<FilePath>) -> (jobs:
    Vec<CommitFileJob>)
    ensures
        jobs@.len() == logical_paths@.len(),
        forall|i: int|
            0 <= i < jobs@.len() ==> moves_staged(
                #[trigger] jobs@[i],
                staging_root@,
                dest_root@,
                logical_paths@[i]@,
            ),
{
    let mut jobs: Vec<CommitFileJob> = Vec::new();
    let mut k: usize = 0;
    while k < logical_paths.len()
        invariant
            k <= logical_paths@.len(),
            jobs@.len() == k,
            forall|i: int|
                0 <= i < k ==> moves_staged(
                    #[trigger] jobs@[i],
                    staging_root@,
                    dest_root@,
                    logical_paths@[i]@,
                ),
        decreases logical_paths@.len() - k,
    {
        jobs.push(
            CommitFileJob {
                source: staging_root.join(&logical_paths[k]),
                destination: dest_root.join(&logical_paths[k]),
                logical_path: logical_paths[k].copied(),
            },
        );
        k = k + 1;
    }
    jobs
}

/// The text for a file that could not be moved to its place.
pub fn commit_error(job: &CommitFileJob, error: &str) -> (message: Message)
    ensures
        message.context@ == ""@,
        message.detail@ == "Failed to move extracted file "@ + job.source@.text() + " -> "@
            + job.destination@.text() + ": "@ + error@,
{
    let mut detail = "Failed to move extracted file ".to_owned();
    text::push_text(&mut detail, job.source.text().as_str());
    text::push_text(&mut detail, " -> ");
    text::push_text(&mut detail, job.destination.text().as_str());
    text::push_text(&mut detail, ": ");
    text::push_text(&mut detail, error);
    Message::new("", detail)
}

/// Whether a partial file can be put in place: it is there, and it is a file.
pub fn check_partial_download(part_path: &FilePath, found: Option<FileFacts>) -> (result: Result<
    (),
    Message,
>)
    ensures
        match result {
            Ok(()) => found matches Some(facts) && facts.is_file,
            Err(message) => message.context@ == "Download error: "@ && match found {
                Some(facts) => !facts.is_file && message.detail@
                    == "Partial download path is not a file: "@ + part_path@.text(),
                None => message.detail@ == "Missing partial download file "@ + part_path@.text(),
            },
        },
{
    let lead = match found {
        Some(facts) => {
            if facts.is_file {
                return Ok(());
            }
            "Partial download path is not a file: "
        },
        None => "Missing partial download file ",
    };
    let mut detail = lead.to_owned();
    text::push_text(&mut detail, part_path.text().as_str());
    Err(Message::new("Download error: ", detail))
}

/// Takes in the next bytes of the start of a file. A file that ends before is
/// refused.
pub fn take_prefix_bytes(read: &mut ExactRead, path: &FilePath, bytes: &[u8]) -> (result: Result<
    (),
    Message,
>)
    requires
        old(read).wf(),
        bytes@.len() <= old(read).missing(),
    ensures
        final(read).wf(),
        final(read).wanted() == old(read).wanted(),
        final(read).bytes() == old(read).bytes() + bytes@,
        match result {
            Ok(()) => bytes@.len() > 0,
            Err(message) => bytes@.len() == 0 && message.context@ == "Extraction error: "@
                && message.detail@ == "Partial file shorter than expected prefix: "@
                + text::decimal((old(read).wanted() - old(read).missing()) as nat) + " < "@
                + text::decimal(old(read).wanted() as nat) + " for "@ + path@.text(),
        },
{
    if bytes.len() == 0 {
        let mut detail = "Partial file shorter than expected prefix: ".to_owned();
        text::push_decimal(&mut detail, read.total() - read.remaining());
        text::push_text(&mut detail, " < ");
        text::push_decimal(&mut detail, read.total());
        text::push_text(&mut detail, " for ");
        text::push_text(&mut detail, path.text().as_str());
        assert(read.bytes() + bytes@ =~= read.bytes());
        return Err(Message::new("Extraction error: ", detail));
    }
    read.take(bytes);
    Ok(())
}

/// The text for a file that could not be linked.
pub fn hardlink_error(src: &FilePath, temp: &FilePath, error: &str) -> (message: Message)
    ensures
        message.context@ == ""@,
        message.detail@ == "Failed to hardlink "@ + src@.text() + " -> "@ + temp@.text() + ": "@
            + error@,
{
    let mut detail = "Failed to hardlink ".to_owned();
    text::push_text(&mut detail, src.text().as_str());
    text::push_text(&mut detail, " -> ");
    text::push_text(&mut detail, temp.text().as_str());
    text::push_text(&mut detail, ": ");
    text::push_text(&mut detail, error);
    Message::new("", detail)
}

/// Whether a copy is what it should be. Digests are compared as the numbers that
/// they are, in whichever letters they are written.
pub open spec fn is_good_copy(bytes: u64, md5: Seq<char>, size: u64, expected: Seq<char>) -> bool {
    bytes == size && text::lowered(md5) == text::lowered(expected)
}

/// Checks a copy by the size and the digest that were expected. The copy is good
/// if and only if the bytes that were written are as many as expected and have
/// the digest that was expected.
pub fn check_copy(
    src: &FilePath,
    dest: &FilePath,
    expected_size: u64,
    expected_hash: &str,
    copied: ByteStream,
) -> (result: Result<CopiedFileDigest, Message>)
    requires
        copied.wf(),
    ensures
        ({
            let count = digest::counted(copied.bytes().len());
            let md5 = digest::md5_text(copied.bytes());
            match result {
                Ok(done) => is_good_copy(count, md5, expected_size, expected_hash@) && done.bytes
                    == count && done.md5@ == md5,
                Err(message) => !is_good_copy(count, md5, expected_size, expected_hash@)
                    && message.context@ == "Integrity error: "@ && message.detail@
                    == "Copy verification failed for "@ + src@.text() + " -> "@ + dest@.text()
                    + ": expected size/hash "@ + text::decimal(expected_size as nat) + "/"@
                    + expected_hash@ + ", got "@ + text::decimal(count as nat) + "/"@ + md5,
            }
        }),
{
    let done = copied.finish();
    if done.bytes == expected_size && text::same_ignoring_case(done.md5.as_str(), expected_hash) {
        return Ok(done);
    }
    let mut detail = "Copy verification failed for ".to_owned();
    text::push_text(&mut detail, src.text().as_str());
    text::push_text(&mut detail, " -> ");
    text::push_text(&mut detail, dest.text().as_str());
    text::push_text(&mut detail, ": expected size/hash ");
    text::push_decimal(&mut detail, expected_size);
    text::push_text(&mut detail, "/");
    text::push_text(&mut detail, expected_hash);
    text::push_text(&mut detail, ", got ");
    text::push_decimal(&mut detail, done.bytes);
    text::push_text(&mut detail, "/");
    text::push_text(&mut detail, done.md5.as_str());
    Err(Message::new("Integrity error: ", detail))
}

/// What a move to another volume is made of.
pub enum MoveStep {
    /// The file has been moved.
    Done,
    /// The volumes differ: copy the file, and then remove it.
    Copy,
    /// It cannot be moved.
    Fail { message: Message },
}

/// What follows an attempt to move a file. Only a move between volumes is
/// followed by a copy, and only files are copied.
pub fn after_move(
    moved: Result<(), Message>,
    crosses_volumes: bool,
    src: &FilePath,
    source_is_file: bool,
) -> (step: MoveStep)
    ensures
        match moved {
            Ok(()) => step is Done,
            Err(error) => if !crosses_volumes {
                step == (MoveStep::Fail { message: error })
            } else if source_is_file {
                step is Copy
            } else {
                step matches MoveStep::Fail { message } && message.context@ == ""@
                    && message.detail@ == "Cross-volume replacement only supports files: "@
                    + src@.text()
            },
        },
{
    match moved {
        Ok(()) => MoveStep::Done,
        Err(error) => {
            if !crosses_volumes {
                return MoveStep::Fail { message: error };
            }
            if source_is_file {
                return MoveStep::Copy;
            }
            let mut detail = "Cross-volume replacement only supports files: ".to_owned();
            text::push_text(&mut detail, src.text().as_str());
            MoveStep::Fail { message: Message::new("", detail) }
        },
    }
}

/// Whether a copy is what was written.
pub open spec fn is_true_copy(bytes: u64, md5: Seq<char>, size: u64, written: Seq<char>) -> bool {
    bytes == size && md5 == written
}

/// Checks a copy to another volume: it has the size of the file, and what was
/// written is what was read.
pub fn check_cross_volume_copy(
    src: &FilePath,
    dest: &FilePath,
    source_size: u64,
    copied: &CopiedFileDigest,
    written_md5: &str,
) -> (result: Result<(), Message>)
    ensures
        match result {
            Ok(()) => is_true_copy(
                copied.bytes,
                copied.md5@,
                source_size,
                written_md5@,
            ),
            Err(message) => !is_true_copy(
                copied.bytes,
                copied.md5@,
                source_size,
                written_md5@,
            ) && message.context@
                == ""@ && message.detail@ == "Cross-volume copy verification failed for "@
                + src@.text() + " -> "@ + dest@.text(),
        },
{
    if copied.bytes == source_size && text::same_text(copied.md5.as_str(), written_md5) {
        return Ok(());
    }
    let mut detail = "Cross-volume copy verification failed for ".to_owned();
    text::push_text(&mut detail, src.text().as_str());
    text::push_text(&mut detail, " -> ");
    text::push_text(&mut detail, dest.text().as_str());
    Err(Message::new("", detail))
}

} // verus!
