//! What a patch writes: where it is written first, and whether it is what it
//! should be.

use crate::digest;
use crate::digest::{ByteStream, CopiedFileDigest};
use crate::error::Message;
use crate::files;
use crate::path::{FilePath, PathModel};
use crate::text;
use crate::verify;
use crate::verify::Observed;
use vstd::prelude::*;

verus! {

/// Where the extracted manifest of a patch stands.
pub enum ManifestStep {
    /// There is no patch.
    Nothing,
    /// The manifest is to be read.
    Read,
    /// A patch without a manifest.
    Fail { message: Message },
}

/// What is done with what an archive has left behind of a patch: without a
/// manifest and without payloads there is nothing to do, and payloads without a
/// manifest are refused.
pub fn begin_manifest(
    manifest_path: &FilePath,
    manifest_exists: bool,
    manifest_is_file: bool,
    stage_exists: bool,
) -> (step: ManifestStep)
    ensures
        if !manifest_exists && !stage_exists {
            step is Nothing
        } else if manifest_is_file {
            step is Read
        } else {
            step matches ManifestStep::Fail { message } && message.context@ == "VFS error: "@
                && message.detail@
                == "Extracted VFS patch manifest is missing required data: missing "@
                + manifest_path@.text()
        },
{
    if !manifest_exists && !stage_exists {
        return ManifestStep::Nothing;
    }
    if manifest_is_file {
        return ManifestStep::Read;
    }
    let mut detail = "Extracted VFS patch manifest is missing required data: missing ".to_owned();
    text::push_text(&mut detail, manifest_path.text().as_str());
    ManifestStep::Fail { message: Message::new("VFS error: ", detail) }
}

/// A size that may be unknown, as it is shown.
pub open spec fn size_text(size: Option<u64>) -> Seq<char> {
    match size {
        Some(bytes) => "Some("@ + text::decimal(bytes as nat) + ")"@,
        None => "None"@,
    }
}

/// A digest that may be unknown, as it is shown.
pub open spec fn digest_text(md5: Option<Seq<char>>) -> Seq<char> {
    match md5 {
        Some(found) => "Some(\""@ + found + "\")"@,
        None => "None"@,
    }
}

/// What is said of an output that is not what it should be. The digest is shown
/// only where it is at fault.
pub open spec fn output_fault(
    logical_path: Seq<char>,
    observed: Option<Observed>,
    expected_md5: Seq<char>,
    expected_size: u64,
) -> Option<Seq<char>> {
    match verify::issue(observed, expected_md5, Some(expected_size)) {
        None => None,
        Some(kind) => {
            let size = match observed {
                Some(file) => Some(file.size),
                None => None,
            };
            let md5 = match observed {
                Some(file) => if kind is Md5Mismatch {
                    Some(file.md5@)
                } else {
                    None
                },
                None => None,
            };
            Some(
                "Patch output "@ + logical_path + " failed verification: kind="@ + kind.text()
                    + " expected_size="@ + text::decimal(expected_size as nat) + " actual_size="@
                    + size_text(size) + " expected_md5="@ + expected_md5 + " actual_md5="@
                    + digest_text(md5),
            )
        },
    }
}

fn push_size_text(out: &mut String, size: Option<u64>)
    ensures
        final(out)@ == old(out)@ + size_text(size),
{
    match size {
        Some(bytes) => {
            text::push_text(out, "Some(");
            text::push_decimal(out, bytes);
            text::push_text(out, ")");
        },
        None => {
            text::push_text(out, "None");
        },
    }
    assert(out@ =~= old(out)@ + size_text(size));
}

fn push_digest_text(out: &mut String, md5: Option<&String>)
    ensures
        final(out)@ == old(out)@ + digest_text(
            match md5 {
                Some(found) => Some(found@),
                None => None,
            },
        ),
{
    match md5 {
        Some(found) => {
            text::push_text(out, "Some(\"");
            text::push_text(out, found.as_str());
            text::push_text(out, "\")");
            assert(out@ =~= old(out)@ + digest_text(Some(found@)));
        },
        None => {
            text::push_text(out, "None");
            assert(out@ =~= old(out)@ + digest_text(None));
        },
    }
}

/// Checks what a patch has written by its size and its digest.
pub fn verify_patch_output(
    logical_path: &str,
    observed: &Option<Observed>,
    expected_md5: &str,
    expected_size: u64,
) -> (result: Result<(), Message>)
    ensures
        match result {
            Ok(()) => output_fault(logical_path@, *observed, expected_md5@, expected_size) is None,
            Err(message) => message.context@ == "VFS error: "@ && output_fault(
                logical_path@,
                *observed,
                expected_md5@,
                expected_size,
            ) == Some(message.detail@),
        },
{
    let kind = match verify::build_issue(observed, expected_md5, Some(expected_size)) {
        None => {
            return Ok(());
        },
        Some(kind) => kind,
    };
    let mut detail = "Patch output ".to_owned();
    text::push_text(&mut detail, logical_path);
    text::push_text(&mut detail, " failed verification: kind=");
    text::push_text(&mut detail, kind.name());
    text::push_text(&mut detail, " expected_size=");
    text::push_decimal(&mut detail, expected_size);
    text::push_text(&mut detail, " actual_size=");
    match observed {
        Some(file) => {
            push_size_text(&mut detail, Some(file.size));
            text::push_text(&mut detail, " expected_md5=");
            text::push_text(&mut detail, expected_md5);
            text::push_text(&mut detail, " actual_md5=");
            let shown = match kind {
                verify::IssueKind::Md5Mismatch => Some(&file.md5),
                _ => None,
            };
            push_digest_text(&mut detail, shown);
        },
        None => {
            push_size_text(&mut detail, None);
            text::push_text(&mut detail, " expected_md5=");
            text::push_text(&mut detail, expected_md5);
            text::push_text(&mut detail, " actual_md5=");
            push_digest_text(&mut detail, None);
        },
    }
    Err(Message::new("VFS error: ", detail))
}

/// Where the outcome of a difference is written: first beside its place, or into
/// a directory for such work and from there beside its place.
pub struct DifferencePlan {
    pub output: FilePath,
    pub beside: Option<FilePath>,
}

/// Plans where the outcome of a difference is written.
pub fn plan_difference(
    destination: &FilePath,
    work_dir: &Option<FilePath>,
    process: u32,
    counter: usize,
) -> (result: Result<DifferencePlan, Message>)
    ensures
        ({
            let beside = files::neighbour(destination@, files::temp_ending(process, counter));
            match result {
                Ok(plan) => match (*work_dir, plan.beside) {
                    (Some(dir), Some(local)) => files::is_neighbour(Ok(local), beside)
                        && plan.output@ == files::patch_work_path(dir@, destination@, counter),
                    (None, None) => files::is_neighbour(Ok(plan.output), beside),
                    _ => false,
                },
                Err(message) => files::is_neighbour(Err(message), beside),
            }
        }),
{
    let beside = match files::make_temp_write_path(destination, process, counter) {
        Ok(path) => path,
        Err(message) => {
            return Err(message);
        },
    };
    match work_dir {
        Some(dir) => Ok(
            DifferencePlan {
                output: files::make_patch_work_path(dir, destination, counter),
                beside: Some(beside),
            },
        ),
        None => Ok(DifferencePlan { output: beside, beside: None }),
    }
}

/// Whether a copy of what a patch has written is judged as it should be.
pub open spec fn judges_copy(
    logical_path: Seq<char>,
    expected_size: u64,
    expected_md5: Seq<char>,
    bytes: Seq<u8>,
    result: Result<CopiedFileDigest, Message>,
) -> bool {
    let count = digest::counted(bytes.len());
    let md5 = digest::md5_text(bytes);
    let good = count == expected_size && md5 == text::lowered(expected_md5);
    match result {
        Ok(done) => good && done.bytes == count && done.md5@ == md5,
        Err(message) => !good && message.context@ == "VFS error: "@ && message.detail@
            == "Patch output "@ + logical_path
            + " failed inline copy verification: expected size/md5 "@ + text::decimal(
            expected_size as nat,
        ) + "/"@ + expected_md5 + ", got "@ + text::decimal(count as nat) + "/"@ + md5,
    }
}

/// Checks a copy of what a patch has written. It is good if and only if the bytes
/// that were copied are as many as expected and have the digest that was
/// expected, in small letters.
pub fn check_inline_copy(
    logical_path: &str,
    expected_size: u64,
    expected_md5: &str,
    copied: ByteStream,
) -> (result: Result<CopiedFileDigest, Message>)
    requires
        copied.wf(),
    ensures
        judges_copy(logical_path@, expected_size, expected_md5@, copied.bytes(), result),
{
    let done = copied.finish();
    let expected = text::ascii_lowercase(expected_md5);
    if done.bytes == expected_size && text::same_text(done.md5.as_str(), expected.as_str()) {
        return Ok(done);
    }
    let mut detail = "Patch output ".to_owned();
    text::push_text(&mut detail, logical_path);
    text::push_text(&mut detail, " failed inline copy verification: expected size/md5 ");
    text::push_decimal(&mut detail, expected_size);
    text::push_text(&mut detail, "/");
    text::push_text(&mut detail, expected_md5);
    text::push_text(&mut detail, ", got ");
    text::push_decimal(&mut detail, done.bytes);
    text::push_text(&mut detail, "/");
    text::push_text(&mut detail, done.md5.as_str());
    Err(Message::new("VFS error: ", detail))
}

/// The text for a difference that could not be applied.
pub fn difference_error(payload: &FilePath, base: &FilePath) -> (message: Message)
    ensures
        message.context@ == "Extraction error: "@,
        message.detail@ == "hdiffpatch-rs failed to apply "@ + payload@.text() + " using base "@
            + base@.text(),
{
    let mut detail = "hdiffpatch-rs failed to apply ".to_owned();
    text::push_text(&mut detail, payload.text().as_str());
    text::push_text(&mut detail, " using base ");
    text::push_text(&mut detail, base.text().as_str());
    Message::new("Extraction error: ", detail)
}

/// The text for a file that something was not done with, from one place to
/// another.
pub open spec fn move_failure(
    lead: Seq<char>,
    from: PathModel,
    to: PathModel,
    error: Seq<char>,
) -> Seq<char> {
    lead + from.text() + " -> "@ + to.text() + ": "@ + error
}

fn move_error(lead: &str, from: &FilePath, to: &FilePath, error: &str) -> (message: Message)
    ensures
        message.context@ == ""@,
        message.detail@ == move_failure(lead@, from@, to@, error@),
{
    let mut detail = lead.to_owned();
    text::push_text(&mut detail, from.text().as_str());
    text::push_text(&mut detail, " -> ");
    text::push_text(&mut detail, to.text().as_str());
    text::push_text(&mut detail, ": ");
    text::push_text(&mut detail, error);
    Message::new("", detail)
}

/// The text for a patched file that could not be put in place.
pub fn replace_error(from: &FilePath, to: &FilePath, error: &str) -> (message: Message)
    ensures
        message.context@ == ""@,
        message.detail@ == move_failure("Failed to replace patched file "@, from@, to@, error@),
{
    move_error("Failed to replace patched file ", from, to, error)
}

/// The text for a payload that could not be put in place.
pub fn local_payload_error(from: &FilePath, to: &FilePath, error: &str) -> (message: Message)
    ensures
        message.context@ == ""@,
        message.detail@ == move_failure(
            "Failed to apply local patch payload "@,
            from@,
            to@,
            error@,
        ),
{
    move_error("Failed to apply local patch payload ", from, to, error)
}

/// The text for an entry of a manifest that could not be patched.
pub fn patch_error(name: &str, base_relative: &FilePath, error: &str) -> (message: Message)
    ensures
        message.context@ == ""@,
        message.detail@ == "Failed to patch "@ + name@ + " from base "@ + base_relative@.text()
            + ": "@ + error@,
{
    let mut detail = "Failed to patch ".to_owned();
    text::push_text(&mut detail, name);
    text::push_text(&mut detail, " from base ");
    text::push_text(&mut detail, base_relative.text().as_str());
    text::push_text(&mut detail, ": ");
    text::push_text(&mut detail, error);
    Message::new("", detail)
}

/// A copy of what a patch has written is accepted if and only if as many bytes came as
/// were expected and have the digest that was expected.
pub proof fn law_only_right_copies_are_accepted(
    logical_path: Seq<char>,
    expected_size: u64,
    expected_md5: Seq<char>,
    bytes: Seq<u8>,
    result: Result<CopiedFileDigest, Message>,
)
    requires
        judges_copy(logical_path, expected_size, expected_md5, bytes, result),
        bytes.len() <= u64::MAX,
    ensures
        result is Ok <==> bytes.len() == expected_size && digest::md5_text(bytes) == text::lowered(
            expected_md5,
        ),
        result matches Ok(done) ==> done.bytes == expected_size && done.md5@ == digest::md5_text(
            bytes,
        ),
{
}

} // verus!
