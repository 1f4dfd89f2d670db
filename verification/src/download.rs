//! Downloading a file: what is there already, what the server answers, and
//! whether what came is what was wanted.

use crate::archive::cache::FileFacts;
use crate::digest;
use crate::digest::{CopiedFileDigest, RunningDigest};
use crate::error::Message;
use crate::number;
use crate::path::{FilePath, PathModel};
use crate::task::DownloadResumeState;
use crate::text;
use vstd::prelude::*;

verus! {

/// Seconds to wait for an answer.
pub const DEFAULT_DOWNLOAD_SEND_TIMEOUT_SECS: u64 = 60;

/// Seconds to wait for the next bytes of a body.
pub const DEFAULT_DOWNLOAD_BODY_TIMEOUT_SECS: u64 = 900;

/// Nanoseconds after which progress is shown in any case.
pub const PROGRESS_EMIT_INTERVAL: u64 = 100_000_000;

/// The seconds that a setting asks for: a positive number, with white space
/// around it or not; else the default.
pub open spec fn timeout_secs(raw: Option<Seq<char>>, default_secs: u64) -> u64 {
    match raw {
        Some(value) => match number::parsed_unsigned(text::trimmed(value)) {
            Some(secs) => if secs > 0 {
                secs
            } else {
                default_secs
            },
            None => default_secs,
        },
        None => default_secs,
    }
}

/// The seconds that a setting asks for.
pub fn duration_from_setting(raw: &Option<String>, default_secs: u64) -> (secs: u64)
    ensures
        secs == timeout_secs(text::optional(*raw), default_secs),
{
    match raw {
        Some(value) => {
            let trimmed = text::trim(value.as_str());
            match number::parse_unsigned(trimmed.as_str()) {
                Some(secs) => if secs > 0 {
                    secs
                } else {
                    default_secs
                },
                None => default_secs,
            }
        },
        None => default_secs,
    }
}

/// What is to be done before a file is downloaded.
#[derive(Clone, Copy, PartialEq, Eq, Structural, Debug)]
pub enum DownloadPreparation {
    /// The partial file is whole: put it in place.
    Done { bytes: u64 },
    /// Go on where the partial file ends. Where it is of no use, it is removed
    /// first.
    Resume { resume: DownloadResumeState, remove_partial: bool },
}

/// Whether the digest of a partial file decides what is done with it.
pub open spec fn digest_decides(found: Option<FileFacts>, expected_size: Option<u64>) -> bool {
    found matches Some(facts) && facts.is_file && expected_size == Some(facts.len)
}

/// Whether the digest of a partial file decides what is done with it.
pub fn needs_digest(found: Option<FileFacts>, expected_size: Option<u64>) -> (yes: bool)
    ensures
        yes == digest_decides(found, expected_size),
{
    match (found, expected_size) {
        (Some(facts), Some(size)) => facts.is_file && facts.len == size,
        _ => false,
    }
}

/// What is to be done before a file is downloaded. A partial file of the right
/// size is whole if its digest is right. One that is longer, or has another
/// digest, is of no use. Any other is gone on with.
pub open spec fn preparation(
    found: Option<FileFacts>,
    digest: Option<Seq<char>>,
    expected_md5: Seq<char>,
    expected_size: Option<u64>,
) -> DownloadPreparation {
    let fresh = DownloadPreparation::Resume {
        resume: DownloadResumeState { offset: 0 },
        remove_partial: false,
    };
    let anew = DownloadPreparation::Resume {
        resume: DownloadResumeState { offset: 0 },
        remove_partial: true,
    };
    match found {
        None => fresh,
        Some(facts) => match expected_size {
            Some(size) => if facts.len > size {
                anew
            } else if facts.len == size {
                if digest is Some && text::lowered(digest->0) == text::lowered(expected_md5) {
                    DownloadPreparation::Done { bytes: facts.len }
                } else {
                    anew
                }
            } else {
                DownloadPreparation::Resume {
                    resume: DownloadResumeState { offset: facts.len },
                    remove_partial: false,
                }
            },
            None => DownloadPreparation::Resume {
                resume: DownloadResumeState { offset: facts.len },
                remove_partial: false,
            },
        },
    }
}

/// What is to be done before a file is downloaded. The digest is that of the
/// partial file, where it decides. Something that is not a file is refused.
pub fn prepare_download(
    part_path: &FilePath,
    found: Option<FileFacts>,
    digest: &Option<String>,
    expected_md5: &str,
    expected_size: Option<u64>,
) -> (result: Result<DownloadPreparation, Message>)
    ensures
        match result {
            Ok(prepared) => !(found matches Some(facts) && !facts.is_file) && prepared
                == preparation(
                found,
                text::optional(*digest),
                expected_md5@,
                expected_size,
            ),
            Err(message) => (found matches Some(facts) && !facts.is_file) && message.context@
                == "Download error: "@ && message.detail@
                == "Partial download path is not a file: "@ + part_path@.text(),
        },
{
    let fresh = DownloadPreparation::Resume {
        resume: DownloadResumeState::new(0),
        remove_partial: false,
    };
    let anew = DownloadPreparation::Resume {
        resume: DownloadResumeState::new(0),
        remove_partial: true,
    };
    let facts = match found {
        Some(facts) => facts,
        None => {
            return Ok(fresh);
        },
    };
    if !facts.is_file {
        let mut detail = "Partial download path is not a file: ".to_owned();
        text::push_text(&mut detail, part_path.text().as_str());
        return Err(Message::new("Download error: ", detail));
    }
    if let Some(size) = expected_size {
        if facts.len > size {
            return Ok(anew);
        }
        if facts.len == size {
            if let Some(actual) = digest {
                if text::same_ignoring_case(actual.as_str(), expected_md5) {
                    return Ok(DownloadPreparation::Done { bytes: facts.len });
                }
            }
            return Ok(anew);
        }
    }
    Ok(
        DownloadPreparation::Resume {
            resume: DownloadResumeState::new(facts.len),
            remove_partial: false,
        },
    )
}

/// What a request asks for when it goes on at an offset.
pub open spec fn range_text(offset: u64) -> Seq<char> {
    "bytes="@ + text::decimal(offset as nat) + "-"@
}

/// What a request asks for when it goes on at an offset; at the start it asks for
/// everything.
pub fn range_header(offset: u64) -> (value: Option<String>)
    ensures
        match value {
            Some(range) => offset > 0 && range@ == range_text(offset),
            None => offset == 0,
        },
{
    if offset == 0 {
        return None;
    }
    let mut range = "bytes=".to_owned();
    text::push_decimal(&mut range, offset);
    text::push_text(&mut range, "-");
    Some(range)
}

/// What follows an answer.
pub enum ResponseStep {
    /// The offset was refused: remove the partial file and ask for everything.
    Restart,
    /// The download has failed.
    Fail { message: Message },
    /// Write the body from an offset on. Where that is the start, although the
    /// download was gone on with, what was shown is taken back.
    Write { start_offset: u64, reset_progress: bool },
}

/// What follows an answer. An offset that the server refuses is given up once. A
/// server that sends everything is taken at its word.
pub fn after_response(
    resume_offset: u64,
    status: u16,
    status_text: &str,
    restarted: bool,
) -> (step: ResponseStep)
    ensures
        match step {
            ResponseStep::Restart => resume_offset > 0 && status == 416 && !restarted,
            ResponseStep::Fail { message } => !(resume_offset > 0 && status == 416 && !restarted)
                && !(200 <= status <= 299) && message.context@ == "Download error: "@
                && message.detail@ == "HTTP error "@ + status_text@,
            ResponseStep::Write { start_offset, reset_progress } => {
                &&& 200 <= status <= 299
                &&& start_offset == (if status == 206 {
                    resume_offset
                } else {
                    0
                })
                &&& reset_progress == (resume_offset > 0 && status != 206 && !restarted)
            },
        },
{
    if resume_offset > 0 && status == 416 && !restarted {
        return ResponseStep::Restart;
    }
    if status < 200 || status > 299 {
        let mut detail = "HTTP error ".to_owned();
        text::push_text(&mut detail, status_text);
        return ResponseStep::Fail { message: Message::new("Download error: ", detail) };
    }
    let resumes = resume_offset > 0 && status == 206;
    ResponseStep::Write {
        start_offset: if resumes {
            resume_offset
        } else {
            0
        },
        reset_progress: resume_offset > 0 && !resumes && !restarted,
    }
}

/// When progress is shown.
#[derive(Clone, Copy, PartialEq, Eq, Structural, Debug)]
pub struct ProgressMeter {
    pub last_bytes: u64,
    pub last_at: u64,
    pub threshold: u64,
}

impl ProgressMeter {
    pub fn new(start_offset: u64, progress_buffer_bytes: u64, now: u64) -> (meter: ProgressMeter)
        ensures
            meter.last_bytes == start_offset,
            meter.last_at == now,
            meter.threshold == (if progress_buffer_bytes > 1 {
                progress_buffer_bytes
            } else {
                1
            }),
    {
        ProgressMeter {
            last_bytes: start_offset,
            last_at: now,
            threshold: if progress_buffer_bytes > 1 {
                progress_buffer_bytes
            } else {
                1
            },
        }
    }

    /// Whether so many bytes are shown at a time: enough have come since progress
    /// was last shown, or enough time has passed.
    pub open spec fn is_due(&self, written: u64, now: u64) -> bool {
        written - self.last_bytes >= self.threshold || now - self.last_at >= PROGRESS_EMIT_INTERVAL
    }

    /// Notes that so many bytes have come. Says whether that is shown.
    pub fn advance(&mut self, written: u64, now: u64) -> (show: bool)
        requires
            old(self).threshold > 0,
        ensures
            show == old(self).is_due(written, now),
            *final(self) == (if show {
                ProgressMeter { last_bytes: written, last_at: now, ..*old(self) }
            } else {
                *old(self)
            }),
    {
        let due = written.saturating_sub(self.last_bytes) >= self.threshold || now.saturating_sub(
            self.last_at,
        ) >= PROGRESS_EMIT_INTERVAL;
        if due {
            self.last_bytes = written;
            self.last_at = now;
        }
        due
    }

    /// Whether the last bytes are still to be shown.
    pub fn finish(&self, total_written: u64) -> (show: bool)
        ensures
            show == (total_written > self.last_bytes),
    {
        total_written > self.last_bytes
    }
}

/// What is wrong with a download: its size, or else its digest.
pub open spec fn download_fault(
    url: Seq<char>,
    expected_size: Option<u64>,
    total_written: u64,
    expected_md5: Seq<char>,
    actual_md5: Seq<char>,
) -> Option<Seq<char>> {
    if expected_size is Some && expected_size->0 != total_written {
        Some(
            "Downloaded size mismatch for "@ + url + ": expected "@ + text::decimal(
                expected_size->0 as nat,
            ) + ", got "@ + text::decimal(total_written as nat),
        )
    } else if text::lowered(actual_md5) != text::lowered(expected_md5) {
        Some("MD5 mismatch: expected "@ + expected_md5 + ", got "@ + actual_md5)
    } else {
        None
    }
}

/// Whether a download is what was wanted.
pub fn check_download(
    url: &str,
    expected_size: Option<u64>,
    total_written: u64,
    expected_md5: &str,
    actual_md5: &str,
) -> (result: Result<(), Message>)
    ensures
        match result {
            Ok(()) => download_fault(
                url@,
                expected_size,
                total_written,
                expected_md5@,
                actual_md5@,
            ) is None,
            Err(message) => message.context@ == "Download error: "@ && download_fault(
                url@,
                expected_size,
                total_written,
                expected_md5@,
                actual_md5@,
            ) == Some(message.detail@),
        },
        result is Ok <==> text::lowered(actual_md5@) == text::lowered(expected_md5@) && (
        expected_size is Some ==> expected_size->0 == total_written),
{
    if let Some(expected) = expected_size {
        if expected != total_written {
            let mut detail = "Downloaded size mismatch for ".to_owned();
            text::push_text(&mut detail, url);
            text::push_text(&mut detail, ": expected ");
            text::push_decimal(&mut detail, expected);
            text::push_text(&mut detail, ", got ");
            text::push_decimal(&mut detail, total_written);
            return Err(Message::new("Download error: ", detail));
        }
    }
    if !text::same_ignoring_case(actual_md5, expected_md5) {
        let mut detail = "MD5 mismatch: expected ".to_owned();
        text::push_text(&mut detail, expected_md5);
        text::push_text(&mut detail, ", got ");
        text::push_text(&mut detail, actual_md5);
        return Err(Message::new("Download error: ", detail));
    }
    Ok(())
}

/// The body of an answer as it is written: its bytes are digested and counted, and
/// shown now and then.
pub struct DownloadBody {
    digest: RunningDigest,
    written: u64,
    meter: ProgressMeter,
}

/// Bytes that are written, counted.
pub open spec fn written_after(written: u64, more: nat) -> u64 {
    digest::counted(written as nat + more)
}

impl DownloadBody {
    /// The bytes of the file that were digested.
    pub closed spec fn bytes(&self) -> Seq<u8> {
        self.digest@
    }

    /// Where the next byte is written.
    pub closed spec fn offset(&self) -> u64 {
        self.written
    }

    /// When progress is shown.
    pub closed spec fn shown(&self) -> ProgressMeter {
        self.meter
    }

    pub open spec fn wf(&self) -> bool {
        self.shown().threshold > 0
    }

    /// Begins to write a body at an offset. Where the download is gone on with,
    /// the digest of the partial file is gone on with too; else both start anew.
    pub fn begin(
        prepared: RunningDigest,
        start_offset: u64,
        progress_buffer_bytes: u64,
        now: u64,
    ) -> (body: DownloadBody)
        ensures
            body.wf(),
            body.bytes() == (if start_offset > 0 {
                prepared@
            } else {
                Seq::<u8>::empty()
            }),
            body.offset() == start_offset,
            body.shown().last_bytes == start_offset,
            body.shown().last_at == now,
            body.shown().threshold == (if progress_buffer_bytes > 1 {
                progress_buffer_bytes
            } else {
                1
            }),
    {
        let digest = if start_offset > 0 {
            prepared
        } else {
            RunningDigest::new()
        };
        let meter = ProgressMeter::new(start_offset, progress_buffer_bytes, now);
        DownloadBody { digest, written: start_offset, meter }
    }

    /// Takes in the next bytes. Says how much has been written, where that is
    /// shown.
    pub fn take(&mut self, bytes: &[u8], now: u64) -> (show: Option<u64>)
        requires
            old(self).wf(),
        ensures
            final(self).wf(),
            final(self).bytes() == old(self).bytes() + bytes@,
            final(self).offset() == written_after(old(self).offset(), bytes@.len()),
            show == (if old(self).shown().is_due(final(self).offset(), now) {
                Some(final(self).offset())
            } else {
                None
            }),
            final(self).shown() == (if show is Some {
                ProgressMeter {
                    last_bytes: final(self).offset(),
                    last_at: now,
                    ..old(self).shown()
                }
            } else {
                old(self).shown()
            }),
    {
        self.digest.update(bytes);
        self.written = self.written.saturating_add(bytes.len() as u64);
        if self.meter.advance(self.written, now) {
            Some(self.written)
        } else {
            None
        }
    }

    /// How much was written, where that is still to be shown.
    pub fn last_progress(&self) -> (show: Option<u64>)
        ensures
            show == (if self.offset() > self.shown().last_bytes {
                Some(self.offset())
            } else {
                None
            }),
    {
        if self.meter.finish(self.written) {
            Some(self.written)
        } else {
            None
        }
    }

    /// Ends the download: it is what was wanted if and only if it has the size and
    /// the digest that were wanted.
    pub fn finish(self, url: &str, expected_size: Option<u64>, expected_md5: &str) -> (result: Result<
        CopiedFileDigest,
        Message,
    >)
        ensures
            ({
                let fault = download_fault(
                    url@,
                    expected_size,
                    self.offset(),
                    expected_md5@,
                    digest::md5_text(self.bytes()),
                );
                match result {
                    Ok(done) => fault is None && done.bytes == self.offset() && done.md5@
                        == digest::md5_text(self.bytes()),
                    Err(message) => message.context@ == "Download error: "@ && fault == Some(
                        message.detail@,
                    ),
                }
            }),
            result is Ok <==> text::lowered(digest::md5_text(self.bytes())) == text::lowered(
                expected_md5@,
            ) && (expected_size is Some ==> expected_size->0 == self.offset()),
    {
        let written = self.written;
        let actual = self.digest.finish();
        match check_download(url, expected_size, written, expected_md5, actual.as_str()) {
            Ok(()) => Ok(CopiedFileDigest { bytes: written, md5: actual }),
            Err(message) => Err(message),
        }
    }
}

/// A download is accepted if and only if its digest is the one that was wanted,
/// in small or in capital letters, and its size is, where one was wanted.
pub proof fn law_download_is_accepted_only_if_right(
    url: Seq<char>,
    expected_size: Option<u64>,
    total_written: u64,
    expected_md5: Seq<char>,
    actual_md5: Seq<char>,
)
    ensures
        download_fault(url, expected_size, total_written, expected_md5, actual_md5) is None <==> (
        text::lowered(actual_md5) == text::lowered(expected_md5) && (expected_size is None
            || expected_size == Some(total_written))),
{
}

/// A corrupt download is refused with both digests in the complaint, whatever
/// size was wanted; one of the wrong size with both sizes.
pub proof fn law_refused_download_names_what_came(
    url: Seq<char>,
    expected_size: Option<u64>,
    total_written: u64,
    expected_md5: Seq<char>,
    actual_md5: Seq<char>,
)
    ensures
        (expected_size matches Some(size) && size != total_written) ==> (download_fault(
            url,
            expected_size,
            total_written,
            expected_md5,
            actual_md5,
        ) matches Some(fault) && exists|lead: Seq<char>| #[trigger]
            (lead + text::decimal(expected_size->0 as nat) + ", got "@ + text::decimal(
                total_written as nat,
            )) == fault),
        !(expected_size matches Some(size) && size != total_written) && text::lowered(actual_md5)
            != text::lowered(expected_md5) ==> (download_fault(
            url,
            expected_size,
            total_written,
            expected_md5,
            actual_md5,
        ) matches Some(fault) && exists|lead: Seq<char>| #[trigger]
            (lead + expected_md5 + ", got "@ + actual_md5) == fault),
{
    let lead = "Downloaded size mismatch for "@ + url + ": expected "@;
    if expected_size matches Some(size) && size != total_written {
        assert(lead + text::decimal(expected_size->0 as nat) + ", got "@ + text::decimal(
            total_written as nat,
        ) == download_fault(url, expected_size, total_written, expected_md5, actual_md5)->0);
    } else if text::lowered(actual_md5) != text::lowered(expected_md5) {
        assert("MD5 mismatch: expected "@ + expected_md5 + ", got "@ + actual_md5
            == download_fault(url, expected_size, total_written, expected_md5, actual_md5)->0);
    }
}

/// A download that is gone on with is judged as one that was not interrupted: by
/// the size and the digest of the whole file.
pub proof fn law_resumed_download_is_judged_by_the_file(
    file: Seq<u8>,
    offset: u64,
    pieces: Seq<Seq<u8>>,
    url: Seq<char>,
    expected_size: Option<u64>,
    expected_md5: Seq<char>,
)
    requires
        offset <= file.len() <= u64::MAX,
        digest::joined(pieces) == file.skip(offset as int),
    ensures
        written_after(offset, digest::joined(pieces).len()) == file.len(),
        download_fault(
            url,
            expected_size,
            written_after(offset, digest::joined(pieces).len()),
            expected_md5,
            digest::md5_text(digest::fed_further(file.take(offset as int), pieces)),
        ) == download_fault(
            url,
            expected_size,
            file.len() as u64,
            expected_md5,
            digest::md5_text(file),
        ),
{
    digest::law_resumed_digest_is_that_of_the_file(file, offset as int, pieces);
}

/// A download that was verified and discarded.
#[derive(Clone, Copy, PartialEq, Eq, Structural, Debug)]
pub struct StreamingDownloadReport {
    /// The bytes that were verified.
    pub bytes: u64,
    /// Nanoseconds that the download and its verification took.
    pub elapsed: u64,
}

/// Where a download that is discarded is kept meanwhile.
pub open spec fn discarded_path(work_root: PathModel) -> PathModel {
    work_root.child("payload.bin"@)
}

/// Where a download that is discarded is kept meanwhile.
pub fn discarded_download_path(work_root: &FilePath) -> (path: FilePath)
    ensures
        path@ == discarded_path(work_root@),
{
    work_root.child("payload.bin")
}

/// What a download that is discarded ends in.
pub fn discard_report(result: Result<u64, Message>, started: u64, now: u64) -> (report: Result<
    StreamingDownloadReport,
    Message,
>)
    ensures
        match result {
            Ok(bytes) => report == Ok::<StreamingDownloadReport, Message>(
                StreamingDownloadReport {
                    bytes,
                    elapsed: if started <= now {
                        (now - started) as u64
                    } else {
                        0
                    },
                },
            ),
            Err(message) => report == Err::<StreamingDownloadReport, Message>(message),
        },
{
    match result {
        Ok(bytes) => Ok(StreamingDownloadReport { bytes, elapsed: now.saturating_sub(started) }),
        Err(message) => Err(message),
    }
}

/// A partial file is never gone on with beyond its end or the end of the file.
pub proof fn law_resume_stays_in_the_file(
    found: Option<FileFacts>,
    digest: Option<Seq<char>>,
    expected_md5: Seq<char>,
    expected_size: u64,
)
    ensures
        preparation(found, digest, expected_md5, Some(expected_size)) matches
            DownloadPreparation::Resume { resume, .. } ==> resume.offset == 0 || (resume.offset
            < expected_size && (found matches Some(facts) && resume.offset == facts.len)),
{
}

/// A partial file is put in place only if it has the size and the digest that
/// were wanted.
pub proof fn law_only_whole_files_are_done(
    found: Option<FileFacts>,
    digest: Option<Seq<char>>,
    expected_md5: Seq<char>,
    expected_size: Option<u64>,
)
    ensures
        preparation(found, digest, expected_md5, expected_size) is Done ==> (found matches Some(
            facts,
        ) && expected_size == Some(facts.len)) && digest is Some && text::lowered(digest->0)
            == text::lowered(expected_md5),
{
}

/// A partial file is used as far as it can be: it is put in place if and only if
/// it has the size and the digest that were wanted; it is given up if and only if
/// it is as long as the file or longer and is not the file; and any other is gone
/// on with where it ends.
pub proof fn law_partial_files_are_used(
    found: Option<FileFacts>,
    digest: Option<Seq<char>>,
    expected_md5: Seq<char>,
    expected_size: Option<u64>,
)
    ensures
        ({
            let whole = found is Some && expected_size == Some(found->0.len) && digest is Some
                && text::lowered(digest->0) == text::lowered(expected_md5);
            let useless = found is Some && expected_size is Some && found->0.len
                >= expected_size->0 && !whole;
            match preparation(found, digest, expected_md5, expected_size) {
                DownloadPreparation::Done { bytes } => whole && bytes == found->0.len,
                DownloadPreparation::Resume { resume, remove_partial } => {
                    &&& !whole
                    &&& remove_partial == useless
                    &&& resume.offset == (if found is Some && !useless {
                        found->0.len
                    } else {
                        0
                    })
                },
            }
        }),
{
}

/// What is shown of a download never goes back, and ends with all of it.
pub proof fn law_progress_rises(meter: ProgressMeter, written: u64, now: u64)
    requires
        meter.threshold > 0,
        meter.last_bytes <= written,
    ensures
        ({
            let after = if meter.is_due(written, now) {
                ProgressMeter { last_bytes: written, last_at: now, ..meter }
            } else {
                meter
            };
            meter.last_bytes <= after.last_bytes <= written
        }),
{
}

} // verus!
