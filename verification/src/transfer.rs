//! Running downloads.

use crate::archive::fetch;
use crate::archive::work;
use crate::download::DownloadPreparation;
use crate::event::{ProgressPhase, WorkerEvent};
use crate::graph::expansion::TaskRun;
use crate::reuse;
use crate::reuse::ReuseEnd;
use crate::task::{ArchiveFileRepairTask, FileDownload, Task};
use crate::text;
use vstd::prelude::*;

verus! {

/// The download with one more attempt counted.
pub open spec fn again(download: FileDownload) -> FileDownload {
    FileDownload { retry_count: (download.retry_count + 1) as u32, ..download }
}

/// Whether a failed download ends as it should: it is tried again as long as
/// attempts are left.
pub open spec fn retries_or_fails(
    end: ReuseEnd,
    download: FileDownload,
    max_retries: u32,
    error: Seq<char>,
) -> bool {
    if download.retry_count < max_retries {
        &&& end.run == (TaskRun::Continue {
            task: Task::Download { download: again(download), resume: None },
        })
        &&& end.events@.len() == 1
        &&& fetch::is_retry(
            end.events@[0],
            download.logical_path@,
            fetch::attempt_text(
                "download attempt "@,
                (download.retry_count + 1) as nat,
                error,
            ),
        )
    } else {
        work::fails_with(end.run, "download failed after retries: "@ + error)
            && end.events@.len() == 0
    }
}

/// Ends a failed download.
pub fn retry_or_fail_download(download: FileDownload, max_retries: u32, error: &str) -> (end: ReuseEnd)
    ensures
        retries_or_fails(end, download, max_retries, error@),
{
    let mut events: Vec<WorkerEvent> = Vec::new();
    if download.retry_count < max_retries {
        let reason = fetch::attempt_reason(
            "download attempt ",
            download.retry_count as u64 + 1,
            error,
        );
        events.push(WorkerEvent::Retried { path: download.logical_path.clone(), reason });
        let mut download = download;
        download.retry_count = download.retry_count + 1;
        ReuseEnd {
            run: TaskRun::Continue { task: Task::Download { download, resume: None } },
            events,
        }
    } else {
        let mut reason = "download failed after retries: ".to_owned();
        text::push_text(&mut reason, error);
        ReuseEnd { run: TaskRun::failed(reason), events }
    }
}

/// Whether a download that is done is reported.
pub open spec fn is_done(end: ReuseEnd, path: Seq<char>, bytes: u64) -> bool {
    &&& end.run is Succeeded
    &&& end.events@.len() == 2
    &&& fetch::is_download(end.events@[0], path, bytes)
    &&& reuse::is_verified(end.events@[1], path)
}

fn done(path: String, bytes: u64) -> (end: ReuseEnd)
    ensures
        is_done(end, path@, bytes),
{
    let mut events: Vec<WorkerEvent> = Vec::new();
    events.push(WorkerEvent::downloaded(path.clone(), bytes));
    events.push(WorkerEvent::verified(path, true, None));
    ReuseEnd { run: TaskRun::succeeded(), events }
}

/// Whether the preparation of a download ends as it should: what is there already
/// is reported; else the transfer follows, beside what the repair out of archives
/// needs.
pub open spec fn prepared_ends(
    end: ReuseEnd,
    download: FileDownload,
    prepared: Result<DownloadPreparation, String>,
    prepare: Seq<Task>,
    max_retries: u32,
) -> bool {
    match prepared {
        Ok(DownloadPreparation::Done { bytes }) => is_done(end, download.logical_path@, bytes),
        Ok(DownloadPreparation::Resume { resume, .. }) => {
            let transfer = Task::Download { download, resume: Some(resume) };
            &&& end.events@.len() == 0
            &&& if prepare.len() == 0 {
                end.run == (TaskRun::Continue { task: transfer })
            } else {
                reuse::runs_all(end.run, prepare.push(transfer))
            }
        },
        Err(error) => retries_or_fails(end, download, max_retries, error@),
    }
}

/// Ends the preparation of a download.
pub fn run_prepare_download(
    download: FileDownload,
    prepared: Result<DownloadPreparation, String>,
    prepare: Vec<Task>,
    max_retries: u32,
) -> (end: ReuseEnd)
    ensures
        prepared_ends(end, download, prepared, prepare@, max_retries),
{
    match prepared {
        Ok(preparation) => match preparation {
            DownloadPreparation::Done { bytes } => done(download.logical_path, bytes),
            DownloadPreparation::Resume { resume, .. } => {
                let transfer = Task::Download { download, resume: Some(resume) };
                if prepare.len() == 0 {
                    return ReuseEnd {
                        run: TaskRun::Continue { task: transfer },
                        events: Vec::new(),
                    };
                }
                let mut tasks = prepare;
                tasks.push(transfer);
                ReuseEnd { run: reuse::run_all(tasks), events: Vec::new() }
            },
        },
        Err(error) => retry_or_fail_download(download, max_retries, error.as_str()),
    }
}

/// How a transfer is getting on.
#[derive(Clone, Copy, PartialEq, Eq, Structural, Debug)]
pub enum DownloadProgress {
    /// It starts.
    Started,
    /// So many bytes are there.
    Advanced { bytes: u64 },
    /// It starts over from so many bytes.
    Reset { bytes: u64 },
}

/// Reports how a transfer is getting on.
pub fn transfer_progress(download: &FileDownload, progress: DownloadProgress) -> (event: WorkerEvent)
    ensures
        event matches WorkerEvent::Progress { phase, path, completed, total, reset } && phase
            is Download && path@ == download.logical_path@ && (match progress {
            DownloadProgress::Started => completed == 0 && !reset && total == (
            match download.expected_size {
                Some(size) => size,
                None => 0,
            }),
            DownloadProgress::Advanced { bytes } => completed == bytes && !reset && total == (
            match download.expected_size {
                Some(size) => size,
                None => bytes,
            }),
            DownloadProgress::Reset { bytes } => completed == bytes && reset && total == 0,
        }),
{
    let path = download.logical_path.clone();
    match progress {
        DownloadProgress::Started => {
            let total: u64 = match download.expected_size {
                Some(size) => size,
                None => 0,
            };
            WorkerEvent::progress(ProgressPhase::Download, path, 0, total, false)
        },
        DownloadProgress::Advanced { bytes } => {
            let total: u64 = match download.expected_size {
                Some(size) => size,
                None => bytes,
            };
            WorkerEvent::progress(ProgressPhase::Download, path, bytes, total, false)
        },
        DownloadProgress::Reset { bytes } => WorkerEvent::progress(
            ProgressPhase::Download,
            path,
            bytes,
            0,
            true,
        ),
    }
}

/// How many bytes a transfer still has to bring, where that decides whether the
/// file is repaired out of an archive instead.
pub fn direct_bytes(download: &FileDownload, resume: &crate::task::DownloadResumeState) -> (bytes: Option<
    u64,
>)
    ensures
        bytes == (if download.archive_repair is Some && download.expected_size is Some {
            Some(resume.remaining(download.expected_size->0))
        } else {
            None
        }),
{
    match (download.archive_repair, download.expected_size) {
        (Some(_), Some(size)) => Some(resume.remaining_bytes(size)),
        _ => None,
    }
}

/// Whether a transfer ends as it should. One that failed is tried again without
/// the archives.
pub open spec fn transfer_ends(
    end: ReuseEnd,
    download: FileDownload,
    selected: Option<ArchiveFileRepairTask>,
    result: Result<u64, String>,
    max_retries: u32,
) -> bool {
    match selected {
        Some(repair) => end.run == (TaskRun::Continue {
            task: Task::FetchArchiveRepairFile { repair },
        }) && end.events@.len() == 0,
        None => match result {
            Ok(bytes) => is_done(end, download.logical_path@, bytes),
            Err(error) => retries_or_fails(
                end,
                FileDownload { archive_repair: None, ..download },
                max_retries,
                error@,
            ),
        },
    }
}

/// Ends a transfer, or gives it up for a repair out of an archive.
pub fn run_transfer_download(
    download: FileDownload,
    selected: Option<ArchiveFileRepairTask>,
    result: Result<u64, String>,
    max_retries: u32,
) -> (end: ReuseEnd)
    ensures
        transfer_ends(end, download, selected, result, max_retries),
{
    if let Some(repair) = selected {
        return ReuseEnd {
            run: TaskRun::Continue { task: Task::FetchArchiveRepairFile { repair } },
            events: Vec::new(),
        };
    }
    match result {
        Ok(bytes) => done(download.logical_path, bytes),
        Err(error) => {
            let mut download = download;
            download.archive_repair = None;
            retry_or_fail_download(download, max_retries, error.as_str())
        },
    }
}

/// Downloading ends: each further attempt counts one up, and none follows the
/// last.
pub proof fn law_download_attempts_end(
    end: ReuseEnd,
    download: FileDownload,
    max_retries: u32,
    error: Seq<char>,
)
    requires
        retries_or_fails(end, download, max_retries, error),
    ensures
        end.run is Continue <==> download.retry_count < max_retries,
        end.run is Continue ==> (end.run->task matches Task::Download { download: next, .. }
            && next.retry_count == download.retry_count + 1 && next.retry_count <= max_retries),
{
}

} // verus!
