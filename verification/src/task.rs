//! The units of work that the pool schedules.

use crate::graph::node::TaskDependencyToken;
use crate::patch::plan::PatchPlan;
use crate::path::{FilePath, PathModel};
use crate::text;
use std::sync::Arc;
use vstd::prelude::*;

verus! {

/// A range of bytes, from `start` up to `end`.
#[derive(Clone, Copy, PartialEq, Eq, Structural, Debug)]
pub struct ByteRange {
    pub start: u64,
    pub end: u64,
}

/// One volume of a remote archive.
pub struct ArchivePart {
    pub sequence: u64,
    pub url: String,
    pub dest: FilePath,
    pub logical_path: String,
    pub expected_md5: String,
    pub expected_size: u64,
}

/// A file that an archive is expected to bring: where it goes below the install,
/// its digest and its size.
pub struct ExpectedFile {
    pub path: FilePath,
    pub md5: String,
    pub size: u64,
}

/// The volumes of an archive.
pub enum ArchiveSource {
    Remote { parts: Vec<ArchivePart> },
    Local { volumes: Vec<FilePath> },
}

/// What becomes of the volumes of an archive once it is extracted.
#[derive(Clone, Copy, PartialEq, Eq, Structural, Debug)]
pub enum ArchiveRetention {
    KeepVolumes,
    DiscardVolumes,
}

/// Why a range of an archive is fetched.
#[derive(Clone, Copy, PartialEq, Eq, Structural, Debug)]
pub enum ArchiveRangePriority {
    ExtractionCritical,
    RetentionBackground,
}

/// The kind of file that is transferred.
#[derive(Clone, Copy, PartialEq, Eq, Structural, Debug)]
pub enum TransferClass {
    General,
    Vfs,
}

/// A range of one volume that is fetched into the range cache.
pub struct ArchiveRangeRequest {
    pub volume_index: usize,
    pub local_range: ByteRange,
    pub global_range: ByteRange,
    pub url: String,
    pub cache_path: FilePath,
}

/// An archive that is being worked on.
pub struct ArchiveWork {
    pub base_name: String,
    /// The volumes, in order.
    pub volumes: Vec<FilePath>,
    pub remote: bool,
    pub dest: FilePath,
    pub retention: ArchiveRetention,
    pub parts: Vec<ArchivePart>,
    pub password: Option<String>,
    pub work_dir: Option<FilePath>,
    /// The files that the archive is expected to bring, each under its path in
    /// small letters.
    pub expected_files: Arc<Vec<(String, ExpectedFile)>>,
    /// Paths, in small letters, that are not put in place.
    pub excluded_commit_paths: Vec<String>,
    /// For each volume, the token of the task that brings it.
    pub tokens: Vec<Option<TaskDependencyToken>>,
    /// The group of a repair session that this archive is read for.
    pub repair_group: Option<usize>,
}

/// The table of contents of an archive.
pub struct ArchiveIndex {
    pub names: Vec<String>,
    pub entry_sizes: Vec<u64>,
    pub control_indices: Vec<usize>,
    pub has_patch_manifest: bool,
}

/// Where an archive is unpacked, and what is put in place last.
pub struct PreparedArchive {
    pub staging_dir: FilePath,
    pub deferred_commit_paths: Vec<FilePath>,
    /// The plan of the patch that the archive holds.
    pub patch_plan: Option<Arc<PatchPlan>>,
}

/// Entries of an archive that are extracted together.
pub struct ArchiveShardTask {
    pub work: Arc<ArchiveWork>,
    pub archive_index: Arc<ArchiveIndex>,
    pub staging_dir: FilePath,
    pub entries: Vec<usize>,
    pub volume_indices: Vec<usize>,
    pub estimated_cost: u64,
    pub total_extract_bytes: u64,
    /// How many files all shards put in place, where this one does so itself.
    pub direct_commit: Option<usize>,
    /// The number of the shard, where ranges are released as shards finish.
    pub range_release: Option<usize>,
}

/// A file that is repaired out of an archive.
pub struct ArchiveFileRepairTask {
    pub work: Arc<ArchiveWork>,
    pub archive_index: Arc<ArchiveIndex>,
    pub staging_dir: FilePath,
    pub entry_index: usize,
    pub volume_indices: Vec<usize>,
    pub source_range: ByteRange,
    pub source_bytes: u64,
    pub dest: FilePath,
    pub logical_path: String,
    pub expected_md5: String,
    pub expected_size: u64,
    pub download_url: Option<String>,
    pub retry_count: u32,
    pub transfer_class: TransferClass,
}

/// How far a download that is resumed has come.
#[derive(Clone, Copy, PartialEq, Eq, Structural, Debug)]
pub struct DownloadResumeState {
    pub offset: u64,
}

impl DownloadResumeState {
    pub fn new(offset: u64) -> (state: DownloadResumeState)
        ensures
            state.offset == offset,
    {
        DownloadResumeState { offset }
    }

    /// What is left of a file of a size.
    pub open spec fn remaining(&self, expected_size: u64) -> u64 {
        if self.offset <= expected_size {
            (expected_size - self.offset) as u64
        } else {
            0
        }
    }

    /// What is left of a file of a size.
    pub fn remaining_bytes(&self, expected_size: u64) -> (bytes: u64)
        ensures
            bytes == self.remaining(expected_size),
    {
        expected_size.saturating_sub(self.offset)
    }
}

/// A file to bring to a destination, from wherever it can be had.
pub struct FileRepair {
    pub dest: FilePath,
    pub logical_path: String,
    pub expected_md5: String,
    pub expected_size: u64,
    pub download_url: Option<String>,
    pub allow_copy_fallback: bool,
    pub verify_destination_fallback: bool,
    pub retry_count: u32,
    pub transfer_class: TransferClass,
    /// The repair session that can find the file in an archive.
    pub archive_repair: Option<u64>,
}

/// A file to bring to a destination, in the mathematical model.
#[verifier::ext_equal]
pub struct RepairModel {
    pub dest: PathModel,
    pub logical_path: Seq<char>,
    pub expected_md5: Seq<char>,
    pub expected_size: u64,
    pub download_url: Option<Seq<char>>,
    pub allow_copy_fallback: bool,
    pub verify_destination_fallback: bool,
    pub retry_count: u32,
    pub transfer_class: TransferClass,
    pub archive_repair: Option<u64>,
}

impl View for FileRepair {
    type V = RepairModel;

    open spec fn view(&self) -> RepairModel {
        RepairModel {
            dest: self.dest@,
            logical_path: self.logical_path@,
            expected_md5: self.expected_md5@,
            expected_size: self.expected_size,
            download_url: text::optional(self.download_url),
            allow_copy_fallback: self.allow_copy_fallback,
            verify_destination_fallback: self.verify_destination_fallback,
            retry_count: self.retry_count,
            transfer_class: self.transfer_class,
            archive_repair: self.archive_repair,
        }
    }
}

fn copied_text(value: &Option<String>) -> (copy: Option<String>)
    ensures
        text::optional(copy) == text::optional(*value),
{
    match value {
        Some(inner) => Some(inner.clone()),
        None => None,
    }
}

impl FileRepair {
    pub fn copied(&self) -> (copy: FileRepair)
        ensures
            copy@ == self@,
    {
        FileRepair {
            dest: self.dest.copied(),
            logical_path: self.logical_path.clone(),
            expected_md5: self.expected_md5.clone(),
            expected_size: self.expected_size,
            download_url: copied_text(&self.download_url),
            allow_copy_fallback: self.allow_copy_fallback,
            verify_destination_fallback: self.verify_destination_fallback,
            retry_count: self.retry_count,
            transfer_class: self.transfer_class,
            archive_repair: self.archive_repair,
        }
    }
}

/// A file to download.
pub struct FileDownload {
    pub url: String,
    pub dest: FilePath,
    pub logical_path: String,
    pub expected_md5: String,
    pub expected_size: Option<u64>,
    pub retry_count: u32,
    pub transfer_class: TransferClass,
    /// The repair session that can find the file in an archive.
    pub archive_repair: Option<u64>,
}

/// A unit of work.
#[allow(inconsistent_fields)]
pub enum Task {
    FetchArchiveRange {
        work: Arc<ArchiveWork>,
        request: ArchiveRangeRequest,
        retry_count: u32,
        priority: ArchiveRangePriority,
    },
    FetchArchiveRepairFile { repair: ArchiveFileRepairTask },
    ExtractArchiveRepairFile { repair: ArchiveFileRepairTask },
    Verify {
        path: FilePath,
        logical_path: String,
        expected_md5: String,
        expected_size: Option<u64>,
        /// What repairs the file where it is not what it should be.
        on_fail: Option<Box<Task>>,
    },
    Download { download: FileDownload, resume: Option<DownloadResumeState> },
    RepairFile { repair: FileRepair, source_candidates: Vec<FilePath> },
    VerifyReuseVolume {
        copy_only: bool,
        candidates: Vec<FilePath>,
        logical_path: String,
        expected_md5: String,
        expected_size: u64,
        /// The group of candidates that this volume belongs to.
        group: u64,
    },
    ReuseFile {
        source: FilePath,
        copy_only: bool,
        remaining_source_candidates: Vec<FilePath>,
        repair: FileRepair,
    },
    OpenArchive {
        base_name: String,
        source: ArchiveSource,
        dest: FilePath,
        retention: ArchiveRetention,
        password: Option<String>,
        /// Where a patch is worked on, where that is not beside the install.
        work_dir: Option<FilePath>,
        expected_files: Arc<Vec<(String, ExpectedFile)>>,
        excluded_commit_paths: Vec<String>,
    },
    DiscoverArchiveDirectory { work: Arc<ArchiveWork>, required_range: Option<ByteRange> },
    InspectArchiveIndex {
        work: Arc<ArchiveWork>,
        central_directory: ByteRange,
        end_records: ByteRange,
    },
    ReadArchiveControls { work: Arc<ArchiveWork>, archive_index: Arc<ArchiveIndex> },
    ProbePatchArtifact { probe_index: usize, probe_path: Option<FilePath>, probe_size: u64 },
    MeasurePatchRelocation { root: Option<FilePath> },
    SavePatchPlan { work: Arc<ArchiveWork>, archive_index: Arc<ArchiveIndex> },
    ExtractArchiveShard { shard: ArchiveShardTask },
    RetainArchiveVolume { work: Arc<ArchiveWork>, volume_index: usize },
    FinishArchive { work: Arc<ArchiveWork> },
    PreparePatchApply { plan: Arc<PatchPlan> },
    ApplyPatchEntry { plan: Arc<PatchPlan>, entry_index: usize },
    ReleasePatchBase { plan: Arc<PatchPlan>, base: FilePath },
    ApplyPatchDeletes { plan: Arc<PatchPlan> },
    CommitPatchDeferred { plan: Arc<PatchPlan> },
    CleanPatchApply { plan: Arc<PatchPlan>, archive: Arc<ArchiveWork> },
    CleanupArchive { work: Arc<ArchiveWork> },
    ApplyExtractedVfsPatchManifest { install_root: FilePath },
    ApplyDeleteManifest { install_root: FilePath },
    Hardlink { src: FilePath, dest: FilePath },
}

} // verus!
