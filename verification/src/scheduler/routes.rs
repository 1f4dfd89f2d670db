//! What each task needs of the machine.

use crate::files;
use crate::patch::plan;
use crate::patch::plan::{
    PatchPlan, PlannedPatchEntry, PlannedPatchSource, PATCH_MANIFEST_NAME, PATCH_STAGE_DIR,
};
use crate::patch::steps;
use crate::path;
use crate::path::{FilePath, PathModel};
use crate::path_safety;
use crate::scheduler::request::{NetworkClass, RunClass};
use crate::scheduler::routing::{DiskFacts, Needs};
use crate::task::{
    ArchiveFileRepairTask, ArchivePart, ArchiveRangePriority, ArchiveRangeRequest, ArchiveShardTask,
    ArchiveSource, ArchiveWork, DownloadResumeState, FileDownload, FileRepair, PreparedArchive,
    Task, TransferClass,
};
use crate::text;
use vstd::prelude::*;

verus! {

/// A file of an extracted patch manifest: its name and its size.
pub struct ManifestFile {
    pub name: String,
    pub size: u64,
}

/// What is known of an extracted patch manifest.
pub struct ManifestFacts {
    pub vfs_base_path: String,
    pub files: Vec<ManifestFile>,
}

/// What is known besides the task when it is routed.
pub struct RouteFacts {
    pub disk: DiskFacts,
    /// The archive volumes that the task reads.
    pub volume_indices: Vec<usize>,
    /// The ranges that a repair still has to fetch.
    pub missing_ranges: Vec<ArchiveRangeRequest>,
    /// How the archive of the task was prepared.
    pub prepared: Option<PreparedArchive>,
    /// Whether every range of the archive volume of the task is there.
    pub full_volume_ready: bool,
    /// The size of the virtual file system where it lies in the install and
    /// has to move.
    pub relocation_bytes: Option<u64>,
    /// The staged files of the patch, with their sizes.
    pub staged_files: Vec<(FilePath, u64)>,
    /// The extracted patch manifest, where it can be read.
    pub manifest: Option<ManifestFacts>,
}

impl RouteFacts {
    /// Nothing is known.
    pub fn new() -> (facts: RouteFacts)
        ensures
            facts.disk.volumes@.len() == 0,
            facts.disk.lengths@.len() == 0,
            facts.volume_indices@.len() == 0,
            facts.missing_ranges@.len() == 0,
            facts.prepared is None,
            !facts.full_volume_ready,
            facts.relocation_bytes is None,
            facts.staged_files@.len() == 0,
            facts.manifest is None,
    {
        RouteFacts {
            disk: DiskFacts::new(),
            volume_indices: Vec::new(),
            missing_ranges: Vec::new(),
            prepared: None,
            full_volume_ready: false,
            relocation_bytes: None,
            staged_files: Vec::new(),
            manifest: None,
        }
    }
}

/// The smaller of two sizes.
pub open spec fn least(a: u64, b: u64) -> u64 {
    if a <= b {
        a
    } else {
        b
    }
}

/// What is left to write of a file of a size.
pub open spec fn left_to_write(length: u64, expected: u64) -> u64 {
    (expected - least(length, expected)) as u64
}

/// The file that a range is fetched into.
pub open spec fn range_part(range: ArchiveRangeRequest) -> PathModel {
    range.cache_path@.with_extension("range.part"@)
}

/// How many bytes a range holds.
pub open spec fn range_bytes(range: ArchiveRangeRequest) -> u64 {
    (range.local_range.end - range.local_range.start) as u64
}

/// Whether a range ends no earlier than it starts.
pub open spec fn proper(range: ArchiveRangeRequest) -> bool {
    range.local_range.start <= range.local_range.end
}

/// Fetches a range into the cache as well.
pub open spec fn with_range(needs: Needs, facts: DiskFacts, range: ArchiveRangeRequest) -> Needs {
    let part = range_part(range);
    needs.writing(facts.volume(part)).changing(part).changing(range.cache_path@).reserving(
        facts,
        part,
        left_to_write(facts.length(part), range_bytes(range)),
    )
}

/// Fetches the first `k` ranges into the cache as well.
pub open spec fn with_ranges(
    needs: Needs,
    facts: DiskFacts,
    ranges: Seq<ArchiveRangeRequest>,
    k: int,
) -> Needs
    decreases k,
{
    if k <= 0 {
        needs
    } else {
        with_range(with_ranges(needs, facts, ranges, k - 1), facts, ranges[k - 1])
    }
}

/// Reads the volumes of an archive as well, for the first `k` indices.
pub open spec fn with_volumes(
    needs: Needs,
    facts: DiskFacts,
    volumes: Seq<FilePath>,
    indices: Seq<usize>,
    k: int,
) -> Needs
    decreases k,
{
    if k <= 0 {
        needs
    } else {
        let rest = with_volumes(needs, facts, volumes, indices, k - 1);
        if indices[k - 1] < volumes.len() {
            rest.reading(facts.volume(volumes[indices[k - 1] as int]@))
        } else {
            rest
        }
    }
}

/// Inspects the first `k` parts of a remote archive as well.
pub open spec fn with_parts(needs: Needs, facts: DiskFacts, parts: Seq<ArchivePart>, k: int) -> Needs
    decreases k,
{
    if k <= 0 {
        needs
    } else {
        let volume = facts.volume(parts[k - 1].dest@);
        with_parts(needs, facts, parts, k - 1).reading(volume).touching(volume).changing(
            parts[k - 1].dest@,
        )
    }
}

/// Inspects the first `k` volumes of a local archive as well.
pub open spec fn with_local_volumes(
    needs: Needs,
    facts: DiskFacts,
    volumes: Seq<FilePath>,
    k: int,
) -> Needs
    decreases k,
{
    if k <= 0 {
        needs
    } else {
        let volume = facts.volume(volumes[k - 1]@);
        with_local_volumes(needs, facts, volumes, k - 1).reading(volume).touching(volume)
    }
}

/// Where the staging of an archive goes.
pub open spec fn staging_parent(work: ArchiveWork) -> PathModel {
    match work.work_dir {
        Some(dir) => dir@,
        None => match work.dest@.parent() {
            Some(dir) => dir,
            None => work.dest@,
        },
    }
}

/// Whether an entry of an archive is a directory.
pub open spec fn is_directory(name: Seq<char>) -> bool {
    name.len() > 0 && name.last() == '/'
}

/// Where an entry of a shard is put in place.
pub open spec fn shard_target(shard: ArchiveShardTask, index: usize) -> PathModel {
    shard.work.dest@.join(
        path_safety::safe_relative_path(shard.archive_index.names@[index as int]@)->Ok_0,
    )
}

/// Whether the entries of a shard are in the table of contents, and their
/// names stay below the destination.
pub open spec fn proper_shard(shard: ArchiveShardTask) -> bool {
    forall|k: int|
        0 <= k < shard.entries@.len() ==> proper_entry(shard, #[trigger] shard.entries@[k])
}

pub open spec fn proper_entry(shard: ArchiveShardTask, index: usize) -> bool {
    &&& index < shard.archive_index.names@.len()
    &&& index < shard.archive_index.entry_sizes@.len()
    &&& is_directory(shard.archive_index.names@[index as int]@) || path_safety::safe_relative_path(
        shard.archive_index.names@[index as int]@,
    ) is Ok
}

/// Puts an extracted file in place from a staging volume as well.
pub open spec fn with_commit(needs: Needs, facts: DiskFacts, staging: Seq<char>, target: PathModel) -> Needs {
    let volume = facts.volume(target);
    let moved = if staging != volume {
        needs.reading(staging).reading(volume).writing(volume)
    } else {
        needs.touching(volume)
    };
    moved.committing(volume, staging != volume).changing(target)
}

/// Puts the first `k` entries of a shard in place as well.
pub open spec fn with_entries(needs: Needs, facts: DiskFacts, shard: ArchiveShardTask, k: int) -> Needs
    decreases k,
{
    if k <= 0 {
        needs
    } else {
        let rest = with_entries(needs, facts, shard, k - 1);
        let index = shard.entries@[k - 1];
        if is_directory(shard.archive_index.names@[index as int]@) {
            rest
        } else {
            let target = shard_target(shard, index);
            with_commit(
                rest.reserving(facts, target, shard.archive_index.entry_sizes@[index as int]),
                facts,
                facts.volume(shard.staging_dir@),
                target,
            )
        }
    }
}

/// Whether one of the first `k` entries takes room on the staging volume.
pub open spec fn covers_staging(facts: DiskFacts, shard: ArchiveShardTask, k: int) -> bool
    decreases k,
{
    if k <= 0 {
        false
    } else {
        let index = shard.entries@[k - 1];
        covers_staging(facts, shard, k - 1) || (!is_directory(
            shard.archive_index.names@[index as int]@,
        ) && shard.archive_index.entry_sizes@[index as int] > 0 && facts.volume(
            shard_target(shard, index),
        ) == facts.volume(shard.staging_dir@))
    }
}

/// The largest of the first `k` entries.
pub open spec fn peak_bytes(shard: ArchiveShardTask, k: int) -> u64
    decreases k,
{
    if k <= 0 {
        0
    } else {
        let rest = peak_bytes(shard, k - 1);
        let size = shard.archive_index.entry_sizes@[shard.entries@[k - 1] as int];
        if size > rest {
            size
        } else {
            rest
        }
    }
}

/// The sizes of the first `k` entries, up to what a number holds.
pub open spec fn staged_bytes(shard: ArchiveShardTask, k: int) -> u64
    decreases k,
{
    if k <= 0 {
        0
    } else {
        capped_sum(
            staged_bytes(shard, k - 1),
            shard.archive_index.entry_sizes@[shard.entries@[k - 1] as int],
        )
    }
}

/// A sum, up to what a number holds.
pub open spec fn capped_sum(a: u64, b: u64) -> u64 {
    if a + b <= u64::MAX {
        (a + b) as u64
    } else {
        u64::MAX
    }
}

/// Extracts a shard. Files that are put in place at once take room where they
/// go, and room for one of them at a time in the staging directory; others
/// take room there all together.
pub open spec fn shard_needs(needs: Needs, facts: RouteFacts, shard: ArchiveShardTask) -> Needs {
    let disk = facts.disk;
    let n = shard.entries@.len() as int;
    let staged = with_volumes(
        needs,
        disk,
        shard.work.volumes@,
        shard.volume_indices@,
        shard.volume_indices@.len() as int,
    ).writing(disk.volume(shard.staging_dir@));
    let placed = if shard.direct_commit is Some {
        let committed = with_entries(staged, disk, shard, n);
        if covers_staging(disk, shard, n) {
            committed
        } else {
            committed.reserving(disk, shard.staging_dir@, peak_bytes(shard, n))
        }
    } else {
        staged.reserving(disk, shard.staging_dir@, staged_bytes(shard, n))
    };
    Needs { extract: true, ..placed }
}

/// Puts the first `k` deferred files of an archive in place as well.
pub open spec fn with_deferred(
    needs: Needs,
    facts: DiskFacts,
    dest: PathModel,
    staging_dir: PathModel,
    deferred: Seq<FilePath>,
    k: int,
) -> Needs
    decreases k,
{
    if k <= 0 {
        needs
    } else {
        let rest = with_deferred(needs, facts, dest, staging_dir, deferred, k - 1);
        let relative = deferred[k - 1]@;
        let target = dest.join(relative);
        let staging = facts.volume(staging_dir);
        let reserved = if staging != facts.volume(target) {
            rest.reserving(facts, target, facts.length(staging_dir.join(relative)))
        } else {
            rest
        };
        with_commit(reserved, facts, staging, target)
    }
}

/// Moves the staged files of a patch as well, where they change volumes.
pub open spec fn with_staged(
    needs: Needs,
    facts: DiskFacts,
    moves: Seq<steps::CommitModel>,
    k: int,
) -> Needs
    decreases k,
{
    if k <= 0 {
        needs
    } else {
        let rest = with_staged(needs, facts, moves, k - 1);
        if facts.volume(moves[k - 1].source) != facts.volume(moves[k - 1].target) {
            rest.reserving(facts, moves[k - 1].target, moves[k - 1].bytes)
        } else {
            rest
        }
    }
}

/// Starts a patch.
pub open spec fn prepare_patch_needs(needs: Needs, facts: RouteFacts, plan: PatchPlan) -> Needs {
    let disk = facts.disk;
    let base = needs.reading(disk.volume(plan.stage_root@)).writing(
        disk.volume(plan.install_root@),
    ).writing(disk.volume(plan.vfs_destination@));
    let worked = match plan.work_dir {
        Some(dir) => base.writing(disk.volume(dir@)),
        None => base,
    };
    let changed = worked.changing(plan.install_root@).changing(plan.stage_root@).changing(
        plan.vfs_destination@,
    );
    let moved = if disk.volume(plan.vfs_root()) != disk.volume(plan.vfs_destination@)
        && facts.relocation_bytes is Some {
        changed.reserving(disk, plan.vfs_destination@, facts.relocation_bytes->0)
    } else {
        changed
    };
    let moves = steps::top_level(plan, facts.staged_files@, facts.staged_files@.len() as int);
    with_staged(moved, disk, moves, moves.len() as int)
}

/// Applies an entry of a patch.
pub open spec fn patch_entry_needs(
    needs: Needs,
    facts: DiskFacts,
    plan: PatchPlan,
    entry: PlannedPatchEntry,
) -> Needs {
    let target = entry.destination@;
    let done = match entry.source {
        PlannedPatchSource::AlreadyPresent => needs.reading(facts.volume(target)),
        PlannedPatchSource::Local { payload } => {
            let source = plan.stage_root@.join(payload@);
            let moved = needs.reading(facts.volume(source)).writing(facts.volume(target)).changing(
                source,
            );
            if facts.volume(source) != facts.volume(target) {
                moved.reserving(facts, target, entry.expected_size)
            } else {
                moved
            }
        },
        PlannedPatchSource::Hdiff { base, payload, .. } => {
            let with = plan.stage_root@.join(payload@);
            let patched = needs.reading(facts.volume(base@)).reading(facts.volume(with)).changing(
                with,
            ).writing(facts.volume(target));
            let worked = match plan.work_dir {
                Some(dir) => patched.writing(facts.volume(dir@)).reserving(
                    facts,
                    dir@,
                    entry.expected_size,
                ),
                None => patched,
            };
            worked.reserving(facts, target, entry.expected_size)
        },
    };
    done.changing(target)
}

/// Removes the first `k` paths that a patch deletes as well.
pub open spec fn with_deletes(needs: Needs, facts: DiskFacts, plan: PatchPlan, k: int) -> Needs
    decreases k,
{
    if k <= 0 {
        needs
    } else {
        let path = plan.physical(plan.delete_paths@[k - 1]@);
        with_deletes(needs, facts, plan, k - 1).touching(facts.volume(path)).changing(path)
    }
}

/// Puts the first `k` deferred files of a patch in place as well.
pub open spec fn with_patch_deferred(needs: Needs, facts: DiskFacts, plan: PatchPlan, k: int) -> Needs
    decreases k,
{
    if k <= 0 {
        needs
    } else {
        let rest = with_patch_deferred(needs, facts, plan, k - 1);
        let relative = plan.deferred_paths@[k - 1]@;
        let source = plan::deferred_path(plan.install_root@, relative);
        let target = plan.install_root@.join(relative);
        let moved = rest.reading(facts.volume(source)).changing(source).writing(
            facts.volume(target),
        );
        let reserved = if facts.volume(source) != facts.volume(target) {
            moved.reserving(facts, target, facts.length(source))
        } else {
            moved
        };
        reserved.changing(target)
    }
}

/// Brings the first `k` files of an extracted patch manifest up to date as
/// well. Files whose names leave the destination are passed over.
pub open spec fn with_manifest_files(
    needs: Needs,
    facts: DiskFacts,
    root: PathModel,
    files: Seq<ManifestFile>,
    k: int,
) -> Needs
    decreases k,
{
    if k <= 0 {
        needs
    } else {
        let rest = with_manifest_files(needs, facts, root, files, k - 1);
        match path_safety::safe_relative_path(files[k - 1].name@) {
            Ok(relative) => {
                let target = root.join(relative);
                let volume = facts.volume(target);
                rest.reading(volume).writing(volume).changing(target).reserving(
                    facts,
                    target,
                    files[k - 1].size,
                )
            },
            Err(_) => rest,
        }
    }
}

/// Applies an extracted patch manifest.
pub open spec fn manifest_needs(needs: Needs, facts: RouteFacts, install_root: PathModel) -> Needs {
    let disk = facts.disk;
    let read = needs.reading(disk.volume(install_root.child(PATCH_MANIFEST_NAME@)));
    match facts.manifest {
        None => {
            let volume = disk.volume(install_root);
            read.reading(volume).writing(volume).changing(install_root)
        },
        Some(manifest) => match path_safety::safe_relative_path(
            text::trimmed(manifest.vfs_base_path@),
        ) {
            Err(_) => read.changing(install_root),
            Ok(base) => with_manifest_files(
                read.reading(disk.volume(install_root.child(PATCH_STAGE_DIR@))),
                disk,
                install_root.join(base),
                manifest.files@,
                manifest.files@.len() as int,
            ),
        },
    }
}

/// The kind of transfer of a download.
pub open spec fn transfer_network(class: TransferClass) -> NetworkClass {
    match class {
        TransferClass::General => NetworkClass::General,
        TransferClass::Vfs => NetworkClass::Vfs,
    }
}

/// Downloads a file: first what is there is inspected, then the rest is
/// transferred.
pub open spec fn download_needs(
    needs: Needs,
    facts: DiskFacts,
    download: FileDownload,
    resume: Option<DownloadResumeState>,
) -> Needs {
    let volume = facts.volume(download.dest@);
    match resume {
        None => needs.reading(volume).touching(volume).changing(download.dest@),
        Some(state) => {
            let sent = (Needs {
                network: Some(transfer_network(download.transfer_class)),
                ..needs
            }).writing(volume);
            let reserved = match download.expected_size {
                Some(size) => sent.reserving(facts, download.dest@, state.remaining(size)),
                None => sent,
            };
            let changed = reserved.changing(download.dest@);
            match files::neighbour(download.dest@, ".griffr.part"@) {
                Ok(part) => changed.changing(part),
                Err(_) => changed,
            }
        },
    }
}

/// Repairs a file out of an archive, once its ranges are there.
pub open spec fn repair_extract_needs(
    needs: Needs,
    facts: DiskFacts,
    repair: ArchiveFileRepairTask,
) -> Needs {
    let staging = facts.volume(repair.staging_dir@);
    let target = facts.volume(repair.dest@);
    let read = with_volumes(
        needs,
        facts,
        repair.work.volumes@,
        repair.volume_indices@,
        repair.volume_indices@.len() as int,
    ).writing(staging).writing(target).reserving(facts, repair.staging_dir@, repair.expected_size);
    let reserved = if staging != target {
        read.reserving(facts, repair.dest@, repair.expected_size)
    } else {
        read
    };
    Needs { extract: true, ..reserved.changing(repair.dest@) }
}

/// Retains a volume of an archive.
pub open spec fn retain_needs(
    needs: Needs,
    facts: RouteFacts,
    work: ArchiveWork,
    index: usize,
) -> Needs {
    let disk = facts.disk;
    let read = if index < work.volumes@.len() {
        let volume = disk.volume(work.volumes@[index as int]@);
        if facts.full_volume_ready {
            needs.reading(volume)
        } else {
            needs.touching(volume)
        }
    } else {
        needs
    };
    if facts.full_volume_ready && index < work.parts@.len() {
        let part = work.parts@[index as int];
        let volume = disk.volume(part.dest@);
        read.writing(volume).saving(volume).reserving(
            disk,
            part.dest@,
            part.expected_size,
        ).changing(part.dest@)
    } else {
        read
    }
}

/// Reuses a file that was found elsewhere.
pub open spec fn reuse_needs(
    needs: Needs,
    facts: DiskFacts,
    source: PathModel,
    copy_only: bool,
    repair: FileRepair,
) -> Needs {
    let volume = facts.volume(repair.dest@);
    if copy_only {
        needs.reading(facts.volume(source)).writing(volume).reserving(
            facts,
            repair.dest@,
            repair.expected_size,
        ).changing(repair.dest@)
    } else {
        Needs {
            reuse_commit: true,
            ..needs.reading(volume).touching(volume).changing(repair.dest@)
        }
    }
}

/// Puts the deferred files of an archive in place, where it holds no patch.
pub open spec fn finish_needs(needs: Needs, facts: RouteFacts, work: ArchiveWork) -> Needs {
    match facts.prepared {
        Some(prepared) => if prepared.patch_plan is None {
            with_deferred(
                needs.touching(facts.disk.volume(prepared.staging_dir@)).changing(
                    prepared.staging_dir@,
                ),
                facts.disk,
                work.dest@,
                prepared.staging_dir@,
                prepared.deferred_commit_paths@,
                prepared.deferred_commit_paths@.len() as int,
            )
        } else {
            needs
        },
        None => needs,
    }
}

/// Whether what a task says of itself holds together.
pub open spec fn routable(task: Task, facts: RouteFacts) -> bool {
    match task {
        Task::FetchArchiveRange { request, .. } => proper(request),
        Task::FetchArchiveRepairFile { .. } => forall|k: int|
            0 <= k < facts.missing_ranges@.len() ==> proper(#[trigger] facts.missing_ranges@[k]),
        Task::ExtractArchiveShard { shard } => proper_shard(shard),
        _ => true,
    }
}

/// The lane of a task.
pub open spec fn lane(task: Task) -> RunClass {
    match task {
        Task::Download { resume, .. } => if resume is Some {
            RunClass::AsyncIo
        } else {
            RunClass::Cpu
        },
        Task::ReuseFile { copy_only, .. } => if copy_only {
            RunClass::AsyncIo
        } else {
            RunClass::Cpu
        },
        Task::FetchArchiveRepairFile { .. } => RunClass::AsyncIo,
        Task::FetchArchiveRange { .. } => RunClass::AsyncIo,
        Task::ApplyDeleteManifest { .. } => RunClass::AsyncIo,
        Task::Hardlink { .. } => RunClass::AsyncIo,
        Task::Verify { .. } => RunClass::Cpu,
        Task::RepairFile { .. } => RunClass::Cpu,
        Task::VerifyReuseVolume { .. } => RunClass::Cpu,
        Task::ProbePatchArtifact { .. } => RunClass::Cpu,
        Task::ApplyPatchEntry { plan, entry_index } => if entry_index < plan.entries@.len()
            && plan.entries@[entry_index as int].source !is Local {
            RunClass::Cpu
        } else {
            RunClass::Blocking
        },
        _ => RunClass::Blocking,
    }
}

/// The sizes of the first `k` files that are there, up to what a number holds.
pub open spec fn present_bytes(facts: DiskFacts, paths: Seq<PathModel>, k: int) -> u64
    decreases k,
{
    if k <= 0 {
        0
    } else {
        capped_sum(present_bytes(facts, paths, k - 1), facts.length(paths[k - 1]))
    }
}

/// The destinations of parts.
pub open spec fn part_paths(parts: Seq<ArchivePart>) -> Seq<PathModel> {
    Seq::new(parts.len(), |i: int| parts[i].dest@)
}

/// How many bytes a task works on.
pub open spec fn estimated_bytes(task: Task, facts: RouteFacts) -> u64 {
    match task {
        Task::FetchArchiveRange { request, .. } => range_bytes(request),
        Task::FetchArchiveRepairFile { repair } => repair.source_bytes,
        Task::ExtractArchiveRepairFile { repair } => repair.expected_size,
        Task::Download { download, .. } => match download.expected_size {
            Some(size) => size,
            None => 0,
        },
        Task::Verify { expected_size, .. } => match expected_size {
            Some(size) => size,
            None => 0,
        },
        Task::RepairFile { repair, .. } => repair.expected_size,
        Task::VerifyReuseVolume { expected_size, .. } => expected_size,
        Task::ReuseFile { repair, .. } => repair.expected_size,
        Task::ProbePatchArtifact { probe_size, .. } => probe_size,
        Task::ExtractArchiveShard { shard } => shard.estimated_cost,
        Task::ApplyPatchEntry { plan, entry_index } => if entry_index < plan.entries@.len() {
            plan.entries@[entry_index as int].expected_size
        } else {
            0
        },
        Task::RetainArchiveVolume { work, volume_index } => if volume_index < work.parts@.len() {
            work.parts@[volume_index as int].expected_size
        } else {
            0
        },
        Task::OpenArchive { source, .. } => match source {
            ArchiveSource::Remote { parts } => present_bytes(
                facts.disk,
                part_paths(parts@),
                parts@.len() as int,
            ),
            ArchiveSource::Local { volumes } => present_bytes(
                facts.disk,
                steps::models(volumes@),
                volumes@.len() as int,
            ),
        },
        _ => 0,
    }
}

/// What a task needs, on top of its lane.
pub open spec fn with_task(needs: Needs, task: Task, facts: RouteFacts) -> Needs {
    let disk = facts.disk;
    match task {
        Task::FetchArchiveRange { request, priority, .. } => with_range(
            Needs {
                network: Some(
                    match priority {
                        ArchiveRangePriority::ExtractionCritical => NetworkClass::Archive,
                        ArchiveRangePriority::RetentionBackground => NetworkClass::ArchiveBackground,
                    },
                ),
                ..needs
            },
            disk,
            request,
        ),
        Task::FetchArchiveRepairFile { .. } => with_ranges(
            Needs { network: Some(NetworkClass::Archive), ..needs },
            disk,
            facts.missing_ranges@,
            facts.missing_ranges@.len() as int,
        ),
        Task::ExtractArchiveRepairFile { repair } => repair_extract_needs(needs, disk, repair),
        Task::Verify { path, .. } => needs.reading(disk.volume(path@)),
        Task::Download { download, resume } => download_needs(needs, disk, download, resume),
        Task::VerifyReuseVolume { candidates, .. } => Needs {
            reuse_probe: true,
            ..if candidates@.len() > 0 {
                needs.reading(disk.volume(candidates@[0]@))
            } else {
                needs
            }
        },
        Task::ReuseFile { source, copy_only, repair, .. } => reuse_needs(
            needs,
            disk,
            source@,
            copy_only,
            repair,
        ),
        Task::OpenArchive { source, .. } => match source {
            ArchiveSource::Remote { parts } => with_parts(
                needs,
                disk,
                parts@,
                parts@.len() as int,
            ),
            ArchiveSource::Local { volumes } => with_local_volumes(
                needs,
                disk,
                volumes@,
                volumes@.len() as int,
            ),
        },
        Task::DiscoverArchiveDirectory { work, .. } => with_volumes(
            needs,
            disk,
            work.volumes@,
            facts.volume_indices@,
            facts.volume_indices@.len() as int,
        ),
        Task::InspectArchiveIndex { work, .. } => with_volumes(
            needs,
            disk,
            work.volumes@,
            facts.volume_indices@,
            facts.volume_indices@.len() as int,
        ),
        Task::ReadArchiveControls { work, .. } => with_volumes(
            needs,
            disk,
            work.volumes@,
            facts.volume_indices@,
            facts.volume_indices@.len() as int,
        ).reading(disk.volume(work.dest@)).touching(disk.volume(staging_parent(*work))),
        Task::ProbePatchArtifact { probe_path, .. } => match probe_path {
            Some(path) => needs.reading(disk.volume(path@)),
            None => needs,
        },
        Task::MeasurePatchRelocation { root } => match root {
            Some(path) => needs.reading(disk.volume(path@)),
            None => needs,
        },
        Task::SavePatchPlan { work, .. } => needs.reading(disk.volume(work.dest@)).touching(
            disk.volume(staging_parent(*work)),
        ),
        Task::ExtractArchiveShard { shard } => shard_needs(needs, facts, shard),
        Task::RetainArchiveVolume { work, volume_index } => retain_needs(
            needs,
            facts,
            *work,
            volume_index,
        ),
        Task::FinishArchive { work } => finish_needs(needs, facts, *work),
        Task::PreparePatchApply { plan } => prepare_patch_needs(needs, facts, *plan),
        Task::ApplyPatchEntry { plan, entry_index } => if entry_index < plan.entries@.len() {
            patch_entry_needs(needs, disk, *plan, plan.entries@[entry_index as int])
        } else {
            needs
        },
        Task::ReleasePatchBase { base, .. } => needs.touching(disk.volume(base@)).changing(base@),
        Task::ApplyPatchDeletes { plan } => with_deletes(
            needs,
            disk,
            *plan,
            plan.delete_paths@.len() as int,
        ),
        Task::CommitPatchDeferred { plan } => with_patch_deferred(
            needs,
            disk,
            *plan,
            plan.deferred_paths@.len() as int,
        ),
        Task::CleanPatchApply { plan, .. } => {
            let patch_root = plan::patch_dir(plan.install_root@);
            needs.touching(disk.volume(plan.stage_root@)).touching(
                disk.volume(patch_root),
            ).changing(plan.stage_root@).changing(patch_root)
        },
        Task::CleanupArchive { work } => with_touched(
            needs,
            disk,
            work.volumes@,
            work.volumes@.len() as int,
        ),
        Task::ApplyExtractedVfsPatchManifest { install_root } => manifest_needs(
            needs,
            facts,
            install_root@,
        ),
        Task::ApplyDeleteManifest { install_root } => needs.touching(
            disk.volume(install_root@),
        ).changing(install_root@),
        Task::Hardlink { dest, .. } => needs.touching(disk.volume(dest@)).changing(dest@),
        Task::RepairFile { .. } => needs,
    }
}

/// Changes metadata of the first `k` paths as well.
pub open spec fn with_touched(needs: Needs, facts: DiskFacts, paths: Seq<FilePath>, k: int) -> Needs
    decreases k,
{
    if k <= 0 {
        needs
    } else {
        with_touched(needs, facts, paths, k - 1).touching(facts.volume(paths[k - 1]@))
    }
}

/// All that a task needs.
pub open spec fn task_needs(task: Task, facts: RouteFacts) -> Needs {
    Needs {
        estimated_bytes: estimated_bytes(task, facts),
        ..with_task(Needs::of(lane(task)), task, facts)
    }
}

} // verus!
