//! Routing: from a task to what it needs of the machine.

use crate::files;
use crate::patch::plan;
use crate::patch::plan::{
    PatchPlan, PlannedPatchEntry, PlannedPatchSource, PATCH_MANIFEST_NAME, PATCH_STAGE_DIR,
};
use crate::patch::steps;
use crate::path::FilePath;
use crate::path_safety;
use crate::scheduler::request::{NetworkClass, ResourceRequest, RunClass};
use crate::scheduler::routes;
use crate::scheduler::routes::{ManifestFile, RouteFacts};
use crate::scheduler::routing;
use crate::scheduler::routing::DiskFacts;
use crate::task::{
    ArchiveFileRepairTask, ArchivePart, ArchiveRangePriority, ArchiveRangeRequest, ArchiveShardTask,
    ArchiveSource, ArchiveWork, DownloadResumeState, FileDownload, FileRepair, Task, TransferClass,
};
use crate::text;
use vstd::prelude::*;

verus! {

/// Fetches a range into the cache as well. Only what is missing of the range
/// takes room.
pub fn route_archive_range_write(
    request: &mut ResourceRequest,
    facts: &DiskFacts,
    range: &ArchiveRangeRequest,
)
    requires
        routes::proper(*range),
    ensures
        final(request)@ == routes::with_range(old(request)@, *facts, *range),
{
    let part = range.cache_path.with_extension("range.part");
    request.write(facts.volume_key(&part));
    request.change(&part);
    request.change(&range.cache_path);
    let expected = range.local_range.end - range.local_range.start;
    let length = facts.existing_file_len(&part);
    let present = if length <= expected {
        length
    } else {
        expected
    };
    request.reserve_storage(facts, &part, expected - present);
}

fn add_ranges(request: &mut ResourceRequest, facts: &DiskFacts, ranges: &Vec<ArchiveRangeRequest>)
    requires
        forall|k: int| 0 <= k < ranges@.len() ==> routes::proper(#[trigger] ranges@[k]),
    ensures
        final(request)@ == routes::with_ranges(
            old(request)@,
            *facts,
            ranges@,
            ranges@.len() as int,
        ),
{
    let mut k: usize = 0;
    while k < ranges.len()
        invariant
            k <= ranges@.len(),
            forall|j: int| 0 <= j < ranges@.len() ==> routes::proper(#[trigger] ranges@[j]),
            request@ == routes::with_ranges(old(request)@, *facts, ranges@, k as int),
        decreases ranges@.len() - k,
    {
        route_archive_range_write(request, facts, &ranges[k]);
        k = k + 1;
    }
}

fn add_volumes(
    request: &mut ResourceRequest,
    facts: &DiskFacts,
    volumes: &Vec<FilePath>,
    indices: &Vec<usize>,
)
    ensures
        final(request)@ == routes::with_volumes(
            old(request)@,
            *facts,
            volumes@,
            indices@,
            indices@.len() as int,
        ),
{
    let mut k: usize = 0;
    while k < indices.len()
        invariant
            k <= indices@.len(),
            request@ == routes::with_volumes(old(request)@, *facts, volumes@, indices@, k as int),
        decreases indices@.len() - k,
    {
        if indices[k] < volumes.len() {
            request.read(facts.volume_key(&volumes[indices[k]]));
        }
        k = k + 1;
    }
}

fn add_parts(request: &mut ResourceRequest, facts: &DiskFacts, parts: &Vec<ArchivePart>)
    ensures
        final(request)@ == routes::with_parts(old(request)@, *facts, parts@, parts@.len() as int),
{
    let mut k: usize = 0;
    while k < parts.len()
        invariant
            k <= parts@.len(),
            request@ == routes::with_parts(old(request)@, *facts, parts@, k as int),
        decreases parts@.len() - k,
    {
        request.read(facts.volume_key(&parts[k].dest));
        request.touch(facts.volume_key(&parts[k].dest));
        request.change(&parts[k].dest);
        k = k + 1;
    }
}

fn add_local_volumes(request: &mut ResourceRequest, facts: &DiskFacts, volumes: &Vec<FilePath>)
    ensures
        final(request)@ == routes::with_local_volumes(
            old(request)@,
            *facts,
            volumes@,
            volumes@.len() as int,
        ),
{
    let mut k: usize = 0;
    while k < volumes.len()
        invariant
            k <= volumes@.len(),
            request@ == routes::with_local_volumes(old(request)@, *facts, volumes@, k as int),
        decreases volumes@.len() - k,
    {
        request.read(facts.volume_key(&volumes[k]));
        request.touch(facts.volume_key(&volumes[k]));
        k = k + 1;
    }
}

fn add_touched(request: &mut ResourceRequest, facts: &DiskFacts, paths: &Vec<FilePath>)
    ensures
        final(request)@ == routes::with_touched(
            old(request)@,
            *facts,
            paths@,
            paths@.len() as int,
        ),
{
    let mut k: usize = 0;
    while k < paths.len()
        invariant
            k <= paths@.len(),
            request@ == routes::with_touched(old(request)@, *facts, paths@, k as int),
        decreases paths@.len() - k,
    {
        request.touch(facts.volume_key(&paths[k]));
        k = k + 1;
    }
}

pub(crate) fn staging_parent_of(work: &ArchiveWork) -> (path: FilePath)
    ensures
        path@ == routes::staging_parent(*work),
{
    match &work.work_dir {
        Some(dir) => dir.copied(),
        None => match work.dest.parent() {
            Some(dir) => dir,
            None => work.dest.copied(),
        },
    }
}

pub(crate) fn names_directory(name: &str) -> (yes: bool)
    ensures
        yes == routes::is_directory(name@),
{
    let chars = text::chars_of(name);
    let n = chars.len();
    n > 0 && chars[n - 1] == '/'
}

fn add_commit(request: &mut ResourceRequest, facts: &DiskFacts, staging: &String, target: &FilePath)
    ensures
        final(request)@ == routes::with_commit(old(request)@, *facts, staging@, target@),
{
    let volume = facts.volume_key(target);
    let crossing = !text::same_string(staging, &volume);
    if crossing {
        request.read(staging.clone());
        request.read(volume.clone());
        request.write(volume.clone());
    } else {
        request.touch(volume.clone());
    }
    request.commit(volume, crossing);
    request.change(target);
}

/// Puts the entries of a shard in place as well, and says whether one of them
/// takes room on the staging volume.
fn add_entries(request: &mut ResourceRequest, facts: &DiskFacts, shard: &ArchiveShardTask) -> (
    covered: bool)
    requires
        routes::proper_shard(*shard),
    ensures
        final(request)@ == routes::with_entries(
            old(request)@,
            *facts,
            *shard,
            shard.entries@.len() as int,
        ),
        covered == routes::covers_staging(*facts, *shard, shard.entries@.len() as int),
{
    let staging = facts.volume_key(&shard.staging_dir);
    let mut covered = false;
    let mut k: usize = 0;
    while k < shard.entries.len()
        invariant
            routes::proper_shard(*shard),
            k <= shard.entries@.len(),
            staging@ == facts.volume(shard.staging_dir@),
            request@ == routes::with_entries(old(request)@, *facts, *shard, k as int),
            covered == routes::covers_staging(*facts, *shard, k as int),
        decreases shard.entries@.len() - k,
    {
        let index = shard.entries[k];
        assert(routes::proper_entry(*shard, shard.entries@[k as int]));
        let name = &shard.archive_index.names[index];
        let size = shard.archive_index.entry_sizes[index];
        if !names_directory(name.as_str()) {
            if let Ok(relative) = path_safety::parse_safe_relative_path(
                "archive entry",
                name.as_str(),
            ) {
                let target = shard.work.dest.join(&relative);
                request.reserve_storage(facts, &target, size);
                add_commit(request, facts, &staging, &target);
                if size > 0 && text::same_string(&facts.volume_key(&target), &staging) {
                    covered = true;
                }
            }
        }
        k = k + 1;
    }
    covered
}

fn peak_entry_bytes(shard: &ArchiveShardTask) -> (bytes: u64)
    requires
        routes::proper_shard(*shard),
    ensures
        bytes == routes::peak_bytes(*shard, shard.entries@.len() as int),
{
    let mut peak: u64 = 0;
    let mut k: usize = 0;
    while k < shard.entries.len()
        invariant
            routes::proper_shard(*shard),
            k <= shard.entries@.len(),
            peak == routes::peak_bytes(*shard, k as int),
        decreases shard.entries@.len() - k,
    {
        assert(routes::proper_entry(*shard, shard.entries@[k as int]));
        let size = shard.archive_index.entry_sizes[shard.entries[k]];
        if size > peak {
            peak = size;
        }
        k = k + 1;
    }
    peak
}

fn staged_entry_bytes(shard: &ArchiveShardTask) -> (bytes: u64)
    requires
        routes::proper_shard(*shard),
    ensures
        bytes == routes::staged_bytes(*shard, shard.entries@.len() as int),
{
    let mut total: u64 = 0;
    let mut k: usize = 0;
    while k < shard.entries.len()
        invariant
            routes::proper_shard(*shard),
            k <= shard.entries@.len(),
            total == routes::staged_bytes(*shard, k as int),
        decreases shard.entries@.len() - k,
    {
        assert(routes::proper_entry(*shard, shard.entries@[k as int]));
        total = total.saturating_add(shard.archive_index.entry_sizes[shard.entries[k]]);
        k = k + 1;
    }
    total
}

fn add_shard(request: &mut ResourceRequest, facts: &RouteFacts, shard: &ArchiveShardTask)
    requires
        routes::proper_shard(*shard),
    ensures
        final(request)@ == routes::shard_needs(old(request)@, *facts, *shard),
{
    add_volumes(request, &facts.disk, &shard.work.volumes, &shard.volume_indices);
    request.write(facts.disk.volume_key(&shard.staging_dir));
    if shard.direct_commit.is_some() {
        let covered = add_entries(request, &facts.disk, shard);
        if !covered {
            request.reserve_storage(&facts.disk, &shard.staging_dir, peak_entry_bytes(shard));
        }
    } else {
        request.reserve_storage(&facts.disk, &shard.staging_dir, staged_entry_bytes(shard));
    }
    request.extract = true;
}

fn add_deferred(
    request: &mut ResourceRequest,
    facts: &DiskFacts,
    dest: &FilePath,
    staging_dir: &FilePath,
    deferred: &Vec<FilePath>,
)
    ensures
        final(request)@ == routes::with_deferred(
            old(request)@,
            *facts,
            dest@,
            staging_dir@,
            deferred@,
            deferred@.len() as int,
        ),
{
    let staging = facts.volume_key(staging_dir);
    let mut k: usize = 0;
    while k < deferred.len()
        invariant
            k <= deferred@.len(),
            staging@ == facts.volume(staging_dir@),
            request@ == routes::with_deferred(
                old(request)@,
                *facts,
                dest@,
                staging_dir@,
                deferred@,
                k as int,
            ),
        decreases deferred@.len() - k,
    {
        let target = dest.join(&deferred[k]);
        if !text::same_string(&staging, &facts.volume_key(&target)) {
            let length = facts.existing_file_len(&staging_dir.join(&deferred[k]));
            request.reserve_storage(facts, &target, length);
        }
        add_commit(request, facts, &staging, &target);
        k = k + 1;
    }
}

fn add_finish(request: &mut ResourceRequest, facts: &RouteFacts, work: &ArchiveWork)
    ensures
        final(request)@ == routes::finish_needs(old(request)@, *facts, *work),
{
    if let Some(prepared) = &facts.prepared {
        if prepared.patch_plan.is_none() {
            request.touch(facts.disk.volume_key(&prepared.staging_dir));
            request.change(&prepared.staging_dir);
            add_deferred(
                request,
                &facts.disk,
                &work.dest,
                &prepared.staging_dir,
                &prepared.deferred_commit_paths,
            );
        }
    }
}

fn add_prepare_patch(request: &mut ResourceRequest, facts: &RouteFacts, plan: &PatchPlan)
    ensures
        final(request)@ == routes::prepare_patch_needs(old(request)@, *facts, *plan),
{
    let disk = &facts.disk;
    request.read(disk.volume_key(&plan.stage_root));
    request.write(disk.volume_key(&plan.install_root));
    request.write(disk.volume_key(&plan.vfs_destination));
    if let Some(dir) = &plan.work_dir {
        request.write(disk.volume_key(dir));
    }
    request.change(&plan.install_root);
    request.change(&plan.stage_root);
    request.change(&plan.vfs_destination);
    let logical = disk.volume_key(&plan.logical_vfs_root());
    if !text::same_string(&logical, &disk.volume_key(&plan.vfs_destination)) {
        if let Some(bytes) = facts.relocation_bytes {
            request.reserve_storage(disk, &plan.vfs_destination, bytes);
        }
    }
    let ghost start = request@;
    let moves = steps::patch_prepare_commit_files(plan, &facts.staged_files);
    let ghost models = steps::commit_models(moves@);
    let mut k: usize = 0;
    while k < moves.len()
        invariant
            k <= moves@.len(),
            *disk == facts.disk,
            models == steps::commit_models(moves@),
            request@ == routes::with_staged(start, *disk, models, k as int),
        decreases moves@.len() - k,
    {
        assert(models[k as int] == moves@[k as int]@);
        let from = disk.volume_key(&moves[k].source);
        let to = disk.volume_key(&moves[k].target);
        if !text::same_string(&from, &to) {
            request.reserve_storage(disk, &moves[k].target, moves[k].bytes);
        }
        k = k + 1;
    }
}

fn add_patch_entry(
    request: &mut ResourceRequest,
    facts: &DiskFacts,
    plan: &PatchPlan,
    entry: &PlannedPatchEntry,
)
    ensures
        final(request)@ == routes::patch_entry_needs(old(request)@, *facts, *plan, *entry),
{
    let target = &entry.destination;
    match &entry.source {
        PlannedPatchSource::AlreadyPresent => {
            request.read(facts.volume_key(target));
        },
        PlannedPatchSource::Local { payload } => {
            let source = plan.stage_root.join(payload);
            let from = facts.volume_key(&source);
            let to = facts.volume_key(target);
            let crossing = !text::same_string(&from, &to);
            request.read(from);
            request.write(to);
            request.change(&source);
            if crossing {
                request.reserve_storage(facts, target, entry.expected_size);
            }
        },
        PlannedPatchSource::Hdiff { base, payload, .. } => {
            let with = plan.stage_root.join(payload);
            request.read(facts.volume_key(base));
            request.read(facts.volume_key(&with));
            request.change(&with);
            request.write(facts.volume_key(target));
            if let Some(dir) = &plan.work_dir {
                request.write(facts.volume_key(dir));
                request.reserve_storage(facts, dir, entry.expected_size);
            }
            request.reserve_storage(facts, target, entry.expected_size);
        },
    }
    request.change(target);
}

fn add_deletes(request: &mut ResourceRequest, facts: &DiskFacts, plan: &PatchPlan)
    ensures
        final(request)@ == routes::with_deletes(
            old(request)@,
            *facts,
            *plan,
            plan.delete_paths@.len() as int,
        ),
{
    let mut k: usize = 0;
    while k < plan.delete_paths.len()
        invariant
            k <= plan.delete_paths@.len(),
            request@ == routes::with_deletes(old(request)@, *facts, *plan, k as int),
        decreases plan.delete_paths@.len() - k,
    {
        let path = plan.physical_delete_path(&plan.delete_paths[k]);
        request.touch(facts.volume_key(&path));
        request.change(&path);
        k = k + 1;
    }
}

fn add_patch_deferred(request: &mut ResourceRequest, facts: &DiskFacts, plan: &PatchPlan)
    ensures
        final(request)@ == routes::with_patch_deferred(
            old(request)@,
            *facts,
            *plan,
            plan.deferred_paths@.len() as int,
        ),
{
    let mut k: usize = 0;
    while k < plan.deferred_paths.len()
        invariant
            k <= plan.deferred_paths@.len(),
            request@ == routes::with_patch_deferred(old(request)@, *facts, *plan, k as int),
        decreases plan.deferred_paths@.len() - k,
    {
        let source = plan::deferred_file_path(&plan.install_root, &plan.deferred_paths[k]);
        let target = plan.install_root.join(&plan.deferred_paths[k]);
        let from = facts.volume_key(&source);
        let to = facts.volume_key(&target);
        let crossing = !text::same_string(&from, &to);
        request.read(from);
        request.change(&source);
        request.write(to);
        if crossing {
            let length = facts.existing_file_len(&source);
            request.reserve_storage(facts, &target, length);
        }
        request.change(&target);
        k = k + 1;
    }
}

fn add_manifest_files(
    request: &mut ResourceRequest,
    facts: &DiskFacts,
    root: &FilePath,
    files: &Vec<ManifestFile>,
)
    ensures
        final(request)@ == routes::with_manifest_files(
            old(request)@,
            *facts,
            root@,
            files@,
            files@.len() as int,
        ),
{
    let mut k: usize = 0;
    while k < files.len()
        invariant
            k <= files@.len(),
            request@ == routes::with_manifest_files(
                old(request)@,
                *facts,
                root@,
                files@,
                k as int,
            ),
        decreases files@.len() - k,
    {
        if let Ok(relative) = path_safety::parse_safe_relative_path(
            "patch.json file name",
            files[k].name.as_str(),
        ) {
            let target = root.join(&relative);
            request.read(facts.volume_key(&target));
            request.write(facts.volume_key(&target));
            request.change(&target);
            request.reserve_storage(facts, &target, files[k].size);
        }
        k = k + 1;
    }
}

fn route_extracted_vfs_patch_manifest(
    request: &mut ResourceRequest,
    facts: &RouteFacts,
    install_root: &FilePath,
)
    ensures
        final(request)@ == routes::manifest_needs(old(request)@, *facts, install_root@),
{
    let disk = &facts.disk;
    request.read(disk.volume_key(&install_root.child(PATCH_MANIFEST_NAME)));
    match &facts.manifest {
        None => {
            request.read(disk.volume_key(install_root));
            request.write(disk.volume_key(install_root));
            request.change(install_root);
        },
        Some(manifest) => {
            let base = text::trim(manifest.vfs_base_path.as_str());
            match path_safety::parse_safe_relative_path(
                "patch.json vfs_base_path",
                base.as_str(),
            ) {
                Err(_) => {
                    request.change(install_root);
                },
                Ok(relative) => {
                    request.read(disk.volume_key(&install_root.child(PATCH_STAGE_DIR)));
                    let root = install_root.join(&relative);
                    add_manifest_files(request, disk, &root, &manifest.files);
                },
            }
        },
    }
}

fn add_download(
    request: &mut ResourceRequest,
    facts: &DiskFacts,
    download: &FileDownload,
    resume: &Option<DownloadResumeState>,
)
    ensures
        final(request)@ == routes::download_needs(old(request)@, *facts, *download, *resume),
{
    match resume {
        None => {
            request.read(facts.volume_key(&download.dest));
            request.touch(facts.volume_key(&download.dest));
            request.change(&download.dest);
        },
        Some(state) => {
            request.network = Some(
                match download.transfer_class {
                    TransferClass::General => NetworkClass::General,
                    TransferClass::Vfs => NetworkClass::Vfs,
                },
            );
            request.write(facts.volume_key(&download.dest));
            if let Some(size) = download.expected_size {
                request.reserve_storage(facts, &download.dest, state.remaining_bytes(size));
            }
            request.change(&download.dest);
            if let Ok(part) = files::make_partial_download_path(&download.dest) {
                request.change(&part);
            }
        },
    }
}

fn add_repair_extract(
    request: &mut ResourceRequest,
    facts: &DiskFacts,
    repair: &ArchiveFileRepairTask,
)
    ensures
        final(request)@ == routes::repair_extract_needs(old(request)@, *facts, *repair),
{
    add_volumes(request, facts, &repair.work.volumes, &repair.volume_indices);
    let staging = facts.volume_key(&repair.staging_dir);
    let target = facts.volume_key(&repair.dest);
    let crossing = !text::same_string(&staging, &target);
    request.write(staging);
    request.write(target);
    request.reserve_storage(facts, &repair.staging_dir, repair.expected_size);
    if crossing {
        request.reserve_storage(facts, &repair.dest, repair.expected_size);
    }
    request.change(&repair.dest);
    request.extract = true;
}

fn add_retain(request: &mut ResourceRequest, facts: &RouteFacts, work: &ArchiveWork, index: usize)
    ensures
        final(request)@ == routes::retain_needs(old(request)@, *facts, *work, index),
{
    let disk = &facts.disk;
    if index < work.volumes.len() {
        let volume = disk.volume_key(&work.volumes[index]);
        if facts.full_volume_ready {
            request.read(volume);
        } else {
            request.touch(volume);
        }
    }
    if facts.full_volume_ready && index < work.parts.len() {
        let part = &work.parts[index];
        request.write(disk.volume_key(&part.dest));
        request.save(disk.volume_key(&part.dest));
        request.reserve_storage(disk, &part.dest, part.expected_size);
        request.change(&part.dest);
    }
}

fn add_reuse(
    request: &mut ResourceRequest,
    facts: &DiskFacts,
    source: &FilePath,
    copy_only: bool,
    repair: &FileRepair,
)
    ensures
        final(request)@ == routes::reuse_needs(
            old(request)@,
            *facts,
            source@,
            copy_only,
            *repair,
        ),
{
    if copy_only {
        request.read(facts.volume_key(source));
        request.write(facts.volume_key(&repair.dest));
        request.reserve_storage(facts, &repair.dest, repair.expected_size);
        request.change(&repair.dest);
    } else {
        request.read(facts.volume_key(&repair.dest));
        request.touch(facts.volume_key(&repair.dest));
        request.change(&repair.dest);
        request.reuse_commit = true;
    }
}

/// The lane that a task runs on.
pub fn run_class(task: &Task) -> (class: RunClass)
    ensures
        class == routes::lane(*task),
{
    match task {
        Task::Download { resume, .. } => {
            if resume.is_some() {
                RunClass::AsyncIo
            } else {
                RunClass::Cpu
            }
        },
        Task::ReuseFile { copy_only, .. } => {
            if *copy_only {
                RunClass::AsyncIo
            } else {
                RunClass::Cpu
            }
        },
        Task::FetchArchiveRepairFile { .. } => RunClass::AsyncIo,
        Task::FetchArchiveRange { .. } => RunClass::AsyncIo,
        Task::ApplyDeleteManifest { .. } => RunClass::AsyncIo,
        Task::Hardlink { .. } => RunClass::AsyncIo,
        Task::Verify { .. } => RunClass::Cpu,
        Task::RepairFile { .. } => RunClass::Cpu,
        Task::VerifyReuseVolume { .. } => RunClass::Cpu,
        Task::ProbePatchArtifact { .. } => RunClass::Cpu,
        Task::ApplyPatchEntry { plan, entry_index } => {
            if *entry_index < plan.entries.len() {
                match &plan.entries[*entry_index].source {
                    PlannedPatchSource::Local { .. } => RunClass::Blocking,
                    PlannedPatchSource::AlreadyPresent => RunClass::Cpu,
                    PlannedPatchSource::Hdiff { .. } => RunClass::Cpu,
                }
            } else {
                RunClass::Blocking
            }
        },
        _ => RunClass::Blocking,
    }
}

fn present_part_bytes(facts: &DiskFacts, parts: &Vec<ArchivePart>) -> (bytes: u64)
    ensures
        bytes == routes::present_bytes(
            *facts,
            routes::part_paths(parts@),
            parts@.len() as int,
        ),
{
    let mut total: u64 = 0;
    let mut k: usize = 0;
    while k < parts.len()
        invariant
            k <= parts@.len(),
            total == routes::present_bytes(*facts, routes::part_paths(parts@), k as int),
        decreases parts@.len() - k,
    {
        total = total.saturating_add(facts.existing_file_len(&parts[k].dest));
        k = k + 1;
    }
    total
}

fn present_path_bytes(facts: &DiskFacts, paths: &Vec<FilePath>) -> (bytes: u64)
    ensures
        bytes == routes::present_bytes(*facts, steps::models(paths@), paths@.len() as int),
{
    let mut total: u64 = 0;
    let mut k: usize = 0;
    while k < paths.len()
        invariant
            k <= paths@.len(),
            total == routes::present_bytes(*facts, steps::models(paths@), k as int),
        decreases paths@.len() - k,
    {
        total = total.saturating_add(facts.existing_file_len(&paths[k]));
        k = k + 1;
    }
    total
}

fn task_estimated_bytes(task: &Task, facts: &RouteFacts) -> (bytes: u64)
    requires
        routes::routable(*task, *facts),
    ensures
        bytes == routes::estimated_bytes(*task, *facts),
{
    match task {
        Task::FetchArchiveRange { request, .. } => request.local_range.end
            - request.local_range.start,
        Task::FetchArchiveRepairFile { repair } => repair.source_bytes,
        Task::ExtractArchiveRepairFile { repair } => repair.expected_size,
        Task::Download { download, .. } => match download.expected_size {
            Some(size) => size,
            None => 0,
        },
        Task::Verify { expected_size, .. } => match expected_size {
            Some(size) => *size,
            None => 0,
        },
        Task::RepairFile { repair, .. } => repair.expected_size,
        Task::VerifyReuseVolume { expected_size, .. } => *expected_size,
        Task::ReuseFile { repair, .. } => repair.expected_size,
        Task::ProbePatchArtifact { probe_size, .. } => *probe_size,
        Task::ExtractArchiveShard { shard } => shard.estimated_cost,
        Task::ApplyPatchEntry { plan, entry_index } => {
            if *entry_index < plan.entries.len() {
                plan.entries[*entry_index].expected_size
            } else {
                0
            }
        },
        Task::RetainArchiveVolume { work, volume_index } => {
            if *volume_index < work.parts.len() {
                work.parts[*volume_index].expected_size
            } else {
                0
            }
        },
        Task::OpenArchive { source, .. } => match source {
            ArchiveSource::Remote { parts } => present_part_bytes(&facts.disk, parts),
            ArchiveSource::Local { volumes } => present_path_bytes(&facts.disk, volumes),
        },
        _ => 0,
    }
}

fn add_archive_task(request: &mut ResourceRequest, task: &Task, facts: &RouteFacts)
    requires
        routes::routable(*task, *facts),
        archive_task(*task),
    ensures
        final(request)@ == routes::with_task(old(request)@, *task, *facts),
{
    let disk = &facts.disk;
    match task {
        Task::FetchArchiveRange { request: range, priority, .. } => {
            request.network = Some(
                match priority {
                    ArchiveRangePriority::ExtractionCritical => NetworkClass::Archive,
                    ArchiveRangePriority::RetentionBackground => NetworkClass::ArchiveBackground,
                },
            );
            route_archive_range_write(request, disk, range);
        },
        Task::FetchArchiveRepairFile { .. } => {
            request.network = Some(NetworkClass::Archive);
            add_ranges(request, disk, &facts.missing_ranges);
        },
        Task::ExtractArchiveRepairFile { repair } => {
            add_repair_extract(request, disk, repair);
        },
        Task::OpenArchive { source, .. } => match source {
            ArchiveSource::Remote { parts } => add_parts(request, disk, parts),
            ArchiveSource::Local { volumes } => add_local_volumes(request, disk, volumes),
        },
        Task::DiscoverArchiveDirectory { work, .. } => {
            add_volumes(request, disk, &work.volumes, &facts.volume_indices);
        },
        Task::InspectArchiveIndex { work, .. } => {
            add_volumes(request, disk, &work.volumes, &facts.volume_indices);
        },
        Task::ReadArchiveControls { work, .. } => {
            add_volumes(request, disk, &work.volumes, &facts.volume_indices);
            request.read(disk.volume_key(&work.dest));
            request.touch(disk.volume_key(&staging_parent_of(work)));
        },
        Task::SavePatchPlan { work, .. } => {
            request.read(disk.volume_key(&work.dest));
            request.touch(disk.volume_key(&staging_parent_of(work)));
        },
        Task::ExtractArchiveShard { shard } => {
            add_shard(request, facts, shard);
        },
        Task::RetainArchiveVolume { work, volume_index } => {
            add_retain(request, facts, work, *volume_index);
        },
        Task::FinishArchive { work } => {
            add_finish(request, facts, work);
        },
        Task::CleanupArchive { work } => {
            add_touched(request, disk, &work.volumes);
        },
        _ => {},
    }
}

/// Whether a task works on an archive.
pub(crate) open spec fn archive_task(task: Task) -> bool {
    ||| task is FetchArchiveRange
    ||| task is FetchArchiveRepairFile
    ||| task is ExtractArchiveRepairFile
    ||| task is OpenArchive
    ||| task is DiscoverArchiveDirectory
    ||| task is InspectArchiveIndex
    ||| task is ReadArchiveControls
    ||| task is SavePatchPlan
    ||| task is ExtractArchiveShard
    ||| task is RetainArchiveVolume
    ||| task is FinishArchive
    ||| task is CleanupArchive
}

/// Whether a task works on a patch.
spec fn patch_task(task: Task) -> bool {
    ||| task is PreparePatchApply
    ||| task is ApplyPatchEntry
    ||| task is ReleasePatchBase
    ||| task is ApplyPatchDeletes
    ||| task is CommitPatchDeferred
    ||| task is CleanPatchApply
    ||| task is ApplyExtractedVfsPatchManifest
    ||| task is ApplyDeleteManifest
}

#[verifier::spinoff_prover]
fn add_patch_task(request: &mut ResourceRequest, task: &Task, facts: &RouteFacts)
    requires
        patch_task(*task),
    ensures
        final(request)@ == routes::with_task(old(request)@, *task, *facts),
{
    let disk = &facts.disk;
    match task {
        Task::PreparePatchApply { plan } => {
            add_prepare_patch(request, facts, plan);
        },
        Task::ApplyPatchEntry { plan, entry_index } => {
            if *entry_index < plan.entries.len() {
                add_patch_entry(request, disk, plan, &plan.entries[*entry_index]);
            }
        },
        Task::ReleasePatchBase { base, .. } => {
            request.touch(disk.volume_key(base));
            request.change(base);
        },
        Task::ApplyPatchDeletes { plan } => {
            add_deletes(request, disk, plan);
        },
        Task::CommitPatchDeferred { plan } => {
            add_patch_deferred(request, disk, plan);
        },
        Task::CleanPatchApply { plan, .. } => {
            let patch_root = plan::griffr_patch_path(&plan.install_root);
            request.touch(disk.volume_key(&plan.stage_root));
            request.touch(disk.volume_key(&patch_root));
            request.change(&plan.stage_root);
            request.change(&patch_root);
        },
        Task::ApplyExtractedVfsPatchManifest { install_root } => {
            route_extracted_vfs_patch_manifest(request, facts, install_root);
        },
        Task::ApplyDeleteManifest { install_root } => {
            request.touch(disk.volume_key(install_root));
            request.change(install_root);
        },
        _ => {},
    }
}

#[verifier::spinoff_prover]
fn add_file_task(request: &mut ResourceRequest, task: &Task, facts: &RouteFacts)
    requires
        !archive_task(*task),
        !patch_task(*task),
    ensures
        final(request)@ == routes::with_task(old(request)@, *task, *facts),
{
    let disk = &facts.disk;
    match task {
        Task::Verify { path, .. } => {
            request.read(disk.volume_key(path));
        },
        Task::Download { download, resume } => {
            add_download(request, disk, download, resume);
        },
        Task::VerifyReuseVolume { candidates, .. } => {
            if candidates.len() > 0 {
                request.read(disk.volume_key(&candidates[0]));
            }
            request.reuse_probe = true;
        },
        Task::ReuseFile { source, copy_only, repair, .. } => {
            add_reuse(request, disk, source, *copy_only, repair);
        },
        Task::ProbePatchArtifact { probe_path, .. } => {
            if let Some(path) = probe_path {
                request.read(disk.volume_key(path));
            }
        },
        Task::MeasurePatchRelocation { root } => {
            if let Some(path) = root {
                request.read(disk.volume_key(path));
            }
        },
        Task::Hardlink { dest, .. } => {
            request.touch(disk.volume_key(dest));
            request.change(dest);
        },
        _ => {},
    }
}

/// Whether a task works on an archive.
pub(crate) fn is_archive_task(task: &Task) -> (yes: bool)
    ensures
        yes == archive_task(*task),
{
    match task {
        Task::FetchArchiveRange { .. } => true,
        Task::FetchArchiveRepairFile { .. } => true,
        Task::ExtractArchiveRepairFile { .. } => true,
        Task::OpenArchive { .. } => true,
        Task::DiscoverArchiveDirectory { .. } => true,
        Task::InspectArchiveIndex { .. } => true,
        Task::ReadArchiveControls { .. } => true,
        Task::SavePatchPlan { .. } => true,
        Task::ExtractArchiveShard { .. } => true,
        Task::RetainArchiveVolume { .. } => true,
        Task::FinishArchive { .. } => true,
        Task::CleanupArchive { .. } => true,
        _ => false,
    }
}

/// What a task needs of the machine, in normal form.
pub fn task_resources(task: &Task, facts: &RouteFacts) -> (request: ResourceRequest)
    requires
        routes::routable(*task, *facts),
    ensures
        routing::is_normal(request, routes::task_needs(*task, *facts)),
{
    let mut request = routing::request_for(run_class(task));
    let patch = match task {
        Task::PreparePatchApply { .. } => true,
        Task::ApplyPatchEntry { .. } => true,
        Task::ReleasePatchBase { .. } => true,
        Task::ApplyPatchDeletes { .. } => true,
        Task::CommitPatchDeferred { .. } => true,
        Task::CleanPatchApply { .. } => true,
        Task::ApplyExtractedVfsPatchManifest { .. } => true,
        Task::ApplyDeleteManifest { .. } => true,
        _ => false,
    };
    if is_archive_task(task) {
        add_archive_task(&mut request, task, facts);
    } else if patch {
        add_patch_task(&mut request, task, facts);
    } else {
        add_file_task(&mut request, task, facts);
    }
    request.estimated_bytes = task_estimated_bytes(task, facts);
    routing::normalize_volumes(&mut request);
    request
}

fn proper_ranges(ranges: &Vec<ArchiveRangeRequest>) -> (yes: bool)
    ensures
        yes == (forall|k: int| 0 <= k < ranges@.len() ==> routes::proper(#[trigger] ranges@[k])),
{
    let mut k: usize = 0;
    while k < ranges.len()
        invariant
            k <= ranges@.len(),
            forall|j: int| 0 <= j < k ==> routes::proper(#[trigger] ranges@[j]),
        decreases ranges@.len() - k,
    {
        if ranges[k].local_range.start > ranges[k].local_range.end {
            assert(!routes::proper(ranges@[k as int]));
            return false;
        }
        k = k + 1;
    }
    true
}

fn is_proper_shard(shard: &ArchiveShardTask) -> (yes: bool)
    ensures
        yes == routes::proper_shard(*shard),
{
    let mut k: usize = 0;
    while k < shard.entries.len()
        invariant
            k <= shard.entries@.len(),
            forall|j: int|
                0 <= j < k ==> routes::proper_entry(*shard, #[trigger] shard.entries@[j]),
        decreases shard.entries@.len() - k,
    {
        let index = shard.entries[k];
        let inside = index < shard.archive_index.names.len() && index
            < shard.archive_index.entry_sizes.len();
        if !inside {
            assert(!routes::proper_entry(*shard, shard.entries@[k as int]));
            return false;
        }
        let name = &shard.archive_index.names[index];
        if !names_directory(name.as_str()) && path_safety::parse_safe_relative_path(
            "archive entry",
            name.as_str(),
        ).is_err() {
            assert(!routes::proper_entry(*shard, shard.entries@[k as int]));
            return false;
        }
        k = k + 1;
    }
    true
}

/// Whether what a task says of itself holds together, so that it can be routed.
pub fn is_routable(task: &Task, facts: &RouteFacts) -> (yes: bool)
    ensures
        yes == routes::routable(*task, *facts),
{
    match task {
        Task::FetchArchiveRange { request, .. } => request.local_range.start
            <= request.local_range.end,
        Task::FetchArchiveRepairFile { .. } => proper_ranges(&facts.missing_ranges),
        Task::ExtractArchiveShard { shard } => is_proper_shard(shard),
        _ => true,
    }
}

} // verus!
