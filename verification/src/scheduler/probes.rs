//! The paths that a task is routed by.

use crate::patch::plan;
use crate::patch::plan::{
    PatchPlan, PlannedPatchEntry, PlannedPatchSource, PATCH_MANIFEST_NAME, PATCH_STAGE_DIR,
};
use crate::patch::steps;
use crate::patch::steps::CommitModel;
use crate::path::{FilePath, PathModel};
use crate::path_safety;
use crate::scheduler::route;
use crate::scheduler::routes;
use crate::scheduler::routes::{ManifestFile, RouteFacts};
use crate::task::{
    ArchivePart, ArchiveRangeRequest, ArchiveShardTask, ArchiveSource, ArchiveWork, PreparedArchive,
    Task,
};
use crate::text;
use vstd::prelude::*;

verus! {

/// The files that ranges are fetched into.
pub open spec fn range_paths(ranges: Seq<ArchiveRangeRequest>) -> Seq<PathModel> {
    Seq::new(ranges.len(), |i: int| routes::range_part(ranges[i]))
}

/// Where the first `k` entries of a shard are put in place.
pub open spec fn shard_targets(shard: ArchiveShardTask, k: int) -> Seq<PathModel>
    decreases k,
{
    if k <= 0 {
        Seq::empty()
    } else {
        let rest = shard_targets(shard, k - 1);
        let index = shard.entries@[k - 1];
        if routes::proper_entry(shard, index) && !routes::is_directory(
            shard.archive_index.names@[index as int]@,
        ) {
            rest.push(routes::shard_target(shard, index))
        } else {
            rest
        }
    }
}

/// Where files lie below a directory.
pub open spec fn below(root: PathModel, files: Seq<FilePath>) -> Seq<PathModel> {
    Seq::new(files.len(), |i: int| root.join(files[i]@))
}

/// The files that are moved when a patch starts.
pub open spec fn move_sources(moves: Seq<CommitModel>) -> Seq<PathModel> {
    Seq::new(moves.len(), |i: int| moves[i].source)
}

/// Where files are moved when a patch starts.
pub open spec fn move_targets(moves: Seq<CommitModel>) -> Seq<PathModel> {
    Seq::new(moves.len(), |i: int| moves[i].target)
}

/// The paths on disk that a patch deletes.
pub open spec fn deleted(plan: PatchPlan) -> Seq<PathModel> {
    Seq::new(plan.delete_paths@.len(), |i: int| plan.physical(plan.delete_paths@[i]@))
}

/// Where a patch keeps its deferred files.
pub open spec fn deferred(plan: PatchPlan) -> Seq<PathModel> {
    Seq::new(
        plan.deferred_paths@.len(),
        |i: int| plan::deferred_path(plan.install_root@, plan.deferred_paths@[i]@),
    )
}

/// What the first `k` files of an extracted patch manifest bring up to date.
pub open spec fn manifest_targets(root: PathModel, files: Seq<ManifestFile>, k: int) -> Seq<
    PathModel,
>
    decreases k,
{
    if k <= 0 {
        Seq::empty()
    } else {
        let rest = manifest_targets(root, files, k - 1);
        match path_safety::safe_relative_path(files[k - 1].name@) {
            Ok(relative) => rest.push(root.join(relative)),
            Err(_) => rest,
        }
    }
}

/// A path, if there is one.
pub open spec fn at_most_one(path: Option<FilePath>) -> Seq<PathModel> {
    match path {
        Some(found) => seq![found@],
        None => Seq::empty(),
    }
}

/// The paths that keeping a volume of an archive is routed by.
pub open spec fn retain_paths(archive: ArchiveWork, index: usize) -> Seq<PathModel> {
    steps::models(archive.volumes@) + if index < archive.parts@.len() {
        seq![archive.parts@[index as int].dest@]
    } else {
        Seq::empty()
    }
}

/// The paths that finishing an archive is routed by.
pub open spec fn finish_paths(archive: ArchiveWork, prepared: Option<PreparedArchive>) -> Seq<
    PathModel,
> {
    match prepared {
        Some(found) => seq![found.staging_dir@] + below(
            found.staging_dir@,
            found.deferred_commit_paths@,
        ) + below(archive.dest@, found.deferred_commit_paths@),
        None => Seq::empty(),
    }
}

/// The paths that starting a patch is routed by.
pub open spec fn prepare_paths(plan: PatchPlan, staged: Seq<(FilePath, u64)>) -> Seq<PathModel> {
    let moves = steps::top_level(plan, staged, staged.len() as int);
    seq![plan.stage_root@, plan.install_root@, plan.vfs_destination@, plan.vfs_root()]
        + at_most_one(plan.work_dir) + move_sources(moves) + move_targets(moves)
}

/// The paths that applying an entry of a patch is routed by.
pub open spec fn entry_paths(plan: PatchPlan, entry: PlannedPatchEntry) -> Seq<PathModel> {
    seq![entry.destination@] + match entry.source {
        PlannedPatchSource::AlreadyPresent => Seq::empty(),
        PlannedPatchSource::Local { payload } => seq![plan.stage_root@.join(payload@)],
        PlannedPatchSource::Hdiff { base, payload, .. } => seq![
            base@,
            plan.stage_root@.join(payload@),
        ] + at_most_one(plan.work_dir),
    }
}

/// The paths that applying an extracted patch manifest is routed by.
pub open spec fn manifest_paths(facts: RouteFacts, install_root: PathModel) -> Seq<PathModel> {
    seq![
        install_root,
        install_root.child(PATCH_MANIFEST_NAME@),
        install_root.child(PATCH_STAGE_DIR@),
    ] + match facts.manifest {
        Some(manifest) => match path_safety::safe_relative_path(
            text::trimmed(manifest.vfs_base_path@),
        ) {
            Ok(base) => manifest_targets(
                install_root.join(base),
                manifest.files@,
                manifest.files@.len() as int,
            ),
            Err(_) => Seq::empty(),
        },
        None => Seq::empty(),
    }
}

/// The paths whose volumes and sizes a task is routed by.
pub open spec fn probed(task: Task, facts: RouteFacts) -> Seq<PathModel> {
    match task {
        Task::FetchArchiveRange { request, .. } => seq![routes::range_part(request)],
        Task::FetchArchiveRepairFile { .. } => range_paths(facts.missing_ranges@),
        Task::ExtractArchiveRepairFile { repair } => steps::models(repair.work.volumes@) + seq![
            repair.staging_dir@,
            repair.dest@,
        ],
        Task::Verify { path, .. } => seq![path@],
        Task::Download { download, .. } => seq![download.dest@],
        Task::RepairFile { .. } => Seq::empty(),
        Task::VerifyReuseVolume { candidates, .. } => steps::models(candidates@),
        Task::ReuseFile { source, repair, .. } => seq![source@, repair.dest@],
        Task::OpenArchive { source, .. } => match source {
            ArchiveSource::Remote { parts } => routes::part_paths(parts@),
            ArchiveSource::Local { volumes } => steps::models(volumes@),
        },
        Task::DiscoverArchiveDirectory { work, .. } => steps::models(work.volumes@),
        Task::InspectArchiveIndex { work, .. } => steps::models(work.volumes@),
        Task::ReadArchiveControls { work, .. } => steps::models(work.volumes@) + seq![
            work.dest@,
            routes::staging_parent(*work),
        ],
        Task::ProbePatchArtifact { probe_path, .. } => at_most_one(probe_path),
        Task::MeasurePatchRelocation { root } => at_most_one(root),
        Task::SavePatchPlan { work, .. } => seq![work.dest@, routes::staging_parent(*work)],
        Task::ExtractArchiveShard { shard } => steps::models(shard.work.volumes@) + seq![
            shard.staging_dir@,
        ] + shard_targets(shard, shard.entries@.len() as int),
        Task::RetainArchiveVolume { work, volume_index } => retain_paths(*work, volume_index),
        Task::FinishArchive { work } => finish_paths(*work, facts.prepared),
        Task::PreparePatchApply { plan } => prepare_paths(*plan, facts.staged_files@),
        Task::ApplyPatchEntry { plan, entry_index } => if entry_index < plan.entries@.len() {
            entry_paths(*plan, plan.entries@[entry_index as int])
        } else {
            Seq::empty()
        },
        Task::ReleasePatchBase { base, .. } => seq![base@],
        Task::ApplyPatchDeletes { plan } => deleted(*plan),
        Task::CommitPatchDeferred { plan } => deferred(*plan) + below(
            plan.install_root@,
            plan.deferred_paths@,
        ),
        Task::CleanPatchApply { plan, .. } => seq![
            plan.stage_root@,
            plan::patch_dir(plan.install_root@),
        ],
        Task::CleanupArchive { work } => steps::models(work.volumes@),
        Task::ApplyExtractedVfsPatchManifest { install_root } => manifest_paths(
            facts,
            install_root@,
        ),
        Task::ApplyDeleteManifest { install_root } => seq![install_root@],
        Task::Hardlink { dest, .. } => seq![dest@],
    }
}

fn add_path(paths: &mut Vec<FilePath>, path: FilePath)
    ensures
        steps::models(final(paths)@) == steps::models(old(paths)@).push(path@),
{
    paths.push(path);
    assert(steps::models(paths@) =~= steps::models(old(paths)@).push(path@));
}

fn add_paths(paths: &mut Vec<FilePath>, list: &Vec<FilePath>)
    ensures
        steps::models(final(paths)@) == steps::models(old(paths)@) + steps::models(list@),
{
    let mut k: usize = 0;
    assert(steps::models(paths@) =~= steps::models(old(paths)@) + steps::models(list@).take(0));
    while k < list.len()
        invariant
            k <= list@.len(),
            steps::models(paths@) == steps::models(old(paths)@) + steps::models(list@).take(
                k as int,
            ),
        decreases list@.len() - k,
    {
        add_path(paths, list[k].copied());
        k = k + 1;
        assert(steps::models(paths@) =~= steps::models(old(paths)@) + steps::models(list@).take(
            k as int,
        ));
    }
    assert(steps::models(list@).take(k as int) =~= steps::models(list@));
}

fn add_option(paths: &mut Vec<FilePath>, path: &Option<FilePath>)
    ensures
        steps::models(final(paths)@) == steps::models(old(paths)@) + at_most_one(*path),
{
    if let Some(found) = path {
        add_path(paths, found.copied());
    }
    assert(steps::models(paths@) =~= steps::models(old(paths)@) + at_most_one(*path));
}

fn range_list(ranges: &Vec<ArchiveRangeRequest>) -> (paths: Vec<FilePath>)
    ensures
        steps::models(paths@) == range_paths(ranges@),
{
    let mut paths: Vec<FilePath> = Vec::new();
    let mut k: usize = 0;
    assert(steps::models(paths@) =~= range_paths(ranges@).take(0));
    while k < ranges.len()
        invariant
            k <= ranges@.len(),
            steps::models(paths@) == range_paths(ranges@).take(k as int),
        decreases ranges@.len() - k,
    {
        add_path(&mut paths, ranges[k].cache_path.with_extension("range.part"));
        k = k + 1;
        assert(steps::models(paths@) =~= range_paths(ranges@).take(k as int));
    }
    assert(range_paths(ranges@).take(k as int) =~= range_paths(ranges@));
    paths
}

fn part_list(parts: &Vec<ArchivePart>) -> (paths: Vec<FilePath>)
    ensures
        steps::models(paths@) == routes::part_paths(parts@),
{
    let mut paths: Vec<FilePath> = Vec::new();
    let mut k: usize = 0;
    assert(steps::models(paths@) =~= routes::part_paths(parts@).take(0));
    while k < parts.len()
        invariant
            k <= parts@.len(),
            steps::models(paths@) == routes::part_paths(parts@).take(k as int),
        decreases parts@.len() - k,
    {
        add_path(&mut paths, parts[k].dest.copied());
        k = k + 1;
        assert(steps::models(paths@) =~= routes::part_paths(parts@).take(k as int));
    }
    assert(routes::part_paths(parts@).take(k as int) =~= routes::part_paths(parts@));
    paths
}

fn below_list(root: &FilePath, files: &Vec<FilePath>) -> (paths: Vec<FilePath>)
    ensures
        steps::models(paths@) == below(root@, files@),
{
    let mut paths: Vec<FilePath> = Vec::new();
    let mut k: usize = 0;
    assert(steps::models(paths@) =~= below(root@, files@).take(0));
    while k < files.len()
        invariant
            k <= files@.len(),
            steps::models(paths@) == below(root@, files@).take(k as int),
        decreases files@.len() - k,
    {
        add_path(&mut paths, root.join(&files[k]));
        k = k + 1;
        assert(steps::models(paths@) =~= below(root@, files@).take(k as int));
    }
    assert(below(root@, files@).take(k as int) =~= below(root@, files@));
    paths
}

fn deleted_list(plan: &PatchPlan) -> (paths: Vec<FilePath>)
    ensures
        steps::models(paths@) == deleted(*plan),
{
    let mut paths: Vec<FilePath> = Vec::new();
    let mut k: usize = 0;
    assert(steps::models(paths@) =~= deleted(*plan).take(0));
    while k < plan.delete_paths.len()
        invariant
            k <= plan.delete_paths@.len(),
            steps::models(paths@) == deleted(*plan).take(k as int),
        decreases plan.delete_paths@.len() - k,
    {
        add_path(&mut paths, plan.physical_delete_path(&plan.delete_paths[k]));
        k = k + 1;
        assert(steps::models(paths@) =~= deleted(*plan).take(k as int));
    }
    assert(deleted(*plan).take(k as int) =~= deleted(*plan));
    paths
}

fn deferred_list(plan: &PatchPlan) -> (paths: Vec<FilePath>)
    ensures
        steps::models(paths@) == deferred(*plan),
{
    let mut paths: Vec<FilePath> = Vec::new();
    let mut k: usize = 0;
    assert(steps::models(paths@) =~= deferred(*plan).take(0));
    while k < plan.deferred_paths.len()
        invariant
            k <= plan.deferred_paths@.len(),
            steps::models(paths@) == deferred(*plan).take(k as int),
        decreases plan.deferred_paths@.len() - k,
    {
        add_path(
            &mut paths,
            plan::deferred_file_path(&plan.install_root, &plan.deferred_paths[k]),
        );
        k = k + 1;
        assert(steps::models(paths@) =~= deferred(*plan).take(k as int));
    }
    assert(deferred(*plan).take(k as int) =~= deferred(*plan));
    paths
}

fn add_shard_targets(paths: &mut Vec<FilePath>, shard: &ArchiveShardTask)
    ensures
        steps::models(final(paths)@) == steps::models(old(paths)@) + shard_targets(
            *shard,
            shard.entries@.len() as int,
        ),
{
    let mut k: usize = 0;
    assert(steps::models(paths@) =~= steps::models(old(paths)@) + shard_targets(*shard, 0));
    while k < shard.entries.len()
        invariant
            k <= shard.entries@.len(),
            steps::models(paths@) == steps::models(old(paths)@) + shard_targets(*shard, k as int),
        decreases shard.entries@.len() - k,
    {
        let ghost before = steps::models(paths@);
        let index = shard.entries[k];
        if index < shard.archive_index.names.len() && index
            < shard.archive_index.entry_sizes.len() {
            let name = &shard.archive_index.names[index];
            if !route::names_directory(name.as_str()) {
                if let Ok(relative) = path_safety::parse_safe_relative_path(
                    "archive entry",
                    name.as_str(),
                ) {
                    add_path(paths, shard.work.dest.join(&relative));
                }
            }
        }
        k = k + 1;
        assert(steps::models(paths@) =~= steps::models(old(paths)@) + shard_targets(
            *shard,
            k as int,
        ));
    }
}

fn add_manifest_targets(paths: &mut Vec<FilePath>, root: &FilePath, files: &Vec<ManifestFile>)
    ensures
        steps::models(final(paths)@) == steps::models(old(paths)@) + manifest_targets(
            root@,
            files@,
            files@.len() as int,
        ),
{
    let mut k: usize = 0;
    assert(steps::models(paths@) =~= steps::models(old(paths)@) + manifest_targets(
        root@,
        files@,
        0,
    ));
    while k < files.len()
        invariant
            k <= files@.len(),
            steps::models(paths@) == steps::models(old(paths)@) + manifest_targets(
                root@,
                files@,
                k as int,
            ),
        decreases files@.len() - k,
    {
        if let Ok(relative) = path_safety::parse_safe_relative_path(
            "patch.json file name",
            files[k].name.as_str(),
        ) {
            add_path(paths, root.join(&relative));
        }
        k = k + 1;
        assert(steps::models(paths@) =~= steps::models(old(paths)@) + manifest_targets(
            root@,
            files@,
            k as int,
        ));
    }
}

fn prepare_list(plan: &PatchPlan, staged: &Vec<(FilePath, u64)>) -> (paths: Vec<FilePath>)
    ensures
        steps::models(paths@) == prepare_paths(*plan, staged@),
{
    let mut paths: Vec<FilePath> = Vec::new();
    add_path(&mut paths, plan.stage_root.copied());
    add_path(&mut paths, plan.install_root.copied());
    add_path(&mut paths, plan.vfs_destination.copied());
    add_path(&mut paths, plan.logical_vfs_root());
    add_option(&mut paths, &plan.work_dir);
    let moves = steps::patch_prepare_commit_files(plan, staged);
    let ghost models = steps::commit_models(moves@);
    let mut sources: Vec<FilePath> = Vec::new();
    let mut targets: Vec<FilePath> = Vec::new();
    let mut k: usize = 0;
    assert(steps::models(sources@) =~= move_sources(models).take(0));
    assert(steps::models(targets@) =~= move_targets(models).take(0));
    while k < moves.len()
        invariant
            k <= moves@.len(),
            models == steps::commit_models(moves@),
            steps::models(sources@) == move_sources(models).take(k as int),
            steps::models(targets@) == move_targets(models).take(k as int),
        decreases moves@.len() - k,
    {
        assert(models[k as int] == moves@[k as int]@);
        add_path(&mut sources, moves[k].source.copied());
        add_path(&mut targets, moves[k].target.copied());
        k = k + 1;
        assert(steps::models(sources@) =~= move_sources(models).take(k as int));
        assert(steps::models(targets@) =~= move_targets(models).take(k as int));
    }
    assert(move_sources(models).take(k as int) =~= move_sources(models));
    assert(move_targets(models).take(k as int) =~= move_targets(models));
    add_paths(&mut paths, &sources);
    add_paths(&mut paths, &targets);
    assert(steps::models(paths@) =~= prepare_paths(*plan, staged@));
    paths
}

fn entry_list(plan: &PatchPlan, entry: &PlannedPatchEntry) -> (paths: Vec<FilePath>)
    ensures
        steps::models(paths@) == entry_paths(*plan, *entry),
{
    let mut paths: Vec<FilePath> = Vec::new();
    add_path(&mut paths, entry.destination.copied());
    match &entry.source {
        PlannedPatchSource::AlreadyPresent => {},
        PlannedPatchSource::Local { payload } => {
            add_path(&mut paths, plan.stage_root.join(payload));
        },
        PlannedPatchSource::Hdiff { base, payload, .. } => {
            add_path(&mut paths, base.copied());
            add_path(&mut paths, plan.stage_root.join(payload));
            add_option(&mut paths, &plan.work_dir);
        },
    }
    assert(steps::models(paths@) =~= entry_paths(*plan, *entry));
    paths
}

fn manifest_list(facts: &RouteFacts, install_root: &FilePath) -> (paths: Vec<FilePath>)
    ensures
        steps::models(paths@) == manifest_paths(*facts, install_root@),
{
    let mut paths: Vec<FilePath> = Vec::new();
    add_path(&mut paths, install_root.copied());
    add_path(&mut paths, install_root.child(PATCH_MANIFEST_NAME));
    add_path(&mut paths, install_root.child(PATCH_STAGE_DIR));
    if let Some(manifest) = &facts.manifest {
        let trimmed = text::trim(manifest.vfs_base_path.as_str());
        if let Ok(base) = path_safety::parse_safe_relative_path(
            "patch.json vfs_base_path",
            trimmed.as_str(),
        ) {
            add_manifest_targets(&mut paths, &install_root.join(&base), &manifest.files);
        }
    }
    assert(steps::models(paths@) =~= manifest_paths(*facts, install_root@));
    paths
}

fn finish_list(archive: &ArchiveWork, prepared: &Option<PreparedArchive>) -> (paths: Vec<FilePath>)
    ensures
        steps::models(paths@) == finish_paths(*archive, *prepared),
{
    let mut paths: Vec<FilePath> = Vec::new();
    if let Some(found) = prepared {
        add_path(&mut paths, found.staging_dir.copied());
        add_paths(&mut paths, &below_list(&found.staging_dir, &found.deferred_commit_paths));
        add_paths(&mut paths, &below_list(&archive.dest, &found.deferred_commit_paths));
    }
    assert(steps::models(paths@) =~= finish_paths(*archive, *prepared));
    paths
}

fn add_archive_paths(paths: &mut Vec<FilePath>, task: &Task, facts: &RouteFacts)
    requires
        route::archive_task(*task),
    ensures
        steps::models(final(paths)@) == steps::models(old(paths)@) + probed(*task, *facts),
{
    match task {
        Task::FetchArchiveRange { request, .. } => {
            add_path(paths, request.cache_path.with_extension("range.part"));
        },
        Task::FetchArchiveRepairFile { .. } => {
            add_paths(paths, &range_list(&facts.missing_ranges));
        },
        Task::ExtractArchiveRepairFile { repair } => {
            add_paths(paths, &repair.work.volumes);
            add_path(paths, repair.staging_dir.copied());
            add_path(paths, repair.dest.copied());
        },
        Task::OpenArchive { source, .. } => match source {
            ArchiveSource::Remote { parts } => {
                add_paths(paths, &part_list(parts));
            },
            ArchiveSource::Local { volumes } => {
                add_paths(paths, volumes);
            },
        },
        Task::DiscoverArchiveDirectory { work, .. } => {
            add_paths(paths, &work.volumes);
        },
        Task::InspectArchiveIndex { work, .. } => {
            add_paths(paths, &work.volumes);
        },
        Task::ReadArchiveControls { work, .. } => {
            add_paths(paths, &work.volumes);
            add_path(paths, work.dest.copied());
            add_path(paths, route::staging_parent_of(work));
        },
        Task::SavePatchPlan { work, .. } => {
            add_path(paths, work.dest.copied());
            add_path(paths, route::staging_parent_of(work));
        },
        Task::ExtractArchiveShard { shard } => {
            add_paths(paths, &shard.work.volumes);
            add_path(paths, shard.staging_dir.copied());
            add_shard_targets(paths, shard);
        },
        Task::RetainArchiveVolume { work, volume_index } => {
            add_paths(paths, &work.volumes);
            if *volume_index < work.parts.len() {
                add_path(paths, work.parts[*volume_index].dest.copied());
            }
        },
        Task::FinishArchive { work } => {
            add_paths(paths, &finish_list(work, &facts.prepared));
        },
        Task::CleanupArchive { work } => {
            add_paths(paths, &work.volumes);
        },
        _ => {},
    }
    assert(steps::models(paths@) =~= steps::models(old(paths)@) + probed(*task, *facts));
}

fn add_other_paths(paths: &mut Vec<FilePath>, task: &Task, facts: &RouteFacts)
    requires
        !route::archive_task(*task),
    ensures
        steps::models(final(paths)@) == steps::models(old(paths)@) + probed(*task, *facts),
{
    match task {
        Task::Verify { path, .. } => {
            add_path(paths, path.copied());
        },
        Task::Download { download, .. } => {
            add_path(paths, download.dest.copied());
        },
        Task::VerifyReuseVolume { candidates, .. } => {
            add_paths(paths, candidates);
        },
        Task::ReuseFile { source, repair, .. } => {
            add_path(paths, source.copied());
            add_path(paths, repair.dest.copied());
        },
        Task::ProbePatchArtifact { probe_path, .. } => {
            add_option(paths, probe_path);
        },
        Task::MeasurePatchRelocation { root } => {
            add_option(paths, root);
        },
        Task::PreparePatchApply { plan } => {
            add_paths(paths, &prepare_list(plan, &facts.staged_files));
        },
        Task::ApplyPatchEntry { plan, entry_index } => {
            if *entry_index < plan.entries.len() {
                add_paths(paths, &entry_list(plan, &plan.entries[*entry_index]));
            }
        },
        Task::ReleasePatchBase { base, .. } => {
            add_path(paths, base.copied());
        },
        Task::ApplyPatchDeletes { plan } => {
            add_paths(paths, &deleted_list(plan));
        },
        Task::CommitPatchDeferred { plan } => {
            add_paths(paths, &deferred_list(plan));
            add_paths(paths, &below_list(&plan.install_root, &plan.deferred_paths));
        },
        Task::CleanPatchApply { plan, .. } => {
            add_path(paths, plan.stage_root.copied());
            add_path(paths, plan::griffr_patch_path(&plan.install_root));
        },
        Task::ApplyExtractedVfsPatchManifest { install_root } => {
            add_paths(paths, &manifest_list(facts, install_root));
        },
        Task::ApplyDeleteManifest { install_root } => {
            add_path(paths, install_root.copied());
        },
        Task::Hardlink { dest, .. } => {
            add_path(paths, dest.copied());
        },
        _ => {},
    }
    assert(steps::models(paths@) =~= steps::models(old(paths)@) + probed(*task, *facts));
}

/// The paths whose volumes and sizes a task is routed by, given all else that is
/// known of it.
pub fn probed_paths(task: &Task, facts: &RouteFacts) -> (paths: Vec<FilePath>)
    ensures
        steps::models(paths@) == probed(*task, *facts),
{
    let mut paths: Vec<FilePath> = Vec::new();
    let ghost none = steps::models(paths@);
    assert(none =~= Seq::<PathModel>::empty());
    if route::is_archive_task(task) {
        add_archive_paths(&mut paths, task, facts);
    } else {
        add_other_paths(&mut paths, task, facts);
    }
    assert(none + probed(*task, *facts) =~= probed(*task, *facts));
    paths
}

} // verus!
