//! What a task needs depends on nothing on disk but the paths it is routed by.

use crate::patch::plan::{PatchPlan, PlannedPatchEntry, PlannedPatchSource};
use crate::patch::steps;
use crate::patch::steps::CommitModel;
use crate::path::{FilePath, PathModel};
use crate::path_safety;
use crate::scheduler::probes;
use crate::scheduler::request::NetworkClass;
use crate::scheduler::routes;
use crate::scheduler::routes::{ManifestFile, RouteFacts};
use crate::scheduler::routing::{DiskFacts, Needs};
use crate::task::{
    ArchivePart, ArchiveRangeRequest, ArchiveShardTask, ArchiveSource, Task,
};
use crate::text;
use vstd::prelude::*;

verus! {

/// Whether the same is known of a path.
pub open spec fn same_at(left: DiskFacts, right: DiskFacts, path: PathModel) -> bool {
    left.volume(path) == right.volume(path) && left.length(path) == right.length(path)
}

/// Whether the same is known of every path of a list.
pub open spec fn same_on(left: DiskFacts, right: DiskFacts, paths: Seq<PathModel>) -> bool {
    forall|i: int| 0 <= i < paths.len() ==> same_at(left, right, #[trigger] paths[i])
}

proof fn lemma_parts(left: DiskFacts, right: DiskFacts, a: Seq<PathModel>, b: Seq<PathModel>)
    requires
        same_on(left, right, a + b),
    ensures
        same_on(left, right, a),
        same_on(left, right, b),
{
    assert forall|i: int| 0 <= i < a.len() implies same_at(left, right, #[trigger] a[i]) by {
        assert((a + b)[i] == a[i]);
    }
    assert forall|i: int| 0 <= i < b.len() implies same_at(left, right, #[trigger] b[i]) by {
        assert((a + b)[a.len() + i] == b[i]);
    }
}

proof fn lemma_ranges(
    needs: Needs,
    left: DiskFacts,
    right: DiskFacts,
    ranges: Seq<ArchiveRangeRequest>,
    k: int,
)
    requires
        0 <= k <= ranges.len(),
        same_on(left, right, probes::range_paths(ranges)),
    ensures
        routes::with_ranges(needs, left, ranges, k) == routes::with_ranges(needs, right, ranges, k),
    decreases k,
{
    if k > 0 {
        lemma_ranges(needs, left, right, ranges, k - 1);
        assert(same_at(left, right, probes::range_paths(ranges)[k - 1]));
    }
}

proof fn lemma_volumes(
    needs: Needs,
    left: DiskFacts,
    right: DiskFacts,
    volumes: Seq<FilePath>,
    indices: Seq<usize>,
    k: int,
)
    requires
        0 <= k <= indices.len(),
        same_on(left, right, steps::models(volumes)),
    ensures
        routes::with_volumes(needs, left, volumes, indices, k) == routes::with_volumes(
            needs,
            right,
            volumes,
            indices,
            k,
        ),
    decreases k,
{
    if k > 0 {
        lemma_volumes(needs, left, right, volumes, indices, k - 1);
        if indices[k - 1] < volumes.len() {
            assert(same_at(left, right, steps::models(volumes)[indices[k - 1] as int]));
        }
    }
}

proof fn lemma_opened(
    needs: Needs,
    left: DiskFacts,
    right: DiskFacts,
    parts: Seq<ArchivePart>,
    k: int,
)
    requires
        0 <= k <= parts.len(),
        same_on(left, right, routes::part_paths(parts)),
    ensures
        routes::with_parts(needs, left, parts, k) == routes::with_parts(needs, right, parts, k),
    decreases k,
{
    if k > 0 {
        lemma_opened(needs, left, right, parts, k - 1);
        assert(same_at(left, right, routes::part_paths(parts)[k - 1]));
    }
}

proof fn lemma_local_volumes(
    needs: Needs,
    left: DiskFacts,
    right: DiskFacts,
    volumes: Seq<FilePath>,
    k: int,
)
    requires
        0 <= k <= volumes.len(),
        same_on(left, right, steps::models(volumes)),
    ensures
        routes::with_local_volumes(needs, left, volumes, k) == routes::with_local_volumes(
            needs,
            right,
            volumes,
            k,
        ),
        routes::with_touched(needs, left, volumes, k) == routes::with_touched(
            needs,
            right,
            volumes,
            k,
        ),
    decreases k,
{
    if k > 0 {
        lemma_local_volumes(needs, left, right, volumes, k - 1);
        assert(same_at(left, right, steps::models(volumes)[k - 1]));
    }
}

proof fn lemma_present(left: DiskFacts, right: DiskFacts, paths: Seq<PathModel>, k: int)
    requires
        0 <= k <= paths.len(),
        same_on(left, right, paths),
    ensures
        routes::present_bytes(left, paths, k) == routes::present_bytes(right, paths, k),
    decreases k,
{
    if k > 0 {
        lemma_present(left, right, paths, k - 1);
        assert(same_at(left, right, paths[k - 1]));
    }
}

proof fn lemma_targets_before(
    left: DiskFacts,
    right: DiskFacts,
    shard: ArchiveShardTask,
    k: int,
)
    requires
        0 < k <= shard.entries@.len(),
        same_on(left, right, probes::shard_targets(shard, k)),
    ensures
        same_on(left, right, probes::shard_targets(shard, k - 1)),
{
    let all = probes::shard_targets(shard, k);
    let rest = probes::shard_targets(shard, k - 1);
    assert forall|i: int| 0 <= i < rest.len() implies same_at(left, right, #[trigger] rest[i]) by {
        assert(all[i] == rest[i]);
    }
}

proof fn lemma_entries(
    needs: Needs,
    left: DiskFacts,
    right: DiskFacts,
    shard: ArchiveShardTask,
    k: int,
)
    requires
        routes::proper_shard(shard),
        0 <= k <= shard.entries@.len(),
        same_at(left, right, shard.staging_dir@),
        same_on(left, right, probes::shard_targets(shard, k)),
    ensures
        routes::with_entries(needs, left, shard, k) == routes::with_entries(needs, right, shard, k),
        routes::covers_staging(left, shard, k) == routes::covers_staging(right, shard, k),
    decreases k,
{
    if k > 0 {
        lemma_targets_before(left, right, shard, k);
        lemma_entries(needs, left, right, shard, k - 1);
        let all = probes::shard_targets(shard, k);
        let index = shard.entries@[k - 1];
        assert(routes::proper_entry(shard, index));
        if !routes::is_directory(shard.archive_index.names@[index as int]@) {
            assert(all[all.len() - 1] == routes::shard_target(shard, index));
        }
    }
}

proof fn lemma_deferred(
    needs: Needs,
    left: DiskFacts,
    right: DiskFacts,
    dest: PathModel,
    staging_dir: PathModel,
    files: Seq<FilePath>,
    k: int,
)
    requires
        0 <= k <= files.len(),
        same_at(left, right, staging_dir),
        same_on(left, right, probes::below(staging_dir, files)),
        same_on(left, right, probes::below(dest, files)),
    ensures
        routes::with_deferred(needs, left, dest, staging_dir, files, k) == routes::with_deferred(
            needs,
            right,
            dest,
            staging_dir,
            files,
            k,
        ),
    decreases k,
{
    if k > 0 {
        lemma_deferred(needs, left, right, dest, staging_dir, files, k - 1);
        assert(same_at(left, right, probes::below(staging_dir, files)[k - 1]));
        assert(same_at(left, right, probes::below(dest, files)[k - 1]));
    }
}

proof fn lemma_staged(
    needs: Needs,
    left: DiskFacts,
    right: DiskFacts,
    moves: Seq<CommitModel>,
    k: int,
)
    requires
        0 <= k <= moves.len(),
        same_on(left, right, probes::move_sources(moves)),
        same_on(left, right, probes::move_targets(moves)),
    ensures
        routes::with_staged(needs, left, moves, k) == routes::with_staged(needs, right, moves, k),
    decreases k,
{
    if k > 0 {
        lemma_staged(needs, left, right, moves, k - 1);
        assert(same_at(left, right, probes::move_sources(moves)[k - 1]));
        assert(same_at(left, right, probes::move_targets(moves)[k - 1]));
    }
}

proof fn lemma_deletes(
    needs: Needs,
    left: DiskFacts,
    right: DiskFacts,
    plan: &PatchPlan,
    k: int,
)
    requires
        0 <= k <= plan.delete_paths@.len(),
        same_on(left, right, probes::deleted(*plan)),
    ensures
        routes::with_deletes(needs, left, *plan, k) == routes::with_deletes(needs, right, *plan, k),
    decreases k,
{
    if k > 0 {
        lemma_deletes(needs, left, right, plan, k - 1);
        assert(same_at(left, right, probes::deleted(*plan)[k - 1]));
    }
}

proof fn lemma_patch_deferred(
    needs: Needs,
    left: DiskFacts,
    right: DiskFacts,
    plan: &PatchPlan,
    k: int,
)
    requires
        0 <= k <= plan.deferred_paths@.len(),
        same_on(
            left,
            right,
            probes::deferred(*plan) + probes::below(plan.install_root@, plan.deferred_paths@),
        ),
    ensures
        routes::with_patch_deferred(needs, left, *plan, k) == routes::with_patch_deferred(
            needs,
            right,
            *plan,
            k,
        ),
    decreases k,
{
    if k > 0 {
        lemma_patch_deferred(needs, left, right, plan, k - 1);
        let targets = probes::below(plan.install_root@, plan.deferred_paths@);
        let n = plan.deferred_paths@.len() as int;
        assert(same_at(left, right, (probes::deferred(*plan) + targets)[k - 1]));
        assert(same_at(left, right, (probes::deferred(*plan) + targets)[n + k - 1]));
    }
}

proof fn lemma_manifest_files(
    needs: Needs,
    left: DiskFacts,
    right: DiskFacts,
    root: PathModel,
    files: Seq<ManifestFile>,
    k: int,
)
    requires
        0 <= k <= files.len(),
        same_on(left, right, probes::manifest_targets(root, files, k)),
    ensures
        routes::with_manifest_files(needs, left, root, files, k) == routes::with_manifest_files(
            needs,
            right,
            root,
            files,
            k,
        ),
    decreases k,
{
    if k > 0 {
        let all = probes::manifest_targets(root, files, k);
        let rest = probes::manifest_targets(root, files, k - 1);
        assert forall|i: int| 0 <= i < rest.len() implies same_at(
            left,
            right,
            #[trigger] rest[i],
        ) by {
            assert(all[i] == rest[i]);
        }
        lemma_manifest_files(needs, left, right, root, files, k - 1);
        if all.len() > rest.len() {
            assert(same_at(left, right, all[all.len() - 1]));
        }
    }
}

#[verifier::spinoff_prover]
proof fn lemma_archive_task(needs: Needs, task: Task, facts: RouteFacts, disk: DiskFacts)
    requires
        routes::routable(task, facts),
        same_on(facts.disk, disk, probes::probed(task, facts)),
        task is ExtractArchiveRepairFile || task is OpenArchive || task is DiscoverArchiveDirectory
            || task is InspectArchiveIndex || task is ReadArchiveControls || task is SavePatchPlan
            || task is RetainArchiveVolume || task is CleanupArchive || task is FetchArchiveRange
            || task is FetchArchiveRepairFile,
    ensures
        routes::with_task(needs, task, facts) == routes::with_task(
            needs,
            task,
            RouteFacts { disk, ..facts },
        ),
{
    let left = facts.disk;
    let paths = probes::probed(task, facts);
    match task {
        Task::FetchArchiveRange { request, priority, .. } => {
            assert(same_at(left, disk, paths[0]));
        },
        Task::FetchArchiveRepairFile { .. } => {
            let start = Needs {
                network: Some(NetworkClass::Archive),
                ..needs
            };
            let ranges = facts.missing_ranges@;
            lemma_ranges(start, left, disk, ranges, ranges.len() as int);
        },
        Task::ExtractArchiveRepairFile { repair } => {
            let volumes = steps::models(repair.work.volumes@);
            let places = seq![repair.staging_dir@, repair.dest@];
            lemma_parts(left, disk, volumes, places);
            assert(same_at(left, disk, places[0]));
            assert(same_at(left, disk, places[1]));
            lemma_volumes(
                needs,
                left,
                disk,
                repair.work.volumes@,
                repair.volume_indices@,
                repair.volume_indices@.len() as int,
            );
        },
        Task::OpenArchive { source, .. } => match source {
            ArchiveSource::Remote { parts } => {
                lemma_opened(needs, left, disk, parts@, parts@.len() as int);
            },
            ArchiveSource::Local { volumes } => {
                lemma_local_volumes(needs, left, disk, volumes@, volumes@.len() as int);
            },
        },
        Task::DiscoverArchiveDirectory { work, .. } => {
            let indices = facts.volume_indices@;
            lemma_volumes(needs, left, disk, work.volumes@, indices, indices.len() as int);
        },
        Task::InspectArchiveIndex { work, .. } => {
            let indices = facts.volume_indices@;
            lemma_volumes(needs, left, disk, work.volumes@, indices, indices.len() as int);
        },
        Task::ReadArchiveControls { work, .. } => {
            let indices = facts.volume_indices@;
            let n = work.volumes@.len() as int;
            assert(paths =~= steps::models(work.volumes@) + paths.skip(n));
            lemma_parts(left, disk, steps::models(work.volumes@), paths.skip(n));
            assert(same_at(left, disk, paths[n]));
            assert(same_at(left, disk, paths[n + 1]));
            lemma_volumes(needs, left, disk, work.volumes@, indices, indices.len() as int);
        },
        Task::SavePatchPlan { work, .. } => {
            assert(same_at(left, disk, paths[0]));
            assert(same_at(left, disk, paths[1]));
        },
        Task::RetainArchiveVolume { work, volume_index } => {
            let volumes = steps::models(work.volumes@);
            if volume_index < work.volumes@.len() {
                assert(paths[volume_index as int] == volumes[volume_index as int]);
            }
            if volume_index < work.parts@.len() {
                assert(paths[paths.len() - 1] == work.parts@[volume_index as int].dest@);
            }
        },
        Task::CleanupArchive { work } => {
            lemma_local_volumes(needs, left, disk, work.volumes@, work.volumes@.len() as int);
        },
        _ => {},
    }
}

#[verifier::spinoff_prover]
proof fn lemma_placing_task(needs: Needs, task: Task, facts: RouteFacts, disk: DiskFacts)
    requires
        routes::routable(task, facts),
        same_on(facts.disk, disk, probes::probed(task, facts)),
        task is ExtractArchiveShard || task is FinishArchive,
    ensures
        routes::with_task(needs, task, facts) == routes::with_task(
            needs,
            task,
            RouteFacts { disk, ..facts },
        ),
{
    let left = facts.disk;
    match task {
        Task::ExtractArchiveShard { shard } => {
            let n = shard.entries@.len() as int;
            let volumes = steps::models(shard.work.volumes@);
            let staging = seq![shard.staging_dir@];
            lemma_parts(left, disk, volumes + staging, probes::shard_targets(shard, n));
            lemma_parts(left, disk, volumes, staging);
            assert(same_at(left, disk, staging[0]));
            lemma_volumes(
                needs,
                left,
                disk,
                shard.work.volumes@,
                shard.volume_indices@,
                shard.volume_indices@.len() as int,
            );
            let staged = routes::with_volumes(
                needs,
                left,
                shard.work.volumes@,
                shard.volume_indices@,
                shard.volume_indices@.len() as int,
            ).writing(left.volume(shard.staging_dir@));
            lemma_entries(staged, left, disk, shard, n);
        },
        Task::FinishArchive { work } => {
            if let Some(found) = facts.prepared {
                let files = found.deferred_commit_paths@;
                let staging = seq![found.staging_dir@];
                let sources = probes::below(found.staging_dir@, files);
                let targets = probes::below(work.dest@, files);
                lemma_parts(left, disk, staging + sources, targets);
                lemma_parts(left, disk, staging, sources);
                assert(same_at(left, disk, staging[0]));
                let start = needs.touching(left.volume(found.staging_dir@)).changing(
                    found.staging_dir@,
                );
                lemma_deferred(
                    start,
                    left,
                    disk,
                    work.dest@,
                    found.staging_dir@,
                    files,
                    files.len() as int,
                );
            }
        },
        _ => {},
    }
}

proof fn lemma_file_task(needs: Needs, task: Task, facts: RouteFacts, disk: DiskFacts)
    requires
        same_on(facts.disk, disk, probes::probed(task, facts)),
        task is Verify || task is Download || task is RepairFile || task is VerifyReuseVolume
            || task is ReuseFile || task is ProbePatchArtifact || task is MeasurePatchRelocation
            || task is Hardlink,
    ensures
        routes::with_task(needs, task, facts) == routes::with_task(
            needs,
            task,
            RouteFacts { disk, ..facts },
        ),
{
    let left = facts.disk;
    let paths = probes::probed(task, facts);
    if paths.len() > 0 {
        assert(same_at(left, disk, paths[0]));
    }
    if paths.len() > 1 {
        assert(same_at(left, disk, paths[1]));
    }
}

#[verifier::spinoff_prover]
proof fn lemma_patch_task(needs: Needs, task: Task, facts: RouteFacts, disk: DiskFacts)
    requires
        same_on(facts.disk, disk, probes::probed(task, facts)),
        task is PreparePatchApply || task is ApplyPatchEntry || task is ReleasePatchBase
            || task is ApplyPatchDeletes || task is CommitPatchDeferred || task is CleanPatchApply
            || task is ApplyExtractedVfsPatchManifest || task is ApplyDeleteManifest,
    ensures
        routes::with_task(needs, task, facts) == routes::with_task(
            needs,
            task,
            RouteFacts { disk, ..facts },
        ),
{
    let left = facts.disk;
    let paths = probes::probed(task, facts);
    match task {
        Task::PreparePatchApply { plan } => {
            lemma_prepare(needs, facts, disk, &plan);
        },
        Task::ApplyPatchEntry { plan, entry_index } => {
            if entry_index < plan.entries@.len() {
                lemma_entry(
                    needs,
                    left,
                    disk,
                    &plan,
                    &plan.entries@[entry_index as int],
                );
            }
        },
        Task::ReleasePatchBase { .. } => {
            assert(same_at(left, disk, paths[0]));
        },
        Task::ApplyPatchDeletes { plan } => {
            lemma_deletes(needs, left, disk, &plan, plan.delete_paths@.len() as int);
        },
        Task::CommitPatchDeferred { plan } => {
            lemma_patch_deferred(needs, left, disk, &plan, plan.deferred_paths@.len() as int);
        },
        Task::CleanPatchApply { .. } => {
            assert(same_at(left, disk, paths[0]));
            assert(same_at(left, disk, paths[1]));
        },
        Task::ApplyExtractedVfsPatchManifest { install_root } => {
            lemma_manifest(needs, facts, disk, install_root@);
        },
        Task::ApplyDeleteManifest { .. } => {
            assert(same_at(left, disk, paths[0]));
        },
        _ => {},
    }
}

proof fn lemma_entry(
    needs: Needs,
    left: DiskFacts,
    right: DiskFacts,
    plan: &PatchPlan,
    entry: &PlannedPatchEntry,
)
    requires
        same_on(left, right, probes::entry_paths(*plan, *entry)),
    ensures
        routes::patch_entry_needs(needs, left, *plan, *entry) == routes::patch_entry_needs(
            needs,
            right,
            *plan,
            *entry,
        ),
{
    assert(same_at(left, right, probes::entry_paths(*plan, *entry)[0]));
    match entry.source {
        PlannedPatchSource::AlreadyPresent => {},
        PlannedPatchSource::Local { .. } => {
            assert(same_at(left, right, probes::entry_paths(*plan, *entry)[1]));
        },
        PlannedPatchSource::Hdiff { .. } => {
            assert(same_at(left, right, probes::entry_paths(*plan, *entry)[1]));
            assert(same_at(left, right, probes::entry_paths(*plan, *entry)[2]));
            if plan.work_dir is Some {
                assert(same_at(left, right, probes::entry_paths(*plan, *entry)[3]));
            }
        },
    }
}

#[verifier::spinoff_prover]
proof fn lemma_prepare(needs: Needs, facts: RouteFacts, disk: DiskFacts, plan: &PatchPlan)
    requires
        same_on(facts.disk, disk, probes::prepare_paths(*plan, facts.staged_files@)),
    ensures
        routes::prepare_patch_needs(needs, facts, *plan) == routes::prepare_patch_needs(
            needs,
            RouteFacts { disk, ..facts },
            *plan,
        ),
{
    let left = facts.disk;
    let moves = steps::top_level(*plan, facts.staged_files@, facts.staged_files@.len() as int);
    let roots = seq![plan.stage_root@, plan.install_root@, plan.vfs_destination@, plan.vfs_root()];
    let dir = probes::at_most_one(plan.work_dir);
    let sources = probes::move_sources(moves);
    lemma_parts(left, disk, roots + dir + sources, probes::move_targets(moves));
    lemma_parts(left, disk, roots + dir, sources);
    lemma_parts(left, disk, roots, dir);
    assert(same_at(left, disk, roots[0]));
    assert(same_at(left, disk, roots[1]));
    assert(same_at(left, disk, roots[2]));
    assert(same_at(left, disk, roots[3]));
    if plan.work_dir is Some {
        assert(same_at(left, disk, dir[0]));
    }
    let other = RouteFacts { disk, ..facts };
    assert forall|start: Needs| #[trigger]
        routes::with_staged(start, left, moves, moves.len() as int) == routes::with_staged(
            start,
            disk,
            moves,
            moves.len() as int,
        ) by {
        lemma_staged(start, left, disk, moves, moves.len() as int);
    }
    assert(other.staged_files == facts.staged_files);
}

proof fn lemma_manifest(needs: Needs, facts: RouteFacts, disk: DiskFacts, install_root: PathModel)
    requires
        same_on(facts.disk, disk, probes::manifest_paths(facts, install_root)),
    ensures
        routes::manifest_needs(needs, facts, install_root) == routes::manifest_needs(
            needs,
            RouteFacts { disk, ..facts },
            install_root,
        ),
{
    let left = facts.disk;
    let paths = probes::manifest_paths(facts, install_root);
    let fixed = paths.take(3);
    let rest = paths.skip(3);
    assert(paths =~= fixed + rest);
    lemma_parts(left, disk, fixed, rest);
    assert(same_at(left, disk, paths[0]));
    assert(same_at(left, disk, paths[1]));
    assert(same_at(left, disk, paths[2]));
    if let Some(manifest) = facts.manifest {
        let safe = path_safety::safe_relative_path(text::trimmed(manifest.vfs_base_path@));
        if let Ok(base) = safe {
            let files = manifest.files@;
            let n = files.len() as int;
            let root = install_root.join(base);
            assert(rest =~= probes::manifest_targets(root, files, n));
            assert forall|start: Needs| #[trigger]
                routes::with_manifest_files(start, left, root, files, n)
                    == routes::with_manifest_files(start, disk, root, files, n) by {
                lemma_manifest_files(start, left, disk, root, files, n);
            }
        }
    }
}

/// What a task needs follows from what is known of the paths that it is routed
/// by. Whatever else is known of the disk changes nothing.
pub proof fn law_needs_follow_from_probed_paths(task: Task, facts: RouteFacts, disk: DiskFacts)
    requires
        routes::routable(task, facts),
        same_on(facts.disk, disk, probes::probed(task, facts)),
    ensures
        routes::task_needs(task, facts) == routes::task_needs(
            task,
            RouteFacts { disk, ..facts },
        ),
{
    let left = facts.disk;
    let needs = Needs::of(routes::lane(task));
    if let Task::OpenArchive { source, .. } = task {
        match source {
            ArchiveSource::Remote { parts } => {
                lemma_present(left, disk, routes::part_paths(parts@), parts@.len() as int);
            },
            ArchiveSource::Local { volumes } => {
                lemma_present(left, disk, steps::models(volumes@), volumes@.len() as int);
            },
        }
    }
    if task is ExtractArchiveShard || task is FinishArchive {
        lemma_placing_task(needs, task, facts, disk);
    } else if task is PreparePatchApply || task is ApplyPatchEntry || task is ReleasePatchBase
        || task is ApplyPatchDeletes || task is CommitPatchDeferred || task is CleanPatchApply
        || task is ApplyExtractedVfsPatchManifest || task is ApplyDeleteManifest {
        lemma_patch_task(needs, task, facts, disk);
    } else if task is Verify || task is Download || task is RepairFile || task is VerifyReuseVolume
        || task is ReuseFile || task is ProbePatchArtifact || task is MeasurePatchRelocation
        || task is Hardlink {
        lemma_file_task(needs, task, facts, disk);
    } else {
        lemma_archive_task(needs, task, facts, disk);
    }
}

} // verus!
