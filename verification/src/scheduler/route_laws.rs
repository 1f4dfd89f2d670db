//! What tasks ask for before they run: the files that they change are locked, the
//! volumes that they use are charged, and the room that they need is kept.

use crate::files;
use crate::patch::plan;
use crate::patch::plan::{PatchPlan, PlannedPatchEntry, PlannedPatchSource};
use crate::patch::steps;
use crate::patch::steps::CommitModel;
use crate::path::{FilePath, PathModel};
use crate::path_safety;
use crate::scheduler::config::TaskPoolConfig;
use crate::scheduler::counts;
use crate::scheduler::order;
use crate::scheduler::order::QueuedTask;
use crate::scheduler::request::{NetworkClass, ResourceRequest};
use crate::scheduler::resources;
use crate::scheduler::resources::{Claims, Usage};
use crate::scheduler::routes;
use crate::scheduler::routes::{ManifestFile, RouteFacts};
use crate::scheduler::routing;
use crate::scheduler::routing::{DiskFacts, Needs, Room};
use crate::task::{
    ArchivePart, ArchiveRangeRequest, ArchiveShardTask, ArchiveSource, Task,
};
use crate::text;
use vstd::prelude::*;

verus! {

/// Whether a request locks a file.
pub open spec fn locks(request: ResourceRequest, file: PathModel) -> bool {
    counts::lists(request.mutation_paths@, file.text())
}

/// Whether a request is charged for reading from the volume of a file.
pub open spec fn charges_reading(request: ResourceRequest, disk: DiskFacts, file: PathModel) -> bool {
    counts::lists(request.read_volumes@, disk.volume(file))
}

/// Whether a request is charged for writing to the volume of a file.
pub open spec fn charges_writing(request: ResourceRequest, disk: DiskFacts, file: PathModel) -> bool {
    counts::lists(request.write_volumes@, disk.volume(file))
}

/// Whether a request keeps room on the volume of a file.
pub open spec fn keeps_room(
    request: ResourceRequest,
    disk: DiskFacts,
    file: PathModel,
    bytes: u64,
) -> bool {
    exists|i: int|
        0 <= i < request.storage_reservations@.len() && (
        #[trigger] request.storage_reservations@[i]).volume@ == disk.volume(file)
            && request.storage_reservations@[i].bytes >= bytes
}

/// Whether a piece of an archive is kept in a file, or fetched to it.
pub open spec fn is_piece(range: ArchiveRangeRequest, file: PathModel) -> bool {
    file == range.cache_path@ || file == range.cache_path@.with_extension("range.part"@)
}

/// Whether an entry of a patch changes a file: the one that it is for, or what it is
/// made out of and is used up.
pub open spec fn entry_changes(
    plan: PatchPlan,
    entry: PlannedPatchEntry,
    file: PathModel,
) -> bool {
    ||| file == entry.destination@
    ||| entry.source matches PlannedPatchSource::Local { payload } && file
        == plan.stage_root@.join(payload@)
    ||| entry.source matches PlannedPatchSource::Hdiff { payload, .. } && file
        == plan.stage_root@.join(payload@)
}

/// Whether a shard that puts its files in place puts one there.
pub open spec fn shard_changes(shard: ArchiveShardTask, k: int, file: PathModel) -> bool {
    let name = shard.archive_index.names@[shard.entries@[k] as int]@;
    !(name.len() > 0 && name.last() == '/') && (path_safety::safe_relative_path(name) matches Ok(
        relative,
    ) && file == shard.work.dest@.join(relative))
}

/// Whether a manifest has a file changed.
pub open spec fn manifest_changes(root: PathModel, entry: ManifestFile, file: PathModel) -> bool {
    path_safety::safe_relative_path(entry.name@) matches Ok(relative) && file == root.join(relative)
}

/// Whether a task changes a file.
pub open spec fn changes_file(task: Task, facts: RouteFacts, file: PathModel) -> bool {
    match task {
        Task::FetchArchiveRange { request, .. } => is_piece(request, file),
        Task::FetchArchiveRepairFile { .. } => exists|i: int|
            0 <= i < facts.missing_ranges@.len() && is_piece(
                #[trigger] facts.missing_ranges@[i],
                file,
            ),
        Task::ExtractArchiveRepairFile { repair } => file == repair.dest@,
        Task::Download { download, resume } => file == download.dest@ || (resume is Some
            && files::neighbour(download.dest@, ".griffr.part"@) == Ok::<PathModel, Seq<char>>(
            file,
        )),
        Task::ReuseFile { repair, .. } => file == repair.dest@,
        Task::OpenArchive { source: ArchiveSource::Remote { parts }, .. } => exists|i: int|
            0 <= i < parts@.len() && (#[trigger] parts@[i]).dest@ == file,
        Task::ExtractArchiveShard { shard } => shard.direct_commit is Some && exists|k: int|
            0 <= k < shard.entries@.len() && #[trigger] shard_changes(shard, k, file),
        Task::RetainArchiveVolume { work, volume_index } => facts.full_volume_ready && volume_index
            < work.parts@.len() && file == work.parts@[volume_index as int].dest@,
        Task::FinishArchive { work } => facts.prepared matches Some(prepared)
            && prepared.patch_plan is None && exists|i: int|
            0 <= i < prepared.deferred_commit_paths@.len() && work.dest@.join(
                (#[trigger] prepared.deferred_commit_paths@[i])@,
            ) == file,
        Task::PreparePatchApply { plan } => file == plan.install_root@ || file == plan.stage_root@
            || file == plan.vfs_destination@,
        Task::ApplyPatchEntry { plan, entry_index } => entry_index < plan.entries@.len()
            && entry_changes(*plan, plan.entries@[entry_index as int], file),
        Task::ReleasePatchBase { base, .. } => file == base@,
        Task::ApplyPatchDeletes { plan } => exists|i: int|
            0 <= i < plan.delete_paths@.len() && plan.physical(
                (#[trigger] plan.delete_paths@[i])@,
            ) == file,
        Task::CommitPatchDeferred { plan } => exists|i: int|
            0 <= i < plan.deferred_paths@.len() && (plan.install_root@.join(
                (#[trigger] plan.deferred_paths@[i])@,
            ) == file || plan::deferred_path(plan.install_root@, plan.deferred_paths@[i]@) == file),
        Task::CleanPatchApply { plan, .. } => file == plan.stage_root@ || file == plan::patch_dir(
            plan.install_root@,
        ),
        Task::ApplyExtractedVfsPatchManifest { install_root } => match facts.manifest {
            None => file == install_root@,
            Some(manifest) => match path_safety::safe_relative_path(
                text::trimmed(manifest.vfs_base_path@),
            ) {
                Err(_) => file == install_root@,
                Ok(base) => exists|i: int|
                    0 <= i < manifest.files@.len() && manifest_changes(
                        install_root@.join(base),
                        #[trigger] manifest.files@[i],
                        file,
                    ),
            },
        },
        Task::ApplyDeleteManifest { install_root } => file == install_root@,
        Task::Hardlink { dest, .. } => file == dest@,
        _ => false,
    }
}

/// Whether all that is asked for by one is asked for by the other.
pub open spec fn covers(more: Needs, less: Needs) -> bool {
    &&& forall|p: Seq<char>| less.mutations.contains(p) ==> #[trigger] more.mutations.contains(p)
    &&& forall|v: Seq<char>| less.reads.contains(v) ==> #[trigger] more.reads.contains(v)
    &&& forall|v: Seq<char>| less.writes.contains(v) ==> #[trigger] more.writes.contains(v)
    &&& forall|r: Room| less.storage.contains(r) ==> #[trigger] more.storage.contains(r)
    &&& more.run == less.run
    &&& more.network == less.network
    &&& more.extract == less.extract
    &&& more.reuse_probe == less.reuse_probe
    &&& more.reuse_commit == less.reuse_commit
}

proof fn lemma_ranges(
    needs: Needs,
    disk: DiskFacts,
    ranges: Seq<ArchiveRangeRequest>,
    k: int,
    file: PathModel,
)
    requires
        0 <= k <= ranges.len(),
    ensures
        covers(routes::with_ranges(needs, disk, ranges, k), needs),
        (exists|i: int| 0 <= i < k && is_piece(#[trigger] ranges[i], file))
            ==> routes::with_ranges(needs, disk, ranges, k).mutations.contains(file.text()),
    decreases k,
{
    broadcast use vstd::seq_lib::lemma_seq_contains_after_push;

    if k > 0 {
        lemma_ranges(needs, disk, ranges, k - 1, file);
    }
}

proof fn lemma_volumes(
    needs: Needs,
    disk: DiskFacts,
    volumes: Seq<FilePath>,
    indices: Seq<usize>,
    k: int,
)
    requires
        0 <= k <= indices.len(),
    ensures
        covers(routes::with_volumes(needs, disk, volumes, indices, k), needs),
        forall|i: int|
            0 <= i < k && #[trigger] indices[i] < volumes.len() ==> routes::with_volumes(
                needs,
                disk,
                volumes,
                indices,
                k,
            ).reads.contains(disk.volume(volumes[indices[i] as int]@)),
    decreases k,
{
    broadcast use vstd::seq_lib::lemma_seq_contains_after_push;

    if k > 0 {
        lemma_volumes(needs, disk, volumes, indices, k - 1);
    }
}

proof fn lemma_parts(
    needs: Needs,
    disk: DiskFacts,
    parts: Seq<ArchivePart>,
    k: int,
    file: PathModel,
)
    requires
        0 <= k <= parts.len(),
    ensures
        covers(routes::with_parts(needs, disk, parts, k), needs),
        (exists|i: int| 0 <= i < k && (#[trigger] parts[i]).dest@ == file) ==> routes::with_parts(
            needs,
            disk,
            parts,
            k,
        ).mutations.contains(file.text()),
    decreases k,
{
    broadcast use vstd::seq_lib::lemma_seq_contains_after_push;

    if k > 0 {
        lemma_parts(needs, disk, parts, k - 1, file);
    }
}

proof fn lemma_entries(
    needs: Needs,
    disk: DiskFacts,
    shard: ArchiveShardTask,
    k: int,
    file: PathModel,
)
    requires
        0 <= k <= shard.entries@.len(),
    ensures
        covers(routes::with_entries(needs, disk, shard, k), needs),
        (exists|i: int| 0 <= i < k && #[trigger] shard_changes(shard, i, file))
            ==> routes::with_entries(needs, disk, shard, k).mutations.contains(file.text()),
    decreases k,
{
    broadcast use vstd::seq_lib::lemma_seq_contains_after_push;

    if k > 0 {
        lemma_entries(needs, disk, shard, k - 1, file);
    }
}

proof fn lemma_deferred(
    needs: Needs,
    disk: DiskFacts,
    dest: PathModel,
    staging: PathModel,
    deferred: Seq<FilePath>,
    k: int,
    file: PathModel,
)
    requires
        0 <= k <= deferred.len(),
    ensures
        covers(routes::with_deferred(needs, disk, dest, staging, deferred, k), needs),
        (exists|i: int| 0 <= i < k && dest.join((#[trigger] deferred[i])@) == file)
            ==> routes::with_deferred(
            needs,
            disk,
            dest,
            staging,
            deferred,
            k,
        ).mutations.contains(file.text()),
    decreases k,
{
    broadcast use vstd::seq_lib::lemma_seq_contains_after_push;

    if k > 0 {
        lemma_deferred(needs, disk, dest, staging, deferred, k - 1, file);
    }
}

proof fn lemma_staged(
    needs: Needs,
    disk: DiskFacts,
    moves: Seq<CommitModel>,
    k: int,
)
    requires
        0 <= k <= moves.len(),
    ensures
        covers(routes::with_staged(needs, disk, moves, k), needs),
        forall|i: int|
            0 <= i < k && disk.volume((#[trigger] moves[i]).source) != disk.volume(moves[i].target)
                && moves[i].bytes > 0 ==> routes::with_staged(
                needs,
                disk,
                moves,
                k,
            ).storage.contains(
                (Room {
                    volume: disk.volume(moves[i].target),
                    probe: moves[i].target,
                    bytes: moves[i].bytes,
                }),
            ),
    decreases k,
{
    broadcast use vstd::seq_lib::lemma_seq_contains_after_push;

    if k > 0 {
        lemma_staged(needs, disk, moves, k - 1);
    }
}

proof fn lemma_deletes(needs: Needs, disk: DiskFacts, plan: &PatchPlan, k: int, file: PathModel)
    requires
        0 <= k <= plan.delete_paths@.len(),
    ensures
        covers(routes::with_deletes(needs, disk, *plan, k), needs),
        (exists|i: int|
            0 <= i < k && plan.physical((#[trigger] plan.delete_paths@[i])@) == file)
            ==> routes::with_deletes(needs, disk, *plan, k).mutations.contains(file.text()),
    decreases k,
{
    broadcast use vstd::seq_lib::lemma_seq_contains_after_push;

    if k > 0 {
        lemma_deletes(needs, disk, plan, k - 1, file);
    }
}

/// Whether a file that a patch puts in place last is moved from a place to another.
pub open spec fn moves_late(plan: PatchPlan, i: int, file: PathModel) -> bool {
    plan.install_root@.join(plan.deferred_paths@[i]@) == file || plan::deferred_path(
        plan.install_root@,
        plan.deferred_paths@[i]@,
    ) == file
}

proof fn lemma_patch_deferred(
    needs: Needs,
    disk: DiskFacts,
    plan: &PatchPlan,
    k: int,
    file: PathModel,
)
    requires
        0 <= k <= plan.deferred_paths@.len(),
    ensures
        covers(routes::with_patch_deferred(needs, disk, *plan, k), needs),
        (exists|i: int| 0 <= i < k && #[trigger] moves_late(*plan, i, file))
            ==> routes::with_patch_deferred(needs, disk, *plan, k).mutations.contains(file.text()),
    decreases k,
{
    broadcast use vstd::seq_lib::lemma_seq_contains_after_push;

    if k > 0 {
        lemma_patch_deferred(needs, disk, plan, k - 1, file);
    }
}

proof fn lemma_manifest_files(
    needs: Needs,
    disk: DiskFacts,
    root: PathModel,
    list: Seq<ManifestFile>,
    k: int,
    file: PathModel,
)
    requires
        0 <= k <= list.len(),
    ensures
        covers(routes::with_manifest_files(needs, disk, root, list, k), needs),
        (exists|i: int| 0 <= i < k && manifest_changes(root, #[trigger] list[i], file))
            ==> routes::with_manifest_files(needs, disk, root, list, k).mutations.contains(
            file.text(),
        ),
    decreases k,
{
    broadcast use vstd::seq_lib::lemma_seq_contains_after_push;

    if k > 0 {
        lemma_manifest_files(needs, disk, root, list, k - 1, file);
    }
}

proof fn lemma_prepare(needs: Needs, facts: RouteFacts, plan: &PatchPlan, file: PathModel)
    ensures
        file == plan.install_root@ || file == plan.stage_root@ || file == plan.vfs_destination@
            ==> routes::prepare_patch_needs(needs, facts, *plan).mutations.contains(file.text()),
{
    broadcast use vstd::seq_lib::lemma_seq_contains_after_push;

    let disk = facts.disk;
    let base = needs.reading(disk.volume(plan.stage_root@)).writing(
        disk.volume(plan.install_root@),
    ).writing(disk.volume(plan.vfs_destination@));
    let worked = match plan.work_dir {
        Some(dir) => base.writing(disk.volume(dir@)),
        None => base,
    };
    let changed = worked.changing(plan.install_root@).changing(plan.stage_root@).changing(
        plan.vfs_destination@,
    );
    let moved = if disk.volume(plan.vfs_root()) != disk.volume(plan.vfs_destination@)
        && facts.relocation_bytes is Some {
        changed.reserving(disk, plan.vfs_destination@, facts.relocation_bytes->0)
    } else {
        changed
    };
    let moves = steps::top_level(
        *plan,
        facts.staged_files@,
        facts.staged_files@.len() as int,
    );
    lemma_staged(moved, disk, moves, moves.len() as int);
}

#[verifier::spinoff_prover]
#[verifier::rlimit(60)]
proof fn lemma_locked(task: Task, facts: RouteFacts, file: PathModel)
    requires
        changes_file(task, facts, file),
    ensures
        routes::with_task(Needs::of(routes::lane(task)), task, facts).mutations.contains(
            file.text(),
        ),
{
    broadcast use vstd::seq_lib::lemma_seq_contains_after_push;

    let needs = Needs::of(routes::lane(task));
    let disk = facts.disk;
    match task {
        Task::FetchArchiveRepairFile { .. } => {
            lemma_ranges(
                (Needs { network: Some(NetworkClass::Archive), ..needs }),
                disk,
                facts.missing_ranges@,
                facts.missing_ranges@.len() as int,
                file,
            );
        },
        Task::ExtractArchiveRepairFile { repair } => {},
        Task::OpenArchive { source, .. } => match source {
            ArchiveSource::Remote { parts } => {
                lemma_parts(needs, disk, parts@, parts@.len() as int, file);
            },
            ArchiveSource::Local { .. } => {},
        },
        Task::ExtractArchiveShard { shard } => {
            let staged = routes::with_volumes(
                needs,
                disk,
                shard.work.volumes@,
                shard.volume_indices@,
                shard.volume_indices@.len() as int,
            ).writing(disk.volume(shard.staging_dir@));
            lemma_entries(staged, disk, shard, shard.entries@.len() as int, file);
        },
        Task::FinishArchive { work } => {
            let prepared = facts.prepared->0;
            lemma_deferred(
                needs.touching(disk.volume(prepared.staging_dir@)).changing(
                    prepared.staging_dir@,
                ),
                disk,
                work.dest@,
                prepared.staging_dir@,
                prepared.deferred_commit_paths@,
                prepared.deferred_commit_paths@.len() as int,
                file,
            );
        },
        Task::PreparePatchApply { plan } => {
            lemma_prepare(needs, facts, &plan, file);
        },
        Task::ApplyPatchDeletes { plan } => {
            lemma_deletes(needs, disk, &plan, plan.delete_paths@.len() as int, file);
        },
        Task::CommitPatchDeferred { plan } => {
            lemma_patch_deferred(needs, disk, &plan, plan.deferred_paths@.len() as int, file);
            let i = choose|i: int|
                0 <= i < plan.deferred_paths@.len() && (plan.install_root@.join(
                    (#[trigger] plan.deferred_paths@[i])@,
                ) == file || plan::deferred_path(
                    plan.install_root@,
                    plan.deferred_paths@[i]@,
                ) == file);
            assert(moves_late(*plan, i, file));
        },
        Task::ApplyExtractedVfsPatchManifest { install_root } => {
            if let Some(manifest) = facts.manifest {
                if let Ok(base) = path_safety::safe_relative_path(
                    text::trimmed(manifest.vfs_base_path@),
                ) {
                    lemma_manifest_files(
                        needs.reading(
                            disk.volume(install_root@.child(plan::PATCH_MANIFEST_NAME@)),
                        ).reading(disk.volume(install_root@.child(plan::PATCH_STAGE_DIR@))),
                        disk,
                        install_root@.join(base),
                        manifest.files@,
                        manifest.files@.len() as int,
                        file,
                    );
                }
            }
        },
        _ => {},
    }
}

/// A task locks every file that it changes, so that no other task changes it while
/// the task runs.
pub proof fn law_changed_files_are_locked(
    task: Task,
    facts: RouteFacts,
    request: ResourceRequest,
    file: PathModel,
)
    requires
        routing::is_normal(request, routes::task_needs(task, facts)),
        changes_file(task, facts, file),
    ensures
        locks(request, file),
{
    lemma_locked(task, facts, file);
    assert(routes::task_needs(task, facts).mutations.contains(file.text()));
    assert(counts::lists(request.mutation_paths@, file.text()));
}

proof fn lemma_room(storage: Seq<Room>, room: Room)
    requires
        storage.contains(room),
    ensures
        routing::room_probe(storage, room.volume) is Some,
        routing::room_total(storage, room.volume) >= room.bytes,
    decreases storage.len(),
{
    let i = choose|i: int| 0 <= i < storage.len() && storage[i] == room;
    let rest = storage.drop_last();
    lemma_total_is_no_debt(rest, room.volume);
    if i < rest.len() {
        assert(rest[i] == room);
        lemma_room(rest, room);
    }
}

proof fn lemma_total_is_no_debt(storage: Seq<Room>, volume: Seq<char>)
    ensures
        0 <= routing::room_total(storage, volume) <= u64::MAX,
    decreases storage.len(),
{
    if storage.len() > 0 {
        lemma_total_is_no_debt(storage.drop_last(), volume);
    }
}

proof fn lemma_kept(
    request: ResourceRequest,
    needs: Needs,
    disk: DiskFacts,
    file: PathModel,
    probe: PathModel,
    bytes: u64,
)
    requires
        routing::is_normal(request, needs),
        needs.storage.contains(Room { volume: disk.volume(file), probe, bytes }),
    ensures
        keeps_room(request, disk, file, bytes),
{
    let room = Room { volume: disk.volume(file), probe, bytes };
    lemma_room(needs.storage, room);
    let list = routing::rooms(request.storage_reservations@);
    let i = choose|i: int| 0 <= i < list.len() && (#[trigger] list[i]).volume == room.volume;
    assert(routing::is_merged_room(list[i], needs.storage));
    assert(request.storage_reservations@[i].volume@ == disk.volume(file));
}

/// A download is charged for the network while it transfers, in the class of its
/// file, and keeps room for what is left of it.
#[verifier::spinoff_prover]
#[verifier::rlimit(40)]
pub proof fn law_transfers_keep_room(
    task: Task,
    facts: RouteFacts,
    request: ResourceRequest,
    bytes: u64,
)
    requires
        routing::is_normal(request, routes::task_needs(task, facts)),
        bytes > 0,
    ensures
        task matches Task::Download { download, resume: Some(state) } ==> charges_writing(
            request,
            facts.disk,
            download.dest@,
        ) && (request.network is Some && (request.network->0 is Vfs
            <==> download.transfer_class is Vfs)) && (download.expected_size matches Some(size)
            ==> (bytes + state.offset == size ==> keeps_room(
            request,
            facts.disk,
            download.dest@,
            bytes,
        ))),
        task matches Task::Download { download, resume: None } ==> charges_reading(
            request,
            facts.disk,
            download.dest@,
        ) && request.network is None,
{
    broadcast use vstd::seq_lib::lemma_seq_contains_after_push;

    let all = routes::task_needs(task, facts);
    if let Task::Download { download, resume } = task {
        let volume = facts.disk.volume(download.dest@);
        if let Some(state) = resume {
            assert(all.writes.contains(volume));
            if let Some(size) = download.expected_size {
                if bytes + state.offset == size {
                    assert(all.storage.contains(
                        Room { volume, probe: download.dest@, bytes },
                    ));
                    lemma_kept(
                        request,
                        all,
                        facts.disk,
                        download.dest@,
                        download.dest@,
                        bytes,
                    );
                }
            }
        } else {
            assert(all.reads.contains(volume));
        }
    }
}

/// An entry of a patch is charged for the file that it writes and for those that it
/// reads, and keeps room for its file wherever it is made anew.
#[verifier::spinoff_prover]
#[verifier::rlimit(40)]
pub proof fn law_patched_files_keep_room(task: Task, facts: RouteFacts, request: ResourceRequest)
    requires
        routing::is_normal(request, routes::task_needs(task, facts)),
    ensures
        task matches Task::ApplyPatchEntry { plan, entry_index } ==> (entry_index
            < plan.entries@.len() ==> entry_is_charged(
            *plan,
            plan.entries@[entry_index as int],
            facts.disk,
            request,
        )),
{
    broadcast use vstd::seq_lib::lemma_seq_contains_after_push;

    let all = routes::task_needs(task, facts);
    let disk = facts.disk;
    if let Task::ApplyPatchEntry { plan, entry_index } = task {
        if entry_index < plan.entries@.len() {
            let entry = plan.entries@[entry_index as int];
            let target = entry.destination@;
            let bytes = entry.expected_size;
            match entry.source {
                PlannedPatchSource::AlreadyPresent => {
                    assert(all.reads.contains(disk.volume(target)));
                },
                PlannedPatchSource::Local { payload } => {
                    let source = plan.stage_root@.join(payload@);
                    assert(all.reads.contains(disk.volume(source)));
                    assert(all.writes.contains(disk.volume(target)));
                    if disk.volume(source) != disk.volume(target) && bytes > 0 {
                        lemma_kept(request, all, disk, target, target, bytes);
                    }
                },
                PlannedPatchSource::Hdiff { base, payload, .. } => {
                    let with = plan.stage_root@.join(payload@);
                    assert(all.reads.contains(disk.volume(base@)));
                    assert(all.reads.contains(disk.volume(with)));
                    assert(all.writes.contains(disk.volume(target)));
                    if bytes > 0 {
                        lemma_kept(request, all, disk, target, target, bytes);
                        if let Some(dir) = plan.work_dir {
                            lemma_kept(request, all, disk, dir@, dir@, bytes);
                        }
                    }
                },
            }
        }
    }
}

/// Whether a request is charged for what an entry of a patch does.
pub open spec fn entry_is_charged(
    plan: PatchPlan,
    entry: PlannedPatchEntry,
    disk: DiskFacts,
    request: ResourceRequest,
) -> bool {
    let target = entry.destination@;
    match entry.source {
        PlannedPatchSource::AlreadyPresent => charges_reading(request, disk, target),
        PlannedPatchSource::Local { payload } => {
            let source = plan.stage_root@.join(payload@);
            &&& charges_reading(request, disk, source)
            &&& charges_writing(request, disk, target)
            &&& disk.volume(source) != disk.volume(target) && entry.expected_size > 0 ==> keeps_room(
                request,
                disk,
                target,
                entry.expected_size,
            )
        },
        PlannedPatchSource::Hdiff { base, payload, .. } => {
            &&& charges_reading(request, disk, base@)
            &&& charges_reading(request, disk, plan.stage_root@.join(payload@))
            &&& charges_writing(request, disk, target)
            &&& entry.expected_size > 0 ==> keeps_room(request, disk, target, entry.expected_size)
            &&& entry.expected_size > 0 ==> (plan.work_dir matches Some(dir) ==> keeps_room(
                request,
                disk,
                dir@,
                entry.expected_size,
            ))
        },
    }
}

/// A copy of a file, a repair and a piece of an archive are charged for what they
/// read and write and keep room for it.
#[verifier::spinoff_prover]
#[verifier::rlimit(40)]
pub proof fn law_copies_keep_room(task: Task, facts: RouteFacts, request: ResourceRequest)
    requires
        routing::is_normal(request, routes::task_needs(task, facts)),
    ensures
        task matches Task::ReuseFile { source, copy_only: true, repair, .. } ==> charges_reading(
            request,
            facts.disk,
            source@,
        ) && charges_writing(request, facts.disk, repair.dest@) && (repair.expected_size > 0
            ==> keeps_room(request, facts.disk, repair.dest@, repair.expected_size)),
        task matches Task::ReuseFile { copy_only: false, .. } ==> request.reuse_commit,
        task matches Task::ExtractArchiveRepairFile { repair } ==> charges_writing(
            request,
            facts.disk,
            repair.dest@,
        ) && charges_writing(request, facts.disk, repair.staging_dir@) && (repair.expected_size > 0
            ==> keeps_room(request, facts.disk, repair.staging_dir@, repair.expected_size)
            && keeps_room(request, facts.disk, repair.dest@, repair.expected_size)),
        task matches Task::Verify { path, .. } ==> charges_reading(request, facts.disk, path@),
        task matches Task::VerifyReuseVolume { candidates, .. } ==> request.reuse_probe && (
        candidates@.len() > 0 ==> charges_reading(request, facts.disk, candidates@[0]@)),
        task matches Task::ExtractArchiveShard { shard } ==> charges_writing(
            request,
            facts.disk,
            shard.staging_dir@,
        ),
{
    broadcast use vstd::seq_lib::lemma_seq_contains_after_push;

    let all = routes::task_needs(task, facts);
    let disk = facts.disk;
    match task {
        Task::ReuseFile { source, copy_only, repair, .. } => {
            if copy_only {
                assert(all.reads.contains(disk.volume(source@)));
                assert(all.writes.contains(disk.volume(repair.dest@)));
                if repair.expected_size > 0 {
                    lemma_kept(
                        request,
                        all,
                        disk,
                        repair.dest@,
                        repair.dest@,
                        repair.expected_size,
                    );
                }
            }
        },
        Task::ExtractArchiveRepairFile { repair } => {
            assert(all.writes.contains(disk.volume(repair.dest@)));
            assert(all.writes.contains(disk.volume(repair.staging_dir@)));
            if repair.expected_size > 0 {
                lemma_kept(
                    request,
                    all,
                    disk,
                    repair.staging_dir@,
                    repair.staging_dir@,
                    repair.expected_size,
                );
                if disk.volume(repair.staging_dir@) == disk.volume(repair.dest@) {
                    lemma_kept(
                        request,
                        all,
                        disk,
                        repair.dest@,
                        repair.staging_dir@,
                        repair.expected_size,
                    );
                } else {
                    lemma_kept(
                        request,
                        all,
                        disk,
                        repair.dest@,
                        repair.dest@,
                        repair.expected_size,
                    );
                }
            }
        },
        Task::Verify { path, .. } => {
            assert(all.reads.contains(disk.volume(path@)));
        },
        Task::VerifyReuseVolume { candidates, .. } => {
            if candidates@.len() > 0 {
                assert(all.reads.contains(disk.volume(candidates@[0]@)));
            }
        },
        Task::ExtractArchiveShard { shard } => {
            let staged = routes::with_volumes(
                Needs::of(routes::lane(task)),
                disk,
                shard.work.volumes@,
                shard.volume_indices@,
                shard.volume_indices@.len() as int,
            ).writing(disk.volume(shard.staging_dir@));
            lemma_entries(staged, disk, shard, shard.entries@.len() as int, shard.staging_dir@);
            assert(staged.writes.contains(disk.volume(shard.staging_dir@)));
            assert(all.writes.contains(disk.volume(shard.staging_dir@)));
        },
        _ => {},
    }
}

/// A shard that keeps what it extracts has room for all of it.
#[verifier::spinoff_prover]
#[verifier::rlimit(40)]
pub proof fn law_shards_keep_room(task: Task, facts: RouteFacts, request: ResourceRequest, i: int)
    requires
        routing::is_normal(request, routes::task_needs(task, facts)),
    ensures
        task matches Task::ExtractArchiveShard { shard } ==> (shard.direct_commit is None && 0 <= i
            < shard.entries@.len() && shard.archive_index.entry_sizes@[shard.entries@[i] as int] > 0
            ==> keeps_room(
            request,
            facts.disk,
            shard.staging_dir@,
            shard.archive_index.entry_sizes@[shard.entries@[i] as int],
        )),
        task matches Task::ExtractArchiveShard { shard } ==> request.extract && (0 <= i
            < shard.volume_indices@.len() && shard.volume_indices@[i] < shard.work.volumes@.len()
            ==> charges_reading(
            request,
            facts.disk,
            shard.work.volumes@[shard.volume_indices@[i] as int]@,
        )),
{
    broadcast use vstd::seq_lib::lemma_seq_contains_after_push;

    let all = routes::task_needs(task, facts);
    let disk = facts.disk;
    if let Task::ExtractArchiveShard { shard } = task {
        let n = shard.entries@.len() as int;
        let read = routes::with_volumes(
            Needs::of(routes::lane(task)),
            disk,
            shard.work.volumes@,
            shard.volume_indices@,
            shard.volume_indices@.len() as int,
        );
        let staged = read.writing(disk.volume(shard.staging_dir@));
        lemma_volumes(
            Needs::of(routes::lane(task)),
            disk,
            shard.work.volumes@,
            shard.volume_indices@,
            shard.volume_indices@.len() as int,
        );
        lemma_entries(staged, disk, shard, n, shard.staging_dir@);
        if 0 <= i < shard.volume_indices@.len() && shard.volume_indices@[i]
            < shard.work.volumes@.len() {
            let volume = disk.volume(shard.work.volumes@[shard.volume_indices@[i] as int]@);
            assert(read.reads.contains(volume));
            assert(all.reads.contains(volume));
        }
        if shard.direct_commit is None && 0 <= i < n
            && shard.archive_index.entry_sizes@[shard.entries@[i] as int] > 0 {
            lemma_staged_bytes(shard, n, i);
            let bytes = routes::staged_bytes(shard, n);
            assert(all.storage.contains(
                Room { volume: disk.volume(shard.staging_dir@), probe: shard.staging_dir@, bytes },
            ));
            lemma_kept(request, all, disk, shard.staging_dir@, shard.staging_dir@, bytes);
        }
    }
}

proof fn lemma_staged_bytes(shard: ArchiveShardTask, k: int, i: int)
    requires
        0 <= i < k <= shard.entries@.len(),
    ensures
        routes::staged_bytes(shard, k) >= shard.archive_index.entry_sizes@[shard.entries@[i] as int],
    decreases k,
{
    if i < k - 1 {
        lemma_staged_bytes(shard, k - 1, i);
    }
}

/// Whether needs are those of a task as far as network, lane and places go.
pub open spec fn uses_places(task: Task, found: Needs) -> bool {
    &&& found.network is Some <==> match task {
        Task::FetchArchiveRange { .. } => true,
        Task::FetchArchiveRepairFile { .. } => true,
        Task::Download { resume, .. } => resume is Some,
        _ => false,
    }
    &&& found.network is Some ==> found.run is AsyncIo
    &&& task matches Task::FetchArchiveRange { priority, .. } ==> (found.network == Some(
        NetworkClass::ArchiveBackground,
    ) <==> priority is RetentionBackground)
    &&& found.extract <==> task is ExtractArchiveShard || task is ExtractArchiveRepairFile
    &&& found.reuse_probe <==> task is VerifyReuseVolume
    &&& found.reuse_commit <==> (task matches Task::ReuseFile { copy_only, .. } && !copy_only)
}

#[verifier::spinoff_prover]
#[verifier::rlimit(60)]
proof fn lemma_places(task: Task, facts: RouteFacts)
    ensures
        uses_places(task, routes::with_task(Needs::of(routes::lane(task)), task, facts)),
{
    let needs = Needs::of(routes::lane(task));
    let disk = facts.disk;
    match task {
        Task::FetchArchiveRepairFile { repair } => {
            lemma_ranges(
                (Needs { network: Some(NetworkClass::Archive), ..needs }),
                disk,
                facts.missing_ranges@,
                facts.missing_ranges@.len() as int,
                repair.dest@,
            );
        },
        Task::ExtractArchiveRepairFile { repair } => {
            lemma_volumes(
                needs,
                disk,
                repair.work.volumes@,
                repair.volume_indices@,
                repair.volume_indices@.len() as int,
            );
        },
        Task::OpenArchive { source, .. } => match source {
            ArchiveSource::Remote { parts } => {
                if parts@.len() > 0 {
                    lemma_parts(needs, disk, parts@, parts@.len() as int, parts@[0].dest@);
                }
            },
            ArchiveSource::Local { volumes } => {
                lemma_local_volumes(needs, disk, volumes@, volumes@.len() as int);
            },
        },
        Task::DiscoverArchiveDirectory { work, .. } => {
            lemma_volumes(
                needs,
                disk,
                work.volumes@,
                facts.volume_indices@,
                facts.volume_indices@.len() as int,
            );
        },
        Task::InspectArchiveIndex { work, .. } => {
            lemma_volumes(
                needs,
                disk,
                work.volumes@,
                facts.volume_indices@,
                facts.volume_indices@.len() as int,
            );
        },
        Task::ReadArchiveControls { work, .. } => {
            lemma_volumes(
                needs,
                disk,
                work.volumes@,
                facts.volume_indices@,
                facts.volume_indices@.len() as int,
            );
        },
        Task::ExtractArchiveShard { shard } => {
            lemma_volumes(
                needs,
                disk,
                shard.work.volumes@,
                shard.volume_indices@,
                shard.volume_indices@.len() as int,
            );
            let staged = routes::with_volumes(
                needs,
                disk,
                shard.work.volumes@,
                shard.volume_indices@,
                shard.volume_indices@.len() as int,
            ).writing(disk.volume(shard.staging_dir@));
            lemma_entries(staged, disk, shard, shard.entries@.len() as int, shard.staging_dir@);
        },
        Task::FinishArchive { work } => {
            if let Some(prepared) = facts.prepared {
                lemma_deferred(
                    needs.touching(disk.volume(prepared.staging_dir@)).changing(
                        prepared.staging_dir@,
                    ),
                    disk,
                    work.dest@,
                    prepared.staging_dir@,
                    prepared.deferred_commit_paths@,
                    prepared.deferred_commit_paths@.len() as int,
                    work.dest@,
                );
            }
        },
        Task::PreparePatchApply { plan } => {
            lemma_prepare_flags(needs, facts, &plan);
        },
        Task::ApplyPatchDeletes { plan } => {
            lemma_deletes(needs, disk, &plan, plan.delete_paths@.len() as int, plan.install_root@);
        },
        Task::CommitPatchDeferred { plan } => {
            lemma_patch_deferred(
                needs,
                disk,
                &plan,
                plan.deferred_paths@.len() as int,
                plan.install_root@,
            );
        },
        Task::CleanupArchive { work } => {
            lemma_touched(needs, disk, work.volumes@, work.volumes@.len() as int);
        },
        Task::ApplyExtractedVfsPatchManifest { install_root } => {
            if let Some(manifest) = facts.manifest {
                if let Ok(base) = path_safety::safe_relative_path(
                    text::trimmed(manifest.vfs_base_path@),
                ) {
                    lemma_manifest_files(
                        needs.reading(
                            disk.volume(install_root@.child(plan::PATCH_MANIFEST_NAME@)),
                        ).reading(disk.volume(install_root@.child(plan::PATCH_STAGE_DIR@))),
                        disk,
                        install_root@.join(base),
                        manifest.files@,
                        manifest.files@.len() as int,
                        install_root@,
                    );
                }
            }
        },
        _ => {},
    }
}

/// Only tasks that transfer use the network, and those run beside others; only those
/// that extract take a place for extracting.
pub proof fn law_only_transfers_use_the_network(
    task: Task,
    facts: RouteFacts,
    request: ResourceRequest,
)
    requires
        routing::is_normal(request, routes::task_needs(task, facts)),
    ensures
        request.network is Some <==> match task {
            Task::FetchArchiveRange { .. } => true,
            Task::FetchArchiveRepairFile { .. } => true,
            Task::Download { resume, .. } => resume is Some,
            _ => false,
        },
        request.network is Some ==> request.run is AsyncIo,
        task matches Task::FetchArchiveRange { priority, .. } ==> (request.network == Some(
            NetworkClass::ArchiveBackground,
        ) <==> priority is RetentionBackground),
        request.extract <==> task is ExtractArchiveShard || task is ExtractArchiveRepairFile,
        request.reuse_probe <==> task is VerifyReuseVolume,
        request.reuse_commit <==> (task matches Task::ReuseFile { copy_only, .. } && !copy_only),
{
    lemma_places(task, facts);
}

proof fn lemma_local_volumes(needs: Needs, disk: DiskFacts, volumes: Seq<FilePath>, k: int)
    requires
        0 <= k <= volumes.len(),
    ensures
        covers(routes::with_local_volumes(needs, disk, volumes, k), needs),
    decreases k,
{
    broadcast use vstd::seq_lib::lemma_seq_contains_after_push;

    if k > 0 {
        lemma_local_volumes(needs, disk, volumes, k - 1);
    }
}

proof fn lemma_touched(needs: Needs, disk: DiskFacts, volumes: Seq<FilePath>, k: int)
    requires
        0 <= k <= volumes.len(),
    ensures
        covers(routes::with_touched(needs, disk, volumes, k), needs),
    decreases k,
{
    broadcast use vstd::seq_lib::lemma_seq_contains_after_push;

    if k > 0 {
        lemma_touched(needs, disk, volumes, k - 1);
    }
}

proof fn lemma_prepare_flags(needs: Needs, facts: RouteFacts, plan: &PatchPlan)
    ensures
        covers(routes::prepare_patch_needs(needs, facts, *plan), needs),
{
    broadcast use vstd::seq_lib::lemma_seq_contains_after_push;

    let disk = facts.disk;
    let base = needs.reading(disk.volume(plan.stage_root@)).writing(
        disk.volume(plan.install_root@),
    ).writing(disk.volume(plan.vfs_destination@));
    let worked = match plan.work_dir {
        Some(dir) => base.writing(disk.volume(dir@)),
        None => base,
    };
    let changed = worked.changing(plan.install_root@).changing(plan.stage_root@).changing(
        plan.vfs_destination@,
    );
    let moved = if disk.volume(plan.vfs_root()) != disk.volume(plan.vfs_destination@)
        && facts.relocation_bytes is Some {
        changed.reserving(disk, plan.vfs_destination@, facts.relocation_bytes->0)
    } else {
        changed
    };
    let moves = steps::top_level(
        *plan,
        facts.staged_files@,
        facts.staged_files@.len() as int,
    );
    lemma_staged(moved, disk, moves, moves.len() as int);
}

/// A task that saves a volume of an archive is admitted only while no other saves to
/// the same volume, one that puts files in place only while few do, and one that looks
/// for a file to use again only while few are being put in place.
pub proof fn law_admission_keeps_archive_limits(
    usage: Usage,
    request: ResourceRequest,
    config: TaskPoolConfig,
    claims: Claims,
    volume: Seq<char>,
)
    requires
        usage.admits(request, config, claims),
    ensures
        counts::lists(request.archive_save_volumes@, volume) ==> usage.savers[volume] == 0,
        routing::pairs(request.archive_commit_volumes@).contains((volume, false))
            ==> usage.commits[volume] < 1,
        routing::pairs(request.archive_commit_volumes@).contains((volume, true))
            ==> usage.commits[volume] < 3,
        request.reuse_probe && usage.reuse_commits + claims.reuse_commits <= usize::MAX
            && config.reuse_queue_limit > 0 ==> usage.reuse_commits + claims.reuse_commits
            < config.reuse_queue_limit,
{
    let list = request.archive_commit_volumes@;
    let named = routing::pairs(list);
    if named.contains((volume, false)) {
        let k = choose|k: int| 0 <= k < named.len() && named[k] == (volume, false);
        assert(list[k].0@ == volume && !list[k].1);
    }
    if named.contains((volume, true)) {
        let k = choose|k: int| 0 <= k < named.len() && named[k] == (volume, true);
        assert(list[k].0@ == volume && list[k].1);
    }
}

/// While a task waits that could write to a volume, one that reads from it is admitted
/// only if there is still room for the writer.
pub proof fn law_room_is_left_for_waiting_writers(
    usage: Usage,
    request: ResourceRequest,
    config: TaskPoolConfig,
    claims: Claims,
    volume: Seq<char>,
)
    requires
        usage.counted(),
        usage.admits(request, config, claims),
        claims.reserved.contains(volume),
        counts::lists(request.read_volumes@, volume),
        !counts::lists(request.write_volumes@, volume),
        usage.writes[volume] < config.policy(volume).write_limit,
        usage.reads[volume] + usage.writes[volume] + 2 <= usize::MAX,
        config.policy(volume).streaming_mode !is Exclusive,
    ensures
        usage.reads[volume] + usage.writes[volume] + 2 <= config.policy(
            volume,
        ).streaming_pressure_limit,
{
    assert(resources::wants(request, volume));
}

/// A volume is kept free for a writer if and only if a task waits that writes to it and
/// that nothing else holds back.
pub proof fn law_volumes_are_kept_for_waiting_writers(
    waiting: Seq<QueuedTask>,
    usage: Usage,
    config: TaskPoolConfig,
    volume: Seq<char>,
)
    ensures
        order::claims_of(waiting, usage, config).reserved.contains(volume) <==> exists|k: int|
            0 <= k < waiting.len() && counts::lists(
                (#[trigger] waiting[k]).resources.write_volumes@,
                volume,
            ) && has_a_place(usage, waiting[k].resources, config),
{
    if exists|k: int|
        0 <= k < waiting.len() && counts::lists(
            (#[trigger] waiting[k]).resources.write_volumes@,
            volume,
        ) && has_a_place(usage, waiting[k].resources, config) {
        let k = choose|k: int|
            0 <= k < waiting.len() && counts::lists(
                (#[trigger] waiting[k]).resources.write_volumes@,
                volume,
            ) && has_a_place(usage, waiting[k].resources, config);
        assert(order::reserves(waiting[k], usage, config, volume));
    }
}

/// Whether there is a place for a task to run, and no file that it changes is being
/// changed.
pub open spec fn has_a_place(usage: Usage, request: ResourceRequest, config: TaskPoolConfig) -> bool {
    &&& request.run is Cpu ==> usage.cpu < config.cpu_slots
    &&& request.run is Blocking ==> usage.blocking < config.blocking_slots
    &&& request.extract ==> usage.extract < config.extract_slots
    &&& !usage.conflicts(request.mutation_paths@)
}

/// Where nothing runs and no volume is kept for a writer, every task is admitted.
pub proof fn law_idle_pools_admit_every_task(request: ResourceRequest, config: TaskPoolConfig)
    requires
        config.fault() is None,
        forall|volume: Seq<char>|
            ({
                let policy = #[trigger] config.policy(volume);
                policy.read_limit > 0 && policy.write_limit > 0 && policy.metadata_limit > 0
                    && policy.streaming_pressure_limit > 1
            }),
    ensures
        Usage::idle().admits(request, config, (Claims { reserved: Set::empty(), reuse_commits: 0 })),
{
    let claims = Claims { reserved: Set::empty(), reuse_commits: 0 };
    let usage = Usage::idle();
    assert forall|volume: Seq<char>| #[trigger] resources::wants(
        request,
        volume,
    ) implies usage.volume_admits(request, config.policy(volume), claims, volume) by {
        let policy = config.policy(volume);
        assert(usage.reads[volume] == 0);
        assert(usage.writes[volume] == 0);
        assert(usage.metadata[volume] == 0);
    }
}

} // verus!
