//! The order in which an archive is fetched, extracted and put in place.

use crate::archive::extract;
use crate::archive::extract::{ExtractionPlan, PlannedShard};
use crate::archive::layout_laws;
use crate::archive::staged;
use crate::archive::staged::{StagedArchive, StagedNode, StagedShard, StagedTask};
use crate::event::WorkerEvent;
use crate::graph::expansion;
use crate::graph::expansion::LocalNode;
use crate::graph::node::TaskDependencyToken;
use crate::task::{ArchiveWork, Task};
use std::sync::Arc;
use vstd::prelude::*;

verus! {

/// Whether a task extracts the entries of a shard of an archive.
pub open spec fn extracts_shard(node: LocalNode, plan: ExtractionPlan, shard: PlannedShard) -> bool {
    node.task matches Task::ExtractArchiveShard { shard: task } && task.work == plan.work
        && task.archive_index == plan.archive_index && task.staging_dir@ == plan.staging_dir@
        && task.entries == shard.entries && task.volume_indices == shard.volume_indices && (
    task.direct_commit is Some <==> shard.direct && plan.direct_files > 0) && (
    task.range_release is Some <==> plan.work.remote && plan.work.retention is DiscardVolumes)
}

/// Every shard of an archive is extracted, by a task that waits for each piece that is
/// fetched for it and for all that brings the volumes that it reads.
pub proof fn law_shards_wait_for_what_they_read(
    nodes: Seq<LocalNode>,
    plan: ExtractionPlan,
    shards: Seq<PlannedShard>,
    s: int,
    r: int,
    v: int,
    token: TaskDependencyToken,
)
    requires
        extract::is_extraction(nodes, plan, shards),
        nodes.len() <= u64::MAX,
        0 <= s < shards.len(),
    ensures
        exists|p: int|
            0 <= p < nodes.len() && #[trigger] extracts_shard(nodes[p], plan, shards[s]) && (
            plan.work.remote && 0 <= r < shards[s].requests@.len() ==> waits_for_piece(
                nodes,
                p,
                plan,
                shards[s],
                r,
            )) && (0 <= v < shards[s].volume_indices@.len() && shards[s].volume_indices@[v]
                < plan.work.tokens@.len() && plan.work.tokens@[shards[s].volume_indices@[v] as int]
                == Some(token) ==> nodes[p].tokens.contains(token.0)),
{
    let archive = plan.work;
    assert(extract::shard_laid(nodes, plan, shards, s));
    let first = extract::offset(archive, shards, s);
    let p = extract::position(archive, shards, s);
    lemma_offset(&archive, shards, s);
    assert(extracts_shard(nodes[p], plan, shards[s]));
    if archive.remote && 0 <= r < shards[s].requests@.len() {
        let f = first + r;
        assert(nodes.subrange(first, p)[r] == nodes[f]);
        assert(nodes[f].task is FetchArchiveRange);
        assert(nodes[p].dependencies.contains(f as u64));
        assert(is_piece_of(nodes[f], plan, shards[s], r));
        assert(waits_for_piece(nodes, p, plan, shards[s], r));
    }
    if 0 <= v < shards[s].volume_indices@.len() && shards[s].volume_indices@[v]
        < archive.tokens@.len() && archive.tokens@[shards[s].volume_indices@[v] as int] == Some(
        token,
    ) {
        lemma_token(&archive, shards[s].volume_indices@, v, token);
        let tokens = archive.tokens_of(
            shards[s].volume_indices@,
            shards[s].volume_indices@.len() as int,
        );
        let j = choose|j: int| 0 <= j < tokens.len() && tokens[j] == token;
        let numbers = expansion::token_numbers(tokens);
        assert(numbers[j] == token.0);
        assert(numbers.contains(token.0));
    }
}

/// Whether a task fetches a piece of a shard.
pub open spec fn is_piece_of(
    node: LocalNode,
    plan: ExtractionPlan,
    shard: PlannedShard,
    r: int,
) -> bool {
    node.task matches Task::FetchArchiveRange { work, request, retry_count, priority } && work
        == plan.work && request == shard.requests@[r] && retry_count == 0
        && priority is ExtractionCritical
}

/// Whether a task waits for the piece of a shard to be fetched.
pub open spec fn waits_for_piece(
    nodes: Seq<LocalNode>,
    p: int,
    plan: ExtractionPlan,
    shard: PlannedShard,
    r: int,
) -> bool {
    exists|f: int|
        0 <= f < nodes.len() && #[trigger] is_piece_of(nodes[f], plan, shard, r)
            && nodes[p].dependencies.contains(f as u64)
}

proof fn lemma_offset(archive: &Arc<ArchiveWork>, shards: Seq<PlannedShard>, s: int)
    ensures
        extract::offset(*archive, shards, s) >= 0,
    decreases s,
{
    if s > 0 {
        lemma_offset(archive, shards, s - 1);
    }
}

proof fn lemma_token(
    archive: &ArchiveWork,
    indices: Seq<usize>,
    v: int,
    token: TaskDependencyToken,
)
    requires
        0 <= v < indices.len(),
        indices[v] < archive.tokens@.len(),
        archive.tokens@[indices[v] as int] == Some(token),
    ensures
        archive.tokens_of(indices, indices.len() as int).contains(token),
{
    layout_laws::law_volumes_are_waited_for(*archive, indices, token);
    assert(layout_laws::brings_volume(*archive, indices[v] as int, token));
}

/// An archive is finished by the last task, after every shard was extracted; where its
/// volumes are kept, after each of these as well.
pub proof fn law_archives_are_finished_last(
    nodes: Seq<LocalNode>,
    plan: ExtractionPlan,
    shards: Seq<PlannedShard>,
    v: int,
)
    requires
        extract::is_extraction(nodes, plan, shards),
        nodes.len() <= u64::MAX,
    ensures
        nodes.last().task == (Task::FinishArchive { work: plan.work }),
        plan.work.remote && plan.work.retention is KeepVolumes && 0 <= v < plan.work.volumes@.len()
            ==> exists|p: int|
            0 <= p < nodes.len() - 1 && (#[trigger] nodes[p]).task == (Task::RetainArchiveVolume {
                work: plan.work,
                volume_index: v as usize,
            }) && nodes.last().dependencies.contains(p as u64),
{
    let archive = plan.work;
    let n = shards.len() as int;
    lemma_offset(&archive, shards, n);
    if archive.saves_volumes() && 0 <= v < archive.volumes@.len() {
        assert(extract::volume_laid(nodes, plan, shards, v));
        let at = extract::offset(archive, shards, n) + v;
        assert(nodes.last().dependencies.contains(at as u64));
    }
}

/// The start of an extraction is reported with the bytes that are to be extracted, and
/// with the files that are put in place meanwhile, if there are any.
pub proof fn law_extractions_report_their_start(events: Seq<WorkerEvent>, plan: ExtractionPlan)
    requires
        extract::are_start_events(events, plan),
    ensures
        exists|i: int|
            0 <= i < events.len() && ((#[trigger] events[i]) matches WorkerEvent::Progress {
                phase,
                path,
                completed,
                total,
                ..
            } && phase is Extract && path@ == plan.work.base_name@ && completed == 0 && total
                == plan.total_extract_bytes),
        (exists|i: int|
            0 <= i < events.len() && ((#[trigger] events[i]) matches WorkerEvent::Progress {
                phase,
                total,
                ..
            } && phase is Commit && total == plan.direct_files)) <==> plan.direct_files > 0,
{
    assert(events[events.len() - 1] is Progress);
    assert(events[0] is Progress);
}

proof fn lemma_waits(archive: StagedArchive, task: StagedTask, k: int, d: int)
    requires
        0 <= d < k <= usize::MAX,
        staged::waits_for(archive, task, staged::staged_tasks(archive)[d]),
    ensures
        staged::waited_for(archive, task, k).contains(d as usize),
    decreases k,
{
    let all = staged::waited_for(archive, task, k);
    if d < k - 1 {
        lemma_waits(archive, task, k - 1, d);
        let before = staged::waited_for(archive, task, k - 1);
        let j = choose|j: int| 0 <= j < before.len() && before[j] == d as usize;
        assert(all[j] == d as usize);
    } else {
        assert(all.last() == d as usize);
    }
}

/// A shard is extracted after its pieces were fetched and after the patch was planned.
/// A volume is filled after every shard that reads it, and is complete after it was
/// filled. All is put in place at the end.
pub proof fn law_staged_tasks_wait(
    nodes: Seq<StagedNode>,
    archive: StagedArchive,
    d: int,
    i: int,
)
    requires
        staged::are_staged_nodes(nodes, archive),
        nodes.len() <= usize::MAX,
        0 <= d < i < nodes.len(),
    ensures
        nodes[i].task matches StagedTask::Extract { shard } ==> (nodes[d].task is FinishPlan || (
        nodes[d].task matches StagedTask::Fetch { shard: of, .. } && of == shard)
            ==> nodes[i].dependencies@.contains(d as usize)),
        nodes[i].task is FinishPlan && (nodes[d].task is Probe || nodes[d].task is Measure)
            ==> nodes[i].dependencies@.contains(d as usize),
        nodes[i].task matches StagedTask::FillVolume { volume } ==> (nodes[d].task matches
            StagedTask::Extract { shard } ==> (archive.shards@[shard as int].volumes@.contains(
            volume,
        ) ==> nodes[i].dependencies@.contains(d as usize))),
        nodes[i].task is VolumesComplete && nodes[d].task is FillVolume
            ==> nodes[i].dependencies@.contains(d as usize),
        nodes[i].task is Commit && archive.saves_volumes && nodes[d].task is VolumesComplete
            ==> nodes[i].dependencies@.contains(d as usize),
        nodes[i].task matches StagedTask::Extract { shard } ==> nodes[i].volumes@
            == archive.shards@[shard as int].volumes@,
{
    assert(staged::is_placed_node(nodes[i], archive, i));
    assert(staged::is_placed_node(nodes[d], archive, d));
    if staged::waits_for(archive, nodes[i].task, nodes[d].task) {
        lemma_waits(archive, nodes[i].task, i, d);
    }
}

proof fn lemma_shard_is_staged(shards: Seq<StagedShard>, k: int, s: int, r: int)
    requires
        0 <= s < k <= shards.len() <= usize::MAX,
    ensures
        staged::shard_tasks(shards, k).contains(StagedTask::Extract { shard: s as usize }),
        0 <= r < shards[s].requests ==> staged::shard_tasks(shards, k).contains(
            StagedTask::Fetch { shard: s as usize, request: r as usize },
        ),
    decreases k,
{
    let before = staged::shard_tasks(shards, k - 1);
    let pieces = staged::fetch_tasks(k - 1, shards[k - 1].requests as nat);
    let last = seq![StagedTask::Extract { shard: (k - 1) as usize }];
    let whole = StagedTask::Extract { shard: s as usize };
    let piece = StagedTask::Fetch { shard: s as usize, request: r as usize };
    if s < k - 1 {
        lemma_shard_is_staged(shards, k - 1, s, r);
    } else {
        assert(last[0] == whole);
        if 0 <= r < shards[s].requests {
            assert(pieces[r] == piece);
        }
    }
    vstd::seq_lib::lemma_seq_concat_contains_all_elements(before, pieces, whole);
    vstd::seq_lib::lemma_seq_concat_contains_all_elements(before + pieces, last, whole);
    vstd::seq_lib::lemma_seq_concat_contains_all_elements(before, pieces, piece);
    vstd::seq_lib::lemma_seq_concat_contains_all_elements(before + pieces, last, piece);
}

/// Every shard of an archive, and every piece that is fetched for one, has its task.
pub proof fn law_every_shard_is_staged(
    nodes: Seq<StagedNode>,
    archive: StagedArchive,
    s: int,
    r: int,
)
    requires
        staged::are_staged_nodes(nodes, archive),
        0 <= s < archive.shards@.len() <= usize::MAX,
    ensures
        exists|i: int|
            0 <= i < nodes.len() && (#[trigger] nodes[i]).task == (StagedTask::Extract {
                shard: s as usize,
            }),
        0 <= r < archive.shards@[s].requests ==> exists|i: int|
            0 <= i < nodes.len() && (#[trigger] nodes[i]).task == (StagedTask::Fetch {
                shard: s as usize,
                request: r as usize,
            }),
        nodes.last().task is Commit,
{
    let tasks = staged::staged_tasks(archive);
    let a = staged::probe_tasks(archive.probes);
    let b = staged::shard_tasks(archive.shards@, archive.shards@.len() as int);
    let c = if archive.saves_volumes {
        staged::fill_tasks(archive.volumes as nat) + seq![StagedTask::VolumesComplete]
    } else {
        Seq::empty()
    };
    let d = seq![StagedTask::Commit];
    assert(tasks == a + b + c + d);
    lemma_shard_is_staged(archive.shards@, archive.shards@.len() as int, s, r);
    let whole = StagedTask::Extract { shard: s as usize };
    let piece = StagedTask::Fetch { shard: s as usize, request: r as usize };
    lemma_held(a, b, c, d, whole);
    lemma_held(a, b, c, d, piece);
    let names = nodes.map_values(|node: StagedNode| node.task);
    let i = choose|i: int| 0 <= i < names.len() && names[i] == whole;
    assert(nodes[i].task == whole);
    if 0 <= r < archive.shards@[s].requests {
        let j = choose|j: int| 0 <= j < names.len() && names[j] == piece;
        assert(nodes[j].task == piece);
    }
    assert(names.last() == d[0]);
    assert(nodes.last().task == names[nodes.len() - 1]);
}

proof fn lemma_held(
    a: Seq<StagedTask>,
    b: Seq<StagedTask>,
    c: Seq<StagedTask>,
    d: Seq<StagedTask>,
    task: StagedTask,
)
    ensures
        b.contains(task) ==> (a + b + c + d).contains(task),
{
    vstd::seq_lib::lemma_seq_concat_contains_all_elements(a, b, task);
    vstd::seq_lib::lemma_seq_concat_contains_all_elements(a + b, c, task);
    vstd::seq_lib::lemma_seq_concat_contains_all_elements(a + b + c, d, task);
}

} // verus!
