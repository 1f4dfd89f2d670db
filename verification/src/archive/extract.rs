//! Extracting an archive, shard by shard.

use crate::archive::fetch;
use crate::event::{ProgressPhase, WorkerEvent};
use crate::graph::expansion;
use crate::graph::expansion::{ExpansionNodeId, GraphExpansion, LocalNode};
use crate::path::FilePath;
use crate::task::{
    ArchiveIndex, ArchiveRangePriority, ArchiveRangeRequest, ArchiveShardTask, ArchiveWork, Task,
};
use std::sync::Arc;
use vstd::prelude::*;

verus! {

/// Entries that are extracted together.
pub struct PlannedShard {
    pub entries: Vec<usize>,
    pub volume_indices: Vec<usize>,
    pub estimated_cost: u64,
    /// Whether its files are put in place as they are extracted.
    pub direct: bool,
    /// The pieces that are still to be fetched for it.
    pub requests: Vec<ArchiveRangeRequest>,
}

/// What the shards of an archive have in common.
pub struct ExtractionPlan {
    pub work: Arc<ArchiveWork>,
    pub archive_index: Arc<ArchiveIndex>,
    pub staging_dir: FilePath,
    pub total_extract_bytes: u64,
    /// How many files are put in place as they are extracted.
    pub direct_files: usize,
}

/// The pieces that are fetched for a shard. Those of a local archive are there,
/// or brought by other tasks.
pub open spec fn shard_requests(
    archive: Arc<ArchiveWork>,
    shards: Seq<PlannedShard>,
    s: int,
) -> Seq<ArchiveRangeRequest> {
    if archive.remote {
        shards[s].requests@
    } else {
        Seq::empty()
    }
}

/// The first node of a shard.
pub open spec fn offset(archive: Arc<ArchiveWork>, shards: Seq<PlannedShard>, s: int) -> int
    decreases s,
{
    if s <= 0 {
        0
    } else {
        offset(archive, shards, s - 1) + shard_requests(archive, shards, s - 1).len() + 1
    }
}

/// The node that extracts a shard: the last one of the shard.
pub open spec fn position(archive: Arc<ArchiveWork>, shards: Seq<PlannedShard>, s: int) -> int {
    offset(archive, shards, s) + shard_requests(archive, shards, s).len()
}

/// Whether a task extracts a shard.
pub open spec fn is_shard_task(
    task: Task,
    plan: ExtractionPlan,
    shards: Seq<PlannedShard>,
    s: int,
) -> bool {
    task matches Task::ExtractArchiveShard { shard } && {
        &&& shard.work == plan.work
        &&& shard.archive_index == plan.archive_index
        &&& shard.staging_dir@ == plan.staging_dir@
        &&& shard.entries == shards[s].entries
        &&& shard.volume_indices == shards[s].volume_indices
        &&& shard.estimated_cost == shards[s].estimated_cost
        &&& shard.total_extract_bytes == plan.total_extract_bytes
        &&& shard.direct_commit == (if shards[s].direct && plan.direct_files > 0 {
            Some(plan.direct_files)
        } else {
            None
        })
        &&& shard.range_release == (if plan.work.remote && plan.work.retention is DiscardVolumes {
            Some(s as usize)
        } else {
            None
        })
    }
}

/// Whether an ascending list holds the numbers from one up to another.
pub open spec fn is_range(list: Seq<u64>, from: int, to: int) -> bool {
    &&& crate::sorted::ascending(list)
    &&& forall|d: u64| #[trigger] list.contains(d) <==> from <= d < to
}

/// Whether the nodes of a shard are in place: those that fetch its pieces, and
/// the one that extracts it, which waits for these, and for the tasks that bring
/// its volumes.
pub open spec fn shard_laid(
    nodes: Seq<LocalNode>,
    plan: ExtractionPlan,
    shards: Seq<PlannedShard>,
    s: int,
) -> bool {
    let archive = plan.work;
    let first = offset(archive, shards, s);
    let last = position(archive, shards, s);
    &&& last < nodes.len()
    &&& nodes.subrange(first, last) == fetch::fetch_nodes(
        plan.work,
        shard_requests(archive, shards, s),
        ArchiveRangePriority::ExtractionCritical,
    )
    &&& is_shard_task(nodes[last].task, plan, shards, s)
    &&& is_range(nodes[last].dependencies, first, last)
    &&& expansion::sorts(
        nodes[last].tokens,
        expansion::token_numbers(
            archive.tokens_of(
                shards[s].volume_indices@,
                shards[s].volume_indices@.len() as int,
            ),
        ),
    )
    &&& nodes[last].binding is None
}

/// Whether a shard reads a volume.
pub open spec fn reads(shards: Seq<PlannedShard>, s: int, volume: int) -> bool {
    shards[s].volume_indices@.contains(volume as usize)
}

/// Whether a node extracts one of the first `k` shards, and that one reads a
/// volume.
pub open spec fn reader_at(
    archive: Arc<ArchiveWork>,
    shards: Seq<PlannedShard>,
    k: int,
    volume: int,
    at: int,
) -> bool {
    exists|s: int|
        0 <= s < k && #[trigger] reads(shards, s, volume) && position(archive, shards, s) == at
}

/// Whether a node extracts one of the first `k` shards.
pub open spec fn shard_at(
    archive: Arc<ArchiveWork>,
    shards: Seq<PlannedShard>,
    k: int,
    at: int,
) -> bool {
    exists|s: int| 0 <= s < k && #[trigger] position(archive, shards, s) == at
}

/// Whether a node assembles a volume: after every shard that reads it, and after
/// the task that brings it.
pub open spec fn volume_laid(
    nodes: Seq<LocalNode>,
    plan: ExtractionPlan,
    shards: Seq<PlannedShard>,
    volume: int,
) -> bool {
    let archive = plan.work;
    let n = shards.len() as int;
    let at = offset(archive, shards, n) + volume;
    &&& at < nodes.len()
    &&& nodes[at].task == (Task::RetainArchiveVolume {
        work: plan.work,
        volume_index: volume as usize,
    })
    &&& crate::sorted::ascending(nodes[at].dependencies)
    &&& forall|d: u64| #[trigger]
        nodes[at].dependencies.contains(d) <==> reader_at(archive, shards, n, volume, d as int)
    &&& expansion::sorts(
        nodes[at].tokens,
        expansion::token_numbers(archive.tokens_of(seq![volume as usize], 1)),
    )
    &&& nodes[at].binding is None
}

/// Whether the last node finishes the archive: after every volume is assembled,
/// or else after every shard, and after every task that brings a volume.
pub open spec fn finish_laid(
    nodes: Seq<LocalNode>,
    plan: ExtractionPlan,
    shards: Seq<PlannedShard>,
) -> bool {
    let archive = plan.work;
    let n = shards.len() as int;
    let first = offset(archive, shards, n);
    let node = nodes.last();
    &&& nodes.len() == first + (if archive.saves_volumes() {
        archive.volumes@.len() as int
    } else {
        0
    }) + 1
    &&& node.task == (Task::FinishArchive { work: plan.work })
    &&& crate::sorted::ascending(node.dependencies)
    &&& forall|d: u64| #[trigger]
        node.dependencies.contains(d) <==> if archive.saves_volumes() {
            first <= d < nodes.len() - 1
        } else {
            shard_at(archive, shards, n, d as int)
        }
    &&& expansion::sorts(
        node.tokens,
        expansion::token_numbers(archive.first_tokens(archive.tokens@.len() as int)),
    )
    &&& node.binding is None
}

/// The subgraph that extracts an archive.
pub open spec fn is_extraction(
    nodes: Seq<LocalNode>,
    plan: ExtractionPlan,
    shards: Seq<PlannedShard>,
) -> bool {
    &&& forall|s: int| 0 <= s < shards.len() ==> #[trigger] shard_laid(nodes, plan, shards, s)
    &&& plan.work.saves_volumes() ==> forall|v: int|
        0 <= v < plan.work.volumes@.len() ==> #[trigger] volume_laid(nodes, plan, shards, v)
    &&& finish_laid(nodes, plan, shards)
}

proof fn lemma_offset_grows(archive: Arc<ArchiveWork>, shards: Seq<PlannedShard>, s: int, t: int)
    requires
        0 <= s <= t,
    ensures
        0 <= s <= offset(archive, shards, s) <= offset(archive, shards, t),
    decreases t,
{
    if s < t {
        lemma_offset_grows(archive, shards, s, t - 1);
    } else if s > 0 {
        lemma_offset_grows(archive, shards, s - 1, s - 1);
    }
}

proof fn lemma_shard_stays(
    before: Seq<LocalNode>,
    after: Seq<LocalNode>,
    plan: ExtractionPlan,
    shards: Seq<PlannedShard>,
    s: int,
)
    requires
        0 <= s < shards.len(),
        shard_laid(before, plan, shards, s),
        before.len() <= after.len(),
        after.take(before.len() as int) == before,
    ensures
        shard_laid(after, plan, shards, s),
{
    let first = offset(plan.work, shards, s);
    let last = position(plan.work, shards, s);
    lemma_offset_grows(plan.work, shards, s, s);
    assert(after[last] == after.take(before.len() as int)[last]);
    assert(after.subrange(first, last) =~= before.subrange(first, last)) by {
        assert forall|i: int| first <= i < last implies after[i] == before[i] by {
            assert(after.take(before.len() as int)[i] == after[i]);
        }
    }
}

proof fn lemma_volume_stays(
    before: Seq<LocalNode>,
    after: Seq<LocalNode>,
    plan: ExtractionPlan,
    shards: Seq<PlannedShard>,
    v: int,
)
    requires
        0 <= v,
        volume_laid(before, plan, shards, v),
        before.len() <= after.len(),
        after.take(before.len() as int) == before,
    ensures
        volume_laid(after, plan, shards, v),
{
    let at = offset(plan.work, shards, shards.len() as int) + v;
    lemma_offset_grows(plan.work, shards, 0, shards.len() as int);
    assert(after[at] == after.take(before.len() as int)[at]);
}

/// The positions from one up to another.
fn position_range(from: usize, to: usize) -> (list: Vec<ExpansionNodeId>)
    requires
        from <= to,
    ensures
        list@.len() == to - from,
        forall|i: int| 0 <= i < list@.len() ==> (#[trigger] list@[i]).0 == from + i,
{
    let mut list: Vec<ExpansionNodeId> = Vec::new();
    let mut k: usize = from;
    while k < to
        invariant
            from <= k <= to,
            list@.len() == k - from,
            forall|i: int| 0 <= i < list@.len() ==> (#[trigger] list@[i]).0 == from + i,
        decreases to - k,
    {
        list.push(ExpansionNodeId(k));
        k = k + 1;
    }
    list
}

proof fn lemma_range_is_sorted(list: Seq<u64>, ids: Seq<ExpansionNodeId>, from: int, to: int)
    requires
        0 <= from <= to <= usize::MAX,
        ids.len() == to - from,
        forall|i: int| 0 <= i < ids.len() ==> (#[trigger] ids[i]).0 == from + i,
        expansion::sorts(list, expansion::positions(ids)),
    ensures
        is_range(list, from, to),
{
    let ps = expansion::positions(ids);
    assert forall|d: u64| #[trigger] list.contains(d) <==> from <= d < to by {
        if list.contains(d) {
            assert(ps.contains(d));
            let i = choose|i: int| 0 <= i < ps.len() && ps[i] == d;
            assert(ids[i].0 == from + i);
        }
        if from <= d < to {
            assert(ids[d - from].0 == d);
            assert(ps[d - from] == d);
            assert(ps.contains(d));
        }
    }
}

/// The nodes that extract the first `k` shards, and what reads each volume.
spec fn readers_listed(
    readers: Seq<Vec<ExpansionNodeId>>,
    archive: Arc<ArchiveWork>,
    shards: Seq<PlannedShard>,
    k: int,
) -> bool {
    forall|v: int, p: usize|
        0 <= v < readers.len() ==> (#[trigger] readers[v]@.contains(ExpansionNodeId(p))
            <==> reader_at(archive, shards, k, v, p as int))
}

spec fn shards_listed(
    list: Seq<ExpansionNodeId>,
    archive: Arc<ArchiveWork>,
    shards: Seq<PlannedShard>,
    k: int,
) -> bool {
    &&& list.len() == k
    &&& forall|s: int|
        0 <= s < k ==> (#[trigger] list[s]).0 == position(archive, shards, s)
}

/// Whether one of the first `j` volumes of a list is a volume.
spec fn among(list: Seq<usize>, j: int, v: int) -> bool {
    exists|i: int| 0 <= i < j && #[trigger] list[i] == v
}

/// Notes the node that extracts a shard for every volume that the shard reads.
fn note_reader(readers: &mut Vec<Vec<ExpansionNodeId>>, volumes: &Vec<usize>, node: ExpansionNodeId)
    ensures
        final(readers)@.len() == old(readers)@.len(),
        forall|v: int, id: ExpansionNodeId|
            0 <= v < old(readers)@.len() ==> (#[trigger] final(readers)@[v]@.contains(id)
                <==> old(readers)@[v]@.contains(id) || (id == node && volumes@.contains(
                v as usize,
            ))),
{
    let ghost before = readers@;
    let count = readers.len();
    let mut j: usize = 0;
    while j < volumes.len()
        invariant
            j <= volumes@.len(),
            count == before.len(),
            readers@.len() == before.len(),
            forall|v: int, id: ExpansionNodeId|
                0 <= v < before.len() ==> (#[trigger] readers@[v]@.contains(id)
                    <==> before[v]@.contains(id) || (id == node && among(
                    volumes@,
                    j as int,
                    v,
                ))),
        decreases volumes@.len() - j,
    {
        let at = volumes[j];
        let ghost mid = readers@;
        if at < readers.len() {
            readers[at].push(node);
        }
        proof {
            assert forall|v: int, id: ExpansionNodeId| 0 <= v < before.len() implies (
            #[trigger] readers@[v]@.contains(id) <==> before[v]@.contains(id) || (id == node
                && among(volumes@, j + 1, v))) by {
                assert(mid[v]@.contains(id) <==> before[v]@.contains(id) || (id == node && among(
                    volumes@,
                    j as int,
                    v,
                )));
                if among(volumes@, j as int, v) {
                    let i = choose|i: int| 0 <= i < j && #[trigger] volumes@[i] == v;
                    assert(volumes@[i] == v);
                }
                if among(volumes@, j + 1, v) && !among(volumes@, j as int, v) {
                    let i = choose|i: int| 0 <= i < j + 1 && #[trigger] volumes@[i] == v;
                    assert(i == j);
                }
                if v == at {
                    let list = mid[v]@;
                    let more = list.push(node);
                    assert(readers@[v]@ == more);
                    assert(volumes@[j as int] == v);
                    assert(more[list.len() as int] == node);
                    if list.contains(id) {
                        let i = choose|i: int| 0 <= i < list.len() && list[i] == id;
                        assert(more[i] == id);
                    }
                    if more.contains(id) {
                        let i = choose|i: int| 0 <= i < more.len() && more[i] == id;
                        if i < list.len() {
                            assert(list[i] == id);
                        }
                    }
                } else {
                    assert(readers@[v] == mid[v]);
                }
            }
        }
        j = j + 1;
    }
    proof {
        assert forall|v: int, id: ExpansionNodeId| 0 <= v < before.len() implies (
        #[trigger] readers@[v]@.contains(id) <==> before[v]@.contains(id) || (id == node
            && volumes@.contains(v as usize))) by {
            if among(volumes@, j as int, v) {
                let i = choose|i: int| 0 <= i < j && #[trigger] volumes@[i] == v;
                assert(volumes@[i] == v as usize);
            }
            if volumes@.contains(v as usize) {
                let i = choose|i: int| 0 <= i < volumes@.len() && volumes@[i] == v as usize;
                assert(volumes@[i] == v);
            }
        }
    }
}

fn empty_readers(count: usize) -> (readers: Vec<Vec<ExpansionNodeId>>)
    ensures
        readers@.len() == count,
        forall|v: int| 0 <= v < count ==> (#[trigger] readers@[v])@.len() == 0,
{
    let mut readers: Vec<Vec<ExpansionNodeId>> = Vec::new();
    let mut k: usize = 0;
    while k < count
        invariant
            k <= count,
            readers@.len() == k,
            forall|v: int| 0 <= v < k ==> (#[trigger] readers@[v])@.len() == 0,
        decreases count - k,
    {
        readers.push(Vec::new());
        k = k + 1;
    }
    readers
}

proof fn lemma_readers_step(
    before: Seq<Vec<ExpansionNodeId>>,
    after: Seq<Vec<ExpansionNodeId>>,
    archive: Arc<ArchiveWork>,
    shards: Seq<PlannedShard>,
    k: int,
    node: ExpansionNodeId,
)
    requires
        0 <= k < shards.len(),
        readers_listed(before, archive, shards, k),
        after.len() == before.len(),
        node.0 == position(archive, shards, k),
        forall|v: int, id: ExpansionNodeId|
            0 <= v < before.len() ==> (#[trigger] after[v]@.contains(id) <==> before[v]@.contains(id)
                || (id == node && shards[k].volume_indices@.contains(v as usize))),
    ensures
        readers_listed(after, archive, shards, k + 1),
{
    assert forall|v: int, p: usize| 0 <= v < after.len() implies (
    #[trigger] after[v]@.contains(ExpansionNodeId(p)) <==> reader_at(
        archive,
        shards,
        k + 1,
        v,
        p as int,
    )) by {
        let id = ExpansionNodeId(p);
        assert(before[v]@.contains(id) <==> reader_at(archive, shards, k, v, p as int));
        if reader_at(archive, shards, k, v, p as int) {
            let s = choose|s: int|
                0 <= s < k && #[trigger] reads(shards, s, v) && position(archive, shards, s) == p;
            assert(reads(shards, s, v));
        }
        if reader_at(archive, shards, k + 1, v, p as int) && !reader_at(
            archive,
            shards,
            k,
            v,
            p as int,
        ) {
            let s = choose|s: int|
                0 <= s < k + 1 && #[trigger] reads(shards, s, v) && position(archive, shards, s)
                    == p;
            assert(s == k);
        }
        if id == node && shards[k].volume_indices@.contains(v as usize) {
            assert(reads(shards, k, v));
        }
    }
}

/// The nodes of the shards, and which of them read each volume.
struct LaidShards {
    expansion: GraphExpansion,
    nodes: Vec<ExpansionNodeId>,
    readers: Vec<Vec<ExpansionNodeId>>,
}

#[verifier::rlimit(40)]
fn lay_shards(plan: &ExtractionPlan, shards: Vec<PlannedShard>) -> (laid: LaidShards)
    ensures
        laid.expansion.inv(),
        laid.expansion@.len() == offset(plan.work, shards@, shards@.len() as int),
        forall|s: int|
            0 <= s < shards@.len() ==> #[trigger] shard_laid(laid.expansion@, *plan, shards@, s),
        shards_listed(laid.nodes@, plan.work, shards@, shards@.len() as int),
        laid.readers@.len() == plan.work.volumes@.len(),
        readers_listed(laid.readers@, plan.work, shards@, shards@.len() as int),
{
    let ghost all = shards@;
    let ghost archive = plan.work;
    let remote = plan.work.remote;
    let releases = remote && !plan.work.keeps_full_volumes();
    let mut expansion = GraphExpansion::new();
    let mut nodes: Vec<ExpansionNodeId> = Vec::new();
    let mut readers = empty_readers(plan.work.volumes.len());
    let mut index: usize = 0;
    let total = shards.len();
    proof {
        assert forall|v: int, p: usize| 0 <= v < readers@.len() implies (
        #[trigger] readers@[v]@.contains(ExpansionNodeId(p)) <==> reader_at(
            archive,
            all,
            0,
            v,
            p as int,
        )) by {}
    }
    for shard in it: shards
        invariant
            it.seq() == all,
            index == it.index(),
            total == all.len(),
            archive == plan.work,
            remote == archive.remote,
            releases == (archive.remote && archive.retention is DiscardVolumes),
            expansion.inv(),
            expansion@.len() == offset(archive, all, index as int),
            forall|s: int|
                0 <= s < index ==> #[trigger] shard_laid(expansion@, *plan, all, s),
            shards_listed(nodes@, archive, all, index as int),
            readers@.len() == archive.volumes@.len(),
            readers_listed(readers@, archive, all, index as int),
    {
        let ghost before = expansion@;
        let ghost s = index as int;
        let PlannedShard { entries, volume_indices, estimated_cost, direct, requests } = shard;
        let first = expansion.len();
        let priority = ArchiveRangePriority::ExtractionCritical;
        if remote {
            expansion = fetch::fetch_expansion(expansion, &plan.work, requests, priority);
        } else {
            assert(before + fetch::fetch_nodes(plan.work, Seq::empty(), priority) =~= before);
        }
        let ghost fetched = expansion@;
        assert(fetched == before + fetch::fetch_nodes(
            plan.work,
            shard_requests(archive, all, s),
            priority,
        ));
        let last = expansion.len();
        let waits = position_range(first, last);
        let tokens = plan.work.tokens_for_indices(&volume_indices);
        let ghost token_list = tokens@;
        let ghost wait_list = waits@;
        let direct_commit: Option<usize> = if direct && plan.direct_files > 0 {
            Some(plan.direct_files)
        } else {
            None
        };
        let range_release: Option<usize> = if releases {
            Some(index)
        } else {
            None
        };
        let ghost known = readers@;
        note_reader(&mut readers, &volume_indices, ExpansionNodeId(last));
        let task = Task::ExtractArchiveShard {
            shard: ArchiveShardTask {
                work: plan.work.clone(),
                archive_index: plan.archive_index.clone(),
                staging_dir: plan.staging_dir.copied(),
                entries,
                volume_indices,
                estimated_cost,
                total_extract_bytes: plan.total_extract_bytes,
                direct_commit,
                range_release,
            },
        };
        let ghost made = task;
        let node = expansion.append(task, waits, tokens);
        nodes.push(node);
        proof {
            let now = expansion@;
            assert(now.take(before.len() as int) =~= before) by {
                assert(now.drop_last() == fetched);
                assert forall|i: int| 0 <= i < before.len() implies now[i] == before[i] by {
                    assert(now.drop_last()[i] == fetched[i]);
                }
            }
            assert forall|t: int| 0 <= t < s implies #[trigger] shard_laid(
                now,
                *plan,
                all,
                t,
            ) by {
                assert(shard_laid(before, *plan, all, t));
                lemma_shard_stays(before, now, *plan, all, t);
            }
            assert(now.subrange(first as int, last as int) =~= fetch::fetch_nodes(
                plan.work,
                shard_requests(archive, all, s),
                priority,
            )) by {
                assert forall|i: int| first <= i < last implies now[i] == fetched[i] by {
                    assert(now.drop_last()[i] == fetched[i]);
                }
            }
            assert(now.last() == now[last as int]);
            lemma_range_is_sorted(
                now[last as int].dependencies,
                wait_list,
                first as int,
                last as int,
            );
            assert(is_shard_task(made, *plan, all, s));
            assert(shard_laid(now, *plan, all, s));
            lemma_readers_step(known, readers@, archive, all, s, node);
        }
        index = index + 1;
    }
    LaidShards { expansion, nodes, readers }
}

proof fn lemma_reader_positions(
    list: Seq<u64>,
    ids: Seq<ExpansionNodeId>,
    archive: Arc<ArchiveWork>,
    shards: Seq<PlannedShard>,
    v: int,
)
    requires
        expansion::sorts(list, expansion::positions(ids)),
        forall|p: usize|
            #![trigger ids.contains(ExpansionNodeId(p))]
            ids.contains(ExpansionNodeId(p)) <==> reader_at(
                archive,
                shards,
                shards.len() as int,
                v,
                p as int,
            ),
        offset(archive, shards, shards.len() as int) <= usize::MAX,
    ensures
        forall|d: u64| #[trigger]
            list.contains(d) <==> reader_at(archive, shards, shards.len() as int, v, d as int),
{
    let ps = expansion::positions(ids);
    let n = shards.len() as int;
    assert forall|d: u64| #[trigger]
        list.contains(d) <==> reader_at(archive, shards, n, v, d as int) by {
        if list.contains(d) {
            assert(ps.contains(d));
            let i = choose|i: int| 0 <= i < ps.len() && ps[i] == d;
            assert(ids[i] == ExpansionNodeId(d as usize));
            assert(ids.contains(ExpansionNodeId(d as usize)));
        }
        if reader_at(archive, shards, n, v, d as int) {
            let s = choose|s: int|
                0 <= s < n && #[trigger] reads(shards, s, v) && position(archive, shards, s)
                    == d as int;
            lemma_offset_grows(archive, shards, s + 1, n);
            assert(d <= usize::MAX);
            assert(reader_at(archive, shards, n, v, (d as usize) as int));
            assert(ids.contains(ExpansionNodeId(d as usize)));
            let i = choose|i: int| 0 <= i < ids.len() && ids[i] == ExpansionNodeId(d as usize);
            assert(ps[i] == d);
            assert(ps.contains(d));
        }
    }
}

proof fn lemma_shard_positions(
    list: Seq<u64>,
    ids: Seq<ExpansionNodeId>,
    archive: Arc<ArchiveWork>,
    shards: Seq<PlannedShard>,
)
    requires
        expansion::sorts(list, expansion::positions(ids)),
        shards_listed(ids, archive, shards, shards.len() as int),
        offset(archive, shards, shards.len() as int) <= usize::MAX,
    ensures
        forall|d: u64| #[trigger]
            list.contains(d) <==> shard_at(archive, shards, shards.len() as int, d as int),
{
    let ps = expansion::positions(ids);
    let n = shards.len() as int;
    assert forall|d: u64| #[trigger]
        list.contains(d) <==> shard_at(archive, shards, n, d as int) by {
        if list.contains(d) {
            assert(ps.contains(d));
            let i = choose|i: int| 0 <= i < ps.len() && ps[i] == d;
            assert(ids[i].0 == position(archive, shards, i));
        }
        if shard_at(archive, shards, n, d as int) {
            let s = choose|s: int|
                0 <= s < n && #[trigger] position(archive, shards, s) == d as int;
            assert(ids[s].0 == position(archive, shards, s));
            assert(ps[s] == d);
            assert(ps.contains(d));
        }
    }
}

/// The subgraph that extracts an archive: for each shard the pieces that are
/// missing, then the shard; for each volume that stays its assembly, once every
/// shard that reads it is done; and the end of the archive.
#[verifier::rlimit(40)]
pub fn build_archive_extraction_expansion(plan: &ExtractionPlan, shards: Vec<PlannedShard>) -> (expansion:
    GraphExpansion)
    ensures
        expansion.inv(),
        is_extraction(expansion@, *plan, shards@),
{
    let ghost all = shards@;
    let ghost archive = plan.work;
    let ghost n = all.len() as int;
    let LaidShards { expansion, nodes, readers } = lay_shards(plan, shards);
    let mut expansion = expansion;
    let ghost base = expansion@;
    let mut waits = nodes;
    let first = expansion.len();
    assert(first == offset(archive, all, n));
    if plan.work.should_save_full_volumes() {
        let count = readers.len();
        let ghost listed = readers@;
        let mut volume: usize = 0;
        for list in it: readers
            invariant
                it.seq() == listed,
                volume == it.index(),
                count == listed.len() == archive.volumes@.len(),
                archive == plan.work,
                n == all.len(),
                first == offset(archive, all, n),
                first == base.len(),
                expansion.inv(),
                expansion@.len() == first + volume,
                expansion@.take(first as int) == base,
                readers_listed(listed, archive, all, n),
                forall|v: int|
                    0 <= v < volume ==> #[trigger] volume_laid(expansion@, *plan, all, v),
        {
            let ghost before = expansion@;
            let ghost v = volume as int;
            let ghost ids = list@;
            let mut own: Vec<usize> = Vec::new();
            own.push(volume);
            assert(own@ =~= seq![volume]);
            let tokens = plan.work.tokens_for_indices(&own);
            let ghost token_list = tokens@;
            proof {
                assert(listed[v] == list);
                assert forall|i: int| 0 <= i < ids.len() implies (#[trigger] ids[i]).0 < first by {
                    let p = ids[i].0;
                    assert(ids[i] == ExpansionNodeId(p));
                    assert(listed[v]@.contains(ExpansionNodeId(p)));
                    assert(reader_at(archive, all, n, v, p as int));
                    let s = choose|s: int|
                        0 <= s < n && #[trigger] reads(all, s, v) && position(archive, all, s)
                            == p;
                    lemma_offset_grows(archive, all, s + 1, n);
                }
            }
            expansion.append(
                Task::RetainArchiveVolume { work: plan.work.clone(), volume_index: volume },
                list,
                tokens,
            );
            proof {
                let now = expansion@;
                assert(now.take(before.len() as int) =~= now.drop_last());
                assert(now.take(first as int) =~= before.take(first as int)) by {
                    assert forall|i: int| 0 <= i < first implies now[i] == before[i] by {
                        assert(now.drop_last()[i] == before[i]);
                    }
                }
                assert forall|u: int| 0 <= u < v implies #[trigger] volume_laid(
                    now,
                    *plan,
                    all,
                    u,
                ) by {
                    assert(volume_laid(before, *plan, all, u));
                    lemma_volume_stays(before, now, *plan, all, u);
                }
                let at = first + v;
                assert(now.last() == now[at]);
                assert forall|p: usize|
                    #![trigger ids.contains(ExpansionNodeId(p))]
                    ids.contains(ExpansionNodeId(p)) <==> reader_at(
                        archive,
                        all,
                        n,
                        v,
                        p as int,
                    ) by {
                    assert(listed[v]@.contains(ExpansionNodeId(p)) <==> reader_at(
                        archive,
                        all,
                        n,
                        v,
                        p as int,
                    ));
                }
                lemma_reader_positions(now[at].dependencies, ids, archive, all, v);
                assert(volume_laid(now, *plan, all, v));
            }
            volume = volume + 1;
        }
        waits = position_range(first, expansion.len());
    } else {
        assert(expansion@.take(first as int) =~= base);
        proof {
            assert forall|i: int| 0 <= i < waits@.len() implies (#[trigger] waits@[i]).0
                < first by {
                lemma_offset_grows(archive, all, i + 1, n);
            }
        }
    }
    let ghost before = expansion@;
    let ghost wait_list = waits@;
    let tokens = plan.work.all_tokens();
    expansion.append(Task::FinishArchive { work: plan.work.clone() }, waits, tokens);
    proof {
        let now = expansion@;
        assert(now.take(before.len() as int) =~= now.drop_last());
        assert(now.take(base.len() as int) =~= base) by {
            assert forall|i: int| 0 <= i < base.len() implies now[i] == base[i] by {
                assert(now.drop_last()[i] == before[i]);
                assert(before.take(first as int)[i] == before[i]);
            }
        }
        assert forall|s: int| 0 <= s < n implies #[trigger] shard_laid(now, *plan, all, s) by {
            assert(shard_laid(base, *plan, all, s));
            lemma_shard_stays(base, now, *plan, all, s);
        }
        let node = now.last();
        if archive.saves_volumes() {
            assert forall|v: int| 0 <= v < archive.volumes@.len() implies #[trigger] volume_laid(
                now,
                *plan,
                all,
                v,
            ) by {
                assert(volume_laid(before, *plan, all, v));
                lemma_volume_stays(before, now, *plan, all, v);
            }
            lemma_range_is_sorted(
                node.dependencies,
                wait_list,
                first as int,
                first + archive.volumes@.len(),
            );
        } else {
            lemma_shard_positions(node.dependencies, wait_list, archive, all);
        }
        assert(finish_laid(now, *plan, all));
    }
    expansion
}

/// Where volumes do not stay, the end of the archive waits for every shard.
pub proof fn law_finish_waits_for_every_shard(
    nodes: Seq<LocalNode>,
    plan: ExtractionPlan,
    shards: Seq<PlannedShard>,
    s: int,
)
    requires
        is_extraction(nodes, plan, shards),
        nodes.len() <= u64::MAX,
        !plan.work.saves_volumes(),
        0 <= s < shards.len(),
    ensures
        nodes.last().dependencies.contains(position(plan.work, shards, s) as u64),
{
    let archive = plan.work;
    let at = position(archive, shards, s);
    assert(shard_laid(nodes, plan, shards, s));
    lemma_offset_grows(archive, shards, s, s);
    assert(shard_at(archive, shards, shards.len() as int, (at as u64) as int));
}

/// Where volumes stay, the end of the archive waits for every one, and that one
/// for every shard that reads it.
pub proof fn law_volumes_stay_until_read(
    nodes: Seq<LocalNode>,
    plan: ExtractionPlan,
    shards: Seq<PlannedShard>,
    s: int,
    v: int,
)
    requires
        is_extraction(nodes, plan, shards),
        nodes.len() <= u64::MAX,
        plan.work.saves_volumes(),
        0 <= s < shards.len(),
        0 <= v < plan.work.volumes@.len(),
        reads(shards, s, v),
    ensures
        ({
            let at = offset(plan.work, shards, shards.len() as int) + v;
            &&& nodes.last().dependencies.contains(at as u64)
            &&& nodes[at].dependencies.contains(position(plan.work, shards, s) as u64)
        }),
{
    let archive = plan.work;
    let n = shards.len() as int;
    let at = offset(archive, shards, n) + v;
    let p = position(archive, shards, s);
    assert(volume_laid(nodes, plan, shards, v));
    assert(shard_laid(nodes, plan, shards, s));
    lemma_offset_grows(archive, shards, 0, n);
    lemma_offset_grows(archive, shards, s, s);
    assert(reader_at(archive, shards, n, v, (p as u64) as int));
}

/// An extraction has a node: the one that ends it.
pub(crate) proof fn lemma_extraction_is_not_empty(
    nodes: Seq<LocalNode>,
    plan: ExtractionPlan,
    shards: Seq<PlannedShard>,
)
    requires
        is_extraction(nodes, plan, shards),
    ensures
        nodes.len() > 0,
{
    lemma_offset_grows(plan.work, shards, 0, shards.len() as int);
}

/// Whether reports are those of an extraction that starts: how many files are to
/// be put in place at once, if there are any, and how many bytes are extracted.
pub open spec fn are_start_events(events: Seq<WorkerEvent>, plan: ExtractionPlan) -> bool {
    let n = events.len() as int;
    &&& n == if plan.direct_files > 0 {
        2int
    } else {
        1int
    }
    &&& events[n - 1] matches WorkerEvent::Progress { phase, path, completed, total, reset }
        && phase is Extract && path@ == plan.work.base_name@ && completed == 0 && total
        == plan.total_extract_bytes && !reset
    &&& plan.direct_files > 0 ==> (events[0] matches WorkerEvent::Progress {
        phase,
        path,
        completed,
        total,
        reset,
    } && phase is Commit && path@ == "."@ && completed == 0 && total == plan.direct_files && !reset)
}

/// What is reported when the extraction of an archive starts.
pub fn extraction_start_events(plan: &ExtractionPlan) -> (events: Vec<WorkerEvent>)
    ensures
        are_start_events(events@, *plan),
{
    let mut events: Vec<WorkerEvent> = Vec::new();
    if plan.direct_files > 0 {
        events.push(
            WorkerEvent::progress(
                ProgressPhase::Commit,
                ".".to_owned(),
                0,
                plan.direct_files as u64,
                false,
            ),
        );
    }
    events.push(
        WorkerEvent::progress(
            ProgressPhase::Extract,
            plan.work.base_name.clone(),
            0,
            plan.total_extract_bytes,
            false,
        ),
    );
    events
}

} // verus!
