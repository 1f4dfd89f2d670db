//! Extracting an archive into a directory of its own, before any file of it is
//! put in place.

use vstd::prelude::*;

verus! {

/// A task of an archive that is extracted first and committed afterwards.
#[derive(Clone, Copy, PartialEq, Eq, Structural, Debug)]
pub enum StagedTask {
    /// Look at a file that a patch can be made from.
    Probe { index: usize },
    /// Measure the files that a patch moves.
    Measure,
    /// Plan the patch.
    FinishPlan,
    /// Fetch a piece for a shard.
    Fetch { shard: usize, request: usize },
    /// Extract a shard.
    Extract { shard: usize },
    /// Fetch what is missing of a volume.
    FillVolume { volume: usize },
    /// Every volume is complete.
    VolumesComplete,
    /// Put the files in place.
    Commit,
}

/// What a patch is planned from.
#[derive(Clone, Copy, PartialEq, Eq, Structural, Debug)]
pub struct PatchProbes {
    /// How many files are looked at.
    pub files: usize,
    /// Whether there are files that move.
    pub relocates: bool,
}

/// Entries that are extracted together.
pub struct StagedShard {
    /// How many pieces are fetched for it.
    pub requests: usize,
    /// The volumes that it reads.
    pub volumes: Vec<usize>,
}

/// An archive that is extracted first and committed afterwards.
pub struct StagedArchive {
    /// What the patch of the archive is planned from, where it holds one.
    pub probes: Option<PatchProbes>,
    pub shards: Vec<StagedShard>,
    pub volumes: usize,
    /// Whether the volumes are kept.
    pub saves_volumes: bool,
}

/// A task, the earlier tasks that it waits for, and the volumes that others have
/// to bring before it.
pub struct StagedNode {
    pub task: StagedTask,
    pub dependencies: Vec<usize>,
    pub volumes: Vec<usize>,
}

/// The tasks that plan a patch.
pub open spec fn probe_tasks(probes: Option<PatchProbes>) -> Seq<StagedTask> {
    match probes {
        None => Seq::empty(),
        Some(found) => Seq::new(
            found.files as nat,
            |i: int| StagedTask::Probe { index: i as usize },
        ) + (if found.relocates {
            seq![StagedTask::Measure]
        } else {
            Seq::empty()
        }) + seq![StagedTask::FinishPlan],
    }
}

/// The tasks that fetch the first `k` pieces of a shard.
pub open spec fn fetch_tasks(shard: int, k: nat) -> Seq<StagedTask> {
    Seq::new(k, |i: int| StagedTask::Fetch { shard: shard as usize, request: i as usize })
}

/// The tasks of the first `k` shards: each one's pieces are fetched, then it is
/// extracted.
pub open spec fn shard_tasks(shards: Seq<StagedShard>, k: int) -> Seq<StagedTask>
    decreases k,
{
    if k <= 0 {
        Seq::empty()
    } else {
        shard_tasks(shards, k - 1) + fetch_tasks(k - 1, shards[k - 1].requests as nat)
            + seq![StagedTask::Extract { shard: (k - 1) as usize }]
    }
}

/// The tasks that complete the first `k` volumes.
pub open spec fn fill_tasks(k: nat) -> Seq<StagedTask> {
    Seq::new(k, |v: int| StagedTask::FillVolume { volume: v as usize })
}

/// The tasks of an archive, in order.
pub open spec fn staged_tasks(archive: StagedArchive) -> Seq<StagedTask> {
    probe_tasks(archive.probes) + shard_tasks(archive.shards@, archive.shards@.len() as int) + (
    if archive.saves_volumes {
        fill_tasks(archive.volumes as nat) + seq![StagedTask::VolumesComplete]
    } else {
        Seq::empty()
    }) + seq![StagedTask::Commit]
}

/// Whether a task waits for another one. The plan of a patch waits for all that it
/// is made from. A shard waits for its pieces and for the plan, a volume for the
/// shards that read it, and the commit for every volume that is kept, or else for
/// every shard. Without a shard it waits for the plan itself.
pub open spec fn waits_for(archive: StagedArchive, task: StagedTask, other: StagedTask) -> bool {
    match task {
        StagedTask::FinishPlan => other is Probe || other is Measure,
        StagedTask::Extract { shard } => other is FinishPlan || (other matches StagedTask::Fetch {
            shard: of,
            ..
        } && of == shard),
        StagedTask::FillVolume { volume } => other matches StagedTask::Extract { shard }
            && archive.shards@[shard as int].volumes@.contains(volume),
        StagedTask::VolumesComplete => other is FillVolume,
        StagedTask::Commit => {
            ||| archive.saves_volumes && other is VolumesComplete
            ||| archive.shards@.len() == 0 && other is FinishPlan
            ||| archive.shards@.len() > 0 && !archive.saves_volumes && other is Extract
        },
        _ => false,
    }
}

/// The volumes that have to be there before a task.
pub open spec fn awaited_volumes(archive: StagedArchive, task: StagedTask) -> Seq<usize> {
    match task {
        StagedTask::Extract { shard } => archive.shards@[shard as int].volumes@,
        StagedTask::FillVolume { volume } => seq![volume],
        StagedTask::Commit => Seq::new(archive.volumes as nat, |v: int| v as usize),
        _ => Seq::empty(),
    }
}

/// Whether nodes are those of an archive: its tasks in order, each one after the
/// earlier tasks that it waits for, and after its volumes.
pub open spec fn are_staged_nodes(nodes: Seq<StagedNode>, archive: StagedArchive) -> bool {
    &&& nodes.map_values(|node: StagedNode| node.task) == staged_tasks(archive)
    &&& forall|i: int|
        0 <= i < nodes.len() ==> is_placed_node(#[trigger] nodes[i], archive, i)
}

/// Whether a node waits for what its task waits for.
pub open spec fn is_placed_node(node: StagedNode, archive: StagedArchive, at: int) -> bool {
    &&& node.task == staged_tasks(archive)[at]
    &&& node.dependencies@ == waited_for(archive, node.task, at)
    &&& node.volumes@ == awaited_volumes(archive, node.task)
}

/// The positions among the first `k` tasks that a task waits for.
pub open spec fn waited_for(archive: StagedArchive, task: StagedTask, k: int) -> Seq<usize>
    decreases k,
{
    if k <= 0 {
        Seq::empty()
    } else {
        let before = waited_for(archive, task, k - 1);
        if waits_for(archive, task, staged_tasks(archive)[k - 1]) {
            before.push((k - 1) as usize)
        } else {
            before
        }
    }
}

/// Whether a shard that a task names is there.
pub open spec fn names_a_shard(archive: StagedArchive, task: StagedTask) -> bool {
    task matches StagedTask::Extract { shard } ==> shard < archive.shards@.len()
}

fn lists_volume(volumes: &Vec<usize>, volume: usize) -> (yes: bool)
    ensures
        yes == volumes@.contains(volume),
{
    let mut k: usize = 0;
    while k < volumes.len()
        invariant
            k <= volumes@.len(),
            forall|i: int| 0 <= i < k ==> volumes@[i] != volume,
        decreases volumes@.len() - k,
    {
        if volumes[k] == volume {
            assert(volumes@[k as int] == volume);
            return true;
        }
        k = k + 1;
    }
    false
}

/// Whether a task waits for another one.
pub fn task_waits_for(archive: &StagedArchive, task: StagedTask, other: StagedTask) -> (yes: bool)
    requires
        names_a_shard(*archive, other),
    ensures
        yes == waits_for(*archive, task, other),
{
    match task {
        StagedTask::FinishPlan => match other {
            StagedTask::Probe { .. } => true,
            StagedTask::Measure => true,
            _ => false,
        },
        StagedTask::Extract { shard } => match other {
            StagedTask::FinishPlan => true,
            StagedTask::Fetch { shard: of, .. } => of == shard,
            _ => false,
        },
        StagedTask::FillVolume { volume } => match other {
            StagedTask::Extract { shard } => lists_volume(&archive.shards[shard].volumes, volume),
            _ => false,
        },
        StagedTask::VolumesComplete => match other {
            StagedTask::FillVolume { .. } => true,
            _ => false,
        },
        StagedTask::Commit => match other {
            StagedTask::VolumesComplete => archive.saves_volumes,
            StagedTask::FinishPlan => archive.shards.len() == 0,
            StagedTask::Extract { .. } => archive.shards.len() > 0 && !archive.saves_volumes,
            _ => false,
        },
        _ => false,
    }
}

proof fn lemma_shard_tasks_name_shards(shards: Seq<StagedShard>, k: int, i: int)
    requires
        0 <= k <= shards.len() <= usize::MAX,
        0 <= i < shard_tasks(shards, k).len(),
    ensures
        shard_tasks(shards, k)[i] matches StagedTask::Extract { shard } ==> shard < k,
    decreases k,
{
    if k > 0 && i < shard_tasks(shards, k - 1).len() {
        lemma_shard_tasks_name_shards(shards, k - 1, i);
    }
}

/// The tasks of an archive, in order.
fn list_tasks(archive: &StagedArchive) -> (tasks: Vec<StagedTask>)
    ensures
        tasks@ == staged_tasks(*archive),
        forall|i: int|
            0 <= i < tasks@.len() ==> names_a_shard(*archive, #[trigger] tasks@[i]),
{
    let mut tasks: Vec<StagedTask> = Vec::new();
    if let Some(found) = archive.probes {
        let mut index: usize = 0;
        while index < found.files
            invariant
                index <= found.files,
                tasks@ == Seq::new(
                    index as nat,
                    |i: int| StagedTask::Probe { index: i as usize },
                ),
            decreases found.files - index,
        {
            tasks.push(StagedTask::Probe { index });
            index = index + 1;
            assert(tasks@ =~= Seq::new(
                index as nat,
                |i: int| StagedTask::Probe { index: i as usize },
            ));
        }
        if found.relocates {
            tasks.push(StagedTask::Measure);
        }
        tasks.push(StagedTask::FinishPlan);
    }
    assert(tasks@ =~= probe_tasks(archive.probes));
    let count = archive.shards.len();
    let mut shard: usize = 0;
    while shard < count
        invariant
            shard <= count,
            count == archive.shards@.len(),
            tasks@ == probe_tasks(archive.probes) + shard_tasks(archive.shards@, shard as int),
        decreases count - shard,
    {
        let ghost before = tasks@;
        let requests = archive.shards[shard].requests;
        let mut request: usize = 0;
        while request < requests
            invariant
                request <= requests,
                tasks@ == before + fetch_tasks(shard as int, request as nat),
            decreases requests - request,
        {
            tasks.push(StagedTask::Fetch { shard, request });
            request = request + 1;
            assert(tasks@ =~= before + fetch_tasks(shard as int, request as nat));
        }
        tasks.push(StagedTask::Extract { shard });
        shard = shard + 1;
        assert(tasks@ =~= probe_tasks(archive.probes) + shard_tasks(
            archive.shards@,
            shard as int,
        ));
    }
    let ghost before = tasks@;
    if archive.saves_volumes {
        let mut volume: usize = 0;
        while volume < archive.volumes
            invariant
                volume <= archive.volumes,
                tasks@ == before + fill_tasks(volume as nat),
            decreases archive.volumes - volume,
        {
            tasks.push(StagedTask::FillVolume { volume });
            volume = volume + 1;
            assert(tasks@ =~= before + fill_tasks(volume as nat));
        }
        tasks.push(StagedTask::VolumesComplete);
    }
    tasks.push(StagedTask::Commit);
    proof {
        assert(tasks@ =~= staged_tasks(*archive));
        let first = probe_tasks(archive.probes);
        let middle = shard_tasks(archive.shards@, count as int);
        assert forall|i: int| 0 <= i < tasks@.len() implies names_a_shard(
            *archive,
            #[trigger] tasks@[i],
        ) by {
            if first.len() <= i < first.len() + middle.len() {
                lemma_shard_tasks_name_shards(archive.shards@, count as int, i - first.len());
                assert(tasks@[i] == middle[i - first.len()]);
            }
        }
    }
    tasks
}

/// The volumes that have to be there before a task.
fn volumes_before(archive: &StagedArchive, task: StagedTask) -> (volumes: Vec<usize>)
    requires
        names_a_shard(*archive, task),
    ensures
        volumes@ == awaited_volumes(*archive, task),
{
    let mut volumes: Vec<usize> = Vec::new();
    match task {
        StagedTask::Extract { shard } => {
            let read = &archive.shards[shard].volumes;
            let mut k: usize = 0;
            while k < read.len()
                invariant
                    k <= read@.len(),
                    volumes@ == read@.take(k as int),
                decreases read@.len() - k,
            {
                volumes.push(read[k]);
                k = k + 1;
                assert(volumes@ =~= read@.take(k as int));
            }
            assert(volumes@ =~= read@);
        },
        StagedTask::FillVolume { volume } => {
            volumes.push(volume);
            assert(volumes@ =~= seq![volume]);
        },
        StagedTask::Commit => {
            let mut v: usize = 0;
            while v < archive.volumes
                invariant
                    v <= archive.volumes,
                    volumes@ == Seq::new(v as nat, |i: int| i as usize),
                decreases archive.volumes - v,
            {
                volumes.push(v);
                v = v + 1;
                assert(volumes@ =~= Seq::new(v as nat, |i: int| i as usize));
            }
        },
        _ => {},
    }
    assert(volumes@ =~= awaited_volumes(*archive, task));
    volumes
}

/// Plans the extraction of an archive that is committed afterwards.
pub fn plan_staged_extraction(archive: &StagedArchive) -> (nodes: Vec<StagedNode>)
    ensures
        are_staged_nodes(nodes@, *archive),
{
    let tasks = list_tasks(archive);
    let count = tasks.len();
    let mut nodes: Vec<StagedNode> = Vec::new();
    let mut i: usize = 0;
    while i < count
        invariant
            i <= count,
            count == tasks@.len(),
            tasks@ == staged_tasks(*archive),
            forall|j: int|
                0 <= j < tasks@.len() ==> names_a_shard(*archive, #[trigger] tasks@[j]),
            nodes@.len() == i,
            forall|j: int| 0 <= j < i ==> is_placed_node(#[trigger] nodes@[j], *archive, j),
        decreases count - i,
    {
        let task = tasks[i];
        let mut dependencies: Vec<usize> = Vec::new();
        let mut j: usize = 0;
        while j < i
            invariant
                j <= i < count,
                count == tasks@.len(),
                task == tasks@[i as int],
                tasks@ == staged_tasks(*archive),
                forall|j: int|
                    0 <= j < tasks@.len() ==> names_a_shard(*archive, #[trigger] tasks@[j]),
                dependencies@ == waited_for(*archive, task, j as int),
            decreases i - j,
        {
            if task_waits_for(archive, task, tasks[j]) {
                dependencies.push(j);
            }
            j = j + 1;
        }
        let volumes = volumes_before(archive, task);
        nodes.push(StagedNode { task, dependencies, volumes });
        i = i + 1;
    }
    assert(nodes@.map_values(|node: StagedNode| node.task) =~= staged_tasks(*archive));
    nodes
}

proof fn lemma_waited_for(archive: StagedArchive, task: StagedTask, k: int, j: int)
    requires
        0 <= k <= usize::MAX,
    ensures
        0 <= j < k && waits_for(archive, task, staged_tasks(archive)[j]) ==> waited_for(
            archive,
            task,
            k,
        ).contains(j as usize),
        forall|i: int|
            0 <= i < waited_for(archive, task, k).len() ==> (#[trigger] waited_for(
                archive,
                task,
                k,
            )[i]) < k,
    decreases k,
{
    if k > 0 {
        lemma_waited_for(archive, task, k - 1, j);
        let before = waited_for(archive, task, k - 1);
        let now = waited_for(archive, task, k);
        if 0 <= j < k && waits_for(archive, task, staged_tasks(archive)[j]) {
            if j < k - 1 {
                let i = choose|i: int| 0 <= i < before.len() && before[i] == j as usize;
                assert(now[i] == j as usize);
            } else {
                assert(now.last() == j as usize);
            }
        }
    }
}

/// A task waits for earlier tasks only, so no two tasks wait for each other.
pub proof fn law_staged_tasks_wait_for_earlier_ones(
    nodes: Seq<StagedNode>,
    archive: StagedArchive,
    i: int,
    k: int,
)
    requires
        are_staged_nodes(nodes, archive),
        nodes.len() <= usize::MAX,
        0 <= i < nodes.len(),
        0 <= k < nodes[i].dependencies@.len(),
    ensures
        nodes[i].dependencies@[k] < i,
{
    assert(is_placed_node(nodes[i], archive, i));
    lemma_waited_for(archive, nodes[i].task, i, 0);
}

proof fn lemma_extract_is_listed(shards: Seq<StagedShard>, k: int, s: int)
    requires
        0 <= s < k <= shards.len() <= usize::MAX,
    ensures
        shard_tasks(shards, k).contains(StagedTask::Extract { shard: s as usize }),
    decreases k,
{
    let task = StagedTask::Extract { shard: s as usize };
    let now = shard_tasks(shards, k);
    if s < k - 1 {
        lemma_extract_is_listed(shards, k - 1, s);
        let before = shard_tasks(shards, k - 1);
        let i = choose|i: int| 0 <= i < before.len() && before[i] == task;
        assert(now[i] == task);
    } else {
        assert(now.last() == task);
    }
}

/// Nothing is put in place before every shard is extracted: where no volume is
/// kept, the commit waits for each of them.
pub proof fn law_commit_waits_for_every_shard(
    nodes: Seq<StagedNode>,
    archive: StagedArchive,
    s: int,
)
    requires
        are_staged_nodes(nodes, archive),
        nodes.len() <= usize::MAX,
        archive.shards@.len() <= usize::MAX,
        !archive.saves_volumes,
        0 <= s < archive.shards@.len(),
    ensures
        nodes.last().task is Commit,
        exists|d: int|
            #![trigger nodes[d]]
            0 <= d < nodes.len() && nodes[d].task == (StagedTask::Extract { shard: s as usize })
                && nodes.last().dependencies@.contains(d as usize),
{
    let tasks = staged_tasks(archive);
    let first = probe_tasks(archive.probes);
    let middle = shard_tasks(archive.shards@, archive.shards@.len() as int);
    let task = StagedTask::Extract { shard: s as usize };
    lemma_extract_is_listed(archive.shards@, archive.shards@.len() as int, s);
    let i = choose|i: int| 0 <= i < middle.len() && middle[i] == task;
    let d = first.len() + i;
    let last = nodes.len() - 1;
    assert(nodes.map_values(|node: StagedNode| node.task).len() == tasks.len());
    assert(tasks[d] == task);
    assert(tasks.last() is Commit);
    assert(is_placed_node(nodes[d], archive, d));
    assert(is_placed_node(nodes[last], archive, last));
    lemma_waited_for(archive, nodes[last].task, last, d);
}

} // verus!
