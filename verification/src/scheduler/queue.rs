//! The admission queue.

use crate::graph::node::NodeId;
use crate::scheduler::config::TaskPoolConfig;
use crate::scheduler::counts;
use crate::scheduler::counts::TextCounts;
use crate::scheduler::order;
use crate::scheduler::order::{QueueModel, QueuedTask, Rank, AGE_STEP, CONTINUATION_BURST};
use crate::scheduler::request::{NetworkClass, ResourceRequest, RunClass, TaskPriority};
use crate::scheduler::resources::{AdmissionSnapshot, ResourceState};
use crate::task::Task;
use std::collections::VecDeque;
use vstd::prelude::*;

verus! {

/// A task that was admitted.
pub struct ScheduledTask {
    pub node_id: NodeId,
    pub task: Task,
    pub resources: ResourceRequest,
    pub enqueued_at: u64,
    pub started_at: u64,
}

impl ScheduledTask {
    /// The task as it waits.
    pub open spec fn queued(self) -> QueuedTask {
        QueuedTask {
            node_id: self.node_id,
            task: self.task,
            resources: self.resources,
            enqueued_at: self.enqueued_at,
        }
    }
}

fn schedule_class(index: usize) -> (class: RunClass)
    ensures
        class == order::scheduled_class(index as int),
{
    match index {
        1 => RunClass::Cpu,
        2 => RunClass::Blocking,
        _ => RunClass::AsyncIo,
    }
}

fn schedule_network(index: usize) -> (class: NetworkClass)
    ensures
        class == order::scheduled_network(index as int),
{
    if index < 4 {
        NetworkClass::General
    } else if index < 6 {
        NetworkClass::Archive
    } else if index == 6 {
        NetworkClass::Vfs
    } else {
        NetworkClass::ArchiveBackground
    }
}

fn run_class_index(class: RunClass) -> (index: usize)
    ensures
        index == order::class_index(class),
        index < 3,
{
    match class {
        RunClass::AsyncIo => 0,
        RunClass::Cpu => 1,
        RunClass::Blocking => 2,
    }
}

/// Adds what the tasks of one queue claim to a snapshot.
fn add_claims(
    admission: &mut AdmissionSnapshot,
    queue: &VecDeque<QueuedTask>,
    resources: &ResourceState,
    config: &TaskPoolConfig,
    Ghost(done): Ghost<Seq<QueuedTask>>,
)
    requires
        resources.inv(),
        old(admission)@ == order::claims_of(done, resources@, *config),
    ensures
        final(admission)@ == order::claims_of(done + queue@, resources@, *config),
{
    let mut k: usize = 0;
    assert(done + queue@.take(0) =~= done);
    while k < queue.len()
        invariant
            resources.inv(),
            k <= queue@.len(),
            admission@ == order::claims_of(done + queue@.take(k as int), resources@, *config),
        decreases queue@.len() - k,
    {
        let ghost seen = done + queue@.take(k as int);
        let ghost before = *admission;
        let queued = &queue[k];
        if queued.resources.reuse_commit {
            admission.queued_reuse_commits = admission.queued_reuse_commits.saturating_add(1);
        }
        let held = resources.held_back(&queued.resources, config);
        if !held {
            admission.reserved_write_volumes.insert_all(&queued.resources.write_volumes);
        }
        proof {
            let more = done + queue@.take(k + 1);
            assert(more =~= seen.push(queue@[k as int]));
            assert(more.drop_last() =~= seen);
            let goal = order::claims_of(more, resources@, *config);
            assert forall|volume: Seq<char>|
                admission@.reserved.contains(volume) == goal.reserved.contains(volume) by {
                assert(before@.reserved.contains(volume) == before.reserved_write_volumes.has(
                    volume,
                ));
                let old_goal = order::claims_of(seen, resources@, *config);
                if old_goal.reserved.contains(volume) {
                    let j = choose|j: int|
                        0 <= j < seen.len() && order::reserves(
                            #[trigger] seen[j],
                            resources@,
                            *config,
                            volume,
                        );
                    assert(more[j] == seen[j]);
                }
                if order::reserves(queue@[k as int], resources@, *config, volume) {
                    assert(more[seen.len() as int] == queue@[k as int]);
                }
                if goal.reserved.contains(volume) {
                    let j = choose|j: int|
                        0 <= j < more.len() && order::reserves(
                            #[trigger] more[j],
                            resources@,
                            *config,
                            volume,
                        );
                    if j < seen.len() {
                        assert(seen[j] == more[j]);
                    }
                }
            }
            assert(admission@.reserved =~= goal.reserved);
            assert(admission@ =~= goal);
        }
        k = k + 1;
    }
    assert(queue@.take(k as int) =~= queue@);
}

/// Counts how often each volume is named by the tasks of a queue.
fn volume_depths(queue: &VecDeque<QueuedTask>) -> (depths: TextCounts)
    ensures
        depths.inv(),
        forall|volume: Seq<char>| #[trigger]
            depths.count(volume) == counts::capped(order::depth(queue@, volume)),
{
    let mut depths = TextCounts::new();
    let mut k: usize = 0;
    assert(queue@.take(0).len() == 0);
    while k < queue.len()
        invariant
            k <= queue@.len(),
            depths.inv(),
            forall|volume: Seq<char>| #[trigger]
                depths.count(volume) == counts::capped(
                    order::depth(queue@.take(k as int), volume),
                ),
        decreases queue@.len() - k,
    {
        let ghost before = depths;
        let queued = &queue[k];
        depths.add_all(&queued.resources.read_volumes);
        depths.add_all(&queued.resources.write_volumes);
        depths.add_all(&queued.resources.metadata_volumes);
        proof {
            let more = queue@.take(k + 1);
            assert(more.drop_last() =~= queue@.take(k as int));
            assert(more.last() == queue@[k as int]);
            assert forall|volume: Seq<char>| #[trigger]
                depths.count(volume) == counts::capped(order::depth(more, volume)) by {
                let r = queued.resources;
                counts::lemma_occurrences_listed(r.read_volumes@, volume);
                counts::lemma_occurrences_listed(r.write_volumes@, volume);
                counts::lemma_occurrences_listed(r.metadata_volumes@, volume);
                assert(before.count(volume) == counts::capped(
                    order::depth(queue@.take(k as int), volume),
                ));
            }
        }
        k = k + 1;
    }
    assert(queue@.take(k as int) =~= queue@);
    depths
}

proof fn lemma_depth_is_not_negative(queue: Seq<QueuedTask>, volume: Seq<char>)
    ensures
        order::depth(queue, volume) >= 0,
    decreases queue.len(),
{
    if queue.len() > 0 {
        lemma_depth_is_not_negative(queue.drop_last(), volume);
        let r = queue.last().resources;
        counts::lemma_occurrences_listed(r.read_volumes@, volume);
        counts::lemma_occurrences_listed(r.write_volumes@, volume);
        counts::lemma_occurrences_listed(r.metadata_volumes@, volume);
    }
}

/// Adds the depths of the volumes of a list.
fn add_backlog(
    start: usize,
    list: &Vec<String>,
    depths: &TextCounts,
    Ghost(queue): Ghost<Seq<QueuedTask>>,
    Ghost(before): Ghost<int>,
) -> (total: usize)
    requires
        depths.inv(),
        forall|volume: Seq<char>| #[trigger]
            depths.count(volume) == counts::capped(order::depth(queue, volume)),
        before >= 0,
        start == counts::capped(before),
    ensures
        total == counts::capped(before + order::list_backlog(queue, list@)),
        order::list_backlog(queue, list@) >= 0,
{
    let mut total: usize = start;
    let mut k: usize = 0;
    assert(list@.take(0).len() == 0);
    while k < list.len()
        invariant
            depths.inv(),
            forall|volume: Seq<char>| #[trigger]
                depths.count(volume) == counts::capped(order::depth(queue, volume)),
            k <= list@.len(),
            before >= 0,
            order::list_backlog(queue, list@.take(k as int)) >= 0,
            total == counts::capped(before + order::list_backlog(queue, list@.take(k as int))),
        decreases list@.len() - k,
    {
        let d = depths.get(list[k].as_str());
        proof {
            let more = list@.take(k + 1);
            assert(more.drop_last() =~= list@.take(k as int));
            assert(more.last() == list@[k as int]);
            lemma_depth_is_not_negative(queue, list@[k as int]@);
        }
        total = total.saturating_add(d);
        k = k + 1;
    }
    assert(list@.take(k as int) =~= list@);
    total
}

fn writes_claimed_volume(request: &ResourceRequest, admission: &AdmissionSnapshot) -> (yes: bool)
    ensures
        yes == order::writes_claimed(*request, admission@),
{
    let mut k: usize = 0;
    while k < request.write_volumes.len()
        invariant
            k <= request.write_volumes@.len(),
            forall|j: int|
                0 <= j < k ==> !admission@.reserved.contains(
                    (#[trigger] request.write_volumes@[j])@,
                ),
        decreases request.write_volumes@.len() - k,
    {
        if admission.reserved_write_volumes.contains(request.write_volumes[k].as_str()) {
            assert(admission@.reserved.contains(request.write_volumes@[k as int]@));
            return true;
        }
        k = k + 1;
    }
    false
}

fn rank_of(
    queue: &VecDeque<QueuedTask>,
    index: usize,
    depths: &TextCounts,
    admission: &AdmissionSnapshot,
    now: u64,
) -> (rank: Rank)
    requires
        index < queue@.len(),
        depths.inv(),
        forall|volume: Seq<char>| #[trigger]
            depths.count(volume) == counts::capped(order::depth(queue@, volume)),
    ensures
        rank == order::rank(queue@, index as int, admission@, now),
{
    let queued = &queue[index];
    let age: u64 = if now >= queued.enqueued_at {
        (now - queued.enqueued_at) / AGE_STEP
    } else {
        0
    };
    let reads = add_backlog(0, &queued.resources.read_volumes, depths, Ghost(queue@), Ghost(0));
    let ghost r = order::list_backlog(queue@, queued.resources.read_volumes@);
    let writes = add_backlog(
        reads,
        &queued.resources.write_volumes,
        depths,
        Ghost(queue@),
        Ghost(r),
    );
    let ghost w = order::list_backlog(queue@, queued.resources.write_volumes@);
    let backlog = add_backlog(
        writes,
        &queued.resources.metadata_volumes,
        depths,
        Ghost(queue@),
        Ghost(r + w),
    );
    Rank {
        age,
        claimed_writer: writes_claimed_volume(&queued.resources, admission),
        metadata: queued.resources.metadata_volumes.len() > 0,
        backlog,
        bytes: queued.resources.estimated_bytes,
    }
}

fn comes_first(a: &Rank, i: usize, b: &Rank, j: usize) -> (yes: bool)
    ensures
        yes == order::goes_before(*a, i as int, *b, j as int),
{
    if a.age != b.age {
        a.age > b.age
    } else if a.claimed_writer != b.claimed_writer {
        a.claimed_writer
    } else if a.metadata != b.metadata {
        a.metadata
    } else if a.backlog != b.backlog {
        a.backlog > b.backlog
    } else if a.bytes != b.bytes {
        a.bytes < b.bytes
    } else {
        i < j
    }
}

fn same_network(a: Option<NetworkClass>, b: Option<NetworkClass>) -> (same: bool)
    ensures
        same == (a == b),
{
    match (a, b) {
        (Some(x), Some(y)) => x == y,
        (None, None) => true,
        _ => false,
    }
}

fn is_runnable(
    queued: &QueuedTask,
    class: RunClass,
    network: Option<NetworkClass>,
    resources: &ResourceState,
    config: &TaskPoolConfig,
    admission: &AdmissionSnapshot,
) -> (yes: bool)
    requires
        resources.inv(),
    ensures
        yes == order::runnable(*queued, class, network, resources@, *config, admission@),
{
    queued.resources.run == class && (network.is_none() || same_network(
        queued.resources.network,
        network,
    )) && resources.can_acquire(&queued.resources, config, admission)
}

/// The place of the first runnable task of a queue.
fn runnable_index(
    queue: &VecDeque<QueuedTask>,
    class: RunClass,
    network: Option<NetworkClass>,
    resources: &ResourceState,
    config: &TaskPoolConfig,
    admission: &AdmissionSnapshot,
    now: u64,
) -> (found: Option<usize>)
    requires
        resources.inv(),
    ensures
        match found {
            Some(i) => order::chosen(
                queue@,
                class,
                network,
                resources@,
                *config,
                admission@,
                now,
            ) == Some(i as int),
            None => order::chosen(
                queue@,
                class,
                network,
                resources@,
                *config,
                admission@,
                now,
            ) is None,
        },
        found is Some ==> found->0 < queue@.len(),
{
    let depths = volume_depths(queue);
    let mut best: Option<(usize, Rank)> = None;
    let mut k: usize = 0;
    while k < queue.len()
        invariant
            resources.inv(),
            k <= queue@.len(),
            depths.inv(),
            forall|volume: Seq<char>| #[trigger]
                depths.count(volume) == counts::capped(order::depth(queue@, volume)),
            match best {
                Some((i, r)) => i < k && r == order::rank(queue@, i as int, admission@, now)
                    && order::runnable(
                    queue@[i as int],
                    class,
                    network,
                    resources@,
                    *config,
                    admission@,
                ) && forall|j: int|
                    0 <= j < k && j != i && order::runnable(
                        #[trigger] queue@[j],
                        class,
                        network,
                        resources@,
                        *config,
                        admission@,
                    ) ==> order::goes_before(
                        r,
                        i as int,
                        order::rank(queue@, j, admission@, now),
                        j,
                    ),
                None => forall|j: int|
                    0 <= j < k ==> !order::runnable(
                        #[trigger] queue@[j],
                        class,
                        network,
                        resources@,
                        *config,
                        admission@,
                    ),
            },
        decreases queue@.len() - k,
    {
        if is_runnable(&queue[k], class, network, resources, config, admission) {
            let rank = rank_of(queue, k, &depths, admission, now);
            let better = match &best {
                Some((i, r)) => comes_first(&rank, k, r, *i),
                None => true,
            };
            if better {
                best = Some((k, rank));
            }
        }
        k = k + 1;
    }
    match best {
        Some((i, _)) => {
            proof {
                assert(order::best(
                    queue@,
                    i as int,
                    class,
                    network,
                    resources@,
                    *config,
                    admission@,
                    now,
                ));
                order::lemma_best_is_unique(
                    queue@,
                    i as int,
                    class,
                    network,
                    resources@,
                    *config,
                    admission@,
                    now,
                );
            }
            Some(i)
        },
        None => None,
    }
}

/// Takes the task that goes first out of a queue.
fn remove_runnable(
    queue: &mut VecDeque<QueuedTask>,
    class: RunClass,
    preferred: Option<NetworkClass>,
    resources: &ResourceState,
    config: &TaskPoolConfig,
    admission: &AdmissionSnapshot,
    now: u64,
) -> (taken: Option<QueuedTask>)
    requires
        resources.inv(),
    ensures
        ({
            let picked = order::pick(
                old(queue)@,
                class,
                preferred,
                resources@,
                *config,
                admission@,
                now,
            );
            match taken {
                Some(task) => picked is Some && 0 <= picked->0 < old(queue)@.len() && task == old(
                    queue,
                )@[picked->0] && final(queue)@ == old(queue)@.remove(picked->0),
                None => picked is None && final(queue)@ == old(queue)@,
            }
        }),
{
    let mut found = runnable_index(queue, class, preferred, resources, config, admission, now);
    if found.is_none() {
        found = runnable_index(queue, class, None, resources, config, admission, now);
    }
    match found {
        Some(index) => queue.remove(index),
        None => None,
    }
}

/// Tasks that wait for admission, and what the admitted ones take.
pub struct SchedulerQueue {
    continuation: VecDeque<QueuedTask>,
    bulk: VecDeque<QueuedTask>,
    streak: Vec<usize>,
    execution_cursor: usize,
    network_cursor: usize,
    resources: ResourceState,
}

impl View for SchedulerQueue {
    type V = QueueModel;

    closed spec fn view(&self) -> QueueModel {
        QueueModel {
            continuation: self.continuation@,
            bulk: self.bulk@,
            streak: Seq::new(self.streak@.len(), |i: int| self.streak@[i] as int),
            execution_cursor: self.execution_cursor as int,
            network_cursor: self.network_cursor as int,
            usage: self.resources@,
        }
    }
}

impl Default for SchedulerQueue {
    fn default() -> (queue: SchedulerQueue)
        ensures
            queue.inv(),
            queue@ == QueueModel::empty(),
    {
        let mut streak: Vec<usize> = Vec::new();
        streak.push(0);
        streak.push(0);
        streak.push(0);
        let queue = SchedulerQueue {
            continuation: VecDeque::new(),
            bulk: VecDeque::new(),
            streak,
            execution_cursor: 0,
            network_cursor: 0,
            resources: ResourceState::default(),
        };
        assert(queue@.streak =~= QueueModel::empty().streak);
        queue
    }
}

impl SchedulerQueue {
    pub closed spec fn inv(&self) -> bool {
        &&& self.resources.inv()
        &&& self@.wf()
    }

    /// A queue keeps its rounds and counters in range.
    pub proof fn lemma_wf(&self)
        requires
            self.inv(),
        ensures
            self@.wf(),
            self@.usage.counted(),
    {
        self.resources.lemma_counted();
    }

    /// Lets a task wait.
    pub fn push(
        &mut self,
        node_id: NodeId,
        task: Task,
        resources: ResourceRequest,
        priority: TaskPriority,
        now: u64,
    )
        requires
            old(self).inv(),
        ensures
            final(self).inv(),
            ({
                let queued = QueuedTask { node_id, task, resources, enqueued_at: now };
                final(self)@ == (match priority {
                    TaskPriority::Continuation => QueueModel {
                        continuation: old(self)@.continuation.push(queued),
                        ..old(self)@
                    },
                    TaskPriority::Bulk => QueueModel {
                        bulk: old(self)@.bulk.push(queued),
                        ..old(self)@
                    },
                })
            }),
    {
        let queued = QueuedTask { node_id, task, resources, enqueued_at: now };
        match priority {
            TaskPriority::Continuation => self.continuation.push_back(queued),
            TaskPriority::Bulk => self.bulk.push_back(queued),
        }
    }

    /// Puts an admitted task that could not start back, in front of the
    /// continuations, and gives back what it took.
    pub fn restore_front(&mut self, scheduled: ScheduledTask)
        requires
            old(self).inv(),
        ensures
            final(self).inv(),
            final(self)@ == (QueueModel {
                continuation: seq![scheduled.queued()] + old(self)@.continuation,
                usage: old(self)@.usage.released(scheduled.resources),
                ..old(self)@
            }),
    {
        self.resources.release(&scheduled.resources);
        self.continuation.push_front(
            QueuedTask {
                node_id: scheduled.node_id,
                task: scheduled.task,
                resources: scheduled.resources,
                enqueued_at: scheduled.enqueued_at,
            },
        );
        proof {
            assert(self@.continuation =~= seq![scheduled.queued()] + old(self)@.continuation);
            assert(self@.streak =~= old(self)@.streak);
        }
    }

    /// Gives back what a task took.
    pub fn release(&mut self, resources: &ResourceRequest)
        requires
            old(self).inv(),
        ensures
            final(self).inv(),
            final(self)@ == (QueueModel {
                usage: old(self)@.usage.released(*resources),
                ..old(self)@
            }),
    {
        self.resources.release(resources);
    }

    /// How many tasks wait.
    pub fn queued_len(&self) -> (len: usize)
        ensures
            len == counts::capped(self@.waiting().len() as int),
    {
        self.continuation.len().saturating_add(self.bulk.len())
    }

    fn admission_snapshot(&self, config: &TaskPoolConfig) -> (admission: AdmissionSnapshot)
        requires
            self.inv(),
        ensures
            admission@ == self@.claims(*config),
    {
        let mut admission = AdmissionSnapshot::default();
        proof {
            let none: Seq<QueuedTask> = Seq::empty();
            assert(admission@ =~= order::claims_of(none, self.resources@, *config));
        }
        add_claims(
            &mut admission,
            &self.continuation,
            &self.resources,
            config,
            Ghost(Seq::empty()),
        );
        assert(Seq::<QueuedTask>::empty() + self.continuation@ =~= self.continuation@);
        add_claims(
            &mut admission,
            &self.bulk,
            &self.resources,
            config,
            Ghost(self.continuation@),
        );
        admission
    }

    /// Takes the next task of one lane.
    fn pop_runnable(&mut self, class: RunClass, config: &TaskPoolConfig, now: u64) -> (taken:
        Option<QueuedTask>)
        requires
            old(self).inv(),
        ensures
            final(self).inv(),
            (final(self)@, taken) == old(self)@.pop_class(class, *config, now),
    {
        let at = run_class_index(class);
        let streak = self.streak[at];
        assert(self@.streak[at as int] == streak);
        let forced = streak >= CONTINUATION_BURST;
        let preferred: Option<NetworkClass> = if class == RunClass::AsyncIo {
            let selected = schedule_network(self.network_cursor);
            self.network_cursor = (self.network_cursor + 1) % 8;
            Some(selected)
        } else {
            None
        };
        assert(self@.streak =~= old(self)@.streak);
        let admission = self.admission_snapshot(config);
        if !forced {
            let taken = remove_runnable(
                &mut self.continuation,
                class,
                preferred,
                &self.resources,
                config,
                &admission,
                now,
            );
            if taken.is_some() {
                self.streak.set(at, streak + 1);
                assert(self@.streak =~= old(self)@.streak.update(at as int, streak + 1));
                return taken;
            }
            assert(self@ =~= old(self)@.turned(class));
        }
        let taken = remove_runnable(
            &mut self.bulk,
            class,
            preferred,
            &self.resources,
            config,
            &admission,
            now,
        );
        if taken.is_some() {
            self.streak.set(at, 0);
            assert(self@.streak =~= old(self)@.streak.update(at as int, 0));
            return taken;
        }
        assert(self@ =~= old(self)@.turned(class));
        if forced {
            let taken = remove_runnable(
                &mut self.continuation,
                class,
                preferred,
                &self.resources,
                config,
                &admission,
                now,
            );
            if taken.is_some() {
                self.streak.set(at, 1);
                assert(self@.streak =~= old(self)@.streak.update(at as int, 1));
                return taken;
            }
        }
        assert(self@ =~= old(self)@.turned(class));
        None
    }

    /// Admits the next task, if one fits in. Where no blocking lane can be
    /// had, only tasks that need none are looked at.
    pub fn pop_next(
        &mut self,
        config: &TaskPoolConfig,
        blocking_dispatch_available: bool,
        now: u64,
    ) -> (taken: Option<ScheduledTask>)
        requires
            old(self).inv(),
        ensures
            final(self).inv(),
            ({
                let (after, task) = old(self)@.popped(*config, blocking_dispatch_available, now);
                &&& final(self)@ == after
                &&& match taken {
                    Some(scheduled) => task == Some(scheduled.queued()) && scheduled.started_at
                        == now,
                    None => task is None,
                }
            }),
    {
        let start = self.execution_cursor;
        let mut offset: usize = 0;
        while offset < 4
            invariant
                offset <= 4,
                self.inv(),
                start < 4,
                self@.execution_cursor == start,
                self@.pop_from(offset as int, *config, blocking_dispatch_available, now) == old(
                    self,
                )@.pop_from(0, *config, blocking_dispatch_available, now),
            decreases 4 - offset,
        {
            let index: usize = (start + offset) % 4;
            let class = schedule_class(index);
            if blocking_dispatch_available || class == RunClass::AsyncIo {
                let ghost before = self@;
                if let Some(queued) = self.pop_runnable(class, config, now) {
                    self.execution_cursor = (index + 1) % 4;
                    self.resources.acquire(&queued.resources);
                    proof {
                        let (after, task) = before.pop_class(class, *config, now);
                        assert(self@.streak =~= after.streak);
                        assert(self@ =~= (QueueModel {
                            execution_cursor: (index + 1) % 4,
                            usage: after.usage.acquired(queued.resources),
                            ..after
                        }));
                    }
                    return Some(
                        ScheduledTask {
                            node_id: queued.node_id,
                            task: queued.task,
                            resources: queued.resources,
                            enqueued_at: queued.enqueued_at,
                            started_at: now,
                        },
                    );
                }
            }
            offset = offset + 1;
        }
        None
    }
}

} // verus!
