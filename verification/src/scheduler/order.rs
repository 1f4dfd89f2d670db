//! The order in which waiting tasks are admitted, as a function.

use crate::graph::node::NodeId;
use crate::scheduler::config::TaskPoolConfig;
use crate::scheduler::counts;
use crate::scheduler::request::{NetworkClass, ResourceRequest, RunClass};
use crate::scheduler::resources::{Claims, Usage};
use crate::task::Task;
use vstd::prelude::*;

verus! {

/// How many continuations of one lane may run before a bulk task of that lane
/// is preferred.
pub const CONTINUATION_BURST: usize = 4;

/// Nanoseconds after which a waiting task moves up.
pub const AGE_STEP: u64 = 5_000_000_000;

/// A task that waits for admission, with the time at which it came, in
/// nanoseconds.
pub struct QueuedTask {
    pub node_id: NodeId,
    pub task: Task,
    pub resources: ResourceRequest,
    pub enqueued_at: u64,
}

/// The admission queue in the mathematical model.
#[verifier::ext_equal]
pub struct QueueModel {
    pub continuation: Seq<QueuedTask>,
    pub bulk: Seq<QueuedTask>,
    /// For each lane, how many continuations it took since the last bulk task.
    pub streak: Seq<int>,
    pub execution_cursor: int,
    pub network_cursor: int,
    pub usage: Usage,
}

/// The lane to try at a place of the execution round.
pub open spec fn scheduled_class(index: int) -> RunClass {
    if index == 1 {
        RunClass::Cpu
    } else if index == 2 {
        RunClass::Blocking
    } else {
        RunClass::AsyncIo
    }
}

/// The kind of transfer to prefer at a place of the network round.
pub open spec fn scheduled_network(index: int) -> NetworkClass {
    if index < 4 {
        NetworkClass::General
    } else if index < 6 {
        NetworkClass::Archive
    } else if index == 6 {
        NetworkClass::Vfs
    } else {
        NetworkClass::ArchiveBackground
    }
}

/// The place of a lane among the lanes.
pub open spec fn class_index(class: RunClass) -> int {
    match class {
        RunClass::AsyncIo => 0,
        RunClass::Cpu => 1,
        RunClass::Blocking => 2,
    }
}

/// How many of the tasks put a reused file in place.
pub open spec fn reuse_commits(waiting: Seq<QueuedTask>) -> int
    decreases waiting.len(),
{
    if waiting.len() == 0 {
        0
    } else {
        reuse_commits(waiting.drop_last()) + (if waiting.last().resources.reuse_commit {
            1int
        } else {
            0int
        })
    }
}

/// Whether a waiting task claims a volume for writing.
pub open spec fn reserves(
    queued: QueuedTask,
    usage: Usage,
    config: TaskPoolConfig,
    volume: Seq<char>,
) -> bool {
    !usage.holds_back(queued.resources, config) && counts::lists(
        queued.resources.write_volumes@,
        volume,
    )
}

/// What the waiting tasks claim of the machine.
pub open spec fn claims_of(
    waiting: Seq<QueuedTask>,
    usage: Usage,
    config: TaskPoolConfig,
) -> Claims {
    Claims {
        reserved: Set::new(
            |volume: Seq<char>|
                exists|k: int|
                    0 <= k < waiting.len() && reserves(
                        #[trigger] waiting[k],
                        usage,
                        config,
                        volume,
                    ),
        ),
        reuse_commits: counts::capped(reuse_commits(waiting)),
    }
}

/// How often a request names a volume.
pub open spec fn mentions(request: ResourceRequest, volume: Seq<char>) -> int {
    counts::occurrences(request.read_volumes@, volume) + counts::occurrences(
        request.write_volumes@,
        volume,
    ) + counts::occurrences(request.metadata_volumes@, volume)
}

/// How often the tasks of a queue name a volume.
pub open spec fn depth(queue: Seq<QueuedTask>, volume: Seq<char>) -> int
    decreases queue.len(),
{
    if queue.len() == 0 {
        0
    } else {
        depth(queue.drop_last(), volume) + mentions(queue.last().resources, volume)
    }
}

/// How often the tasks of a queue name the volumes of a list.
pub open spec fn list_backlog(queue: Seq<QueuedTask>, list: Seq<String>) -> int
    decreases list.len(),
{
    if list.len() == 0 {
        0
    } else {
        list_backlog(queue, list.drop_last()) + depth(queue, list.last()@)
    }
}

/// How much work waits on the volumes of a request.
pub open spec fn backlog(queue: Seq<QueuedTask>, request: ResourceRequest) -> int {
    list_backlog(queue, request.read_volumes@) + list_backlog(queue, request.write_volumes@)
        + list_backlog(queue, request.metadata_volumes@)
}

/// Whether one of the volumes that a request writes to is claimed.
pub open spec fn writes_claimed(request: ResourceRequest, claims: Claims) -> bool {
    exists|k: int|
        0 <= k < request.write_volumes@.len() && claims.reserved.contains(
            (#[trigger] request.write_volumes@[k])@,
        )
}

/// Where a task stands in the order of a queue.
pub struct Rank {
    pub age: u64,
    pub claimed_writer: bool,
    pub metadata: bool,
    pub backlog: usize,
    pub bytes: u64,
}

/// For how many steps a task has waited.
pub open spec fn age_steps(enqueued_at: u64, now: u64) -> u64 {
    if now >= enqueued_at {
        ((now - enqueued_at) / AGE_STEP as int) as u64
    } else {
        0
    }
}

/// The rank of a task of a queue.
pub open spec fn rank(queue: Seq<QueuedTask>, i: int, claims: Claims, now: u64) -> Rank {
    Rank {
        age: age_steps(queue[i].enqueued_at, now),
        claimed_writer: writes_claimed(queue[i].resources, claims),
        metadata: queue[i].resources.metadata_volumes@.len() > 0,
        backlog: counts::capped(backlog(queue, queue[i].resources)) as usize,
        bytes: queue[i].resources.estimated_bytes,
    }
}

/// Whether the first rank goes before the second: the older, then the writer
/// of a claimed volume, then work on metadata, then the longer backlog, then
/// the smaller task, then the one that came first.
pub open spec fn goes_before(a: Rank, i: int, b: Rank, j: int) -> bool {
    if a.age != b.age {
        a.age > b.age
    } else if a.claimed_writer != b.claimed_writer {
        a.claimed_writer
    } else if a.metadata != b.metadata {
        a.metadata
    } else if a.backlog != b.backlog {
        a.backlog > b.backlog
    } else if a.bytes != b.bytes {
        a.bytes < b.bytes
    } else {
        i < j
    }
}

/// Whether a task may run now, on the lane and with the kind of transfer that
/// is looked for.
pub open spec fn runnable(
    queued: QueuedTask,
    class: RunClass,
    network: Option<NetworkClass>,
    usage: Usage,
    config: TaskPoolConfig,
    claims: Claims,
) -> bool {
    &&& queued.resources.run == class
    &&& network is Some ==> queued.resources.network == network
    &&& usage.admits(queued.resources, config, claims)
}

/// Whether a place of a queue holds the first of its runnable tasks.
pub open spec fn best(
    queue: Seq<QueuedTask>,
    i: int,
    class: RunClass,
    network: Option<NetworkClass>,
    usage: Usage,
    config: TaskPoolConfig,
    claims: Claims,
    now: u64,
) -> bool {
    &&& 0 <= i < queue.len()
    &&& runnable(queue[i], class, network, usage, config, claims)
    &&& forall|j: int|
        0 <= j < queue.len() && j != i && runnable(
            #[trigger] queue[j],
            class,
            network,
            usage,
            config,
            claims,
        ) ==> goes_before(rank(queue, i, claims, now), i, rank(queue, j, claims, now), j)
}

/// The place of the first runnable task of a queue.
pub open spec fn chosen(
    queue: Seq<QueuedTask>,
    class: RunClass,
    network: Option<NetworkClass>,
    usage: Usage,
    config: TaskPoolConfig,
    claims: Claims,
    now: u64,
) -> Option<int> {
    if exists|j: int|
        0 <= j < queue.len() && runnable(
            #[trigger] queue[j],
            class,
            network,
            usage,
            config,
            claims,
        ) {
        Some(choose|i: int| best(queue, i, class, network, usage, config, claims, now))
    } else {
        None
    }
}

/// The place of the task to take from a queue: the first one with the
/// preferred kind of transfer, or else the first of any kind.
pub open spec fn pick(
    queue: Seq<QueuedTask>,
    class: RunClass,
    preferred: Option<NetworkClass>,
    usage: Usage,
    config: TaskPoolConfig,
    claims: Claims,
    now: u64,
) -> Option<int> {
    match chosen(queue, class, preferred, usage, config, claims, now) {
        Some(i) => Some(i),
        None => chosen(queue, class, None, usage, config, claims, now),
    }
}

impl QueueModel {
    /// All waiting tasks.
    pub open spec fn waiting(self) -> Seq<QueuedTask> {
        self.continuation + self.bulk
    }

    pub open spec fn claims(self, config: TaskPoolConfig) -> Claims {
        claims_of(self.waiting(), self.usage, config)
    }

    /// An empty queue.
    pub open spec fn empty() -> QueueModel {
        QueueModel {
            continuation: Seq::empty(),
            bulk: Seq::empty(),
            streak: seq![0int, 0int, 0int],
            execution_cursor: 0,
            network_cursor: 0,
            usage: Usage::idle(),
        }
    }

    /// The kind of transfer that a look at a lane prefers.
    pub open spec fn preferred(self, class: RunClass) -> Option<NetworkClass> {
        if class is AsyncIo {
            Some(scheduled_network(self.network_cursor))
        } else {
            None
        }
    }

    /// The queue once a lane was looked at.
    pub open spec fn turned(self, class: RunClass) -> QueueModel {
        if class is AsyncIo {
            QueueModel { network_cursor: (self.network_cursor + 1) % 8, ..self }
        } else {
            self
        }
    }

    /// The place in the continuations that a look at a lane would take.
    pub open spec fn next_continuation(
        self,
        class: RunClass,
        config: TaskPoolConfig,
        now: u64,
    ) -> Option<int> {
        pick(
            self.continuation,
            class,
            self.preferred(class),
            self.usage,
            config,
            self.claims(config),
            now,
        )
    }

    /// The place in the bulk that a look at a lane would take.
    pub open spec fn next_bulk(self, class: RunClass, config: TaskPoolConfig, now: u64) -> Option<
        int,
    > {
        pick(
            self.bulk,
            class,
            self.preferred(class),
            self.usage,
            config,
            self.claims(config),
            now,
        )
    }

    /// The queue without one continuation, and with a new streak.
    pub open spec fn take_continuation(self, class: RunClass, i: int, streak: int) -> QueueModel {
        QueueModel {
            continuation: self.continuation.remove(i),
            streak: self.streak.update(class_index(class), streak),
            ..self.turned(class)
        }
    }

    /// The queue without one bulk task.
    pub open spec fn take_bulk(self, class: RunClass, i: int) -> QueueModel {
        QueueModel {
            bulk: self.bulk.remove(i),
            streak: self.streak.update(class_index(class), 0),
            ..self.turned(class)
        }
    }

    /// What a look at one lane gives: a continuation, unless too many ran in a
    /// row; then a bulk task; then a continuation after all.
    pub open spec fn pop_class(
        self,
        class: RunClass,
        config: TaskPoolConfig,
        now: u64,
    ) -> (QueueModel, Option<QueuedTask>) {
        let at = class_index(class);
        let forced = self.streak[at] >= CONTINUATION_BURST;
        let continuation = self.next_continuation(class, config, now);
        let bulk = self.next_bulk(class, config, now);
        if !forced && continuation is Some {
            let i = continuation->0;
            (
                self.take_continuation(class, i, counts::capped(self.streak[at] + 1)),
                Some(self.continuation[i]),
            )
        } else if bulk is Some {
            let i = bulk->0;
            (self.take_bulk(class, i), Some(self.bulk[i]))
        } else if continuation is Some {
            let i = continuation->0;
            (self.take_continuation(class, i, 1), Some(self.continuation[i]))
        } else {
            (self.turned(class), None)
        }
    }

    /// What the execution round gives from its `offset`th place on.
    pub open spec fn pop_from(
        self,
        offset: int,
        config: TaskPoolConfig,
        blocking: bool,
        now: u64,
    ) -> (QueueModel, Option<QueuedTask>)
        decreases 4 - offset,
    {
        if offset < 0 || offset >= 4 {
            (self, None)
        } else {
            let index = (self.execution_cursor + offset) % 4;
            let class = scheduled_class(index);
            if !blocking && class !is AsyncIo {
                self.pop_from(offset + 1, config, blocking, now)
            } else {
                let (after, task) = self.pop_class(class, config, now);
                if task is Some {
                    (QueueModel { execution_cursor: (index + 1) % 4, ..after }, task)
                } else {
                    after.pop_from(offset + 1, config, blocking, now)
                }
            }
        }
    }

    /// The queue once the next task was admitted, and that task.
    pub open spec fn popped(self, config: TaskPoolConfig, blocking: bool, now: u64) -> (
        QueueModel,
        Option<QueuedTask>,
    ) {
        let (after, task) = self.pop_from(0, config, blocking, now);
        match task {
            Some(queued) => (
                QueueModel { usage: after.usage.acquired(queued.resources), ..after },
                task,
            ),
            None => (after, None),
        }
    }

    /// What holds of every queue.
    pub open spec fn wf(self) -> bool {
        &&& self.streak.len() == 3
        &&& 0 <= self.execution_cursor < 4
        &&& 0 <= self.network_cursor < 8
        &&& forall|i: int| 0 <= i < 3 ==> 0 <= #[trigger] self.streak[i] <= CONTINUATION_BURST
    }
}

/// Among runnable tasks there is exactly one that goes first.
pub proof fn lemma_best_is_unique(
    queue: Seq<QueuedTask>,
    i: int,
    class: RunClass,
    network: Option<NetworkClass>,
    usage: Usage,
    config: TaskPoolConfig,
    claims: Claims,
    now: u64,
)
    requires
        best(queue, i, class, network, usage, config, claims, now),
    ensures
        chosen(queue, class, network, usage, config, claims, now) == Some(i),
{
    assert(runnable(queue[i], class, network, usage, config, claims));
    let j = choose|j: int| best(queue, j, class, network, usage, config, claims, now);
    assert(best(queue, j, class, network, usage, config, claims, now));
    if i != j {
        assert(runnable(queue[j], class, network, usage, config, claims));
        assert(goes_before(rank(queue, i, claims, now), i, rank(queue, j, claims, now), j));
        assert(goes_before(rank(queue, j, claims, now), j, rank(queue, i, claims, now), i));
    }
}

/// Where a task of a prefix is runnable, one of that prefix goes first.
proof fn lemma_best_exists_up_to(
    queue: Seq<QueuedTask>,
    n: int,
    class: RunClass,
    network: Option<NetworkClass>,
    usage: Usage,
    config: TaskPoolConfig,
    claims: Claims,
    now: u64,
) -> (i: int)
    requires
        0 <= n <= queue.len(),
        exists|j: int|
            0 <= j < n && runnable(#[trigger] queue[j], class, network, usage, config, claims),
    ensures
        0 <= i < n,
        runnable(queue[i], class, network, usage, config, claims),
        forall|j: int|
            0 <= j < n && j != i && runnable(
                #[trigger] queue[j],
                class,
                network,
                usage,
                config,
                claims,
            ) ==> goes_before(rank(queue, i, claims, now), i, rank(queue, j, claims, now), j),
    decreases n,
{
    let last = n - 1;
    let here = runnable(queue[last], class, network, usage, config, claims);
    if exists|j: int|
        0 <= j < last && runnable(#[trigger] queue[j], class, network, usage, config, claims) {
        let i = lemma_best_exists_up_to(queue, last, class, network, usage, config, claims, now);
        if here && goes_before(
            rank(queue, last, claims, now),
            last,
            rank(queue, i, claims, now),
            i,
        ) {
            last
        } else {
            i
        }
    } else {
        last
    }
}

/// What a queue picks is the best of its runnable tasks.
pub proof fn lemma_chosen_is_best(
    queue: Seq<QueuedTask>,
    class: RunClass,
    network: Option<NetworkClass>,
    usage: Usage,
    config: TaskPoolConfig,
    claims: Claims,
    now: u64,
)
    ensures
        match chosen(queue, class, network, usage, config, claims, now) {
            Some(i) => best(queue, i, class, network, usage, config, claims, now),
            None => forall|j: int|
                0 <= j < queue.len() ==> !runnable(
                    #[trigger] queue[j],
                    class,
                    network,
                    usage,
                    config,
                    claims,
                ),
        },
{
    if exists|j: int|
        0 <= j < queue.len() && runnable(
            #[trigger] queue[j],
            class,
            network,
            usage,
            config,
            claims,
        ) {
        let i = lemma_best_exists_up_to(
            queue,
            queue.len() as int,
            class,
            network,
            usage,
            config,
            claims,
            now,
        );
        assert(best(queue, i, class, network, usage, config, claims, now));
    }
}

/// What a look at a queue takes is there and may run, and it takes nothing
/// only where no task of the lane may run.
pub proof fn lemma_pick(
    queue: Seq<QueuedTask>,
    class: RunClass,
    preferred: Option<NetworkClass>,
    usage: Usage,
    config: TaskPoolConfig,
    claims: Claims,
    now: u64,
)
    ensures
        match pick(queue, class, preferred, usage, config, claims, now) {
            Some(i) => 0 <= i < queue.len() && runnable(
                queue[i],
                class,
                None,
                usage,
                config,
                claims,
            ),
            None => forall|j: int|
                0 <= j < queue.len() ==> !runnable(
                    #[trigger] queue[j],
                    class,
                    None,
                    usage,
                    config,
                    claims,
                ),
        },
{
    lemma_chosen_is_best(queue, class, preferred, usage, config, claims, now);
    lemma_chosen_is_best(queue, class, None, usage, config, claims, now);
}

} // verus!
