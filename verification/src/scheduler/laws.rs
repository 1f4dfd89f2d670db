//! What holds of admission as a whole.

use crate::scheduler::config::TaskPoolConfig;
use crate::scheduler::counts;
use crate::scheduler::order;
use crate::scheduler::order::{QueueModel, QueuedTask, CONTINUATION_BURST};
use crate::scheduler::request::{ResourceRequest, RunClass};
use crate::scheduler::resources;
use crate::scheduler::resources::{Claims, Usage};
use vstd::prelude::*;

verus! {

/// Whether a queue came from another one by taking one task out.
pub open spec fn took(before: QueueModel, after: QueueModel, task: QueuedTask) -> bool {
    ||| exists|i: int|
        0 <= i < before.continuation.len() && task == #[trigger] before.continuation[i]
            && after.continuation == before.continuation.remove(i) && after.bulk == before.bulk
    ||| exists|i: int|
        0 <= i < before.bulk.len() && task == #[trigger] before.bulk[i] && after.bulk
            == before.bulk.remove(i) && after.continuation == before.continuation
}

/// Whether a waiting task of a lane may run now.
pub open spec fn lane_has_work(queue: QueueModel, class: RunClass, config: TaskPoolConfig) -> bool {
    exists|k: int|
        0 <= k < queue.waiting().len() && order::runnable(
            #[trigger] queue.waiting()[k],
            class,
            None,
            queue.usage,
            config,
            queue.claims(config),
        )
}

proof fn lemma_pop_class(queue: QueueModel, class: RunClass, config: TaskPoolConfig, now: u64)
    requires
        queue.wf(),
    ensures
        ({
            let (after, task) = queue.pop_class(class, config, now);
            &&& after.wf()
            &&& after.usage == queue.usage
            &&& after.execution_cursor == queue.execution_cursor
            &&& match task {
                Some(q) => took(queue, after, q) && order::runnable(
                    q,
                    class,
                    None,
                    queue.usage,
                    config,
                    queue.claims(config),
                ),
                None => after.continuation == queue.continuation && after.bulk == queue.bulk
                    && after.streak == queue.streak && !lane_has_work(queue, class, config),
            }
        }),
{
    let claims = queue.claims(config);
    order::lemma_pick(
        queue.continuation,
        class,
        queue.preferred(class),
        queue.usage,
        config,
        claims,
        now,
    );
    order::lemma_pick(
        queue.bulk,
        class,
        queue.preferred(class),
        queue.usage,
        config,
        claims,
        now,
    );
    let (after, task) = queue.pop_class(class, config, now);
    if task is None {
        assert forall|k: int| 0 <= k < queue.waiting().len() implies !order::runnable(
            #[trigger] queue.waiting()[k],
            class,
            None,
            queue.usage,
            config,
            claims,
        ) by {
            if k < queue.continuation.len() {
                assert(queue.waiting()[k] == queue.continuation[k]);
            } else {
                assert(queue.waiting()[k] == queue.bulk[k - queue.continuation.len()]);
            }
        }
    }
}

/// Whether a lane is looked at from a place of the round on.
pub open spec fn looked_at(cursor: int, offset: int, blocking: bool, class: RunClass) -> bool {
    exists|o: int|
        offset <= o < 4 && #[trigger] order::scheduled_class((cursor + o) % 4) == class && (blocking
            || class is AsyncIo)
}

proof fn lemma_pop_from(
    queue: QueueModel,
    offset: int,
    config: TaskPoolConfig,
    blocking: bool,
    now: u64,
)
    requires
        queue.wf(),
        0 <= offset <= 4,
    ensures
        ({
            let (after, task) = queue.pop_from(offset, config, blocking, now);
            &&& after.wf()
            &&& after.usage == queue.usage
            &&& match task {
                Some(q) => took(queue, after, q) && queue.usage.admits(
                    q.resources,
                    config,
                    queue.claims(config),
                ) && (blocking || q.resources.run is AsyncIo),
                None => after.continuation == queue.continuation && after.bulk == queue.bulk
                    && after.streak == queue.streak && after.execution_cursor
                    == queue.execution_cursor && forall|class: RunClass| #[trigger]
                    looked_at(queue.execution_cursor, offset, blocking, class)
                        ==> !lane_has_work(queue, class, config),
            }
        }),
    decreases 4 - offset,
{
    if offset < 4 {
        let index = (queue.execution_cursor + offset) % 4;
        let class = order::scheduled_class(index);
        let (after, task) = queue.pop_from(offset, config, blocking, now);
        if !blocking && class !is AsyncIo {
            lemma_pop_from(queue, offset + 1, config, blocking, now);
            if task is None {
                lemma_looked_at(queue, queue, offset, config, blocking, class);
            }
        } else {
            lemma_pop_class(queue, class, config, now);
            let (next, found) = queue.pop_class(class, config, now);
            if found is None {
                assert(next.waiting() == queue.waiting());
                lemma_pop_from(next, offset + 1, config, blocking, now);
                if task is None {
                    lemma_looked_at(queue, next, offset, config, blocking, class);
                }
            }
        }
    }
}

proof fn lemma_looked_at(
    queue: QueueModel,
    next: QueueModel,
    offset: int,
    config: TaskPoolConfig,
    blocking: bool,
    here: RunClass,
)
    requires
        0 <= offset < 4,
        here == order::scheduled_class((queue.execution_cursor + offset) % 4),
        next.execution_cursor == queue.execution_cursor,
        next.continuation == queue.continuation,
        next.bulk == queue.bulk,
        next.usage == queue.usage,
        (blocking || here is AsyncIo) ==> !lane_has_work(queue, here, config),
        forall|class: RunClass| #[trigger]
            looked_at(next.execution_cursor, offset + 1, blocking, class) ==> !lane_has_work(
                next,
                class,
                config,
            ),
    ensures
        forall|class: RunClass| #[trigger]
            looked_at(queue.execution_cursor, offset, blocking, class) ==> !lane_has_work(
                queue,
                class,
                config,
            ),
{
    assert(next.waiting() == queue.waiting());
    assert forall|class: RunClass| #[trigger]
        looked_at(queue.execution_cursor, offset, blocking, class) implies !lane_has_work(
        queue,
        class,
        config,
    ) by {
        let o = choose|o: int|
            offset <= o < 4 && #[trigger] order::scheduled_class((queue.execution_cursor + o) % 4)
                == class && (blocking || class is AsyncIo);
        if o > offset {
            assert(looked_at(next.execution_cursor, offset + 1, blocking, class));
            assert(!lane_has_work(next, class, config));
        }
    }
}

/// Whatever the place in the round, every lane is looked at.
proof fn lemma_every_lane_is_looked_at(cursor: int, blocking: bool, class: RunClass)
    requires
        0 <= cursor < 4,
        blocking || class is AsyncIo,
    ensures
        looked_at(cursor, 0, blocking, class),
{
    let place = order::class_index(class);
    let o = if place >= cursor {
        place - cursor
    } else {
        place + 4 - cursor
    };
    assert((cursor + o) % 4 == place);
    assert(order::scheduled_class((cursor + o) % 4) == class);
}

/// Admission takes exactly the task that it hands out and leaves all others
/// waiting, in their order. Where it hands out none, all keep waiting.
pub proof fn law_pop_conserves_tasks(
    queue: QueueModel,
    config: TaskPoolConfig,
    blocking: bool,
    now: u64,
)
    requires
        queue.wf(),
    ensures
        ({
            let (after, task) = queue.popped(config, blocking, now);
            &&& after.wf()
            &&& match task {
                Some(q) => took(queue, after, q) && after.usage == queue.usage.acquired(
                    q.resources,
                ),
                None => after.waiting() == queue.waiting() && after.usage == queue.usage,
            }
        }),
{
    lemma_pop_from(queue, 0, config, blocking, now);
}

/// An admitted task fits in beside the running ones, and needs no blocking
/// lane where none can be had.
pub proof fn law_popped_task_fits(
    queue: QueueModel,
    config: TaskPoolConfig,
    blocking: bool,
    now: u64,
)
    requires
        queue.wf(),
        queue.popped(config, blocking, now).1 is Some,
    ensures
        ({
            let q = queue.popped(config, blocking, now).1->0;
            &&& queue.usage.admits(q.resources, config, queue.claims(config))
            &&& blocking || q.resources.run is AsyncIo
        }),
{
    lemma_pop_from(queue, 0, config, blocking, now);
}

/// Admission never passes over work: where a waiting task fits in and its lane
/// can be had, some task is admitted.
pub proof fn law_pop_finds_work(
    queue: QueueModel,
    k: int,
    config: TaskPoolConfig,
    blocking: bool,
    now: u64,
)
    requires
        queue.wf(),
        0 <= k < queue.waiting().len(),
        queue.usage.admits(queue.waiting()[k].resources, config, queue.claims(config)),
        blocking || queue.waiting()[k].resources.run is AsyncIo,
    ensures
        queue.popped(config, blocking, now).1 is Some,
{
    let class = queue.waiting()[k].resources.run;
    lemma_pop_from(queue, 0, config, blocking, now);
    lemma_every_lane_is_looked_at(queue.execution_cursor, blocking, class);
    assert(order::runnable(
        queue.waiting()[k],
        class,
        None,
        queue.usage,
        config,
        queue.claims(config),
    ));
}

/// After a burst of continuations on a lane, a bulk task of that lane that
/// fits in is served, and the burst starts anew.
pub proof fn law_bulk_is_served_after_a_burst(
    queue: QueueModel,
    k: int,
    config: TaskPoolConfig,
    now: u64,
)
    requires
        queue.wf(),
        0 <= k < queue.bulk.len(),
        queue.usage.admits(queue.bulk[k].resources, config, queue.claims(config)),
        queue.streak[order::class_index(queue.bulk[k].resources.run)] >= CONTINUATION_BURST,
    ensures
        ({
            let class = queue.bulk[k].resources.run;
            let (after, task) = queue.pop_class(class, config, now);
            &&& task is Some
            &&& queue.bulk.contains(task->0)
            &&& after.continuation == queue.continuation
            &&& after.streak[order::class_index(class)] == 0
        }),
{
    let class = queue.bulk[k].resources.run;
    let claims = queue.claims(config);
    order::lemma_pick(
        queue.bulk,
        class,
        queue.preferred(class),
        queue.usage,
        config,
        claims,
        now,
    );
    assert(order::runnable(queue.bulk[k], class, None, queue.usage, config, claims));
    let i = queue.next_bulk(class, config, now)->0;
    assert(queue.bulk.contains(queue.bulk[i]));
}

/// Of the tasks of a queue that may run on a lane, one that waits for more
/// steps than all others is the one that is chosen.
pub proof fn law_oldest_goes_first(
    queue: Seq<QueuedTask>,
    i: int,
    class: RunClass,
    usage: Usage,
    config: TaskPoolConfig,
    claims: Claims,
    now: u64,
)
    requires
        0 <= i < queue.len(),
        order::runnable(queue[i], class, None, usage, config, claims),
        forall|j: int|
            0 <= j < queue.len() && j != i && order::runnable(
                #[trigger] queue[j],
                class,
                None,
                usage,
                config,
                claims,
            ) ==> order::age_steps(queue[j].enqueued_at, now) < order::age_steps(
                queue[i].enqueued_at,
                now,
            ),
    ensures
        order::chosen(queue, class, None, usage, config, claims, now) == Some(i),
{
    assert(order::best(queue, i, class, None, usage, config, claims, now));
    order::lemma_best_is_unique(queue, i, class, None, usage, config, claims, now);
}

/// Whether no list of a request names a volume twice.
pub open spec fn single(list: Seq<String>) -> bool {
    forall|key: Seq<char>| #[trigger] counts::occurrences(list, key) <= 1
}

/// Admitting what fits in never exceeds the number of lanes.
pub proof fn law_admission_keeps_lane_limits(
    usage: Usage,
    request: ResourceRequest,
    config: TaskPoolConfig,
    claims: Claims,
)
    requires
        usage.admits(request, config, claims),
        usage.cpu <= config.cpu_slots,
        usage.blocking <= config.blocking_slots,
        usage.network <= config.network_slots,
        usage.extract <= config.extract_slots,
    ensures
        usage.acquired(request).cpu <= config.cpu_slots,
        usage.acquired(request).blocking <= config.blocking_slots,
        usage.acquired(request).network <= config.network_slots,
        usage.acquired(request).extract <= config.extract_slots,
{
}

/// Admitting what fits in never exceeds the limits of a volume.
pub proof fn law_admission_keeps_volume_limits(
    usage: Usage,
    request: ResourceRequest,
    config: TaskPoolConfig,
    claims: Claims,
    volume: Seq<char>,
)
    requires
        usage.admits(request, config, claims),
        0 <= usage.reads[volume] <= config.policy(volume).read_limit,
        0 <= usage.writes[volume] <= config.policy(volume).write_limit,
        0 <= usage.metadata[volume] <= config.policy(volume).metadata_limit,
        single(request.read_volumes@),
        single(request.write_volumes@),
        single(request.metadata_volumes@),
    ensures
        usage.acquired(request).reads[volume] <= config.policy(volume).read_limit,
        usage.acquired(request).writes[volume] <= config.policy(volume).write_limit,
        usage.acquired(request).metadata[volume] <= config.policy(volume).metadata_limit,
{
    counts::lemma_occurrences_listed(request.read_volumes@, volume);
    counts::lemma_occurrences_listed(request.write_volumes@, volume);
    counts::lemma_occurrences_listed(request.metadata_volumes@, volume);
    assert(counts::occurrences(request.read_volumes@, volume) <= 1);
    assert(counts::occurrences(request.write_volumes@, volume) <= 1);
    assert(counts::occurrences(request.metadata_volumes@, volume) <= 1);
    if resources::wants(request, volume) {
        assert(usage.volume_admits(request, config.policy(volume), claims, volume));
    }
}

/// On an exclusive volume reads, writes and metadata work never overlap, except
/// where one task both reads and writes.
pub proof fn law_exclusive_volumes_stay_exclusive(
    usage: Usage,
    request: ResourceRequest,
    config: TaskPoolConfig,
    claims: Claims,
    volume: Seq<char>,
)
    requires
        usage.counted(),
        usage.admits(request, config, claims),
        config.policy(volume).streaming_mode is Exclusive,
        resources::wants(request, volume),
    ensures
        counts::lists(request.read_volumes@, volume) ==> usage.writes[volume] == 0
            && usage.metadata[volume] == 0,
        counts::lists(request.write_volumes@, volume) ==> usage.reads[volume] == 0
            && usage.metadata[volume] == 0,
        counts::lists(request.metadata_volumes@, volume) ==> usage.reads[volume] == 0
            && usage.writes[volume] == 0,
{
    assert(usage.volume_admits(request, config.policy(volume), claims, volume));
}

/// Two paths conflict or not whichever is named first.
pub proof fn law_path_conflict_is_symmetric(left: Seq<char>, right: Seq<char>)
    ensures
        resources::paths_conflict(left, right) == resources::paths_conflict(right, left),
{
}

/// A task is not admitted while a path that it changes, one below it or one
/// above it is being changed.
pub proof fn law_running_paths_never_conflict(
    usage: Usage,
    request: ResourceRequest,
    config: TaskPoolConfig,
    claims: Claims,
    path: Seq<char>,
    active: Seq<char>,
)
    requires
        usage.admits(request, config, claims),
        counts::lists(request.mutation_paths@, path),
        usage.mutations.contains(active),
    ensures
        !resources::paths_conflict(path, active),
{
    let k = choose|k: int|
        0 <= k < request.mutation_paths@.len() && (#[trigger] request.mutation_paths@[k])@ == path;
    assert(request.mutation_paths@[k]@ == path);
}

/// Releasing a task gives back exactly what admitting it took, as long as no
/// counter reached the end of its range.
pub proof fn law_release_undoes_acquire(
    usage: Usage,
    request: ResourceRequest,
    config: TaskPoolConfig,
    claims: Claims,
)
    requires
        usage.counted(),
        usage.admits(request, config, claims),
        usage.network < usize::MAX,
        usage.cpu < usize::MAX,
        usage.blocking < usize::MAX,
        usage.extract < usize::MAX,
        usage.reuse_commits < usize::MAX,
        fits(usage.reads, request.read_volumes@),
        fits(usage.writes, request.write_volumes@),
        fits(usage.metadata, request.metadata_volumes@),
        fits(usage.savers, request.archive_save_volumes@),
        fits(usage.commits, resources::commit_names(request.archive_commit_volumes@)),
    ensures
        usage.acquired(request).released(request) == usage,
{
    let back = usage.acquired(request).released(request);
    lemma_lowered_raised(usage.reads, request.read_volumes@);
    lemma_lowered_raised(usage.writes, request.write_volumes@);
    lemma_lowered_raised(usage.metadata, request.metadata_volumes@);
    lemma_lowered_raised(usage.savers, request.archive_save_volumes@);
    lemma_lowered_raised(
        usage.commits,
        resources::commit_names(request.archive_commit_volumes@),
    );
    assert forall|path: Seq<char>| back.mutations.contains(path) == usage.mutations.contains(
        path,
    ) by {
        if usage.mutations.contains(path) && counts::lists(request.mutation_paths@, path) {
            law_running_paths_never_conflict(usage, request, config, claims, path, path);
        }
    }
    assert(back.mutations =~= usage.mutations);
}

/// Whether no counter leaves its range when a list is counted.
pub open spec fn fits(before: Map<Seq<char>, int>, list: Seq<String>) -> bool {
    forall|key: Seq<char>| #[trigger] before[key] + counts::occurrences(list, key) <= usize::MAX
}

proof fn lemma_lowered_raised(before: Map<Seq<char>, int>, list: Seq<String>)
    requires
        resources::counters(before),
        fits(before, list),
    ensures
        resources::lowered(resources::raised(before, list), list) == before,
{
    let back = resources::lowered(resources::raised(before, list), list);
    assert forall|key: Seq<char>| #[trigger] back[key] == before[key] by {
        counts::lemma_occurrences_listed(list, key);
    }
    assert(back =~= before);
}

} // verus!
