//! Released tasks that are not yet routed.

use crate::graph::node::ReadyTask;
use crate::path::{FilePath, PathModel};
use crate::scheduler::counts;
use crate::scheduler::order;
use crate::scheduler::order::{QueueModel, QueuedTask};
use crate::scheduler::queue::SchedulerQueue;
use crate::scheduler::request::{RunClass, TaskPriority};
use crate::scheduler::route;
use crate::scheduler::routes;
use crate::scheduler::routes::RouteFacts;
use crate::scheduler::routing;
use std::collections::VecDeque;
use vstd::prelude::*;

verus! {

/// One queue for each lane, and the lane to look at first.
#[verifier::ext_equal]
pub struct Lanes {
    pub async_io: Seq<ReadyTask>,
    pub cpu: Seq<ReadyTask>,
    pub blocking: Seq<ReadyTask>,
    pub cursor: int,
}

impl Lanes {
    pub open spec fn empty() -> Lanes {
        Lanes {
            async_io: Seq::empty(),
            cpu: Seq::empty(),
            blocking: Seq::empty(),
            cursor: 0,
        }
    }

    /// The queue of a lane.
    pub open spec fn lane(self, index: int) -> Seq<ReadyTask> {
        if index == 0 {
            self.async_io
        } else if index == 1 {
            self.cpu
        } else {
            self.blocking
        }
    }

    /// The queues with another one for a lane.
    pub open spec fn with_lane(self, index: int, queue: Seq<ReadyTask>) -> Lanes {
        if index == 0 {
            Lanes { async_io: queue, ..self }
        } else if index == 1 {
            Lanes { cpu: queue, ..self }
        } else {
            Lanes { blocking: queue, ..self }
        }
    }

    /// How many tasks the queues hold.
    pub open spec fn held(self) -> nat {
        self.async_io.len() + self.cpu.len() + self.blocking.len()
    }

    /// The queues with one more task, at the end of its lane.
    pub open spec fn pushed(self, ready: ReadyTask) -> Lanes {
        let index = order::class_index(routes::lane(ready.task));
        self.with_lane(index, self.lane(index).push(ready))
    }

    /// The first lane that holds a task, from the `offset`th place of the round
    /// on.
    pub open spec fn next_lane(self, offset: int) -> Option<int>
        decreases 3 - offset,
    {
        if offset < 0 || offset >= 3 {
            None
        } else {
            let index = (self.cursor + offset) % 3;
            if self.lane(index).len() > 0 {
                Some(index)
            } else {
                self.next_lane(offset + 1)
            }
        }
    }

    /// The queues without the next task, and that task. The lane after the one
    /// that it came from is the next to be looked at.
    pub open spec fn popped(self) -> (Lanes, Option<ReadyTask>) {
        match self.next_lane(0) {
            Some(index) => (
                Lanes {
                    cursor: (index + 1) % 3,
                    ..self.with_lane(index, self.lane(index).drop_first())
                },
                Some(self.lane(index)[0]),
            ),
            None => (self, None),
        }
    }
}

/// Released tasks in the mathematical model.
#[verifier::ext_equal]
pub struct BacklogModel {
    pub continuation: Lanes,
    pub bulk: Lanes,
    pub len: int,
    pub peak: int,
}

impl BacklogModel {
    pub open spec fn empty() -> BacklogModel {
        BacklogModel { continuation: Lanes::empty(), bulk: Lanes::empty(), len: 0, peak: 0 }
    }

    /// The backlog with one more task.
    pub open spec fn pushed(self, ready: ReadyTask) -> BacklogModel {
        let len = counts::capped(self.len + 1);
        if ready.continuation {
            BacklogModel { continuation: self.continuation.pushed(ready), len, ..self }
        } else {
            BacklogModel { bulk: self.bulk.pushed(ready), len, ..self }
        }
    }

    /// The backlog with the first `k` tasks of a list.
    pub open spec fn pushed_all(self, list: Seq<ReadyTask>, k: int) -> BacklogModel
        decreases k,
    {
        if k <= 0 {
            self
        } else {
            self.pushed_all(list, k - 1).pushed(list[k - 1])
        }
    }

    /// The backlog with the tasks of a list.
    pub open spec fn extended(self, list: Seq<ReadyTask>) -> BacklogModel {
        let more = self.pushed_all(list, list.len() as int);
        BacklogModel {
            peak: if more.peak >= more.len {
                more.peak
            } else {
                more.len
            },
            ..more
        }
    }

    /// The backlog without the next task, and that task. Continuations come
    /// first.
    pub open spec fn popped(self) -> (BacklogModel, Option<ReadyTask>) {
        let (continuation, first) = self.continuation.popped();
        let (bulk, second) = self.bulk.popped();
        if first is Some {
            (BacklogModel { continuation, len: counts::monus(self.len, 1), ..self }, first)
        } else if second is Some {
            (BacklogModel { bulk, len: counts::monus(self.len, 1), ..self }, second)
        } else {
            (self, None)
        }
    }

    /// The backlog without the next `n` tasks, and those tasks.
    pub open spec fn window(self, n: nat) -> (BacklogModel, Seq<ReadyTask>)
        decreases n,
    {
        if n == 0 {
            (self, Seq::empty())
        } else {
            let (rest, tasks) = self.window((n - 1) as nat);
            match rest.popped() {
                (after, Some(task)) => (after, tasks.push(task)),
                (_, None) => (rest, tasks),
            }
        }
    }

    /// How many tasks the backlog holds.
    pub open spec fn held(self) -> nat {
        self.continuation.held() + self.bulk.held()
    }

    /// The rounds and counters are in range, and the length is the number of
    /// tasks that are held. Only where a counter has ever stood at its limit, it
    /// may be less.
    pub open spec fn wf(self) -> bool {
        &&& 0 <= self.continuation.cursor < 3
        &&& 0 <= self.bulk.cursor < 3
        &&& 0 <= self.len <= usize::MAX
        &&& 0 <= self.peak <= usize::MAX
        &&& self.peak < usize::MAX ==> self.len == self.held()
    }
}

/// One queue for each lane.
struct LaneQueues {
    async_io: VecDeque<ReadyTask>,
    cpu: VecDeque<ReadyTask>,
    blocking: VecDeque<ReadyTask>,
    cursor: usize,
}

impl View for LaneQueues {
    type V = Lanes;

    closed spec fn view(&self) -> Lanes {
        Lanes {
            async_io: self.async_io@,
            cpu: self.cpu@,
            blocking: self.blocking@,
            cursor: self.cursor as int,
        }
    }
}

impl LaneQueues {
    fn new() -> (lanes: LaneQueues)
        ensures
            lanes@ == Lanes::empty(),
    {
        LaneQueues {
            async_io: VecDeque::new(),
            cpu: VecDeque::new(),
            blocking: VecDeque::new(),
            cursor: 0,
        }
    }

    fn push(&mut self, ready: ReadyTask)
        ensures
            final(self)@ == old(self)@.pushed(ready),
    {
        match route::run_class(&ready.task) {
            RunClass::AsyncIo => {
                self.async_io.push_back(ready);
            },
            RunClass::Cpu => {
                self.cpu.push_back(ready);
            },
            RunClass::Blocking => {
                self.blocking.push_back(ready);
            },
        }
    }

    fn pop_lane(&mut self, index: usize) -> (task: Option<ReadyTask>)
        requires
            index < 3,
        ensures
            match task {
                Some(ready) => old(self)@.lane(index as int).len() > 0 && ready == old(self)@.lane(
                    index as int,
                )[0] && final(self)@ == old(self)@.with_lane(
                    index as int,
                    old(self)@.lane(index as int).drop_first(),
                ),
                None => old(self)@.lane(index as int).len() == 0 && final(self)@ == old(self)@,
            },
    {
        let task = if index == 0 {
            self.async_io.pop_front()
        } else if index == 1 {
            self.cpu.pop_front()
        } else {
            self.blocking.pop_front()
        };
        proof {
            if task is Some {
                assert(self@.lane(index as int) =~= old(self)@.lane(index as int).drop_first());
            }
        }
        task
    }

    /// Takes the next task, lane by lane in turn.
    fn pop(&mut self) -> (task: Option<ReadyTask>)
        requires
            old(self)@.cursor < 3,
        ensures
            (final(self)@, task) == old(self)@.popped(),
    {
        let start = self.cursor;
        let mut offset: usize = 0;
        while offset < 3
            invariant
                offset <= 3,
                start < 3,
                self@ == old(self)@,
                self@.cursor == start,
                old(self)@.next_lane(0) == old(self)@.next_lane(offset as int),
            decreases 3 - offset,
        {
            let index: usize = (start + offset) % 3;
            let task = self.pop_lane(index);
            if task.is_some() {
                self.cursor = (index + 1) % 3;
                return task;
            }
            offset = offset + 1;
        }
        None
    }
}

/// Released tasks that are not yet routed: continuations before bulk, and the
/// lanes in turn.
pub struct ReadyBacklog {
    continuation: LaneQueues,
    bulk: LaneQueues,
    len: usize,
    peak_len: usize,
}

impl View for ReadyBacklog {
    type V = BacklogModel;

    closed spec fn view(&self) -> BacklogModel {
        BacklogModel {
            continuation: self.continuation@,
            bulk: self.bulk@,
            len: self.len as int,
            peak: self.peak_len as int,
        }
    }
}

impl Default for ReadyBacklog {
    fn default() -> (backlog: ReadyBacklog)
        ensures
            backlog@ == BacklogModel::empty(),
            backlog@.wf(),
    {
        ReadyBacklog {
            continuation: LaneQueues::new(),
            bulk: LaneQueues::new(),
            len: 0,
            peak_len: 0,
        }
    }
}

impl ReadyBacklog {
    /// Adds released tasks.
    pub fn extend(&mut self, ready: Vec<ReadyTask>)
        requires
            old(self)@.wf(),
        ensures
            final(self)@ == old(self)@.extended(ready@),
            final(self)@.wf(),
    {
        let ghost all = ready@;
        for task in it: ready
            invariant
                it.seq() == all,
                self@ == old(self)@.pushed_all(all, it.index()),
                0 <= self@.continuation.cursor < 3,
                0 <= self@.bulk.cursor < 3,
                self@.len == counts::capped(old(self)@.len + it.index()),
                self@.peak == old(self)@.peak,
                self@.held() == old(self)@.held() + it.index(),
                old(self)@.wf(),
        {
            let continuation = task.continuation;
            if continuation {
                self.continuation.push(task);
            } else {
                self.bulk.push(task);
            }
            self.len = self.len.saturating_add(1);
        }
        if self.peak_len < self.len {
            self.peak_len = self.len;
        }
    }

    /// Takes the next task.
    pub fn pop(&mut self) -> (task: Option<ReadyTask>)
        requires
            old(self)@.wf(),
        ensures
            (final(self)@, task) == old(self)@.popped(),
            final(self)@.wf(),
    {
        proof {
            lemma_popped(self@);
        }
        let mut task = self.continuation.pop();
        if task.is_none() {
            task = self.bulk.pop();
        }
        if task.is_some() {
            self.len = self.len.saturating_sub(1);
        }
        task
    }

    pub fn is_empty(&self) -> (empty: bool)
        ensures
            empty == (self@.len == 0),
    {
        self.len == 0
    }

    /// How many tasks wait to be routed.
    pub fn len(&self) -> (len: usize)
        ensures
            len == self@.len,
    {
        self.len
    }

    /// The largest number of tasks that ever waited to be routed.
    pub fn peak_len(&self) -> (len: usize)
        ensures
            len == self@.peak,
    {
        self.peak_len
    }

    /// Takes the next tasks, at most so many.
    pub fn take_window(&mut self, max_tasks: usize) -> (window: Vec<ReadyTask>)
        requires
            old(self)@.wf(),
        ensures
            (final(self)@, window@) == old(self)@.window(max_tasks as nat),
            final(self)@.wf(),
    {
        let mut window: Vec<ReadyTask> = Vec::new();
        let mut k: usize = 0;
        while k < max_tasks
            invariant
                k <= max_tasks,
                self@.wf(),
                (self@, window@) == old(self)@.window(k as nat),
            decreases max_tasks - k,
        {
            let ghost before = self@;
            match self.pop() {
                Some(task) => {
                    window.push(task);
                },
                None => {
                    proof {
                        lemma_window_ends(old(self)@, k as nat, max_tasks as nat);
                    }
                    return window;
                },
            }
            k = k + 1;
        }
        window
    }
}

/// A backlog that ran out stays empty.
proof fn lemma_window_ends(m: BacklogModel, k: nat, n: nat)
    requires
        k <= n,
        m.window(k).0.popped().1 is None,
    ensures
        m.window(n) == m.window(k),
    decreases n,
{
    if k < n {
        lemma_window_ends(m, k, (n - 1) as nat);
    }
}

/// How many more tasks may be routed ahead of admission.
pub fn frontier_room(frontier_limit: usize, queued: usize, in_flight: usize) -> (room: usize)
    ensures
        room == counts::monus(frontier_limit as int, counts::capped(queued + in_flight)),
{
    frontier_limit.saturating_sub(queued.saturating_add(in_flight))
}

/// A released task with what is known for routing it.
pub struct RoutedTask {
    pub ready: ReadyTask,
    pub facts: RouteFacts,
}

/// Whether a waiting task is a released one with its resource request.
pub open spec fn is_routed(queued: QueuedTask, routed: RoutedTask, now: u64) -> bool {
    &&& queued.node_id == routed.ready.id
    &&& queued.task == routed.ready.task
    &&& queued.enqueued_at == now
    &&& routing::is_normal(queued.resources, routes::task_needs(routed.ready.task, routed.facts))
}

/// A queue with the first `k` waiting tasks, each behind its kind.
pub open spec fn enqueued(
    queue: QueueModel,
    window: Seq<RoutedTask>,
    added: Seq<QueuedTask>,
    k: int,
) -> QueueModel
    decreases k,
{
    if k <= 0 {
        queue
    } else {
        let rest = enqueued(queue, window, added, k - 1);
        if window[k - 1].ready.continuation {
            QueueModel { continuation: rest.continuation.push(added[k - 1]), ..rest }
        } else {
            QueueModel { bulk: rest.bulk.push(added[k - 1]), ..rest }
        }
    }
}

/// Whether a queue came from another one by routing released tasks.
pub open spec fn are_enqueued(
    before: QueueModel,
    after: QueueModel,
    window: Seq<RoutedTask>,
    now: u64,
) -> bool {
    exists|added: Seq<QueuedTask>|
        added.len() == window.len() && (forall|i: int|
            0 <= i < window.len() ==> is_routed(added[i], #[trigger] window[i], now)) && after
            == #[trigger] enqueued(before, window, added, window.len() as int)
}

/// Routes released tasks into the admission queue, in their order. Says how
/// many there were.
#[verifier::rlimit(60)]
#[verifier::spinoff_prover]
pub fn route_ready_tasks(queue: &mut SchedulerQueue, window: Vec<RoutedTask>, now: u64) -> (routed:
    usize)
    requires
        old(queue).inv(),
        forall|i: int|
            0 <= i < window@.len() ==> routes::routable(
                (#[trigger] window@[i]).ready.task,
                window@[i].facts,
            ),
    ensures
        final(queue).inv(),
        routed == window@.len(),
        are_enqueued(old(queue)@, final(queue)@, window@, now),
{
    let ghost all = window@;
    let ghost mut added: Seq<QueuedTask> = Seq::empty();
    let total = window.len();
    for task in it: window
        invariant
            it.seq() == all,
            total == all.len(),
            queue.inv(),
            forall|i: int|
                0 <= i < all.len() ==> routes::routable(
                    (#[trigger] all[i]).ready.task,
                    all[i].facts,
                ),
            added.len() == it.index(),
            forall|i: int| 0 <= i < added.len() ==> is_routed(added[i], #[trigger] all[i], now),
            queue@ == enqueued(old(queue)@, all, added, it.index()),
    {
        let RoutedTask { ready, facts } = task;
        let resources = route::task_resources(&ready.task, &facts);
        let priority = if ready.continuation {
            TaskPriority::Continuation
        } else {
            TaskPriority::Bulk
        };
        let ghost queued = QueuedTask {
            node_id: ready.id,
            task: ready.task,
            resources,
            enqueued_at: now,
        };
        let ghost before = added;
        queue.push(ready.id, ready.task, resources, priority, now);
        proof {
            added = before.push(queued);
            lemma_enqueued_prefix(old(queue)@, all, before, added, it.index());
            assert forall|i: int| 0 <= i < added.len() implies is_routed(
                added[i],
                #[trigger] all[i],
                now,
            ) by {
                if i < before.len() {
                    assert(added[i] == before[i]);
                }
            }
        }
    }
    total
}

proof fn lemma_enqueued_prefix(
    queue: QueueModel,
    window: Seq<RoutedTask>,
    a: Seq<QueuedTask>,
    b: Seq<QueuedTask>,
    k: int,
)
    requires
        forall|i: int| 0 <= i < k ==> a[i] == b[i],
    ensures
        enqueued(queue, window, a, k) == enqueued(queue, window, b, k),
    decreases k,
{
    if k > 0 {
        lemma_enqueued_prefix(queue, window, a, b, k - 1);
    }
}

/// The volumes of directories that were asked for before.
pub struct VolumeKeyCache {
    directories: Vec<(FilePath, String)>,
    hits: u64,
    misses: u64,
}

/// The directory under which a path is remembered.
pub open spec fn cache_directory(path: PathModel) -> PathModel {
    match path.parent() {
        Some(parent) => parent,
        None => path,
    }
}

impl VolumeKeyCache {
    /// The volume that is remembered for a directory.
    pub closed spec fn known(&self, directory: PathModel) -> Option<Seq<char>> {
        routing::table_volume(self.directories@, directory)
    }

    /// How many questions were answered from memory, and how many were not.
    pub closed spec fn asked(&self) -> (u64, u64) {
        (self.hits, self.misses)
    }

    pub fn new() -> (cache: VolumeKeyCache)
        ensures
            forall|directory: PathModel| #[trigger] cache.known(directory) is None,
            cache.asked() == (0u64, 0u64),
    {
        VolumeKeyCache { directories: Vec::new(), hits: 0, misses: 0 }
    }

    pub fn stats(&self) -> (stats: (u64, u64))
        ensures
            stats == self.asked(),
    {
        (self.hits, self.misses)
    }

    /// The volume of a path, where its directory is remembered.
    pub fn lookup(&mut self, path: &FilePath) -> (key: Option<String>)
        ensures
            match key {
                Some(found) => old(self).known(cache_directory(path@)) == Some(found@)
                    && final(self).asked() == (
                    routes::capped_sum(old(self).asked().0, 1),
                    old(self).asked().1,
                ),
                None => old(self).known(cache_directory(path@)) is None && final(self).asked()
                    == old(self).asked(),
            },
            forall|directory: PathModel| #[trigger]
                final(self).known(directory) == old(self).known(directory),
    {
        let directory = match path.parent() {
            Some(parent) => parent,
            None => path.copied(),
        };
        let mut k: usize = self.directories.len();
        assert(self.directories@.take(k as int) =~= self.directories@);
        while k > 0
            invariant
                k <= self.directories@.len(),
                *self == *old(self),
                directory@ == cache_directory(path@),
                routing::table_volume(self.directories@, directory@) == routing::table_volume(
                    self.directories@.take(k as int),
                    directory@,
                ),
            decreases k,
        {
            proof {
                assert(self.directories@.take(k as int).drop_last() =~= self.directories@.take(
                    k - 1,
                ));
                assert(self.directories@.take(k as int).last() == self.directories@[k - 1]);
            }
            k = k - 1;
            if self.directories[k].0.same(&directory) {
                let found = self.directories[k].1.clone();
                self.hits = self.hits.saturating_add(1);
                return Some(found);
            }
        }
        assert(self.directories@.take(0).len() == 0);
        None
    }

    /// Remembers the volume of a path for its directory.
    pub fn remember(&mut self, path: &FilePath, key: String)
        ensures
            final(self).known(cache_directory(path@)) == Some(key@),
            forall|directory: PathModel|
                directory != cache_directory(path@) ==> #[trigger] final(self).known(directory)
                    == old(self).known(directory),
            final(self).asked() == (
                old(self).asked().0,
                routes::capped_sum(old(self).asked().1, 1),
            ),
    {
        let directory = match path.parent() {
            Some(parent) => parent,
            None => path.copied(),
        };
        self.misses = self.misses.saturating_add(1);
        self.directories.push((directory, key));
        assert(self.directories@.drop_last() =~= old(self).directories@);
    }
}

/// Whether a task is the first of a lane.
pub open spec fn fronts(m: BacklogModel, index: int, task: ReadyTask) -> bool {
    ||| m.continuation.lane(index).len() > 0 && task == m.continuation.lane(index)[0]
    ||| m.bulk.lane(index).len() > 0 && task == m.bulk.lane(index)[0]
}

/// What is handed out was the first of a lane.
pub proof fn law_popped_task_was_waiting(m: BacklogModel)
    requires
        m.wf(),
        m.popped().1 is Some,
    ensures
        exists|index: int| 0 <= index < 3 && #[trigger] fronts(m, index, m.popped().1->0),
{
    lemma_next_lane(m.continuation, 0);
    lemma_next_lane(m.bulk, 0);
    let index = if m.continuation.next_lane(0) is Some {
        m.continuation.next_lane(0)->0
    } else {
        m.bulk.next_lane(0)->0
    };
    assert(fronts(m, index, m.popped().1->0));
}

/// The next lane is one that holds a task.
pub(crate) proof fn lemma_next_lane(lanes: Lanes, offset: int)
    requires
        0 <= lanes.cursor < 3,
        0 <= offset <= 3,
    ensures
        match lanes.next_lane(offset) {
            Some(index) => 0 <= index < 3 && lanes.lane(index).len() > 0,
            None => forall|o: int|
                offset <= o < 3 ==> #[trigger] lanes.lane((lanes.cursor + o) % 3).len() == 0,
        },
    decreases 3 - offset,
{
    if offset < 3 {
        lemma_next_lane(lanes, offset + 1);
    }
}

/// Taking a task out of the lanes takes one, where there is one.
pub(crate) proof fn lemma_lanes_popped(lanes: Lanes)
    requires
        0 <= lanes.cursor < 3,
    ensures
        0 <= lanes.popped().0.cursor < 3,
        lanes.popped().1 is Some <==> lanes.held() > 0,
        lanes.popped().0.held() == lanes.held() - (if lanes.popped().1 is Some {
            1int
        } else {
            0int
        }),
{
    lemma_next_lane(lanes, 0);
    if lanes.next_lane(0) is None {
        assert(lanes.lane((lanes.cursor + 0) % 3).len() == 0);
        assert(lanes.lane((lanes.cursor + 1) % 3).len() == 0);
        assert(lanes.lane((lanes.cursor + 2) % 3).len() == 0);
    }
}

proof fn lemma_pushed_all(m: BacklogModel, list: Seq<ReadyTask>, k: int)
    requires
        m.wf(),
        0 <= k <= list.len(),
    ensures
        ({
            let n = m.pushed_all(list, k);
            &&& n.held() == m.held() + k
            &&& n.len == counts::capped(m.len + k)
            &&& n.peak == m.peak
            &&& n.continuation.cursor == m.continuation.cursor
            &&& n.bulk.cursor == m.bulk.cursor
        }),
    decreases k,
{
    if k > 0 {
        lemma_pushed_all(m, list, k - 1);
    }
}

/// Putting tasks in keeps the counters right.
pub(crate) proof fn lemma_extended(m: BacklogModel, list: Seq<ReadyTask>)
    requires
        m.wf(),
    ensures
        m.extended(list).wf(),
        m.extended(list).held() == m.held() + list.len(),
{
    lemma_pushed_all(m, list, list.len() as int);
}

/// Taking a task out keeps the counters right, and there is one to be taken out
/// where one is held.
pub(crate) proof fn lemma_popped(m: BacklogModel)
    requires
        m.wf(),
    ensures
        m.popped().0.wf(),
        m.popped().1 is Some <==> m.held() > 0,
        m.popped().0.held() == m.held() - (if m.popped().1 is Some {
            1int
        } else {
            0int
        }),
{
    lemma_lanes_popped(m.continuation);
    lemma_lanes_popped(m.bulk);
}

/// While a task waits, one is handed out.
pub proof fn law_backlog_hands_out_what_waits(m: BacklogModel, index: int)
    requires
        m.wf(),
        0 <= index < 3,
        m.continuation.lane(index).len() > 0 || m.bulk.lane(index).len() > 0,
    ensures
        m.popped().1 is Some,
{
    lemma_next_lane(m.continuation, 0);
    lemma_next_lane(m.bulk, 0);
    let a = (index - m.continuation.cursor + 3) % 3;
    assert((m.continuation.cursor + a) % 3 == index);
    let b = (index - m.bulk.cursor + 3) % 3;
    assert((m.bulk.cursor + b) % 3 == index);
}

} // verus!
