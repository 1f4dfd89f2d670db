//! What holds of a backlog over any sequence of calls.

use crate::graph::node::ReadyTask;
use crate::scheduler::backlog;
use crate::scheduler::backlog::{BacklogModel, Lanes};
use crate::scheduler::order;
use crate::scheduler::routes;
use vstd::prelude::*;

verus! {

/// A call on a backlog.
pub enum BacklogCall {
    Extend { ready: Seq<ReadyTask> },
    Pop,
}

/// A backlog with what was put in and what was taken out so far.
pub struct BacklogHistory {
    pub model: BacklogModel,
    pub given: Seq<ReadyTask>,
    pub taken: Seq<ReadyTask>,
}

/// A new backlog after the first `k` calls.
pub open spec fn after_calls(calls: Seq<BacklogCall>, k: int) -> BacklogHistory
    decreases k,
{
    if k <= 0 {
        BacklogHistory {
            model: BacklogModel::empty(),
            given: Seq::empty(),
            taken: Seq::empty(),
        }
    } else {
        let before = after_calls(calls, k - 1);
        match calls[k - 1] {
            BacklogCall::Extend { ready } => BacklogHistory {
                model: before.model.extended(ready),
                given: before.given + ready,
                ..before
            },
            BacklogCall::Pop => match before.model.popped() {
                (model, Some(task)) => BacklogHistory {
                    model,
                    taken: before.taken.push(task),
                    ..before
                },
                (model, None) => BacklogHistory { model, ..before },
            },
        }
    }
}

/// Whether a task belongs to a lane of the continuations or of the others.
pub open spec fn belongs(task: ReadyTask, continuation: bool, lane: int) -> bool {
    task.continuation == continuation && order::class_index(routes::lane(task.task)) == lane
}

/// The tasks of a list that belong to a lane, in their order.
pub open spec fn of_lane(list: Seq<ReadyTask>, continuation: bool, lane: int) -> Seq<ReadyTask>
    decreases list.len(),
{
    if list.len() == 0 {
        Seq::empty()
    } else {
        let before = of_lane(list.drop_last(), continuation, lane);
        if belongs(list.last(), continuation, lane) {
            before.push(list.last())
        } else {
            before
        }
    }
}

/// The tasks that wait in a lane.
pub open spec fn waiting(m: BacklogModel, continuation: bool, lane: int) -> Seq<ReadyTask> {
    if continuation {
        m.continuation.lane(lane)
    } else {
        m.bulk.lane(lane)
    }
}

proof fn lemma_of_lane_push(list: Seq<ReadyTask>, task: ReadyTask, continuation: bool, lane: int)
    ensures
        of_lane(list.push(task), continuation, lane) == (if belongs(task, continuation, lane) {
            of_lane(list, continuation, lane).push(task)
        } else {
            of_lane(list, continuation, lane)
        }),
{
    assert(list.push(task).drop_last() =~= list);
}

proof fn lemma_of_lane_add(a: Seq<ReadyTask>, b: Seq<ReadyTask>, continuation: bool, lane: int)
    ensures
        of_lane(a + b, continuation, lane) == of_lane(a, continuation, lane) + of_lane(
            b,
            continuation,
            lane,
        ),
    decreases b.len(),
{
    if b.len() == 0 {
        assert(a + b =~= a);
        assert(of_lane(a, continuation, lane) + Seq::<ReadyTask>::empty() =~= of_lane(
            a,
            continuation,
            lane,
        ));
    } else {
        assert((a + b).drop_last() =~= a + b.drop_last());
        lemma_of_lane_add(a, b.drop_last(), continuation, lane);
        let left = of_lane(a, continuation, lane);
        let right = of_lane(b.drop_last(), continuation, lane);
        assert(left + right.push(b.last()) =~= (left + right).push(b.last()));
    }
}

proof fn lemma_of_lane_belongs(list: Seq<ReadyTask>, continuation: bool, lane: int)
    ensures
        forall|i: int|
            0 <= i < of_lane(list, continuation, lane).len() ==> belongs(
                #[trigger] of_lane(list, continuation, lane)[i],
                continuation,
                lane,
            ),
    decreases list.len(),
{
    if list.len() > 0 {
        lemma_of_lane_belongs(list.drop_last(), continuation, lane);
        let before = of_lane(list.drop_last(), continuation, lane);
        assert forall|i: int|
            0 <= i < of_lane(list, continuation, lane).len() implies belongs(
            #[trigger] of_lane(list, continuation, lane)[i],
            continuation,
            lane,
        ) by {
            if i < before.len() {
                assert(belongs(before[i], continuation, lane));
            }
        }
    }
}

proof fn lemma_pushed_all(
    m: BacklogModel,
    list: Seq<ReadyTask>,
    k: int,
    continuation: bool,
    lane: int,
)
    requires
        0 <= k <= list.len(),
        0 <= lane < 3,
    ensures
        waiting(m.pushed_all(list, k), continuation, lane) == waiting(m, continuation, lane)
            + of_lane(list.take(k), continuation, lane),
    decreases k,
{
    let start = waiting(m, continuation, lane);
    if k == 0 {
        assert(list.take(0).len() == 0);
        assert(start + Seq::<ReadyTask>::empty() =~= start);
    } else {
        lemma_pushed_all(m, list, k - 1, continuation, lane);
        let task = list[k - 1];
        assert(list.take(k) =~= list.take(k - 1).push(task));
        lemma_of_lane_push(list.take(k - 1), task, continuation, lane);
        let so_far = of_lane(list.take(k - 1), continuation, lane);
        assert(start + so_far.push(task) =~= (start + so_far).push(task));
    }
}

proof fn lemma_popped_lane(lanes: Lanes, lane: int)
    requires
        0 <= lanes.cursor < 3,
        0 <= lane < 3,
    ensures
        match lanes.popped().1 {
            Some(task) => exists|from: int|
                0 <= from < 3 && takes_from(lanes, from, task) && lanes.popped().0.lane(lane)
                    == (if lane == from {
                    lanes.lane(lane).drop_first()
                } else {
                    lanes.lane(lane)
                }),
            None => lanes.popped().0 == lanes,
        },
{
    backlog::lemma_next_lane(lanes, 0);
    if let Some(from) = lanes.next_lane(0) {
        assert(takes_from(lanes, from, lanes.popped().1->0));
    }
}

/// Whether a task is the first of a lane.
pub open spec fn takes_from(lanes: Lanes, from: int, task: ReadyTask) -> bool {
    lanes.lane(from).len() > 0 && task == lanes.lane(from)[0]
}

proof fn lemma_history_is_wf(calls: Seq<BacklogCall>, k: int)
    requires
        0 <= k <= calls.len(),
    ensures
        after_calls(calls, k).model.wf(),
        after_calls(calls, k).given.len() == after_calls(calls, k).taken.len() + after_calls(
            calls,
            k,
        ).model.held(),
    decreases k,
{
    if k > 0 {
        lemma_history_is_wf(calls, k - 1);
        let before = after_calls(calls, k - 1);
        match calls[k - 1] {
            BacklogCall::Extend { ready } => {
                backlog::lemma_extended(before.model, ready);
            },
            BacklogCall::Pop => {
                backlog::lemma_popped(before.model);
            },
        }
    }
}

/// Tasks of one lane, continuations and others apart, come out in the order in
/// which they were put in, each of them once: what was put in is what was taken
/// out, followed by what still waits.
pub proof fn law_lanes_are_first_in_first_out(
    calls: Seq<BacklogCall>,
    k: int,
    continuation: bool,
    lane: int,
)
    requires
        0 <= k <= calls.len(),
        0 <= lane < 3,
    ensures
        ({
            let now = after_calls(calls, k);
            of_lane(now.given, continuation, lane) == of_lane(now.taken, continuation, lane)
                + waiting(now.model, continuation, lane)
        }),
    decreases k, 0int,
{
    let now = after_calls(calls, k);
    if k == 0 {
        assert(of_lane(now.taken, continuation, lane) + waiting(now.model, continuation, lane)
            =~= Seq::<ReadyTask>::empty());
    } else {
        let before = after_calls(calls, k - 1);
        law_lanes_are_first_in_first_out(calls, k - 1, continuation, lane);
        lemma_history_is_wf(calls, k - 1);
        let out = of_lane(before.taken, continuation, lane);
        let queue = waiting(before.model, continuation, lane);
        match calls[k - 1] {
            BacklogCall::Extend { ready } => {
                lemma_pushed_all(before.model, ready, ready.len() as int, continuation, lane);
                assert(ready.take(ready.len() as int) =~= ready);
                lemma_of_lane_add(before.given, ready, continuation, lane);
                let more = of_lane(ready, continuation, lane);
                assert(out + queue + more =~= out + (queue + more));
            },
            BacklogCall::Pop => {
                lemma_popped_lane(before.model.continuation, lane);
                lemma_popped_lane(before.model.bulk, lane);
                if let Some(task) = before.model.popped().1 {
                    let first = before.model.continuation.popped().1 is Some;
                    let lanes = if first {
                        before.model.continuation
                    } else {
                        before.model.bulk
                    };
                    let from = choose|from: int|
                        0 <= from < 3 && takes_from(lanes, from, task) && lanes.popped().0.lane(
                            lane,
                        ) == (if lane == from {
                            lanes.lane(lane).drop_first()
                        } else {
                            lanes.lane(lane)
                        });
                    lemma_front_belongs(calls, k - 1, first, from);
                    assert(belongs(task, first, from));
                    lemma_of_lane_push(before.taken, task, continuation, lane);
                    if continuation == first && lane == from {
                        assert(out + queue =~= out.push(task) + queue.drop_first());
                    }
                }
            },
        }
    }
}

/// What waits in a lane belongs there.
proof fn lemma_front_belongs(calls: Seq<BacklogCall>, k: int, continuation: bool, lane: int)
    requires
        0 <= k < calls.len(),
        0 <= lane < 3,
        waiting(after_calls(calls, k).model, continuation, lane).len() > 0,
    ensures
        belongs(
            waiting(after_calls(calls, k).model, continuation, lane)[0],
            continuation,
            lane,
        ),
    decreases k, 1int,
{
    let now = after_calls(calls, k);
    law_lanes_are_first_in_first_out(calls, k, continuation, lane);
    lemma_of_lane_belongs(now.given, continuation, lane);
    let out = of_lane(now.taken, continuation, lane);
    assert((out + waiting(now.model, continuation, lane))[out.len() as int] == waiting(
        now.model,
        continuation,
        lane,
    )[0]);
}

/// A backlog hands out nothing exactly where all that was put in has been taken
/// out, which is where it is empty.
pub proof fn law_pop_fails_only_when_empty(calls: Seq<BacklogCall>, k: int)
    requires
        0 <= k <= calls.len(),
    ensures
        ({
            let now = after_calls(calls, k);
            &&& now.model.popped().1 is None <==> now.taken.len() == now.given.len()
            &&& now.model.peak < usize::MAX ==> (now.model.popped().1 is None <==> now.model.len
                == 0)
        }),
{
    lemma_history_is_wf(calls, k);
    backlog::lemma_popped(after_calls(calls, k).model);
}

/// A task that is no continuation is handed out only while no continuation waits.
pub proof fn law_continuations_come_first(calls: Seq<BacklogCall>, k: int, task: ReadyTask)
    requires
        0 <= k < calls.len(),
        after_calls(calls, k).model.popped().1 == Some(task),
        !task.continuation,
    ensures
        after_calls(calls, k).model.continuation.held() == 0,
{
    let m = after_calls(calls, k).model;
    lemma_history_is_wf(calls, k);
    backlog::lemma_lanes_popped(m.continuation);
    if m.continuation.held() > 0 {
        lemma_popped_lane(m.continuation, 0);
        let from = choose|from: int|
            0 <= from < 3 && takes_from(m.continuation, from, task) && m.continuation.popped().0.lane(
                0,
            ) == (if 0 == from {
                m.continuation.lane(0).drop_first()
            } else {
                m.continuation.lane(0)
            });
        lemma_front_belongs(calls, k, true, from);
    }
}

} // verus!
