//! What a run shows while it goes on, when it ends, and what it tells at its end.

use crate::event::{ProgressPhase, TaskOutcome, WorkerEvent};
use crate::graph::expansion::TaskRun;
use crate::graph::model::GraphModel;
use crate::scheduler::config::TaskPoolConfig;
use crate::scheduler::coordinator;
use crate::scheduler::coordinator::{RunModel, Step, TaskFinish};
use crate::scheduler::counts;
use crate::scheduler::metrics;
use crate::scheduler::metrics::{TaskPoolMetrics, TimingSample, VolumeUse};
use crate::scheduler::naming;
use crate::scheduler::order;
use crate::scheduler::order::Rank;
use crate::scheduler::pool;
use crate::scheduler::progress;
use crate::scheduler::progress::{ProgressLane, Shown, TaskProgress, Update};
use crate::task::Task;
use vstd::prelude::*;

verus! {

/// How many numbers are no larger than a bound.
pub open spec fn at_most(s: Seq<u64>, bound: int) -> int
    decreases s.len(),
{
    if s.len() == 0 {
        0
    } else {
        at_most(s.drop_last(), bound) + (if s.last() <= bound {
            1int
        } else {
            0int
        })
    }
}

proof fn lemma_at_most_without(s: Seq<u64>, bound: int, i: int)
    requires
        0 <= i < s.len(),
    ensures
        at_most(s, bound) == at_most(s.remove(i), bound) + (if s[i] <= bound {
            1int
        } else {
            0int
        }),
    decreases s.len(),
{
    if i == s.len() - 1 {
        assert(s.remove(i) =~= s.drop_last());
    } else {
        lemma_at_most_without(s.drop_last(), bound, i);
        assert(s.remove(i).drop_last() =~= s.drop_last().remove(i));
        assert(s.remove(i).last() == s.last());
    }
}

proof fn lemma_at_most_in_any_order(a: Seq<u64>, b: Seq<u64>, bound: int)
    requires
        a.to_multiset() == b.to_multiset(),
    ensures
        at_most(a, bound) == at_most(b, bound),
        a.len() == b.len(),
    decreases a.len(),
{
    a.to_multiset_ensures();
    b.to_multiset_ensures();
    if a.len() > 0 {
        let x = a.last();
        assert(a.contains(x));
        assert(b.to_multiset().count(x) > 0);
        let j = choose|j: int| 0 <= j < b.len() && b[j] == x;
        lemma_at_most_without(b, bound, j);
        assert(a.remove(a.len() - 1) =~= a.drop_last());
        assert(a.drop_last().to_multiset() =~= b.remove(j).to_multiset());
        lemma_at_most_in_any_order(a.drop_last(), b.remove(j), bound);
    }
}

proof fn lemma_at_most_of_rising(s: Seq<u64>, bound: int, k: int)
    requires
        metrics::rising(s),
        0 <= k <= s.len(),
        k > 0 ==> s[k - 1] <= bound,
        k < s.len() ==> s[k] > bound,
    ensures
        at_most(s, bound) == k,
    decreases s.len(),
{
    if s.len() > 0 {
        let rest = s.drop_last();
        assert(metrics::rising(rest));
        if k == s.len() {
            if k > 1 {
                assert(s[k - 2] <= s[k - 1]);
            }
            lemma_at_most_of_rising(rest, bound, k - 1);
        } else {
            assert(s[k] <= s[s.len() - 1]);
            lemma_at_most_of_rising(rest, bound, k);
        }
    }
}

proof fn lemma_split_of_rising(s: Seq<u64>, bound: int) -> (k: int)
    requires
        metrics::rising(s),
    ensures
        0 <= k <= s.len(),
        k > 0 ==> s[k - 1] <= bound,
        k < s.len() ==> s[k] > bound,
        at_most(s, bound) == k,
    decreases s.len(),
{
    if s.len() == 0 {
        0
    } else if s[s.len() - 1] <= bound {
        let k = s.len() as int;
        lemma_at_most_of_rising(s, bound, k);
        k
    } else {
        let rest = s.drop_last();
        assert(metrics::rising(rest));
        let k = lemma_split_of_rising(rest, bound);
        if k == rest.len() {
            assert(s[k] > bound);
        }
        lemma_at_most_of_rising(s, bound, k);
        k
    }
}

/// A percentile is one of the samples. At least so many of a hundred samples are no
/// larger, and fewer are smaller.
pub proof fn law_percentiles_part_the_samples(samples: Seq<u64>, percent: int, value: u64)
    requires
        metrics::is_percentile(samples, percent, value),
        samples.len() > 0,
        1 <= percent <= 100,
    ensures
        samples.contains(value),
        100 * at_most(samples, value as int) >= percent * samples.len(),
        100 * at_most(samples, value - 1) < percent * samples.len(),
{
    let sorted = choose|sorted: Seq<u64>| #[trigger]
        metrics::rising(sorted) && sorted.to_multiset() == samples.to_multiset() && value
            == sorted[metrics::percentile_index(samples.len() as int, percent)];
    lemma_at_most_in_any_order(sorted, samples, value as int);
    lemma_at_most_in_any_order(sorted, samples, value - 1);
    let n = samples.len() as int;
    let at = metrics::percentile_index(n, percent);
    let product = n * percent;
    assert(product >= 1 && product <= 100 * n) by (nonlinear_arith)
        requires
            n >= 1,
            1 <= percent <= 100,
            product == n * percent,
    ;
    assert(percent * samples.len() == product) by (nonlinear_arith)
        requires
            product == n * percent,
            n == samples.len(),
    ;
    assert(0 <= at < n);
    assert(100 * (at + 1) >= product && 100 * at < product);
    let k = lemma_split_of_rising(sorted, value as int);
    if k <= at {
        assert(sorted[k] <= sorted[at]);
    }
    let j = lemma_split_of_rising(sorted, value - 1);
    if j > at {
        assert(sorted[at] <= sorted[j - 1]);
    }
    sorted.to_multiset_ensures();
    samples.to_multiset_ensures();
    assert(sorted.contains(sorted[at]));
    assert(samples.to_multiset().count(value) > 0);
}

/// What a finished task read, wrote and changed is added to the account of each
/// volume that it named.
pub proof fn law_finished_tasks_are_accounted(
    samples: Seq<TimingSample>,
    sample: TimingSample,
    volume: Seq<char>,
)
    ensures
        ({
            let more = samples.push(sample);
            let reads = counts::occurrences(sample.read_volumes@, volume);
            let writes = counts::occurrences(sample.write_volumes@, volume);
            let touches = counts::occurrences(sample.metadata_volumes@, volume);
            &&& metrics::total_bytes(more, VolumeUse::Read, volume) == metrics::total_bytes(
                samples,
                VolumeUse::Read,
                volume,
            ) + sample.estimated_bytes * reads
            &&& metrics::total_bytes(more, VolumeUse::Write, volume) == metrics::total_bytes(
                samples,
                VolumeUse::Write,
                volume,
            ) + sample.estimated_bytes * writes
            &&& metrics::total_time(more, VolumeUse::Read, volume) == metrics::total_time(
                samples,
                VolumeUse::Read,
                volume,
            ) + sample.run_time * reads
            &&& metrics::total_time(more, VolumeUse::Write, volume) == metrics::total_time(
                samples,
                VolumeUse::Write,
                volume,
            ) + sample.run_time * writes
            &&& metrics::total_time(more, VolumeUse::Metadata, volume) == metrics::total_time(
                samples,
                VolumeUse::Metadata,
                volume,
            ) + sample.run_time * touches
            &&& metrics::total_tasks(more, VolumeUse::Metadata, volume) == metrics::total_tasks(
                samples,
                VolumeUse::Metadata,
                volume,
            ) + touches
        }),
{
    assert(samples.push(sample).drop_last() =~= samples);
}

/// The account at the end names each volume once that a task used, and no other, and
/// counts every task.
pub proof fn law_accounts_name_the_used_volumes(
    samples: Seq<TimingSample>,
    account: TaskPoolMetrics,
    volume: Seq<char>,
)
    requires
        metrics::is_snapshot(samples, account),
    ensures
        account.finished_tasks == samples.len(),
        (exists|i: int|
            0 <= i < account.volumes@.len() && (#[trigger] account.volumes@[i]).0@ == volume)
            <==> exists|k: int|
            0 <= k < samples.len() && (counts::lists(
                (#[trigger] samples[k]).read_volumes@,
                volume,
            ) || counts::lists(samples[k].write_volumes@, volume) || counts::lists(
                samples[k].metadata_volumes@,
                volume,
            )),
        forall|i: int, j: int|
            0 <= i < j < account.volumes@.len() ==> (#[trigger] account.volumes@[i]).0@ != (
            #[trigger] account.volumes@[j]).0@,
{
    if exists|i: int|
        0 <= i < account.volumes@.len() && (#[trigger] account.volumes@[i]).0@ == volume {
        assert(metrics::any_uses(samples, volume));
        let k = choose|k: int| 0 <= k < samples.len() && metrics::uses(#[trigger] samples[k], volume);
        assert(metrics::uses(samples[k], volume));
    }
    if exists|k: int|
        0 <= k < samples.len() && (counts::lists((#[trigger] samples[k]).read_volumes@, volume)
            || counts::lists(samples[k].write_volumes@, volume) || counts::lists(
            samples[k].metadata_volumes@,
            volume,
        )) {
        let k = choose|k: int|
            0 <= k < samples.len() && (counts::lists((#[trigger] samples[k]).read_volumes@, volume)
                || counts::lists(samples[k].write_volumes@, volume) || counts::lists(
                samples[k].metadata_volumes@,
                volume,
            ));
        assert(metrics::uses(samples[k], volume));
        assert(metrics::any_uses(samples, volume));
    }
    assert forall|i: int, j: int| 0 <= i < j < account.volumes@.len() implies (
    #[trigger] account.volumes@[i]).0@ != (#[trigger] account.volumes@[j]).0@ by {
        crate::ordered::law_text_order_is_total(account.volumes@[i].0@, account.volumes@[j].0@);
    }
}

/// The line that a phase is shown on.
pub open spec fn line_of(config: TaskProgress, phase: ProgressPhase) -> Option<ProgressLane> {
    match phase {
        ProgressPhase::Download => config.download,
        ProgressPhase::Extract => config.extract,
        ProgressPhase::Commit => config.commit,
        ProgressPhase::Patch => config.patch,
        ProgressPhase::Delete => config.delete,
    }
}

/// Whether the line of a phase has been started.
pub open spec fn is_started(shown: Shown, phase: ProgressPhase) -> bool {
    match phase {
        ProgressPhase::Download => shown.download_started,
        ProgressPhase::Extract => shown.extract_started,
        ProgressPhase::Commit => shown.commit_started,
        ProgressPhase::Patch => shown.patch_started,
        ProgressPhase::Delete => shown.delete_started,
    }
}

/// Progress of a phase is shown on the line of the phase, which is started before the
/// first, and names the file. Without a line nothing is shown.
pub proof fn law_progress_is_shown_on_its_line(
    shown: Shown,
    phase: ProgressPhase,
    event: WorkerEvent,
)
    requires
        event matches WorkerEvent::Progress { phase: p, .. } && p == phase,
    ensures
        line_of(shown.config, phase) is None ==> shown.step(event) == (shown, Seq::<Update>::empty()),
        line_of(shown.config, phase) matches Some(lane) ==> {
            let updates = shown.step(event).1;
            &&& is_started(shown.step(event).0, phase)
            &&& updates.len() == if is_started(shown, phase) {
                1int
            } else {
                2int
            }
            &&& !is_started(shown, phase) ==> (updates[0] matches Update::Started { lane: l, .. }
                && l == lane)
            &&& updates.last() matches Update::Advanced { lane: l, item, .. } && l == lane && item
                == Some(event->Progress_path@)
        },
{
}

/// What was transferred of a file is shown as reported, and does not run back, unless
/// the transfer starts anew; other files are not touched by it.
pub proof fn law_shown_bytes_do_not_run_back(
    shown: Shown,
    event: WorkerEvent,
    other: Seq<char>,
)
    requires
        event matches WorkerEvent::Progress { phase, .. } && phase is Download,
        shown.config.download is Some,
    ensures
        ({
            let path = event->Progress_path@;
            let after = shown.step(event).0;
            let done = event->completed;
            &&& other != path ==> after.download_completed.of(other) == shown.download_completed.of(
                other,
            )
            &&& !event->reset ==> after.download_completed.of(path) >= done
                && after.download_completed.of(path) >= shown.download_completed.of(path)
            &&& !event->reset ==> (after.download_completed.of(path) == done
                || after.download_completed.of(path) == shown.download_completed.of(path))
            &&& event->reset ==> after.download_completed.of(path) == done
            &&& !event->reset ==> after.download_totals.of(path) == event->Progress_total
        }),
{
}

/// The bytes shown add up: what one file adds is what its own bytes grew by.
pub proof fn law_shown_bytes_add_up(before: progress::Bytes, path: Seq<char>, bytes: u64)
    requires
        before.of(path) <= before.total <= u64::MAX,
        before.total - before.of(path) + bytes <= u64::MAX,
    ensures
        before.recorded(path, bytes).total == before.total - before.of(path) + bytes,
        before.recorded(path, bytes).of(path) == bytes,
        before.recorded_max(path, bytes).total >= before.total,
{
}

proof fn lemma_closing(shown: Shown, done: Update)
    ensures
        Shown::ending(shown.download_started, shown.config.download).contains(done)
            || Shown::ending(shown.extract_started, shown.config.extract).contains(done)
            || Shown::ending(shown.commit_started, shown.config.commit).contains(done)
            || Shown::ending(shown.patch_started, shown.config.patch).contains(done)
            || Shown::ending(shown.delete_started, shown.config.delete).contains(done) || (
        shown.config.verify matches Some((lane, total)) && total > 0 && done == (Update::Finished {
            lane,
        })) ==> shown.closing().contains(done),
{
    let a = match shown.config.verify {
        Some((lane, total)) => if total > 0 {
            seq![Update::Finished { lane }]
        } else {
            Seq::empty()
        },
        None => Seq::empty(),
    };
    let b = Shown::ending(shown.download_started, shown.config.download);
    let c = Shown::ending(shown.extract_started, shown.config.extract);
    let d = Shown::ending(shown.commit_started, shown.config.commit);
    let e = Shown::ending(shown.patch_started, shown.config.patch);
    let f = Shown::ending(shown.delete_started, shown.config.delete);
    assert(shown.closing() == a + b + c + d + e + f);
    vstd::seq_lib::lemma_seq_concat_contains_all_elements(a, b, done);
    vstd::seq_lib::lemma_seq_concat_contains_all_elements(a + b, c, done);
    vstd::seq_lib::lemma_seq_concat_contains_all_elements(a + b + c, d, done);
    vstd::seq_lib::lemma_seq_concat_contains_all_elements(a + b + c + d, e, done);
    vstd::seq_lib::lemma_seq_concat_contains_all_elements(a + b + c + d + e, f, done);
    if let Some((lane, total)) = shown.config.verify {
        if total > 0 {
            assert(a[0] == (Update::Finished { lane }));
        }
    }
}

/// At the end every line that was started is finished.
pub proof fn law_started_lines_are_finished(shown: Shown, phase: ProgressPhase)
    ensures
        line_of(shown.config, phase) matches Some(lane) ==> (is_started(shown, phase)
            ==> shown.closing().contains(Update::Finished { lane })),
        shown.config.verify matches Some((lane, total)) ==> (total > 0
            ==> shown.closing().contains(Update::Finished { lane }) && Shown::opening(
            shown.config,
        ).len() == 1 && (Shown::opening(shown.config)[0] matches Update::Started {
            lane: l,
            total: t,
            ..
        } && l == lane && t == Some(total))),
{
    if let Some(lane) = line_of(shown.config, phase) {
        let done = Update::Finished { lane };
        lemma_closing(shown, done);
        if is_started(shown, phase) {
            assert(seq![done][0] == done);
            assert(seq![done].contains(done));
        }
    }
    if let Some((lane, _)) = shown.config.verify {
        lemma_closing(shown, Update::Finished { lane });
    }
}

/// A line that was not started is not finished: there are as many ends as lines that
/// were started.
pub proof fn law_only_started_lines_are_finished(shown: Shown)
    ensures
        shown.closing().len() == counted(
            shown.config.verify matches Some((_, total)) && total > 0,
        ) + counted(shown.download_started && shown.config.download is Some) + counted(
            shown.extract_started && shown.config.extract is Some,
        ) + counted(shown.commit_started && shown.config.commit is Some) + counted(
            shown.patch_started && shown.config.patch is Some,
        ) + counted(shown.delete_started && shown.config.delete is Some),
{
}

/// One where something holds, and none else.
pub open spec fn counted(holds: bool) -> int {
    if holds {
        1
    } else {
        0
    }
}

/// A run ends if and only if every node has come to its end. It waits for a running
/// task while there is one, and gives up only where nothing runs and nothing can be
/// routed.
pub proof fn law_runs_end_when_all_is_done(
    m: RunModel,
    n: RunModel,
    config: TaskPoolConfig,
    step: Step,
)
    requires
        coordinator::steps(m, n, config, step),
    ensures
        step is Finished <==> m.graph.open_nodes().len() == 0,
        m.graph.open_nodes().len() > 0 && m.in_flight > 0 ==> step is Collect,
        step is Stop ==> m.in_flight <= 0 && (m.backlog.len <= 0 || config.ready_frontier == 0),
        step is Stop && m.busy ==> n.retries > 100,
        step is Retry ==> m.busy && n.retries <= 100 && n.retries > m.retries,
        step is Route ==> m.in_flight <= 0 && m.backlog.len > 0,
        n.graph == m.graph && n.queue == m.queue && n.backlog == m.backlog,
{
}

/// A task that failed is told of with its reason if and only if the failure is to be
/// told of. Nothing else is told as a failure.
pub proof fn law_failures_are_told(finish: TaskFinish, event: Option<WorkerEvent>)
    requires
        coordinator::is_failure_report(finish, event),
    ensures
        event is Some <==> (finish.run matches TaskRun::Failed { report, .. } && report),
        event matches Some(told) ==> (told matches WorkerEvent::Outcome {
            outcome: TaskOutcome::Failed { path, reason },
        } && path@ == finish.path@ && reason@ == finish.run->reason@),
{
}

/// Limits are refused if and only if one of them is zero, or the blocking pool is too
/// small for all that may block at once beside what is kept free.
pub proof fn law_limits_are_refused_only_if_useless(config: TaskPoolConfig)
    requires
        config.cpu_slots + config.blocking_slots + 4 <= usize::MAX,
    ensures
        config.fault() is None <==> config.dispatcher_threads > 0 && config.network_slots > 0
            && config.cpu_slots > 0 && config.blocking_slots > 0 && config.extract_slots > 0
            && config.reuse_queue_limit > 0 && config.blocking_pool_limit >= config.cpu_slots
            + config.blocking_slots + 4,
{
}

/// A pool starts if and only if its limits are not refused, and then with these
/// limits and with the graph that it was given.
pub proof fn law_pools_start_with_their_limits(
    graph: GraphModel,
    config: TaskPoolConfig,
    shown: TaskProgress,
    result: Result<pool::StartedRun, crate::error::Message>,
)
    requires
        pool::is_started(graph, config, shown, result),
    ensures
        result is Ok <==> config.fault() is None,
        result matches Ok(started) ==> started.runner.config == config
            && started.run@.graph.nodes.len() == graph.nodes.len() && started.run@.in_flight == 0
            && started.run@.outcomes.len() == 0,
{
}

/// Of two waiting tasks exactly one goes before the other: the one that waited longer
/// in the first place, and then the one that came first.
pub proof fn law_waiting_tasks_are_ranked(a: Rank, i: int, b: Rank, j: int, c: Rank, k: int)
    requires
        i != j,
    ensures
        order::goes_before(a, i, b, j) <==> !order::goes_before(b, j, a, i),
        a.age > b.age ==> order::goes_before(a, i, b, j),
        a == b ==> (order::goes_before(a, i, b, j) <==> i < j),
        order::goes_before(a, i, b, j) && order::goes_before(b, j, c, k) ==> order::goes_before(
            a,
            i,
            c,
            k,
        ),
        a.age == b.age && a.claimed_writer && !b.claimed_writer ==> order::goes_before(a, i, b, j),
        a.age == b.age && a.claimed_writer == b.claimed_writer && a.metadata && !b.metadata
            ==> order::goes_before(a, i, b, j),
{
}

/// A task waits for one more step with each step of time, from when it came.
pub proof fn law_waiting_tasks_grow_older(came: u64, now: u64, later: u64)
    requires
        came <= now <= later,
    ensures
        order::age_steps(came, came) == 0,
        order::age_steps(came, now) <= order::age_steps(came, later),
        now + 5_000_000_000 == later ==> order::age_steps(came, later) == order::age_steps(came, now)
            + 1,
{
}

/// What is done to a file is shown under the name of the file.
pub proof fn law_tasks_on_files_bear_their_name(task: Task)
    ensures
        task matches Task::Verify { logical_path, .. } ==> naming::task_name(task) == logical_path@,
        task matches Task::Download { download, .. } ==> naming::task_name(task)
            == download.logical_path@,
        task matches Task::RepairFile { repair, .. } ==> naming::task_name(task)
            == repair.logical_path@,
        task matches Task::ReuseFile { repair, .. } ==> naming::task_name(task)
            == repair.logical_path@,
        task matches Task::FetchArchiveRepairFile { repair } ==> naming::task_name(task)
            == repair.logical_path@,
        task matches Task::ExtractArchiveRepairFile { repair } ==> naming::task_name(task)
            == repair.logical_path@,
        task matches Task::VerifyReuseVolume { logical_path, .. } ==> naming::task_name(task)
            == logical_path@,
        task matches Task::OpenArchive { base_name, .. } ==> naming::task_name(task) == base_name@,
        task matches Task::FinishArchive { work } ==> naming::task_name(task) == work.base_name@,
        task matches Task::CleanupArchive { work } ==> naming::task_name(task) == work.base_name@,
        task matches Task::ReadArchiveControls { work, .. } ==> naming::task_name(task)
            == work.base_name@,
        task matches Task::DiscoverArchiveDirectory { work, .. } ==> naming::task_name(task)
            == work.base_name@,
        task matches Task::InspectArchiveIndex { work, .. } ==> naming::task_name(task)
            == work.base_name@,
        task matches Task::SavePatchPlan { work, .. } ==> naming::task_name(task)
            == work.base_name@,
        task matches Task::RetainArchiveVolume { work, .. } ==> naming::task_name(task)
            == work.base_name@,
        task matches Task::ExtractArchiveShard { shard } ==> naming::task_name(task)
            == shard.work.base_name@,
        task matches Task::ReleasePatchBase { base, .. } ==> naming::task_name(task) == base@.text(),
        task matches Task::Hardlink { dest, .. } ==> naming::task_name(task) == dest@.text(),
        task matches Task::ApplyDeleteManifest { install_root } ==> naming::task_name(task)
            == install_root@.text(),
        task matches Task::PreparePatchApply { plan } ==> naming::task_name(task)
            == plan.install_root@.text(),
        task matches Task::ApplyPatchEntry { plan, entry_index } ==> (entry_index
            < plan.entries@.len() ==> naming::task_name(task)
            == plan.entries@[entry_index as int].destination@.text()),
{
}

} // verus!
