//! How long tasks waited and ran, and what each volume did.

use crate::graph::model::TaskGraphSummary;
use crate::ordered;
use crate::path;
use crate::scheduler::counts;
use crate::scheduler::request::ResourceRequest;
use crate::text;
use vstd::prelude::*;

verus! {

/// One finished task. Times are in nanoseconds.
pub struct TimingSample {
    pub queue_wait: u64,
    pub run_time: u64,
    pub estimated_bytes: u64,
    pub read_volumes: Vec<String>,
    pub write_volumes: Vec<String>,
    pub metadata_volumes: Vec<String>,
}

/// What a task does on a volume.
#[derive(Clone, Copy, PartialEq, Eq, Structural, Debug)]
pub enum VolumeUse {
    Read,
    Write,
    Metadata,
}

/// What a volume did.
#[derive(Clone, Copy, PartialEq, Eq, Structural, Debug)]
pub struct VolumeTaskMetrics {
    pub read_bytes: u64,
    pub read_service_time: u64,
    pub read_tasks: u64,
    pub write_bytes: u64,
    pub write_service_time: u64,
    pub write_tasks: u64,
    pub metadata_service_time: u64,
    pub metadata_tasks: u64,
}

/// How a run of the pool went. Times are in nanoseconds.
pub struct TaskPoolMetrics {
    pub finished_tasks: usize,
    /// In which states the nodes of the graph are.
    pub graph: TaskGraphSummary,
    pub queue_wait_p50: u64,
    pub queue_wait_p95: u64,
    pub task_duration_p50: u64,
    pub task_duration_p95: u64,
    /// How long it took to release the first tasks.
    pub initial_graph_time: u64,
    /// How long it took to route them.
    pub initial_routing_time: u64,
    /// When the first task was started, counted from the start of the run.
    pub first_task_start: u64,
    pub ready_frontier_limit: usize,
    /// The largest number of released tasks that ever waited to be routed.
    pub ready_backlog_peak: usize,
    pub volume_cache_hits: u64,
    pub volume_cache_misses: u64,
    /// What each volume did, in the order of the volumes.
    pub volumes: Vec<(String, VolumeTaskMetrics)>,
}

/// The summary of a graph without nodes.
pub open spec fn no_nodes() -> TaskGraphSummary {
    TaskGraphSummary {
        total_nodes: 0,
        pending_nodes: 0,
        ready_nodes: 0,
        running_nodes: 0,
        waiting_nodes: 0,
        succeeded_nodes: 0,
        failed_nodes: 0,
        cancelled_nodes: 0,
        dynamic_expansions: 0,
    }
}

/// Metrics that say nothing yet of the graph, of the start and of the volumes
/// that were asked for.
pub open spec fn is_bare(metrics: TaskPoolMetrics) -> bool {
    &&& metrics.graph == no_nodes()
    &&& metrics.initial_graph_time == 0
    &&& metrics.initial_routing_time == 0
    &&& metrics.first_task_start == 0
    &&& metrics.ready_frontier_limit == 0
    &&& metrics.ready_backlog_peak == 0
    &&& metrics.volume_cache_hits == 0
    &&& metrics.volume_cache_misses == 0
}

/// A number, up to what a machine number holds.
pub open spec fn capped64(n: int) -> int {
    if n <= u64::MAX {
        n
    } else {
        u64::MAX as int
    }
}

/// Whether numbers do not fall.
pub open spec fn rising(s: Seq<u64>) -> bool {
    forall|a: int, b: int| 0 <= a <= b < s.len() ==> s[a] <= s[b]
}

/// The place of a percentile among so many sorted numbers.
pub open spec fn percentile_index(len: int, percentile: int) -> int {
    let rank = (len * percentile + 99) / 100;
    let at = if rank > 0 {
        rank - 1
    } else {
        0
    };
    if at < len {
        at
    } else {
        len - 1
    }
}

/// Whether a number is a percentile of others: the one at its place when they
/// are sorted; zero where there are none.
pub open spec fn is_percentile(samples: Seq<u64>, percentile: int, value: u64) -> bool {
    if samples.len() == 0 {
        value == 0
    } else {
        exists|sorted: Seq<u64>| #[trigger]
            rising(sorted) && sorted.to_multiset() == samples.to_multiset() && value
                == sorted[percentile_index(samples.len() as int, percentile)]
    }
}

/// Sorts numbers. `sort_unstable` of the slices of the standard library puts
/// the elements in ascending order and keeps each of them.
#[verifier::external_body]
fn sort_numbers(list: &mut Vec<u64>)
    ensures
        rising(final(list)@),
        final(list)@.to_multiset() == old(list)@.to_multiset(),
{
    list.sort_unstable();
}

/// A percentile of numbers, which are sorted on the way.
pub fn percentile(samples: &mut Vec<u64>, percent: usize) -> (value: u64)
    ensures
        is_percentile(old(samples)@, percent as int, value),
        rising(final(samples)@),
        final(samples)@.to_multiset() == old(samples)@.to_multiset(),
{
    let len = samples.len();
    if len == 0 {
        return 0;
    }
    sort_numbers(samples);
    proof {
        vstd::seq_lib::to_multiset_len(samples@);
        vstd::seq_lib::to_multiset_len(old(samples)@);
        assert(len * percent <= 0xffff_ffff_ffff_ffff * 0xffff_ffff_ffff_ffff) by (nonlinear_arith)
            requires
                len <= 0xffff_ffff_ffff_ffff,
                percent <= 0xffff_ffff_ffff_ffff,
        ;
    }
    let wide = (len as u128) * (percent as u128);
    let rank: u128 = (wide + 99) / 100;
    let at: u128 = if rank > 0 {
        rank - 1
    } else {
        0
    };
    let index: usize = if at < len as u128 {
        at as usize
    } else {
        len - 1
    };
    assert(rising(samples@));
    samples[index]
}

proof fn lemma_percentile_of_the_same(a: Seq<u64>, b: Seq<u64>, percent: int, value: u64)
    requires
        a.to_multiset() == b.to_multiset(),
        is_percentile(a, percent, value),
    ensures
        is_percentile(b, percent, value),
{
    vstd::seq_lib::to_multiset_len(a);
    vstd::seq_lib::to_multiset_len(b);
    if a.len() > 0 {
        let sorted = choose|sorted: Seq<u64>| #[trigger]
            rising(sorted) && sorted.to_multiset() == a.to_multiset() && value
                == sorted[percentile_index(a.len() as int, percent)];
        assert(rising(sorted));
    }
}

/// The volumes that a task used in one way.
pub open spec fn used(sample: TimingSample, by: VolumeUse) -> Seq<String> {
    match by {
        VolumeUse::Read => sample.read_volumes@,
        VolumeUse::Write => sample.write_volumes@,
        VolumeUse::Metadata => sample.metadata_volumes@,
    }
}

/// The bytes that tasks moved on a volume.
pub open spec fn total_bytes(samples: Seq<TimingSample>, by: VolumeUse, volume: Seq<char>) -> int
    decreases samples.len(),
{
    if samples.len() == 0 {
        0
    } else {
        total_bytes(samples.drop_last(), by, volume) + samples.last().estimated_bytes
            * counts::occurrences(used(samples.last(), by), volume)
    }
}

/// The time that tasks took on a volume.
pub open spec fn total_time(samples: Seq<TimingSample>, by: VolumeUse, volume: Seq<char>) -> int
    decreases samples.len(),
{
    if samples.len() == 0 {
        0
    } else {
        total_time(samples.drop_last(), by, volume) + samples.last().run_time
            * counts::occurrences(used(samples.last(), by), volume)
    }
}

/// How often tasks used a volume.
pub open spec fn total_tasks(samples: Seq<TimingSample>, by: VolumeUse, volume: Seq<char>) -> int
    decreases samples.len(),
{
    if samples.len() == 0 {
        0
    } else {
        total_tasks(samples.drop_last(), by, volume) + counts::occurrences(
            used(samples.last(), by),
            volume,
        )
    }
}

/// Whether metrics are those of a volume.
pub open spec fn is_volume_metrics(
    samples: Seq<TimingSample>,
    volume: Seq<char>,
    metrics: VolumeTaskMetrics,
) -> bool {
    &&& metrics.read_bytes == capped64(total_bytes(samples, VolumeUse::Read, volume))
    &&& metrics.read_service_time == capped64(total_time(samples, VolumeUse::Read, volume))
    &&& metrics.read_tasks == capped64(total_tasks(samples, VolumeUse::Read, volume))
    &&& metrics.write_bytes == capped64(total_bytes(samples, VolumeUse::Write, volume))
    &&& metrics.write_service_time == capped64(total_time(samples, VolumeUse::Write, volume))
    &&& metrics.write_tasks == capped64(total_tasks(samples, VolumeUse::Write, volume))
    &&& metrics.metadata_service_time == capped64(total_time(samples, VolumeUse::Metadata, volume))
    &&& metrics.metadata_tasks == capped64(total_tasks(samples, VolumeUse::Metadata, volume))
}

/// Whether a task used a volume.
pub open spec fn uses(sample: TimingSample, volume: Seq<char>) -> bool {
    ||| counts::lists(sample.read_volumes@, volume)
    ||| counts::lists(sample.write_volumes@, volume)
    ||| counts::lists(sample.metadata_volumes@, volume)
}

/// Whether one of the tasks used a volume.
pub open spec fn any_uses(samples: Seq<TimingSample>, volume: Seq<char>) -> bool {
    exists|k: int| 0 <= k < samples.len() && uses(#[trigger] samples[k], volume)
}

fn volumes_used(sample: &TimingSample, by: VolumeUse) -> (list: &Vec<String>)
    ensures
        list@ == used(*sample, by),
{
    match by {
        VolumeUse::Read => &sample.read_volumes,
        VolumeUse::Write => &sample.write_volumes,
        VolumeUse::Metadata => &sample.metadata_volumes,
    }
}

/// What tasks did on a volume in one way: bytes, time and number.
struct UseTotals {
    bytes: u64,
    time: u64,
    tasks: u64,
}

proof fn lemma_totals_are_not_negative(
    samples: Seq<TimingSample>,
    by: VolumeUse,
    volume: Seq<char>,
)
    ensures
        total_bytes(samples, by, volume) >= 0,
        total_time(samples, by, volume) >= 0,
        total_tasks(samples, by, volume) >= 0,
    decreases samples.len(),
{
    if samples.len() > 0 {
        lemma_totals_are_not_negative(samples.drop_last(), by, volume);
        let n = counts::occurrences(used(samples.last(), by), volume);
        counts::lemma_occurrences_listed(used(samples.last(), by), volume);
        let b = samples.last().estimated_bytes as int;
        let t = samples.last().run_time as int;
        assert(b * n >= 0) by (nonlinear_arith)
            requires
                b >= 0,
                n >= 0,
        ;
        assert(t * n >= 0) by (nonlinear_arith)
            requires
                t >= 0,
                n >= 0,
        ;
    }
}

fn add_sample(totals: &mut UseTotals, sample: &TimingSample, by: VolumeUse, volume: &str, Ghost(
    done,
): Ghost<Seq<TimingSample>>)
    requires
        old(totals).bytes == capped64(total_bytes(done, by, volume@)),
        old(totals).time == capped64(total_time(done, by, volume@)),
        old(totals).tasks == capped64(total_tasks(done, by, volume@)),
    ensures
        final(totals).bytes == capped64(total_bytes(done.push(*sample), by, volume@)),
        final(totals).time == capped64(total_time(done.push(*sample), by, volume@)),
        final(totals).tasks == capped64(total_tasks(done.push(*sample), by, volume@)),
{
    let list = volumes_used(sample, by);
    let ghost b = sample.estimated_bytes as int;
    let ghost t = sample.run_time as int;
    let ghost bytes0 = total_bytes(done, by, volume@);
    let ghost time0 = total_time(done, by, volume@);
    let ghost tasks0 = total_tasks(done, by, volume@);
    let mut k: usize = 0;
    proof {
        assert(list@.take(0).len() == 0);
        lemma_totals_are_not_negative(done, by, volume@);
        assert(b * counts::occurrences(list@.take(0), volume@) == 0);
        assert(t * counts::occurrences(list@.take(0), volume@) == 0);
    }
    while k < list.len()
        invariant
            k <= list@.len(),
            b == sample.estimated_bytes,
            t == sample.run_time,
            bytes0 + b * counts::occurrences(list@.take(k as int), volume@) >= 0,
            time0 + t * counts::occurrences(list@.take(k as int), volume@) >= 0,
            totals.bytes == capped64(
                bytes0 + b * counts::occurrences(list@.take(k as int), volume@),
            ),
            totals.time == capped64(
                time0 + t * counts::occurrences(list@.take(k as int), volume@),
            ),
            totals.tasks == capped64(tasks0 + counts::occurrences(list@.take(k as int), volume@)),
        decreases list@.len() - k,
    {
        proof {
            counts::lemma_occurrences_step(list@, k as int, volume@);
            let n = counts::occurrences(list@.take(k as int), volume@);
            assert(b * (n + 1) == b * n + b) by (nonlinear_arith);
            assert(t * (n + 1) == t * n + t) by (nonlinear_arith);
        }
        if text::same_text(list[k].as_str(), volume) {
            totals.bytes = totals.bytes.saturating_add(sample.estimated_bytes);
            totals.time = totals.time.saturating_add(sample.run_time);
            totals.tasks = totals.tasks.saturating_add(1);
        }
        k = k + 1;
    }
    proof {
        assert(list@.take(k as int) =~= list@);
        assert(done.push(*sample).drop_last() =~= done);
        assert(done.push(*sample).last() == *sample);
    }
}

fn use_totals(samples: &Vec<TimingSample>, by: VolumeUse, volume: &str) -> (totals: UseTotals)
    ensures
        totals.bytes == capped64(total_bytes(samples@, by, volume@)),
        totals.time == capped64(total_time(samples@, by, volume@)),
        totals.tasks == capped64(total_tasks(samples@, by, volume@)),
{
    let mut totals = UseTotals { bytes: 0, time: 0, tasks: 0 };
    let mut k: usize = 0;
    assert(samples@.take(0).len() == 0);
    while k < samples.len()
        invariant
            k <= samples@.len(),
            totals.bytes == capped64(total_bytes(samples@.take(k as int), by, volume@)),
            totals.time == capped64(total_time(samples@.take(k as int), by, volume@)),
            totals.tasks == capped64(total_tasks(samples@.take(k as int), by, volume@)),
        decreases samples@.len() - k,
    {
        add_sample(&mut totals, &samples[k], by, volume, Ghost(samples@.take(k as int)));
        assert(samples@.take(k + 1) =~= samples@.take(k as int).push(samples@[k as int]));
        k = k + 1;
    }
    assert(samples@.take(k as int) =~= samples@);
    totals
}

fn volume_metrics(samples: &Vec<TimingSample>, volume: &str) -> (metrics: VolumeTaskMetrics)
    ensures
        is_volume_metrics(samples@, volume@, metrics),
{
    let read = use_totals(samples, VolumeUse::Read, volume);
    let write = use_totals(samples, VolumeUse::Write, volume);
    let metadata = use_totals(samples, VolumeUse::Metadata, volume);
    VolumeTaskMetrics {
        read_bytes: read.bytes,
        read_service_time: read.time,
        read_tasks: read.tasks,
        write_bytes: write.bytes,
        write_service_time: write.time,
        write_tasks: write.tasks,
        metadata_service_time: metadata.time,
        metadata_tasks: metadata.tasks,
    }
}

fn insert_names(names: &mut Vec<String>, list: &Vec<String>)
    requires
        ordered::ascending_texts(old(names)@),
    ensures
        ordered::ascending_texts(final(names)@),
        forall|key: Seq<char>| #[trigger]
            counts::lists(final(names)@, key) <==> counts::lists(old(names)@, key)
                || counts::lists(list@, key),
{
    let mut k: usize = 0;
    while k < list.len()
        invariant
            k <= list@.len(),
            ordered::ascending_texts(names@),
            forall|key: Seq<char>| #[trigger]
                counts::lists(names@, key) <==> counts::lists(old(names)@, key) || counts::lists(
                    list@.take(k as int),
                    key,
                ),
        decreases list@.len() - k,
    {
        ordered::insert_text(names, list[k].as_str());
        proof {
            assert(list@.take(k + 1) =~= list@.take(k as int).push(list@[k as int]));
            assert forall|key: Seq<char>| #[trigger]
                counts::lists(names@, key) <==> counts::lists(old(names)@, key) || counts::lists(
                    list@.take(k + 1),
                    key,
                ) by {
                counts::lemma_lists_push(list@.take(k as int), list@[k as int], key);
            }
        }
        k = k + 1;
    }
    assert(list@.take(k as int) =~= list@);
}

/// The volumes that tasks used, in rising order.
fn volume_names(samples: &Vec<TimingSample>) -> (names: Vec<String>)
    ensures
        ordered::ascending_texts(names@),
        forall|key: Seq<char>| #[trigger]
            counts::lists(names@, key) <==> any_uses(samples@, key),
{
    let mut names: Vec<String> = Vec::new();
    let mut k: usize = 0;
    while k < samples.len()
        invariant
            k <= samples@.len(),
            ordered::ascending_texts(names@),
            forall|key: Seq<char>| #[trigger]
                counts::lists(names@, key) <==> any_uses(samples@.take(k as int), key),
        decreases samples@.len() - k,
    {
        let ghost before = names@;
        insert_names(&mut names, &samples[k].read_volumes);
        insert_names(&mut names, &samples[k].write_volumes);
        insert_names(&mut names, &samples[k].metadata_volumes);
        proof {
            let less = samples@.take(k as int);
            let more = samples@.take(k + 1);
            assert forall|key: Seq<char>| #[trigger]
                counts::lists(names@, key) <==> any_uses(more, key) by {
                assert(counts::lists(before, key) <==> any_uses(less, key));
                if any_uses(less, key) {
                    let j = choose|j: int| 0 <= j < less.len() && uses(#[trigger] less[j], key);
                    assert(more[j] == less[j]);
                }
                if uses(samples@[k as int], key) {
                    assert(more[k as int] == samples@[k as int]);
                }
                if any_uses(more, key) {
                    let j = choose|j: int| 0 <= j < more.len() && uses(#[trigger] more[j], key);
                    if j < k {
                        assert(less[j] == more[j]);
                    }
                }
            }
        }
        k = k + 1;
    }
    assert(samples@.take(k as int) =~= samples@);
    names
}

/// Measurements of finished tasks.
pub struct SchedulerMetrics {
    samples: Vec<TimingSample>,
}

/// The waiting times of tasks.
pub open spec fn waits(samples: Seq<TimingSample>) -> Seq<u64> {
    Seq::new(samples.len(), |i: int| samples[i].queue_wait)
}

/// The running times of tasks.
pub open spec fn runs(samples: Seq<TimingSample>) -> Seq<u64> {
    Seq::new(samples.len(), |i: int| samples[i].run_time)
}

/// Whether metrics sum up finished tasks.
pub open spec fn is_snapshot(samples: Seq<TimingSample>, metrics: TaskPoolMetrics) -> bool {
    &&& metrics.finished_tasks == samples.len()
    &&& is_percentile(waits(samples), 50, metrics.queue_wait_p50)
    &&& is_percentile(waits(samples), 95, metrics.queue_wait_p95)
    &&& is_percentile(runs(samples), 50, metrics.task_duration_p50)
    &&& is_percentile(runs(samples), 95, metrics.task_duration_p95)
    &&& forall|a: int, b: int|
        0 <= a < b < metrics.volumes@.len() ==> ordered::text_less(
            (#[trigger] metrics.volumes@[a]).0@,
            (#[trigger] metrics.volumes@[b]).0@,
        )
    &&& forall|i: int|
        0 <= i < metrics.volumes@.len() ==> any_uses(samples, (#[trigger] metrics.volumes@[i]).0@)
            && is_volume_metrics(samples, metrics.volumes@[i].0@, metrics.volumes@[i].1)
    &&& forall|volume: Seq<char>| #[trigger]
        any_uses(samples, volume) ==> exists|i: int|
            0 <= i < metrics.volumes@.len() && (#[trigger] metrics.volumes@[i]).0@ == volume
}

impl SchedulerMetrics {
    /// The finished tasks.
    pub closed spec fn recorded(&self) -> Seq<TimingSample> {
        self.samples@
    }

    pub fn new() -> (metrics: SchedulerMetrics)
        ensures
            metrics.recorded() == Seq::<TimingSample>::empty(),
    {
        SchedulerMetrics { samples: Vec::new() }
    }

    /// Measures a finished task.
    pub fn record(&mut self, queue_wait: u64, run_time: u64, resources: &ResourceRequest)
        ensures
            final(self).recorded().len() == old(self).recorded().len() + 1,
            final(self).recorded().drop_last() == old(self).recorded(),
            ({
                let sample = final(self).recorded().last();
                &&& sample.queue_wait == queue_wait
                &&& sample.run_time == run_time
                &&& sample.estimated_bytes == resources.estimated_bytes
                &&& sample.read_volumes@ == resources.read_volumes@
                &&& sample.write_volumes@ == resources.write_volumes@
                &&& sample.metadata_volumes@ == resources.metadata_volumes@
            }),
    {
        self.samples.push(
            TimingSample {
                queue_wait,
                run_time,
                estimated_bytes: resources.estimated_bytes,
                read_volumes: path::copy_texts(&resources.read_volumes),
                write_volumes: path::copy_texts(&resources.write_volumes),
                metadata_volumes: path::copy_texts(&resources.metadata_volumes),
            },
        );
        assert(self.samples@.drop_last() =~= old(self).samples@);
    }

    fn wait_times(&self) -> (times: Vec<u64>)
        ensures
            times@ == waits(self.samples@),
    {
        let mut times: Vec<u64> = Vec::new();
        let mut k: usize = 0;
        while k < self.samples.len()
            invariant
                k <= self.samples@.len(),
                times@ == waits(self.samples@).take(k as int),
            decreases self.samples@.len() - k,
        {
            times.push(self.samples[k].queue_wait);
            k = k + 1;
            assert(times@ =~= waits(self.samples@).take(k as int));
        }
        assert(times@ =~= waits(self.samples@));
        times
    }

    fn run_times(&self) -> (times: Vec<u64>)
        ensures
            times@ == runs(self.samples@),
    {
        let mut times: Vec<u64> = Vec::new();
        let mut k: usize = 0;
        while k < self.samples.len()
            invariant
                k <= self.samples@.len(),
                times@ == runs(self.samples@).take(k as int),
            decreases self.samples@.len() - k,
        {
            times.push(self.samples[k].run_time);
            k = k + 1;
            assert(times@ =~= runs(self.samples@).take(k as int));
        }
        assert(times@ =~= runs(self.samples@));
        times
    }

    /// Sums up the finished tasks.
    pub fn snapshot(&self) -> (metrics: TaskPoolMetrics)
        ensures
            is_snapshot(self.recorded(), metrics),
            is_bare(metrics),
    {
        let mut waits = self.wait_times();
        let mut runs = self.run_times();
        let queue_wait_p50 = percentile(&mut waits, 50);
        let ghost sorted_waits = waits@;
        let queue_wait_p95 = percentile(&mut waits, 95);
        let task_duration_p50 = percentile(&mut runs, 50);
        let ghost sorted_runs = runs@;
        let task_duration_p95 = percentile(&mut runs, 95);
        proof {
            lemma_percentile_of_the_same(
                sorted_waits,
                self::waits(self.samples@),
                95,
                queue_wait_p95,
            );
            lemma_percentile_of_the_same(
                sorted_runs,
                self::runs(self.samples@),
                95,
                task_duration_p95,
            );
        }
        let names = volume_names(&self.samples);
        let mut volumes: Vec<(String, VolumeTaskMetrics)> = Vec::new();
        let mut k: usize = 0;
        while k < names.len()
            invariant
                k <= names@.len(),
                k == volumes@.len(),
                forall|key: Seq<char>| #[trigger]
                    counts::lists(names@, key) <==> any_uses(self.samples@, key),
                forall|i: int|
                    0 <= i < k ==> (#[trigger] volumes@[i]).0@ == names@[i]@ && any_uses(
                        self.samples@,
                        volumes@[i].0@,
                    ) && is_volume_metrics(self.samples@, volumes@[i].0@, volumes@[i].1),
            decreases names@.len() - k,
        {
            assert(counts::lists(names@, names@[k as int]@));
            let metrics = volume_metrics(&self.samples, names[k].as_str());
            volumes.push((names[k].clone(), metrics));
            k = k + 1;
        }
        proof {
            assert forall|a: int, b: int| 0 <= a < b < volumes@.len() implies ordered::text_less(
                (#[trigger] volumes@[a]).0@,
                (#[trigger] volumes@[b]).0@,
            ) by {
                assert(ordered::text_less(names@[a]@, names@[b]@));
            }
        }
        let ghost listed = volumes@;
        let metrics = TaskPoolMetrics {
            finished_tasks: self.samples.len(),
            graph: TaskGraphSummary {
                total_nodes: 0,
                pending_nodes: 0,
                ready_nodes: 0,
                running_nodes: 0,
                waiting_nodes: 0,
                succeeded_nodes: 0,
                failed_nodes: 0,
                cancelled_nodes: 0,
                dynamic_expansions: 0,
            },
            queue_wait_p50,
            queue_wait_p95,
            task_duration_p50,
            task_duration_p95,
            initial_graph_time: 0,
            initial_routing_time: 0,
            first_task_start: 0,
            ready_frontier_limit: 0,
            ready_backlog_peak: 0,
            volume_cache_hits: 0,
            volume_cache_misses: 0,
            volumes,
        };
        proof {
            assert(metrics.volumes@ == listed);
            assert forall|volume: Seq<char>| #[trigger]
                any_uses(self.recorded(), volume) implies exists|i: int|
                0 <= i < metrics.volumes@.len() && (#[trigger] metrics.volumes@[i]).0@
                    == volume by {
                assert(counts::lists(names@, volume) <==> any_uses(self.samples@, volume));
                let i = choose|i: int| 0 <= i < names@.len() && (#[trigger] names@[i])@ == volume;
                assert(metrics.volumes@[i].0@ == volume);
            }
        }
        metrics
    }
}

} // verus!
