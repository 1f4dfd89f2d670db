//! What of the machine is taken, and whether a task fits in beside it.

use crate::scheduler::config::{TaskPoolConfig, VolumeIoPolicy, VolumeStreamingMode};
use crate::scheduler::counts;
use crate::scheduler::counts::{TextCounts, TextSet};
use crate::scheduler::request::{ResourceRequest, RunClass};
use crate::text;
use vstd::prelude::*;

verus! {

/// Whether a path lies strictly below another one, both as text.
pub open spec fn path_contains(parent: Seq<char>, child: Seq<char>) -> bool {
    &&& parent.len() < child.len()
    &&& child.take(parent.len() as int) == parent
    &&& child[parent.len() as int] == '/' || (parent.len() > 0 && parent.last() == '/')
}

/// Whether two tasks that change these paths must not run at once.
pub open spec fn paths_conflict(left: Seq<char>, right: Seq<char>) -> bool {
    left == right || path_contains(left, right) || path_contains(right, left)
}

fn mutation_path_contains(parent: &str, child: &str) -> (yes: bool)
    ensures
        yes == path_contains(parent@, child@),
{
    let outer = text::chars_of(parent);
    let inner = text::chars_of(child);
    if outer.len() >= inner.len() {
        return false;
    }
    let mut k: usize = 0;
    while k < outer.len()
        invariant
            k <= outer@.len() < inner@.len(),
            outer@ == parent@,
            inner@ == child@,
            forall|j: int| 0 <= j < k ==> outer@[j] == inner@[j],
        decreases outer@.len() - k,
    {
        if outer[k] != inner[k] {
            proof {
                assert(child@.take(parent@.len() as int)[k as int] == child@[k as int]);
            }
            return false;
        }
        k = k + 1;
    }
    assert(child@.take(parent@.len() as int) =~= parent@);
    inner[outer.len()] == '/' || (outer.len() > 0 && outer[outer.len() - 1] == '/')
}

/// Whether two tasks that change these paths must not run at once: the paths
/// are the same, or one lies below the other.
pub fn mutation_paths_conflict(left: &str, right: &str) -> (conflict: bool)
    ensures
        conflict == paths_conflict(left@, right@),
{
    text::same_text(left, right) || mutation_path_contains(left, right) || mutation_path_contains(
        right,
        left,
    )
}

/// What waiting tasks claim of the machine.
pub struct AdmissionSnapshot {
    /// Volumes that a waiting task could write to if they were free.
    pub reserved_write_volumes: TextSet,
    /// Waiting tasks that put a reused file in place.
    pub queued_reuse_commits: usize,
}

impl Default for AdmissionSnapshot {
    fn default() -> (snapshot: AdmissionSnapshot)
        ensures
            forall|volume: Seq<char>| !(#[trigger] snapshot.reserved_write_volumes.has(volume)),
            snapshot.queued_reuse_commits == 0,
    {
        AdmissionSnapshot { reserved_write_volumes: TextSet::new(), queued_reuse_commits: 0 }
    }
}

/// The claims of waiting tasks in the mathematical model.
#[verifier::ext_equal]
pub struct Claims {
    pub reserved: Set<Seq<char>>,
    pub reuse_commits: int,
}

impl View for AdmissionSnapshot {
    type V = Claims;

    open spec fn view(&self) -> Claims {
        Claims {
            reserved: Set::new(|volume: Seq<char>| self.reserved_write_volumes.has(volume)),
            reuse_commits: self.queued_reuse_commits as int,
        }
    }
}

/// What is taken, in the mathematical model.
#[verifier::ext_equal]
pub struct Usage {
    pub network: int,
    pub cpu: int,
    pub blocking: int,
    pub extract: int,
    pub reuse_commits: int,
    pub reads: Map<Seq<char>, int>,
    pub writes: Map<Seq<char>, int>,
    pub metadata: Map<Seq<char>, int>,
    pub savers: Map<Seq<char>, int>,
    pub commits: Map<Seq<char>, int>,
    pub mutations: Set<Seq<char>>,
}

pub open spec fn flag(b: bool) -> int {
    if b {
        1
    } else {
        0
    }
}

/// The volumes of a list of pairs.
pub open spec fn commit_names(list: Seq<(String, bool)>) -> Seq<String> {
    Seq::new(list.len(), |i: int| list[i].0)
}

/// Whether a request touches a volume.
pub open spec fn wants(request: ResourceRequest, volume: Seq<char>) -> bool {
    ||| counts::lists(request.read_volumes@, volume)
    ||| counts::lists(request.write_volumes@, volume)
    ||| counts::lists(request.metadata_volumes@, volume)
}

/// Each of a list of counters raised by what the list asks.
pub open spec fn raised(before: Map<Seq<char>, int>, list: Seq<String>) -> Map<Seq<char>, int> {
    Map::total(|k: Seq<char>| counts::capped(before[k] + counts::occurrences(list, k)))
}

/// Each of a list of counters lowered by what the list asked.
pub open spec fn lowered(before: Map<Seq<char>, int>, list: Seq<String>) -> Map<Seq<char>, int> {
    Map::total(|k: Seq<char>| counts::monus(before[k], counts::occurrences(list, k)))
}

/// Whether there is a counter for each volume.
pub open spec fn counters(tallies: Map<Seq<char>, int>) -> bool {
    &&& tallies.dom() == Set::<Seq<char>>::full()
    &&& forall|key: Seq<char>| 0 <= #[trigger] tallies[key] <= usize::MAX
}

impl Usage {
    /// Whether all counters are within the range of counters.
    pub open spec fn counted(self) -> bool {
        &&& 0 <= self.network <= usize::MAX
        &&& 0 <= self.cpu <= usize::MAX
        &&& 0 <= self.blocking <= usize::MAX
        &&& 0 <= self.extract <= usize::MAX
        &&& 0 <= self.reuse_commits <= usize::MAX
        &&& counters(self.reads)
        &&& counters(self.writes)
        &&& counters(self.metadata)
        &&& counters(self.savers)
        &&& counters(self.commits)
    }

    /// A machine that nothing uses.
    pub open spec fn idle() -> Usage {
        let none = Map::total(|k: Seq<char>| 0int);
        Usage {
            network: 0,
            cpu: 0,
            blocking: 0,
            extract: 0,
            reuse_commits: 0,
            reads: none,
            writes: none,
            metadata: none,
            savers: none,
            commits: none,
            mutations: Set::empty(),
        }
    }

    /// Whether one of the paths must not be changed beside what runs.
    pub open spec fn conflicts(self, paths: Seq<String>) -> bool {
        exists|k: int, active: Seq<char>|
            0 <= k < paths.len() && #[trigger] self.mutations.contains(active) && paths_conflict(
                (#[trigger] paths[k])@,
                active,
            )
    }

    /// How much streaming a volume carries.
    pub open spec fn pressure(self, policy: VolumeIoPolicy, volume: Seq<char>) -> int {
        if policy.streaming_mode is Exclusive {
            if self.reads[volume] >= self.writes[volume] {
                self.reads[volume]
            } else {
                self.writes[volume]
            }
        } else {
            counts::capped(self.reads[volume] + self.writes[volume])
        }
    }

    /// How much streaming a request adds to a volume.
    pub open spec fn added_pressure(
        request: ResourceRequest,
        policy: VolumeIoPolicy,
        volume: Seq<char>,
    ) -> int {
        let read = counts::lists(request.read_volumes@, volume);
        let write = counts::lists(request.write_volumes@, volume);
        if policy.streaming_mode is Exclusive {
            flag(read || write)
        } else {
            flag(read) + flag(write)
        }
    }

    /// Whether a volume takes what the request wants of it. A waiting writer
    /// keeps one unit of streaming free for itself; on an exclusive volume
    /// streaming and metadata work keep apart, and so do reads and writes.
    pub open spec fn volume_admits(
        self,
        request: ResourceRequest,
        policy: VolumeIoPolicy,
        claims: Claims,
        volume: Seq<char>,
    ) -> bool {
        let read = counts::lists(request.read_volumes@, volume);
        let write = counts::lists(request.write_volumes@, volume);
        let meta = counts::lists(request.metadata_volumes@, volume);
        let reserved = claims.reserved.contains(volume);
        let added = Self::added_pressure(request, policy, volume);
        let kept = flag(
            reserved && added > 0 && !write && self.writes[volume] < policy.write_limit,
        );
        &&& counts::capped(self.reads[volume] + flag(read)) <= policy.read_limit
        &&& counts::capped(self.writes[volume] + flag(write)) <= policy.write_limit
        &&& counts::capped(self.metadata[volume] + flag(meta)) <= policy.metadata_limit
        &&& policy.streaming_mode is Exclusive ==> {
            &&& read ==> self.writes[volume] == 0
            &&& write ==> self.reads[volume] == 0
            &&& meta ==> self.reads[volume] == 0 && self.writes[volume] == 0
            &&& read || write ==> self.metadata[volume] == 0
            &&& !(reserved && !write && meta)
        }
        &&& counts::capped(
            counts::capped(self.pressure(policy, volume) + added) + kept,
        ) <= policy.streaming_pressure_limit
    }

    /// Whether a request fits in beside what runs.
    pub open spec fn admits(
        self,
        request: ResourceRequest,
        config: TaskPoolConfig,
        claims: Claims,
    ) -> bool {
        &&& request.run is Cpu ==> self.cpu < config.cpu_slots
        &&& request.run is Blocking ==> self.blocking < config.blocking_slots
        &&& request.network is Some ==> self.network < config.network_slots
        &&& request.extract ==> self.extract < config.extract_slots
        &&& request.reuse_probe ==> counts::capped(self.reuse_commits + claims.reuse_commits) < (
        if config.reuse_queue_limit == 0 {
            1
        } else {
            config.reuse_queue_limit as int
        })
        &&& forall|k: int|
            0 <= k < request.archive_save_volumes@.len() ==> self.savers[(
            #[trigger] request.archive_save_volumes@[k])@] == 0
        &&& forall|k: int|
            0 <= k < request.archive_commit_volumes@.len() ==> self.commits[(
            #[trigger] request.archive_commit_volumes@[k]).0@] < (
            if request.archive_commit_volumes@[k].1 {
                3int
            } else {
                1int
            })
        &&& !self.conflicts(request.mutation_paths@)
        &&& forall|volume: Seq<char>| #[trigger]
            wants(request, volume) ==> self.volume_admits(
                request,
                config.policy(volume),
                claims,
                volume,
            )
    }

    /// What is taken once the request runs.
    pub open spec fn acquired(self, request: ResourceRequest) -> Usage {
        Usage {
            network: counts::capped(self.network + flag(request.network is Some)),
            cpu: counts::capped(self.cpu + flag(request.run is Cpu)),
            blocking: counts::capped(self.blocking + flag(request.run is Blocking)),
            extract: counts::capped(self.extract + flag(request.extract)),
            reuse_commits: counts::capped(self.reuse_commits + flag(request.reuse_commit)),
            reads: raised(self.reads, request.read_volumes@),
            writes: raised(self.writes, request.write_volumes@),
            metadata: raised(self.metadata, request.metadata_volumes@),
            savers: raised(self.savers, request.archive_save_volumes@),
            commits: raised(self.commits, commit_names(request.archive_commit_volumes@)),
            mutations: Set::new(
                |path: Seq<char>|
                    self.mutations.contains(path) || counts::lists(request.mutation_paths@, path),
            ),
        }
    }

    /// What is taken once the request has run.
    pub open spec fn released(self, request: ResourceRequest) -> Usage {
        Usage {
            network: counts::monus(self.network, flag(request.network is Some)),
            cpu: counts::monus(self.cpu, flag(request.run is Cpu)),
            blocking: counts::monus(self.blocking, flag(request.run is Blocking)),
            extract: counts::monus(self.extract, flag(request.extract)),
            reuse_commits: counts::monus(self.reuse_commits, flag(request.reuse_commit)),
            reads: lowered(self.reads, request.read_volumes@),
            writes: lowered(self.writes, request.write_volumes@),
            metadata: lowered(self.metadata, request.metadata_volumes@),
            savers: lowered(self.savers, request.archive_save_volumes@),
            commits: lowered(self.commits, commit_names(request.archive_commit_volumes@)),
            mutations: Set::new(
                |path: Seq<char>|
                    self.mutations.contains(path) && !counts::lists(request.mutation_paths@, path),
            ),
        }
    }
}

/// What of the machine is taken by running tasks.
pub struct ResourceState {
    network_in_use: usize,
    cpu_in_use: usize,
    blocking_in_use: usize,
    extract_in_use: usize,
    volume_reads: TextCounts,
    volume_writes: TextCounts,
    volume_metadata: TextCounts,
    archive_savers: TextCounts,
    archive_commits: TextCounts,
    mutation_paths: TextSet,
    reuse_commits_in_use: usize,
}

spec fn tallies(counts: TextCounts) -> Map<Seq<char>, int> {
    Map::total(|k: Seq<char>| counts.count(k))
}

impl View for ResourceState {
    type V = Usage;

    closed spec fn view(&self) -> Usage {
        Usage {
            network: self.network_in_use as int,
            cpu: self.cpu_in_use as int,
            blocking: self.blocking_in_use as int,
            extract: self.extract_in_use as int,
            reuse_commits: self.reuse_commits_in_use as int,
            reads: tallies(self.volume_reads),
            writes: tallies(self.volume_writes),
            metadata: tallies(self.volume_metadata),
            savers: tallies(self.archive_savers),
            commits: tallies(self.archive_commits),
            mutations: Set::new(|path: Seq<char>| self.mutation_paths.has(path)),
        }
    }
}

fn names_of(list: &Vec<(String, bool)>) -> (names: Vec<String>)
    ensures
        names@ == commit_names(list@),
{
    let mut names: Vec<String> = Vec::new();
    let mut k: usize = 0;
    while k < list.len()
        invariant
            k <= list@.len(),
            names@ == commit_names(list@).take(k as int),
        decreases list@.len() - k,
    {
        names.push(list[k].0.clone());
        assert(names@ =~= commit_names(list@).take(k + 1));
        k = k + 1;
    }
    assert(names@ =~= commit_names(list@));
    names
}

fn add_flag(count: usize, raise: bool) -> (sum: usize)
    ensures
        sum == counts::capped(count + flag(raise)),
{
    if raise {
        count.saturating_add(1)
    } else {
        count
    }
}

fn sub_flag(count: usize, lower: bool) -> (rest: usize)
    ensures
        rest == counts::monus(count as int, flag(lower)),
{
    if lower {
        count.saturating_sub(1)
    } else {
        count
    }
}

impl Default for ResourceState {
    fn default() -> (state: ResourceState)
        ensures
            state.inv(),
            state@ == Usage::idle(),
    {
        let state = ResourceState {
            network_in_use: 0,
            cpu_in_use: 0,
            blocking_in_use: 0,
            extract_in_use: 0,
            volume_reads: TextCounts::new(),
            volume_writes: TextCounts::new(),
            volume_metadata: TextCounts::new(),
            archive_savers: TextCounts::new(),
            archive_commits: TextCounts::new(),
            mutation_paths: TextSet::new(),
            reuse_commits_in_use: 0,
        };
        assert(state@ =~= Usage::idle());
        state
    }
}

impl ResourceState {
    pub closed spec fn inv(&self) -> bool {
        &&& self.volume_reads.inv()
        &&& self.volume_writes.inv()
        &&& self.volume_metadata.inv()
        &&& self.archive_savers.inv()
        &&& self.archive_commits.inv()
    }

    /// Every state counts within the range of counters.
    pub proof fn lemma_counted(&self)
        requires
            self.inv(),
        ensures
            self@.counted(),
    {
        self.volume_reads.lemma_bounded();
        self.volume_writes.lemma_bounded();
        self.volume_metadata.lemma_bounded();
        self.archive_savers.lemma_bounded();
        self.archive_commits.lemma_bounded();
    }

    /// Whether one of the paths must not be changed beside what runs.
    pub fn has_mutation_conflict(&self, requested: &Vec<String>) -> (conflict: bool)
        ensures
            conflict == self@.conflicts(requested@),
    {
        let active = self.mutation_paths.items();
        let mut k: usize = 0;
        proof {
            self.mutation_paths.lemma_texts();
        }
        while k < requested.len()
            invariant
                k <= requested@.len(),
                active@ == self.mutation_paths.texts(),
                forall|path: Seq<char>| #[trigger]
                    self.mutation_paths.has(path) <==> counts::lists(active@, path),
                forall|i: int, j: int|
                    0 <= i < k && 0 <= j < active@.len() ==> !paths_conflict(
                        (#[trigger] requested@[i])@,
                        (#[trigger] active@[j])@,
                    ),
            decreases requested@.len() - k,
        {
            let mut m: usize = 0;
            while m < active.len()
                invariant
                    k < requested@.len(),
                    m <= active@.len(),
                    active@ == self.mutation_paths.texts(),
                    forall|path: Seq<char>| #[trigger]
                        self.mutation_paths.has(path) <==> counts::lists(active@, path),
                    forall|j: int|
                        0 <= j < m ==> !paths_conflict(
                            requested@[k as int]@,
                            (#[trigger] active@[j])@,
                        ),
                decreases active@.len() - m,
            {
                if mutation_paths_conflict(requested[k].as_str(), active[m].as_str()) {
                    proof {
                        let path = active@[m as int]@;
                        assert(counts::lists(active@, path));
                        assert(self@.mutations.contains(path));
                        assert(paths_conflict(requested@[k as int]@, path));
                    }
                    return true;
                }
                m = m + 1;
            }
            k = k + 1;
        }
        proof {
            if self@.conflicts(requested@) {
                let (i, path) = choose|i: int, path: Seq<char>|
                    0 <= i < requested@.len() && #[trigger] self@.mutations.contains(path)
                        && paths_conflict((#[trigger] requested@[i])@, path);
                assert(self.mutation_paths.has(path));
                let j = choose|j: int| 0 <= j < active@.len() && (#[trigger] active@[j])@ == path;
                assert(!paths_conflict(requested@[i]@, active@[j]@));
            }
        }
        false
    }

    fn volume_ok(
        &self,
        request: &ResourceRequest,
        policy: VolumeIoPolicy,
        admission: &AdmissionSnapshot,
        volume: &str,
    ) -> (ok: bool)
        requires
            self.inv(),
        ensures
            ok == self@.volume_admits(*request, policy, admission@, volume@),
    {
        let wants_read = counts::list_contains(&request.read_volumes, volume);
        let wants_write = counts::list_contains(&request.write_volumes, volume);
        let wants_metadata = counts::list_contains(&request.metadata_volumes, volume);
        let reads = self.volume_reads.get(volume);
        let writes = self.volume_writes.get(volume);
        let metadata = self.volume_metadata.get(volume);
        let reserved = admission.reserved_write_volumes.contains(volume);
        if add_flag(reads, wants_read) > policy.read_limit || add_flag(writes, wants_write)
            > policy.write_limit || add_flag(metadata, wants_metadata) > policy.metadata_limit {
            return false;
        }
        let current: usize;
        let added: usize;
        match policy.streaming_mode {
            VolumeStreamingMode::Exclusive => {
                if (wants_read && writes > 0) || (wants_write && reads > 0) || (wants_metadata && (
                reads > 0 || writes > 0)) || ((wants_read || wants_write) && metadata > 0) {
                    return false;
                }
                if reserved && !wants_write && wants_metadata {
                    return false;
                }
                current = if reads >= writes {
                    reads
                } else {
                    writes
                };
                added = add_flag(0, wants_read || wants_write);
            },
            VolumeStreamingMode::Mixed => {
                current = reads.saturating_add(writes);
                added = add_flag(add_flag(0, wants_read), wants_write);
            },
        }
        let kept = reserved && added > 0 && !wants_write && writes < policy.write_limit;
        add_flag(current.saturating_add(added), kept) <= policy.streaming_pressure_limit
    }

    fn volumes_ok(
        &self,
        request: &ResourceRequest,
        config: &TaskPoolConfig,
        admission: &AdmissionSnapshot,
        volumes: &Vec<String>,
    ) -> (ok: bool)
        requires
            self.inv(),
        ensures
            ok == (forall|volume: Seq<char>| #[trigger]
                counts::lists(volumes@, volume) ==> self@.volume_admits(
                    *request,
                    config.policy(volume),
                    admission@,
                    volume,
                )),
    {
        let mut k: usize = 0;
        while k < volumes.len()
            invariant
                self.inv(),
                k <= volumes@.len(),
                forall|j: int|
                    0 <= j < k ==> self@.volume_admits(
                        *request,
                        config.policy((#[trigger] volumes@[j])@),
                        admission@,
                        volumes@[j]@,
                    ),
            decreases volumes@.len() - k,
        {
            let policy = config.volume_policy(volumes[k].as_str());
            if !self.volume_ok(request, policy, admission, volumes[k].as_str()) {
                assert(counts::lists(volumes@, volumes@[k as int]@));
                return false;
            }
            k = k + 1;
        }
        true
    }

    fn savers_ok(&self, request: &ResourceRequest) -> (ok: bool)
        requires
            self.inv(),
        ensures
            ok == (forall|k: int|
                0 <= k < request.archive_save_volumes@.len() ==> self@.savers[(
                #[trigger] request.archive_save_volumes@[k])@] == 0),
    {
        let mut k: usize = 0;
        while k < request.archive_save_volumes.len()
            invariant
                self.inv(),
                k <= request.archive_save_volumes@.len(),
                forall|j: int|
                    0 <= j < k ==> self@.savers[(#[trigger] request.archive_save_volumes@[j])@]
                        == 0,
            decreases request.archive_save_volumes@.len() - k,
        {
            if self.archive_savers.get(request.archive_save_volumes[k].as_str()) > 0 {
                assert(self@.savers[request.archive_save_volumes@[k as int]@] > 0);
                return false;
            }
            k = k + 1;
        }
        true
    }

    fn commits_ok(&self, request: &ResourceRequest) -> (ok: bool)
        requires
            self.inv(),
        ensures
            ok == (forall|k: int|
                0 <= k < request.archive_commit_volumes@.len() ==> self@.commits[(
                #[trigger] request.archive_commit_volumes@[k]).0@] < (
                if request.archive_commit_volumes@[k].1 {
                    3int
                } else {
                    1int
                })),
    {
        let mut k: usize = 0;
        while k < request.archive_commit_volumes.len()
            invariant
                self.inv(),
                k <= request.archive_commit_volumes@.len(),
                forall|j: int|
                    0 <= j < k ==> self@.commits[(#[trigger] request.archive_commit_volumes@[j]).0@]
                        < (if request.archive_commit_volumes@[j].1 {
                        3int
                    } else {
                        1int
                    }),
            decreases request.archive_commit_volumes@.len() - k,
        {
            let limit: usize = if request.archive_commit_volumes[k].1 {
                3
            } else {
                1
            };
            if self.archive_commits.get(request.archive_commit_volumes[k].0.as_str()) >= limit {
                assert(self@.commits[request.archive_commit_volumes@[k as int].0@] >= limit);
                return false;
            }
            k = k + 1;
        }
        true
    }

    /// Whether a request fits in beside what runs: a lane of its kind is free,
    /// no path that it changes is being changed, and every volume that it
    /// touches takes it, given what waiting tasks claim.
    pub fn can_acquire(
        &self,
        request: &ResourceRequest,
        config: &TaskPoolConfig,
        admission: &AdmissionSnapshot,
    ) -> (ok: bool)
        requires
            self.inv(),
        ensures
            ok == self@.admits(*request, *config, admission@),
    {
        let lane = match request.run {
            RunClass::AsyncIo => true,
            RunClass::Cpu => self.cpu_in_use < config.cpu_slots,
            RunClass::Blocking => self.blocking_in_use < config.blocking_slots,
        };
        if !lane {
            return false;
        }
        if request.network.is_some() && self.network_in_use >= config.network_slots {
            return false;
        }
        if request.extract && self.extract_in_use >= config.extract_slots {
            return false;
        }
        let window: usize = if config.reuse_queue_limit == 0 {
            1
        } else {
            config.reuse_queue_limit
        };
        if request.reuse_probe && self.reuse_commits_in_use.saturating_add(
            admission.queued_reuse_commits,
        ) >= window {
            return false;
        }
        if !self.savers_ok(request) || !self.commits_ok(request) {
            return false;
        }
        if self.has_mutation_conflict(&request.mutation_paths) {
            return false;
        }
        let reads_ok = self.volumes_ok(request, config, admission, &request.read_volumes);
        let writes_ok = self.volumes_ok(request, config, admission, &request.write_volumes);
        let metadata_ok = self.volumes_ok(request, config, admission, &request.metadata_volumes);
        proof {
            assert forall|volume: Seq<char>| #[trigger]
                wants(*request, volume) && reads_ok && writes_ok
                    && metadata_ok implies self@.volume_admits(
                *request,
                config.policy(volume),
                admission@,
                volume,
            ) by {}
            assert(forall|volume: Seq<char>| #[trigger]
                counts::lists(request.read_volumes@, volume) ==> wants(*request, volume));
            assert(forall|volume: Seq<char>| #[trigger]
                counts::lists(request.write_volumes@, volume) ==> wants(*request, volume));
            assert(forall|volume: Seq<char>| #[trigger]
                counts::lists(request.metadata_volumes@, volume) ==> wants(*request, volume));
        }
        reads_ok && writes_ok && metadata_ok
    }

    /// Takes what the request asks for.
    pub fn acquire(&mut self, request: &ResourceRequest)
        requires
            old(self).inv(),
        ensures
            final(self).inv(),
            final(self)@ == old(self)@.acquired(*request),
    {
        let cpu = matches!(request.run, RunClass::Cpu);
        let blocking = matches!(request.run, RunClass::Blocking);
        self.cpu_in_use = add_flag(self.cpu_in_use, cpu);
        self.blocking_in_use = add_flag(self.blocking_in_use, blocking);
        self.network_in_use = add_flag(self.network_in_use, request.network.is_some());
        self.extract_in_use = add_flag(self.extract_in_use, request.extract);
        self.volume_reads.add_all(&request.read_volumes);
        self.volume_writes.add_all(&request.write_volumes);
        self.volume_metadata.add_all(&request.metadata_volumes);
        self.archive_savers.add_all(&request.archive_save_volumes);
        self.archive_commits.add_all(&names_of(&request.archive_commit_volumes));
        self.mutation_paths.insert_all(&request.mutation_paths);
        self.reuse_commits_in_use = add_flag(self.reuse_commits_in_use, request.reuse_commit);
        proof {
            let goal = old(self)@.acquired(*request);
            assert(self@.reads =~= goal.reads);
            assert(self@.writes =~= goal.writes);
            assert(self@.metadata =~= goal.metadata);
            assert(self@.savers =~= goal.savers);
            assert(self@.commits =~= goal.commits);
            assert(self@.mutations =~= goal.mutations);
        }
    }

    /// Gives back what the request took.
    pub fn release(&mut self, request: &ResourceRequest)
        requires
            old(self).inv(),
        ensures
            final(self).inv(),
            final(self)@ == old(self)@.released(*request),
    {
        let cpu = matches!(request.run, RunClass::Cpu);
        let blocking = matches!(request.run, RunClass::Blocking);
        self.cpu_in_use = sub_flag(self.cpu_in_use, cpu);
        self.blocking_in_use = sub_flag(self.blocking_in_use, blocking);
        self.network_in_use = sub_flag(self.network_in_use, request.network.is_some());
        self.extract_in_use = sub_flag(self.extract_in_use, request.extract);
        self.volume_reads.remove_all(&request.read_volumes);
        self.volume_writes.remove_all(&request.write_volumes);
        self.volume_metadata.remove_all(&request.metadata_volumes);
        self.archive_savers.remove_all(&request.archive_save_volumes);
        self.archive_commits.remove_all(&names_of(&request.archive_commit_volumes));
        self.mutation_paths.remove_all(&request.mutation_paths);
        self.reuse_commits_in_use = sub_flag(self.reuse_commits_in_use, request.reuse_commit);
        proof {
            let goal = old(self)@.released(*request);
            assert(self@.reads =~= goal.reads);
            assert(self@.writes =~= goal.writes);
            assert(self@.metadata =~= goal.metadata);
            assert(self@.savers =~= goal.savers);
            assert(self@.commits =~= goal.commits);
            assert(self@.mutations =~= goal.mutations);
        }
    }

    /// Whether the lane, the extractor or the paths that a waiting task needs
    /// are taken, so that it could not use a volume even if that were free.
    pub fn held_back(&self, request: &ResourceRequest, config: &TaskPoolConfig) -> (held: bool)
        requires
            self.inv(),
        ensures
            held == self@.holds_back(*request, *config),
    {
        let lane = match request.run {
            RunClass::AsyncIo => true,
            RunClass::Cpu => self.cpu_in_use < config.cpu_slots,
            RunClass::Blocking => self.blocking_in_use < config.blocking_slots,
        };
        !lane || (request.extract && self.extract_in_use >= config.extract_slots)
            || self.has_mutation_conflict(&request.mutation_paths)
    }
}

impl Usage {
    /// Whether the lane, the extractor or the paths that a waiting task needs
    /// are taken.
    pub open spec fn holds_back(self, request: ResourceRequest, config: TaskPoolConfig) -> bool {
        ||| request.run is Cpu && self.cpu >= config.cpu_slots
        ||| request.run is Blocking && self.blocking >= config.blocking_slots
        ||| request.extract && self.extract >= config.extract_slots
        ||| self.conflicts(request.mutation_paths@)
    }
}

} // verus!
