//! The limits that the pool works within.

use crate::error::Message;
use crate::scheduler::counts;
use crate::text;
use vstd::prelude::*;

verus! {

/// Lanes of the blocking pool that the runtime keeps for its own work.
pub const BLOCKING_POOL_INTERNAL_RESERVE: usize = 4;

/// Whether a volume takes reads and writes at once.
#[derive(Clone, Copy, PartialEq, Eq, Structural, Debug)]
pub enum VolumeStreamingMode {
    Exclusive,
    Mixed,
}

/// How much work a volume takes at once.
#[derive(Clone, Copy, PartialEq, Eq, Structural, Debug)]
pub struct VolumeIoPolicy {
    pub read_limit: usize,
    pub write_limit: usize,
    pub metadata_limit: usize,
    pub streaming_pressure_limit: usize,
    pub streaming_mode: VolumeStreamingMode,
}

impl VolumeIoPolicy {
    pub fn new(
        read_limit: usize,
        write_limit: usize,
        metadata_limit: usize,
        streaming_pressure_limit: usize,
        streaming_mode: VolumeStreamingMode,
    ) -> (policy: VolumeIoPolicy)
        ensures
            policy == (VolumeIoPolicy {
                read_limit,
                write_limit,
                metadata_limit,
                streaming_pressure_limit,
                streaming_mode,
            }),
    {
        VolumeIoPolicy {
            read_limit,
            write_limit,
            metadata_limit,
            streaming_pressure_limit,
            streaming_mode,
        }
    }
}

/// Policies of single volumes.
#[derive(Clone)]
pub struct VolumePolicies {
    entries: Vec<(String, VolumeIoPolicy)>,
}

impl VolumePolicies {
    spec fn at(entries: Seq<(String, VolumeIoPolicy)>, volume: Seq<char>, k: int) -> bool {
        0 <= k < entries.len() && entries[k].0@ == volume && forall|j: int|
            k < j < entries.len() ==> (#[trigger] entries[j]).0@ != volume
    }

    /// The policy of a volume: the last one that was set for it.
    pub closed spec fn policy(&self, volume: Seq<char>) -> Option<VolumeIoPolicy> {
        if exists|k: int| Self::at(self.entries@, volume, k) {
            Some(self.entries@[choose|k: int| Self::at(self.entries@, volume, k)].1)
        } else {
            None
        }
    }

    pub fn new() -> (policies: VolumePolicies)
        ensures
            forall|volume: Seq<char>| #[trigger] policies.policy(volume) is None,
    {
        VolumePolicies { entries: Vec::new() }
    }

    /// Sets the policy of a volume.
    pub fn insert(&mut self, volume: String, policy: VolumeIoPolicy)
        ensures
            final(self).policy(volume@) == Some(policy),
            forall|other: Seq<char>|
                other != volume@ ==> #[trigger] final(self).policy(other) == old(self).policy(
                    other,
                ),
    {
        let ghost before = self.entries@;
        self.entries.push((volume, policy));
        proof {
            let last = before.len() as int;
            assert(Self::at(self.entries@, volume@, last));
            let l = choose|l: int| Self::at(self.entries@, volume@, l);
            assert(l == last) by {
                if l < last {
                    assert(self.entries@[last].0@ != volume@);
                }
            }
            assert forall|other: Seq<char>| other != volume@ implies #[trigger] self.policy(other)
                == old(self).policy(other) by {
                assert forall|k: int| #[trigger]
                    Self::at(self.entries@, other, k) <==> Self::at(before, other, k) by {
                    if Self::at(self.entries@, other, k) {
                        assert(before[k] == self.entries@[k]);
                        assert forall|j: int| k < j < before.len() implies (
                        #[trigger] before[j]).0@ != other by {
                            assert(self.entries@[j].0@ != other);
                        }
                    }
                    if Self::at(before, other, k) {
                        assert(before[k] == self.entries@[k]);
                        assert forall|j: int| k < j < self.entries@.len() implies (
                        #[trigger] self.entries@[j]).0@ != other by {
                            if j < last {
                                assert(before[j].0@ != other);
                            }
                        }
                    }
                }
                if exists|k: int| Self::at(before, other, k) {
                    let a = choose|k: int| Self::at(before, other, k);
                    assert(Self::at(self.entries@, other, a));
                    let b = choose|k: int| Self::at(self.entries@, other, k);
                    assert(Self::at(before, other, b));
                    if a < b {
                        assert(before[b].0@ != other);
                    }
                    if b < a {
                        assert(before[a].0@ != other);
                    }
                    assert(before[a] == self.entries@[a]);
                }
            }
        }
    }

    pub fn get(&self, volume: &str) -> (found: Option<VolumeIoPolicy>)
        ensures
            found == self.policy(volume@),
    {
        let mut k: usize = self.entries.len();
        while k > 0
            invariant
                k <= self.entries@.len(),
                forall|j: int|
                    k <= j < self.entries@.len() ==> (#[trigger] self.entries@[j]).0@ != volume@,
            decreases k,
        {
            k = k - 1;
            if text::same_text(self.entries[k].0.as_str(), volume) {
                proof {
                    assert(Self::at(self.entries@, volume@, k as int));
                    let l = choose|l: int| Self::at(self.entries@, volume@, l);
                    assert(Self::at(self.entries@, volume@, l));
                    if l < k {
                        assert(self.entries@[k as int].0@ != volume@);
                    }
                }
                return Some(self.entries[k].1);
            }
        }
        proof {
            if exists|l: int| Self::at(self.entries@, volume@, l) {
                let l = choose|l: int| Self::at(self.entries@, volume@, l);
                assert(self.entries@[l].0@ != volume@);
            }
        }
        None
    }
}

/// The limits that the pool works within.
#[derive(Clone)]
pub struct TaskPoolConfig {
    pub dispatcher_threads: usize,
    pub network_slots: usize,
    pub cpu_slots: usize,
    pub blocking_slots: usize,
    pub blocking_pool_limit: usize,
    pub extract_slots: usize,
    pub extract_shards: usize,
    pub reuse_queue_limit: usize,
    pub ready_frontier: usize,
    pub max_retries: u32,
    pub download_progress_buffer_bytes: u64,
    pub extraction_progress_buffer_bytes: u64,
    pub user_agent: String,
    pub default_volume_policy: VolumeIoPolicy,
    pub volume_policies: VolumePolicies,
}

impl Default for TaskPoolConfig {
    /// Limits for one fast local disk.
    fn default() -> (config: TaskPoolConfig)
        ensures
            config.fault() is None,
            config.dispatcher_threads == 4,
            config.network_slots == 16,
            config.cpu_slots == 8,
            config.blocking_slots == 16,
            config.blocking_pool_limit == 28,
            config.extract_slots == 4,
            config.extract_shards == 4,
            config.reuse_queue_limit == 64,
            config.ready_frontier == 256,
            config.max_retries == 3,
            config.download_progress_buffer_bytes == 262144,
            config.extraction_progress_buffer_bytes == 262144,
            config.user_agent@ == "griffr"@,
            config.default_volume_policy == (VolumeIoPolicy {
                read_limit: 16,
                write_limit: 16,
                metadata_limit: 128,
                streaming_pressure_limit: 32,
                streaming_mode: VolumeStreamingMode::Mixed,
            }),
            forall|volume: Seq<char>| #[trigger] config.volume_policies.policy(volume) is None,
    {
        TaskPoolConfig {
            dispatcher_threads: 4,
            network_slots: 16,
            cpu_slots: 8,
            blocking_slots: 16,
            blocking_pool_limit: 28,
            extract_slots: 4,
            extract_shards: 4,
            reuse_queue_limit: 64,
            ready_frontier: 256,
            max_retries: 3,
            download_progress_buffer_bytes: 262144,
            extraction_progress_buffer_bytes: 262144,
            user_agent: "griffr".to_owned(),
            default_volume_policy: VolumeIoPolicy::new(
                16,
                16,
                128,
                32,
                VolumeStreamingMode::Mixed,
            ),
            volume_policies: VolumePolicies::new(),
        }
    }
}

/// The complaint about a limit that is zero.
pub open spec fn zero_text(name: Seq<char>) -> Seq<char> {
    name + " must be non-zero"@
}

impl TaskPoolConfig {
    /// The policy that holds on a volume.
    pub open spec fn policy(&self, volume: Seq<char>) -> VolumeIoPolicy {
        match self.volume_policies.policy(volume) {
            Some(policy) => policy,
            None => self.default_volume_policy,
        }
    }

    /// How many blocking lanes the admitted tasks of this pool can take.
    pub open spec fn admitted_blocking(&self) -> int {
        counts::capped(self.cpu_slots + self.blocking_slots)
    }

    /// How many blocking lanes this pool needs.
    pub open spec fn required_blocking_pool(&self) -> int {
        counts::capped(self.admitted_blocking() + BLOCKING_POOL_INTERNAL_RESERVE)
    }

    /// What is wrong with the limits, if anything is.
    pub open spec fn fault(&self) -> Option<Seq<char>> {
        if self.dispatcher_threads == 0 {
            Some(zero_text("dispatcher_threads"@))
        } else if self.network_slots == 0 {
            Some(zero_text("network_slots"@))
        } else if self.cpu_slots == 0 {
            Some(zero_text("cpu_slots"@))
        } else if self.blocking_slots == 0 {
            Some(zero_text("blocking_slots"@))
        } else if self.blocking_pool_limit == 0 {
            Some(zero_text("blocking_pool_limit"@))
        } else if self.extract_slots == 0 {
            Some(zero_text("extract_slots"@))
        } else if self.reuse_queue_limit == 0 {
            Some(zero_text("reuse_queue_limit"@))
        } else if self.blocking_pool_limit < self.required_blocking_pool() {
            Some(
                "blocking_pool_limit ("@ + text::decimal(self.blocking_pool_limit as nat)
                    + ") must cover cpu_slots + blocking_slots ("@ + text::decimal(
                    self.admitted_blocking() as nat,
                ) + ") plus "@ + text::decimal(BLOCKING_POOL_INTERNAL_RESERVE as nat)
                    + " reserved compio fallback lanes (minimum "@ + text::decimal(
                    self.required_blocking_pool() as nat,
                ) + ")"@,
            )
        } else {
            None
        }
    }

    /// The policy that holds on a volume: its own, or the general one.
    pub fn volume_policy(&self, volume: &str) -> (policy: VolumeIoPolicy)
        ensures
            policy == self.policy(volume@),
    {
        match self.volume_policies.get(volume) {
            Some(policy) => policy,
            None => self.default_volume_policy,
        }
    }

    /// How many released tasks are routed ahead of admission.
    pub fn ready_frontier_limit(&self) -> (limit: usize)
        ensures
            limit == self.ready_frontier,
    {
        self.ready_frontier
    }

    /// Sizes the blocking pool for the tasks of this pool.
    pub fn fit_blocking_pool(&mut self)
        ensures
            final(self).blocking_pool_limit == old(self).required_blocking_pool(),
            *final(self) == (TaskPoolConfig {
                blocking_pool_limit: final(self).blocking_pool_limit,
                ..*old(self)
            }),
    {
        self.blocking_pool_limit =
        self.cpu_slots.saturating_add(self.blocking_slots).saturating_add(
            BLOCKING_POOL_INTERNAL_RESERVE,
        );
    }

    /// Sizes the blocking pool for several runners that share it.
    pub fn fit_blocking_pool_for_runners(&mut self, runners: usize)
        ensures
            final(self).blocking_pool_limit == counts::capped(
                counts::capped(old(self).admitted_blocking() * (if runners == 0 {
                    1
                } else {
                    runners as int
                })) + BLOCKING_POOL_INTERNAL_RESERVE,
            ),
            *final(self) == (TaskPoolConfig {
                blocking_pool_limit: final(self).blocking_pool_limit,
                ..*old(self)
            }),
    {
        let sharing: usize = if runners == 0 {
            1
        } else {
            runners
        };
        let admitted = self.cpu_slots.saturating_add(self.blocking_slots);
        let wanted: usize = match admitted.checked_mul(sharing) {
            Some(product) => product,
            None => usize::MAX,
        };
        self.blocking_pool_limit = wanted.saturating_add(BLOCKING_POOL_INTERNAL_RESERVE);
    }
}

fn zero_message(name: &str) -> (message: Message)
    ensures
        message.context@ == "Task pool error: "@,
        message.detail@ == zero_text(name@),
{
    let mut detail = name.to_owned();
    text::push_text(&mut detail, " must be non-zero");
    Message::new("Task pool error: ", detail)
}

/// Refuses limits under which the pool could not work: each lane count must
/// be positive, and the blocking pool must hold the admitted tasks besides the
/// lanes that the runtime keeps.
pub fn validate_config(config: &TaskPoolConfig) -> (result: Result<(), Message>)
    ensures
        match result {
            Ok(()) => config.fault() is None,
            Err(message) => message.context@ == "Task pool error: "@ && config.fault() == Some(
                message.detail@,
            ),
        },
{
    if config.dispatcher_threads == 0 {
        return Err(zero_message("dispatcher_threads"));
    }
    if config.network_slots == 0 {
        return Err(zero_message("network_slots"));
    }
    if config.cpu_slots == 0 {
        return Err(zero_message("cpu_slots"));
    }
    if config.blocking_slots == 0 {
        return Err(zero_message("blocking_slots"));
    }
    if config.blocking_pool_limit == 0 {
        return Err(zero_message("blocking_pool_limit"));
    }
    if config.extract_slots == 0 {
        return Err(zero_message("extract_slots"));
    }
    if config.reuse_queue_limit == 0 {
        return Err(zero_message("reuse_queue_limit"));
    }
    let admitted = config.cpu_slots.saturating_add(config.blocking_slots);
    let required = admitted.saturating_add(BLOCKING_POOL_INTERNAL_RESERVE);
    if config.blocking_pool_limit < required {
        let mut detail = "blocking_pool_limit (".to_owned();
        text::push_size(&mut detail, config.blocking_pool_limit);
        text::push_text(&mut detail, ") must cover cpu_slots + blocking_slots (");
        text::push_size(&mut detail, admitted);
        text::push_text(&mut detail, ") plus ");
        text::push_size(&mut detail, BLOCKING_POOL_INTERNAL_RESERVE);
        text::push_text(&mut detail, " reserved compio fallback lanes (minimum ");
        text::push_size(&mut detail, required);
        text::push_text(&mut detail, ")");
        return Err(Message::new("Task pool error: ", detail));
    }
    Ok(())
}

/// A fitted blocking pool is never the reason why limits are refused.
pub proof fn law_fitted_pool_is_large_enough(config: TaskPoolConfig)
    requires
        config.blocking_pool_limit == config.required_blocking_pool(),
        config.dispatcher_threads > 0,
        config.network_slots > 0,
        config.cpu_slots > 0,
        config.blocking_slots > 0,
        config.extract_slots > 0,
        config.reuse_queue_limit > 0,
    ensures
        config.fault() is None,
{
}

} // verus!
