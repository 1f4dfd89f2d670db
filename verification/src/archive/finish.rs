//! Probing a patch, running shards, and ending an archive.

use crate::archive::extract;
use crate::archive::fetch;
use crate::archive::work;
use crate::event::{ProgressPhase, TaskOutcome, WorkerEvent};
use crate::graph::expansion;
use crate::graph::expansion::{ExpansionNodeId, GraphExpansion, LocalNode, TaskRun};
use crate::patch::schedule;
use crate::patch::waves;
use crate::path::FilePath;
use crate::task::{ArchiveIndex, ArchiveWork, PreparedArchive, Task};
use std::sync::Arc;
use vstd::prelude::*;

verus! {

/// A file that is looked at before a patch is planned.
pub struct PatchProbe {
    pub path: Option<FilePath>,
    pub size: u64,
}

/// The task that looks at a file.
pub open spec fn probe_task(probes: Seq<PatchProbe>, i: int) -> Task {
    Task::ProbePatchArtifact {
        probe_index: i as usize,
        probe_path: probes[i].path,
        probe_size: probes[i].size,
    }
}

/// The subgraph that plans a patch: every file is looked at, and the files that
/// move are measured; then the plan is made.
pub open spec fn is_probing(
    nodes: Seq<LocalNode>,
    archive: Arc<ArchiveWork>,
    archive_index: Arc<ArchiveIndex>,
    probes: Seq<PatchProbe>,
    relocation: Option<FilePath>,
) -> bool {
    let n = probes.len() as int;
    let measured = if relocation is Some {
        n + 1
    } else {
        n
    };
    &&& nodes.len() == measured + 1
    &&& forall|i: int|
        0 <= i < n ==> #[trigger] nodes[i] == expansion::plain_node(probe_task(probes, i))
    &&& relocation is Some ==> nodes[n] == expansion::plain_node(
        Task::MeasurePatchRelocation { root: relocation },
    )
    &&& nodes[measured].task == (Task::SavePatchPlan { work: archive, archive_index })
    &&& extract::is_range(nodes[measured].dependencies, 0, measured)
    &&& nodes[measured].tokens.len() == 0
    &&& nodes[measured].binding is None
}

/// Schedules what a patch is planned from.
pub fn probe_patch(
    archive: Arc<ArchiveWork>,
    archive_index: Arc<ArchiveIndex>,
    probes: Vec<PatchProbe>,
    relocation: Option<FilePath>,
) -> (expansion: GraphExpansion)
    ensures
        expansion.inv(),
        is_probing(expansion@, archive, archive_index, probes@, relocation),
{
    let ghost all = probes@;
    let ghost moved = relocation;
    let mut expansion = GraphExpansion::new();
    let mut waits: Vec<ExpansionNodeId> = Vec::new();
    let mut index: usize = 0;
    let total = probes.len();
    for probe in it: probes
        invariant
            it.seq() == all,
            index == it.index(),
            total == all.len(),
            expansion.inv(),
            expansion@.len() == index,
            waits@.len() == index,
            forall|i: int| 0 <= i < index ==> (#[trigger] waits@[i]).0 == i,
            forall|i: int|
                0 <= i < index ==> #[trigger] expansion@[i] == expansion::plain_node(
                    probe_task(all, i),
                ),
    {
        let PatchProbe { path, size } = probe;
        let id = expansion.add_root(
            Task::ProbePatchArtifact { probe_index: index, probe_path: path, probe_size: size },
        );
        waits.push(id);
        index = index + 1;
    }
    if relocation.is_some() {
        let id = expansion.add_root(Task::MeasurePatchRelocation { root: relocation });
        waits.push(id);
    }
    let ghost list = waits@;
    let ghost before = expansion@;
    expansion.append(Task::SavePatchPlan { work: archive, archive_index }, waits, Vec::new());
    proof {
        let now = expansion@;
        let last = now.last();
        let count = before.len() as int;
        assert forall|i: int| 0 <= i < count implies now[i] == before[i] by {
            assert(now.drop_last()[i] == before[i]);
        }
        let ps = expansion::positions(list);
        assert(list.len() == count);
        assert forall|d: u64| #[trigger] last.dependencies.contains(d) <==> 0 <= d < count by {
            if last.dependencies.contains(d) {
                assert(ps.contains(d));
                let i = choose|i: int| 0 <= i < ps.len() && ps[i] == d;
                assert(list[i].0 == i);
            }
            if d < count {
                assert(list[d as int].0 == d);
                assert(ps[d as int] == d);
                assert(ps.contains(d));
            }
        }
        assert(last.tokens.len() == 0) by {
            assert(expansion::token_numbers(Seq::empty()) =~= Seq::<u64>::empty());
            if last.tokens.len() > 0 {
                assert(last.tokens.contains(last.tokens[0]));
            }
        }
        assert(is_probing(now, archive, archive_index, all, moved));
    }
    expansion
}

/// How the shards of an archive are getting on, in the mathematical model.
pub struct ShardState {
    /// How many shards are being extracted.
    pub running: int,
    /// Whether one of them has failed.
    pub failed: bool,
}

/// How the shards of an archive are getting on.
pub struct ArchiveShardRunState {
    running: usize,
    failed: bool,
}

impl View for ArchiveShardRunState {
    type V = ShardState;

    closed spec fn view(&self) -> ShardState {
        ShardState { running: self.running as int, failed: self.failed }
    }
}

impl ArchiveShardRunState {
    pub fn new() -> (state: ArchiveShardRunState)
        ensures
            state@ == (ShardState { running: 0, failed: false }),
    {
        ArchiveShardRunState { running: 0, failed: false }
    }

    /// Starts a shard. Once one has failed no other starts; then it is said
    /// whether what was extracted can be removed, nothing being written any more.
    pub fn try_begin(&mut self) -> (result: Result<(), bool>)
        requires
            old(self)@.running < usize::MAX,
        ensures
            match result {
                Ok(()) => !old(self)@.failed && final(self)@ == (ShardState {
                    running: old(self)@.running + 1,
                    ..old(self)@
                }),
                Err(cleanup) => old(self)@.failed && final(self)@ == old(self)@ && cleanup == (
                old(self)@.running == 0),
            },
    {
        if self.failed {
            return Err(self.running == 0);
        }
        self.running = self.running + 1;
        Ok(())
    }

    /// Ends a shard. Says whether its failure is to be reported, being the first,
    /// and whether what was extracted can be removed.
    pub fn finish(&mut self, succeeded: bool) -> (result: (bool, bool))
        requires
            old(self)@.running > 0,
        ensures
            final(self)@ == (ShardState {
                running: old(self)@.running - 1,
                failed: old(self)@.failed || !succeeded,
            }),
            result.0 == (!succeeded && !old(self)@.failed),
            result.1 == (final(self)@.failed && final(self)@.running == 0),
    {
        let first = !succeeded && !self.failed;
        if !succeeded {
            self.failed = true;
        }
        self.running = self.running - 1;
        (first, self.failed && self.running == 0)
    }

    pub fn is_failed(&self) -> (failed: bool)
        ensures
            failed == self@.failed,
    {
        self.failed
    }
}

/// Reports how far extraction has come, after some more bytes.
pub fn extract_progress(archive: &ArchiveWork, extracted: u64, total: u64) -> (event: WorkerEvent)
    ensures
        event matches WorkerEvent::Progress { phase, path, completed, total: t, reset } && phase
            is Extract && path@ == archive.base_name@ && completed == (if extracted <= total {
            extracted
        } else {
            total
        }) && t == total && !reset,
{
    let completed = if extracted <= total {
        extracted
    } else {
        total
    };
    WorkerEvent::progress(
        ProgressPhase::Extract,
        archive.base_name.clone(),
        completed,
        total,
        false,
    )
}

/// What the end of a shard asks for.
pub struct ShardEnd {
    pub run: TaskRun,
    /// Whether the fetched pieces are dropped.
    pub drop_ranges: bool,
    /// The shard whose pieces are no longer needed.
    pub release: Option<usize>,
    /// Whether what was extracted is removed.
    pub cleanup_staging: bool,
    /// What is reported.
    pub events: Vec<WorkerEvent>,
}

/// Whether a shard ends as it should. The first failure is reported, the others
/// are not; a failed shard drops the fetched pieces, a finished one releases its
/// own; what was extracted is removed once a shard has failed and none is
/// running.
pub open spec fn shard_ends(
    end: ShardEnd,
    before: ShardState,
    archive: ArchiveWork,
    range_release: Option<usize>,
    total: u64,
    extracted: u64,
    result: Result<(), String>,
) -> bool {
    let failed = before.failed || result is Err;
    let cleanup = failed && before.running == 1;
    &&& match result {
        Ok(()) => end.run is Succeeded,
        Err(error) => end.run matches TaskRun::Failed { reason, report } && reason@ == error@
            && report == !before.failed,
    }
    &&& end.drop_ranges == (result is Err)
    &&& end.release == (if result is Ok {
        range_release
    } else {
        None
    })
    &&& end.cleanup_staging == cleanup
    &&& if !cleanup && !failed && extracted >= total {
        &&& end.events@.len() == 1
        &&& end.events@[0] matches WorkerEvent::Progress { phase, path, completed, total: t, reset }
            && phase is Extract && path@ == archive.base_name@ && completed == total && t == total
            && !reset
    } else {
        end.events@.len() == 0
    }
}

/// Ends a shard.
pub fn run_extract_archive_shard(
    state: &mut ArchiveShardRunState,
    archive: &ArchiveWork,
    range_release: Option<usize>,
    total: u64,
    extracted: u64,
    result: Result<(), String>,
) -> (end: ShardEnd)
    requires
        old(state)@.running > 0,
    ensures
        final(state)@ == (ShardState {
            running: old(state)@.running - 1,
            failed: old(state)@.failed || result is Err,
        }),
        shard_ends(end, old(state)@, *archive, range_release, total, extracted, result),
{
    let succeeded = result.is_ok();
    let release = if succeeded {
        range_release
    } else {
        None
    };
    let (report, cleanup_staging) = state.finish(succeeded);
    let mut events: Vec<WorkerEvent> = Vec::new();
    if !cleanup_staging && succeeded && !state.is_failed() && extracted >= total {
        events.push(extract_progress(archive, total, total));
    }
    let run = match result {
        Ok(()) => TaskRun::succeeded(),
        Err(error) => {
            if report {
                TaskRun::failed(error)
            } else {
                TaskRun::silent_failure(error)
            }
        },
    };
    ShardEnd { run, drop_ranges: !succeeded, release, cleanup_staging, events }
}

/// What is removed after a failure is removed once: when the last running shard
/// ends.
pub proof fn law_only_the_last_shard_cleans_up(before: ShardState, succeeded: bool)
    requires
        before.running > 1,
    ensures
        ({
            let after = ShardState {
                running: before.running - 1,
                failed: before.failed || !succeeded,
            };
            after.running > 0 && !(after.failed && after.running == 0)
        }),
{
}

/// Whether a run ends an archive that holds no patch: control files are applied,
/// and then the archive is cleaned up, once every task that brings a volume is
/// done.
pub open spec fn ends_archive(run: TaskRun, archive: Arc<ArchiveWork>) -> bool {
    run matches TaskRun::Expand { expansion: e, next } && next is None && e.inv() && e@.len() == 2
        && (e@[0].task matches Task::ApplyExtractedVfsPatchManifest { install_root }
        && install_root@ == archive.dest@ && e@[0].dependencies.len() == 0
        && e@[0].tokens.len() == 0) && e@[1].task == (Task::CleanupArchive { work: archive })
        && extract::is_range(e@[1].dependencies, 0, 1) && expansion::sorts(
        e@[1].tokens,
        expansion::token_numbers(archive.first_tokens(archive.tokens@.len() as int)),
    )
}

/// Ends an archive that holds no patch, after its control files have been put in
/// place.
pub fn finish_archive(archive: Arc<ArchiveWork>, committed: Result<(), String>) -> (run: TaskRun)
    ensures
        match committed {
            Ok(()) => ends_archive(run, archive),
            Err(error) => work::fails_with(run, error@),
        },
{
    match committed {
        Ok(()) => {},
        Err(error) => {
            return TaskRun::failed(error);
        },
    }
    let mut expansion = GraphExpansion::new();
    let apply = expansion.add_root(
        Task::ApplyExtractedVfsPatchManifest { install_root: archive.dest.copied() },
    );
    let ghost before = expansion@;
    let tokens = archive.all_tokens();
    let mut waits: Vec<ExpansionNodeId> = Vec::new();
    waits.push(apply);
    let ghost list = waits@;
    expansion.append(Task::CleanupArchive { work: archive.clone() }, waits, tokens);
    proof {
        let now = expansion@;
        assert(now.drop_last()[0] == now[0]);
        assert(now.last() == now[1]);
        let ps = expansion::positions(list);
        assert(ps =~= seq![0u64]);
        assert forall|d: u64| #[trigger] now[1].dependencies.contains(d) <==> 0 <= d < 1 by {
            if d == 0 {
                assert(ps[0] == d);
                assert(ps.contains(d));
            }
        }
    }
    TaskRun::expand(expansion)
}

/// Goes on once every shard of an archive is extracted: a patch is applied; else
/// the control files are put in place.
pub fn run_finish_archive(
    archive: Arc<ArchiveWork>,
    prepared: &Option<PreparedArchive>,
    committed: Result<(), String>,
) -> (run: TaskRun)
    ensures
        match prepared {
            None => work::fails_with(run, "archive finish started without prepared state"@),
            Some(state) => match state.patch_plan {
                Some(plan) => match waves::order_fault(*plan) {
                    Some(detail) => work::fails_with(run, "VFS error: "@ + detail),
                    None => schedule::applies_patch(run, archive, plan),
                },
                None => match committed {
                    Ok(()) => ends_archive(run, archive),
                    Err(error) => work::fails_with(run, error@),
                },
            },
        },
{
    match prepared {
        Some(state) => match &state.patch_plan {
            Some(plan) => schedule::schedule_patch_apply(archive, plan.clone()),
            None => finish_archive(archive, committed),
        },
        None => TaskRun::failed("archive finish started without prepared state".to_owned()),
    }
}

/// Ends the clean-up of an archive. A remote archive whose volumes do not stay
/// counts as verified.
pub fn run_clean_archive(archive: &ArchiveWork, cleaned: Result<(), String>) -> (end: (
    TaskRun,
    Option<WorkerEvent>,
))
    ensures
        match cleaned {
            Ok(()) => end.0 is Succeeded && if archive.remote && archive.retention
                is DiscardVolumes {
                end.1 matches Some(
                    WorkerEvent::Outcome { outcome: TaskOutcome::Verified { path, ok, issue } },
                ) && path@ == archive.base_name@ && ok && issue is None
            } else {
                end.1 is None
            },
            Err(error) => work::fails_with(end.0, error@) && end.1 is None,
        },
{
    match cleaned {
        Ok(()) => {
            if archive.remote && !archive.keeps_full_volumes() {
                (
                    TaskRun::succeeded(),
                    Some(WorkerEvent::verified(archive.base_name.clone(), true, None)),
                )
            } else {
                (TaskRun::succeeded(), None)
            }
        },
        Err(error) => (TaskRun::failed(error), None),
    }
}

/// Ends the clean-up of a patch: the archive is cleaned up once every task that
/// brings a volume is done.
pub fn run_clean_patch_apply(archive: Arc<ArchiveWork>, cleaned: Result<(), String>) -> (run: TaskRun)
    ensures
        match cleaned {
            Ok(()) => run matches TaskRun::Expand { expansion: e, next } && next is None && e.inv()
                && e@.len() == 1 && fetch::waits_for_tokens(
                e@[0],
                Task::CleanupArchive { work: archive },
                archive.first_tokens(archive.tokens@.len() as int),
            ),
            Err(error) => work::fails_with(run, error@),
        },
{
    match cleaned {
        Ok(()) => {},
        Err(error) => {
            return TaskRun::failed(error);
        },
    }
    let mut expansion = GraphExpansion::new();
    let tokens = archive.all_tokens();
    match expansion.add_root_with_tokens(Task::CleanupArchive { work: archive }, tokens) {
        Ok(_) => {},
        Err(_) => {},
    }
    TaskRun::expand(expansion)
}

} // verus!
