//! What a patch leaves on disk when it is interrupted and taken up again.

use crate::event;
use crate::event::StepReport;
use crate::patch::apply;
use crate::patch::apply::EntryAction;
use crate::patch::plan;
use crate::patch::plan::{PatchPlan, PlannedPatchEntry, PlannedPatchSource};
use crate::patch::run;
use crate::patch::run::{RunStep, StepModel};
use crate::patch::schedule;
use crate::patch::steps;
use crate::patch::steps::{CommitModel, DeleteStep};
use crate::patch::waves;
use crate::path::{FilePath, PathModel};
use crate::text;
use crate::verify::IssueKind;
use vstd::prelude::*;

verus! {

/// What a file is known by.
pub struct FileMark {
    pub md5: Seq<char>,
    pub size: u64,
}

/// The files of a disk.
pub type Disk = Map<PathModel, FileMark>;

/// One step of a patch.
pub enum DiskStep {
    /// Put a staged file in place, unless that has been done.
    Commit { source: PathModel, target: PathModel },
    /// Remove a file before anything is patched.
    Early { path: PathModel },
    /// Apply an entry.
    Entry { entry: int },
    /// Remove a file that no entry is patched from any longer.
    Release { base: PathModel },
    /// Remove a file after everything has been patched.
    Delete { path: PathModel },
    /// Put a file in place that has waited for the end.
    Deferred { index: int },
}

/// The file that an entry promises.
pub open spec fn promised(entry: PlannedPatchEntry) -> FileMark {
    FileMark { md5: text::lowered(entry.expected_md5@), size: entry.expected_size }
}

/// Whether the file of an entry is as it should be.
pub open spec fn is_right(disk: Disk, entry: PlannedPatchEntry) -> bool {
    disk.contains_key(entry.destination@) && disk[entry.destination@] == promised(entry)
}

/// A disk on which a file has been moved.
pub open spec fn moved(disk: Disk, source: PathModel, target: PathModel) -> Disk {
    disk.insert(target, disk[source]).remove(source)
}

/// The disk after an entry has been applied, unless that fails.
pub open spec fn after_entry(plan: PatchPlan, entry: PlannedPatchEntry, disk: Disk) -> Option<Disk> {
    if is_right(disk, entry) {
        Some(disk)
    } else {
        match entry.source {
            PlannedPatchSource::AlreadyPresent => None,
            PlannedPatchSource::Local { payload } => {
                let from = apply::payload_path(plan, payload@);
                if disk.contains_key(from) && disk[from] == promised(entry) {
                    Some(moved(disk, from, entry.destination@))
                } else {
                    None
                }
            },
            PlannedPatchSource::Hdiff { base, payload, base_md5, base_size } => {
                let with = apply::payload_path(plan, payload@);
                if has_mark(disk, base@, base_md5@, base_size) && disk.contains_key(with) {
                    Some(disk.insert(entry.destination@, promised(entry)).remove(with))
                } else {
                    None
                }
            },
        }
    }
}

/// The disk after a step, unless the step fails.
pub open spec fn after_step(plan: PatchPlan, step: DiskStep, disk: Disk) -> Option<Disk> {
    match step {
        DiskStep::Commit { source, target } => if disk.contains_key(source) {
            Some(moved(disk, source, target))
        } else {
            Some(disk)
        },
        DiskStep::Early { path } => Some(disk.remove(path)),
        DiskStep::Entry { entry } => after_entry(plan, plan.entries@[entry], disk),
        DiskStep::Release { base } => Some(disk.remove(base)),
        DiskStep::Delete { path } => Some(disk.remove(path)),
        DiskStep::Deferred { index } => {
            let (source, target) = steps::deferred_move(plan, index);
            if disk.contains_key(source) {
                Some(moved(disk, source, target))
            } else if disk.contains_key(target) {
                Some(disk)
            } else {
                None
            }
        },
    }
}

/// The disk after the first `k` steps, unless one of them fails.
pub open spec fn after_steps(plan: PatchPlan, list: Seq<DiskStep>, disk: Disk, k: int) -> Option<
    Disk,
>
    decreases k,
{
    if k <= 0 {
        Some(disk)
    } else {
        match after_steps(plan, list, disk, k - 1) {
            Some(before) => after_step(plan, list[k - 1], before),
            None => None,
        }
    }
}

/// A step between the preparation of a patch and its deletes.
pub open spec fn entry_step(step: StepModel) -> DiskStep {
    match step {
        StepModel::Apply { entry, .. } => DiskStep::Entry { entry: entry as int },
        StepModel::Remove { base } => DiskStep::Release { base },
    }
}

/// The removals before anything is patched.
pub open spec fn early_steps(plan: PatchPlan) -> Seq<DiskStep> {
    let paths = steps::early_deletes(plan, plan.delete_paths@.len() as int);
    Seq::new(paths.len(), |i: int| DiskStep::Early { path: paths[i] })
}

/// The entries, and the removals between them.
pub open spec fn entry_steps(plan: PatchPlan, order: Seq<usize>) -> Seq<DiskStep> {
    let list = run::steps_for(plan, order, order.len() as int);
    Seq::new(list.len(), |i: int| entry_step(list[i]))
}

/// The removals after everything has been patched, for a plan that deletes none
/// of its outputs.
pub open spec fn delete_steps(plan: PatchPlan) -> Seq<DiskStep> {
    Seq::new(
        plan.delete_paths@.len(),
        |i: int| DiskStep::Delete { path: plan.physical(plan.delete_paths@[i]@) },
    )
}

/// The steps of a patch from its start to its end.
pub open spec fn patch_steps(
    plan: PatchPlan,
    order: Seq<usize>,
    commits: Seq<CommitModel>,
) -> Seq<DiskStep> {
    Seq::new(
        commits.len(),
        |i: int| DiskStep::Commit { source: commits[i].source, target: commits[i].target },
    ) + early_steps(plan) + entry_steps(plan, order) + delete_steps(plan) + Seq::new(
        plan.deferred_paths@.len(),
        |i: int| DiskStep::Deferred { index: i },
    )
}

/// Whether a path is the payload of an entry.
pub open spec fn is_payload(plan: PatchPlan, path: PathModel) -> bool {
    exists|i: int| 0 <= i < plan.entries@.len() && payload_of(plan, i) == Some(path)
}

/// The payload of an entry.
pub open spec fn payload_of(plan: PatchPlan, i: int) -> Option<PathModel> {
    match plan.entries@[i].source {
        PlannedPatchSource::AlreadyPresent => None,
        PlannedPatchSource::Local { payload } => Some(apply::payload_path(plan, payload@)),
        PlannedPatchSource::Hdiff { payload, .. } => Some(apply::payload_path(plan, payload@)),
    }
}

/// Whether a path is one from which a staged file is put in place.
pub open spec fn is_staged(commits: Seq<CommitModel>, path: PathModel) -> bool {
    exists|i: int| 0 <= i < commits.len() && (#[trigger] commits[i]).source == path
}

/// Whether a path is one where a file waits for the end.
pub open spec fn is_waiting_place(plan: PatchPlan, path: PathModel) -> bool {
    exists|i: int|
        0 <= i < plan.deferred_paths@.len() && (#[trigger] steps::deferred_move(plan, i)).0 == path
}

/// Whether a path is one that the plan removes.
pub open spec fn is_removed(plan: PatchPlan, path: PathModel) -> bool {
    steps::freed(plan, path) || exists|i: int|
        0 <= i < plan.delete_paths@.len() && plan.physical((#[trigger] plan.delete_paths@[i])@)
            == path
}

/// Whether a file in its place stays there: no step takes it for a staged file,
/// a waiting file or a payload, and none removes it.
pub open spec fn is_kept(plan: PatchPlan, commits: Seq<CommitModel>, path: PathModel) -> bool {
    !is_payload(plan, path) && !is_staged(commits, path) && !is_waiting_place(plan, path)
        && !is_removed(plan, path)
}

/// Whether what a patch puts in place stays in place, and no staged file is put
/// where another one is staged.
pub open spec fn is_settled_plan(plan: PatchPlan, commits: Seq<CommitModel>) -> bool {
    &&& steps::contradiction(plan, 0) is None
    &&& waves::order_fault(plan) is None
    &&& forall|i: int|
        0 <= i < plan.entries@.len() ==> is_kept(
            plan,
            commits,
            (#[trigger] plan.entries@[i]).destination@,
        )
    &&& forall|i: int|
        0 <= i < plan.deferred_paths@.len() ==> is_kept(
            plan,
            commits,
            (#[trigger] steps::deferred_move(plan, i)).1,
        ) && !plan.has_destination(steps::deferred_move(plan, i).1)
    &&& forall|i: int|
        0 <= i < commits.len() ==> !is_staged(commits, (#[trigger] commits[i]).target)
}

/// Whether a step has nothing left to do.
pub open spec fn is_done(plan: PatchPlan, step: DiskStep, disk: Disk) -> bool {
    match step {
        DiskStep::Commit { source, .. } => !disk.contains_key(source),
        DiskStep::Early { path } => !disk.contains_key(path),
        DiskStep::Entry { entry } => is_right(disk, plan.entries@[entry]),
        DiskStep::Release { base } => !disk.contains_key(base),
        DiskStep::Delete { path } => !disk.contains_key(path),
        DiskStep::Deferred { index } => {
            let (source, target) = steps::deferred_move(plan, index);
            !disk.contains_key(source) && disk.contains_key(target)
        },
    }
}

/// When in a patch a step comes.
spec fn phase(step: DiskStep) -> int {
    match step {
        DiskStep::Commit { .. } => 0,
        DiskStep::Early { .. } => 1,
        DiskStep::Entry { .. } => 2,
        DiskStep::Release { .. } => 2,
        DiskStep::Delete { .. } => 3,
        DiskStep::Deferred { .. } => 4,
    }
}

/// Whether a step is one of a plan.
spec fn belongs(plan: PatchPlan, commits: Seq<CommitModel>, step: DiskStep) -> bool {
    match step {
        DiskStep::Commit { source, target } => is_staged(commits, source) && !is_staged(
            commits,
            target,
        ),
        DiskStep::Early { path } => is_removed(plan, path) && !plan.has_destination(path),
        DiskStep::Entry { entry } => 0 <= entry < plan.entries@.len(),
        DiskStep::Release { base } => is_removed(plan, base),
        DiskStep::Delete { path } => is_removed(plan, path),
        DiskStep::Deferred { index } => 0 <= index < plan.deferred_paths@.len(),
    }
}

/// A file that is as its entry promises needs nothing: neither payload nor base
/// is looked at, and nothing changes.
pub proof fn law_right_files_are_left_alone(plan: PatchPlan, entry: PlannedPatchEntry, disk: Disk)
    requires
        is_right(disk, entry),
    ensures
        after_entry(plan, entry, disk) == Some(disk),
{
}

/// An entry begins as it is modelled: where nothing is to be done the disk stays as
/// it is, and where nothing can be done the entry fails.
pub proof fn law_entries_begin_as_modelled(
    plan: PatchPlan,
    entry: PlannedPatchEntry,
    disk: Disk,
    action: EntryAction,
)
    requires
        apply::begins(plan, entry, is_right(disk, entry), action),
    ensures
        action is Finished ==> after_entry(plan, entry, disk) == Some(disk),
        action is Fail ==> after_entry(plan, entry, disk) is None,
{
}

/// An entry whose payload is its file ends as it is modelled: the payload takes
/// its place, or the entry fails.
pub proof fn law_local_entries_end_as_modelled(
    plan: PatchPlan,
    entry: PlannedPatchEntry,
    disk: Disk,
    source: FilePath,
    issue: Option<IssueKind>,
    action: EntryAction,
)
    requires
        apply::begins(plan, entry, is_right(disk, entry), EntryAction::InspectLocal { source }),
        disk.contains_key(source@) ==> (issue is None <==> disk[source@] == promised(entry)),
        apply::follows_local(entry, source@, disk.contains_key(source@), issue, action),
    ensures
        after_entry(plan, entry, disk) == (match action {
            EntryAction::MoveLocal { source: from, target } => Some(moved(disk, from@, target@)),
            _ => None,
        }),
{
}

/// An entry that is patched from a file ends as it is modelled: the difference is
/// applied and its payload goes, or the entry fails.
pub proof fn law_patched_entries_end_as_modelled(
    plan: PatchPlan,
    entry: PlannedPatchEntry,
    disk: Disk,
    base: FilePath,
    base_md5: String,
    base_size: u64,
    payload: FilePath,
    issue: Option<IssueKind>,
    action: EntryAction,
)
    requires
        apply::begins(
            plan,
            entry,
            is_right(disk, entry),
            EntryAction::InspectBase { base, base_md5, base_size, payload },
        ),
        issue is None <==> has_mark(disk, base@, base_md5@, base_size),
        apply::follows_base(
            entry,
            base@,
            payload@,
            issue,
            disk.contains_key(payload@),
            action,
        ),
    ensures
        after_entry(plan, entry, disk) == (match action {
            EntryAction::ApplyDifference { payload: with, target, .. } => Some(
                disk.insert(target@, promised(entry)).remove(with@),
            ),
            _ => None,
        }),
{
}

/// Whether a file is there, with a digest and a size.
pub open spec fn has_mark(disk: Disk, path: PathModel, md5: Seq<char>, size: u64) -> bool {
    disk.contains_key(path) && disk[path] == (FileMark { md5: text::lowered(md5), size })
}

/// A step that has been done does nothing when it is taken again.
proof fn lemma_done_is_idle(plan: PatchPlan, step: DiskStep, disk: Disk)
    requires
        is_done(plan, step, disk),
    ensures
        after_step(plan, step, disk) == Some(disk),
{
    match step {
        DiskStep::Early { path } => {
            assert(disk.remove(path) =~= disk);
        },
        DiskStep::Release { base } => {
            assert(disk.remove(base) =~= disk);
        },
        DiskStep::Delete { path } => {
            assert(disk.remove(path) =~= disk);
        },
        _ => {},
    }
}

proof fn lemma_payload(plan: PatchPlan, i: int)
    requires
        0 <= i < plan.entries@.len(),
    ensures
        payload_of(plan, i) matches Some(path) ==> is_payload(plan, path),
{
    if let Some(path) = payload_of(plan, i) {
        assert(payload_of(plan, i) == Some(path));
    }
}

/// A step that has been taken has been done.
proof fn lemma_taken_is_done(
    plan: PatchPlan,
    commits: Seq<CommitModel>,
    step: DiskStep,
    before: Disk,
    after: Disk,
)
    requires
        is_settled_plan(plan, commits),
        belongs(plan, commits, step),
        after_step(plan, step, before) == Some(after),
    ensures
        is_done(plan, step, after),
{
    match step {
        DiskStep::Entry { entry } => {
            lemma_payload(plan, entry);
            assert(is_kept(plan, commits, plan.entries@[entry].destination@));
        },
        DiskStep::Deferred { index } => {
            let (source, target) = steps::deferred_move(plan, index);
            assert(is_waiting_place(plan, source));
            assert(is_kept(plan, commits, target));
        },
        _ => {},
    }
}

/// What has been done stays done in the steps that follow.
proof fn lemma_done_stays(
    plan: PatchPlan,
    commits: Seq<CommitModel>,
    done: DiskStep,
    step: DiskStep,
    before: Disk,
    after: Disk,
)
    requires
        is_settled_plan(plan, commits),
        belongs(plan, commits, done),
        belongs(plan, commits, step),
        phase(done) <= phase(step),
        done is Entry && step is Entry ==> done->entry != step->entry,
        is_done(plan, done, before),
        after_step(plan, step, before) == Some(after),
    ensures
        is_done(plan, done, after),
{
    match step {
        DiskStep::Entry { entry } => {
            lemma_payload(plan, entry);
            let written = plan.entries@[entry].destination@;
            assert(is_kept(plan, commits, written));
            assert(plan.has_destination(written));
            if let DiskStep::Entry { entry: other } = done {
                let kept = plan.entries@[other].destination@;
                assert(is_kept(plan, commits, kept));
                assert(plan::alias(plan, entry, written));
                assert(plan::alias(plan, other, kept));
                if written == kept {
                    waves::lemma_one_writer(plan, entry, other, written);
                }
            }
        },
        DiskStep::Deferred { index } => {
            let (source, target) = steps::deferred_move(plan, index);
            assert(is_waiting_place(plan, source));
            assert(is_kept(plan, commits, target));
            if let DiskStep::Entry { entry: other } = done {
                let kept = plan.entries@[other].destination@;
                assert(is_kept(plan, commits, kept));
                assert(plan.has_destination(kept));
            }
            if let DiskStep::Deferred { index: other } = done {
                let (from, kept) = steps::deferred_move(plan, other);
                assert(is_waiting_place(plan, from));
                assert(is_kept(plan, commits, kept));
            }
        },
        _ => {
            if let DiskStep::Entry { entry: other } = done {
                assert(is_kept(plan, commits, plan.entries@[other].destination@));
            }
        },
    }
}

/// Whether a list is made up like the steps of a patch.
spec fn is_made_up(plan: PatchPlan, commits: Seq<CommitModel>, list: Seq<DiskStep>) -> bool {
    &&& forall|s: int| 0 <= s < list.len() ==> belongs(plan, commits, #[trigger] list[s])
    &&& forall|s: int, t: int|
        0 <= s < t < list.len() ==> phase(#[trigger] list[s]) <= phase(#[trigger] list[t]) && (
        list[s] is Entry && list[t] is Entry ==> list[s]->entry != list[t]->entry)
}

proof fn lemma_step_entries(plan: PatchPlan, order: Seq<usize>, k: int)
    requires
        0 <= k <= order.len(),
        forall|t: int, u: int|
            0 <= t < order.len() && 0 <= u < order.len() && #[trigger] order[t] == #[trigger] order[u]
                ==> t == u,
    ensures
        ({
            let list = run::steps_for(plan, order, k);
            &&& forall|s: int|
                0 <= s < list.len() && list[s] is Apply ==> exists|t: int|
                    0 <= t < k && order[t] == (#[trigger] list[s])->entry
            &&& forall|s: int|
                0 <= s < list.len() && list[s] is Remove ==> steps::freed(
                    plan,
                    (#[trigger] list[s])->base,
                )
            &&& forall|s: int, t: int|
                0 <= s < t < list.len() && list[s] is Apply && list[t] is Apply ==> (
                #[trigger] list[s])->entry != (#[trigger] list[t])->entry
        }),
    decreases k,
{
    if k > 0 {
        lemma_step_entries(plan, order, k - 1);
        let before = run::steps_for(plan, order, k - 1);
        let list = run::steps_for(plan, order, k);
        let new = before.len() as int;
        assert(list[new] == (StepModel::Apply { entry: order[k - 1], finished: k }));
        assert forall|s: int| 0 <= s < list.len() && list[s] is Apply implies exists|t: int|
            0 <= t < k && order[t] == (#[trigger] list[s])->entry by {
            if s < new {
                assert(list[s] == before[s]);
                let t = choose|t: int| 0 <= t < k - 1 && order[t] == before[s]->entry;
                assert(order[t] == list[s]->entry);
            } else {
                assert(s == new);
                assert(order[k - 1] == list[s]->entry);
            }
        }
        assert forall|s: int| 0 <= s < list.len() && list[s] is Remove implies steps::freed(
            plan,
            (#[trigger] list[s])->base,
        ) by {
            if s < new {
                assert(list[s] == before[s]);
            }
        }
        assert forall|s: int, t: int|
            0 <= s < t < list.len() && list[s] is Apply && list[t] is Apply implies (
        #[trigger] list[s])->entry != (#[trigger] list[t])->entry by {
            assert(list[s] == before[s]);
            if t < new {
                assert(list[t] == before[t]);
            } else {
                assert(t == new);
                let u = choose|u: int| 0 <= u < k - 1 && order[u] == before[s]->entry;
                assert(order[u] != order[k - 1]);
            }
        }
    }
}

proof fn lemma_early(plan: PatchPlan, k: int, i: int)
    requires
        0 <= k <= plan.delete_paths@.len(),
        0 <= i < steps::early_deletes(plan, k).len(),
    ensures
        is_removed(plan, steps::early_deletes(plan, k)[i]),
        !plan.has_destination(steps::early_deletes(plan, k)[i]),
    decreases k,
{
    if k > 0 {
        let before = steps::early_deletes(plan, k - 1);
        if i < before.len() {
            lemma_early(plan, k - 1, i);
        } else {
            assert(plan.physical(plan.delete_paths@[k - 1]@) == steps::early_deletes(plan, k)[i]);
        }
    }
}

proof fn lemma_made_up(plan: PatchPlan, order: Seq<usize>, commits: Seq<CommitModel>)
    requires
        is_settled_plan(plan, commits),
        schedule::is_order(plan, order),
    ensures
        is_made_up(plan, commits, patch_steps(plan, order, commits)),
{
    let list = patch_steps(plan, order, commits);
    let entries = run::steps_for(plan, order, order.len() as int);
    let early = steps::early_deletes(plan, plan.delete_paths@.len() as int);
    let a = commits.len() as int;
    let b = a + early.len();
    let c = b + entries.len();
    let d = c + plan.delete_paths@.len();
    schedule::lemma_order_is_in_range(&plan, order);
    if plan.entries@.len() > 0 {
        schedule::law_order_names_every_entry_once(plan, order, 0);
    } else {
        if order.len() > 0 {
            assert(order[0] < plan.entries@.len());
        }
    }
    lemma_step_entries(plan, order, order.len() as int);
    assert forall|s: int| 0 <= s < list.len() implies #[trigger] at_place(
        plan,
        order,
        commits,
        list,
        s,
    ) by {
        if s >= d {
            assert(list[s] == (DiskStep::Deferred { index: s - d }));
        } else if s >= c {
            assert(list[s] == delete_steps(plan)[s - c]);
        } else if s >= b {
            assert(list[s] == entry_steps(plan, order)[s - b]);
        } else if s >= a {
            assert(list[s] == early_steps(plan)[s - a]);
        } else {
            assert(list[s] == (DiskStep::Commit {
                source: commits[s].source,
                target: commits[s].target,
            }));
        }
    }
    assert forall|s: int| 0 <= s < list.len() implies belongs(
        plan,
        commits,
        #[trigger] list[s],
    ) by {
        assert(at_place(plan, order, commits, list, s));
        if s >= d {
        } else if s >= c {
            assert(plan.physical(plan.delete_paths@[s - c]@) == list[s]->Delete_path);
        } else if s >= b {
            let step = entries[s - b];
            if step is Apply {
                let t = choose|t: int| 0 <= t < order.len() && order[t] == step->entry;
                assert(order[t] < plan.entries@.len());
            }
        } else if s >= a {
            lemma_early(plan, plan.delete_paths@.len() as int, s - a);
        } else {
            assert(commits[s].source == list[s]->source);
            assert(!is_staged(commits, commits[s].target));
        }
    }
    assert forall|s: int, t: int| 0 <= s < t < list.len() implies phase(#[trigger] list[s])
        <= phase(#[trigger] list[t]) && (list[s] is Entry && list[t] is Entry ==> list[s]->entry
        != list[t]->entry) by {
        assert(at_place(plan, order, commits, list, s));
        assert(at_place(plan, order, commits, list, t));
        if b <= s && t < c {
            assert(entries[s - b] is Apply && entries[t - b] is Apply ==> entries[s - b]->entry
                != entries[t - b]->entry);
        }
    }
}

/// The step at a place of the list.
spec fn at_place(
    plan: PatchPlan,
    order: Seq<usize>,
    commits: Seq<CommitModel>,
    list: Seq<DiskStep>,
    s: int,
) -> bool {
    let entries = run::steps_for(plan, order, order.len() as int);
    let early = steps::early_deletes(plan, plan.delete_paths@.len() as int);
    let a = commits.len() as int;
    let b = a + early.len();
    let c = b + entries.len();
    let d = c + plan.delete_paths@.len();
    if s >= d {
        s < d + plan.deferred_paths@.len() && list[s] == (DiskStep::Deferred { index: s - d })
    } else if s >= c {
        list[s] == (DiskStep::Delete { path: plan.physical(plan.delete_paths@[s - c]@) })
    } else if s >= b {
        list[s] == entry_step(entries[s - b])
    } else if s >= a {
        list[s] == (DiskStep::Early { path: early[s - a] })
    } else {
        list[s] == (DiskStep::Commit { source: commits[s].source, target: commits[s].target })
    }
}

/// After some steps, each of them has been done.
proof fn lemma_all_done(
    plan: PatchPlan,
    commits: Seq<CommitModel>,
    list: Seq<DiskStep>,
    disk: Disk,
    k: int,
    s: int,
)
    requires
        is_settled_plan(plan, commits),
        is_made_up(plan, commits, list),
        0 <= s < k <= list.len(),
        after_steps(plan, list, disk, k) is Some,
    ensures
        is_done(plan, list[s], after_steps(plan, list, disk, k)->0),
    decreases k,
{
    let before = after_steps(plan, list, disk, k - 1)->0;
    let after = after_steps(plan, list, disk, k)->0;
    if s == k - 1 {
        lemma_taken_is_done(plan, commits, list[s], before, after);
    } else {
        lemma_all_done(plan, commits, list, disk, k - 1, s);
        lemma_done_stays(plan, commits, list[s], list[k - 1], before, after);
    }
}

/// Taking the steps again does nothing as long as they have been done.
proof fn lemma_replay(
    plan: PatchPlan,
    list: Seq<DiskStep>,
    disk: Disk,
    k: int,
)
    requires
        0 <= k <= list.len(),
        forall|s: int| 0 <= s < k ==> is_done(plan, #[trigger] list[s], disk),
    ensures
        after_steps(plan, list, disk, k) == Some(disk),
    decreases k,
{
    if k > 0 {
        lemma_replay(plan, list, disk, k - 1);
        lemma_done_is_idle(plan, list[k - 1], disk);
    }
}

proof fn lemma_goes_on(
    plan: PatchPlan,
    list: Seq<DiskStep>,
    disk: Disk,
    mid: Disk,
    j: int,
    k: int,
)
    requires
        0 <= j <= k <= list.len(),
        after_steps(plan, list, disk, j) == Some(mid),
        after_steps(plan, list, mid, j) == Some(mid),
    ensures
        after_steps(plan, list, mid, k) == after_steps(plan, list, disk, k),
    decreases k - j,
{
    if j < k {
        lemma_goes_on(plan, list, disk, mid, j, k - 1);
    }
}

/// A patch that is interrupted after any number of steps and started again from
/// the beginning leaves on disk what it leaves when it runs through.
pub proof fn law_resuming_ends_as_one_run(
    plan: PatchPlan,
    order: Seq<usize>,
    commits: Seq<CommitModel>,
    disk: Disk,
    interrupted: Disk,
    j: int,
)
    requires
        is_settled_plan(plan, commits),
        schedule::is_order(plan, order),
        0 <= j <= patch_steps(plan, order, commits).len(),
        after_steps(plan, patch_steps(plan, order, commits), disk, j) == Some(interrupted),
    ensures
        ({
            let list = patch_steps(plan, order, commits);
            after_steps(plan, list, interrupted, list.len() as int) == after_steps(
                plan,
                list,
                disk,
                list.len() as int,
            )
        }),
{
    let list = patch_steps(plan, order, commits);
    lemma_made_up(plan, order, commits);
    assert forall|s: int| 0 <= s < j implies is_done(plan, #[trigger] list[s], interrupted) by {
        lemma_all_done(plan, commits, list, disk, j, s);
    }
    lemma_replay(plan, list, interrupted, j);
    lemma_goes_on(plan, list, disk, interrupted, j, list.len() as int);
}

/// The order in which the entries of a plan are applied is the same in every
/// run.
pub proof fn law_order_is_determined(plan: PatchPlan, left: Seq<usize>, right: Seq<usize>)
    requires
        schedule::is_order(plan, left),
        schedule::is_order(plan, right),
    ensures
        left == right,
{
    let a = choose|lists: Seq<Vec<usize>>| #[trigger]
        waves::are_waves(plan, lists) && left == waves::flattened(lists);
    let b = choose|lists: Seq<Vec<usize>>| #[trigger]
        waves::are_waves(plan, lists) && right == waves::flattened(lists);
    waves::law_waves_are_determined(plan, a, b);
    assert forall|k: int| 0 <= k < a.len() implies (#[trigger] a[k])@ == b[k]@ by {
        assert(waves::is_wave(plan, k as nat, a[k]@));
        assert(waves::is_wave(plan, k as nat, b[k]@));
        assert forall|i: usize| a[k]@.contains(i) <==> b[k]@.contains(i) by {}
        lemma_rising_lists(a[k]@, b[k]@);
    }
    lemma_same_flattened(a, b);
}

/// Two runs of one plan take the same steps and report them with the same paths
/// and the same numbers, whether a run is the first or takes the patch up again.
pub proof fn law_runs_report_the_same(
    plan: PatchPlan,
    left: Seq<RunStep>,
    right: Seq<RunStep>,
    first: Seq<StepReport>,
    second: Seq<StepReport>,
)
    requires
        run::is_run(plan, left),
        run::is_run(plan, right),
        event::are_step_reports(
            first,
            ""@,
            run::applied_paths(plan, run::step_models(left), left.len() as int),
        ),
        event::are_step_reports(
            second,
            ""@,
            run::applied_paths(plan, run::step_models(right), right.len() as int),
        ),
    ensures
        run::step_models(left) == run::step_models(right),
        same_reports(first, second),
{
    let a = choose|order: Seq<usize>| #[trigger]
        schedule::is_order(plan, order) && run::step_models(left) == run::steps_for(
            plan,
            order,
            order.len() as int,
        );
    let b = choose|order: Seq<usize>| #[trigger]
        schedule::is_order(plan, order) && run::step_models(right) == run::steps_for(
            plan,
            order,
            order.len() as int,
        );
    law_order_is_determined(plan, a, b);
    assert(run::step_models(left).len() == left.len());
    assert(run::step_models(right).len() == right.len());
    lemma_same_reports(
        ""@,
        run::applied_paths(plan, run::step_models(left), left.len() as int),
        first,
        second,
    );
}

/// Two runs of one plan end with the same deletes and report them with the same
/// paths and the same numbers.
pub proof fn law_deletes_report_the_same(
    plan: PatchPlan,
    left: Seq<DeleteStep>,
    right: Seq<DeleteStep>,
    first: Seq<StepReport>,
    second: Seq<StepReport>,
)
    requires
        steps::are_remaining_deletes(plan, left),
        steps::are_remaining_deletes(plan, right),
        event::are_step_reports(first, "."@, deleted_paths(left)),
        event::are_step_reports(second, "."@, deleted_paths(right)),
    ensures
        left.len() == right.len(),
        forall|i: int|
            0 <= i < left.len() ==> (#[trigger] left[i]).relative@ == right[i].relative@
                && removed(left[i]) == removed(right[i]),
        same_reports(first, second),
{
    assert forall|i: int| 0 <= i < left.len() implies (#[trigger] left[i]).relative@
        == right[i].relative@ && removed(left[i]) == removed(right[i]) by {
        assert(steps::is_remaining_delete(plan, i, left[i]));
        assert(steps::is_remaining_delete(plan, i, right[i]));
    }
    assert(deleted_paths(left) =~= deleted_paths(right));
    lemma_same_reports("."@, deleted_paths(left), first, second);
}

/// The paths that deletes are reported with.
pub open spec fn deleted_paths(list: Seq<DeleteStep>) -> Seq<Seq<char>> {
    Seq::new(list.len(), |i: int| list[i].relative@.text())
}

/// What a delete removes.
pub open spec fn removed(step: DeleteStep) -> Option<PathModel> {
    match step.remove {
        Some(path) => Some(path@),
        None => None,
    }
}

/// Whether two lists of reports say the same.
pub open spec fn same_reports(first: Seq<StepReport>, second: Seq<StepReport>) -> bool {
    &&& first.len() == second.len()
    &&& forall|i: int|
        0 <= i < first.len() ==> (#[trigger] first[i]).path@ == second[i].path@
            && first[i].finished == second[i].finished && first[i].total == second[i].total
}

proof fn lemma_same_reports(
    lead: Seq<char>,
    paths: Seq<Seq<char>>,
    first: Seq<StepReport>,
    second: Seq<StepReport>,
)
    requires
        event::are_step_reports(first, lead, paths),
        event::are_step_reports(second, lead, paths),
    ensures
        same_reports(first, second),
{
    assert forall|i: int| 0 <= i < first.len() implies (#[trigger] first[i]).path@
        == second[i].path@ && first[i].finished == second[i].finished && first[i].total
        == second[i].total by {
        if i > 0 {
            assert(second[i].path@ == paths[i - 1]);
        }
    }
}

proof fn lemma_same_flattened(a: Seq<Vec<usize>>, b: Seq<Vec<usize>>)
    requires
        a.len() == b.len(),
        forall|k: int| 0 <= k < a.len() ==> (#[trigger] a[k])@ == b[k]@,
    ensures
        waves::flattened(a) == waves::flattened(b),
    decreases a.len(),
{
    if a.len() > 0 {
        lemma_same_flattened(a.drop_last(), b.drop_last());
        assert(a[a.len() - 1]@ == b[a.len() - 1]@);
    }
}

/// Two rising lists with the same members are the same.
proof fn lemma_rising_lists(a: Seq<usize>, b: Seq<usize>)
    requires
        forall|i: int, j: int| 0 <= i < j < a.len() ==> a[i] < a[j],
        forall|i: int, j: int| 0 <= i < j < b.len() ==> b[i] < b[j],
        forall|x: usize| a.contains(x) <==> b.contains(x),
    ensures
        a == b,
    decreases a.len(),
{
    if a.len() == 0 {
        if b.len() > 0 {
            assert(b.contains(b[0]));
        }
        assert(a =~= b);
    } else {
        assert(a.contains(a.last()));
        let k = choose|k: int| 0 <= k < b.len() && b[k] == a.last();
        assert(b.contains(b.last()));
        let l = choose|l: int| 0 <= l < a.len() && a[l] == b.last();
        assert(a.last() == b.last());
        let c = a.drop_last();
        let d = b.drop_last();
        assert forall|x: usize| c.contains(x) <==> d.contains(x) by {
            if c.contains(x) {
                let i = choose|i: int| 0 <= i < c.len() && c[i] == x;
                assert(a[i] == x && a[i] < a.last());
                assert(a.contains(x));
                let j = choose|j: int| 0 <= j < b.len() && b[j] == x;
                assert(d[j] == x);
            }
            if d.contains(x) {
                let i = choose|i: int| 0 <= i < d.len() && d[i] == x;
                assert(b[i] == x && b[i] < b.last());
                assert(b.contains(x));
                let j = choose|j: int| 0 <= j < a.len() && a[j] == x;
                assert(c[j] == x);
            }
        }
        lemma_rising_lists(c, d);
        assert(a =~= c.push(a.last()));
        assert(b =~= d.push(b.last()));
    }
}

} // verus!
