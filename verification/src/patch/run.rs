//! Applying a patch step by step, without a graph.

use crate::error::Message;
use crate::patch::plan::{PatchPlan, PlannedPatchSource};
use crate::patch::schedule;
use crate::patch::steps;
use crate::patch::steps::BaseUses;
use crate::patch::waves;
use crate::path;
use crate::path::{FilePath, PathModel};
use crate::text;
use vstd::prelude::*;

verus! {

/// A step between the preparation of a patch and its deletes.
pub enum RunStep {
    /// Apply an entry. So many are applied then.
    Apply { entry: usize, finished: usize },
    /// Remove a file that no entry is patched from any longer.
    Remove { base: FilePath },
}

/// A step, as it is told apart from others.
pub enum StepModel {
    Apply { entry: usize, finished: int },
    Remove { base: PathModel },
}

impl View for RunStep {
    type V = StepModel;

    open spec fn view(&self) -> StepModel {
        match self {
            RunStep::Apply { entry, finished } => StepModel::Apply {
                entry: *entry,
                finished: *finished as int,
            },
            RunStep::Remove { base } => StepModel::Remove { base: base@ },
        }
    }
}

/// The steps of a list.
pub open spec fn step_models(list: Seq<RunStep>) -> Seq<StepModel> {
    Seq::new(list.len(), |i: int| list[i]@)
}

/// How many entries from the `k`th of an order on are patched from a file.
pub open spec fn later_uses(plan: PatchPlan, order: Seq<usize>, k: int, base: PathModel) -> int
    decreases order.len() - k,
{
    if k >= order.len() {
        0
    } else if plan.base(order[k] as int) == Some(base) {
        1 + later_uses(plan, order, k + 1, base)
    } else {
        later_uses(plan, order, k + 1, base)
    }
}

/// The steps for the first `k` entries of an order: an entry that was the last
/// to be patched from a file is followed by the removal of the file, where the
/// plan deletes it and brings it not up to date.
pub open spec fn steps_for(plan: PatchPlan, order: Seq<usize>, k: int) -> Seq<StepModel>
    decreases k,
{
    if k <= 0 {
        Seq::empty()
    } else {
        let applied = steps_for(plan, order, k - 1).push(
            StepModel::Apply { entry: order[k - 1], finished: k },
        );
        match plan.base(order[k - 1] as int) {
            Some(base) => if later_uses(plan, order, k, base) == 0 && steps::freed(plan, base) {
                applied.push(StepModel::Remove { base })
            } else {
                applied
            },
            None => applied,
        }
    }
}

proof fn lemma_later_uses(plan: &PatchPlan, order: Seq<usize>, k: int, base: PathModel)
    requires
        0 <= k <= order.len(),
    ensures
        0 <= later_uses(*plan, order, k, base) <= order.len() - k,
    decreases order.len() - k,
{
    if k < order.len() {
        lemma_later_uses(plan, order, k + 1, base);
    }
}

proof fn lemma_earlier_uses(plan: &PatchPlan, order: Seq<usize>, i: int, k: int, base: PathModel)
    requires
        0 <= i <= k <= order.len(),
    ensures
        later_uses(*plan, order, k, base) <= later_uses(*plan, order, i, base),
    decreases k - i,
{
    if i < k {
        lemma_earlier_uses(plan, order, i + 1, k, base);
    }
}

/// Whether what is counted is how often each file is needed from the `k`th entry
/// of an order on.
spec fn counted(uses: BaseUses, plan: PatchPlan, order: Seq<usize>, from: int, k: int) -> bool {
    forall|base: PathModel| #[trigger]
        uses.uses(base) == (if later_uses(plan, order, from, base) > 0 {
            Some(later_uses(plan, order, k, base))
        } else {
            None
        })
}

fn count_uses(plan: &PatchPlan, order: &Vec<usize>) -> (uses: BaseUses)
    requires
        forall|t: int| 0 <= t < order@.len() ==> #[trigger] order@[t] < plan.entries@.len(),
    ensures
        uses.inv(),
        counted(uses, *plan, order@, 0, 0),
{
    let mut uses = BaseUses::new();
    let total: usize = order.len();
    let mut k: usize = total;
    while k > 0
        invariant
            k <= total == order@.len(),
            forall|t: int| 0 <= t < order@.len() ==> #[trigger] order@[t] < plan.entries@.len(),
            uses.inv(),
            counted(uses, *plan, order@, k as int, k as int),
        decreases k,
    {
        let ghost before = uses;
        let entry = order[k - 1];
        if let PlannedPatchSource::Hdiff { base, .. } = &plan.entries[entry].source {
            uses.add_use(base);
        }
        k = k - 1;
        assert forall|other: PathModel| #[trigger]
            uses.uses(other) == (if later_uses(*plan, order@, k as int, other) > 0 {
                Some(later_uses(*plan, order@, k as int, other))
            } else {
                None
            }) by {
            lemma_later_uses(plan, order@, k + 1, other);
            assert(before.uses(other) == before.uses(other));
        }
    }
    uses
}

/// Whether a list holds the steps of a plan between its preparation and its
/// deletes, in an order in which its entries are applied.
pub open spec fn is_run(plan: PatchPlan, list: Seq<RunStep>) -> bool {
    exists|order: Seq<usize>| #[trigger]
        schedule::is_order(plan, order) && step_models(list) == steps_for(
            plan,
            order,
            order.len() as int,
        )
}

/// The steps between the preparation of a patch and its deletes, one after the
/// other.
pub fn run_steps(plan: &PatchPlan) -> (result: Result<Vec<RunStep>, Message>)
    ensures
        match result {
            Ok(steps) => waves::order_fault(*plan) is None && is_run(*plan, steps@),
            Err(message) => message.context@ == "VFS error: "@ && waves::order_fault(*plan) == Some(
                message.detail@,
            ),
        },
{
    let order = match waves::ordered_entries(plan) {
        Ok(order) => order,
        Err(message) => {
            return Err(message);
        },
    };
    assert(schedule::is_order(*plan, order@));
    proof {
        schedule::lemma_order_is_in_range(plan, order@);
    }
    let mut remaining = count_uses(plan, &order);
    let mut list: Vec<RunStep> = Vec::new();
    let mut k: usize = 0;
    assert(step_models(list@) =~= steps_for(*plan, order@, 0));
    while k < order.len()
        invariant
            k <= order@.len(),
            schedule::is_order(*plan, order@),
            waves::order_fault(*plan) is None,
            forall|t: int| 0 <= t < order@.len() ==> #[trigger] order@[t] < plan.entries@.len(),
            remaining.inv(),
            counted(remaining, *plan, order@, 0, k as int),
            step_models(list@) == steps_for(*plan, order@, k as int),
        decreases order@.len() - k,
    {
        let ghost listed = list@;
        let ghost before = remaining;
        let entry = order[k];
        list.push(RunStep::Apply { entry, finished: k + 1 });
        assert(step_models(list@) =~= step_models(listed).push(
            StepModel::Apply { entry, finished: k + 1 },
        ));
        if let PlannedPatchSource::Hdiff { base, .. } = &plan.entries[entry].source {
            let ghost applied = list@;
            let remove = steps::release_base_if_unused(plan, base, &mut remaining);
            proof {
                lemma_later_uses(plan, order@, k + 1, base@);
                lemma_earlier_uses(plan, order@, 0, k as int, base@);
                assert(before.uses(base@) == Some(later_uses(*plan, order@, k as int, base@)));
                assert(remove == (later_uses(*plan, order@, k + 1, base@) == 0 && steps::freed(
                    *plan,
                    base@,
                )));
            }
            if remove {
                list.push(RunStep::Remove { base: base.copied() });
                assert(step_models(list@) =~= step_models(applied).push(
                    StepModel::Remove { base: base@ },
                ));
            }
        }
        k = k + 1;
        assert forall|other: PathModel| #[trigger]
            remaining.uses(other) == (if later_uses(*plan, order@, 0, other) > 0 {
                Some(later_uses(*plan, order@, k as int, other))
            } else {
                None
            }) by {
            assert(before.uses(other) == before.uses(other));
        }
    }
    Ok(list)
}

/// The path under which an entry is reported.
pub open spec fn entry_path(plan: PatchPlan, entry: int) -> Seq<char> {
    plan.vfs_base_path@.join(path::parsed(plan.entries@[entry].name@)).text()
}

/// The paths of the entries that the first `k` steps apply.
pub open spec fn applied_paths(plan: PatchPlan, list: Seq<StepModel>, k: int) -> Seq<Seq<char>>
    decreases k,
{
    if k <= 0 {
        Seq::empty()
    } else {
        let rest = applied_paths(plan, list, k - 1);
        match list[k - 1] {
            StepModel::Apply { entry, .. } => if entry < plan.entries@.len() {
                rest.push(entry_path(plan, entry as int))
            } else {
                rest
            },
            StepModel::Remove { .. } => rest,
        }
    }
}

/// The paths of the entries that a list of steps applies, in the order in which
/// it applies them.
pub fn step_paths(plan: &PatchPlan, list: &Vec<RunStep>) -> (paths: Vec<String>)
    ensures
        text::texts(paths@) == applied_paths(*plan, step_models(list@), list@.len() as int),
{
    let mut paths: Vec<String> = Vec::new();
    let ghost models = step_models(list@);
    let mut k: usize = 0;
    assert(text::texts(paths@) =~= applied_paths(*plan, models, 0));
    while k < list.len()
        invariant
            k <= list@.len(),
            models == step_models(list@),
            text::texts(paths@) == applied_paths(*plan, models, k as int),
        decreases list@.len() - k,
    {
        let ghost before = paths@;
        assert(models[k as int] == list@[k as int]@);
        if let RunStep::Apply { entry, .. } = &list[k] {
            if *entry < plan.entries.len() {
                let name = FilePath::parse(plan.entries[*entry].name.as_str());
                paths.push(plan.vfs_base_path.join(&name).text());
                assert(text::texts(paths@) =~= text::texts(before).push(
                    entry_path(*plan, *entry as int),
                ));
            }
        }
        k = k + 1;
    }
    paths
}

/// The plan that an interrupted patch goes on with. Without a plan there is
/// nothing to go on with; nor with a plan that deletes what it brings up to
/// date.
pub fn resumed_plan(kept: Result<PatchPlan, Message>) -> (result: Result<PatchPlan, Message>)
    ensures
        match (kept, result) {
            (Ok(plan), Ok(found)) => found == plan && steps::contradiction(plan, 0) is None,
            (Ok(plan), Err(message)) => steps::contradiction(plan, 0) is Some && message.context@
                == "VFS error: "@ && message.detail@ == "Patch plan deletes its own output "@
                + steps::contradiction(plan, 0)->0.text(),
            (Err(fault), Err(message)) => message == fault,
            (Err(_), Ok(_)) => false,
        },
{
    match kept {
        Ok(plan) => match plan.validate() {
            Ok(()) => Ok(plan),
            Err(message) => Err(message),
        },
        Err(fault) => Err(fault),
    }
}

/// A file is removed only after every entry that is patched from it.
pub proof fn law_bases_outlive_their_uses(plan: PatchPlan, order: Seq<usize>, k: int, s: int)
    requires
        0 <= k <= order.len(),
        0 <= s < steps_for(plan, order, k).len(),
        steps_for(plan, order, k)[s] is Remove,
    ensures
        steps::freed(plan, steps_for(plan, order, k)[s]->base),
        exists|done: int|
            0 < done <= k && later_uses(
                plan,
                order,
                done,
                steps_for(plan, order, k)[s]->base,
            ) == 0 && steps_for(plan, order, done).len() == s + 1,
    decreases k,
{
    let before = steps_for(plan, order, k - 1);
    let base = steps_for(plan, order, k)[s]->base;
    if s < before.len() {
        assert(before[s] == steps_for(plan, order, k)[s]);
        law_bases_outlive_their_uses(plan, order, k - 1, s);
        let done = choose|done: int|
            0 < done <= k - 1 && later_uses(plan, order, done, base) == 0 && steps_for(
                plan,
                order,
                done,
            ).len() == s + 1;
        assert(later_uses(plan, order, done, base) == 0);
    } else {
        assert(steps_for(plan, order, k).len() == s + 1);
        assert(later_uses(plan, order, k, base) == 0);
    }
}

} // verus!
