//! What a patch does to the files of an installation, and in what order.

use crate::graph::expansion::{LocalNode, TaskRun};
use crate::patch::manifest;
use crate::patch::plan;
use crate::patch::plan::{PatchPlan, PlannedPatchSource};
use crate::patch::run;
use crate::patch::run::StepModel;
use crate::patch::schedule;
use crate::patch::steps;
use crate::patch::steps::{CommitModel, DeleteStep};
use crate::patch::waves;
use crate::path;
use crate::path::{FilePath, PathModel};
use crate::path_safety;
use crate::task::{ArchiveWork, Task};
use crate::text;
use crate::text_laws;
use std::sync::Arc;
use vstd::prelude::*;

verus! {

/// Whether an entry of a plan makes its file out of another file.
pub open spec fn reads(plan: PatchPlan, i: int, file: PathModel) -> bool {
    0 <= i < plan.entries@.len() && (plan.entries@[i].source matches PlannedPatchSource::Hdiff {
        base,
        ..
    } && base@ == file)
}

/// Whether an entry of a plan writes a file, by the name of the file in the
/// installation or by that of the place it is kept at.
pub open spec fn writes(plan: PatchPlan, i: int, file: PathModel) -> bool {
    &&& 0 <= i < plan.entries@.len()
    &&& {
        ||| file == plan.entries@[i].destination@
        ||| file == plan.install_root@.join(plan.vfs_base_path@).join(
            path::parsed(plan.entries@[i].name@),
        )
    }
}

/// A file that one entry reads and another writes is read before it is written.
pub proof fn law_files_are_read_before_they_are_written(
    plan: PatchPlan,
    order: Seq<usize>,
    t: int,
    u: int,
    file: PathModel,
)
    requires
        schedule::is_order(plan, order),
        0 <= t < order.len(),
        0 <= u < order.len(),
        t != u,
        reads(plan, order[t] as int, file),
        writes(plan, order[u] as int, file),
    ensures
        t < u,
{
    schedule::law_order_names_every_entry_once(plan, order, order[t]);
    assert(waves::before(plan, order[t] as int, order[u] as int));
    schedule::law_order_keeps_bases(plan, order, t, u);
}

/// A plan in which two entries write the same file is refused.
pub proof fn law_two_writers_of_a_file_are_refused(plan: PatchPlan, i: int, j: int, file: PathModel)
    requires
        i < j,
        writes(plan, i, file),
        writes(plan, j, file),
    ensures
        waves::order_fault(plan) is Some,
{
    assert(plan::alias(plan, i, file));
    assert(waves::taken(plan, j, file));
    assert(waves::clash_at(plan, j) is Some);
    lemma_clash(plan, 0, j);
}

proof fn lemma_clash(plan: PatchPlan, from: int, j: int)
    requires
        0 <= from <= j < plan.entries@.len(),
        waves::clash_at(plan, j) is Some,
    ensures
        waves::clash_from(plan, from) is Some,
    decreases j - from,
{
    if from < j && waves::clash_at(plan, from) is None {
        lemma_clash(plan, from + 1, j);
    }
}

/// A plan in which each of some entries reads a file that the next one writes, and
/// the last one a file that the first writes, is refused: one of them would read
/// what was written already.
pub proof fn law_circles_of_entries_are_refused(
    plan: PatchPlan,
    circle: Seq<int>,
    files: Seq<PathModel>,
)
    requires
        circle.len() > 0,
        circle.len() == files.len(),
        forall|k: int|
            0 <= k < circle.len() ==> is_link(plan, circle, files, #[trigger] circle[k], k),
    ensures
        waves::order_fault(plan) is Some,
{
    let n = plan.entries@.len();
    assert(is_link(plan, circle, files, circle[0], 0));
    lemma_never_settled(plan, circle, files, n, 0);
    lemma_blocked(plan, n as int, circle[0]);
}

/// Whether an entry of a circle reads what the next one writes.
pub open spec fn is_link(
    plan: PatchPlan,
    circle: Seq<int>,
    files: Seq<PathModel>,
    entry: int,
    k: int,
) -> bool {
    let next = if k + 1 < circle.len() {
        circle[k + 1]
    } else {
        circle[0]
    };
    entry != next && reads(plan, entry, files[k]) && writes(plan, next, files[k])
}

proof fn lemma_never_settled(
    plan: PatchPlan,
    circle: Seq<int>,
    files: Seq<PathModel>,
    n: nat,
    j: int,
)
    requires
        circle.len() > 0,
        circle.len() == files.len(),
        forall|k: int|
            0 <= k < circle.len() ==> is_link(plan, circle, files, #[trigger] circle[k], k),
        0 <= j < circle.len(),
    ensures
        !waves::settled(plan, n, circle[j]),
    decreases n,
{
    if n > 0 {
        let p = if j > 0 {
            j - 1
        } else {
            circle.len() - 1
        };
        assert(is_link(plan, circle, files, circle[p], p));
        lemma_never_settled(plan, circle, files, (n - 1) as nat, p);
        assert(waves::before(plan, circle[p], circle[j]));
    }
}

proof fn lemma_blocked(plan: PatchPlan, m: int, i: int)
    requires
        0 <= i < m <= plan.entries@.len(),
        !waves::settled(plan, plan.entries@.len(), i),
    ensures
        waves::blocked_names(plan, m).len() > 0,
    decreases m,
{
    if i < m - 1 {
        lemma_blocked(plan, m - 1, i);
    }
}

/// What is deleted before a patch is applied: each file to delete that no entry reads
/// and none writes, and nothing else.
pub proof fn law_only_unneeded_files_are_deleted_early(plan: PatchPlan, file: PathModel)
    ensures
        steps::early_deletes(plan, plan.delete_paths@.len() as int).contains(file) <==> (exists|
            i: int,
        |
            0 <= i < plan.delete_paths@.len() && plan.physical(
                (#[trigger] plan.delete_paths@[i])@,
            ) == file) && (forall|k: int| !(#[trigger] reads(plan, k, file))) && (forall|k: int|
            0 <= k < plan.entries@.len() ==> (#[trigger] plan.entries@[k]).destination@ != file),
{
    lemma_early_deletes(plan, plan.delete_paths@.len() as int, file);
    if plan.has_base(file) {
        let k = choose|k: int| 0 <= k < plan.entries@.len() && #[trigger] plan.base(k) == Some(file);
        assert(reads(plan, k, file));
    }
    if exists|k: int| #[trigger] reads(plan, k, file) {
        let k = choose|k: int| #[trigger] reads(plan, k, file);
        assert(plan.base(k) == Some(file));
    }
}

proof fn lemma_early_deletes(plan: PatchPlan, n: int, file: PathModel)
    requires
        0 <= n <= plan.delete_paths@.len(),
    ensures
        steps::early_deletes(plan, n).contains(file) <==> (exists|i: int|
            0 <= i < n && plan.physical((#[trigger] plan.delete_paths@[i])@) == file)
            && !plan.has_base(file) && !plan.has_destination(file),
    decreases n,
{
    if n > 0 {
        lemma_early_deletes(plan, n - 1, file);
        let before = steps::early_deletes(plan, n - 1);
        let all = steps::early_deletes(plan, n);
        let last = plan.physical(plan.delete_paths@[n - 1]@);
        if before.contains(file) {
            let j = choose|j: int| 0 <= j < before.len() && before[j] == file;
            assert(all[j] == file);
        }
        if all.contains(file) && !before.contains(file) {
            let j = choose|j: int| 0 <= j < all.len() && all[j] == file;
            if j < before.len() {
                assert(before[j] == file);
            }
            assert(plan.physical(plan.delete_paths@[n - 1]@) == file);
        }
        if last == file && !plan.has_base(file) && !plan.has_destination(file) {
            assert(all.last() == file);
        }
    }
}

/// A file to delete is looked for where it is kept: below the place of the files that
/// are kept elsewhere if it is one of these, and else in the installation.
pub proof fn law_files_are_deleted_where_they_are(plan: PatchPlan, relative: PathModel)
    requires
        !relative.absolute,
    ensures
        plan.vfs_destination@ == plan.install_root@.join(plan.vfs_base_path@) || !relative.starts_with(
            plan.vfs_base_path@,
        ) ==> plan.physical(relative) == plan.install_root@.join(relative),
        plan.vfs_destination@ != plan.install_root@.join(plan.vfs_base_path@)
            && relative.starts_with(plan.vfs_base_path@) ==> plan.physical(relative).starts_with(
            plan.vfs_destination@,
        ) && plan.physical(relative).below(plan.vfs_destination@) == relative.below(
            plan.vfs_base_path@,
        ),
{
    path::law_strip_undoes_join(plan.vfs_destination@, relative.below(plan.vfs_base_path@));
    if relative.starts_with(plan.vfs_base_path@) {
        let rest = relative.below(plan.vfs_base_path@);
        let whole = plan.vfs_destination@.join(rest);
        assert(whole.parts.take(plan.vfs_destination@.parts.len() as int)
            =~= plan.vfs_destination@.parts);
        assert(whole.parts.skip(plan.vfs_destination@.parts.len() as int) =~= rest.parts);
    }
}

/// What is deleted after a patch was applied: every file to delete but those that the
/// patch wrote, which stay.
pub proof fn law_written_files_are_not_deleted(plan: PatchPlan, list: Seq<DeleteStep>, i: int)
    requires
        steps::are_remaining_deletes(plan, list),
        0 <= i < plan.delete_paths@.len(),
    ensures
        list.len() == plan.delete_paths@.len(),
        list[i].remove is None <==> exists|k: int|
            0 <= k < plan.entries@.len() && plan.vfs_base_path@.join(
                path::parsed((#[trigger] plan.entries@[k]).name@),
            ) == plan.delete_paths@[i]@,
        list[i].remove matches Some(file) ==> file@ == plan.physical(plan.delete_paths@[i]@),
{
    assert(steps::is_remaining_delete(plan, i, list[i]));
    let relative = plan.delete_paths@[i]@;
    if plan.is_output(relative) {
        let k = choose|k: int| 0 <= k < plan.entries@.len() && #[trigger] plan.output(k) == relative;
        assert(plan.entries@[k].name@ == plan.entries@[k].name@);
    }
    if exists|k: int|
        0 <= k < plan.entries@.len() && plan.vfs_base_path@.join(
            path::parsed((#[trigger] plan.entries@[k]).name@),
        ) == relative {
        let k = choose|k: int|
            0 <= k < plan.entries@.len() && plan.vfs_base_path@.join(
                path::parsed((#[trigger] plan.entries@[k]).name@),
            ) == relative;
        assert(plan.output(k) == relative);
    }
}

/// A plan that would delete a file that it writes is refused, and no other is.
pub proof fn law_plans_that_delete_their_files_are_refused(plan: PatchPlan)
    ensures
        steps::contradiction(plan, 0) is Some <==> exists|i: int|
            0 <= i < plan.delete_paths@.len() && plan.is_output(
                (#[trigger] plan.delete_paths@[i])@,
            ),
{
    lemma_contradiction(plan, 0);
}

proof fn lemma_contradiction(plan: PatchPlan, k: int)
    requires
        0 <= k <= plan.delete_paths@.len(),
    ensures
        steps::contradiction(plan, k) is Some <==> exists|i: int|
            k <= i < plan.delete_paths@.len() && plan.is_output(
                (#[trigger] plan.delete_paths@[i])@,
            ),
    decreases plan.delete_paths@.len() - k,
{
    if k < plan.delete_paths@.len() {
        lemma_contradiction(plan, k + 1);
        if plan.is_output(plan.delete_paths@[k]@) {
            assert(plan.is_output(plan.delete_paths@[k]@));
        }
    }
}

/// The uses of a base are counted: a base is in use as long as an entry is left that
/// reads it, and each such entry counts once.
pub proof fn law_bases_are_in_use_while_an_entry_reads_them(plan: PatchPlan, k: int, base: PathModel)
    requires
        0 <= k <= plan.entries@.len(),
    ensures
        steps::base_uses(plan, k, base) >= 0,
        steps::base_uses(plan, k, base) > 0 <==> exists|i: int|
            i < k && #[trigger] reads(plan, i, base),
        k < plan.entries@.len() ==> steps::base_uses(plan, k + 1, base) == steps::base_uses(
            plan,
            k,
            base,
        ) + if reads(plan, k, base) {
            1int
        } else {
            0int
        },
    decreases k,
{
    if k > 0 {
        law_bases_are_in_use_while_an_entry_reads_them(plan, k - 1, base);
        if reads(plan, k - 1, base) {
            assert(plan.base(k - 1) == Some(base));
        }
    }
    if k < plan.entries@.len() && reads(plan, k, base) {
        assert(plan.base(k) == Some(base));
    }
}

/// A base that is no longer read is removed only if it is to be deleted and is no file
/// that the patch writes.
pub proof fn law_bases_are_removed_only_if_deleted(plan: PatchPlan, base: PathModel)
    requires
        steps::freed(plan, base),
    ensures
        plan.logical(base) matches Some(relative) && (exists|i: int|
            0 <= i < plan.delete_paths@.len() && (#[trigger] plan.delete_paths@[i])@ == relative)
            && !plan.is_output(relative),
{
}

/// The converse: a base that is to be deleted, and that the patch does not write, is
/// removed.
pub proof fn law_deleted_bases_are_removed(plan: PatchPlan, base: PathModel, i: int)
    requires
        0 <= i < plan.delete_paths@.len(),
        plan.logical(base) == Some(plan.delete_paths@[i]@),
        !plan.is_output(plan.delete_paths@[i]@),
    ensures
        steps::freed(plan, base),
{
}

/// The files that are put in place last are missed if and only if one is neither kept
/// aside nor in its place.
pub proof fn law_missing_late_files_are_noticed(present: Seq<bool>, installed: Seq<bool>)
    requires
        present.len() == installed.len(),
    ensures
        steps::first_missing(present, installed, 0) is Some <==> exists|i: int|
            0 <= i < present.len() && !#[trigger] present[i] && !installed[i],
{
    lemma_missing(present, installed, 0);
}

proof fn lemma_missing(present: Seq<bool>, installed: Seq<bool>, k: int)
    requires
        present.len() == installed.len(),
        0 <= k <= present.len(),
    ensures
        steps::first_missing(present, installed, k) is Some <==> exists|i: int|
            k <= i < present.len() && !#[trigger] present[i] && !installed[i],
    decreases present.len() - k,
{
    if k < present.len() {
        lemma_missing(present, installed, k + 1);
        if !present[k] && !installed[k] {
            assert(!present[k]);
        }
    }
}

/// Every file that was kept aside to be put in place last is put in its place, and
/// nothing else is.
pub proof fn law_late_files_are_put_in_place(
    plan: PatchPlan,
    present: Seq<bool>,
    source: PathModel,
    target: PathModel,
)
    requires
        present.len() == plan.deferred_paths@.len(),
    ensures
        steps::deferred_moves(plan, present, present.len() as int).contains((source, target))
            <==> exists|i: int|
            0 <= i < present.len() && #[trigger] present[i] && target == plan.install_root@.join(
                plan.deferred_paths@[i]@,
            ) && source == plan::deferred_path(plan.install_root@, plan.deferred_paths@[i]@),
{
    lemma_late_files(plan, present, present.len() as int, source, target);
}

proof fn lemma_late_files(
    plan: PatchPlan,
    present: Seq<bool>,
    k: int,
    source: PathModel,
    target: PathModel,
)
    requires
        0 <= k <= present.len() == plan.deferred_paths@.len(),
    ensures
        steps::deferred_moves(plan, present, k).contains((source, target)) <==> exists|i: int|
            0 <= i < k && #[trigger] present[i] && target == plan.install_root@.join(
                plan.deferred_paths@[i]@,
            ) && source == plan::deferred_path(plan.install_root@, plan.deferred_paths@[i]@),
    decreases k,
{
    if k > 0 {
        lemma_late_files(plan, present, k - 1, source, target);
        let before = steps::deferred_moves(plan, present, k - 1);
        let all = steps::deferred_moves(plan, present, k);
        if before.contains((source, target)) {
            let j = choose|j: int| 0 <= j < before.len() && before[j] == (source, target);
            assert(all[j] == (source, target));
        }
        if all.contains((source, target)) && !before.contains((source, target)) {
            let j = choose|j: int| 0 <= j < all.len() && all[j] == (source, target);
            if j < before.len() {
                assert(before[j] == (source, target));
            }
            assert(present[k - 1]);
        }
        if present[k - 1] && steps::deferred_move(plan, k - 1) == (source, target) {
            assert(all.last() == (source, target));
        }
    }
}

/// What is kept aside lies in the directory of the patch, below the installation.
pub proof fn law_late_files_are_kept_aside(install_root: PathModel, relative: PathModel)
    requires
        !relative.absolute,
    ensures
        plan::deferred_path(install_root, relative).starts_with(install_root),
        plan::deferred_path(install_root, relative) != install_root.join(relative),
        forall|other: PathModel|
            !other.absolute && plan::deferred_path(install_root, relative)
                == #[trigger] plan::deferred_path(install_root, other) ==> other == relative,
{
    let aside = plan::deferred_path(install_root, relative);
    let n = install_root.parts.len() as int;
    assert(aside.parts.take(n) =~= install_root.parts);
    assert(aside.parts.len() == n + 2 + relative.parts.len());
    assert(install_root.join(relative).parts.len() == n + relative.parts.len());
    assert forall|other: PathModel|
        !other.absolute && aside == #[trigger] plan::deferred_path(
            install_root,
            other,
        ) implies other == relative by {
        let kept = plan::deferred_path(install_root, other);
        assert(kept.parts.skip(n + 2) =~= other.parts);
        assert(aside.parts.skip(n + 2) =~= relative.parts);
    }
}

/// What a patch brings beside its manifests and payloads is put in the installation,
/// at its place, or kept aside if it is to come last.
pub proof fn law_staged_files_are_put_in_place(
    plan: PatchPlan,
    files: Seq<(FilePath, u64)>,
    i: int,
)
    requires
        0 <= i < files.len(),
        files[i].0@.starts_with(plan.stage_root@),
    ensures
        ({
            let relative = files[i].0@.below(plan.stage_root@);
            let job = CommitModel {
                source: files[i].0@,
                target: if exists|d: int|
                    0 <= d < plan.deferred_paths@.len() && (#[trigger] plan.deferred_paths@[d])@
                        == relative {
                    plan::deferred_path(plan.install_root@, relative)
                } else {
                    plan.install_root@.join(relative)
                },
                relative,
                bytes: files[i].1,
            };
            !plan::is_control(relative) ==> steps::top_level(
                plan,
                files,
                files.len() as int,
            ).contains(job)
        }),
{
    let relative = files[i].0@.below(plan.stage_root@);
    if !plan::is_control(relative) {
        lemma_top_level(plan, files, files.len() as int, i);
    }
}

proof fn lemma_top_level(plan: PatchPlan, files: Seq<(FilePath, u64)>, k: int, i: int)
    requires
        0 <= i < k <= files.len(),
        files[i].0@.starts_with(plan.stage_root@),
        !plan::is_control(files[i].0@.below(plan.stage_root@)),
    ensures
        steps::top_level(plan, files, k).contains(
            (CommitModel {
                source: files[i].0@,
                target: plan::commit_target(plan, files[i].0@.below(plan.stage_root@)),
                relative: files[i].0@.below(plan.stage_root@),
                bytes: files[i].1,
            }),
        ),
    decreases k,
{
    let job = CommitModel {
        source: files[i].0@,
        target: plan::commit_target(plan, files[i].0@.below(plan.stage_root@)),
        relative: files[i].0@.below(plan.stage_root@),
        bytes: files[i].1,
    };
    let all = steps::top_level(plan, files, k);
    if i < k - 1 {
        lemma_top_level(plan, files, k - 1, i);
        let before = steps::top_level(plan, files, k - 1);
        let j = choose|j: int| 0 <= j < before.len() && before[j] == job;
        assert(all[j] == job);
    } else {
        assert(all.last() == job);
    }
}

/// Nothing is put in the installation that does not lie below the place that a patch
/// is extracted to, nor its manifests and payloads.
pub proof fn law_only_staged_files_are_put_in_place(
    plan: PatchPlan,
    files: Seq<(FilePath, u64)>,
    k: int,
    j: int,
)
    requires
        0 <= k <= files.len(),
        0 <= j < steps::top_level(plan, files, k).len(),
    ensures
        ({
            let job = steps::top_level(plan, files, k)[j];
            &&& job.source.starts_with(plan.stage_root@)
            &&& job.relative == job.source.below(plan.stage_root@)
            &&& job.relative != plan::single("patch.json"@)
            &&& job.relative != plan::single("delete_files.txt"@)
            &&& !job.relative.starts_with(plan::single(plan::PATCH_STAGE_DIR@))
            &&& exists|i: int| 0 <= i < k && (#[trigger] files[i]).0@ == job.source
        }),
    decreases k,
{
    let all = steps::top_level(plan, files, k);
    if k > 0 {
        let before = steps::top_level(plan, files, k - 1);
        if j < before.len() {
            assert(all[j] == before[j]);
            law_only_staged_files_are_put_in_place(plan, files, k - 1, j);
            let i = choose|i: int| 0 <= i < k - 1 && (#[trigger] files[i]).0@ == before[j].source;
            assert(files[i].0@ == all[j].source);
        } else {
            assert(files[k - 1].0@ == all[j].source);
        }
    }
}

/// The lines of a list of files to delete, with nothing but a file name in each, are
/// the files that are deleted. A line without one does not count, and one that leads
/// out of the installation has the list refused.
pub proof fn law_every_listed_file_is_deleted(all: Seq<Seq<char>>, file: PathModel)
    ensures
        manifest::delete_list(all, 0, Seq::empty()) is Err <==> exists|i: int|
            0 <= i < all.len() && is_bad_line(#[trigger] all[i]),
        manifest::delete_list(all, 0, Seq::empty()) matches Ok(found) ==> (found.contains(file)
            <==> exists|i: int| 0 <= i < all.len() && names_file(#[trigger] all[i], file)),
{
    lemma_delete_list(all, 0, Seq::empty(), file);
}

/// Whether a line of such a list names a file that may not be deleted.
pub open spec fn is_bad_line(line: Seq<char>) -> bool {
    text::trimmed(line).len() > 0 && path_safety::safe_relative_path(text::trimmed(line)) is Err
}

/// Whether a line of such a list names a file.
pub open spec fn names_file(line: Seq<char>, file: PathModel) -> bool {
    text::trimmed(line).len() > 0 && path_safety::safe_relative_path(text::trimmed(line)) == Ok::<
        PathModel,
        Seq<char>,
    >(file)
}

proof fn lemma_delete_list(all: Seq<Seq<char>>, k: int, found: Seq<PathModel>, file: PathModel)
    requires
        0 <= k <= all.len(),
    ensures
        manifest::delete_list(all, k, found) is Err <==> exists|i: int|
            k <= i < all.len() && is_bad_line(#[trigger] all[i]),
        manifest::delete_list(all, k, found) matches Ok(list) ==> (list.contains(file)
            <==> found.contains(file) || exists|i: int|
            k <= i < all.len() && names_file(#[trigger] all[i], file)),
    decreases all.len() - k,
{
    if k < all.len() {
        match manifest::delete_entry(all[k]) {
            None => {
                lemma_delete_list(all, k + 1, found, file);
            },
            Some(Ok(named)) => {
                let more = found.push(named);
                lemma_delete_list(all, k + 1, more, file);
                if found.contains(file) {
                    let j = choose|j: int| 0 <= j < found.len() && found[j] == file;
                    assert(more[j] == file);
                }
                if more.contains(file) && !found.contains(file) {
                    let j = choose|j: int| 0 <= j < more.len() && more[j] == file;
                    if j < found.len() {
                        assert(found[j] == file);
                    }
                    assert(names_file(all[k], file));
                }
                if names_file(all[k], file) {
                    assert(more.last() == file);
                }
            },
            Some(Err(_)) => {
                assert(is_bad_line(all[k]));
            },
        }
    }
}

/// Lines come back from the text that they make up, whether a line ends as on one
/// system or as on another, and whether the last line is ended or not.
pub proof fn law_lines_come_back(rows: Seq<Seq<char>>)
    requires
        rows.len() > 0,
        forall|i: int|
            0 <= i < rows.len() ==> !(#[trigger] rows[i]).contains('\n') && !rows[i].contains('\r'),
        rows.last().len() > 0,
    ensures
        manifest::lines(path::joined(rows, seq!['\n'])) == rows,
        manifest::lines(path::joined(rows, seq!['\n']).push('\n')) == rows,
{
    let whole = path::joined(rows, seq!['\n']);
    text_laws::law_joined_pieces_split_again(rows, '\n');
    assert forall|i: int, ended: bool|
        0 <= i < rows.len() implies #[trigger] manifest::without_return(rows[i], ended)
        == rows[i] by {
        if rows[i].len() > 0 && rows[i].last() == '\r' {
            assert(rows[i].contains('\r'));
        }
    }
    assert(manifest::lines(whole) =~= rows);
    let none = Seq::<char>::empty();
    text_laws::lemma_split_after_separator(whole, '\n', none);
    assert(whole.push('\n') + none =~= whole.push('\n'));
    let pieces = text::split_on(whole.push('\n'), '\n');
    assert(pieces == rows.push(none));
    assert(pieces.drop_last() =~= rows);
    assert(manifest::lines(whole.push('\n')) =~= rows);
}

/// A return before the end of a line belongs to the end.
pub proof fn law_returns_end_lines(row: Seq<char>)
    requires
        !row.contains('\n'),
    ensures
        manifest::lines(row.push('\r').push('\n')) == seq![row],
{
    let none = Seq::<char>::empty();
    let line = row.push('\r');
    assert(!line.contains('\n')) by {
        if line.contains('\n') {
            let i = choose|i: int| 0 <= i < line.len() && line[i] == '\n';
            assert(row[i] == '\n');
        }
    }
    text_laws::lemma_split_of_piece(line, '\n');
    text_laws::lemma_split_after_separator(line, '\n', none);
    assert(line.push('\n') + none =~= line.push('\n'));
    let pieces = text::split_on(line.push('\n'), '\n');
    assert(pieces == seq![line].push(none));
    assert(pieces.drop_last() =~= seq![line]);
    assert(line.drop_last() =~= row);
    assert(manifest::lines(line.push('\n')) =~= seq![row]);
}

/// What a patch ships lies in the directory for it, below the place that the patch is
/// extracted to or below the installation: never outside both.
pub proof fn law_payloads_lie_in_the_stage(
    install_root: PathModel,
    stage_root: PathModel,
    subdir: Seq<char>,
    relative: PathModel,
)
    requires
        !relative.absolute,
    ensures
        ({
            let found = manifest::stage_path(install_root, stage_root, subdir, relative);
            let in_stage = relative.starts_with(plan::single(plan::PATCH_STAGE_DIR@));
            &&& in_stage ==> found == install_root.join(relative)
            &&& !in_stage ==> found.starts_with(stage_root.child(subdir))
            &&& !in_stage && !relative.starts_with(plan::single(subdir)) ==> found.below(
                stage_root.child(subdir),
            ) == relative
            &&& !in_stage && relative.starts_with(plan::single(subdir)) ==> found.below(stage_root)
                == relative
        }),
{
    let found = manifest::stage_path(install_root, stage_root, subdir, relative);
    let dir = stage_root.child(subdir);
    let n = stage_root.parts.len() as int;
    if !relative.starts_with(plan::single(plan::PATCH_STAGE_DIR@)) {
        if relative.starts_with(plan::single(subdir)) {
            assert(relative.parts.take(1)[0] == subdir);
            assert(found.parts.take(n + 1) =~= dir.parts);
            assert(found.parts.skip(n) =~= relative.parts);
        } else {
            assert(found.parts.take(n + 1) =~= dir.parts);
            assert(found.parts.skip(n + 1) =~= relative.parts);
        }
    }
}

/// Whether a task is the one that applies an entry of a plan.
pub open spec fn applies(node: LocalNode, plan: Arc<PatchPlan>, entry: usize) -> bool {
    node.task matches Task::ApplyPatchEntry { plan: p, entry_index } && p == plan && entry_index
        == entry
}

/// Every entry of a plan is applied by a task of its own, after the patch was
/// prepared and after every entry that has to come before it.
pub proof fn law_entries_wait_for_what_comes_before(
    nodes: Seq<LocalNode>,
    archive: Arc<ArchiveWork>,
    plan: Arc<PatchPlan>,
    order: Seq<usize>,
    bases: Seq<PathModel>,
    t: int,
    u: int,
)
    requires
        schedule::is_patch(nodes, archive, plan, order, bases),
        nodes.len() <= u64::MAX,
        0 <= u < t < order.len(),
    ensures
        nodes[0].task == (Task::PreparePatchApply { plan }),
        applies(nodes[t + 1], plan, order[t]),
        nodes[t + 1].dependencies.contains(0),
        waves::before(*plan, order[u] as int, order[t] as int) ==> nodes[t + 1].dependencies.contains(
            (u + 1) as u64,
        ),
{
    assert(schedule::entry_laid(nodes, plan, order, t));
    assert(waves::before(*plan, order[u] as int, order[t] as int) ==> schedule::preceded(
        *plan,
        order,
        t,
        u + 1,
    ));
}

/// A base is released after every entry that reads it, and the patch is cleaned up
/// after everything else.
pub proof fn law_bases_are_released_after_their_readers(
    nodes: Seq<LocalNode>,
    archive: Arc<ArchiveWork>,
    plan: Arc<PatchPlan>,
    order: Seq<usize>,
    bases: Seq<PathModel>,
    t: int,
    base: PathModel,
)
    requires
        schedule::is_patch(nodes, archive, plan, order, bases),
        nodes.len() <= u64::MAX,
        0 <= t < order.len(),
        reads(*plan, order[t] as int, base),
    ensures
        exists|b: int|
            0 <= b < nodes.len() && ((#[trigger] nodes[b]).task matches Task::ReleasePatchBase {
                plan: p,
                base: freed,
            } && p == plan && freed@ == base) && nodes[b].dependencies.contains((t + 1) as u64),
        nodes.last().task == (Task::CleanPatchApply { plan, archive }),
        nodes.last().dependencies.contains((nodes.len() - 2) as u64),
        nodes[nodes.len() - 2].task == (Task::CommitPatchDeferred { plan }),
{
    assert(schedule::consumes(*plan, order, order.len() as int, base, t + 1));
    assert(bases.contains(base));
    let b = choose|b: int| 0 <= b < bases.len() && bases[b] == base;
    assert(schedule::release_laid(nodes, plan, order, bases, b));
    let at = 1 + order.len() + b;
    assert(nodes[at].task is ReleasePatchBase);
    assert(nodes[at].dependencies.contains((t + 1) as u64));
    assert(nodes.last() == nodes[nodes.len() - 1]);
}

/// A patch that is applied is laid out as a whole, for an order of its entries.
pub proof fn law_patches_are_laid_out_whole(
    run: TaskRun,
    archive: Arc<ArchiveWork>,
    plan: Arc<PatchPlan>,
    i: usize,
)
    requires
        schedule::applies_patch(run, archive, plan),
        i < plan.entries@.len(),
    ensures
        run matches TaskRun::Expand { expansion, next } && next is None && exists|k: int|
            0 <= k < expansion@.len() && applies(#[trigger] expansion@[k], plan, i),
{
    let nodes = run->Expand_expansion@;
    let (order, bases) = choose|order: Seq<usize>, bases: Seq<PathModel>|
        schedule::is_order(*plan, order) && #[trigger] schedule::is_patch(
            nodes,
            archive,
            plan,
            order,
            bases,
        );
    lemma_named(&plan, order, i);
    let t = choose|t: int| 0 <= t < order.len() && order[t] == i;
    assert(schedule::entry_laid(nodes, plan, order, t));
    assert(applies(nodes[t + 1], plan, i));
}

proof fn lemma_named(plan: &PatchPlan, order: Seq<usize>, i: usize)
    requires
        schedule::is_order(*plan, order),
        i < plan.entries@.len(),
    ensures
        exists|t: int| 0 <= t < order.len() && order[t] == i,
{
    schedule::law_order_names_every_entry_once(*plan, order, i);
}

proof fn lemma_no_later_use(plan: PatchPlan, order: Seq<usize>, k: int, base: PathModel, t: int)
    requires
        0 <= k <= t < order.len(),
        run::later_uses(plan, order, k, base) == 0,
    ensures
        plan.base(order[t] as int) != Some(base),
    decreases t - k,
{
    lemma_uses_are_no_debt(plan, order, k + 1, base);
    if k < t {
        lemma_no_later_use(plan, order, k + 1, base, t);
    }
}

proof fn lemma_uses_are_no_debt(plan: PatchPlan, order: Seq<usize>, k: int, base: PathModel)
    ensures
        run::later_uses(plan, order, k, base) >= 0,
    decreases order.len() - k,
{
    if k < order.len() {
        lemma_uses_are_no_debt(plan, order, k + 1, base);
    }
}

/// After a base was removed no entry reads it.
pub proof fn law_removed_bases_are_read_no_more(
    plan: PatchPlan,
    order: Seq<usize>,
    k: int,
    s: int,
    u: int,
)
    requires
        0 <= k <= order.len(),
        0 <= s < u < run::steps_for(plan, order, k).len(),
        run::steps_for(plan, order, k)[s] is Remove,
        run::steps_for(plan, order, k)[u] is Apply,
    ensures
        !reads(
            plan,
            run::steps_for(plan, order, k)[u]->entry as int,
            run::steps_for(plan, order, k)[s]->base,
        ),
    decreases k,
{
    let all = run::steps_for(plan, order, k);
    let before = run::steps_for(plan, order, k - 1);
    if u < before.len() {
        assert(all[s] == before[s] && all[u] == before[u]);
        law_removed_bases_are_read_no_more(plan, order, k - 1, s, u);
    } else {
        assert(u == before.len());
        assert(all[s] == before[s]);
        let base = all[s]->base;
        run::law_bases_outlive_their_uses(plan, order, k - 1, s);
        let done = choose|done: int|
            0 < done <= k - 1 && run::later_uses(plan, order, done, base) == 0 && run::steps_for(
                plan,
                order,
                done,
            ).len() == s + 1;
        lemma_no_later_use(plan, order, done, base, k - 1);
    }
}

/// A run applies the entries in their order, each once, and tells after each how many
/// are done.
pub proof fn law_entries_are_applied_in_order(plan: PatchPlan, order: Seq<usize>, k: int, t: int)
    requires
        0 <= t < k <= order.len(),
    ensures
        run::steps_for(plan, order, k).contains(
            StepModel::Apply { entry: order[t], finished: t + 1 },
        ),
        k <= run::steps_for(plan, order, k).len() <= 2 * k,
    decreases k,
{
    let all = run::steps_for(plan, order, k);
    let before = run::steps_for(plan, order, k - 1);
    let step = StepModel::Apply { entry: order[t], finished: t + 1 };
    if t < k - 1 {
        law_entries_are_applied_in_order(plan, order, k - 1, t);
        let j = choose|j: int| 0 <= j < before.len() && before[j] == step;
        assert(all[j] == step);
    } else {
        assert(all[before.len() as int] == step);
        if k > 1 {
            law_entries_are_applied_in_order(plan, order, k - 1, k - 2);
        }
    }
}

/// A base that is to be removed is removed right after the last entry that reads it.
pub proof fn law_bases_are_removed_after_their_last_reader(
    plan: PatchPlan,
    order: Seq<usize>,
    t: int,
    base: PathModel,
)
    requires
        0 <= t < order.len(),
        reads(plan, order[t] as int, base),
        forall|u: int| t < u < order.len() ==> !reads(plan, #[trigger] order[u] as int, base),
        forall|u: int| 0 <= u < order.len() ==> #[trigger] order[u] < plan.entries@.len(),
        steps::freed(plan, base),
    ensures
        run::steps_for(plan, order, t + 1).last() == (StepModel::Remove { base }),
{
    lemma_unused(plan, order, t + 1, base);
    assert(plan.base(order[t] as int) == Some(base));
}

proof fn lemma_unused(plan: PatchPlan, order: Seq<usize>, k: int, base: PathModel)
    requires
        0 <= k <= order.len(),
        forall|u: int| k <= u < order.len() ==> !reads(plan, #[trigger] order[u] as int, base),
        forall|u: int| 0 <= u < order.len() ==> #[trigger] order[u] < plan.entries@.len(),
    ensures
        run::later_uses(plan, order, k, base) == 0,
    decreases order.len() - k,
{
    if k < order.len() {
        assert(!reads(plan, order[k] as int, base));
        lemma_unused(plan, order, k + 1, base);
    }
}

/// The predecessors of an entry that are listed are the entries that read a file that it
/// writes.
pub proof fn law_predecessors_read_what_is_written(
    plan: PatchPlan,
    w: int,
    list: Seq<usize>,
    i: usize,
    file: PathModel,
)
    requires
        waves::lists_predecessors(plan, w, list),
        i != w,
        reads(plan, i as int, file),
        writes(plan, w, file),
    ensures
        list.contains(i),
{
    assert(waves::before(plan, i as int, w));
}

} // verus!
