//! Which entries of an archive are extracted, told from the archive and the plan
//! alone.

use crate::archive::entries;
use crate::archive::entries::{EntryGroups, EntryPlace, EntryRules, Fault};
use crate::error::Message;
use crate::patch::plan;
use crate::patch::plan::{
    PatchPlan, PlannedPatchSource, DELETE_FILES_MANIFEST_NAME, GRIFFR_PATCH_DIR,
    PATCH_MANIFEST_NAME, PATCH_STAGE_DIR,
};
use crate::path::PathModel;
use crate::path_safety;
use crate::scheduler::counts;
use crate::task::{ArchiveIndex, ArchiveWork};
use crate::text;
use vstd::prelude::*;

verus! {

/// Whether a planned path names the file at a path, whichever way its parts are
/// separated and in small or in capital letters.
pub open spec fn names_file(planned: PathModel, path: PathModel) -> bool {
    text::lowered(text::replaced(planned.text(), '\\', '/')) == text::lowered(path.text())
}

/// Whether some entry of a plan reads a payload: it is put in place whole, or it
/// is the difference that is applied.
pub open spec fn plan_reads(plan: PatchPlan, path: PathModel) -> bool {
    exists|e: int|
        0 <= e < plan.entries@.len() && match (#[trigger] plan.entries@[e]).source {
            PlannedPatchSource::AlreadyPresent => false,
            PlannedPatchSource::Local { payload } => names_file(payload@, path),
            PlannedPatchSource::Hdiff { payload, .. } => names_file(payload@, path),
        }
}

/// Whether a plan puts a file in place last.
pub open spec fn plan_defers(plan: PatchPlan, path: PathModel) -> bool {
    exists|d: int|
        0 <= d < plan.deferred_paths@.len() && names_file(
            (#[trigger] plan.deferred_paths@[d])@,
            path,
        )
}

/// Whether a name is that of a directory.
pub open spec fn ends_in_slash(name: Seq<char>) -> bool {
    name.len() > 0 && name[name.len() - 1] == '/'
}

/// Whether a file steers a patch.
pub open spec fn steers(path: PathModel) -> bool {
    text::lowered(path.text()) == text::lowered(PATCH_MANIFEST_NAME@) || text::lowered(path.text())
        == text::lowered(DELETE_FILES_MANIFEST_NAME@)
}

/// Whether a path lies in the stage of a patch.
pub open spec fn is_staged_payload(path: PathModel) -> bool {
    path.starts_with(plan::single(PATCH_STAGE_DIR@))
}

/// Whether a file is left out of the install.
pub open spec fn is_left_out(archive: ArchiveWork, path: PathModel) -> bool {
    counts::lists(archive.excluded_commit_paths@, text::lowered(path.text()))
}

/// Whether an entry cannot be extracted: it has no name, or its name leads out of
/// the install or into the private directory of a patch.
pub open spec fn is_refused(index: ArchiveIndex, i: int) -> bool {
    i >= index.names@.len() || (!ends_in_slash(index.names@[i]@) && match path_safety::safe_relative_path(
        index.names@[i]@,
    ) {
        Ok(path) => path.starts_with(plan::single(GRIFFR_PATCH_DIR@)),
        Err(_) => true,
    })
}

proof fn lemma_places(
    archive: ArchiveWork,
    index: ArchiveIndex,
    rules: EntryRules,
    place: EntryPlace,
    k: int,
    i: usize,
)
    requires
        0 <= k <= usize::MAX,
    ensures
        entries::placed(archive, index, rules, place, k).contains(i) <==> i < k
            && entries::entry_place(archive, index, rules, i as int) == Ok::<EntryPlace, Fault>(
            place,
        ),
        forall|a: int, b: int|
            0 <= a < b < entries::placed(archive, index, rules, place, k).len()
                ==> entries::placed(archive, index, rules, place, k)[a] < entries::placed(
                archive,
                index,
                rules,
                place,
                k,
            )[b],
        forall|a: int|
            0 <= a < entries::placed(archive, index, rules, place, k).len()
                ==> #[trigger] entries::placed(archive, index, rules, place, k)[a] < k,
    decreases k,
{
    if k > 0 {
        lemma_places(archive, index, rules, place, k - 1, i);
        let before = entries::placed(archive, index, rules, place, k - 1);
        let list = entries::placed(archive, index, rules, place, k);
        if before.contains(i) {
            let j = choose|j: int| 0 <= j < before.len() && before[j] == i;
            assert(list[j] == i);
        }
        if list.contains(i) {
            let j = choose|j: int| 0 <= j < list.len() && list[j] == i;
            if j < before.len() {
                assert(before[j] == i);
                assert(before.contains(i));
            }
        }
        if list.len() > before.len() && i == k - 1 {
            assert(list[list.len() - 1] == i);
        }
    }
}

proof fn lemma_faults(archive: ArchiveWork, index: ArchiveIndex, rules: EntryRules, k: int)
    requires
        0 <= k <= index.entry_sizes@.len(),
    ensures
        entries::first_fault(archive, index, rules, k) is None <==> forall|i: int|
            k <= i < index.entry_sizes@.len() ==> (#[trigger] entries::entry_place(
                archive,
                index,
                rules,
                i,
            )) is Ok,
    decreases index.entry_sizes@.len() - k,
{
    if k < index.entry_sizes@.len() {
        lemma_faults(archive, index, rules, k + 1);
        if entries::first_fault(archive, index, rules, k) is None {
            assert forall|i: int| k <= i < index.entry_sizes@.len() implies (
            #[trigger] entries::entry_place(archive, index, rules, i)) is Ok by {
                if i > k {
                    assert(k + 1 <= i);
                }
            }
        } else if forall|i: int|
            k <= i < index.entry_sizes@.len() ==> (#[trigger] entries::entry_place(
                archive,
                index,
                rules,
                i,
            )) is Ok {
            assert(entries::entry_place(archive, index, rules, k) is Ok);
        }
    }
}

/// An archive with a patch is extracted as its plan says. A payload in the stage
/// is kept aside if and only if some entry of the plan reads it, as its whole
/// payload or as its difference. Of the other files, those that the plan puts in
/// place last are kept aside too; the rest are put in place at once, but for
/// those that steer the patch or are left out.
pub proof fn law_patch_entries_go_where_the_plan_says(
    archive: ArchiveWork,
    index: ArchiveIndex,
    plan: PatchPlan,
    result: Result<(Vec<usize>, Vec<usize>), Message>,
    i: usize,
)
    requires
        entries::are_patch_groups(archive, index, plan, result),
        result is Ok,
        i < index.entry_sizes@.len() <= usize::MAX,
    ensures
        !is_refused(index, i as int),
        ({
            let direct = result->Ok_0.0@;
            let staged = result->Ok_0.1@;
            let name = index.names@[i as int]@;
            let path = path_safety::safe_relative_path(name)->Ok_0;
            let plain = !ends_in_slash(name) && !steers(path);
            &&& staged.contains(i) <==> plain && if is_staged_payload(path) {
                plan_reads(plan, path)
            } else {
                plan_defers(plan, path)
            }
            &&& direct.contains(i) <==> plain && !is_staged_payload(path) && !plan_defers(plan, path)
                && !is_left_out(archive, path)
        }),
{
    let rules = choose|rules: EntryRules| #[trigger]
        entries::are_patch_rules(plan, rules) && match result {
            Ok((direct, staged)) => {
                let n = index.entry_sizes@.len() as int;
                &&& entries::first_fault(archive, index, rules, 0) is None
                &&& direct@ == entries::placed(archive, index, rules, EntryPlace::Direct, n)
                &&& staged@ == entries::placed(archive, index, rules, EntryPlace::Staged, n)
            },
            Err(message) => entries::first_fault(archive, index, rules, 0) == Some(message.fault()),
        };
    let n = index.entry_sizes@.len() as int;
    lemma_faults(archive, index, rules, 0);
    assert(entries::entry_place(archive, index, rules, i as int) is Ok);
    lemma_places(archive, index, rules, EntryPlace::Direct, n, i);
    lemma_places(archive, index, rules, EntryPlace::Staged, n, i);
    let name = index.names@[i as int]@;
    if !ends_in_slash(name) {
        let path = path_safety::safe_relative_path(name)->Ok_0;
        let key = text::lowered(path.text());
        assert(counts::lists(rules.selected@, key) <==> entries::plan_uses(plan.entries@, key));
        assert(entries::plan_uses(plan.entries@, key) <==> plan_reads(plan, path)) by {
            if entries::plan_uses(plan.entries@, key) {
                let e = choose|e: int|
                    0 <= e < plan.entries@.len() && entries::uses_payload(
                        #[trigger] plan.entries@[e],
                        key,
                    );
                assert(0 <= e < plan.entries@.len() && match plan.entries@[e].source {
                    PlannedPatchSource::AlreadyPresent => false,
                    PlannedPatchSource::Local { payload } => names_file(payload@, path),
                    PlannedPatchSource::Hdiff { payload, .. } => names_file(payload@, path),
                });
            }
            if plan_reads(plan, path) {
                let e = choose|e: int|
                    0 <= e < plan.entries@.len() && match (#[trigger] plan.entries@[e]).source {
                        PlannedPatchSource::AlreadyPresent => false,
                        PlannedPatchSource::Local { payload } => names_file(payload@, path),
                        PlannedPatchSource::Hdiff { payload, .. } => names_file(payload@, path),
                    };
                assert(entries::uses_payload(plan.entries@[e], key));
            }
        }
        assert(counts::lists(rules.deferred@, key) <==> plan_defers(plan, path)) by {
            if counts::lists(rules.deferred@, key) {
                let d = choose|d: int|
                    0 <= d < rules.deferred@.len() && (#[trigger] rules.deferred@[d])@ == key;
                assert(names_file(plan.deferred_paths@[d]@, path));
            }
            if plan_defers(plan, path) {
                let d = choose|d: int|
                    0 <= d < plan.deferred_paths@.len() && names_file(
                        (#[trigger] plan.deferred_paths@[d])@,
                        path,
                    );
                assert(rules.deferred@[d]@ == key);
            }
        }
    }
}

/// Every payload that a plan reads is extracted: each entry of the archive that
/// lies in the stage under its name is among those that are kept aside, whether
/// the payload is put in place whole or is a difference.
pub proof fn law_payloads_of_a_plan_are_extracted(
    archive: ArchiveWork,
    index: ArchiveIndex,
    plan: PatchPlan,
    result: Result<(Vec<usize>, Vec<usize>), Message>,
    entry: int,
    i: usize,
)
    requires
        entries::are_patch_groups(archive, index, plan, result),
        result is Ok,
        i < index.entry_sizes@.len() <= usize::MAX,
        0 <= entry < plan.entries@.len(),
        !ends_in_slash(index.names@[i as int]@),
        ({
            let path = path_safety::safe_relative_path(index.names@[i as int]@)->Ok_0;
            is_staged_payload(path) && !steers(path) && match plan.entries@[entry].source {
                PlannedPatchSource::AlreadyPresent => false,
                PlannedPatchSource::Local { payload } => names_file(payload@, path),
                PlannedPatchSource::Hdiff { payload, .. } => names_file(payload@, path),
            }
        }),
    ensures
        result->Ok_0.1@.contains(i),
        !result->Ok_0.0@.contains(i),
{
    law_patch_entries_go_where_the_plan_says(archive, index, plan, result, i);
    let path = path_safety::safe_relative_path(index.names@[i as int]@)->Ok_0;
    assert(0 <= entry < plan.entries@.len() && match plan.entries@[entry].source {
        PlannedPatchSource::AlreadyPresent => false,
        PlannedPatchSource::Local { payload } => names_file(payload@, path),
        PlannedPatchSource::Hdiff { payload, .. } => names_file(payload@, path),
    });
    assert(plan_reads(plan, path));
}

/// An archive with a patch is refused if and only if one of its entries is.
pub proof fn law_patch_archives_are_refused_for_an_entry(
    archive: ArchiveWork,
    index: ArchiveIndex,
    plan: PatchPlan,
    result: Result<(Vec<usize>, Vec<usize>), Message>,
)
    requires
        entries::are_patch_groups(archive, index, plan, result),
    ensures
        result is Err <==> exists|i: int|
            0 <= i < index.entry_sizes@.len() && #[trigger] is_refused(index, i),
{
    let rules = choose|rules: EntryRules| #[trigger]
        entries::are_patch_rules(plan, rules) && match result {
            Ok((direct, staged)) => {
                let n = index.entry_sizes@.len() as int;
                &&& entries::first_fault(archive, index, rules, 0) is None
                &&& direct@ == entries::placed(archive, index, rules, EntryPlace::Direct, n)
                &&& staged@ == entries::placed(archive, index, rules, EntryPlace::Staged, n)
            },
            Err(message) => entries::first_fault(archive, index, rules, 0) == Some(message.fault()),
        };
    lemma_faults(archive, index, rules, 0);
    if result is Err {
        let i = choose|i: int|
            0 <= i < index.entry_sizes@.len() && (#[trigger] entries::entry_place(
                archive,
                index,
                rules,
                i,
            )) is Err;
        assert(is_refused(index, i));
    } else if exists|i: int| 0 <= i < index.entry_sizes@.len() && #[trigger] is_refused(index, i) {
        let i = choose|i: int|
            0 <= i < index.entry_sizes@.len() && #[trigger] is_refused(index, i);
        assert(entries::entry_place(archive, index, rules, i) is Ok);
    }
}

/// Of an archive without a patch every file is put in place at once, but for the
/// control files, which are kept aside in their order, and those that are left
/// out.
pub proof fn law_whole_archives_are_extracted(
    archive: ArchiveWork,
    index: ArchiveIndex,
    rules: EntryRules,
    groups: EntryGroups,
    i: usize,
)
    requires
        entries::are_full_groups(archive, index, rules, groups),
        i < index.entry_sizes@.len() <= usize::MAX,
    ensures
        groups.direct@.contains(i) <==> !ends_in_slash(index.names@[i as int]@)
            && !index.control_indices@.contains(i) && !is_left_out(
            archive,
            path_safety::safe_relative_path(index.names@[i as int]@)->Ok_0,
        ),
        !index.control_indices@.contains(i) ==> !is_refused(index, i as int),
        groups.staged@ == index.control_indices@,
        forall|k: int|
            0 <= k < groups.staged@.len() ==> (#[trigger] groups.staged@[k]) < index.names@.len()
                && path_safety::safe_relative_path(
                index.names@[groups.staged@[k] as int]@,
            ) == Ok::<PathModel, Seq<char>>(groups.deferred_paths@[k]@),
{
    let n = index.entry_sizes@.len() as int;
    lemma_faults(archive, index, rules, 0);
    assert(entries::entry_place(archive, index, rules, i as int) is Ok);
    lemma_places(archive, index, rules, EntryPlace::Direct, n, i);
    assert forall|k: int| 0 <= k < groups.staged@.len() implies (#[trigger] groups.staged@[k])
        < index.names@.len() && path_safety::safe_relative_path(
        index.names@[groups.staged@[k] as int]@,
    ) == Ok::<PathModel, Seq<char>>(groups.deferred_paths@[k]@) by {
        assert(entries::control_path(index, index.control_indices@[k] as int) == Ok::<
            PathModel,
            Fault,
        >(groups.deferred_paths@[k]@));
    }
}

/// Entries are extracted in the order of the archive, each once.
pub proof fn law_entries_keep_their_order(
    archive: ArchiveWork,
    index: ArchiveIndex,
    rules: EntryRules,
    place: EntryPlace,
    a: int,
    b: int,
)
    requires
        index.entry_sizes@.len() <= usize::MAX,
        0 <= a < b < entries::placed(
            archive,
            index,
            rules,
            place,
            index.entry_sizes@.len() as int,
        ).len(),
    ensures
        ({
            let list = entries::placed(
                archive,
                index,
                rules,
                place,
                index.entry_sizes@.len() as int,
            );
            list[a] < list[b] < index.entry_sizes@.len()
        }),
{
    lemma_places(archive, index, rules, place, index.entry_sizes@.len() as int, 0);
}

/// The sizes of entries, all together.
pub open spec fn total_size(sizes: Seq<u64>, list: Seq<usize>) -> nat
    decreases list.len(),
{
    if list.len() == 0 {
        0
    } else {
        sizes[list[0] as int] as nat + total_size(sizes, list.skip(1))
    }
}

proof fn lemma_total_of_more(sizes: Seq<u64>, list: Seq<usize>)
    requires
        list.len() > 0,
    ensures
        total_size(sizes, list) == total_size(sizes, list.drop_last()) + sizes[list.last() as int],
    decreases list.len(),
{
    if list.len() > 1 {
        lemma_total_of_more(sizes, list.skip(1));
        assert(list.skip(1).drop_last() =~= list.drop_last().skip(1));
        assert(list.skip(1).last() == list.last());
        assert(list.drop_last()[0] == list[0]);
    } else {
        assert(total_size(sizes, list.skip(1)) == 0);
        assert(total_size(sizes, list.drop_last()) == 0);
    }
}

proof fn lemma_entry_bytes(sizes: Seq<u64>, list: Seq<usize>, k: int)
    requires
        0 <= k <= list.len(),
    ensures
        entries::entry_bytes(sizes, list, k) == (if total_size(sizes, list.take(k)) <= u64::MAX {
            total_size(sizes, list.take(k))
        } else {
            u64::MAX as nat
        }),
    decreases k,
{
    if k > 0 {
        lemma_entry_bytes(sizes, list, k - 1);
        lemma_total_of_more(sizes, list.take(k));
        assert(list.take(k).drop_last() =~= list.take(k - 1));
        assert(list.take(k).last() == list[k - 1]);
    } else {
        assert(list.take(0).len() == 0);
    }
}

proof fn lemma_total_of_both(sizes: Seq<u64>, a: Seq<usize>, b: Seq<usize>)
    ensures
        total_size(sizes, a + b) == total_size(sizes, a) + total_size(sizes, b),
    decreases a.len(),
{
    if a.len() == 0 {
        assert(a + b =~= b);
    } else {
        lemma_total_of_both(sizes, a.skip(1), b);
        assert((a + b).skip(1) =~= a.skip(1) + b);
        assert((a + b)[0] == a[0]);
    }
}

/// What is extracted is as large as all its entries together, as far as that can
/// be counted.
pub proof fn law_extracted_bytes_add_up(sizes: Seq<u64>, direct: Seq<usize>, staged: Seq<usize>)
    ensures
        ({
            let total = total_size(sizes, direct) + total_size(sizes, staged);
            entries::selected_bytes(sizes, direct, staged) == (if total <= u64::MAX {
                total
            } else {
                u64::MAX as nat
            })
        }),
{
    let all = direct + staged;
    lemma_entry_bytes(sizes, all, all.len() as int);
    assert(all.take(all.len() as int) =~= all);
    lemma_total_of_both(sizes, direct, staged);
}

} // verus!
