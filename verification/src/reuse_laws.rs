//! What becomes of a file that is brought to its place, whichever way it takes.

use crate::event::{TaskOutcome, WorkerEvent};
use crate::error::Message;
use crate::graph::expansion::TaskRun;
use crate::patch::steps;
use crate::path::PathModel;
use crate::reuse;
use crate::reuse::{PathReuseMethod, RepairStart, ReuseEnd, ReuseSource, SearchModel, VolumeGroup};
use crate::task::{FileDownload, RepairModel, Task};
use vstd::prelude::*;

verus! {

/// Whether a download brings a file to its place: from its URL, to its
/// destination, to be checked by its digest and its size.
pub open spec fn fetches(download: FileDownload, repair: RepairModel) -> bool {
    &&& repair.download_url == Some(download.url@)
    &&& download.dest@ == repair.dest
    &&& download.logical_path@ == repair.logical_path
    &&& download.expected_md5@ == repair.expected_md5
    &&& download.expected_size == Some(repair.expected_size)
    &&& download.retry_count == repair.retry_count
    &&& download.transfer_class == repair.transfer_class
    &&& download.archive_repair == repair.archive_repair
}

/// Whether a task brings a file to its place by a download: at once, or as soon as
/// what lies there was looked at and found bad.
pub open spec fn brings(task: Task, repair: RepairModel) -> bool {
    match task {
        Task::Download { download, resume } => resume is None && fetches(download, repair),
        Task::Verify { path, logical_path, expected_md5, expected_size, on_fail } => {
            &&& path@ == repair.dest
            &&& logical_path@ == repair.logical_path
            &&& expected_md5@ == repair.expected_md5
            &&& expected_size == Some(repair.expected_size)
            &&& on_fail matches Some(next) && (*next matches Task::Download { download, resume }
                && resume is None && fetches(download, repair))
        },
        _ => false,
    }
}

/// Whether a task looks at what lies in the place of a file.
pub open spec fn looks_in_place(task: Task, repair: RepairModel) -> bool {
    task matches Task::Verify { path, expected_md5, expected_size, .. } && path@ == repair.dest
        && expected_md5@ == repair.expected_md5 && expected_size == Some(repair.expected_size)
}

/// Whether a file can only be copied: its volume and that of the destination are
/// known and differ.
pub open spec fn crosses(source: ReuseSource, destination: Option<Seq<char>>) -> bool {
    match (source.volume, destination) {
        (Some(from), Some(to)) => from@ != to,
        _ => false,
    }
}

/// A reuse that failed is followed by a copy of the same source, where only a link
/// was tried and copies are allowed; else by the sources that are left; else by
/// the download. It is a failure only where nothing is left: no source, no URL,
/// and no look at what lies in the place.
pub proof fn law_failed_reuse_goes_on(
    end: ReuseEnd,
    source: PathModel,
    copy_only: bool,
    rest: Seq<PathModel>,
    repair: RepairModel,
    error: String,
)
    requires
        reuse::reuse_ends(end, source, copy_only, rest, repair, Err(error)),
    ensures
        !(end.run is Succeeded) && !(end.run is Cancelled),
        end.run is Failed <==> (copy_only || !repair.allow_copy_fallback) && rest.len() == 0
            && repair.download_url is None && !repair.verify_destination_fallback,
        !copy_only && repair.allow_copy_fallback ==> (end.run matches TaskRun::Continue {
            task: Task::ReuseFile {
                source: from,
                copy_only: copies,
                remaining_source_candidates,
                repair: same,
            },
        } && from@ == source && copies && steps::models(remaining_source_candidates@) == rest
            && same@ == repair),
        (copy_only || !repair.allow_copy_fallback) && rest.len() > 0 ==> (
        end.run matches TaskRun::Continue { task: Task::RepairFile { repair: same, source_candidates } }
            && same@ == repair && steps::models(source_candidates@) == rest),
        (copy_only || !repair.allow_copy_fallback) && rest.len() == 0 && repair.download_url is Some
            ==> (end.run matches TaskRun::Expand { expansion, next } && next is None
            && expansion@.len() == 1 && brings(expansion@[0].task, repair)),
        (copy_only || !repair.allow_copy_fallback) && rest.len() == 0
            && repair.verify_destination_fallback ==> (end.run matches TaskRun::Expand {
            expansion,
            next,
        } && next is None && expansion@.len() == 1 && looks_in_place(expansion@[0].task, repair)),
{
}

/// A reuse that succeeded is reported with how it was done and where, and the file
/// is reported good.
pub proof fn law_reused_files_are_reported(
    end: ReuseEnd,
    source: PathModel,
    copy_only: bool,
    rest: Seq<PathModel>,
    repair: RepairModel,
    method: PathReuseMethod,
)
    requires
        reuse::reuse_ends(end, source, copy_only, rest, repair, Ok(method)),
    ensures
        end.run is Succeeded,
        end.events@.len() == 2,
        method is Hardlink ==> (end.events@[0] matches WorkerEvent::Outcome {
            outcome: TaskOutcome::Hardlinked { path },
        } && path@ == repair.dest.text()),
        method is Copy ==> (end.events@[0] matches WorkerEvent::Outcome {
            outcome: TaskOutcome::Copied { path },
        } && path@ == repair.dest.text()),
        end.events@[1] matches WorkerEvent::Outcome {
            outcome: TaskOutcome::Verified { path, ok, issue },
        } && path@ == repair.logical_path && ok && issue is None,
{
}

proof fn lemma_other_files_stay(paths: Seq<PathModel>, path: PathModel, k: int, other: PathModel)
    requires
        0 <= k <= paths.len(),
        other != path,
    ensures
        reuse::without(paths, path, k).contains(other) <==> (exists|i: int|
            0 <= i < k && paths[i] == other),
    decreases k,
{
    if k > 0 {
        lemma_other_files_stay(paths, path, k - 1, other);
        let before = reuse::without(paths, path, k - 1);
        let list = reuse::without(paths, path, k);
        if list.contains(other) {
            let i = choose|i: int| 0 <= i < list.len() && list[i] == other;
            if i < before.len() {
                assert(before[i] == other);
                let j = choose|j: int| 0 <= j < k - 1 && paths[j] == other;
                assert(paths[j] == other);
            } else {
                assert(paths[k - 1] == other);
            }
        }
        if exists|i: int| 0 <= i < k && paths[i] == other {
            let i = choose|i: int| 0 <= i < k && paths[i] == other;
            if i < k - 1 {
                assert(paths[i] == other);
                let j = choose|j: int| 0 <= j < before.len() && before[j] == other;
                assert(list[j] == other);
            } else {
                assert(list[list.len() - 1] == other);
            }
        }
    }
}

/// A good file that was found is reused, with every other source and no longer
/// itself in reserve. A volume without a good file ends the search only if it was
/// the last: then the volumes to copy from are looked at, if there are any, else
/// the file is brought to its place by its download. There is an error only where
/// there is none.
pub proof fn law_search_goes_on_until_a_file_is_found(
    m: SearchModel,
    n: SearchModel,
    id: u64,
    copy_only: bool,
    source: Option<PathModel>,
    result: Result<Vec<Task>, Message>,
    other: PathModel,
)
    requires
        reuse::volume_looked_at(m, n, id, copy_only, source, result),
        !m.resolved,
    ensures
        result is Err <==> source is None && m.remaining <= 1 && m.deferred.len() == 0
            && m.repair.download_url is None && !m.repair.verify_destination_fallback,
        source matches Some(path) ==> {
            &&& n.resolved
            &&& result matches Ok(tasks) && tasks@.len() == 1 && (tasks@[0] matches Task::ReuseFile {
                source: from,
                copy_only: copies,
                remaining_source_candidates,
                repair,
            } && from@ == path && copies == copy_only && repair@ == m.repair && (
            steps::models(remaining_source_candidates@).contains(other) <==> m.sources.contains(
                other,
            ) && other != path))
        },
        source is None && m.remaining > 1 ==> !n.resolved && n.remaining == m.remaining - 1
            && n.deferred == m.deferred && (result matches Ok(tasks) && tasks@.len() == 0),
        source is None && m.remaining <= 1 && m.deferred.len() > 0 ==> {
            &&& !n.resolved
            &&& n.remaining == m.deferred.len()
            &&& n.deferred.len() == 0
            &&& result matches Ok(tasks) && tasks@.len() == m.deferred.len() && forall|i: int|
                0 <= i < tasks@.len() ==> ((#[trigger] tasks@[i]) matches Task::VerifyReuseVolume {
                    copy_only: copies,
                    candidates,
                    logical_path,
                    expected_md5,
                    expected_size,
                    group,
                } && copies && steps::models(candidates@) == m.deferred[i].paths && logical_path@
                    == m.repair.logical_path && expected_md5@ == m.repair.expected_md5
                    && expected_size == m.repair.expected_size && group == id)
        },
        source is None && m.remaining <= 1 && m.deferred.len() == 0 && m.repair.download_url is Some
            ==> n.resolved && (result matches Ok(tasks) && tasks@.len() == 1 && brings(
            tasks@[0],
            m.repair,
        )),
        source is None && m.remaining <= 1 && m.deferred.len() == 0
            && m.repair.verify_destination_fallback ==> n.resolved && (result matches Ok(tasks)
            && tasks@.len() == 1 && looks_in_place(tasks@[0], m.repair)),
        n.sources == m.sources && n.repair == m.repair,
{
    if let Some(path) = source {
        let rest = reuse::without(m.sources, path, m.sources.len() as int);
        if other != path {
            lemma_other_files_stay(m.sources, path, m.sources.len() as int, other);
            if m.sources.contains(other) {
                let i = choose|i: int| 0 <= i < m.sources.len() && m.sources[i] == other;
                assert(m.sources[i] == other);
            }
            if exists|i: int| 0 <= i < m.sources.len() && m.sources[i] == other {
                assert(m.sources.contains(other));
            }
        } else {
            lemma_found_file_goes(m.sources, path, m.sources.len() as int);
        }
    }
    if source is None && m.remaining <= 1 && m.deferred.len() > 0 {
        let tasks = result->Ok_0@;
        assert forall|i: int| 0 <= i < tasks.len() implies ((
        #[trigger] tasks[i]) matches Task::VerifyReuseVolume {
            copy_only: copies,
            candidates,
            logical_path,
            expected_md5,
            expected_size,
            group,
        } && copies && steps::models(candidates@) == m.deferred[i].paths && logical_path@
            == m.repair.logical_path && expected_md5@ == m.repair.expected_md5 && expected_size
            == m.repair.expected_size && group == id) by {
            assert(reuse::looks_on_volume(tasks[i], m.deferred[i], true, m.repair, id));
        }
    }
}

proof fn lemma_found_file_goes(paths: Seq<PathModel>, path: PathModel, k: int)
    requires
        0 <= k <= paths.len(),
    ensures
        !reuse::without(paths, path, k).contains(path),
    decreases k,
{
    if k > 0 {
        lemma_found_file_goes(paths, path, k - 1);
        let before = reuse::without(paths, path, k - 1);
        let list = reuse::without(paths, path, k);
        if list.contains(path) {
            let i = choose|i: int| 0 <= i < list.len() && list[i] == path;
            if i < before.len() {
                assert(before[i] == path);
            }
        }
    }
}

/// Whether a file is in one of some groups.
pub open spec fn in_groups(groups: Seq<VolumeGroup>, path: PathModel) -> bool {
    exists|g: int| 0 <= g < groups.len() && (#[trigger] groups[g]).paths.contains(path)
}

proof fn lemma_group_place(groups: Seq<VolumeGroup>, key: Seq<char>, k: int)
    requires
        0 <= k,
    ensures
        reuse::group_place(groups, key, k) matches Some(at) ==> k <= at < groups.len()
            && groups[at].key == key,
    decreases groups.len() - k,
{
    if k < groups.len() && groups[k].key != key {
        lemma_group_place(groups, key, k + 1);
    }
}

proof fn lemma_grouped(
    groups: Seq<VolumeGroup>,
    key: Seq<char>,
    path: PathModel,
    other: PathModel,
)
    ensures
        in_groups(reuse::grouped(groups, key, path), other) <==> in_groups(groups, other) || other
            == path,
{
    let after = reuse::grouped(groups, key, path);
    lemma_group_place(groups, key, 0);
    match reuse::group_place(groups, key, 0) {
        Some(at) => {
            let more = groups[at].paths.push(path);
            if in_groups(groups, other) {
                let g = choose|g: int|
                    0 <= g < groups.len() && (#[trigger] groups[g]).paths.contains(other);
                if g == at {
                    let i = choose|i: int|
                        0 <= i < groups[at].paths.len() && groups[at].paths[i] == other;
                    assert(more[i] == other);
                }
                assert(after[g].paths.contains(other));
            }
            if other == path {
                assert(more[more.len() - 1] == path);
                assert(after[at].paths.contains(other));
            }
            if in_groups(after, other) {
                let g = choose|g: int|
                    0 <= g < after.len() && (#[trigger] after[g]).paths.contains(other);
                if g == at {
                    let i = choose|i: int| 0 <= i < more.len() && more[i] == other;
                    if i < groups[at].paths.len() {
                        assert(groups[at].paths[i] == other);
                        assert(groups[at].paths.contains(other));
                    }
                } else {
                    assert(groups[g].paths.contains(other));
                }
            }
        },
        None => {
            if in_groups(groups, other) {
                let g = choose|g: int|
                    0 <= g < groups.len() && (#[trigger] groups[g]).paths.contains(other);
                assert(after[g].paths.contains(other));
            }
            if other == path {
                assert(seq![path][0] == other);
                assert(after[after.len() - 1].paths.contains(other));
            }
            if in_groups(after, other) {
                let g = choose|g: int|
                    0 <= g < after.len() && (#[trigger] after[g]).paths.contains(other);
                if g < groups.len() {
                    assert(groups[g].paths.contains(other));
                }
            }
        },
    }
}

/// Whether a source is the first of its file, and may be used.
pub open spec fn is_usable(
    sources: Seq<ReuseSource>,
    destination: Option<Seq<char>>,
    allow_copy: bool,
    i: int,
) -> bool {
    &&& forall|j: int| 0 <= j < i ==> (#[trigger] sources[j]).path@ != sources[i].path@
    &&& allow_copy || !crosses(sources[i], destination)
}

proof fn lemma_usable(
    sources: Seq<ReuseSource>,
    destination: Option<Seq<char>>,
    allow_copy: bool,
    i: int,
)
    ensures
        is_usable(sources, destination, allow_copy, i) == reuse::is_tried(
            sources,
            destination,
            allow_copy,
            i,
        ),
        crosses(sources[i], destination) == reuse::copies(sources[i], destination),
{
}

/// Files are grouped by the way in which they can be used: each usable file is in
/// a group of its way, and a group holds no other file.
pub proof fn law_groups_hold_the_usable_files(
    sources: Seq<ReuseSource>,
    destination: Option<Seq<char>>,
    allow_copy: bool,
    copy_only: bool,
    k: int,
    path: PathModel,
)
    requires
        0 <= k <= sources.len(),
    ensures
        in_groups(
            reuse::volume_groups(sources, destination, allow_copy, copy_only, k),
            path,
        ) <==> exists|i: int|
            0 <= i < k && (#[trigger] sources[i]).path@ == path && is_usable(
                sources,
                destination,
                allow_copy,
                i,
            ) && crosses(sources[i], destination) == copy_only,
    decreases k,
{
    if k > 0 {
        law_groups_hold_the_usable_files(
            sources,
            destination,
            allow_copy,
            copy_only,
            k - 1,
            path,
        );
        let before = reuse::volume_groups(sources, destination, allow_copy, copy_only, k - 1);
        let source = sources[k - 1];
        lemma_usable(sources, destination, allow_copy, k - 1);
        lemma_grouped(before, source.group_key@, source.path@, path);
        if in_groups(before, path) {
            let i = choose|i: int|
                0 <= i < k - 1 && (#[trigger] sources[i]).path@ == path && is_usable(
                    sources,
                    destination,
                    allow_copy,
                    i,
                ) && crosses(sources[i], destination) == copy_only;
            assert(sources[i].path@ == path);
        }
        if in_groups(
            reuse::volume_groups(sources, destination, allow_copy, copy_only, k),
            path,
        ) && !in_groups(before, path) {
            assert(sources[k - 1].path@ == path);
        }
    }
}

/// Every usable file is tried, in the order in which the sources came, and no
/// other is.
pub proof fn law_usable_files_are_tried(
    sources: Seq<ReuseSource>,
    destination: Option<Seq<char>>,
    allow_copy: bool,
    k: int,
    path: PathModel,
)
    requires
        0 <= k <= sources.len(),
    ensures
        reuse::tried(sources, destination, allow_copy, k).contains(path) <==> exists|i: int|
            0 <= i < k && (#[trigger] sources[i]).path@ == path && is_usable(
                sources,
                destination,
                allow_copy,
                i,
            ),
    decreases k,
{
    if k > 0 {
        law_usable_files_are_tried(sources, destination, allow_copy, k - 1, path);
        lemma_usable(sources, destination, allow_copy, k - 1);
        let before = reuse::tried(sources, destination, allow_copy, k - 1);
        let list = reuse::tried(sources, destination, allow_copy, k);
        if before.contains(path) {
            let i = choose|i: int|
                0 <= i < k - 1 && (#[trigger] sources[i]).path@ == path && is_usable(
                    sources,
                    destination,
                    allow_copy,
                    i,
                );
            assert(sources[i].path@ == path);
            let j = choose|j: int| 0 <= j < before.len() && before[j] == path;
            assert(list[j] == path);
        }
        if list.contains(path) && !before.contains(path) {
            let j = choose|j: int| 0 <= j < list.len() && list[j] == path;
            if j < before.len() {
                assert(before[j] == path);
            }
            assert(sources[k - 1].path@ == path);
        }
        if is_usable(sources, destination, allow_copy, k - 1) && sources[k - 1].path@ == path {
            assert(list[list.len() - 1] == path);
        }
    }
}

/// Whether a run looks for a good file among candidates, one of which is a file.
pub open spec fn looks_at(run: TaskRun, repair: RepairModel, path: PathModel, copy_only: bool) -> bool {
    run matches TaskRun::Expand { expansion, next } && next is None && exists|n: int|
        0 <= n < expansion@.len() && ((#[trigger] expansion@[n]).task matches Task::VerifyReuseVolume {
            copy_only: copies,
            candidates,
            expected_md5,
            expected_size,
            ..
        } && copies == copy_only && steps::models(candidates@).contains(path) && expected_md5@
            == repair.expected_md5 && expected_size == repair.expected_size)
}

/// Bringing a file to its place starts with a look at every usable file that can
/// be linked; where there is none, with a look at every one that can be copied;
/// else those wait until no file can be linked.
pub proof fn law_repair_looks_at_every_usable_file(
    start: RepairStart,
    sources: Seq<ReuseSource>,
    destination: Option<Seq<char>>,
    repair: RepairModel,
    prepare: Seq<Task>,
    id: u64,
    i: int,
)
    requires
        reuse::repair_starts(start, sources, destination, repair, prepare, id),
        0 <= i < sources.len(),
        is_usable(sources, destination, repair.allow_copy_fallback, i),
    ensures
        start.search matches Some(search) && !search@.resolved && search@.repair == repair
            && search@.sources.contains(sources[i].path@) && (looks_at(
            start.run,
            repair,
            sources[i].path@,
            crosses(sources[i], destination),
        ) || (crosses(sources[i], destination) && in_groups(
            search@.deferred,
            sources[i].path@,
        ))),
        !crosses(sources[i], destination) ==> looks_at(
            start.run,
            repair,
            sources[i].path@,
            false,
        ),
{
    let n = sources.len() as int;
    let allow = repair.allow_copy_fallback;
    let path = sources[i].path@;
    let linked = reuse::volume_groups(sources, destination, allow, false, n);
    let copied = reuse::volume_groups(sources, destination, allow, true, n);
    law_groups_hold_the_usable_files(sources, destination, allow, false, n, path);
    law_groups_hold_the_usable_files(sources, destination, allow, true, n, path);
    law_usable_files_are_tried(sources, destination, allow, n, path);
    assert(sources[i].path@ == path);
    if crosses(sources[i], destination) {
        assert(in_groups(copied, path));
    } else {
        assert(in_groups(linked, path));
    }
    let volumes = if linked.len() == 0 {
        copied
    } else {
        linked
    };
    let copy_only = linked.len() == 0;
    let beside = reuse::run_beside(repair, prepare);
    assert(linked.len() > 0 || copied.len() > 0);
    let (all, first) = choose|all: Seq<Task>, first: Seq<Task>| #[trigger]
        reuse::is_followed(all, first, beside) && reuse::look_on_volumes(
            first,
            volumes,
            copy_only,
            repair,
            id,
        ) && reuse::runs_all(start.run, all);
    if copy_only == crosses(sources[i], destination) {
        let g = choose|g: int| 0 <= g < volumes.len() && (#[trigger] volumes[g]).paths.contains(path);
        assert(reuse::looks_on_volume(first[g], volumes[g], copy_only, repair, id));
        assert(all[g] == first[g]);
        let expansion = start.run->Expand_expansion;
        assert(expansion@[g].task == all[g]);
    }
}

/// Whether no source may be used: copies are not allowed, and no source can be
/// linked.
pub open spec fn has_no_usable_file(
    sources: Seq<ReuseSource>,
    destination: Option<Seq<char>>,
    allow_copy: bool,
) -> bool {
    forall|i: int|
        0 <= i < sources.len() ==> !allow_copy && #[trigger] crosses(sources[i], destination)
}

/// A file without a usable source is brought to its place by its download, after a
/// look at what lies there where that was put off. It is a failure only where
/// neither is possible.
pub proof fn law_repair_without_a_source_downloads(
    start: RepairStart,
    sources: Seq<ReuseSource>,
    destination: Option<Seq<char>>,
    repair: RepairModel,
    prepare: Seq<Task>,
    id: u64,
)
    requires
        reuse::repair_starts(start, sources, destination, repair, prepare, id),
        has_no_usable_file(sources, destination, repair.allow_copy_fallback),
    ensures
        start.search is None,
        start.run is Failed <==> repair.download_url is None && !repair.verify_destination_fallback,
        repair.download_url is Some ==> (start.run matches TaskRun::Expand { expansion, next }
            && next is None && expansion@.len() > 0 && brings(expansion@[0].task, repair)),
        repair.verify_destination_fallback ==> (start.run matches TaskRun::Expand {
            expansion,
            next,
        } && next is None && expansion@.len() == 1 && looks_in_place(expansion@[0].task, repair)),
{
    let n = sources.len() as int;
    let allow = repair.allow_copy_fallback;
    lemma_no_groups(sources, destination, allow, n);
    let beside = reuse::run_beside(repair, prepare);
    if !(repair.download_url is None && !repair.verify_destination_fallback) {
        let (all, first) = choose|all: Seq<Task>, first: Seq<Task>| #[trigger]
            reuse::is_followed(all, first, beside) && reuse::are_fallback_tasks(first, repair)
                && reuse::runs_all(start.run, all);
        assert(all[0] == first[0]);
        let expansion = start.run->Expand_expansion;
        assert(expansion@[0].task == all[0]);
    }
}

proof fn lemma_no_groups(
    sources: Seq<ReuseSource>,
    destination: Option<Seq<char>>,
    allow_copy: bool,
    k: int,
)
    requires
        0 <= k <= sources.len(),
        has_no_usable_file(sources, destination, allow_copy),
    ensures
        reuse::volume_groups(sources, destination, allow_copy, false, k).len() == 0,
        reuse::volume_groups(sources, destination, allow_copy, true, k).len() == 0,
    decreases k,
{
    if k > 0 {
        lemma_no_groups(sources, destination, allow_copy, k - 1);
        lemma_usable(sources, destination, allow_copy, k - 1);
        assert(crosses(sources[k - 1], destination));
    }
}

} // verus!
