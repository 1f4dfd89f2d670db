//! Where files are worked on before they are put in place, and what settings, lists
//! and graphs hold.

use crate::archive::batches;
use crate::archive::cache;
use crate::archive::entries;
use crate::archive::entries::{EntryGroups, EntryRules};
use crate::archive::entry_laws;
use crate::archive::fetch;
use crate::archive::fetch::DirectoryDiscovery;
use crate::archive::groups;
use crate::archive::groups::PackFile;
use crate::archive::placing;
use crate::archive::planning;
use crate::archive::planning::{ExtractionEnd, ExtractionStep, PatchPlanned};
use crate::archive::repair;
use crate::archive::volume_run;
use crate::archive::volume_run::{PartEnd, PartStep};
use crate::archive::volumes;
use crate::archive::work;
use crate::archive::work::ArchiveSettings;
use crate::commit;
use crate::commit::CommitFileJob;
use crate::download;
use crate::error::{GraphError, Message};
use crate::event::{TaskOutcome, WorkerEvent};
use crate::files;
use crate::graph::expansion;
use crate::graph::expansion::{ExpansionNodeId, GraphExpansion, LocalNode, TaskRun};
use crate::graph::install;
use crate::graph::model;
use crate::graph::model::{GraphModel, NodeState, TaskGraphSummary};
use crate::graph::node::TaskDependencyToken;
use crate::number;
use crate::patch::apply;
use crate::patch::plan::PatchPlan;
use crate::patch::steps;
use crate::path::{FilePath, PathModel};
use crate::path_safety;
use crate::reuse;
use crate::reuse::SearchModel;
use crate::scheduler::backlog;
use crate::scheduler::config::TaskPoolConfig;
use crate::scheduler::coordinator;
use crate::scheduler::coordinator::{RunModel, StartTimes};
use crate::scheduler::metrics::TaskPoolMetrics;
use crate::scheduler::pool;
use crate::scheduler::pool::TaskPoolRunnerGroup;
use crate::scheduler::progress;
use crate::scheduler::progress::{Shown, Update};
use crate::task::{
    ArchiveFileRepairTask, ArchiveIndex, ArchivePart, ArchiveWork, ExpectedFile, FileDownload,
    PreparedArchive, Task,
};
use crate::text;
use crate::text_laws;
use crate::verify::IssueKind;
use std::sync::Arc;
use vstd::prelude::*;

verus! {

/// What a file is written to meanwhile is a hidden file beside it, with the name of
/// the file in its own. It can be had for every file with a name, and for nothing
/// else.
pub proof fn law_files_are_worked_on_beside_their_place(path: PathModel, ending: Seq<char>)
    requires
        path.parts.len() > 0,
    ensures
        files::neighbour(path, ending) is Ok <==> path.parts.last() != seq!['.', '.'],
        files::neighbour(path, ending) matches Ok(other) ==> other.absolute == path.absolute
            && other.parts.drop_last() == path.parts.drop_last() && other.parts.last() == "."@
            + path.parts.last() + ending,
{
    if path.parts.last() != seq!['.', '.'] {
        let parent = path.parent()->0;
        let name = "."@ + path.parts.last() + ending;
        assert(parent.child(name).parts.drop_last() =~= path.parts.drop_last());
    }
}

/// No two attempts of a process write to the same file.
pub proof fn law_attempts_write_apart(
    path: PathModel,
    process: u32,
    counter: usize,
    other: usize,
)
    requires
        counter != other,
        path.parts.len() > 0,
        path.parts.last() != seq!['.', '.'],
    ensures
        files::neighbour(path, files::temp_ending(process, counter)) != files::neighbour(
            path,
            files::temp_ending(process, other),
        ),
{
    if text::decimal(counter as nat) == text::decimal(other as nat) {
        text_laws::law_decimals_differ(counter as nat, other as nat);
    }
    let parent = path.parent()->0;
    let name = path.parts.last();
    let a = files::temp_ending(process, counter);
    let b = files::temp_ending(process, other);
    let lead = ".griffr.tmp."@ + text::decimal(process as nat) + "."@;
    assert(a == lead + text::decimal(counter as nat));
    assert(b == lead + text::decimal(other as nat));
    if "."@ + name + a == "."@ + name + b {
        let front = "."@ + name;
        assert((front + a).skip(front.len() as int) =~= a);
        assert((front + b).skip(front.len() as int) =~= b);
        assert(a.skip(lead.len() as int) =~= text::decimal(counter as nat));
        assert(b.skip(lead.len() as int) =~= text::decimal(other as nat));
    }
    let left = parent.child("."@ + name + a);
    let right = parent.child("."@ + name + b);
    assert(left.parts.last() == "."@ + name + a);
    assert(right.parts.last() == "."@ + name + b);
}

/// An archive is extracted in a directory of its own, where files are to be worked on
/// if that is set, and else beside the installation.
pub proof fn law_archives_are_extracted_apart(
    dest: PathModel,
    base_name: Seq<char>,
    work_dir: Option<PathModel>,
    process: u32,
    counter: usize,
    other: usize,
)
    ensures
        files::staging_dir(dest, base_name, work_dir, process, counter).parent() == match work_dir {
            Some(dir) => Some(dir),
            None => match dest.parent() {
                Some(dir) => Some(dir),
                None => Some(dest),
            },
        },
        counter != other ==> files::staging_dir(dest, base_name, work_dir, process, counter)
            != files::staging_dir(dest, base_name, work_dir, process, other),
{
    let parent = match work_dir {
        Some(dir) => dir,
        None => match dest.parent() {
            Some(dir) => dir,
            None => dest,
        },
    };
    let lead = ".griffr.extract."@ + base_name + "."@ + text::decimal(process as nat) + "."@;
    let a = lead + text::decimal(counter as nat);
    let b = lead + text::decimal(other as nat);
    assert(parent.child(a).parts.drop_last() =~= parent.parts);
    assert(parent.child(a).parts.last() == a);
    assert(parent.child(b).parts.last() == b);
    if counter != other {
        if text::decimal(counter as nat) == text::decimal(other as nat) {
            text_laws::law_decimals_differ(counter as nat, other as nat);
        }
        assert(a.skip(lead.len() as int) =~= text::decimal(counter as nat));
        assert(b.skip(lead.len() as int) =~= text::decimal(other as nat));
    }
}

/// What a patch makes is made in the directory to work in.
pub proof fn law_patches_are_worked_on_apart(
    work_dir: PathModel,
    destination: PathModel,
    counter: usize,
)
    ensures
        files::patch_work_path(work_dir, destination, counter).parent() == Some(work_dir),
{
    let name = match destination.file_name() {
        Some(name) => name,
        None => "patch-output"@,
    };
    let full = "."@ + name + ".griffr-patch-"@ + text::decimal(counter as nat) + ".tmp"@;
    assert(work_dir.child(full).parts.drop_last() =~= work_dir.parts);
}

/// What is known of the volume of a path is asked of the nearest directory above it
/// that is there.
pub proof fn law_the_nearest_directory_is_asked(path: PathModel, there: Seq<bool>, k: int)
    requires
        0 <= k < there.len(),
        there.len() == path.parts.len() + 1,
        there[k],
        forall|j: int| 0 <= j < k ==> !#[trigger] there[j],
    ensures
        files::probe_of(path, there) matches Some(probe) && probe.absolute == path.absolute
            && probe.parts == path.parts.take(path.parts.len() - k),
{
    lemma_nearest(there, 0, k);
}

proof fn lemma_nearest(there: Seq<bool>, from: int, k: int)
    requires
        0 <= from <= k < there.len(),
        there[k],
        forall|j: int| 0 <= j < k ==> !#[trigger] there[j],
    ensures
        files::nearest(there, from) == Some(k),
    decreases k - from,
{
    if from < k {
        lemma_nearest(there, from + 1, k);
    }
}

/// A volume is known by what the system knows it by; without that, all that lies below
/// the root is one volume.
pub proof fn law_volumes_are_known_by_their_identity(
    path: PathModel,
    other: PathModel,
    id: Option<Seq<char>>,
)
    ensures
        id matches Some(known) ==> files::volume_key(path, id) == known,
        id is None && path.absolute && other.absolute ==> files::volume_key(path, id)
            == files::volume_key(other, id),
        id is None && !path.absolute && !other.absolute && path.parts.len() > 0
            && other.parts.len() > 0 && path.parts[0] == other.parts[0] ==> files::volume_key(
            path,
            id,
        ) == files::volume_key(other, id),
{
}

/// What was extracted aside is moved to the same place in the installation.
pub proof fn law_staged_files_keep_their_place(
    job: CommitFileJob,
    staging_root: PathModel,
    dest_root: PathModel,
    path: PathModel,
)
    requires
        commit::moves_staged(job, staging_root, dest_root, path),
        !path.absolute,
    ensures
        job.source@.starts_with(staging_root),
        job.destination@.starts_with(dest_root),
        job.source@.below(staging_root) == job.destination@.below(dest_root),
{
    assert(staging_root.join(path).parts.take(staging_root.parts.len() as int)
        =~= staging_root.parts);
    assert(dest_root.join(path).parts.take(dest_root.parts.len() as int) =~= dest_root.parts);
    assert(staging_root.join(path).parts.skip(staging_root.parts.len() as int) =~= path.parts);
    assert(dest_root.join(path).parts.skip(dest_root.parts.len() as int) =~= path.parts);
}

/// A setting that is a positive number is taken; without one, and for anything else,
/// the default is.
pub proof fn law_settings_are_taken(secs: u64, default_secs: u64, raw: Seq<char>)
    ensures
        secs > 0 && text::trimmed(raw) == text::decimal(secs as nat) ==> download::timeout_secs(
            Some(raw),
            default_secs,
        ) == secs,
        download::timeout_secs(None, default_secs) == default_secs,
        number::parsed_unsigned(text::trimmed(raw)) is None ==> download::timeout_secs(
            Some(raw),
            default_secs,
        ) == default_secs,
        default_secs > 0 ==> download::timeout_secs(Some(raw), default_secs) > 0,
{
    text_laws::law_decimal_reads_back(secs as nat);
    let written = text::decimal(secs as nat);
    assert(written.len() > 0);
    assert('0' <= written[0] <= '9');
}

/// A transfer that goes on asks for all that follows the bytes that are there.
pub proof fn law_transfers_ask_for_the_rest(offset: u64, other: u64)
    ensures
        download::range_text(offset) == download::range_text(other) <==> offset == other,
{
    if offset != other {
        if text::decimal(offset as nat) == text::decimal(other as nat) {
            text_laws::law_decimals_differ(offset as nat, other as nat);
        }
        let a = "bytes="@ + text::decimal(offset as nat);
        let b = "bytes="@ + text::decimal(other as nat);
        if a + "-"@ == b + "-"@ {
            assert(a.len() == b.len()) by {
                assert((a + "-"@).len() == (b + "-"@).len());
            }
            assert((a + "-"@).take(a.len() as int) =~= a);
            assert((b + "-"@).take(b.len() as int) =~= b);
            let n = "bytes="@.len() as int;
            assert(a.skip(n) =~= text::decimal(offset as nat));
            assert(b.skip(n) =~= text::decimal(other as nat));
        }
    }
}

/// The list of a release is refused if and only if it is empty or holds a file that is
/// no volume of an archive.
pub proof fn law_lists_of_volumes_are_refused(packs: Seq<PackFile>)
    ensures
        groups::packs_fault(packs) is Some <==> packs.len() == 0 || exists|i: int|
            0 <= i < packs.len() && !is_volume(#[trigger] packs[i]),
{
    lemma_packs(packs, 0);
}

/// Whether a listed file has the name of a volume, with a number that can be counted
/// with.
pub open spec fn is_volume(pack: PackFile) -> bool {
    groups::url_file_name(pack.url@) matches Some(name) && (groups::volume_name(name) matches Some(
        found,
    ) && number::parsed_number(found.1) is Some)
}

proof fn lemma_packs(packs: Seq<PackFile>, k: int)
    requires
        0 <= k <= packs.len(),
    ensures
        groups::first_fault(packs, k) is Some <==> exists|i: int|
            k <= i < packs.len() && !is_volume(#[trigger] packs[i]),
    decreases packs.len() - k,
{
    if k < packs.len() {
        lemma_packs(packs, k + 1);
        if !is_volume(packs[k]) {
            assert(packs[k].fault() is Some);
        } else {
            assert(packs[k].fault() is None);
        }
    }
}

/// The file that is expected under a name is the first that is listed under it.
pub proof fn law_expected_files_are_found(
    list: Seq<(String, ExpectedFile)>,
    key: Seq<char>,
    i: int,
)
    requires
        0 <= i < list.len(),
        list[i].0@ == key,
    ensures
        placing::is_expected(list, key),
        forall|k: int| #[trigger] placing::expected_at(list, key, k) ==> k <= i && list[k].0@ == key,
{
    lemma_first_listed(list, key, i);
}

proof fn lemma_first_listed(list: Seq<(String, ExpectedFile)>, key: Seq<char>, i: int)
    requires
        0 <= i < list.len(),
        list[i].0@ == key,
    ensures
        placing::is_expected(list, key),
    decreases i,
{
    if exists|j: int| 0 <= j < i && (#[trigger] list[j]).0@ == key {
        let j = choose|j: int| 0 <= j < i && (#[trigger] list[j]).0@ == key;
        lemma_first_listed(list, key, j);
    } else {
        assert(placing::expected_at(list, key, i));
    }
}

/// A file that is put in place is reported as changed, with how many are, and with its
/// digest if it was proved by one.
pub proof fn law_placed_files_are_reported(
    events: Seq<WorkerEvent>,
    path: Seq<char>,
    normalized: Seq<char>,
    proof_of: Option<crate::digest::CopiedFileDigest>,
    finished: usize,
    total: usize,
)
    requires
        placing::reports_placed(events, path, normalized, proof_of, finished, total),
    ensures
        exists|i: int|
            0 <= i < events.len() && ((#[trigger] events[i]) matches WorkerEvent::Outcome {
                outcome: TaskOutcome::Changed { path: p },
            } && p@ == normalized),
        exists|i: int|
            0 <= i < events.len() && ((#[trigger] events[i]) matches WorkerEvent::Progress {
                completed,
                total: t,
                ..
            } && completed == finished && t == total),
        proof_of matches Some(found) ==> exists|i: int|
            0 <= i < events.len() && ((#[trigger] events[i]) matches WorkerEvent::Outcome {
                outcome: TaskOutcome::Committed { path: p, bytes, md5 },
            } && p@ == path && bytes == found.bytes && md5@ == found.md5@),
        proof_of is None ==> forall|i: int|
            0 <= i < events.len() ==> !((#[trigger] events[i]) matches WorkerEvent::Outcome {
                outcome: TaskOutcome::Committed { .. },
            }),
{
    let n = events.len() as int;
    assert(events[n - 2] is Outcome);
    assert(events[n - 1] is Progress);
    if proof_of is Some {
        assert(events[0] is Outcome);
    }
}

/// A plan that was kept is reported, whether its archive can be extracted or not; what
/// cannot be kept is a failure without a report. What was prepared is never removed.
pub proof fn law_kept_plans_are_reported(
    end: ExtractionEnd,
    archive: Arc<ArchiveWork>,
    archive_index: Arc<ArchiveIndex>,
    staging_dir: FilePath,
    planned: PatchPlanned,
)
    requires
        planning::saving_ends(end, archive, archive_index, staging_dir, planned),
    ensures
        !end.cleanup,
        end.run is Failed <==> !(planned matches PatchPlanned::Shards { split, .. } && split is Ok),
        planned is Lost <==> end.events@.len() == 0,
        !(planned is Lost) ==> (end.events@[0] matches WorkerEvent::Outcome {
            outcome: TaskOutcome::ArchiveCheck { path, .. },
        } && path@ == archive.base_name@),
{
}

/// A patch is worked on where that is set, and any other archive is not.
pub proof fn law_only_patches_are_worked_on_elsewhere(archive: ArchiveWork, index: ArchiveIndex)
    ensures
        planning::staging_root(archive, index) is Some <==> index.has_patch_manifest
            && archive.work_dir is Some,
        planning::staging_root(archive, index) matches Some(dir) ==> dir == archive.work_dir->0@,
{
}

/// An archive that is no patch is extracted whole, unless an entry or a control file of
/// it is refused; nothing is put in place after the others but its control files.
pub proof fn law_whole_archives_begin(
    started: (ExtractionStep, PreparedArchive),
    archive: ArchiveWork,
    index: ArchiveIndex,
    rules: EntryRules,
    shards: usize,
    i: usize,
)
    requires
        planning::begins_whole(started, archive, index, rules, shards),
        i < index.entry_sizes@.len() <= usize::MAX,
    ensures
        !(started.0 is Probe),
        started.0 matches ExtractionStep::Split { selection } ==> selection.staged@
            == index.control_indices@ && (selection.direct@.contains(i)
            <==> !entry_laws::ends_in_slash(index.names@[i as int]@)
            && !index.control_indices@.contains(i) && !entry_laws::is_left_out(
            archive,
            path_safety::safe_relative_path(index.names@[i as int]@)->Ok_0,
        )) && started.1.deferred_commit_paths@.len() == index.control_indices@.len(),
        started.0 is Fail ==> entries::first_fault(archive, index, rules, 0) is Some
            || entries::control_fault(index, 0) is Some,
{
    if let ExtractionStep::Split { selection } = started.0 {
        let all = EntryGroups {
            direct: selection.direct,
            staged: selection.staged,
            deferred_paths: started.1.deferred_commit_paths,
        };
        entry_laws::law_whole_archives_are_extracted(archive, index, rules, all, i);
    }
}

/// A file is repaired out of the entry of its archive, at the safe path of the entry
/// below the directory that it is extracted to; without one it is not repaired.
pub proof fn law_repaired_files_come_from_their_entry(task: ArchiveFileRepairTask)
    ensures
        repair::repair_source(task) is Ok <==> task.entry_index < task.archive_index.names@.len()
            && path_safety::safe_relative_path(
            task.archive_index.names@[task.entry_index as int]@,
        ) is Ok,
        repair::repair_source(task) matches Ok(source) ==> source == task.staging_dir@.join(
            path_safety::safe_relative_path(
                task.archive_index.names@[task.entry_index as int]@,
            )->Ok_0,
        ),
{
}

/// A download may come from an archive if and only if one is known for it and its size
/// is.
pub proof fn law_downloads_may_come_from_archives(download: FileDownload)
    ensures
        repair::may_come_from_archive(download) <==> download.archive_repair is Some
            && download.expected_size is Some,
{
}

/// A volume that could not be had is tried again as long as attempts are left, and is
/// reported bad after the last.
pub proof fn law_volumes_are_tried_again(
    end: PartEnd,
    path: Seq<char>,
    action: Seq<char>,
    retry_count: u32,
    max_retries: u32,
    error: Seq<char>,
    issue: Option<IssueKind>,
)
    requires
        volume_run::tries_again_or_fails(
            end,
            path,
            action,
            retry_count,
            max_retries,
            error,
            issue,
        ),
    ensures
        retry_count < max_retries <==> (end.step matches PartStep::Again { retry_count: n } && n
            == retry_count + 1),
        retry_count >= max_retries <==> end.step is Fail,
        end.step is Fail ==> (end.events@[0] matches WorkerEvent::Outcome {
            outcome: TaskOutcome::Verified { path: p, ok, .. },
        } && p@ == path && !ok),
        end.events@.len() == 1,
{
}

/// A volume that came is reported good, with its bytes.
pub proof fn law_downloaded_volumes_are_reported(end: PartEnd, path: Seq<char>, bytes: u64)
    requires
        volume_run::is_downloaded(end, path, bytes),
    ensures
        end.step is Done,
        end.events@[0] matches WorkerEvent::Outcome {
            outcome: TaskOutcome::Downloaded { path: p, bytes: b },
        } && p@ == path && b == bytes,
        end.events@[1] matches WorkerEvent::Outcome {
            outcome: TaskOutcome::Verified { path: p, ok, .. },
        } && p@ == path && ok,
{
}

/// A file that was found usable is used at once; without one the search goes on, and a
/// failure comes only where it is over and nothing else can bring the file.
pub proof fn law_searches_run_on(
    m: SearchModel,
    n: SearchModel,
    id: u64,
    copy_only: bool,
    source: Option<PathModel>,
    run: TaskRun,
)
    requires
        reuse::volume_run(m, n, id, copy_only, source, run),
    ensures
        run is Failed ==> !m.resolved && source is None && m.remaining <= 1 && m.deferred.len() == 0
            && m.repair.download_url is None && !m.repair.verify_destination_fallback,
        !m.resolved && source is Some ==> n.resolved && (run matches TaskRun::Expand {
            expansion,
            ..
        } && expansion@.len() == 1 && (expansion@[0].task matches Task::ReuseFile {
            source: s,
            copy_only: c,
            ..
        } && Some(s@) == source && c == copy_only)),
        m.resolved ==> run is Succeeded && n == m,
        !m.resolved && source is None && m.remaining > 1 ==> run is Succeeded && !n.resolved
            && n.remaining == m.remaining - 1,
{
    let result = choose|result: Result<Vec<Task>, Message>| #[trigger]
        reuse::volume_looked_at(m, n, id, copy_only, source, result) && reuse::runs_list(
            run,
            result,
        );
    assert(reuse::volume_looked_at(m, n, id, copy_only, source, result));
}

/// A base is named by its place in the installation if it lies there, with slashes
/// between the parts.
pub proof fn law_bases_are_named_by_their_place(plan: PatchPlan, relative: PathModel)
    requires
        !relative.absolute,
        !plan.install_root@.join(relative).starts_with(plan.vfs_destination@),
    ensures
        apply::base_name(plan, plan.install_root@.join(relative)) == text::replaced(
            relative.text(),
            '\\',
            '/',
        ),
{
    crate::path::law_strip_undoes_join(plan.install_root@, relative);
}

/// A link leads where it says, from the directory that it lies in unless it names the
/// whole way.
pub proof fn law_links_lead_from_their_directory(at: PathModel, link: PathModel)
    requires
        at.parts.len() > 0,
    ensures
        link.absolute ==> steps::link_target(at, link) == link,
        !link.absolute ==> steps::link_target(at, link).parts == at.parts.drop_last() + link.parts
            && steps::link_target(at, link).absolute == at.absolute,
{
}

/// What is known of the volume of a file is known of all files in its directory.
pub proof fn law_directories_share_what_is_known(a: PathModel, b: PathModel)
    requires
        a.parent() is Some,
        a.parent() == b.parent(),
    ensures
        backlog::cache_directory(a) == backlog::cache_directory(b),
        Some(backlog::cache_directory(a)) == a.parent(),
{
}

/// A task that is added to an expansion depends on all that it names, and waits for all
/// tokens that it names. One that names what is not there yet is refused, and nothing
/// changes.
pub proof fn law_added_tasks_depend_on_what_they_name(
    before: Seq<LocalNode>,
    after: Seq<LocalNode>,
    task: Task,
    dependencies: Seq<ExpansionNodeId>,
    tokens: Seq<TaskDependencyToken>,
    binding: Option<TaskDependencyToken>,
    result: Result<ExpansionNodeId, GraphError>,
    k: int,
)
    requires
        GraphExpansion::added(before, after, task, dependencies, tokens, binding, result),
        before.len() < usize::MAX,
    ensures
        result is Err <==> exists|i: int|
            0 <= i < dependencies.len() && (#[trigger] dependencies[i]).0 >= before.len(),
        result is Err ==> after == before,
        result matches Ok(id) ==> id.0 == before.len() && after.len() == before.len() + 1
            && after[before.len() as int].task == task && (0 <= k < before.len() ==> after[k]
            == before[k]) && (0 <= k < dependencies.len()
            ==> after[before.len() as int].dependencies.contains(dependencies[k].0 as u64)) && (0
            <= k < tokens.len() ==> after[before.len() as int].tokens.contains(tokens[k].0)),
{
    if result is Ok {
        assert(after.last() == after[before.len() as int]);
        if 0 <= k < before.len() {
            assert(after.drop_last()[k] == before[k]);
        }
        if 0 <= k < dependencies.len() {
            let places = expansion::positions(dependencies);
            assert(places[k] == dependencies[k].0 as u64);
            assert(places.contains(dependencies[k].0 as u64));
        }
        if 0 <= k < tokens.len() {
            let numbers = expansion::token_numbers(tokens);
            assert(numbers[k] == tokens[k].0);
            assert(numbers.contains(tokens[k].0));
        }
    }
}

/// A graph that is built has a node for each task, which is released after all that it
/// depends on.
pub proof fn law_built_graphs_hold_every_task(exp: Seq<LocalNode>, i: int, d: u64)
    requires
        0 <= i < exp.len(),
        exp[i].dependencies.contains(d),
        d < exp.len(),
    ensures
        install::built(exp).nodes.len() == exp.len(),
        install::built(exp).nodes[i].task == Some(exp[i].task),
        install::built(exp).nodes[i].state is Pending,
        install::built(exp).nodes[d as int].dependents.contains(i),
{
    let m = install::empty_graph();
    assert(install::needs(m, exp, i, d as int));
    lemma_gained(m, exp, d as int, exp.len(), i);
}

proof fn lemma_gained(m: GraphModel, exp: Seq<LocalNode>, g: int, j: nat, i: int)
    requires
        0 <= i < j,
        install::live(m, exp, i, g),
    ensures
        install::gained(m, exp, g, j).contains(m.nodes.len() + i),
    decreases j,
{
    let all = install::gained(m, exp, g, j);
    if i < j - 1 {
        lemma_gained(m, exp, g, (j - 1) as nat, i);
        let before = install::gained(m, exp, g, (j - 1) as nat);
        let k = choose|k: int| 0 <= k < before.len() && before[k] == m.nodes.len() + i;
        assert(all[k] == m.nodes.len() + i);
    } else {
        assert(all.last() == m.nodes.len() + i);
    }
}

/// The counts of a summary add up to all nodes of the graph.
pub proof fn law_summaries_add_up(m: GraphModel, summary: TaskGraphSummary)
    requires
        model::is_summary(m, summary),
    ensures
        summary.pending_nodes + summary.ready_nodes + summary.running_nodes + summary.waiting_nodes
            + summary.succeeded_nodes + summary.failed_nodes + summary.cancelled_nodes
            == summary.total_nodes,
        (forall|i: int| 0 <= i < m.nodes.len() ==> (#[trigger] m.nodes[i]).state is Succeeded)
            ==> summary.succeeded_nodes == summary.total_nodes,
        summary.failed_nodes > 0 ==> exists|i: int|
            0 <= i < m.nodes.len() && (#[trigger] m.nodes[i]).state is Failed,
{
    crate::graph::laws::law_summary_adds_up(m.nodes);
    lemma_tally(m.nodes, NodeState::Succeeded);
    lemma_tally(m.nodes, NodeState::Failed);
}

proof fn lemma_tally(nodes: Seq<model::NodeModel>, state: NodeState)
    ensures
        (forall|i: int| 0 <= i < nodes.len() ==> (#[trigger] nodes[i]).state == state)
            ==> model::tally(nodes, state) == nodes.len(),
        model::tally(nodes, state) > 0 ==> exists|i: int|
            0 <= i < nodes.len() && (#[trigger] nodes[i]).state == state,
    decreases nodes.len(),
{
    if nodes.len() > 0 {
        let rest = nodes.drop_last();
        lemma_tally(rest, state);
        assert(nodes[nodes.len() - 1] == nodes.last());
        assert forall|i: int| 0 <= i < rest.len() implies #[trigger] rest[i] == nodes[i] by {}
        if model::tally(rest, state) > 0 {
            let i = choose|i: int| 0 <= i < rest.len() && (#[trigger] rest[i]).state == state;
            assert(nodes[i].state == state);
        }
        if forall|i: int| 0 <= i < nodes.len() ==> (#[trigger] nodes[i]).state == state {
            assert forall|i: int| 0 <= i < rest.len() implies (#[trigger] rest[i]).state
                == state by {
                assert(nodes[i].state == state);
            }
        }
    }
}

/// What is in the place of a volume can be the volume only if it is a file of its size;
/// one that was put together is used only if nothing is wrong with it.
pub proof fn law_volumes_are_known_by_size(
    found: Option<cache::FileFacts>,
    issue: Option<IssueKind>,
    part: ArchivePart,
)
    ensures
        cache::may_be_volume(found, part.expected_size) <==> (found matches Some(facts)
            && facts.is_file && facts.len == part.expected_size),
        volumes::assembled(found, issue, part) <==> (found matches Some(facts) && facts.is_file
            && facts.len == part.expected_size) && issue is None,
{
}

/// An archive whose directory was found is inspected; one that needs a piece for it is
/// looked at again with the piece. The archive stays the same.
pub proof fn law_discoveries_go_on(archive: Arc<ArchiveWork>, found: DirectoryDiscovery)
    ensures
        found matches DirectoryDiscovery::Ready { central_directory, end_records } ==> (
        fetch::discovery_task(archive, found) matches Task::InspectArchiveIndex {
            work,
            central_directory: c,
            end_records: e,
        } && work == archive && c == central_directory && e == end_records),
        found matches DirectoryDiscovery::NeedsRange { range } ==> (fetch::discovery_task(
            archive,
            found,
        ) matches Task::DiscoverArchiveDirectory { work, required_range } && work == archive
            && required_range == Some(range)),
{
}

/// A file that was committed is reported as changed, with how many are.
pub proof fn law_committed_files_are_reported(
    changed: WorkerEvent,
    progress: WorkerEvent,
    job: CommitFileJob,
    finished: usize,
    total: usize,
)
    requires
        batches::reports_commit(changed, progress, job, finished, total),
    ensures
        changed matches WorkerEvent::Outcome { outcome: TaskOutcome::Changed { path } } && path@
            == text::replaced(job.logical_path@.text(), '\\', '/'),
        progress matches WorkerEvent::Progress { completed, total: t, .. } && completed == finished
            && t == total,
{
}

/// An archive on disk is opened with its volumes as they are, fetches nothing and waits
/// for nothing.
pub proof fn law_local_archives_are_opened(
    run: TaskRun,
    archive: ArchiveWork,
    base_name: Seq<char>,
    list: Seq<FilePath>,
    settings: ArchiveSettings,
)
    requires
        work::discovers(run, archive),
        work::is_local_work(archive, base_name, list, settings),
    ensures
        run matches TaskRun::Continue { task } && (task matches Task::DiscoverArchiveDirectory {
            work: opened,
            required_range,
        } && required_range is None && !opened.remote && opened.volumes@ == list
            && opened.base_name@ == base_name && opened.dest == settings.dest
            && opened.parts@.len() == 0),
        forall|i: int| 0 <= i < archive.tokens@.len() ==> (#[trigger] archive.tokens@[i]) is None,
{
}

/// A volume is put together beside its place, apart from where it is downloaded to.
pub proof fn law_volumes_are_put_together_apart(path: PathModel)
    requires
        path.parts.len() > 0,
        path.parts.last() != seq!['.', '.'],
    ensures
        files::volume_temp(path) is Ok,
        files::volume_temp(path)->Ok_0.parent() == path.parent(),
        files::volume_temp(path) != files::neighbour(path, ".griffr.part"@),
{
    reveal_strlit(".griffr.part");
    reveal_strlit(".griffr-volume.part");
    let parent = path.parent()->0;
    let lead = "."@ + path.parts.last();
    let a = parent.child(lead + ".griffr-volume.part"@);
    let b = parent.child(lead + ".griffr.part"@);
    assert(a.parts.drop_last() =~= parent.parts);
    assert(a.parts.last() == lead + ".griffr-volume.part"@);
    assert(b.parts.last() == lead + ".griffr.part"@);
    assert((lead + ".griffr-volume.part"@).len() != (lead + ".griffr.part"@).len());
}

/// Files that are repaired are extracted beside the installation.
pub proof fn law_repairs_are_extracted_apart(
    install_root: PathModel,
    base_name: Seq<char>,
    process: u32,
    counter: usize,
)
    requires
        install_root.parts.len() > 0,
    ensures
        repair::repair_staging(install_root, base_name, process, counter).parent()
            == install_root.parent(),
{
    law_archives_are_extracted_apart(
        install_root,
        "repair-"@ + base_name,
        None,
        process,
        counter,
        counter,
    );
}

/// The runners of a group share its threads and its blocking pool, and keep their own
/// limits.
pub proof fn law_runners_share_their_pool(group: TaskPoolRunnerGroup, config: TaskPoolConfig)
    ensures
        group.shared(config).dispatcher_threads == group.dispatcher_threads,
        group.shared(config).blocking_pool_limit == group.blocking_pool_limit,
        group.shared(config).network_slots == config.network_slots,
        group.shared(config).cpu_slots == config.cpu_slots,
        group.shared(config).blocking_slots == config.blocking_slots,
        group.shared(config).extract_slots == config.extract_slots,
        group.shared(config).ready_frontier == config.ready_frontier,
{
}

/// A list of tasks is run as a graph with a node for each, none of which waits for
/// another.
pub proof fn law_listed_tasks_wait_for_nothing(tasks: Seq<Task>, i: int)
    requires
        0 <= i < tasks.len(),
    ensures
        pool::batch(tasks).nodes.len() == tasks.len(),
        pool::batch(tasks).nodes[i].task == Some(tasks[i]),
        pool::batch(tasks).nodes[i].dependents.len() == 0,
{
    let exp = tasks.map_values(|task: Task| expansion::plain_node(task));
    assert(exp[i] == expansion::plain_node(tasks[i]));
    lemma_nothing_gained(exp, i, exp.len());
}

proof fn lemma_nothing_gained(exp: Seq<LocalNode>, g: int, j: nat)
    requires
        j <= exp.len(),
        forall|k: int|
            0 <= k < exp.len() ==> (#[trigger] exp[k]).dependencies.len() == 0
                && exp[k].tokens.len() == 0,
    ensures
        install::gained(install::empty_graph(), exp, g, j).len() == 0,
    decreases j,
{
    if j > 0 {
        lemma_nothing_gained(exp, g, (j - 1) as nat);
        assert(exp[j - 1].dependencies.len() == 0);
        assert(!install::needs(install::empty_graph(), exp, j - 1, g));
    }
}

/// Without a display nothing is shown.
pub proof fn law_nothing_is_shown_without_a_display(event: WorkerEvent)
    ensures
        Shown::nothing(progress::no_display()).step(event) == (
            Shown::nothing(progress::no_display()),
            Seq::<Update>::empty(),
        ),
        Shown::opening(progress::no_display()).len() == 0,
        Shown::nothing(progress::no_display()).closing().len() == 0,
{
}

/// The account of a run tells how it began, what it was limited to and how much waited
/// at most.
pub proof fn law_accounts_tell_how_a_run_began(
    m: RunModel,
    times: StartTimes,
    config: TaskPoolConfig,
    asked: (u64, u64),
    account: TaskPoolMetrics,
)
    requires
        coordinator::is_account(m, times, config, asked, account),
    ensures
        account.finished_tasks == m.samples.len(),
        account.graph.total_nodes == m.graph.nodes.len(),
        account.initial_graph_time == times.initial_graph_time,
        account.initial_routing_time == times.initial_routing_time,
        m.first_start matches Some(start) ==> account.first_task_start == start,
        account.ready_frontier_limit == config.ready_frontier,
        account.ready_backlog_peak == m.backlog.peak,
        account.volume_cache_hits == asked.0,
        account.volume_cache_misses == asked.1,
{
}

} // verus!
