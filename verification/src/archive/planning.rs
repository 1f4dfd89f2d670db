//! Planning the extraction of an archive.

use crate::archive::entries;
use crate::archive::entries::{EntryGroups, EntryPlace, EntryRules};
use crate::archive::extract;
use crate::archive::extract::{ExtractionPlan, PlannedShard};
use crate::archive::finish;
use crate::archive::finish::PatchProbe;
use crate::archive::work;
use crate::event::{ArchiveCheckReport, TaskOutcome, WorkerEvent};
use crate::graph::expansion::TaskRun;
use crate::patch::plan::PatchPlan;
use crate::path::{FilePath, PathModel};
use crate::task::{ArchiveIndex, ArchiveWork, PreparedArchive};
use std::sync::Arc;
use vstd::prelude::*;

verus! {

/// The entries that are extracted, and into how many shards they are split.
pub struct EntrySelection {
    /// The entries that are put in place as they are extracted.
    pub direct: Vec<usize>,
    pub direct_shards: usize,
    /// The entries that are kept aside.
    pub staged: Vec<usize>,
    pub staged_shards: usize,
    pub total_extract_bytes: u64,
}

/// What is done next about an archive.
pub enum ExtractionStep {
    /// The files that a patch can be made from are looked for.
    Probe,
    /// The entries are split into shards.
    Split { selection: EntrySelection },
    /// The archive cannot be extracted.
    Fail { reason: String },
}

/// What the planning of an extraction ends in.
pub struct ExtractionEnd {
    pub run: TaskRun,
    pub events: Vec<WorkerEvent>,
    /// Whether what was prepared for the archive is removed.
    pub cleanup: bool,
}

/// Whether every control entry has a size, where the archive can be extracted as
/// a whole.
pub open spec fn controls_have_sizes(archive: ArchiveWork, index: ArchiveIndex) -> bool {
    forall|rules: EntryRules| #[trigger]
        entries::plain_rules(rules) && !index.has_patch_manifest && entries::full_fault(
            archive,
            index,
            rules,
        ) is None ==> forall|i: int|
            0 <= i < index.control_indices@.len() ==> #[trigger] index.control_indices@[i]
                < index.entry_sizes@.len()
}

/// The text of a fault.
pub open spec fn fault_text(fault: entries::Fault) -> Seq<char> {
    fault.context + fault.detail
}

/// The directory that an archive is unpacked in, where one is set aside for that:
/// only a patch is unpacked there.
pub open spec fn staging_root(archive: ArchiveWork, index: ArchiveIndex) -> Option<PathModel> {
    if index.has_patch_manifest {
        match archive.work_dir {
            Some(dir) => Some(dir@),
            None => None,
        }
    } else {
        None
    }
}

/// The directory that an archive is unpacked in, where one is set aside for that.
pub fn staging_work_dir(archive: &ArchiveWork, index: &ArchiveIndex) -> (dir: Option<FilePath>)
    ensures
        dir is Some <==> staging_root(*archive, *index) is Some,
        dir is Some ==> staging_root(*archive, *index) == Some(dir->0@),
{
    if !index.has_patch_manifest {
        return None;
    }
    match &archive.work_dir {
        Some(dir) => Some(dir.copied()),
        None => None,
    }
}

/// Whether an archive without a patch is split: what can be put in place at once
/// goes to as many shards as there may be, and the control files to one.
pub open spec fn splits_whole(
    selection: EntrySelection,
    archive: ArchiveWork,
    index: ArchiveIndex,
    rules: EntryRules,
    deferred_paths: Vec<FilePath>,
    extract_shards: usize,
) -> bool {
    &&& entries::are_full_groups(
        archive,
        index,
        rules,
        (EntryGroups { direct: selection.direct, staged: selection.staged, deferred_paths }),
    )
    &&& selection.direct_shards == extract_shards
    &&& selection.staged_shards == 1
    &&& selection.total_extract_bytes == entries::selected_bytes(
        index.entry_sizes@,
        selection.direct@,
        selection.staged@,
    )
}

/// Whether the extraction of an archive without a patch starts as it should.
pub open spec fn begins_whole(
    started: (ExtractionStep, PreparedArchive),
    archive: ArchiveWork,
    index: ArchiveIndex,
    rules: EntryRules,
    extract_shards: usize,
) -> bool {
    match started.0 {
        ExtractionStep::Probe => false,
        ExtractionStep::Split { selection } => splits_whole(
            selection,
            archive,
            index,
            rules,
            started.1.deferred_commit_paths,
            extract_shards,
        ),
        ExtractionStep::Fail { reason } => {
            &&& started.1.deferred_commit_paths@.len() == 0
            &&& entries::full_fault(archive, index, rules) is Some
            &&& reason@ == fault_text(entries::full_fault(archive, index, rules)->0)
        },
    }
}

proof fn lemma_direct_entries_have_sizes(
    archive: ArchiveWork,
    index: ArchiveIndex,
    rules: EntryRules,
    place: EntryPlace,
    list: Seq<usize>,
)
    requires
        index.entry_sizes@.len() <= usize::MAX,
        list == entries::placed(archive, index, rules, place, index.entry_sizes@.len() as int),
    ensures
        forall|i: int| 0 <= i < list.len() ==> (#[trigger] list[i]) < index.entry_sizes@.len(),
{
    assert forall|i: int| 0 <= i < list.len() implies (#[trigger] list[i])
        < index.entry_sizes@.len() by {
        assert(list.contains(list[i]));
        entries::lemma_placed_below(
            archive,
            index,
            rules,
            place,
            index.entry_sizes@.len() as int,
            list[i],
        );
    }
}

proof fn lemma_same_fault(
    archive: ArchiveWork,
    index: ArchiveIndex,
    left: EntryRules,
    right: EntryRules,
    k: int,
)
    requires
        entries::plain_rules(left),
        entries::plain_rules(right),
        0 <= k <= index.entry_sizes@.len(),
    ensures
        entries::first_fault(archive, index, left, k) == entries::first_fault(
            archive,
            index,
            right,
            k,
        ),
    decreases index.entry_sizes@.len() - k,
{
    if k < index.entry_sizes@.len() {
        lemma_same_fault(archive, index, left, right, k + 1);
    }
}

/// Whether every control entry has a size, where the archive can be extracted as
/// a whole.
pub fn control_sizes_known(archive: &ArchiveWork, index: &ArchiveIndex) -> (known: bool)
    ensures
        known == controls_have_sizes(*archive, *index),
{
    if index.has_patch_manifest {
        return true;
    }
    match entries::full_archive_entry_groups(archive, index) {
        Ok(groups) => {
            let ghost chosen = choose|rules: EntryRules| #[trigger]
                entries::plain_rules(rules) && entries::are_full_groups(
                    *archive,
                    *index,
                    rules,
                    groups,
                );
            assert(entries::full_fault(*archive, *index, chosen) is None);
            let mut k: usize = 0;
            while k < index.control_indices.len()
                invariant
                    k <= index.control_indices@.len(),
                    !index.has_patch_manifest,
                    entries::plain_rules(chosen),
                    entries::full_fault(*archive, *index, chosen) is None,
                    forall|i: int|
                        0 <= i < k ==> #[trigger] index.control_indices@[i]
                            < index.entry_sizes@.len(),
                decreases index.control_indices@.len() - k,
            {
                if index.control_indices[k] >= index.entry_sizes.len() {
                    assert(index.control_indices@[k as int] >= index.entry_sizes@.len());
                    return false;
                }
                k = k + 1;
            }
            true
        },
        Err(message) => {
            let ghost chosen = choose|rules: EntryRules| #[trigger]
                entries::plain_rules(rules) && entries::full_fault(*archive, *index, rules) == Some(
                    message.fault(),
                );
            assert forall|rules: EntryRules| #[trigger]
                entries::plain_rules(rules) implies entries::full_fault(
                *archive,
                *index,
                rules,
            ) is Some by {
                lemma_same_fault(*archive, *index, rules, chosen, 0);
            }
            true
        },
    }
}

/// Starts the extraction of an archive whose directory is there: what is prepared
/// for it, and what is done next. The entries of a patch are chosen after its
/// sources are known, so that payloads without a use are never extracted.
pub fn begin_archive_extraction(
    archive: &ArchiveWork,
    index: &ArchiveIndex,
    staging_dir: FilePath,
    extract_shards: usize,
) -> (started: (ExtractionStep, PreparedArchive))
    requires
        controls_have_sizes(*archive, *index),
    ensures
        started.1.staging_dir == staging_dir,
        started.1.patch_plan is None,
        index.has_patch_manifest ==> started.0 is Probe && started.1.deferred_commit_paths@.len()
            == 0,
        !index.has_patch_manifest ==> exists|rules: EntryRules| #[trigger]
            entries::plain_rules(rules) && begins_whole(
                started,
                *archive,
                *index,
                rules,
                extract_shards,
            ),
{
    if index.has_patch_manifest {
        let prepared = PreparedArchive {
            staging_dir,
            deferred_commit_paths: Vec::new(),
            patch_plan: None,
        };
        return (ExtractionStep::Probe, prepared);
    }
    match entries::full_archive_entry_groups(archive, index) {
        Ok(groups) => {
            let ghost rules = choose|rules: EntryRules| #[trigger]
                entries::plain_rules(rules) && entries::are_full_groups(
                    *archive,
                    *index,
                    rules,
                    groups,
                );
            let sizes = index.entry_sizes.len();
            proof {
                lemma_direct_entries_have_sizes(
                    *archive,
                    *index,
                    rules,
                    EntryPlace::Direct,
                    groups.direct@,
                );
                assert forall|i: int| 0 <= i < groups.staged@.len() implies (
                #[trigger] groups.staged@[i]) < sizes by {
                    assert(groups.staged@[i] == index.control_indices@[i]);
                }
            }
            let total_extract_bytes = entries::selected_entry_bytes(
                index,
                &groups.direct,
                &groups.staged,
            );
            let EntryGroups { direct, staged, deferred_paths } = groups;
            let selection = EntrySelection {
                direct,
                direct_shards: extract_shards,
                staged,
                staged_shards: 1,
                total_extract_bytes,
            };
            let prepared = PreparedArchive {
                staging_dir,
                deferred_commit_paths: deferred_paths,
                patch_plan: None,
            };
            assert(splits_whole(
                selection,
                *archive,
                *index,
                rules,
                prepared.deferred_commit_paths,
                extract_shards,
            ));
            (ExtractionStep::Split { selection }, prepared)
        },
        Err(message) => {
            let prepared = PreparedArchive {
                staging_dir,
                deferred_commit_paths: Vec::new(),
                patch_plan: None,
            };
            (ExtractionStep::Fail { reason: message.message() }, prepared)
        },
    }
}

/// What shards are planned from.
pub open spec fn shared_plan(
    archive: Arc<ArchiveWork>,
    archive_index: Arc<ArchiveIndex>,
    staging_dir: FilePath,
    selection: EntrySelection,
) -> ExtractionPlan {
    ExtractionPlan {
        work: archive,
        archive_index,
        staging_dir,
        total_extract_bytes: selection.total_extract_bytes,
        direct_files: selection.direct.len(),
    }
}

/// Whether a run extracts shards.
pub open spec fn extracts(run: TaskRun, plan: ExtractionPlan, shards: Seq<PlannedShard>) -> bool {
    run matches TaskRun::Expand { expansion, next } && next is None && expansion.inv()
        && extract::is_extraction(expansion@, plan, shards)
}

/// Goes on from shards: the start is reported in any case, and every shard is
/// scheduled, where the entries could be split.
pub fn schedule_shards(
    archive: Arc<ArchiveWork>,
    archive_index: Arc<ArchiveIndex>,
    staging_dir: FilePath,
    selection: &EntrySelection,
    split: Result<Vec<PlannedShard>, String>,
) -> (scheduled: (TaskRun, Vec<WorkerEvent>))
    ensures
        ({
            let plan = shared_plan(archive, archive_index, staging_dir, *selection);
            &&& extract::are_start_events(scheduled.1@, plan)
            &&& match split {
                Ok(shards) => extracts(scheduled.0, plan, shards@),
                Err(error) => work::fails_with(scheduled.0, error@),
            }
        }),
{
    let plan = ExtractionPlan {
        work: archive,
        archive_index,
        staging_dir,
        total_extract_bytes: selection.total_extract_bytes,
        direct_files: selection.direct.len(),
    };
    let events = extract::extraction_start_events(&plan);
    match split {
        Ok(shards) => {
            let ghost all = shards@;
            let expansion = extract::build_archive_extraction_expansion(&plan, shards);
            proof {
                extract::lemma_extraction_is_not_empty(expansion@, plan, all);
            }
            (TaskRun::expand(expansion), events)
        },
        Err(error) => (TaskRun::failed(error), events),
    }
}

/// What came of the step after the start.
pub enum Planned {
    /// The directory to unpack in could not be made, or the archive cannot be
    /// extracted.
    Refused { reason: String },
    /// The files to look at for a patch, and those that have to move.
    Probes { found: Result<(Vec<PatchProbe>, Option<FilePath>), String> },
    /// The entries, split into shards.
    Shards { selection: EntrySelection, split: Result<Vec<PlannedShard>, String> },
}

/// Whether the planning of an extraction ends as it should. Where it fails, what
/// was prepared is removed.
pub open spec fn planning_ends(
    end: ExtractionEnd,
    archive: Arc<ArchiveWork>,
    archive_index: Arc<ArchiveIndex>,
    staging_dir: FilePath,
    planned: Planned,
) -> bool {
    match planned {
        Planned::Refused { reason } => work::fails_with(end.run, reason@) && end.events@.len() == 0
            && end.cleanup,
        Planned::Probes { found: Ok(found) } => {
            &&& end.run matches TaskRun::Expand { expansion, next } && next is None
                && expansion.inv() && finish::is_probing(
                expansion@,
                archive,
                archive_index,
                found.0@,
                found.1,
            )
            &&& end.events@.len() == 0
            &&& !end.cleanup
        },
        Planned::Probes { found: Err(error) } => work::fails_with(end.run, error@)
            && end.events@.len() == 0 && end.cleanup,
        Planned::Shards { selection, split } => {
            let plan = shared_plan(archive, archive_index, staging_dir, selection);
            &&& extract::are_start_events(end.events@, plan)
            &&& match split {
                Ok(shards) => extracts(end.run, plan, shards@) && !end.cleanup,
                Err(error) => work::fails_with(end.run, error@) && end.cleanup,
            }
        },
    }
}

/// Ends the planning of an extraction.
pub fn run_plan_archive_extraction(
    archive: Arc<ArchiveWork>,
    archive_index: Arc<ArchiveIndex>,
    staging_dir: FilePath,
    planned: Planned,
) -> (end: ExtractionEnd)
    ensures
        planning_ends(end, archive, archive_index, staging_dir, planned),
{
    match planned {
        Planned::Refused { reason } => ExtractionEnd {
            run: TaskRun::failed(reason),
            events: Vec::new(),
            cleanup: true,
        },
        Planned::Probes { found } => match found {
            Ok((probes, relocation)) => ExtractionEnd {
                run: TaskRun::expand(
                    finish::probe_patch(archive, archive_index, probes, relocation),
                ),
                events: Vec::new(),
                cleanup: false,
            },
            Err(error) => ExtractionEnd {
                run: TaskRun::failed(error),
                events: Vec::new(),
                cleanup: true,
            },
        },
        Planned::Shards { selection, split } => {
            let cleanup = split.is_err();
            let (run, events) = schedule_shards(
                archive,
                archive_index,
                staging_dir,
                &selection,
                split,
            );
            ExtractionEnd { run, events, cleanup }
        },
    }
}

/// The directory that a patch is planned in.
pub fn patch_staging_dir(prepared: &Option<PreparedArchive>) -> (dir: Result<FilePath, String>)
    ensures
        match dir {
            Ok(dir) => prepared is Some && dir@ == prepared->0.staging_dir@,
            Err(reason) => prepared is None && reason@
                == "patch plan finish started without archive staging state"@,
        },
{
    match prepared {
        Some(prepared) => Ok(prepared.staging_dir.copied()),
        None => Err("patch plan finish started without archive staging state".to_owned()),
    }
}

/// Whether an archive with a patch is split: both groups go to as many shards as
/// there may be.
pub open spec fn splits_patch(
    selection: EntrySelection,
    archive: ArchiveWork,
    index: ArchiveIndex,
    rules: EntryRules,
    extract_shards: usize,
) -> bool {
    let n = index.entry_sizes@.len() as int;
    &&& entries::first_fault(archive, index, rules, 0) is None
    &&& selection.direct@ == entries::placed(archive, index, rules, EntryPlace::Direct, n)
    &&& selection.staged@ == entries::placed(archive, index, rules, EntryPlace::Staged, n)
    &&& selection.direct_shards == extract_shards
    &&& selection.staged_shards == extract_shards
    &&& selection.total_extract_bytes == entries::selected_bytes(
        index.entry_sizes@,
        selection.direct@,
        selection.staged@,
    )
}

/// What becomes of a plan that has been written.
pub enum SaveStep {
    /// It could not be kept.
    Lost { reason: String },
    /// It is kept, but the archive cannot be extracted.
    Refused { reason: String },
    /// It is kept, and these are the entries that it needs.
    Split { selection: EntrySelection },
}

/// Whether a plan that was made and written is kept as it should be, and its
/// entries are chosen. It is kept even where an entry has a fault.
pub open spec fn saves_plan(
    step: SaveStep,
    before: Option<PreparedArchive>,
    after: Option<PreparedArchive>,
    archive: ArchiveWork,
    index: ArchiveIndex,
    plan: Arc<PatchPlan>,
    rules: EntryRules,
    extract_shards: usize,
) -> bool {
    match before {
        None => after is None && (step matches SaveStep::Lost { reason } && reason@
            == "archive staging state disappeared while finishing the patch plan"@),
        Some(prepared) => {
            &&& after == Some(PreparedArchive { patch_plan: Some(plan), ..prepared })
            &&& match step {
                SaveStep::Lost { .. } => false,
                SaveStep::Split { selection } => splits_patch(
                    selection,
                    archive,
                    index,
                    rules,
                    extract_shards,
                ),
                SaveStep::Refused { reason } => {
                    &&& entries::first_fault(archive, index, rules, 0) is Some
                    &&& reason@ == fault_text(entries::first_fault(archive, index, rules, 0)->0)
                },
            }
        },
    }
}

/// Keeps a plan that has been written, and chooses the entries that it needs.
pub fn save_patch_plan(
    archive: &ArchiveWork,
    index: &ArchiveIndex,
    prepared: &mut Option<PreparedArchive>,
    plan: Arc<PatchPlan>,
    extract_shards: usize,
) -> (step: SaveStep)
    ensures
        exists|rules: EntryRules| #[trigger]
            entries::are_patch_rules(*plan, rules) && saves_plan(
                step,
                *old(prepared),
                *final(prepared),
                *archive,
                *index,
                plan,
                rules,
                extract_shards,
            ),
{
    let chosen = entries::patch_archive_entry_groups(archive, index, &*plan);
    let PreparedArchive { staging_dir, deferred_commit_paths, patch_plan: _ } =
        match prepared.take() {
        Some(prepared) => prepared,
        None => {
            return SaveStep::Lost {
                reason: "archive staging state disappeared while finishing the patch plan".to_owned(),
            };
        },
    };
    *prepared = Some(
        PreparedArchive { staging_dir, deferred_commit_paths, patch_plan: Some(plan.clone()) },
    );
    match chosen {
        Ok((direct, staged)) => {
            let ghost n = index.entry_sizes@.len() as int;
            let ghost rules = choose|rules: EntryRules| #[trigger]
                entries::are_patch_rules(*plan, rules) && {
                    &&& entries::first_fault(*archive, *index, rules, 0) is None
                    &&& direct@ == entries::placed(*archive, *index, rules, EntryPlace::Direct, n)
                    &&& staged@ == entries::placed(*archive, *index, rules, EntryPlace::Staged, n)
                };
            let sizes = index.entry_sizes.len();
            proof {
                lemma_direct_entries_have_sizes(
                    *archive,
                    *index,
                    rules,
                    EntryPlace::Direct,
                    direct@,
                );
                lemma_direct_entries_have_sizes(
                    *archive,
                    *index,
                    rules,
                    EntryPlace::Staged,
                    staged@,
                );
            }
            let total_extract_bytes = entries::selected_entry_bytes(index, &direct, &staged);
            let selection = EntrySelection {
                direct,
                direct_shards: extract_shards,
                staged,
                staged_shards: extract_shards,
                total_extract_bytes,
            };
            assert(splits_patch(selection, *archive, *index, rules, extract_shards));
            SaveStep::Split { selection }
        },
        Err(message) => SaveStep::Refused { reason: message.message() },
    }
}

/// What came of planning a patch.
pub enum PatchPlanned {
    /// The plan could not be made, written or kept.
    Lost { reason: String },
    /// The plan is kept, but the archive cannot be extracted.
    Refused { report: ArchiveCheckReport, reason: String },
    /// The plan is kept, and its entries are split into shards.
    Shards {
        report: ArchiveCheckReport,
        selection: EntrySelection,
        split: Result<Vec<PlannedShard>, String>,
    },
}

/// Whether a report tells what the planning of a patch has found.
pub open spec fn is_check_event(
    event: WorkerEvent,
    archive: ArchiveWork,
    report: ArchiveCheckReport,
) -> bool {
    event matches WorkerEvent::Outcome { outcome: TaskOutcome::ArchiveCheck { path, report: found } }
        && path@ == archive.base_name@ && found == report
}

/// Whether a patch that is planned ends as it should: once the plan is kept, what
/// was found is reported; then its entries are extracted, or the planning fails.
/// Nothing that was prepared is removed.
pub open spec fn saving_ends(
    end: ExtractionEnd,
    archive: Arc<ArchiveWork>,
    archive_index: Arc<ArchiveIndex>,
    staging_dir: FilePath,
    planned: PatchPlanned,
) -> bool {
    &&& !end.cleanup
    &&& match planned {
        PatchPlanned::Lost { reason } => work::fails_with(end.run, reason@) && end.events@.len()
            == 0,
        PatchPlanned::Refused { report, reason } => work::fails_with(end.run, reason@)
            && end.events@.len() == 1 && is_check_event(end.events@[0], *archive, report),
        PatchPlanned::Shards { report, selection, split } => {
            let plan = shared_plan(archive, archive_index, staging_dir, selection);
            &&& end.events@.len() > 0
            &&& is_check_event(end.events@[0], *archive, report)
            &&& extract::are_start_events(end.events@.skip(1), plan)
            &&& match split {
                Ok(shards) => extracts(end.run, plan, shards@),
                Err(error) => work::fails_with(end.run, error@),
            }
        },
    }
}

/// Ends the planning of a patch.
pub fn run_save_patch_plan(
    archive: Arc<ArchiveWork>,
    archive_index: Arc<ArchiveIndex>,
    staging_dir: FilePath,
    planned: PatchPlanned,
) -> (end: ExtractionEnd)
    ensures
        saving_ends(end, archive, archive_index, staging_dir, planned),
{
    match planned {
        PatchPlanned::Lost { reason } => ExtractionEnd {
            run: TaskRun::failed(reason),
            events: Vec::new(),
            cleanup: false,
        },
        PatchPlanned::Refused { report, reason } => {
            let mut events: Vec<WorkerEvent> = Vec::new();
            events.push(WorkerEvent::archive_check(archive.base_name.clone(), report));
            ExtractionEnd { run: TaskRun::failed(reason), events, cleanup: false }
        },
        PatchPlanned::Shards { report, selection, split } => {
            let check = WorkerEvent::archive_check(archive.base_name.clone(), report);
            let (run, started) = schedule_shards(
                archive,
                archive_index,
                staging_dir,
                &selection,
                split,
            );
            let ghost start = started@;
            let mut events = started;
            events.insert(0, check);
            assert(events@.skip(1) =~= start);
            ExtractionEnd { run, events, cleanup: false }
        },
    }
}

/// Control files are extracted, but none of them is put in place as it is
/// extracted: they take effect after every other entry is there.
pub proof fn law_control_files_come_last(
    archive: ArchiveWork,
    index: ArchiveIndex,
    rules: EntryRules,
    selection: EntrySelection,
    deferred_paths: Vec<FilePath>,
    extract_shards: usize,
    k: int,
)
    requires
        splits_whole(selection, archive, index, rules, deferred_paths, extract_shards),
        0 <= k < index.control_indices@.len(),
    ensures
        selection.staged@.contains(index.control_indices@[k]),
        !selection.direct@.contains(index.control_indices@[k]),
{
    let entry = index.control_indices@[k];
    assert(selection.staged@[k] == entry);
    if selection.direct@.contains(entry) {
        assert(index.entry_sizes.len() <= usize::MAX);
        entries::lemma_placed_below(
            archive,
            index,
            rules,
            EntryPlace::Direct,
            index.entry_sizes@.len() as int,
            entry,
        );
    }
}

} // verus!
