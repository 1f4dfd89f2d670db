//! What holds of every entry that a patch applies.

use crate::patch::apply;
use crate::patch::apply::EntryAction;
use crate::patch::manifest;
use crate::patch::manifest::{
    CandidateChoice, CandidateFacts, ChoiceModel, ManifestEntry, ManifestEntryStep, PatchCandidate,
};
use crate::patch::plan;
use crate::patch::plan::{
    PatchPlan, PlannedPatchEntry, PlannedPatchSource, PATCH_DIFF_STAGE_DIR, PATCH_FILES_STAGE_DIR,
    PATCH_STAGE_DIR,
};
use crate::path;
use crate::path::PathModel;
use crate::path_safety;
use crate::text;
use crate::verify::IssueKind;
use vstd::prelude::*;

verus! {

/// The base that a candidate names: the longer name where it gives one.
pub open spec fn named_base(candidate: PatchCandidate) -> Seq<char> {
    match candidate.base_file_path {
        Some(other) => if text::trimmed(other@).len() > 0 {
            text::trimmed(other@)
        } else {
            candidate.base_file@
        },
        None => candidate.base_file@,
    }
}

/// The difference that a candidate names: the longer name where it gives one.
pub open spec fn named_difference(candidate: PatchCandidate) -> Seq<char> {
    match candidate.patch_path {
        Some(other) => if text::trimmed(other@).len() > 0 {
            text::trimmed(other@)
        } else {
            candidate.patch@
        },
        None => candidate.patch@,
    }
}

/// Where a payload with a name lies.
pub open spec fn lies_at(
    install_root: PathModel,
    stage_root: PathModel,
    directory: Seq<char>,
    relative: PathModel,
) -> PathModel {
    if relative.starts_with(plan::single(PATCH_STAGE_DIR@)) {
        install_root.join(relative)
    } else if relative.starts_with(plan::single(directory)) {
        stage_root.join(relative)
    } else {
        stage_root.child(directory).join(relative)
    }
}

/// Whether a candidate cannot be used: its base is not what it should be, in
/// whatever way, or its difference is not there.
pub open spec fn is_of_no_use(facts: CandidateFacts) -> bool {
    facts.base_issue is Some || !facts.payload_is_file
}

/// Why a candidate is of no use.
pub open spec fn reason_against(
    install_root: PathModel,
    stage_root: PathModel,
    candidate: PatchCandidate,
    facts: CandidateFacts,
) -> Seq<char> {
    let base = path_safety::safe_relative_path(named_base(candidate))->Ok_0.text();
    match facts.base_issue {
        Some(issue) => base + " ("@ + issue.text() + ")"@,
        None => base + " (missing patch payload "@ + lies_at(
            install_root,
            stage_root,
            PATCH_DIFF_STAGE_DIR@,
            path_safety::safe_relative_path(named_difference(candidate))->Ok_0,
        ).text() + ")"@,
    }
}

/// Whether the first `k` candidates were looked at and none is of use.
pub open spec fn none_is_of_use(facts: Seq<CandidateFacts>, k: int) -> bool {
    k <= facts.len() && forall|j: int| 0 <= j < k ==> is_of_no_use(#[trigger] facts[j])
}

/// Whether failures are the reasons against the first candidates.
pub open spec fn are_reasons(
    install_root: PathModel,
    stage_root: PathModel,
    entry: ManifestEntry,
    facts: Seq<CandidateFacts>,
    failures: Seq<Seq<char>>,
) -> bool {
    forall|j: int|
        0 <= j < failures.len() ==> (#[trigger] failures[j]) == reason_against(
            install_root,
            stage_root,
            entry.patch@[j],
            facts[j],
        )
}

/// Whether a candidate names a path that leads out of its directory, as far as
/// that is looked at.
pub open spec fn names_unsafe_path(
    candidate: PatchCandidate,
    facts: Seq<CandidateFacts>,
    k: int,
) -> bool {
    path_safety::safe_relative_path(named_base(candidate)) is Err || (k < facts.len()
        && facts[k].base_issue is None && path_safety::safe_relative_path(
        named_difference(candidate),
    ) is Err)
}

/// What a choice among candidates says of them.
pub open spec fn says(
    install_root: PathModel,
    stage_root: PathModel,
    dest_root: PathModel,
    entry: ManifestEntry,
    facts: Seq<CandidateFacts>,
    model: ChoiceModel,
) -> bool {
    match model {
        ChoiceModel::Apply { index, base, base_relative, payload } => {
            &&& 0 <= index < entry.patch@.len()
            &&& index < facts.len()
            &&& facts[index].base_issue is None
            &&& facts[index].payload_is_file
            &&& none_is_of_use(facts, index)
            &&& path_safety::safe_relative_path(named_base(entry.patch@[index])) == Ok::<
                PathModel,
                Seq<char>,
            >(base_relative)
            &&& base == dest_root.join(base_relative)
            &&& path_safety::safe_relative_path(named_difference(entry.patch@[index])) is Ok
            &&& payload == lies_at(
                install_root,
                stage_root,
                PATCH_DIFF_STAGE_DIR@,
                path_safety::safe_relative_path(named_difference(entry.patch@[index]))->Ok_0,
            )
        },
        ChoiceModel::Inspect { index } => {
            &&& index == facts.len()
            &&& index < entry.patch@.len()
            &&& none_is_of_use(facts, index)
        },
        ChoiceModel::Refused { detail } => {
            &&& none_is_of_use(facts, entry.patch@.len() as int)
            &&& entry.patch@.len() == 0 ==> detail == "patch.json entry "@ + entry.name@
                + " has no applicable patch candidates"@
            &&& entry.patch@.len() > 0 ==> exists|failures: Seq<Seq<char>>|
                failures.len() == entry.patch@.len() && #[trigger] are_reasons(
                    install_root,
                    stage_root,
                    entry,
                    facts,
                    failures,
                ) && detail == "patch.json entry "@ + entry.name@
                    + " has no verified base file to patch: "@ + path::joined(failures, "; "@)
        },
        ChoiceModel::Invalid { .. } => exists|k: int|
            0 <= k < entry.patch@.len() && none_is_of_use(facts, k) && #[trigger] names_unsafe_path(
                entry.patch@[k],
                facts,
                k,
            ),
    }
}

proof fn lemma_choice_says(
    install_root: PathModel,
    stage_root: PathModel,
    dest_root: PathModel,
    entry: ManifestEntry,
    facts: Seq<CandidateFacts>,
    k: int,
    failures: Seq<Seq<char>>,
)
    requires
        0 <= k <= entry.patch@.len(),
        failures.len() == k,
        none_is_of_use(facts, k),
        are_reasons(install_root, stage_root, entry, facts, failures),
    ensures
        says(
            install_root,
            stage_root,
            dest_root,
            entry,
            facts,
            manifest::choice_from(
                install_root,
                stage_root,
                dest_root,
                entry,
                facts,
                k,
                failures,
            ),
        ),
    decreases entry.patch@.len() - k,
{
    if k < entry.patch@.len() {
        let candidate = entry.patch@[k];
        if names_unsafe_path(candidate, facts, k) {
            assert(names_unsafe_path(entry.patch@[k], facts, k));
        } else if k < facts.len() && is_of_no_use(facts[k]) {
            let reason = reason_against(install_root, stage_root, candidate, facts[k]);
            let more = failures.push(reason);
            assert(are_reasons(install_root, stage_root, entry, facts, more)) by {
                assert forall|j: int| 0 <= j < more.len() implies (#[trigger] more[j])
                    == reason_against(install_root, stage_root, entry.patch@[j], facts[j]) by {
                    if j < failures.len() {
                        assert(more[j] == failures[j]);
                    }
                }
            }
            lemma_choice_says(
                install_root,
                stage_root,
                dest_root,
                entry,
                facts,
                k + 1,
                more,
            );
        }
    }
}

/// A difference is applied only to a base that was looked at and found good, with
/// a payload that is there, and only where no earlier candidate is of use. A
/// candidate is looked at only where every earlier one was and is of no use. An
/// entry is refused only where no candidate is of use, and then with a reason
/// against each.
pub proof fn law_only_verified_bases_are_chosen(
    choice: CandidateChoice,
    install_root: PathModel,
    stage_root: PathModel,
    dest_root: PathModel,
    entry: ManifestEntry,
    facts: Seq<CandidateFacts>,
)
    requires
        manifest::matches_choice(
            choice,
            manifest::choice_from(
                install_root,
                stage_root,
                dest_root,
                entry,
                facts,
                0,
                Seq::empty(),
            ),
            install_root,
            stage_root,
            dest_root,
            entry,
        ),
    ensures
        match choice {
            CandidateChoice::Apply { index, base, base_relative, payload } => says(
                install_root,
                stage_root,
                dest_root,
                entry,
                facts,
                ChoiceModel::Apply {
                    index: index as int,
                    base: base@,
                    base_relative: base_relative@,
                    payload: payload@,
                },
            ),
            CandidateChoice::Inspect { index, base, payload } => {
                &&& says(
                    install_root,
                    stage_root,
                    dest_root,
                    entry,
                    facts,
                    ChoiceModel::Inspect { index: index as int },
                )
                &&& path_safety::safe_relative_path(
                    named_base(entry.patch@[index as int]),
                ) matches Ok(relative) && base@ == dest_root.join(relative)
                &&& match path_safety::safe_relative_path(
                    named_difference(entry.patch@[index as int]),
                ) {
                    Ok(relative) => payload matches Some(found) && found@ == lies_at(
                        install_root,
                        stage_root,
                        PATCH_DIFF_STAGE_DIR@,
                        relative,
                    ),
                    Err(_) => payload is None,
                }
            },
            CandidateChoice::Fail { message } => (message.context@ == "VFS error: "@ && says(
                install_root,
                stage_root,
                dest_root,
                entry,
                facts,
                ChoiceModel::Refused { detail: message.detail@ },
            )) || (message.context@ == "Invalid path: "@ && says(
                install_root,
                stage_root,
                dest_root,
                entry,
                facts,
                ChoiceModel::Invalid { detail: message.detail@ },
            )),
        },
{
    lemma_choice_says(
        install_root,
        stage_root,
        dest_root,
        entry,
        facts,
        0,
        Seq::empty(),
    );
}

/// The first candidate that is of use is used: once it was looked at, neither a
/// later one is, nor is the entry refused.
pub proof fn law_first_good_candidate_is_used(
    choice: CandidateChoice,
    install_root: PathModel,
    stage_root: PathModel,
    dest_root: PathModel,
    entry: ManifestEntry,
    facts: Seq<CandidateFacts>,
    good: int,
)
    requires
        manifest::matches_choice(
            choice,
            manifest::choice_from(
                install_root,
                stage_root,
                dest_root,
                entry,
                facts,
                0,
                Seq::empty(),
            ),
            install_root,
            stage_root,
            dest_root,
            entry,
        ),
        0 <= good < facts.len(),
        good < entry.patch@.len(),
        facts[good].base_issue is None,
        facts[good].payload_is_file,
        forall|k: int|
            0 <= k <= good ==> path_safety::safe_relative_path(
                named_base(#[trigger] entry.patch@[k]),
            ) is Ok && path_safety::safe_relative_path(named_difference(entry.patch@[k])) is Ok,
    ensures
        choice matches CandidateChoice::Apply { index, .. } && index <= good,
        none_is_of_use(facts, good) ==> (choice matches CandidateChoice::Apply { index, .. }
            && index == good),
{
    law_only_verified_bases_are_chosen(
        choice,
        install_root,
        stage_root,
        dest_root,
        entry,
        facts,
    );
    match choice {
        CandidateChoice::Apply { index, .. } => {
            if index > good {
                assert(is_of_no_use(facts[good]));
            } else if index < good && none_is_of_use(facts, good) {
                assert(is_of_no_use(facts[index as int]));
            }
        },
        CandidateChoice::Inspect { .. } => {
            assert(is_of_no_use(facts[good]));
        },
        CandidateChoice::Fail { message } => {
            if none_is_of_use(facts, entry.patch@.len() as int) {
                assert(is_of_no_use(facts[good]));
            }
            if exists|k: int|
                0 <= k < entry.patch@.len() && none_is_of_use(facts, k)
                    && #[trigger] names_unsafe_path(entry.patch@[k], facts, k) {
                let k = choose|k: int|
                    0 <= k < entry.patch@.len() && none_is_of_use(facts, k)
                        && #[trigger] names_unsafe_path(entry.patch@[k], facts, k);
                if k > good {
                    assert(is_of_no_use(facts[good]));
                } else {
                    assert(path_safety::safe_relative_path(named_base(entry.patch@[k])) is Ok);
                }
            }
        },
    }
}

/// The payload that an entry brings whole lies where its name says.
pub open spec fn whole_payload(
    install_root: PathModel,
    stage_root: PathModel,
    entry: ManifestEntry,
) -> Option<Result<PathModel, Seq<char>>> {
    match entry.local_path {
        Some(raw) => if text::trimmed(raw@).len() > 0 {
            match path_safety::safe_relative_path(text::trimmed(raw@)) {
                Ok(relative) => Some(
                    Ok(lies_at(install_root, stage_root, PATCH_FILES_STAGE_DIR@, relative)),
                ),
                Err(detail) => Some(Err(detail)),
            }
        } else {
            None
        },
        None => None,
    }
}

/// A file that is as it should be is left alone. Any other is replaced by the
/// payload that its entry brings, if and only if the payload is there, and is
/// patched if and only if its entry brings none. What is written lies below the
/// destination, under the name of the entry.
pub proof fn law_manifest_entries_replace_only_wrong_files(
    install_root: PathModel,
    stage_root: PathModel,
    dest_root: PathModel,
    entry: ManifestEntry,
    target_is_right: bool,
    payload_is_file: bool,
    step: ManifestEntryStep,
)
    requires
        manifest::begins_manifest_entry(
            install_root,
            stage_root,
            dest_root,
            entry,
            target_is_right,
            payload_is_file,
            step,
        ),
    ensures
        ({
            let name = path_safety::safe_relative_path(entry.name@);
            let payload = whole_payload(install_root, stage_root, entry);
            &&& step is Finished <==> name is Ok && target_is_right
            &&& step is Patch <==> name is Ok && !target_is_right && payload is None
            &&& step is MoveLocal <==> name is Ok && !target_is_right && (payload matches Some(found)
                && found is Ok) && payload_is_file
            &&& step matches ManifestEntryStep::MoveLocal { local } ==> Some(
                Ok::<PathModel, Seq<char>>(local.source@),
            ) == payload && local.target@ == dest_root.join(name->Ok_0) && local.logical_path@
                == name->Ok_0.text()
            &&& step matches ManifestEntryStep::Patch { target, logical_path } ==> target@
                == dest_root.join(name->Ok_0) && logical_path@ == name->Ok_0.text()
            &&& step matches ManifestEntryStep::Fail { message } ==> (name is Ok && (
            payload matches Some(found) && found is Ok) ==> message.context@ == "VFS error: "@
                && message.detail@ == "patch.json local payload is missing for "@ + entry.name@
                + ": "@ + payload->0->Ok_0.text())
        }),
{
}

/// A payload replaces a file only if it is there and was found good. It is a
/// failure otherwise, and the failure names the payload and the entry.
pub proof fn law_only_good_payloads_replace_files(
    entry: PlannedPatchEntry,
    source: PathModel,
    is_file: bool,
    issue: Option<IssueKind>,
    action: EntryAction,
)
    requires
        apply::follows_local(entry, source, is_file, issue, action),
    ensures
        action is MoveLocal <==> is_file && issue is None,
        action is MoveLocal || action is Fail,
        action matches EntryAction::MoveLocal { source: from, target } ==> from@ == source
            && target@ == entry.destination@,
        action matches EntryAction::Fail { message } ==> exists|lead: Seq<char>, rest: Seq<char>|
            message.detail@ == #[trigger] (lead + source.text() + rest),
{
    if let EntryAction::Fail { message } = action {
        if !is_file {
            let rest = " for "@ + entry.name@;
            assert(message.detail@ =~= "Missing local patch payload "@ + source.text() + rest);
        } else {
            let rest = " failed verification before replacing "@ + entry.name@ + ": "@
                + issue->0.text();
            assert(message.detail@ =~= "Local patch payload "@ + source.text() + rest);
        }
    }
}

/// A difference is applied only to a base that was found good, and only if its
/// payload is there. It is a failure otherwise.
pub proof fn law_only_good_bases_are_patched(
    entry: PlannedPatchEntry,
    base: PathModel,
    payload: PathModel,
    base_issue: Option<IssueKind>,
    payload_is_file: bool,
    action: EntryAction,
)
    requires
        apply::follows_base(entry, base, payload, base_issue, payload_is_file, action),
    ensures
        action is ApplyDifference <==> base_issue is None && payload_is_file,
        action is ApplyDifference || action is Fail,
        action matches EntryAction::ApplyDifference { base: from, payload: with, target } ==> from@
            == base && with@ == payload && target@ == entry.destination@,
{
}

/// A file that is as it should be is left alone; any other is made out of what
/// the plan says: its payload, or its base and its difference.
pub proof fn law_entries_are_made_as_planned(
    plan: PatchPlan,
    entry: PlannedPatchEntry,
    destination_is_right: bool,
    action: EntryAction,
)
    requires
        apply::begins(plan, entry, destination_is_right, action),
    ensures
        action is Finished <==> destination_is_right,
        !destination_is_right ==> match entry.source {
            PlannedPatchSource::AlreadyPresent => action is Fail,
            PlannedPatchSource::Local { payload } => action matches EntryAction::InspectLocal {
                source,
            } && source@ == plan.stage_root@.join(payload@),
            PlannedPatchSource::Hdiff { base, payload, base_md5, base_size } =>
                action matches EntryAction::InspectBase {
                base: from,
                base_md5: md5,
                base_size: size,
                payload: with,
            } && from@ == base@ && md5@ == base_md5@ && size == base_size && with@
                == plan.stage_root@.join(payload@),
        },
{
}

} // verus!
