//! What holds along a run that makes sure of a file or of the volumes of an
//! archive.

use crate::ensure;
use crate::ensure::{
    EnsureAction, EnsureEvent, EnsureFile, EnsureModel, VolumeAction, VolumeEvent,
};
use crate::event::{TaskOutcome, WorkerEvent};
use vstd::prelude::*;

verus! {

/// Whether actions and the events between them are those of a run that makes sure
/// of the volumes of an archive, from its start.
pub open spec fn is_volume_run(
    parts: usize,
    max_retries: u32,
    actions: Seq<VolumeAction>,
    events: Seq<VolumeEvent>,
) -> bool {
    &&& actions.len() == events.len() + 1
    &&& actions[0] == ensure::next_volume(parts as int, -1)
    &&& forall|k: int|
        0 <= k < events.len() ==> actions[k + 1] == ensure::volume_step(
            parts as int,
            max_retries,
            #[trigger] actions[k],
            events[k],
        )
}

/// Whether a volume was looked at and found good.
pub open spec fn found_good(action: VolumeAction, event: VolumeEvent, part: usize) -> bool {
    &&& match action {
        VolumeAction::Inspect { part: p, .. } => p == part,
        VolumeAction::InspectDownloaded { part: p, .. } => p == part,
        _ => false,
    }
    &&& event matches VolumeEvent::Inspected { issue } && issue is None
}

/// Whether an attempt at a volume came to nothing: the download failed, or what
/// came is not the volume.
pub open spec fn came_to_nothing(
    action: VolumeAction,
    event: VolumeEvent,
    part: usize,
    attempt: u32,
) -> bool {
    match action {
        VolumeAction::Download { part: p, attempt: a } => p == part && a == attempt && (
        event matches VolumeEvent::Downloaded { result } && result is Err),
        VolumeAction::InspectDownloaded { part: p, attempt: a } => p == part && a == attempt && (
        event matches VolumeEvent::Inspected { issue } && issue is Some),
        _ => false,
    }
}

proof fn lemma_volumes_before_are_good(
    parts: usize,
    max_retries: u32,
    actions: Seq<VolumeAction>,
    events: Seq<VolumeEvent>,
    k: int,
    part: usize,
)
    requires
        is_volume_run(parts, max_retries, actions, events),
        0 <= k < actions.len(),
        part < parts,
        actions[k] is Extract || (ensure::part_of(actions[k]) matches Some(at) && part < at),
    ensures
        exists|j: int| 0 <= j < k && found_good(#[trigger] actions[j], events[j], part),
    decreases k,
{
    if k > 0 {
        let before = actions[k - 1];
        lemma_part_is_there(parts, max_retries, actions, events, k - 1);
        assert(actions[(k - 1) + 1] == ensure::volume_step(
            parts as int,
            max_retries,
            before,
            events[k - 1],
        ));
        if before is Extract || (ensure::part_of(before) matches Some(at) && part < at) {
            lemma_volumes_before_are_good(parts, max_retries, actions, events, k - 1, part);
            let j = choose|j: int|
                0 <= j < k - 1 && found_good(#[trigger] actions[j], events[j], part);
            assert(found_good(actions[j], events[j], part));
        } else {
            assert(found_good(actions[k - 1], events[k - 1], part));
        }
    }
}

proof fn lemma_part_is_there(
    parts: usize,
    max_retries: u32,
    actions: Seq<VolumeAction>,
    events: Seq<VolumeEvent>,
    k: int,
)
    requires
        is_volume_run(parts, max_retries, actions, events),
        0 <= k < actions.len(),
    ensures
        ensure::part_of(actions[k]) matches Some(at) ==> at < parts,
        ensure::within(actions[k], max_retries),
    decreases k,
{
    if k > 0 {
        lemma_part_is_there(parts, max_retries, actions, events, k - 1);
        assert(actions[(k - 1) + 1] == ensure::volume_step(
            parts as int,
            max_retries,
            actions[k - 1],
            events[k - 1],
        ));
    }
}

/// An archive is extracted only after each of its volumes was looked at and found
/// good.
pub proof fn law_archive_is_extracted_after_every_volume(
    parts: usize,
    max_retries: u32,
    actions: Seq<VolumeAction>,
    events: Seq<VolumeEvent>,
    k: int,
    part: usize,
)
    requires
        is_volume_run(parts, max_retries, actions, events),
        0 <= k < actions.len(),
        actions[k] is Extract,
        part < parts,
    ensures
        exists|j: int|
            0 <= j < k && (((#[trigger] actions[j]) matches VolumeAction::Inspect { part: p, .. }
                && p == part) || (actions[j] matches VolumeAction::InspectDownloaded { part: p, .. }
                && p == part)) && (events[j] matches VolumeEvent::Inspected { issue }
                && issue is None),
{
    lemma_volumes_before_are_good(parts, max_retries, actions, events, k, part);
    let j = choose|j: int| 0 <= j < k && found_good(#[trigger] actions[j], events[j], part);
    assert(found_good(actions[j], events[j], part));
}

/// Whether an attempt at a volume came to nothing before a step.
pub open spec fn attempt_failed(
    actions: Seq<VolumeAction>,
    events: Seq<VolumeEvent>,
    k: int,
    part: usize,
    attempt: u32,
) -> bool {
    exists|j: int| 0 <= j < k && #[trigger] came_to_nothing(actions[j], events[j], part, attempt)
}

/// Whether every attempt at a volume below a number came to nothing.
pub open spec fn all_came_to_nothing(
    actions: Seq<VolumeAction>,
    events: Seq<VolumeEvent>,
    k: int,
    part: usize,
    below: int,
) -> bool {
    forall|attempt: u32|
        attempt < below ==> #[trigger] attempt_failed(actions, events, k, part, attempt)
}

/// Whether every attempt at a volume came to nothing.
pub open spec fn is_out_of_reach(
    actions: Seq<VolumeAction>,
    events: Seq<VolumeEvent>,
    k: int,
    part: usize,
    max_retries: u32,
) -> bool {
    all_came_to_nothing(actions, events, k, part, max_retries + 1)
}

proof fn lemma_more_steps(
    actions: Seq<VolumeAction>,
    events: Seq<VolumeEvent>,
    k: int,
    part: usize,
    below: int,
)
    requires
        all_came_to_nothing(actions, events, k, part, below),
    ensures
        all_came_to_nothing(actions, events, k + 1, part, below),
{
    assert forall|attempt: u32| attempt < below implies #[trigger] attempt_failed(
        actions,
        events,
        k + 1,
        part,
        attempt,
    ) by {
        assert(attempt_failed(actions, events, k, part, attempt));
        let j = choose|j: int|
            0 <= j < k && #[trigger] came_to_nothing(actions[j], events[j], part, attempt);
        assert(came_to_nothing(actions[j], events[j], part, attempt));
    }
}

/// How many attempts at its volume an action tells to have failed.
spec fn attempts_before(action: VolumeAction, max_retries: u32) -> int {
    match action {
        VolumeAction::Inspect { attempt, .. } => attempt as int,
        VolumeAction::Download { attempt, .. } => attempt as int,
        VolumeAction::InspectDownloaded { attempt, .. } => attempt as int,
        VolumeAction::InspectFailed { .. } => max_retries + 1,
        _ => 0,
    }
}

proof fn lemma_attempts_failed(
    parts: usize,
    max_retries: u32,
    actions: Seq<VolumeAction>,
    events: Seq<VolumeEvent>,
    k: int,
)
    requires
        is_volume_run(parts, max_retries, actions, events),
        0 <= k < actions.len(),
    ensures
        ensure::part_of(actions[k]) matches Some(part) ==> all_came_to_nothing(
            actions,
            events,
            k,
            part,
            attempts_before(actions[k], max_retries),
        ),
    decreases k,
{
    if k > 0 {
        lemma_attempts_failed(parts, max_retries, actions, events, k - 1);
        lemma_part_is_there(parts, max_retries, actions, events, k - 1);
        let before = actions[k - 1];
        let after = actions[k];
        assert(actions[(k - 1) + 1] == ensure::volume_step(
            parts as int,
            max_retries,
            before,
            events[k - 1],
        ));
        if let Some(part) = ensure::part_of(after) {
            let done = attempts_before(before, max_retries);
            let wanted = attempts_before(after, max_retries);
            if ensure::part_of(before) == Some(part) {
                lemma_more_steps(actions, events, k - 1, part, done);
                if wanted > done {
                    assert(came_to_nothing(actions[k - 1], events[k - 1], part, done as u32));
                    assert(attempt_failed(actions, events, k, part, done as u32));
                }
            }
        }
    }
}

/// An archive is given up only after every attempt at one of its volumes came to
/// nothing.
#[verifier::spinoff_prover]
pub proof fn law_archive_is_given_up_after_every_attempt(
    parts: usize,
    max_retries: u32,
    actions: Seq<VolumeAction>,
    events: Seq<VolumeEvent>,
    k: int,
)
    requires
        is_volume_run(parts, max_retries, actions, events),
        0 <= k < actions.len(),
        actions[k] is Stop,
    ensures
        exists|part: usize|
            part < parts && #[trigger] is_out_of_reach(actions, events, k, part, max_retries),
    decreases k,
{
    if k > 0 {
        let before = actions[k - 1];
        lemma_part_is_there(parts, max_retries, actions, events, k - 1);
        assert(actions[(k - 1) + 1] == ensure::volume_step(
            parts as int,
            max_retries,
            before,
            events[k - 1],
        ));
        if before is Stop {
            law_archive_is_given_up_after_every_attempt(
                parts,
                max_retries,
                actions,
                events,
                k - 1,
            );
            let part = choose|part: usize|
                part < parts && #[trigger] is_out_of_reach(
                    actions,
                    events,
                    k - 1,
                    part,
                    max_retries,
                );
            lemma_more_steps(actions, events, k - 1, part, max_retries + 1);
            assert(is_out_of_reach(actions, events, k, part, max_retries));
        } else {
            lemma_attempts_failed(parts, max_retries, actions, events, k - 1);
            let part = ensure::part_of(before)->0;
            let done = attempts_before(before, max_retries);
            lemma_more_steps(actions, events, k - 1, part, done);
            if done <= max_retries {
                assert(came_to_nothing(actions[k - 1], events[k - 1], part, done as u32));
                assert(attempt_failed(actions, events, k, part, done as u32));
            }
            assert forall|attempt: u32| attempt < max_retries + 1 implies #[trigger] attempt_failed(
                actions,
                events,
                k,
                part,
                attempt,
            ) by {
                if attempt >= done {
                    assert(attempt == done);
                }
            }
            assert(is_out_of_reach(actions, events, k, part, max_retries));
        }
    }
}

/// A volume is downloaded if and only if it was looked at and found bad; what was
/// downloaded is looked at; a good volume is followed by the next one; and an
/// event that does not belong to what is done changes nothing.
pub proof fn law_volumes_are_taken_one_by_one(
    parts: usize,
    max_retries: u32,
    action: VolumeAction,
    event: VolumeEvent,
)
    requires
        ensure::part_of(action) matches Some(part) ==> part < parts,
    ensures
        ({
            let after = ensure::volume_step(parts as int, max_retries, action, event);
            &&& after is Download && after != action ==> (action matches VolumeAction::Inspect {
                part,
                attempt,
            } && (event matches VolumeEvent::Inspected { issue } && issue is Some) && after == (
            VolumeAction::Download { part, attempt }))
            &&& after is InspectDownloaded && after != action ==> (
            action matches VolumeAction::Download { part, attempt } && (
            event matches VolumeEvent::Downloaded { result } && result is Ok) && after == (
            VolumeAction::InspectDownloaded { part, attempt }))
            &&& after is InspectFailed && after != action ==> (
            action matches VolumeAction::Download { part, attempt } && (
            event matches VolumeEvent::Downloaded { result } && result is Err) && attempt
                >= max_retries && after == (VolumeAction::InspectFailed { part }))
            &&& action is Inspect && (event matches VolumeEvent::Inspected { issue }
                && issue is Some) ==> after is Download
            &&& action is Download && (event matches VolumeEvent::Downloaded { result }
                && result is Ok) ==> after is InspectDownloaded
            &&& (exists|part: usize| found_good(action, event, part)) ==> (
            ensure::part_of(after) matches Some(at) && at == ensure::part_of(action)->0 + 1
                && after == (VolumeAction::Inspect { part: at, attempt: 0 })) || (after is Extract
                && ensure::part_of(action)->0 + 1 == parts)
            &&& (action is Extract || action is Stop) ==> after == action
        }),
{
}

/// A volume is reported good only where it was found good, and a run that gives
/// up reports a failure.
pub proof fn law_volume_reports_are_true(
    parts: usize,
    path: Seq<char>,
    max_retries: u32,
    action: VolumeAction,
    event: VolumeEvent,
    failure: Seq<char>,
    reported: Seq<WorkerEvent>,
)
    requires
        ensure::volume_reports(path, max_retries, action, event, failure, reported),
    ensures
        forall|i: int|
            0 <= i < reported.len() && ((#[trigger] reported[i]) matches WorkerEvent::Outcome {
                outcome: TaskOutcome::Verified { ok, .. },
            } && ok) ==> (event matches VolumeEvent::Inspected { issue } && issue is None) && (
            action is Inspect || action is InspectDownloaded),
        (action is Inspect || action is InspectDownloaded) && (event matches VolumeEvent::Inspected {
            issue,
        } && issue is None) ==> (reported.len() == 1 && (reported[0] matches WorkerEvent::Outcome {
            outcome: TaskOutcome::Verified { path: p, ok, issue },
        } && p@ == path && ok && issue is None)),
        ensure::volume_step(parts as int, max_retries, action, event) is Stop && !(action is Stop)
            ==> (reported.len() == 2 && (reported[1] matches WorkerEvent::Outcome {
            outcome: TaskOutcome::Failed { path: p, .. },
        } && p@ == path)),
{
}

/// Whether models and the events between them are those of a run that makes sure
/// of a file, from its start.
pub open spec fn is_ensure_run(
    file: EnsureFile,
    models: Seq<EnsureModel>,
    events: Seq<EnsureEvent>,
) -> bool {
    &&& models.len() == events.len() + 1
    &&& models[0].action is InspectDestination
    &&& !models[0].existing_ok
    &&& models[0].failure is None
    &&& forall|k: int|
        0 <= k < events.len() ==> models[k + 1] == ensure::ensured(
            file,
            #[trigger] models[k],
            events[k],
        )
}

/// Whether what was looked at is as it should be.
pub open spec fn is_good(event: EnsureEvent) -> bool {
    event matches EnsureEvent::Inspected { issue } && issue is None
}

/// Whether what was looked at is not as it should be.
pub open spec fn is_bad(event: EnsureEvent) -> bool {
    event matches EnsureEvent::Inspected { issue } && issue is Some
}

/// Whether a source came to nothing: it is not the file, it could not be reused,
/// or what it left in the place is not the file.
pub open spec fn source_failed(action: EnsureAction, event: EnsureEvent, index: int) -> bool {
    match action {
        EnsureAction::InspectSource { index: i } => i == index && is_bad(event),
        EnsureAction::Reuse { index: i } => i == index && (event matches EnsureEvent::Reused {
            result,
        } && result is Err),
        EnsureAction::InspectReused { index: i } => i == index && is_bad(event),
        _ => false,
    }
}

/// Whether every source came to nothing before a step.
pub open spec fn every_source_failed(
    file: EnsureFile,
    models: Seq<EnsureModel>,
    events: Seq<EnsureEvent>,
    k: int,
) -> bool {
    forall|index: int|
        0 <= index < file.sources ==> #[trigger] failed_before(models, events, k, index)
}

/// Whether a source came to nothing before a step.
pub open spec fn failed_before(
    models: Seq<EnsureModel>,
    events: Seq<EnsureEvent>,
    k: int,
    index: int,
) -> bool {
    exists|i: int| 0 <= i < k && source_failed(#[trigger] models[i].action, events[i], index)
}

proof fn lemma_sources_before_failed(
    file: EnsureFile,
    models: Seq<EnsureModel>,
    events: Seq<EnsureEvent>,
    k: int,
    index: int,
)
    requires
        is_ensure_run(file, models, events),
        0 <= k < models.len(),
        0 <= index < file.sources,
        match models[k].action {
            EnsureAction::InspectSource { index: i } => index < i,
            EnsureAction::Reuse { index: i } => index < i,
            EnsureAction::InspectReused { index: i } => index < i,
            EnsureAction::Download => true,
            EnsureAction::InspectDownloaded => true,
            EnsureAction::InspectFailed => true,
            EnsureAction::Again => true,
            _ => false,
        },
    ensures
        exists|j: int| 0 <= j < k && source_failed(#[trigger] models[j].action, events[j], index),
    decreases k,
{
    if k > 0 {
        let before = models[k - 1];
        assert(models[(k - 1) + 1] == ensure::ensured(file, before, events[k - 1]));
        lemma_source_is_there(file, models, events, k - 1);
        if source_failed(before.action, events[k - 1], index) {
            assert(source_failed(models[k - 1].action, events[k - 1], index));
        } else {
            lemma_sources_before_failed(file, models, events, k - 1, index);
            let j = choose|j: int|
                0 <= j < k - 1 && source_failed(#[trigger] models[j].action, events[j], index);
            assert(source_failed(models[j].action, events[j], index));
        }
    }
}

proof fn lemma_source_is_there(
    file: EnsureFile,
    models: Seq<EnsureModel>,
    events: Seq<EnsureEvent>,
    k: int,
)
    requires
        is_ensure_run(file, models, events),
        0 <= k < models.len(),
    ensures
        match models[k].action {
            EnsureAction::InspectSource { index } => index < file.sources,
            EnsureAction::Reuse { index } => index < file.sources,
            EnsureAction::InspectReused { index } => index < file.sources,
            _ => true,
        },
    decreases k,
{
    if k > 0 {
        lemma_source_is_there(file, models, events, k - 1);
        assert(models[(k - 1) + 1] == ensure::ensured(file, models[k - 1], events[k - 1]));
    }
}

proof fn lemma_destination_was_seen(
    file: EnsureFile,
    models: Seq<EnsureModel>,
    events: Seq<EnsureEvent>,
    k: int,
)
    requires
        is_ensure_run(file, models, events),
        0 <= k < models.len(),
        !(models[k].action is InspectDestination),
    ensures
        exists|j: int|
            0 <= j < k && (#[trigger] models[j]).action is InspectDestination && (if models[k].existing_ok {
                is_good(events[j])
            } else {
                is_bad(events[j])
            }),
    decreases k,
{
    if k > 0 {
        let before = models[k - 1];
        assert(models[(k - 1) + 1] == ensure::ensured(file, before, events[k - 1]));
        if before.action is InspectDestination {
            assert(models[k - 1].action is InspectDestination);
        } else {
            lemma_destination_was_seen(file, models, events, k - 1);
            let j = choose|j: int|
                0 <= j < k - 1 && (#[trigger] models[j]).action is InspectDestination && (
                if models[k - 1].existing_ok {
                    is_good(events[j])
                } else {
                    is_bad(events[j])
                });
            assert(models[j].action is InspectDestination);
        }
    }
}

/// A file is downloaded only if what lay in its place was looked at and found
/// bad, the file can be downloaded, and every source came to nothing.
pub proof fn law_download_is_the_last_resort(
    file: EnsureFile,
    models: Seq<EnsureModel>,
    events: Seq<EnsureEvent>,
    k: int,
    index: int,
)
    requires
        is_ensure_run(file, models, events),
        0 <= k < models.len(),
        models[k].action is Download,
    ensures
        file.downloadable,
        exists|j: int|
            0 <= j < k && (#[trigger] models[j]).action is InspectDestination && is_bad(events[j]),
        0 <= index < file.sources ==> exists|j: int|
            0 <= j < k && source_failed(#[trigger] models[j].action, events[j], index),
{
    lemma_downloads(file, models, events, k);
    lemma_destination_was_seen(file, models, events, k);
    if 0 <= index < file.sources {
        lemma_sources_before_failed(file, models, events, k, index);
    }
}

proof fn lemma_downloads(
    file: EnsureFile,
    models: Seq<EnsureModel>,
    events: Seq<EnsureEvent>,
    k: int,
)
    requires
        is_ensure_run(file, models, events),
        0 <= k < models.len(),
        models[k].action is Download,
    ensures
        file.downloadable,
        !models[k].existing_ok,
    decreases k,
{
    if k > 0 {
        assert(models[(k - 1) + 1] == ensure::ensured(file, models[k - 1], events[k - 1]));
        if models[k - 1].action is Download {
            lemma_downloads(file, models, events, k - 1);
        }
    }
}

/// Making sure of a file ends only when the file was seen to be in its place, or
/// what was downloaded was looked at, or all has failed and what lies there was
/// looked at. A file that cannot be downloaded, or whose attempts are used up, is
/// given up only after every source came to nothing.
pub proof fn law_file_is_in_place_or_all_has_failed(
    file: EnsureFile,
    models: Seq<EnsureModel>,
    events: Seq<EnsureEvent>,
    k: int,
)
    requires
        is_ensure_run(file, models, events),
        0 <= k < models.len(),
        models[k].action is Stop,
    ensures
        (exists|j: int|
            0 <= j < k && is_good(events[j]) && ((#[trigger] models[j]).action is InspectDestination
                || models[j].action is InspectReused || models[j].action is InspectDownloaded)) || (
        exists|j: int|
            0 <= j < k && is_bad(events[j]) && (#[trigger] models[j]).action is InspectDownloaded)
            || (exists|j: int|
            0 <= j < k && events[j] is Inspected && (#[trigger] models[j]).action is InspectFailed
                && every_source_failed(file, models, events, j)),
    decreases k,
{
    if k > 0 {
        let before = models[k - 1];
        assert(models[(k - 1) + 1] == ensure::ensured(file, before, events[k - 1]));
        if before.action is Stop {
            law_file_is_in_place_or_all_has_failed(file, models, events, k - 1);
            if exists|j: int|
                0 <= j < k - 1 && is_good(events[j]) && ((
                #[trigger] models[j]).action is InspectDestination || models[j].action is InspectReused
                    || models[j].action is InspectDownloaded) {
                let j = choose|j: int|
                    0 <= j < k - 1 && is_good(events[j]) && ((
                    #[trigger] models[j]).action is InspectDestination
                        || models[j].action is InspectReused
                        || models[j].action is InspectDownloaded);
                assert(is_good(events[j]) && (models[j].action is InspectDestination
                    || models[j].action is InspectReused || models[j].action is InspectDownloaded));
            } else if exists|j: int|
                0 <= j < k - 1 && is_bad(events[j]) && (
                #[trigger] models[j]).action is InspectDownloaded {
                let j = choose|j: int|
                    0 <= j < k - 1 && is_bad(events[j]) && (
                    #[trigger] models[j]).action is InspectDownloaded;
                assert(models[j].action is InspectDownloaded);
            } else {
                let j = choose|j: int|
                    0 <= j < k - 1 && events[j] is Inspected && (
                    #[trigger] models[j]).action is InspectFailed && every_source_failed(
                        file,
                        models,
                        events,
                        j,
                    );
                assert(models[j].action is InspectFailed);
            }
        } else if before.action is InspectFailed {
            assert forall|index: int| 0 <= index < file.sources implies #[trigger] failed_before(
                models,
                events,
                k - 1,
                index,
            ) by {
                lemma_sources_before_failed(file, models, events, k - 1, index);
            }
            assert(models[k - 1].action is InspectFailed);
        } else if before.action is InspectDownloaded || before.action is InspectReused
            || before.action is InspectDestination {
            if is_good(events[k - 1]) {
                assert(is_good(events[k - 1]) && (models[k - 1].action is InspectDestination
                    || models[k - 1].action is InspectReused
                    || models[k - 1].action is InspectDownloaded));
            } else if before.action is InspectReused {
                lemma_destination_was_seen(file, models, events, k);
                let j = choose|j: int|
                    0 <= j < k && (#[trigger] models[j]).action is InspectDestination && (
                    if models[k].existing_ok {
                        is_good(events[j])
                    } else {
                        is_bad(events[j])
                    });
                assert(models[j].action is InspectDestination);
            }
        } else {
            lemma_destination_was_seen(file, models, events, k);
            let j = choose|j: int|
                0 <= j < k && (#[trigger] models[j]).action is InspectDestination && (
                if models[k].existing_ok {
                    is_good(events[j])
                } else {
                    is_bad(events[j])
                });
            assert(models[j].action is InspectDestination);
        }
    }
}

/// A source is reused if and only if it was just looked at and found good; what
/// it left in the place is looked at; a good file in its place is left alone,
/// unless reuse is preferred; a download that failed is tried again if and only
/// if attempts are left.
pub proof fn law_steps_towards_a_file(file: EnsureFile, m: EnsureModel, event: EnsureEvent)
    requires
        ensure::EnsureRun::wf(m, file),
    ensures
        ({
            let after = ensure::ensured(file, m, event).action;
            &&& after matches EnsureAction::Reuse { index } ==> (after != m.action ==> m.action == (
            EnsureAction::InspectSource { index }) && is_good(event))
            &&& m.action matches EnsureAction::InspectSource { index } ==> (is_good(event) ==> after
                == (EnsureAction::Reuse { index }))
            &&& m.action matches EnsureAction::Reuse { index } ==> ((
            event matches EnsureEvent::Reused { result } && result is Ok) ==> after == (
            EnsureAction::InspectReused { index }))
            &&& m.action is InspectReused && is_good(event) ==> after is Stop
            &&& m.action is InspectDestination && is_good(event) && !file.prefer_reuse
                ==> after is Stop
            &&& m.action is InspectDestination && is_bad(event) && file.sources == 0 && file.downloadable
                ==> after is Download
            &&& m.action is InspectDestination && event is Inspected && file.sources > 0 && (is_bad(
                event,
            ) || file.prefer_reuse) ==> after == (EnsureAction::InspectSource { index: 0 })
            &&& m.action is Download && (event matches EnsureEvent::Downloaded { result }
                && result is Ok) ==> after is InspectDownloaded
            &&& m.action is Download && (event matches EnsureEvent::Downloaded { result }
                && result is Err) ==> (after is Again <==> file.retry_count < file.max_retries) && (
            after is InspectFailed <==> file.retry_count >= file.max_retries)
            &&& after is Again && !(m.action is Again) ==> m.action is Download
            &&& after is InspectFailed && !(m.action is InspectFailed) ==> m.action is Download
                || !file.downloadable
        }),
{
}

/// A file is reported good only where it was seen to be good in its place: now,
/// or when its place was first looked at.
pub proof fn law_reports_on_a_file_are_true(
    file: EnsureFile,
    models: Seq<EnsureModel>,
    events: Seq<EnsureEvent>,
    k: int,
    reported: Seq<WorkerEvent>,
    i: int,
)
    requires
        is_ensure_run(file, models, events),
        0 <= k < events.len(),
        ensure::reports(file, models[k], events[k], reported),
        0 <= i < reported.len(),
        reported[i] matches WorkerEvent::Outcome { outcome: TaskOutcome::Verified { ok, .. } }
            && ok,
    ensures
        exists|j: int|
            0 <= j <= k && is_good(events[j]) && ((#[trigger] models[j]).action is InspectDestination
                || models[j].action is InspectReused || models[j].action is InspectDownloaded),
{
    let m = models[k];
    assert(models[k + 1] == ensure::ensured(file, m, events[k]));
    if is_good(events[k]) && (m.action is InspectDestination || m.action is InspectReused
        || m.action is InspectDownloaded) {
        assert(models[k].action == m.action);
    } else {
        lemma_destination_was_seen(file, models, events, k + 1);
        let j = choose|j: int|
            0 <= j < k + 1 && (#[trigger] models[j]).action is InspectDestination && (
            if models[k + 1].existing_ok {
                is_good(events[j])
            } else {
                is_bad(events[j])
            });
        assert(models[j].action is InspectDestination);
    }
}

} // verus!
