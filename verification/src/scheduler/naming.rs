//! The names under which tasks are reported.

use crate::task::{ArchiveRangeRequest, ArchiveWork, Task};
use crate::text;
use vstd::prelude::*;

verus! {

/// The name of a range of an archive. Volumes are counted from one.
pub open spec fn range_name(base_name: Seq<char>, request: ArchiveRangeRequest) -> Seq<char> {
    base_name + "#volume-"@ + text::padded3((request.volume_index + 1) as nat) + ":"@
        + text::decimal(request.local_range.start as nat) + "-"@ + text::decimal(
        request.local_range.end as nat,
    )
}

/// The name of a range of an archive.
pub fn archive_range_logical_path(work: &ArchiveWork, request: &ArchiveRangeRequest) -> (name: String)
    requires
        request.volume_index < usize::MAX,
    ensures
        name@ == range_name(work.base_name@, *request),
{
    let mut name = work.base_name.clone();
    text::push_text(&mut name, "#volume-");
    text::push_padded3(&mut name, request.volume_index + 1);
    text::push_text(&mut name, ":");
    text::push_decimal(&mut name, request.local_range.start);
    text::push_text(&mut name, "-");
    text::push_decimal(&mut name, request.local_range.end);
    name
}

/// The name under which a task is reported.
pub open spec fn task_name(task: Task) -> Seq<char> {
    match task {
        Task::FetchArchiveRepairFile { repair } => repair.logical_path@,
        Task::ExtractArchiveRepairFile { repair } => repair.logical_path@,
        Task::OpenArchive { base_name, .. } => base_name@,
        Task::ProbePatchArtifact { probe_path, probe_index, .. } => match probe_path {
            Some(path) => path@.text(),
            None => "patch-probe-"@ + text::decimal(probe_index as nat),
        },
        Task::MeasurePatchRelocation { root } => match root {
            Some(path) => path@.text(),
            None => "patch-relocation"@,
        },
        Task::DiscoverArchiveDirectory { work, .. } => work.base_name@,
        Task::InspectArchiveIndex { work, .. } => work.base_name@,
        Task::ReadArchiveControls { work, .. } => work.base_name@,
        Task::SavePatchPlan { work, .. } => work.base_name@,
        Task::RetainArchiveVolume { work, .. } => work.base_name@,
        Task::FinishArchive { work } => work.base_name@,
        Task::CleanupArchive { work } => work.base_name@,
        Task::ExtractArchiveShard { shard } => shard.work.base_name@,
        Task::FetchArchiveRange { work, request, .. } => range_name(work.base_name@, request),
        Task::Download { download, .. } => download.logical_path@,
        Task::Verify { logical_path, .. } => logical_path@,
        Task::RepairFile { repair, .. } => repair.logical_path@,
        Task::VerifyReuseVolume { logical_path, .. } => logical_path@,
        Task::ReuseFile { repair, .. } => repair.logical_path@,
        Task::PreparePatchApply { plan } => plan.install_root@.text(),
        Task::ApplyPatchDeletes { plan } => plan.install_root@.text(),
        Task::CommitPatchDeferred { plan } => plan.install_root@.text(),
        Task::ApplyPatchEntry { plan, entry_index } => if entry_index < plan.entries@.len() {
            plan.entries@[entry_index as int].destination@.text()
        } else {
            "patch-entry-"@ + text::decimal(entry_index as nat)
        },
        Task::ReleasePatchBase { base, .. } => base@.text(),
        Task::CleanPatchApply { plan, .. } => plan.stage_root@.text(),
        Task::ApplyExtractedVfsPatchManifest { install_root } => install_root@.text(),
        Task::ApplyDeleteManifest { install_root } => install_root@.text(),
        Task::Hardlink { dest, .. } => dest@.text(),
    }
}

/// The name under which a task is reported.
pub fn task_path(task: &Task) -> (name: String)
    requires
        task matches Task::FetchArchiveRange { request, .. } ==> request.volume_index < usize::MAX,
    ensures
        name@ == task_name(*task),
{
    match task {
        Task::FetchArchiveRepairFile { repair } => repair.logical_path.clone(),
        Task::ExtractArchiveRepairFile { repair } => repair.logical_path.clone(),
        Task::OpenArchive { base_name, .. } => base_name.clone(),
        Task::ProbePatchArtifact { probe_path, probe_index, .. } => match probe_path {
            Some(path) => path.text(),
            None => {
                let mut name = "patch-probe-".to_owned();
                text::push_size(&mut name, *probe_index);
                name
            },
        },
        Task::MeasurePatchRelocation { root } => match root {
            Some(path) => path.text(),
            None => "patch-relocation".to_owned(),
        },
        Task::DiscoverArchiveDirectory { work, .. } => work.base_name.clone(),
        Task::InspectArchiveIndex { work, .. } => work.base_name.clone(),
        Task::ReadArchiveControls { work, .. } => work.base_name.clone(),
        Task::SavePatchPlan { work, .. } => work.base_name.clone(),
        Task::RetainArchiveVolume { work, .. } => work.base_name.clone(),
        Task::FinishArchive { work } => work.base_name.clone(),
        Task::CleanupArchive { work } => work.base_name.clone(),
        Task::ExtractArchiveShard { shard } => shard.work.base_name.clone(),
        Task::FetchArchiveRange { work, request, .. } => archive_range_logical_path(work, request),
        Task::Download { download, .. } => download.logical_path.clone(),
        Task::Verify { logical_path, .. } => logical_path.clone(),
        Task::RepairFile { repair, .. } => repair.logical_path.clone(),
        Task::VerifyReuseVolume { logical_path, .. } => logical_path.clone(),
        Task::ReuseFile { repair, .. } => repair.logical_path.clone(),
        Task::PreparePatchApply { plan } => plan.install_root.text(),
        Task::ApplyPatchDeletes { plan } => plan.install_root.text(),
        Task::CommitPatchDeferred { plan } => plan.install_root.text(),
        Task::ApplyPatchEntry { plan, entry_index } => {
            if *entry_index < plan.entries.len() {
                plan.entries[*entry_index].destination.text()
            } else {
                let mut name = "patch-entry-".to_owned();
                text::push_size(&mut name, *entry_index);
                name
            }
        },
        Task::ReleasePatchBase { base, .. } => base.text(),
        Task::CleanPatchApply { plan, .. } => plan.stage_root.text(),
        Task::ApplyExtractedVfsPatchManifest { install_root } => install_root.text(),
        Task::ApplyDeleteManifest { install_root } => install_root.text(),
        Task::Hardlink { dest, .. } => dest.text(),
    }
}

} // verus!
