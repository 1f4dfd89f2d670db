//! Archives as they are opened.

use crate::archive::cache;
use crate::archive::parts;
use crate::archive::parts::PartModel;
use crate::error::Message;
use crate::graph::expansion::TaskRun;
use crate::graph::node::TaskDependencyToken;
use crate::path::{FilePath, PathModel};
use crate::task::{
    ArchivePart, ArchiveRetention, ArchiveSource, ArchiveWork, ExpectedFile, Task,
};
use crate::text;
use std::sync::Arc;
use vstd::prelude::*;

verus! {

/// The paths of a list.
pub open spec fn path_views(paths: Seq<FilePath>) -> Seq<PathModel> {
    Seq::new(paths.len(), |i: int| paths[i]@)
}

/// Where the volumes of an archive go.
pub open spec fn dests(parts: Seq<PartModel>) -> Seq<PathModel> {
    Seq::new(parts.len(), |i: int| parts[i].dest)
}

/// Whether an archive waits for nothing that another task brings.
pub open spec fn waits_for_nothing(work: ArchiveWork) -> bool {
    &&& work.tokens@.len() == work.volumes@.len()
    &&& forall|i: int| 0 <= i < work.tokens@.len() ==> (#[trigger] work.tokens@[i]) is None
}

/// What an archive is opened for.
pub struct ArchiveSettings {
    pub dest: FilePath,
    pub retention: ArchiveRetention,
    pub password: Option<String>,
    pub work_dir: Option<FilePath>,
    pub expected_files: Arc<Vec<(String, ExpectedFile)>>,
    pub excluded_commit_paths: Vec<String>,
}

/// Whether an archive is opened for what the settings say.
pub open spec fn has_settings(work: ArchiveWork, settings: ArchiveSettings) -> bool {
    &&& work.dest == settings.dest
    &&& work.retention == settings.retention
    &&& work.password == settings.password
    &&& work.work_dir == settings.work_dir
    &&& work.expected_files == settings.expected_files
    &&& work.excluded_commit_paths == settings.excluded_commit_paths
}

/// Whether an archive is the remote one with these volumes, in order.
pub open spec fn is_remote_work(
    work: ArchiveWork,
    base_name: Seq<char>,
    listed: Seq<PartModel>,
    settings: ArchiveSettings,
) -> bool {
    &&& work.base_name@ == base_name
    &&& work.remote
    &&& parts::arranged(listed, parts::part_views(work.parts@))
    &&& path_views(work.volumes@) == dests(parts::part_views(work.parts@))
    &&& has_settings(work, settings)
    &&& waits_for_nothing(work)
    &&& work.repair_group is None
}

/// Whether an archive is the local one with these volumes.
pub open spec fn is_local_work(
    work: ArchiveWork,
    base_name: Seq<char>,
    volumes: Seq<FilePath>,
    settings: ArchiveSettings,
) -> bool {
    &&& work.base_name@ == base_name
    &&& !work.remote
    &&& work.parts@.len() == 0
    &&& work.volumes@ == volumes
    &&& has_settings(work, settings)
    &&& waits_for_nothing(work)
    &&& work.repair_group is None
}

fn part_dests(list: &Vec<ArchivePart>) -> (paths: Vec<FilePath>)
    ensures
        path_views(paths@) == dests(parts::part_views(list@)),
{
    let mut paths: Vec<FilePath> = Vec::new();
    let mut k: usize = 0;
    while k < list.len()
        invariant
            k <= list@.len(),
            paths@.len() == k,
            forall|i: int| 0 <= i < k ==> (#[trigger] paths@[i])@ == list@[i].dest@,
        decreases list@.len() - k,
    {
        paths.push(list[k].dest.copied());
        k = k + 1;
    }
    assert(path_views(paths@) =~= dests(parts::part_views(list@)));
    paths
}

fn no_tokens(count: usize) -> (tokens: Vec<Option<TaskDependencyToken>>)
    ensures
        tokens@.len() == count,
        forall|i: int| 0 <= i < count ==> (#[trigger] tokens@[i]) is None,
{
    let mut tokens: Vec<Option<TaskDependencyToken>> = Vec::new();
    let mut k: usize = 0;
    while k < count
        invariant
            k <= count,
            tokens@.len() == k,
            forall|i: int| 0 <= i < k ==> (#[trigger] tokens@[i]) is None,
        decreases count - k,
    {
        tokens.push(None);
        k = k + 1;
    }
    tokens
}

/// Opens a remote archive.
pub fn prepare_remote_archive_work(
    base_name: String,
    list: Vec<ArchivePart>,
    settings: ArchiveSettings,
) -> (result: Result<ArchiveWork, Message>)
    ensures
        match result {
            Ok(work) => list@.len() > 0 && is_remote_work(
                work,
                base_name@,
                parts::part_views(list@),
                settings,
            ),
            Err(message) => list@.len() == 0 && message.context@ == "Task pool error: "@
                && message.detail@ == "remote archive has no parts"@,
        },
{
    let sorted = match cache::sorted_remote_parts(list) {
        Ok(sorted) => sorted,
        Err(message) => {
            return Err(message);
        },
    };
    let volumes = part_dests(&sorted);
    assert(path_views(volumes@).len() == volumes@.len());
    let tokens = no_tokens(sorted.len());
    Ok(
        ArchiveWork {
            base_name,
            volumes,
            remote: true,
            dest: settings.dest,
            retention: settings.retention,
            parts: sorted,
            password: settings.password,
            work_dir: settings.work_dir,
            expected_files: settings.expected_files,
            excluded_commit_paths: settings.excluded_commit_paths,
            tokens,
            repair_group: None,
        },
    )
}

/// The volumes of a repair: full volumes that never are there, in a place of
/// their own, so that nothing but fetched pieces is read.
pub open spec fn repair_volumes(dir: PathModel, count: nat) -> Seq<PathModel> {
    Seq::new(
        count,
        |i: int| dir.child("volume-"@ + text::padded4(i as nat) + ".full"@),
    )
}

/// The directory of the pieces that a repair fetches.
pub open spec fn repair_cache_dir(
    base_name: Seq<char>,
    parts: Seq<PartModel>,
    dest: PathModel,
) -> PathModel {
    cache::cache_dir(base_name, parts, dest).child("repair"@)
}

/// Whether an archive is one that files are repaired out of. Its volumes are not
/// kept, whatever the settings say.
pub open spec fn is_repair_work(
    work: ArchiveWork,
    base_name: Seq<char>,
    listed: Seq<PartModel>,
    settings: ArchiveSettings,
    group_index: usize,
) -> bool {
    &&& work.base_name@ == base_name
    &&& work.remote
    &&& parts::arranged(listed, parts::part_views(work.parts@))
    &&& path_views(work.volumes@) == repair_volumes(
        repair_cache_dir(base_name, parts::part_views(work.parts@), settings.dest@),
        work.parts@.len(),
    )
    &&& has_settings(
        work,
        (ArchiveSettings { retention: ArchiveRetention::DiscardVolumes, ..settings }),
    )
    &&& waits_for_nothing(work)
    &&& work.repair_group == Some(group_index)
}

/// Opens a remote archive for repairing files out of it. Volumes that are there
/// already are not looked at.
pub fn prepare_remote_archive_range_work(
    base_name: String,
    list: Vec<ArchivePart>,
    settings: ArchiveSettings,
    group_index: usize,
) -> (result: Result<ArchiveWork, Message>)
    ensures
        match result {
            Ok(work) => list@.len() > 0 && is_repair_work(
                work,
                base_name@,
                parts::part_views(list@),
                settings,
                group_index,
            ),
            Err(message) => list@.len() == 0 && message.context@ == "Task pool error: "@
                && message.detail@ == "remote archive has no parts"@,
        },
{
    let sorted = match cache::sorted_remote_parts(list) {
        Ok(sorted) => sorted,
        Err(message) => {
            return Err(message);
        },
    };
    let dir = cache::remote_cache_dir(base_name.as_str(), &sorted, &settings.dest).child("repair");
    let mut volumes: Vec<FilePath> = Vec::new();
    let mut k: usize = 0;
    while k < sorted.len()
        invariant
            k <= sorted@.len(),
            volumes@.len() == k,
            forall|i: int|
                0 <= i < k ==> (#[trigger] volumes@[i])@ == repair_volumes(
                    dir@,
                    sorted@.len(),
                )[i],
        decreases sorted@.len() - k,
    {
        let mut name = "volume-".to_owned();
        text::push_padded4(&mut name, k);
        text::push_text(&mut name, ".full");
        volumes.push(dir.child(name.as_str()));
        k = k + 1;
    }
    assert(path_views(volumes@) =~= repair_volumes(dir@, sorted@.len()));
    let tokens = no_tokens(sorted.len());
    Ok(
        ArchiveWork {
            base_name,
            volumes,
            remote: true,
            dest: settings.dest,
            retention: ArchiveRetention::DiscardVolumes,
            parts: sorted,
            password: settings.password,
            work_dir: settings.work_dir,
            expected_files: settings.expected_files,
            excluded_commit_paths: settings.excluded_commit_paths,
            tokens,
            repair_group: Some(group_index),
        },
    )
}

/// Whether a run goes on with finding the table of contents of an archive.
pub open spec fn discovers(run: TaskRun, work: ArchiveWork) -> bool {
    run matches TaskRun::Continue { task: Task::DiscoverArchiveDirectory { work: w, required_range } }
        && *w == work && required_range is None
}

/// Whether a run failed for a reason that is reported.
pub open spec fn fails_with(run: TaskRun, reason: Seq<char>) -> bool {
    run matches TaskRun::Failed { reason: text, report } && text@ == reason && report
}

/// Opens an archive.
pub fn run_open_archive(base_name: String, source: ArchiveSource, settings: ArchiveSettings) -> (run:
    TaskRun)
    ensures
        match source {
            ArchiveSource::Remote { parts: list } => if list@.len() == 0 {
                fails_with(run, "Task pool error: "@ + "remote archive has no parts"@)
            } else {
                exists|work: ArchiveWork| #[trigger]
                    discovers(run, work) && is_remote_work(
                        work,
                        base_name@,
                        parts::part_views(list@),
                        settings,
                    )
            },
            ArchiveSource::Local { volumes } => if volumes@.len() == 0 {
                fails_with(run, "Task pool error: "@ + "local archive has no volumes"@)
            } else {
                exists|work: ArchiveWork| #[trigger]
                    discovers(run, work) && is_local_work(work, base_name@, volumes@, settings)
            },
        },
{
    let result = match source {
        ArchiveSource::Remote { parts: list } => prepare_remote_archive_work(
            base_name,
            list,
            settings,
        ),
        ArchiveSource::Local { volumes } => {
            if volumes.len() == 0 {
                Err(Message::new("Task pool error: ", "local archive has no volumes".to_owned()))
            } else {
                let tokens = no_tokens(volumes.len());
                Ok(
                    ArchiveWork {
                        base_name,
                        volumes,
                        remote: false,
                        dest: settings.dest,
                        retention: settings.retention,
                        parts: Vec::new(),
                        password: settings.password,
                        work_dir: settings.work_dir,
                        expected_files: settings.expected_files,
                        excluded_commit_paths: settings.excluded_commit_paths,
                        tokens,
                        repair_group: None,
                    },
                )
            }
        },
    };
    match result {
        Ok(work) => {
            let ghost opened = work;
            let run = TaskRun::Continue {
                task: Task::DiscoverArchiveDirectory { work: Arc::new(work), required_range: None },
            };
            assert(discovers(run, opened));
            run
        },
        Err(message) => TaskRun::failed(message.message()),
    }
}

impl ArchiveWork {
    /// The tokens of the first `k` volumes of a list.
    pub open spec fn tokens_of(&self, indices: Seq<usize>, k: int) -> Seq<TaskDependencyToken>
        decreases k,
    {
        if k <= 0 {
            Seq::empty()
        } else {
            let before = self.tokens_of(indices, k - 1);
            let index = indices[k - 1] as int;
            if index < self.tokens@.len() && self.tokens@[index] is Some {
                before.push(self.tokens@[index]->0)
            } else {
                before
            }
        }
    }

    /// The tokens of the tasks that bring volumes.
    pub fn tokens_for_indices(&self, indices: &Vec<usize>) -> (tokens: Vec<TaskDependencyToken>)
        ensures
            tokens@ == self.tokens_of(indices@, indices@.len() as int),
    {
        let mut tokens: Vec<TaskDependencyToken> = Vec::new();
        let mut k: usize = 0;
        while k < indices.len()
            invariant
                k <= indices@.len(),
                tokens@ == self.tokens_of(indices@, k as int),
            decreases indices@.len() - k,
        {
            let index = indices[k];
            if index < self.tokens.len() {
                if let Some(token) = self.tokens[index] {
                    tokens.push(token);
                }
            }
            k = k + 1;
        }
        tokens
    }

    /// The tokens of the tasks that bring the first `k` volumes.
    pub open spec fn first_tokens(&self, k: int) -> Seq<TaskDependencyToken>
        decreases k,
    {
        if k <= 0 {
            Seq::empty()
        } else {
            let before = self.first_tokens(k - 1);
            match self.tokens@[k - 1] {
                Some(token) => before.push(token),
                None => before,
            }
        }
    }

    /// The tokens of the tasks that bring the volumes.
    pub fn all_tokens(&self) -> (tokens: Vec<TaskDependencyToken>)
        ensures
            tokens@ == self.first_tokens(self.tokens@.len() as int),
    {
        let mut tokens: Vec<TaskDependencyToken> = Vec::new();
        let mut k: usize = 0;
        while k < self.tokens.len()
            invariant
                k <= self.tokens@.len(),
                tokens@ == self.first_tokens(k as int),
            decreases self.tokens@.len() - k,
        {
            if let Some(token) = self.tokens[k] {
                tokens.push(token);
            }
            k = k + 1;
        }
        tokens
    }

    /// Whether the volumes stay once the archive is extracted.
    pub fn keeps_full_volumes(&self) -> (keeps: bool)
        ensures
            keeps == (self.retention is KeepVolumes),
    {
        match self.retention {
            ArchiveRetention::KeepVolumes => true,
            ArchiveRetention::DiscardVolumes => false,
        }
    }

    /// Whether the volumes of a remote archive are assembled in their place.
    pub open spec fn saves_volumes(&self) -> bool {
        self.remote && self.retention is KeepVolumes
    }

    /// Whether the volumes of a remote archive are assembled in their place.
    pub fn should_save_full_volumes(&self) -> (saves: bool)
        ensures
            saves == self.saves_volumes(),
    {
        self.remote && self.keeps_full_volumes()
    }
}

} // verus!
