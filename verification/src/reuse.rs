//! Bringing a file to its place from copies that lie elsewhere.

use crate::archive::fetch;
use crate::archive::work;
use crate::error::Message;
use crate::event::{TaskOutcome, WorkerEvent};
use crate::files;
use crate::files::{classify_reuse_mode, ReuseMode};
use crate::graph::expansion;
use crate::graph::expansion::{GraphExpansion, TaskRun};
use crate::patch::steps;
use crate::path::{FilePath, PathModel};
use crate::task::{FileDownload, FileRepair, RepairModel, Task};
use crate::text;
use vstd::prelude::*;

verus! {

/// A file that may be reused: where it lies, the volume that it lies on where
/// that is known, and the name that the volume is grouped by.
pub struct ReuseSource {
    pub path: FilePath,
    pub volume: Option<String>,
    pub group_key: String,
}

/// Whether an earlier source is the same file.
pub open spec fn seen_before(sources: Seq<ReuseSource>, i: int) -> bool {
    exists|j: int| 0 <= j < i && (#[trigger] sources[j]).path@ == sources[i].path@
}

/// Whether a source lies on another volume, so that it can only be copied.
pub open spec fn copies(source: ReuseSource, destination: Option<Seq<char>>) -> bool {
    source.volume is Some && destination is Some && source.volume->0@ != destination->0
}

/// Whether a source is tried: each file once, and those on other volumes only
/// where copies are allowed.
pub open spec fn is_tried(
    sources: Seq<ReuseSource>,
    destination: Option<Seq<char>>,
    allow_copy: bool,
    i: int,
) -> bool {
    !seen_before(sources, i) && (allow_copy || !copies(sources[i], destination))
}

/// The files among the first `k` sources that are tried, in order.
pub open spec fn tried(
    sources: Seq<ReuseSource>,
    destination: Option<Seq<char>>,
    allow_copy: bool,
    k: int,
) -> Seq<PathModel>
    decreases k,
{
    if k <= 0 {
        Seq::empty()
    } else {
        let before = tried(sources, destination, allow_copy, k - 1);
        if is_tried(sources, destination, allow_copy, k - 1) {
            before.push(sources[k - 1].path@)
        } else {
            before
        }
    }
}

/// Files that lie on one volume.
#[verifier::ext_equal]
pub struct VolumeGroup {
    pub key: Seq<char>,
    pub paths: Seq<PathModel>,
}

/// The place of a volume among groups, from the `k`th on.
pub open spec fn group_place(groups: Seq<VolumeGroup>, key: Seq<char>, k: int) -> Option<int>
    decreases groups.len() - k,
{
    if k < 0 || k >= groups.len() {
        None
    } else if groups[k].key == key {
        Some(k)
    } else {
        group_place(groups, key, k + 1)
    }
}

/// Groups with one more file: with those of its volume, or else in a group of
/// its own, at the end.
pub open spec fn grouped(
    groups: Seq<VolumeGroup>,
    key: Seq<char>,
    path: PathModel,
) -> Seq<VolumeGroup> {
    match group_place(groups, key, 0) {
        Some(at) => groups.update(
            at,
            VolumeGroup { key, paths: groups[at].paths.push(path) },
        ),
        None => groups.push(VolumeGroup { key, paths: seq![path] }),
    }
}

/// The volumes of the files among the first `k` sources that are tried in one
/// way, in the order in which they came up.
pub open spec fn volume_groups(
    sources: Seq<ReuseSource>,
    destination: Option<Seq<char>>,
    allow_copy: bool,
    copy_only: bool,
    k: int,
) -> Seq<VolumeGroup>
    decreases k,
{
    if k <= 0 {
        Seq::empty()
    } else {
        let before = volume_groups(sources, destination, allow_copy, copy_only, k - 1);
        let source = sources[k - 1];
        if is_tried(sources, destination, allow_copy, k - 1) && copies(source, destination)
            == copy_only {
            grouped(before, source.group_key@, source.path@)
        } else {
            before
        }
    }
}

/// Files that lie on one volume.
pub struct VolumeFiles {
    pub key: String,
    pub paths: Vec<FilePath>,
}

impl View for VolumeFiles {
    type V = VolumeGroup;

    open spec fn view(&self) -> VolumeGroup {
        VolumeGroup { key: self.key@, paths: steps::models(self.paths@) }
    }
}

/// The volumes of a list.
pub open spec fn group_views(list: Seq<VolumeFiles>) -> Seq<VolumeGroup> {
    Seq::new(list.len(), |i: int| list[i]@)
}

fn add_to_group(list: &mut Vec<VolumeFiles>, key: &String, path: FilePath)
    ensures
        group_views(final(list)@) == grouped(group_views(old(list)@), key@, path@),
{
    let ghost views = group_views(list@);
    let mut k: usize = 0;
    while k < list.len()
        invariant
            k <= list@.len(),
            *list == *old(list),
            views == group_views(list@),
            group_place(views, key@, 0) == group_place(views, key@, k as int),
        decreases list@.len() - k,
    {
        assert(views[k as int] == list@[k as int]@);
        if text::same_string(&list[k].key, key) {
            let ghost before = list@[k as int];
            let ghost added = path@;
            list[k].paths.push(path);
            proof {
                assert(steps::models(list@[k as int].paths@) =~= steps::models(
                    before.paths@,
                ).push(added));
                assert(group_views(list@) =~= grouped(views, key@, added));
            }
            return ;
        }
        k = k + 1;
    }
    let ghost added = path@;
    let mut paths: Vec<FilePath> = Vec::new();
    paths.push(path);
    assert(steps::models(paths@) =~= seq![added]);
    list.push(VolumeFiles { key: key.clone(), paths });
    assert(group_views(list@) =~= grouped(views, key@, added));
}

fn is_repeated(sources: &Vec<ReuseSource>, i: usize) -> (yes: bool)
    requires
        i < sources@.len(),
    ensures
        yes == seen_before(sources@, i as int),
{
    let mut j: usize = 0;
    while j < i
        invariant
            j <= i < sources@.len(),
            forall|l: int| 0 <= l < j ==> (#[trigger] sources@[l]).path@ != sources@[i as int].path@,
        decreases i - j,
    {
        if sources[j].path.same(&sources[i].path) {
            assert(sources@[j as int].path@ == sources@[i as int].path@);
            return true;
        }
        j = j + 1;
    }
    false
}

/// The files that are tried, and the volumes that they lie on: those from which
/// a file can be linked, and those from which it is copied.
pub struct SourceGroups {
    pub all: Vec<FilePath>,
    pub linked: Vec<VolumeFiles>,
    pub copied: Vec<VolumeFiles>,
}

/// Groups sources by the volumes that they lie on.
pub fn group_sources(
    sources: &Vec<ReuseSource>,
    destination: &Option<String>,
    allow_copy: bool,
) -> (groups: SourceGroups)
    ensures
        ({
            let n = sources@.len() as int;
            let dest = text::optional(*destination);
            &&& steps::models(groups.all@) == tried(sources@, dest, allow_copy, n)
            &&& group_views(groups.linked@) == volume_groups(sources@, dest, allow_copy, false, n)
            &&& group_views(groups.copied@) == volume_groups(sources@, dest, allow_copy, true, n)
        }),
{
    let ghost dest = text::optional(*destination);
    let mut all: Vec<FilePath> = Vec::new();
    let mut linked: Vec<VolumeFiles> = Vec::new();
    let mut copied: Vec<VolumeFiles> = Vec::new();
    assert(steps::models(all@) =~= Seq::<PathModel>::empty());
    assert(group_views(linked@) =~= Seq::<VolumeGroup>::empty());
    assert(group_views(copied@) =~= Seq::<VolumeGroup>::empty());
    let mut k: usize = 0;
    while k < sources.len()
        invariant
            k <= sources@.len(),
            dest == text::optional(*destination),
            steps::models(all@) == tried(sources@, dest, allow_copy, k as int),
            group_views(linked@) == volume_groups(sources@, dest, allow_copy, false, k as int),
            group_views(copied@) == volume_groups(sources@, dest, allow_copy, true, k as int),
        decreases sources@.len() - k,
    {
        let ghost before = all@;
        let source = &sources[k];
        let copy_only = match classify_reuse_mode(&source.volume, destination) {
            ReuseMode::CopyOnly => true,
            ReuseMode::HardlinkPreferred => false,
        };
        assert(copy_only == copies(sources@[k as int], dest));
        if !is_repeated(sources, k) && (allow_copy || !copy_only) {
            all.push(source.path.copied());
            assert(steps::models(all@) =~= steps::models(before).push(source.path@));
            if copy_only {
                add_to_group(&mut copied, &source.group_key, source.path.copied());
            } else {
                add_to_group(&mut linked, &source.group_key, source.path.copied());
            }
        }
        k = k + 1;
    }
    SourceGroups { all, linked, copied }
}

/// The download of a file.
pub open spec fn is_download_of(download: FileDownload, repair: RepairModel) -> bool {
    &&& repair.download_url == Some(download.url@)
    &&& download.dest@ == repair.dest
    &&& download.logical_path@ == repair.logical_path
    &&& download.expected_md5@ == repair.expected_md5
    &&& download.expected_size == Some(repair.expected_size)
    &&& download.retry_count == repair.retry_count
    &&& download.transfer_class == repair.transfer_class
    &&& download.archive_repair == repair.archive_repair
}

/// Whether a task downloads a file.
pub open spec fn downloads(task: Task, repair: RepairModel) -> bool {
    task matches Task::Download { download, resume } && resume is None && is_download_of(
        download,
        repair,
    )
}

/// Whether tasks bring a file to its place without a source: what lies there is
/// looked at first, where that was put off, and the file is downloaded where it
/// can be.
pub open spec fn are_fallback_tasks(tasks: Seq<Task>, repair: RepairModel) -> bool {
    &&& tasks.len() == 1
    &&& if repair.verify_destination_fallback {
        tasks[0] matches Task::Verify {
            path,
            logical_path,
            expected_md5,
            expected_size,
            on_fail,
        } && path@ == repair.dest && logical_path@ == repair.logical_path && expected_md5@
            == repair.expected_md5 && expected_size == Some(repair.expected_size) && match on_fail {
            Some(task) => downloads(*task, repair),
            None => repair.download_url is None,
        }
    } else {
        downloads(tasks[0], repair)
    }
}

/// Whether nothing can bring a file to its place.
pub open spec fn is_hopeless(repair: RepairModel) -> bool {
    !repair.verify_destination_fallback && repair.download_url is None
}

fn download_of(repair: &FileRepair) -> (task: Option<Task>)
    ensures
        match task {
            Some(inner) => downloads(inner, repair@),
            None => repair.download_url is None,
        },
{
    match &repair.download_url {
        Some(url) => Some(
            Task::Download {
                download: FileDownload {
                    url: url.clone(),
                    dest: repair.dest.copied(),
                    logical_path: repair.logical_path.clone(),
                    expected_md5: repair.expected_md5.clone(),
                    expected_size: Some(repair.expected_size),
                    retry_count: repair.retry_count,
                    transfer_class: repair.transfer_class,
                    archive_repair: repair.archive_repair,
                },
                resume: None,
            },
        ),
        None => None,
    }
}

/// The tasks that bring a file to its place without a source.
pub fn destination_or_repair_tasks(repair: &FileRepair) -> (result: Result<Vec<Task>, Message>)
    ensures
        match result {
            Ok(tasks) => !is_hopeless(repair@) && are_fallback_tasks(tasks@, repair@),
            Err(message) => is_hopeless(repair@) && message.context@ == "Task pool error: "@
                && message.detail@ == "no reusable source or download URL for "@
                + repair.logical_path@,
        },
{
    let mut tasks: Vec<Task> = Vec::new();
    let download = download_of(repair);
    if repair.verify_destination_fallback {
        let on_fail = match download {
            Some(task) => Some(Box::new(task)),
            None => None,
        };
        tasks.push(
            Task::Verify {
                path: repair.dest.copied(),
                logical_path: repair.logical_path.clone(),
                expected_md5: repair.expected_md5.clone(),
                expected_size: Some(repair.expected_size),
                on_fail,
            },
        );
        return Ok(tasks);
    }
    match download {
        Some(task) => {
            tasks.push(task);
            Ok(tasks)
        },
        None => {
            let mut detail = "no reusable source or download URL for ".to_owned();
            text::push_text(&mut detail, repair.logical_path.as_str());
            Err(Message::new("Task pool error: ", detail))
        },
    }
}

/// Whether a run runs tasks side by side.
pub open spec fn runs_all(run: TaskRun, tasks: Seq<Task>) -> bool {
    if tasks.len() == 0 {
        run is Succeeded
    } else {
        run matches TaskRun::Expand { expansion: e, next } && next is None && e.inv() && e@
            == tasks.map_values(|task: Task| expansion::plain_node(task))
    }
}

/// Runs tasks side by side.
pub fn run_all(tasks: Vec<Task>) -> (run: TaskRun)
    ensures
        runs_all(run, tasks@),
{
    TaskRun::expand(GraphExpansion::parallel(tasks))
}

/// Whether a run is that of tasks side by side, or of the error that kept them
/// from being made.
pub open spec fn runs_list(run: TaskRun, result: Result<Vec<Task>, Message>) -> bool {
    match result {
        Ok(tasks) => runs_all(run, tasks@),
        Err(message) => work::fails_with(run, message.context@ + message.detail@),
    }
}

/// Runs tasks side by side, unless there is an error.
pub fn task_list_run(result: Result<Vec<Task>, Message>) -> (run: TaskRun)
    ensures
        runs_list(run, result),
{
    match result {
        Ok(tasks) => run_all(tasks),
        Err(message) => TaskRun::failed(message.message()),
    }
}

/// Whether a task looks for a good file on one volume.
pub open spec fn looks_on_volume(
    task: Task,
    volume: VolumeGroup,
    copy_only: bool,
    repair: RepairModel,
    group: u64,
) -> bool {
    task matches Task::VerifyReuseVolume {
        copy_only: c,
        candidates,
        logical_path,
        expected_md5,
        expected_size,
        group: g,
    } && c == copy_only && steps::models(candidates@) == volume.paths && logical_path@
        == repair.logical_path && expected_md5@ == repair.expected_md5 && expected_size
        == repair.expected_size && g == group
}

/// Whether tasks look for a good file on volumes, in order.
pub open spec fn look_on_volumes(
    tasks: Seq<Task>,
    volumes: Seq<VolumeGroup>,
    copy_only: bool,
    repair: RepairModel,
    group: u64,
) -> bool {
    &&& tasks.len() == volumes.len()
    &&& forall|i: int|
        0 <= i < tasks.len() ==> looks_on_volume(
            #[trigger] tasks[i],
            volumes[i],
            copy_only,
            repair,
            group,
        )
}

fn volume_tasks(volumes: Vec<VolumeFiles>, copy_only: bool, repair: &FileRepair, group: u64) -> (tasks:
    Vec<Task>)
    ensures
        look_on_volumes(tasks@, group_views(volumes@), copy_only, repair@, group),
{
    let ghost all = volumes@;
    let mut tasks: Vec<Task> = Vec::new();
    for volume in it: volumes
        invariant
            it.seq() == all,
            tasks@.len() == it.index(),
            forall|i: int|
                0 <= i < tasks@.len() ==> looks_on_volume(
                    #[trigger] tasks@[i],
                    group_views(all)[i],
                    copy_only,
                    repair@,
                    group,
                ),
    {
        let VolumeFiles { key, paths } = volume;
        tasks.push(
            Task::VerifyReuseVolume {
                copy_only,
                candidates: paths,
                logical_path: repair.logical_path.clone(),
                expected_md5: repair.expected_md5.clone(),
                expected_size: repair.expected_size,
                group,
            },
        );
    }
    tasks
}

/// The search for a good file on several volumes, in the mathematical model.
#[verifier::ext_equal]
pub struct SearchModel {
    /// How many volumes are still being looked at.
    pub remaining: int,
    /// The volumes to copy from, where no file can be linked.
    pub deferred: Seq<VolumeGroup>,
    /// Every file that is tried.
    pub sources: Seq<PathModel>,
    pub repair: RepairModel,
    /// Whether a good file has been found, or there is none.
    pub resolved: bool,
}

/// The search for a good file on several volumes.
pub struct ReuseCandidateGroup {
    pub id: u64,
    remaining: usize,
    deferred: Vec<VolumeFiles>,
    sources: Vec<FilePath>,
    repair: FileRepair,
    resolved: bool,
}

impl View for ReuseCandidateGroup {
    type V = SearchModel;

    closed spec fn view(&self) -> SearchModel {
        SearchModel {
            remaining: self.remaining as int,
            deferred: group_views(self.deferred@),
            sources: steps::models(self.sources@),
            repair: self.repair@,
            resolved: self.resolved,
        }
    }
}

/// The files of a list without those that are a given one.
pub open spec fn without(paths: Seq<PathModel>, path: PathModel, k: int) -> Seq<PathModel>
    decreases k,
{
    if k <= 0 {
        Seq::empty()
    } else {
        let before = without(paths, path, k - 1);
        if paths[k - 1] == path {
            before
        } else {
            before.push(paths[k - 1])
        }
    }
}

fn paths_without(paths: &Vec<FilePath>, path: &FilePath) -> (rest: Vec<FilePath>)
    ensures
        steps::models(rest@) == without(steps::models(paths@), path@, paths@.len() as int),
{
    let ghost all = steps::models(paths@);
    let mut rest: Vec<FilePath> = Vec::new();
    assert(steps::models(rest@) =~= Seq::<PathModel>::empty());
    let mut k: usize = 0;
    while k < paths.len()
        invariant
            k <= paths@.len(),
            all == steps::models(paths@),
            steps::models(rest@) == without(all, path@, k as int),
        decreases paths@.len() - k,
    {
        let ghost before = rest@;
        assert(all[k as int] == paths@[k as int]@);
        if !paths[k].same(path) {
            rest.push(paths[k].copied());
            assert(steps::models(rest@) =~= steps::models(before).push(all[k as int]));
        }
        k = k + 1;
    }
    rest
}

/// Whether a task reuses a file.
pub open spec fn reuses(
    task: Task,
    source: PathModel,
    copy_only: bool,
    rest: Seq<PathModel>,
    repair: RepairModel,
) -> bool {
    task matches Task::ReuseFile {
        source: s,
        copy_only: c,
        remaining_source_candidates,
        repair: r,
    } && s@ == source && c == copy_only && steps::models(remaining_source_candidates@) == rest && r@
        == repair
}

/// What follows once a volume has been looked at. The first good file is reused,
/// and the search is over. Where the last volume had none, the volumes to copy
/// from are looked at, if there are any; else the file is brought to its place
/// without a source.
pub open spec fn volume_looked_at(
    m: SearchModel,
    n: SearchModel,
    id: u64,
    copy_only: bool,
    source: Option<PathModel>,
    result: Result<Vec<Task>, Message>,
) -> bool {
    if m.resolved {
        n == m && (result matches Ok(tasks) && tasks@.len() == 0)
    } else {
        match source {
            Some(path) => {
                &&& n == (SearchModel { resolved: true, ..m })
                &&& result matches Ok(tasks) && tasks@.len() == 1 && reuses(
                    tasks@[0],
                    path,
                    copy_only,
                    without(m.sources, path, m.sources.len() as int),
                    m.repair,
                )
            },
            None => if m.remaining > 1 {
                n == (SearchModel { remaining: m.remaining - 1, ..m }) && (result matches Ok(tasks)
                    && tasks@.len() == 0)
            } else if m.deferred.len() > 0 {
                &&& n == (SearchModel {
                    remaining: m.deferred.len() as int,
                    deferred: Seq::empty(),
                    ..m
                })
                &&& result matches Ok(tasks) && look_on_volumes(
                    tasks@,
                    m.deferred,
                    true,
                    m.repair,
                    id,
                )
            } else {
                &&& n == (SearchModel { remaining: 0, resolved: true, ..m })
                &&& match result {
                    Ok(tasks) => !is_hopeless(m.repair) && are_fallback_tasks(tasks@, m.repair),
                    Err(message) => is_hopeless(m.repair) && message.context@
                        == "Task pool error: "@ && message.detail@
                        == "no reusable source or download URL for "@ + m.repair.logical_path,
                }
            },
        }
    }
}

impl ReuseCandidateGroup {
    pub fn new(
        id: u64,
        remaining: usize,
        deferred: Vec<VolumeFiles>,
        sources: Vec<FilePath>,
        repair: FileRepair,
    ) -> (group: ReuseCandidateGroup)
        ensures
            group@ == (SearchModel {
                remaining: remaining as int,
                deferred: group_views(deferred@),
                sources: steps::models(sources@),
                repair: repair@,
                resolved: false,
            }),
            group.number() == id,
    {
        ReuseCandidateGroup { id, remaining, deferred, sources, repair, resolved: false }
    }

    /// The number that tasks know the search by.
    pub closed spec fn number(&self) -> u64 {
        self.id
    }

    pub fn is_resolved(&self) -> (resolved: bool)
        ensures
            resolved == self@.resolved,
    {
        self.resolved
    }

    /// Notes that a volume has been looked at. Says what follows.
    pub fn finish_volume(&mut self, copy_only: bool, source: Option<FilePath>) -> (result: Result<
        Vec<Task>,
        Message,
    >)
        ensures
            final(self).number() == old(self).number(),
            volume_looked_at(
                old(self)@,
                final(self)@,
                old(self).number(),
                copy_only,
                files::optional_path(source),
                result,
            ),
    {
        if self.resolved {
            return Ok(Vec::new());
        }
        match source {
            Some(path) => {
                self.resolved = true;
                let mut tasks: Vec<Task> = Vec::new();
                let rest = paths_without(&self.sources, &path);
                tasks.push(
                    Task::ReuseFile {
                        source: path,
                        copy_only,
                        remaining_source_candidates: rest,
                        repair: self.repair.copied(),
                    },
                );
                Ok(tasks)
            },
            None => {
                if self.remaining > 1 {
                    self.remaining = self.remaining - 1;
                    return Ok(Vec::new());
                }
                if self.deferred.len() > 0 {
                    let mut volumes: Vec<VolumeFiles> = Vec::new();
                    std::mem::swap(&mut volumes, &mut self.deferred);
                    self.remaining = volumes.len();
                    let tasks = volume_tasks(volumes, true, &self.repair, self.id);
                    assert(group_views(self.deferred@) =~= Seq::<VolumeGroup>::empty());
                    return Ok(tasks);
                }
                self.remaining = 0;
                self.resolved = true;
                destination_or_repair_tasks(&self.repair)
            },
        }
    }
}

/// The file of a volume to look at next, once so many have been looked at. The
/// rest is passed over once the search has come to its end elsewhere.
pub fn next_candidate(tried: usize, count: usize, resolved: bool) -> (next: Option<usize>)
    ensures
        next == (if !resolved && tried < count {
            Some(tried)
        } else {
            None
        }),
{
    if !resolved && tried < count {
        Some(tried)
    } else {
        None
    }
}

/// Whether a run is what follows the look at a volume.
pub open spec fn volume_run(
    m: SearchModel,
    n: SearchModel,
    id: u64,
    copy_only: bool,
    source: Option<PathModel>,
    run: TaskRun,
) -> bool {
    exists|result: Result<Vec<Task>, Message>| #[trigger]
        volume_looked_at(m, n, id, copy_only, source, result) && runs_list(run, result)
}

/// Ends the look at a volume, given the good file that was found there. Nothing
/// follows where the search had come to its end before.
pub fn run_verify_reuse_volume(
    search: &mut ReuseCandidateGroup,
    was_resolved: bool,
    copy_only: bool,
    source: Option<FilePath>,
) -> (run: TaskRun)
    ensures
        final(search).number() == old(search).number(),
        was_resolved ==> final(search)@ == old(search)@ && run is Succeeded,
        !was_resolved ==> volume_run(
            old(search)@,
            final(search)@,
            old(search).number(),
            copy_only,
            files::optional_path(source),
            run,
        ),
{
    if was_resolved {
        return TaskRun::succeeded();
    }
    let ghost found = files::optional_path(source);
    let result = search.finish_volume(copy_only, source);
    assert(volume_looked_at(
        old(search)@,
        search@,
        old(search).number(),
        copy_only,
        found,
        result,
    ));
    task_list_run(result)
}

/// A search is over once: what it found is reused once, and nothing more is
/// looked at.
pub proof fn law_search_ends_once(
    m: SearchModel,
    n: SearchModel,
    id: u64,
    copy_only: bool,
    source: Option<PathModel>,
    result: Result<Vec<Task>, Message>,
)
    requires
        m.resolved,
        volume_looked_at(m, n, id, copy_only, source, result),
    ensures
        n == m,
        result matches Ok(tasks) && tasks@.len() == 0,
{
}

/// What bringing a file to its place starts with.
pub struct RepairStart {
    pub run: TaskRun,
    /// The search for a good file, where there is one.
    pub search: Option<ReuseCandidateGroup>,
}

/// Whether tasks are those of one list, followed by others.
pub open spec fn is_followed(all: Seq<Task>, first: Seq<Task>, others: Seq<Task>) -> bool {
    all == first + others
}

/// What runs beside a repair: what the repair out of archives needs, unless the
/// destination is still to be verified, so that it may not be needed at all.
pub open spec fn run_beside(repair: RepairModel, prepare: Seq<Task>) -> Seq<Task> {
    if repair.verify_destination_fallback {
        Seq::empty()
    } else {
        prepare
    }
}

/// Whether bringing a file to its place starts as it should: good files are
/// looked for on the volumes from which the file can be linked, or, where there
/// are none, on those from which it is copied; without a source the file is
/// brought to its place otherwise.
pub open spec fn repair_starts(
    start: RepairStart,
    sources: Seq<ReuseSource>,
    destination: Option<Seq<char>>,
    repair: RepairModel,
    prepare: Seq<Task>,
    id: u64,
) -> bool {
    let n = sources.len() as int;
    let allow = repair.allow_copy_fallback;
    let beside = run_beside(repair, prepare);
    let linked = volume_groups(sources, destination, allow, false, n);
    let copied = volume_groups(sources, destination, allow, true, n);
    if linked.len() == 0 && copied.len() == 0 {
        &&& start.search is None
        &&& if is_hopeless(repair) {
            work::fails_with(
                start.run,
                "Task pool error: "@ + ("no reusable source or download URL for "@
                    + repair.logical_path),
            )
        } else {
            exists|all: Seq<Task>, first: Seq<Task>| #[trigger]
                is_followed(all, first, beside) && are_fallback_tasks(first, repair) && runs_all(
                    start.run,
                    all,
                )
        }
    } else {
        let volumes = if linked.len() == 0 {
            copied
        } else {
            linked
        };
        &&& exists|all: Seq<Task>, first: Seq<Task>| #[trigger]
            is_followed(all, first, beside) && look_on_volumes(
                first,
                volumes,
                linked.len() == 0,
                repair,
                id,
            ) && runs_all(start.run, all)
        &&& start.search matches Some(search) && search.number() == id && search@ == (SearchModel {
            remaining: volumes.len() as int,
            deferred: if linked.len() == 0 {
                Seq::empty()
            } else {
                copied
            },
            sources: tried(sources, destination, allow, n),
            repair,
            resolved: false,
        })
    }
}

fn followed_by(first: Vec<Task>, others: Vec<Task>) -> (all: Vec<Task>)
    ensures
        is_followed(all@, first@, others@),
{
    let ghost more = others@;
    let mut all = first;
    assert(first@ + more.take(0) =~= first@);
    for task in it: others
        invariant
            it.seq() == more,
            all@ == first@ + more.take(it.index()),
    {
        all.push(task);
        assert(all@ =~= first@ + more.take(it.index() + 1));
    }
    assert(more.take(more.len() as int) =~= more);
    all
}

/// Starts bringing a file to its place.
pub fn run_repair_file(
    repair: FileRepair,
    sources: &Vec<ReuseSource>,
    destination: &Option<String>,
    prepare: Vec<Task>,
    id: u64,
) -> (start: RepairStart)
    ensures
        repair_starts(
            start,
            sources@,
            text::optional(*destination),
            repair@,
            prepare@,
            id,
        ),
{
    let beside: Vec<Task> = if repair.verify_destination_fallback {
        Vec::new()
    } else {
        prepare
    };
    assert(beside@ == run_beside(repair@, prepare@));
    let groups = group_sources(sources, destination, repair.allow_copy_fallback);
    let SourceGroups { all, linked, copied } = groups;
    assert(group_views(linked@).len() == linked@.len());
    assert(group_views(copied@).len() == copied@.len());
    if linked.len() == 0 && copied.len() == 0 {
        let run = match destination_or_repair_tasks(&repair) {
            Ok(first) => run_all(followed_by(first, beside)),
            Err(message) => TaskRun::failed(message.message()),
        };
        return RepairStart { run, search: None };
    }
    if linked.len() == 0 {
        let count = copied.len();
        let first = volume_tasks(copied, true, &repair, id);
        let run = run_all(followed_by(first, beside));
        let deferred: Vec<VolumeFiles> = Vec::new();
        assert(group_views(deferred@) =~= Seq::<VolumeGroup>::empty());
        let search = ReuseCandidateGroup::new(id, count, deferred, all, repair);
        return RepairStart { run, search: Some(search) };
    }
    let count = linked.len();
    let first = volume_tasks(linked, false, &repair, id);
    let run = run_all(followed_by(first, beside));
    let search = ReuseCandidateGroup::new(id, count, copied, all, repair);
    RepairStart { run, search: Some(search) }
}

/// How a file was reused.
#[derive(Clone, Copy, PartialEq, Eq, Structural, Debug)]
pub enum PathReuseMethod {
    Hardlink,
    Copy,
}

/// What reusing a file ends in.
pub struct ReuseEnd {
    pub run: TaskRun,
    pub events: Vec<WorkerEvent>,
}

/// Whether a report says that a file is good.
pub open spec fn is_verified(event: WorkerEvent, path: Seq<char>) -> bool {
    event matches WorkerEvent::Outcome { outcome: TaskOutcome::Verified { path: p, ok, issue } }
        && p@ == path && ok && issue is None
}

/// Whether a report says how a file was reused.
pub open spec fn is_reused(event: WorkerEvent, method: PathReuseMethod, dest: PathModel) -> bool {
    match method {
        PathReuseMethod::Hardlink => event matches WorkerEvent::Outcome {
            outcome: TaskOutcome::Hardlinked { path },
        } && path@ == dest.text(),
        PathReuseMethod::Copy => event matches WorkerEvent::Outcome {
            outcome: TaskOutcome::Copied { path },
        } && path@ == dest.text(),
    }
}

/// Whether a task brings a file to its place out of sources.
pub open spec fn repairs(task: Task, sources: Seq<PathModel>, repair: RepairModel) -> bool {
    task matches Task::RepairFile { repair: r, source_candidates } && r@ == repair
        && steps::models(source_candidates@) == sources
}

/// Whether reusing a file ends as it should. A failed link is followed by a copy,
/// where copies are allowed; a failed copy by the other sources, and where there
/// are none, by bringing the file to its place without one.
pub open spec fn reuse_ends(
    end: ReuseEnd,
    source: PathModel,
    copy_only: bool,
    rest: Seq<PathModel>,
    repair: RepairModel,
    result: Result<PathReuseMethod, String>,
) -> bool {
    match result {
        Ok(method) => {
            &&& end.run is Succeeded
            &&& end.events@.len() == 2
            &&& is_reused(end.events@[0], method, repair.dest)
            &&& is_verified(end.events@[1], repair.logical_path)
        },
        Err(error) => if !copy_only && repair.allow_copy_fallback {
            &&& end.events@.len() == 1
            &&& fetch::is_retry(
                end.events@[0],
                repair.logical_path,
                "verified-source hardlink failed; scheduling copy fallback: "@ + error@,
            )
            &&& end.run matches TaskRun::Continue { task } && reuses(
                task,
                source,
                true,
                rest,
                repair,
            )
        } else {
            &&& end.events@.len() == 1
            &&& fetch::is_retry(
                end.events@[0],
                repair.logical_path,
                "verified-source reuse failed: "@ + error@,
            )
            &&& if rest.len() > 0 {
                end.run matches TaskRun::Continue { task } && repairs(task, rest, repair)
            } else if is_hopeless(repair) {
                work::fails_with(
                    end.run,
                    "Task pool error: "@ + ("no reusable source or download URL for "@
                        + repair.logical_path),
                )
            } else {
                exists|tasks: Seq<Task>| #[trigger]
                    are_fallback_tasks(tasks, repair) && runs_all(end.run, tasks)
            }
        },
    }
}

fn push_error(lead: &str, error: &str) -> (reason: String)
    ensures
        reason@ == lead@ + error@,
{
    let mut reason = lead.to_owned();
    text::push_text(&mut reason, error);
    reason
}

/// Ends the reuse of a file.
pub fn finish_reuse_file(
    source: FilePath,
    copy_only: bool,
    remaining_source_candidates: Vec<FilePath>,
    repair: FileRepair,
    result: Result<PathReuseMethod, String>,
) -> (end: ReuseEnd)
    ensures
        reuse_ends(
            end,
            source@,
            copy_only,
            steps::models(remaining_source_candidates@),
            repair@,
            result,
        ),
{
    let mut events: Vec<WorkerEvent> = Vec::new();
    match result {
        Ok(method) => {
            match method {
                PathReuseMethod::Hardlink => {
                    events.push(WorkerEvent::hardlinked(&repair.dest));
                },
                PathReuseMethod::Copy => {
                    events.push(WorkerEvent::copied(&repair.dest));
                },
            }
            events.push(WorkerEvent::verified(repair.logical_path.clone(), true, None));
            ReuseEnd { run: TaskRun::succeeded(), events }
        },
        Err(error) => {
            if !copy_only && repair.allow_copy_fallback {
                let reason = push_error(
                    "verified-source hardlink failed; scheduling copy fallback: ",
                    error.as_str(),
                );
                events.push(WorkerEvent::Retried { path: repair.logical_path.clone(), reason });
                let task = Task::ReuseFile {
                    source,
                    copy_only: true,
                    remaining_source_candidates,
                    repair,
                };
                return ReuseEnd { run: TaskRun::Continue { task }, events };
            }
            let reason = push_error("verified-source reuse failed: ", error.as_str());
            events.push(WorkerEvent::Retried { path: repair.logical_path.clone(), reason });
            assert(steps::models(remaining_source_candidates@).len()
                == remaining_source_candidates@.len());
            if remaining_source_candidates.len() > 0 {
                let task = Task::RepairFile {
                    repair,
                    source_candidates: remaining_source_candidates,
                };
                return ReuseEnd { run: TaskRun::Continue { task }, events };
            }
            let run = match destination_or_repair_tasks(&repair) {
                Ok(tasks) => {
                    assert(are_fallback_tasks(tasks@, repair@));
                    run_all(tasks)
                },
                Err(message) => TaskRun::failed(message.message()),
            };
            ReuseEnd { run, events }
        },
    }
}

proof fn lemma_without_grows(paths: Seq<PathModel>, path: PathModel, k: int)
    requires
        0 <= k <= paths.len(),
    ensures
        without(paths, path, k).len() <= k,
        (exists|i: int| 0 <= i < k && paths[i] == path) ==> without(paths, path, k).len() < k,
    decreases k,
{
    if k > 0 {
        lemma_without_grows(paths, path, k - 1);
        if exists|i: int| 0 <= i < k && paths[i] == path {
            let i = choose|i: int| 0 <= i < k && paths[i] == path;
            if i < k - 1 {
                assert(paths[i] == path);
            }
        }
    }
}

/// Trying sources ends: a source that was found good and failed is not among
/// those that are tried next.
pub proof fn law_failed_sources_are_dropped(paths: Seq<PathModel>, path: PathModel)
    requires
        paths.contains(path),
    ensures
        without(paths, path, paths.len() as int).len() < paths.len(),
        !without(paths, path, paths.len() as int).contains(path),
{
    lemma_without_grows(paths, path, paths.len() as int);
    lemma_without_holds(paths, path, paths.len() as int);
}

proof fn lemma_without_holds(paths: Seq<PathModel>, path: PathModel, k: int)
    requires
        0 <= k <= paths.len(),
    ensures
        !without(paths, path, k).contains(path),
    decreases k,
{
    if k > 0 {
        lemma_without_holds(paths, path, k - 1);
        let before = without(paths, path, k - 1);
        let list = without(paths, path, k);
        if list.contains(path) {
            let i = choose|i: int| 0 <= i < list.len() && list[i] == path;
            if i < before.len() {
                assert(before[i] == path);
            }
        }
    }
}

proof fn lemma_tried_is_single(
    sources: Seq<ReuseSource>,
    destination: Option<Seq<char>>,
    allow_copy: bool,
    k: int,
    path: PathModel,
)
    requires
        0 <= k <= sources.len(),
        tried(sources, destination, allow_copy, k).contains(path),
    ensures
        exists|i: int| 0 <= i < k && (#[trigger] sources[i]).path@ == path,
    decreases k,
{
    let before = tried(sources, destination, allow_copy, k - 1);
    if k > 0 {
        if before.contains(path) {
            lemma_tried_is_single(sources, destination, allow_copy, k - 1, path);
            let i = choose|i: int| 0 <= i < k - 1 && (#[trigger] sources[i]).path@ == path;
            assert(sources[i].path@ == path);
        } else {
            let list = tried(sources, destination, allow_copy, k);
            let i = choose|i: int| 0 <= i < list.len() && list[i] == path;
            if i < before.len() {
                assert(before[i] == path);
            }
            assert(sources[k - 1].path@ == path);
        }
    }
}

/// No file is tried twice.
pub proof fn law_each_file_is_tried_once(
    sources: Seq<ReuseSource>,
    destination: Option<Seq<char>>,
    allow_copy: bool,
    k: int,
    a: int,
    b: int,
)
    requires
        0 <= k <= sources.len(),
        0 <= a < b < tried(sources, destination, allow_copy, k).len(),
    ensures
        tried(sources, destination, allow_copy, k)[a] != tried(
            sources,
            destination,
            allow_copy,
            k,
        )[b],
    decreases k,
{
    if k > 0 {
        let before = tried(sources, destination, allow_copy, k - 1);
        if b < before.len() {
            law_each_file_is_tried_once(sources, destination, allow_copy, k - 1, a, b);
        } else {
            let path = before[a];
            assert(before.contains(path));
            lemma_tried_is_single(sources, destination, allow_copy, k - 1, path);
            let i = choose|i: int| 0 <= i < k - 1 && (#[trigger] sources[i]).path@ == path;
            assert(!seen_before(sources, k - 1));
            assert(sources[i].path@ != sources[k - 1].path@);
        }
    }
}

} // verus!
