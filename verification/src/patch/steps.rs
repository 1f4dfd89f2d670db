//! What the steps of a patch do to the disk, decided from plain facts.

use crate::error::Message;
use crate::patch::plan;
use crate::patch::plan::{PatchPlan, PlannedPatchSource};
use crate::path::{FilePath, PathModel};
use crate::scheduler::counts;
use crate::text;
use vstd::prelude::*;

verus! {

/// An error about the virtual file system.
pub fn vfs_error(detail: String) -> (message: Message)
    ensures
        message.context@ == "VFS error: "@,
        message.detail@ == detail@,
{
    Message::new("VFS error: ", detail)
}

/// The paths of a list.
pub open spec fn models(list: Seq<FilePath>) -> Seq<PathModel> {
    Seq::new(list.len(), |i: int| list[i]@)
}

/// The paths on disk that the first `k` delete entries free before anything is
/// patched: those that no entry is patched from or written to.
pub open spec fn early_deletes(plan: PatchPlan, k: int) -> Seq<PathModel>
    decreases k,
{
    if k <= 0 {
        Seq::empty()
    } else {
        let path = plan.physical(plan.delete_paths@[k - 1]@);
        if plan.has_base(path) || plan.has_destination(path) {
            early_deletes(plan, k - 1)
        } else {
            early_deletes(plan, k - 1).push(path)
        }
    }
}

/// The paths to remove before anything is patched.
pub fn delete_unreferenced_paths_before_patch(plan: &PatchPlan) -> (paths: Vec<FilePath>)
    ensures
        models(paths@) == early_deletes(*plan, plan.delete_paths@.len() as int),
{
    let mut paths: Vec<FilePath> = Vec::new();
    let mut k: usize = 0;
    assert(models(paths@) =~= early_deletes(*plan, 0));
    while k < plan.delete_paths.len()
        invariant
            k <= plan.delete_paths@.len(),
            models(paths@) == early_deletes(*plan, k as int),
        decreases plan.delete_paths@.len() - k,
    {
        let path = plan.physical_delete_path(&plan.delete_paths[k]);
        let ghost before = paths@;
        if !plan.uses_base(&path) && !plan.writes_destination(&path) {
            paths.push(path);
            assert(models(paths@) =~= models(before).push(path@));
        }
        k = k + 1;
    }
    paths
}

/// How many entries still need each file that something is patched from.
pub struct BaseUses {
    entries: Vec<(FilePath, usize)>,
}

impl BaseUses {
    spec fn at(entries: Seq<(FilePath, usize)>, base: PathModel, k: int) -> bool {
        0 <= k < entries.len() && entries[k].0@ == base
    }

    /// How many entries still need a file; nothing where none ever did.
    pub closed spec fn uses(&self, base: PathModel) -> Option<int> {
        if exists|k: int| Self::at(self.entries@, base, k) {
            Some(self.entries@[choose|k: int| Self::at(self.entries@, base, k)].1 as int)
        } else {
            None
        }
    }

    pub closed spec fn inv(&self) -> bool {
        forall|i: int, j: int|
            0 <= i < j < self.entries@.len() ==> (#[trigger] self.entries@[i]).0@ != (
            #[trigger] self.entries@[j]).0@
    }

    proof fn lemma_uses(&self, base: PathModel, k: int)
        requires
            self.inv(),
            Self::at(self.entries@, base, k),
        ensures
            self.uses(base) == Some(self.entries@[k].1 as int),
    {
        let l = choose|l: int| Self::at(self.entries@, base, l);
        assert(Self::at(self.entries@, base, l));
        if l < k {
            assert(self.entries@[l].0@ != self.entries@[k].0@);
        } else if k < l {
            assert(self.entries@[k].0@ != self.entries@[l].0@);
        }
    }

    pub fn new() -> (uses: BaseUses)
        ensures
            uses.inv(),
            forall|base: PathModel| #[trigger] uses.uses(base) is None,
    {
        BaseUses { entries: Vec::new() }
    }

    fn find(&self, base: &FilePath) -> (found: Option<usize>)
        ensures
            match found {
                Some(k) => Self::at(self.entries@, base@, k as int),
                None => forall|j: int|
                    0 <= j < self.entries@.len() ==> (#[trigger] self.entries@[j]).0@ != base@,
            },
    {
        let mut k: usize = 0;
        while k < self.entries.len()
            invariant
                k <= self.entries@.len(),
                forall|j: int| 0 <= j < k ==> (#[trigger] self.entries@[j]).0@ != base@,
            decreases self.entries@.len() - k,
        {
            if self.entries[k].0.same(base) {
                return Some(k);
            }
            k = k + 1;
        }
        None
    }

    /// Changing the count of one file leaves the others alone.
    proof fn lemma_others(&self, before: &BaseUses, k: int)
        requires
            before.inv(),
            self.entries@.len() == before.entries@.len(),
            0 <= k < self.entries@.len(),
            self.entries@[k].0@ == before.entries@[k].0@,
            forall|j: int|
                0 <= j < self.entries@.len() && j != k ==> #[trigger] self.entries@[j]
                    == before.entries@[j],
        ensures
            self.inv(),
            forall|other: PathModel|
                other != self.entries@[k].0@ ==> #[trigger] self.uses(other) == before.uses(other),
    {
        assert forall|j: int| 0 <= j < self.entries@.len() implies (
        #[trigger] self.entries@[j]).0@ == before.entries@[j].0@ by {}
        assert forall|i: int, j: int| 0 <= i < j < self.entries@.len() implies (
        #[trigger] self.entries@[i]).0@ != (#[trigger] self.entries@[j]).0@ by {
            assert(before.entries@[i].0@ != before.entries@[j].0@);
        }
        assert forall|other: PathModel|
            other != self.entries@[k].0@ implies #[trigger] self.uses(other) == before.uses(
            other,
        ) by {
            if exists|l: int| Self::at(before.entries@, other, l) {
                let l = choose|l: int| Self::at(before.entries@, other, l);
                assert(Self::at(self.entries@, other, l));
                self.lemma_uses(other, l);
                before.lemma_uses(other, l);
            } else {
                assert forall|j: int| !Self::at(self.entries@, other, j) by {
                    if Self::at(self.entries@, other, j) {
                        assert(Self::at(before.entries@, other, j));
                    }
                }
            }
        }
    }

    /// One more entry needs a file.
    pub fn add_use(&mut self, base: &FilePath)
        requires
            old(self).inv(),
        ensures
            final(self).inv(),
            final(self).uses(base@) == Some(
                counts::capped(
                    1 + (match old(self).uses(base@) {
                        Some(n) => n,
                        None => 0,
                    }),
                ),
            ),
            forall|other: PathModel|
                other != base@ ==> #[trigger] final(self).uses(other) == old(self).uses(other),
    {
        let ghost before = *self;
        match self.find(base) {
            Some(k) => {
                proof {
                    self.lemma_uses(base@, k as int);
                }
                if self.entries[k].1 < usize::MAX {
                    self.entries[k].1 = self.entries[k].1 + 1;
                }
                proof {
                    self.lemma_others(&before, k as int);
                    self.lemma_uses(base@, k as int);
                }
            },
            None => {
                self.entries.push((base.copied(), 1));
                proof {
                    let last = before.entries@.len() as int;
                    assert forall|i: int, j: int| 0 <= i < j < self.entries@.len() implies (
                    #[trigger] self.entries@[i]).0@ != (#[trigger] self.entries@[j]).0@ by {
                        assert(self.entries@[i] == before.entries@[i]);
                        if j < last {
                            assert(self.entries@[j] == before.entries@[j]);
                        }
                    }
                    assert(Self::at(self.entries@, base@, last));
                    self.lemma_uses(base@, last);
                    assert(forall|j: int| !Self::at(before.entries@, base@, j));
                    assert forall|other: PathModel| other != base@ implies #[trigger] self.uses(
                        other,
                    ) == before.uses(other) by {
                        if exists|l: int| Self::at(before.entries@, other, l) {
                            let l = choose|l: int| Self::at(before.entries@, other, l);
                            assert(self.entries@[l] == before.entries@[l]);
                            assert(Self::at(self.entries@, other, l));
                            self.lemma_uses(other, l);
                            before.lemma_uses(other, l);
                        } else {
                            assert forall|j: int| !Self::at(self.entries@, other, j) by {
                                if Self::at(self.entries@, other, j) {
                                    if j < last {
                                        assert(Self::at(before.entries@, other, j));
                                    }
                                }
                            }
                        }
                    }
                }
            },
        }
    }

    /// One entry less needs a file. Says whether the file was needed at all
    /// and is needed no longer.
    pub fn drop_use(&mut self, base: &FilePath) -> (free: bool)
        requires
            old(self).inv(),
        ensures
            final(self).inv(),
            match old(self).uses(base@) {
                Some(n) => final(self).uses(base@) == Some(counts::monus(n, 1)) && free
                    == (counts::monus(n, 1) == 0),
                None => final(self).uses(base@) is None && !free,
            },
            forall|other: PathModel|
                other != base@ ==> #[trigger] final(self).uses(other) == old(self).uses(other),
    {
        let ghost before = *self;
        match self.find(base) {
            None => {
                assert(forall|j: int| !Self::at(self.entries@, base@, j));
                false
            },
            Some(k) => {
                proof {
                    self.lemma_uses(base@, k as int);
                }
                let left = self.entries[k].1.saturating_sub(1);
                self.entries[k].1 = left;
                proof {
                    self.lemma_others(&before, k as int);
                    self.lemma_uses(base@, k as int);
                }
                left == 0
            },
        }
    }
}

/// How many of the first `k` entries are patched from a file.
pub open spec fn base_uses(plan: PatchPlan, k: int, base: PathModel) -> int
    decreases k,
{
    if k <= 0 {
        0
    } else {
        base_uses(plan, k - 1, base) + (if plan.base(k - 1) == Some(base) {
            1int
        } else {
            0int
        })
    }
}

/// How many entries of a plan need each file.
pub fn count_base_uses(plan: &PatchPlan) -> (uses: BaseUses)
    ensures
        uses.inv(),
        forall|base: PathModel|
            ({
                let n = base_uses(*plan, plan.entries@.len() as int, base);
                #[trigger] uses.uses(base) == if n > 0 {
                    Some(n)
                } else {
                    None
                }
            }),
{
    let mut uses = BaseUses::new();
    let mut k: usize = 0;
    while k < plan.entries.len()
        invariant
            k <= plan.entries@.len(),
            uses.inv(),
            forall|base: PathModel|
                ({
                    let n = base_uses(*plan, k as int, base);
                    0 <= n <= k && #[trigger] uses.uses(base) == if n > 0 {
                        Some(n)
                    } else {
                        None
                    }
                }),
        decreases plan.entries@.len() - k,
    {
        let ghost before = uses;
        if let PlannedPatchSource::Hdiff { base, .. } = &plan.entries[k].source {
            uses.add_use(base);
        }
        proof {
            assert forall|other: PathModel|
                ({
                    let n = base_uses(*plan, k + 1, other);
                    0 <= n <= k + 1 && #[trigger] uses.uses(other) == if n > 0 {
                        Some(n)
                    } else {
                        None
                    }
                }) by {
                assert(before.uses(other) == if base_uses(*plan, k as int, other) > 0 {
                    Some(base_uses(*plan, k as int, other))
                } else {
                    None
                });
            }
        }
        k = k + 1;
    }
    uses
}

/// Whether a file on disk may go once nothing is patched from it any longer:
/// the plan deletes it and no entry brings it up to date.
pub open spec fn freed(plan: PatchPlan, base: PathModel) -> bool {
    match plan.logical(base) {
        Some(relative) => plan.deletes(relative) && !plan.is_output(relative),
        None => false,
    }
}

/// Whether a file that is needed no longer is to be removed.
pub fn release_patch_base(plan: &PatchPlan, base: &FilePath) -> (remove: bool)
    ensures
        remove == freed(*plan, base@),
{
    match plan.relative_install_path(base) {
        Some(relative) => plan::list_holds(&plan.delete_paths, &relative) && !plan.writes_output(
            &relative,
        ),
        None => false,
    }
}

/// Counts one use of a file less, and says whether the file is to be removed
/// now.
pub fn release_base_if_unused(plan: &PatchPlan, base: &FilePath, remaining: &mut BaseUses) -> (
    remove: bool)
    requires
        old(remaining).inv(),
    ensures
        final(remaining).inv(),
        match old(remaining).uses(base@) {
            Some(n) => final(remaining).uses(base@) == Some(counts::monus(n, 1)),
            None => final(remaining).uses(base@) is None,
        },
        forall|other: PathModel|
            other != base@ ==> #[trigger] final(remaining).uses(other) == old(remaining).uses(
                other,
            ),
        remove == (old(remaining).uses(base@) is Some && counts::monus(
            old(remaining).uses(base@)->0,
            1,
        ) == 0 && freed(*plan, base@)),
{
    if !remaining.drop_use(base) {
        return false;
    }
    release_patch_base(plan, base)
}

/// A step of the deletes that end a patch: the path to report, and the path on
/// disk to remove unless an entry brought it up to date.
pub struct DeleteStep {
    pub relative: FilePath,
    pub remove: Option<FilePath>,
}

/// Whether a list holds the deletes that end a patch, in order.
pub open spec fn are_remaining_deletes(plan: PatchPlan, steps: Seq<DeleteStep>) -> bool {
    &&& steps.len() == plan.delete_paths@.len()
    &&& forall|i: int|
        0 <= i < steps.len() ==> is_remaining_delete(plan, i, #[trigger] steps[i])
}

/// Whether a step is the delete of the `i`th entry.
pub open spec fn is_remaining_delete(plan: PatchPlan, i: int, step: DeleteStep) -> bool {
    let relative = plan.delete_paths@[i]@;
    &&& step.relative@ == relative
    &&& match step.remove {
        Some(path) => !plan.is_output(relative) && path@ == plan.physical(relative),
        None => plan.is_output(relative),
    }
}

/// The deletes that end a patch.
pub fn remaining_deletes(plan: &PatchPlan) -> (steps: Vec<DeleteStep>)
    ensures
        are_remaining_deletes(*plan, steps@),
{
    let mut steps: Vec<DeleteStep> = Vec::new();
    let mut k: usize = 0;
    while k < plan.delete_paths.len()
        invariant
            k <= plan.delete_paths@.len(),
            k == steps@.len(),
            forall|i: int|
                0 <= i < steps@.len() ==> is_remaining_delete(*plan, i, #[trigger] steps@[i]),
        decreases plan.delete_paths@.len() - k,
    {
        let relative = &plan.delete_paths[k];
        let remove = if plan.writes_output(relative) {
            None
        } else {
            Some(plan.physical_delete_path(relative))
        };
        steps.push(DeleteStep { relative: relative.copied(), remove });
        k = k + 1;
    }
    steps
}

/// A file to move, and where to.
pub struct FileMove {
    pub source: FilePath,
    pub target: FilePath,
}

/// The first of the deferred files from the `k`th on that is nowhere: neither
/// waiting nor in place.
pub open spec fn first_missing(present: Seq<bool>, installed: Seq<bool>, k: int) -> Option<int>
    decreases present.len() - k,
{
    if k < 0 || k >= present.len() {
        None
    } else if !present[k] && !installed[k] {
        Some(k)
    } else {
        first_missing(present, installed, k + 1)
    }
}

/// The move of a deferred file, in the mathematical model: from where it waits
/// to its place.
pub open spec fn deferred_move(plan: PatchPlan, i: int) -> (PathModel, PathModel) {
    (
        plan::deferred_path(plan.install_root@, plan.deferred_paths@[i]@),
        plan.install_root@.join(plan.deferred_paths@[i]@),
    )
}

/// The moves of those of the first `k` deferred files that wait.
pub open spec fn deferred_moves(plan: PatchPlan, present: Seq<bool>, k: int) -> Seq<
    (PathModel, PathModel),
>
    decreases k,
{
    if k <= 0 {
        Seq::empty()
    } else {
        let before = deferred_moves(plan, present, k - 1);
        if present[k - 1] {
            before.push(deferred_move(plan, k - 1))
        } else {
            before
        }
    }
}

/// The moves of a list, in the mathematical model.
pub open spec fn move_views(moves: Seq<FileMove>) -> Seq<(PathModel, PathModel)> {
    Seq::new(moves.len(), |i: int| (moves[i].source@, moves[i].target@))
}

/// The moves that put the deferred files in place, given which of them wait and
/// which are in place. What an earlier run has moved already stays where it is.
/// Where a file is nowhere nothing is moved.
pub fn commit_deferred_files(plan: &PatchPlan, present: &Vec<bool>, installed: &Vec<bool>) -> (result:
    Result<Vec<FileMove>, Message>)
    requires
        present@.len() == plan.deferred_paths@.len(),
        installed@.len() == plan.deferred_paths@.len(),
    ensures
        match result {
            Ok(moves) => first_missing(present@, installed@, 0) is None && move_views(moves@)
                == deferred_moves(*plan, present@, plan.deferred_paths@.len() as int),
            Err(message) => first_missing(present@, installed@, 0) is Some && message.context@
                == "VFS error: "@ && message.detail@ == "Missing deferred patch file "@
                + deferred_move(*plan, first_missing(present@, installed@, 0)->0).0.text(),
        },
{
    let mut moves: Vec<FileMove> = Vec::new();
    assert(move_views(moves@) =~= deferred_moves(*plan, present@, 0));
    let mut k: usize = 0;
    while k < plan.deferred_paths.len()
        invariant
            present@.len() == plan.deferred_paths@.len(),
            installed@.len() == plan.deferred_paths@.len(),
            k <= plan.deferred_paths@.len(),
            first_missing(present@, installed@, 0) == first_missing(
                present@,
                installed@,
                k as int,
            ),
            move_views(moves@) == deferred_moves(*plan, present@, k as int),
        decreases plan.deferred_paths@.len() - k,
    {
        let relative = &plan.deferred_paths[k];
        let source = plan::deferred_file_path(&plan.install_root, relative);
        if present[k] {
            let ghost before = moves@;
            moves.push(FileMove { source, target: plan.install_root.join(relative) });
            assert(move_views(moves@) =~= move_views(before).push(
                deferred_move(*plan, k as int),
            ));
        } else if !installed[k] {
            let mut detail = "Missing deferred patch file ".to_owned();
            text::push_text(&mut detail, source.text().as_str());
            return Err(vfs_error(detail));
        }
        k = k + 1;
    }
    Ok(moves)
}

/// A staged file that is moved when a patch starts.
pub struct TopLevelCommit {
    pub source: FilePath,
    pub target: FilePath,
    pub relative: FilePath,
    pub bytes: u64,
}

/// A staged file that is moved when a patch starts, in the mathematical model.
#[verifier::ext_equal]
pub struct CommitModel {
    pub source: PathModel,
    pub target: PathModel,
    pub relative: PathModel,
    pub bytes: u64,
}

impl View for TopLevelCommit {
    type V = CommitModel;

    open spec fn view(&self) -> CommitModel {
        CommitModel {
            source: self.source@,
            target: self.target@,
            relative: self.relative@,
            bytes: self.bytes,
        }
    }
}

/// The moves of a list.
pub open spec fn commit_models(list: Seq<TopLevelCommit>) -> Seq<CommitModel> {
    Seq::new(list.len(), |i: int| list[i]@)
}

/// The moves that start a patch, for the first `k` of the staged files: files
/// that steer the patch stay where they are.
pub open spec fn top_level(plan: PatchPlan, files: Seq<(FilePath, u64)>, k: int) -> Seq<CommitModel>
    decreases k,
{
    if k <= 0 {
        Seq::empty()
    } else {
        let path = files[k - 1].0@;
        let relative = path.below(plan.stage_root@);
        let rest = top_level(plan, files, k - 1);
        if path.starts_with(plan.stage_root@) && !plan::is_control(relative) {
            rest.push(
                CommitModel {
                    source: path,
                    target: plan::commit_target(plan, relative),
                    relative,
                    bytes: files[k - 1].1,
                },
            )
        } else {
            rest
        }
    }
}

/// The moves that start a patch, given the staged files and their sizes.
pub fn patch_prepare_commit_files(plan: &PatchPlan, files: &Vec<(FilePath, u64)>) -> (moves: Vec<
    TopLevelCommit,
>)
    ensures
        commit_models(moves@) == top_level(*plan, files@, files@.len() as int),
{
    let mut moves: Vec<TopLevelCommit> = Vec::new();
    let mut k: usize = 0;
    assert(commit_models(moves@) =~= top_level(*plan, files@, 0));
    while k < files.len()
        invariant
            k <= files@.len(),
            commit_models(moves@) == top_level(*plan, files@, k as int),
        decreases files@.len() - k,
    {
        let source = &files[k].0;
        if let Some(relative) = source.strip_prefix(&plan.stage_root) {
            if !plan::is_patch_control_path(&relative) {
                let ghost before = moves@;
                let target = plan::commit_target_path(plan, &relative);
                let ghost model = CommitModel {
                    source: source@,
                    target: target@,
                    relative: relative@,
                    bytes: files@[k as int].1,
                };
                moves.push(
                    TopLevelCommit { source: source.copied(), target, relative, bytes: files[k].1 },
                );
                assert(commit_models(moves@) =~= commit_models(before).push(model));
            }
        }
        k = k + 1;
    }
    moves
}

/// What a patch does about its virtual file system root.
pub enum VfsRootAction {
    /// It lies in the install.
    Nothing,
    /// It is linked to where the patch wants it.
    KeepLink,
    /// It is linked to somewhere else.
    Refuse { message: Message },
    /// Its contents move to where the patch wants them, and a link takes its
    /// place.
    Relocate,
}

/// Where a link leads, read from the directory that holds it.
pub open spec fn link_target(at: PathModel, link: PathModel) -> PathModel {
    if link.absolute {
        link
    } else {
        match at.parent() {
            Some(parent) => parent.join(link),
            None => plan::single("."@).join(link),
        }
    }
}

/// What a patch does about its virtual file system root, given the link that
/// it finds there.
pub fn prepare_external_vfs_root(plan: &PatchPlan, link: Option<FilePath>) -> (action: VfsRootAction)
    ensures
        match action {
            VfsRootAction::Nothing => plan.vfs_destination@ == plan.vfs_root(),
            VfsRootAction::KeepLink => plan.vfs_destination@ != plan.vfs_root() && link is Some
                && link_target(plan.vfs_root(), link->0@) == plan.vfs_destination@,
            VfsRootAction::Refuse { message } => plan.vfs_destination@ != plan.vfs_root()
                && link is Some && link_target(plan.vfs_root(), link->0@)
                != plan.vfs_destination@ && message.context@ == "VFS error: "@ && message.detail@
                == "VFS path "@ + plan.vfs_root().text() + " already links to "@ + link->0@.text()
                + ", not requested external root "@ + plan.vfs_destination@.text(),
            VfsRootAction::Relocate => plan.vfs_destination@ != plan.vfs_root() && link is None,
        },
{
    let logical = plan.logical_vfs_root();
    if logical.same(&plan.vfs_destination) {
        return VfsRootAction::Nothing;
    }
    match link {
        None => VfsRootAction::Relocate,
        Some(found) => {
            let target = if found.absolute {
                found.copied()
            } else {
                match logical.parent() {
                    Some(parent) => parent.join(&found),
                    None => plan::single_path(".").join(&found),
                }
            };
            if target.same(&plan.vfs_destination) {
                return VfsRootAction::KeepLink;
            }
            let mut detail = "VFS path ".to_owned();
            text::push_text(&mut detail, logical.text().as_str());
            text::push_text(&mut detail, " already links to ");
            text::push_text(&mut detail, found.text().as_str());
            text::push_text(&mut detail, ", not requested external root ");
            text::push_text(&mut detail, plan.vfs_destination.text().as_str());
            VfsRootAction::Refuse { message: vfs_error(detail) }
        },
    }
}

/// What is known of the file that a relocated file would land on.
pub struct Occupant {
    pub is_file: bool,
    pub same_length: bool,
    pub same_digest: bool,
}

/// What a relocation does with one file.
pub enum RelocationStep {
    MoveFile,
    DropSource,
    Conflict { message: Message },
}

/// Whether a relocation does with one file what it should.
pub open spec fn relocates(
    occupant: Option<Occupant>,
    target: PathModel,
    step: RelocationStep,
) -> bool {
    match step {
        RelocationStep::MoveFile => occupant is None,
        RelocationStep::DropSource => occupant is Some && occupant->0.is_file
            && occupant->0.same_length && occupant->0.same_digest,
        RelocationStep::Conflict { message } => occupant is Some && !(occupant->0.is_file
            && occupant->0.same_length && occupant->0.same_digest) && message.context@
            == "VFS error: "@ && message.detail@ == "External VFS relocation conflict at "@
            + target.text(),
    }
}

/// What a relocation does with one file: it moves, unless its target is taken.
/// A target with the same contents makes it superfluous, any other one is a
/// conflict.
pub fn relocation_step(occupant: Option<Occupant>, target: &FilePath) -> (step: RelocationStep)
    ensures
        relocates(occupant, target@, step),
{
    match occupant {
        None => RelocationStep::MoveFile,
        Some(found) => {
            if found.is_file && found.same_length && found.same_digest {
                return RelocationStep::DropSource;
            }
            let mut detail = "External VFS relocation conflict at ".to_owned();
            text::push_text(&mut detail, target.text().as_str());
            RelocationStep::Conflict { message: vfs_error(detail) }
        },
    }
}

/// The first path that a plan both deletes and brings up to date.
pub open spec fn contradiction(plan: PatchPlan, k: int) -> Option<PathModel>
    decreases plan.delete_paths@.len() - k,
{
    if k < 0 || k >= plan.delete_paths@.len() {
        None
    } else if plan.is_output(plan.delete_paths@[k]@) {
        Some(plan.delete_paths@[k]@)
    } else {
        contradiction(plan, k + 1)
    }
}

impl PatchPlan {
    /// Refuses a plan that deletes what it brings up to date.
    pub fn validate(&self) -> (result: Result<(), Message>)
        ensures
            match result {
                Ok(()) => contradiction(*self, 0) is None,
                Err(message) => contradiction(*self, 0) is Some && message.context@
                    == "VFS error: "@ && message.detail@
                    == "Patch plan deletes its own output "@ + contradiction(*self, 0)->0.text(),
            },
    {
        let mut k: usize = 0;
        while k < self.delete_paths.len()
            invariant
                k <= self.delete_paths@.len(),
                contradiction(*self, 0) == contradiction(*self, k as int),
            decreases self.delete_paths@.len() - k,
        {
            if self.writes_output(&self.delete_paths[k]) {
                let mut detail = "Patch plan deletes its own output ".to_owned();
                text::push_text(&mut detail, self.delete_paths[k].text().as_str());
                return Err(vfs_error(detail));
            }
            k = k + 1;
        }
        Ok(())
    }
}

/// No step of a patch removes a file that an entry brings up to date.
pub proof fn law_outputs_are_never_deleted(plan: PatchPlan, steps: Seq<DeleteStep>, i: int)
    requires
        are_remaining_deletes(plan, steps),
        0 <= i < steps.len(),
        steps[i].remove is Some,
    ensures
        !plan.is_output(steps[i].relative@),
{
    assert(is_remaining_delete(plan, i, steps[i]));
}

/// No early delete removes a file that an entry is patched from or written to.
pub proof fn law_early_deletes_spare_bases(plan: PatchPlan, k: int, i: int)
    requires
        0 <= k <= plan.delete_paths@.len(),
        0 <= i < early_deletes(plan, k).len(),
    ensures
        !plan.has_base(early_deletes(plan, k)[i]),
        !plan.has_destination(early_deletes(plan, k)[i]),
    decreases k,
{
    if k > 0 && i < early_deletes(plan, k - 1).len() {
        law_early_deletes_spare_bases(plan, k - 1, i);
    }
}

/// A relocation never overwrites a file, and gives up a file only where its target holds
/// the same: it moves a file if and only if nothing is in its place.
pub proof fn law_relocation_overwrites_nothing(
    occupant: Option<Occupant>,
    target: PathModel,
    step: RelocationStep,
)
    requires
        relocates(occupant, target, step),
    ensures
        step is MoveFile <==> occupant is None,
        step is DropSource <==> (occupant matches Some(found) && found.is_file && found.same_length
            && found.same_digest),
{
}

} // verus!
