//! The plan of a patch and the paths that it speaks of.

use crate::path;
use crate::path::{FilePath, PathModel};
use vstd::prelude::*;

verus! {

/// The manifest of a patch, at the root of its archive.
pub const PATCH_MANIFEST_NAME: &'static str = "patch.json";

/// The list of files that a patch removes.
pub const DELETE_FILES_MANIFEST_NAME: &'static str = "delete_files.txt";

/// The directory that holds the payloads of a patch.
pub const PATCH_STAGE_DIR: &'static str = "vfs_files";

/// The directory of whole files among the payloads.
pub const PATCH_FILES_STAGE_DIR: &'static str = "files";

/// The directory of differences among the payloads.
pub const PATCH_DIFF_STAGE_DIR: &'static str = "vfs_patch";

/// The private directory of a patch that is being applied.
pub const GRIFFR_PATCH_DIR: &'static str = ".griffr-patch";

/// The directory of files that are put in place last.
pub const PATCH_DEFERRED_DIR: &'static str = "deferred";

/// Where the contents of a patched file come from.
pub enum PlannedPatchSource {
    AlreadyPresent,
    Local { payload: FilePath },
    Hdiff { base: FilePath, payload: FilePath, base_md5: String, base_size: u64 },
}

/// A file that a patch brings up to date.
pub struct PlannedPatchEntry {
    pub name: String,
    pub destination: FilePath,
    pub expected_md5: String,
    pub expected_size: u64,
    pub source: PlannedPatchSource,
}

/// The plan of a patch.
pub struct PatchPlan {
    pub schema_version: u32,
    pub install_root: FilePath,
    pub stage_root: FilePath,
    pub vfs_base_path: FilePath,
    pub vfs_destination: FilePath,
    pub work_dir: Option<FilePath>,
    pub entries: Vec<PlannedPatchEntry>,
    pub delete_paths: Vec<FilePath>,
    pub deferred_paths: Vec<FilePath>,
}

impl PatchPlan {
    /// Where the virtual file system lies in the install.
    pub open spec fn vfs_root(&self) -> PathModel {
        self.install_root@.join(self.vfs_base_path@)
    }

    /// The path of an entry in the install.
    pub open spec fn output(&self, i: int) -> PathModel {
        self.vfs_base_path@.join(path::parsed(self.entries@[i].name@))
    }

    /// Whether a path of the install is brought up to date by an entry.
    pub open spec fn is_output(&self, path: PathModel) -> bool {
        exists|i: int| 0 <= i < self.entries@.len() && #[trigger] self.output(i) == path
    }

    /// The path on disk of a path of the install: below the destination of the
    /// virtual file system, where that lies elsewhere.
    pub open spec fn physical(&self, relative: PathModel) -> PathModel {
        if self.vfs_destination@ != self.vfs_root() && relative.starts_with(self.vfs_base_path@) {
            self.vfs_destination@.join(relative.below(self.vfs_base_path@))
        } else {
            self.install_root@.join(relative)
        }
    }

    /// The path in the install of a path on disk.
    pub open spec fn logical(&self, path: PathModel) -> Option<PathModel> {
        if path.starts_with(self.vfs_destination@) {
            Some(self.vfs_base_path@.join(path.below(self.vfs_destination@)))
        } else if path.starts_with(self.install_root@) {
            Some(path.below(self.install_root@))
        } else {
            None
        }
    }

    /// Whether the plan removes a path of the install.
    pub open spec fn deletes(&self, path: PathModel) -> bool {
        exists|i: int|
            0 <= i < self.delete_paths@.len() && (#[trigger] self.delete_paths@[i])@ == path
    }

    /// Whether a path of the install is put in place last.
    pub open spec fn defers(&self, path: PathModel) -> bool {
        exists|i: int|
            0 <= i < self.deferred_paths@.len() && (#[trigger] self.deferred_paths@[i])@ == path
    }

    /// Whether an entry is patched from the file at a path.
    pub open spec fn has_base(&self, path: PathModel) -> bool {
        exists|i: int| 0 <= i < self.entries@.len() && #[trigger] self.base(i) == Some(path)
    }

    /// The file that an entry is patched from.
    pub open spec fn base(&self, i: int) -> Option<PathModel> {
        match self.entries@[i].source {
            PlannedPatchSource::Hdiff { base, .. } => Some(base@),
            _ => None,
        }
    }

    /// Whether an entry is written to a path.
    pub open spec fn has_destination(&self, path: PathModel) -> bool {
        exists|i: int|
            0 <= i < self.entries@.len() && (#[trigger] self.entries@[i]).destination@ == path
    }

    /// Where the virtual file system lies in the install.
    pub fn logical_vfs_root(&self) -> (root: FilePath)
        ensures
            root@ == self.vfs_root(),
    {
        self.install_root.join(&self.vfs_base_path)
    }

    /// The path on disk of a path of the install.
    pub fn physical_delete_path(&self, relative: &FilePath) -> (path: FilePath)
        ensures
            path@ == self.physical(relative@),
    {
        if !self.vfs_destination.same(&self.logical_vfs_root()) {
            if let Some(rest) = relative.strip_prefix(&self.vfs_base_path) {
                return self.vfs_destination.join(&rest);
            }
        }
        self.install_root.join(relative)
    }

    /// The path in the install of a path on disk.
    pub fn relative_install_path(&self, path: &FilePath) -> (relative: Option<FilePath>)
        ensures
            match relative {
                Some(found) => self.logical(path@) == Some(found@),
                None => self.logical(path@) is None,
            },
    {
        if let Some(rest) = path.strip_prefix(&self.vfs_destination) {
            return Some(self.vfs_base_path.join(&rest));
        }
        path.strip_prefix(&self.install_root)
    }

    /// The paths of the install that the entries bring up to date.
    pub fn final_output_paths(&self) -> (outputs: Vec<FilePath>)
        ensures
            outputs@.len() == self.entries@.len(),
            forall|i: int| 0 <= i < outputs@.len() ==> (#[trigger] outputs@[i])@ == self.output(i),
    {
        let mut outputs: Vec<FilePath> = Vec::new();
        let mut k: usize = 0;
        while k < self.entries.len()
            invariant
                k == outputs@.len(),
                k <= self.entries@.len(),
                forall|i: int| 0 <= i < k ==> (#[trigger] outputs@[i])@ == self.output(i),
            decreases self.entries@.len() - k,
        {
            let name = FilePath::parse(self.entries[k].name.as_str());
            outputs.push(self.vfs_base_path.join(&name));
            k = k + 1;
        }
        outputs
    }

    /// Whether an entry brings a path of the install up to date.
    pub fn writes_output(&self, path: &FilePath) -> (yes: bool)
        ensures
            yes == self.is_output(path@),
    {
        let outputs = self.final_output_paths();
        let mut k: usize = 0;
        while k < outputs.len()
            invariant
                outputs@.len() == self.entries@.len(),
                forall|i: int|
                    0 <= i < outputs@.len() ==> (#[trigger] outputs@[i])@ == self.output(i),
                k <= outputs@.len(),
                forall|i: int| 0 <= i < k ==> #[trigger] self.output(i) != path@,
            decreases outputs@.len() - k,
        {
            if outputs[k].same(path) {
                assert(self.output(k as int) == path@);
                return true;
            }
            k = k + 1;
        }
        false
    }

    /// Whether an entry is patched from the file at a path.
    pub fn uses_base(&self, path: &FilePath) -> (yes: bool)
        ensures
            yes == self.has_base(path@),
    {
        let mut k: usize = 0;
        while k < self.entries.len()
            invariant
                k <= self.entries@.len(),
                forall|i: int| 0 <= i < k ==> #[trigger] self.base(i) != Some(path@),
            decreases self.entries@.len() - k,
        {
            if let PlannedPatchSource::Hdiff { base, .. } = &self.entries[k].source {
                if base.same(path) {
                    assert(self.base(k as int) == Some(path@));
                    return true;
                }
            }
            assert(self.base(k as int) != Some(path@));
            k = k + 1;
        }
        false
    }

    /// Whether an entry is written to a path.
    pub fn writes_destination(&self, path: &FilePath) -> (yes: bool)
        ensures
            yes == self.has_destination(path@),
    {
        let mut k: usize = 0;
        while k < self.entries.len()
            invariant
                k <= self.entries@.len(),
                forall|i: int|
                    0 <= i < k ==> (#[trigger] self.entries@[i]).destination@ != path@,
            decreases self.entries@.len() - k,
        {
            if self.entries[k].destination.same(path) {
                assert(self.entries@[k as int].destination@ == path@);
                return true;
            }
            k = k + 1;
        }
        false
    }
}

/// Whether a list of paths holds a path.
pub open spec fn holds(list: Seq<FilePath>, path: PathModel) -> bool {
    exists|i: int| 0 <= i < list.len() && (#[trigger] list[i])@ == path
}

/// Whether a list of paths holds a path.
pub fn list_holds(list: &Vec<FilePath>, path: &FilePath) -> (yes: bool)
    ensures
        yes == holds(list@, path@),
{
    let mut k: usize = 0;
    while k < list.len()
        invariant
            k <= list@.len(),
            forall|i: int| 0 <= i < k ==> (#[trigger] list@[i])@ != path@,
        decreases list@.len() - k,
    {
        if list[k].same(path) {
            assert(list@[k as int]@ == path@);
            return true;
        }
        k = k + 1;
    }
    false
}

/// A path of one component.
pub open spec fn single(name: Seq<char>) -> PathModel {
    PathModel { absolute: false, parts: seq![name] }
}

/// A path of one component.
pub fn single_path(name: &str) -> (path: FilePath)
    ensures
        path@ == single(name@),
{
    let path = FilePath::empty().child(name);
    assert(path@.parts =~= seq![name@]);
    path
}

/// Whether a path of an archive steers the patch and is not part of it.
pub open spec fn is_control(relative: PathModel) -> bool {
    ||| relative == single(PATCH_MANIFEST_NAME@)
    ||| relative == single(DELETE_FILES_MANIFEST_NAME@)
    ||| relative.starts_with(single(PATCH_STAGE_DIR@))
}

/// Whether a path of an archive steers the patch and is not part of it.
pub fn is_patch_control_path(relative: &FilePath) -> (yes: bool)
    ensures
        yes == is_control(relative@),
{
    relative.same(&single_path(PATCH_MANIFEST_NAME)) || relative.same(
        &single_path(DELETE_FILES_MANIFEST_NAME),
    ) || relative.starts_with(&single_path(PATCH_STAGE_DIR))
}

/// The private directory of a patch that is being applied to an install.
pub open spec fn patch_dir(install_root: PathModel) -> PathModel {
    install_root.child(GRIFFR_PATCH_DIR@)
}

/// Where a file waits that is put in place last.
pub open spec fn deferred_path(install_root: PathModel, relative: PathModel) -> PathModel {
    patch_dir(install_root).child(PATCH_DEFERRED_DIR@).join(relative)
}

/// The private directory of a patch that is being applied to an install.
pub fn griffr_patch_path(install_root: &FilePath) -> (path: FilePath)
    ensures
        path@ == patch_dir(install_root@),
{
    install_root.child(GRIFFR_PATCH_DIR)
}

/// Where a file waits that is put in place last.
pub fn deferred_file_path(install_root: &FilePath, relative: &FilePath) -> (path: FilePath)
    ensures
        path@ == deferred_path(install_root@, relative@),
{
    griffr_patch_path(install_root).child(PATCH_DEFERRED_DIR).join(relative)
}

/// Where a staged file is moved when the patch starts.
pub open spec fn commit_target(plan: PatchPlan, relative: PathModel) -> PathModel {
    if plan.defers(relative) {
        deferred_path(plan.install_root@, relative)
    } else {
        plan.install_root@.join(relative)
    }
}

/// Where a staged file is moved when the patch starts: to its place, or to
/// where it waits if it is put in place last.
pub fn commit_target_path(plan: &PatchPlan, relative: &FilePath) -> (path: FilePath)
    ensures
        path@ == commit_target(*plan, relative@),
{
    if list_holds(&plan.deferred_paths, relative) {
        deferred_file_path(&plan.install_root, relative)
    } else {
        plan.install_root.join(relative)
    }
}

/// The paths that an entry goes by: the path that it is written to, and its
/// path in the install.
pub open spec fn alias(plan: PatchPlan, i: int, path: PathModel) -> bool {
    path == plan.entries@[i].destination@ || path == logical_destination(plan, i)
}

/// The path of an entry in the install, from its root.
pub open spec fn logical_destination(plan: PatchPlan, i: int) -> PathModel {
    plan.install_root@.join(plan.vfs_base_path@).join(path::parsed(plan.entries@[i].name@))
}

/// A path of the virtual file system is found again from where it lies on
/// disk.
pub proof fn law_logical_path_of_a_physical_one(plan: PatchPlan, relative: PathModel)
    requires
        !relative.absolute,
        !plan.vfs_base_path@.absolute,
        relative.starts_with(plan.vfs_base_path@),
        plan.vfs_destination@ != plan.vfs_root(),
    ensures
        plan.logical(plan.physical(relative)) == Some(relative),
{
    let rest = relative.below(plan.vfs_base_path@);
    path::law_strip_undoes_join(plan.vfs_destination@, rest);
    assert(plan.vfs_base_path@.join(rest).parts =~= relative.parts);
}

} // verus!
