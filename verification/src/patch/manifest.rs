//! Patch manifests and delete lists as they lie in an extracted archive.

use crate::error::Message;
use crate::patch::plan;
use crate::patch::plan::{
    DELETE_FILES_MANIFEST_NAME, PATCH_DIFF_STAGE_DIR, PATCH_FILES_STAGE_DIR, PATCH_STAGE_DIR,
};
use crate::patch::steps;
use crate::path;
use crate::path::{FilePath, PathModel};
use crate::path_safety;
use crate::text;
use crate::verify::IssueKind;
use vstd::prelude::*;

verus! {

/// A way to patch a file: from a base, with a difference.
pub struct PatchCandidate {
    pub base_file: String,
    pub base_file_path: Option<String>,
    pub base_md5: String,
    pub base_size: u64,
    pub patch: String,
    pub patch_path: Option<String>,
}

/// A file of a patch manifest.
pub struct ManifestEntry {
    pub name: String,
    pub md5: String,
    pub size: u64,
    pub local_path: Option<String>,
    pub patch: Vec<PatchCandidate>,
}

/// The alternate path of a manifest where one is given, else the primary one.
pub open spec fn chosen_path(alternate: Option<Seq<char>>, primary: Seq<char>) -> Seq<char> {
    match alternate {
        Some(other) => if text::trimmed(other).len() > 0 {
            text::trimmed(other)
        } else {
            primary
        },
        None => primary,
    }
}

/// The alternate path of a manifest where one is given, else the primary one.
pub fn manifest_path(alternate: &Option<String>, primary: &str) -> (path: String)
    ensures
        path@ == chosen_path(text::optional(*alternate), primary@),
{
    if let Some(other) = alternate {
        let trimmed = text::trim(other.as_str());
        if text::chars_of(trimmed.as_str()).len() > 0 {
            return trimmed;
        }
    }
    primary.to_owned()
}

/// Where a payload of a manifest lies: below the install where its path names
/// the stage, else below the stage, in the directory of its kind.
pub open spec fn stage_path(
    install_root: PathModel,
    stage_root: PathModel,
    subdir: Seq<char>,
    relative: PathModel,
) -> PathModel {
    if relative.starts_with(plan::single(PATCH_STAGE_DIR@)) {
        install_root.join(relative)
    } else if relative.starts_with(plan::single(subdir)) {
        stage_root.join(relative)
    } else {
        stage_root.child(subdir).join(relative)
    }
}

/// Where a payload of a manifest lies.
pub fn resolve_patch_stage_path(
    install_root: &FilePath,
    stage_root: &FilePath,
    stage_subdir: &str,
    label: &str,
    raw: &str,
) -> (result: Result<FilePath, Message>)
    ensures
        match (result, path_safety::safe_relative_path(raw@)) {
            (Ok(path), Ok(relative)) => path@ == stage_path(
                install_root@,
                stage_root@,
                stage_subdir@,
                relative,
            ),
            (Err(message), Err(detail)) => message.context@ == "Invalid path: "@ && message.detail@
                == label@ + " "@ + detail,
            _ => false,
        },
{
    let relative = match path_safety::parse_safe_relative_path(label, raw) {
        Ok(relative) => relative,
        Err(message) => {
            return Err(message);
        },
    };
    if relative.starts_with(&plan::single_path(PATCH_STAGE_DIR)) {
        return Ok(install_root.join(&relative));
    }
    if relative.starts_with(&plan::single_path(stage_subdir)) {
        return Ok(stage_root.join(&relative));
    }
    Ok(stage_root.child(stage_subdir).join(&relative))
}

/// The payload that an entry brings whole, if it brings one.
pub open spec fn local_payload(entry: ManifestEntry) -> Option<Seq<char>> {
    match entry.local_path {
        Some(raw) => if text::trimmed(raw@).len() > 0 {
            Some(text::trimmed(raw@))
        } else {
            None
        },
        None => None,
    }
}

/// The payload that an entry brings whole, if it brings one.
pub fn local_payload_of(entry: &ManifestEntry) -> (found: Option<String>)
    ensures
        text::optional(found) == local_payload(*entry),
{
    if let Some(raw) = &entry.local_path {
        let trimmed = text::trim(raw.as_str());
        if text::chars_of(trimmed.as_str()).len() > 0 {
            return Some(trimmed);
        }
    }
    None
}

/// A whole payload and the file that it replaces.
pub struct LocalEntry {
    pub source: FilePath,
    pub target: FilePath,
    pub logical_path: String,
}

/// Where the whole payload of an entry lies and what it replaces.
pub fn local_entry(
    install_root: &FilePath,
    stage_root: &FilePath,
    dest_root: &FilePath,
    entry: &ManifestEntry,
    local_path: &str,
) -> (result: Result<LocalEntry, Message>)
    ensures
        match result {
            Ok(found) => ({
                &&& path_safety::safe_relative_path(local_path@) is Ok
                &&& path_safety::safe_relative_path(entry.name@) is Ok
                &&& found.source@ == stage_path(
                    install_root@,
                    stage_root@,
                    PATCH_FILES_STAGE_DIR@,
                    path_safety::safe_relative_path(local_path@)->Ok_0,
                )
                &&& found.target@ == dest_root@.join(
                    path_safety::safe_relative_path(entry.name@)->Ok_0,
                )
                &&& found.logical_path@ == path_safety::safe_relative_path(
                    entry.name@,
                )->Ok_0.text()
            }),
            Err(message) => message.context@ == "Invalid path: "@ && (
            if path_safety::safe_relative_path(local_path@) is Err {
                message.detail@ == "patch.json local_path"@ + " "@
                    + path_safety::safe_relative_path(local_path@)->Err_0
            } else {
                path_safety::safe_relative_path(entry.name@) is Err && message.detail@
                    == "patch.json file name"@ + " "@ + path_safety::safe_relative_path(
                    entry.name@,
                )->Err_0
            }),
        },
{
    let source = match resolve_patch_stage_path(
        install_root,
        stage_root,
        PATCH_FILES_STAGE_DIR,
        "patch.json local_path",
        local_path,
    ) {
        Ok(source) => source,
        Err(message) => {
            return Err(message);
        },
    };
    let relative = match path_safety::parse_safe_relative_path(
        "patch.json file name",
        entry.name.as_str(),
    ) {
        Ok(relative) => relative,
        Err(message) => {
            return Err(message);
        },
    };
    let logical_path = relative.text();
    Ok(LocalEntry { source, target: dest_root.join(&relative), logical_path })
}

/// What to do for an entry of a manifest.
pub enum ManifestEntryStep {
    /// The file is as it should be.
    Finished,
    /// The payload replaces the file, where its size and its digest are right.
    MoveLocal { local: LocalEntry },
    /// The file is patched from the first candidate that can be used.
    Patch { target: FilePath, logical_path: String },
    /// The entry cannot be applied.
    Fail { message: Message },
}

/// The complaint about a whole payload that is not there.
pub open spec fn missing_payload_text(name: Seq<char>, source: PathModel) -> Seq<char> {
    "patch.json local payload is missing for "@ + name + ": "@ + source.text()
}

/// Whether a step is the one for an entry: nothing where its file is as it
/// should be; else its whole payload, if it brings one, replaces the file; else
/// the file is patched.
pub open spec fn begins_manifest_entry(
    install_root: PathModel,
    stage_root: PathModel,
    dest_root: PathModel,
    entry: ManifestEntry,
    target_is_right: bool,
    payload_is_file: bool,
    step: ManifestEntryStep,
) -> bool {
    match path_safety::safe_relative_path(entry.name@) {
        Err(detail) => step matches ManifestEntryStep::Fail { message } && message.context@
            == "Invalid path: "@ && message.detail@ == "patch.json file name"@ + " "@ + detail,
        Ok(relative) => if target_is_right {
            step is Finished
        } else {
            match local_payload(entry) {
                None => step matches ManifestEntryStep::Patch { target, logical_path } && target@
                    == dest_root.join(relative) && logical_path@ == relative.text(),
                Some(raw) => match path_safety::safe_relative_path(raw) {
                    Err(detail) => step matches ManifestEntryStep::Fail { message }
                        && message.context@ == "Invalid path: "@ && message.detail@
                        == "patch.json local_path"@ + " "@ + detail,
                    Ok(inside) => {
                        let source = stage_path(
                            install_root,
                            stage_root,
                            PATCH_FILES_STAGE_DIR@,
                            inside,
                        );
                        if payload_is_file {
                            step matches ManifestEntryStep::MoveLocal { local } && local.source@
                                == source && local.target@ == dest_root.join(relative)
                                && local.logical_path@ == relative.text()
                        } else {
                            step matches ManifestEntryStep::Fail { message } && message.context@
                                == "VFS error: "@ && message.detail@ == missing_payload_text(
                                entry.name@,
                                source,
                            )
                        }
                    },
                },
            }
        },
    }
}

/// What to do for an entry of a manifest, given whether its file is as it should
/// be and whether its whole payload is there.
pub fn begin_manifest_entry(
    install_root: &FilePath,
    stage_root: &FilePath,
    dest_root: &FilePath,
    entry: &ManifestEntry,
    target_is_right: bool,
    payload_is_file: bool,
) -> (step: ManifestEntryStep)
    ensures
        begins_manifest_entry(
            install_root@,
            stage_root@,
            dest_root@,
            *entry,
            target_is_right,
            payload_is_file,
            step,
        ),
{
    let relative = match path_safety::parse_safe_relative_path(
        "patch.json file name",
        entry.name.as_str(),
    ) {
        Ok(relative) => relative,
        Err(message) => {
            return ManifestEntryStep::Fail { message };
        },
    };
    if target_is_right {
        return ManifestEntryStep::Finished;
    }
    let raw = match local_payload_of(entry) {
        Some(raw) => raw,
        None => {
            return ManifestEntryStep::Patch {
                target: dest_root.join(&relative),
                logical_path: relative.text(),
            };
        },
    };
    let local = match local_entry(install_root, stage_root, dest_root, entry, raw.as_str()) {
        Ok(local) => local,
        Err(message) => {
            return ManifestEntryStep::Fail { message };
        },
    };
    if payload_is_file {
        return ManifestEntryStep::MoveLocal { local };
    }
    let mut detail = "patch.json local payload is missing for ".to_owned();
    text::push_text(&mut detail, entry.name.as_str());
    text::push_text(&mut detail, ": ");
    text::push_text(&mut detail, local.source.text().as_str());
    ManifestEntryStep::Fail { message: steps::vfs_error(detail) }
}

/// The file that an entry brings up to date, and the whole payload that it brings
/// for it, as far as their paths are safe.
pub struct ManifestPaths {
    pub target: Option<FilePath>,
    pub payload: Option<FilePath>,
}

/// The paths that decide what to do for an entry.
pub fn manifest_entry_paths(
    install_root: &FilePath,
    stage_root: &FilePath,
    dest_root: &FilePath,
    entry: &ManifestEntry,
) -> (paths: ManifestPaths)
    ensures
        match path_safety::safe_relative_path(entry.name@) {
            Ok(relative) => paths.target matches Some(target) && target@ == dest_root@.join(
                relative,
            ),
            Err(_) => paths.target is None,
        },
        match local_payload(*entry) {
            Some(raw) => match path_safety::safe_relative_path(raw) {
                Ok(inside) => paths.payload matches Some(payload) && payload@ == stage_path(
                    install_root@,
                    stage_root@,
                    PATCH_FILES_STAGE_DIR@,
                    inside,
                ),
                Err(_) => paths.payload is None,
            },
            None => paths.payload is None,
        },
{
    let target = match path_safety::parse_safe_relative_path(
        "patch.json file name",
        entry.name.as_str(),
    ) {
        Ok(relative) => Some(dest_root.join(&relative)),
        Err(_) => None,
    };
    let payload = match local_payload_of(entry) {
        Some(raw) => match resolve_patch_stage_path(
            install_root,
            stage_root,
            PATCH_FILES_STAGE_DIR,
            "patch.json local_path",
            raw.as_str(),
        ) {
            Ok(payload) => Some(payload),
            Err(_) => None,
        },
        None => None,
    };
    ManifestPaths { target, payload }
}

/// What is known of a candidate once it was looked at.
pub struct CandidateFacts {
    pub base_issue: Option<IssueKind>,
    pub payload_is_file: bool,
}

/// What to do about the candidates of an entry.
#[allow(inconsistent_fields)]
pub enum CandidateChoice {
    /// The candidate must be looked at.
    Inspect { index: usize, base: FilePath, payload: Option<FilePath> },
    /// The candidate is used.
    Apply { index: usize, base: FilePath, base_relative: FilePath, payload: FilePath },
    /// No candidate can be used.
    Fail { message: Message },
}

/// What to do about the candidates of an entry, in the mathematical model.
pub enum ChoiceModel {
    Inspect { index: int },
    Apply { index: int, base: PathModel, base_relative: PathModel, payload: PathModel },
    Invalid { detail: Seq<char> },
    Refused { detail: Seq<char> },
}

/// The base of a candidate, relative to the destination.
pub open spec fn candidate_base(candidate: PatchCandidate) -> Result<PathModel, Seq<char>> {
    path_safety::safe_relative_path(
        chosen_path(text::optional(candidate.base_file_path), candidate.base_file@),
    )
}

/// The difference of a candidate, as the manifest names it.
pub open spec fn candidate_payload(candidate: PatchCandidate) -> Result<PathModel, Seq<char>> {
    path_safety::safe_relative_path(
        chosen_path(text::optional(candidate.patch_path), candidate.patch@),
    )
}

/// What to do about the candidates of an entry from the `k`th on, given what
/// is known of the first ones and why those before were passed over. A
/// candidate is passed over where its base is not what it should be or its
/// difference is not there.
pub open spec fn choice_from(
    install_root: PathModel,
    stage_root: PathModel,
    dest_root: PathModel,
    entry: ManifestEntry,
    facts: Seq<CandidateFacts>,
    k: int,
    failures: Seq<Seq<char>>,
) -> ChoiceModel
    decreases entry.patch@.len() - k,
{
    if k < 0 || k >= entry.patch@.len() {
        ChoiceModel::Refused {
            detail: if failures.len() == 0 {
                "patch.json entry "@ + entry.name@ + " has no applicable patch candidates"@
            } else {
                "patch.json entry "@ + entry.name@ + " has no verified base file to patch: "@
                    + path::joined(failures, "; "@)
            },
        }
    } else {
        let candidate = entry.patch@[k];
        match candidate_base(candidate) {
            Err(detail) => ChoiceModel::Invalid { detail: "patch.json base_file"@ + " "@ + detail },
            Ok(base_relative) => if k >= facts.len() {
                ChoiceModel::Inspect { index: k }
            } else if facts[k].base_issue is Some {
                choice_from(
                    install_root,
                    stage_root,
                    dest_root,
                    entry,
                    facts,
                    k + 1,
                    failures.push(
                        base_relative.text() + " ("@ + facts[k].base_issue->0.text() + ")"@,
                    ),
                )
            } else {
                match candidate_payload(candidate) {
                    Err(detail) => ChoiceModel::Invalid {
                        detail: "patch.json patch path"@ + " "@ + detail,
                    },
                    Ok(relative) => {
                        let payload = stage_path(
                            install_root,
                            stage_root,
                            PATCH_DIFF_STAGE_DIR@,
                            relative,
                        );
                        if facts[k].payload_is_file {
                            ChoiceModel::Apply {
                                index: k,
                                base: dest_root.join(base_relative),
                                base_relative,
                                payload,
                            }
                        } else {
                            choice_from(
                                install_root,
                                stage_root,
                                dest_root,
                                entry,
                                facts,
                                k + 1,
                                failures.push(
                                    base_relative.text() + " (missing patch payload "@
                                        + payload.text() + ")"@,
                                ),
                            )
                        }
                    },
                }
            },
        }
    }
}

/// Whether a choice is the one of the model.
pub open spec fn matches_choice(
    choice: CandidateChoice,
    model: ChoiceModel,
    install_root: PathModel,
    stage_root: PathModel,
    dest_root: PathModel,
    entry: ManifestEntry,
) -> bool {
    match (choice, model) {
        (
            CandidateChoice::Inspect { index, base, payload },
            ChoiceModel::Inspect { index: wanted },
        ) => ({
            &&& index == wanted
            &&& candidate_base(entry.patch@[wanted]) is Ok
            &&& base@ == dest_root.join(candidate_base(entry.patch@[wanted])->Ok_0)
            &&& match (payload, candidate_payload(entry.patch@[wanted])) {
                (Some(path), Ok(relative)) => path@ == stage_path(
                    install_root,
                    stage_root,
                    PATCH_DIFF_STAGE_DIR@,
                    relative,
                ),
                (None, Err(_)) => true,
                _ => false,
            }
        }),
        (
            CandidateChoice::Apply { index, base, base_relative, payload },
            ChoiceModel::Apply { index: i, base: b, base_relative: r, payload: p },
        ) => index == i && base@ == b && base_relative@ == r && payload@ == p,
        (
            CandidateChoice::Fail { message },
            ChoiceModel::Invalid { detail },
        ) => message.context@ == "Invalid path: "@ && message.detail@ == detail,
        (
            CandidateChoice::Fail { message },
            ChoiceModel::Refused { detail },
        ) => message.context@ == "VFS error: "@ && message.detail@ == detail,
        _ => false,
    }
}

fn no_candidate(entry: &ManifestEntry, failures: &Vec<String>) -> (message: Message)
    ensures
        message.context@ == "VFS error: "@,
        message.detail@ == if failures@.len() == 0 {
            "patch.json entry "@ + entry.name@ + " has no applicable patch candidates"@
        } else {
            "patch.json entry "@ + entry.name@ + " has no verified base file to patch: "@
                + path::joined(text::texts(failures@), "; "@)
        },
{
    let mut detail = "patch.json entry ".to_owned();
    text::push_text(&mut detail, entry.name.as_str());
    if failures.len() == 0 {
        text::push_text(&mut detail, " has no applicable patch candidates");
        return steps::vfs_error(detail);
    }
    text::push_text(&mut detail, " has no verified base file to patch: ");
    text::push_text(&mut detail, path::join_texts(failures, "; ").as_str());
    steps::vfs_error(detail)
}

/// What to do about the candidates of an entry, given what is known of the
/// first ones. Candidates are looked at one after another until one can be
/// used.
pub fn choose_candidate(
    install_root: &FilePath,
    stage_root: &FilePath,
    dest_root: &FilePath,
    entry: &ManifestEntry,
    facts: &Vec<CandidateFacts>,
) -> (choice: CandidateChoice)
    ensures
        matches_choice(
            choice,
            choice_from(
                install_root@,
                stage_root@,
                dest_root@,
                *entry,
                facts@,
                0,
                Seq::empty(),
            ),
            install_root@,
            stage_root@,
            dest_root@,
            *entry,
        ),
{
    let mut failures: Vec<String> = Vec::new();
    let mut k: usize = 0;
    assert(text::texts(failures@) =~= Seq::<Seq<char>>::empty());
    while k < entry.patch.len()
        invariant
            k <= entry.patch@.len(),
            choice_from(
                install_root@,
                stage_root@,
                dest_root@,
                *entry,
                facts@,
                0,
                Seq::empty(),
            ) == choice_from(
                install_root@,
                stage_root@,
                dest_root@,
                *entry,
                facts@,
                k as int,
                text::texts(failures@),
            ),
        decreases entry.patch@.len() - k,
    {
        let candidate = &entry.patch[k];
        let base_raw = manifest_path(&candidate.base_file_path, candidate.base_file.as_str());
        let base_relative = match path_safety::parse_safe_relative_path(
            "patch.json base_file",
            base_raw.as_str(),
        ) {
            Ok(relative) => relative,
            Err(message) => {
                return CandidateChoice::Fail { message };
            },
        };
        let base = dest_root.join(&base_relative);
        let payload_raw = manifest_path(&candidate.patch_path, candidate.patch.as_str());
        let payload = resolve_patch_stage_path(
            install_root,
            stage_root,
            PATCH_DIFF_STAGE_DIR,
            "patch.json patch path",
            payload_raw.as_str(),
        );
        if k >= facts.len() {
            let known = match payload {
                Ok(path) => Some(path),
                Err(_) => None,
            };
            return CandidateChoice::Inspect { index: k, base, payload: known };
        }
        let ghost before = failures@;
        if let Some(kind) = facts[k].base_issue {
            let mut failure = base_relative.text();
            text::push_text(&mut failure, " (");
            text::push_text(&mut failure, kind.name());
            text::push_text(&mut failure, ")");
            failures.push(failure);
            assert(text::texts(failures@) =~= text::texts(before).push(failure@));
        } else {
            let payload = match payload {
                Ok(path) => path,
                Err(message) => {
                    return CandidateChoice::Fail { message };
                },
            };
            if facts[k].payload_is_file {
                return CandidateChoice::Apply { index: k, base, base_relative, payload };
            }
            let mut failure = base_relative.text();
            text::push_text(&mut failure, " (missing patch payload ");
            text::push_text(&mut failure, payload.text().as_str());
            text::push_text(&mut failure, ")");
            failures.push(failure);
            assert(text::texts(failures@) =~= text::texts(before).push(failure@));
        }
        k = k + 1;
    }
    CandidateChoice::Fail { message: no_candidate(entry, &failures) }
}

/// One line of a delete list: nothing, or a path below the install.
pub open spec fn delete_entry(line: Seq<char>) -> Option<Result<PathModel, Seq<char>>> {
    if text::trimmed(line).len() == 0 {
        None
    } else {
        Some(path_safety::safe_relative_path(text::trimmed(line)))
    }
}

/// One line of a delete list.
pub fn parse_delete_files_entry(line: &str) -> (result: Result<Option<FilePath>, Message>)
    ensures
        match result {
            Ok(None) => delete_entry(line@) is None,
            Ok(Some(path)) => delete_entry(line@) == Some(Ok::<PathModel, Seq<char>>(path@)),
            Err(message) => message.context@ == "Invalid path: "@ && match delete_entry(line@) {
                Some(Err(detail)) => message.detail@ == DELETE_FILES_MANIFEST_NAME@ + " "@ + detail,
                _ => false,
            },
        },
{
    let trimmed = text::trim(line);
    if text::chars_of(trimmed.as_str()).len() == 0 {
        return Ok(None);
    }
    match path_safety::parse_safe_relative_path(DELETE_FILES_MANIFEST_NAME, trimmed.as_str()) {
        Ok(path) => Ok(Some(path)),
        Err(message) => Err(message),
    }
}

/// The lines of a text: the pieces between line feeds, without a last empty
/// one, each without a carriage return at its end.
pub open spec fn lines(s: Seq<char>) -> Seq<Seq<char>> {
    let pieces = text::split_on(s, '\n');
    let kept = if pieces.last().len() == 0 {
        pieces.drop_last()
    } else {
        pieces
    };
    Seq::new(kept.len(), |i: int| without_return(kept[i], i < pieces.len() - 1))
}

/// A line without the carriage return that ends it.
pub open spec fn without_return(line: Seq<char>, ended: bool) -> Seq<char> {
    if ended && line.len() > 0 && line.last() == '\r' {
        line.drop_last()
    } else {
        line
    }
}

/// The paths of a delete list from its `k`th line on, after the paths found so
/// far; or the complaint about the first bad line.
pub open spec fn delete_list(all: Seq<Seq<char>>, k: int, found: Seq<PathModel>) -> Result<
    Seq<PathModel>,
    Seq<char>,
>
    decreases all.len() - k,
{
    if k < 0 || k >= all.len() {
        Ok(found)
    } else {
        match delete_entry(all[k]) {
            None => delete_list(all, k + 1, found),
            Some(Ok(path)) => delete_list(all, k + 1, found.push(path)),
            Some(Err(detail)) => Err(
                "Failed to parse "@ + DELETE_FILES_MANIFEST_NAME@ + " line "@ + text::decimal(
                    (k + 1) as nat,
                ) + ": "@ + ("Invalid path: "@ + (DELETE_FILES_MANIFEST_NAME@ + " "@ + detail)),
            ),
        }
    }
}

/// The lines of a text.
pub fn split_lines(manifest: &str) -> (out: Vec<String>)
    ensures
        text::texts(out@) == lines(manifest@),
{
    let pieces = text::split_text(manifest, '\n');
    proof {
        text::lemma_split_is_not_empty(manifest@, '\n');
    }
    let ghost all = text::split_on(manifest@, '\n');
    let n = pieces.len();
    assert(all.last() == pieces@[n - 1]@);
    let last_is_empty = text::chars_of(pieces[n - 1].as_str()).len() == 0;
    let kept: usize = if last_is_empty {
        n - 1
    } else {
        n
    };
    let mut out: Vec<String> = Vec::new();
    let mut k: usize = 0;
    while k < kept
        invariant
            k <= kept <= n,
            n == pieces@.len(),
            all == text::texts(pieces@),
            all == text::split_on(manifest@, '\n'),
            kept == lines(manifest@).len(),
            text::texts(out@) == lines(manifest@).take(k as int),
        decreases kept - k,
    {
        let chars = text::chars_of(pieces[k].as_str());
        let len = chars.len();
        let ghost before = out@;
        let line = if k + 1 < n && len > 0 && chars[len - 1] == '\r' {
            text::text_of(&chars, 0, len - 1)
        } else {
            text::text_of(&chars, 0, len)
        };
        proof {
            assert(chars@ == all[k as int]);
            if k + 1 < n && len > 0 && chars@[len - 1] == '\r' {
                assert(chars@.subrange(0, len - 1) =~= chars@.drop_last());
            } else {
                assert(chars@.subrange(0, len as int) =~= chars@);
            }
            assert(line@ == lines(manifest@)[k as int]);
        }
        out.push(line);
        k = k + 1;
        proof {
            assert(text::texts(out@) =~= text::texts(before).push(line@));
            assert(text::texts(out@) =~= lines(manifest@).take(k as int));
        }
    }
    assert(lines(manifest@).take(k as int) =~= lines(manifest@));
    out
}

/// The paths of a delete list. The first bad line spoils the list.
pub fn parse_delete_files_manifest(manifest: &str) -> (result: Result<Vec<FilePath>, Message>)
    ensures
        match (result, delete_list(lines(manifest@), 0, Seq::empty())) {
            (Ok(paths), Ok(found)) => steps::models(paths@) == found,
            (Err(message), Err(detail)) => message.context@ == "Configuration error: "@
                && message.detail@ == detail,
            _ => false,
        },
{
    let all = split_lines(manifest);
    let mut paths: Vec<FilePath> = Vec::new();
    let mut k: usize = 0;
    assert(steps::models(paths@) =~= Seq::<PathModel>::empty());
    while k < all.len()
        invariant
            k <= all@.len(),
            text::texts(all@) == lines(manifest@),
            delete_list(lines(manifest@), 0, Seq::empty()) == delete_list(
                lines(manifest@),
                k as int,
                steps::models(paths@),
            ),
        decreases all@.len() - k,
    {
        let ghost before = paths@;
        assert(lines(manifest@)[k as int] == all@[k as int]@);
        match parse_delete_files_entry(all[k].as_str()) {
            Ok(None) => {},
            Ok(Some(path)) => {
                paths.push(path);
                assert(steps::models(paths@) =~= steps::models(before).push(path@));
            },
            Err(message) => {
                let mut detail = "Failed to parse ".to_owned();
                text::push_text(&mut detail, DELETE_FILES_MANIFEST_NAME);
                text::push_text(&mut detail, " line ");
                text::push_size(&mut detail, k + 1);
                text::push_text(&mut detail, ": ");
                text::push_text(&mut detail, message.message().as_str());
                return Err(Message::new("Configuration error: ", detail));
            },
        }
        k = k + 1;
    }
    Ok(paths)
}

/// Every path of a delete list stays below the install.
pub proof fn law_delete_list_stays_below(
    all: Seq<Seq<char>>,
    k: int,
    found: Seq<PathModel>,
    i: int,
)
    requires
        0 <= k <= all.len(),
        delete_list(all, k, found) is Ok,
        forall|j: int|
            0 <= j < found.len() ==> !(#[trigger] found[j]).absolute
                && !path_safety::leads_up(found[j].parts),
        0 <= i < delete_list(all, k, found)->Ok_0.len(),
    ensures
        !delete_list(all, k, found)->Ok_0[i].absolute,
        !path_safety::leads_up(delete_list(all, k, found)->Ok_0[i].parts),
    decreases all.len() - k,
{
    if k < all.len() {
        match delete_entry(all[k]) {
            Some(Ok(path)) => {
                law_delete_list_stays_below(all, k + 1, found.push(path), i);
            },
            _ => {
                law_delete_list_stays_below(all, k + 1, found, i);
            },
        }
    }
}

} // verus!
