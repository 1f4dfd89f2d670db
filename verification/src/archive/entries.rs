//! Which entries of an archive go where.

use crate::error::Message;
use crate::ordered;
use crate::patch::plan;
use crate::patch::plan::{
    PatchPlan, PlannedPatchEntry, PlannedPatchSource, DELETE_FILES_MANIFEST_NAME, GRIFFR_PATCH_DIR,
    PATCH_MANIFEST_NAME, PATCH_STAGE_DIR,
};
use crate::path::{FilePath, PathModel};
use crate::path_safety;
use crate::path_safety::parse_safe_relative_path;
use crate::scheduler::counts;
use crate::scheduler::routes;
use crate::task::{ArchiveIndex, ArchiveWork};
use crate::text;
use vstd::prelude::*;

verus! {

/// Where an entry of an archive goes.
#[derive(Clone, Copy, PartialEq, Eq, Structural, Debug)]
pub enum EntryPlace {
    /// It is not extracted here.
    Skipped,
    /// It is put in place as soon as it is extracted.
    Direct,
    /// It is kept aside until everything else is in place.
    Staged,
}

/// What is wrong with an entry.
pub struct Fault {
    pub context: Seq<char>,
    pub detail: Seq<char>,
}

impl Message {
    /// What a message says.
    pub open spec fn fault(self) -> Fault {
        Fault { context: self.context@, detail: self.detail@ }
    }
}

/// What the entries of an archive are sorted by.
pub struct EntryRules {
    /// Whether the archive holds a patch.
    pub patch: bool,
    /// The payloads that the patch uses, in small letters.
    pub selected: Vec<String>,
    /// The files that are put in place last, in small letters.
    pub deferred: Vec<String>,
}

/// The path of an entry as it is looked up.
pub open spec fn lookup(path: PathModel) -> Seq<char> {
    text::lowered(path.text())
}

/// Whether a name is that of a directory.
pub open spec fn is_directory(name: Seq<char>) -> bool {
    name.len() > 0 && name.last() == '/'
}

/// Whether a path lies in the private directory of a patch.
pub open spec fn is_private(path: PathModel) -> bool {
    path.starts_with(plan::single(GRIFFR_PATCH_DIR@))
}

/// Whether a path lies in the private directory of a patch.
pub fn is_install_change_path(path: &FilePath) -> (yes: bool)
    ensures
        yes == is_private(path@),
{
    path.starts_with(&plan::single_path(GRIFFR_PATCH_DIR))
}

/// The path of an entry, or what is wrong with it.
pub open spec fn entry_path(name: Seq<char>) -> Result<PathModel, Fault> {
    match path_safety::safe_relative_path(name) {
        Ok(path) => if is_private(path) {
            Err(
                Fault {
                    context: "Extraction error: "@,
                    detail: "Archive entry "@ + path.text()
                        + " uses the private install change namespace"@,
                },
            )
        } else {
            Ok(path)
        },
        Err(detail) => Err(
            Fault { context: "Invalid path: "@, detail: "Archive entry"@ + " "@ + detail },
        ),
    }
}

/// The place of a path of an archive that holds a patch. Control files are
/// skipped, payloads are kept aside where the patch uses them, and so is what
/// is put in place last.
pub open spec fn patch_place(
    path: PathModel,
    rules: EntryRules,
    excluded: Seq<String>,
) -> EntryPlace {
    let key = lookup(path);
    if key == text::lowered(PATCH_MANIFEST_NAME@) || key == text::lowered(
        DELETE_FILES_MANIFEST_NAME@,
    ) {
        EntryPlace::Skipped
    } else if path.starts_with(plan::single(PATCH_STAGE_DIR@)) {
        if counts::lists(rules.selected@, key) {
            EntryPlace::Staged
        } else {
            EntryPlace::Skipped
        }
    } else if counts::lists(rules.deferred@, key) {
        EntryPlace::Staged
    } else if counts::lists(excluded, key) {
        EntryPlace::Skipped
    } else {
        EntryPlace::Direct
    }
}

/// The place of an entry, or what is wrong with it.
pub open spec fn entry_place(
    archive: ArchiveWork,
    index: ArchiveIndex,
    rules: EntryRules,
    i: int,
) -> Result<EntryPlace, Fault> {
    if i >= index.names@.len() {
        Err(
            Fault {
                context: "Extraction error: "@,
                detail: "ZIP parser has no name for entry "@ + text::decimal(i as nat),
            },
        )
    } else if is_directory(index.names@[i]@) {
        Ok(EntryPlace::Skipped)
    } else if !rules.patch && index.control_indices@.contains(i as usize) {
        Ok(EntryPlace::Skipped)
    } else {
        match entry_path(index.names@[i]@) {
            Ok(path) => if rules.patch {
                Ok(patch_place(path, rules, archive.excluded_commit_paths@))
            } else if counts::lists(archive.excluded_commit_paths@, lookup(path)) {
                Ok(EntryPlace::Skipped)
            } else {
                Ok(EntryPlace::Direct)
            },
            Err(fault) => Err(fault),
        }
    }
}

/// What is wrong with the first of the entries from the `k`th on that has a
/// fault.
pub open spec fn first_fault(
    archive: ArchiveWork,
    index: ArchiveIndex,
    rules: EntryRules,
    k: int,
) -> Option<Fault>
    decreases index.entry_sizes@.len() - k,
{
    if k >= index.entry_sizes@.len() {
        None
    } else {
        match entry_place(archive, index, rules, k) {
            Ok(_) => first_fault(archive, index, rules, k + 1),
            Err(fault) => Some(fault),
        }
    }
}

/// The entries among the first `k` that go to a place, in the order of the
/// archive.
pub open spec fn placed(
    archive: ArchiveWork,
    index: ArchiveIndex,
    rules: EntryRules,
    place: EntryPlace,
    k: int,
) -> Seq<usize>
    decreases k,
{
    if k <= 0 {
        Seq::empty()
    } else {
        let before = placed(archive, index, rules, place, k - 1);
        match entry_place(archive, index, rules, k - 1) {
            Ok(found) => if found == place {
                before.push((k - 1) as usize)
            } else {
                before
            },
            Err(_) => before,
        }
    }
}

fn missing_name(lead: &str, index: usize) -> (message: Message)
    ensures
        message.context@ == "Extraction error: "@,
        message.detail@ == lead@ + text::decimal(index as nat),
{
    let mut detail = lead.to_owned();
    text::push_size(&mut detail, index);
    Message::new("Extraction error: ", detail)
}

fn ends_in_slash(name: &str) -> (yes: bool)
    ensures
        yes == is_directory(name@),
{
    let chars = text::chars_of(name);
    chars.len() > 0 && chars[chars.len() - 1] == '/'
}

fn list_has(list: &Vec<usize>, value: usize) -> (yes: bool)
    ensures
        yes == list@.contains(value),
{
    let mut k: usize = 0;
    while k < list.len()
        invariant
            k <= list@.len(),
            forall|i: int| 0 <= i < k ==> list@[i] != value,
        decreases list@.len() - k,
    {
        if list[k] == value {
            assert(list@[k as int] == value);
            return true;
        }
        k = k + 1;
    }
    false
}

fn parse_entry_path(name: &str) -> (result: Result<FilePath, Message>)
    ensures
        match (result, entry_path(name@)) {
            (Ok(path), Ok(wanted)) => path@ == wanted,
            (Err(message), Err(fault)) => message.fault() == fault,
            _ => false,
        },
{
    match parse_safe_relative_path("Archive entry", name) {
        Ok(path) => {
            if is_install_change_path(&path) {
                let mut detail = "Archive entry ".to_owned();
                text::push_text(&mut detail, path.text().as_str());
                text::push_text(&mut detail, " uses the private install change namespace");
                Err(Message::new("Extraction error: ", detail))
            } else {
                Ok(path)
            }
        },
        Err(message) => Err(message),
    }
}

fn place_of_patch_path(path: &FilePath, rules: &EntryRules, excluded: &Vec<String>) -> (place:
    EntryPlace)
    ensures
        place == patch_place(path@, *rules, excluded@),
{
    let key = text::ascii_lowercase(path.text().as_str());
    let manifest = text::ascii_lowercase(PATCH_MANIFEST_NAME);
    let deletes = text::ascii_lowercase(DELETE_FILES_MANIFEST_NAME);
    if text::same_string(&key, &manifest) || text::same_string(&key, &deletes) {
        return EntryPlace::Skipped;
    }
    if path.starts_with(&plan::single_path(PATCH_STAGE_DIR)) {
        if counts::list_contains(&rules.selected, key.as_str()) {
            return EntryPlace::Staged;
        }
        return EntryPlace::Skipped;
    }
    if counts::list_contains(&rules.deferred, key.as_str()) {
        return EntryPlace::Staged;
    }
    if counts::list_contains(excluded, key.as_str()) {
        EntryPlace::Skipped
    } else {
        EntryPlace::Direct
    }
}

/// The place of an entry.
pub fn place_entry(archive: &ArchiveWork, index: &ArchiveIndex, rules: &EntryRules, i: usize) -> (result:
    Result<EntryPlace, Message>)
    ensures
        match (result, entry_place(*archive, *index, *rules, i as int)) {
            (Ok(place), Ok(wanted)) => place == wanted,
            (Err(message), Err(fault)) => message.fault() == fault,
            _ => false,
        },
{
    if i >= index.names.len() {
        return Err(missing_name("ZIP parser has no name for entry ", i));
    }
    let name = &index.names[i];
    if ends_in_slash(name.as_str()) {
        return Ok(EntryPlace::Skipped);
    }
    if !rules.patch && list_has(&index.control_indices, i) {
        return Ok(EntryPlace::Skipped);
    }
    match parse_entry_path(name.as_str()) {
        Ok(path) => {
            if rules.patch {
                Ok(place_of_patch_path(&path, rules, &archive.excluded_commit_paths))
            } else {
                let key = text::ascii_lowercase(path.text().as_str());
                if counts::list_contains(&archive.excluded_commit_paths, key.as_str()) {
                    Ok(EntryPlace::Skipped)
                } else {
                    Ok(EntryPlace::Direct)
                }
            }
        },
        Err(message) => Err(message),
    }
}

/// Sorts the entries of an archive: those that are put in place at once, and
/// those that are kept aside.
pub fn sort_entries(archive: &ArchiveWork, index: &ArchiveIndex, rules: &EntryRules) -> (result: Result<
    (Vec<usize>, Vec<usize>),
    Message,
>)
    ensures
        match result {
            Ok((direct, staged)) => {
                let n = index.entry_sizes@.len() as int;
                &&& first_fault(*archive, *index, *rules, 0) is None
                &&& direct@ == placed(*archive, *index, *rules, EntryPlace::Direct, n)
                &&& staged@ == placed(*archive, *index, *rules, EntryPlace::Staged, n)
            },
            Err(message) => first_fault(*archive, *index, *rules, 0) == Some(message.fault()),
        },
{
    let mut direct: Vec<usize> = Vec::new();
    let mut staged: Vec<usize> = Vec::new();
    let mut k: usize = 0;
    while k < index.entry_sizes.len()
        invariant
            k <= index.entry_sizes@.len(),
            first_fault(*archive, *index, *rules, 0) == first_fault(
                *archive,
                *index,
                *rules,
                k as int,
            ),
            direct@ == placed(*archive, *index, *rules, EntryPlace::Direct, k as int),
            staged@ == placed(*archive, *index, *rules, EntryPlace::Staged, k as int),
        decreases index.entry_sizes@.len() - k,
    {
        match place_entry(archive, index, rules, k) {
            Ok(place) => match place {
                EntryPlace::Direct => {
                    direct.push(k);
                },
                EntryPlace::Staged => {
                    staged.push(k);
                },
                EntryPlace::Skipped => {},
            },
            Err(message) => {
                return Err(message);
            },
        }
        k = k + 1;
    }
    Ok((direct, staged))
}

/// The rules of an archive that holds no patch.
pub open spec fn plain_rules(rules: EntryRules) -> bool {
    !rules.patch && rules.selected@.len() == 0 && rules.deferred@.len() == 0
}

/// The path of a control file, or what is wrong with it.
pub open spec fn control_path(index: ArchiveIndex, i: int) -> Result<PathModel, Fault> {
    if i >= index.names@.len() {
        Err(
            Fault {
                context: "Extraction error: "@,
                detail: "ZIP parser has no name for control entry "@ + text::decimal(i as nat),
            },
        )
    } else {
        match path_safety::safe_relative_path(index.names@[i]@) {
            Ok(path) => Ok(path),
            Err(detail) => Err(
                Fault { context: "Invalid path: "@, detail: "Archive entry"@ + " "@ + detail },
            ),
        }
    }
}

/// What is wrong with the first control file from the `k`th on that has a
/// fault.
pub open spec fn control_fault(index: ArchiveIndex, k: int) -> Option<Fault>
    decreases index.control_indices@.len() - k,
{
    if k >= index.control_indices@.len() {
        None
    } else {
        match control_path(index, index.control_indices@[k] as int) {
            Ok(_) => control_fault(index, k + 1),
            Err(fault) => Some(fault),
        }
    }
}

/// The entries of an archive that holds no patch, and the paths that are put in
/// place last.
pub struct EntryGroups {
    pub direct: Vec<usize>,
    pub staged: Vec<usize>,
    pub deferred_paths: Vec<FilePath>,
}

/// Whether groups are those of an archive that holds no patch: control files are
/// kept aside until every other entry is in place.
pub open spec fn are_full_groups(
    archive: ArchiveWork,
    index: ArchiveIndex,
    rules: EntryRules,
    groups: EntryGroups,
) -> bool {
    &&& plain_rules(rules)
    &&& first_fault(archive, index, rules, 0) is None
    &&& control_fault(index, 0) is None
    &&& groups.direct@ == placed(
        archive,
        index,
        rules,
        EntryPlace::Direct,
        index.entry_sizes@.len() as int,
    )
    &&& groups.staged@ == index.control_indices@
    &&& groups.deferred_paths@.len() == index.control_indices@.len()
    &&& forall|k: int|
        0 <= k < index.control_indices@.len() ==> control_path(
            index,
            #[trigger] index.control_indices@[k] as int,
        ) == Ok::<PathModel, Fault>(groups.deferred_paths@[k]@)
}

/// What is wrong with an archive that holds no patch.
pub open spec fn full_fault(archive: ArchiveWork, index: ArchiveIndex, rules: EntryRules) -> Option<
    Fault,
> {
    match first_fault(archive, index, rules, 0) {
        Some(fault) => Some(fault),
        None => control_fault(index, 0),
    }
}

/// The entries of an archive that holds no patch.
pub fn full_archive_entry_groups(archive: &ArchiveWork, index: &ArchiveIndex) -> (result: Result<
    EntryGroups,
    Message,
>)
    ensures
        exists|rules: EntryRules| #[trigger]
            plain_rules(rules) && match result {
                Ok(groups) => are_full_groups(*archive, *index, rules, groups),
                Err(message) => full_fault(*archive, *index, rules) == Some(message.fault()),
            },
{
    let rules = EntryRules { patch: false, selected: Vec::new(), deferred: Vec::new() };
    assert(plain_rules(rules));
    let direct = match sort_entries(archive, index, &rules) {
        Ok((direct, _)) => direct,
        Err(message) => {
            return Err(message);
        },
    };
    let mut staged: Vec<usize> = Vec::new();
    let mut deferred_paths: Vec<FilePath> = Vec::new();
    let mut k: usize = 0;
    while k < index.control_indices.len()
        invariant
            k <= index.control_indices@.len(),
            plain_rules(rules),
            first_fault(*archive, *index, rules, 0) is None,
            control_fault(*index, 0) == control_fault(*index, k as int),
            staged@ == index.control_indices@.take(k as int),
            deferred_paths@.len() == k,
            forall|j: int|
                0 <= j < k ==> control_path(
                    *index,
                    #[trigger] index.control_indices@[j] as int,
                ) == Ok::<PathModel, Fault>(deferred_paths@[j]@),
        decreases index.control_indices@.len() - k,
    {
        let at = index.control_indices[k];
        if at >= index.names.len() {
            return Err(missing_name("ZIP parser has no name for control entry ", at));
        }
        match parse_safe_relative_path("Archive entry", index.names[at].as_str()) {
            Ok(path) => {
                deferred_paths.push(path);
            },
            Err(message) => {
                return Err(message);
            },
        }
        staged.push(at);
        k = k + 1;
        assert(staged@ =~= index.control_indices@.take(k as int));
    }
    assert(staged@ =~= index.control_indices@);
    Ok(EntryGroups { direct, staged, deferred_paths })
}

/// A path as a payload is looked up.
pub open spec fn payload_key(path: PathModel) -> Seq<char> {
    text::lowered(text::replaced(path.text(), '\\', '/'))
}

fn payload_key_of(path: &FilePath) -> (key: String)
    ensures
        key@ == payload_key(path@),
{
    text::ascii_lowercase(text::replace_char(path.text().as_str(), '\\', '/').as_str())
}

/// Whether a patched file uses a payload.
pub open spec fn uses_payload(entry: PlannedPatchEntry, key: Seq<char>) -> bool {
    match entry.source {
        PlannedPatchSource::AlreadyPresent => false,
        PlannedPatchSource::Local { payload } => payload_key(payload@) == key,
        PlannedPatchSource::Hdiff { payload, .. } => payload_key(payload@) == key,
    }
}

/// Whether a patch uses a payload.
pub open spec fn plan_uses(entries: Seq<PlannedPatchEntry>, key: Seq<char>) -> bool {
    exists|i: int| 0 <= i < entries.len() && uses_payload(#[trigger] entries[i], key)
}

/// The payloads that a patch uses, each once, in order.
pub fn selected_patch_payloads(plan: &PatchPlan) -> (selected: Vec<String>)
    ensures
        ordered::ascending_texts(selected@),
        forall|key: Seq<char>| #[trigger]
            counts::lists(selected@, key) <==> plan_uses(plan.entries@, key),
{
    let mut selected: Vec<String> = Vec::new();
    let mut k: usize = 0;
    while k < plan.entries.len()
        invariant
            k <= plan.entries@.len(),
            ordered::ascending_texts(selected@),
            forall|key: Seq<char>| #[trigger]
                counts::lists(selected@, key) <==> plan_uses(plan.entries@.take(k as int), key),
        decreases plan.entries@.len() - k,
    {
        let ghost before = selected@;
        let ghost done = plan.entries@.take(k as int);
        let ghost more = plan.entries@.take(k + 1);
        match &plan.entries[k].source {
            PlannedPatchSource::AlreadyPresent => {},
            PlannedPatchSource::Local { payload } => {
                ordered::insert_text(&mut selected, payload_key_of(payload).as_str());
            },
            PlannedPatchSource::Hdiff { payload, .. } => {
                ordered::insert_text(&mut selected, payload_key_of(payload).as_str());
            },
        }
        proof {
            assert forall|key: Seq<char>| #[trigger]
                counts::lists(selected@, key) <==> plan_uses(more, key) by {
                assert(counts::lists(before, key) <==> plan_uses(done, key));
                if plan_uses(done, key) {
                    let i = choose|i: int|
                        0 <= i < done.len() && uses_payload(#[trigger] done[i], key);
                    assert(uses_payload(more[i], key));
                }
                if plan_uses(more, key) {
                    let i = choose|i: int|
                        0 <= i < more.len() && uses_payload(#[trigger] more[i], key);
                    if i < k {
                        assert(uses_payload(done[i], key));
                    }
                }
                assert(more[k as int] == plan.entries@[k as int]);
            }
        }
        k = k + 1;
    }
    assert(plan.entries@.take(k as int) =~= plan.entries@);
    selected
}

/// Whether rules are those of an archive that holds a patch.
pub open spec fn are_patch_rules(plan: PatchPlan, rules: EntryRules) -> bool {
    &&& rules.patch
    &&& forall|key: Seq<char>| #[trigger]
        counts::lists(rules.selected@, key) <==> plan_uses(plan.entries@, key)
    &&& rules.deferred@.len() == plan.deferred_paths@.len()
    &&& forall|i: int|
        0 <= i < plan.deferred_paths@.len() ==> (#[trigger] rules.deferred@[i])@ == payload_key(
            plan.deferred_paths@[i]@,
        )
}

/// The rules of an archive that holds a patch.
pub fn patch_entry_rules(plan: &PatchPlan) -> (rules: EntryRules)
    ensures
        are_patch_rules(*plan, rules),
{
    let selected = selected_patch_payloads(plan);
    let mut deferred: Vec<String> = Vec::new();
    let mut k: usize = 0;
    while k < plan.deferred_paths.len()
        invariant
            k <= plan.deferred_paths@.len(),
            deferred@.len() == k,
            forall|i: int|
                0 <= i < k ==> (#[trigger] deferred@[i])@ == payload_key(
                    plan.deferred_paths@[i]@,
                ),
        decreases plan.deferred_paths@.len() - k,
    {
        deferred.push(payload_key_of(&plan.deferred_paths[k]));
        k = k + 1;
    }
    EntryRules { patch: true, selected, deferred }
}

/// Whether entries of an archive that holds a patch are sorted by its plan.
pub open spec fn are_patch_groups(
    archive: ArchiveWork,
    index: ArchiveIndex,
    plan: PatchPlan,
    result: Result<(Vec<usize>, Vec<usize>), Message>,
) -> bool {
    exists|rules: EntryRules| #[trigger]
        are_patch_rules(plan, rules) && match result {
            Ok((direct, staged)) => {
                let n = index.entry_sizes@.len() as int;
                &&& first_fault(archive, index, rules, 0) is None
                &&& direct@ == placed(archive, index, rules, EntryPlace::Direct, n)
                &&& staged@ == placed(archive, index, rules, EntryPlace::Staged, n)
            },
            Err(message) => first_fault(archive, index, rules, 0) == Some(message.fault()),
        }
}

/// The entries of an archive that holds a patch: those that are put in place at
/// once, and those that the patch reads or that are put in place last.
pub fn patch_archive_entry_groups(archive: &ArchiveWork, index: &ArchiveIndex, plan: &PatchPlan) -> (result:
    Result<(Vec<usize>, Vec<usize>), Message>)
    ensures
        are_patch_groups(*archive, *index, *plan, result),
{
    let rules = patch_entry_rules(plan);
    assert(are_patch_rules(*plan, rules));
    sort_entries(archive, index, &rules)
}

/// The bytes of the first `k` entries of a list, as far as they can be counted.
pub open spec fn entry_bytes(sizes: Seq<u64>, entries: Seq<usize>, k: int) -> u64
    decreases k,
{
    if k <= 0 {
        0
    } else {
        routes::capped_sum(entry_bytes(sizes, entries, k - 1), sizes[entries[k - 1] as int])
    }
}

/// The bytes of two lists of entries, one after the other.
pub open spec fn selected_bytes(sizes: Seq<u64>, direct: Seq<usize>, staged: Seq<usize>) -> u64 {
    entry_bytes(sizes, direct + staged, (direct.len() + staged.len()) as int)
}

/// How many bytes are extracted.
pub fn selected_entry_bytes(index: &ArchiveIndex, direct: &Vec<usize>, staged: &Vec<usize>) -> (bytes: u64)
    requires
        forall|i: int|
            0 <= i < direct@.len() ==> (#[trigger] direct@[i]) < index.entry_sizes@.len(),
        forall|i: int|
            0 <= i < staged@.len() ==> (#[trigger] staged@[i]) < index.entry_sizes@.len(),
    ensures
        bytes == selected_bytes(index.entry_sizes@, direct@, staged@),
{
    let ghost all = direct@ + staged@;
    let mut bytes: u64 = 0;
    let mut k: usize = 0;
    while k < direct.len()
        invariant
            k <= direct@.len(),
            all == direct@ + staged@,
            forall|i: int|
                0 <= i < direct@.len() ==> (#[trigger] direct@[i]) < index.entry_sizes@.len(),
            bytes == entry_bytes(index.entry_sizes@, all, k as int),
        decreases direct@.len() - k,
    {
        assert(all[k as int] == direct@[k as int]);
        bytes = bytes.saturating_add(index.entry_sizes[direct[k]]);
        k = k + 1;
    }
    let mut j: usize = 0;
    while j < staged.len()
        invariant
            j <= staged@.len(),
            all == direct@ + staged@,
            forall|i: int|
                0 <= i < staged@.len() ==> (#[trigger] staged@[i]) < index.entry_sizes@.len(),
            bytes == entry_bytes(index.entry_sizes@, all, direct@.len() + j),
        decreases staged@.len() - j,
    {
        assert(all[direct@.len() + j] == staged@[j as int]);
        bytes = bytes.saturating_add(index.entry_sizes[staged[j]]);
        j = j + 1;
    }
    bytes
}

/// What is placed is one of the entries.
pub(crate) proof fn lemma_placed_below(
    archive: ArchiveWork,
    index: ArchiveIndex,
    rules: EntryRules,
    place: EntryPlace,
    k: int,
    i: usize,
)
    requires
        0 <= k <= usize::MAX,
        placed(archive, index, rules, place, k).contains(i),
    ensures
        i < k,
        entry_place(archive, index, rules, i as int) == Ok::<EntryPlace, Fault>(place),
    decreases k,
{
    if k > 0 {
        let before = placed(archive, index, rules, place, k - 1);
        if before.contains(i) {
            lemma_placed_below(archive, index, rules, place, k - 1, i);
        } else {
            let list = placed(archive, index, rules, place, k);
            let j = choose|j: int| 0 <= j < list.len() && list[j] == i;
            if j < before.len() {
                assert(before[j] == i);
            }
        }
    }
}

/// An entry that is put in place leads nowhere outside of the install, and not
/// into the private directory of a patch.
pub proof fn law_extracted_entries_are_safe(
    archive: ArchiveWork,
    index: ArchiveIndex,
    rules: EntryRules,
    place: EntryPlace,
    k: int,
    i: usize,
)
    requires
        0 <= k <= usize::MAX,
        place is Direct || place is Staged,
        placed(archive, index, rules, place, k).contains(i),
    ensures
        i < index.names@.len(),
        path_safety::safe_relative_path(index.names@[i as int]@) matches Ok(path) && !is_private(
            path,
        ) && !path.absolute && !path_safety::leads_up(path.parts),
{
    lemma_placed_below(archive, index, rules, place, k, i);
    path_safety::law_safe_paths_stay_below(index.names@[i as int]@);
}

/// No entry goes to two places.
pub proof fn law_entries_go_to_one_place(
    archive: ArchiveWork,
    index: ArchiveIndex,
    rules: EntryRules,
    k: int,
    i: usize,
)
    requires
        0 <= k <= usize::MAX,
        placed(archive, index, rules, EntryPlace::Direct, k).contains(i),
    ensures
        !placed(archive, index, rules, EntryPlace::Staged, k).contains(i),
{
    lemma_placed_below(archive, index, rules, EntryPlace::Direct, k, i);
    if placed(archive, index, rules, EntryPlace::Staged, k).contains(i) {
        lemma_placed_below(archive, index, rules, EntryPlace::Staged, k, i);
    }
}

} // verus!
