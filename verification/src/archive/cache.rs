//! Where the pieces of a remote archive are kept, and which files of an
//! earlier run can be trusted.

use crate::archive::parts;
use crate::archive::parts::PartModel;
use crate::digest;
use crate::digest::RunningDigest;
use crate::error::Message;
use crate::files;
use crate::path::{FilePath, PathModel};
use crate::task::ArchivePart;
use crate::text;
use vstd::prelude::*;
use vstd::string::*;

verus! {

/// The bytes that stand for the first `k` volumes: the digest of each as it is
/// written, and its size, the least byte first.
pub open spec fn identity_bytes(parts: Seq<PartModel>, k: int) -> Seq<u8>
    decreases k,
{
    if k <= 0 {
        Seq::empty()
    } else {
        identity_bytes(parts, k - 1) + vstd::utf8::encode_utf8(parts[k - 1].expected_md5)
            + vstd::bytes::spec_u64_to_le_bytes(parts[k - 1].expected_size)
    }
}

/// What tells an archive apart from others: the digest of what its volumes
/// should be.
pub open spec fn identity(parts: Seq<PartModel>) -> Seq<char> {
    digest::md5_text(identity_bytes(parts, parts.len() as int))
}

/// What tells an archive apart from others.
pub fn archive_identity(parts: &Vec<ArchivePart>) -> (out: String)
    ensures
        out@ == identity(parts::part_views(parts@)),
        out@.len() == 32,
{
    let mut running = RunningDigest::new();
    let mut k: usize = 0;
    while k < parts.len()
        invariant
            k <= parts@.len(),
            running@ == identity_bytes(parts::part_views(parts@), k as int),
        decreases parts@.len() - k,
    {
        running.update(parts[k].expected_md5.as_str().as_bytes());
        let size = vstd::bytes::u64_to_le_bytes(parts[k].expected_size);
        running.update(size.as_slice());
        k = k + 1;
        assert(parts::part_views(parts@)[k - 1] == parts@[k - 1]@);
    }
    running.finish()
}

/// A character as it stands in the name of a cache.
pub open spec fn cache_char(c: char) -> char {
    if 'a' <= c <= 'z' || 'A' <= c <= 'Z' || '0' <= c <= '9' || c == '-' || c == '_' || c == '.' {
        c
    } else {
        '_'
    }
}

/// A name as it stands in the name of a cache: letters, digits and a few marks
/// stay, everything else becomes an underscore.
pub open spec fn cache_key(name: Seq<char>) -> Seq<char> {
    Seq::new(name.len(), |i: int| cache_char(name[i]))
}

pub fn safe_cache_key(base_name: &str) -> (key: String)
    ensures
        key@ == cache_key(base_name@),
{
    let chars = text::chars_of(base_name);
    let mut key = String::new();
    let mut k: usize = 0;
    while k < chars.len()
        invariant
            k <= chars@.len(),
            chars@ == base_name@,
            key@ == cache_key(base_name@).take(k as int),
        decreases chars@.len() - k,
    {
        let c = chars[k];
        let keep = ('a' <= c && c <= 'z') || ('A' <= c && c <= 'Z') || ('0' <= c && c <= '9') || c
            == '-' || c == '_' || c == '.';
        if keep {
            key.push(c);
        } else {
            key.push('_');
        }
        k = k + 1;
        assert(key@ =~= cache_key(base_name@).take(k as int));
    }
    assert(key@ =~= cache_key(base_name@));
    key
}

/// The directory in which the pieces of an archive are kept: beside its
/// volumes, under its name and what tells it apart.
pub open spec fn cache_dir(
    base_name: Seq<char>,
    parts: Seq<PartModel>,
    dest: PathModel,
) -> PathModel {
    let beside = match parts[0].dest.parent() {
        Some(parent) => parent,
        None => dest,
    };
    beside.child(".griffr-range-cache"@).child(
        cache_key(base_name) + "-"@ + identity(parts).take(16),
    )
}

/// The directory in which the pieces of an archive are kept.
pub fn remote_cache_dir(base_name: &str, parts: &Vec<ArchivePart>, dest: &FilePath) -> (dir:
    FilePath)
    requires
        parts@.len() > 0,
    ensures
        dir@ == cache_dir(base_name@, parts::part_views(parts@), dest@),
{
    let beside = match parts[0].dest.parent() {
        Some(parent) => parent,
        None => dest.copied(),
    };
    let mut name = safe_cache_key(base_name);
    text::push_text(&mut name, "-");
    let identity = archive_identity(parts);
    let chars = text::chars_of(identity.as_str());
    let head = text::text_of(&chars, 0, 16);
    assert(chars@.subrange(0, 16) =~= chars@.take(16));
    text::push_text(&mut name, head.as_str());
    assert(parts::part_views(parts@)[0] == parts@[0]@);
    beside.child(".griffr-range-cache").child(name.as_str())
}

/// The volumes of a remote archive in order. There must be one.
pub fn sorted_remote_parts(list: Vec<ArchivePart>) -> (result: Result<Vec<ArchivePart>, Message>)
    ensures
        match result {
            Ok(sorted) => list@.len() > 0 && sorted@.len() == list@.len() && parts::arranged(
                parts::part_views(list@),
                parts::part_views(sorted@),
            ),
            Err(message) => list@.len() == 0 && message.context@ == "Task pool error: "@
                && message.detail@ == "remote archive has no parts"@,
        },
{
    let sorted = parts::sort_parts(list);
    if sorted.len() == 0 {
        return Err(Message::new("Task pool error: ", "remote archive has no parts".to_owned()));
    }
    Ok(sorted)
}

/// What is known of a file.
#[derive(Clone, Copy, PartialEq, Eq, Structural, Debug)]
pub struct FileFacts {
    pub is_file: bool,
    pub len: u64,
}

/// Whether a file could be a volume, so that its digest is worth computing.
pub open spec fn may_be_volume(found: Option<FileFacts>, expected_size: u64) -> bool {
    found matches Some(facts) && facts.is_file && facts.len == expected_size
}

/// Whether a file could be a volume, so that its digest is worth computing.
pub fn is_candidate(found: Option<FileFacts>, part: &ArchivePart) -> (yes: bool)
    ensures
        yes == may_be_volume(found, part.expected_size),
{
    match found {
        Some(facts) => facts.is_file && facts.len == part.expected_size,
        None => false,
    }
}

/// Whether a file is a volume: it has the size, and the digest, in small
/// letters.
pub fn is_trusted_archive_file(
    found: Option<FileFacts>,
    digest: &Option<String>,
    part: &ArchivePart,
) -> (yes: bool)
    ensures
        yes == (may_be_volume(found, part.expected_size) && (digest matches Some(text) && text@
            == text::lowered(part.expected_md5@))),
{
    if !is_candidate(found, part) {
        return false;
    }
    match digest {
        Some(found_digest) => {
            let expected = text::ascii_lowercase(part.expected_md5.as_str());
            text::same_string(found_digest, &expected)
        },
        None => false,
    }
}

/// A change of a file.
pub enum FileStep {
    /// Put a finished partial file in place.
    Promote { from: FilePath, to: FilePath },
    /// Remove a file, if it is there.
    Remove { path: FilePath },
}

/// A change of a file in the mathematical model.
pub enum FileChange {
    Promote { from: PathModel, to: PathModel },
    Remove { path: PathModel },
}

impl View for FileStep {
    type V = FileChange;

    open spec fn view(&self) -> FileChange {
        match self {
            FileStep::Promote { from, to } => FileChange::Promote { from: from@, to: to@ },
            FileStep::Remove { path } => FileChange::Remove { path: path@ },
        }
    }
}

/// The changes of a list.
pub open spec fn changes(steps: Seq<FileStep>) -> Seq<FileChange> {
    Seq::new(steps.len(), |i: int| steps[i]@)
}

/// What is done with the files of an earlier run for one volume. A volume that
/// can be trusted stays; else a partial file that can be trusted takes its
/// place; else the volume is removed. No partial file stays.
pub open spec fn trust_changes(
    dest: PathModel,
    partial: PathModel,
    volume_partial: PathModel,
    dest_trusted: bool,
    partial_trusted: bool,
    volume_partial_trusted: bool,
) -> Seq<FileChange> {
    let cleared = seq![
        FileChange::Remove { path: partial },
        FileChange::Remove { path: volume_partial },
    ];
    if dest_trusted {
        cleared
    } else if partial_trusted {
        seq![FileChange::Promote { from: partial, to: dest }] + cleared
    } else if volume_partial_trusted {
        seq![FileChange::Promote { from: volume_partial, to: dest }] + cleared
    } else {
        cleared.push(FileChange::Remove { path: dest })
    }
}

/// What is done with the files of an earlier run for one volume.
pub fn prepare_trusted_archive_file(
    dest: &FilePath,
    dest_trusted: bool,
    partial_trusted: bool,
    volume_partial_trusted: bool,
) -> (result: Result<Vec<FileStep>, Message>)
    ensures
        match (
            files::neighbour(dest@, ".griffr.part"@),
            files::volume_temp(dest@),
        ) {
            (Ok(partial), Ok(volume_partial)) => result matches Ok(steps) && changes(steps@)
                == trust_changes(
                dest@,
                partial,
                volume_partial,
                dest_trusted,
                partial_trusted,
                volume_partial_trusted,
            ),
            (Err(detail), _) => result matches Err(message) && message.context@
                == "Invalid path: "@ && message.detail@ == detail,
            (_, Err(detail)) => result matches Err(message) && message.context@
                == "Invalid path: "@ && message.detail@ == detail,
        },
{
    let partial = match files::make_partial_download_path(dest) {
        Ok(path) => path,
        Err(message) => {
            return Err(message);
        },
    };
    let volume_partial = match files::volume_temp_path(dest) {
        Ok(path) => path,
        Err(message) => {
            return Err(message);
        },
    };
    let mut steps: Vec<FileStep> = Vec::new();
    if !dest_trusted {
        if partial_trusted {
            steps.push(FileStep::Promote { from: partial.copied(), to: dest.copied() });
        } else if volume_partial_trusted {
            steps.push(FileStep::Promote { from: volume_partial.copied(), to: dest.copied() });
        }
    }
    steps.push(FileStep::Remove { path: partial.copied() });
    steps.push(FileStep::Remove { path: volume_partial.copied() });
    if !dest_trusted && !partial_trusted && !volume_partial_trusted {
        steps.push(FileStep::Remove { path: dest.copied() });
    }
    assert(changes(steps@) =~= trust_changes(
        dest@,
        partial@,
        volume_partial@,
        dest_trusted,
        partial_trusted,
        volume_partial_trusted,
    ));
    Ok(steps)
}

/// A volume that can be trusted, or has a trusted partial file, is never
/// removed.
pub proof fn law_trusted_volumes_stay(
    dest: PathModel,
    partial: PathModel,
    volume_partial: PathModel,
    dest_trusted: bool,
    partial_trusted: bool,
    volume_partial_trusted: bool,
)
    requires
        dest_trusted || partial_trusted || volume_partial_trusted,
        dest != partial,
        dest != volume_partial,
    ensures
        !trust_changes(
            dest,
            partial,
            volume_partial,
            dest_trusted,
            partial_trusted,
            volume_partial_trusted,
        ).contains(FileChange::Remove { path: dest }),
{
}

} // verus!
