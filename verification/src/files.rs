//! The names of the files that the pool keeps beside the files it works on,
//! and how files on one volume or two are reused.

use crate::error::Message;
use crate::path::{FilePath, PathModel};
use crate::text;
use vstd::prelude::*;

verus! {

/// The neighbour of a path whose name is the name of the path between a dot
/// and an ending, or what keeps the path from having one.
pub open spec fn neighbour(path: PathModel, ending: Seq<char>) -> Result<PathModel, Seq<char>> {
    match path.parent() {
        None => Err("Destination path has no parent: "@ + path.text()),
        Some(parent) => match path.file_name() {
            None => Err("Destination path has no file name: "@ + path.text()),
            Some(name) => Ok(parent.child("."@ + name + ending)),
        },
    }
}

/// Whether a result is the one of the model, errors being about a path.
pub open spec fn is_neighbour(
    result: Result<FilePath, Message>,
    model: Result<PathModel, Seq<char>>,
) -> bool {
    match (result, model) {
        (Ok(path), Ok(wanted)) => path@ == wanted,
        (Err(message), Err(detail)) => message.context@ == "Invalid path: "@ && message.detail@
            == detail,
        _ => false,
    }
}

fn make_neighbour(path: &FilePath, ending: &str) -> (result: Result<FilePath, Message>)
    ensures
        is_neighbour(result, neighbour(path@, ending@)),
{
    let parent = match path.parent() {
        Some(parent) => parent,
        None => {
            let mut detail = "Destination path has no parent: ".to_owned();
            text::push_text(&mut detail, path.text().as_str());
            return Err(Message::new("Invalid path: ", detail));
        },
    };
    match path.file_name() {
        Some(name) => {
            let mut hidden = ".".to_owned();
            text::push_text(&mut hidden, name.as_str());
            text::push_text(&mut hidden, ending);
            Ok(parent.child(hidden.as_str()))
        },
        None => {
            let mut detail = "Destination path has no file name: ".to_owned();
            text::push_text(&mut detail, path.text().as_str());
            Err(Message::new("Invalid path: ", detail))
        },
    }
}

/// Where a download is kept until it is whole.
pub fn make_partial_download_path(path: &FilePath) -> (result: Result<FilePath, Message>)
    ensures
        is_neighbour(result, neighbour(path@, ".griffr.part"@)),
{
    make_neighbour(path, ".griffr.part")
}

/// Where a volume that is retained is assembled, or what keeps it from having
/// such a place.
pub open spec fn volume_temp(path: PathModel) -> Result<PathModel, Seq<char>> {
    match neighbour(path, ".griffr-volume.part"@) {
        Ok(temp) => Ok(temp),
        Err(_) => Err("archive volume has no filename: "@ + path.text()),
    }
}

/// Where a volume that is retained is assembled.
pub fn volume_temp_path(path: &FilePath) -> (result: Result<FilePath, Message>)
    ensures
        is_neighbour(result, volume_temp(path@)),
{
    match make_neighbour(path, ".griffr-volume.part") {
        Ok(temp) => Ok(temp),
        Err(_) => {
            let mut detail = "archive volume has no filename: ".to_owned();
            text::push_text(&mut detail, path.text().as_str());
            Err(Message::new("Invalid path: ", detail))
        },
    }
}

/// The ending of a file that is written before it takes its place.
pub open spec fn temp_ending(process: u32, counter: usize) -> Seq<char> {
    ".griffr.tmp."@ + text::decimal(process as nat) + "."@ + text::decimal(counter as nat)
}

/// Where a file is written before it takes its place. The process and a
/// counter keep the names of concurrent writers apart.
pub fn make_temp_write_path(path: &FilePath, process: u32, counter: usize) -> (result: Result<
    FilePath,
    Message,
>)
    ensures
        is_neighbour(result, neighbour(path@, temp_ending(process, counter))),
{
    let mut ending = ".griffr.tmp.".to_owned();
    text::push_decimal(&mut ending, process as u64);
    text::push_text(&mut ending, ".");
    text::push_size(&mut ending, counter);
    make_neighbour(path, ending.as_str())
}

/// The directory in which an archive is unpacked.
pub open spec fn staging_dir(
    dest: PathModel,
    base_name: Seq<char>,
    work_dir: Option<PathModel>,
    process: u32,
    counter: usize,
) -> PathModel {
    let parent = match work_dir {
        Some(dir) => dir,
        None => match dest.parent() {
            Some(dir) => dir,
            None => dest,
        },
    };
    parent.child(
        ".griffr.extract."@ + base_name + "."@ + text::decimal(process as nat) + "."@
            + text::decimal(counter as nat),
    )
}

/// The view of an optional path.
pub open spec fn optional_path(path: Option<FilePath>) -> Option<PathModel> {
    match path {
        Some(inner) => Some(inner@),
        None => None,
    }
}

/// The directory in which an archive is unpacked: in the work directory where
/// there is one, else beside the destination.
pub fn make_extract_staging_dir(
    dest: &FilePath,
    base_name: &str,
    work_dir: &Option<FilePath>,
    process: u32,
    counter: usize,
) -> (path: FilePath)
    ensures
        path@ == staging_dir(dest@, base_name@, optional_path(*work_dir), process, counter),
{
    let parent = match work_dir {
        Some(dir) => dir.copied(),
        None => match dest.parent() {
            Some(dir) => dir,
            None => dest.copied(),
        },
    };
    let mut name = ".griffr.extract.".to_owned();
    text::push_text(&mut name, base_name);
    text::push_text(&mut name, ".");
    text::push_decimal(&mut name, process as u64);
    text::push_text(&mut name, ".");
    text::push_size(&mut name, counter);
    parent.child(name.as_str())
}

/// Where the result of a difference is written in a work directory.
pub open spec fn patch_work_path(
    work_dir: PathModel,
    destination: PathModel,
    counter: usize,
) -> PathModel {
    let name = match destination.file_name() {
        Some(name) => name,
        None => "patch-output"@,
    };
    work_dir.child("."@ + name + ".griffr-patch-"@ + text::decimal(counter as nat) + ".tmp"@)
}

/// Where the result of a difference is written in a work directory.
pub fn make_patch_work_path(work_dir: &FilePath, destination: &FilePath, counter: usize) -> (path:
    FilePath)
    ensures
        path@ == patch_work_path(work_dir@, destination@, counter),
{
    let mut name = ".".to_owned();
    match destination.file_name() {
        Some(found) => {
            text::push_text(&mut name, found.as_str());
        },
        None => {
            text::push_text(&mut name, "patch-output");
        },
    }
    text::push_text(&mut name, ".griffr-patch-");
    text::push_size(&mut name, counter);
    text::push_text(&mut name, ".tmp");
    work_dir.child(name.as_str())
}

/// The `k`th path on the way up from a path: the path itself, its parent, and so
/// on.
pub open spec fn ancestor(path: PathModel, k: int) -> PathModel {
    PathModel { absolute: path.absolute, parts: path.parts.take(path.parts.len() - k) }
}

/// The first of the paths from the `k`th on that exists.
pub open spec fn nearest(exists: Seq<bool>, k: int) -> Option<int>
    decreases exists.len() - k,
{
    if k < 0 || k >= exists.len() {
        None
    } else if exists[k] {
        Some(k)
    } else {
        nearest(exists, k + 1)
    }
}

/// The path at which a volume is asked for, given which paths on the way up
/// exist: the nearest that does.
pub open spec fn probe_of(path: PathModel, exists: Seq<bool>) -> Option<PathModel> {
    match nearest(exists, 0) {
        Some(k) => Some(ancestor(path, k)),
        None => None,
    }
}

/// The paths on the way up from a path.
pub fn ancestors(path: &FilePath) -> (list: Vec<FilePath>)
    ensures
        list@.len() == path@.parts.len() + 1,
        forall|k: int| 0 <= k < list@.len() ==> (#[trigger] list@[k])@ == ancestor(path@, k),
{
    let mut list: Vec<FilePath> = Vec::new();
    let mut at = path.copied();
    assert(ancestor(path@, 0).parts =~= path@.parts);
    loop
        invariant
            list@.len() <= path@.parts.len(),
            at@ == ancestor(path@, list@.len() as int),
            forall|k: int| 0 <= k < list@.len() ==> (#[trigger] list@[k])@ == ancestor(path@, k),
        decreases at@.parts.len(),
    {
        match at.parent() {
            Some(up) => {
                assert(up@.parts =~= ancestor(path@, list@.len() as int + 1).parts);
                list.push(at);
                at = up;
            },
            None => {
                list.push(at);
                return list;
            },
        }
    }
}

/// The path at which the volume of a path is asked for, given which of the paths
/// on the way up exist.
pub fn existing_volume_probe(path: &FilePath, exists: &Vec<bool>) -> (probe: Option<FilePath>)
    requires
        exists@.len() == path@.parts.len() + 1,
    ensures
        match probe {
            Some(found) => probe_of(path@, exists@) == Some(found@),
            None => probe_of(path@, exists@) is None,
        },
{
    let mut at = path.copied();
    assert(ancestor(path@, 0).parts =~= path@.parts);
    let mut k: usize = 0;
    while k < exists.len()
        invariant
            exists@.len() == path@.parts.len() + 1,
            k <= exists@.len(),
            k < exists@.len() ==> at@ == ancestor(path@, k as int),
            nearest(exists@, 0) == nearest(exists@, k as int),
        decreases exists@.len() - k,
    {
        if exists[k] {
            return Some(at);
        }
        if let Some(up) = at.parent() {
            assert(up@.parts =~= ancestor(path@, k + 1).parts);
            at = up;
        }
        k = k + 1;
    }
    None
}

/// The identity of the volume that a path lies on. Where the disk does not
/// tell it, it is the first component of the path, in small letters.
pub open spec fn volume_key(path: PathModel, id: Option<Seq<char>>) -> Seq<char> {
    match id {
        Some(known) => known,
        None => if path.absolute {
            "/"@
        } else if path.parts.len() > 0 {
            text::lowered(path.parts[0])
        } else {
            Seq::empty()
        },
    }
}

/// The identity of the volume that a path lies on, given what the disk tells
/// of it.
pub fn storage_volume_key(path: &FilePath, id: &Option<String>) -> (key: String)
    ensures
        key@ == volume_key(path@, text::optional(*id)),
{
    match id {
        Some(known) => known.clone(),
        None => {
            if path.absolute {
                "/".to_owned()
            } else if path.parts.len() > 0 {
                text::ascii_lowercase(path.parts[0].as_str())
            } else {
                String::new()
            }
        },
    }
}

/// The key of a path on a disk that tells the identity of the volume of what
/// exists.
pub open spec fn disk_key(
    path: PathModel,
    exists: Seq<bool>,
    id: spec_fn(PathModel) -> Option<Seq<char>>,
) -> Seq<char> {
    volume_key(
        path,
        match probe_of(path, exists) {
            Some(probe) => id(probe),
            None => None,
        },
    )
}

/// A path and the nearest path above it that exists have one key, unless that
/// is the empty path and the disk does not tell its volume.
pub proof fn law_path_shares_the_key_of_its_probe(
    path: PathModel,
    exists: Seq<bool>,
    k: int,
    id: spec_fn(PathModel) -> Option<Seq<char>>,
)
    requires
        exists.len() == path.parts.len() + 1,
        nearest(exists, 0) == Some(k),
        id(ancestor(path, k)) is Some || path.absolute || k < path.parts.len(),
    ensures
        disk_key(ancestor(path, k), exists.skip(k), id) == disk_key(path, exists, id),
{
    lemma_nearest(exists, 0);
    let up = ancestor(path, k);
    assert(exists.skip(k)[0]);
    assert(ancestor(up, 0).parts =~= up.parts);
    if !path.absolute && id(up) is None {
        assert(up.parts[0] == path.parts[0]);
    }
}

proof fn lemma_nearest(exists: Seq<bool>, k: int)
    requires
        0 <= k,
    ensures
        nearest(exists, k) matches Some(found) ==> k <= found < exists.len() && exists[found],
    decreases exists.len() - k,
{
    if k < exists.len() && !exists[k] {
        lemma_nearest(exists, k + 1);
    }
}

/// How a file may be reused.
#[derive(Clone, Copy, PartialEq, Eq, Structural, Debug)]
pub enum ReuseMode {
    HardlinkPreferred,
    CopyOnly,
}

/// How a file may be reused at a destination. Only volumes that are known to
/// differ force a copy: where one is not known, a hard link is tried first.
pub fn classify_reuse_mode(
    source_volume: &Option<String>,
    destination_volume: &Option<String>,
) -> (mode: ReuseMode)
    ensures
        mode is CopyOnly <==> source_volume is Some && destination_volume is Some
            && source_volume->0@ != destination_volume->0@,
{
    if let (Some(source), Some(destination)) = (source_volume, destination_volume) {
        if !text::same_string(source, destination) {
            return ReuseMode::CopyOnly;
        }
    }
    ReuseMode::HardlinkPreferred
}

/// Temporary files lie in the directory of the file that they become.
pub proof fn law_neighbours_share_the_directory(path: PathModel, ending: Seq<char>)
    requires
        neighbour(path, ending) is Ok,
    ensures
        neighbour(path, ending)->Ok_0.parent() == path.parent(),
{
    let parent = path.parent()->0;
    let made = neighbour(path, ending)->Ok_0;
    assert(made.parts.drop_last() =~= parent.parts);
}

} // verus!
