//! Which volumes make up an archive, where they are kept, and what is done with
//! each of them.

use crate::archive::batches;
use crate::archive::batches::{CommitNode, CommitTask, Inspected};
use crate::archive::cache;
use crate::archive::cache::FileChange;
use crate::archive::finish;
use crate::archive::groups;
use crate::archive::groups::{ArchiveGroup, PackFile};
use crate::archive::parts;
use crate::archive::parts::PartModel;
use crate::archive::repair;
use crate::archive::repair::{ArchiveRepairSession, GroupState};
use crate::archive::work;
use crate::archive::work::ArchiveSettings;
use crate::commit::CommitFileJob;
use crate::event::{TaskOutcome, WorkerEvent};
use crate::graph::expansion;
use crate::graph::expansion::TaskRun;
use crate::graph::node::TaskDependencyToken;
use crate::number;
use crate::ordered;
use crate::path::PathModel;
use crate::reuse::ReuseEnd;
use crate::task::{ArchiveFileRepairTask, ArchiveWork, Task};
use crate::text;
use crate::text_laws;
use std::sync::Arc;
use vstd::prelude::*;

verus! {

/// The name of a file on a server is what follows the last slash of its URL. A URL
/// that ends in a slash names none.
pub proof fn law_urls_end_in_their_name(lead: Seq<char>, name: Seq<char>)
    requires
        !name.contains('/'),
    ensures
        name.len() > 0 ==> groups::url_file_name(lead.push('/') + name) == Some(name)
            && groups::url_file_name(name) == Some(name),
        name.len() == 0 ==> groups::url_file_name(lead.push('/') + name) is None
            && groups::url_file_name(name) is None,
{
    text_laws::lemma_split_after_separator(lead, '/', name);
    text_laws::lemma_split_of_piece(name, '/');
}

/// A file with a name that ends in `.zip` is the first volume of the archive of the
/// name before it, and one with a number behind it is the volume of that number.
/// No other file is a volume.
pub proof fn law_volumes_are_named_after_their_archive(
    name: Seq<char>,
    base: Seq<char>,
    digits: Seq<char>,
)
    ensures
        base.len() > 0 ==> groups::volume_name(base + ".zip"@) == Some((base, "0"@)),
        base.len() > 0 && number::is_number(digits) ==> groups::volume_name(
            base + ".zip."@ + digits,
        ) == Some((base, digits)),
        groups::volume_name(name) == Some((base, digits)) ==> base.len() > 0 && (name == base
            + ".zip"@ && digits == "0"@ || name == base + ".zip."@ + digits && number::is_number(
            digits,
        )),
{
    reveal_strlit(".zip");
    reveal_strlit(".zip.");
    reveal_strlit("0");
    if base.len() > 0 {
        let whole = base + ".zip"@;
        assert(whole.skip(whole.len() - 4) =~= ".zip"@);
        assert(whole.take(whole.len() - 4) =~= base);
        assert(groups::volume_name(whole) == Some((base, "0"@)));
        if number::is_number(digits) {
            let numbered = base + ".zip."@ + digits;
            let rest = base + ".zip"@;
            assert(numbered =~= rest.push('.') + digits);
            assert(!digits.contains('.'));
            text_laws::lemma_split_after_separator(rest, '.', digits);
            text::lemma_split_is_not_empty(rest, '.');
            assert(text::split_on(numbered, '.').last() == digits);
            assert(numbered.last() == digits.last());
            assert('0' <= digits[digits.len() - 1] <= '9');
            assert(numbered.skip(numbered.len() - 4)[3] == digits[digits.len() - 1]);
            assert(".zip"@[3] == 'p');
            assert(numbered.take(numbered.len() - digits.len() - 1) =~= rest);
        }
    }
    if groups::volume_name(name) == Some((base, digits)) {
        text_laws::law_pieces_make_up_the_text(name, '.');
        let pieces = text::split_on(name, '.');
        if name.len() > 4 && name.skip(name.len() - 4) == ".zip"@ {
            assert(name =~= name.take(name.len() - 4) + name.skip(name.len() - 4));
        } else {
            let rest = name.take(name.len() - digits.len() - 1);
            assert(name =~= crate::path::joined(pieces.drop_last(), seq!['.']) + seq!['.']
                + pieces.last());
            assert(name =~= rest.push('.') + digits);
            assert(rest =~= rest.take(rest.len() - 4) + rest.skip(rest.len() - 4));
            assert(name =~= base + ".zip."@ + digits);
        }
    }
}

proof fn lemma_arranged_holds_the_same(from: Seq<PartModel>, to: Seq<PartModel>, part: PartModel)
    requires
        parts::arranged(from, to),
    ensures
        to.contains(part) <==> from.contains(part),
{
    let pred = |p: PartModel| p.sequence == part.sequence && p.logical_path == part.logical_path;
    let a = parts::of_key(from, part.sequence, part.logical_path);
    let b = parts::of_key(to, part.sequence, part.logical_path);
    assert(a == b);
    assert(a == from.filter(pred));
    assert(b == to.filter(pred));
    if to.contains(part) {
        let i = choose|i: int| 0 <= i < to.len() && to[i] == part;
        to.lemma_filter_contains(pred, i);
        from.lemma_filter_contains_rev(pred, part);
    }
    if from.contains(part) {
        let i = choose|i: int| 0 <= i < from.len() && from[i] == part;
        from.lemma_filter_contains(pred, i);
        to.lemma_filter_contains_rev(pred, part);
    }
}

proof fn lemma_parts_of(
    packs: Seq<PackFile>,
    k: int,
    base: Seq<char>,
    archive_dir: PathModel,
    part: PartModel,
)
    requires
        0 <= k <= packs.len(),
    ensures
        groups::parts_of(packs, k, base, archive_dir).contains(part) <==> is_pack_of(
            packs,
            k,
            base,
            archive_dir,
            part,
        ),
    decreases k,
{
    let all = groups::parts_of(packs, k, base, archive_dir);
    if k > 0 {
        lemma_parts_of(packs, k - 1, base, archive_dir, part);
        let before = groups::parts_of(packs, k - 1, base, archive_dir);
        if is_pack_of(packs, k, base, archive_dir, part) {
            let i = choose|i: int|
                0 <= i < k && #[trigger] packs[i].base() == base && packs[i].part(archive_dir)
                    == part;
            if i < k - 1 {
                assert(is_pack_of(packs, k - 1, base, archive_dir, part));
                let j = choose|j: int| 0 <= j < before.len() && before[j] == part;
                assert(all[j] == part);
            } else {
                assert(all.last() == part);
            }
        }
        if all.contains(part) {
            let j = choose|j: int| 0 <= j < all.len() && all[j] == part;
            if j < before.len() {
                assert(before[j] == part);
            } else {
                assert(packs[k - 1].base() == base);
            }
        }
    }
}

/// Whether a part stands for one of the first listed files that belong to an
/// archive.
pub open spec fn is_pack_of(
    packs: Seq<PackFile>,
    k: int,
    base: Seq<char>,
    archive_dir: PathModel,
    part: PartModel,
) -> bool {
    exists|i: int|
        0 <= i < k && #[trigger] packs[i].base() == base && packs[i].part(archive_dir) == part
}

/// Every listed volume belongs to one group, that of its archive, and is to be
/// downloaded from its URL, beside the others, and to be checked against its
/// digest and size.
pub proof fn law_every_volume_is_in_its_group(
    packs: Seq<PackFile>,
    archive_dir: PathModel,
    all: Seq<ArchiveGroup>,
    i: int,
)
    requires
        groups::are_groups(packs, archive_dir, all),
        0 <= i < packs.len(),
    ensures
        exists|g: int|
            0 <= g < all.len() && (#[trigger] all[g]).base_name@ == packs[i].base()
                && holds_volume(all[g], packs[i], archive_dir),
        forall|g: int, h: int|
            0 <= g < all.len() && 0 <= h < all.len() && (#[trigger] all[g]).base_name@ == (
            #[trigger] all[h]).base_name@ ==> g == h,
{
    let base = packs[i].base();
    assert(groups::has_base(packs, packs.len() as int, base));
    let g = choose|g: int| 0 <= g < all.len() && (#[trigger] all[g]).base_name@ == base;
    let part = packs[i].part(archive_dir);
    lemma_parts_of(packs, packs.len() as int, base, archive_dir, part);
    let views = parts::part_views(all[g].parts@);
    lemma_arranged_holds_the_same(
        groups::parts_of(packs, packs.len() as int, base, archive_dir),
        views,
        part,
    );
    let j = choose|j: int| 0 <= j < views.len() && views[j] == part;
    assert(all[g].parts@[j]@ == part);
    assert(archive_dir.child(part.logical_path).parts.drop_last() =~= archive_dir.parts);
    assert(holds_volume(all[g], packs[i], archive_dir));
    assert forall|g: int, h: int|
        0 <= g < all.len() && 0 <= h < all.len() && (#[trigger] all[g]).base_name@ == (
        #[trigger] all[h]).base_name@ implies g == h by {
        if g < h {
            ordered::law_text_order_is_total(all[g].base_name@, all[h].base_name@);
        } else if h < g {
            ordered::law_text_order_is_total(all[h].base_name@, all[g].base_name@);
        }
    }
}

/// Whether a group holds a volume that comes from the URL of a listed file, has its
/// digest and its size, and is to lie in a directory.
pub open spec fn holds_volume(group: ArchiveGroup, pack: PackFile, archive_dir: PathModel) -> bool {
    exists|j: int|
        0 <= j < group.parts@.len() && (#[trigger] group.parts@[j]).url@ == pack.url@
            && group.parts@[j].expected_md5@ == pack.md5@ && (number::parsed_unsigned(
            pack.package_size@,
        ) matches Some(size) ==> group.parts@[j].expected_size == size)
            && group.parts@[j].dest@.parent() == Some(archive_dir)
}

/// A group holds no volume but the listed ones of its archive, and holds them in the
/// order of their numbers.
pub proof fn law_groups_hold_their_volumes_in_order(
    packs: Seq<PackFile>,
    archive_dir: PathModel,
    all: Seq<ArchiveGroup>,
    g: int,
    j: int,
    k: int,
)
    requires
        groups::are_groups(packs, archive_dir, all),
        0 <= g < all.len(),
        0 <= j < all[g].parts@.len(),
    ensures
        exists|i: int|
            0 <= i < packs.len() && (#[trigger] packs[i]).base() == all[g].base_name@
                && packs[i].url@ == all[g].parts@[j].url@ && packs[i].md5@
                == all[g].parts@[j].expected_md5@,
        j < k < all[g].parts@.len() ==> all[g].parts@[j].sequence <= all[g].parts@[k].sequence,
{
    let base = all[g].base_name@;
    let views = parts::part_views(all[g].parts@);
    let part = views[j];
    assert(views.contains(part));
    lemma_arranged_holds_the_same(
        groups::parts_of(packs, packs.len() as int, base, archive_dir),
        views,
        part,
    );
    lemma_parts_of(packs, packs.len() as int, base, archive_dir, part);
    let i = choose|i: int|
        0 <= i < packs.len() && #[trigger] packs[i].base() == base && packs[i].part(archive_dir)
            == part;
    assert(packs[i].base() == base);
    if j < k < all[g].parts@.len() {
        assert(!parts::part_less(views[k], views[j]));
    }
}

/// Volumes are kept under a name of safe characters alone, as long as the name they
/// were made from; a name of safe characters is kept as it is.
pub proof fn law_cache_keys_are_safe(name: Seq<char>, i: int)
    requires
        0 <= i < name.len(),
    ensures
        cache::cache_key(name).len() == name.len(),
        is_safe(cache::cache_key(name)[i]),
        is_safe(name[i]) ==> cache::cache_key(name)[i] == name[i],
        !is_safe(name[i]) ==> cache::cache_key(name)[i] == '_',
{
}

/// Whether a character may stand in the name of a directory everywhere.
pub open spec fn is_safe(c: char) -> bool {
    ('a' <= c && c <= 'z') || ('A' <= c && c <= 'Z') || ('0' <= c && c <= '9') || c == '-' || c
        == '_' || c == '.'
}

/// What an archive is known by depends on the digests and sizes of its volumes
/// alone, in their order.
pub proof fn law_archives_are_known_by_their_contents(a: Seq<PartModel>, b: Seq<PartModel>)
    requires
        a.len() == b.len(),
        forall|i: int|
            0 <= i < a.len() ==> (#[trigger] a[i]).expected_md5 == b[i].expected_md5
                && a[i].expected_size == b[i].expected_size,
    ensures
        cache::identity(a) == cache::identity(b),
{
    lemma_identity(a, b, a.len() as int);
}

proof fn lemma_identity(a: Seq<PartModel>, b: Seq<PartModel>, k: int)
    requires
        0 <= k <= a.len() == b.len(),
        forall|i: int|
            0 <= i < a.len() ==> (#[trigger] a[i]).expected_md5 == b[i].expected_md5
                && a[i].expected_size == b[i].expected_size,
    ensures
        cache::identity_bytes(a, k) == cache::identity_bytes(b, k),
    decreases k,
{
    if k > 0 {
        lemma_identity(a, b, k - 1);
        assert(a[k - 1].expected_md5 == b[k - 1].expected_md5);
    }
}

/// The bytes an archive is known by begin with those of its first volumes: each
/// volume adds its digest and its size.
pub proof fn law_every_volume_adds_to_the_identity(parts: Seq<PartModel>, k: int)
    requires
        0 <= k < parts.len(),
    ensures
        cache::identity_bytes(parts, k + 1) == cache::identity_bytes(parts, k)
            + vstd::utf8::encode_utf8(parts[k].expected_md5) + vstd::bytes::spec_u64_to_le_bytes(
            parts[k].expected_size,
        ),
        cache::identity_bytes(parts, 0).len() == 0,
{
}

/// The pieces of an archive are kept beside its first volume, in the directory for
/// such pieces.
pub proof fn law_pieces_are_kept_beside_the_volumes(
    base_name: Seq<char>,
    parts: Seq<PartModel>,
    dest: PathModel,
)
    requires
        parts.len() > 0,
    ensures
        ({
            let dir = cache::cache_dir(base_name, parts, dest);
            let above = dir.parent()->0;
            &&& dir.parent() is Some
            &&& above.file_name() == Some(".griffr-range-cache"@)
            &&& above.parent() == match parts[0].dest.parent() {
                Some(parent) => Some(parent),
                None => Some(dest),
            }
        }),
{
    let beside = match parts[0].dest.parent() {
        Some(parent) => parent,
        None => dest,
    };
    let above = beside.child(".griffr-range-cache"@);
    let key = cache::cache_key(base_name) + "-"@ + cache::identity(parts).take(16);
    reveal_strlit(".griffr-range-cache");
    assert(above.child(key).parts.drop_last() =~= above.parts);
    assert(above.parts.drop_last() =~= beside.parts);
    assert(".griffr-range-cache"@[1] == 'g');
    assert(seq!['.', '.'][1] == '.');
}

/// A volume in its place is left there if it can be trusted. If it cannot, one of
/// the partial files that can be trusted takes its place, and without any the
/// volume is removed. No partial file is left.
pub proof fn law_only_trusted_volumes_are_kept(
    dest: PathModel,
    partial: PathModel,
    volume_partial: PathModel,
    dest_trusted: bool,
    partial_trusted: bool,
    volume_partial_trusted: bool,
    from: PathModel,
)
    requires
        dest != partial,
        dest != volume_partial,
        partial != volume_partial,
    ensures
        ({
            let all = cache::trust_changes(
                dest,
                partial,
                volume_partial,
                dest_trusted,
                partial_trusted,
                volume_partial_trusted,
            );
            &&& all.contains(FileChange::Remove { path: dest }) <==> !dest_trusted
                && !partial_trusted && !volume_partial_trusted
            &&& all.contains(FileChange::Promote { from, to: dest }) <==> !dest_trusted && (from
                == partial && partial_trusted || from == volume_partial && volume_partial_trusted
                && !partial_trusted)
            &&& all.contains(FileChange::Remove { path: partial })
            &&& all.contains(FileChange::Remove { path: volume_partial })
            &&& all[0] is Promote || forall|i: int| 0 <= i < all.len() ==> all[i] is Remove
        }),
{
    let all = cache::trust_changes(
        dest,
        partial,
        volume_partial,
        dest_trusted,
        partial_trusted,
        volume_partial_trusted,
    );
    if dest_trusted {
        assert(all[0] == FileChange::Remove { path: partial });
        assert(all[1] == FileChange::Remove { path: volume_partial });
    } else if partial_trusted || volume_partial_trusted {
        assert(all[0] is Promote);
        assert(all[1] == FileChange::Remove { path: partial });
        assert(all[2] == FileChange::Remove { path: volume_partial });
    } else {
        assert(all[0] == FileChange::Remove { path: partial });
        assert(all[1] == FileChange::Remove { path: volume_partial });
        assert(all[2] == FileChange::Remove { path: dest });
    }
}

/// An archive that is opened has every listed volume, in the order of their numbers,
/// and waits for none.
pub proof fn law_opened_archives_have_every_volume(
    archive: ArchiveWork,
    base_name: Seq<char>,
    listed: Seq<PartModel>,
    settings: ArchiveSettings,
    part: PartModel,
    i: int,
    j: int,
)
    requires
        work::is_remote_work(archive, base_name, listed, settings),
    ensures
        listed.contains(part) <==> exists|k: int|
            0 <= k < archive.parts@.len() && (#[trigger] archive.parts@[k])@ == part,
        0 <= i < j < archive.parts@.len() ==> archive.parts@[i].sequence
            <= archive.parts@[j].sequence,
        archive.volumes@.len() == archive.parts@.len(),
        0 <= i < archive.parts@.len() ==> archive.volumes@[i]@ == archive.parts@[i].dest@,
        archive.dest@ == settings.dest@ && archive.retention == settings.retention,
        forall|k: int|
            0 <= k < archive.tokens@.len() ==> (#[trigger] archive.tokens@[k]) is None,
        archive.remote && archive.repair_group is None,
{
    let views = parts::part_views(archive.parts@);
    lemma_arranged_holds_the_same(listed, views, part);
    if views.contains(part) {
        let k = choose|k: int| 0 <= k < views.len() && views[k] == part;
        assert(archive.parts@[k]@ == part);
    }
    if exists|k: int| 0 <= k < archive.parts@.len() && (#[trigger] archive.parts@[k])@ == part {
        let k = choose|k: int|
            0 <= k < archive.parts@.len() && (#[trigger] archive.parts@[k])@ == part;
        assert(views[k] == part);
    }
    if 0 <= i < j < archive.parts@.len() {
        assert(!parts::part_less(views[j], views[i]));
    }
    assert(work::path_views(archive.volumes@).len() == archive.volumes@.len());
    if 0 <= i < archive.parts@.len() {
        assert(work::path_views(archive.volumes@)[i] == work::dests(views)[i]);
    }
}

/// An archive that files are repaired out of has every listed volume too, keeps none
/// of them, and keeps what it fetches in a directory of its own.
pub proof fn law_repair_archives_keep_no_volume(
    archive: ArchiveWork,
    base_name: Seq<char>,
    listed: Seq<PartModel>,
    settings: ArchiveSettings,
    group: usize,
    part: PartModel,
    i: int,
)
    requires
        work::is_repair_work(archive, base_name, listed, settings, group),
    ensures
        archive.retention is DiscardVolumes,
        archive.repair_group == Some(group),
        listed.contains(part) <==> parts::part_views(archive.parts@).contains(part),
        archive.volumes@.len() == archive.parts@.len(),
        0 <= i < archive.volumes@.len() ==> archive.volumes@[i]@.parent() == Some(
            cache::cache_dir(
                base_name,
                parts::part_views(archive.parts@),
                settings.dest@,
            ).child("repair"@),
        ),
{
    let views = parts::part_views(archive.parts@);
    lemma_arranged_holds_the_same(listed, views, part);
    let dir = cache::cache_dir(base_name, views, settings.dest@).child("repair"@);
    assert(work::path_views(archive.volumes@).len() == archive.volumes@.len());
    if 0 <= i < archive.volumes@.len() {
        assert(archive.volumes@[i]@ == work::path_views(archive.volumes@)[i]);
        let name = "volume-"@ + text::padded4(i as nat) + ".full"@;
        assert(archive.volumes@[i]@ == dir.child(name));
        assert(dir.child(name).parts.drop_last() =~= dir.parts);
    }
}

/// What is waited for before a volume is read is what brings it: the tokens of a
/// list of volumes are those of its volumes, and no others.
pub proof fn law_volumes_are_waited_for(
    archive: ArchiveWork,
    indices: Seq<usize>,
    token: TaskDependencyToken,
)
    ensures
        archive.tokens_of(indices, indices.len() as int).contains(token) <==> exists|k: int|
            0 <= k < indices.len() && brings_volume(archive, #[trigger] indices[k] as int, token),
        archive.first_tokens(archive.tokens@.len() as int).contains(token) <==> exists|v: int|
            0 <= v < archive.tokens@.len() && #[trigger] brings_volume(archive, v, token),
{
    lemma_tokens_of(archive, indices, indices.len() as int, token);
    lemma_first_tokens(archive, archive.tokens@.len() as int, token);
}

/// Whether a token is that of the task that brings a volume.
pub open spec fn brings_volume(
    archive: ArchiveWork,
    volume: int,
    token: TaskDependencyToken,
) -> bool {
    volume < archive.tokens@.len() && archive.tokens@[volume] == Some(token)
}

proof fn lemma_tokens_of(
    archive: ArchiveWork,
    indices: Seq<usize>,
    k: int,
    token: TaskDependencyToken,
)
    requires
        0 <= k <= indices.len(),
    ensures
        archive.tokens_of(indices, k).contains(token) <==> exists|i: int|
            0 <= i < k && brings_volume(archive, #[trigger] indices[i] as int, token),
    decreases k,
{
    if k > 0 {
        lemma_tokens_of(archive, indices, k - 1, token);
        let before = archive.tokens_of(indices, k - 1);
        let all = archive.tokens_of(indices, k);
        let last = indices[k - 1] as int;
        if all.contains(token) && !before.contains(token) {
            let j = choose|j: int| 0 <= j < all.len() && all[j] == token;
            assert(j == before.len()) by {
                if j < before.len() {
                    assert(before[j] == token);
                }
            }
            assert(brings_volume(archive, last, token));
        }
        if before.contains(token) {
            let j = choose|j: int| 0 <= j < before.len() && before[j] == token;
            assert(all[j] == token);
        }
        if brings_volume(archive, last, token) {
            assert(all.last() == token);
        }
    }
}

proof fn lemma_first_tokens(
    archive: ArchiveWork,
    k: int,
    token: TaskDependencyToken,
)
    requires
        0 <= k <= archive.tokens@.len(),
    ensures
        archive.first_tokens(k).contains(token) <==> exists|v: int|
            0 <= v < k && #[trigger] brings_volume(archive, v, token),
    decreases k,
{
    if k > 0 {
        lemma_first_tokens(archive, k - 1, token);
        let before = archive.first_tokens(k - 1);
        let all = archive.first_tokens(k);
        if all.contains(token) && !before.contains(token) {
            let j = choose|j: int| 0 <= j < all.len() && all[j] == token;
            assert(j == before.len()) by {
                if j < before.len() {
                    assert(before[j] == token);
                }
            }
            assert(brings_volume(archive, k - 1, token));
        }
        if before.contains(token) {
            let j = choose|j: int| 0 <= j < before.len() && before[j] == token;
            assert(all[j] == token);
        }
        if brings_volume(archive, k - 1, token) {
            assert(all.last() == token);
        }
    }
}

proof fn lemma_states(states: Seq<GroupState>, all: Seq<ArchiveGroup>, k: int)
    requires
        0 <= k <= all.len() == states.len(),
    ensures
        repair::states_after(states, all, k).len() == states.len(),
        forall|i: int|
            0 <= i < states.len() ==> #[trigger] repair::states_after(states, all, k)[i] == if i < k
                && all[i].parts@.len() == 0 {
                GroupState::Failed
            } else {
                states[i]
            },
    decreases k,
{
    if k > 0 {
        lemma_states(states, all, k - 1);
    }
}

proof fn lemma_usable(all: Seq<ArchiveGroup>, i: int, j: int)
    requires
        0 <= i <= j <= all.len(),
    ensures
        0 <= repair::usable(all, i) <= repair::usable(all, j),
        i < j && all[i].parts@.len() > 0 ==> repair::usable(all, i) < repair::usable(all, j),
    decreases j,
{
    if i < j {
        lemma_usable(all, i, j - 1);
    } else if j > 0 {
        lemma_usable(all, i - 1, j - 1);
    }
}

/// When files are to be repaired out of archives, each group with a volume is looked
/// at by a task of its own, which is told the group. A group without volumes, and no
/// other, is given up.
pub proof fn law_every_group_is_looked_at(
    tasks: Seq<Task>,
    all: Seq<ArchiveGroup>,
    session: ArchiveRepairSession,
    states: Seq<GroupState>,
    i: int,
    j: int,
)
    requires
        repair::are_discoveries(tasks, all, all.len() as int, session),
        all.len() == states.len() <= usize::MAX,
        0 <= i < all.len(),
    ensures
        repair::states_after(states, all, all.len() as int)[i] == if all[i].parts@.len() == 0 {
            GroupState::Failed
        } else {
            states[i]
        },
        all[i].parts@.len() > 0 ==> looks_at_group(tasks, all, session, i),
        all[i].parts@.len() > 0 && i < j < all.len() && all[j].parts@.len() > 0 ==> repair::usable(
            all,
            i,
        ) < repair::usable(all, j),
{
    lemma_states(states, all, all.len() as int);
    if all[i].parts@.len() > 0 {
        let t = repair::usable(all, i);
        assert(repair::discovers_group(tasks[t], all[i], session, i));
        let archive = tasks[t]->DiscoverArchiveDirectory_work;
        let settings = choose|settings: ArchiveSettings| #[trigger]
            repair::are_repair_settings(settings, session) && work::is_repair_work(
                *archive,
                all[i].base_name@,
                parts::part_views(all[i].parts@),
                settings,
                i as usize,
            );
        assert(is_repair_of(tasks[t], all, session, i));
        if i < j < all.len() {
            lemma_usable(all, i, j);
        }
    }
}

/// Whether a task looks at a group of volumes, to repair files of the installation
/// out of it.
pub open spec fn is_repair_of(
    task: Task,
    all: Seq<ArchiveGroup>,
    session: ArchiveRepairSession,
    i: int,
) -> bool {
    task matches Task::DiscoverArchiveDirectory { work: archive, required_range }
        && required_range is None && archive.repair_group == Some(i as usize)
        && archive.base_name@ == all[i].base_name@ && archive.dest@ == session.install_root@
        && archive.retention is DiscardVolumes
}

/// Whether some task looks at a group of volumes.
pub open spec fn looks_at_group(
    tasks: Seq<Task>,
    all: Seq<ArchiveGroup>,
    session: ArchiveRepairSession,
    i: int,
) -> bool {
    exists|t: int| 0 <= t < tasks.len() && #[trigger] is_repair_of(tasks[t], all, session, i)
}

/// A group that is indexed is ready if and only if it was awaited; no other group
/// changes.
pub proof fn law_indexed_groups_become_ready(
    after: ArchiveRepairSession,
    before: ArchiveRepairSession,
    group: usize,
    other: int,
)
    requires
        repair::gains(after, before, group),
        group < before.group_states().len(),
    ensures
        after.group_states().len() == before.group_states().len(),
        before.group_states()[group as int] is Pending ==> after.group_states()[group as int]
            is Ready,
        !(before.group_states()[group as int] is Pending) ==> after.group_states()
            == before.group_states(),
        0 <= other < before.group_states().len() && other != group ==> after.group_states()[other]
            == before.group_states()[other],
{
}

/// A file that was repaired is reported with the bytes it took, as changed, and as
/// good.
pub proof fn law_repaired_files_are_reported(
    events: Seq<WorkerEvent>,
    task: ArchiveFileRepairTask,
)
    requires
        repair::reports_repair(events, task),
    ensures
        exists|i: int|
            0 <= i < events.len() && ((#[trigger] events[i]) matches WorkerEvent::Outcome {
                outcome: TaskOutcome::Downloaded { path, bytes },
            } && path@ == task.logical_path@ && bytes == task.source_bytes),
        exists|i: int|
            0 <= i < events.len() && ((#[trigger] events[i]) matches WorkerEvent::Outcome {
                outcome: TaskOutcome::Changed { path },
            } && path@ == task.logical_path@),
        exists|i: int|
            0 <= i < events.len() && ((#[trigger] events[i]) matches WorkerEvent::Outcome {
                outcome: TaskOutcome::Verified { path, ok, .. },
            } && path@ == task.logical_path@ && ok),
{
    assert(events[0] is Outcome);
    assert(events[1] is Outcome);
    assert(events[2] is Outcome);
}

/// A commit writes every batch and verifies each after it was written, and ends after
/// every batch was verified.
pub proof fn law_every_batch_is_written_and_verified(nodes: Seq<CommitNode>, batches: int, b: int)
    requires
        batches::are_commit_tasks(nodes, batches),
        0 <= b < batches <= usize::MAX,
        2 * batches + 1 <= usize::MAX,
    ensures
        exists|w: int, v: int|
            #![trigger nodes[w], nodes[v]]
            0 <= w < v < nodes.len() - 1 && nodes[w].task == (CommitTask::Write {
                batch: b as usize,
            }) && nodes[v].task == (CommitTask::Verify { batch: b as usize })
                && nodes[v].dependencies@.contains(w as usize)
                && nodes.last().dependencies@.contains(v as usize),
        nodes.last().task is Finish,
{
    let w: int = 2 * b;
    assert(batches::commits_batch(nodes, w, b));
    assert(nodes[w + 1].dependencies@[0] == w as usize);
    assert(nodes[2 * batches].dependencies@[b] == 2 * b + 1);
    assert(nodes.last() == nodes[2 * batches]);
    assert(nodes.last().dependencies@[b] == (w + 1) as usize);
    assert(nodes.last().dependencies@.contains((w + 1) as usize));
    let v: int = w + 1;
    assert(nodes[v].dependencies@.contains(w as usize));
    assert(nodes[w].task == (CommitTask::Write { batch: b as usize }));
}

/// Whether a file is reported as good or as bad.
pub open spec fn is_reported(events: Seq<WorkerEvent>, path: Seq<char>, good: bool) -> bool {
    exists|e: int|
        0 <= e < events.len() && ((#[trigger] events[e]) matches WorkerEvent::Outcome {
            outcome: TaskOutcome::Verified { path: p, ok, .. },
        } && p@ == path && ok == good)
}

proof fn lemma_reports(
    events: Seq<WorkerEvent>,
    jobs: Seq<CommitFileJob>,
    found: Seq<Inspected>,
    k: int,
    i: int,
)
    requires
        batches::are_reports(events, jobs, found, k),
        0 <= i < k <= found.len() == jobs.len(),
        !(found[i] is Unexpected),
    ensures
        is_reported(
            events,
            text::replaced(jobs[i].logical_path@.text(), '\\', '/'),
            found[i] is Good,
        ),
    decreases k,
{
    if i < k - 1 {
        if found[k - 1] is Unexpected {
            lemma_reports(events, jobs, found, k - 1, i);
        } else {
            let before = events.drop_last();
            lemma_reports(before, jobs, found, k - 1, i);
            let path = text::replaced(jobs[i].logical_path@.text(), '\\', '/');
            let e = choose|e: int|
                0 <= e < before.len() && ((#[trigger] before[e]) matches WorkerEvent::Outcome {
                    outcome: TaskOutcome::Verified { path: p, ok, .. },
                } && p@ == path && ok == (found[i] is Good));
            assert(events[e] == before[e]);
        }
    } else {
        assert(events[events.len() - 1] == events.last());
    }
}

/// Every file of a batch that something is expected of is reported, as good if and
/// only if it was found good, up to the first that was found bad.
pub proof fn law_inspected_files_are_reported(
    end: ReuseEnd,
    jobs: Seq<CommitFileJob>,
    found: Seq<Inspected>,
    i: int,
)
    requires
        jobs.len() == found.len(),
        batches::batch_ends(end, jobs, found),
        0 <= i < found.len(),
        !(found[i] is Unexpected),
        forall|j: int| 0 <= j < i ==> !((#[trigger] found[j]) is Bad),
    ensures
        is_reported(
            end.events@,
            text::replaced(jobs[i].logical_path@.text(), '\\', '/'),
            found[i] is Good,
        ),
{
    lemma_bad_is_not_before(found, 0, i);
    match batches::first_bad(found, 0) {
        Some(k) => lemma_reports(end.events@, jobs, found, k + 1, i),
        None => lemma_reports(end.events@, jobs, found, jobs.len() as int, i),
    }
}

proof fn lemma_bad_is_not_before(found: Seq<Inspected>, k: int, i: int)
    requires
        0 <= k <= i < found.len(),
        forall|j: int| 0 <= j < i ==> !((#[trigger] found[j]) is Bad),
    ensures
        batches::first_bad(found, k) matches Some(at) ==> i <= at < found.len(),
    decreases found.len() - k,
{
    if k < i {
        lemma_bad_is_not_before(found, k + 1, i);
    } else {
        lemma_bad_in_range(found, k);
    }
}

proof fn lemma_bad_in_range(found: Seq<Inspected>, k: int)
    requires
        0 <= k <= found.len(),
    ensures
        batches::first_bad(found, k) matches Some(at) ==> k <= at < found.len(),
    decreases found.len() - k,
{
    if k < found.len() && !(found[k] is Bad) {
        lemma_bad_in_range(found, k + 1);
    }
}

/// An archive whose files are in place is ended by what a manifest in it asks for and
/// by cleaning up, which comes after that and after all that brings its volumes.
pub proof fn law_cleaning_up_comes_last(
    run: TaskRun,
    archive: Arc<ArchiveWork>,
    token: TaskDependencyToken,
)
    requires
        finish::ends_archive(run, archive),
    ensures
        run matches TaskRun::Expand { expansion: e, next } && next is None && e@.len() == 2 && (
        e@[0].task matches Task::ApplyExtractedVfsPatchManifest { install_root } && install_root@
            == archive.dest@) && (e@[1].task matches Task::CleanupArchive { work: w } && w
            == archive) && e@[1].dependencies.contains(0),
        (exists|v: int| 0 <= v < archive.tokens@.len() && archive.tokens@[v] == Some(token))
            ==> run->Expand_expansion@[1].tokens.contains(token.0),
{
    if exists|v: int| 0 <= v < archive.tokens@.len() && archive.tokens@[v] == Some(token) {
        let v = choose|v: int| 0 <= v < archive.tokens@.len() && archive.tokens@[v] == Some(token);
        assert(brings_volume(*archive, v, token));
        let tokens = archive.first_tokens(archive.tokens@.len() as int);
        lemma_tokens_hold(&archive, v, token);
        let j = choose|j: int| 0 <= j < tokens.len() && tokens[j] == token;
        let numbers = expansion::token_numbers(tokens);
        assert(numbers[j] == token.0);
        assert(numbers.contains(token.0));
    }
}

proof fn lemma_tokens_hold(
    archive: &ArchiveWork,
    v: int,
    token: TaskDependencyToken,
)
    requires
        0 <= v < archive.tokens@.len(),
        brings_volume(*archive, v, token),
    ensures
        archive.first_tokens(archive.tokens@.len() as int).contains(token),
{
    lemma_first_tokens(*archive, archive.tokens@.len() as int, token);
}

} // verus!
