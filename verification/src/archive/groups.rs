//! Grouping the volumes of a release into archives.

use crate::archive::parts;
use crate::archive::parts::PartModel;
use crate::error::Message;
use crate::number;
use crate::ordered;
use crate::path::{FilePath, PathModel};
use crate::task::ArchivePart;
use crate::text;
use vstd::prelude::*;

verus! {

/// A volume of a release, as the server lists it.
pub struct PackFile {
    pub url: String,
    pub md5: String,
    /// The size in bytes, in digits.
    pub package_size: String,
}

/// The volumes of one archive.
pub struct ArchiveGroup {
    pub base_name: String,
    pub parts: Vec<ArchivePart>,
}

/// The name behind the last slash of an address, where there is one.
pub open spec fn url_file_name(url: Seq<char>) -> Option<Seq<char>> {
    let last = text::split_on(url, '/').last();
    if last.len() > 0 {
        Some(last)
    } else {
        None
    }
}

/// A name without its ending, where it has that ending and more.
pub open spec fn without_ending(name: Seq<char>, ending: Seq<char>) -> Option<Seq<char>> {
    if name.len() > ending.len() && name.skip(name.len() - ending.len()) == ending {
        Some(name.take(name.len() - ending.len()))
    } else {
        None
    }
}

/// The name of an archive and the number of a volume, out of the name of the
/// volume: `<archive>.zip`, or `<archive>.zip.<number>`.
pub open spec fn volume_name(name: Seq<char>) -> Option<(Seq<char>, Seq<char>)> {
    let pieces = text::split_on(name, '.');
    match without_ending(name, ".zip"@) {
        Some(base) => Some((base, "0"@)),
        None => {
            let digits = pieces.last();
            let rest = name.take(name.len() - digits.len() - 1);
            if pieces.len() > 1 && number::is_number(digits) {
                match without_ending(rest, ".zip"@) {
                    Some(base) => Some((base, digits)),
                    None => None,
                }
            } else {
                None
            }
        },
    }
}

fn strip_ending(name: &Vec<char>, ending: &str) -> (base: Option<String>)
    ensures
        match base {
            Some(b) => without_ending(name@, ending@) == Some(b@),
            None => without_ending(name@, ending@) is None,
        },
{
    let tail = text::chars_of(ending);
    if name.len() <= tail.len() {
        return None;
    }
    let at = name.len() - tail.len();
    assert(name@.len() <= usize::MAX);
    let mut k: usize = 0;
    while k < tail.len()
        invariant
            k <= tail@.len(),
            tail@ == ending@,
            at + tail@.len() == name@.len(),
            name@.len() <= usize::MAX,
            forall|i: int| 0 <= i < k ==> name@[at + i] == tail@[i],
        decreases tail@.len() - k,
    {
        if name[at + k] != tail[k] {
            assert(name@.skip(at as int)[k as int] != ending@[k as int]);
            return None;
        }
        k = k + 1;
    }
    assert(name@.skip(at as int) =~= ending@);
    assert(name@.subrange(0, at as int) =~= name@.take(at as int));
    Some(text::text_of(name, 0, at))
}

proof fn lemma_last_piece(s: Seq<char>, separator: char)
    ensures
        ({
            let pieces = text::split_on(s, separator);
            &&& pieces.len() > 0
            &&& pieces.last().len() + (if pieces.len() > 1 {
                1int
            } else {
                0int
            }) <= s.len()
            &&& pieces.len() == 1 ==> pieces.last() == s
        }),
    decreases s.len(),
{
    if s.len() > 0 {
        lemma_last_piece(s.drop_last(), separator);
        let before = text::split_on(s.drop_last(), separator);
        if s.last() != separator && before.len() == 1 {
            assert(s.drop_last().push(s.last()) =~= s);
        }
    }
}

/// The parts of a volume's name.
fn parse_volume_name(name: &str) -> (parsed: Option<(String, String)>)
    ensures
        match parsed {
            Some((base, digits)) => volume_name(name@) == Some((base@, digits@)),
            None => volume_name(name@) is None,
        },
{
    let chars = text::chars_of(name);
    if let Some(base) = strip_ending(&chars, ".zip") {
        return Some((base, "0".to_owned()));
    }
    let mut pieces = text::split_text(name, '.');
    proof {
        lemma_last_piece(name@, '.');
    }
    if pieces.len() < 2 {
        return None;
    }
    let ghost views = text::texts(pieces@);
    assert(views.last() == pieces@.last()@);
    let count = pieces.len();
    let digits = pieces.swap_remove(count - 1);
    let digit_chars = text::chars_of(digits.as_str());
    if !number::digits_only(&digit_chars) {
        return None;
    }
    let end = chars.len() - digit_chars.len() - 1;
    let rest = text::text_of(&chars, 0, end);
    assert(chars@.subrange(0, end as int) =~= chars@.take(end as int));
    let rest_chars = text::chars_of(rest.as_str());
    match strip_ending(&rest_chars, ".zip") {
        Some(base) => Some((base, digits)),
        None => None,
    }
}

impl PackFile {
    /// The name of the volume.
    pub fn filename(&self) -> (name: Option<String>)
        ensures
            match name {
                Some(n) => url_file_name(self.url@) == Some(n@),
                None => url_file_name(self.url@) is None,
            },
    {
        let mut pieces = text::split_text(self.url.as_str(), '/');
        proof {
            text::lemma_split_is_not_empty(self.url@, '/');
            assert(text::texts(pieces@).last() == pieces@.last()@);
        }
        let count = pieces.len();
        let last = pieces.swap_remove(count - 1);
        if text::chars_of(last.as_str()).len() > 0 {
            Some(last)
        } else {
            None
        }
    }

    /// The name of the archive that the volume belongs to, and the digits of
    /// the number of the volume.
    pub open spec fn parsed_name(&self) -> Option<(Seq<char>, Seq<char>)> {
        match url_file_name(self.url@) {
            Some(name) => volume_name(name),
            None => None,
        }
    }

    /// The name of the archive that the volume belongs to.
    pub fn archive_base_name(&self) -> (base: Option<String>)
        ensures
            match base {
                Some(b) => self.parsed_name() matches Some((base, digits)) && base == b@,
                None => self.parsed_name() is None,
            },
    {
        match self.filename() {
            Some(name) => match parse_volume_name(name.as_str()) {
                Some((base, _)) => Some(base),
                None => None,
            },
            None => None,
        }
    }

    /// The number of the volume in its archive. A volume without a number is
    /// the first.
    pub fn archive_sequence(&self) -> (sequence: Option<u64>)
        ensures
            sequence == (match self.parsed_name() {
                Some((base, digits)) => number::parsed_number(digits),
                None => None,
            }),
    {
        match self.filename() {
            Some(name) => match parse_volume_name(name.as_str()) {
                Some((_, digits)) => number::parse_number(digits.as_str()),
                None => None,
            },
            None => None,
        }
    }

    /// The size in bytes. One that cannot be read counts as nothing.
    pub open spec fn bytes(&self) -> u64 {
        match number::parsed_unsigned(self.package_size@) {
            Some(size) => size,
            None => 0,
        }
    }

    /// The size in bytes.
    pub fn size(&self) -> (size: u64)
        ensures
            size == self.bytes(),
    {
        match number::parse_unsigned(self.package_size.as_str()) {
            Some(size) => size,
            None => 0,
        }
    }

    /// What is wrong with a volume.
    pub open spec fn fault(&self) -> Option<Seq<char>> {
        if url_file_name(self.url@) is None {
            Some("Failed to extract archive filename"@)
        } else if self.parsed_name() is None {
            Some("Pack URL did not end with .zip or a numeric .zip.<part>"@)
        } else if number::parsed_number(self.digits()) is None {
            Some("Pack URL did not contain a valid archive sequence"@)
        } else {
            None
        }
    }

    /// The volume as it is fetched into a directory.
    pub open spec fn part(&self, archive_dir: PathModel) -> PartModel {
        let name = url_file_name(self.url@)->0;
        PartModel {
            sequence: number::parsed_number(self.digits())->0,
            url: self.url@,
            dest: archive_dir.child(name),
            logical_path: name,
            expected_md5: self.md5@,
            expected_size: self.bytes(),
        }
    }

    /// The name of the archive that the volume belongs to.
    pub open spec fn base(&self) -> Seq<char> {
        match self.parsed_name() {
            Some((base, _)) => base,
            None => Seq::empty(),
        }
    }

    /// The digits of the number of the volume.
    pub open spec fn digits(&self) -> Seq<char> {
        match self.parsed_name() {
            Some((_, digits)) => digits,
            None => Seq::empty(),
        }
    }

    fn parse(&self, archive_dir: &FilePath) -> (result: Result<(String, ArchivePart), &'static str>)
        ensures
            match result {
                Ok((base, part)) => self.fault() is None && base@ == self.base() && part@
                    == self.part(archive_dir@),
                Err(detail) => self.fault() == Some(detail@),
            },
    {
        let name = match self.filename() {
            Some(name) => name,
            None => {
                return Err("Failed to extract archive filename");
            },
        };
        let base = match self.archive_base_name() {
            Some(base) => base,
            None => {
                return Err("Pack URL did not end with .zip or a numeric .zip.<part>");
            },
        };
        let sequence: u64 = match self.archive_sequence() {
            Some(sequence) => sequence,
            None => {
                return Err("Pack URL did not contain a valid archive sequence");
            },
        };
        let part = ArchivePart {
            sequence,
            url: self.url.clone(),
            dest: archive_dir.child(name.as_str()),
            logical_path: name,
            expected_md5: self.md5.clone(),
            expected_size: self.size(),
        };
        Ok((base, part))
    }
}

/// The volumes of one archive among the first `k` of a list, in the order of
/// the list.
pub open spec fn parts_of(
    packs: Seq<PackFile>,
    k: int,
    base: Seq<char>,
    archive_dir: PathModel,
) -> Seq<PartModel>
    decreases k,
{
    if k <= 0 {
        Seq::empty()
    } else {
        let before = parts_of(packs, k - 1, base, archive_dir);
        if packs[k - 1].base() == base {
            before.push(packs[k - 1].part(archive_dir))
        } else {
            before
        }
    }
}

/// Whether one of the first `k` volumes belongs to an archive.
pub open spec fn has_base(packs: Seq<PackFile>, k: int, base: Seq<char>) -> bool {
    exists|i: int| 0 <= i < k && #[trigger] packs[i].base() == base
}

/// Whether a list holds the archives of the volumes: each once, by name, with
/// its volumes in order.
pub open spec fn are_groups(
    packs: Seq<PackFile>,
    archive_dir: PathModel,
    groups: Seq<ArchiveGroup>,
) -> bool {
    &&& forall|a: int, b: int|
        0 <= a < b < groups.len() ==> ordered::text_less(
            (#[trigger] groups[a]).base_name@,
            (#[trigger] groups[b]).base_name@,
        )
    &&& forall|g: int|
        0 <= g < groups.len() ==> parts::arranged(
            parts_of(
                packs,
                packs.len() as int,
                (#[trigger] groups[g]).base_name@,
                archive_dir,
            ),
            parts::part_views(groups[g].parts@),
        ) && groups[g].parts@.len() > 0
    &&& forall|base: Seq<char>| #[trigger]
        has_base(packs, packs.len() as int, base) <==> is_named(groups, base)
}

/// Whether an archive of a list has a name.
pub open spec fn is_named(groups: Seq<ArchiveGroup>, base: Seq<char>) -> bool {
    exists|g: int| 0 <= g < groups.len() && (#[trigger] groups[g]).base_name@ == base
}

/// What is wrong with a list of volumes: it is empty, or what is wrong with the
/// first volume that has a fault.
pub open spec fn packs_fault(packs: Seq<PackFile>) -> Option<Seq<char>> {
    if packs.len() == 0 {
        Some("No archives to process"@)
    } else {
        first_fault(packs, 0)
    }
}

/// What is wrong with the first volume from the `k`th on that has a fault.
pub open spec fn first_fault(packs: Seq<PackFile>, k: int) -> Option<Seq<char>>
    decreases packs.len() - k,
{
    if k >= packs.len() {
        None
    } else if packs[k].fault() is Some {
        packs[k].fault()
    } else {
        first_fault(packs, k + 1)
    }
}

/// Positions by name.
#[verifier::external_body]
pub struct PositionIndex {
    positions: rapidhash::RapidHashMap<String, usize>,
}

/// What an index holds.
pub uninterp spec fn indexed(index: &PositionIndex) -> Map<Seq<char>, usize>;

/// `rapidhash::RapidHashMap`, which is std's `HashMap` with a hasher of
/// rapidhash, made by `default`: it holds nothing.
#[verifier::external_body]
fn new_index() -> (index: PositionIndex)
    ensures
        forall|name: Seq<char>| !(#[trigger] indexed(&index).contains_key(name)),
{
    PositionIndex { positions: rapidhash::RapidHashMap::default() }
}

/// `get` of `rapidhash::RapidHashMap`: the position under a name, where there
/// is one.
#[verifier::external_body]
fn position_of(index: &PositionIndex, name: &str) -> (position: Option<usize>)
    ensures
        position == (if indexed(index).contains_key(name@) {
            Some(indexed(index)[name@])
        } else {
            None
        }),
{
    index.positions.get(name).copied()
}

/// `insert` of `rapidhash::RapidHashMap`: the name now has this position, and
/// the others keep theirs.
#[verifier::external_body]
fn set_position(index: &mut PositionIndex, name: String, position: usize)
    ensures
        indexed(final(index)) == indexed(old(index)).insert(name@, position),
{
    index.positions.insert(name, position);
}

/// The archives of the first `k` volumes, in the order in which they came up.
spec fn are_collected(
    packs: Seq<PackFile>,
    k: int,
    archive_dir: PathModel,
    groups: Seq<ArchiveGroup>,
    index: Map<Seq<char>, usize>,
) -> bool {
    &&& forall|base: Seq<char>|
        #![trigger index.contains_key(base)]
        #![trigger has_base(packs, k, base)]
        index.contains_key(base) <==> has_base(packs, k, base)
    &&& forall|base: Seq<char>| #[trigger]
        index.contains_key(base) ==> index[base] < groups.len() && groups[index[base] as int].base_name@
            == base
    &&& forall|g: int|
        0 <= g < groups.len() ==> index.contains_key((#[trigger] groups[g]).base_name@)
            && index[groups[g].base_name@] == g
    &&& forall|g: int|
        0 <= g < groups.len() ==> parts::part_views((#[trigger] groups[g]).parts@) == parts_of(
            packs,
            k,
            groups[g].base_name@,
            archive_dir,
        ) && groups[g].parts@.len() > 0
}

proof fn lemma_base_is_new(packs: Seq<PackFile>, k: int, base: Seq<char>, archive_dir: PathModel)
    requires
        0 <= k,
        !has_base(packs, k, base),
    ensures
        parts_of(packs, k, base, archive_dir) == Seq::<PartModel>::empty(),
    decreases k,
{
    if k > 0 {
        assert(packs[k - 1].base() != base);
        assert(!has_base(packs, k - 1, base)) by {
            if has_base(packs, k - 1, base) {
                let i = choose|i: int| 0 <= i < k - 1 && #[trigger] packs[i].base() == base;
                assert(packs[i].base() == base);
            }
        }
        lemma_base_is_new(packs, k - 1, base, archive_dir);
    }
}

proof fn lemma_has_base_step(packs: Seq<PackFile>, k: int, base: Seq<char>)
    requires
        0 <= k < packs.len(),
    ensures
        has_base(packs, k + 1, base) <==> has_base(packs, k, base) || packs[k].base() == base,
{
    if has_base(packs, k, base) {
        let i = choose|i: int| 0 <= i < k && #[trigger] packs[i].base() == base;
        assert(packs[i].base() == base);
    }
    if has_base(packs, k + 1, base) {
        let i = choose|i: int| 0 <= i < k + 1 && #[trigger] packs[i].base() == base;
        assert(i < k || i == k);
    }
    if packs[k].base() == base {
        assert(has_base(packs, k + 1, base));
    }
}

fn collect_groups(packs: &Vec<PackFile>, archive_dir: &FilePath) -> (result: Result<
    (Vec<ArchiveGroup>, PositionIndex),
    &'static str,
>)
    ensures
        match result {
            Ok((groups, index)) => first_fault(packs@, 0) is None && are_collected(
                packs@,
                packs@.len() as int,
                archive_dir@,
                groups@,
                indexed(&index),
            ),
            Err(detail) => first_fault(packs@, 0) == Some(detail@),
        },
{
    let mut groups: Vec<ArchiveGroup> = Vec::new();
    let mut index = new_index();
    let mut k: usize = 0;
    while k < packs.len()
        invariant
            k <= packs@.len(),
            first_fault(packs@, 0) == first_fault(packs@, k as int),
            are_collected(packs@, k as int, archive_dir@, groups@, indexed(&index)),
        decreases packs@.len() - k,
    {
        let (base, part) = match packs[k].parse(archive_dir) {
            Ok(parsed) => parsed,
            Err(detail) => {
                return Err(detail);
            },
        };
        let ghost before = groups@;
        let ghost known = indexed(&index);
        let ghost name = base@;
        let ghost added = part@;
        match position_of(&index, base.as_str()) {
            Some(at) => {
                groups[at].parts.push(part);
                proof {
                    assert(parts::part_views(groups@[at as int].parts@) =~= parts::part_views(
                        before[at as int].parts@,
                    ).push(added));
                }
            },
            None => {
                let at = groups.len();
                set_position(&mut index, base.clone(), at);
                let mut list: Vec<ArchivePart> = Vec::new();
                list.push(part);
                proof {
                    lemma_base_is_new(packs@, k as int, name, archive_dir@);
                    assert(parts::part_views(list@) =~= Seq::<PartModel>::empty().push(added));
                }
                groups.push(ArchiveGroup { base_name: base, parts: list });
            },
        }
        proof {
            assert forall|b: Seq<char>|
                #![trigger indexed(&index).contains_key(b)]
                #![trigger has_base(packs@, k + 1, b)]
                indexed(&index).contains_key(b) <==> has_base(packs@, k + 1, b) by {
                lemma_has_base_step(packs@, k as int, b);
                assert(known.contains_key(b) <==> has_base(packs@, k as int, b));
            }
            assert forall|g: int| 0 <= g < groups@.len() implies indexed(&index).contains_key(
                (#[trigger] groups@[g]).base_name@,
            ) && indexed(&index)[groups@[g].base_name@] == g && parts::part_views(
                groups@[g].parts@,
            ) == parts_of(packs@, k + 1, groups@[g].base_name@, archive_dir@)
                && groups@[g].parts@.len() > 0 by {
                if g < before.len() {
                    assert(groups@[g].base_name@ == before[g].base_name@);
                    assert(known.contains_key(before[g].base_name@));
                }
            }
        }
        k = k + 1;
    }
    Ok((groups, index))
}

/// Groups volumes into archives: by the name of the archive, with the volumes
/// of each in the order of their numbers.
pub fn plan_archive_groups(packs: &Vec<PackFile>, archive_dir: &FilePath) -> (result: Result<
    Vec<ArchiveGroup>,
    Message,
>)
    ensures
        match result {
            Ok(groups) => packs_fault(packs@) is None && are_groups(
                packs@,
                archive_dir@,
                groups@,
            ),
            Err(message) => message.context@ == "Configuration error: "@ && packs_fault(packs@)
                == Some(message.detail@),
        },
{
    if packs.len() == 0 {
        return Err(Message::new("Configuration error: ", "No archives to process".to_owned()));
    }
    let (collected, positions) = match collect_groups(packs, archive_dir) {
        Ok(collected) => collected,
        Err(detail) => {
            return Err(Message::new("Configuration error: ", detail.to_owned()));
        },
    };
    let ghost all = collected@;
    let ghost index = indexed(&positions);
    let mut groups: Vec<ArchiveGroup> = Vec::new();
    for group in it: collected
        invariant
            it.seq() == all,
            are_collected(packs@, packs@.len() as int, archive_dir@, all, index),
            forall|a: int, b: int|
                0 <= a < b < groups@.len() ==> ordered::text_less(
                    (#[trigger] groups@[a]).base_name@,
                    (#[trigger] groups@[b]).base_name@,
                ),
            forall|g: int|
                0 <= g < groups@.len() ==> parts::arranged(
                    parts_of(
                        packs@,
                        packs@.len() as int,
                        (#[trigger] groups@[g]).base_name@,
                        archive_dir@,
                    ),
                    parts::part_views(groups@[g].parts@),
                ) && groups@[g].parts@.len() > 0,
            forall|base: Seq<char>| #[trigger]
                is_named(groups@, base) <==> is_named(all.take(it.index()), base),
    {
        let ghost before = groups@;
        let ghost done = it.index();
        let ArchiveGroup { base_name, parts } = group;
        let ghost name = base_name@;
        let parts = parts::sort_parts(parts);
        let mut k: usize = 0;
        proof {
            assert forall|g: int| 0 <= g < before.len() implies (
            #[trigger] before[g]).base_name@ != name by {
                assert(is_named(before, before[g].base_name@));
                let h = choose|h: int|
                    0 <= h < all.take(done).len() && (#[trigger] all.take(done)[h]).base_name@
                        == before[g].base_name@;
                assert(index[all[h].base_name@] == h);
                assert(index[all[done].base_name@] == done);
            }
        }
        while k < groups.len() && ordered::text_before(
            groups[k].base_name.as_str(),
            base_name.as_str(),
        )
            invariant
                k <= groups@.len(),
                groups@ == before,
                base_name@ == name,
                forall|g: int|
                    0 <= g < k ==> ordered::text_less((#[trigger] before[g]).base_name@, name),
            decreases groups@.len() - k,
        {
            k = k + 1;
        }
        proof {
            assert forall|g: int| k <= g < before.len() implies ordered::text_less(
                name,
                (#[trigger] before[g]).base_name@,
            ) by {
                let first = before[k as int].base_name@;
                ordered::law_text_order_is_total(first, name);
                assert(ordered::text_less(name, first));
                if g > k {
                    ordered::law_text_order_is_transitive(name, first, before[g].base_name@);
                }
            }
        }
        groups.insert(k, ArchiveGroup { base_name, parts });
        proof {
            let at = k as int;
            assert forall|a: int, b: int| 0 <= a < b < groups@.len() implies ordered::text_less(
                (#[trigger] groups@[a]).base_name@,
                (#[trigger] groups@[b]).base_name@,
            ) by {
                if b < at {
                    assert(ordered::text_less(before[a].base_name@, before[b].base_name@));
                } else if b == at {
                    assert(ordered::text_less(before[a].base_name@, name));
                } else if a == at {
                    assert(ordered::text_less(name, before[b - 1].base_name@));
                } else if a < at {
                    assert(ordered::text_less(before[a].base_name@, before[b - 1].base_name@));
                } else {
                    assert(ordered::text_less(before[a - 1].base_name@, before[b - 1].base_name@));
                }
            }
            assert forall|g: int| 0 <= g < groups@.len() implies parts::arranged(
                parts_of(
                    packs@,
                    packs@.len() as int,
                    (#[trigger] groups@[g]).base_name@,
                    archive_dir@,
                ),
                parts::part_views(groups@[g].parts@),
            ) && groups@[g].parts@.len() > 0 by {
                if g < at {
                    assert(groups@[g] == before[g]);
                } else if g > at {
                    assert(groups@[g] == before[g - 1]);
                }
            }
            assert forall|base: Seq<char>| #[trigger]
                is_named(groups@, base) <==> is_named(all.take(done + 1), base) by {
                lemma_named_insert(before, at, groups@, base);
                lemma_named_push(all, done, base);
            }
        }
    }
    proof {
        assert(all.take(all.len() as int) =~= all);
        assert forall|base: Seq<char>| #[trigger]
            has_base(packs@, packs@.len() as int, base) <==> is_named(groups@, base) by {
            assert(index.contains_key(base) <==> has_base(packs@, packs@.len() as int, base));
            if is_named(all, base) {
                let g = choose|g: int| 0 <= g < all.len() && (#[trigger] all[g]).base_name@ == base;
                assert(index.contains_key(base));
            }
            if index.contains_key(base) {
                assert(all[index[base] as int].base_name@ == base);
            }
        }
    }
    Ok(groups)
}

proof fn lemma_named_insert(
    before: Seq<ArchiveGroup>,
    at: int,
    after: Seq<ArchiveGroup>,
    base: Seq<char>,
)
    requires
        0 <= at <= before.len(),
        after == before.insert(at, after[at]),
    ensures
        is_named(after, base) <==> is_named(before, base) || after[at].base_name@ == base,
{
    if is_named(before, base) {
        let g = choose|g: int| 0 <= g < before.len() && (#[trigger] before[g]).base_name@ == base;
        let h = if g < at {
            g
        } else {
            g + 1
        };
        assert(after[h].base_name@ == base);
    }
    if is_named(after, base) {
        let g = choose|g: int| 0 <= g < after.len() && (#[trigger] after[g]).base_name@ == base;
        if g < at {
            assert(before[g].base_name@ == base);
        } else if g > at {
            assert(before[g - 1].base_name@ == base);
        }
    }
    if after[at].base_name@ == base {
        assert(is_named(after, base));
    }
}

proof fn lemma_named_push(all: Seq<ArchiveGroup>, k: int, base: Seq<char>)
    requires
        0 <= k < all.len(),
    ensures
        is_named(all.take(k + 1), base) <==> is_named(all.take(k), base) || all[k].base_name@
            == base,
{
    let more = all.take(k + 1);
    let less = all.take(k);
    if is_named(less, base) {
        let g = choose|g: int| 0 <= g < less.len() && (#[trigger] less[g]).base_name@ == base;
        assert(more[g].base_name@ == base);
    }
    if is_named(more, base) {
        let g = choose|g: int| 0 <= g < more.len() && (#[trigger] more[g]).base_name@ == base;
        if g < k {
            assert(less[g].base_name@ == base);
        }
    }
    if all[k].base_name@ == base {
        assert(more[k].base_name@ == base);
    }
}

} // verus!
