//! Building resource requests.

use crate::files;
use crate::ordered;
use crate::path::{FilePath, PathModel};
use crate::scheduler::counts;
use crate::scheduler::request::{NetworkClass, ResourceRequest, RunClass, StorageReservation};
use crate::text;
use vstd::prelude::*;

verus! {

/// What only the disk can tell, for the paths that a task touches.
pub struct DiskFacts {
    /// The identity of the volume of a path.
    pub volumes: Vec<(FilePath, String)>,
    /// The size of a file that is there.
    pub lengths: Vec<(FilePath, u64)>,
}

/// The identity that a table gives a path.
pub open spec fn table_volume(table: Seq<(FilePath, String)>, path: PathModel) -> Option<Seq<char>>
    decreases table.len(),
{
    if table.len() == 0 {
        None
    } else if table.last().0@ == path {
        Some(table.last().1@)
    } else {
        table_volume(table.drop_last(), path)
    }
}

/// The size that a table gives a path.
pub open spec fn table_length(table: Seq<(FilePath, u64)>, path: PathModel) -> u64
    decreases table.len(),
{
    if table.len() == 0 {
        0
    } else if table.last().0@ == path {
        table.last().1
    } else {
        table_length(table.drop_last(), path)
    }
}

impl DiskFacts {
    /// The volume that a path lies on.
    pub open spec fn volume(&self, path: PathModel) -> Seq<char> {
        files::volume_key(path, table_volume(self.volumes@, path))
    }

    /// The size of the file at a path; zero where there is none.
    pub open spec fn length(&self, path: PathModel) -> u64 {
        table_length(self.lengths@, path)
    }

    pub fn new() -> (facts: DiskFacts)
        ensures
            facts.volumes@.len() == 0,
            facts.lengths@.len() == 0,
    {
        DiskFacts { volumes: Vec::new(), lengths: Vec::new() }
    }

    /// The volume that a path lies on.
    pub fn volume_key(&self, path: &FilePath) -> (key: String)
        ensures
            key@ == self.volume(path@),
    {
        let mut k: usize = self.volumes.len();
        assert(self.volumes@.take(k as int) =~= self.volumes@);
        while k > 0
            invariant
                k <= self.volumes@.len(),
                table_volume(self.volumes@, path@) == table_volume(
                    self.volumes@.take(k as int),
                    path@,
                ),
            decreases k,
        {
            proof {
                assert(self.volumes@.take(k as int).drop_last() =~= self.volumes@.take(k - 1));
                assert(self.volumes@.take(k as int).last() == self.volumes@[k - 1]);
            }
            k = k - 1;
            if self.volumes[k].0.same(path) {
                return self.volumes[k].1.clone();
            }
        }
        assert(self.volumes@.take(0).len() == 0);
        files::storage_volume_key(path, &None)
    }

    /// The size of the file at a path; zero where there is none.
    pub fn existing_file_len(&self, path: &FilePath) -> (bytes: u64)
        ensures
            bytes == self.length(path@),
    {
        let mut k: usize = self.lengths.len();
        assert(self.lengths@.take(k as int) =~= self.lengths@);
        while k > 0
            invariant
                k <= self.lengths@.len(),
                table_length(self.lengths@, path@) == table_length(
                    self.lengths@.take(k as int),
                    path@,
                ),
            decreases k,
        {
            proof {
                assert(self.lengths@.take(k as int).drop_last() =~= self.lengths@.take(k - 1));
                assert(self.lengths@.take(k as int).last() == self.lengths@[k - 1]);
            }
            k = k - 1;
            if self.lengths[k].0.same(path) {
                return self.lengths[k].1;
            }
        }
        assert(self.lengths@.take(0).len() == 0);
        0
    }
}

/// The text by which changes of a path are told apart. Case counts.
pub fn path_key(path: &FilePath) -> (key: String)
    ensures
        key@ == path@.text(),
{
    path.text()
}

/// Room on a volume, in the mathematical model.
#[verifier::ext_equal]
pub struct Room {
    pub volume: Seq<char>,
    pub probe: PathModel,
    pub bytes: u64,
}

/// A resource request in the mathematical model.
#[verifier::ext_equal]
pub struct Needs {
    pub run: RunClass,
    pub network: Option<NetworkClass>,
    pub reads: Seq<Seq<char>>,
    pub writes: Seq<Seq<char>>,
    pub metadata: Seq<Seq<char>>,
    pub savers: Seq<Seq<char>>,
    pub commits: Seq<(Seq<char>, bool)>,
    pub extract: bool,
    pub mutations: Seq<Seq<char>>,
    pub storage: Seq<Room>,
    pub estimated_bytes: u64,
    pub reuse_probe: bool,
    pub reuse_commit: bool,
}

/// The pairs of a list.
pub open spec fn pairs(list: Seq<(String, bool)>) -> Seq<(Seq<char>, bool)> {
    Seq::new(list.len(), |i: int| (list[i].0@, list[i].1))
}

/// The rooms of a list.
pub open spec fn rooms(list: Seq<StorageReservation>) -> Seq<Room> {
    Seq::new(
        list.len(),
        |i: int| Room { volume: list[i].volume@, probe: list[i].probe_path@, bytes: list[i].bytes },
    )
}

impl View for ResourceRequest {
    type V = Needs;

    open spec fn view(&self) -> Needs {
        Needs {
            run: self.run,
            network: self.network,
            reads: text::texts(self.read_volumes@),
            writes: text::texts(self.write_volumes@),
            metadata: text::texts(self.metadata_volumes@),
            savers: text::texts(self.archive_save_volumes@),
            commits: pairs(self.archive_commit_volumes@),
            extract: self.extract,
            mutations: text::texts(self.mutation_paths@),
            storage: rooms(self.storage_reservations@),
            estimated_bytes: self.estimated_bytes,
            reuse_probe: self.reuse_probe,
            reuse_commit: self.reuse_commit,
        }
    }
}

impl Needs {
    /// Needs nothing but a lane.
    pub open spec fn of(run: RunClass) -> Needs {
        Needs {
            run,
            network: None,
            reads: Seq::empty(),
            writes: Seq::empty(),
            metadata: Seq::empty(),
            savers: Seq::empty(),
            commits: Seq::empty(),
            extract: false,
            mutations: Seq::empty(),
            storage: Seq::empty(),
            estimated_bytes: 0,
            reuse_probe: false,
            reuse_commit: false,
        }
    }

    /// Reads from a volume as well.
    pub open spec fn reading(self, volume: Seq<char>) -> Needs {
        Needs { reads: self.reads.push(volume), ..self }
    }

    /// Writes to a volume as well.
    pub open spec fn writing(self, volume: Seq<char>) -> Needs {
        Needs { writes: self.writes.push(volume), ..self }
    }

    /// Changes metadata of a volume as well.
    pub open spec fn touching(self, volume: Seq<char>) -> Needs {
        Needs { metadata: self.metadata.push(volume), ..self }
    }

    /// Saves an archive volume on a volume as well.
    pub open spec fn saving(self, volume: Seq<char>) -> Needs {
        Needs { savers: self.savers.push(volume), ..self }
    }

    /// Puts extracted files in place on a volume as well.
    pub open spec fn committing(self, volume: Seq<char>, crossing: bool) -> Needs {
        Needs { commits: self.commits.push((volume, crossing)), ..self }
    }

    /// Changes a path as well.
    pub open spec fn changing(self, path: PathModel) -> Needs {
        Needs { mutations: self.mutations.push(path.text()), ..self }
    }

    /// Takes room at a path as well.
    pub open spec fn reserving(self, facts: DiskFacts, path: PathModel, bytes: u64) -> Needs {
        if bytes == 0 {
            self
        } else {
            Needs {
                storage: self.storage.push(
                    Room { volume: facts.volume(path), probe: path, bytes },
                ),
                ..self
            }
        }
    }
}

pub fn request_for(run: RunClass) -> (request: ResourceRequest)
    ensures
        request@ == Needs::of(run),
{
    let mut request = ResourceRequest::default();
    request.run = run;
    proof {
        let needs = Needs::of(run);
        assert(request@.reads =~= needs.reads);
        assert(request@.writes =~= needs.writes);
        assert(request@.metadata =~= needs.metadata);
        assert(request@.savers =~= needs.savers);
        assert(request@.commits =~= needs.commits);
        assert(request@.mutations =~= needs.mutations);
        assert(request@.storage =~= needs.storage);
    }
    request
}

proof fn lemma_texts_push(list: Seq<String>, item: String)
    ensures
        text::texts(list.push(item)) == text::texts(list).push(item@),
{
    assert(text::texts(list.push(item)) =~= text::texts(list).push(item@));
}

impl ResourceRequest {
    pub fn read(&mut self, volume: String)
        ensures
            final(self)@ == old(self)@.reading(volume@),
    {
        proof {
            lemma_texts_push(self.read_volumes@, volume);
        }
        self.read_volumes.push(volume);
    }

    pub fn write(&mut self, volume: String)
        ensures
            final(self)@ == old(self)@.writing(volume@),
    {
        proof {
            lemma_texts_push(self.write_volumes@, volume);
        }
        self.write_volumes.push(volume);
    }

    pub fn touch(&mut self, volume: String)
        ensures
            final(self)@ == old(self)@.touching(volume@),
    {
        proof {
            lemma_texts_push(self.metadata_volumes@, volume);
        }
        self.metadata_volumes.push(volume);
    }

    pub fn save(&mut self, volume: String)
        ensures
            final(self)@ == old(self)@.saving(volume@),
    {
        proof {
            lemma_texts_push(self.archive_save_volumes@, volume);
        }
        self.archive_save_volumes.push(volume);
    }

    pub fn commit(&mut self, volume: String, crossing: bool)
        ensures
            final(self)@ == old(self)@.committing(volume@, crossing),
    {
        self.archive_commit_volumes.push((volume, crossing));
        assert(self@.commits =~= old(self)@.commits.push((volume@, crossing)));
    }

    pub fn change(&mut self, path: &FilePath)
        ensures
            final(self)@ == old(self)@.changing(path@),
    {
        let key = path_key(path);
        proof {
            lemma_texts_push(self.mutation_paths@, key);
        }
        self.mutation_paths.push(key);
    }

    pub fn reserve_storage(&mut self, facts: &DiskFacts, path: &FilePath, bytes: u64)
        ensures
            final(self)@ == old(self)@.reserving(*facts, path@, bytes),
    {
        if bytes == 0 {
            return ;
        }
        let volume = facts.volume_key(path);
        let ghost room = Room { volume: volume@, probe: path@, bytes };
        self.storage_reservations.push(
            StorageReservation { volume, probe_path: path.copied(), bytes },
        );
        assert(self@.storage =~= old(self)@.storage.push(room));
    }
}

/// Whether a list of volumes is the set of the wanted ones, in rising order.
pub open spec fn is_sorted_set(list: Seq<String>, wanted: Seq<Seq<char>>) -> bool {
    &&& ordered::ascending_texts(list)
    &&& forall|key: Seq<char>| #[trigger] counts::lists(list, key) <==> wanted.contains(key)
}

/// Whether a list of volumes is the set of the wanted ones without the others,
/// in rising order.
pub open spec fn is_sorted_difference(
    list: Seq<String>,
    wanted: Seq<Seq<char>>,
    others: Seq<Seq<char>>,
) -> bool {
    &&& ordered::ascending_texts(list)
    &&& forall|key: Seq<char>| #[trigger]
        counts::lists(list, key) <==> wanted.contains(key) && !others.contains(key)
}

/// Whether one pair comes before another.
pub open spec fn pair_less(a: (Seq<char>, bool), b: (Seq<char>, bool)) -> bool {
    ordered::text_less(a.0, b.0) || (a.0 == b.0 && !a.1 && b.1)
}

/// Whether a list of pairs is the set of the wanted ones, in rising order.
pub open spec fn is_sorted_pairs(
    list: Seq<(Seq<char>, bool)>,
    wanted: Seq<(Seq<char>, bool)>,
) -> bool {
    &&& forall|a: int, b: int|
        0 <= a < b < list.len() ==> pair_less(#[trigger] list[a], #[trigger] list[b])
    &&& forall|pair: (Seq<char>, bool)| #[trigger] list.contains(pair) <==> wanted.contains(pair)
}

/// The room that is wanted on a volume in all, up to what a number holds.
pub open spec fn room_total(storage: Seq<Room>, volume: Seq<char>) -> int
    decreases storage.len(),
{
    if storage.len() == 0 {
        0
    } else {
        let rest = room_total(storage.drop_last(), volume);
        if storage.last().volume == volume {
            if rest + storage.last().bytes <= u64::MAX {
                rest + storage.last().bytes
            } else {
                u64::MAX as int
            }
        } else {
            rest
        }
    }
}

/// The path of the first room that is wanted on a volume.
pub open spec fn room_probe(storage: Seq<Room>, volume: Seq<char>) -> Option<PathModel>
    decreases storage.len(),
{
    if storage.len() == 0 {
        None
    } else {
        match room_probe(storage.drop_last(), volume) {
            Some(probe) => Some(probe),
            None => if storage.last().volume == volume {
                Some(storage.last().probe)
            } else {
                None
            },
        }
    }
}

/// Whether a list holds one room for each wanted volume, in rising order of
/// the volumes, with all that is wanted there.
pub open spec fn is_merged_storage(list: Seq<Room>, wanted: Seq<Room>) -> bool {
    &&& forall|a: int, b: int|
        0 <= a < b < list.len() ==> ordered::text_less(
            (#[trigger] list[a]).volume,
            (#[trigger] list[b]).volume,
        )
    &&& forall|i: int|
        0 <= i < list.len() ==> is_merged_room(#[trigger] list[i], wanted)
    &&& forall|volume: Seq<char>|
        #![trigger room_probe(wanted, volume)]
        room_probe(wanted, volume) is Some ==> exists|i: int|
            0 <= i < list.len() && (#[trigger] list[i]).volume == volume
}

/// Whether a room is all that is wanted on its volume.
pub open spec fn is_merged_room(room: Room, wanted: Seq<Room>) -> bool {
    &&& room_probe(wanted, room.volume) == Some(room.probe)
    &&& room.bytes == room_total(wanted, room.volume)
}

/// Whether a request is the normal form of needs: each list is a set in rising
/// order, what is written is not touched as well, and room is added up for
/// each volume.
pub open spec fn is_normal(request: ResourceRequest, needs: Needs) -> bool {
    &&& request.run == needs.run
    &&& request.network == needs.network
    &&& is_sorted_set(request.read_volumes@, needs.reads)
    &&& is_sorted_set(request.write_volumes@, needs.writes)
    &&& is_sorted_difference(request.metadata_volumes@, needs.metadata, needs.writes)
    &&& is_sorted_set(request.archive_save_volumes@, needs.savers)
    &&& is_sorted_pairs(pairs(request.archive_commit_volumes@), needs.commits)
    &&& request.extract == needs.extract
    &&& is_sorted_set(request.mutation_paths@, needs.mutations)
    &&& is_merged_storage(rooms(request.storage_reservations@), needs.storage)
    &&& request.estimated_bytes == needs.estimated_bytes
    &&& request.reuse_probe == needs.reuse_probe
    &&& request.reuse_commit == needs.reuse_commit
}

proof fn lemma_lists_are_texts(list: Seq<String>, key: Seq<char>)
    ensures
        counts::lists(list, key) <==> text::texts(list).contains(key),
{
    if counts::lists(list, key) {
        let k = choose|k: int| 0 <= k < list.len() && (#[trigger] list[k])@ == key;
        assert(text::texts(list)[k] == key);
    }
    if text::texts(list).contains(key) {
        let k = choose|k: int| 0 <= k < text::texts(list).len() && text::texts(list)[k] == key;
        assert(list[k]@ == key);
    }
}

/// The set of the texts of a list, in rising order.
fn sorted_set(list: &Vec<String>) -> (sorted: Vec<String>)
    ensures
        is_sorted_set(sorted@, text::texts(list@)),
{
    let sorted = ordered::sorted_texts(list);
    proof {
        assert forall|key: Seq<char>| #[trigger]
            counts::lists(sorted@, key) <==> text::texts(list@).contains(key) by {
            lemma_lists_are_texts(list@, key);
        }
    }
    sorted
}

/// The set of the texts of a list that another list does not hold, in rising
/// order.
fn sorted_difference(list: &Vec<String>, others: &Vec<String>) -> (sorted: Vec<String>)
    ensures
        is_sorted_difference(sorted@, text::texts(list@), text::texts(others@)),
{
    let mut sorted: Vec<String> = Vec::new();
    let mut k: usize = 0;
    while k < list.len()
        invariant
            k <= list@.len(),
            ordered::ascending_texts(sorted@),
            forall|key: Seq<char>| #[trigger]
                counts::lists(sorted@, key) <==> counts::lists(list@.take(k as int), key)
                    && !counts::lists(others@, key),
        decreases list@.len() - k,
    {
        let ghost before = sorted@;
        if !counts::list_contains(others, list[k].as_str()) {
            ordered::insert_text(&mut sorted, list[k].as_str());
        }
        proof {
            assert(list@.take(k + 1) =~= list@.take(k as int).push(list@[k as int]));
            assert forall|key: Seq<char>| #[trigger]
                counts::lists(sorted@, key) <==> counts::lists(list@.take(k + 1), key)
                    && !counts::lists(others@, key) by {
                counts::lemma_lists_push(list@.take(k as int), list@[k as int], key);
                assert(counts::lists(before, key) <==> counts::lists(list@.take(k as int), key)
                    && !counts::lists(others@, key));
            }
        }
        k = k + 1;
    }
    proof {
        assert(list@.take(k as int) =~= list@);
        assert forall|key: Seq<char>| #[trigger]
            counts::lists(sorted@, key) <==> text::texts(list@).contains(key) && !text::texts(
                others@,
            ).contains(key) by {
            lemma_lists_are_texts(list@, key);
            lemma_lists_are_texts(others@, key);
        }
    }
    sorted
}

proof fn lemma_pair_order(a: (Seq<char>, bool), b: (Seq<char>, bool), c: (Seq<char>, bool))
    ensures
        a == b || pair_less(a, b) || pair_less(b, a),
        !(pair_less(a, b) && pair_less(b, a)),
        pair_less(a, b) && pair_less(b, c) ==> pair_less(a, c),
{
    ordered::law_text_order_is_total(a.0, b.0);
    ordered::law_text_order_is_total(b.0, c.0);
    if ordered::text_less(a.0, b.0) && ordered::text_less(b.0, c.0) {
        ordered::law_text_order_is_transitive(a.0, b.0, c.0);
    }
}

fn pair_before(a: &(String, bool), b: &(String, bool)) -> (yes: bool)
    ensures
        yes == pair_less((a.0@, a.1), (b.0@, b.1)),
{
    ordered::text_before(a.0.as_str(), b.0.as_str()) || (text::same_string(&a.0, &b.0) && !a.1
        && b.1)
}

/// Adds a pair to a rising list, unless it is there.
fn insert_pair(list: &mut Vec<(String, bool)>, value: &(String, bool))
    requires
        forall|a: int, b: int|
            0 <= a < b < old(list)@.len() ==> pair_less(
                #[trigger] pairs(old(list)@)[a],
                #[trigger] pairs(old(list)@)[b],
            ),
    ensures
        forall|a: int, b: int|
            0 <= a < b < final(list)@.len() ==> pair_less(
                #[trigger] pairs(final(list)@)[a],
                #[trigger] pairs(final(list)@)[b],
            ),
        forall|pair: (Seq<char>, bool)| #[trigger]
            pairs(final(list)@).contains(pair) <==> pairs(old(list)@).contains(pair) || pair == (
                value.0@,
                value.1,
            ),
{
    let ghost before = pairs(list@);
    let ghost wanted = (value.0@, value.1);
    let mut at: usize = 0;
    while at < list.len() && pair_before(&list[at], value)
        invariant
            at <= list@.len(),
            pairs(list@) == before,
            wanted == (value.0@, value.1),
            forall|j: int| 0 <= j < at ==> pair_less(#[trigger] before[j], wanted),
        decreases list@.len() - at,
    {
        assert(before[at as int] == (list@[at as int].0@, list@[at as int].1));
        at = at + 1;
    }
    if at < list.len() && text::same_string(&list[at].0, &value.0) && list[at].1 == value.1 {
        assert(before[at as int] == wanted);
        return ;
    }
    list.insert(at, (value.0.clone(), value.1));
    proof {
        let after = pairs(list@);
        assert(after =~= before.insert(at as int, wanted));
        assert forall|j: int| at <= j < before.len() implies pair_less(
            wanted,
            #[trigger] before[j],
        ) by {
            lemma_pair_order(wanted, before[at as int], before[j]);
            if j > at {
                assert(pair_less(before[at as int], before[j]));
            }
        }
        assert forall|a: int, b: int| 0 <= a < b < after.len() implies pair_less(
            #[trigger] after[a],
            #[trigger] after[b],
        ) by {
            let a2 = if a < at {
                a
            } else {
                a - 1
            };
            let b2 = if b < at {
                b
            } else {
                b - 1
            };
            if a != at {
                assert(after[a] == before[a2]);
            }
            if b != at {
                assert(after[b] == before[b2]);
            }
        }
        assert forall|pair: (Seq<char>, bool)| #[trigger]
            after.contains(pair) <==> before.contains(pair) || pair == wanted by {
            if before.contains(pair) {
                let j = choose|j: int| 0 <= j < before.len() && before[j] == pair;
                if j < at {
                    assert(after[j] == pair);
                } else {
                    assert(after[j + 1] == pair);
                }
            }
            if pair == wanted {
                assert(after[at as int] == pair);
            }
            if after.contains(pair) {
                let j = choose|j: int| 0 <= j < after.len() && after[j] == pair;
                if j < at {
                    assert(before[j] == pair);
                } else if j > at {
                    assert(before[j - 1] == pair);
                }
            }
        }
    }
}

fn sorted_pairs(list: &Vec<(String, bool)>) -> (sorted: Vec<(String, bool)>)
    ensures
        is_sorted_pairs(pairs(sorted@), pairs(list@)),
{
    let mut sorted: Vec<(String, bool)> = Vec::new();
    let mut k: usize = 0;
    let ghost all = pairs(list@);
    assert(pairs(sorted@) =~= Seq::<(Seq<char>, bool)>::empty());
    while k < list.len()
        invariant
            k <= list@.len(),
            all == pairs(list@),
            is_sorted_pairs(pairs(sorted@), all.take(k as int)),
        decreases list@.len() - k,
    {
        insert_pair(&mut sorted, &list[k]);
        proof {
            let here = (list@[k as int].0@, list@[k as int].1);
            assert(all.take(k + 1) =~= all.take(k as int).push(here));
            assert forall|pair: (Seq<char>, bool)| #[trigger]
                pairs(sorted@).contains(pair) <==> all.take(k + 1).contains(pair) by {
                lemma_contains_push(all.take(k as int), here, pair);
            }
        }
        k = k + 1;
    }
    assert(all.take(k as int) =~= all);
    sorted
}

proof fn lemma_contains_push<A>(s: Seq<A>, item: A, x: A)
    ensures
        s.push(item).contains(x) <==> s.contains(x) || x == item,
{
    let more = s.push(item);
    if s.contains(x) {
        let k = choose|k: int| 0 <= k < s.len() && s[k] == x;
        assert(more[k] == x);
    }
    if x == item {
        assert(more[s.len() as int] == x);
    }
    if more.contains(x) {
        let k = choose|k: int| 0 <= k < more.len() && more[k] == x;
        if k < s.len() {
            assert(s[k] == x);
        }
    }
}

proof fn lemma_room_total(storage: Seq<Room>, volume: Seq<char>)
    ensures
        0 <= room_total(storage, volume) <= u64::MAX,
        room_probe(storage, volume) is None ==> room_total(storage, volume) == 0,
    decreases storage.len(),
{
    if storage.len() > 0 {
        lemma_room_total(storage.drop_last(), volume);
    }
}

/// Adds a reservation to a rising list, or to the one of the same volume.
fn merge_room(list: &mut Vec<StorageReservation>, room: &StorageReservation, Ghost(done): Ghost<
    Seq<Room>,
>)
    requires
        is_merged_storage(rooms(old(list)@), done),
    ensures
        is_merged_storage(
            rooms(final(list)@),
            done.push(
                Room { volume: room.volume@, probe: room.probe_path@, bytes: room.bytes },
            ),
        ),
{
    let ghost before = rooms(list@);
    let ghost here = Room { volume: room.volume@, probe: room.probe_path@, bytes: room.bytes };
    let ghost more = done.push(here);
    proof {
        assert(more.drop_last() =~= done);
        assert(more.last() == here);
        lemma_room_total(done, here.volume);
    }
    let mut at: usize = 0;
    while at < list.len() && ordered::text_before(list[at].volume.as_str(), room.volume.as_str())
        invariant
            at <= list@.len(),
            rooms(list@) == before,
            here.volume == room.volume@,
            forall|j: int|
                0 <= j < at ==> ordered::text_less((#[trigger] before[j]).volume, here.volume),
        decreases list@.len() - at,
    {
        assert(before[at as int].volume == list@[at as int].volume@);
        at = at + 1;
    }
    if at < list.len() && text::same_string(&list[at].volume, &room.volume) {
        assert(is_merged_room(before[at as int], done));
        list[at].bytes = list[at].bytes.saturating_add(room.bytes);
        proof {
            let after = rooms(list@);
            assert forall|j: int| 0 <= j < after.len() && j != at implies #[trigger] after[j]
                == before[j] by {}
            assert forall|i: int| 0 <= i < after.len() implies is_merged_room(
                #[trigger] after[i],
                more,
            ) by {
                assert(is_merged_room(before[i], done));
                if i != at {
                    lemma_other_volume(before, i, at as int, here);
                }
            }
            assert forall|a: int, b: int| 0 <= a < b < after.len() implies ordered::text_less(
                (#[trigger] after[a]).volume,
                (#[trigger] after[b]).volume,
            ) by {
                assert(after[a].volume == before[a].volume);
                assert(after[b].volume == before[b].volume);
                assert(ordered::text_less(before[a].volume, before[b].volume));
            }
            assert forall|volume: Seq<char>|
                #![trigger room_probe(more, volume)]
                room_probe(more, volume) is Some implies exists|i: int|
                0 <= i < after.len() && (#[trigger] after[i]).volume == volume by {
                if volume == here.volume {
                    assert(after[at as int].volume == volume);
                } else {
                    assert(room_probe(done, volume) is Some);
                    let i = choose|i: int|
                        0 <= i < before.len() && (#[trigger] before[i]).volume == volume;
                    assert(after[i].volume == volume);
                }
            }
        }
        return ;
    }
    list.insert(
        at,
        StorageReservation {
            volume: room.volume.clone(),
            probe_path: room.probe_path.copied(),
            bytes: room.bytes,
        },
    );
    proof {
        let after = rooms(list@);
        assert(after =~= before.insert(at as int, here));
        assert forall|j: int| at <= j < before.len() implies ordered::text_less(
            here.volume,
            (#[trigger] before[j]).volume,
        ) by {
            ordered::law_text_order_is_total(here.volume, before[at as int].volume);
            if j > at {
                assert(ordered::text_less(before[at as int].volume, before[j].volume));
                ordered::law_text_order_is_transitive(
                    here.volume,
                    before[at as int].volume,
                    before[j].volume,
                );
            }
        }
        assert forall|j: int| 0 <= j < before.len() implies (#[trigger] before[j]).volume
            != here.volume by {
            ordered::law_text_order_is_total(here.volume, here.volume);
        }
        assert(room_probe(done, here.volume) is None) by {
            if room_probe(done, here.volume) is Some {
                let i = choose|i: int|
                    0 <= i < before.len() && (#[trigger] before[i]).volume == here.volume;
                assert(before[i].volume != here.volume);
            }
        }
        assert forall|i: int| 0 <= i < after.len() implies is_merged_room(
            #[trigger] after[i],
            more,
        ) by {
            if i != at {
                let i2 = if i < at {
                    i
                } else {
                    i - 1
                };
                assert(after[i] == before[i2]);
                assert(is_merged_room(before[i2], done));
                assert(before[i2].volume != here.volume);
            }
        }
        assert forall|a: int, b: int| 0 <= a < b < after.len() implies ordered::text_less(
            (#[trigger] after[a]).volume,
            (#[trigger] after[b]).volume,
        ) by {
            let a2 = if a < at {
                a
            } else {
                a - 1
            };
            let b2 = if b < at {
                b
            } else {
                b - 1
            };
            if a != at {
                assert(after[a] == before[a2]);
            }
            if b != at {
                assert(after[b] == before[b2]);
            }
        }
        assert forall|volume: Seq<char>|
            #![trigger room_probe(more, volume)]
            room_probe(more, volume) is Some implies exists|i: int|
            0 <= i < after.len() && (#[trigger] after[i]).volume == volume by {
            if volume == here.volume {
                assert(after[at as int].volume == volume);
            } else {
                assert(room_probe(done, volume) is Some);
                let i = choose|i: int|
                    0 <= i < before.len() && (#[trigger] before[i]).volume == volume;
                if i < at {
                    assert(after[i].volume == volume);
                } else {
                    assert(after[i + 1].volume == volume);
                }
            }
        }
    }
}

proof fn lemma_other_volume(list: Seq<Room>, i: int, at: int, here: Room)
    requires
        forall|a: int, b: int|
            0 <= a < b < list.len() ==> ordered::text_less(
                (#[trigger] list[a]).volume,
                (#[trigger] list[b]).volume,
            ),
        0 <= i < list.len(),
        0 <= at < list.len(),
        i != at,
        list[at].volume == here.volume,
    ensures
        list[i].volume != here.volume,
{
    ordered::law_text_order_is_total(here.volume, here.volume);
    if i < at {
        assert(ordered::text_less(list[i].volume, list[at].volume));
    } else {
        assert(ordered::text_less(list[at].volume, list[i].volume));
    }
}

fn merged_storage(list: &Vec<StorageReservation>) -> (merged: Vec<StorageReservation>)
    ensures
        is_merged_storage(rooms(merged@), rooms(list@)),
{
    let mut merged: Vec<StorageReservation> = Vec::new();
    let mut k: usize = 0;
    let ghost all = rooms(list@);
    assert(all.take(0).len() == 0);
    while k < list.len()
        invariant
            k <= list@.len(),
            all == rooms(list@),
            is_merged_storage(rooms(merged@), all.take(k as int)),
        decreases list@.len() - k,
    {
        merge_room(&mut merged, &list[k], Ghost(all.take(k as int)));
        proof {
            assert(all.take(k + 1) =~= all.take(k as int).push(all[k as int]));
        }
        k = k + 1;
    }
    assert(all.take(k as int) =~= all);
    merged
}

/// Brings a request into its normal form.
pub fn normalize_volumes(request: &mut ResourceRequest)
    ensures
        is_normal(*final(request), old(request)@),
{
    let writes = sorted_set(&request.write_volumes);
    let metadata = sorted_difference(&request.metadata_volumes, &request.write_volumes);
    let reads = sorted_set(&request.read_volumes);
    let savers = sorted_set(&request.archive_save_volumes);
    let commits = sorted_pairs(&request.archive_commit_volumes);
    let mutations = sorted_set(&request.mutation_paths);
    let storage = merged_storage(&request.storage_reservations);
    request.write_volumes = writes;
    request.metadata_volumes = metadata;
    request.read_volumes = reads;
    request.archive_save_volumes = savers;
    request.archive_commit_volumes = commits;
    request.mutation_paths = mutations;
    request.storage_reservations = storage;
}

/// A request in normal form names no volume twice, so that admitting it keeps
/// the limits of each volume.
pub proof fn law_normal_requests_are_single(request: ResourceRequest, needs: Needs)
    requires
        is_normal(request, needs),
    ensures
        forall|key: Seq<char>| #[trigger]
            counts::occurrences(request.read_volumes@, key) <= 1,
        forall|key: Seq<char>| #[trigger]
            counts::occurrences(request.write_volumes@, key) <= 1,
        forall|key: Seq<char>| #[trigger]
            counts::occurrences(request.metadata_volumes@, key) <= 1,
{
    assert forall|key: Seq<char>| #[trigger] counts::occurrences(request.read_volumes@, key)
        <= 1 by {
        ordered::lemma_ascending_is_single(request.read_volumes@, key);
    }
    assert forall|key: Seq<char>| #[trigger] counts::occurrences(request.write_volumes@, key)
        <= 1 by {
        ordered::lemma_ascending_is_single(request.write_volumes@, key);
    }
    assert forall|key: Seq<char>| #[trigger] counts::occurrences(request.metadata_volumes@, key)
        <= 1 by {
        ordered::lemma_ascending_is_single(request.metadata_volumes@, key);
    }
}

/// Two lists that rise strictly and hold the same are the same.
proof fn lemma_rising_is_determined<T>(a: Seq<T>, b: Seq<T>, less: spec_fn(T, T) -> bool)
    requires
        forall|x: T, y: T| #[trigger] less(x, y) ==> !less(y, x),
        forall|i: int, j: int|
            0 <= i < j < a.len() ==> less(#[trigger] a[i], #[trigger] a[j]),
        forall|i: int, j: int|
            0 <= i < j < b.len() ==> less(#[trigger] b[i], #[trigger] b[j]),
        forall|x: T| #[trigger] a.contains(x) <==> b.contains(x),
    ensures
        a == b,
    decreases a.len(),
{
    if a.len() == 0 {
        if b.len() > 0 {
            assert(b.contains(b[0]));
            assert(a.contains(b[0]));
        }
        assert(a =~= b);
    } else {
        assert(a.contains(a.last()));
        assert(b.contains(a.last()));
        let i = choose|i: int| 0 <= i < b.len() && b[i] == a.last();
        assert(b.contains(b.last()));
        assert(a.contains(b.last()));
        let j = choose|j: int| 0 <= j < a.len() && a[j] == b.last();
        if i < b.len() - 1 {
            assert(less(b[i], b[b.len() - 1]));
            if j < a.len() - 1 {
                assert(less(a[j], a[a.len() - 1]));
            }
        }
        assert(a.last() == b.last());
        let a2 = a.drop_last();
        let b2 = b.drop_last();
        assert forall|x: T| #[trigger] a2.contains(x) <==> b2.contains(x) by {
            lemma_without_the_last(a, less, x);
            lemma_without_the_last(b, less, x);
            assert(a.contains(x) <==> b.contains(x));
        }
        assert forall|i: int, j: int| 0 <= i < j < a2.len() implies less(
            #[trigger] a2[i],
            #[trigger] a2[j],
        ) by {
            assert(less(a[i], a[j]));
        }
        assert forall|i: int, j: int| 0 <= i < j < b2.len() implies less(
            #[trigger] b2[i],
            #[trigger] b2[j],
        ) by {
            assert(less(b[i], b[j]));
        }
        lemma_rising_is_determined(a2, b2, less);
        assert(a =~= a2.push(a.last()));
        assert(b =~= b2.push(b.last()));
    }
}

proof fn lemma_without_the_last<T>(a: Seq<T>, less: spec_fn(T, T) -> bool, x: T)
    requires
        a.len() > 0,
        forall|x: T, y: T| #[trigger] less(x, y) ==> !less(y, x),
        forall|i: int, j: int|
            0 <= i < j < a.len() ==> less(#[trigger] a[i], #[trigger] a[j]),
    ensures
        a.drop_last().contains(x) <==> a.contains(x) && x != a.last(),
{
    let rest = a.drop_last();
    if rest.contains(x) {
        let k = choose|k: int| 0 <= k < rest.len() && rest[k] == x;
        assert(a[k] == x);
        assert(less(a[k], a[a.len() - 1]));
    }
    if a.contains(x) && x != a.last() {
        let k = choose|k: int| 0 <= k < a.len() && a[k] == x;
        assert(rest[k] == x);
    }
}

/// Where each volume has one room, that room is all that is wanted there.
proof fn lemma_single_rooms(list: Seq<Room>, volume: Seq<char>)
    requires
        forall|a: int, b: int|
            0 <= a < b < list.len() ==> ordered::text_less(
                (#[trigger] list[a]).volume,
                (#[trigger] list[b]).volume,
            ),
    ensures
        forall|k: int|
            0 <= k < list.len() && (#[trigger] list[k]).volume == volume ==> is_merged_room(
                list[k],
                list,
            ),
        room_probe(list, volume) is Some ==> exists|k: int|
            0 <= k < list.len() && (#[trigger] list[k]).volume == volume,
        room_probe(list, volume) is None ==> room_total(list, volume) == 0,
    decreases list.len(),
{
    if list.len() > 0 {
        let rest = list.drop_last();
        let last = list.len() - 1;
        assert forall|a: int, b: int| 0 <= a < b < rest.len() implies ordered::text_less(
            (#[trigger] rest[a]).volume,
            (#[trigger] rest[b]).volume,
        ) by {
            assert(ordered::text_less(list[a].volume, list[b].volume));
        }
        lemma_single_rooms(rest, volume);
        assert forall|k: int| 0 <= k < last implies (#[trigger] list[k]).volume
            != list[last].volume by {
            assert(ordered::text_less(list[k].volume, list[last].volume));
            ordered::law_text_order_is_total(list[k].volume, list[k].volume);
        }
        if list[last].volume == volume && room_probe(rest, volume) is Some {
            let k = choose|k: int| 0 <= k < rest.len() && (#[trigger] rest[k]).volume == volume;
            assert(list[k].volume == volume);
        }
        assert forall|k: int|
            0 <= k < list.len() && (#[trigger] list[k]).volume == volume implies is_merged_room(
            list[k],
            list,
        ) by {
            if k < last {
                assert(rest[k].volume == volume);
                assert(is_merged_room(rest[k], rest));
            }
        }
        if room_probe(list, volume) is Some {
            if room_probe(rest, volume) is Some {
                let k = choose|k: int|
                    0 <= k < rest.len() && (#[trigger] rest[k]).volume == volume;
                assert(list[k].volume == volume);
            } else {
                assert(list[last].volume == volume);
            }
        }
    }
}

proof fn lemma_same_texts(once: Seq<String>, twice: Seq<String>)
    requires
        ordered::ascending_texts(once),
        ordered::ascending_texts(twice),
        forall|key: Seq<char>| #[trigger]
            counts::lists(twice, key) <==> text::texts(once).contains(key),
    ensures
        text::texts(twice) == text::texts(once),
{
    assert forall|key: Seq<char>| #[trigger] counts::lists(twice, key) <==> counts::lists(
        once,
        key,
    ) by {
        lemma_lists_are_texts(once, key);
    }
    ordered::law_ascending_lists_are_determined(twice, once);
    assert(text::texts(twice) =~= text::texts(once));
}

/// A request that is in its normal form is not changed by bringing it into its
/// normal form again.
pub proof fn law_normal_form_is_final(
    needs: Needs,
    once: ResourceRequest,
    twice: ResourceRequest,
)
    requires
        is_normal(once, needs),
        is_normal(twice, once@),
    ensures
        twice@ == once@,
{
    lemma_same_texts(once.read_volumes@, twice.read_volumes@);
    lemma_same_texts(once.write_volumes@, twice.write_volumes@);
    lemma_same_texts(once.archive_save_volumes@, twice.archive_save_volumes@);
    lemma_same_texts(once.mutation_paths@, twice.mutation_paths@);
    assert forall|key: Seq<char>| #[trigger]
        counts::lists(twice.metadata_volumes@, key) <==> text::texts(
            once.metadata_volumes@,
        ).contains(key) by {
        lemma_lists_are_texts(once.metadata_volumes@, key);
        lemma_lists_are_texts(once.write_volumes@, key);
        assert(counts::lists(once.write_volumes@, key) <==> needs.writes.contains(key));
    }
    lemma_same_texts(once.metadata_volumes@, twice.metadata_volumes@);
    let less = |a: (Seq<char>, bool), b: (Seq<char>, bool)| pair_less(a, b);
    assert forall|x: (Seq<char>, bool), y: (Seq<char>, bool)| #[trigger] less(x, y) implies !less(
        y,
        x,
    ) by {
        ordered::law_text_order_is_total(x.0, y.0);
        ordered::law_text_order_is_total(x.0, x.0);
    }
    let first = pairs(once.archive_commit_volumes@);
    let second = pairs(twice.archive_commit_volumes@);
    assert forall|i: int, j: int| 0 <= i < j < first.len() implies less(
        #[trigger] first[i],
        #[trigger] first[j],
    ) by {
        assert(pair_less(first[i], first[j]));
    }
    assert forall|i: int, j: int| 0 <= i < j < second.len() implies less(
        #[trigger] second[i],
        #[trigger] second[j],
    ) by {
        assert(pair_less(second[i], second[j]));
    }
    lemma_rising_is_determined(second, first, less);
    let room_less = |a: Room, b: Room| ordered::text_less(a.volume, b.volume);
    assert forall|x: Room, y: Room| #[trigger] room_less(x, y) implies !room_less(y, x) by {
        ordered::law_text_order_is_total(x.volume, y.volume);
    }
    let before = rooms(once.storage_reservations@);
    let after = rooms(twice.storage_reservations@);
    assert forall|x: Room| #[trigger] after.contains(x) <==> before.contains(x) by {
        lemma_single_rooms(before, x.volume);
        if after.contains(x) {
            let i = choose|i: int| 0 <= i < after.len() && after[i] == x;
            assert(is_merged_room(after[i], before));
            let k = choose|k: int|
                0 <= k < before.len() && (#[trigger] before[k]).volume == x.volume;
            assert(is_merged_room(before[k], before));
            assert(before[k] == x);
        }
        if before.contains(x) {
            let k = choose|k: int| 0 <= k < before.len() && before[k] == x;
            assert(is_merged_room(before[k], before));
            assert(room_probe(before, x.volume) is Some);
            let i = choose|i: int|
                0 <= i < after.len() && (#[trigger] after[i]).volume == x.volume;
            assert(is_merged_room(after[i], before));
            assert(after[i] == x);
        }
    }
    assert forall|i: int, j: int| 0 <= i < j < before.len() implies room_less(
        #[trigger] before[i],
        #[trigger] before[j],
    ) by {
        assert(ordered::text_less(before[i].volume, before[j].volume));
    }
    assert forall|i: int, j: int| 0 <= i < j < after.len() implies room_less(
        #[trigger] after[i],
        #[trigger] after[j],
    ) by {
        assert(ordered::text_less(after[i].volume, after[j].volume));
    }
    lemma_rising_is_determined(after, before, room_less);
    assert(twice@ =~= once@);
}

} // verus!
