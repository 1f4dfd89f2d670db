//! Counters and sets keyed by text.

use crate::text;
use vstd::prelude::*;

verus! {

/// Whether a list holds a text.
pub open spec fn lists(list: Seq<String>, key: Seq<char>) -> bool {
    exists|k: int| 0 <= k < list.len() && (#[trigger] list[k])@ == key
}

/// How often a list holds a text.
pub open spec fn occurrences(list: Seq<String>, key: Seq<char>) -> int
    decreases list.len(),
{
    if list.len() == 0 {
        0
    } else {
        occurrences(list.drop_last(), key) + (if list.last()@ == key {
            1int
        } else {
            0int
        })
    }
}

/// A count that stops at the largest machine number.
pub open spec fn capped(n: int) -> int {
    if n <= usize::MAX {
        n
    } else {
        usize::MAX as int
    }
}

/// `a - b`, or zero.
pub open spec fn monus(a: int, b: int) -> int {
    if b <= a {
        a - b
    } else {
        0
    }
}

/// Whether a list holds a text.
pub fn list_contains(list: &Vec<String>, key: &str) -> (found: bool)
    ensures
        found == lists(list@, key@),
{
    let mut k: usize = 0;
    while k < list.len()
        invariant
            k <= list@.len(),
            forall|j: int| 0 <= j < k ==> (#[trigger] list@[j])@ != key@,
        decreases list@.len() - k,
    {
        if text::same_text(list[k].as_str(), key) {
            return true;
        }
        k = k + 1;
    }
    false
}

/// What one pass over a list adds to an occurrence count.
pub proof fn lemma_occurrences_step(list: Seq<String>, k: int, key: Seq<char>)
    requires
        0 <= k < list.len(),
    ensures
        occurrences(list.take(k + 1), key) == occurrences(list.take(k), key) + (if list[k]@ == key {
            1int
        } else {
            0int
        }),
{
    assert(list.take(k + 1).drop_last() =~= list.take(k));
    assert(list.take(k + 1).last() == list[k]);
}

/// A list holds a text exactly when it holds it at least once.
pub proof fn lemma_occurrences_listed(list: Seq<String>, key: Seq<char>)
    ensures
        occurrences(list, key) >= 0,
        lists(list, key) <==> occurrences(list, key) > 0,
    decreases list.len(),
{
    if list.len() > 0 {
        lemma_occurrences_listed(list.drop_last(), key);
        if lists(list.drop_last(), key) {
            let k = choose|k: int|
                0 <= k < list.drop_last().len() && (#[trigger] list.drop_last()[k])@ == key;
            assert(list[k]@ == key);
        }
        if list.last()@ == key {
            assert(list[list.len() - 1]@ == key);
        }
        if lists(list, key) {
            let k = choose|k: int| 0 <= k < list.len() && (#[trigger] list[k])@ == key;
            if k < list.len() - 1 {
                assert(list.drop_last()[k]@ == key);
            }
        }
    }
}

/// One counter for each text. A text that is not there counts as zero, and no
/// zero is kept.
pub struct TextCounts {
    entries: Vec<(String, usize)>,
}

impl TextCounts {
    /// The place of a text among the entries.
    spec fn at(entries: Seq<(String, usize)>, key: Seq<char>, k: int) -> bool {
        0 <= k < entries.len() && entries[k].0@ == key
    }

    spec fn counted(entries: Seq<(String, usize)>, key: Seq<char>) -> int {
        if exists|k: int| Self::at(entries, key, k) {
            entries[choose|k: int| Self::at(entries, key, k)].1 as int
        } else {
            0
        }
    }

    /// The count of a text.
    pub closed spec fn count(&self, key: Seq<char>) -> int {
        Self::counted(self.entries@, key)
    }

    pub closed spec fn inv(&self) -> bool {
        &&& forall|i: int, j: int|
            0 <= i < j < self.entries@.len() ==> (#[trigger] self.entries@[i]).0@ != (
            #[trigger] self.entries@[j]).0@
        &&& forall|i: int| 0 <= i < self.entries@.len() ==> (#[trigger] self.entries@[i]).1 > 0
    }

    proof fn lemma_count(&self, key: Seq<char>, k: int)
        requires
            self.inv(),
            Self::at(self.entries@, key, k),
        ensures
            self.count(key) == self.entries@[k].1,
    {
        let l = choose|l: int| Self::at(self.entries@, key, l);
        assert(Self::at(self.entries@, key, l));
        if l < k {
            assert(self.entries@[l].0@ != self.entries@[k].0@);
        } else if k < l {
            assert(self.entries@[k].0@ != self.entries@[l].0@);
        }
    }

    proof fn lemma_absent(&self, key: Seq<char>)
        requires
            forall|j: int|
                0 <= j < self.entries@.len() ==> (#[trigger] self.entries@[j]).0@ != key,
        ensures
            self.count(key) == 0,
    {
        if exists|k: int| Self::at(self.entries@, key, k) {
            let k = choose|k: int| Self::at(self.entries@, key, k);
            assert(self.entries@[k].0@ != key);
        }
    }

    /// Counters that all stand at zero.
    pub fn new() -> (counts: TextCounts)
        ensures
            counts.inv(),
            forall|key: Seq<char>| #[trigger] counts.count(key) == 0,
    {
        let counts = TextCounts { entries: Vec::new() };
        proof {
            assert forall|key: Seq<char>| #[trigger] counts.count(key) == 0 by {
                counts.lemma_absent(key);
            }
        }
        counts
    }

    fn find(&self, key: &str) -> (found: Option<usize>)
        ensures
            match found {
                Some(k) => Self::at(self.entries@, key@, k as int),
                None => forall|j: int|
                    0 <= j < self.entries@.len() ==> (#[trigger] self.entries@[j]).0@ != key@,
            },
    {
        let mut k: usize = 0;
        while k < self.entries.len()
            invariant
                k <= self.entries@.len(),
                forall|j: int| 0 <= j < k ==> (#[trigger] self.entries@[j]).0@ != key@,
            decreases self.entries@.len() - k,
        {
            if text::same_text(self.entries[k].0.as_str(), key) {
                return Some(k);
            }
            k = k + 1;
        }
        None
    }

    pub fn get(&self, key: &str) -> (count: usize)
        requires
            self.inv(),
        ensures
            count == self.count(key@),
    {
        match self.find(key) {
            Some(k) => {
                proof {
                    self.lemma_count(key@, k as int);
                }
                self.entries[k].1
            },
            None => {
                proof {
                    self.lemma_absent(key@);
                }
                0
            },
        }
    }

    /// Counts a text once more.
    pub fn increment(&mut self, key: &str)
        requires
            old(self).inv(),
        ensures
            final(self).inv(),
            final(self).count(key@) == capped(old(self).count(key@) + 1),
            forall|other: Seq<char>|
                other != key@ ==> #[trigger] final(self).count(other) == old(self).count(other),
    {
        let ghost before = *self;
        match self.find(key) {
            Some(k) => {
                proof {
                    self.lemma_count(key@, k as int);
                }
                if self.entries[k].1 < usize::MAX {
                    self.entries[k].1 = self.entries[k].1 + 1;
                }
                proof {
                    self.lemma_same_keys(&before, k as int);
                    self.lemma_count(key@, k as int);
                }
            },
            None => {
                proof {
                    before.lemma_absent(key@);
                }
                self.entries.push((key.to_owned(), 1));
                proof {
                    let last = before.entries@.len() as int;
                    assert forall|i: int, j: int| 0 <= i < j < self.entries@.len() implies (
                    #[trigger] self.entries@[i]).0@ != (#[trigger] self.entries@[j]).0@ by {
                        assert(self.entries@[i] == before.entries@[i]);
                        if j < last {
                            assert(self.entries@[j] == before.entries@[j]);
                        }
                    }
                    assert forall|i: int| 0 <= i < self.entries@.len() implies (
                    #[trigger] self.entries@[i]).1 > 0 by {
                        if i < last {
                            assert(self.entries@[i] == before.entries@[i]);
                        }
                    }
                    assert(Self::at(self.entries@, key@, last));
                    self.lemma_count(key@, last);
                    assert forall|other: Seq<char>| other != key@ implies #[trigger] self.count(
                        other,
                    ) == before.count(other) by {
                        if exists|l: int| Self::at(before.entries@, other, l) {
                            let l = choose|l: int| Self::at(before.entries@, other, l);
                            assert(self.entries@[l] == before.entries@[l]);
                            assert(Self::at(self.entries@, other, l));
                            self.lemma_count(other, l);
                            before.lemma_count(other, l);
                        } else {
                            assert forall|j: int| 0 <= j < self.entries@.len() implies (
                            #[trigger] self.entries@[j]).0@ != other by {
                                if j < last {
                                    assert(self.entries@[j] == before.entries@[j]);
                                    assert(!Self::at(before.entries@, other, j));
                                }
                            }
                            self.lemma_absent(other);
                        }
                    }
                }
            },
        }
    }

    /// Changing one counter leaves the others alone.
    proof fn lemma_same_keys(&self, before: &TextCounts, k: int)
        requires
            before.inv(),
            self.entries@.len() == before.entries@.len(),
            0 <= k < self.entries@.len(),
            self.entries@[k].0@ == before.entries@[k].0@,
            self.entries@[k].1 > 0,
            forall|j: int|
                0 <= j < self.entries@.len() && j != k ==> #[trigger] self.entries@[j]
                    == before.entries@[j],
        ensures
            self.inv(),
            forall|other: Seq<char>|
                other != self.entries@[k].0@ ==> #[trigger] self.count(other) == before.count(
                    other,
                ),
    {
        assert forall|j: int| 0 <= j < self.entries@.len() implies (
        #[trigger] self.entries@[j]).0@ == before.entries@[j].0@ by {}
        assert forall|i: int, j: int| 0 <= i < j < self.entries@.len() implies (
        #[trigger] self.entries@[i]).0@ != (#[trigger] self.entries@[j]).0@ by {
            assert(before.entries@[i].0@ != before.entries@[j].0@);
        }
        assert forall|other: Seq<char>|
            other != self.entries@[k].0@ implies #[trigger] self.count(other) == before.count(
            other,
        ) by {
            if exists|l: int| Self::at(before.entries@, other, l) {
                let l = choose|l: int| Self::at(before.entries@, other, l);
                assert(Self::at(self.entries@, other, l));
                self.lemma_count(other, l);
                before.lemma_count(other, l);
            } else {
                assert forall|j: int| 0 <= j < self.entries@.len() implies (
                #[trigger] self.entries@[j]).0@ != other by {
                    assert(!Self::at(before.entries@, other, j));
                }
                self.lemma_absent(other);
            }
        }
    }

    /// Counts a text once less; a counter at zero stays there.
    pub fn decrement(&mut self, key: &str)
        requires
            old(self).inv(),
        ensures
            final(self).inv(),
            final(self).count(key@) == monus(old(self).count(key@), 1),
            forall|other: Seq<char>|
                other != key@ ==> #[trigger] final(self).count(other) == old(self).count(other),
    {
        let ghost before = *self;
        match self.find(key) {
            None => {
                proof {
                    self.lemma_absent(key@);
                }
            },
            Some(k) => {
                proof {
                    self.lemma_count(key@, k as int);
                }
                if self.entries[k].1 > 1 {
                    self.entries[k].1 = self.entries[k].1 - 1;
                    proof {
                        self.lemma_same_keys(&before, k as int);
                        self.lemma_count(key@, k as int);
                    }
                } else {
                    self.entries.remove(k);
                    proof {
                        self.lemma_removed(&before, k as int);
                    }
                }
            },
        }
    }

    /// Removing an entry sets its counter to zero.
    proof fn lemma_removed(&self, before: &TextCounts, k: int)
        requires
            before.inv(),
            0 <= k < before.entries@.len(),
            self.entries@ == before.entries@.remove(k),
        ensures
            self.inv(),
            self.count(before.entries@[k].0@) == 0,
            forall|other: Seq<char>|
                other != before.entries@[k].0@ ==> #[trigger] self.count(other) == before.count(
                    other,
                ),
    {
        let key = before.entries@[k].0@;
        assert forall|j: int| 0 <= j < self.entries@.len() implies #[trigger] self.entries@[j]
            == before.entries@[if j < k {
            j
        } else {
            j + 1
        }] by {}
        assert forall|i: int, j: int| 0 <= i < j < self.entries@.len() implies (
        #[trigger] self.entries@[i]).0@ != (#[trigger] self.entries@[j]).0@ by {
            let i2 = if i < k {
                i
            } else {
                i + 1
            };
            let j2 = if j < k {
                j
            } else {
                j + 1
            };
            assert(before.entries@[i2].0@ != before.entries@[j2].0@);
        }
        assert forall|j: int| 0 <= j < self.entries@.len() implies (
        #[trigger] self.entries@[j]).0@ != key by {
            if j < k {
                assert(before.entries@[j].0@ != before.entries@[k].0@);
            } else {
                assert(before.entries@[k].0@ != before.entries@[j + 1].0@);
            }
        }
        self.lemma_absent(key);
        assert forall|other: Seq<char>| other != key implies #[trigger] self.count(other)
            == before.count(other) by {
            if exists|l: int| Self::at(before.entries@, other, l) {
                let l = choose|l: int| Self::at(before.entries@, other, l);
                let l2 = if l < k {
                    l
                } else {
                    l - 1
                };
                assert(self.entries@[l2] == before.entries@[l]);
                assert(Self::at(self.entries@, other, l2));
                self.lemma_count(other, l2);
                before.lemma_count(other, l);
            } else {
                assert forall|j: int| 0 <= j < self.entries@.len() implies (
                #[trigger] self.entries@[j]).0@ != other by {
                    let j2 = if j < k {
                        j
                    } else {
                        j + 1
                    };
                    assert(!Self::at(before.entries@, other, j2));
                }
                self.lemma_absent(other);
            }
        }
    }

    /// Counts every text of a list once more.
    pub fn add_all(&mut self, list: &Vec<String>)
        requires
            old(self).inv(),
        ensures
            final(self).inv(),
            forall|key: Seq<char>| #[trigger]
                final(self).count(key) == capped(old(self).count(key) + occurrences(list@, key)),
    {
        let mut k: usize = 0;
        proof {
            assert(list@.take(0).len() == 0);
            self.lemma_bounded();
        }
        while k < list.len()
            invariant
                k <= list@.len(),
                self.inv(),
                forall|key: Seq<char>| #[trigger]
                    self.count(key) == capped(
                        old(self).count(key) + occurrences(list@.take(k as int), key),
                    ),
            decreases list@.len() - k,
        {
            let ghost before = *self;
            self.increment(list[k].as_str());
            proof {
                assert forall|key: Seq<char>| #[trigger] self.count(key) == capped(
                    old(self).count(key) + occurrences(list@.take(k + 1), key),
                ) by {
                    lemma_occurrences_step(list@, k as int, key);
                    assert(before.count(key) == capped(
                        old(self).count(key) + occurrences(list@.take(k as int), key),
                    ));
                }
            }
            k = k + 1;
        }
        assert(list@.take(k as int) =~= list@);
    }

    /// Counts every text of a list once less.
    pub fn remove_all(&mut self, list: &Vec<String>)
        requires
            old(self).inv(),
        ensures
            final(self).inv(),
            forall|key: Seq<char>| #[trigger]
                final(self).count(key) == monus(
                    old(self).count(key),
                    occurrences(list@, key),
                ),
    {
        let mut k: usize = 0;
        proof {
            assert(list@.take(0).len() == 0);
        }
        while k < list.len()
            invariant
                k <= list@.len(),
                self.inv(),
                forall|key: Seq<char>| #[trigger]
                    self.count(key) == monus(
                        old(self).count(key),
                        occurrences(list@.take(k as int), key),
                    ),
            decreases list@.len() - k,
        {
            let ghost before = *self;
            self.decrement(list[k].as_str());
            proof {
                assert forall|key: Seq<char>| #[trigger] self.count(key) == monus(
                    old(self).count(key),
                    occurrences(list@.take(k + 1), key),
                ) by {
                    lemma_occurrences_step(list@, k as int, key);
                    assert(before.count(key) == monus(
                        old(self).count(key),
                        occurrences(list@.take(k as int), key),
                    ));
                }
            }
            k = k + 1;
        }
        assert(list@.take(k as int) =~= list@);
    }

    /// Counts fit a machine number.
    pub proof fn lemma_bounded(&self)
        requires
            self.inv(),
        ensures
            forall|key: Seq<char>| 0 <= #[trigger] self.count(key) <= usize::MAX,
    {
    }
}

/// A set of texts.
pub struct TextSet {
    items: Vec<String>,
}

impl TextSet {
    /// Whether the set holds a text.
    pub closed spec fn has(&self, key: Seq<char>) -> bool {
        lists(self.items@, key)
    }

    /// The texts of the set in the order in which they came.
    pub closed spec fn texts(&self) -> Seq<String> {
        self.items@
    }

    pub proof fn lemma_texts(&self)
        ensures
            forall|key: Seq<char>| #[trigger] self.has(key) <==> lists(self.texts(), key),
    {
    }

    pub fn new() -> (set: TextSet)
        ensures
            forall|key: Seq<char>| !(#[trigger] set.has(key)),
    {
        TextSet { items: Vec::new() }
    }

    pub fn contains(&self, key: &str) -> (found: bool)
        ensures
            found == self.has(key@),
    {
        list_contains(&self.items, key)
    }

    pub fn items(&self) -> (items: &Vec<String>)
        ensures
            items@ == self.texts(),
    {
        &self.items
    }

    /// Adds a text, unless it is there.
    pub fn insert(&mut self, key: &str)
        ensures
            forall|other: Seq<char>| #[trigger]
                final(self).has(other) <==> old(self).has(other) || other == key@,
    {
        let ghost before = self.items@;
        if list_contains(&self.items, key) {
            return ;
        }
        self.items.push(key.to_owned());
        proof {
            assert forall|other: Seq<char>| #[trigger]
                self.has(other) <==> lists(before, other) || other == key@ by {
                if lists(before, other) {
                    let k = choose|k: int| 0 <= k < before.len() && (#[trigger] before[k])@ == other;
                    assert(self.items@[k]@ == other);
                }
                if other == key@ {
                    assert(self.items@[before.len() as int]@ == other);
                }
                if lists(self.items@, other) {
                    let k = choose|k: int|
                        0 <= k < self.items@.len() && (#[trigger] self.items@[k])@ == other;
                    if k < before.len() {
                        assert(before[k]@ == other);
                    }
                }
            }
        }
    }

    /// Takes a text out, if it is there.
    pub fn remove(&mut self, key: &str)
        ensures
            forall|other: Seq<char>| #[trigger]
                final(self).has(other) <==> old(self).has(other) && other != key@,
    {
        let mut kept: Vec<String> = Vec::new();
        let mut k: usize = 0;
        while k < self.items.len()
            invariant
                k <= self.items@.len(),
                self.items@ == old(self).items@,
                forall|other: Seq<char>| #[trigger]
                    lists(kept@, other) <==> lists(self.items@.take(k as int), other) && other
                        != key@,
            decreases self.items@.len() - k,
        {
            let ghost before = kept@;
            let ghost done = self.items@.take(k as int);
            let ghost more = self.items@.take(k + 1);
            if !text::same_text(self.items[k].as_str(), key) {
                kept.push(self.items[k].clone());
            }
            proof {
                assert(more =~= done.push(self.items@[k as int]));
                assert forall|other: Seq<char>| #[trigger]
                    lists(kept@, other) <==> lists(more, other) && other != key@ by {
                    lemma_lists_push(done, self.items@[k as int], other);
                    lemma_lists_push(before, self.items@[k as int], other);
                }
            }
            k = k + 1;
        }
        assert(self.items@.take(k as int) =~= self.items@);
        self.items = kept;
    }

    /// Adds every text of a list.
    pub fn insert_all(&mut self, list: &Vec<String>)
        ensures
            forall|other: Seq<char>| #[trigger]
                final(self).has(other) <==> old(self).has(other) || lists(list@, other),
    {
        let mut k: usize = 0;
        while k < list.len()
            invariant
                k <= list@.len(),
                forall|other: Seq<char>| #[trigger]
                    self.has(other) <==> old(self).has(other) || lists(list@.take(k as int), other),
            decreases list@.len() - k,
        {
            self.insert(list[k].as_str());
            proof {
                assert(list@.take(k + 1) =~= list@.take(k as int).push(list@[k as int]));
                assert forall|other: Seq<char>| #[trigger]
                    self.has(other) <==> old(self).has(other) || lists(
                        list@.take(k + 1),
                        other,
                    ) by {
                    lemma_lists_push(list@.take(k as int), list@[k as int], other);
                }
            }
            k = k + 1;
        }
        assert(list@.take(k as int) =~= list@);
    }

    /// Takes every text of a list out.
    pub fn remove_all(&mut self, list: &Vec<String>)
        ensures
            forall|other: Seq<char>| #[trigger]
                final(self).has(other) <==> old(self).has(other) && !lists(list@, other),
    {
        let mut k: usize = 0;
        while k < list.len()
            invariant
                k <= list@.len(),
                forall|other: Seq<char>| #[trigger]
                    self.has(other) <==> old(self).has(other) && !lists(
                        list@.take(k as int),
                        other,
                    ),
            decreases list@.len() - k,
        {
            self.remove(list[k].as_str());
            proof {
                assert(list@.take(k + 1) =~= list@.take(k as int).push(list@[k as int]));
                assert forall|other: Seq<char>| #[trigger]
                    self.has(other) <==> old(self).has(other) && !lists(
                        list@.take(k + 1),
                        other,
                    ) by {
                    lemma_lists_push(list@.take(k as int), list@[k as int], other);
                }
            }
            k = k + 1;
        }
        assert(list@.take(k as int) =~= list@);
    }
}

pub proof fn lemma_lists_push(list: Seq<String>, item: String, key: Seq<char>)
    ensures
        lists(list.push(item), key) <==> lists(list, key) || item@ == key,
{
    let more = list.push(item);
    if lists(list, key) {
        let k = choose|k: int| 0 <= k < list.len() && (#[trigger] list[k])@ == key;
        assert(more[k]@ == key);
    }
    if item@ == key {
        assert(more[list.len() as int]@ == key);
    }
    if lists(more, key) {
        let k = choose|k: int| 0 <= k < more.len() && (#[trigger] more[k])@ == key;
        if k < list.len() {
            assert(list[k]@ == key);
        }
    }
}

} // verus!
