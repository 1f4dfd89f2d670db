//! The order of texts by their characters, and ascending lists of texts.

use crate::path::{FilePath, PathModel};
use crate::scheduler::counts;
use crate::text;
use vstd::prelude::*;

verus! {

/// Whether two texts agree before place `k` and the first is smaller there.
pub open spec fn smaller_at(a: Seq<char>, b: Seq<char>, k: int) -> bool {
    &&& 0 <= k <= a.len()
    &&& k < b.len()
    &&& forall|j: int| 0 <= j < k ==> a[j] == b[j]
    &&& k == a.len() || (a[k] as int) < (b[k] as int)
}

/// Whether the first text comes before the second: character by character,
/// and a text before its extensions.
pub open spec fn text_less(a: Seq<char>, b: Seq<char>) -> bool {
    exists|k: int| smaller_at(a, b, k)
}

/// Of two texts exactly one comes first, unless they are the same.
pub proof fn law_text_order_is_total(a: Seq<char>, b: Seq<char>)
    ensures
        a == b || text_less(a, b) || text_less(b, a),
        !(text_less(a, b) && text_less(b, a)),
        !text_less(a, a),
{
    if a != b && !text_less(a, b) && !text_less(b, a) {
        lemma_same_prefix(
            a,
            b,
            if a.len() <= b.len() {
                a.len() as int
            } else {
                b.len() as int
            },
        );
        if a.len() < b.len() {
            assert(smaller_at(a, b, a.len() as int));
        } else if b.len() < a.len() {
            assert(smaller_at(b, a, b.len() as int));
        } else {
            assert(a =~= b);
        }
    }
    if text_less(a, b) && text_less(b, a) {
        let k = choose|k: int| smaller_at(a, b, k);
        let l = choose|l: int| smaller_at(b, a, l);
        if k < l {
            assert(b[k] == a[k]);
        } else if l < k {
            assert(a[l] == b[l]);
        }
    }
    if text_less(a, a) {
        let k = choose|k: int| smaller_at(a, a, k);
    }
}

proof fn lemma_same_prefix(a: Seq<char>, b: Seq<char>, n: int)
    requires
        0 <= n <= a.len(),
        n <= b.len(),
        !text_less(a, b),
        !text_less(b, a),
    ensures
        forall|j: int| 0 <= j < n ==> a[j] == b[j],
    decreases n,
{
    if n > 0 {
        lemma_same_prefix(a, b, n - 1);
        if a[n - 1] as int != b[n - 1] as int {
            if (a[n - 1] as int) < (b[n - 1] as int) {
                assert(smaller_at(a, b, n - 1));
            } else {
                assert(smaller_at(b, a, n - 1));
            }
        }
    }
}

/// The order of texts carries over chains.
pub proof fn law_text_order_is_transitive(a: Seq<char>, b: Seq<char>, c: Seq<char>)
    requires
        text_less(a, b),
        text_less(b, c),
    ensures
        text_less(a, c),
{
    let k = choose|k: int| smaller_at(a, b, k);
    let l = choose|l: int| smaller_at(b, c, l);
    if k < l {
        assert(b[k] == c[k]);
        assert(smaller_at(a, c, k));
    } else {
        assert(smaller_at(a, c, l));
    }
}

/// Whether the first text comes before the second.
pub fn text_before(left: &str, right: &str) -> (yes: bool)
    ensures
        yes == text_less(left@, right@),
{
    let a = text::chars_of(left);
    let b = text::chars_of(right);
    let mut k: usize = 0;
    while k < a.len() && k < b.len()
        invariant
            a@ == left@,
            b@ == right@,
            k <= a@.len(),
            k <= b@.len(),
            forall|j: int| 0 <= j < k ==> a@[j] == b@[j],
        decreases a@.len() - k,
    {
        if a[k] < b[k] {
            assert(smaller_at(left@, right@, k as int));
            return true;
        }
        if b[k] < a[k] {
            assert(smaller_at(right@, left@, k as int));
            proof {
                law_text_order_is_total(left@, right@);
            }
            return false;
        }
        k = k + 1;
    }
    if k < b.len() {
        assert(smaller_at(left@, right@, k as int));
        return true;
    }
    proof {
        if k < a.len() {
            assert(smaller_at(right@, left@, k as int));
        } else {
            assert(left@ =~= right@);
        }
        law_text_order_is_total(left@, right@);
    }
    false
}

/// Whether a list of texts rises strictly.
pub open spec fn ascending_texts(list: Seq<String>) -> bool {
    forall|a: int, b: int|
        0 <= a < b < list.len() ==> text_less((#[trigger] list[a])@, (#[trigger] list[b])@)
}

/// Adds a text to an ascending list, unless it is there.
pub fn insert_text(list: &mut Vec<String>, value: &str)
    requires
        ascending_texts(old(list)@),
    ensures
        ascending_texts(final(list)@),
        forall|key: Seq<char>| #[trigger]
            counts::lists(final(list)@, key) <==> counts::lists(old(list)@, key) || key == value@,
{
    let ghost before = list@;
    let mut at: usize = 0;
    while at < list.len() && text_before(list[at].as_str(), value)
        invariant
            at <= list@.len(),
            list@ == before,
            ascending_texts(before),
            forall|j: int| 0 <= j < at ==> text_less((#[trigger] before[j])@, value@),
        decreases list@.len() - at,
    {
        at = at + 1;
    }
    if at < list.len() && text::same_text(list[at].as_str(), value) {
        assert(before[at as int]@ == value@);
        return ;
    }
    list.insert(at, value.to_owned());
    proof {
        let after = list@;
        assert(after.len() == before.len() + 1);
        assert(after[at as int]@ == value@);
        assert forall|j: int| at <= j < before.len() implies text_less(
            value@,
            (#[trigger] before[j])@,
        ) by {
            law_text_order_is_total(value@, before[at as int]@);
            if j > at {
                assert(text_less(before[at as int]@, before[j]@));
                law_text_order_is_transitive(value@, before[at as int]@, before[j]@);
            }
        }
        assert forall|a: int, b: int| 0 <= a < b < after.len() implies text_less(
            (#[trigger] after[a])@,
            (#[trigger] after[b])@,
        ) by {
            let a2 = if a < at {
                a
            } else {
                a - 1
            };
            let b2 = if b < at {
                b
            } else {
                b - 1
            };
            if a != at {
                assert(after[a] == before[a2]);
            }
            if b != at {
                assert(after[b] == before[b2]);
            }
        }
        assert forall|key: Seq<char>| #[trigger]
            counts::lists(after, key) <==> counts::lists(before, key) || key == value@ by {
            if counts::lists(before, key) {
                let j = choose|j: int| 0 <= j < before.len() && (#[trigger] before[j])@ == key;
                if j < at {
                    assert(after[j]@ == key);
                } else {
                    assert(after[j + 1]@ == key);
                }
            }
            if key == value@ {
                assert(after[at as int]@ == key);
            }
            if counts::lists(after, key) {
                let j = choose|j: int| 0 <= j < after.len() && (#[trigger] after[j])@ == key;
                if j < at {
                    assert(before[j]@ == key);
                } else if j > at {
                    assert(before[j - 1]@ == key);
                }
            }
        }
    }
}

/// The texts of a list in ascending order, each once.
pub fn sorted_texts(list: &Vec<String>) -> (sorted: Vec<String>)
    ensures
        ascending_texts(sorted@),
        forall|key: Seq<char>| #[trigger]
            counts::lists(sorted@, key) <==> counts::lists(list@, key),
{
    let mut sorted: Vec<String> = Vec::new();
    let mut k: usize = 0;
    while k < list.len()
        invariant
            k <= list@.len(),
            ascending_texts(sorted@),
            forall|key: Seq<char>| #[trigger]
                counts::lists(sorted@, key) <==> counts::lists(list@.take(k as int), key),
        decreases list@.len() - k,
    {
        insert_text(&mut sorted, list[k].as_str());
        proof {
            assert(list@.take(k + 1) =~= list@.take(k as int).push(list@[k as int]));
            assert forall|key: Seq<char>| #[trigger]
                counts::lists(sorted@, key) <==> counts::lists(list@.take(k + 1), key) by {
                counts::lemma_lists_push(list@.take(k as int), list@[k as int], key);
            }
        }
        k = k + 1;
    }
    assert(list@.take(k as int) =~= list@);
    sorted
}

/// An ascending list names no text twice.
pub proof fn lemma_ascending_is_single(list: Seq<String>, key: Seq<char>)
    requires
        ascending_texts(list),
    ensures
        counts::occurrences(list, key) <= 1,
    decreases list.len(),
{
    if list.len() > 0 {
        let rest = list.drop_last();
        assert forall|a: int, b: int| 0 <= a < b < rest.len() implies text_less(
            (#[trigger] rest[a])@,
            (#[trigger] rest[b])@,
        ) by {
            assert(rest[a] == list[a] && rest[b] == list[b]);
        }
        lemma_ascending_is_single(rest, key);
        if list.last()@ == key {
            counts::lemma_occurrences_listed(rest, key);
            if counts::lists(rest, key) {
                let k = choose|k: int| 0 <= k < rest.len() && (#[trigger] rest[k])@ == key;
                assert(list[k] == rest[k]);
                assert(text_less(list[k]@, list[list.len() - 1]@));
                law_text_order_is_total(key, key);
            }
        }
    }
}

/// Ascending lists with the same texts are the same list of texts.
pub proof fn law_ascending_lists_are_determined(a: Seq<String>, b: Seq<String>)
    requires
        ascending_texts(a),
        ascending_texts(b),
        forall|key: Seq<char>| #[trigger] counts::lists(a, key) <==> counts::lists(b, key),
    ensures
        a.len() == b.len(),
        forall|k: int| 0 <= k < a.len() ==> (#[trigger] a[k])@ == b[k]@,
    decreases a.len(),
{
    if a.len() == 0 {
        if b.len() > 0 {
            assert(counts::lists(b, b[0]@));
            assert(counts::lists(a, b[0]@));
        }
    } else {
        assert(counts::lists(a, a.last()@)) by {
            assert(a[a.len() - 1]@ == a.last()@);
        }
        let i = choose|i: int| 0 <= i < b.len() && (#[trigger] b[i])@ == a.last()@;
        assert(counts::lists(b, b.last()@)) by {
            assert(b[b.len() - 1]@ == b.last()@);
        }
        assert(counts::lists(a, b.last()@));
        let j = choose|j: int| 0 <= j < a.len() && (#[trigger] a[j])@ == b.last()@;
        if i < b.len() - 1 {
            assert(text_less(b[i]@, b[b.len() - 1]@));
            law_text_order_is_total(a.last()@, b.last()@);
            if j < a.len() - 1 {
                assert(text_less(a[j]@, a[a.len() - 1]@));
            }
            assert(false);
        }
        let a2 = a.drop_last();
        let b2 = b.drop_last();
        assert forall|x: int, y: int| 0 <= x < y < a2.len() implies text_less(
            (#[trigger] a2[x])@,
            (#[trigger] a2[y])@,
        ) by {
            assert(a2[x] == a[x] && a2[y] == a[y]);
        }
        assert forall|x: int, y: int| 0 <= x < y < b2.len() implies text_less(
            (#[trigger] b2[x])@,
            (#[trigger] b2[y])@,
        ) by {
            assert(b2[x] == b[x] && b2[y] == b[y]);
        }
        assert forall|key: Seq<char>| #[trigger]
            counts::lists(a2, key) <==> counts::lists(b2, key) by {
            assert(counts::lists(a, key) <==> counts::lists(b, key));
            lemma_without_last(a, key);
            lemma_without_last(b, key);
        }
        law_ascending_lists_are_determined(a2, b2);
        assert forall|k: int| 0 <= k < a.len() implies (#[trigger] a[k])@ == b[k]@ by {
            if k < a.len() - 1 {
                assert(a2[k] == a[k] && b2[k] == b[k]);
            }
        }
    }
}

proof fn lemma_without_last(list: Seq<String>, key: Seq<char>)
    requires
        ascending_texts(list),
        list.len() > 0,
    ensures
        counts::lists(list.drop_last(), key) <==> counts::lists(list, key) && key != list.last()@,
{
    let rest = list.drop_last();
    if counts::lists(rest, key) {
        let k = choose|k: int| 0 <= k < rest.len() && (#[trigger] rest[k])@ == key;
        assert(list[k] == rest[k]);
        assert(text_less(list[k]@, list[list.len() - 1]@));
        law_text_order_is_total(key, key);
    }
    if counts::lists(list, key) && key != list.last()@ {
        let k = choose|k: int| 0 <= k < list.len() && (#[trigger] list[k])@ == key;
        assert(rest[k]@ == key);
    }
}

/// Whether the first component comes before the second. A step upwards comes
/// before every name.
pub open spec fn part_less(a: Seq<char>, b: Seq<char>) -> bool {
    let up = seq!['.', '.'];
    if a == up || b == up {
        a == up && b != up
    } else {
        text_less(a, b)
    }
}

/// Whether two paths agree before component `k` and the first is smaller
/// there.
pub open spec fn path_smaller_at(a: Seq<Seq<char>>, b: Seq<Seq<char>>, k: int) -> bool {
    &&& 0 <= k <= a.len()
    &&& k < b.len()
    &&& forall|j: int| 0 <= j < k ==> a[j] == b[j]
    &&& k == a.len() || part_less(a[k], b[k])
}

/// Whether the first path comes before the second: component by component,
/// paths from the root before relative ones, except for the empty path, which
/// comes first of all.
pub open spec fn path_less(a: PathModel, b: PathModel) -> bool {
    if a.absolute == b.absolute {
        exists|k: int| path_smaller_at(a.parts, b.parts, k)
    } else if a.absolute {
        b.parts.len() > 0
    } else {
        a.parts.len() == 0
    }
}

proof fn lemma_part_order(a: Seq<char>, b: Seq<char>)
    ensures
        a == b || part_less(a, b) || part_less(b, a),
        !(part_less(a, b) && part_less(b, a)),
        !part_less(a, a),
{
    law_text_order_is_total(a, b);
}

proof fn lemma_part_order_transitive(a: Seq<char>, b: Seq<char>, c: Seq<char>)
    requires
        part_less(a, b),
        part_less(b, c),
    ensures
        part_less(a, c),
{
    if text_less(a, b) && text_less(b, c) {
        law_text_order_is_transitive(a, b, c);
    }
}

proof fn lemma_same_parts(a: Seq<Seq<char>>, b: Seq<Seq<char>>, n: int)
    requires
        0 <= n <= a.len(),
        n <= b.len(),
        forall|k: int| !path_smaller_at(a, b, k),
        forall|k: int| !path_smaller_at(b, a, k),
    ensures
        forall|j: int| 0 <= j < n ==> a[j] == b[j],
    decreases n,
{
    if n > 0 {
        lemma_same_parts(a, b, n - 1);
        lemma_part_order(a[n - 1], b[n - 1]);
        assert(!path_smaller_at(a, b, n - 1));
        assert(!path_smaller_at(b, a, n - 1));
    }
}

/// Of two paths exactly one comes first, unless they are the same.
pub proof fn law_path_order_is_total(a: PathModel, b: PathModel)
    ensures
        a == b || path_less(a, b) || path_less(b, a),
        !(path_less(a, b) && path_less(b, a)),
        !path_less(a, a),
{
    let x = a.parts;
    let y = b.parts;
    if a.absolute == b.absolute {
        if a != b && !path_less(a, b) && !path_less(b, a) {
            lemma_same_parts(
                x,
                y,
                if x.len() <= y.len() {
                    x.len() as int
                } else {
                    y.len() as int
                },
            );
            if x.len() < y.len() {
                assert(path_smaller_at(x, y, x.len() as int));
            } else if y.len() < x.len() {
                assert(path_smaller_at(y, x, y.len() as int));
            } else {
                assert(x =~= y);
                assert(a =~= b);
            }
        }
        if path_less(a, b) && path_less(b, a) {
            let k = choose|k: int| path_smaller_at(x, y, k);
            let l = choose|l: int| path_smaller_at(y, x, l);
            if k < l {
                assert(y[k] == x[k]);
                lemma_part_order(x[k], x[k]);
            } else if l < k {
                assert(x[l] == y[l]);
                lemma_part_order(x[l], x[l]);
            } else if k < x.len() && k < y.len() {
                lemma_part_order(x[k], y[k]);
            }
        }
    }
    if exists|k: int| path_smaller_at(x, x, k) {
        let k = choose|k: int| path_smaller_at(x, x, k);
        lemma_part_order(x[k], x[k]);
    }
}

/// The order of paths carries over chains.
pub proof fn law_path_order_is_transitive(a: PathModel, b: PathModel, c: PathModel)
    requires
        path_less(a, b),
        path_less(b, c),
    ensures
        path_less(a, c),
{
    let x = a.parts;
    let y = b.parts;
    let z = c.parts;
    if a.absolute == b.absolute {
        let k = choose|k: int| path_smaller_at(x, y, k);
        if b.absolute == c.absolute {
            let l = choose|l: int| path_smaller_at(y, z, l);
            if k < l {
                assert(y[k] == z[k]);
                assert(path_smaller_at(x, z, k));
            } else if l < k {
                assert(x[l] == y[l]);
                assert(path_smaller_at(x, z, l));
            } else {
                if k < x.len() {
                    lemma_part_order_transitive(x[k], y[k], z[k]);
                }
                assert(path_smaller_at(x, z, k));
            }
        }
    } else if b.absolute == c.absolute {
        let l = choose|l: int| path_smaller_at(y, z, l);
    } else {
        if !a.absolute {
            // The empty path, before a path from the root, before a relative path.
            assert(path_smaller_at(x, z, 0));
        }
    }
}

fn part_before(left: &String, right: &String) -> (yes: bool)
    ensures
        yes == part_less(left@, right@),
{
    proof {
        reveal_strlit("..");
        assert(".."@ =~= seq!['.', '.']);
    }
    let left_up = text::same_text(left.as_str(), "..");
    let right_up = text::same_text(right.as_str(), "..");
    if left_up || right_up {
        return left_up && !right_up;
    }
    text_before(left.as_str(), right.as_str())
}

/// Whether the first path comes before the second.
pub fn path_before(left: &FilePath, right: &FilePath) -> (yes: bool)
    ensures
        yes == path_less(left@, right@),
{
    if left.absolute != right.absolute {
        return if left.absolute {
            right.parts.len() > 0
        } else {
            left.parts.len() == 0
        };
    }
    let mut k: usize = 0;
    while k < left.parts.len() && k < right.parts.len()
        invariant
            left.absolute == right.absolute,
            k <= left.parts@.len(),
            k <= right.parts@.len(),
            forall|j: int| 0 <= j < k ==> left@.parts[j] == right@.parts[j],
        decreases left.parts@.len() - k,
    {
        if part_before(&left.parts[k], &right.parts[k]) {
            assert(path_smaller_at(left@.parts, right@.parts, k as int));
            return true;
        }
        if part_before(&right.parts[k], &left.parts[k]) {
            assert(path_smaller_at(right@.parts, left@.parts, k as int));
            proof {
                law_path_order_is_total(left@, right@);
            }
            return false;
        }
        proof {
            lemma_part_order(left@.parts[k as int], right@.parts[k as int]);
        }
        k = k + 1;
    }
    if k < right.parts.len() {
        assert(path_smaller_at(left@.parts, right@.parts, k as int));
        return true;
    }
    proof {
        if k < left.parts.len() {
            assert(path_smaller_at(right@.parts, left@.parts, k as int));
        } else {
            assert(left@.parts =~= right@.parts);
        }
        law_path_order_is_total(left@, right@);
    }
    false
}

} // verus!
