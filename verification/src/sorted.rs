//! Sorted lists without repetition, standing for sets of numbers.

use vstd::prelude::*;

verus! {

/// Whether a list rises strictly.
pub open spec fn ascending(s: Seq<u64>) -> bool {
    forall|a: int, b: int| 0 <= a < b < s.len() ==> s[a] < s[b]
}

/// Adds a number to an ascending list, unless it is there.
pub fn insert_sorted(list: &mut Vec<u64>, value: u64)
    requires
        ascending(old(list)@),
    ensures
        ascending(final(list)@),
        forall|x: u64| #[trigger]
            final(list)@.contains(x) <==> old(list)@.contains(x) || x == value,
{
    let ghost before = list@;
    let mut at: usize = 0;
    while at < list.len() && list[at] < value
        invariant
            at <= list@.len(),
            list@ == before,
            ascending(before),
            forall|j: int| 0 <= j < at ==> before[j] < value,
        decreases list@.len() - at,
    {
        at = at + 1;
    }
    if at < list.len() && list[at] == value {
        return ;
    }
    list.insert(at, value);
    proof {
        assert(list@ == before.insert(at as int, value));
        assert forall|x: u64| #[trigger]
            list@.contains(x) <==> before.contains(x) || x == value by {
            if before.contains(x) {
                let j = choose|j: int| 0 <= j < before.len() && before[j] == x;
                if j < at {
                    assert(list@[j] == x);
                } else {
                    assert(list@[j + 1] == x);
                }
            }
            if x == value {
                assert(list@[at as int] == x);
            }
            if list@.contains(x) {
                let j = choose|j: int| 0 <= j < list@.len() && list@[j] == x;
                if j < at {
                    assert(before[j] == x);
                } else if j > at {
                    assert(before[j - 1] == x);
                }
            }
        }
        assert forall|a: int, b: int| 0 <= a < b < list@.len() implies list@[a] < list@[b] by {
            if b < at {
                assert(before[a] < before[b]);
            } else if a < at && b == at {
            } else if a < at {
                assert(before[a] < before[b - 1]);
            } else if a == at {
                if at < before.len() {
                    assert(value < before[at as int]);
                    if b - 1 > at {
                        assert(before[at as int] < before[b - 1]);
                    }
                }
            } else {
                assert(before[a - 1] < before[b - 1]);
            }
        }
    }
}

/// The numbers of a list in ascending order, each once.
pub fn sorted_distinct(values: &Vec<u64>) -> (list: Vec<u64>)
    ensures
        ascending(list@),
        forall|x: u64| #[trigger] list@.contains(x) <==> values@.contains(x),
{
    let mut list: Vec<u64> = Vec::new();
    let mut k: usize = 0;
    while k < values.len()
        invariant
            k <= values@.len(),
            ascending(list@),
            forall|x: u64| #[trigger] list@.contains(x) <==> values@.take(k as int).contains(x),
        decreases values@.len() - k,
    {
        insert_sorted(&mut list, values[k]);
        proof {
            let done = values@.take(k as int);
            let more = values@.take(k + 1);
            assert(more =~= done.push(values@[k as int]));
            assert forall|x: u64| #[trigger] list@.contains(x) <==> more.contains(x) by {
                if done.contains(x) {
                    let j = choose|j: int| 0 <= j < done.len() && done[j] == x;
                    assert(more[j] == x);
                }
                if x == values@[k as int] {
                    assert(more[k as int] == x);
                }
                if more.contains(x) {
                    let j = choose|j: int| 0 <= j < more.len() && more[j] == x;
                    if j < k {
                        assert(done[j] == x);
                    }
                }
            }
        }
        k = k + 1;
    }
    assert(values@.take(k as int) =~= values@);
    list
}

/// An ascending list is fixed by what it contains.
pub proof fn lemma_ascending_unique(a: Seq<u64>, b: Seq<u64>)
    requires
        ascending(a),
        ascending(b),
        forall|x: u64| a.contains(x) <==> b.contains(x),
    ensures
        a == b,
    decreases a.len(),
{
    if a.len() == 0 {
        if b.len() > 0 {
            assert(b.contains(b[0]));
        }
        assert(a =~= b);
    } else {
        let last = a.last();
        assert(a.contains(last));
        let j = choose|j: int| 0 <= j < b.len() && b[j] == last;
        if j < b.len() - 1 {
            assert(b.contains(b.last()));
            let k = choose|k: int| 0 <= k < a.len() && a[k] == b.last();
            assert(b[j] < b[b.len() - 1]);
        }
        let a1 = a.drop_last();
        let b1 = b.drop_last();
        assert forall|x: u64| a1.contains(x) <==> b1.contains(x) by {
            if a1.contains(x) {
                let k = choose|k: int| 0 <= k < a1.len() && a1[k] == x;
                assert(a[k] == x && a[k] < a[a.len() - 1]);
                assert(a.contains(x));
                let l = choose|l: int| 0 <= l < b.len() && b[l] == x;
                assert(b1[l] == x);
            }
            if b1.contains(x) {
                let k = choose|k: int| 0 <= k < b1.len() && b1[k] == x;
                assert(b[k] == x && b[k] < b[b.len() - 1]);
                assert(b.contains(x));
                let l = choose|l: int| 0 <= l < a.len() && a[l] == x;
                assert(a1[l] == x);
            }
        }
        lemma_ascending_unique(a1, b1);
        assert(a =~= a1.push(last));
        assert(b =~= b1.push(last));
    }
}

} // verus!
