//! The volumes of a remote archive, in order.

use crate::ordered;
use crate::path::PathModel;
use crate::task::ArchivePart;
use vstd::prelude::*;

verus! {

/// A volume in the mathematical model.
#[verifier::ext_equal]
pub struct PartModel {
    pub sequence: u64,
    pub url: Seq<char>,
    pub dest: PathModel,
    pub logical_path: Seq<char>,
    pub expected_md5: Seq<char>,
    pub expected_size: u64,
}

impl View for ArchivePart {
    type V = PartModel;

    open spec fn view(&self) -> PartModel {
        PartModel {
            sequence: self.sequence,
            url: self.url@,
            dest: self.dest@,
            logical_path: self.logical_path@,
            expected_md5: self.expected_md5@,
            expected_size: self.expected_size,
        }
    }
}

/// The volumes of a list.
pub open spec fn part_views(parts: Seq<ArchivePart>) -> Seq<PartModel> {
    Seq::new(parts.len(), |i: int| parts[i]@)
}

/// Whether the first volume comes before the second: by number, and by name
/// where the numbers are the same.
pub open spec fn part_less(a: PartModel, b: PartModel) -> bool {
    a.sequence < b.sequence || (a.sequence == b.sequence && ordered::text_less(
        a.logical_path,
        b.logical_path,
    ))
}

/// The volumes of a list with a number and a name, in the order of the list.
pub open spec fn of_key(parts: Seq<PartModel>, sequence: u64, name: Seq<char>) -> Seq<PartModel> {
    parts.filter(|part: PartModel| part.sequence == sequence && part.logical_path == name)
}

/// Whether no volume of a list comes before an earlier one.
pub open spec fn in_order(parts: Seq<PartModel>) -> bool {
    forall|i: int, j: int|
        0 <= i < j < parts.len() ==> !part_less(#[trigger] parts[j], #[trigger] parts[i])
}

/// Whether a list holds the volumes of another one, in order. Volumes with the
/// same number and name keep the order that they had.
pub open spec fn arranged(from: Seq<PartModel>, to: Seq<PartModel>) -> bool {
    &&& in_order(to)
    &&& forall|sequence: u64, name: Seq<char>| #[trigger]
        of_key(to, sequence, name) == of_key(from, sequence, name)
}

proof fn lemma_part_order(a: PartModel, b: PartModel, c: PartModel)
    ensures
        part_less(a, b) && !part_less(c, b) ==> part_less(a, c),
        !part_less(a, a),
        part_less(a, b) ==> !part_less(b, a),
{
    ordered::law_text_order_is_total(b.logical_path, c.logical_path);
    ordered::law_text_order_is_total(a.logical_path, b.logical_path);
    if part_less(a, b) && !part_less(c, b) && a.sequence == c.sequence {
        if b.logical_path != c.logical_path {
            ordered::law_text_order_is_transitive(a.logical_path, b.logical_path, c.logical_path);
        }
    }
}

/// Whether the first volume comes before the second.
pub fn part_before(a: &ArchivePart, b: &ArchivePart) -> (yes: bool)
    ensures
        yes == part_less(a@, b@),
{
    a.sequence < b.sequence || (a.sequence == b.sequence && ordered::text_before(
        a.logical_path.as_str(),
        b.logical_path.as_str(),
    ))
}

proof fn lemma_filter_none(parts: Seq<PartModel>, pred: spec_fn(PartModel) -> bool)
    requires
        forall|i: int| 0 <= i < parts.len() ==> !pred(#[trigger] parts[i]),
    ensures
        parts.filter(pred) == Seq::<PartModel>::empty(),
    decreases parts.len(),
{
    reveal(Seq::filter);
    if parts.len() > 0 {
        lemma_filter_none(parts.drop_last(), pred);
    }
}

proof fn lemma_filter_push(
    parts: Seq<PartModel>,
    part: PartModel,
    pred: spec_fn(PartModel) -> bool,
)
    ensures
        parts.push(part).filter(pred) == (if pred(part) {
            parts.filter(pred).push(part)
        } else {
            parts.filter(pred)
        }),
{
    reveal(Seq::filter);
    assert(parts.push(part).drop_last() =~= parts);
}

/// Putting a volume behind those that do not come after it keeps every list
/// of volumes with the same number and name.
proof fn lemma_insert(
    parts: Seq<PartModel>,
    k: int,
    part: PartModel,
    sequence: u64,
    name: Seq<char>,
)
    requires
        0 <= k <= parts.len(),
        forall|i: int| k <= i < parts.len() ==> part_less(part, #[trigger] parts[i]),
    ensures
        of_key(parts.insert(k, part), sequence, name) == of_key(
            parts.push(part),
            sequence,
            name,
        ),
{
    let pred = |p: PartModel| p.sequence == sequence && p.logical_path == name;
    let head = parts.take(k);
    let tail = parts.skip(k);
    assert(parts =~= head + tail);
    assert(parts.insert(k, part) =~= head.push(part) + tail);
    Seq::filter_distributes_over_add(head, tail, pred);
    Seq::filter_distributes_over_add(head.push(part), tail, pred);
    lemma_filter_push(head, part, pred);
    lemma_filter_push(parts, part, pred);
    if pred(part) {
        assert forall|i: int| 0 <= i < tail.len() implies !pred(#[trigger] tail[i]) by {
            assert(part_less(part, parts[k + i]));
            lemma_part_order(part, part, part);
            ordered::law_text_order_is_total(part.logical_path, part.logical_path);
        }
        lemma_filter_none(tail, pred);
        assert(head.filter(pred) + Seq::<PartModel>::empty() =~= head.filter(pred));
        assert(head.filter(pred).push(part) + Seq::<PartModel>::empty() =~= head.filter(pred).push(
            part,
        ));
    }
}

/// Sorts volumes by number and name.
pub fn sort_parts(parts: Vec<ArchivePart>) -> (sorted: Vec<ArchivePart>)
    ensures
        arranged(part_views(parts@), part_views(sorted@)),
        sorted@.len() == parts@.len(),
{
    let ghost all = parts@;
    let mut sorted: Vec<ArchivePart> = Vec::new();
    assert(part_views(sorted@) =~= part_views(all.take(0)));
    for part in it: parts
        invariant
            it.seq() == all,
            sorted@.len() == it.index(),
            arranged(part_views(all.take(it.index())), part_views(sorted@)),
    {
        let ghost before = sorted@;
        let ghost views = part_views(before);
        let mut k: usize = sorted.len();
        while k > 0 && part_before(&part, &sorted[k - 1])
            invariant
                k <= sorted@.len(),
                sorted@ == before,
                views == part_views(before),
                forall|i: int| k <= i < views.len() ==> part_less(part@, #[trigger] views[i]),
            decreases k,
        {
            k = k - 1;
            assert(views[k as int] == before[k as int]@);
        }
        sorted.insert(k, part);
        proof {
            let now = part_views(sorted@);
            assert(now =~= views.insert(k as int, part@));
            assert forall|i: int| 0 <= i < k implies !part_less(part@, #[trigger] views[i]) by {
                assert(views[k - 1] == before[k - 1]@);
                assert(!part_less(part@, views[k - 1]));
                if i < k - 1 {
                    assert(!part_less(views[k - 1], views[i]));
                    lemma_part_order(part@, views[i], views[k - 1]);
                }
            }
            assert forall|i: int, j: int| 0 <= i < j < now.len() implies !part_less(
                #[trigger] now[j],
                #[trigger] now[i],
            ) by {
                if j < k {
                    assert(!part_less(views[j], views[i]));
                } else if j == k {
                    assert(!part_less(part@, views[i]));
                } else if i == k {
                    assert(part_less(part@, views[j - 1]));
                    lemma_part_order(part@, views[j - 1], part@);
                } else if i < k {
                    assert(!part_less(views[j - 1], views[i]));
                } else {
                    assert(!part_less(views[j - 1], views[i - 1]));
                }
            }
            let from = part_views(all.take(it.index()));
            let more = part_views(all.take(it.index() + 1));
            assert(more =~= from.push(part@));
            assert forall|sequence: u64, name: Seq<char>| #[trigger]
                of_key(now, sequence, name) == of_key(more, sequence, name) by {
                lemma_insert(views, k as int, part@, sequence, name);
                let pred = |p: PartModel| p.sequence == sequence && p.logical_path == name;
                lemma_filter_push(views, part@, pred);
                lemma_filter_push(from, part@, pred);
                assert(of_key(views, sequence, name) == of_key(from, sequence, name));
            }
        }
    }
    assert(all.take(all.len() as int) =~= all);
    sorted
}

proof fn lemma_last_of_key(parts: Seq<PartModel>)
    requires
        parts.len() > 0,
    ensures
        ({
            let last = parts.last();
            let same = of_key(parts, last.sequence, last.logical_path);
            same.len() > 0 && same.last() == last
        }),
{
    reveal(Seq::filter);
}

proof fn lemma_key_is_held(parts: Seq<PartModel>, sequence: u64, name: Seq<char>) -> (i: int)
    requires
        of_key(parts, sequence, name).len() > 0,
    ensures
        0 <= i < parts.len(),
        parts[i].sequence == sequence,
        parts[i].logical_path == name,
    decreases parts.len(),
{
    reveal(Seq::filter);
    let pred = |part: PartModel| part.sequence == sequence && part.logical_path == name;
    if parts.len() > 0 {
        if pred(parts.last()) {
            parts.len() - 1
        } else {
            let i = lemma_key_is_held(parts.drop_last(), sequence, name);
            assert(parts.drop_last()[i] == parts[i]);
            i
        }
    } else {
        0
    }
}

/// Sorting volumes has one result.
pub proof fn law_sorting_is_determined(from: Seq<PartModel>, a: Seq<PartModel>, b: Seq<PartModel>)
    requires
        arranged(from, a),
        arranged(from, b),
    ensures
        a == b,
    decreases a.len(),
{
    if a.len() == 0 {
        if b.len() > 0 {
            let y = b.last();
            lemma_last_of_key(b);
            assert(of_key(b, y.sequence, y.logical_path) == of_key(
                a,
                y.sequence,
                y.logical_path,
            ));
            let i = lemma_key_is_held(a, y.sequence, y.logical_path);
        }
        assert(a =~= b);
    } else {
        let x = a.last();
        lemma_last_of_key(a);
        assert(of_key(a, x.sequence, x.logical_path) == of_key(b, x.sequence, x.logical_path));
        let j = lemma_key_is_held(b, x.sequence, x.logical_path);
        let y = b.last();
        lemma_last_of_key(b);
        assert(of_key(b, y.sequence, y.logical_path) == of_key(a, y.sequence, y.logical_path));
        let i = lemma_key_is_held(a, y.sequence, y.logical_path);
        assert(!part_less(x, y)) by {
            if i < a.len() - 1 {
                assert(!part_less(a[a.len() - 1], a[i]));
            }
            lemma_part_order(x, x, x);
        }
        assert(!part_less(y, x)) by {
            if j < b.len() - 1 {
                assert(!part_less(b[b.len() - 1], b[j]));
            }
            lemma_part_order(y, y, y);
        }
        ordered::law_text_order_is_total(x.logical_path, y.logical_path);
        assert(x == y);
        let front = a.drop_last();
        let rest = b.drop_last();
        assert(a =~= front.push(x));
        assert(b =~= rest.push(x));
        assert forall|sequence: u64, name: Seq<char>| #[trigger]
            of_key(rest, sequence, name) == of_key(front, sequence, name) by {
            let pred = |part: PartModel| part.sequence == sequence && part.logical_path == name;
            lemma_filter_push(front, x, pred);
            lemma_filter_push(rest, x, pred);
            assert(of_key(a, sequence, name) == of_key(b, sequence, name));
            assert(front.filter(pred) =~= rest.filter(pred)) by {
                if pred(x) {
                    assert(front.filter(pred).push(x).drop_last() =~= front.filter(pred));
                    assert(rest.filter(pred).push(x).drop_last() =~= rest.filter(pred));
                }
            }
        }
        assert(in_order(front)) by {
            assert forall|i: int, j: int| 0 <= i < j < front.len() implies !part_less(
                #[trigger] front[j],
                #[trigger] front[i],
            ) by {
                assert(!part_less(a[j], a[i]));
            }
        }
        assert(in_order(rest)) by {
            assert forall|i: int, j: int| 0 <= i < j < rest.len() implies !part_less(
                #[trigger] rest[j],
                #[trigger] rest[i],
            ) by {
                assert(!part_less(b[j], b[i]));
            }
        }
        law_sorting_is_determined(front, front, rest);
    }
}

} // verus!
