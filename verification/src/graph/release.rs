//! The order in which successes release nodes.

use crate::graph::model::GraphModel;
use crate::graph::node::ReadyTask;
use crate::graph::{lemmas, model, node};
use vstd::prelude::*;

verus! {

/// Joins the account of the releases so far with those of one more success.
pub proof fn lemma_join(
    o: GraphModel,
    a: GraphModel,
    b: GraphModel,
    id: int,
    c: int,
    w: int,
    r0: Seq<ReadyTask>,
    r1: Seq<ReadyTask>,
)
    requires
        o.valid(),
        a.shape(),
        a.consistent_but(c),
        lemmas::may_succeed(a, c),
        lemmas::success_so_far(o, a, id, c),
        lemmas::success_so_far(o, b, id, w),
        lemmas::one_success(a, b, c),
        lemmas::next_success(a, c, w),
        forall|i: int| #[trigger]
            a.state(i) is Succeeded && o.has(i) && !(o.state(i) is Succeeded) ==> c < i,
        node::releases(o, a, r0),
        r0.len() <= r1.len(),
        r1.take(r0.len() as int) == r0,
        node::releases(a, b, r1.skip(r0.len() as int)),
        forall|k: int|
            0 <= k < r0.len() ==> o.state((#[trigger] r0[k]).id.idx()) is Pending,
        forall|j: int, k: int|
            r0.len() <= j < k < r1.len() ==> {
                let x = (#[trigger] r1[j]).id.idx();
                let y = (#[trigger] r1[k]).id.idx();
                &&& a.state(x) is Pending
                &&& a.state(y) is Waiting || x < y
            },
    ensures
        node::releases(o, b, r1),
        w >= 0 ==> forall|k: int|
            0 <= k < r1.len() ==> o.state((#[trigger] r1[k]).id.idx()) is Pending,
        forall|i: int| #[trigger]
            b.state(i) is Succeeded && o.has(i) && !(o.state(i) is Succeeded) ==> w < i,
{
    let added = r1.skip(r0.len() as int);
    assert forall|d: int, i: int| #[trigger] a.depends(d, i) == o.depends(d, i) by {
        if o.has(i) {
            assert(a.nodes[i].dependents == o.nodes[i].dependents);
        }
    }
    assert forall|i: int| o.has(i) implies #[trigger] b.nodes[i] == lemmas::node_after_one(
        a,
        c,
        i,
    ) by {}
    assert forall|i: int| #[trigger]
        b.state(i) is Succeeded && o.has(i) && !(o.state(i) is Succeeded) implies w < i && c
        <= i by {
        assert(b.nodes[i] == lemmas::node_after_one(a, c, i));
        if i != c {
            assert(a.state(i) is Succeeded);
        }
        if w >= 0 {
            assert(a.waits_for(w, c));
        }
    }
    // what was ready stays ready
    assert forall|k: int| 0 <= k < r0.len() implies r1[k] == r0[k] by {
        assert(r1.take(r0.len() as int)[k] == r1[k]);
    }
    assert forall|k: int| 0 <= k < r1.len() implies ({
        let x = (#[trigger] r1[k]).id.idx();
        &&& node::newly_ready(o, b, x)
        &&& o.nodes[x].task == Some(r1[k].task)
        &&& r1[k].continuation == b.nodes[x].continuation
    }) by {
        let x = r1[k].id.idx();
        if k < r0.len() {
            assert(r1[k] == r0[k]);
            assert(node::newly_ready(o, a, x));
            assert(b.nodes[x] == lemmas::node_after_one(a, c, x));
            assert(a.nodes[x].task is None || true);
        } else {
            assert(added[k - r0.len()] == r1[k]);
            assert(node::newly_ready(a, b, x));
            assert(a.nodes[x] == (if x == c {
                o.nodes[x]
            } else {
                model::node_after_success(o, a, id, x)
            }));
        }
    }
    assert forall|j: int, k: int| 0 <= j < k < r1.len() implies (#[trigger] r1[j]).id != (
    #[trigger] r1[k]).id by {
        if k < r0.len() {
            assert(r1[j] == r0[j] && r1[k] == r0[k]);
        } else if j < r0.len() {
            assert(r1[j] == r0[j]);
            assert(added[k - r0.len()] == r1[k]);
            assert(node::newly_ready(o, a, r0[j].id.idx()));
            assert(node::newly_ready(a, b, r1[k].id.idx()));
        } else {
            assert(added[k - r0.len()] == r1[k]);
            assert(added[j - r0.len()] == r1[j]);
        }
    }
    assert forall|x: int| #[trigger] node::newly_ready(o, b, x) implies exists|k: int|
        0 <= k < r1.len() && (#[trigger] r1[k]).id.idx() == x by {
        if a.state(x) is Ready {
            assert(node::newly_ready(o, a, x));
            let k = choose|k: int| 0 <= k < r0.len() && (#[trigger] r0[k]).id.idx() == x;
            assert(r1[k] == r0[k]);
        } else {
            assert(node::newly_ready(a, b, x));
            let k = choose|k: int| 0 <= k < added.len() && (#[trigger] added[k]).id.idx() == x;
            assert(r1[k + r0.len()] == added[k]);
        }
    }
    if w >= 0 {
        assert forall|k: int| 0 <= k < r1.len() implies o.state(
            (#[trigger] r1[k]).id.idx(),
        ) is Pending by {
            if k < r0.len() {
                assert(r1[k] == r0[k]);
            } else {
                let x = r1[k].id.idx();
                assert(added[k - r0.len()] == r1[k]);
                assert(node::newly_ready(a, b, x));
                assert(b.nodes[x] == lemmas::node_after_one(a, c, x));
                if a.state(x) is Waiting {
                    assert(lemmas::completed_by(a, c, x));
                    lemmas::lemma_one_waiter(a, c, x, w);
                }
                assert(a.nodes[x] == (if x == c {
                    o.nodes[x]
                } else {
                    model::node_after_success(o, a, id, x)
                }));
            }
        }
    }
}

/// The releases of one more success come after those so far.
pub proof fn lemma_join_order(
    o: GraphModel,
    a: GraphModel,
    b: GraphModel,
    id: int,
    c: int,
    w: int,
    r0: Seq<ReadyTask>,
    r1: Seq<ReadyTask>,
)
    requires
        o.valid(),
        a.shape(),
        a.consistent_but(c),
        lemmas::may_succeed(a, c),
        lemmas::success_so_far(o, a, id, c),
        lemmas::success_so_far(o, b, id, w),
        lemmas::one_success(a, b, c),
        lemmas::next_success(a, c, w),
        forall|i: int| #[trigger]
            a.state(i) is Succeeded && o.has(i) && !(o.state(i) is Succeeded) ==> c < i,
        node::releases(o, a, r0),
        node::in_release_order(o, a, r0),
        r0.len() <= r1.len(),
        r1.take(r0.len() as int) == r0,
        node::releases(a, b, r1.skip(r0.len() as int)),
        forall|k: int|
            0 <= k < r0.len() ==> o.state((#[trigger] r0[k]).id.idx()) is Pending,
        forall|j: int, k: int|
            r0.len() <= j < k < r1.len() ==> {
                let x = (#[trigger] r1[j]).id.idx();
                let y = (#[trigger] r1[k]).id.idx();
                &&& a.state(x) is Pending
                &&& a.state(y) is Waiting || x < y
            },
    ensures
        node::in_release_order(o, b, r1),
{
    let added = r1.skip(r0.len() as int);
    assert forall|d: int, i: int| #[trigger] a.depends(d, i) == o.depends(d, i) by {
        if o.has(i) {
            assert(a.nodes[i].dependents == o.nodes[i].dependents);
        }
    }
    assert forall|i: int| #[trigger]
        b.state(i) is Succeeded && o.has(i) && !(o.state(i) is Succeeded) implies c <= i by {
        assert(b.nodes[i] == lemmas::node_after_one(a, c, i));
        if i != c {
            assert(a.state(i) is Succeeded);
        }
    }
    assert forall|k: int| 0 <= k < r0.len() implies r1[k] == r0[k] by {
        assert(r1.take(r0.len() as int)[k] == r1[k]);
    }
    assert forall|x: int| #[trigger] node::newly_ready(a, b, x) && a.state(x) is Pending implies node::released_by(
        o,
        b,
        x,
        c,
    ) by {
        assert(b.nodes[x] == lemmas::node_after_one(a, c, x));
        assert(lemmas::freed_by(a, c, x));
        assert(o.depends(x, c));
        assert(b.nodes[c] == lemmas::node_after_one(a, c, c));
        assert(a.nodes[c] == o.nodes[c]);
    }
    assert forall|j: int, k: int| 0 <= j < k < r1.len() implies node::released_before(
        o,
        b,
        (#[trigger] r1[j]).id.idx(),
        (#[trigger] r1[k]).id.idx(),
    ) by {
        let x = r1[j].id.idx();
        let y = r1[k].id.idx();
        if j < r0.len() {
            assert(r1[j] == r0[j]);
            assert(node::newly_ready(o, a, x));
            assert(a.nodes[x] == model::node_after_success(o, a, id, x));
            // the last dependency of x succeeded before c did
            assert(exists|cx: int| #[trigger] node::released_by(o, a, x, cx)) by {
                if k < r0.len() {
                    assert(node::released_before(o, a, r0[j].id.idx(), r0[k].id.idx()));
                    assert(o.state(r0[k].id.idx()) is Pending);
                } else {
                    lemma_has_last(o, a, x);
                }
            }
            if k < r0.len() {
                assert(r1[k] == r0[k]);
                assert(o.state(r0[k].id.idx()) is Pending);
                assert(node::released_before(o, a, x, y));
                let (cx, cy) = choose|cx: int, cy: int| #[trigger]
                    node::released_by(o, a, x, cx) && #[trigger] node::released_by(o, a, y, cy)
                        && (cy < cx || (cy == cx && x < y));
                lemma_last_stays(o, a, b, id, c, x, cx);
                assert(node::newly_ready(o, a, y));
                lemma_last_stays(o, a, b, id, c, y, cy);
            } else {
                let cx = choose|cx: int| #[trigger] node::released_by(o, a, x, cx);
                lemma_last_stays(o, a, b, id, c, x, cx);
                assert(added[k - r0.len()] == r1[k]);
                assert(node::newly_ready(a, b, y));
                assert(a.state(cx) is Succeeded);
                assert(c < cx);
                assert(b.nodes[y] == lemmas::node_after_one(a, c, y));
                assert(a.nodes[y] == (if y == c {
                    o.nodes[y]
                } else {
                    model::node_after_success(o, a, id, y)
                }));
                if a.state(y) is Pending {
                    assert(node::released_by(o, b, y, c));
                }
            }
        } else {
            assert(added[k - r0.len()] == r1[k]);
            assert(added[j - r0.len()] == r1[j]);
            assert(node::newly_ready(a, b, x));
            assert(node::newly_ready(a, b, y));
            assert(a.state(x) is Pending);
            assert(a.nodes[x] == (if x == c {
                o.nodes[x]
            } else {
                model::node_after_success(o, a, id, x)
            }));
            assert(b.nodes[y] == lemmas::node_after_one(a, c, y));
            assert(a.nodes[y] == (if y == c {
                o.nodes[y]
            } else {
                model::node_after_success(o, a, id, y)
            }));
            assert(node::released_by(o, b, x, c));
            if a.state(y) is Pending {
                assert(node::released_by(o, b, y, c));
            }
        }
    }
}

/// A node that was released had a last dependency.
proof fn lemma_has_last(o: GraphModel, a: GraphModel, x: int)
    requires
        forall|d: int, i: int| #[trigger] a.depends(d, i) == o.depends(d, i),
        o.blocked(x),
        !a.blocked(x),
    ensures
        exists|c: int| #[trigger] node::released_by(o, a, x, c),
{
    let i0 = choose|i: int| #[trigger] o.depends(x, i) && !(o.state(i) is Succeeded);
    assert(a.depends(x, i0));
    lemma_least(o, a, x, i0);
}

proof fn lemma_least(o: GraphModel, a: GraphModel, x: int, i: int)
    requires
        o.depends(x, i),
        a.state(i) is Succeeded,
        !(o.state(i) is Succeeded),
    ensures
        exists|c: int| #[trigger] node::released_by(o, a, x, c),
    decreases i,
{
    if node::released_by(o, a, x, i) {
    } else {
        let j = choose|j: int| #[trigger]
            o.depends(x, j) && a.state(j) is Succeeded && !(o.state(j) is Succeeded) && j < i;
        lemma_least(o, a, x, j);
    }
}

/// A later success does not change which dependency came last.
proof fn lemma_last_stays(
    o: GraphModel,
    a: GraphModel,
    b: GraphModel,
    id: int,
    c: int,
    x: int,
    cx: int,
)
    requires
        o.shape(),
        a.shape(),
        a.consistent_but(c),
        forall|d: int, i: int| #[trigger] a.depends(d, i) == o.depends(d, i),
        lemmas::may_succeed(a, c),
        lemmas::one_success(a, b, c),
        a.has(x),
        a.nodes.len() == o.nodes.len(),
        a.state(x) is Ready,
        node::released_by(o, a, x, cx),
    ensures
        node::released_by(o, b, x, cx),
{
    assert(b.nodes[cx] == lemmas::node_after_one(a, c, cx));
    assert forall|i: int| #[trigger]
        o.depends(x, i) && b.state(i) is Succeeded && !(o.state(i) is Succeeded) implies cx
        <= i by {
        assert(a.depends(x, i));
        assert(b.nodes[i] == lemmas::node_after_one(a, c, i));
        assert(a.state(i) is Succeeded);
    }
}

} // verus!
