//! Facts about the model of a graph.

use crate::graph::model;
use crate::graph::model::{GraphModel, NodeModel, NodeState};
use vstd::prelude::*;
use vstd::set_lib::*;

verus! {

/// Two graphs with the same nodes and edges.
pub open spec fn same_edges(m: GraphModel, n: GraphModel) -> bool {
    &&& n.nodes.len() == m.nodes.len()
    &&& n.bindings == m.bindings
    &&& forall|i: int|
        m.has(i) ==> (#[trigger] n.nodes[i]).dependents == m.nodes[i].dependents
            && n.nodes[i].waiters == m.nodes[i].waiters
}

/// A set of nodes is finite and no larger than the graph.
pub proof fn lemma_node_set(m: GraphModel, s: Set<int>)
    requires
        forall|i: int| #[trigger] s.contains(i) ==> m.has(i),
    ensures
        s.finite(),
        s.len() <= m.nodes.len(),
{
    lemma_int_range(0, m.nodes.len() as int);
    let all = set_int_range(0, m.nodes.len() as int);
    assert(s.subset_of(all));
    lemma_set_subset_finite(all, s);
    lemma_len_subset(s, all);
}

/// The counted sets are finite.
pub proof fn lemma_finite(m: GraphModel)
    ensures
        forall|d: int| (#[trigger] m.blockers(d)).finite() && m.blockers(d).len() <= m.nodes.len(),
        forall|w: int| (#[trigger] m.leaves(w)).finite() && m.leaves(w).len() <= m.nodes.len(),
        m.open_nodes().finite(),
        m.open_nodes().len() <= m.nodes.len(),
{
    assert forall|d: int| (#[trigger] m.blockers(d)).finite() && m.blockers(d).len()
        <= m.nodes.len() by {
        lemma_node_set(m, m.blockers(d));
    }
    assert forall|w: int| (#[trigger] m.leaves(w)).finite() && m.leaves(w).len()
        <= m.nodes.len() by {
        lemma_node_set(m, m.leaves(w));
    }
    lemma_node_set(m, m.open_nodes());
}

/// Changing states without adding or removing a success or an end changes
/// neither the edges nor what is counted.
pub proof fn lemma_light_change(m: GraphModel, n: GraphModel)
    requires
        same_edges(m, n),
        forall|i: int|
            m.has(i) ==> ((#[trigger] n.state(i)) is Succeeded <==> m.state(i) is Succeeded)
                && (n.state(i).terminal() <==> m.state(i).terminal()),
    ensures
        m.shape() ==> n.shape(),
        m.acyclic() ==> n.acyclic(),
        forall|i: int, j: int| #[trigger] n.edge(i, j) == m.edge(i, j),
        forall|d: int, i: int| #[trigger] n.depends(d, i) == m.depends(d, i),
        forall|w: int, i: int| #[trigger] n.waits_for(w, i) == m.waits_for(w, i),
        forall|d: int| #[trigger] n.blockers(d) == m.blockers(d),
        forall|w: int| #[trigger] n.leaves(w) == m.leaves(w),
        forall|d: int| #[trigger] n.blocked(d) == m.blocked(d),
        forall|w: int| #[trigger] n.awaits(w) == m.awaits(w),
        n.open_nodes() == m.open_nodes(),
{
    assert forall|d: int, i: int| #[trigger] n.depends(d, i) == m.depends(d, i) by {
        if m.has(i) {
            assert(n.nodes[i].dependents == m.nodes[i].dependents);
        }
    }
    assert forall|w: int, i: int| #[trigger] n.waits_for(w, i) == m.waits_for(w, i) by {
        if m.has(i) {
            assert(n.nodes[i].waiters == m.nodes[i].waiters);
        }
    }
    assert forall|d: int| #[trigger] n.blockers(d) == m.blockers(d) by {
        assert forall|i: int| n.blockers(d).contains(i) == m.blockers(d).contains(i) by {
            if m.has(i) {
                assert(n.state(i) is Succeeded <==> m.state(i) is Succeeded);
            }
        }
        assert(n.blockers(d) =~= m.blockers(d));
    }
    assert forall|w: int| #[trigger] n.leaves(w) == m.leaves(w) by {
        assert(n.leaves(w) =~= m.leaves(w));
    }
    assert forall|d: int| #[trigger] n.blocked(d) == m.blocked(d) by {
        if n.blocked(d) {
            let i = choose|i: int| #[trigger] n.depends(d, i) && !(n.state(i) is Succeeded);
            assert(m.depends(d, i));
        }
        if m.blocked(d) {
            let i = choose|i: int| #[trigger] m.depends(d, i) && !(m.state(i) is Succeeded);
            assert(n.depends(d, i));
        }
    }
    assert forall|w: int| #[trigger] n.awaits(w) == m.awaits(w) by {
        if n.awaits(w) {
            let i = choose|i: int| #[trigger] n.waits_for(w, i);
            assert(m.waits_for(w, i));
        }
        if m.awaits(w) {
            let i = choose|i: int| #[trigger] m.waits_for(w, i);
            assert(n.waits_for(w, i));
        }
    }
    assert forall|i: int| n.open_nodes().contains(i) == m.open_nodes().contains(i) by {
        if m.has(i) {
            assert(n.state(i).terminal() <==> m.state(i).terminal());
        }
    }
    assert(n.open_nodes() =~= m.open_nodes());
    assert forall|i: int, j: int| #[trigger] n.edge(i, j) == m.edge(i, j) by {
        assert(n.depends(j, i) == m.depends(j, i));
        assert(n.waits_for(j, i) == m.waits_for(j, i));
    }
    if m.shape() {
        assert forall|i: int, d: int| #[trigger] n.depends(d, i) implies i < d < n.nodes.len() by {
            assert(m.depends(d, i));
        }
        assert forall|i: int, w: int| #[trigger] n.waits_for(w, i) implies 0 <= w < i by {
            assert(m.waits_for(w, i));
        }
        assert forall|t: u64| #[trigger] n.bindings.contains_key(t) implies n.has(
            n.bindings[t],
        ) by {
            assert(m.bindings.contains_key(t));
        }
        assert forall|i: int| n.has(i) implies model::rising(#[trigger] n.nodes[i].dependents) by {
            assert(model::rising(m.nodes[i].dependents));
        }
        assert forall|i: int| n.has(i) implies (#[trigger] n.nodes[i].waiters).len() <= 1 by {
            assert(m.nodes[i].waiters.len() <= 1);
        }
    }
    if m.acyclic() {
        let rank = choose|rank: Seq<int>| m.ranked(rank);
        assert(n.ranked(rank));
    }
}

/// Node `x` has no unfinished dependency but `c`, and has that one.
pub open spec fn freed_by(a: GraphModel, c: int, x: int) -> bool {
    &&& a.state(x) is Pending
    &&& a.depends(x, c)
    &&& forall|i: int| #[trigger] a.depends(x, i) && !(a.state(i) is Succeeded) ==> i == c
}

/// Node `x` waits for `c` and for nothing else.
pub open spec fn completed_by(a: GraphModel, c: int, x: int) -> bool {
    &&& a.state(x) is Waiting
    &&& a.waits_for(x, c)
    &&& forall|i: int| #[trigger] a.waits_for(x, i) ==> i == c
}

/// Node `x` once `c` has succeeded, before a waiting node that this completes
/// succeeds in its turn.
pub open spec fn node_after_one(a: GraphModel, c: int, x: int) -> NodeModel {
    let resumes = completed_by(a, c, x) && a.nodes[x].task is Some;
    let released = freed_by(a, c, x) || resumes;
    NodeModel {
        state: if x == c {
            NodeState::Succeeded
        } else if released {
            NodeState::Ready
        } else {
            a.state(x)
        },
        task: if x != c && released {
            None
        } else {
            a.nodes[x].task
        },
        dependents: a.nodes[x].dependents,
        waiters: if x == c {
            Seq::empty()
        } else {
            a.nodes[x].waiters
        },
        continuation: a.nodes[x].continuation || resumes,
    }
}

/// The success of `c` alone.
pub open spec fn one_success(a: GraphModel, b: GraphModel, c: int) -> bool {
    &&& model::same_frame(a, b)
    &&& forall|x: int| a.has(x) ==> #[trigger] b.nodes[x] == node_after_one(a, c, x)
}

/// Node `c` may succeed: it runs, or it waits for nothing and has no next task.
pub open spec fn may_succeed(a: GraphModel, c: int) -> bool {
    &&& a.has(c)
    &&& a.state(c) is Running || (a.state(c) is Waiting && !a.awaits(c) && a.nodes[c].task is None)
}

/// The waiting node that the success of `c` lets succeed, or -1.
pub open spec fn next_success(a: GraphModel, c: int, w: int) -> bool {
    if w >= 0 {
        completed_by(a, c, w) && a.nodes[w].task is None
    } else {
        w == -1 && forall|x: int| #[trigger]
            a.waits_for(x, c) ==> !(completed_by(a, c, x) && a.nodes[x].task is None)
    }
}

/// The success of one node keeps the graph in order.
pub proof fn lemma_one_success(a: GraphModel, b: GraphModel, c: int, w: int)
    requires
        a.shape(),
        a.acyclic(),
        a.consistent_but(c),
        may_succeed(a, c),
        one_success(a, b, c),
        next_success(a, c, w),
    ensures
        b.shape(),
        b.acyclic(),
        b.consistent_but(w),
        w >= 0 ==> may_succeed(b, w) && b.nodes[w] == a.nodes[w],
        forall|d: int| #[trigger] b.blockers(d) == a.blockers(d).remove(c),
        forall|x: int| #[trigger] b.leaves(x) == a.leaves(x).remove(c),
        b.open_nodes() == a.open_nodes().remove(c),
{
    assert forall|d: int, i: int| #[trigger] b.depends(d, i) == a.depends(d, i) by {
        if a.has(i) {
            assert(b.nodes[i] == node_after_one(a, c, i));
        }
    }
    assert forall|x: int, i: int| #[trigger] b.waits_for(x, i) == (a.waits_for(x, i) && i != c) by {
        if a.has(i) {
            assert(b.nodes[i] == node_after_one(a, c, i));
        }
    }
    assert forall|x: int| a.has(x) && x != c implies (#[trigger] b.state(x) is Succeeded
        <==> a.state(x) is Succeeded) && (b.state(x).terminal() <==> a.state(x).terminal()) by {
        assert(b.nodes[x] == node_after_one(a, c, x));
    }
    assert(b.nodes[c] == node_after_one(a, c, c));
    assert forall|d: int| #[trigger] b.blockers(d) == a.blockers(d).remove(c) by {
        assert forall|i: int| b.blockers(d).contains(i) == a.blockers(d).remove(c).contains(i) by {
            if a.has(i) && i != c {
                assert(b.state(i) is Succeeded <==> a.state(i) is Succeeded);
            }
        }
        assert(b.blockers(d) =~= a.blockers(d).remove(c));
    }
    assert forall|x: int| #[trigger] b.leaves(x) == a.leaves(x).remove(c) by {
        assert(b.leaves(x) =~= a.leaves(x).remove(c));
    }
    assert(b.open_nodes() =~= a.open_nodes().remove(c)) by {
        assert forall|i: int| b.open_nodes().contains(i) == a.open_nodes().remove(c).contains(
            i,
        ) by {
            if a.has(i) && i != c {
                assert(b.state(i).terminal() <==> a.state(i).terminal());
            }
        }
    }
    // shape
    assert forall|i: int, d: int| #[trigger] b.depends(d, i) implies i < d < b.nodes.len() by {
        assert(a.depends(d, i));
    }
    assert forall|i: int, x: int| #[trigger] b.waits_for(x, i) implies 0 <= x < i by {
        assert(a.waits_for(x, i));
    }
    assert forall|i: int| b.has(i) implies model::rising(#[trigger] b.nodes[i].dependents) by {
        assert(b.nodes[i] == node_after_one(a, c, i));
        assert(model::rising(a.nodes[i].dependents));
    }
    assert forall|i: int| b.has(i) implies (#[trigger] b.nodes[i].waiters).len() <= 1 by {
        assert(b.nodes[i] == node_after_one(a, c, i));
        assert(a.nodes[i].waiters.len() <= 1);
    }
    assert forall|t: u64| #[trigger] b.bindings.contains_key(t) implies b.has(b.bindings[t]) by {
        assert(a.bindings.contains_key(t));
    }
    // acyclic
    let rank = choose|rank: Seq<int>| a.ranked(rank);
    assert forall|i: int, j: int| #[trigger] b.edge(i, j) implies rank[i] < rank[j] by {
        assert(b.depends(j, i) == a.depends(j, i));
        assert(b.waits_for(j, i) == (a.waits_for(j, i) && i != c));
        assert(a.edge(i, j));
    }
    assert(b.ranked(rank));
    // consistent
    assert forall|d: int, i: int| #[trigger]
        b.depends(d, i) && !(b.state(d) is Pending) && !(b.state(d) is Cancelled) implies b.state(
        i,
    ) is Succeeded by {
        assert(a.depends(d, i));
        assert(b.nodes[d] == node_after_one(a, c, d));
        assert(b.nodes[i] == node_after_one(a, c, i));
    }
    assert forall|x: int, i: int| #[trigger] b.waits_for(x, i) implies !b.state(i).terminal() && (
    b.state(x) is Waiting || b.state(x) is Failed) by {
        assert(a.waits_for(x, i));
        assert(b.nodes[x] == node_after_one(a, c, x));
        assert(b.nodes[i] == node_after_one(a, c, i));
        if x == c {
            assert(a.awaits(c));
        }
        assert(a.depends(x, i) || !a.depends(x, i));
    }
    assert forall|x: int|
        b.has(x) && #[trigger] b.state(x) is Waiting && x != w implies b.awaits(x) by {
        assert(b.nodes[x] == node_after_one(a, c, x));
        assert(a.state(x) is Waiting && x != c);
        assert(a.awaits(x));
        let i = choose|i: int| #[trigger] a.waits_for(x, i);
        if i != c {
            assert(b.waits_for(x, i));
        } else if exists|k: int| #[trigger] a.waits_for(x, k) && k != c {
            let k = choose|k: int| #[trigger] a.waits_for(x, k) && k != c;
            assert(b.waits_for(x, k));
        } else {
            assert(completed_by(a, c, x));
            assert(a.nodes[x].task is None);
            if w >= 0 {
                assert(a.waits_for(w, c));
                lemma_one_waiter(a, c, x, w);
            }
        }
    }
    assert forall|d: int, i: int| #[trigger] b.depends(d, i) && b.state(i).broken() implies b.state(
        d,
    ) is Cancelled by {
        assert(a.depends(d, i));
        assert(b.nodes[d] == node_after_one(a, c, d));
        assert(b.nodes[i] == node_after_one(a, c, i));
    }
    assert forall|i: int|
        b.has(i) && #[trigger] b.state(i) is Pending implies b.nodes[i].task is Some by {
        assert(b.nodes[i] == node_after_one(a, c, i));
        assert(a.state(i) is Pending);
    }
    if w >= 0 {
        assert(a.waits_for(w, c));
        assert(b.nodes[w] == node_after_one(a, c, w));
        assert forall|i: int| !(#[trigger] b.waits_for(w, i)) by {
            if b.waits_for(w, i) {
                assert(a.waits_for(w, i));
            }
        }
    }
}

/// A node has at most one waiter.
pub proof fn lemma_one_waiter(m: GraphModel, i: int, x: int, y: int)
    requires
        m.shape(),
        m.waits_for(x, i),
        m.waits_for(y, i),
    ensures
        x == y,
        m.nodes[i].waiters == seq![x],
{
    let ws = m.nodes[i].waiters;
    assert(ws.len() <= 1);
    let k = choose|k: int| 0 <= k < ws.len() && ws[k] == x;
    let l = choose|k: int| 0 <= k < ws.len() && ws[k] == y;
    assert(ws =~= seq![x]);
}

/// The success of `id` followed as far as node `c`, which has yet to succeed.
pub open spec fn success_so_far(o: GraphModel, a: GraphModel, id: int, c: int) -> bool {
    &&& model::same_frame(o, a)
    &&& forall|x: int|
        o.has(x) ==> #[trigger] a.nodes[x] == (if x == c {
            o.nodes[x]
        } else {
            model::node_after_success(o, a, id, x)
        })
}

/// Before anything has happened, nothing has changed.
pub proof fn lemma_success_starts(o: GraphModel, id: int)
    requires
        o.shape(),
        o.consistent(),
        may_succeed(o, id),
        o.state(id) is Running,
    ensures
        success_so_far(o, o, id, id),
        o.consistent_but(id),
{
    assert forall|x: int| o.has(x) implies #[trigger] o.nodes[x] == (if x == id {
        o.nodes[x]
    } else {
        model::node_after_success(o, o, id, x)
    }) by {
        if x != id {
            if o.state(x) is Waiting {
                assert(o.awaits(x));
            }
            if o.state(x) is Succeeded {
                if o.nodes[x].waiters.len() > 0 {
                    assert(o.nodes[x].waiters.contains(o.nodes[x].waiters[0]));
                    assert(o.waits_for(o.nodes[x].waiters[0], x));
                }
                assert(o.nodes[x].waiters =~= Seq::empty());
            }
        }
    }
}

/// One more success carries the account one node further.
pub proof fn lemma_success_goes_on(
    o: GraphModel,
    a: GraphModel,
    b: GraphModel,
    id: int,
    c: int,
    w: int,
)
    requires
        o.shape(),
        o.consistent(),
        o.has(id),
        o.state(id) is Running,
        success_so_far(o, a, id, c),
        a.shape(),
        a.acyclic(),
        a.consistent_but(c),
        may_succeed(a, c),
        one_success(a, b, c),
        next_success(a, c, w),
        c == id || (a.state(id) is Succeeded && a.state(c) is Waiting),
    ensures
        success_so_far(o, b, id, w),
        b.state(id) is Succeeded,
{
    lemma_one_success(a, b, c, w);
    assert(a.nodes[c] == o.nodes[c]);
    assert(b.nodes[c] == node_after_one(a, c, c));
    assert(b.nodes[id] == node_after_one(a, c, id));
    assert forall|d: int, i: int| #[trigger] b.depends(d, i) == o.depends(d, i)
        && a.depends(d, i) == o.depends(d, i) by {
        if o.has(i) {
            assert(a.nodes[i].dependents == o.nodes[i].dependents);
            assert(b.nodes[i] == node_after_one(a, c, i));
        }
    }
    assert forall|x: int, i: int| #[trigger] b.waits_for(x, i) == (a.waits_for(x, i) && i != c) by {
        if o.has(i) {
            assert(b.nodes[i] == node_after_one(a, c, i));
        }
    }
    assert forall|i: int| o.has(i) && o.state(i) is Succeeded implies #[trigger] a.state(
        i,
    ) is Succeeded by {
        assert(a.nodes[i].state == o.state(i));
    }
    assert forall|i: int| o.has(i) implies (#[trigger] b.state(i) is Succeeded <==> (a.state(
        i,
    ) is Succeeded || i == c)) by {
        assert(b.nodes[i] == node_after_one(a, c, i));
    }
    assert forall|x: int| o.has(x) implies #[trigger] b.nodes[x] == (if x == w {
        o.nodes[x]
    } else {
        model::node_after_success(o, b, id, x)
    }) by {
        assert(b.nodes[x] == node_after_one(a, c, x));
        if x == c {
            if c != id {
                assert(!b.awaits(c)) by {
                    assert forall|i: int| !(#[trigger] b.waits_for(c, i)) by {
                        assert(!a.waits_for(c, i)) by {
                            if a.waits_for(c, i) {
                                assert(a.awaits(c));
                            }
                        }
                    }
                }
            }
        } else if x == w {
        } else if x == id {
        } else if o.state(x) is Pending {
            if a.blocked(x) {
                let k = choose|k: int| #[trigger] a.depends(x, k) && !(a.state(k) is Succeeded);
                assert(o.depends(x, k));
                assert(o.blocked(x));
            }
            if b.blocked(x) {
                let k = choose|k: int| #[trigger] b.depends(x, k) && !(b.state(k) is Succeeded);
                assert(a.depends(x, k));
                assert(a.blocked(x));
                assert(k != c);
                assert(!freed_by(a, c, x));
            } else if a.blocked(x) {
                assert forall|i: int| #[trigger]
                    a.depends(x, i) && !(a.state(i) is Succeeded) implies i == c by {
                    assert(b.depends(x, i));
                }
                let k = choose|k: int| #[trigger] a.depends(x, k) && !(a.state(k) is Succeeded);
                assert(freed_by(a, c, x) <==> a.state(x) is Pending);
            } else {
                assert(!freed_by(a, c, x));
            }
        } else if o.state(x) is Waiting {
            if a.awaits(x) {
                if b.awaits(x) {
                    let k = choose|k: int| #[trigger] b.waits_for(x, k);
                    assert(a.waits_for(x, k));
                    assert(!completed_by(a, c, x));
                } else {
                    assert forall|i: int| #[trigger] a.waits_for(x, i) implies i == c by {
                        if i != c {
                            assert(b.waits_for(x, i));
                        }
                    }
                    let k = choose|k: int| #[trigger] a.waits_for(x, k);
                    assert(completed_by(a, c, x));
                    if a.nodes[x].task is None {
                        if w >= 0 {
                            assert(a.waits_for(w, c));
                            lemma_one_waiter(a, c, x, w);
                        }
                        assert(false);
                    }
                }
            } else {
                if b.awaits(x) {
                    let k = choose|k: int| #[trigger] b.waits_for(x, k);
                    assert(a.waits_for(x, k));
                }
            }
        }
    }
}

/// A node is blocked exactly when its dependency count is not zero.
pub proof fn lemma_blocked_count(m: GraphModel, x: int)
    ensures
        m.blocked(x) <==> m.blockers(x).len() > 0,
{
    lemma_finite(m);
    let s = m.blockers(x);
    if m.blocked(x) {
        let i = choose|i: int| #[trigger] m.depends(x, i) && !(m.state(i) is Succeeded);
        assert(s.contains(i));
        if s.len() == 0 {
            s.lemma_len0_is_empty();
        }
    } else {
        assert(s =~= Set::empty());
    }
}

/// A dependency count reaches zero exactly when its last blocker succeeds.
pub proof fn lemma_last_blocker(a: GraphModel, c: int, x: int)
    requires
        a.depends(x, c),
        !(a.state(c) is Succeeded),
    ensures
        a.blockers(x).finite(),
        a.blockers(x).contains(c),
        a.blockers(x).len() >= 1,
        a.blockers(x).remove(c).len() == a.blockers(x).len() - 1,
        a.state(x) is Pending ==> (freed_by(a, c, x) <==> a.blockers(x).len() == 1),
{
    lemma_finite(a);
    let s = a.blockers(x);
    assert(s.contains(c));
    if s.len() == 1 {
        assert forall|i: int| #[trigger]
            a.depends(x, i) && !(a.state(i) is Succeeded) implies i == c by {
            assert(s.contains(i));
            if i != c {
                assert(s.remove(c).contains(i));
                assert(s.remove(c).len() == 0);
                s.remove(c).lemma_len0_is_empty();
            }
        }
    }
    if freed_by(a, c, x) {
        assert(s =~= Set::empty().insert(c));
    }
}

/// A leaf count reaches zero exactly when the last leaf succeeds.
pub proof fn lemma_last_leaf(a: GraphModel, c: int, x: int)
    requires
        a.waits_for(x, c),
    ensures
        a.leaves(x).finite(),
        a.leaves(x).contains(c),
        a.leaves(x).len() >= 1,
        a.leaves(x).remove(c).len() == a.leaves(x).len() - 1,
        a.state(x) is Waiting ==> (completed_by(a, c, x) <==> a.leaves(x).len() == 1),
{
    lemma_finite(a);
    let s = a.leaves(x);
    assert(s.contains(c));
    if s.len() == 1 {
        assert forall|i: int| #[trigger] a.waits_for(x, i) implies i == c by {
            assert(s.contains(i));
            if i != c {
                assert(s.remove(c).contains(i));
                s.remove(c).lemma_len0_is_empty();
            }
        }
    }
    if completed_by(a, c, x) {
        assert(s =~= Set::empty().insert(c));
    }
}

/// The states agree with the edges, except that the `sources` may depend on
/// broken nodes.
pub open spec fn consistent_around(m: GraphModel, sources: Set<int>) -> bool {
    &&& forall|d: int, i: int| #[trigger]
        m.depends(d, i) && !(m.state(d) is Pending) && !(m.state(d) is Cancelled) ==> m.state(
            i,
        ) is Succeeded
    &&& forall|w: int, i: int| #[trigger]
        m.waits_for(w, i) ==> !m.state(i).terminal() && (m.state(w) is Waiting || m.state(
            w,
        ) is Failed)
    &&& forall|w: int| m.has(w) && #[trigger] m.state(w) is Waiting ==> m.awaits(w)
    &&& forall|d: int, i: int| #[trigger]
        m.depends(d, i) && m.state(i).broken() && !sources.contains(d) ==> m.state(d) is Cancelled
    &&& forall|i: int|
        m.has(i) && #[trigger] m.state(i) is Pending ==> m.nodes[i].task is Some
}

/// The nodes that may end without success on their own: pending ones that are
/// cancelled, and running ones.
pub open spec fn may_break(m: GraphModel, sources: Set<int>, end: NodeState) -> bool {
    &&& end is Failed || end is Cancelled
    &&& forall|x: int| #[trigger]
        sources.contains(x) ==> m.has(x) && (m.state(x) is Running || (m.state(x) is Pending
            && end is Cancelled))
}

/// What the break of the `sources` has done so far to node `x`.
pub open spec fn broken_node(
    o: GraphModel,
    b: GraphModel,
    sources: Set<int>,
    end: NodeState,
    told: Set<int>,
    x: int,
) -> bool {
    &&& b.nodes[x].task == o.nodes[x].task
    &&& b.nodes[x].dependents == o.nodes[x].dependents
    &&& b.nodes[x].continuation == o.nodes[x].continuation
    &&& b.nodes[x].waiters == (if b.state(x).terminal() && !told.contains(x) {
        Seq::empty()
    } else {
        o.nodes[x].waiters
    })
    &&& if sources.contains(x) {
        b.state(x) == end
    } else {
        b.state(x) == o.state(x) || (!o.state(x).terminal() && o.reached_from(sources, x)
            && b.state(x) == (if o.state(x) is Waiting {
            NodeState::Failed
        } else {
            NodeState::Cancelled
        }))
    }
}

/// The break of the `sources` followed so far; the neighbours of the nodes in
/// `open` have yet to be told.
pub open spec fn broken_so_far(
    o: GraphModel,
    b: GraphModel,
    sources: Set<int>,
    end: NodeState,
    open: Set<int>,
) -> bool {
    &&& model::same_frame(o, b)
    &&& forall|x: int| o.has(x) ==> broken_node(o, b, sources, end, open, #[trigger] to_mark(x))
    &&& forall|w: int, x: int| #[trigger]
        o.waits_for(w, x) && b.state(x).broken() && !open.contains(x) ==> b.state(w) is Failed
    &&& forall|d: int, x: int| #[trigger]
        o.depends(d, x) && b.state(x).broken() && !open.contains(x) ==> b.state(d) is Cancelled
    &&& forall|x: int| #[trigger]
        open.contains(x) ==> o.has(x) && b.state(x).broken() && o.reached_from(sources, x)
            && !o.state(x).terminal()
}

/// A name for a node under discussion.
pub open spec fn to_mark(x: int) -> int {
    x
}

pub proof fn lemma_reach_self(m: GraphModel, sources: Set<int>, x: int)
    requires
        m.has(x),
        sources.contains(x),
    ensures
        m.reached_from(sources, x),
{
    let p = seq![x];
    assert(m.path(p));
    assert(p[0] == x && p.last() == x);
    assert(m.reaches(x, x));
}

pub proof fn lemma_reach_next(m: GraphModel, sources: Set<int>, x: int, y: int)
    requires
        m.reached_from(sources, x),
        m.edge(x, y),
        m.has(y),
    ensures
        m.reached_from(sources, y),
{
    let a = choose|a: int| sources.contains(a) && #[trigger] m.reaches(a, x);
    lemma_reaches_next(m, a, x, y);
}

pub proof fn lemma_reaches_next(m: GraphModel, a: int, x: int, y: int)
    requires
        m.reaches(a, x),
        m.edge(x, y),
        m.has(y),
    ensures
        m.reaches(a, y),
{
    let p = choose|p: Seq<int>| #[trigger] m.path(p) && p[0] == a && p.last() == x;
    let q = p.push(y);
    assert forall|k: int| 0 <= k < q.len() - 1 implies m.edge(#[trigger] q[k], q[k + 1]) by {
        if k < p.len() - 1 {
            assert(q[k] == p[k] && q[k + 1] == p[k + 1]);
        } else {
            assert(q[k] == x);
        }
    }
    assert forall|k: int| 0 <= k < q.len() implies m.has(#[trigger] q[k]) by {
        if k < p.len() {
            assert(q[k] == p[k]);
        }
    }
    assert(m.path(q));
    assert(q[0] == a && q.last() == y);
}

/// Once everybody has been told, whatever is reached is broken.
proof fn lemma_path_broken(
    o: GraphModel,
    b: GraphModel,
    sources: Set<int>,
    end: NodeState,
    p: Seq<int>,
    k: int,
)
    requires
        may_break(o, sources, end),
        broken_so_far(o, b, sources, end, Set::empty()),
        o.path(p),
        sources.contains(p[0]),
        0 <= k < p.len(),
    ensures
        b.state(p[k]).broken(),
    decreases k,
{
    if k == 0 {
        assert(broken_node(o, b, sources, end, Set::empty(), to_mark(p[0])));
    } else {
        lemma_path_broken(o, b, sources, end, p, k - 1);
        let x = p[k - 1];
        assert(o.edge(p[k - 1], p[(k - 1) + 1]));
        if o.depends(p[k], x) {
        } else {
            assert(o.waits_for(p[k], x));
        }
    }
}

/// Once everybody has been told, the account is complete and the graph is in
/// order again.
pub proof fn lemma_break_done(
    o: GraphModel,
    b: GraphModel,
    sources: Set<int>,
    end: NodeState,
)
    requires
        o.shape(),
        o.acyclic(),
        consistent_around(o, sources),
        may_break(o, sources, end),
        broken_so_far(o, b, sources, end, Set::empty()),
    ensures
        b.valid(),
        b == model::after_failure(o, sources, end),
{
    let none = Set::<int>::empty();
    assert forall|x: int| o.has(x) implies broken_node(o, b, sources, end, none, x) by {
        assert(broken_node(o, b, sources, end, none, to_mark(x)));
    }
    assert forall|d: int, i: int| #[trigger] b.depends(d, i) == o.depends(d, i) by {
        if o.has(i) {
            assert(broken_node(o, b, sources, end, none, to_mark(i)));
        }
    }
    assert forall|w: int, i: int| #[trigger] b.waits_for(w, i) implies o.waits_for(w, i)
        && !b.state(i).terminal() by {
        assert(broken_node(o, b, sources, end, none, to_mark(i)));
    }
    assert forall|w: int, i: int| #[trigger]
        o.waits_for(w, i) && !b.state(i).terminal() implies b.waits_for(w, i) by {
        assert(broken_node(o, b, sources, end, none, to_mark(i)));
    }
    // shape
    assert forall|i: int, d: int| #[trigger] b.depends(d, i) implies i < d < b.nodes.len() by {
        assert(o.depends(d, i));
    }
    assert forall|i: int, x: int| #[trigger] b.waits_for(x, i) implies 0 <= x < i by {
        assert(o.waits_for(x, i));
    }
    assert forall|i: int| b.has(i) implies model::rising(#[trigger] b.nodes[i].dependents) by {
        assert(broken_node(o, b, sources, end, none, to_mark(i)));
        assert(model::rising(o.nodes[i].dependents));
    }
    assert forall|i: int| b.has(i) implies (#[trigger] b.nodes[i].waiters).len() <= 1 by {
        assert(broken_node(o, b, sources, end, none, to_mark(i)));
        assert(o.nodes[i].waiters.len() <= 1);
    }
    assert forall|t: u64| #[trigger] b.bindings.contains_key(t) implies b.has(b.bindings[t]) by {
        assert(o.bindings.contains_key(t));
    }
    // acyclic
    let rank = choose|rank: Seq<int>| o.ranked(rank);
    assert forall|i: int, j: int| #[trigger] b.edge(i, j) implies rank[i] < rank[j] by {
        assert(b.depends(j, i) == o.depends(j, i));
        if b.waits_for(j, i) {
            assert(o.waits_for(j, i));
        }
        assert(o.edge(i, j));
    }
    assert(b.ranked(rank));
    // consistent
    assert forall|d: int, i: int| #[trigger]
        b.depends(d, i) && !(b.state(d) is Pending) && !(b.state(d) is Cancelled) implies b.state(
        i,
    ) is Succeeded by {
        assert(o.depends(d, i));
        assert(broken_node(o, b, sources, end, none, to_mark(d)));
        assert(broken_node(o, b, sources, end, none, to_mark(i)));
        assert(!(o.state(d) is Pending));
    }
    assert forall|w: int, i: int| #[trigger] b.waits_for(w, i) implies !b.state(i).terminal() && (
    b.state(w) is Waiting || b.state(w) is Failed) by {
        assert(o.waits_for(w, i));
        assert(broken_node(o, b, sources, end, none, to_mark(w)));
    }
    assert forall|w: int|
        b.has(w) && #[trigger] b.state(w) is Waiting && w != -1 implies b.awaits(w) by {
        assert(broken_node(o, b, sources, end, none, to_mark(w)));
        assert(o.state(w) is Waiting);
        let i = choose|i: int| #[trigger] o.waits_for(w, i);
        assert(broken_node(o, b, sources, end, none, to_mark(i)));
        assert(b.waits_for(w, i));
    }
    assert forall|d: int, i: int| #[trigger] b.depends(d, i) && b.state(i).broken() implies b.state(
        d,
    ) is Cancelled by {
        assert(o.depends(d, i));
    }
    assert forall|i: int|
        b.has(i) && #[trigger] b.state(i) is Pending implies b.nodes[i].task is Some by {
        assert(broken_node(o, b, sources, end, none, to_mark(i)));
        assert(o.state(i) is Pending);
    }
    // the step
    assert forall|x: int| o.has(x) implies #[trigger] b.nodes[x] == model::node_after_failure(
        o,
        sources,
        end,
        x,
    ) by {
        assert(broken_node(o, b, sources, end, none, to_mark(x)));
        if !sources.contains(x) && o.reached_from(sources, x) {
            let a = choose|a: int| sources.contains(a) && #[trigger] o.reaches(a, x);
            let p = choose|p: Seq<int>| #[trigger] o.path(p) && p[0] == a && p.last() == x;
            lemma_path_broken(o, b, sources, end, p, p.len() - 1);
        }
    }
    assert(b =~= model::after_failure(o, sources, end));
}

/// Marking the sources starts the account.
pub proof fn lemma_break_starts(
    o: GraphModel,
    b: GraphModel,
    sources: Set<int>,
    end: NodeState,
)
    requires
        o.shape(),
        consistent_around(o, sources),
        may_break(o, sources, end),
        model::same_frame(o, b),
        forall|x: int|
            o.has(x) ==> #[trigger] b.nodes[x] == (if sources.contains(x) {
                NodeModel { state: end, ..o.nodes[x] }
            } else {
                o.nodes[x]
            }),
    ensures
        broken_so_far(o, b, sources, end, sources),
{
    assert forall|x: int| o.has(x) implies broken_node(
        o,
        b,
        sources,
        end,
        sources,
        #[trigger] to_mark(x),
    ) by {
        assert(b.nodes[x] == (if sources.contains(x) {
            NodeModel { state: end, ..o.nodes[x] }
        } else {
            o.nodes[x]
        }));
        if b.state(x).terminal() && !sources.contains(x) {
            if o.nodes[x].waiters.len() > 0 {
                assert(o.nodes[x].waiters.contains(o.nodes[x].waiters[0]));
                assert(o.waits_for(o.nodes[x].waiters[0], x));
            }
            assert(o.nodes[x].waiters =~= Seq::empty());
        }
    }
    assert forall|w: int, x: int| #[trigger]
        o.waits_for(w, x) && b.state(x).broken() && !sources.contains(x) implies b.state(
        w,
    ) is Failed by {
        assert(b.nodes[x] == o.nodes[x]);
    }
    assert forall|d: int, x: int| #[trigger]
        o.depends(d, x) && b.state(x).broken() && !sources.contains(x) implies b.state(
        d,
    ) is Cancelled by {
        assert(b.nodes[x] == o.nodes[x]);
        assert(o.has(d));
        assert(b.nodes[d] == (if sources.contains(d) {
            NodeModel { state: end, ..o.nodes[d] }
        } else {
            o.nodes[d]
        }));
    }
    assert forall|x: int| #[trigger] sources.contains(x) implies o.has(x) && b.state(x).broken()
        && o.reached_from(sources, x) && !o.state(x).terminal() by {
        lemma_reach_self(o, sources, x);
        assert(b.nodes[x] == NodeModel { state: end, ..o.nodes[x] });
    }
}

/// Breaking a neighbour of an open node carries the account on.
pub proof fn lemma_break_neighbour(
    o: GraphModel,
    b: GraphModel,
    b2: GraphModel,
    sources: Set<int>,
    end: NodeState,
    open: Set<int>,
    x: int,
    y: int,
)
    requires
        o.shape(),
        consistent_around(o, sources),
        may_break(o, sources, end),
        broken_so_far(o, b, sources, end, open),
        open.contains(x),
        o.edge(x, y),
        o.has(y),
        !b.state(y).terminal(),
        b2 == (GraphModel {
            nodes: b.nodes.update(
                y,
                NodeModel {
                    state: if b.state(y) is Waiting {
                        NodeState::Failed
                    } else {
                        NodeState::Cancelled
                    },
                    ..b.nodes[y]
                },
            ),
            ..b
        }),
    ensures
        broken_so_far(o, b2, sources, end, open.insert(y)),
        !open.contains(y),
        b2.open_nodes() == b.open_nodes().remove(y),
        b.open_nodes().contains(y),
{
    let more = open.insert(y);
    assert(broken_node(o, b, sources, end, open, to_mark(y)));
    lemma_reach_next(o, sources, x, y);
    assert forall|z: int| o.has(z) implies broken_node(
        o,
        b2,
        sources,
        end,
        more,
        #[trigger] to_mark(z),
    ) by {
        assert(broken_node(o, b, sources, end, open, to_mark(z)));
    }
    assert forall|w: int, z: int| #[trigger]
        o.waits_for(w, z) && b2.state(z).broken() && !more.contains(z) implies b2.state(
        w,
    ) is Failed by {
        assert(b2.state(z) == b.state(z));
        assert(b.state(w) is Failed);
    }
    assert forall|d: int, z: int| #[trigger]
        o.depends(d, z) && b2.state(z).broken() && !more.contains(z) implies b2.state(
        d,
    ) is Cancelled by {
        assert(b2.state(z) == b.state(z));
        assert(b.state(d) is Cancelled);
    }
    assert forall|z: int| #[trigger] more.contains(z) implies o.has(z) && b2.state(z).broken()
        && o.reached_from(sources, z) && !o.state(z).terminal() by {
        if z != y {
            assert(open.contains(z));
        }
    }
    assert(b2.open_nodes() =~= b.open_nodes().remove(y));
}

/// A node all of whose neighbours have been told is closed.
pub proof fn lemma_break_close(
    o: GraphModel,
    b: GraphModel,
    b2: GraphModel,
    sources: Set<int>,
    end: NodeState,
    open: Set<int>,
    x: int,
)
    requires
        o.shape(),
        broken_so_far(o, b, sources, end, open),
        open.contains(x),
        b2 == (GraphModel {
            nodes: b.nodes.update(x, NodeModel { waiters: Seq::empty(), ..b.nodes[x] }),
            ..b
        }),
        forall|d: int| #[trigger] o.depends(d, x) ==> b.state(d) is Cancelled,
        forall|w: int| #[trigger] o.waits_for(w, x) ==> b.state(w) is Failed,
    ensures
        broken_so_far(o, b2, sources, end, open.remove(x)),
        b2.open_nodes() == b.open_nodes(),
{
    let less = open.remove(x);
    assert forall|z: int| o.has(z) implies b2.state(z) == b.state(z) by {}
    assert forall|z: int| o.has(z) implies broken_node(
        o,
        b2,
        sources,
        end,
        less,
        #[trigger] to_mark(z),
    ) by {
        assert(broken_node(o, b, sources, end, open, to_mark(z)));
    }
    assert forall|w: int, z: int| #[trigger]
        o.waits_for(w, z) && b2.state(z).broken() && !less.contains(z) implies b2.state(
        w,
    ) is Failed by {
        assert(b.state(z).broken());
        assert(b.state(w) is Failed);
    }
    assert forall|d: int, z: int| #[trigger]
        o.depends(d, z) && b2.state(z).broken() && !less.contains(z) implies b2.state(
        d,
    ) is Cancelled by {
        assert(b.state(z).broken());
        assert(b.state(d) is Cancelled);
    }
    assert forall|z: int| #[trigger] less.contains(z) implies o.has(z) && b2.state(z).broken()
        && o.reached_from(sources, z) && !o.state(z).terminal() by {
        assert(open.contains(z));
    }
    assert(b2.open_nodes() =~= b.open_nodes());
}

} // verus!
