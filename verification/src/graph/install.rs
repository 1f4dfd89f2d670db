//! What the installation of an expansion does to the model of a graph.

use crate::error::GraphError;
use crate::graph::expansion;
use crate::graph::expansion::LocalNode;
use crate::graph::model::{GraphModel, NodeModel, NodeState, MAX_NODES};
use crate::graph::{lemmas, model};
use vstd::prelude::*;

verus! {

/// Node `k` of an expansion is bound to a token.
pub open spec fn bound_at(exp: Seq<LocalNode>, token: u64, k: int) -> bool {
    0 <= k < exp.len() && exp[k].binding == Some(token)
}

pub open spec fn bound_locally(exp: Seq<LocalNode>, token: u64) -> bool {
    exists|k: int| bound_at(exp, token, k)
}

/// The node of an expansion that a token is bound to.
pub open spec fn local_of(exp: Seq<LocalNode>, token: u64) -> int {
    choose|k: int| bound_at(exp, token, k)
}

/// Node `i` is bound to a token that was bound before.
pub open spec fn bound_twice(m: GraphModel, exp: Seq<LocalNode>, i: int) -> bool {
    exp[i].binding matches Some(token) && (m.bindings.contains_key(token) || exists|k: int|
        k < i && #[trigger] bound_at(exp, token, k))
}

/// Why node `i` of an expansion of `parent` cannot wait for a token.
pub open spec fn token_error(
    m: GraphModel,
    parent: int,
    exp: Seq<LocalNode>,
    i: int,
    token: u64,
) -> Option<GraphError> {
    if m.bindings.contains_key(token) {
        if m.reaches(parent, m.bindings[token]) {
            Some(GraphError::TokenCycle { node: i as usize, token })
        } else {
            None
        }
    } else if bound_locally(exp, token) {
        if local_of(exp, token) >= i {
            Some(GraphError::ForwardToken { node: i as usize })
        } else {
            None
        }
    } else {
        Some(GraphError::UnboundToken { node: i as usize, token })
    }
}

/// The first double binding at or after node `i`.
pub open spec fn binding_error_from(m: GraphModel, exp: Seq<LocalNode>, i: int) -> Option<
    GraphError,
>
    decreases exp.len() - i,
{
    if i < 0 || i >= exp.len() {
        None
    } else if bound_twice(m, exp, i) {
        Some(GraphError::TokenBoundTwice { token: exp[i].binding->0 })
    } else {
        binding_error_from(m, exp, i + 1)
    }
}

/// The first bad token at or after token `k` of node `i`.
pub open spec fn token_error_from(
    m: GraphModel,
    parent: int,
    exp: Seq<LocalNode>,
    i: int,
    k: int,
) -> Option<GraphError>
    decreases exp.len() - i, exp[i].tokens.len() - k,
{
    if i < 0 || i >= exp.len() || k < 0 {
        None
    } else if k >= exp[i].tokens.len() {
        token_error_from(m, parent, exp, i + 1, 0)
    } else {
        match token_error(m, parent, exp, i, exp[i].tokens[k]) {
            Some(error) => Some(error),
            None => token_error_from(m, parent, exp, i, k + 1),
        }
    }
}

/// Why an expansion of `parent` cannot be installed: the graph would grow too
/// large, a token would be bound twice, or a node would wait for a token that
/// it cannot wait for. The first reason in this order counts.
pub open spec fn install_error(m: GraphModel, parent: int, exp: Seq<LocalNode>) -> Option<
    GraphError,
> {
    if m.nodes.len() + exp.len() > MAX_NODES {
        Some(GraphError::TooManyNodes)
    } else {
        match binding_error_from(m, exp, 0) {
            Some(error) => Some(error),
            None => token_error_from(m, parent, exp, 0, 0),
        }
    }
}

/// The node that a token stands for once an expansion is installed.
pub open spec fn resolve(m: GraphModel, exp: Seq<LocalNode>, token: u64) -> int {
    if m.bindings.contains_key(token) {
        m.bindings[token]
    } else {
        m.nodes.len() + local_of(exp, token)
    }
}

/// New node `i` depends on node `g` of the grown graph.
pub open spec fn needs(m: GraphModel, exp: Seq<LocalNode>, i: int, g: int) -> bool {
    ||| exists|d: u64| #[trigger] exp[i].dependencies.contains(d) && g == m.nodes.len() + d
    ||| exists|t: u64| #[trigger] exp[i].tokens.contains(t) && g == resolve(m, exp, t)
}

/// New node `i` depends on node `g`, which has not succeeded yet.
pub open spec fn live(m: GraphModel, exp: Seq<LocalNode>, i: int, g: int) -> bool {
    needs(m, exp, i, g) && (g >= m.nodes.len() || !(m.state(g) is Succeeded))
}

/// The first `j` new nodes among the dependents of node `g`.
pub open spec fn gained(m: GraphModel, exp: Seq<LocalNode>, g: int, j: nat) -> Seq<int>
    decreases j,
{
    if j == 0 {
        Seq::empty()
    } else if live(m, exp, j - 1, g) {
        gained(m, exp, g, (j - 1) as nat).push(m.nodes.len() + j - 1)
    } else {
        gained(m, exp, g, (j - 1) as nat)
    }
}

/// No new node depends on new node `i`.
pub open spec fn leaf(m: GraphModel, exp: Seq<LocalNode>, i: int) -> bool {
    forall|j: int| 0 <= j < exp.len() ==> !(#[trigger] needs(m, exp, j, m.nodes.len() + i))
}

/// Node `x` of the grown graph.
pub open spec fn installed_node(
    m: GraphModel,
    parent: int,
    exp: Seq<LocalNode>,
    next: Option<crate::task::Task>,
    x: int,
) -> NodeModel {
    if x < m.nodes.len() {
        NodeModel {
            dependents: m.nodes[x].dependents + gained(m, exp, x, exp.len()),
            state: if x == parent {
                NodeState::Waiting
            } else {
                m.state(x)
            },
            task: if x == parent {
                next
            } else {
                m.nodes[x].task
            },
            ..m.nodes[x]
        }
    } else {
        NodeModel {
            task: Some(exp[x - m.nodes.len()].task),
            state: NodeState::Pending,
            dependents: gained(m, exp, x, exp.len()),
            waiters: if leaf(m, exp, x - m.nodes.len()) {
                seq![parent]
            } else {
                Seq::empty()
            },
            continuation: true,
        }
    }
}

/// The graph with an expansion of `parent` attached: the new nodes are
/// pending, the parent waits for the leaves and resumes with `next`.
pub open spec fn installed(
    m: GraphModel,
    parent: int,
    exp: Seq<LocalNode>,
    next: Option<crate::task::Task>,
) -> GraphModel {
    GraphModel {
        nodes: Seq::new(
            m.nodes.len() + exp.len(),
            |x: int| installed_node(m, parent, exp, next, x),
        ),
        dynamic_expansions: if m.dynamic_expansions < usize::MAX {
            (m.dynamic_expansions + 1) as usize
        } else {
            usize::MAX
        },
        bindings: Map::new(
            |t: u64| m.bindings.contains_key(t) || bound_locally(exp, t),
            |t: u64| resolve(m, exp, t),
        ),
    }
}

/// The new nodes that depend on a node that is broken already.
pub open spec fn doomed(m: GraphModel, exp: Seq<LocalNode>) -> Set<int> {
    Set::new(
        |x: int|
            m.nodes.len() <= x < m.nodes.len() + exp.len() && exists|g: int|
                0 <= g < m.nodes.len() && m.state(g).broken() && #[trigger] needs(
                    m,
                    exp,
                    x - m.nodes.len(),
                    g,
                ),
    )
}

/// The graph with every unblocked node from `base` on released.
pub open spec fn activated(m: GraphModel, base: int) -> GraphModel {
    GraphModel {
        nodes: Seq::new(
            m.nodes.len(),
            |x: int|
                if x >= base && m.state(x) is Pending && !m.blocked(x) {
                    NodeModel { state: NodeState::Ready, task: None, ..m.nodes[x] }
                } else {
                    m.nodes[x]
                },
        ),
        ..m
    }
}

/// The graph after an expansion has been attached and what it breaks has been
/// broken.
pub open spec fn settled(
    m: GraphModel,
    parent: int,
    exp: Seq<LocalNode>,
    next: Option<crate::task::Task>,
) -> GraphModel {
    model::after_failure(
        installed(m, parent, exp, next),
        doomed(m, exp),
        NodeState::Cancelled,
    )
}

/// The graph after an expansion: attached, settled, and its unblocked nodes
/// released.
pub open spec fn expanded(
    m: GraphModel,
    parent: int,
    exp: Seq<LocalNode>,
    next: Option<crate::task::Task>,
) -> GraphModel {
    activated(settled(m, parent, exp, next), m.nodes.len() as int)
}

/// What an expansion without an error satisfies.
pub open spec fn admissible(m: GraphModel, parent: int, exp: Seq<LocalNode>) -> bool {
    &&& m.nodes.len() + exp.len() <= MAX_NODES
    &&& forall|i: int| 0 <= i < exp.len() ==> !(#[trigger] bound_twice(m, exp, i))
    &&& forall|i: int, t: u64|
        0 <= i < exp.len() && #[trigger] exp[i].tokens.contains(t) ==> token_error(
            m,
            parent,
            exp,
            i,
            t,
        ) is None
}

/// Where no token is bound twice, a token is bound at one place.
pub proof fn lemma_bound_once(m: GraphModel, exp: Seq<LocalNode>, t: u64, k: int)
    requires
        forall|i: int| 0 <= i < exp.len() ==> !(#[trigger] bound_twice(m, exp, i)),
        bound_at(exp, t, k),
    ensures
        local_of(exp, t) == k,
        !m.bindings.contains_key(t),
{
    let l = local_of(exp, t);
    assert(bound_at(exp, t, l));
    assert(!bound_twice(m, exp, k));
    assert(!bound_twice(m, exp, l));
    if l < k {
        assert(bound_at(exp, t, l));
    } else if k < l {
        assert(bound_at(exp, t, k));
    }
}

/// What the first `kd` dependencies and the first `kt` tokens of node `i` make
/// it depend on.
pub open spec fn needs_upto(
    m: GraphModel,
    exp: Seq<LocalNode>,
    i: int,
    kd: int,
    kt: int,
    g: int,
) -> bool {
    ||| exists|j: int| 0 <= j < kd && g == m.nodes.len() + #[trigger] exp[i].dependencies[j]
    ||| exists|j: int| 0 <= j < kt && g == resolve(m, exp, #[trigger] exp[i].tokens[j])
}

pub proof fn lemma_needs_all(m: GraphModel, exp: Seq<LocalNode>, i: int, g: int)
    ensures
        needs_upto(
            m,
            exp,
            i,
            exp[i].dependencies.len() as int,
            exp[i].tokens.len() as int,
            g,
        ) <==> needs(m, exp, i, g),
{
    let ds = exp[i].dependencies;
    let ts = exp[i].tokens;
    if exists|d: u64| #[trigger] ds.contains(d) && g == m.nodes.len() + d {
        let d = choose|d: u64| #[trigger] ds.contains(d) && g == m.nodes.len() + d;
        let j = choose|j: int| 0 <= j < ds.len() && ds[j] == d;
        assert(g == m.nodes.len() + ds[j]);
    }
    if exists|t: u64| #[trigger] ts.contains(t) && g == resolve(m, exp, t) {
        let t = choose|t: u64| #[trigger] ts.contains(t) && g == resolve(m, exp, t);
        let j = choose|j: int| 0 <= j < ts.len() && ts[j] == t;
        assert(g == resolve(m, exp, ts[j]));
    }
    if exists|j: int| 0 <= j < ds.len() && g == m.nodes.len() + #[trigger] ds[j] {
        let j = choose|j: int| 0 <= j < ds.len() && g == m.nodes.len() + #[trigger] ds[j];
        assert(ds.contains(ds[j]));
    }
    if exists|j: int| 0 <= j < ts.len() && g == resolve(m, exp, #[trigger] ts[j]) {
        let j = choose|j: int| 0 <= j < ts.len() && g == resolve(m, exp, #[trigger] ts[j]);
        assert(ts.contains(ts[j]));
    }
}

/// What a new node needs lies before it.
pub proof fn lemma_needs(m: GraphModel, parent: int, exp: Seq<LocalNode>, i: int, g: int)
    requires
        m.shape(),
        admissible(m, parent, exp),
        expansion::well_ordered(exp),
        0 <= i < exp.len(),
        needs(m, exp, i, g),
    ensures
        0 <= g < m.nodes.len() + i,
        g < m.nodes.len() ==> !m.reaches(parent, g),
{
    let base = m.nodes.len() as int;
    if exists|d: u64| #[trigger] exp[i].dependencies.contains(d) && g == base + d {
        let d = choose|d: u64| #[trigger] exp[i].dependencies.contains(d) && g == base + d;
        assert(d < i);
    } else {
        let t = choose|t: u64| #[trigger] exp[i].tokens.contains(t) && g == resolve(m, exp, t);
        assert(token_error(m, parent, exp, i, t) is None);
        if m.bindings.contains_key(t) {
            assert(m.has(m.bindings[t]));
        } else {
            let k = local_of(exp, t);
            assert(bound_at(exp, t, k));
        }
    }
}

/// What a node gains rises and lists exactly the new nodes that depend on it.
pub proof fn lemma_gained(m: GraphModel, exp: Seq<LocalNode>, g: int, j: nat)
    ensures
        model::rising(gained(m, exp, g, j)),
        forall|y: int| #[trigger]
            gained(m, exp, g, j).contains(y) <==> (m.nodes.len() <= y < m.nodes.len() + j && live(
                m,
                exp,
                y - m.nodes.len(),
                g,
            )),
    decreases j,
{
    let base = m.nodes.len() as int;
    if j > 0 {
        let less = gained(m, exp, g, (j - 1) as nat);
        let more = gained(m, exp, g, j);
        lemma_gained(m, exp, g, (j - 1) as nat);
        assert forall|y: int| #[trigger] more.contains(y) <==> (base <= y < base + j && live(
            m,
            exp,
            y - base,
            g,
        )) by {
            if more.contains(y) {
                let k = choose|k: int| 0 <= k < more.len() && more[k] == y;
                if k < less.len() {
                    assert(less[k] == y);
                    assert(less.contains(y));
                }
            }
            if base <= y < base + j && live(m, exp, y - base, g) {
                if y == base + j - 1 {
                    assert(more[more.len() - 1] == y);
                } else {
                    assert(less.contains(y));
                    let k = choose|k: int| 0 <= k < less.len() && less[k] == y;
                    assert(more[k] == y);
                }
            }
        }
        assert forall|a: int, b: int| 0 <= a < b < more.len() implies more[a] < more[b] by {
            if b < less.len() {
                assert(less[a] < less[b]);
            } else {
                assert(less.contains(less[a]));
            }
        }
    }
}

/// The edges of the grown graph.
pub proof fn lemma_installed_edges(
    m: GraphModel,
    parent: int,
    exp: Seq<LocalNode>,
    next: Option<crate::task::Task>,
)
    requires
        m.shape(),
        m.has(parent),
        admissible(m, parent, exp),
        expansion::well_ordered(exp),
    ensures
        ({
            let n = installed(m, parent, exp, next);
            let base = m.nodes.len() as int;
            &&& forall|d: int, i: int| #[trigger]
                n.depends(d, i) <==> (m.depends(d, i) || (0 <= i && base <= d < base + exp.len()
                    && live(m, exp, d - base, i)))
            &&& forall|w: int, i: int| #[trigger]
                n.waits_for(w, i) <==> (m.waits_for(w, i) || (base <= i < base + exp.len() && w
                    == parent && leaf(m, exp, i - base)))
        }),
{
    let n = installed(m, parent, exp, next);
    let base = m.nodes.len() as int;
    assert forall|d: int, i: int| #[trigger] n.depends(d, i) <==> (m.depends(d, i) || (0 <= i
        && base <= d < base + exp.len() && live(m, exp, d - base, i))) by {
        if base <= d < base + exp.len() && live(m, exp, d - base, i) {
            lemma_needs(m, parent, exp, d - base, i);
        }
        if n.has(i) {
            lemma_gained(m, exp, i, exp.len());
            let g = gained(m, exp, i, exp.len());
            if i < base {
                let old_deps = m.nodes[i].dependents;
                assert(n.nodes[i].dependents == old_deps + g);
                if (old_deps + g).contains(d) {
                    let k = choose|k: int|
                        0 <= k < (old_deps + g).len() && (old_deps + g)[k] == d;
                    if k < old_deps.len() {
                        assert(old_deps.contains(d));
                    } else {
                        assert(g[k - old_deps.len()] == d);
                        assert(g.contains(d));
                    }
                }
                if old_deps.contains(d) {
                    let k = choose|k: int| 0 <= k < old_deps.len() && old_deps[k] == d;
                    assert((old_deps + g)[k] == d);
                }
                if g.contains(d) {
                    let k = choose|k: int| 0 <= k < g.len() && g[k] == d;
                    assert((old_deps + g)[old_deps.len() + k] == d);
                }
            }
        }
    }
    assert forall|w: int, i: int| #[trigger] n.waits_for(w, i) <==> (m.waits_for(w, i) || (base
        <= i < base + exp.len() && w == parent && leaf(m, exp, i - base))) by {
        if base <= i < base + exp.len() && leaf(m, exp, i - base) {
            assert(n.nodes[i].waiters == seq![parent]);
            assert(n.nodes[i].waiters[0] == parent);
            if n.nodes[i].waiters.contains(w) {
                let k = choose|k: int| 0 <= k < 1 && n.nodes[i].waiters[k] == w;
            }
        }
    }
}

/// Ranks are bounded.
proof fn lemma_rank_bound(rank: Seq<int>) -> (bound: int)
    ensures
        bound > 0,
        forall|i: int| 0 <= i < rank.len() ==> -bound < #[trigger] rank[i] < bound,
    decreases rank.len(),
{
    if rank.len() == 0 {
        1
    } else {
        let b = lemma_rank_bound(rank.drop_last());
        let last = rank.last();
        let c = if last >= 0 {
            last
        } else {
            -last
        };
        let bound = b + c + 1;
        assert forall|i: int| 0 <= i < rank.len() implies -bound < #[trigger] rank[i] < bound by {
            if i < rank.len() - 1 {
                assert(rank.drop_last()[i] == rank[i]);
            }
        }
        bound
    }
}

/// An admissible expansion leaves no node waiting for itself.
pub proof fn lemma_installed_acyclic(
    m: GraphModel,
    parent: int,
    exp: Seq<LocalNode>,
    next: Option<crate::task::Task>,
)
    requires
        m.shape(),
        m.acyclic(),
        m.has(parent),
        admissible(m, parent, exp),
        expansion::well_ordered(exp),
    ensures
        installed(m, parent, exp, next).acyclic(),
{
    let n = installed(m, parent, exp, next);
    let base = m.nodes.len() as int;
    let len = exp.len() as int;
    let rank = choose|rank: Seq<int>| m.ranked(rank);
    let bound = lemma_rank_bound(rank);
    // what waits for the parent ranks above the new nodes, all else below
    let rank2 = Seq::new(
        (base + len) as nat,
        |x: int|
            if x >= base {
                bound + (x - base)
            } else if m.reaches(parent, x) {
                bound + len + bound + rank[x]
            } else {
                rank[x]
            },
    );
    lemma_installed_edges(m, parent, exp, next);
    assert(m.reaches(parent, parent)) by {
        let p = seq![parent];
        assert(m.path(p));
        assert(p[0] == parent && p.last() == parent);
    }
    assert forall|i: int, j: int| #[trigger] n.edge(i, j) implies rank2[i] < rank2[j] by {
        if n.depends(j, i) {
            if m.depends(j, i) {
                assert(m.edge(i, j));
                if m.reaches(parent, i) {
                    lemmas::lemma_reaches_next(m, parent, i, j);
                }
            } else {
                lemma_needs(m, parent, exp, j - base, i);
            }
        } else {
            assert(n.waits_for(j, i));
            if m.waits_for(j, i) {
                assert(m.edge(i, j));
                if m.reaches(parent, i) {
                    lemmas::lemma_reaches_next(m, parent, i, j);
                }
            }
        }
    }
    assert(n.ranked(rank2));
}

/// The grown graph is in order but for the new nodes that depend on broken
/// ones, and what is counted for the old nodes has not changed.
pub proof fn lemma_installed(
    m: GraphModel,
    parent: int,
    exp: Seq<LocalNode>,
    next: Option<crate::task::Task>,
)
    requires
        m.valid(),
        m.has(parent),
        m.state(parent) is Running,
        admissible(m, parent, exp),
        expansion::well_ordered(exp),
        exp.len() > 0,
    ensures
        ({
            let n = installed(m, parent, exp, next);
            let base = m.nodes.len() as int;
            &&& n.shape()
            &&& n.acyclic()
            &&& lemmas::consistent_around(n, doomed(m, exp))
            &&& lemmas::may_break(n, doomed(m, exp), NodeState::Cancelled)
            &&& forall|d: int| m.has(d) ==> #[trigger] n.blockers(d) == m.blockers(d)
            &&& forall|w: int| m.has(w) && w != parent ==> #[trigger] n.leaves(w) == m.leaves(w)
            &&& forall|i: int|
                0 <= i < exp.len() ==> #[trigger] n.blockers(base + i) == Set::new(
                    |g: int| live(m, exp, i, g),
                )
        }),
{
    let n = installed(m, parent, exp, next);
    let base = m.nodes.len() as int;
    let sources = doomed(m, exp);
    lemma_installed_edges(m, parent, exp, next);
    lemma_installed_acyclic(m, parent, exp, next);
    // shape
    assert forall|i: int, d: int| #[trigger] n.depends(d, i) implies i < d < n.nodes.len() by {
        if !m.depends(d, i) {
            lemma_needs(m, parent, exp, d - base, i);
        }
    }
    assert forall|i: int, w: int| #[trigger] n.waits_for(w, i) implies 0 <= w < i by {
        if m.waits_for(w, i) {
        }
    }
    assert forall|i: int| n.has(i) implies model::rising(#[trigger] n.nodes[i].dependents) by {
        lemma_gained(m, exp, i, exp.len());
        let g = gained(m, exp, i, exp.len());
        if i < base {
            let old_deps = m.nodes[i].dependents;
            assert(model::rising(old_deps));
            assert(n.nodes[i].dependents == old_deps + g);
            assert forall|a: int, b: int| 0 <= a < b < (old_deps + g).len() implies (old_deps
                + g)[a] < (old_deps + g)[b] by {
                if b < old_deps.len() {
                    assert(old_deps[a] < old_deps[b]);
                } else if a < old_deps.len() {
                    assert(old_deps.contains(old_deps[a]));
                    assert(m.depends(old_deps[a], i));
                    assert(g.contains(g[b - old_deps.len()]));
                } else {
                    assert(g[a - old_deps.len()] < g[b - old_deps.len()]);
                }
            }
        }
    }
    assert forall|i: int| n.has(i) implies (#[trigger] n.nodes[i].waiters).len() <= 1 by {
        if i < base {
            assert(m.nodes[i].waiters.len() <= 1);
        }
    }
    assert forall|t: u64| #[trigger] n.bindings.contains_key(t) implies n.has(n.bindings[t]) by {
        if m.bindings.contains_key(t) {
            assert(m.has(m.bindings[t]));
        } else {
            assert(bound_at(exp, t, local_of(exp, t)));
        }
    }
    // states agree with edges
    assert forall|d: int, i: int| #[trigger]
        n.depends(d, i) && !(n.state(d) is Pending) && !(n.state(d) is Cancelled) implies n.state(
        i,
    ) is Succeeded by {
        assert(d < base);
        assert(m.depends(d, i));
        assert(m.state(i) is Succeeded);
    }
    assert forall|w: int, i: int| #[trigger] n.waits_for(w, i) implies !n.state(i).terminal() && (
    n.state(w) is Waiting || n.state(w) is Failed) by {
        if m.waits_for(w, i) {
            assert(!m.state(i).terminal());
        }
    }
    assert forall|w: int| n.has(w) && #[trigger] n.state(w) is Waiting implies n.awaits(w) by {
        if w == parent {
            let last = exp.len() - 1;
            assert(leaf(m, exp, last)) by {
                assert forall|j: int| 0 <= j < exp.len() implies !(#[trigger] needs(
                    m,
                    exp,
                    j,
                    base + last,
                )) by {
                    if needs(m, exp, j, base + last) {
                        lemma_needs(m, parent, exp, j, base + last);
                    }
                }
            }
            assert(n.waits_for(parent, base + last));
        } else {
            assert(m.state(w) is Waiting);
            assert(m.awaits(w));
            let i = choose|i: int| #[trigger] m.waits_for(w, i);
            assert(n.waits_for(w, i));
        }
    }
    assert forall|d: int, i: int| #[trigger]
        n.depends(d, i) && n.state(i).broken() && !sources.contains(d) implies n.state(
        d,
    ) is Cancelled by {
        assert(i < base);
        assert(m.state(i).broken());
        if m.depends(d, i) {
            assert(m.state(d) is Cancelled);
        } else {
            assert(needs(m, exp, d - base, i));
            assert(sources.contains(d));
        }
    }
    assert forall|i: int|
        n.has(i) && #[trigger] n.state(i) is Pending implies n.nodes[i].task is Some by {
        if i < base {
            assert(m.state(i) is Pending);
        }
    }
    // counters
    assert forall|d: int| m.has(d) implies #[trigger] n.blockers(d) == m.blockers(d) by {
        assert forall|i: int| n.blockers(d).contains(i) == m.blockers(d).contains(i) by {
            assert(n.depends(d, i) == m.depends(d, i));
            if m.has(i) && i == parent {
            }
        }
        assert(n.blockers(d) =~= m.blockers(d));
    }
    assert forall|w: int| m.has(w) && w != parent implies #[trigger] n.leaves(w) == m.leaves(w) by {
        assert(n.leaves(w) =~= m.leaves(w));
    }
    assert forall|i: int| 0 <= i < exp.len() implies #[trigger] n.blockers(base + i) == Set::new(
        |g: int| live(m, exp, i, g),
    ) by {
        assert forall|g: int| n.blockers(base + i).contains(g) == live(m, exp, i, g) by {
            if m.depends(base + i, g) {
                assert(base + i < m.nodes.len());
            }
            if live(m, exp, i, g) {
                lemma_needs(m, parent, exp, i, g);
                assert(n.depends(base + i, g));
            }
        }
        assert(n.blockers(base + i) =~= Set::new(|g: int| live(m, exp, i, g)));
    }
}

/// Releasing unblocked nodes keeps a graph in order and changes no count.
pub proof fn lemma_activated(m: GraphModel, base: int)
    requires
        m.valid(),
        0 <= base,
    ensures
        ({
            let n = activated(m, base);
            &&& n.valid()
            &&& forall|d: int| #[trigger] n.blockers(d) == m.blockers(d)
            &&& forall|w: int| #[trigger] n.leaves(w) == m.leaves(w)
            &&& n.open_nodes() == m.open_nodes()
        }),
{
    let n = activated(m, base);
    assert forall|i: int| m.has(i) implies ((#[trigger] n.state(i)) is Succeeded <==> m.state(
        i,
    ) is Succeeded) && (n.state(i).terminal() <==> m.state(i).terminal()) by {}
    lemmas::lemma_light_change(m, n);
    assert forall|d: int, i: int| #[trigger]
        n.depends(d, i) && !(n.state(d) is Pending) && !(n.state(d) is Cancelled) implies n.state(
        i,
    ) is Succeeded by {
        assert(m.depends(d, i));
        if m.state(d) is Pending {
            assert(!m.blocked(d));
        }
    }
    assert forall|w: int, i: int| #[trigger] n.waits_for(w, i) implies !n.state(i).terminal() && (
    n.state(w) is Waiting || n.state(w) is Failed) by {
        assert(m.waits_for(w, i));
    }
    assert forall|w: int|
        n.has(w) && #[trigger] n.state(w) is Waiting && w != -1 implies n.awaits(w) by {
        assert(m.state(w) is Waiting);
        assert(n.awaits(w) == m.awaits(w));
    }
    assert forall|d: int, i: int| #[trigger] n.depends(d, i) && n.state(i).broken() implies n.state(
        d,
    ) is Cancelled by {
        assert(m.depends(d, i));
    }
    assert forall|i: int|
        n.has(i) && #[trigger] n.state(i) is Pending implies n.nodes[i].task is Some by {
        assert(m.state(i) is Pending);
    }
}

/// A graph without nodes.
pub open spec fn empty_graph() -> GraphModel {
    GraphModel { nodes: Seq::empty(), dynamic_expansions: 0, bindings: Map::empty() }
}

/// Nodes that use no tokens.
pub open spec fn plain(exp: Seq<LocalNode>) -> bool {
    forall|i: int|
        0 <= i < exp.len() ==> (#[trigger] exp[i]).tokens.len() == 0 && exp[i].binding is None
}

/// The graph of a list of nodes, all pending.
pub open spec fn built(exp: Seq<LocalNode>) -> GraphModel {
    GraphModel {
        nodes: Seq::new(
            exp.len(),
            |x: int|
                NodeModel {
                    task: Some(exp[x].task),
                    state: NodeState::Pending,
                    dependents: gained(empty_graph(), exp, x, exp.len()),
                    waiters: Seq::empty(),
                    continuation: false,
                },
        ),
        dynamic_expansions: 0,
        bindings: Map::empty(),
    }
}

pub proof fn lemma_plain_admissible(exp: Seq<LocalNode>)
    requires
        plain(exp),
        exp.len() <= MAX_NODES,
    ensures
        admissible(empty_graph(), 0, exp),
        empty_graph().shape(),
{
    let e = empty_graph();
    assert forall|i: int| 0 <= i < exp.len() implies !(#[trigger] bound_twice(e, exp, i)) by {
        assert(exp[i].binding is None);
    }
    assert forall|i: int, t: u64|
        0 <= i < exp.len() && #[trigger] exp[i].tokens.contains(t) implies token_error(
        e,
        0,
        exp,
        i,
        t,
    ) is None by {
        assert(exp[i].tokens.len() == 0);
    }
}

/// A built graph is in order: a node depends exactly on what it was given.
pub proof fn lemma_built(exp: Seq<LocalNode>)
    requires
        plain(exp),
        expansion::well_ordered(exp),
        exp.len() <= MAX_NODES,
    ensures
        built(exp).valid(),
        forall|d: int, i: int| #[trigger]
            built(exp).depends(d, i) <==> (0 <= i && 0 <= d < exp.len()
                && exp[d].dependencies.contains(i as u64) && i <= u64::MAX),
        forall|d: int|
            0 <= d < exp.len() ==> #[trigger] built(exp).blockers(d) == Set::new(
                |g: int| live(empty_graph(), exp, d, g),
            ),
        built(exp).open_nodes().len() == exp.len(),
{
    let b = built(exp);
    let e = empty_graph();
    lemma_plain_admissible(exp);
    assert forall|d: int, i: int| 0 <= d < exp.len() implies (#[trigger] live(e, exp, d, i) <==> (0
        <= i && exp[d].dependencies.contains(i as u64) && i <= u64::MAX)) by {
        assert(exp[d].tokens.len() == 0);
        if 0 <= i <= u64::MAX && exp[d].dependencies.contains(i as u64) {
            assert(i == e.nodes.len() + i as u64);
        }
    }
    assert forall|d: int, i: int| #[trigger] b.depends(d, i) <==> (0 <= i && 0 <= d < exp.len()
        && exp[d].dependencies.contains(i as u64) && i <= u64::MAX) by {
        if 0 <= d < exp.len() && 0 <= i <= u64::MAX && exp[d].dependencies.contains(i as u64) {
            assert(live(e, exp, d, i));
            lemma_needs(e, 0, exp, d, i);
        }
        if b.has(i) {
            lemma_gained(e, exp, i, exp.len());
        }
    }
    assert forall|w: int, i: int| !(#[trigger] b.waits_for(w, i)) by {}
    assert forall|i: int, d: int| #[trigger] b.depends(d, i) implies i < d < b.nodes.len() by {
        assert(exp[d].dependencies.contains(i as u64));
    }
    assert forall|i: int| b.has(i) implies model::rising(#[trigger] b.nodes[i].dependents) by {
        lemma_gained(e, exp, i, exp.len());
    }
    assert(b.shape());
    let rank = Seq::new(exp.len(), |i: int| i);
    assert forall|i: int, j: int| #[trigger] b.edge(i, j) implies rank[i] < rank[j] by {
        assert(b.depends(j, i));
    }
    assert(b.ranked(rank));
    assert(b.consistent());
    assert forall|d: int| 0 <= d < exp.len() implies #[trigger] b.blockers(d) == Set::new(
        |g: int| live(e, exp, d, g),
    ) by {
        assert forall|g: int| b.blockers(d).contains(g) == live(e, exp, d, g) by {
            assert(b.depends(d, g) == live(e, exp, d, g));
        }
        assert(b.blockers(d) =~= Set::new(|g: int| live(e, exp, d, g)));
    }
    vstd::set_lib::lemma_int_range(0, exp.len() as int);
    assert(b.open_nodes() =~= vstd::set_lib::set_int_range(0, exp.len() as int));
}

} // verus!
