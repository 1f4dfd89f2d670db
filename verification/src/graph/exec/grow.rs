//! The growth of a graph by expansions.

use crate::error::GraphError;
use crate::graph::exec::TaskGraph;
use crate::graph::expansion::{ExpansionNode, GraphExpansion, LocalNode, TaskRun};
use crate::graph::model::{GraphModel, NodeState, MAX_NODES};
use crate::graph::node::{NodeId, ReadyTask, TaskNode};
use crate::graph::{effect, expansion, install, lemmas, model, node};
use crate::sorted;
use crate::task::Task;
use vstd::prelude::*;

verus! {

broadcast use vstd::std_specs::hash::group_hash_axioms;

impl TaskGraph {
    /// Refuses an expansion that binds a token twice.
    fn check_bindings(&self, nodes: &Vec<ExpansionNode>) -> (result: Result<(), GraphError>)
        ensures
            match result {
                Ok(_) => install::binding_error_from(self@, local_nodes(nodes@), 0) is None && forall|
                    i: int,
                |
                    0 <= i < nodes@.len() ==> !(#[trigger] install::bound_twice(
                        self@,
                        local_nodes(nodes@),
                        i,
                    )),
                Err(error) => install::binding_error_from(self@, local_nodes(nodes@), 0) == Some(
                    error,
                ),
            },
    {
        let ghost exp = local_nodes(nodes@);
        let mut i: usize = 0;
        while i < nodes.len()
            invariant
                i <= nodes@.len(),
                exp == local_nodes(nodes@),
                install::binding_error_from(self@, exp, 0) == install::binding_error_from(
                    self@,
                    exp,
                    i as int,
                ),
                forall|j: int| 0 <= j < i ==> !(#[trigger] install::bound_twice(self@, exp, j)),
            decreases nodes@.len() - i,
        {
            proof {
                assert(exp[i as int] == nodes@[i as int].local());
            }
            if let Some(token) = nodes[i].binding {
                let earlier = local_binding(nodes, token.0, i);
                if self.bindings.contains_key(&token.0) || earlier.is_some() {
                    proof {
                        if let Some(k) = earlier {
                            assert(install::bound_at(exp, token.0, k as int));
                        }
                        assert(install::bound_twice(self@, exp, i as int));
                    }
                    return Err(GraphError::TokenBoundTwice { token: token.0 });
                }
            }
            assert(!install::bound_twice(self@, exp, i as int));
            i = i + 1;
        }
        Ok(())
    }

    /// The nodes that cannot finish before a given node has finished, itself
    /// among them: one flag for each node of the graph.
    fn completion_dependents_of(&self, root: NodeId) -> (flags: Vec<bool>)
        requires
            self@.shape(),
            self@.has(root.idx()),
        ensures
            flags@.len() == self@.nodes.len(),
            forall|x: int|
                self@.has(x) ==> (#[trigger] flags@[x] <==> self@.reaches(root.idx(), x)),
    {
        let ghost m = self@;
        let mut flags: Vec<bool> = vec![false; self.nodes.len()];
        let mut pending: Vec<NodeId> = Vec::new();
        flags[root.index()] = true;
        pending.push(root);
        proof {
            let p = seq![root.idx()];
            assert(m.path(p));
            assert(p[0] == root.idx() && p.last() == root.idx());
            lemmas::lemma_finite(m);
            assert(pending@[0].idx() == root.idx());
            node::lemma_id_set_push(Seq::empty(), root);
            assert(pending@ =~= Seq::empty().push(root));
        }
        while pending.len() > 0
            invariant
                m == self@,
                m.shape(),
                m.has(root.idx()),
                flags@.len() == m.nodes.len(),
                flags@[root.idx()],
                forall|x: int| m.has(x) && #[trigger] flags@[x] ==> m.reaches(root.idx(), x),
                forall|k: int|
                    0 <= k < pending@.len() ==> m.has((#[trigger] pending@[k]).idx())
                        && flags@[pending@[k].idx()],
                forall|x: int, y: int| #[trigger]
                    m.edge(x, y) && flags@[x] && !node::id_set(pending@).contains(x) ==> flags@[y],
                node::distinct(pending@),
            decreases unflagged(flags@).len(), pending@.len(),
        {
            let ghost all = pending@;
            let ghost before = unflagged(flags@).len();
            proof {
                node::lemma_id_set_pop(all);
                assert(all[all.len() - 1] == all.last());
            }
            let popped = pending.pop();
            if let Some(id) = popped {
                let ghost x = id.idx();
                proof {
                    assert(m.nodes[x] == self.nodes@[x].model());
                    assert(m.reaches(root.idx(), x));
                    let ds = self.nodes@[x].dependents@;
                    let ws = self.nodes@[x].waiters@;
                    assert forall|k: int| 0 <= k < ds.len() implies m.edge(
                        x,
                        (#[trigger] ds[k]).idx(),
                    ) by {
                        assert(m.nodes[x].dependents[k] == ds[k].idx());
                        assert(m.nodes[x].dependents.contains(ds[k].idx()));
                        assert(m.depends(ds[k].idx(), x));
                    }
                    assert forall|k: int| 0 <= k < ws.len() implies m.edge(
                        x,
                        (#[trigger] ws[k]).idx(),
                    ) by {
                        assert(m.nodes[x].waiters[k] == ws[k].idx());
                        assert(m.nodes[x].waiters.contains(ws[k].idx()));
                        assert(m.waits_for(ws[k].idx(), x));
                    }
                }
                self.flag_all(&self.nodes[id.index()].dependents, &mut flags, &mut pending, Ghost(root.idx()), Ghost(x));
                self.flag_all(&self.nodes[id.index()].waiters, &mut flags, &mut pending, Ghost(root.idx()), Ghost(x));
                proof {
                    assert forall|a: int, b: int| #[trigger]
                        m.edge(a, b) && flags@[a] && !node::id_set(pending@).contains(a) implies flags@[b] by {
                        if a == x {
                            let ds = self.nodes@[x].dependents@;
                            let ws = self.nodes@[x].waiters@;
                            if m.depends(b, x) {
                                let k = choose|k: int|
                                    0 <= k < m.nodes[x].dependents.len() && m.nodes[x].dependents[k]
                                        == b;
                                assert(ds[k].idx() == b);
                            } else {
                                let k = choose|k: int|
                                    0 <= k < m.nodes[x].waiters.len() && m.nodes[x].waiters[k] == b;
                                assert(ws[k].idx() == b);
                            }
                        }
                    }
                }
            }
        }
        proof {
            assert(node::id_set(pending@) =~= Set::empty());
            assert forall|x: int| m.has(x) && m.reaches(root.idx(), x) implies #[trigger] flags@[x] by {
                let p = choose|p: Seq<int>| #[trigger]
                    m.path(p) && p[0] == root.idx() && p.last() == x;
                Self::lemma_flags_path(m, flags@, root.idx(), p, p.len() - 1);
            }
        }
        flags
    }

    /// Flags the nodes of a list that are not flagged yet and adds them to
    /// those that are still to be followed.
    fn flag_all(
        &self,
        ids: &Vec<NodeId>,
        flags: &mut Vec<bool>,
        pending: &mut Vec<NodeId>,
        Ghost(root): Ghost<int>,
        Ghost(from): Ghost<int>,
    )
        requires
            self@.shape(),
            old(flags)@.len() == self@.nodes.len(),
            self@.has(from),
            self@.reaches(root, from),
            forall|k: int|
                0 <= k < ids@.len() ==> self@.edge(from, (#[trigger] ids@[k]).idx()),
            forall|x: int|
                self@.has(x) && #[trigger] old(flags)@[x] ==> self@.reaches(root, x),
            forall|k: int|
                0 <= k < old(pending)@.len() ==> self@.has((#[trigger] old(pending)@[k]).idx())
                    && old(flags)@[old(pending)@[k].idx()],
            forall|x: int, y: int| #[trigger]
                self@.edge(x, y) && x != from && old(flags)@[x] && !node::id_set(
                    old(pending)@,
                ).contains(x) ==> old(flags)@[y],
            node::distinct(old(pending)@),
            old(flags)@[from],
            !node::id_set(old(pending)@).contains(from),
        ensures
            final(flags)@.len() == self@.nodes.len(),
            forall|x: int|
                self@.has(x) && #[trigger] final(flags)@[x] ==> self@.reaches(root, x),
            forall|x: int|
                self@.has(x) && #[trigger] old(flags)@[x] ==> final(flags)@[x],
            forall|k: int|
                0 <= k < final(pending)@.len() ==> self@.has((#[trigger] final(pending)@[k]).idx())
                    && final(flags)@[final(pending)@[k].idx()],
            forall|x: int, y: int| #[trigger]
                self@.edge(x, y) && x != from && final(flags)@[x] && !node::id_set(
                    final(pending)@,
                ).contains(x) ==> final(flags)@[y],
            forall|k: int|
                0 <= k < ids@.len() ==> final(flags)@[(#[trigger] ids@[k]).idx()],
            node::distinct(final(pending)@),
            !node::id_set(final(pending)@).contains(from),
            unflagged(final(flags)@).len() < unflagged(old(flags)@).len() || (unflagged(
                final(flags)@,
            ).len() == unflagged(old(flags)@).len() && final(pending)@ == old(pending)@),
    {
        let ghost m = self@;
        let mut k: usize = 0;
        while k < ids.len()
            invariant
                m == self@,
                m.shape(),
                k <= ids@.len(),
                flags@.len() == m.nodes.len(),
                m.has(from),
                m.reaches(root, from),
                forall|k: int| 0 <= k < ids@.len() ==> m.edge(from, (#[trigger] ids@[k]).idx()),
                forall|x: int| m.has(x) && #[trigger] flags@[x] ==> m.reaches(root, x),
                forall|x: int| m.has(x) && #[trigger] old(flags)@[x] ==> flags@[x],
                forall|k: int|
                    0 <= k < pending@.len() ==> m.has((#[trigger] pending@[k]).idx())
                        && flags@[pending@[k].idx()],
                forall|x: int, y: int| #[trigger]
                    m.edge(x, y) && x != from && flags@[x] && !node::id_set(pending@).contains(x)
                        ==> flags@[y],
                forall|j: int| 0 <= j < k ==> flags@[(#[trigger] ids@[j]).idx()],
                node::distinct(pending@),
                flags@[from],
                !node::id_set(pending@).contains(from),
                unflagged(flags@).len() < unflagged(old(flags)@).len() || (unflagged(flags@).len()
                    == unflagged(old(flags)@).len() && pending@ == old(pending)@),
            decreases ids@.len() - k,
        {
            let id = ids[k];
            let ghost y = id.idx();
            proof {
                assert(m.edge(from, y));
                assert(m.has(y));
                assert(self.nodes@.len() == m.nodes.len());
            }
            if !flags[id.index()] {
                let ghost f0 = flags@;
                let ghost p0 = pending@;
                proof {
                    lemmas::lemma_reaches_next(m, root, from, y);
                    node::lemma_id_set_push(p0, id);
                    assert(!node::id_set(p0).contains(y)) by {
                        if node::id_set(p0).contains(y) {
                            let j = choose|j: int| 0 <= j < p0.len() && (#[trigger] p0[j]).idx() == y;
                            assert(f0[p0[j].idx()]);
                        }
                    }
                    lemma_flag(f0, y);
                }
                flags[id.index()] = true;
                pending.push(id);
                proof {
                    assert forall|a: int, b: int| #[trigger]
                        m.edge(a, b) && a != from && flags@[a] && !node::id_set(pending@).contains(
                            a,
                        ) implies flags@[b] by {
                        assert(f0[a]);
                        assert(f0[b]);
                    }
                    assert forall|j: int| 0 <= j < pending@.len() implies m.has(
                        (#[trigger] pending@[j]).idx(),
                    ) && flags@[pending@[j].idx()] by {
                        if j < p0.len() {
                            assert(pending@[j] == p0[j]);
                        }
                    }
                }
            }
            k = k + 1;
        }
    }

    /// A set of nodes that contains the root and is closed under edges
    /// contains every path from the root.
    proof fn lemma_flags_path(m: GraphModel, flags: Seq<bool>, root: int, p: Seq<int>, k: int)
        requires
            m.path(p),
            p[0] == root,
            flags[root],
            0 <= k < p.len(),
            forall|x: int, y: int| #[trigger] m.edge(x, y) && flags[x] ==> flags[y],
        ensures
            flags[p[k]],
        decreases k,
    {
        if k > 0 {
            Self::lemma_flags_path(m, flags, root, p, k - 1);
            assert(m.edge(p[k - 1], p[(k - 1) + 1]));
        }
    }

    /// The node that token `token` of new node `i` stands for.
    fn resolve_token(
        &self,
        nodes: &Vec<ExpansionNode>,
        reach: &Vec<bool>,
        i: usize,
        token: u64,
        Ghost(parent): Ghost<int>,
    ) -> (result: Result<u64, GraphError>)
        requires
            self@.shape(),
            i < nodes@.len(),
            self@.nodes.len() + nodes@.len() <= MAX_NODES,
            forall|j: int|
                0 <= j < nodes@.len() ==> !(#[trigger] install::bound_twice(
                    self@,
                    local_nodes(nodes@),
                    j,
                )),
            reach@.len() == self@.nodes.len(),
            forall|x: int| self@.has(x) ==> (#[trigger] reach@[x] <==> self@.reaches(parent, x)),
        ensures
            match result {
                Ok(g) => g == install::resolve(self@, local_nodes(nodes@), token)
                    && install::token_error(
                    self@,
                    parent,
                    local_nodes(nodes@),
                    i as int,
                    token,
                ) is None,
                Err(error) => install::token_error(
                    self@,
                    parent,
                    local_nodes(nodes@),
                    i as int,
                    token,
                ) == Some(error),
            },
    {
        let ghost exp = local_nodes(nodes@);
        match self.bindings.get(&token) {
            Some(existing) => {
                proof {
                    assert(self@.bindings.contains_key(token));
                    assert(self@.bindings[token] == existing.idx());
                    assert(self@.has(existing.idx()));
                }
                if reach[existing.index()] {
                    return Err(GraphError::TokenCycle { node: i, token });
                }
                Ok(existing.index() as u64)
            },
            None => {
                proof {
                    assert(!self@.bindings.contains_key(token));
                }
                match local_binding(nodes, token, nodes.len()) {
                    Some(k) => {
                        proof {
                            install::lemma_bound_once(self@, exp, token, k as int);
                            assert(install::bound_locally(exp, token));
                        }
                        if k >= i {
                            return Err(GraphError::ForwardToken { node: i });
                        }
                        Ok(self.nodes.len() as u64 + k as u64)
                    },
                    None => {
                        assert(!install::bound_locally(exp, token));
                        Err(GraphError::UnboundToken { node: i, token })
                    },
                }
            },
        }
    }

    /// What each new node depends on, as ascending lists of nodes of the grown
    /// graph.
    fn resolve_dependencies(
        &self,
        nodes: &Vec<ExpansionNode>,
        reach: &Vec<bool>,
        Ghost(parent): Ghost<int>,
    ) -> (result: Result<Vec<Vec<u64>>, GraphError>)
        requires
            self@.shape(),
            self@.nodes.len() + nodes@.len() <= MAX_NODES,
            expansion::well_ordered(local_nodes(nodes@)),
            forall|j: int|
                0 <= j < nodes@.len() ==> !(#[trigger] install::bound_twice(
                    self@,
                    local_nodes(nodes@),
                    j,
                )),
            reach@.len() == self@.nodes.len(),
            forall|x: int| self@.has(x) ==> (#[trigger] reach@[x] <==> self@.reaches(parent, x)),
        ensures
            match result {
                Ok(lists) => {
                    &&& install::token_error_from(self@, parent, local_nodes(nodes@), 0, 0) is None
                    &&& install::admissible(self@, parent, local_nodes(nodes@))
                    &&& lists@.len() == nodes@.len()
                    &&& forall|i: int|
                        0 <= i < nodes@.len() ==> resolved(
                            self@,
                            local_nodes(nodes@),
                            i,
                            #[trigger] lists@[i],
                        )
                },
                Err(error) => install::token_error_from(
                    self@,
                    parent,
                    local_nodes(nodes@),
                    0,
                    0,
                ) == Some(error),
            },
    {
        let ghost exp = local_nodes(nodes@);
        let ghost m = self@;
        let base = self.nodes.len();
        let mut lists: Vec<Vec<u64>> = Vec::new();
        let mut i: usize = 0;
        while i < nodes.len()
            invariant
                i <= nodes@.len(),
                m == self@,
                base == m.nodes.len(),
                exp == local_nodes(nodes@),
                m.shape(),
                m.nodes.len() + nodes@.len() <= MAX_NODES,
                expansion::well_ordered(exp),
                forall|j: int|
                    0 <= j < nodes@.len() ==> !(#[trigger] install::bound_twice(m, exp, j)),
                reach@.len() == m.nodes.len(),
                forall|x: int| m.has(x) ==> (#[trigger] reach@[x] <==> m.reaches(parent, x)),
                install::token_error_from(m, parent, exp, 0, 0) == install::token_error_from(
                    m,
                    parent,
                    exp,
                    i as int,
                    0,
                ),
                lists@.len() == i,
                forall|j: int| 0 <= j < i ==> resolved(m, exp, j, #[trigger] lists@[j]),
                forall|j: int, t: u64|
                    0 <= j < i && #[trigger] exp[j].tokens.contains(t) ==> install::token_error(
                        m,
                        parent,
                        exp,
                        j,
                        t,
                    ) is None,
            decreases nodes@.len() - i,
        {
            proof {
                assert(exp[i as int] == nodes@[i as int].local());
            }
            let mut list: Vec<u64> = Vec::new();
            let mut k: usize = 0;
            while k < nodes[i].dependencies.len()
                invariant
                    i < nodes@.len(),
                    exp == local_nodes(nodes@),
                    exp[i as int] == nodes@[i as int].local(),
                    m == self@,
                    base == m.nodes.len(),
                    m.nodes.len() + nodes@.len() <= MAX_NODES,
                    expansion::well_ordered(exp),
                    k <= nodes@[i as int].dependencies@.len(),
                    sorted::ascending(list@),
                    forall|g: u64| #[trigger]
                        list@.contains(g) <==> install::needs_upto(
                            m,
                            exp,
                            i as int,
                            k as int,
                            0,
                            g as int,
                        ),
                decreases nodes@[i as int].dependencies@.len() - k,
            {
                let ghost ds = exp[i as int].dependencies;
                let ghost before = list@;
                let d = nodes[i].dependencies[k];
                proof {
                    assert(ds[k as int] == d);
                    assert(ds.contains(d));
                    assert(d < i);
                }
                sorted::insert_sorted(&mut list, base as u64 + d);
                proof {
                    assert forall|g: u64| #[trigger]
                        list@.contains(g) <==> install::needs_upto(
                            m,
                            exp,
                            i as int,
                            k + 1,
                            0,
                            g as int,
                        ) by {
                        if install::needs_upto(m, exp, i as int, k as int, 0, g as int) {
                            let j = choose|j: int|
                                0 <= j < k && g == m.nodes.len() + #[trigger] ds[j];
                            assert(g == m.nodes.len() + exp[i as int].dependencies[j]);
                        }
                        if g == base + d {
                            assert(g == m.nodes.len() + exp[i as int].dependencies[k as int]);
                        }
                        if install::needs_upto(m, exp, i as int, k + 1, 0, g as int) {
                            let j = choose|j: int|
                                0 <= j < k + 1 && g == m.nodes.len() + #[trigger] exp[i as int].dependencies[j];
                            if j < k {
                                assert(install::needs_upto(m, exp, i as int, k as int, 0, g as int));
                                assert(before.contains(g));
                            }
                        }
                    }
                }
                k = k + 1;
            }
            let ghost kd = exp[i as int].dependencies.len() as int;
            let mut k: usize = 0;
            while k < nodes[i].token_dependencies.len()
                invariant
                    i < nodes@.len(),
                    exp == local_nodes(nodes@),
                    exp[i as int] == nodes@[i as int].local(),
                    m == self@,
                    m.shape(),
                    base == m.nodes.len(),
                    m.nodes.len() + nodes@.len() <= MAX_NODES,
                    kd == exp[i as int].dependencies.len(),
                    k <= nodes@[i as int].token_dependencies@.len(),
                    forall|j: int|
                        0 <= j < nodes@.len() ==> !(#[trigger] install::bound_twice(m, exp, j)),
                    reach@.len() == m.nodes.len(),
                    forall|x: int| m.has(x) ==> (#[trigger] reach@[x] <==> m.reaches(parent, x)),
                    install::token_error_from(m, parent, exp, 0, 0) == install::token_error_from(
                        m,
                        parent,
                        exp,
                        i as int,
                        k as int,
                    ),
                    sorted::ascending(list@),
                    forall|g: u64| #[trigger]
                        list@.contains(g) <==> install::needs_upto(
                            m,
                            exp,
                            i as int,
                            kd,
                            k as int,
                            g as int,
                        ),
                    forall|j: int|
                        0 <= j < k ==> install::token_error(
                            m,
                            parent,
                            exp,
                            i as int,
                            #[trigger] exp[i as int].tokens[j],
                        ) is None,
                decreases nodes@[i as int].token_dependencies@.len() - k,
            {
                let ghost ts = exp[i as int].tokens;
                let ghost before = list@;
                let token = nodes[i].token_dependencies[k];
                proof {
                    assert(ts[k as int] == token);
                }
                match self.resolve_token(nodes, reach, i, token, Ghost(parent)) {
                    Ok(node) => {
                        sorted::insert_sorted(&mut list, node);
                        proof {
                            assert forall|g: u64| #[trigger]
                                list@.contains(g) <==> install::needs_upto(
                                    m,
                                    exp,
                                    i as int,
                                    kd,
                                    k + 1,
                                    g as int,
                                ) by {
                                if g == node {
                                    assert(g == install::resolve(
                                        m,
                                        exp,
                                        exp[i as int].tokens[k as int],
                                    ));
                                }
                                if before.contains(g) {
                                    if exists|j: int|
                                        0 <= j < k && g == install::resolve(
                                            m,
                                            exp,
                                            #[trigger] exp[i as int].tokens[j],
                                        ) {
                                        let j = choose|j: int|
                                            0 <= j < k && g == install::resolve(
                                                m,
                                                exp,
                                                #[trigger] exp[i as int].tokens[j],
                                            );
                                        assert(g == install::resolve(
                                            m,
                                            exp,
                                            exp[i as int].tokens[j],
                                        ));
                                    }
                                }
                                if install::needs_upto(m, exp, i as int, kd, k + 1, g as int) {
                                    if exists|j: int|
                                        0 <= j < k + 1 && g == install::resolve(
                                            m,
                                            exp,
                                            #[trigger] exp[i as int].tokens[j],
                                        ) {
                                        let j = choose|j: int|
                                            0 <= j < k + 1 && g == install::resolve(
                                                m,
                                                exp,
                                                #[trigger] exp[i as int].tokens[j],
                                            );
                                        if j < k {
                                            assert(install::needs_upto(
                                                m,
                                                exp,
                                                i as int,
                                                kd,
                                                k as int,
                                                g as int,
                                            ));
                                        }
                                    } else {
                                        assert(install::needs_upto(
                                            m,
                                            exp,
                                            i as int,
                                            kd,
                                            k as int,
                                            g as int,
                                        ));
                                    }
                                    assert(before.contains(g) || g == node);
                                }
                            }
                        }
                    },
                    Err(error) => {
                        return Err(error);
                    },
                }
                k = k + 1;
            }
            proof {
                assert forall|g: u64| #[trigger] list@.contains(g) <==> install::needs(
                    m,
                    exp,
                    i as int,
                    g as int,
                ) by {
                    install::lemma_needs_all(m, exp, i as int, g as int);
                }
                assert forall|t: u64| #[trigger] exp[i as int].tokens.contains(t) implies install::token_error(
                    m,
                    parent,
                    exp,
                    i as int,
                    t,
                ) is None by {
                    let j = choose|j: int|
                        0 <= j < exp[i as int].tokens.len() && exp[i as int].tokens[j] == t;
                    assert(install::token_error(m, parent, exp, i as int, exp[i as int].tokens[j]) is None);
                }
            }
            lists.push(list);
            i = i + 1;
        }
        Ok(lists)
    }

    /// How many of the nodes that a new node depends on have not succeeded.
    fn count_live(&self, list: &Vec<u64>, base: usize) -> (count: usize)
        requires
            base <= self.nodes@.len(),
            sorted::ascending(list@),
        ensures
            count == Set::new(
                |g: int|
                    0 <= g <= u64::MAX && list@.contains(g as u64) && (g >= base || !(
                    self.nodes@[g].state is Succeeded)),
            ).len(),
            Set::new(
                |g: int|
                    0 <= g <= u64::MAX && list@.contains(g as u64) && (g >= base || !(
                    self.nodes@[g].state is Succeeded)),
            ).finite(),
    {
        let mut count: usize = 0;
        let mut k: usize = 0;
        let ghost live = |g: int| g >= base || !(self.nodes@[g].state is Succeeded);
        let ghost mut set = Set::<int>::empty();
        while k < list.len()
            invariant
                k <= list@.len(),
                base <= self.nodes@.len(),
                sorted::ascending(list@),
                live == (|g: int| g >= base || !(self.nodes@[g].state is Succeeded)),
                set.finite(),
                set.len() == count <= k,
                forall|g: int| #[trigger]
                    set.contains(g) <==> (exists|j: int| 0 <= j < k && #[trigger] list@[j] == g)
                        && live(g),
            decreases list@.len() - k,
        {
            let g = list[k];
            let ghost before = set;
            proof {
                assert(!before.contains(g as int)) by {
                    if before.contains(g as int) {
                        let j = choose|j: int| 0 <= j < k && #[trigger] list@[j] == g;
                        assert(list@[j] < list@[k as int]);
                    }
                }
            }
            if g >= base as u64 || self.nodes[g as usize].state != NodeState::Succeeded {
                count = count + 1;
                proof {
                    set = before.insert(g as int);
                }
            }
            proof {
                assert forall|x: int| #[trigger]
                    set.contains(x) <==> (exists|j: int| 0 <= j < k + 1 && #[trigger] list@[j] == x)
                        && live(x) by {
                    if before.contains(x) {
                        let j = choose|j: int| 0 <= j < k && #[trigger] list@[j] == x;
                        assert(list@[j] == x);
                    }
                    if x == g {
                        assert(list@[k as int] == x);
                    }
                    if exists|j: int| 0 <= j < k + 1 && #[trigger] list@[j] == x {
                        let j = choose|j: int| 0 <= j < k + 1 && #[trigger] list@[j] == x;
                        if j < k {
                            assert(exists|j: int| 0 <= j < k && #[trigger] list@[j] == x);
                        }
                    }
                }
            }
            k = k + 1;
        }
        proof {
            let full = Set::new(
                |g: int|
                    0 <= g <= u64::MAX && list@.contains(g as u64) && (g >= base || !(
                    self.nodes@[g].state is Succeeded)),
            );
            assert(set =~= full) by {
                assert forall|g: int| set.contains(g) == full.contains(g) by {
                    if set.contains(g) {
                        let j = choose|j: int| 0 <= j < k && #[trigger] list@[j] == g;
                        assert(list@.contains(g as u64));
                    }
                    if full.contains(g) {
                        let j = choose|j: int| 0 <= j < list@.len() && list@[j] == g as u64;
                        assert(list@[j] == g);
                    }
                }
            }
        }
        count
    }

    /// Appends the nodes of an expansion as pending nodes without edges.
    fn append_nodes(
        &mut self,
        nodes: Vec<ExpansionNode>,
        lists: &Vec<Vec<u64>>,
        continuation: bool,
        Ghost(parent): Ghost<int>,
    )
        requires
            old(self)@.shape(),
            install::admissible(old(self)@, parent, local_nodes(nodes@)),
            expansion::well_ordered(local_nodes(nodes@)),
            lists@.len() == nodes@.len(),
            forall|i: int|
                0 <= i < nodes@.len() ==> resolved(
                    old(self)@,
                    local_nodes(nodes@),
                    i,
                    #[trigger] lists@[i],
                ),
        ensures
            final(self).unresolved == old(self).unresolved,
            final(self).dynamic_expansions == old(self).dynamic_expansions,
            final(self).nodes@.len() == old(self).nodes@.len() + nodes@.len(),
            forall|x: int|
                0 <= x < old(self).nodes@.len() ==> #[trigger] final(self).nodes@[x] == old(self).nodes@[x],
            forall|i: int|
                0 <= i < nodes@.len() ==> fresh(
                    old(self)@,
                    local_nodes(nodes@),
                    continuation,
                    i,
                    #[trigger] final(self).nodes@[old(self).nodes@.len() + i],
                ),
            final(self).bindings@.map_values(|id: NodeId| id.idx()) == Map::new(
                |t: u64|
                    old(self)@.bindings.contains_key(t) || install::bound_locally(
                        local_nodes(nodes@),
                        t,
                    ),
                |t: u64| install::resolve(old(self)@, local_nodes(nodes@), t),
            ),
    {
        let ghost m = self@;
        let ghost exp = local_nodes(nodes@);
        let ghost all = nodes@;
        let ghost n0 = self.nodes@;
        let ghost b0 = self.bindings@;
        let base = self.nodes.len();
        let mut at: usize = 0;
        for node in it: nodes
            invariant
                it.seq() == all,
                at == it.index(),
                m == old(self)@,
                m.shape(),
                exp == local_nodes(all),
                install::admissible(m, parent, exp),
                expansion::well_ordered(exp),
                n0 == old(self).nodes@,
                b0 == old(self).bindings@,
                base == n0.len() == m.nodes.len(),
                lists@.len() == all.len(),
                forall|i: int|
                    0 <= i < all.len() ==> resolved(m, exp, i, #[trigger] lists@[i]),
                forall|x: int| m.has(x) ==> #[trigger] m.nodes[x] == n0[x].model(),
                self.unresolved == old(self).unresolved,
                self.dynamic_expansions == old(self).dynamic_expansions,
                self.nodes@.len() == base + at,
                forall|x: int| 0 <= x < base ==> #[trigger] self.nodes@[x] == n0[x],
                forall|i: int|
                    0 <= i < at ==> fresh(m, exp, continuation, i, #[trigger] self.nodes@[base + i]),
                forall|t: u64| #[trigger]
                    self.bindings@.contains_key(t) <==> (b0.contains_key(t) || exists|k: int|
                        k < at && #[trigger] install::bound_at(exp, t, k)),
                forall|t: u64| #[trigger]
                    self.bindings@.contains_key(t) ==> self.bindings@[t].idx()
                        == install::resolve(m, exp, t),
        {
            let ghost i = at as int;
            let ghost nodes1 = self.nodes@;
            let ghost b1 = self.bindings@;
            proof {
                assert(exp[i] == node.local());
                assert(resolved(m, exp, i, lists@[i]));
            }
            let remaining = self.count_live(&lists[at], base);
            proof {
                let full = Set::new(
                    |g: int|
                        0 <= g <= u64::MAX && lists@[i]@.contains(g as u64) && (g >= base || !(
                        self.nodes@[g].state is Succeeded)),
                );
                assert(full =~= Set::new(|g: int| install::live(m, exp, i, g))) by {
                    assert forall|g: int| full.contains(g) == install::live(m, exp, i, g) by {
                        if install::needs(m, exp, i, g) {
                            install::lemma_needs(m, parent, exp, i, g);
                            assert(lists@[i]@.contains(g as u64));
                        }
                        if 0 <= g < base {
                            assert(m.nodes[g] == n0[g].model());
                            assert(self.nodes@[g] == n0[g]);
                        }
                    }
                }
            }
            let id = NodeId((base + at) as u32);
            if let Some(token) = node.binding {
                self.bindings.insert(token.0, id);
            }
            self.nodes.push(
                TaskNode {
                    task: Some(node.task),
                    state: NodeState::Pending,
                    remaining_dependencies: remaining,
                    dependents: Vec::new(),
                    waiters: Vec::new(),
                    waiting_remaining: 0,
                    continuation,
                },
            );
            proof {
                assert forall|j: int| 0 <= j < at + 1 implies fresh(
                    m,
                    exp,
                    continuation,
                    j,
                    #[trigger] self.nodes@[base + j],
                ) by {
                    if j < at {
                        assert(self.nodes@[base + j] == nodes1[base + j]);
                    }
                }
                assert forall|t: u64| #[trigger]
                    self.bindings@.contains_key(t) <==> (b0.contains_key(t) || exists|k: int|
                        k < at + 1 && #[trigger] install::bound_at(exp, t, k)) by {
                    if install::bound_at(exp, t, i) {
                        assert(node.binding matches Some(token) && token.0 == t);
                    }
                    if self.bindings@.contains_key(t) && !b1.contains_key(t) {
                        assert(install::bound_at(exp, t, i));
                    }
                    if b1.contains_key(t) && !b0.contains_key(t) {
                        let k = choose|k: int| k < at && #[trigger] install::bound_at(exp, t, k);
                        assert(k < at + 1 && install::bound_at(exp, t, k));
                    }
                    if exists|k: int| k < at + 1 && #[trigger] install::bound_at(exp, t, k) {
                        let k = choose|k: int|
                            k < at + 1 && #[trigger] install::bound_at(exp, t, k);
                        if k < at {
                            assert(b1.contains_key(t));
                        }
                    }
                }
                assert forall|t: u64| #[trigger]
                    self.bindings@.contains_key(t) implies self.bindings@[t].idx()
                    == install::resolve(m, exp, t) by {
                    if install::bound_at(exp, t, i) {
                        install::lemma_bound_once(m, exp, t, i);
                        assert(self.bindings@[t] == id);
                    } else {
                        assert(b1.contains_key(t));
                        assert(self.bindings@[t] == b1[t]);
                    }
                }
            }
            assert(at < lists.len());
            at = at + 1;
        }
        proof {
            let after = self.bindings@.map_values(|id: NodeId| id.idx());
            let goal = Map::new(
                |t: u64| m.bindings.contains_key(t) || install::bound_locally(exp, t),
                |t: u64| install::resolve(m, exp, t),
            );
            assert forall|t: u64| after.contains_key(t) == goal.contains_key(t) by {
                assert(m.bindings.contains_key(t) == b0.contains_key(t));
                if install::bound_locally(exp, t) {
                    let k = choose|k: int| install::bound_at(exp, t, k);
                    assert(k < at && install::bound_at(exp, t, k));
                }
            }
            assert(after =~= goal);
        }
    }

    /// Adds the new nodes to the dependents of what they depend on.
    fn link_dependents(&mut self, base: usize, lists: &Vec<Vec<u64>>, Ghost(m): Ghost<GraphModel>, Ghost(exp): Ghost<Seq<LocalNode>>, Ghost(parent): Ghost<int>)
        requires
            m.shape(),
            install::admissible(m, parent, exp),
            expansion::well_ordered(exp),
            base == m.nodes.len(),
            old(self).nodes@.len() == base + exp.len(),
            lists@.len() == exp.len(),
            forall|i: int| 0 <= i < exp.len() ==> resolved(m, exp, i, #[trigger] lists@[i]),
            forall|x: int|
                m.has(x) ==> (#[trigger] old(self).nodes@[x]).state == m.state(x),
        ensures
            final(self).unresolved == old(self).unresolved,
            final(self).dynamic_expansions == old(self).dynamic_expansions,
            final(self).bindings == old(self).bindings,
            final(self).nodes@.len() == old(self).nodes@.len(),
            forall|x: int|
                0 <= x < old(self).nodes@.len() ==> linked(
                    m,
                    exp,
                    exp.len(),
                    x,
                    old(self).nodes@[x],
                    #[trigger] final(self).nodes@[x],
                ),
    {
        let ghost n0 = self.nodes@;
        let mut i: usize = 0;
        proof {
            assert forall|x: int| 0 <= x < n0.len() implies linked(
                m,
                exp,
                0,
                x,
                n0[x],
                #[trigger] self.nodes@[x],
            ) by {
                assert(node::indices(n0[x].dependents@) + Seq::<int>::empty() =~= node::indices(
                    n0[x].dependents@,
                ));
            }
        }
        while i < lists.len()
            invariant
                i <= lists@.len(),
                m.shape(),
                install::admissible(m, parent, exp),
                expansion::well_ordered(exp),
                base == m.nodes.len(),
                n0 == old(self).nodes@,
                n0.len() == base + exp.len(),
                lists@.len() == exp.len(),
                forall|i: int| 0 <= i < exp.len() ==> resolved(m, exp, i, #[trigger] lists@[i]),
                forall|x: int| m.has(x) ==> (#[trigger] n0[x]).state == m.state(x),
                self.unresolved == old(self).unresolved,
                self.dynamic_expansions == old(self).dynamic_expansions,
                self.bindings == old(self).bindings,
                self.nodes@.len() == n0.len(),
                forall|x: int|
                    0 <= x < n0.len() ==> linked(
                        m,
                        exp,
                        i as nat,
                        x,
                        n0[x],
                        #[trigger] self.nodes@[x],
                    ),
            decreases lists@.len() - i,
        {
            let id = NodeId((base + i) as u32);
            let ghost list = lists@[i as int]@;
            let ghost n1 = self.nodes@;
            proof {
                assert(resolved(m, exp, i as int, lists@[i as int]));
            }
            let mut k: usize = 0;
            while k < lists[i].len()
                invariant
                    i < lists@.len(),
                    k <= lists@[i as int]@.len(),
                    list == lists@[i as int]@,
                    id.idx() == base + i,
                    m.shape(),
                    install::admissible(m, parent, exp),
                    expansion::well_ordered(exp),
                    base == m.nodes.len(),
                    n0 == old(self).nodes@,
                    n0.len() == base + exp.len(),
                    lists@.len() == exp.len(),
                    resolved(m, exp, i as int, lists@[i as int]),
                    forall|x: int| m.has(x) ==> (#[trigger] n0[x]).state == m.state(x),
                    self.unresolved == old(self).unresolved,
                    self.dynamic_expansions == old(self).dynamic_expansions,
                    self.bindings == old(self).bindings,
                    self.nodes@.len() == n0.len(),
                    n1.len() == n0.len(),
                    forall|x: int|
                        0 <= x < n0.len() ==> linked(m, exp, i as nat, x, n0[x], #[trigger] n1[x]),
                    forall|x: int|
                        0 <= x < n0.len() ==> ({
                            if list.take(k as int).contains(x as u64) && install::live(
                                m,
                                exp,
                                i as int,
                                x,
                            ) {
                                linked(m, exp, (i + 1) as nat, x, n0[x], #[trigger] self.nodes@[x])
                            } else {
                                self.nodes@[x] == n1[x]
                            }
                        }),
                decreases lists@[i as int]@.len() - k,
            {
                let ghost n2 = self.nodes@;
                let g = lists[i][k];
                proof {
                    assert(list[k as int] == g);
                    assert(list.contains(g));
                    install::lemma_needs(m, parent, exp, i as int, g as int);
                    assert(!list.take(k as int).contains(g)) by {
                        if list.take(k as int).contains(g) {
                            let j = choose|j: int|
                                0 <= j < list.take(k as int).len() && list.take(k as int)[j] == g;
                            assert(list[j] < list[k as int]);
                        }
                    }
                    assert(self.nodes@[g as int] == n1[g as int]);
                    assert(linked(m, exp, i as nat, g as int, n0[g as int], n1[g as int]));
                }
                if g >= base as u64 || self.nodes[g as usize].state != NodeState::Succeeded {
                    self.nodes[g as usize].dependents.push(id);
                    proof {
                        let x = g as int;
                        assert(install::live(m, exp, i as int, x));
                        let before = node::indices(n1[x].dependents@);
                        assert(node::indices(self.nodes@[x].dependents@) =~= before.push(base + i));
                        assert(install::gained(m, exp, x, (i + 1) as nat) =~= install::gained(
                            m,
                            exp,
                            x,
                            i as nat,
                        ).push(base + i));
                        assert(node::indices(n0[x].dependents@) + install::gained(
                            m,
                            exp,
                            x,
                            (i + 1) as nat,
                        ) =~= (node::indices(n0[x].dependents@) + install::gained(
                            m,
                            exp,
                            x,
                            i as nat,
                        )).push(base + i));
                    }
                }
                proof {
                    let taken = list.take(k as int);
                    let more = list.take(k + 1);
                    assert(more =~= taken.push(g));
                    assert forall|x: int| 0 <= x < n0.len() implies ({
                        if more.contains(x as u64) && install::live(m, exp, i as int, x) {
                            linked(m, exp, (i + 1) as nat, x, n0[x], #[trigger] self.nodes@[x])
                        } else {
                            self.nodes@[x] == n1[x]
                        }
                    }) by {
                        if x == g {
                            assert(more[k as int] == x as u64);
                            assert(more.contains(x as u64));
                        } else {
                            assert(self.nodes@[x] == n2[x]);
                            assert(x as u64 != g);
                            assert(more.contains(x as u64) == taken.contains(x as u64)) by {
                                if more.contains(x as u64) {
                                    let j = choose|j: int|
                                        0 <= j < more.len() && more[j] == x as u64;
                                    assert(taken[j] == x as u64);
                                }
                                if taken.contains(x as u64) {
                                    let j = choose|j: int|
                                        0 <= j < taken.len() && taken[j] == x as u64;
                                    assert(more[j] == x as u64);
                                }
                            }
                        }
                    }
                }
                k = k + 1;
            }
            proof {
                assert(list.take(k as int) =~= list);
                assert forall|x: int| 0 <= x < n0.len() implies linked(
                    m,
                    exp,
                    (i + 1) as nat,
                    x,
                    n0[x],
                    #[trigger] self.nodes@[x],
                ) by {
                    assert(linked(m, exp, i as nat, x, n0[x], n1[x]));
                    if !install::live(m, exp, i as int, x) {
                        assert(install::gained(m, exp, x, (i + 1) as nat) == install::gained(
                            m,
                            exp,
                            x,
                            i as nat,
                        ));
                    } else {
                        assert(list.contains(x as u64));
                    }
                }
            }
            i = i + 1;
        }
    }

    /// Which new nodes another new node depends on: one flag for each.
    fn needed_nodes(lists: &Vec<Vec<u64>>, base: usize, Ghost(m): Ghost<GraphModel>, Ghost(exp): Ghost<Seq<LocalNode>>, Ghost(parent): Ghost<int>) -> (needed: Vec<bool>)
        requires
            m.shape(),
            install::admissible(m, parent, exp),
            expansion::well_ordered(exp),
            base == m.nodes.len(),
            lists@.len() == exp.len(),
            forall|i: int| 0 <= i < exp.len() ==> resolved(m, exp, i, #[trigger] lists@[i]),
        ensures
            needed@.len() == exp.len(),
            forall|i: int|
                0 <= i < exp.len() ==> (#[trigger] needed@[i] <==> !install::leaf(m, exp, i)),
    {
        let mut needed: Vec<bool> = vec![false; lists.len()];
        let mut i: usize = 0;
        while i < lists.len()
            invariant
                i <= lists@.len(),
                m.shape(),
                install::admissible(m, parent, exp),
                expansion::well_ordered(exp),
                base == m.nodes.len(),
                lists@.len() == exp.len(),
                forall|i: int| 0 <= i < exp.len() ==> resolved(m, exp, i, #[trigger] lists@[i]),
                needed@.len() == exp.len(),
                forall|x: int|
                    0 <= x < exp.len() ==> (#[trigger] needed@[x] <==> exists|j: int|
                        0 <= j < i && #[trigger] install::needs(m, exp, j, base + x)),
            decreases lists@.len() - i,
        {
            let ghost f0 = needed@;
            let ghost list = lists@[i as int]@;
            proof {
                assert(resolved(m, exp, i as int, lists@[i as int]));
            }
            let mut k: usize = 0;
            while k < lists[i].len()
                invariant
                    i < lists@.len(),
                    k <= lists@[i as int]@.len(),
                    list == lists@[i as int]@,
                    m.shape(),
                    install::admissible(m, parent, exp),
                    expansion::well_ordered(exp),
                    base == m.nodes.len(),
                    lists@.len() == exp.len(),
                    resolved(m, exp, i as int, lists@[i as int]),
                    needed@.len() == exp.len(),
                    f0.len() == exp.len(),
                    forall|x: int|
                        0 <= x < exp.len() ==> (#[trigger] needed@[x] <==> (f0[x] || list.take(
                            k as int,
                        ).contains((base + x) as u64))),
                decreases lists@[i as int]@.len() - k,
            {
                let g = lists[i][k];
                let ghost f1 = needed@;
                proof {
                    assert(list[k as int] == g);
                    assert(list.contains(g));
                    install::lemma_needs(m, parent, exp, i as int, g as int);
                }
                if g >= base as u64 {
                    needed[(g - base as u64) as usize] = true;
                }
                proof {
                    let taken = list.take(k as int);
                    let more = list.take(k + 1);
                    assert(more =~= taken.push(g));
                    assert forall|x: int| 0 <= x < exp.len() implies (#[trigger] needed@[x] <==> (
                    f0[x] || more.contains((base + x) as u64))) by {
                        let y = (base + x) as u64;
                        assert(f1[x] <==> (f0[x] || taken.contains(y)));
                        if y == g {
                            assert(more[k as int] == y);
                        }
                        if taken.contains(y) {
                            let j = choose|j: int| 0 <= j < taken.len() && taken[j] == y;
                            assert(more[j] == y);
                        }
                        if more.contains(y) && y != g {
                            let j = choose|j: int| 0 <= j < more.len() && more[j] == y;
                            assert(taken[j] == y);
                        }
                    }
                }
                k = k + 1;
            }
            proof {
                assert(list.take(k as int) =~= list);
                assert forall|x: int| 0 <= x < exp.len() implies (#[trigger] needed@[x]
                    <==> exists|j: int|
                    0 <= j < i + 1 && #[trigger] install::needs(m, exp, j, base + x)) by {
                    if list.contains((base + x) as u64) {
                        assert(install::needs(m, exp, i as int, base + x));
                    }
                    if f0[x] {
                        let j = choose|j: int|
                            0 <= j < i && #[trigger] install::needs(m, exp, j, base + x);
                        assert(install::needs(m, exp, j, base + x));
                    }
                    if exists|j: int|
                        0 <= j < i + 1 && #[trigger] install::needs(m, exp, j, base + x) {
                        let j = choose|j: int|
                            0 <= j < i + 1 && #[trigger] install::needs(m, exp, j, base + x);
                        if j == i {
                            assert(list.contains((base + x) as u64));
                        } else {
                            assert(f0[x]);
                        }
                    }
                }
            }
            i = i + 1;
        }
        needed
    }

    /// Makes the parent wait for the leaves among the new nodes.
    fn attach_leaves(&mut self, parent: NodeId, base: usize, needed: &Vec<bool>, next: Option<Task>)
        requires
            parent.idx() < base,
            old(self).nodes@.len() == base + needed@.len(),
            base + needed@.len() <= MAX_NODES,
            forall|i: int|
                0 <= i < needed@.len() ==> (#[trigger] old(self).nodes@[base + i]).waiters@
                    == Seq::<NodeId>::empty(),
        ensures
            final(self).unresolved == old(self).unresolved,
            final(self).dynamic_expansions == old(self).dynamic_expansions,
            final(self).bindings == old(self).bindings,
            final(self).nodes@.len() == old(self).nodes@.len(),
            forall|x: int|
                0 <= x < base && x != parent.idx() ==> #[trigger] final(self).nodes@[x] == old(self).nodes@[x],
            final(self).nodes@[parent.idx()] == (TaskNode {
                state: NodeState::Waiting,
                task: next,
                waiting_remaining: Set::new(
                    |x: int| base <= x < base + needed@.len() && !needed@[x - base],
                ).len() as usize,
                ..old(self).nodes@[parent.idx()]
            }),
            Set::new(|x: int| base <= x < base + needed@.len() && !needed@[x - base]).len()
                <= usize::MAX,
            forall|i: int|
                0 <= i < needed@.len() ==> hung(
                    parent,
                    needed@[i],
                    old(self).nodes@[base + i],
                    #[trigger] final(self).nodes@[base + i],
                ),
    {
        let ghost n0 = self.nodes@;
        let mut count: usize = 0;
        let ghost mut set = Set::<int>::empty();
        let mut i: usize = 0;
        while i < needed.len()
            invariant
                i <= needed@.len(),
                n0 == old(self).nodes@,
                n0.len() == base + needed@.len(),
                base + needed@.len() <= MAX_NODES,
                parent.idx() < base,
                forall|i: int|
                    0 <= i < needed@.len() ==> (#[trigger] n0[base + i]).waiters@
                        == Seq::<NodeId>::empty(),
                self.unresolved == old(self).unresolved,
                self.dynamic_expansions == old(self).dynamic_expansions,
                self.bindings == old(self).bindings,
                self.nodes@.len() == n0.len(),
                forall|x: int| 0 <= x < base ==> #[trigger] self.nodes@[x] == n0[x],
                forall|j: int|
                    0 <= j < i ==> hung(
                        parent,
                        needed@[j],
                        n0[base + j],
                        #[trigger] self.nodes@[base + j],
                    ),
                forall|j: int|
                    i <= j < needed@.len() ==> #[trigger] self.nodes@[base + j] == n0[base + j],
                set.finite(),
                set.len() == count <= i,
                forall|x: int| #[trigger]
                    set.contains(x) <==> (base <= x < base + i && !needed@[x - base]),
            decreases needed@.len() - i,
        {
            let ghost n1 = self.nodes@;
            if !needed[i] {
                self.nodes[base + i].waiters.push(parent);
                count = count + 1;
                proof {
                    assert(!set.contains(base + i));
                    set = set.insert(base + i);
                    assert(self.nodes@[base + i].waiters@ =~= seq![parent]);
                }
            }
            proof {
                assert forall|j: int| 0 <= j < i + 1 implies hung(
                    parent,
                    needed@[j],
                    n0[base + j],
                    #[trigger] self.nodes@[base + j],
                ) by {
                    if j < i {
                        assert(self.nodes@[base + j] == n1[base + j]);
                    } else {
                        assert(n1[base + i] == n0[base + i]);
                    }
                }
                assert forall|j: int| i + 1 <= j < needed@.len() implies #[trigger] self.nodes@[base
                    + j] == n0[base + j] by {
                    assert(self.nodes@[base + j] == n1[base + j]);
                }
            }
            i = i + 1;
        }
        proof {
            let full = Set::new(|x: int| base <= x < base + needed@.len() && !needed@[x - base]);
            assert(set =~= full);
        }
        let index = parent.index();
        let ghost n2 = self.nodes@;
        self.nodes[index].state = NodeState::Waiting;
        self.nodes[index].task = next;
        self.nodes[index].waiting_remaining = count;
        proof {
            assert forall|j: int| 0 <= j < needed@.len() implies hung(
                parent,
                needed@[j],
                n0[base + j],
                #[trigger] self.nodes@[base + j],
            ) by {
                assert(self.nodes@[base + j] == n2[base + j]);
            }
        }
    }

    /// The new nodes that depend on a broken node.
    fn doomed_nodes(&self, base: usize, lists: &Vec<Vec<u64>>, Ghost(m): Ghost<GraphModel>, Ghost(exp): Ghost<Seq<LocalNode>>, Ghost(parent): Ghost<int>) -> (ids: Vec<NodeId>)
        requires
            m.shape(),
            install::admissible(m, parent, exp),
            expansion::well_ordered(exp),
            base == m.nodes.len(),
            base <= self.nodes@.len(),
            lists@.len() == exp.len(),
            forall|i: int| 0 <= i < exp.len() ==> resolved(m, exp, i, #[trigger] lists@[i]),
            forall|x: int|
                m.has(x) ==> (#[trigger] self.nodes@[x]).state.broken() == m.state(x).broken(),
        ensures
            node::id_set(ids@) == install::doomed(m, exp),
            node::distinct(ids@),
    {
        let mut ids: Vec<NodeId> = Vec::new();
        let mut i: usize = 0;
        while i < lists.len()
            invariant
                i <= lists@.len(),
                m.shape(),
                install::admissible(m, parent, exp),
                expansion::well_ordered(exp),
                base == m.nodes.len(),
                base <= self.nodes@.len(),
                lists@.len() == exp.len(),
                forall|i: int| 0 <= i < exp.len() ==> resolved(m, exp, i, #[trigger] lists@[i]),
                forall|x: int|
                    m.has(x) ==> (#[trigger] self.nodes@[x]).state.broken() == m.state(x).broken(),
                node::distinct(ids@),
                forall|x: int| #[trigger]
                    node::id_set(ids@).contains(x) <==> (x < base + i && install::doomed(
                        m,
                        exp,
                    ).contains(x)),
            decreases lists@.len() - i,
        {
            let ghost list = lists@[i as int]@;
            proof {
                assert(resolved(m, exp, i as int, lists@[i as int]));
            }
            let mut broken = false;
            let mut k: usize = 0;
            while k < lists[i].len()
                invariant
                    i < lists@.len(),
                    k <= lists@[i as int]@.len(),
                    list == lists@[i as int]@,
                    m.shape(),
                    install::admissible(m, parent, exp),
                    expansion::well_ordered(exp),
                    base == m.nodes.len(),
                    base <= self.nodes@.len(),
                    lists@.len() == exp.len(),
                    resolved(m, exp, i as int, lists@[i as int]),
                    forall|x: int|
                        m.has(x) ==> (#[trigger] self.nodes@[x]).state.broken() == m.state(
                            x,
                        ).broken(),
                    broken <==> exists|j: int|
                        0 <= j < k && #[trigger] list[j] < base && m.state(list[j] as int).broken(),
                decreases lists@[i as int]@.len() - k,
            {
                let g = lists[i][k];
                proof {
                    assert(list[k as int] == g);
                }
                if g < base as u64 && self.nodes[g as usize].state.is_broken() {
                    broken = true;
                }
                k = k + 1;
            }
            let id = NodeId((base + i) as u32);
            proof {
                let x = base + i;
                if broken {
                    let j = choose|j: int|
                        0 <= j < k && #[trigger] list[j] < base && m.state(list[j] as int).broken();
                    assert(list.contains(list[j]));
                    assert(install::needs(m, exp, x - m.nodes.len(), list[j] as int));
                    assert(install::doomed(m, exp).contains(x));
                }
                if install::doomed(m, exp).contains(x) {
                    let g = choose|g: int|
                        0 <= g < m.nodes.len() && m.state(g).broken() && #[trigger] install::needs(
                            m,
                            exp,
                            x - m.nodes.len(),
                            g,
                        );
                    assert(list.contains(g as u64));
                    let j = choose|j: int| 0 <= j < list.len() && list[j] == g as u64;
                    assert(list[j] < base);
                }
                node::lemma_id_set_push(ids@, id);
                assert(!node::id_set(ids@).contains(x));
            }
            if broken {
                ids.push(id);
            }
            i = i + 1;
        }
        proof {
            assert(node::id_set(ids@) =~= install::doomed(m, exp));
        }
        ids
    }

    /// Attaches an expansion to its running parent, breaks what depends on
    /// broken nodes, and releases what can run.
    fn install_expansion(
        &mut self,
        parent: NodeId,
        expansion: GraphExpansion,
        next: Option<Task>,
    ) -> (result: Result<Vec<ReadyTask>, GraphError>)
        requires
            old(self).inv(),
            old(self)@.has(parent.idx()),
            old(self)@.state(parent.idx()) is Running,
            expansion.inv(),
            expansion@.len() > 0,
        ensures
            final(self).inv(),
            effect::expand_effect(
                old(self)@,
                final(self)@,
                parent,
                expansion@,
                next,
                result,
            ),
    {
        let ghost m = self@;
        let ghost exp = expansion@;
        let ghost n0 = self.nodes@;
        let ghost p = parent.idx();
        let nodes = expansion.into_nodes();
        let base = self.nodes.len();
        let count = nodes.len();
        proof {
            assert(local_nodes(nodes@) == exp);
        }
        if base as u64 > MAX_NODES - 1 || count as u64 > MAX_NODES - base as u64 {
            return Err(GraphError::TooManyNodes);
        }
        match self.check_bindings(&nodes) {
            Ok(_) => {},
            Err(error) => {
                return Err(error);
            },
        }
        let reach = self.completion_dependents_of(parent);
        let lists = match self.resolve_dependencies(&nodes, &reach, Ghost(p)) {
            Ok(lists) => lists,
            Err(error) => {
                return Err(error);
            },
        };
        let ghost mid = install::installed(m, p, exp, next);
        proof {
            assert forall|x: int| m.has(x) implies #[trigger] m.nodes[x] == n0[x].model() by {}
            install::lemma_installed(m, p, exp, next);
        }
        self.append_nodes(nodes, &lists, true, Ghost(p));
        let ghost n1 = self.nodes@;
        proof {
            assert forall|x: int| m.has(x) implies (#[trigger] n1[x]).state == m.state(x) by {
                assert(m.nodes[x] == n0[x].model());
            }
        }
        self.link_dependents(base, &lists, Ghost(m), Ghost(exp), Ghost(p));
        let ghost n2 = self.nodes@;
        let needed = Self::needed_nodes(&lists, base, Ghost(m), Ghost(exp), Ghost(p));
        proof {
            assert forall|i: int| 0 <= i < needed@.len() implies (#[trigger] n2[base + i]).waiters@
                == Seq::<NodeId>::empty() by {
                assert(fresh(m, exp, true, i, n1[base + i]));
                assert(linked(m, exp, exp.len(), base + i, n1[base + i], n2[base + i]));
            }
        }
        self.attach_leaves(parent, base, &needed, next);
        let ghost n3 = self.nodes@;
        proof {
            lemmas::lemma_finite(m);
            vstd::set_lib::lemma_int_range(base as int, base + count);
            let fresh_set = vstd::set_lib::set_int_range(base as int, base + count);
            assert(mid.open_nodes() =~= m.open_nodes().union(fresh_set)) by {
                assert forall|x: int| mid.open_nodes().contains(x) == m.open_nodes().union(
                    fresh_set,
                ).contains(x) by {
                    if m.has(x) {
                        assert(mid.nodes[x] == install::installed_node(m, p, exp, next, x));
                    }
                }
            }
            assert(m.open_nodes().disjoint(fresh_set));
            vstd::set_lib::lemma_set_disjoint_lens(m.open_nodes(), fresh_set);
            lemmas::lemma_finite(mid);
            assert(mid.open_nodes().len() == self.unresolved + count);
            assert(mid.nodes.len() == self.nodes@.len());
            assert(self.nodes.len() as nat == self.nodes@.len());
        }
        self.unresolved = self.unresolved + count;
        if self.dynamic_expansions < usize::MAX {
            self.dynamic_expansions = self.dynamic_expansions + 1;
        }
        proof {
            assert forall|x: int| 0 <= x < mid.nodes.len() implies #[trigger] self@.nodes[x]
                == mid.nodes[x] by {
                assert(self@.nodes[x] == n3[x].model());
                assert(linked(m, exp, exp.len(), x, n1[x], n2[x]));
                if x < base {
                    assert(m.nodes[x] == n0[x].model());
                    assert(n1[x] == n0[x]);
                    assert(self@.nodes[x] =~= mid.nodes[x]);
                } else {
                    let i = x - base;
                    assert(n1[base + i] == n1[x]);
                    assert(fresh(m, exp, true, i, n1[base + i]));
                    assert(n3[base + i] == n3[x]);
                    assert(hung(parent, needed@[i], n2[base + i], n3[base + i]));
                    assert(node::indices(n1[x].dependents@) =~= Seq::<int>::empty());
                    assert(Seq::<int>::empty() + install::gained(m, exp, x, exp.len())
                        =~= install::gained(m, exp, x, exp.len()));
                    if needed@[i] {
                        assert(node::indices(n3[x].waiters@) =~= Seq::<int>::empty());
                    } else {
                        assert(node::indices(n3[x].waiters@) =~= seq![p]);
                    }
                    assert(self@.nodes[x] =~= mid.nodes[x]);
                }
            }
            assert(self@.nodes =~= mid.nodes);
            assert(self@ =~= mid);
            assert forall|d: int| mid.has(d) implies (
            #[trigger] self.nodes@[d]).remaining_dependencies == mid.blockers(d).len() by {
                assert(linked(m, exp, exp.len(), d, n1[d], n2[d]));
                if d < base {
                    assert(n1[d] == n0[d]);
                    assert(mid.blockers(d) == m.blockers(d));
                    assert(n0[d].remaining_dependencies == m.blockers(d).len());
                } else {
                    let i = d - base;
                    assert(fresh(m, exp, true, i, n1[base + i]));
                    assert(hung(parent, needed@[i], n2[base + i], n3[base + i]));
                    assert(mid.blockers(base + i) == Set::new(
                        |g: int| install::live(m, exp, i, g),
                    ));
                }
            }
            assert forall|w: int|
                mid.has(w) && #[trigger] mid.state(w) is Waiting && w != -1 implies self.nodes@[w].waiting_remaining
                == mid.leaves(w).len() by {
                assert(linked(m, exp, exp.len(), w, n1[w], n2[w]));
                if w == p {
                    install::lemma_installed_edges(m, p, exp, next);
                    let leaves = Set::new(
                        |x: int| base <= x < base + needed@.len() && !needed@[x - base],
                    );
                    assert(mid.leaves(p) =~= leaves) by {
                        assert forall|x: int| mid.leaves(p).contains(x) == leaves.contains(x) by {
                            assert(!m.waits_for(p, x));
                            if base <= x < base + exp.len() {
                                assert(needed@[x - base] <==> !install::leaf(m, exp, x - base));
                            }
                        }
                    }
                } else {
                    assert(m.state(w) is Waiting);
                    assert(n1[w] == n0[w]);
                    assert(mid.leaves(w) == m.leaves(w));
                }
            }
            assert(self.counted_but(-1));
            assert forall|x: int| m.has(x) implies (#[trigger] self.nodes@[x]).state.broken()
                == m.state(x).broken() by {
                assert(self@.nodes[x] == self.nodes@[x].model());
                assert(mid.nodes[x] == install::installed_node(m, p, exp, next, x));
            }
        }
        let doomed = self.doomed_nodes(base, &lists, Ghost(m), Ghost(exp), Ghost(p));
        self.break_nodes(doomed, NodeState::Cancelled);
        let ready = self.release_from(base);
        Ok(ready)
    }

    /// Records how the run of a node has ended and hands out what can run now.
    pub fn finish(&mut self, id: NodeId, run: TaskRun) -> (result: Result<
        Vec<ReadyTask>,
        GraphError,
    >)
        requires
            old(self).inv(),
            run matches TaskRun::Expand { expansion, .. } ==> expansion.inv(),
        ensures
            final(self).inv(),
            effect::run_effect(old(self)@, final(self)@, id, run, result),
    {
        let index = id.index();
        if index >= self.nodes.len() || self.nodes[index].state != NodeState::Running {
            return Err(GraphError::NotRunning { node: index });
        }
        match run {
            TaskRun::Succeeded => Ok(self.finish_succeeded(id)),
            TaskRun::Failed { .. } => {
                self.finish_broken(id, NodeState::Failed);
                Ok(Vec::new())
            },
            TaskRun::Cancelled => {
                self.finish_broken(id, NodeState::Cancelled);
                Ok(Vec::new())
            },
            TaskRun::Continue { task } => Ok(self.continue_with(id, task)),
            TaskRun::Expand { expansion, next } => {
                if expansion.is_empty() {
                    match next {
                        Some(task) => Ok(self.continue_with(id, task)),
                        None => Ok(self.finish_succeeded(id)),
                    }
                } else {
                    self.install_expansion(id, expansion, next)
                }
            },
        }
    }

    /// Ends a running node without success.
    fn finish_broken(&mut self, id: NodeId, end: NodeState)
        requires
            old(self).inv(),
            old(self)@.has(id.idx()),
            old(self)@.state(id.idx()) is Running,
            end is Failed || end is Cancelled,
        ensures
            final(self).inv(),
            final(self)@ == model::after_failure(old(self)@, set![id.idx()], end),
    {
        let mut sources: Vec<NodeId> = Vec::new();
        sources.push(id);
        proof {
            node::lemma_id_set_push(Seq::empty(), id);
            assert(sources@ =~= Seq::empty().push(id));
            assert(node::id_set(Seq::empty()) =~= Set::empty());
            assert(node::id_set(sources@) =~= set![id.idx()]);
        }
        self.break_nodes(sources, end);
    }

    /// Makes a running node ready for another task.
    fn continue_with(&mut self, id: NodeId, task: Task) -> (ready: Vec<ReadyTask>)
        requires
            old(self).inv(),
            old(self)@.has(id.idx()),
            old(self)@.state(id.idx()) is Running,
        ensures
            final(self).inv(),
            effect::continue_effect(old(self)@, final(self)@, id, task, ready@),
    {
        let index = id.index();
        let ghost m = self@;
        self.nodes[index].state = NodeState::Ready;
        self.nodes[index].task = None;
        self.nodes[index].continuation = true;
        let mut ready: Vec<ReadyTask> = Vec::new();
        ready.push(ReadyTask { id, task, continuation: true });
        proof {
            let n = self@;
            assert(n =~= effect::continued(m, id.idx()));
            assert forall|i: int| m.has(i) implies ((#[trigger] n.state(i)) is Succeeded
                <==> m.state(i) is Succeeded) && (n.state(i).terminal() <==> m.state(
                i,
            ).terminal()) by {}
            lemmas::lemma_light_change(m, n);
            assert(ready@ =~= seq![ReadyTask { id, task, continuation: true }]);
        }
        ready
    }

    /// The graph of a list of nodes that depend on earlier nodes of the list.
    pub(crate) fn from_nodes(nodes: Vec<ExpansionNode>) -> (graph: TaskGraph)
        requires
            install::plain(local_nodes(nodes@)),
            expansion::well_ordered(local_nodes(nodes@)),
            nodes@.len() <= MAX_NODES,
        ensures
            graph.inv(),
            graph@ == install::built(local_nodes(nodes@)),
    {
        let ghost exp = local_nodes(nodes@);
        let ghost e = install::empty_graph();
        let mut lists: Vec<Vec<u64>> = Vec::new();
        let mut i: usize = 0;
        while i < nodes.len()
            invariant
                i <= nodes@.len(),
                exp == local_nodes(nodes@),
                e == install::empty_graph(),
                install::plain(exp),
                expansion::well_ordered(exp),
                lists@.len() == i,
                forall|j: int| 0 <= j < i ==> resolved(e, exp, j, #[trigger] lists@[j]),
            decreases nodes@.len() - i,
        {
            let list = nodes[i].dependencies.clone();
            proof {
                assert(exp[i as int] == nodes@[i as int].local());
                assert(list@ =~= exp[i as int].dependencies);
                assert forall|g: u64| #[trigger] list@.contains(g) <==> install::needs(
                    e,
                    exp,
                    i as int,
                    g as int,
                ) by {
                    if list@.contains(g) {
                        assert(exp[i as int].dependencies.contains(g));
                    }
                    if install::needs(e, exp, i as int, g as int) {
                        assert(exp[i as int].tokens.len() == 0);
                    }
                }
            }
            lists.push(list);
            i = i + 1;
        }
        let count = nodes.len();
        let mut graph = TaskGraph {
            nodes: Vec::new(),
            unresolved: count,
            dynamic_expansions: 0,
            bindings: std::collections::HashMap::new(),
        };
        proof {
            assert(graph@ =~= e);
            install::lemma_plain_admissible(exp);
        }
        graph.append_nodes(nodes, &lists, false, Ghost(0));
        let ghost n1 = graph.nodes@;
        graph.link_dependents(0, &lists, Ghost(e), Ghost(exp), Ghost(0));
        proof {
            let b = install::built(exp);
            let n2 = graph.nodes@;
            assert forall|x: int| 0 <= x < exp.len() implies #[trigger] graph@.nodes[x]
                == b.nodes[x] by {
                assert(n1[0 + x] == n1[x]);
                assert(fresh(e, exp, false, x, n1[0 + x]));
                assert(linked(e, exp, exp.len(), x, n1[x], n2[x]));
                assert(node::indices(n1[x].dependents@) =~= Seq::<int>::empty());
                assert(Seq::<int>::empty() + install::gained(e, exp, x, exp.len())
                    =~= install::gained(e, exp, x, exp.len()));
                assert(node::indices(n2[x].waiters@) =~= Seq::<int>::empty());
                assert(graph@.nodes[x] =~= b.nodes[x]);
            }
            assert(graph@.nodes =~= b.nodes);
            assert(graph@.bindings =~= b.bindings) by {
                assert forall|t: u64| !graph@.bindings.contains_key(t) by {
                    if install::bound_locally(exp, t) {
                        let k = choose|k: int| install::bound_at(exp, t, k);
                        assert(exp[k].binding is None);
                    }
                }
            }
            assert(graph@ =~= b);
            install::lemma_built(exp);
            assert forall|d: int| b.has(d) implies (
            #[trigger] graph.nodes@[d]).remaining_dependencies == b.blockers(d).len() by {
                assert(n1[0 + d] == n1[d]);
                assert(fresh(e, exp, false, d, n1[0 + d]));
                assert(linked(e, exp, exp.len(), d, n1[d], n2[d]));
                assert(b.blockers(d) == Set::new(|g: int| install::live(e, exp, d, g)));
            }
        }
        graph
    }
}

/// The nodes of an expansion as plain values.
pub open spec fn local_nodes(nodes: Seq<ExpansionNode>) -> Seq<LocalNode> {
    nodes.map_values(|node: ExpansionNode| node.local())
}

/// A list names what new node `i` depends on.
pub open spec fn resolved(m: GraphModel, exp: Seq<LocalNode>, i: int, list: Vec<u64>) -> bool {
    &&& sorted::ascending(list@)
    &&& forall|g: u64| #[trigger] list@.contains(g) <==> install::needs(m, exp, i, g as int)
}

/// A node as it is appended.
pub open spec fn fresh(
    m: GraphModel,
    exp: Seq<LocalNode>,
    continuation: bool,
    i: int,
    node: TaskNode,
) -> bool {
    &&& node.task == Some(exp[i].task)
    &&& node.state is Pending
    &&& node.remaining_dependencies == Set::new(|g: int| install::live(m, exp, i, g)).len()
    &&& node.dependents@ == Seq::<NodeId>::empty()
    &&& node.waiters@ == Seq::<NodeId>::empty()
    &&& node.continuation == continuation
}

/// Node `x` with the first `j` new nodes added to its dependents.
pub open spec fn linked(
    m: GraphModel,
    exp: Seq<LocalNode>,
    j: nat,
    x: int,
    before: TaskNode,
    after: TaskNode,
) -> bool {
    &&& after == (TaskNode { dependents: after.dependents, ..before })
    &&& node::indices(after.dependents@) == node::indices(before.dependents@) + install::gained(
        m,
        exp,
        x,
        j,
    )
}

/// A new node, waited for by the parent unless another new node needs it.
pub open spec fn hung(parent: NodeId, needed: bool, before: TaskNode, after: TaskNode) -> bool {
    &&& after == (TaskNode { waiters: after.waiters, ..before })
    &&& after.waiters@ == (if needed {
        Seq::<NodeId>::empty()
    } else {
        seq![parent]
    })
}

/// The flags that are still down.
spec fn unflagged(flags: Seq<bool>) -> Set<int> {
    Set::new(|x: int| 0 <= x < flags.len() && !flags[x])
}

/// Raising a flag leaves one fewer.
proof fn lemma_flag(flags: Seq<bool>, x: int)
    requires
        0 <= x < flags.len(),
        !flags[x],
    ensures
        unflagged(flags.update(x, true)).len() < unflagged(flags).len(),
{
    let s = unflagged(flags);
    vstd::set_lib::lemma_int_range(0, flags.len() as int);
    vstd::set_lib::lemma_set_subset_finite(vstd::set_lib::set_int_range(0, flags.len() as int), s);
    assert(s.contains(x));
    assert(unflagged(flags.update(x, true)) =~= s.remove(x));
}

/// The first of the first `limit` nodes that is bound to a token.
fn local_binding(nodes: &Vec<ExpansionNode>, token: u64, limit: usize) -> (found: Option<usize>)
    requires
        limit <= nodes@.len(),
    ensures
        match found {
            Some(k) => k < limit && install::bound_at(local_nodes(nodes@), token, k as int),
            None => forall|k: int|
                k < limit ==> !(#[trigger] install::bound_at(local_nodes(nodes@), token, k)),
        },
{
    let mut k: usize = 0;
    while k < limit
        invariant
            k <= limit <= nodes@.len(),
            forall|j: int|
                j < k ==> !(#[trigger] install::bound_at(local_nodes(nodes@), token, j)),
        decreases limit - k,
    {
        proof {
            assert(local_nodes(nodes@)[k as int] == nodes@[k as int].local());
        }
        if let Some(bound) = nodes[k].binding {
            if bound.0 == token {
                return Some(k);
            }
        }
        k = k + 1;
    }
    None
}

} // verus!
