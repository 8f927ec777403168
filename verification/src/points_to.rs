//! The points-to graph: which storage locations may alias or derive from
//! which others.

use crate::digraph::dfs_bound;
use crate::digraph::dfs_new;
use crate::digraph::dfs_next;
use crate::digraph::dfs_pending;
use crate::digraph::graph_add_edge;
use crate::digraph::graph_add_node;
use crate::digraph::graph_edges;
use crate::digraph::graph_new;
use crate::digraph::graph_nodes;
use crate::digraph::graph_out_edge;
use crate::digraph::graph_remove_edge;
use crate::digraph::VarGraph;
use crate::reach::image;
use crate::reach::lemma_reaches_image;
use crate::reach::lemma_reaches_mono;
use crate::reach::lemma_reaches_needs_edge;
use crate::reach::lemma_reaches_self;
use crate::reach::lemma_reaches_step;
use crate::reach::lemma_reaches_without;
use crate::reach::without_source;
use crate::reach::lemma_reaches_preimage;
use crate::reach::reaches;
use std::collections::HashMap;
use vstd::prelude::*;

verus! {

broadcast use vstd::std_specs::hash::group_hash_axioms;

/// What a points-to graph holds: the registered variables and the edges
/// between them. An edge `(a, b)` says that `a` may alias or derive from the
/// storage of `b`.
pub struct AliasGraph {
    pub nodes: Set<u32>,
    pub edges: Set<(u32, u32)>,
}

impl AliasGraph {
    /// The graph without nodes.
    pub open spec fn empty() -> AliasGraph {
        AliasGraph { nodes: Set::empty(), edges: Set::empty() }
    }

    /// Every edge joins two registered variables.
    pub open spec fn closed_under_edges(self) -> bool {
        forall|e: (u32, u32)| #[trigger]
            self.edges.contains(e) ==> self.nodes.contains(e.0) && self.nodes.contains(e.1)
    }

    /// The graph after `a` was registered.
    pub open spec fn with_node(self, a: u32) -> AliasGraph {
        AliasGraph { nodes: self.nodes.insert(a), edges: self.edges }
    }

    /// The graph after `a` received a fresh value: `a` is registered and no
    /// edge leaves it; edges that enter it stay.
    pub open spec fn with_fresh(self, a: u32) -> AliasGraph {
        AliasGraph {
            nodes: self.nodes.insert(a),
            edges: without_source(self.edges, a),
        }
    }

    /// The graph after `a` was made to point to `b`: both are registered and
    /// the edge from `a` to `b` is there, beside all earlier edges.
    pub open spec fn with_edge(self, a: u32, b: u32) -> AliasGraph {
        AliasGraph { nodes: self.nodes.insert(a).insert(b), edges: self.edges.insert((a, b)) }
    }

    /// The targets of the edges that leave `a`.
    pub open spec fn targets(self, a: u32) -> Set<u32> {
        Set::new(|b: u32| self.edges.contains((a, b)))
    }

    /// `a` and `b` may alias: some variable can be reached from both, each
    /// variable counting as reachable from itself.
    pub open spec fn may_alias(self, a: u32, b: u32) -> bool {
        exists|n: u32| #[trigger] reaches(self.edges, a, n) && reaches(self.edges, b, n)
    }
}

/// Aliasing does not depend on the order of the two variables.
pub proof fn lemma_alias_symmetric(g: AliasGraph, a: u32, b: u32)
    ensures
        g.may_alias(a, b) == g.may_alias(b, a),
{
    if g.may_alias(a, b) {
        let n = choose|n: u32| #[trigger] reaches(g.edges, a, n) && reaches(g.edges, b, n);
        assert(reaches(g.edges, b, n) && reaches(g.edges, a, n));
    }
    if g.may_alias(b, a) {
        let n = choose|n: u32| #[trigger] reaches(g.edges, b, n) && reaches(g.edges, a, n);
        assert(reaches(g.edges, a, n) && reaches(g.edges, b, n));
    }
}

/// A fresh value leaves no edge behind that leaves the variable, and a
/// second fresh value right after the first changes nothing.
pub proof fn lemma_fresh_idempotent(g: AliasGraph, a: u32)
    ensures
        g.with_fresh(a).targets(a) == Set::<u32>::empty(),
        g.with_fresh(a).with_fresh(a) == g.with_fresh(a),
        g.with_fresh(a).with_fresh(a).targets(a) == Set::<u32>::empty(),
{
    let once = g.with_fresh(a);
    let twice = once.with_fresh(a);
    assert(once.targets(a) =~= Set::<u32>::empty());
    assert(twice.nodes =~= once.nodes);
    assert(twice.edges =~= once.edges);
}

/// Right after `a` received a fresh value, the only node reached from `a`
/// is `a`, so `a` aliases exactly the variables that reach it; and these
/// are the variables that reached it before.
pub proof fn lemma_fresh_aliases(g: AliasGraph, a: u32, x: u32)
    ensures
        forall|n: u32| reaches(g.with_fresh(a).edges, a, n) ==> n == a,
        g.with_fresh(a).may_alias(a, x) == reaches(g.with_fresh(a).edges, x, a),
        g.with_fresh(a).may_alias(a, x) == reaches(g.edges, x, a),
{
    let fresh = g.with_fresh(a);
    assert forall|n: u32| reaches(fresh.edges, a, n) implies n == a by {
        if n != a {
            lemma_reaches_needs_edge(fresh.edges, a, n);
        }
    }
    if fresh.may_alias(a, x) {
        let n = choose|n: u32| #[trigger] reaches(fresh.edges, a, n) && reaches(fresh.edges, x, n);
        assert(n == a);
    }
    if reaches(fresh.edges, x, a) {
        lemma_reaches_self(fresh.edges, a);
        assert(reaches(fresh.edges, a, a) && reaches(fresh.edges, x, a));
        lemma_reaches_mono(fresh.edges, g.edges, x, a);
    }
    if reaches(g.edges, x, a) {
        lemma_reaches_without(g.edges, x, a);
        assert(without_source(g.edges, a) =~= fresh.edges);
    }
}

/// Right after `a` received a fresh value, `a` does not alias a variable `x`
/// that was tied to it only by edges that left `a`: one from which `a`
/// could not be reached.
pub proof fn lemma_fresh_severs(g: AliasGraph, a: u32, x: u32)
    requires
        !reaches(g.edges, x, a),
    ensures
        !g.with_fresh(a).may_alias(a, x),
        !g.with_fresh(a).may_alias(x, a),
{
    lemma_fresh_aliases(g, a, x);
    lemma_alias_symmetric(g.with_fresh(a), a, x);
}

/// Two variables that point to the same third one alias.
pub proof fn lemma_common_target(g: AliasGraph, a: u32, b: u32, c: u32)
    requires
        g.edges.contains((a, c)),
        g.edges.contains((b, c)),
    ensures
        g.may_alias(a, b),
{
    lemma_reaches_self(g.edges, a);
    lemma_reaches_self(g.edges, b);
    lemma_reaches_step(g.edges, a, a, c);
    lemma_reaches_step(g.edges, b, b, c);
    assert(reaches(g.edges, a, c) && reaches(g.edges, b, c));
}

/// An alias query named a variable that was never registered.
#[derive(Clone, Copy, Debug, PartialEq, Eq)]
pub struct NotTracked {
    pub variable: u32,
}

/// A points-to graph over the storage locations of one frame.
pub struct PointsToGraph {
    graph: VarGraph,
    variables: HashMap<u32, usize>,
}

/// The variable at node `i` of a graph whose nodes carry `weights`.
pub open spec fn variable_at(weights: Seq<u32>) -> spec_fn(int) -> u32 {
    |i: int| weights[i]
}

impl View for PointsToGraph {
    type V = AliasGraph;

    closed spec fn view(&self) -> AliasGraph {
        AliasGraph {
            nodes: self.variables@.dom(),
            edges: image(graph_edges(self.graph).to_set(), variable_at(graph_nodes(self.graph))),
        }
    }
}

/// Whether `needle` occurs in `haystack`.
fn holds(haystack: &Vec<usize>, needle: usize) -> (found: bool)
    ensures
        found == haystack@.contains(needle),
{
    let mut i: usize = 0;
    while i < haystack.len()
        invariant
            i <= haystack.len(),
            forall|j: int| 0 <= j < i ==> haystack@[j] != needle,
        decreases haystack.len() - i,
    {
        if haystack[i] == needle {
            return true;
        }
        i += 1;
    }
    false
}

/// A vector of indices and a sequence of integers that agree item by item
/// hold the same items.
proof fn lemma_same_items(v: Seq<usize>, s: Seq<int>, x: usize)
    requires
        v.len() == s.len(),
        forall|i: int| 0 <= i < v.len() ==> v[i] == s[i],
    ensures
        v.contains(x) <==> s.contains(x as int),
{
    if v.contains(x) {
        let i = choose|i: int| 0 <= i < v.len() && v[i] == x;
        assert(s[i] == x as int);
    }
    if s.contains(x as int) {
        let i = choose|i: int| 0 <= i < s.len() && s[i] == x as int;
        assert(v[i] == x);
    }
}

/// Removing an edge by moving the last one into its place loses at most that
/// edge.
proof fn lemma_swap_remove<T>(s: Seq<T>, e: int)
    requires
        0 <= e < s.len(),
    ensures
        forall|p: T| #[trigger] s.update(e, s.last()).drop_last().contains(p) ==> s.contains(p),
        forall|p: T| #[trigger] s.contains(p) && p != s[e] ==> s.update(e, s.last()).drop_last().contains(p),
{
    let t = s.update(e, s.last()).drop_last();
    assert forall|p: T| #[trigger] t.contains(p) implies s.contains(p) by {
        let i = choose|i: int| 0 <= i < t.len() && t[i] == p;
        if i == e {
            assert(s[s.len() - 1] == p);
        } else {
            assert(s[i] == p);
        }
    }
    assert forall|p: T| #[trigger] s.contains(p) && p != s[e] implies t.contains(p) by {
        let i = choose|i: int| 0 <= i < s.len() && s[i] == p;
        if i == s.len() - 1 {
            assert(t[e] == p);
        } else {
            assert(t[i] == p);
        }
    }
}

impl PointsToGraph {
    /// The invariant that ties the graph to the table of its variables:
    /// each registered variable has one node, which carries it, each node
    /// belongs to one registered variable, and edges join nodes.
    pub closed spec fn wf(&self) -> bool {
        let weights = graph_nodes(self.graph);
        let edges = graph_edges(self.graph);
        &&& forall|v: u32| #[trigger]
            self.variables@.contains_key(v) ==> self.variables@[v] < weights.len()
                && weights[self.variables@[v] as int] == v
        &&& forall|i: int|
            0 <= i < weights.len() ==> self.variables@.contains_key(#[trigger] weights[i])
                && self.variables@[weights[i]] == i
        &&& forall|e: int|
            0 <= e < edges.len() ==> 0 <= (#[trigger] edges[e]).0 < weights.len() && 0
                <= edges[e].1 < weights.len()
    }

    /// The index of the node that carries `a`.
    pub closed spec fn node_of(&self, a: u32) -> usize {
        self.variables@[a]
    }

    /// In a well-formed graph every edge joins two registered variables, and
    /// two registered variables have different nodes.
    pub proof fn lemma_wf(&self)
        requires
            self.wf(),
        ensures
            self@.closed_under_edges(),
            self@.nodes.finite(),
            forall|a: u32, b: u32|
                self@.nodes.contains(a) && self@.nodes.contains(b) && #[trigger] self.node_of(a)
                    == #[trigger] self.node_of(b) ==> a == b,
    {
        let weights = graph_nodes(self.graph);
        let edges = graph_edges(self.graph);
        assert forall|p: (u32, u32)| #[trigger] self@.edges.contains(p) implies self@.nodes.contains(
            p.0,
        ) && self@.nodes.contains(p.1) by {
            let e = choose|e: (int, int)| #[trigger]
                edges.to_set().contains(e) && p == (
                    variable_at(weights)(e.0),
                    variable_at(weights)(e.1),
                );
            let k = choose|k: int| 0 <= k < edges.len() && edges[k] == e;
            assert(0 <= edges[k].0 < weights.len());
        }
    }

    pub fn new() -> (g: PointsToGraph)
        ensures
            g.wf(),
            g@ == AliasGraph::empty(),
    {
        let g = PointsToGraph { graph: graph_new(), variables: HashMap::new() };
        assert(g@.edges =~= Set::empty());
        assert(g@.nodes =~= Set::empty());
        g
    }

    /// The node that carries `a`, or `NotTracked` when `a` was never
    /// registered.
    pub fn get_variable(&self, a: u32) -> (r: Result<usize, NotTracked>)
        requires
            self.wf(),
        ensures
            match r {
                Ok(node) => self@.nodes.contains(a) && node == self.node_of(a),
                Err(e) => !self@.nodes.contains(a) && e == (NotTracked { variable: a }),
            },
    {
        match self.variables.get(&a) {
            Some(node) => Ok(*node),
            None => Err(NotTracked { variable: a }),
        }
    }

    /// Whether `a` is registered.
    pub fn does_variable_exits(&self, a: u32) -> (exists: bool)
        requires
            self.wf(),
        ensures
            exists == self@.nodes.contains(a),
    {
        match self.variables.get(&a) {
            Some(_variable) => true,
            None => false,
        }
    }

    /// Registers `a` and hands back its node; does nothing to a graph
    /// that holds `a` already.
    fn node_for(&mut self, a: u32) -> (node: usize)
        requires
            old(self).wf(),
        ensures
            final(self).wf(),
            final(self)@ == old(self)@.with_node(a),
            node == final(self).node_of(a),
            node < graph_nodes(final(self).graph).len(),
            graph_nodes(final(self).graph)[node as int] == a,
            graph_edges(final(self).graph) == graph_edges(old(self).graph),
            graph_nodes(old(self).graph).is_prefix_of(graph_nodes(final(self).graph)),
    {
        match self.variables.get(&a) {
            Some(node) => {
                let node = *node;
                assert(self@.nodes =~= old(self)@.nodes.insert(a));
                node
            },
            None => {
                let ghost before = graph_nodes(self.graph);
                let node = graph_add_node(&mut self.graph, a);
                self.variables.insert(a, node);
                proof {
                    let after = graph_nodes(self.graph);
                    assert forall|i: int| 0 <= i < after.len() implies self.variables@.contains_key(
                        #[trigger] after[i],
                    ) && self.variables@[after[i]] == i by {
                        if i < before.len() {
                            assert(old(self).variables@.contains_key(before[i]));
                        }
                    }
                    let edges = graph_edges(self.graph).to_set();
                    assert forall|p: (u32, u32)|
                        image(edges, variable_at(after)).contains(p) == image(
                            edges,
                            variable_at(before),
                        ).contains(p) by {
                        if image(edges, variable_at(after)).contains(p) {
                            let e = choose|e: (int, int)| #[trigger]
                                edges.contains(e) && p == (
                                    variable_at(after)(e.0),
                                    variable_at(after)(e.1),
                                );
                            let k = choose|k: int|
                                0 <= k < graph_edges(self.graph).len() && graph_edges(
                                    self.graph,
                                )[k] == e;
                            assert(edges.contains(e) && p == (
                                variable_at(before)(e.0),
                                variable_at(before)(e.1),
                            ));
                        }
                        if image(edges, variable_at(before)).contains(p) {
                            let e = choose|e: (int, int)| #[trigger]
                                edges.contains(e) && p == (
                                    variable_at(before)(e.0),
                                    variable_at(before)(e.1),
                                );
                            let k = choose|k: int|
                                0 <= k < graph_edges(self.graph).len() && graph_edges(
                                    self.graph,
                                )[k] == e;
                            assert(edges.contains(e) && p == (
                                variable_at(after)(e.0),
                                variable_at(after)(e.1),
                            ));
                        }
                    }
                    assert(self@.edges =~= old(self)@.edges);
                }
                node
            },
        }
    }

    /// Registers `a` if it is not registered yet.
    pub fn ensure(&mut self, a: u32)
        requires
            old(self).wf(),
        ensures
            final(self).wf(),
            final(self)@ == old(self)@.with_node(a),
    {
        let _node = self.node_for(a);
    }

    /// Records that `a` now holds a fresh value that derives from nothing:
    /// registers `a`, or, where it was registered, removes every edge that
    /// leaves it. Edges that enter `a` stay.
    pub fn constant(&mut self, a: u32)
        requires
            old(self).wf(),
        ensures
            final(self).wf(),
            final(self)@ == old(self)@.with_fresh(a),
    {
        let node = self.node_for(a);
        let ghost weights = graph_nodes(self.graph);
        let ghost before = graph_edges(self.graph);
        loop
            invariant
                self.wf(),
                self.variables@.dom() == old(self)@.nodes.insert(a),
                graph_nodes(self.graph) == weights,
                node < weights.len(),
                weights[node as int] == a,
                forall|p: (int, int)| #[trigger]
                    graph_edges(self.graph).contains(p) ==> before.contains(p),
                forall|p: (int, int)| #[trigger]
                    before.contains(p) && p.0 != node ==> graph_edges(self.graph).contains(p),
            ensures
                forall|k: int|
                    0 <= k < graph_edges(self.graph).len() ==> (#[trigger] graph_edges(
                        self.graph,
                    )[k]).0 != node,
            decreases graph_edges(self.graph).len(),
        {
            match graph_out_edge(&self.graph, node) {
                Some(e) => {
                    proof {
                        lemma_swap_remove(graph_edges(self.graph), e as int);
                    }
                    let ghost current = graph_edges(self.graph);
                    graph_remove_edge(&mut self.graph, e);
                    proof {
                        let after = graph_edges(self.graph);
                        assert forall|k: int| 0 <= k < after.len() implies 0 <= (
                        #[trigger] after[k]).0 < weights.len() && 0 <= after[k].1
                            < weights.len() by {
                            assert(after.contains(after[k]));
                            assert(current.contains(after[k]));
                            let j = choose|j: int| 0 <= j < current.len() && current[j] == after[k];
                            assert(0 <= current[j].0 < weights.len());
                        }
                    }
                },
                None => {
                    break ;
                },
            }
        }
        proof {
            let after = graph_edges(self.graph);
            let f = variable_at(weights);
            assert forall|p: (u32, u32)| self@.edges.contains(p) == old(self)@.with_fresh(
                a,
            ).edges.contains(p) by {
                if self@.edges.contains(p) {
                    let e = choose|e: (int, int)| #[trigger]
                        after.to_set().contains(e) && p == (f(e.0), f(e.1));
                    let k = choose|k: int| 0 <= k < after.len() && after[k] == e;
                    assert(after.contains(e));
                    assert(before.contains(e));
                    assert(before.to_set().contains(e));
                    assert(0 <= after[k].0 < weights.len());
                    assert(e.0 != node);
                    assert(p.0 != a) by {
                        if p.0 == a {
                            assert(self.variables@[weights[e.0]] == e.0);
                        }
                    }
                }
                if old(self)@.with_fresh(a).edges.contains(p) {
                    let e = choose|e: (int, int)| #[trigger]
                        before.to_set().contains(e) && p == (f(e.0), f(e.1));
                    assert(before.contains(e));
                    assert(e.0 != node);
                    assert(after.contains(e));
                    assert(after.to_set().contains(e));
                }
            }
            assert(self@.edges =~= old(self)@.with_fresh(a).edges);
        }
    }

    /// Records that `a` may alias or derive from the storage of `b`:
    /// registers both and adds the edge from `a` to `b`. Earlier edges that
    /// leave `a` stay.
    pub fn points_to(&mut self, a: u32, b: u32)
        requires
            old(self).wf(),
        ensures
            final(self).wf(),
            final(self)@ == old(self)@.with_edge(a, b),
    {
        let node = self.node_for(a);
        let ghost earlier = graph_nodes(self.graph);
        let target = self.node_for(b);
        let ghost weights = graph_nodes(self.graph);
        let ghost before = graph_edges(self.graph);
        assert(weights[node as int] == a) by {
            assert(earlier.is_prefix_of(weights));
            assert(weights[node as int] == earlier[node as int]);
        }
        graph_add_edge(&mut self.graph, node, target);
        proof {
            let after = graph_edges(self.graph);
            let f = variable_at(weights);
            assert(after.last() == (node as int, target as int));
            assert forall|p: (u32, u32)| self@.edges.contains(p) == old(self)@.with_edge(
                a,
                b,
            ).edges.contains(p) by {
                if self@.edges.contains(p) {
                    let e = choose|e: (int, int)| #[trigger]
                        after.to_set().contains(e) && p == (f(e.0), f(e.1));
                    let k = choose|k: int| 0 <= k < after.len() && after[k] == e;
                    if k < before.len() {
                        assert(before[k] == e);
                        assert(before.to_set().contains(e));
                    }
                }
                if old(self)@.with_edge(a, b).edges.contains(p) {
                    if p == (a, b) {
                        let e = (node as int, target as int);
                        assert(after[after.len() - 1] == e);
                        assert(after.to_set().contains(e));
                        assert(p == (f(e.0), f(e.1)));
                    } else {
                        let e = choose|e: (int, int)| #[trigger]
                            before.to_set().contains(e) && p == (f(e.0), f(e.1));
                        let k = choose|k: int| 0 <= k < before.len() && before[k] == e;
                        assert(after[k] == e);
                        assert(after.to_set().contains(e));
                    }
                }
            }
            assert(self@.edges =~= old(self)@.with_edge(a, b).edges);
            assert(self@.nodes =~= old(self)@.with_edge(a, b).nodes);
        }
    }

    /// Whether `a` and `b` may alias: whether some node can be reached from
    /// both, along zero or more edges. Fails with `NotTracked` when one of
    /// them was never registered, naming `a` when both were not.
    pub fn are_alias(&self, a: u32, b: u32) -> (r: Result<bool, NotTracked>)
        requires
            self.wf(),
        ensures
            match r {
                Ok(alias) => {
                    &&& self@.nodes.contains(a)
                    &&& self@.nodes.contains(b)
                    &&& alias == self@.may_alias(a, b)
                },
                Err(e) => {
                    &&& !self@.nodes.contains(a) || !self@.nodes.contains(b)
                    &&& e.variable == if self@.nodes.contains(a) {
                        b
                    } else {
                        a
                    }
                },
            },
    {
        let mut nodes_from_a: Vec<usize> = Vec::new();
        let a_node = match self.get_variable(a) {
            Ok(node) => node,
            Err(e) => {
                return Err(e);
            },
        };
        let b_node = match self.get_variable(b) {
            Ok(node) => node,
            Err(e) => {
                return Err(e);
            },
        };
        let ghost edges = graph_edges(self.graph).to_set();

        // every node that can be reached from `a`
        let mut dfs_a = dfs_new(&self.graph, a_node);
        let ghost from_a = dfs_pending(dfs_a, self.graph);
        loop
            invariant
                dfs_bound(dfs_a) == graph_nodes(self.graph).len(),
                nodes_from_a.len() <= from_a.len(),
                dfs_pending(dfs_a, self.graph) == from_a.skip(nodes_from_a.len() as int),
                forall|i: int| 0 <= i < nodes_from_a.len() ==> nodes_from_a@[i] == from_a[i],
            ensures
                nodes_from_a.len() == from_a.len(),
                forall|i: int| 0 <= i < nodes_from_a.len() ==> nodes_from_a@[i] == from_a[i],
            decreases from_a.len() - nodes_from_a.len(),
        {
            match dfs_next(&mut dfs_a, &self.graph) {
                Some(node) => {
                    nodes_from_a.push(node);
                },
                None => {
                    break ;
                },
            }
        }
        // the first of them that can be reached from `b` too
        let mut dfs_b = dfs_new(&self.graph, b_node);
        let ghost from_b = dfs_pending(dfs_b, self.graph);
        let ghost mut seen: int = 0;
        loop
            invariant
                self.wf(),
                self@.nodes.contains(a),
                self@.nodes.contains(b),
                a_node == self.node_of(a),
                b_node == self.node_of(b),
                edges == graph_edges(self.graph).to_set(),
                nodes_from_a.len() == from_a.len(),
                forall|i: int| 0 <= i < nodes_from_a.len() ==> nodes_from_a@[i] == from_a[i],
                forall|n: int| #[trigger] from_a.contains(n) <==> reaches(edges, a_node as int, n),
                forall|n: int| #[trigger] from_b.contains(n) <==> reaches(edges, b_node as int, n),
                dfs_bound(dfs_b) == graph_nodes(self.graph).len(),
                0 <= seen <= from_b.len(),
                dfs_pending(dfs_b, self.graph) == from_b.skip(seen),
                forall|i: int| 0 <= i < seen ==> !from_a.contains(#[trigger] from_b[i]),
            ensures
                forall|i: int| 0 <= i < from_b.len() ==> !from_a.contains(#[trigger] from_b[i]),
            decreases from_b.len() - seen,
        {
            match dfs_next(&mut dfs_b, &self.graph) {
                Some(node) => {
                    assert(from_b[seen] == node);
                    proof {
                        lemma_same_items(nodes_from_a@, from_a, node);
                    }
                    if holds(&nodes_from_a, node) {
                        proof {
                            assert(from_b.contains(node as int));
                            self.lemma_common_node(a, b, node as int);
                        }
                        return Ok(true);
                    }
                    proof {
                        seen = seen + 1;
                    }
                },
                None => {
                    break ;
                },
            }
        }
        proof {
            if self@.may_alias(a, b) {
                let n = self.lemma_alias_node(a, b);
                assert(from_b.contains(n));
                let i = choose|i: int| 0 <= i < from_b.len() && from_b[i] == n;
                assert(!from_a.contains(from_b[i]));
            }
        }
        Ok(false)
    }

    /// A node reached from the nodes of both `a` and `b` makes them aliases.
    proof fn lemma_common_node(&self, a: u32, b: u32, n: int)
        requires
            self.wf(),
            self@.nodes.contains(a),
            self@.nodes.contains(b),
            reaches(graph_edges(self.graph).to_set(), self.node_of(a) as int, n),
            reaches(graph_edges(self.graph).to_set(), self.node_of(b) as int, n),
        ensures
            self@.may_alias(a, b),
    {
        let edges = graph_edges(self.graph).to_set();
        let f = variable_at(graph_nodes(self.graph));
        lemma_reaches_image(edges, f, self.node_of(a) as int, n);
        lemma_reaches_image(edges, f, self.node_of(b) as int, n);
        assert(f(self.node_of(a) as int) == a);
        assert(f(self.node_of(b) as int) == b);
        assert(reaches(self@.edges, a, f(n)) && reaches(self@.edges, b, f(n)));
    }

    /// Two aliases have a node that is reached from the nodes of both.
    proof fn lemma_alias_node(&self, a: u32, b: u32) -> (n: int)
        requires
            self.wf(),
            self@.nodes.contains(a),
            self@.nodes.contains(b),
            self@.may_alias(a, b),
        ensures
            reaches(graph_edges(self.graph).to_set(), self.node_of(a) as int, n),
            reaches(graph_edges(self.graph).to_set(), self.node_of(b) as int, n),
    {
        let weights = graph_nodes(self.graph);
        let edges = graph_edges(self.graph).to_set();
        let f = variable_at(weights);
        let dom = Set::new(|i: int| 0 <= i < weights.len());
        let m = choose|m: u32| #[trigger] reaches(self@.edges, a, m) && reaches(self@.edges, b, m);
        assert(f(self.node_of(a) as int) == a);
        assert(f(self.node_of(b) as int) == b);
        assert forall|e: (int, int)| #[trigger] edges.contains(e) implies dom.contains(e.0)
            && dom.contains(e.1) by {
            let k = choose|k: int|
                0 <= k < graph_edges(self.graph).len() && graph_edges(self.graph)[k] == e;
            assert(0 <= graph_edges(self.graph)[k].0 < weights.len());
        }
        assert forall|x: int, y: int|
            dom.contains(x) && dom.contains(y) && #[trigger] f(x) == #[trigger] f(y) implies x
            == y by {
            assert(self.variables@[weights[x]] == x);
            assert(self.variables@[weights[y]] == y);
        }
        let n = lemma_reaches_preimage(edges, f, dom, self.node_of(a) as int, m);
        let n2 = lemma_reaches_preimage(edges, f, dom, self.node_of(b) as int, m);
        assert(f(n) == f(n2));
        n
    }

} // impl

} // verus!
