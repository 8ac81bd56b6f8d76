//! Dependency graph and initialization ordering.
//!
//! Peripherals depend on one another: a chip-select GPIO must be configured
//! before the SPI device that uses it, an I2C device behind a mux must wait for
//! the mux, and so on. This module models those relationships as a directed
//! graph over peripheral labels and computes a layered initialization order
//! with Kahn's algorithm.

pub mod builder;
pub mod cycle;
pub mod dot;
pub mod sort;
pub mod topo;

pub use builder::build;

use vstd::prelude::*;
use crate::text::{owned, str_eq, lemma_push_contains};
use sort::{views, sort_labels, sorted_of, lemma_sorted_of};



verus! {

/// One node: its label and the indices of the nodes it depends on.
#[derive(Debug, Clone)]
struct Node {
    label: String,
    deps: Vec<usize>,
}

/// A directed dependency graph over peripheral labels.
///
/// An edge from `A` to `B` means "`A` depends on `B`", i.e. `B` must be
/// initialized before `A`.
#[derive(Debug)]
pub struct DepGraph {
    nodes: Vec<Node>,
}

impl Clone for DepGraph {
    /// A copy with the same nodes and the same edges.
    fn clone(&self) -> (r: Self)
        ensures
            r.node_seq() == self.node_seq(),
            forall|i: int, j: int| r.edge(i, j) == self.edge(i, j),
    {
        proof {
            use_type_invariant(self);
        }
        let mut nodes: Vec<Node> = Vec::new();
        for k in 0..self.nodes.len()
            invariant
                nodes@.len() == k,
                forall|x: int| 0 <= x < k ==> (#[trigger] nodes@[x]).label@ == self.nodes@[x].label@ && nodes@[x].deps@ == self.nodes@[x].deps@,
        {
            let n = &self.nodes[k];
            let mut deps: Vec<usize> = Vec::new();
            for t in 0..n.deps.len()
                invariant
                    deps@ == n.deps@.take(t as int),
            {
                deps.push(n.deps[t]);
                assert(deps@ =~= n.deps@.take(t + 1));
            }
            assert(deps@ =~= n.deps@);
            nodes.push(Node { label: owned(n.label.as_str()), deps });
        }
        let r = DepGraph { nodes };
        assert(r.node_seq() =~= self.node_seq());
        r
    }
}

impl Default for DepGraph {
    /// The empty graph.
    fn default() -> (g: Self)
        ensures
            g.wf(),
            g.node_seq() == Seq::<Seq<char>>::empty(),
    {
        DepGraph::new()
    }
}

/// A path that starts and ends at the same node, following edges.
pub open spec fn is_cycle_in(g: &DepGraph, p: Seq<Seq<char>>) -> bool {
    &&& p.len() >= 2
    &&& p[0] == p.last()
    &&& forall|k: int| 0 <= k < p.len() - 1 ==> #[trigger] g.has_edge(p[k], p[k + 1])
}

impl DepGraph {
    /// Labels are distinct, and each node's dependencies are distinct indices
    /// of registered nodes. Every graph keeps this.
    #[verifier::type_invariant]
    pub closed spec fn wf(&self) -> bool {
        &&& self.nodes@.len() <= usize::MAX
        &&& forall|i: int, j: int|
            0 <= i < j < self.nodes@.len() ==> self.nodes@[i].label@ != self.nodes@[j].label@
        &&& forall|i: int|
            0 <= i < self.nodes@.len() ==> (#[trigger] self.nodes@[i]).deps@.no_duplicates()
        &&& forall|i: int, k: int|
            0 <= i < self.nodes@.len() && 0 <= k < self.nodes@[i].deps@.len() ==> #[trigger] self.nodes@[i].deps@[k]
                < self.nodes@.len()
    }

    /// The node labels, in the order they were first registered.
    pub closed spec fn node_seq(&self) -> Seq<Seq<char>> {
        self.nodes@.map_values(|n: Node| n.label@)
    }

    /// Node `i` depends on node `j` (indices into `node_seq`).
    pub closed spec fn edge(&self, i: int, j: int) -> bool {
        &&& 0 <= i < self.nodes@.len()
        &&& 0 <= j < self.nodes@.len()
        &&& self.nodes@[i].deps@.contains(j as usize)
    }

    /// `label` is a node of the graph.
    pub open spec fn has_node(&self, label: Seq<char>) -> bool {
        self.node_seq().contains(label)
    }

    /// The node labelled `a` depends on the node labelled `b`.
    pub open spec fn has_edge(&self, a: Seq<char>, b: Seq<char>) -> bool {
        exists|i: int, j: int|
            0 <= i < self.node_seq().len() && 0 <= j < self.node_seq().len() && self.node_seq()[i]
                == a && self.node_seq()[j] == b && #[trigger] self.edge(i, j)
    }

    /// The graph has no dependency cycle.
    pub open spec fn acyclic(&self) -> bool {
        forall|p: Seq<Seq<char>>| !is_cycle_in(self, p)
    }

    /// The index of a label in `node_seq`.
    pub open spec fn index_of_label(&self, label: Seq<char>) -> int {
        choose|i: int| 0 <= i < self.node_seq().len() && self.node_seq()[i] == label
    }

    /// Node labels are distinct and edges only join registered nodes.
    pub(crate) proof fn lemma_wf(&self)
        requires
            self.wf(),
        ensures
            self.node_seq().no_duplicates(),
            forall|i: int, j: int| #[trigger] self.edge(i, j) ==> 0 <= i < self.node_seq().len() && 0 <= j
                < self.node_seq().len(),
    {
        assert forall|i: int, j: int| 0 <= i < j < self.node_seq().len() implies self.node_seq()[i]
            != self.node_seq()[j] by {
            assert(self.node_seq()[i] == self.nodes@[i].label@);
            assert(self.node_seq()[j] == self.nodes@[j].label@);
        }
    }

    /// An edge between labels is an edge between their indices.
    pub(crate) proof fn lemma_has_edge_index(&self, a: Seq<char>, b: Seq<char>)
        requires
            self.wf(),
            self.has_edge(a, b),
        ensures
            self.has_node(a),
            self.has_node(b),
            self.edge(self.index_of_label(a), self.index_of_label(b)),
            self.node_seq()[self.index_of_label(a)] == a,
            self.node_seq()[self.index_of_label(b)] == b,
    {
        self.lemma_wf();
        let (i, j) = choose|i: int, j: int|
            0 <= i < self.node_seq().len() && 0 <= j < self.node_seq().len() && self.node_seq()[i]
                == a && self.node_seq()[j] == b && #[trigger] self.edge(i, j);
        assert(self.node_seq().contains(a));
        assert(self.node_seq().contains(b));
        let ia = self.index_of_label(a);
        let ib = self.index_of_label(b);
        assert(ia == i);
        assert(ib == j);
    }

    /// A graph whose edges strictly decrease a rank has no cycle.
    pub(crate) proof fn lemma_rank_acyclic(&self, rank: Seq<int>)
        requires
            self.wf(),
            rank.len() == self.node_seq().len(),
            forall|i: int, j: int| #[trigger] self.edge(i, j) ==> rank[i] > rank[j],
        ensures
            self.acyclic(),
    {
        assert forall|p: Seq<Seq<char>>| !is_cycle_in(self, p) by {
            if is_cycle_in(self, p) {
                self.lemma_rank_along(rank, p, p.len() - 1);
                assert(self.has_edge(p[0], p[1]));
            }
        }
    }

    proof fn lemma_rank_along(&self, rank: Seq<int>, p: Seq<Seq<char>>, m: int)
        requires
            self.wf(),
            rank.len() == self.node_seq().len(),
            forall|i: int, j: int| #[trigger] self.edge(i, j) ==> rank[i] > rank[j],
            is_cycle_in(self, p),
            1 <= m < p.len(),
        ensures
            rank[self.index_of_label(p[0])] >= rank[self.index_of_label(p[m])] + m,
        decreases m,
    {
        let k = m - 1;
        assert(self.has_edge(p[k], p[k + 1]));
        self.lemma_has_edge_index(p[k], p[k + 1]);
        if m > 1 {
            self.lemma_rank_along(rank, p, m - 1);
        }
    }

    /// Create an empty graph.
    pub fn new() -> (g: Self)
        ensures
            g.wf(),
            g.node_seq() == Seq::<Seq<char>>::empty(),
    {
        let g = DepGraph { nodes: Vec::new() };
        assert(g.node_seq() =~= Seq::<Seq<char>>::empty());
        g
    }

    /// The index of a label, if it is a node.
    fn find(&self, label: &str) -> (r: Option<usize>)
        ensures
            r matches Some(i) ==> i < self.node_seq().len() && self.node_seq()[i as int] == label@,
            r is None ==> !self.has_node(label@),
    {
        proof {
            use_type_invariant(self);
        }
        let mut i: usize = 0;
        while i < self.nodes.len()
            invariant
                i <= self.nodes@.len(),
                forall|k: int| 0 <= k < i ==> self.node_seq()[k] != label@,
            decreases self.nodes@.len() - i,
        {
            if str_eq(self.nodes[i].label.as_str(), label) {
                return Some(i);
            }
            i += 1;
        }
        None
    }

    /// Register a node. Idempotent.
    pub fn add_node(&mut self, label: &str)
        ensures
            final(self).wf(),
            final(self).node_seq() == (if old(self).has_node(label@) {
                old(self).node_seq()
            } else {
                old(self).node_seq().push(label@)
            }),
            forall|a: Seq<char>, b: Seq<char>|
                final(self).has_edge(a, b) == old(self).has_edge(a, b),
    {
        proof {
            use_type_invariant(&*self);
        }
        self.add_node_index(label);
    }

    /// Register a node and return its index.
    fn add_node_index(&mut self, label: &str) -> (r: usize)
        ensures
            final(self).wf(),
            final(self).node_seq() == (if old(self).has_node(label@) {
                old(self).node_seq()
            } else {
                old(self).node_seq().push(label@)
            }),
            r < final(self).node_seq().len(),
            final(self).node_seq()[r as int] == label@,
            forall|i: int, j: int| final(self).edge(i, j) == old(self).edge(i, j),
            forall|a: Seq<char>, b: Seq<char>|
                final(self).has_edge(a, b) == old(self).has_edge(a, b),
    {
        proof {
            use_type_invariant(&*self);
        }
        match self.find(label) {
            Some(i) => i,
            None => {
                let node = Node { label: owned(label), deps: Vec::new() };
                let mut nodes: Vec<Node> = Vec::new();
                std::mem::swap(&mut nodes, &mut self.nodes);
                nodes.push(node);
                let r = nodes.len() - 1;
                proof {
                    old(self).lemma_wf();
                    assert forall|a: int, b: int|
                        0 <= a < b < nodes@.len() implies nodes@[a].label@ != nodes@[b].label@ by {
                        if b == r as int {
                            assert(old(self).node_seq()[a] == old(self).nodes@[a].label@);
                        }
                    }
                    assert forall|x: int| 0 <= x < nodes@.len() implies (#[trigger] nodes@[x]).deps@.no_duplicates() by {
                        if x < r {
                            assert(nodes@[x] == old(self).nodes@[x]);
                        }
                    }
                    assert forall|x: int, k: int|
                        0 <= x < nodes@.len() && 0 <= k < nodes@[x].deps@.len() implies #[trigger] nodes@[x].deps@[k]
                        < nodes@.len() by {
                        assert(nodes@[x] == old(self).nodes@[x]);
                    }
                }
                self.nodes = nodes;
                proof {
                    assert(self.node_seq() =~= old(self).node_seq().push(label@));
                    assert forall|i: int, j: int| self.edge(i, j) == old(self).edge(i, j) by {
                        if i == r as int {
                            assert(self.nodes@[i].deps@ =~= Seq::<usize>::empty());
                        }
                    }
                    assert forall|a: Seq<char>, b: Seq<char>|
                        self.has_edge(a, b) == old(self).has_edge(a, b) by {
                        if self.has_edge(a, b) {
                            let (i, j) = choose|i: int, j: int|
                                0 <= i < self.node_seq().len() && 0 <= j < self.node_seq().len()
                                    && self.node_seq()[i] == a && self.node_seq()[j] == b
                                    && #[trigger] self.edge(i, j);
                            old(self).lemma_wf();
                            assert(old(self).edge(i, j));
                            assert(old(self).node_seq()[i] == a);
                            assert(old(self).node_seq()[j] == b);
                        }
                        if old(self).has_edge(a, b) {
                            let (i, j) = choose|i: int, j: int|
                                0 <= i < old(self).node_seq().len() && 0 <= j < old(
                                    self,
                                ).node_seq().len() && old(self).node_seq()[i] == a && old(
                                    self,
                                ).node_seq()[j] == b && #[trigger] old(self).edge(i, j);
                            assert(self.edge(i, j));
                            assert(self.node_seq()[i] == a);
                            assert(self.node_seq()[j] == b);
                        }
                    }
                }
                r
            },
        }
    }

    /// Record that `dependent` depends on `dependency` (the dependency
    /// initializes first). Both endpoints are registered as nodes if not
    /// already present.
    pub fn add_edge(&mut self, dependent: &str, dependency: &str)
        ensures
            final(self).wf(),
            final(self).node_seq() == ({
                let s1 = if old(self).has_node(dependent@) {
                    old(self).node_seq()
                } else {
                    old(self).node_seq().push(dependent@)
                };
                if s1.contains(dependency@) {
                    s1
                } else {
                    s1.push(dependency@)
                }
            }),
            forall|a: Seq<char>, b: Seq<char>|
                final(self).has_edge(a, b) == (old(self).has_edge(a, b) || (a == dependent@ && b
                    == dependency@)),
    {
        proof {
            use_type_invariant(&*self);
        }
        let i = self.add_node_index(dependent);
        let ghost mid = self.node_seq();
        let j = self.add_node_index(dependency);
        proof {
            assert(self.node_seq()[i as int] == dependent@);
        }
        let ghost before = *self;
        let present = contains_index(&self.nodes[i].deps, j);
        if !present {
            let mut deps = self.nodes[i].deps.clone();
            assert(deps@ =~= self.nodes@[i as int].deps@);
            deps.push(j);
            let node = Node { label: self.nodes[i].label.clone(), deps };
            proof {
                assert(node.deps@.no_duplicates());
            }
            let mut nodes: Vec<Node> = Vec::new();
            std::mem::swap(&mut nodes, &mut self.nodes);
            nodes.set(i, node);
            proof {
                assert(nodes@[i as int].deps@ == before.nodes@[i as int].deps@.push(j));
                assert forall|a: int, b: int|
                    0 <= a < b < nodes@.len() implies nodes@[a].label@ != nodes@[b].label@ by {
                    assert(before.nodes@[a].label@ == nodes@[a].label@);
                    assert(before.nodes@[b].label@ == nodes@[b].label@);
                }
                assert forall|x: int, k: int|
                    0 <= x < nodes@.len() && 0 <= k < nodes@[x].deps@.len() implies #[trigger] nodes@[x].deps@[k]
                    < nodes@.len() by {
                    if x != i as int {
                        assert(nodes@[x] == before.nodes@[x]);
                    } else if k < before.nodes@[x].deps@.len() {
                        assert(nodes@[x].deps@[k] == before.nodes@[x].deps@[k]);
                    }
                }
                assert forall|x: int| 0 <= x < nodes@.len() implies (#[trigger] nodes@[x]).deps@.no_duplicates() by {
                    if x != i as int {
                        assert(nodes@[x] == before.nodes@[x]);
                    }
                }
            }
            self.nodes = nodes;
            proof {
                assert(self.node_seq() =~= before.node_seq());
            }
        }
        proof {
            assert forall|x: int, y: int|
                #![trigger self.edge(x, y)]
                #![trigger before.edge(x, y)]
                self.edge(x, y) == (before.edge(x, y) || (x == i as int && y == j as int)) by {
                assert(self.nodes@.len() == before.nodes@.len());
                assert((j as int) < self.nodes@.len());
                if !present {
                    if x == i as int && 0 <= y < self.nodes@.len() {
                        let yu = y as usize;
                        lemma_push_contains(before.nodes@[x].deps@, j, yu);
                        assert(self.nodes@[x].deps@ == before.nodes@[x].deps@.push(j));
                        assert(self.edge(x, y) == self.nodes@[x].deps@.contains(yu));
                        assert(before.edge(x, y) == before.nodes@[x].deps@.contains(yu));
                    } else if 0 <= x < self.nodes@.len() && x != i as int {
                        assert(self.nodes@[x] == before.nodes@[x]);
                    }
                } else {
                    assert(self.nodes@ == before.nodes@);
                    assert(before.nodes@[i as int].deps@.contains(j));
                }
            }
            before.lemma_wf();
            self.lemma_wf();
            assert forall|a: Seq<char>, b: Seq<char>|
                self.has_edge(a, b) == (old(self).has_edge(a, b) || (a == dependent@ && b
                    == dependency@)) by {
                if self.has_edge(a, b) {
                    let (x, y) = choose|x: int, y: int|
                        0 <= x < self.node_seq().len() && 0 <= y < self.node_seq().len()
                            && self.node_seq()[x] == a && self.node_seq()[y] == b
                            && #[trigger] self.edge(x, y);
                    if before.edge(x, y) {
                        assert(before.has_edge(a, b));
                    }
                }
                if before.has_edge(a, b) {
                    let (x, y) = choose|x: int, y: int|
                        0 <= x < before.node_seq().len() && 0 <= y < before.node_seq().len()
                            && before.node_seq()[x] == a && before.node_seq()[y] == b
                            && #[trigger] before.edge(x, y);
                    assert(self.edge(x, y));
                }
                if a == dependent@ && b == dependency@ {
                    assert(self.edge(i as int, j as int));
                }
            }
        }
    }

    /// The labels `label` directly depends on (each once).
    pub fn dependencies(&self, label: &str) -> (r: Vec<String>)
        ensures
            r@.map_values(|s: String| s@).no_duplicates(),
            forall|b: Seq<char>|
                r@.map_values(|s: String| s@).contains(b) == self.has_edge(label@, b),
    {
        proof {
            use_type_invariant(self);
        }
        proof {
            self.lemma_wf();
        }
        let mut r: Vec<String> = Vec::new();
        match self.find(label) {
            None => {
                proof {
                    assert forall|b: Seq<char>| !self.has_edge(label@, b) by {
                        if self.has_edge(label@, b) {
                            self.lemma_has_edge_index(label@, b);
                        }
                    }
                    assert(r@.map_values(|s: String| s@) =~= Seq::<Seq<char>>::empty());
                }
                r
            },
            Some(i) => {
                let deps = &self.nodes[i].deps;
                for k in 0..deps.len()
                    invariant
                        self.wf(),
                        i < self.nodes@.len(),
                        deps@ == self.nodes@[i as int].deps@,
                        r@.len() == k,
                        forall|m: int|
                            0 <= m < k ==> #[trigger] r@[m]@ == self.node_seq()[deps@[m] as int],
                {
                    let j = deps[k];
                    r.push(self.nodes[j].label.clone());
                }
                proof {
                    let views = r@.map_values(|s: String| s@);
                    assert forall|m: int, n: int|
                        0 <= m < n < views.len() implies views[m] != views[n] by {
                        assert(deps@[m] != deps@[n]);
                    }
                    assert forall|b: Seq<char>| views.contains(b) == self.has_edge(label@, b) by {
                        if views.contains(b) {
                            let m = views.index_of(b);
                            assert(self.edge(i as int, deps@[m] as int));
                        }
                        if self.has_edge(label@, b) {
                            self.lemma_has_edge_index(label@, b);
                            let jb = self.index_of_label(b);
                            let ia = self.index_of_label(label@);
                            assert(ia == i as int);
                            let m = deps@.index_of(jb as usize);
                            assert(views[m] == b);
                        }
                    }
                }
                r
            },
        }
    }

    /// Every node label, in registration order.
    pub fn node_labels(&self) -> (r: Vec<String>)
        ensures
            r@.map_values(|s: String| s@) == self.node_seq(),
    {
        let mut r: Vec<String> = Vec::new();
        for k in 0..self.nodes.len()
            invariant
                r@.len() == k,
                forall|m: int| 0 <= m < k ==> #[trigger] r@[m]@ == self.node_seq()[m],
        {
            r.push(self.nodes[k].label.clone());
        }
        assert(r@.map_values(|s: String| s@) =~= self.node_seq());
        r
    }

    /// Number of nodes in the graph.
    pub fn node_count(&self) -> (r: usize)
        ensures
            r == self.node_seq().len(),
    {
        self.nodes.len()
    }

    /// The set of node labels.
    pub open spec fn node_set(&self) -> Set<Seq<char>> {
        Set::new(|x: Seq<char>| self.has_node(x))
    }

    /// The set of labels `label` depends on.
    pub open spec fn dep_set(&self, label: Seq<char>) -> Set<Seq<char>> {
        Set::new(|y: Seq<char>| self.has_edge(label, y))
    }

    /// Every node label, alphabetically.
    pub fn sorted_node_labels(&self) -> (r: Vec<String>)
        ensures
            views(r@) == sorted_of(self.node_set()),
    {
        proof {
            use_type_invariant(self);
        }
        let all = self.node_labels();
        proof {
            self.lemma_wf();
            assert(views(all@) =~= self.node_seq());
        }
        let r = sort_labels(&all);
        proof {
            lemma_sorted_of(views(r@), self.node_set());
        }
        r
    }

    /// The labels `label` depends on, alphabetically.
    pub fn sorted_dependencies(&self, label: &str) -> (r: Vec<String>)
        ensures
            views(r@) == sorted_of(self.dep_set(label@)),
    {
        proof {
            use_type_invariant(self);
        }
        let all = self.dependencies(label);
        proof {
            assert(views(all@) =~= all@.map_values(|s: String| s@));
        }
        let r = sort_labels(&all);
        proof {
            lemma_sorted_of(views(r@), self.dep_set(label@));
        }
        r
    }
}

/// Whether `v` holds `x`.
fn contains_index(v: &Vec<usize>, x: usize) -> (r: bool)
    ensures
        r == v@.contains(x),
{
    for k in 0..v.len()
        invariant
            forall|m: int| 0 <= m < k ==> v@[m] != x,
    {
        if v[k] == x {
            return true;
        }
    }
    false
}

} // verus!
