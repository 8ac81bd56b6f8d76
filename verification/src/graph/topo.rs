//! Kahn's algorithm: topological sort and depth-based layering.

use vstd::prelude::*;
use vstd::set_lib::lemma_len_subset;
use crate::text::{cat, seq_lt, seq_le, str_lt, lemma_lt_total, lemma_lt_transitive, lemma_lt_irreflexive, lemma_lt_asymmetric};
use super::{DepGraph, is_cycle_in};
use super::cycle::index_cycle;
use super::sort::{views, sort_labels, strictly_sorted};

verus! {

/// `x` may be emitted once `done` has been: it is a node, not yet emitted,
/// and everything it depends on has been emitted.
pub open spec fn ready(g: &DepGraph, done: Seq<Seq<char>>, x: Seq<char>) -> bool {
    &&& g.has_node(x)
    &&& !done.contains(x)
    &&& forall|y: Seq<char>| #[trigger] g.has_edge(x, y) ==> done.contains(y)
}

/// `order` is what Kahn's algorithm emits when it always takes the
/// alphabetically smallest ready node: every node once, each after all of its
/// dependencies, and no smaller node was ready when it was taken.
pub open spec fn is_kahn_order(g: &DepGraph, order: Seq<Seq<char>>) -> bool {
    &&& order.len() == g.node_seq().len()
    &&& forall|k: int| 0 <= k < order.len() ==> ready(g, order.take(k), #[trigger] order[k])
    &&& forall|k: int, x: Seq<char>|
        0 <= k < order.len() && #[trigger] ready(g, order.take(k), x) ==> seq_le(order[k], x)
}

/// `d` gives each node (by index into `node_seq`) its dependency depth: 0
/// with no dependencies, otherwise one more than its deepest dependency.
pub open spec fn is_depth(g: &DepGraph, d: Seq<int>) -> bool {
    &&& d.len() == g.node_seq().len()
    &&& forall|i: int| 0 <= i < d.len() ==> #[trigger] depth_clause(g, d, i)
}

/// The depth equation at node `i`.
pub open spec fn depth_clause(g: &DepGraph, d: Seq<int>, i: int) -> bool {
    &&& forall|j: int| #[trigger] g.edge(i, j) ==> d[i] >= d[j] + 1
    &&& (d[i] == 0 && forall|j: int| !g.edge(i, j)) || exists|j: int| g.edge(i, j) && d[i] == d[j] + 1
}

/// The largest value in a non-empty sequence (0 for an empty one).
pub open spec fn seq_max(s: Seq<int>) -> int
    decreases s.len(),
{
    if s.len() == 0 {
        0
    } else {
        let m = seq_max(s.drop_last());
        if s.len() == 1 || s.last() > m {
            s.last()
        } else {
            m
        }
    }
}

proof fn lemma_seq_max(s: Seq<int>)
    requires
        s.len() > 0,
    ensures
        forall|i: int| 0 <= i < s.len() ==> s[i] <= seq_max(s),
        exists|i: int| 0 <= i < s.len() && s[i] == seq_max(s),
    decreases s.len(),
{
    if s.len() > 1 {
        lemma_seq_max(s.drop_last());
        assert forall|i: int| 0 <= i < s.len() implies s[i] <= seq_max(s) by {
            if i < s.len() - 1 {
                assert(s[i] == s.drop_last()[i]);
            }
        }
        if s.last() > seq_max(s.drop_last()) {
            assert(s[s.len() - 1] == seq_max(s));
        } else {
            let i = choose|i: int| 0 <= i < s.drop_last().len() && s.drop_last()[i] == seq_max(s.drop_last());
            assert(s[i] == seq_max(s));
        }
    } else {
        assert(s[0] == seq_max(s));
    }
}

/// Node `i` depends on some node of the set `bad`.
pub open spec fn steps_within(g: &DepGraph, bad: spec_fn(int) -> bool, i: int) -> bool {
    exists|j: int| g.edge(i, j) && bad(j)
}

/// Index-level readiness: node `i` is not in `order` and all its
/// dependencies are.
pub open spec fn idx_ready(g: &DepGraph, order: Seq<usize>, i: int) -> bool {
    &&& 0 <= i < g.node_seq().len()
    &&& !order.contains(i as usize)
    &&& forall|j: int| #[trigger] g.edge(i, j) ==> order.contains(j as usize)
}

/// The labels of an index sequence.
pub open spec fn label_seq(g: &DepGraph, s: Seq<usize>) -> Seq<Seq<char>> {
    s.map_values(|i: usize| g.node_seq()[i as int])
}

/// A duplicate-free sequence of values below `n` has at most `n` elements.
pub(crate) proof fn lemma_pigeonhole(s: Seq<usize>, n: usize)
    requires
        forall|k: int| 0 <= k < s.len() ==> #[trigger] s[k] < n,
        s.no_duplicates(),
    ensures
        s.len() <= n,
{
    s.unique_seq_to_set();
    let r = Set::<usize>::range(0, n);
    <usize as vstd::set_lib::FiniteRange>::range_properties(0, n);
    assert(s.to_set().subset_of(r)) by {
        assert forall|x: usize| s.to_set().contains(x) implies r.contains(x) by {
            let k = s.index_of(x);
            assert(s[k] < n);
        }
    }
    lemma_len_subset(s.to_set(), r);
}

/// A duplicate-free sequence of `n` values below `n` holds every value.
proof fn lemma_full(s: Seq<usize>, n: usize)
    requires
        forall|k: int| 0 <= k < s.len() ==> #[trigger] s[k] < n,
        s.no_duplicates(),
        s.len() == n,
    ensures
        forall|i: usize| i < n ==> s.contains(i),
{
    assert forall|i: usize| i < n implies s.contains(i) by {
        if !s.contains(i) {
            let t = s.push(i);
            assert forall|a: int, b: int| 0 <= a < b < t.len() implies t[a] != t[b] by {
                if b == s.len() {
                    assert(s[a] != i);
                }
            }
            assert forall|k: int| 0 <= k < t.len() implies #[trigger] t[k] < n by {
                if k < s.len() {
                    assert(t[k] == s[k]);
                }
            }
            lemma_pigeonhole(t, n);
        }
    }
}

impl DepGraph {
    /// Label-level and index-level membership agree for node indices.
    pub(crate) proof fn lemma_label_contains(&self, s: Seq<usize>, i: int)
        requires
            self.wf(),
            forall|k: int| 0 <= k < s.len() ==> #[trigger] s[k] < self.node_seq().len(),
            0 <= i < self.node_seq().len(),
        ensures
            label_seq(self, s).contains(self.node_seq()[i]) == s.contains(i as usize),
    {
        self.lemma_wf();
        if label_seq(self, s).contains(self.node_seq()[i]) {
            let k = label_seq(self, s).index_of(self.node_seq()[i]);
            assert(self.node_seq()[s[k] as int] == self.node_seq()[i]);
            assert(s[k] as int == i);
        }
        if s.contains(i as usize) {
            let k = s.index_of(i as usize);
            assert(label_seq(self, s)[k] == self.node_seq()[i]);
        }
    }

    /// A cycle over indices is a cycle over labels.
    pub(crate) proof fn lemma_index_cycle(&self, c: Seq<usize>)
        requires
            self.wf(),
            index_cycle(self, c),
        ensures
            !self.acyclic(),
    {
        self.lemma_wf();
        let p = label_seq(self, c);
        assert forall|k: int| 0 <= k < p.len() - 1 implies #[trigger] self.has_edge(p[k], p[k + 1]) by {
            assert(self.edge(c[k] as int, c[k + 1] as int));
        }
        assert(is_cycle_in(self, p));
    }

    /// If every node of a set has a dependency inside the set, following
    /// dependencies forever must revisit a node, closing a cycle.
    pub(crate) proof fn lemma_closed_set_cyclic(&self, bad: spec_fn(int) -> bool, start: int)
        requires
            self.wf(),
            bad(start),
            forall|i: int| #[trigger] bad(i) ==> 0 <= i < self.node_seq().len(),
            forall|i: int| bad(i) ==> #[trigger] steps_within(self, bad, i),
        ensures
            !self.acyclic(),
    {
        self.lemma_wf();
        let n = self.node_seq().len();
        let w = self.walk(bad, start, n + 1);
        if w.no_duplicates() {
            lemma_pigeonhole(w, n as usize);
        }
        let (a, b) = choose|a: int, b: int| 0 <= a < w.len() && 0 <= b < w.len() && a != b && w[a] == w[b];
        let (lo, hi) = if a < b {
            (a, b)
        } else {
            (b, a)
        };
        let c = w.subrange(lo, hi + 1);
        assert forall|k: int| 0 <= k < c.len() - 1 implies #[trigger] self.edge(c[k] as int, c[k + 1] as int) by {
            assert(c[k] == w[lo + k]);
            assert(c[k + 1] == w[lo + k + 1]);
        }
        self.lemma_index_cycle(c);
    }

    /// A walk of `len` nodes of a closed set along dependencies.
    proof fn walk(&self, bad: spec_fn(int) -> bool, start: int, len: nat) -> (w: Seq<usize>)
        requires
            self.wf(),
            len >= 1,
            bad(start),
            forall|i: int| #[trigger] bad(i) ==> 0 <= i < self.node_seq().len(),
            forall|i: int| bad(i) ==> #[trigger] steps_within(self, bad, i),
        ensures
            w.len() == len,
            w[0] == start,
            forall|k: int| 0 <= k < w.len() ==> (#[trigger] w[k]) < self.node_seq().len() && bad(w[k] as int),
            forall|k: int| 0 <= k < w.len() - 1 ==> #[trigger] self.edge(w[k] as int, w[k + 1] as int),
        decreases len,
    {
        self.lemma_wf();
        if len == 1 {
            seq![start as usize]
        } else {
            let w0 = self.walk(bad, start, (len - 1) as nat);
            let last = w0.last() as int;
            assert(bad(w0[w0.len() - 1] as int));
            assert(steps_within(self, bad, last));
            let j = choose|j: int| self.edge(last, j) && bad(j);
            let w = w0.push(j as usize);
            assert forall|k: int| 0 <= k < w.len() - 1 implies #[trigger] self.edge(w[k] as int, w[k + 1] as int) by {
                if k < w0.len() - 1 {
                    assert(w[k] == w0[k] && w[k + 1] == w0[k + 1]);
                }
            }
            w
        }
    }

    /// Kahn's algorithm over indices: repeatedly emit the alphabetically
    /// smallest node whose dependencies have all been emitted.
    fn kahn(&self) -> (r: Vec<usize>)
        ensures
            r@.no_duplicates(),
            forall|k: int| 0 <= k < r@.len() ==> (#[trigger] r@[k]) < self.node_seq().len(),
            forall|k: int| 0 <= k < r@.len() ==> idx_ready(self, r@.take(k), #[trigger] r@[k] as int),
            forall|k: int, i: int|
                0 <= k < r@.len() && #[trigger] idx_ready(self, r@.take(k), i) ==> seq_le(
                    self.node_seq()[r@[k] as int],
                    self.node_seq()[i],
                ),
            r@.len() < self.node_seq().len() ==> forall|i: int| !idx_ready(self, r@, i),
    {
        proof {
            use_type_invariant(self);
        }
        proof {
            self.lemma_wf();
        }
        let n = self.nodes.len();
        let mut emitted: Vec<bool> = Vec::new();
        for k in 0..n
            invariant
                emitted@.len() == k,
                forall|i: int| 0 <= i < k ==> !emitted@[i],
        {
            emitted.push(false);
        }
        let mut order: Vec<usize> = Vec::new();
        loop
            invariant
                self.wf(),
                n == self.node_seq().len(),
                emitted@.len() == n,
                forall|i: int| 0 <= i < n ==> #[trigger] emitted@[i] == order@.contains(i as usize),
                order@.no_duplicates(),
                forall|k: int| 0 <= k < order@.len() ==> (#[trigger] order@[k]) < n,
                forall|k: int| 0 <= k < order@.len() ==> idx_ready(self, order@.take(k), #[trigger] order@[k] as int),
                forall|k: int, i: int|
                    0 <= k < order@.len() && #[trigger] idx_ready(self, order@.take(k), i) ==> seq_le(
                        self.node_seq()[order@[k] as int],
                        self.node_seq()[i],
                    ),
            ensures
                order@.no_duplicates(),
                forall|k: int| 0 <= k < order@.len() ==> (#[trigger] order@[k]) < n,
                forall|k: int| 0 <= k < order@.len() ==> idx_ready(self, order@.take(k), #[trigger] order@[k] as int),
                forall|k: int, i: int|
                    0 <= k < order@.len() && #[trigger] idx_ready(self, order@.take(k), i) ==> seq_le(
                        self.node_seq()[order@[k] as int],
                        self.node_seq()[i],
                    ),
                order@.len() < n ==> forall|i: int| !idx_ready(self, order@, i),
            decreases n - order@.len(),
        {
            proof {
                lemma_pigeonhole(order@, n);
            }
            let mut best: Option<usize> = None;
            for i in 0..n
                invariant
                    self.wf(),
                    n == self.node_seq().len(),
                    emitted@.len() == n,
                    forall|x: int| 0 <= x < n ==> #[trigger] emitted@[x] == order@.contains(x as usize),
                    best matches Some(b) ==> b < n && idx_ready(self, order@, b as int),
                    best is None ==> forall|x: int| 0 <= x < i ==> !idx_ready(self, order@, x),
                    best matches Some(b) ==> forall|x: int|
                        0 <= x < i && idx_ready(self, order@, x) ==> seq_le(
                            self.node_seq()[b as int],
                            self.node_seq()[x],
                        ),
            {
                if !emitted[i] {
                    // Are all of node i's dependencies emitted?
                    let deps = &self.nodes[i].deps;
                    let mut all = true;
                    let mut q: usize = 0;
                    while q < deps.len()
                        invariant
                            self.wf(),
                            i < n,
                            n == self.node_seq().len(),
                            emitted@.len() == n,
                            forall|x: int| 0 <= x < n ==> #[trigger] emitted@[x] == order@.contains(x as usize),
                            deps@ == self.nodes@[i as int].deps@,
                            q <= deps@.len(),
                            all == forall|m: int| 0 <= m < q ==> order@.contains(#[trigger] deps@[m]),
                        decreases deps@.len() - q,
                    {
                        let dq = deps[q];
                        if !emitted[dq] {
                            all = false;
                        }
                        q += 1;
                    }
                    proof {
                        if all {
                            assert forall|j: int| #[trigger] self.edge(i as int, j) implies order@.contains(j as usize) by {
                                let m = deps@.index_of(j as usize);
                                assert(deps@[m] == j as usize);
                            }
                        }
                        if !all {
                            let m = choose|m: int| 0 <= m < q && !order@.contains(#[trigger] deps@[m]);
                            assert(self.edge(i as int, deps@[m] as int));
                        }
                    }
                    if all {
                        let take = match best {
                            None => true,
                            Some(b) => str_lt(self.nodes[i].label.as_str(), self.nodes[b].label.as_str()),
                        };
                        proof {
                            if let Some(b) = best {
                                if !take {
                                    lemma_lt_total(self.node_seq()[b as int], self.node_seq()[i as int]);
                                    assert(self.node_seq()[i as int] == self.nodes@[i as int].label@);
                                    assert(self.node_seq()[b as int] == self.nodes@[b as int].label@);
                                }
                            }
                        }
                        if take {
                            proof {
                                assert(self.node_seq()[i as int] == self.nodes@[i as int].label@);
                                if let Some(b) = best {
                                    assert(self.node_seq()[b as int] == self.nodes@[b as int].label@);
                                    assert forall|x: int|
                                        0 <= x < i + 1 && idx_ready(self, order@, x) implies seq_le(
                                            self.node_seq()[i as int],
                                            self.node_seq()[x],
                                        ) by {
                                        if x < i && self.node_seq()[b as int] != self.node_seq()[x] {
                                            lemma_lt_transitive(self.node_seq()[i as int], self.node_seq()[b as int], self.node_seq()[x]);
                                        }
                                    }
                                }
                            }
                            best = Some(i);
                        }
                    }
                }
            }
            match best {
                None => {
                    break;
                },
                Some(b) => {
                    let ghost old_order = order@;
                    emitted.set(b, true);
                    order.push(b);
                    proof {
                        assert(order@.take(old_order.len() as int) =~= old_order);
                        assert forall|x: int| 0 <= x < n implies #[trigger] emitted@[x] == order@.contains(x as usize) by {
                            lemma_push_contains_usize(old_order, b, x as usize);
                        }
                        assert forall|a: int, c: int| 0 <= a < c < order@.len() implies order@[a] != order@[c] by {
                            if c == old_order.len() {
                                assert(old_order.contains(old_order[a]));
                            }
                        }
                        assert forall|k: int| 0 <= k < order@.len() implies idx_ready(self, order@.take(k), #[trigger] order@[k] as int) by {
                            if k < old_order.len() {
                                assert(order@.take(k) =~= old_order.take(k));
                            }
                        }
                        assert forall|k: int, i: int|
                            0 <= k < order@.len() && #[trigger] idx_ready(self, order@.take(k), i) implies seq_le(
                                self.node_seq()[order@[k] as int],
                                self.node_seq()[i],
                            ) by {
                            if k < old_order.len() {
                                assert(order@.take(k) =~= old_order.take(k));
                            }
                        }
                        lemma_pigeonhole(order@, n);
                    }
                },
            }
        }
        order
    }

    /// Topologically sort the graph (dependencies first). Returns the cycle
    /// path as `Err` if the graph is not acyclic. Nodes available at the same
    /// time are emitted in alphabetical order for deterministic output.
    pub fn topological_sort(&self) -> (r: Result<Vec<String>, Vec<String>>)
        ensures
            r is Ok == self.acyclic(),
            r matches Ok(order) ==> is_kahn_order(self, views(order@)),
            r matches Err(p) ==> is_cycle_in(self, views(p@)),
            r matches Err(p) ==> self.dfs_cycle() == Some(views(p@)),
            r matches Err(p) ==> views(p@).drop_last().no_duplicates(),
    {
        proof {
            use_type_invariant(self);
        }
        let (r, _) = self.sort_indices();
        r
    }

    /// Kahn's algorithm, returning the label result and the index order.
    fn sort_indices(&self) -> (r: (Result<Vec<String>, Vec<String>>, Vec<usize>))
        ensures
            r.0 is Ok == self.acyclic(),
            r.0 matches Ok(order) ==> is_kahn_order(self, views(order@)),
            r.0 matches Ok(order) ==> views(order@) == label_seq(self, r.1@),
            r.0 matches Ok(_) ==> r.1@.len() == self.node_seq().len(),
            r.0 matches Ok(_) ==> forall|k: int| 0 <= k < r.1@.len() ==> idx_ready(self, r.1@.take(k), #[trigger] r.1@[k] as int),
            r.0 matches Ok(_) ==> r.1@.no_duplicates(),
            forall|k: int| 0 <= k < r.1@.len() ==> (#[trigger] r.1@[k]) < self.node_seq().len(),
            r.0 matches Err(p) ==> is_cycle_in(self, views(p@)),
            r.0 matches Err(p) ==> self.dfs_cycle() == Some(views(p@)),
            r.0 matches Err(p) ==> views(p@).drop_last().no_duplicates(),
    {
        proof {
            use_type_invariant(self);
        }
        proof {
            self.lemma_wf();
        }
        let order = self.kahn();
        let n = self.nodes.len();
        if order.len() == n {
            let mut out: Vec<String> = Vec::new();
            for k in 0..order.len()
                invariant
                    self.wf(),
                    n == self.node_seq().len(),
                    forall|m: int| 0 <= m < order@.len() ==> (#[trigger] order@[m]) < n,
                    out@.len() == k,
                    forall|m: int| 0 <= m < k ==> #[trigger] out@[m]@ == self.node_seq()[order@[m] as int],
            {
                out.push(self.nodes[order[k]].label.clone());
            }
            proof {
                let lo = label_seq(self, order@);
                assert(views(out@) =~= lo);
                assert forall|k: int| 0 <= k < lo.len() implies ready(self, lo.take(k), #[trigger] lo[k]) by {
                    self.ready_bridge(order@, k, order@[k] as int);
                }
                assert forall|k: int, x: Seq<char>|
                    0 <= k < lo.len() && #[trigger] ready(self, lo.take(k), x) implies seq_le(lo[k], x) by {
                    let i = self.index_of_label(x);
                    assert(self.node_seq().contains(x));
                    self.ready_bridge(order@, k, i);
                }
                // The emission order ranks every node, so there is no cycle.
                lemma_full(order@, n);
                let rank = Seq::new(n as nat, |i: int| order@.index_of(i as usize));
                assert forall|i: int, j: int| #[trigger] self.edge(i, j) implies rank[i] > rank[j] by {
                    assert(order@.contains(i as usize));
                    let ki = order@.index_of(i as usize);
                    assert(idx_ready(self, order@.take(ki), order@[ki] as int));
                    assert(order@.take(ki).contains(j as usize));
                    let kj = order@.take(ki).index_of(j as usize);
                    assert(order@[kj] == j as usize);
                    assert(order@.index_of(j as usize) == kj);
                }
                self.lemma_rank_acyclic(rank);
            }
            (Ok(out), order)
        } else {
            proof {
                lemma_pigeonhole(order@, n);
                lemma_missing(order@, n);
                let s = choose|s: usize| s < n && !order@.contains(s);
                let bad = |i: int| 0 <= i < n && !order@.contains(i as usize);
                assert forall|i: int| bad(i) implies #[trigger] steps_within(self, bad, i) by {
                    assert(!idx_ready(self, order@, i));
                    let j = choose|j: int| #[trigger] self.edge(i, j) && !order@.contains(j as usize);
                    self.lemma_wf();
                    assert(bad(j));
                }
                assert(bad(s as int));
                self.lemma_closed_set_cyclic(bad, s as int);
            }
            match self.detect_cycle() {
                Err(p) => (Err(p), order),
                Ok(()) => (Err(Vec::new()), order),
            }
        }
    }

    /// Readiness of node `i` after the first `k` entries of `order` at the
    /// label level and at the index level agree.
    proof fn ready_bridge(&self, order: Seq<usize>, k: int, i: int)
        requires
            self.wf(),
            forall|m: int| 0 <= m < order.len() ==> (#[trigger] order[m]) < self.node_seq().len(),
            0 <= k <= order.len(),
            0 <= i < self.node_seq().len(),
        ensures
            ready(self, label_seq(self, order).take(k), self.node_seq()[i]) == idx_ready(self, order.take(k), i),
    {
        self.lemma_wf();
        let t = order.take(k);
        assert(label_seq(self, order).take(k) =~= label_seq(self, t));
        assert forall|m: int| 0 <= m < t.len() implies (#[trigger] t[m]) < self.node_seq().len() by {
            assert(t[m] == order[m]);
        }
        self.lemma_label_contains(t, i);
        let x = self.node_seq()[i];
        assert(self.node_seq().contains(x));
        if ready(self, label_seq(self, t), x) {
            assert forall|j: int| #[trigger] self.edge(i, j) implies t.contains(j as usize) by {
                assert(self.has_edge(x, self.node_seq()[j]));
                self.lemma_label_contains(t, j);
            }
        }
        if idx_ready(self, t, i) {
            assert forall|y: Seq<char>| #[trigger] self.has_edge(x, y) implies label_seq(self, t).contains(y) by {
                self.lemma_has_edge_index(x, y);
                let ix = self.index_of_label(x);
                assert(ix == i);
                let jy = self.index_of_label(y);
                self.lemma_label_contains(t, jy);
            }
        }
    }
}

impl DepGraph {
    /// Two depth assignments that agree on a node's dependencies agree on
    /// the node.
    proof fn lemma_depth_step(&self, d1: Seq<int>, d2: Seq<int>, i: int)
        requires
            depth_clause(self, d1, i),
            depth_clause(self, d2, i),
            forall|j: int| self.edge(i, j) ==> d1[j] == d2[j],
        ensures
            d1[i] == d2[i],
    {
        if d1[i] == 0 && forall|j: int| !self.edge(i, j) {
            if !(d2[i] == 0) {
                let j2 = choose|j: int| self.edge(i, j) && d2[i] == d2[j] + 1;
                assert(!self.edge(i, j2));
            }
        } else {
            let j1 = choose|j: int| self.edge(i, j) && d1[i] == d1[j] + 1;
            assert(d2[i] >= d2[j1] + 1);
            if d2[i] == 0 && forall|j: int| !self.edge(i, j) {
                assert(!self.edge(i, j1));
            } else {
                let j2 = choose|j: int| self.edge(i, j) && d2[i] == d2[j] + 1;
                assert(d1[i] >= d1[j2] + 1);
            }
        }
    }

    /// On a graph without cycles there is only one depth assignment.
    pub proof fn lemma_depth_unique(&self, d1: Seq<int>, d2: Seq<int>)
        requires
            self.wf(),
            self.acyclic(),
            is_depth(self, d1),
            is_depth(self, d2),
        ensures
            d1 == d2,
    {
        self.lemma_wf();
        let n = self.node_seq().len();
        let bad = |i: int| 0 <= i < n && d1[i] != d2[i];
        assert forall|i: int| bad(i) implies #[trigger] steps_within(self, bad, i) by {
            if !steps_within(self, bad, i) {
                assert forall|j: int| self.edge(i, j) implies d1[j] == d2[j] by {
                    assert(!bad(j));
                }
                assert(depth_clause(self, d1, i));
                assert(depth_clause(self, d2, i));
                self.lemma_depth_step(d1, d2, i);
            }
        }
        assert forall|i: int| 0 <= i < n implies d1[i] == d2[i] by {
            if d1[i] != d2[i] {
                assert(bad(i));
                self.lemma_closed_set_cyclic(bad, i);
            }
        }
        assert(d1 =~= d2);
    }

    /// Compute every node's dependency depth, in `node_seq` order. Returns the
    /// cycle path as `Err` if the graph is not acyclic.
    pub fn depths(&self) -> (r: Result<Vec<(String, usize)>, Vec<String>>)
        ensures
            r is Ok == self.acyclic(),
            r matches Ok(d) ==> d@.len() == self.node_seq().len() && (forall|i: int|
                0 <= i < d@.len() ==> (#[trigger] d@[i]).0@ == self.node_seq()[i]) && is_depth(
                self,
                d@.map_values(|p: (String, usize)| p.1 as int),
            ),
            r matches Err(p) ==> is_cycle_in(self, views(p@)),
            r matches Err(p) ==> self.dfs_cycle() == Some(views(p@)),
            r matches Err(p) ==> views(p@).drop_last().no_duplicates(),
    {
        proof {
            use_type_invariant(self);
        }
        proof {
            self.lemma_wf();
        }
        let (res, order) = self.sort_indices();
        match res {
            Err(p) => Err(p),
            Ok(_) => {
                let n = self.nodes.len();
                proof {
                    lemma_full(order@, n);
                }
                let mut depth: Vec<usize> = Vec::new();
                for k in 0..n
                    invariant
                        depth@.len() == k,
                        forall|i: int| 0 <= i < k ==> depth@[i] == 0,
                {
                    depth.push(0);
                }
                for k in 0..n
                    invariant
                        self.wf(),
                        n == self.node_seq().len(),
                        order@.len() == n,
                        order@.no_duplicates(),
                        forall|m: int| 0 <= m < order@.len() ==> (#[trigger] order@[m]) < n,
                        forall|m: int| 0 <= m < order@.len() ==> idx_ready(self, order@.take(m), #[trigger] order@[m] as int),
                        depth@.len() == n,
                        forall|i: int| 0 <= i < n ==> #[trigger] depth@[i] <= k,
                        forall|m: int| 0 <= m < k ==> depth_eq(self, depth@, #[trigger] order@[m] as int),
                {
                    let u = order[k];
                    let deps = &self.nodes[u].deps;
                    proof {
                        assert(idx_ready(self, order@.take(k as int), order@[k as int] as int));
                    }
                    let mut d: usize = 0;
                    let mut q: usize = 0;
                    while q < deps.len()
                        invariant
                            self.wf(),
                            n == self.node_seq().len(),
                            u < n,
                            deps@ == self.nodes@[u as int].deps@,
                            depth@.len() == n,
                            forall|i: int| 0 <= i < n ==> #[trigger] depth@[i] <= k,
                            k < n,
                            q <= deps@.len(),
                            d <= k + 1,
                            forall|m: int| 0 <= m < q ==> d >= depth@[#[trigger] deps@[m] as int] + 1,
                            (d == 0 && q == 0) || exists|m: int| 0 <= m < q && d == depth@[#[trigger] deps@[m] as int] + 1,
                        decreases deps@.len() - q,
                    {
                        let j = deps[q];
                        if depth[j] + 1 > d {
                            d = depth[j] + 1;
                        }
                        proof {
                            if d == depth@[j as int] + 1 {
                                assert(d == depth@[deps@[q as int] as int] + 1);
                            }
                        }
                        q += 1;
                    }
                    let ghost before = depth@;
                    depth.set(u, d);
                    proof {
                        assert forall|m: int| 0 <= m < k + 1 implies depth_eq(self, depth@, #[trigger] order@[m] as int) by {
                            let x = order@[m] as int;
                            if m < k {
                                assert(order@[m] != u) by {
                                    assert(order@[m] != order@[k as int]);
                                }
                                assert(depth_eq(self, before, x));
                                assert forall|j: int| self.edge(x, j) implies depth@[j] == before[j] by {
                                    assert(idx_ready(self, order@.take(m), x));
                                    assert(order@.take(m).contains(j as usize));
                                    let t = order@.take(m).index_of(j as usize);
                                    assert(order@[t] == j as usize);
                                    assert(order@[t] != order@[k as int]);
                                }
                                if !(depth@[x] == 0 && forall|j: int| !self.edge(x, j)) {
                                    let j = choose|j: int| self.edge(x, j) && before[x] == before[j] + 1;
                                }
                            } else {
                                assert forall|j: int| self.edge(x, j) implies depth@[x] >= depth@[j] + 1 by {
                                    let t = deps@.index_of(j as usize);
                                    assert(deps@[t] == j as usize);
                                    assert(order@.take(k as int).contains(j as usize));
                                    assert(j != u as int);
                                }
                                if d != 0 {
                                    let t = choose|t: int| 0 <= t < q && d == before[#[trigger] deps@[t] as int] + 1;
                                    assert(self.edge(x, deps@[t] as int));
                                    assert(order@.take(k as int).contains(deps@[t]));
                                    assert(deps@[t] != u);
                                } else {
                                    assert forall|j: int| !self.edge(x, j) by {
                                        if self.edge(x, j) {
                                            let t = deps@.index_of(j as usize);
                                            assert(deps@[t] == j as usize);
                                        }
                                    }
                                }
                            }
                        }
                    }
                }
                let mut out: Vec<(String, usize)> = Vec::new();
                for i in 0..n
                    invariant
                        self.wf(),
                        n == self.node_seq().len(),
                        depth@.len() == n,
                        out@.len() == i,
                        forall|m: int| 0 <= m < i ==> (#[trigger] out@[m]).0@ == self.node_seq()[m] && out@[m].1 == depth@[m],
                {
                    out.push((self.nodes[i].label.clone(), depth[i]));
                }
                proof {
                    let ds = out@.map_values(|p: (String, usize)| p.1 as int);
                    assert(ds =~= depth@.map_values(|x: usize| x as int));
                    assert forall|i: int| 0 <= i < n implies depth_eq(self, depth@, i) by {
                        assert(order@.contains(i as usize));
                        let m = order@.index_of(i as usize);
                        assert(depth_eq(self, depth@, order@[m] as int));
                    }
                    assert forall|i: int| 0 <= i < ds.len() implies #[trigger] depth_clause(self, ds, i) by {
                        assert(depth_eq(self, depth@, i));
                        if !(depth@[i] == 0 && forall|j: int| !self.edge(i, j)) {
                            let j = choose|j: int| self.edge(i, j) && depth@[i] == depth@[j] + 1;
                            assert(self.edge(i, j) && ds[i] == ds[j] + 1);
                        }
                    }
                }
                Ok(out)
            },
        }
    }
}

impl DepGraph {
    /// Group nodes into initialization layers by dependency depth. Layer 0
    /// has no dependencies; each later layer depends only on earlier layers.
    /// Each layer is sorted alphabetically. Returns the cycle path as `Err`
    /// if the graph is not acyclic.
    pub fn layers(&self) -> (r: Result<Vec<Vec<String>>, Vec<String>>)
        ensures
            r is Ok == self.acyclic(),
            r matches Ok(ls) ==> exists|d: Seq<int>| is_depth(self, d) && is_layering(self, d, layer_views(ls@)),
            r matches Err(p) ==> is_cycle_in(self, views(p@)),
            r matches Err(p) ==> self.dfs_cycle() == Some(views(p@)),
            r matches Err(p) ==> views(p@).drop_last().no_duplicates(),
    {
        proof {
            use_type_invariant(self);
        }
        match self.depths() {
            Err(p) => Err(p),
            Ok(pairs) => {
                let ghost d = pairs@.map_values(|p: (String, usize)| p.1 as int);
                let n = pairs.len();
                proof {
                    self.lemma_wf();
                }
                let mut out: Vec<Vec<String>> = Vec::new();
                if n == 0 {
                    proof {
                        assert(layer_views(out@) =~= Seq::<Seq<Seq<char>>>::empty());
                    }
                    return Ok(out);
                }
                let mut m: usize = 0;
                for i in 0..n
                    invariant
                        n == pairs@.len(),
                        d == pairs@.map_values(|p: (String, usize)| p.1 as int),
                        n > 0,
                        i == 0 ==> m == 0,
                        i > 0 ==> m == seq_max(d.take(i as int)),
                {
                    proof {
                        assert(d.take(i + 1).drop_last() =~= d.take(i as int));
                    }
                    if i == 0 || pairs[i].1 > m {
                        m = pairs[i].1;
                    }
                }
                proof {
                    assert(d.take(n as int) =~= d);
                    lemma_seq_max(d);
                }
                let mut level: usize = 0;
                loop
                    invariant_except_break
                        out@.len() == level,
                        forall|l: int| 0 <= l < level ==> layer_ok(self, d, #[trigger] views(out@[l]@), l),
                    invariant
                        self.wf(),
                        n == pairs@.len(),
                        n == self.node_seq().len(),
                        d == pairs@.map_values(|p: (String, usize)| p.1 as int),
                        forall|i: int| 0 <= i < n ==> (#[trigger] pairs@[i]).0@ == self.node_seq()[i],
                        m == seq_max(d),
                        forall|i: int| 0 <= i < n ==> d[i] <= m,
                        level <= m,
                    ensures
                        out@.len() == m + 1,
                        forall|l: int| 0 <= l < out@.len() ==> layer_ok(self, d, #[trigger] views(out@[l]@), l),
                    decreases m - level,
                {
                    let mut members: Vec<String> = Vec::new();
                    let ghost mut idxs: Seq<int> = Seq::empty();
                    for i in 0..n
                        invariant
                            self.wf(),
                            n == pairs@.len(),
                            n == self.node_seq().len(),
                            d == pairs@.map_values(|p: (String, usize)| p.1 as int),
                            forall|i: int| 0 <= i < n ==> (#[trigger] pairs@[i]).0@ == self.node_seq()[i],
                            members@.len() == idxs.len(),
                            forall|k: int| 0 <= k < idxs.len() ==> 0 <= #[trigger] idxs[k] < i && members@[k]@ == self.node_seq()[idxs[k]] && d[idxs[k]] == level as int,
                            forall|a: int, b: int| 0 <= a < b < idxs.len() ==> #[trigger] idxs[a] < #[trigger] idxs[b],
                            forall|j: int| 0 <= j < i && d[j] == level as int ==> #[trigger] idxs.contains(j),
                    {
                        if pairs[i].1 == level {
                            members.push(pairs[i].0.clone());
                            proof {
                                let old_idxs = idxs;
                                idxs = idxs.push(i as int);
                                assert forall|j: int| 0 <= j < i + 1 && d[j] == level as int implies #[trigger] idxs.contains(j) by {
                                    if j < i {
                                        assert(old_idxs.contains(j));
                                        let t = old_idxs.index_of(j);
                                        assert(idxs[t] == j);
                                    } else {
                                        assert(idxs[idxs.len() - 1] == j);
                                    }
                                }
                            }
                        } else {
                            proof {
                                assert forall|j: int| 0 <= j < i + 1 && d[j] == level as int implies #[trigger] idxs.contains(j) by {}
                            }
                        }
                    }
                    proof {
                        let v = views(members@);
                        assert forall|a: int, b: int| 0 <= a < b < v.len() implies v[a] != v[b] by {
                            assert(idxs[a] < idxs[b]);
                        }
                    }
                    let sorted = sort_labels(&members);
                    proof {
                        let v = views(sorted@);
                        assert forall|x: Seq<char>| v.contains(x) == (exists|i: int| 0 <= i < n && self.node_seq()[i] == x && d[i] == level as int) by {
                            if v.contains(x) {
                                assert(views(members@).contains(x));
                                let k = views(members@).index_of(x);
                                assert(self.node_seq()[idxs[k]] == x && d[idxs[k]] == level as int);
                            }
                            if exists|i: int| 0 <= i < n && self.node_seq()[i] == x && d[i] == level as int {
                                let i = choose|i: int| 0 <= i < n && self.node_seq()[i] == x && d[i] == level as int;
                                assert(idxs.contains(i));
                                let k = idxs.index_of(i);
                                assert(views(members@)[k] == x);
                            }
                        }
                        assert(layer_ok(self, d, v, level as int));
                    }
                    out.push(sorted);
                    proof {
                        assert forall|l: int| 0 <= l < level + 1 implies layer_ok(self, d, #[trigger] views(out@[l]@), l) by {}
                    }
                    if level == m {
                        break;
                    }
                    level += 1;
                }
                proof {
                    let lv = layer_views(out@);
                    assert forall|l: int| 0 <= l < lv.len() implies #[trigger] layer_ok(self, d, lv[l], l) by {
                        assert(lv[l] == views(out@[l]@));
                    }
                    assert(is_depth(self, d));
                    assert(is_layering(self, d, lv));
                }
                Ok(out)
            },
        }
    }

    /// The dependency depth of a node: 0 if it has no dependencies, otherwise
    /// one more than the deepest dependency. Returns 0 for unknown nodes or
    /// graphs containing a cycle.
    pub fn depth_of(&self, label: &str) -> (r: usize)
        ensures
            self.acyclic() && self.has_node(label@) ==> exists|d: Seq<int>| is_depth(self, d) && r as int == d[self.index_of_label(label@)],
            !(self.acyclic() && self.has_node(label@)) ==> r == 0,
    {
        proof {
            use_type_invariant(self);
        }
        proof {
            self.lemma_wf();
        }
        match self.depths() {
            Err(_) => 0,
            Ok(pairs) => {
                let ghost d = pairs@.map_values(|p: (String, usize)| p.1 as int);
                for i in 0..pairs.len()
                    invariant
                        self.wf(),
                        pairs@.len() == self.node_seq().len(),
                        d == pairs@.map_values(|p: (String, usize)| p.1 as int),
                        is_depth(self, d),
                        self.acyclic(),
                        forall|k: int| 0 <= k < pairs@.len() ==> (#[trigger] pairs@[k]).0@ == self.node_seq()[k],
                        forall|k: int| 0 <= k < i ==> self.node_seq()[k] != label@,
                {
                    if crate::text::str_eq(pairs[i].0.as_str(), label) {
                        proof {
                            assert(self.node_seq().contains(label@));
                            let ix = self.index_of_label(label@);
                            assert(ix == i as int);
                        }
                        return pairs[i].1;
                    }
                }
                proof {
                    assert(!self.node_seq().contains(label@));
                }
                0
            },
        }
    }
}

/// The character sequences of each layer.
pub open spec fn layer_views(ls: Seq<Vec<String>>) -> Seq<Seq<Seq<char>>> {
    ls.map_values(|l: Vec<String>| views(l@))
}

/// Layer `l` holds, in alphabetical order, exactly the nodes of depth `l`.
pub open spec fn layer_ok(g: &DepGraph, d: Seq<int>, layer: Seq<Seq<char>>, l: int) -> bool {
    &&& strictly_sorted(layer)
    &&& forall|x: Seq<char>| layer.contains(x) == (exists|i: int| 0 <= i < d.len() && g.node_seq()[i] == x && d[i] == l)
}

/// `ls` groups the nodes by depth `d`: one layer per depth from 0 to the
/// deepest, each alphabetical.
pub open spec fn is_layering(g: &DepGraph, d: Seq<int>, ls: Seq<Seq<Seq<char>>>) -> bool {
    &&& ls.len() == (if d.len() == 0 {
        0
    } else {
        seq_max(d) + 1
    })
    &&& forall|l: int| 0 <= l < ls.len() ==> #[trigger] layer_ok(g, d, ls[l], l)
}

/// The depth equation holds at node `x` for the assignment `d`.
pub open spec fn depth_eq(g: &DepGraph, d: Seq<usize>, x: int) -> bool {
    &&& forall|j: int| #[trigger] g.edge(x, j) ==> d[x] >= d[j] + 1
    &&& (d[x] == 0 && forall|j: int| !g.edge(x, j)) || exists|j: int| g.edge(x, j) && d[x] == d[j] + 1
}

/// A sequence shorter than `n` misses some value below `n`.
proof fn lemma_missing(s: Seq<usize>, n: usize)
    requires
        s.len() < n,
    ensures
        exists|x: usize| x < n && !s.contains(x),
{
    let r = Set::<usize>::range(0, n);
    <usize as vstd::set_lib::FiniteRange>::range_properties(0, n);
    if forall|x: usize| x < n ==> s.contains(x) {
        s.lemma_cardinality_of_set();
        assert(r.subset_of(s.to_set()));
        lemma_len_subset(r, s.to_set());
    }
}

proof fn lemma_push_contains_usize(s: Seq<usize>, v: usize, y: usize)
    ensures
        s.push(v).contains(y) == (s.contains(y) || y == v),
{
    crate::text::lemma_push_contains(s, v, y);
}

/// Topologically sort `g` (dependencies first). Returns the cycle path as
/// `Err` if `g` contains a cycle. Ties (nodes whose dependencies are all
/// already emitted) are broken alphabetically, so the output is fully
/// deterministic.
pub fn sort(g: &DepGraph) -> (r: Result<Vec<String>, Vec<String>>)
    ensures
        r is Ok == g.acyclic(),
        r matches Ok(order) ==> is_kahn_order(g, views(order@)),
        r matches Err(p) ==> is_cycle_in(g, views(p@)),
        r matches Err(p) ==> g.dfs_cycle() == Some(views(p@)),
        r matches Err(p) ==> views(p@).drop_last().no_duplicates(),
{
    proof {
        use_type_invariant(g);
    }
    g.topological_sort()
}

/// Each node's dependency depth, paired with its label in registration
/// order. Returns the cycle path as `Err` if the graph is not acyclic.
pub fn depths(g: &DepGraph) -> (r: Result<Vec<(String, usize)>, Vec<String>>)
    ensures
        r is Ok == g.acyclic(),
        r matches Ok(d) ==> d@.len() == g.node_seq().len() && (forall|i: int|
            0 <= i < d@.len() ==> (#[trigger] d@[i]).0@ == g.node_seq()[i]) && is_depth(
            g,
            d@.map_values(|p: (String, usize)| p.1 as int),
        ),
        r matches Err(p) ==> is_cycle_in(g, views(p@)),
        r matches Err(p) ==> g.dfs_cycle() == Some(views(p@)),
        r matches Err(p) ==> views(p@).drop_last().no_duplicates(),
{
    proof {
        use_type_invariant(g);
    }
    g.depths()
}

/// Group nodes into layers by dependency depth, each layer sorted
/// alphabetically. Layer index equals dependency depth.
pub fn layers(g: &DepGraph) -> (r: Result<Vec<Vec<String>>, Vec<String>>)
    ensures
        r is Ok == g.acyclic(),
        r matches Ok(ls) ==> exists|d: Seq<int>| is_depth(g, d) && is_layering(g, d, layer_views(ls@)),
        r matches Err(p) ==> is_cycle_in(g, views(p@)),
        r matches Err(p) ==> g.dfs_cycle() == Some(views(p@)),
        r matches Err(p) ==> views(p@).drop_last().no_duplicates(),
{
    proof {
        use_type_invariant(g);
    }
    g.layers()
}

/// Layers respect dependencies: when `x` depends on `y`, the layer holding
/// `y` comes strictly before the layer holding `x`.
pub proof fn lemma_layers_respect_dependencies(
    g: &DepGraph,
    d: Seq<int>,
    ls: Seq<Seq<Seq<char>>>,
    l1: int,
    l2: int,
    x: Seq<char>,
    y: Seq<char>,
)
    requires
        g.wf(),
        is_depth(g, d),
        is_layering(g, d, ls),
        0 <= l1 < ls.len(),
        0 <= l2 < ls.len(),
        ls[l1].contains(x),
        ls[l2].contains(y),
        g.has_edge(x, y),
    ensures
        l2 < l1,
{
    g.lemma_wf();
    assert(layer_ok(g, d, ls[l1], l1));
    assert(layer_ok(g, d, ls[l2], l2));
    let i = choose|i: int| 0 <= i < d.len() && g.node_seq()[i] == x && d[i] == l1;
    let j = choose|j: int| 0 <= j < d.len() && g.node_seq()[j] == y && d[j] == l2;
    let (i0, j0) = choose|i0: int, j0: int|
        0 <= i0 < g.node_seq().len() && 0 <= j0 < g.node_seq().len() && g.node_seq()[i0] == x && g.node_seq()[j0]
            == y && #[trigger] g.edge(i0, j0);
    assert(i0 == i);
    assert(j0 == j);
    assert(depth_clause(g, d, i0));
}

/// Every node sits in exactly one layer: the one numbered by its depth.
pub proof fn lemma_node_in_its_layer(g: &DepGraph, d: Seq<int>, ls: Seq<Seq<Seq<char>>>, i: int, l: int)
    requires
        g.wf(),
        is_depth(g, d),
        is_layering(g, d, ls),
        0 <= i < g.node_seq().len(),
        0 <= l < ls.len(),
    ensures
        0 <= d[i] < ls.len(),
        ls[l].contains(g.node_seq()[i]) <==> l == d[i],
{
    g.lemma_wf();
    lemma_seq_max(d);
    lemma_depth_nonneg(g, d, i);
    assert(layer_ok(g, d, ls[l], l));
    assert(layer_ok(g, d, ls[d[i]], d[i]));
    if ls[l].contains(g.node_seq()[i]) {
        let k = choose|k: int| 0 <= k < d.len() && g.node_seq()[k] == g.node_seq()[i] && d[k] == l;
        assert(k == i);
    }
}

/// Depths are never negative.
proof fn lemma_depth_nonneg(g: &DepGraph, d: Seq<int>, i: int)
    requires
        g.wf(),
        is_depth(g, d),
        0 <= i < d.len(),
    ensures
        d[i] >= 0,
{
    lemma_min_index(d, d.len() as int);
    let m = min_index(d, d.len() as int);
    assert(depth_clause(g, d, m));
    if d[m] != 0 {
        g.lemma_wf();
        let j = choose|j: int| g.edge(m, j) && d[m] == d[j] + 1;
        assert(d[m] <= d[j]);
    }
    assert(d[m] <= d[i]);
}

/// The index of a smallest value among the first `n` (given `n > 0`).
spec fn min_index(d: Seq<int>, n: int) -> int
    decreases n,
{
    if n <= 1 {
        0
    } else {
        let m = min_index(d, n - 1);
        if d[n - 1] < d[m] {
            n - 1
        } else {
            m
        }
    }
}

proof fn lemma_min_index(d: Seq<int>, n: int)
    requires
        0 < n <= d.len(),
    ensures
        0 <= min_index(d, n) < n,
        forall|k: int| 0 <= k < n ==> d[min_index(d, n)] <= #[trigger] d[k],
    decreases n,
{
    if n > 1 {
        lemma_min_index(d, n - 1);
    }
}

/// Kahn's order with alphabetical tie-breaking is unique: two orders that
/// both meet [`is_kahn_order`] are equal, so the sort is deterministic.
pub proof fn lemma_kahn_order_unique(g: &DepGraph, o1: Seq<Seq<char>>, o2: Seq<Seq<char>>)
    requires
        is_kahn_order(g, o1),
        is_kahn_order(g, o2),
    ensures
        o1 == o2,
{
    assert(o1.take(0) =~= o2.take(0));
    lemma_kahn_prefix(g, o1, o2, 0);
}

/// Two Kahn orders that agree on a prefix agree entirely.
proof fn lemma_kahn_prefix(g: &DepGraph, o1: Seq<Seq<char>>, o2: Seq<Seq<char>>, k: int)
    requires
        is_kahn_order(g, o1),
        is_kahn_order(g, o2),
        0 <= k <= o1.len(),
        o1.take(k) == o2.take(k),
    ensures
        o1 == o2,
    decreases o1.len() - k,
{
    if k == o1.len() {
        assert(o1 =~= o1.take(k));
        assert(o2 =~= o2.take(k));
    } else {
        let a = o1[k];
        let b = o2[k];
        assert(ready(g, o1.take(k), a));
        assert(ready(g, o2.take(k), b));
        assert(ready(g, o1.take(k), b));
        assert(ready(g, o2.take(k), a));
        assert(seq_le(a, b));
        assert(seq_le(b, a));
        if a != b {
            lemma_lt_asymmetric(a, b);
        }
        assert(o1.take(k + 1) =~= o2.take(k + 1));
        lemma_kahn_prefix(g, o1, o2, k + 1);
    }
}

/// `order` lists every node once, each after all of its dependencies.
pub open spec fn is_topo_order(g: &DepGraph, order: Seq<Seq<char>>) -> bool {
    &&& order.len() == g.node_seq().len()
    &&& forall|k: int| 0 <= k < order.len() ==> ready(g, order.take(k), #[trigger] order[k])
}

/// `a` comes no later than `b` in lexicographic order over labels: the two
/// are equal, or they agree up to a place where `a`'s label is smaller.
pub open spec fn order_le(a: Seq<Seq<char>>, b: Seq<Seq<char>>) -> bool {
    ||| a == b
    ||| exists|i: int| 0 <= i < a.len() && i < b.len() && a.take(i) == b.take(i) && seq_lt(a[i], b[i])
}

/// The order Kahn's algorithm emits is the lexicographically least of all
/// topological orders: whenever several nodes are ready, the alphabetically
/// smallest goes first, so no other valid order comes before it.
pub proof fn lemma_kahn_order_least(g: &DepGraph, order: Seq<Seq<char>>, o: Seq<Seq<char>>)
    requires
        is_kahn_order(g, order),
        is_topo_order(g, o),
    ensures
        order_le(order, o),
{
    assert(order.take(0) =~= o.take(0));
    lemma_kahn_least_from(g, order, o, 0);
}

/// From a common prefix of length `k`, the Kahn order is no later.
proof fn lemma_kahn_least_from(g: &DepGraph, order: Seq<Seq<char>>, o: Seq<Seq<char>>, k: int)
    requires
        is_kahn_order(g, order),
        is_topo_order(g, o),
        0 <= k <= order.len(),
        order.take(k) == o.take(k),
    ensures
        order_le(order, o),
    decreases order.len() - k,
{
    if k == order.len() {
        assert(order =~= order.take(k));
        assert(o =~= o.take(k));
    } else {
        let a = order[k];
        let b = o[k];
        assert(ready(g, o.take(k), b));
        assert(ready(g, order.take(k), b));
        assert(seq_le(a, b));
        if a == b {
            assert(order.take(k + 1) =~= o.take(k + 1));
            lemma_kahn_least_from(g, order, o, k + 1);
        } else {
            assert(seq_lt(a, b));
        }
    }
}

/// Laid end to end, the layers list every node exactly once, and no node
/// comes before one it depends on.
pub proof fn lemma_layer_order(g: &DepGraph, d: Seq<int>, ls: Seq<Seq<Seq<char>>>)
    requires
        g.wf(),
        is_depth(g, d),
        is_layering(g, d, ls),
    ensures
        cat(ls).no_duplicates(),
        forall|x: Seq<char>| cat(ls).contains(x) == g.has_node(x),
        forall|a: int, b: int|
            0 <= a < b < cat(ls).len() ==> !g.has_edge(
                #[trigger] cat(ls)[a],
                #[trigger] cat(ls)[b],
            ),
{
    lemma_layer_prefix(g, d, ls, ls.len() as int);
    assert(ls.take(ls.len() as int) =~= ls);
    let f = cat(ls);
    assert forall|x: Seq<char>| f.contains(x) == g.has_node(x) by {
        if f.contains(x) {
            let l = choose|l: int| 0 <= l < ls.len() && #[trigger] ls[l].contains(x);
            assert(layer_ok(g, d, ls[l], l));
            let i = choose|i: int| 0 <= i < d.len() && g.node_seq()[i] == x && d[i] == l;
            assert(g.node_seq().contains(x));
        }
        if g.has_node(x) {
            let i = choose|i: int| 0 <= i < g.node_seq().len() && g.node_seq()[i] == x;
            lemma_depth_nonneg(g, d, i);
            lemma_seq_max(d);
            assert(d[i] <= seq_max(d));
            lemma_node_in_its_layer(g, d, ls, i, d[i]);
            assert(ls[d[i]].contains(x));
        }
    }
}

/// The first `k` layers, laid end to end, repeat no node, hold exactly the
/// nodes of those layers, and put no node before one it depends on.
proof fn lemma_layer_prefix(g: &DepGraph, d: Seq<int>, ls: Seq<Seq<Seq<char>>>, k: int)
    requires
        g.wf(),
        is_depth(g, d),
        is_layering(g, d, ls),
        0 <= k <= ls.len(),
    ensures
        cat(ls.take(k)).no_duplicates(),
        forall|x: Seq<char>|
            cat(ls.take(k)).contains(x) == exists|l: int| 0 <= l < k && #[trigger] ls[l].contains(x),
        forall|a: int, b: int|
            0 <= a < b < cat(ls.take(k)).len() ==> !g.has_edge(
                #[trigger] cat(ls.take(k))[a],
                #[trigger] cat(ls.take(k))[b],
            ),
    decreases k,
{
    g.lemma_wf();
    if k == 0 {
        assert(cat(ls.take(0)) =~= Seq::<Seq<char>>::empty());
    } else {
        lemma_layer_prefix(g, d, ls, k - 1);
        let p = cat(ls.take(k - 1));
        let cur = ls[k - 1];
        assert(ls.take(k).drop_last() =~= ls.take(k - 1));
        let f = cat(ls.take(k));
        assert(f == p + cur);
        assert(layer_ok(g, d, cur, k - 1));
        assert forall|x: Seq<char>| f.contains(x) == exists|l: int| 0 <= l < k && #[trigger] ls[l].contains(x) by {
            if f.contains(x) {
                let t = choose|t: int| 0 <= t < f.len() && f[t] == x;
                if t >= p.len() {
                    assert(cur[t - p.len()] == x);
                    assert(ls[k - 1].contains(x));
                } else {
                    assert(p[t] == x);
                    assert(p.contains(x));
                }
            }
            if exists|l: int| 0 <= l < k && #[trigger] ls[l].contains(x) {
                let l = choose|l: int| 0 <= l < k && #[trigger] ls[l].contains(x);
                if l == k - 1 {
                    let t = choose|t: int| 0 <= t < cur.len() && cur[t] == x;
                    assert(f[p.len() + t] == x);
                } else {
                    assert(p.contains(x));
                    let t = choose|t: int| 0 <= t < p.len() && p[t] == x;
                    assert(f[t] == x);
                }
            }
        }
        // a node of an earlier layer is not in this one
        assert forall|t: int| 0 <= t < p.len() implies !cur.contains(#[trigger] p[t]) by {
            let x = p[t];
            assert(p.contains(x));
            let l = choose|l: int| 0 <= l < k - 1 && #[trigger] ls[l].contains(x);
            assert(layer_ok(g, d, ls[l], l));
            if cur.contains(x) {
                let i = choose|i: int| 0 <= i < d.len() && g.node_seq()[i] == x && d[i] == l;
                let j = choose|j: int| 0 <= j < d.len() && g.node_seq()[j] == x && d[j] == k - 1;
                assert(i == j);
            }
        }
        assert forall|a: int, b: int| 0 <= a < b < f.len() implies f[a] != f[b] by {
            if b < p.len() {
                assert(f[a] == p[a] && f[b] == p[b]);
            } else if a >= p.len() {
                assert(f[a] == cur[a - p.len()] && f[b] == cur[b - p.len()]);
                assert(seq_lt(cur[a - p.len()], cur[b - p.len()]));
                lemma_lt_irreflexive(cur[a - p.len()]);
            } else {
                assert(f[a] == p[a]);
                assert(f[b] == cur[b - p.len()]);
                assert(!cur.contains(p[a]));
            }
        }
        assert forall|a: int, b: int| 0 <= a < b < f.len() implies !g.has_edge(#[trigger] f[a], #[trigger] f[b]) by {
            if b < p.len() {
                assert(f[a] == p[a] && f[b] == p[b]);
            } else {
                let y = f[b];
                assert(y == cur[b - p.len()]);
                assert(ls[k - 1].contains(y));
                let x = f[a];
                let l1 = if a >= p.len() {
                    assert(x == cur[a - p.len()]);
                    k - 1
                } else {
                    assert(x == p[a]);
                    assert(p.contains(x));
                    choose|l: int| 0 <= l < k - 1 && #[trigger] ls[l].contains(x)
                };
                assert(ls[l1].contains(x));
                if g.has_edge(x, y) {
                    lemma_layers_respect_dependencies(g, d, ls, l1, k - 1, x, y);
                }
            }
        }
    }
}

/// Below a node of depth `k`, every depth from 0 to `k` is taken by some node.
proof fn lemma_depth_below(g: &DepGraph, d: Seq<int>, i: int, l: int)
    requires
        g.wf(),
        is_depth(g, d),
        0 <= i < d.len(),
        0 <= l <= d[i],
    ensures
        exists|j: int| 0 <= j < d.len() && d[j] == l,
    decreases d[i] - l,
{
    if d[i] != l {
        g.lemma_wf();
        assert(depth_clause(g, d, i));
        let j = choose|j: int| g.edge(i, j) && d[i] == d[j] + 1;
        lemma_depth_below(g, d, j, l);
    }
}

/// No layer is empty: each depth from 0 to the deepest is some node's.
pub proof fn lemma_layer_nonempty(g: &DepGraph, d: Seq<int>, ls: Seq<Seq<Seq<char>>>, l: int)
    requires
        g.wf(),
        is_depth(g, d),
        is_layering(g, d, ls),
        0 <= l < ls.len(),
    ensures
        ls[l].len() > 0,
{
    lemma_seq_max(d);
    let i = choose|i: int| 0 <= i < d.len() && d[i] == seq_max(d);
    lemma_depth_below(g, d, i, l);
    let j = choose|j: int| 0 <= j < d.len() && d[j] == l;
    assert(layer_ok(g, d, ls[l], l));
    assert(ls[l].contains(g.node_seq()[j]));
}

} // verus!
