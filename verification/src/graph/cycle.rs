//! Cycle detection with path reconstruction.

use vstd::prelude::*;
use super::{DepGraph, is_cycle_in};
use super::sort::{sort_by_key, keyed, views, sorted_of, lemma_sorted_of};

verus! {

/// A cycle over node indices: starts and ends at the same node and follows
/// edges.
pub open spec fn index_cycle(g: &DepGraph, c: Seq<usize>) -> bool {
    &&& c.len() >= 2
    &&& c[0] == c.last()
    &&& forall|k: int| 0 <= k < c.len() - 1 ==> #[trigger] g.edge(c[k] as int, c[k + 1] as int)
}

/// The nodes `l` depends on, alphabetically.
pub open spec fn out_of(edges: Set<(Seq<char>, Seq<char>)>, l: Seq<char>) -> Seq<Seq<char>> {
    sorted_of(Set::new(|b: Seq<char>| edges.contains((l, b))))
}

/// Depth-first visit of `u`, which is neither finished nor on `path`: `u`
/// joins the path, its dependencies are visited alphabetically, and it is
/// finished unless a cycle turns up. The result is the cycle found, if any,
/// and the finished nodes. `fuel` bounds the depth of the search.
pub open spec fn dfs_visit(
    edges: Set<(Seq<char>, Seq<char>)>,
    fuel: nat,
    u: Seq<char>,
    done: Set<Seq<char>>,
    path: Seq<Seq<char>>,
) -> (Option<Seq<Seq<char>>>, Set<Seq<char>>)
    decreases fuel, 1int, 0int,
{
    let (c, d) = dfs_deps(edges, fuel, out_of(edges, u), done, path.push(u));
    if c is Some {
        (c, d)
    } else {
        (None, d.insert(u))
    }
}

/// The dependencies `ds` of the last node of `path`, in order: one already on
/// the path closes a cycle (the path from it, and it again); a finished one
/// is passed over; any other is visited.
pub open spec fn dfs_deps(
    edges: Set<(Seq<char>, Seq<char>)>,
    fuel: nat,
    ds: Seq<Seq<char>>,
    done: Set<Seq<char>>,
    path: Seq<Seq<char>>,
) -> (Option<Seq<Seq<char>>>, Set<Seq<char>>)
    decreases fuel, 0int, ds.len(),
{
    if ds.len() == 0 {
        (None, done)
    } else {
        let v = ds[0];
        if path.contains(v) {
            (Some(path.subrange(path.index_of(v), path.len() as int).push(v)), done)
        } else if done.contains(v) || fuel == 0 {
            dfs_deps(edges, fuel, ds.drop_first(), done, path)
        } else {
            let (c, d) = dfs_visit(edges, (fuel - 1) as nat, v, done, path);
            if c is Some {
                (c, d)
            } else {
                dfs_deps(edges, fuel, ds.drop_first(), d, path)
            }
        }
    }
}

/// The search from each root in turn that is not yet finished.
pub open spec fn dfs_roots(
    edges: Set<(Seq<char>, Seq<char>)>,
    fuel: nat,
    rs: Seq<Seq<char>>,
    done: Set<Seq<char>>,
) -> (Option<Seq<Seq<char>>>, Set<Seq<char>>)
    decreases rs.len(),
{
    if rs.len() == 0 {
        (None, done)
    } else if done.contains(rs[0]) {
        dfs_roots(edges, fuel, rs.drop_first(), done)
    } else {
        let (c, d) = dfs_visit(edges, fuel, rs[0], done, Seq::empty());
        if c is Some {
            (c, d)
        } else {
            dfs_roots(edges, fuel, rs.drop_first(), d)
        }
    }
}

/// The cycle a depth-first search meets first when it starts from the `n`
/// nodes in alphabetical order and follows dependencies alphabetically.
pub open spec fn first_cycle(nodes: Set<Seq<char>>, edges: Set<(Seq<char>, Seq<char>)>, n: nat) -> Option<
    Seq<Seq<char>>,
> {
    dfs_roots(edges, n, sorted_of(nodes), Set::empty()).0
}

/// The labels of a run of node indices.
pub open spec fn labels_of(g: &DepGraph, p: Seq<usize>) -> Seq<Seq<char>> {
    p.map_values(|i: usize| g.node_seq()[i as int])
}

/// The labels of the nodes a colouring marks finished.
pub open spec fn finished(g: &DepGraph, color: Seq<u128>) -> Set<Seq<char>> {
    Set::new(
        |l: Seq<char>| exists|i: int| 0 <= i < color.len() && #[trigger] color[i] >= 2 && g.node_seq()[i] == l,
    )
}

/// `res`, and the colouring `after` when `res` is `None`, are what the
/// search of node `u` gives from the colouring `before` and the path `path`.
pub open spec fn visit_agrees(
    g: &DepGraph,
    u: usize,
    before: Seq<u128>,
    path: Seq<usize>,
    res: Option<Seq<usize>>,
    after: Seq<u128>,
) -> bool {
    let r = dfs_visit(
        g.edge_set(),
        (g.node_seq().len() - path.len()) as nat,
        g.node_seq()[u as int],
        finished(g, before),
        labels_of(g, path),
    );
    match res {
        Some(c) => r.0 == Some(labels_of(g, c)),
        None => r.0 is None && finished(g, after) == r.1,
    }
}

/// Number of unvisited (zero) entries.
pub open spec fn count_white(c: Seq<u128>) -> nat
    decreases c.len(),
{
    if c.len() == 0 {
        0
    } else {
        count_white(c.drop_last()) + (if c.last() == 0 {
            1nat
        } else {
            0nat
        })
    }
}

proof fn lemma_count_update(c: Seq<u128>, i: int, v: u128)
    requires
        0 <= i < c.len(),
    ensures
        count_white(c.update(i, v)) + (if c[i] == 0 {
            1int
        } else {
            0int
        }) == count_white(c) + (if v == 0 {
            1int
        } else {
            0int
        }),
    decreases c.len(),
{
    if i == c.len() - 1 {
        assert(c.update(i, v).drop_last() =~= c.drop_last());
    } else {
        lemma_count_update(c.drop_last(), i, v);
        assert(c.update(i, v).drop_last() =~= c.drop_last().update(i, v));
    }
}

proof fn lemma_count_mono(a: Seq<u128>, b: Seq<u128>)
    requires
        a.len() == b.len(),
        forall|i: int| 0 <= i < a.len() && a[i] == 0 ==> b[i] == 0,
    ensures
        count_white(a) <= count_white(b),
    decreases a.len(),
{
    if a.len() > 0 {
        lemma_count_mono(a.drop_last(), b.drop_last());
    }
}

proof fn lemma_count_zeros(c: Seq<u128>)
    requires
        forall|i: int| 0 <= i < c.len() ==> c[i] == 0,
    ensures
        count_white(c) == c.len(),
    decreases c.len(),
{
    if c.len() > 0 {
        lemma_count_zeros(c.drop_last());
    }
}

/// The depth-first search state: gray nodes (1) are exactly the current
/// path, black nodes (>= 2) carry their finishing stamp, and every edge out of
/// a black node leads to a black node finished earlier.
pub open spec fn dfs_inv(g: &DepGraph, color: Seq<u128>, clock: u128, path: Seq<usize>) -> bool {
    let n = g.node_seq().len();
    &&& color.len() == n
    &&& path.no_duplicates()
    &&& forall|k: int| 0 <= k < path.len() ==> (#[trigger] path[k]) < n && color[path[k] as int] == 1
    &&& forall|i: int| 0 <= i < n && #[trigger] color[i] == 1 ==> path.contains(i as usize)
    &&& forall|k: int| 0 <= k < path.len() - 1 ==> #[trigger] g.edge(path[k] as int, path[k + 1] as int)
    &&& clock >= 2
    &&& forall|i: int| 0 <= i < n ==> #[trigger] color[i] < clock
    &&& forall|i: int, j: int|
        #[trigger] g.edge(i, j) && color[i] >= 2 ==> color[j] >= 2 && color[j] < color[i]
    &&& clock - 2 + path.len() + count_white(color) == n
}

impl DepGraph {
    /// Every dependency, as (dependent, dependency) label pairs.
    pub open spec fn edge_set(&self) -> Set<(Seq<char>, Seq<char>)> {
        Set::new(|e: (Seq<char>, Seq<char>)| self.has_edge(e.0, e.1))
    }

    /// The cycle that [`DepGraph::detect_cycle`] reports (see [`first_cycle`]).
    pub open spec fn dfs_cycle(&self) -> Option<Seq<Seq<char>>> {
        first_cycle(self.node_set(), self.edge_set(), self.node_seq().len())
    }

    /// A node's label is finished exactly when its colour says so.
    proof fn lemma_finished_index(&self, color: Seq<u128>, v: int)
        requires
            self.wf(),
            color.len() == self.node_seq().len(),
            0 <= v < color.len(),
        ensures
            finished(self, color).contains(self.node_seq()[v]) == (color[v] >= 2),
    {
        self.lemma_wf();
        if finished(self, color).contains(self.node_seq()[v]) {
            let i = choose|i: int| 0 <= i < color.len() && #[trigger] color[i] >= 2 && self.node_seq()[i] == self.node_seq()[v];
            assert(i == v);
        }
    }

    /// Recolouring an unfinished node: finished again exactly when its new
    /// colour says so.
    proof fn lemma_finished_update(&self, color: Seq<u128>, v: int, c: u128)
        requires
            self.wf(),
            color.len() == self.node_seq().len(),
            0 <= v < color.len(),
            color[v] < 2,
        ensures
            c < 2 ==> finished(self, color.update(v, c)) == finished(self, color),
            c >= 2 ==> finished(self, color.update(v, c)) == finished(self, color).insert(self.node_seq()[v]),
    {
        self.lemma_wf();
        let after = color.update(v, c);
        assert forall|l: Seq<char>| #[trigger] finished(self, after).contains(l) == (finished(self, color).contains(l) || (
        c >= 2 && l == self.node_seq()[v])) by {
            if finished(self, after).contains(l) {
                let i = choose|i: int| 0 <= i < after.len() && #[trigger] after[i] >= 2 && self.node_seq()[i] == l;
                if i != v {
                    assert(color[i] >= 2);
                }
            }
            if finished(self, color).contains(l) {
                let i = choose|i: int| 0 <= i < color.len() && #[trigger] color[i] >= 2 && self.node_seq()[i] == l;
                assert(i != v);
                assert(after[i] >= 2);
            }
            if c >= 2 && l == self.node_seq()[v] {
                assert(after[v] >= 2);
            }
        }
        if c < 2 {
            assert(finished(self, after) =~= finished(self, color));
        } else {
            assert(finished(self, after) =~= finished(self, color).insert(self.node_seq()[v]));
        }
    }

    /// A node's label is on a path of indices exactly when the node is.
    proof fn lemma_label_on_path(&self, path: Seq<usize>, v: int)
        requires
            self.wf(),
            forall|k: int| 0 <= k < path.len() ==> (#[trigger] path[k]) < self.node_seq().len(),
            0 <= v < self.node_seq().len(),
        ensures
            labels_of(self, path).contains(self.node_seq()[v]) == path.contains(v as usize),
    {
        self.lemma_wf();
        if labels_of(self, path).contains(self.node_seq()[v]) {
            let k = labels_of(self, path).index_of(self.node_seq()[v]);
            assert(self.node_seq()[path[k] as int] == self.node_seq()[v]);
            assert(path[k] as int == v);
        }
        if path.contains(v as usize) {
            let k = path.index_of(v as usize);
            assert(labels_of(self, path)[k] == self.node_seq()[v]);
        }
    }

    /// The labels of all nodes, cloned.
    fn labels(&self) -> (r: Vec<String>)
        ensures
            views(r@) == self.node_seq(),
    {
        proof {
            use_type_invariant(self);
        }
        let r = self.node_labels();
        r
    }

    /// The dependencies of node `u`, in alphabetical order of their labels.
    fn sorted_deps(&self, labels: &Vec<String>, u: usize) -> (r: Vec<usize>)
        requires
            views(labels@) == self.node_seq(),
            u < self.node_seq().len(),
        ensures
            forall|k: int| 0 <= k < r@.len() ==> (#[trigger] r@[k]) < self.node_seq().len(),
            forall|x: usize| r@.contains(x) == self.edge(u as int, x as int),
            labels_of(self, r@) == out_of(self.edge_set(), self.node_seq()[u as int]),
    {
        proof {
            use_type_invariant(self);
        }
        proof {
            self.lemma_wf();
        }
        let deps = &self.nodes[u].deps;
        proof {
            assert forall|a: int, b: int|
                0 <= a < b < deps@.len() implies keyed(labels@, deps@)[a] != keyed(
                labels@,
                deps@,
            )[b] by {
                assert(deps@[a] != deps@[b]);
                assert(views(labels@)[deps@[a] as int] == labels@[deps@[a] as int]@);
                assert(views(labels@)[deps@[b] as int] == labels@[deps@[b] as int]@);
            }
        }
        let r = sort_by_key(labels, deps);
        proof {
            assert forall|x: usize| r@.contains(x) == self.edge(u as int, x as int) by {
                if deps@.contains(x) {
                    let k = deps@.index_of(x);
                    assert(deps@[k] < self.node_seq().len());
                }
            }
            let lu = self.node_seq()[u as int];
            let outs = Set::new(|b: Seq<char>| self.edge_set().contains((lu, b)));
            assert(keyed(labels@, r@) =~= labels_of(self, r@)) by {
                assert forall|k: int| 0 <= k < r@.len() implies keyed(labels@, r@)[k] == labels_of(self, r@)[k] by {
                    assert(views(labels@)[r@[k] as int] == labels@[r@[k] as int]@);
                }
            }
            assert forall|l: Seq<char>| labels_of(self, r@).contains(l) == outs.contains(l) by {
                if labels_of(self, r@).contains(l) {
                    let k = labels_of(self, r@).index_of(l);
                    let x = r@[k];
                    assert(r@.contains(x));
                    assert(self.edge(u as int, x as int));
                    assert(self.has_edge(lu, l));
                }
                if outs.contains(l) {
                    assert(self.has_edge(lu, l));
                    self.lemma_has_edge_index(lu, l);
                    let i = self.index_of_label(lu);
                    let j = self.index_of_label(l);
                    assert(i == u as int);
                    assert(r@.contains(j as usize));
                    let k = r@.index_of(j as usize);
                    assert(labels_of(self, r@)[k] == l);
                }
            }
            lemma_sorted_of(labels_of(self, r@), outs);
        }
        r
    }

    /// Depth-first visit from the white node `u`. Returns a cycle if a back
    /// edge to a node on the current path is found.
    fn visit(
        &self,
        labels: &Vec<String>,
        u: usize,
        color: &mut Vec<u128>,
        clock: &mut u128,
        path: &mut Vec<usize>,
    ) -> (res: Option<Vec<usize>>)
        requires
            views(labels@) == self.node_seq(),
            u < self.node_seq().len(),
            old(color)@[u as int] == 0,
            dfs_inv(self, old(color)@, *old(clock), old(path)@),
            old(path)@.len() > 0 ==> self.edge(old(path)@.last() as int, u as int),
        ensures
            res matches Some(c) ==> index_cycle(self, c@),
            res matches Some(c) ==> c@.drop_last().no_duplicates(),
            visit_agrees(
                self,
                u,
                old(color)@,
                old(path)@,
                match res {
                    Some(c) => Some(c@),
                    None => None,
                },
                final(color)@,
            ),
            res is None ==> {
                &&& dfs_inv(self, final(color)@, *final(clock), final(path)@)
                &&& final(path)@ == old(path)@
                &&& final(color)@[u as int] >= 2
                &&& forall|i: int|
                    0 <= i < self.node_seq().len() && i != u && old(color)@[i] != 0
                        ==> #[trigger] final(color)@[i] == old(color)@[i]
                &&& forall|i: int|
                    0 <= i < self.node_seq().len() && #[trigger] final(color)@[i] == 0
                        ==> old(color)@[i] == 0
            },
        decreases count_white(old(color)@),
    {
        proof {
            use_type_invariant(self);
        }
        let ghost n = self.node_seq().len();
        let ghost edges = self.edge_set();
        let ghost lu = self.node_seq()[u as int];
        let ghost fuel = (n - old(path)@.len()) as nat;
        let ghost done0 = finished(self, old(color)@);
        proof {
            lemma_count_update(color@, u as int, 1);
            self.lemma_wf();
            assert(!old(path)@.contains(u)) by {
                if old(path)@.contains(u) {
                    let k = old(path)@.index_of(u);
                    assert(old(color)@[old(path)@[k] as int] == 1);
                }
            }
            assert(old(path)@.push(u).no_duplicates()) by {
                assert forall|a: int, b: int| 0 <= a < b < old(path)@.push(u).len() implies old(path)@.push(u)[a]
                    != old(path)@.push(u)[b] by {
                    if b == old(path)@.len() {
                        assert(old(path)@.contains(old(path)@[a]));
                    }
                }
            }
            crate::graph::topo::lemma_pigeonhole(old(path)@.push(u), n as usize);
            self.lemma_finished_update(old(color)@, u as int, 1);
        }
        color.set(u, 1);
        path.push(u);
        proof {
            assert forall|i: int| 0 <= i < n && #[trigger] color@[i] == 1 implies path@.contains(
                i as usize,
            ) by {
                if i != u as int {
                    assert(old(path)@.contains(i as usize));
                    let k = old(path)@.index_of(i as usize);
                    assert(path@[k] == i as usize);
                } else {
                    assert(path@[path@.len() - 1] == u);
                }
            }
            assert forall|k: int| 0 <= k < path@.len() - 1 implies #[trigger] self.edge(
                path@[k] as int,
                path@[k + 1] as int,
            ) by {
                if k < path@.len() - 2 {
                    assert(path@[k] == old(path)@[k]);
                    assert(path@[k + 1] == old(path)@[k + 1]);
                }
            }
            assert forall|a: int, b: int| 0 <= a < b < path@.len() implies path@[a] != path@[b] by {
                if b == path@.len() - 1 {
                    assert(old(color)@[old(path)@[a] as int] == 1);
                }
            }
        }
        let deps = self.sorted_deps(labels, u);
        let ghost ds = labels_of(self, deps@);
        let ghost on_path = labels_of(self, path@);
        proof {
            assert(on_path =~= labels_of(self, old(path)@).push(lu));
            assert(ds.skip(0) =~= ds);
        }
        let mut k: usize = 0;
        while k < deps.len()
            invariant
                self.wf(),
                edges == self.edge_set(),
                lu == self.node_seq()[u as int],
                fuel == (n - old(path)@.len()) as nat,
                fuel >= 1,
                done0 == finished(self, old(color)@),
                ds == labels_of(self, deps@),
                ds == out_of(edges, lu),
                on_path == labels_of(self, path@),
                on_path == labels_of(self, old(path)@).push(lu),
                dfs_deps(edges, fuel, ds, done0, on_path) == dfs_deps(
                    edges,
                    fuel,
                    ds.skip(k as int),
                    finished(self, color@),
                    on_path,
                ),
                views(labels@) == self.node_seq(),
                n == self.node_seq().len(),
                u < n,
                forall|m: int| 0 <= m < deps@.len() ==> (#[trigger] deps@[m]) < n,
                forall|x: usize| deps@.contains(x) == self.edge(u as int, x as int),
                k <= deps@.len(),
                dfs_inv(self, color@, *clock, path@),
                path@ == old(path)@.push(u),
                color@[u as int] == 1,
                forall|m: int| 0 <= m < k ==> color@[#[trigger] deps@[m] as int] >= 2,
                forall|i: int| 0 <= i < n && #[trigger] color@[i] == 0 ==> old(color)@[i] == 0,
                forall|i: int|
                    0 <= i < n && i != u && old(color)@[i] != 0 ==> #[trigger] color@[i] == old(
                        color,
                    )@[i],
                count_white(color@) < count_white(old(color)@),
            decreases deps@.len() - k,
        {
            let v = deps[k];
            assert(deps@.contains(v));
            let ghost before = color@;
            let ghost lv = self.node_seq()[v as int];
            let ghost rest = ds.skip(k as int);
            proof {
                assert(rest[0] == lv);
                assert(rest.drop_first() =~= ds.skip(k + 1));
                self.lemma_finished_index(color@, v as int);
                self.lemma_label_on_path(path@, v as int);
            }
            if color[v] == 0 {
                proof {
                    assert(!path@.contains(v)) by {
                        if path@.contains(v) {
                            let q = path@.index_of(v);
                            assert(color@[path@[q] as int] == 1);
                        }
                    }
                    assert(path@.len() == old(path)@.len() + 1);
                }
                let r = self.visit(labels, v, color, clock, path);
                if r.is_some() {
                    proof {
                        assert(dfs_deps(edges, fuel, rest, finished(self, before), on_path).0 == dfs_visit(
                            edges,
                            (fuel - 1) as nat,
                            lv,
                            finished(self, before),
                            on_path,
                        ).0);
                        assert(dfs_deps(edges, fuel, ds, done0, on_path).0 == Some(labels_of(self, r.unwrap()@)));
                        assert(dfs_visit(edges, fuel, lu, done0, labels_of(self, old(path)@)).0 == dfs_deps(
                            edges,
                            fuel,
                            ds,
                            done0,
                            on_path,
                        ).0);
                    }
                    return r;
                }
                proof {
                    assert(dfs_deps(edges, fuel, rest, finished(self, before), on_path) == dfs_deps(
                        edges,
                        fuel,
                        ds.skip(k + 1),
                        finished(self, color@),
                        on_path,
                    ));
                    lemma_count_mono(color@, before);
                    assert forall|m: int| 0 <= m < k + 1 implies color@[#[trigger] deps@[m] as int]
                        >= 2 by {
                        if m < k {
                            assert(before[deps@[m] as int] >= 2);
                        }
                    }
                }
            } else if color[v] == 1 {
                assert(path@.contains(v));
                let ghost t0 = path@.index_of(v);
                let plen = path.len();
                let mut s: usize = 0;
                while path[s] != v
                    invariant
                        plen == path@.len(),
                        s <= t0 < path@.len(),
                        path@[t0] == v,
                    decreases path@.len() - s,
                {
                    s += 1;
                }
                let mut cyc: Vec<usize> = Vec::new();
                let mut t: usize = s;
                while t < path.len()
                    invariant
                        s <= t <= path@.len(),
                        cyc@ == path@.subrange(s as int, t as int),
                    decreases path@.len() - t,
                {
                    cyc.push(path[t]);
                    assert(cyc@ =~= path@.subrange(s as int, t + 1));
                    t += 1;
                }
                cyc.push(v);
                proof {
                    assert(on_path.no_duplicates()) by {
                        assert forall|a: int, b: int| 0 <= a < b < on_path.len() implies on_path[a] != on_path[b] by {
                            assert(path@[a] != path@[b]);
                        }
                    }
                    assert(on_path[s as int] == lv);
                    assert(on_path.index_of(lv) == s as int);
                    assert(labels_of(self, cyc@) =~= on_path.subrange(s as int, on_path.len() as int).push(lv));
                    assert(cyc@.drop_last() =~= path@.subrange(s as int, path@.len() as int));
                    assert(dfs_deps(edges, fuel, ds, done0, on_path).0 == Some(labels_of(self, cyc@)));
                    assert(dfs_visit(edges, fuel, lu, done0, labels_of(self, old(path)@)).0 == dfs_deps(
                        edges,
                        fuel,
                        ds,
                        done0,
                        on_path,
                    ).0);
                    assert forall|q: int| 0 <= q < cyc@.len() - 1 implies #[trigger] self.edge(
                        cyc@[q] as int,
                        cyc@[q + 1] as int,
                    ) by {
                        if q < cyc@.len() - 2 {
                            assert(cyc@[q] == path@[s + q]);
                            assert(cyc@[q + 1] == path@[s + q + 1]);
                        } else {
                            assert(cyc@[q] == path@[path@.len() - 1]);
                        }
                    }
                }
                return Some(cyc);
            }
            k += 1;
        }
        proof {
            assert(ds.skip(k as int) =~= Seq::<Seq<char>>::empty());
        }
        proof {
            assert forall|j: int| #[trigger] self.edge(u as int, j) implies color@[j] >= 2 by {
                self.lemma_wf();
                assert(deps@.contains(j as usize));
                let m = deps@.index_of(j as usize);
                assert(deps@[m] == j as usize);
            }
        }
        let _ = path.pop();
        let ghost before = color@;
        let stamp = *clock;
        proof {
            lemma_count_update(color@, u as int, stamp);
        }
        proof {
            self.lemma_finished_update(color@, u as int, stamp);
        }
        color.set(u, stamp);
        *clock = stamp + 1;
        proof {
            assert(path@ =~= old(path)@);
            assert forall|i: int| 0 <= i < n && #[trigger] color@[i] == 1 implies path@.contains(
                i as usize,
            ) by {
                assert(before[i] == 1);
                assert(old(path)@.push(u).contains(i as usize));
                let q = old(path)@.push(u).index_of(i as usize);
                if q == old(path)@.len() {
                    assert(i == u as int);
                }
                assert(path@[q] == i as usize);
            }
            assert forall|i: int, j: int| #[trigger] self.edge(i, j) && color@[i] >= 2 implies color@[j]
                >= 2 && color@[j] < color@[i] by {
                self.lemma_wf();
                if i != u as int && j == u as int {
                    assert(before[u as int] == 1);
                }
            }
        }
        None
    }

    /// Depth-first search for a cycle, visiting nodes alphabetically.
    fn find_cycle(&self) -> (r: Option<Vec<usize>>)
        ensures
            r matches Some(c) ==> index_cycle(self, c@),
            r matches Some(c) ==> c@.drop_last().no_duplicates(),
            r is None ==> self.acyclic(),
            r matches Some(c) ==> self.dfs_cycle() == Some(labels_of(self, c@)),
            r is None ==> self.dfs_cycle() is None,
    {
        proof {
            use_type_invariant(self);
        }
        let n = self.nodes.len();
        let labels = self.labels();
        let mut color: Vec<u128> = Vec::new();
        for k in 0..n
            invariant
                color@.len() == k,
                forall|i: int| 0 <= i < k ==> color@[i] == 0,
        {
            color.push(0);
        }
        proof {
            lemma_count_zeros(color@);
        }
        let mut clock: u128 = 2;
        let mut path: Vec<usize> = Vec::new();
        let mut all: Vec<usize> = Vec::new();
        for k in 0..n
            invariant
                all@.len() == k,
                forall|i: int| 0 <= i < k ==> #[trigger] all@[i] == i,
        {
            all.push(k);
        }
        proof {
            self.lemma_wf();
            assert forall|a: int, b: int| 0 <= a < b < all@.len() implies keyed(labels@, all@)[a]
                != keyed(labels@, all@)[b] by {
                assert(views(labels@)[a] == labels@[a]@);
                assert(views(labels@)[b] == labels@[b]@);
            }
        }
        let roots = sort_by_key(&labels, &all);
        let ghost edges = self.edge_set();
        let ghost rs = labels_of(self, roots@);
        proof {
            assert(keyed(labels@, roots@) =~= rs) by {
                assert forall|k: int| 0 <= k < roots@.len() implies keyed(labels@, roots@)[k] == rs[k] by {
                    assert(views(labels@)[roots@[k] as int] == labels@[roots@[k] as int]@);
                }
            }
            assert forall|l: Seq<char>| rs.contains(l) == self.node_set().contains(l) by {
                if rs.contains(l) {
                    let k = rs.index_of(l);
                    assert(all@.contains(roots@[k]));
                    let m = all@.index_of(roots@[k]);
                    assert(self.node_seq()[roots@[k] as int] == l);
                }
                if self.node_set().contains(l) {
                    let i = self.node_seq().index_of(l);
                    assert(all@[i] == i as usize);
                    assert(all@.contains(i as usize));
                    assert(roots@.contains(i as usize));
                    let k = roots@.index_of(i as usize);
                    assert(rs[k] == l);
                }
            }
            lemma_sorted_of(rs, self.node_set());
            assert(finished(self, color@) =~= Set::<Seq<char>>::empty());
            assert(rs.skip(0) =~= rs);
            assert(labels_of(self, Seq::<usize>::empty()) =~= Seq::<Seq<char>>::empty());
        }
        for k in 0..roots.len()
            invariant
                self.wf(),
                edges == self.edge_set(),
                rs == labels_of(self, roots@),
                rs == sorted_of(self.node_set()),
                labels_of(self, Seq::<usize>::empty()) == Seq::<Seq<char>>::empty(),
                dfs_roots(edges, n as nat, rs, Set::empty()) == dfs_roots(
                    edges,
                    n as nat,
                    rs.skip(k as int),
                    finished(self, color@),
                ),
                views(labels@) == self.node_seq(),
                n == self.node_seq().len(),
                roots@.len() == n,
                forall|m: int| 0 <= m < roots@.len() ==> (#[trigger] roots@[m]) < n,
                dfs_inv(self, color@, clock, path@),
                path@.len() == 0,
                forall|m: int| 0 <= m < k ==> color@[#[trigger] roots@[m] as int] >= 2,
        {
            let v = roots[k];
            let ghost before = color@;
            let ghost lv = self.node_seq()[v as int];
            proof {
                assert(rs.skip(k as int)[0] == lv);
                assert(rs.skip(k as int).drop_first() =~= rs.skip(k + 1));
                self.lemma_finished_index(color@, v as int);
                assert(path@ =~= Seq::<usize>::empty());
            }
            if color[v] == 0 {
                match self.visit(&labels, v, &mut color, &mut clock, &mut path) {
                    Some(c) => {
                        proof {
                            assert(dfs_roots(edges, n as nat, rs.skip(k as int), finished(self, before)).0 == Some(
                                labels_of(self, c@),
                            ));
                        }
                        return Some(c);
                    },
                    None => {},
                }
                proof {
                    assert(dfs_roots(edges, n as nat, rs.skip(k as int), finished(self, before)) == dfs_roots(
                        edges,
                        n as nat,
                        rs.skip(k + 1),
                        finished(self, color@),
                    ));
                    assert forall|m: int| 0 <= m < k + 1 implies color@[#[trigger] roots@[m] as int]
                        >= 2 by {
                        if m < k {
                            assert(before[roots@[m] as int] >= 2);
                        }
                    }
                }
            } else {
                proof {
                    if color@[v as int] == 1 {
                        assert(path@.contains(v));
                    }
                    assert(dfs_roots(edges, n as nat, rs.skip(k as int), finished(self, color@)) == dfs_roots(
                        edges,
                        n as nat,
                        rs.skip(k + 1),
                        finished(self, color@),
                    ));
                }
            }
        }
        proof {
            let rank = color@.map_values(|c: u128| c as int);
            assert forall|i: int| 0 <= i < n implies color@[i] >= 2 by {
                assert(all@[i] == i as usize);
                assert(all@.contains(i as usize));
                assert(roots@.contains(i as usize));
                let m = roots@.index_of(i as usize);
                assert(roots@[m] == i as usize);
            }
            assert forall|i: int, j: int| #[trigger] self.edge(i, j) implies rank[i] > rank[j] by {
                self.lemma_wf();
            }
            self.lemma_rank_acyclic(rank);
            assert(rs.skip(roots@.len() as int) =~= Seq::<Seq<char>>::empty());
        }
        None
    }

    /// Turn an index cycle into the labels it passes through.
    fn cycle_labels(&self, c: &Vec<usize>) -> (r: Vec<String>)
        requires
            index_cycle(self, c@),
            c@.drop_last().no_duplicates(),
        ensures
            is_cycle_in(self, views(r@)),
            views(r@) == labels_of(self, c@),
            views(r@).drop_last().no_duplicates(),
    {
        proof {
            use_type_invariant(self);
        }
        let mut r: Vec<String> = Vec::new();
        proof {
            self.lemma_wf();
            let z = 0int;
            assert(self.edge(c@[z] as int, c@[z + 1] as int));
        }
        for k in 0..c.len()
            invariant
                self.wf(),
                index_cycle(self, c@),
                r@.len() == k,
                forall|m: int| 0 <= m < k ==> #[trigger] r@[m]@ == self.node_seq()[c@[m] as int],
        {
            proof {
                if k < c@.len() - 1 {
                    assert(self.edge(c@[k as int] as int, c@[k + 1] as int));
                } else {
                    let q = k - 1;
                    assert(self.edge(c@[q] as int, c@[q + 1] as int));
                }
                self.lemma_wf();
            }
            r.push(self.nodes[c[k]].label.clone());
        }
        proof {
            let p = views(r@);
            assert forall|k: int| 0 <= k < p.len() - 1 implies #[trigger] self.has_edge(p[k], p[k + 1]) by {
                assert(self.edge(c@[k] as int, c@[k + 1] as int));
                self.lemma_wf();
            }
            assert(p =~= labels_of(self, c@));
            assert forall|a: int, b: int| 0 <= a < b < p.drop_last().len() implies p.drop_last()[a] != p.drop_last()[b] by {
                assert(c@.drop_last()[a] != c@.drop_last()[b]);
                assert(self.edge(c@[a] as int, c@[a + 1] as int));
                assert(self.edge(c@[b] as int, c@[b + 1] as int));
            }
        }
        r
    }

    /// Detect a dependency cycle. On success returns `Ok(())`; on failure
    /// returns the cycle path, which starts and ends at the same node (e.g.
    /// `["a", "b", "a"]`). Nodes are visited in alphabetical order so the
    /// reported cycle is deterministic: it is [`DepGraph::dfs_cycle`].
    pub fn detect_cycle(&self) -> (r: Result<(), Vec<String>>)
        ensures
            r is Ok == self.acyclic(),
            r matches Err(p) ==> is_cycle_in(self, views(p@)),
            r matches Err(p) ==> views(p@).drop_last().no_duplicates(),
            r matches Err(p) ==> self.dfs_cycle() == Some(views(p@)),
            r is Ok ==> self.dfs_cycle() is None,
    {
        proof {
            use_type_invariant(self);
        }
        match self.find_cycle() {
            None => Ok(()),
            Some(c) => Err(self.cycle_labels(&c)),
        }
    }
}

/// The reported cycle is deterministic: two graphs with the same nodes and
/// the same dependencies report the same cycle, whatever order their nodes
/// and edges were added in.
pub proof fn lemma_cycle_report_deterministic(g1: &DepGraph, g2: &DepGraph)
    requires
        g1.wf(),
        g2.wf(),
        g1.node_set() == g2.node_set(),
        g1.edge_set() == g2.edge_set(),
    ensures
        g1.dfs_cycle() == g2.dfs_cycle(),
{
    g1.lemma_wf();
    g2.lemma_wf();
    g1.node_seq().unique_seq_to_set();
    g2.node_seq().unique_seq_to_set();
    assert(g1.node_seq().to_set() =~= g1.node_set());
    assert(g2.node_seq().to_set() =~= g2.node_set());
}

/// Detect a dependency cycle via depth-first search; see
/// [`DepGraph::detect_cycle`].
pub fn detect(g: &DepGraph) -> (r: Result<(), Vec<String>>)
    ensures
        r is Ok == g.acyclic(),
        r matches Err(p) ==> is_cycle_in(g, views(p@)),
        r matches Err(p) ==> views(p@).drop_last().no_duplicates(),
        r matches Err(p) ==> g.dfs_cycle() == Some(views(p@)),
        r is Ok ==> g.dfs_cycle() is None,
{
    proof {
        use_type_invariant(g);
    }
    g.detect_cycle()
}

} // verus!
