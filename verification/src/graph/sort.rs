//! Alphabetical ordering of labels, used wherever output must be
//! deterministic.

use vstd::prelude::*;
use crate::text::{seq_lt, str_lt, lemma_lt_total, lemma_lt_transitive, lemma_push_contains, lemma_lt_irreflexive, lemma_lt_asymmetric};

verus! {

/// The character sequences of a list of strings.
pub open spec fn views(v: Seq<String>) -> Seq<Seq<char>> {
    v.map_values(|s: String| s@)
}

/// Pushing a string pushes its characters.
pub proof fn lemma_views_push(v: Seq<String>, s: String)
    ensures
        views(v.push(s)) == views(v).push(s@),
        views(v).len() == v.len(),
{
    assert(views(v.push(s)) =~= views(v).push(s@));
}

/// Every earlier element is strictly smaller than every later one.
pub open spec fn strictly_sorted(s: Seq<Seq<char>>) -> bool {
    forall|i: int, j: int| 0 <= i < j < s.len() ==> seq_lt(#[trigger] s[i], #[trigger] s[j])
}

/// The alphabetical listing of a finite set of labels.
pub open spec fn sorted_of(s: Set<Seq<char>>) -> Seq<Seq<char>> {
    choose|q: Seq<Seq<char>>| strictly_sorted(q) && forall|x: Seq<char>| q.contains(x) == s.contains(x)
}

/// Two alphabetical listings of the same labels are equal.
pub proof fn lemma_sorted_unique(a: Seq<Seq<char>>, b: Seq<Seq<char>>)
    requires
        strictly_sorted(a),
        strictly_sorted(b),
        forall|x: Seq<char>| a.contains(x) == b.contains(x),
    ensures
        a == b,
    decreases a.len(),
{
    if a.len() == 0 {
        if b.len() > 0 {
            assert(b.contains(b[0]));
        }
        assert(a =~= b);
    } else {
        assert(a.contains(a[0]));
        assert(b.len() > 0);
        let j = b.index_of(a[0]);
        assert(b.contains(b[0]));
        let i = a.index_of(b[0]);
        if j > 0 {
            assert(seq_lt(b[0], b[j]));
            if i > 0 {
                assert(seq_lt(a[0], a[i]));
                lemma_lt_asymmetric(a[0], b[0]);
            } else {
                lemma_lt_irreflexive(a[0]);
            }
        }
        assert(a[0] == b[0]);
        let a1 = a.drop_first();
        let b1 = b.drop_first();
        assert forall|x: Seq<char>| a1.contains(x) == b1.contains(x) by {
            if a1.contains(x) {
                let k = a1.index_of(x);
                assert(a[k + 1] == x);
                assert(seq_lt(a[0], x));
                lemma_lt_irreflexive(x);
                assert(b.contains(x));
                let m = b.index_of(x);
                assert(m != 0);
                assert(b1[m - 1] == x);
            }
            if b1.contains(x) {
                let k = b1.index_of(x);
                assert(b[k + 1] == x);
                assert(seq_lt(b[0], x));
                lemma_lt_irreflexive(x);
                assert(a.contains(x));
                let m = a.index_of(x);
                assert(m != 0);
                assert(a1[m - 1] == x);
            }
        }
        assert forall|p: int, q: int| 0 <= p < q < a1.len() implies seq_lt(#[trigger] a1[p], #[trigger] a1[q]) by {
            assert(a1[p] == a[p + 1] && a1[q] == a[q + 1]);
        }
        assert forall|p: int, q: int| 0 <= p < q < b1.len() implies seq_lt(#[trigger] b1[p], #[trigger] b1[q]) by {
            assert(b1[p] == b[p + 1] && b1[q] == b[q + 1]);
        }
        lemma_sorted_unique(a1, b1);
        assert(a.len() == b.len());
        assert forall|k: int| 0 <= k < a.len() implies a[k] == b[k] by {
            if k > 0 {
                assert(a[k] == a1[k - 1]);
                assert(b[k] == b1[k - 1]);
            }
        }
        assert(a =~= b);
    }
}

/// A sorted listing of a set is the set's alphabetical listing.
pub proof fn lemma_sorted_of(q: Seq<Seq<char>>, s: Set<Seq<char>>)
    requires
        strictly_sorted(q),
        forall|x: Seq<char>| q.contains(x) == s.contains(x),
    ensures
        sorted_of(s) == q,
{
    let c = sorted_of(s);
    assert(strictly_sorted(c) && forall|x: Seq<char>| c.contains(x) == s.contains(x));
    lemma_sorted_unique(c, q);
}

/// The keys selected by a list of indices.
pub open spec fn keyed(keys: Seq<String>, idx: Seq<usize>) -> Seq<Seq<char>> {
    idx.map_values(|i: usize| keys[i as int]@)
}

/// Inserting into a sequence adds exactly the inserted element.
pub proof fn lemma_insert_contains<T>(s: Seq<T>, p: int, x: T, y: T)
    requires
        0 <= p <= s.len(),
    ensures
        s.insert(p, x).contains(y) == (s.contains(y) || y == x),
{
    s.insert_ensures(p, x);
    if s.insert(p, x).contains(y) {
        let k = s.insert(p, x).index_of(y);
        if k < p {
            assert(s[k] == y);
        } else if k > p {
            assert(s[k - 1] == y);
        }
    }
    if s.contains(y) {
        let k = s.index_of(y);
        if k < p {
            assert(s.insert(p, x)[k] == y);
        } else {
            assert(s.insert(p, x)[k + 1] == y);
        }
    }
    if y == x {
        assert(s.insert(p, x)[p] == x);
    }
}

/// Sort indices by the key each selects, smallest key first. The keys the
/// indices select must be distinct.
pub fn sort_by_key(keys: &Vec<String>, idx: &Vec<usize>) -> (r: Vec<usize>)
    requires
        forall|k: int| 0 <= k < idx@.len() ==> (#[trigger] idx@[k]) < keys@.len(),
        keyed(keys@, idx@).no_duplicates(),
    ensures
        r@.len() == idx@.len(),
        forall|k: int| 0 <= k < r@.len() ==> (#[trigger] r@[k]) < keys@.len(),
        forall|x: usize| r@.contains(x) == idx@.contains(x),
        strictly_sorted(keyed(keys@, r@)),
{
    let mut r: Vec<usize> = Vec::new();
    for k in 0..idx.len()
        invariant
            forall|m: int| 0 <= m < idx@.len() ==> (#[trigger] idx@[m]) < keys@.len(),
            keyed(keys@, idx@).no_duplicates(),
            r@.len() == k,
            forall|m: int| 0 <= m < r@.len() ==> (#[trigger] r@[m]) < keys@.len(),
            forall|x: usize| r@.contains(x) == idx@.take(k as int).contains(x),
            strictly_sorted(keyed(keys@, r@)),
    {
        let x = idx[k];
        let mut p: usize = 0;
        while p < r.len() && str_lt(keys[r[p]].as_str(), keys[x].as_str())
            invariant
                p <= r@.len(),
                x < keys@.len(),
                forall|m: int| 0 <= m < r@.len() ==> (#[trigger] r@[m]) < keys@.len(),
                forall|m: int| 0 <= m < p ==> seq_lt(#[trigger] keys@[r@[m] as int]@, keys@[x as int]@),
            decreases r@.len() - p,
        {
            p += 1;
        }
        proof {
            // x's key differs from every key already placed.
            assert forall|m: int| 0 <= m < r@.len() implies keys@[r@[m] as int]@ != keys@[x as int]@ by {
                assert(r@.contains(r@[m]));
                assert(idx@.take(k as int).contains(r@[m]));
                let q = idx@.take(k as int).index_of(r@[m]);
                assert(idx@[q] == r@[m]);
                assert(keyed(keys@, idx@)[q] == keys@[r@[m] as int]@);
                assert(keyed(keys@, idx@)[k as int] == keys@[x as int]@);
            }
            if p < r@.len() {
                lemma_lt_total(keys@[r@[p as int] as int]@, keys@[x as int]@);
            }
        }
        let ghost old_r = r@;
        r.insert(p, x);
        proof {
            old_r.insert_ensures(p as int, x);
            assert(idx@.take(k + 1) == idx@.take(k as int).push(x));
            assert forall|y: usize| r@.contains(y) == idx@.take(k + 1).contains(y) by {
                lemma_insert_contains(old_r, p as int, x, y);
                lemma_push_contains(idx@.take(k as int), x, y);
            }
            let ks = keyed(keys@, r@);
            assert forall|i: int, j: int| 0 <= i < j < ks.len() implies seq_lt(#[trigger] ks[i], #[trigger] ks[j]) by {
                let ko = keyed(keys@, old_r);
                if j < p {
                    assert(ks[i] == ko[i] && ks[j] == ko[j]);
                } else if j == p {
                    assert(ks[i] == ko[i]);
                } else if i > p {
                    assert(ks[i] == ko[i - 1] && ks[j] == ko[j - 1]);
                } else if i == p {
                    assert(ks[j] == ko[j - 1]);
                    if j - 1 > p {
                        assert(seq_lt(ko[p as int], ko[j - 1]));
                        lemma_lt_transitive(ks[i], ko[p as int], ko[j - 1]);
                    }
                } else {
                    assert(ks[i] == ko[i] && ks[j] == ko[j - 1]);
                    if j - 1 >= p {
                        assert(seq_lt(ko[i], keys@[x as int]@));
                        if j - 1 > p {
                            assert(seq_lt(ko[p as int], ko[j - 1]));
                            lemma_lt_transitive(keys@[x as int]@, ko[p as int], ko[j - 1]);
                        }
                        lemma_lt_transitive(ko[i], keys@[x as int]@, ko[j - 1]);
                    }
                }
            }
        }
    }
    proof {
        assert(idx@.take(idx@.len() as int) =~= idx@);
    }
    r
}

/// Sort distinct labels alphabetically.
pub fn sort_labels(v: &Vec<String>) -> (r: Vec<String>)
    requires
        views(v@).no_duplicates(),
    ensures
        strictly_sorted(views(r@)),
        forall|y: Seq<char>| views(r@).contains(y) == views(v@).contains(y),
        r@.len() == v@.len(),
{
    let mut idx: Vec<usize> = Vec::new();
    for k in 0..v.len()
        invariant
            idx@.len() == k,
            forall|m: int| 0 <= m < k ==> #[trigger] idx@[m] == m,
    {
        idx.push(k);
    }
    proof {
        assert(keyed(v@, idx@) =~= views(v@));
    }
    let order = sort_by_key(v, &idx);
    let mut r: Vec<String> = Vec::new();
    for k in 0..order.len()
        invariant
            order@.len() == v@.len(),
            forall|m: int| 0 <= m < order@.len() ==> (#[trigger] order@[m]) < v@.len(),
            r@.len() == k,
            forall|m: int| 0 <= m < k ==> #[trigger] r@[m]@ == v@[order@[m] as int]@,
    {
        r.push(v[order[k]].clone());
    }
    proof {
        assert(views(r@) =~= keyed(v@, order@));
        assert forall|y: Seq<char>| views(r@).contains(y) == views(v@).contains(y) by {
            if views(r@).contains(y) {
                let m = views(r@).index_of(y);
                assert(views(v@)[order@[m] as int] == y);
            }
            if views(v@).contains(y) {
                let m = views(v@).index_of(y);
                assert(idx@[m] == m as usize);
                assert(idx@.contains(m as usize));
                assert(order@.contains(m as usize));
                let q = order@.index_of(m as usize);
                assert(views(r@)[q] == y);
            }
        }
    }
    r
}

} // verus!
