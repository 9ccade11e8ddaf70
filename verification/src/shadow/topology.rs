//! The topology graph: which pairs of nodes are linked, and its GML text.

use vstd::prelude::*;

use rand::rngs::StdRng;

use crate::text::{decimal, push_decimal};

verus! {

#[verifier::external_type_specification]
#[verifier::external_body]
pub struct ExStdRng(rand::rngs::StdRng);

/// An undirected link between node indices, smaller index first.
pub type Edge = (usize, usize);

/// `a` comes before `b` in lexicographic order.
pub open spec fn edge_lt(a: Edge, b: Edge) -> bool {
    a.0 < b.0 || (a.0 == b.0 && a.1 < b.1)
}

/// The edges are in strictly increasing order (so each appears once).
pub open spec fn strictly_sorted(s: Seq<Edge>) -> bool {
    forall|i: int, j: int| 0 <= i < j < s.len() ==> edge_lt(#[trigger] s[i], #[trigger] s[j])
}

/// Every edge links two distinct nodes below `n`, smaller index first.
pub open spec fn edges_within(s: Seq<Edge>, n: int) -> bool {
    forall|i: int| 0 <= i < s.len() ==> (#[trigger] s[i]).0 < s[i].1 < n
}

/// Inserts `e` into a strictly sorted list unless it is already there.
pub fn insert_sorted(edges: &mut Vec<Edge>, e: Edge)
    requires
        strictly_sorted(old(edges)@),
    ensures
        strictly_sorted(final(edges)@),
        final(edges)@.to_set() == old(edges)@.to_set().insert(e),
        forall|x: Edge| #[trigger] final(edges)@.contains(x) <==> old(edges)@.contains(x) || x == e,
{
    let n = edges.len();
    let mut p: usize = 0;
    while p < n && edge_before(edges[p], e)
        invariant
            n == edges@.len(),
            p <= n,
            edges@ == old(edges)@,
            strictly_sorted(edges@),
            forall|i: int| 0 <= i < p ==> edge_lt(#[trigger] edges@[i], e),
        decreases n - p,
    {
        p = p + 1;
    }
    if p < n && edges[p].0 == e.0 && edges[p].1 == e.1 {
        proof {
            assert(edges@[p as int] == e);
            assert(edges@.contains(e));
            assert(edges@.to_set() =~= edges@.to_set().insert(e));
        }
        return ;
    }
    let ghost before = edges@;
    edges.insert(p, e);
    proof {
        assert(edges@ =~= before.take(p as int).push(e) + before.skip(p as int));
        assert forall|i: int, j: int| 0 <= i < j < edges@.len() implies edge_lt(
            #[trigger] edges@[i],
            #[trigger] edges@[j],
        ) by {
            if j == p {
            } else if i == p {
                assert(!edge_lt(before[j - 1], e));
                assert(before[j - 1] != e);
            } else if i < p && j > p {
                assert(edges@[j] == before[j - 1]);
            } else if j < p {
            } else {
                assert(edges@[i] == before[i - 1] && edges@[j] == before[j - 1]);
            }
        }
        assert forall|x: Edge| edges@.to_set().contains(x) <==> before.to_set().insert(e).contains(x) by {
            if edges@.contains(x) {
                let i = choose|i: int| 0 <= i < edges@.len() && edges@[i] == x;
                if i < p {
                    assert(before[i] == x);
                } else if i > p {
                    assert(before[i - 1] == x);
                }
            }
            if before.contains(x) {
                let i = choose|i: int| 0 <= i < before.len() && before[i] == x;
                if i < p {
                    assert(edges@[i] == x);
                    assert(edges@.contains(x));
                } else {
                    assert(edges@[i + 1] == x);
                    assert(edges@.contains(x));
                }
            }
            if x == e {
                assert(edges@[p as int] == e);
                assert(edges@.contains(x));
            }
        }
        assert(edges@.to_set() =~= before.to_set().insert(e));
        assert forall|x: Edge| #[trigger] edges@.contains(x) <==> before.contains(x) || x == e by {
            assert(edges@.to_set().contains(x) == edges@.contains(x));
            assert(before.to_set().contains(x) == before.contains(x));
        }
    }
}

/// A uniformly random index in `lo..hi` drawn from `rng`.
///
/// `rand::Rng::gen_range` on a half-open range (which panics when it is
/// empty); only the bounds are claimed.
#[verifier::external_body]
fn random_index(rng: &mut StdRng, lo: usize, hi: usize) -> (r: usize)
    requires
        lo < hi,
    ensures
        lo <= r < hi,
{
    rand::Rng::gen_range(rng, lo..hi)
}

/// The node indices below `n` other than `i`, in increasing order.
pub open spec fn spec_other_indices(n: usize, i: usize) -> Seq<usize> {
    Seq::new((n - 1) as nat, |k: int| if k < i { k as usize } else { (k + 1) as usize })
}

/// A partial Fisher-Yates shuffle of `cand` after its first `k` steps: step
/// `q` swaps position `q` with position `draws[q]`.
pub open spec fn fisher_yates(cand: Seq<usize>, draws: Seq<usize>, k: nat) -> Seq<usize>
    decreases k,
{
    if k == 0 {
        cand
    } else {
        let c = fisher_yates(cand, draws, (k - 1) as nat);
        let q = k - 1;
        let j = draws[q] as int;
        c.update(q, c[j]).update(j, c[q])
    }
}

/// The draws of `p` Fisher-Yates steps over `m` items: step `q` draws an
/// index in `q..m`.
pub open spec fn valid_draws(draws: Seq<usize>, m: nat, p: nat) -> bool {
    &&& draws.len() == p
    &&& p <= m
    &&& forall|q: int| 0 <= q < p ==> q <= #[trigger] draws[q] < m
}

/// Fisher-Yates steps keep the length, and permute the items: what was at
/// some position is still at some position, and distinct items stay distinct.
pub proof fn lemma_fisher_yates_permutes(cand: Seq<usize>, draws: Seq<usize>, k: nat)
    requires
        valid_draws(draws.take(k as int), cand.len(), k),
        k <= draws.len(),
    ensures
        fisher_yates(cand, draws, k).len() == cand.len(),
        forall|x: usize| fisher_yates(cand, draws, k).contains(x) <==> cand.contains(x),
        cand.no_duplicates() ==> fisher_yates(cand, draws, k).no_duplicates(),
    decreases k,
{
    if k > 0 {
        let k1 = (k - 1) as nat;
        assert(draws.take(k1 as int) =~= draws.take(k as int).take(k1 as int));
        assert(draws.take(k as int)[k1 as int] == draws[k1 as int]);
        lemma_fisher_yates_permutes(cand, draws, k1);
        let c = fisher_yates(cand, draws, k1);
        let q = k1 as int;
        let j = draws[q] as int;
        let d = c.update(q, c[j]).update(j, c[q]);
        assert forall|x: usize| d.contains(x) <==> c.contains(x) by {
            if d.contains(x) {
                let w = choose|w: int| 0 <= w < d.len() && d[w] == x;
                let ow = if w == j { q } else if w == q { j } else { w };
                assert(c[ow] == x);
            }
            if c.contains(x) {
                let w = choose|w: int| 0 <= w < c.len() && c[w] == x;
                let nw = if w == j { q } else if w == q { j } else { w };
                assert(d[nw] == x);
            }
        }
        if c.no_duplicates() {
            assert forall|a: int, b: int| 0 <= a < d.len() && 0 <= b < d.len() && a != b implies d[a] != d[b] by {
                let oa = if a == j { q } else if a == q { j } else { a };
                let ob = if b == j { q } else if b == q { j } else { b };
                assert(d[a] == c[oa] && d[b] == c[ob]);
            }
        }
    }
}

/// The steps read only the draws made so far.
pub proof fn lemma_fisher_yates_draws_prefix(cand: Seq<usize>, d1: Seq<usize>, d2: Seq<usize>, k: nat)
    requires
        forall|q: int| 0 <= q < k ==> d1[q] == d2[q],
    ensures
        fisher_yates(cand, d1, k) == fisher_yates(cand, d2, k),
    decreases k,
{
    if k > 0 {
        lemma_fisher_yates_draws_prefix(cand, d1, d2, (k - 1) as nat);
    }
}

/// Once step `j` has run, later steps leave position `j` alone: the `j`-th
/// pick is fixed by the first `j + 1` draws.
pub proof fn lemma_fisher_yates_settled(cand: Seq<usize>, draws: Seq<usize>, j: nat, k: nat)
    requires
        j < k,
        k <= draws.len(),
        forall|q: int| 0 <= q < k ==> q <= #[trigger] draws[q] < cand.len(),
    ensures
        fisher_yates(cand, draws, k)[j as int] == fisher_yates(cand, draws, j + 1)[j as int],
    decreases k,
{
    if k > j + 1 {
        lemma_fisher_yates_settled(cand, draws, j, (k - 1) as nat);
        lemma_fisher_yates_len(cand, draws, (k - 1) as nat);
    }
}

proof fn lemma_fisher_yates_len(cand: Seq<usize>, draws: Seq<usize>, k: nat)
    requires
        forall|q: int| 0 <= q < k ==> q <= #[trigger] draws[q] < cand.len(),
    ensures
        fisher_yates(cand, draws, k).len() == cand.len(),
    decreases k,
{
    if k > 0 {
        lemma_fisher_yates_len(cand, draws, (k - 1) as nat);
    }
}

/// The `j`-th pick is the item at the `j`-th drawn index among the items not
/// picked before it; in particular the first pick is the item at the first
/// drawn index, so different draws give different picks.
pub proof fn lemma_fisher_yates_pick(cand: Seq<usize>, draws: Seq<usize>, j: nat, k: nat)
    requires
        j < k,
        k <= draws.len(),
        forall|q: int| 0 <= q < k ==> q <= #[trigger] draws[q] < cand.len(),
    ensures
        fisher_yates(cand, draws, k)[j as int] == fisher_yates(cand, draws, j)[draws[j as int] as int],
        j == 0 ==> fisher_yates(cand, draws, k)[0] == cand[draws[0] as int],
{
    lemma_fisher_yates_settled(cand, draws, j, k);
    lemma_fisher_yates_len(cand, draws, j);
}

/// The node indices below `n` other than `i`, in increasing order.
fn other_indices(n: usize, i: usize) -> (r: Vec<usize>)
    requires
        i < n,
    ensures
        r@.len() == n - 1,
        r@.no_duplicates(),
        forall|k: int| 0 <= k < r@.len() ==> #[trigger] r@[k] < n && r@[k] != i,
        r@ == spec_other_indices(n, i),
{
    let mut out: Vec<usize> = Vec::new();
    let mut j: usize = 0;
    while j < n
        invariant
            i < n,
            j <= n,
            out@.len() == (if j <= i { j as int } else { j - 1 }),
            forall|k: int| 0 <= k < out@.len() ==> #[trigger] out@[k] < j && out@[k] != i,
            forall|a: int, b: int| 0 <= a < b < out@.len() ==> out@[a] < out@[b],
            forall|k: int| 0 <= k < out@.len() ==> #[trigger] out@[k] == if k < i { k } else { k + 1 },
        decreases n - j,
    {
        if j != i {
            out.push(j);
        }
        j = j + 1;
    }
    assert(out@ =~= spec_other_indices(n, i));
    proof {
        assert forall|a: int, b: int| 0 <= a < out@.len() && 0 <= b < out@.len() && a != b implies out@[a] != out@[b] by {
            if a < b {
                assert(out@[a] < out@[b]);
            } else {
                assert(out@[b] < out@[a]);
            }
        }
    }
    out
}

/// Node `i` is linked to each of `picks`.
pub open spec fn linked_to_all(edges: Seq<Edge>, i: usize, picks: Seq<usize>) -> bool {
    forall|k: int| 0 <= k < picks.len() ==> edges.contains(#[trigger] edge_of(i, picks[k]))
}

/// The edge between `a` and `b`, smaller index first.
pub open spec fn edge_of(a: usize, b: usize) -> Edge {
    if a < b {
        (a, b)
    } else {
        (b, a)
    }
}

/// Distinct nodes below `n`, none of them `i`.
pub open spec fn valid_picks(picks: Seq<usize>, i: usize, n: usize) -> bool {
    &&& picks.no_duplicates()
    &&& forall|k: int| 0 <= k < picks.len() ==> #[trigger] picks[k] < n && picks[k] != i
}

fn edge_before(a: Edge, b: Edge) -> (r: bool)
    ensures
        r == edge_lt(a, b),
{
    a.0 < b.0 || (a.0 == b.0 && a.1 < b.1)
}

/// The smaller of `a` and `b`.
pub open spec fn min_usize(a: usize, b: usize) -> usize {
    if a < b {
        a
    } else {
        b
    }
}

/// Every node below `n` is linked to `min(degree, n - 1)` distinct other nodes.
pub open spec fn each_node_has_degree(edges: Seq<Edge>, n: usize, degree: usize) -> bool {
    forall|i: usize| i < n ==> #[trigger] node_has_degree(edges, n, degree, i)
}

/// Node `i` is linked to `min(degree, n - 1)` distinct other nodes below `n`.
pub open spec fn node_has_degree(edges: Seq<Edge>, n: usize, degree: usize, i: usize) -> bool {
    exists|picks: Seq<usize>|
        #![trigger valid_picks(picks, i, n)]
        picks.len() == min_usize(degree, (n - 1) as usize) && valid_picks(picks, i, n)
            && linked_to_all(edges, i, picks)
}

proof fn lemma_linked_grows(old_edges: Seq<Edge>, new_edges: Seq<Edge>, i: usize, picks: Seq<usize>)
    requires
        linked_to_all(old_edges, i, picks),
        forall|x: Edge| old_edges.contains(x) ==> #[trigger] new_edges.contains(x),
    ensures
        linked_to_all(new_edges, i, picks),
{
    assert forall|k: int| 0 <= k < picks.len() implies new_edges.contains(
        #[trigger] edge_of(i, picks[k]),
    ) by {
        assert(old_edges.contains(edge_of(i, picks[k])));
    }
}

/// `x` links some node `a < upto` to one of the peers `picked[a]` it drew.
pub open spec fn picked_link(picked: Seq<Seq<usize>>, upto: int, x: Edge) -> bool {
    exists|a: int, q: int|
        0 <= a < upto && 0 <= q < picked[a].len() && x == #[trigger] edge_of(a as usize, picked[a][q])
}

/// `x` links node `i` to one of the first `k` of `p`.
pub open spec fn drawn_link(i: usize, p: Seq<usize>, k: int, x: Edge) -> bool {
    exists|q: int| 0 <= q < k && x == #[trigger] edge_of(i, p[q])
}

/// The links are exactly those from each node below `n` to the peers it drew
/// (`picked[i]` for node `i`, `min(degree, n - 1)` distinct other nodes).
pub open spec fn links_of_picks(edges: Seq<Edge>, n: usize, degree: usize, picked: Seq<Seq<usize>>) -> bool {
    &&& picked.len() == n
    &&& forall|i: usize|
        i < n ==> (#[trigger] picked[i as int]).len() == min_usize(degree, (n - 1) as usize)
            && valid_picks(picked[i as int], i, n)
    &&& forall|x: Edge| #[trigger] edges.contains(x) <==> picked_link(picked, n as int, x)
}

proof fn lemma_drawn_link_extend(i: usize, p: Seq<usize>, k: int, x: Edge)
    requires
        0 <= k < p.len(),
    ensures
        drawn_link(i, p, k + 1, x) <==> drawn_link(i, p, k, x) || x == edge_of(i, p[k]),
{
    if drawn_link(i, p, k + 1, x) && x != edge_of(i, p[k]) {
        let q = choose|q: int| 0 <= q < k + 1 && x == #[trigger] edge_of(i, p[q]);
        assert(q < k);
    }
}

proof fn lemma_drawn_link_prefix(i: usize, p1: Seq<usize>, p2: Seq<usize>, k: int, x: Edge)
    requires
        0 <= k <= p1.len(),
        k <= p2.len(),
        forall|q: int| 0 <= q < k ==> p1[q] == p2[q],
    ensures
        drawn_link(i, p1, k, x) == drawn_link(i, p2, k, x),
{
    if drawn_link(i, p1, k, x) {
        let q = choose|q: int| 0 <= q < k && x == #[trigger] edge_of(i, p1[q]);
        assert(x == edge_of(i, p2[q]));
    }
    if drawn_link(i, p2, k, x) {
        let q = choose|q: int| 0 <= q < k && x == #[trigger] edge_of(i, p2[q]);
        assert(x == edge_of(i, p1[q]));
    }
}

proof fn lemma_picked_link_push(picked: Seq<Seq<usize>>, i: usize, p: Seq<usize>, x: Edge)
    requires
        picked.len() == i,
    ensures
        picked_link(picked.push(p), i + 1, x) <==> picked_link(picked, i as int, x) || drawn_link(
            i,
            p,
            p.len() as int,
            x,
        ),
{
    let pushed = picked.push(p);
    if picked_link(pushed, i + 1, x) {
        let (a, q) = choose|a: int, q: int|
            0 <= a < i + 1 && 0 <= q < pushed[a].len() && x == #[trigger] edge_of(
                a as usize,
                pushed[a][q],
            );
        if a < i {
            assert(pushed[a] == picked[a]);
            assert(x == edge_of(a as usize, picked[a][q]));
        } else {
            assert(pushed[a] == p);
            assert(x == edge_of(i, p[q]));
        }
    }
    if picked_link(picked, i as int, x) {
        let (a, q) = choose|a: int, q: int|
            0 <= a < i && 0 <= q < picked[a].len() && x == #[trigger] edge_of(a as usize, picked[a][q]);
        assert(pushed[a] == picked[a]);
        assert(x == edge_of(a as usize, pushed[a][q]));
    }
    if drawn_link(i, p, p.len() as int, x) {
        let q = choose|q: int| 0 <= q < p.len() && x == #[trigger] edge_of(i, p[q]);
        assert(pushed[i as int] == p);
        assert(x == edge_of((i as int) as usize, pushed[i as int][q]));
    }
}

/// A sparse random graph: node `i`, in turn, draws `min(degree, n - 1)`
/// distinct peers by a partial Fisher-Yates shuffle of the other nodes, and
/// is linked to each. Links are listed once each, in increasing order.
pub fn sparse_edges(rng: &mut StdRng, n: usize, degree: usize) -> (r: Vec<Edge>)
    ensures
        strictly_sorted(r@),
        edges_within(r@, n as int),
        each_node_has_degree(r@, n, degree),
        exists|picked: Seq<Seq<usize>>| links_of_picks(r@, n, degree, picked),
        exists|picked: Seq<Seq<usize>>, draws: Seq<Seq<usize>>|
            #![trigger links_of_picks(r@, n, degree, picked), draws.len()]
            links_of_picks(r@, n, degree, picked) && draws.len() == n && forall|a: usize|
                a < n ==> valid_draws(
                    #[trigger] draws[a as int],
                    (n - 1) as nat,
                    min_usize(degree, (n - 1) as usize) as nat,
                ) && picked[a as int] == fisher_yates(
                    spec_other_indices(n, a),
                    draws[a as int],
                    min_usize(degree, (n - 1) as usize) as nat,
                ).take(min_usize(degree, (n - 1) as usize) as int),
{
    let mut edges: Vec<Edge> = Vec::new();
    let ghost mut picked: Seq<Seq<usize>> = Seq::empty();
    let ghost mut all_draws: Seq<Seq<usize>> = Seq::empty();
    let mut i: usize = 0;
    while i < n
        invariant
            i <= n,
            picked.len() == i,
            strictly_sorted(edges@),
            edges_within(edges@, n as int),
            forall|a: usize|
                a < i ==> (#[trigger] picked[a as int]).len() == min_usize(degree, (n - 1) as usize)
                    && valid_picks(picked[a as int], a, n) && linked_to_all(edges@, a, picked[a as int]),
            forall|x: Edge| #[trigger] edges@.contains(x) <==> picked_link(picked, i as int, x),
            all_draws.len() == i,
            forall|a: usize|
                a < i ==> valid_draws(
                    #[trigger] all_draws[a as int],
                    (n - 1) as nat,
                    min_usize(degree, (n - 1) as usize) as nat,
                ) && picked[a as int] == fisher_yates(
                    spec_other_indices(n, a),
                    all_draws[a as int],
                    min_usize(degree, (n - 1) as usize) as nat,
                ).take(min_usize(degree, (n - 1) as usize) as int),
        decreases n - i,
    {
        let mut cand = other_indices(n, i);
        let ghost cand0 = cand@;
        let ghost mut draws: Seq<usize> = Seq::empty();
        let m = cand.len();
        let picks = if degree < m {
            degree
        } else {
            m
        };
        let ghost edges_before = edges@;
        let mut k: usize = 0;
        while k < picks
            invariant
                i < n,
                m == n - 1,
                picks == min_usize(degree, (n - 1) as usize),
                k <= picks <= m,
                cand@.len() == m,
                valid_picks(cand@, i, n),
                strictly_sorted(edges@),
                edges_within(edges@, n as int),
                forall|x: Edge| edges_before.contains(x) ==> #[trigger] edges@.contains(x),
                linked_to_all(edges@, i, cand@.take(k as int)),
                picked.len() == i,
                forall|x: Edge|
                    #[trigger] edges@.contains(x) <==> picked_link(picked, i as int, x) || drawn_link(
                        i,
                        cand@,
                        k as int,
                        x,
                    ),
                cand0 == spec_other_indices(n, i),
                draws.len() == k,
                forall|q: int| 0 <= q < k ==> q <= #[trigger] draws[q] < m,
                cand@ == fisher_yates(cand0, draws, k as nat),
            decreases picks - k,
        {
            let swap_idx = random_index(rng, k, m);
            let a = cand[k];
            let b = cand[swap_idx];
            let ghost c0 = cand@;
            cand[k] = b;
            cand[swap_idx] = a;
            proof {
                assert(cand@ == c0.update(k as int, b).update(swap_idx as int, a));
                assert forall|x: int, y: int| 0 <= x < cand@.len() && 0 <= y < cand@.len() && x != y implies cand@[x] != cand@[y] by {
                    let ox = if x == k { swap_idx as int } else if x == swap_idx { k as int } else { x };
                    let oy = if y == k { swap_idx as int } else if y == swap_idx { k as int } else { y };
                    assert(cand@[x] == c0[ox]);
                    assert(cand@[y] == c0[oy]);
                }
                assert forall|x: int| 0 <= x < cand@.len() implies #[trigger] cand@[x] < n && cand@[x] != i by {
                    let ox = if x == k { swap_idx as int } else if x == swap_idx { k as int } else { x };
                    assert(cand@[x] == c0[ox]);
                }
                assert(cand@.take(k as int) =~= c0.take(k as int));
                let nd = draws.push(swap_idx);
                lemma_fisher_yates_draws_prefix(cand0, draws, nd, k as nat);
                lemma_fisher_yates_len(cand0, draws, k as nat);
                assert(cand@ =~= fisher_yates(cand0, nd, (k + 1) as nat));
                draws = nd;
            }
            let c = cand[k];
            let e = if i < c {
                (i, c)
            } else {
                (c, i)
            };
            let ghost edges_mid = edges@;
            insert_sorted(&mut edges, e);
            proof {
                assert forall|w: int| 0 <= w < edges@.len() implies (#[trigger] edges@[w]).0 < edges@[w].1 < n by {
                    assert(edges@.contains(edges@[w]));
                    if edges_mid.contains(edges@[w]) {
                        let v = choose|v: int| 0 <= v < edges_mid.len() && edges_mid[v] == edges@[w];
                        assert(edges_mid[v].0 < edges_mid[v].1 < n);
                    }
                }
                assert(e == edge_of(i, cand@[k as int]));
                assert forall|q: int| 0 <= q < cand@.take(k + 1).len() implies edges@.contains(
                    #[trigger] edge_of(i, cand@.take(k + 1)[q]),
                ) by {
                    if q < k {
                        assert(cand@.take(k + 1)[q] == cand@.take(k as int)[q]);
                        assert(edges_mid.contains(edge_of(i, cand@.take(k as int)[q])));
                    }
                }
                assert forall|x: Edge|
                    #[trigger] edges@.contains(x) <==> picked_link(picked, i as int, x) || drawn_link(
                        i,
                        cand@,
                        k + 1,
                        x,
                    ) by {
                    lemma_drawn_link_extend(i, cand@, k as int, x);
                    lemma_drawn_link_prefix(i, cand@, c0, k as int, x);
                    assert(edges_mid.contains(x) <==> picked_link(picked, i as int, x) || drawn_link(
                        i,
                        c0,
                        k as int,
                        x,
                    ));
                }
            }
            k = k + 1;
        }
        proof {
            let p = cand@.take(picks as int);
            assert(valid_picks(p, i, n)) by {
                assert forall|x: int, y: int| 0 <= x < p.len() && 0 <= y < p.len() && x != y implies p[x] != p[y] by {
                    assert(p[x] == cand@[x] && p[y] == cand@[y]);
                }
            }
            assert forall|a: usize| a < i implies (#[trigger] picked[a as int]).len() == min_usize(degree, (n - 1) as usize)
                && valid_picks(picked[a as int], a, n) && linked_to_all(edges@, a, picked[a as int]) by {
                lemma_linked_grows(edges_before, edges@, a, picked[a as int]);
            }
            assert forall|x: Edge| #[trigger] edges@.contains(x) <==> picked_link(picked.push(p), i + 1, x) by {
                lemma_picked_link_push(picked, i, p, x);
                lemma_drawn_link_prefix(i, cand@, p, picks as int, x);
            }
            assert(valid_draws(draws, (n - 1) as nat, picks as nat));
            assert forall|a: usize| a < i + 1 implies valid_draws(
                #[trigger] all_draws.push(draws)[a as int],
                (n - 1) as nat,
                min_usize(degree, (n - 1) as usize) as nat,
            ) && picked.push(p)[a as int] == fisher_yates(
                spec_other_indices(n, a),
                all_draws.push(draws)[a as int],
                min_usize(degree, (n - 1) as usize) as nat,
            ).take(min_usize(degree, (n - 1) as usize) as int) by {
                if a < i {
                    assert(all_draws.push(draws)[a as int] == all_draws[a as int]);
                    assert(picked.push(p)[a as int] == picked[a as int]);
                } else {
                    assert(all_draws.push(draws)[a as int] == draws);
                    assert(picked.push(p)[a as int] == p);
                }
            }
            picked = picked.push(p);
            all_draws = all_draws.push(draws);
        }
        i = i + 1;
    }
    proof {
        assert forall|a: usize| a < n implies #[trigger] node_has_degree(edges@, n, degree, a) by {
            assert(picked[a as int].len() == min_usize(degree, (n - 1) as usize));
            assert(valid_picks(picked[a as int], a, n));
        }
        assert(links_of_picks(edges@, n, degree, picked));
        assert(all_draws.len() == n);
    }
    edges
}

/// The complete graph: every pair of nodes below `n` once, in increasing order.
pub fn complete_edges(n: usize) -> (r: Vec<Edge>)
    ensures
        strictly_sorted(r@),
        edges_within(r@, n as int),
        forall|a: usize, b: usize| a < b < n ==> r@.contains((a, b)),
{
    let mut edges: Vec<Edge> = Vec::new();
    let mut i: usize = 0;
    while i < n
        invariant
            i <= n,
            strictly_sorted(edges@),
            edges_within(edges@, n as int),
            forall|w: int| 0 <= w < edges@.len() ==> (#[trigger] edges@[w]).0 < i,
            forall|a: usize, b: usize| a < b < n && a < i ==> edges@.contains((a, b)),
        decreases n - i,
    {
        let mut j: usize = i + 1;
        let ghost start = edges@;
        while j < n
            invariant
                i < n,
                i + 1 <= j <= n,
                start.len() <= edges@.len(),
                forall|w: int| 0 <= w < start.len() ==> edges@[w] == start[w],
                forall|w: int| 0 <= w < start.len() ==> (#[trigger] start[w]).0 < i,
                forall|w: int| start.len() <= w < edges@.len() ==> (#[trigger] edges@[w]).0 == i
                    && edges@[w].1 < j,
                strictly_sorted(edges@),
                edges_within(edges@, n as int),
                forall|a: usize, b: usize| a < b < n && a < i ==> start.contains((a, b)),
                forall|b: usize| i < b < j ==> edges@.contains((i, b)),
            decreases n - j,
        {
            let ghost before = edges@;
            edges.push((i, j));
            proof {
                assert forall|x: int, y: int| 0 <= x < y < edges@.len() implies edge_lt(
                    #[trigger] edges@[x],
                    #[trigger] edges@[y],
                ) by {
                    if y == edges@.len() - 1 {
                        if x < start.len() {
                            assert(start[x].0 < i);
                        }
                    } else {
                        assert(edge_lt(before[x], before[y]));
                    }
                }
                assert forall|b: usize| i < b < j + 1 implies edges@.contains((i, b)) by {
                    if b == j {
                        assert(edges@[edges@.len() - 1] == (i, j));
                    } else {
                        assert(before.contains((i, b)));
                        let w = choose|w: int| 0 <= w < before.len() && before[w] == (i, b);
                        assert(edges@[w] == (i, b));
                    }
                }
            }
            j = j + 1;
        }
        proof {
            assert forall|w: int| 0 <= w < edges@.len() implies (#[trigger] edges@[w]).0 < i + 1 by {
                if w < start.len() {
                    assert(start[w].0 < i);
                }
            }
            assert forall|a: usize, b: usize| a < b < n && a < i + 1 implies edges@.contains((a, b)) by {
                if a < i {
                    assert(start.contains((a, b)));
                    let w = choose|w: int| 0 <= w < start.len() && start[w] == (a, b);
                    assert(edges@[w] == (a, b));
                } else {
                    assert(a == i);
                }
            }
        }
        i = i + 1;
    }
    edges
}

/// The links of the topology graph: a sparse random graph when `degree` is
/// positive and below `n - 1`, the complete graph otherwise.
pub fn graph_edges(rng: &mut StdRng, n: usize, degree: usize) -> (r: Vec<Edge>)
    requires
        degree > 0 ==> n > 0,
    ensures
        strictly_sorted(r@),
        edges_within(r@, n as int),
        degree > 0 && degree < n - 1 ==> each_node_has_degree(r@, n, degree),
        degree > 0 && degree < n - 1 ==> exists|picked: Seq<Seq<usize>>| links_of_picks(r@, n, degree, picked),
        !(degree > 0 && degree < n - 1) ==> forall|a: usize, b: usize| a < b < n ==> r@.contains((a, b)),
{
    if degree > 0 && degree < n - 1 {
        sparse_edges(rng, n, degree)
    } else {
        complete_edges(n)
    }
}

/// The concatenation of the parts, in order.
pub open spec fn joined(parts: Seq<Seq<char>>) -> Seq<char>
    decreases parts.len(),
{
    if parts.len() == 0 {
        Seq::empty()
    } else {
        joined(parts.drop_last()) + parts.last()
    }
}

/// The GML block of a node.
pub open spec fn gml_node(id: u32) -> Seq<char> {
    "  node [\n    id "@ + decimal(id as nat) + "\n    hostname \"node-"@ + decimal(id as nat)
        + "\"\n  ]\n"@
}

/// The GML block of an edge with its latency in milliseconds.
pub open spec fn gml_edge(source: u32, target: u32, latency_ms: u64) -> Seq<char> {
    "  edge [\n    source "@ + decimal(source as nat) + "\n    target "@ + decimal(target as nat)
        + "\n    latency \""@ + decimal(latency_ms as nat) + " ms\"\n  ]\n"@
}

/// The GML text of the topology: the nodes, a 1 ms self-loop on each (which
/// Shadow requires), then each link with its latency, between node ids.
pub open spec fn spec_gml(node_ids: Seq<u32>, edges: Seq<Edge>, latency_ms: Seq<u64>) -> Seq<char> {
    "graph [\n  directed 0\n"@ + joined(node_ids.map_values(|id: u32| gml_node(id))) + joined(
        node_ids.map_values(|id: u32| gml_edge(id, id, 1)),
    ) + joined(
        Seq::new(
            edges.len(),
            |k: int| gml_edge(node_ids[edges[k].0 as int], node_ids[edges[k].1 as int], latency_ms[k]),
        ),
    ) + "]\n"@
}

fn push_gml_edge(s: &mut String, source: u32, target: u32, latency_ms: u64)
    ensures
        final(s)@ == old(s)@ + gml_edge(source, target, latency_ms),
{
    s.append("  edge [\n    source ");
    push_decimal(s, source as u64);
    s.append("\n    target ");
    push_decimal(s, target as u64);
    s.append("\n    latency \"");
    push_decimal(s, latency_ms);
    s.append(" ms\"\n  ]\n");
    proof {
        assert(s@ =~= old(s)@ + gml_edge(source, target, latency_ms));
    }
}

/// Renders the topology graph in GML; `latency_ms[k]` is the latency of link `k`.
pub fn render_gml(node_ids: &Vec<u32>, edges: &Vec<Edge>, latency_ms: &Vec<u64>) -> (r: String)
    requires
        edges_within(edges@, node_ids@.len() as int),
        latency_ms@.len() == edges@.len(),
    ensures
        r@ == spec_gml(node_ids@, edges@, latency_ms@),
{
    let mut s = String::from_str("graph [\n  directed 0\n");
    let ghost head = s@;
    let n = node_ids.len();
    let mut i: usize = 0;
    while i < n
        invariant
            n == node_ids@.len(),
            i <= n,
            s@ == head + joined(node_ids@.take(i as int).map_values(|id: u32| gml_node(id))),
        decreases n - i,
    {
        let id = node_ids[i];
        s.append("  node [\n    id ");
        push_decimal(&mut s, id as u64);
        s.append("\n    hostname \"node-");
        push_decimal(&mut s, id as u64);
        s.append("\"\n  ]\n");
        proof {
            let t = node_ids@.take(i + 1).map_values(|id: u32| gml_node(id));
            assert(t.drop_last() =~= node_ids@.take(i as int).map_values(|id: u32| gml_node(id)));
        }
        i = i + 1;
    }
    proof {
        assert(node_ids@.take(n as int) =~= node_ids@);
    }
    let ghost with_nodes = s@;
    i = 0;
    while i < n
        invariant
            n == node_ids@.len(),
            i <= n,
            s@ == with_nodes + joined(node_ids@.take(i as int).map_values(|id: u32| gml_edge(id, id, 1))),
        decreases n - i,
    {
        let id = node_ids[i];
        push_gml_edge(&mut s, id, id, 1);
        proof {
            let t = node_ids@.take(i + 1).map_values(|id: u32| gml_edge(id, id, 1));
            assert(t.drop_last() =~= node_ids@.take(i as int).map_values(|id: u32| gml_edge(id, id, 1)));
        }
        i = i + 1;
    }
    let ghost with_loops = s@;
    let ghost links = Seq::new(
        edges@.len(),
        |k: int| gml_edge(node_ids@[edges@[k].0 as int], node_ids@[edges@[k].1 as int], latency_ms@[k]),
    );
    let m = edges.len();
    let mut k: usize = 0;
    while k < m
        invariant
            m == edges@.len(),
            m == latency_ms@.len(),
            n == node_ids@.len(),
            edges_within(edges@, n as int),
            k <= m,
            links == Seq::new(
                edges@.len(),
                |k: int| gml_edge(node_ids@[edges@[k].0 as int], node_ids@[edges@[k].1 as int], latency_ms@[k]),
            ),
            s@ == with_loops + joined(links.take(k as int)),
        decreases m - k,
    {
        let (a, b) = edges[k];
        assert(edges@[k as int].0 < edges@[k as int].1 < n);
        push_gml_edge(&mut s, node_ids[a], node_ids[b], latency_ms[k]);
        proof {
            assert(links.take(k + 1).drop_last() =~= links.take(k as int));
        }
        k = k + 1;
    }
    proof {
        assert(links.take(m as int) =~= links);
    }
    s.append("]\n");
    proof {
        assert(s@ =~= spec_gml(node_ids@, edges@, latency_ms@));
    }
    s
}

/// `rand::seq::index::sample`: `amount` distinct indices below `length`
/// drawn from `rng`, in random order (it panics when `amount > length`).
#[verifier::external_body]
fn sample_indices(rng: &mut StdRng, length: usize, amount: usize) -> (r: Vec<usize>)
    requires
        amount <= length,
    ensures
        r@.len() == amount,
        r@.no_duplicates(),
        forall|k: int| 0 <= k < r@.len() ==> #[trigger] r@[k] < length,
{
    rand::seq::index::sample(rng, length, amount).into_vec()
}

/// Picks `count` of the nodes at random to be supernodes; draws nothing
/// when `count` is 0.
pub fn choose_supernodes(rng: &mut StdRng, node_ids: &Vec<u32>, count: usize) -> (r: Vec<u32>)
    requires
        count <= node_ids@.len(),
    ensures
        r@.len() == count,
        forall|k: int| 0 <= k < r@.len() ==> node_ids@.contains(#[trigger] r@[k]),
        node_ids@.no_duplicates() ==> r@.no_duplicates(),
{
    let mut out: Vec<u32> = Vec::new();
    if count == 0 {
        return out;
    }
    let picks = sample_indices(rng, node_ids.len(), count);
    let mut k: usize = 0;
    while k < picks.len()
        invariant
            picks@.len() == count,
            picks@.no_duplicates(),
            forall|q: int| 0 <= q < picks@.len() ==> #[trigger] picks@[q] < node_ids@.len(),
            k <= count,
            out@.len() == k,
            forall|q: int| 0 <= q < k ==> out@[q] == node_ids@[#[trigger] picks@[q] as int],
        decreases count - k,
    {
        out.push(node_ids[picks[k]]);
        k = k + 1;
    }
    proof {
        assert forall|q: int| 0 <= q < out@.len() implies node_ids@.contains(#[trigger] out@[q]) by {
            assert(node_ids@[picks@[q] as int] == out@[q]);
        }
        if node_ids@.no_duplicates() {
            assert forall|x: int, y: int| 0 <= x < out@.len() && 0 <= y < out@.len() && x != y implies out@[x] != out@[y] by {
                assert(out@[x] == node_ids@[picks@[x] as int]);
                assert(out@[y] == node_ids@[picks@[y] as int]);
                assert(picks@[x] != picks@[y]);
            }
        }
    }
    out
}

} // verus!
