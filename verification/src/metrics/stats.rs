//! The stage timing table: medians over the recorded times.

use vstd::prelude::*;

use crate::metrics::events::JsonlEvent;

verus! {

/// The values are in non-decreasing order.
pub open spec fn sorted_u64(s: Seq<u64>) -> bool {
    forall|i: int, j: int| 0 <= i <= j < s.len() ==> s[i] <= s[j]
}

/// `slice::sort` on `u64`s: the same values in non-decreasing order.
#[verifier::external_body]
pub(crate) fn sort_u64(values: &mut Vec<u64>)
    ensures
        sorted_u64(final(values)@),
        final(values)@.to_multiset() == old(values)@.to_multiset(),
{
    values.sort();
}

/// The upper median of sorted values (the one at index `len / 2`), 0 when
/// there are none.
pub open spec fn spec_median_of_sorted(s: Seq<u64>) -> u64 {
    if s.len() == 0 {
        0
    } else {
        s[(s.len() / 2) as int]
    }
}

/// Sorts the values and gives their upper median (0 when there are none).
pub fn median(values: &mut Vec<u64>) -> (r: u64)
    ensures
        sorted_u64(final(values)@),
        final(values)@.to_multiset() == old(values)@.to_multiset(),
        r == spec_median_of_sorted(final(values)@),
{
    sort_u64(values);
    let len = values.len();
    if len == 0 {
        return 0;
    }
    values[len / 2]
}

/// The time at which a node had received the threshold share of its
/// signatures: with `threshold_index` the share of the count, the
/// `threshold_index`-th earliest time, for nodes that received at least 100.
pub open spec fn spec_threshold_time(sorted: Seq<u64>, threshold_index: usize) -> Option<u64> {
    if sorted.len() < 100 || threshold_index == 0 || threshold_index > sorted.len() {
        None
    } else {
        Some(sorted[threshold_index - 1])
    }
}

/// The threshold time of a node's receive times (which it sorts).
pub fn threshold_time(times: &mut Vec<u64>, threshold_index: usize) -> (r: Option<u64>)
    ensures
        sorted_u64(final(times)@),
        final(times)@.to_multiset() == old(times)@.to_multiset(),
        r == spec_threshold_time(final(times)@, threshold_index),
{
    sort_u64(times);
    if times.len() < 100 || threshold_index == 0 || threshold_index > times.len() {
        None
    } else {
        Some(times[threshold_index - 1])
    }
}

/// The value `entries` holds for `key`: the first entry with that key.
pub open spec fn lookup(entries: Seq<(u32, u64)>, key: u32) -> Option<u64>
    decreases entries.len(),
{
    if entries.len() == 0 {
        None
    } else if entries[0].0 == key {
        Some(entries[0].1)
    } else {
        lookup(entries.drop_first(), key)
    }
}

fn find(entries: &Vec<(u32, u64)>, key: u32) -> (r: Option<u64>)
    ensures
        r == lookup(entries@, key),
{
    let n = entries.len();
    let mut k: usize = 0;
    proof {
        assert(entries@.skip(0) =~= entries@);
    }
    while k < n
        invariant
            n == entries@.len(),
            k <= n,
            lookup(entries@, key) == lookup(entries@.skip(k as int), key),
        decreases n - k,
    {
        proof {
            assert(entries@.skip(k as int).drop_first() =~= entries@.skip(k + 1));
        }
        if entries[k].0 == key {
            return Some(entries[k].1);
        }
        k = k + 1;
    }
    None
}

/// The threshold times of the aggregators (nodes that also published a
/// proof), and for each the time from threshold to proof.
pub open spec fn spec_stage_times(thresholds: Seq<(u32, u64)>, proof_latencies: Seq<(u32, u64)>) -> (Seq<u64>, Seq<u64>)
    decreases thresholds.len(),
{
    if thresholds.len() == 0 {
        (Seq::empty(), Seq::empty())
    } else {
        let (ts, cs) = spec_stage_times(thresholds.drop_last(), proof_latencies);
        let (node, t) = thresholds.last();
        match lookup(proof_latencies, node) {
            Some(latency) => (ts.push(t), cs.push((latency - t) as u64)),
            None => (ts, cs),
        }
    }
}

/// Every aggregator published its proof no earlier than it reached its threshold.
pub open spec fn proofs_after_thresholds(thresholds: Seq<(u32, u64)>, proof_latencies: Seq<(u32, u64)>) -> bool {
    forall|k: int| 0 <= k < thresholds.len() ==> (lookup(proof_latencies, (#[trigger] thresholds[k]).0) matches Some(l) ==> l >= thresholds[k].1)
}

/// Keeps the threshold times of nodes that published a proof (in the given
/// order) and pairs each with the aggregation compute time.
pub fn stage_times(thresholds: &Vec<(u32, u64)>, proof_latencies: &Vec<(u32, u64)>) -> (r: (Vec<u64>, Vec<u64>))
    requires
        proofs_after_thresholds(thresholds@, proof_latencies@),
    ensures
        (r.0@, r.1@) == spec_stage_times(thresholds@, proof_latencies@),
{
    let mut kept: Vec<u64> = Vec::new();
    let mut compute: Vec<u64> = Vec::new();
    let n = thresholds.len();
    let mut k: usize = 0;
    while k < n
        invariant
            n == thresholds@.len(),
            k <= n,
            proofs_after_thresholds(thresholds@, proof_latencies@),
            (kept@, compute@) == spec_stage_times(thresholds@.take(k as int), proof_latencies@),
        decreases n - k,
    {
        proof {
            assert(thresholds@.take(k + 1).drop_last() =~= thresholds@.take(k as int));
            assert(thresholds@.take(k + 1).last() == thresholds@[k as int]);
        }
        let (node, t) = thresholds[k];
        match find(proof_latencies, node) {
            Some(latency) => {
                kept.push(t);
                compute.push(latency - t);
            },
            None => {},
        }
        k = k + 1;
    }
    proof {
        assert(thresholds@.take(n as int) =~= thresholds@);
    }
    (kept, compute)
}

/// The times at which `node` received first copies of signatures, in event
/// order.
pub open spec fn receipts_of(events: Seq<JsonlEvent>, node: u32) -> Seq<u64>
    decreases events.len(),
{
    if events.len() == 0 {
        Seq::empty()
    } else {
        let prev = receipts_of(events.drop_last(), node);
        match events.last() {
            JsonlEvent::SigReceived { node_id, duplicate, ts_ms, .. } => if node_id == node
                && !duplicate {
                prev.push(ts_ms)
            } else {
                prev
            },
            _ => prev,
        }
    }
}

/// The node ids of the groups strictly increase.
pub open spec fn nodes_ascending(groups: Seq<(u32, Vec<u64>)>) -> bool {
    forall|a: int, b: int| 0 <= a < b < groups.len() ==> groups[a].0 < groups[b].0
}

/// The groups hold, for each node that received a first copy of a signature
/// in the events, its receive times.
pub open spec fn receipts_grouped(events: Seq<JsonlEvent>, groups: Seq<(u32, Vec<u64>)>) -> bool {
    &&& nodes_ascending(groups)
    &&& forall|k: int| 0 <= k < groups.len() ==> (#[trigger] groups[k]).1@ == receipts_of(events, groups[k].0)
        && groups[k].1@.len() > 0
    &&& forall|node: u32| #[trigger] receipts_of(events, node).len() > 0 ==> exists|k: int|
        0 <= k < groups.len() && groups[k].0 == node
}

/// The receive times of first signature copies, grouped by receiving node,
/// nodes in increasing order.
pub fn receipt_times(events: &Vec<JsonlEvent>) -> (r: Vec<(u32, Vec<u64>)>)
    ensures
        receipts_grouped(events@, r@),
{
    let mut groups: Vec<(u32, Vec<u64>)> = Vec::new();
    let n = events.len();
    let mut i: usize = 0;
    while i < n
        invariant
            n == events@.len(),
            i <= n,
            receipts_grouped(events@.take(i as int), groups@),
        decreases n - i,
    {
        let ghost pre = events@.take(i as int);
        let ghost post = events@.take(i + 1);
        proof {
            assert(post.drop_last() =~= pre);
            assert(post.last() == events@[i as int]);
        }
        match &events[i] {
            JsonlEvent::SigReceived { node_id, duplicate, ts_ms, .. } => {
                if !*duplicate {
                    add_receipt(&mut groups, Ghost(pre), Ghost(post), *node_id, *ts_ms);
                } else {
                    proof {
                        assert forall|node: u32| receipts_of(post, node) == receipts_of(pre, node) by {}
                    }
                }
            },
            _ => {
                proof {
                    assert forall|node: u32| receipts_of(post, node) == receipts_of(pre, node) by {}
                }
            },
        }
        i = i + 1;
    }
    proof {
        assert(events@.take(n as int) =~= events@);
    }
    groups
}

fn add_receipt(
    groups: &mut Vec<(u32, Vec<u64>)>,
    Ghost(pre): Ghost<Seq<JsonlEvent>>,
    Ghost(post): Ghost<Seq<JsonlEvent>>,
    node: u32,
    ts: u64,
)
    requires
        receipts_grouped(pre, old(groups)@),
        forall|m: u32| #[trigger] receipts_of(post, m) == if m == node {
            receipts_of(pre, m).push(ts)
        } else {
            receipts_of(pre, m)
        },
    ensures
        receipts_grouped(post, final(groups)@),
{
    let n = groups.len();
    let mut p: usize = 0;
    while p < n && groups[p].0 < node
        invariant
            n == groups@.len(),
            p <= n,
            groups@ == old(groups)@,
            forall|q: int| 0 <= q < p ==> groups@[q].0 < node,
        decreases n - p,
    {
        p = p + 1;
    }
    let ghost g0 = groups@;
    if p < n && groups[p].0 == node {
        let mut list = groups[p].1.clone();
        proof {
            assert(list@ =~= groups@[p as int].1@);
        }
        list.push(ts);
        groups.set(p, (node, list));
        proof {
            let g = groups@;
            assert forall|k: int| 0 <= k < g.len() implies (#[trigger] g[k]).1@ == receipts_of(post, g[k].0)
                && g[k].1@.len() > 0 by {
                if k != p {
                    assert(g[k] == g0[k]);
                    assert(g0[k].0 != node) by {
                        if k < p {} else { assert(g0[p as int].0 < g0[k].0); }
                    }
                }
            }
            assert forall|m: u32| #[trigger] receipts_of(post, m).len() > 0 implies exists|k: int|
                0 <= k < g.len() && g[k].0 == m by {
                if m == node {
                    assert(g[p as int].0 == m);
                } else {
                    assert(receipts_of(pre, m).len() > 0);
                    let k = choose|k: int| 0 <= k < g0.len() && g0[k].0 == m;
                    assert(g[k].0 == m);
                }
            }
        }
    } else {
        proof {
            assert forall|k: int| 0 <= k < g0.len() implies g0[k].0 != node by {
                if k >= p {
                    assert(p < n);
                    if k > p {
                        assert(g0[p as int].0 < g0[k].0);
                    }
                }
            }
            assert(receipts_of(pre, node).len() == 0) by {
                if receipts_of(pre, node).len() > 0 {
                    let k = choose|k: int| 0 <= k < g0.len() && g0[k].0 == node;
                }
            }
        }
        let mut list: Vec<u64> = Vec::new();
        list.push(ts);
        groups.insert(p, (node, list));
        proof {
            let g = groups@;
            assert(g =~= g0.take(p as int).push((node, list)) + g0.skip(p as int));
            assert forall|a: int, b: int| 0 <= a < b < g.len() implies g[a].0 < g[b].0 by {
                if b < p {
                } else if b == p {
                } else if a == p {
                    assert(g[b] == g0[b - 1]);
                } else if a < p {
                    assert(g[b] == g0[b - 1]);
                } else {
                    assert(g[a] == g0[a - 1] && g[b] == g0[b - 1]);
                }
            }
            assert forall|k: int| 0 <= k < g.len() implies (#[trigger] g[k]).1@ == receipts_of(post, g[k].0)
                && g[k].1@.len() > 0 by {
                if k < p {
                    assert(g[k] == g0[k]);
                } else if k > p {
                    assert(g[k] == g0[k - 1]);
                } else {
                    assert(receipts_of(pre, node) =~= Seq::<u64>::empty());
                    assert(list@ =~= seq![ts]);
                }
            }
            assert forall|m: u32| #[trigger] receipts_of(post, m).len() > 0 implies exists|k: int|
                0 <= k < g.len() && g[k].0 == m by {
                if m == node {
                    assert(g[p as int].0 == m);
                } else {
                    assert(receipts_of(pre, m).len() > 0);
                    let k = choose|k: int| 0 <= k < g0.len() && g0[k].0 == m;
                    if k < p {
                        assert(g[k].0 == m);
                    } else {
                        assert(g[k + 1].0 == m);
                    }
                }
            }
        }
    }
}

} // verus!
