//! Aggregation of the recorded events into the run's metrics.

use vstd::prelude::*;

use crate::metrics::events::JsonlEvent;
use crate::metrics::stats::{sort_u64, sorted_u64};

verus! {

/// Smallest, largest and upper-median latency.
#[derive(Debug, Clone, Copy, PartialEq, Eq, Structural)]
pub struct LatencyStats {
    pub min: u64,
    pub max: u64,
    pub median: u64,
}

/// The statistics of sorted latencies, none when there are none.
pub open spec fn spec_latency_stats(sorted: Seq<u64>) -> Option<LatencyStats> {
    if sorted.len() == 0 {
        None
    } else {
        Some(
            LatencyStats {
                min: sorted[0],
                max: sorted[sorted.len() - 1],
                median: sorted[(sorted.len() / 2) as int],
            },
        )
    }
}

/// The statistics of the latencies.
pub fn latency_stats(latencies: &Vec<u64>) -> (r: Option<LatencyStats>)
    ensures
        exists|sorted: Seq<u64>|
            sorted_u64(sorted) && sorted.to_multiset() == latencies@.to_multiset() && r
                == spec_latency_stats(sorted),
{
    let mut sorted = latencies.clone();
    sort_u64(&mut sorted);
    let n = sorted.len();
    let r = if n == 0 {
        None
    } else {
        Some(LatencyStats { min: sorted[0], max: sorted[n - 1], median: sorted[n / 2] })
    };
    proof {
        assert(sorted@.to_multiset() == latencies@.to_multiset());
        assert(r == spec_latency_stats(sorted@));
    }
    r
}

/// The sums and counts over a run's events.
pub struct EventTotals {
    /// Earliest local proof, in milliseconds after start.
    pub first_local_proof_ms: Option<u64>,
    /// Latency of each local proof generated, by subnet (subnets in order of
    /// their first proof, latencies in event order).
    pub local_proof_latencies: Vec<(u32, Vec<u64>)>,
    /// Latency of each global proof completed, in event order.
    pub global_latencies: Vec<u64>,
    /// Signature copies received, duplicates included.
    pub sigs_received: u64,
    /// Duplicate signature copies received.
    pub duplicate_sigs: u64,
    /// First copies of signatures received (copies less duplicates).
    pub unique_sigs: u64,
    /// Signatures sent.
    pub sigs_sent: u64,
    /// Bytes of all messages sent, received and generated.
    pub total_bytes: u64,
}

/// The earliest local proof latency.
pub open spec fn spec_first_local(events: Seq<JsonlEvent>) -> Option<u64>
    decreases events.len(),
{
    if events.len() == 0 {
        None
    } else {
        let prev = spec_first_local(events.drop_last());
        match events.last() {
            JsonlEvent::LocalProofGenerated { latency_ms, .. } => if prev is None || latency_ms
                < prev.unwrap() {
                Some(latency_ms)
            } else {
                prev
            },
            _ => prev,
        }
    }
}

/// Latencies of the completed global proofs, in event order.
pub open spec fn spec_global_latencies(events: Seq<JsonlEvent>) -> Seq<u64>
    decreases events.len(),
{
    if events.len() == 0 {
        Seq::empty()
    } else {
        let prev = spec_global_latencies(events.drop_last());
        match events.last() {
            JsonlEvent::GlobalProofCompleted { latency_ms, .. } => prev.push(latency_ms),
            _ => prev,
        }
    }
}

/// Latencies of the local proofs of each subnet, in event order.
pub open spec fn spec_local_latencies(events: Seq<JsonlEvent>) -> Map<u32, Seq<u64>>
    decreases events.len(),
{
    if events.len() == 0 {
        Map::empty()
    } else {
        let prev = spec_local_latencies(events.drop_last());
        match events.last() {
            JsonlEvent::LocalProofGenerated { subnet_id, latency_ms, .. } => prev.insert(
                subnet_id,
                if prev.contains_key(subnet_id) {
                    prev[subnet_id].push(latency_ms)
                } else {
                    seq![latency_ms]
                },
            ),
            _ => prev,
        }
    }
}

/// Per event: (signature received, duplicate received, signature sent, bytes).
pub open spec fn event_counts(e: JsonlEvent) -> (nat, nat, nat, nat) {
    match e {
        JsonlEvent::LocalProofGenerated { byte_size, .. } => (0, 0, 0, byte_size as nat),
        JsonlEvent::SigReceived { duplicate, byte_size, .. } => (
            1,
            if duplicate {
                1
            } else {
                0
            },
            0,
            byte_size as nat,
        ),
        JsonlEvent::SigSent { byte_size, .. } => (0, 0, 1, byte_size as nat),
        JsonlEvent::LocalProofReceived { byte_size, .. } => (0, 0, 0, byte_size as nat),
        _ => (0, 0, 0, 0),
    }
}

/// The counts summed over the events.
pub open spec fn spec_counts(events: Seq<JsonlEvent>) -> (nat, nat, nat, nat)
    decreases events.len(),
{
    if events.len() == 0 {
        (0, 0, 0, 0)
    } else {
        let p = spec_counts(events.drop_last());
        let c = event_counts(events.last());
        (p.0 + c.0, p.1 + c.1, p.2 + c.2, p.3 + c.3)
    }
}

/// Duplicates are among the received copies: a run never counts more
/// duplicate signatures than signature copies received.
pub proof fn lemma_duplicates_within_received(events: Seq<JsonlEvent>)
    ensures
        spec_counts(events).1 <= spec_counts(events).0,
    decreases events.len(),
{
    if events.len() > 0 {
        lemma_duplicates_within_received(events.drop_last());
    }
}

/// The latencies held for each subnet by the association list.
pub open spec fn subnet_map(entries: Seq<(u32, Vec<u64>)>) -> Map<u32, Seq<u64>>
    decreases entries.len(),
{
    if entries.len() == 0 {
        Map::empty()
    } else {
        subnet_map(entries.drop_last()).insert(entries.last().0, entries.last().1@)
    }
}

/// The subnets of the list are distinct.
pub open spec fn distinct_subnets(entries: Seq<(u32, Vec<u64>)>) -> bool {
    forall|a: int, b: int| 0 <= a < b < entries.len() ==> entries[a].0 != entries[b].0
}

proof fn lemma_subnet_map_index(entries: Seq<(u32, Vec<u64>)>, k: int)
    requires
        distinct_subnets(entries),
        0 <= k < entries.len(),
    ensures
        subnet_map(entries).contains_key(entries[k].0),
        subnet_map(entries)[entries[k].0] == entries[k].1@,
    decreases entries.len(),
{
    if k < entries.len() - 1 {
        lemma_subnet_map_index(entries.drop_last(), k);
    }
}

proof fn lemma_subnet_map_absent(entries: Seq<(u32, Vec<u64>)>, key: u32)
    requires
        forall|k: int| 0 <= k < entries.len() ==> entries[k].0 != key,
    ensures
        !subnet_map(entries).contains_key(key),
    decreases entries.len(),
{
    if entries.len() > 0 {
        lemma_subnet_map_absent(entries.drop_last(), key);
    }
}

proof fn lemma_subnet_map_update(entries: Seq<(u32, Vec<u64>)>, k: int, v: Vec<u64>)
    requires
        distinct_subnets(entries),
        0 <= k < entries.len(),
    ensures
        subnet_map(entries.update(k, (entries[k].0, v))) == subnet_map(entries).insert(entries[k].0, v@),
    decreases entries.len(),
{
    let u = entries.update(k, (entries[k].0, v));
    if k == entries.len() - 1 {
        assert(u.drop_last() =~= entries.drop_last());
        assert(subnet_map(u) =~= subnet_map(entries).insert(entries[k].0, v@));
    } else {
        assert(u.drop_last() =~= entries.drop_last().update(k, (entries[k].0, v)));
        lemma_subnet_map_update(entries.drop_last(), k, v);
        assert(subnet_map(u) =~= subnet_map(entries).insert(entries[k].0, v@));
    }
}

/// The bytes add up to more than a `u64` holds.
#[derive(Debug, Clone, Copy, PartialEq, Eq, Structural)]
pub enum TotalsOverflow {
    ByteCountOverflow,
}

/// Sums and counts the events.
pub fn tally_events(events: &Vec<JsonlEvent>) -> (r: Result<EventTotals, TotalsOverflow>)
    ensures
        match r {
            Ok(t) => {
                &&& t.first_local_proof_ms == spec_first_local(events@)
                &&& t.global_latencies@ == spec_global_latencies(events@)
                &&& distinct_subnets(t.local_proof_latencies@)
                &&& subnet_map(t.local_proof_latencies@) == spec_local_latencies(events@)
                &&& t.sigs_received == spec_counts(events@).0
                &&& t.duplicate_sigs == spec_counts(events@).1
                &&& t.unique_sigs == spec_counts(events@).0 - spec_counts(events@).1
                &&& t.sigs_sent == spec_counts(events@).2
                &&& t.total_bytes == spec_counts(events@).3
            },
            Err(_) => spec_counts(events@).3 > u64::MAX,
        },
{
    let mut first: Option<u64> = None;
    let mut global: Vec<u64> = Vec::new();
    let mut local: Vec<(u32, Vec<u64>)> = Vec::new();
    let mut received: u64 = 0;
    let mut duplicates: u64 = 0;
    let mut sent: u64 = 0;
    let mut bytes: u64 = 0;
    let n = events.len();
    let mut k: usize = 0;
    while k < n
        invariant
            n == events@.len(),
            k <= n,
            first == spec_first_local(events@.take(k as int)),
            global@ == spec_global_latencies(events@.take(k as int)),
            distinct_subnets(local@),
            subnet_map(local@) == spec_local_latencies(events@.take(k as int)),
            received == spec_counts(events@.take(k as int)).0,
            duplicates == spec_counts(events@.take(k as int)).1,
            sent == spec_counts(events@.take(k as int)).2,
            bytes == spec_counts(events@.take(k as int)).3,
            received <= k && duplicates <= k && sent <= k,
            duplicates <= received,
        decreases n - k,
    {
        proof {
            assert(events@.take(k + 1).drop_last() =~= events@.take(k as int));
            assert(events@.take(k + 1).last() == events@[k as int]);
        }
        match &events[k] {
            JsonlEvent::GlobalProofCompleted { latency_ms, .. } => {
                global.push(*latency_ms);
            },
            JsonlEvent::LocalProofGenerated { subnet_id, latency_ms, byte_size, .. } => {
                add_to_subnet(&mut local, *subnet_id, *latency_ms);
                bytes = match bytes.checked_add(*byte_size) {
                    Some(b) => b,
                    None => {
                        proof {
                            lemma_counts_prefix_le(events@, k + 1);
                        }
                        return Err(TotalsOverflow::ByteCountOverflow);
                    },
                };
                let earlier = match first {
                    Some(f) => *latency_ms < f,
                    None => true,
                };
                if earlier {
                    first = Some(*latency_ms);
                }
            },
            JsonlEvent::SigReceived { duplicate, byte_size, .. } => {
                received = received + 1;
                bytes = match bytes.checked_add(*byte_size) {
                    Some(b) => b,
                    None => {
                        proof {
                            lemma_counts_prefix_le(events@, k + 1);
                        }
                        return Err(TotalsOverflow::ByteCountOverflow);
                    },
                };
                if *duplicate {
                    duplicates = duplicates + 1;
                }
            },
            JsonlEvent::SigSent { byte_size, .. } => {
                sent = sent + 1;
                bytes = match bytes.checked_add(*byte_size) {
                    Some(b) => b,
                    None => {
                        proof {
                            lemma_counts_prefix_le(events@, k + 1);
                        }
                        return Err(TotalsOverflow::ByteCountOverflow);
                    },
                };
            },
            JsonlEvent::LocalProofReceived { byte_size, .. } => {
                bytes = match bytes.checked_add(*byte_size) {
                    Some(b) => b,
                    None => {
                        proof {
                            lemma_counts_prefix_le(events@, k + 1);
                        }
                        return Err(TotalsOverflow::ByteCountOverflow);
                    },
                };
            },
            _ => {},
        }
        k = k + 1;
    }
    proof {
        assert(events@.take(n as int) =~= events@);
    }
    Ok(
        EventTotals {
            first_local_proof_ms: first,
            local_proof_latencies: local,
            global_latencies: global,
            sigs_received: received,
            duplicate_sigs: duplicates,
            unique_sigs: received - duplicates,
            sigs_sent: sent,
            total_bytes: bytes,
        },
    )
}

/// The byte count of a prefix of the events is at most that of all of them.
proof fn lemma_counts_prefix_le(events: Seq<JsonlEvent>, k: int)
    requires
        0 <= k <= events.len(),
    ensures
        spec_counts(events.take(k)).3 <= spec_counts(events).3,
    decreases events.len() - k,
{
    if k < events.len() {
        lemma_counts_prefix_le(events, k + 1);
        assert(events.take(k + 1).drop_last() =~= events.take(k));
    } else {
        assert(events.take(k) =~= events);
    }
}

/// Appends `latency` to the list of `subnet`, adding the subnet if new.
fn add_to_subnet(entries: &mut Vec<(u32, Vec<u64>)>, subnet: u32, latency: u64)
    requires
        distinct_subnets(old(entries)@),
    ensures
        distinct_subnets(final(entries)@),
        subnet_map(final(entries)@) == subnet_map(old(entries)@).insert(
            subnet,
            if subnet_map(old(entries)@).contains_key(subnet) {
                subnet_map(old(entries)@)[subnet].push(latency)
            } else {
                seq![latency]
            },
        ),
{
    let n = entries.len();
    let mut k: usize = 0;
    while k < n
        invariant
            n == entries@.len(),
            k <= n,
            entries@ == old(entries)@,
            distinct_subnets(entries@),
            forall|q: int| 0 <= q < k ==> entries@[q].0 != subnet,
        decreases n - k,
    {
        if entries[k].0 == subnet {
            let mut list = entries[k].1.clone();
            list.push(latency);
            proof {
                lemma_subnet_map_index(entries@, k as int);
                lemma_subnet_map_update(entries@, k as int, list);
            }
            entries[k] = (subnet, list);
            proof {
                assert(entries@ =~= old(entries)@.update(k as int, (subnet, list)));
            }
            return ;
        }
        k = k + 1;
    }
    proof {
        lemma_subnet_map_absent(entries@, subnet);
    }
    let mut list: Vec<u64> = Vec::new();
    list.push(latency);
    entries.push((subnet, list));
    proof {
        assert(entries@.drop_last() =~= old(entries)@);
    }
}

/// A signature was sent.
pub open spec fn is_sig_sent(e: JsonlEvent) -> bool {
    e is SigSent
}

/// A signature copy was received.
pub open spec fn is_sig_received(e: JsonlEvent) -> bool {
    e is SigReceived
}

/// A duplicate signature copy was received.
pub open spec fn is_duplicate_sig(e: JsonlEvent) -> bool {
    e matches JsonlEvent::SigReceived { duplicate: true, .. }
}

/// A first copy of a signature was received.
pub open spec fn is_first_sig(e: JsonlEvent) -> bool {
    e matches JsonlEvent::SigReceived { duplicate: false, .. }
}

/// The counts of a run are the numbers of events of each kind: signature
/// copies received, duplicates among them, first copies, signatures sent.
pub proof fn lemma_counts_by_kind(events: Seq<JsonlEvent>)
    ensures
        spec_counts(events).0 == events.filter(|e: JsonlEvent| is_sig_received(e)).len(),
        spec_counts(events).1 == events.filter(|e: JsonlEvent| is_duplicate_sig(e)).len(),
        spec_counts(events).0 - spec_counts(events).1 == events.filter(|e: JsonlEvent| is_first_sig(e)).len(),
        spec_counts(events).2 == events.filter(|e: JsonlEvent| is_sig_sent(e)).len(),
    decreases events.len(),
{
    reveal(Seq::filter);
    if events.len() > 0 {
        let init = events.drop_last();
        lemma_counts_by_kind(init);
        let p0 = |e: JsonlEvent| is_sig_received(e);
        let p1 = |e: JsonlEvent| is_duplicate_sig(e);
        let p2 = |e: JsonlEvent| is_first_sig(e);
        let p3 = |e: JsonlEvent| is_sig_sent(e);
        assert(events.filter(p0) == if p0(events.last()) { init.filter(p0).push(events.last()) } else { init.filter(p0) });
        assert(events.filter(p1) == if p1(events.last()) { init.filter(p1).push(events.last()) } else { init.filter(p1) });
        assert(events.filter(p2) == if p2(events.last()) { init.filter(p2).push(events.last()) } else { init.filter(p2) });
        assert(events.filter(p3) == if p3(events.last()) { init.filter(p3).push(events.last()) } else { init.filter(p3) });
    }
}

/// The earliest local proof: none exactly when no local proof was
/// generated, otherwise the smallest latency among them.
pub proof fn lemma_first_local_is_min(events: Seq<JsonlEvent>)
    ensures
        spec_first_local(events) is None <==> forall|k: int|
            0 <= k < events.len() ==> !(#[trigger] events[k] is LocalProofGenerated),
        spec_first_local(events) matches Some(m) ==> (exists|k: int|
            0 <= k < events.len() && #[trigger] events[k] is LocalProofGenerated && events[k]->LocalProofGenerated_latency_ms == m),
        spec_first_local(events) matches Some(m) ==> (forall|k: int|
            0 <= k < events.len() && #[trigger] events[k] is LocalProofGenerated ==> m
                <= events[k]->LocalProofGenerated_latency_ms),
    decreases events.len(),
{
    if events.len() > 0 {
        let init = events.drop_last();
        lemma_first_local_is_min(init);
        let last = events.len() - 1;
        assert forall|k: int| 0 <= k < last implies events[k] == init[k] by {}
        if let Some(m) = spec_first_local(events) {
            if spec_first_local(init) == Some(m) {
                let k = choose|k: int|
                    0 <= k < init.len() && #[trigger] init[k] is LocalProofGenerated && init[k]->LocalProofGenerated_latency_ms == m;
                assert(events[k] == init[k]);
            } else {
                assert(events[last] is LocalProofGenerated && events[last]->LocalProofGenerated_latency_ms == m);
            }
        }
        if spec_first_local(events) is None {
            assert forall|k: int| 0 <= k < events.len() implies !(#[trigger] events[k] is LocalProofGenerated) by {
                if k < last {
                    assert(events[k] == init[k]);
                    assert(!(init[k] is LocalProofGenerated));
                }
            }
        }
        if spec_first_local(init) is None && !(events[last] is LocalProofGenerated) {
            assert forall|k: int| 0 <= k < events.len() implies !(#[trigger] events[k] is LocalProofGenerated) by {
                if k < last {
                    assert(events[k] == init[k]);
                    assert(!(init[k] is LocalProofGenerated));
                }
            }
        }
        if spec_first_local(init) is Some && forall|k: int|
            0 <= k < events.len() ==> !(#[trigger] events[k] is LocalProofGenerated) {
            let k0 = choose|k: int|
                0 <= k < init.len() && #[trigger] init[k] is LocalProofGenerated && init[k]->LocalProofGenerated_latency_ms == spec_first_local(init).unwrap();
            assert(events[k0] == init[k0]);
        }
        if let Some(m) = spec_first_local(events) {
            assert forall|k: int|
                0 <= k < events.len() && #[trigger] events[k] is LocalProofGenerated implies m
                    <= events[k]->LocalProofGenerated_latency_ms by {
                if k < last {
                    assert(events[k] == init[k]);
                    assert(init[k] is LocalProofGenerated);
                }
            }
        }
    }
}

/// The latency of a completed global proof (0 for other events).
pub open spec fn global_latency(e: JsonlEvent) -> u64 {
    match e {
        JsonlEvent::GlobalProofCompleted { latency_ms, .. } => latency_ms,
        _ => 0,
    }
}

/// The latency of a generated local proof (0 for other events).
pub open spec fn local_latency(e: JsonlEvent) -> u64 {
    match e {
        JsonlEvent::LocalProofGenerated { latency_ms, .. } => latency_ms,
        _ => 0,
    }
}

/// A local proof of subnet `s` was generated.
pub open spec fn is_local_proof_of(e: JsonlEvent, s: u32) -> bool {
    e matches JsonlEvent::LocalProofGenerated { subnet_id, .. } && subnet_id == s
}

/// The global latencies are those of the completed global proofs, in event
/// order.
pub proof fn lemma_global_latencies_listed(events: Seq<JsonlEvent>)
    ensures
        spec_global_latencies(events) == events.filter(|e: JsonlEvent| e is GlobalProofCompleted).map_values(
            |e: JsonlEvent| global_latency(e),
        ),
    decreases events.len(),
{
    reveal(Seq::filter);
    if events.len() > 0 {
        lemma_global_latencies_listed(events.drop_last());
        let p = |e: JsonlEvent| e is GlobalProofCompleted;
        let f = events.drop_last().filter(p);
        assert(events.filter(p) == if p(events.last()) { f.push(events.last()) } else { f });
        assert(f.push(events.last()).map_values(|e: JsonlEvent| global_latency(e)) =~= f.map_values(
            |e: JsonlEvent| global_latency(e),
        ).push(global_latency(events.last())));
    }
}

/// The latencies held for a subnet are those of the local proofs generated
/// for it, in event order; a subnet is held exactly when it has one.
pub proof fn lemma_local_latencies_listed(events: Seq<JsonlEvent>, s: u32)
    ensures
        spec_local_latencies(events).contains_key(s) <==> events.filter(
            |e: JsonlEvent| is_local_proof_of(e, s),
        ).len() > 0,
        spec_local_latencies(events).contains_key(s) ==> spec_local_latencies(events)[s]
            == events.filter(|e: JsonlEvent| is_local_proof_of(e, s)).map_values(
            |e: JsonlEvent| local_latency(e),
        ),
    decreases events.len(),
{
    reveal(Seq::filter);
    if events.len() > 0 {
        lemma_local_latencies_listed(events.drop_last(), s);
        let p = |e: JsonlEvent| is_local_proof_of(e, s);
        let f = events.drop_last().filter(p);
        assert(events.filter(p) == if p(events.last()) { f.push(events.last()) } else { f });
        assert(f.push(events.last()).map_values(|e: JsonlEvent| local_latency(e)) =~= f.map_values(
            |e: JsonlEvent| local_latency(e),
        ).push(local_latency(events.last())));
        if f.len() == 0 {
            assert(f.map_values(|e: JsonlEvent| local_latency(e)) =~= Seq::<u64>::empty());
        }
    }
}

} // verus!
