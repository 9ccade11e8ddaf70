//! Per-node state shared by the event loop and the role runtimes.

use vstd::prelude::*;

use dashmap::DashMap;
use std::time::Instant;

use crate::config::experiment::{ExperimentConfig, NodeRole};
use crate::messages::wire::MessageId;

verus! {

/// Key of a received proof: (sender id, subnet id).
pub type ProofKey = (u32, u32);

/// Covered counts by proof key.
pub type ProofCounts = Map<ProofKey, usize>;

#[verifier::external_type_specification]
#[verifier::external_body]
#[verifier::reject_recursive_types(K)]
#[verifier::reject_recursive_types(V)]
#[verifier::reject_recursive_types(S)]
pub struct ExDashMap<K, V, S>(dashmap::DashMap<K, V, S>);

#[verifier::external_type_specification]
#[verifier::external_body]
pub struct ExInstant(std::time::Instant);

/// The message ids held by a deduplication map.
pub uninterp spec fn seen_ids(m: DashMap<[u8; 32], Instant>) -> Set<[u8; 32]>;

/// The validators whose signatures a signature map holds.
pub uninterp spec fn signer_ids(m: DashMap<u32, ()>) -> Set<u32>;

/// The covered-validator count held for each (sender, subnet) of a proof map.
pub uninterp spec fn proof_counts(m: DashMap<ProofKey, usize>) -> ProofCounts;

/// `DashMap::new` for the deduplication map: an empty map.
#[verifier::external_body]
fn new_seen_map() -> (r: DashMap<[u8; 32], Instant>)
    ensures
        seen_ids(r) == Set::<[u8; 32]>::empty(),
{
    DashMap::new()
}

/// `DashMap::contains_key` on the deduplication map: whether `id` is a key.
#[verifier::external_body]
fn seen_contains(m: &DashMap<[u8; 32], Instant>, id: &[u8; 32]) -> (r: bool)
    ensures
        r == seen_ids(*m).contains(*id),
{
    m.contains_key(id)
}

/// `DashMap::insert` on the deduplication map: `id` becomes a key; the result
/// tells whether it was one before (an old value was returned).
#[verifier::external_body]
fn seen_insert(m: &mut DashMap<[u8; 32], Instant>, id: [u8; 32], at: Instant) -> (r: bool)
    ensures
        seen_ids(*final(m)) == seen_ids(*old(m)).insert(id),
        r == seen_ids(*old(m)).contains(id),
{
    m.insert(id, at).is_some()
}

/// `DashMap::new` for the signature map: an empty map.
#[verifier::external_body]
fn new_signer_map() -> (r: DashMap<u32, ()>)
    ensures
        signer_ids(r) == Set::<u32>::empty(),
{
    DashMap::new()
}

/// `DashMap::insert` on the signature map: `id` becomes a key.
#[verifier::external_body]
fn signer_insert(m: &mut DashMap<u32, ()>, id: u32)
    ensures
        signer_ids(*final(m)) == signer_ids(*old(m)).insert(id),
{
    m.insert(id, ());
}

/// `DashMap::len` on the signature map: the number of keys.
#[verifier::external_body]
fn signer_count(m: &DashMap<u32, ()>) -> (r: usize)
    ensures
        r == signer_ids(*m).len(),
{
    m.len()
}

/// `DashMap::new` for the proof map: an empty map.
#[verifier::external_body]
fn new_proof_map() -> (r: DashMap<ProofKey, usize>)
    ensures
        proof_counts(r) == ProofCounts::empty(),
{
    DashMap::new()
}

/// `DashMap::insert` on the proof map: `key` now maps to `count`, replacing
/// any earlier count.
#[verifier::external_body]
fn proof_insert(m: &mut DashMap<ProofKey, usize>, key: ProofKey, count: usize)
    ensures
        proof_counts(*final(m)) == proof_counts(*old(m)).insert(key, count),
{
    m.insert(key, count);
}

/// `DashMap::len` on the proof map: the number of keys.
#[verifier::external_body]
fn proof_count(m: &DashMap<ProofKey, usize>) -> (r: usize)
    ensures
        r == proof_counts(*m).dom().len(),
{
    m.len()
}

/// `DashMap::iter` on the proof map, each entry as a (key, count) pair:
/// every entry once, in the map's own order.
#[verifier::external_body]
fn proof_entries(m: &DashMap<ProofKey, usize>) -> (r: Vec<(ProofKey, usize)>)
    ensures
        r@.len() == proof_counts(*m).dom().len(),
        lists_entries(proof_counts(*m), r@),
{
    m.iter().map(|e| (*e.key(), *e.value())).collect()
}

/// `Instant::now`: the current instant (nothing is claimed of it).
#[verifier::external_body]
fn now() -> Instant {
    Instant::now()
}

/// `Instant::elapsed` in whole milliseconds (nothing is claimed of it).
#[verifier::external_body]
fn millis_since(start: &Instant) -> u64 {
    start.elapsed().as_millis() as u64
}

/// The successor of a sequence counter, wrapping to 0 after `u64::MAX`.
pub open spec fn next_counter(c: u64) -> u64 {
    if c == u64::MAX {
        0
    } else {
        (c + 1) as u64
    }
}

/// Sum of the counts of a proof map.
pub open spec fn count_total(m: ProofCounts) -> int {
    m.dom().fold(0int, add_count(m))
}

/// The step of [`count_total`]: adds the count held for a key.
pub open spec fn add_count(m: ProofCounts) -> spec_fn(int, ProofKey) -> int {
    |acc: int, k: ProofKey| acc + m[k]
}

/// `s` lists entries of `m`, each key at most once.
pub open spec fn lists_entries(m: ProofCounts, s: Seq<(ProofKey, usize)>) -> bool {
    &&& forall|i: int| 0 <= i < s.len() ==> #[trigger] m.contains_key(s[i].0)
    &&& forall|i: int| 0 <= i < s.len() ==> m[#[trigger] s[i].0] == s[i].1
    &&& forall|i: int, j: int| 0 <= i < j < s.len() ==> s[i].0 != s[j].0
}

/// Sum of the counts of a list of entries.
pub open spec fn entries_total(s: Seq<(ProofKey, usize)>) -> int
    decreases s.len(),
{
    if s.len() == 0 {
        0
    } else {
        entries_total(s.drop_last()) + s.last().1
    }
}

/// Shared node state used across the event loop and role runtimes.
pub struct NodeState {
    pub node_id: u32,
    pub role: NodeRole,
    pub subnet_id: u32,
    pub start: Instant,
    pub config: ExperimentConfig,
    /// Deduplication: message id to first-seen instant.
    pub seen_messages: DashMap<MessageId, Instant>,
    /// Whether this validator has already sent its signature.
    pub sig_sent: bool,
    /// Local aggregator: unique validator ids whose signatures have been received.
    pub received_sigs: DashMap<u32, ()>,
    /// Whether this local aggregator has already published its local proof.
    pub snark1_sent: bool,
    /// Global aggregator: (sender_id, subnet_id) to covered validator count.
    pub received_proofs: DashMap<ProofKey, usize>,
    /// Whether this global aggregator has already completed.
    pub snark2_completed: bool,
    /// Per-node message sequence counter.
    pub seq_counter: u64,
    /// Bytes of signature traffic sent (including estimated forwarding).
    pub bytes_sent_sig: u64,
    /// Bytes of signature and proof traffic received.
    pub bytes_recv_sig: u64,
    /// Signature messages sent (including estimated forwarding).
    pub msgs_sent_sig: u64,
    /// Signature and proof messages received.
    pub msgs_recv_sig: u64,
}

impl NodeState {
    /// The maps of the state hold finitely many keys.
    pub open spec fn wf(&self) -> bool {
        &&& seen_ids(self.seen_messages).finite()
        &&& signer_ids(self.received_sigs).finite()
        &&& proof_counts(self.received_proofs).dom().finite()
    }

    pub fn new(node_id: u32, role: NodeRole, subnet_id: u32, config: ExperimentConfig) -> (r: Self)
        ensures
            r.wf(),
            r.node_id == node_id,
            r.role == role,
            r.subnet_id == subnet_id,
            r.config == config,
            seen_ids(r.seen_messages) == Set::<[u8; 32]>::empty(),
            signer_ids(r.received_sigs) == Set::<u32>::empty(),
            proof_counts(r.received_proofs) == Map::<ProofKey, usize>::empty(),
            !r.sig_sent,
            !r.snark1_sent,
            !r.snark2_completed,
            r.seq_counter == 0,
            r.bytes_sent_sig == 0,
            r.bytes_recv_sig == 0,
            r.msgs_sent_sig == 0,
            r.msgs_recv_sig == 0,
    {
        NodeState {
            node_id,
            role,
            subnet_id,
            start: now(),
            config,
            seen_messages: new_seen_map(),
            sig_sent: false,
            received_sigs: new_signer_map(),
            snark1_sent: false,
            received_proofs: new_proof_map(),
            snark2_completed: false,
            seq_counter: 0,
            bytes_sent_sig: 0,
            bytes_recv_sig: 0,
            msgs_sent_sig: 0,
            msgs_recv_sig: 0,
        }
    }

    /// Returns the current sequence number and advances the counter (wrapping).
    pub fn next_seq(&mut self) -> (r: u64)
        ensures
            r == old(self).seq_counter,
            final(self).seq_counter == next_counter(old(self).seq_counter),
            *final(self) == (NodeState { seq_counter: final(self).seq_counter, ..*old(self) }),
    {
        let r = self.seq_counter;
        self.seq_counter = self.seq_counter.wrapping_add(1);
        r
    }

    /// Milliseconds since the node started (read from the clock).
    pub fn elapsed_ms(&self) -> u64 {
        millis_since(&self.start)
    }

    /// Returns true if this message id has already been seen (duplicate).
    pub fn is_duplicate(&self, id: &MessageId) -> (r: bool)
        ensures
            r == seen_ids(self.seen_messages).contains(*id),
    {
        seen_contains(&self.seen_messages, id)
    }

    /// Marks a message id as seen. Returns true if it was already present.
    pub fn mark_seen(&mut self, id: MessageId) -> (r: bool)
        requires
            old(self).wf(),
        ensures
            final(self).wf(),
            r == seen_ids(old(self).seen_messages).contains(id),
            seen_ids(final(self).seen_messages) == seen_ids(old(self).seen_messages).insert(id),
            *final(self) == (NodeState { seen_messages: final(self).seen_messages, ..*old(self) }),
    {
        let at = now();
        seen_insert(&mut self.seen_messages, id, at)
    }

    /// Validators per subnet, rounded down.
    pub fn validators_per_subnet(&self) -> (r: usize)
        requires
            self.config.subnet_count > 0,
        ensures
            r == self.config.spec_validators_per_subnet(),
    {
        self.config.validators_per_subnet()
    }

    /// Number of signing validators in the experiment.
    pub fn total_validators(&self) -> (r: usize)
        ensures
            r == self.config.validator_count,
    {
        self.config.validator_count
    }

    /// Records that a validator's signature arrived; gives the number of
    /// distinct validators recorded.
    pub fn record_signer(&mut self, validator_id: u32) -> (r: usize)
        requires
            old(self).wf(),
        ensures
            final(self).wf(),
            signer_ids(final(self).received_sigs) == signer_ids(old(self).received_sigs).insert(
                validator_id,
            ),
            r == signer_ids(final(self).received_sigs).len(),
            *final(self) == (NodeState { received_sigs: final(self).received_sigs, ..*old(self) }),
    {
        signer_insert(&mut self.received_sigs, validator_id);
        signer_count(&self.received_sigs)
    }

    /// Records the covered count of a proof from `sender_id` for `subnet_id`,
    /// replacing an earlier one from the same pair; gives the sum of the
    /// counts held (`None` when it does not fit a `usize`) and the number of
    /// pairs held.
    pub fn record_proof(&mut self, sender_id: u32, subnet_id: u32, covered: usize) -> (r: (
        Option<usize>,
        usize,
    ))
        requires
            old(self).wf(),
        ensures
            final(self).wf(),
            proof_counts(final(self).received_proofs) == proof_counts(
                old(self).received_proofs,
            ).insert((sender_id, subnet_id), covered),
            r.0 matches Some(t) ==> t == count_total(proof_counts(final(self).received_proofs)),
            r.0 is None ==> count_total(proof_counts(final(self).received_proofs)) > usize::MAX,
            r.1 == proof_counts(final(self).received_proofs).dom().len(),
            *final(self) == (NodeState {
                received_proofs: final(self).received_proofs,
                ..*old(self)
            }),
    {
        proof_insert(&mut self.received_proofs, (sender_id, subnet_id), covered);
        let entries = proof_entries(&self.received_proofs);
        let total = sum_entries(&entries);
        proof {
            lemma_entries_total_is_count_total(proof_counts(self.received_proofs), entries@);
        }
        let pairs = proof_count(&self.received_proofs);
        if total <= usize::MAX as u128 {
            (Some(total as usize), pairs)
        } else {
            (None, pairs)
        }
    }
}

/// Sum of the counts of a list of entries, computed without overflow.
fn sum_entries(entries: &Vec<(ProofKey, usize)>) -> (r: u128)
    ensures
        r == entries_total(entries@),
{
    let mut total: u128 = 0;
    let mut i: usize = 0;
    let n = entries.len();
    while i < n
        invariant
            n == entries@.len(),
            i <= n,
            total == entries_total(entries@.take(i as int)),
            total <= i * usize::MAX,
        decreases entries@.len() - i,
    {
        proof {
            assert(entries@.take(i + 1).drop_last() =~= entries@.take(i as int));
            assert((i + 1) * usize::MAX == i * usize::MAX + usize::MAX) by (nonlinear_arith);
            assert(i * usize::MAX <= usize::MAX * usize::MAX) by (nonlinear_arith)
                requires
                    i <= usize::MAX,
            ;
        }
        total = total + entries[i].1 as u128;
        i = i + 1;
    }
    proof {
        assert(entries@.take(entries@.len() as int) =~= entries@);
    }
    total
}

proof fn lemma_total_step_commutes(m: ProofCounts)
    ensures
        vstd::set::fold::is_fun_commutative(add_count(m)),
{
}

/// Summing a list that holds each entry of the map once gives the sum of the map.
pub proof fn lemma_entries_total_is_count_total(
    m: ProofCounts,
    s: Seq<(ProofKey, usize)>,
)
    requires
        m.dom().finite(),
        s.len() == m.dom().len(),
        lists_entries(m, s),
    ensures
        entries_total(s) == count_total(m),
{
    let f = add_count(m);
    lemma_total_step_commutes(m);
    lemma_prefix_total(m, s, s.len() as int);
    let keys = Set::new(|k: ProofKey| exists|j: int| 0 <= j < s.len() && s[j].0 == k);
    assert(s.take(s.len() as int) =~= s);
    lemma_prefix_keys_len(s, s.len() as int);
    assert(keys.subset_of(m.dom()));
    vstd::set_lib::lemma_len_subset(keys, m.dom());
    assert(keys =~= m.dom()) by {
        if !(keys =~= m.dom()) {
            let k = choose|k: ProofKey| m.dom().contains(k) && !keys.contains(k);
            vstd::set_lib::lemma_len_subset(keys, m.dom().remove(k));
        }
    }
}

spec fn prefix_keys(s: Seq<(ProofKey, usize)>, n: int) -> Set<ProofKey> {
    Set::new(|k: ProofKey| exists|j: int| 0 <= j < n && s[j].0 == k)
}

proof fn lemma_prefix_keys_len(s: Seq<(ProofKey, usize)>, n: int)
    requires
        0 <= n <= s.len(),
        forall|i: int, j: int| 0 <= i < j < s.len() ==> s[i].0 != s[j].0,
    ensures
        prefix_keys(s, n).finite(),
        prefix_keys(s, n).len() == n,
    decreases n,
{
    if n == 0 {
        assert(prefix_keys(s, 0) =~= Set::empty());
    } else {
        lemma_prefix_keys_len(s, n - 1);
        assert(prefix_keys(s, n) =~= prefix_keys(s, n - 1).insert(s[n - 1].0));
    }
}

proof fn lemma_prefix_total(m: ProofCounts, s: Seq<(ProofKey, usize)>, n: int)
    requires
        0 <= n <= s.len(),
        lists_entries(m, s),
    ensures
        entries_total(s.take(n)) == prefix_keys(s, n).fold(0int, add_count(m)),
    decreases n,
{
    let f = add_count(m);
    lemma_total_step_commutes(m);
    if n == 0 {
        assert(prefix_keys(s, 0) =~= Set::empty());
        vstd::set::fold::lemma_fold_empty::<ProofKey, int>(0int, f);
    } else {
        lemma_prefix_total(m, s, n - 1);
        lemma_prefix_keys_len(s, n - 1);
        assert(s.take(n).drop_last() =~= s.take(n - 1));
        assert(prefix_keys(s, n) =~= prefix_keys(s, n - 1).insert(s[n - 1].0));
        assert(!prefix_keys(s, n - 1).contains(s[n - 1].0));
        vstd::set::fold::lemma_fold_insert(prefix_keys(s, n - 1), 0int, f, s[n - 1].0);
    }
}

/// Folding with two steps that agree on the set's elements gives the same result.
proof fn lemma_fold_congruent(s: Set<ProofKey>, m1: ProofCounts, m2: ProofCounts)
    requires
        s.finite(),
        forall|k: ProofKey| s.contains(k) ==> m1[k] == m2[k],
    ensures
        s.fold(0int, add_count(m1)) == s.fold(0int, add_count(m2)),
    decreases s.len(),
{
    lemma_total_step_commutes(m1);
    lemma_total_step_commutes(m2);
    if s.len() == 0 {
        assert(s =~= Set::empty());
        vstd::set::fold::lemma_fold_empty::<ProofKey, int>(0int, add_count(m1));
        vstd::set::fold::lemma_fold_empty::<ProofKey, int>(0int, add_count(m2));
    } else {
        let a = s.choose();
        let rest = s.remove(a);
        lemma_fold_congruent(rest, m1, m2);
        assert(rest.insert(a) =~= s);
        vstd::set::fold::lemma_fold_insert(rest, 0int, add_count(m1), a);
        vstd::set::fold::lemma_fold_insert(rest, 0int, add_count(m2), a);
    }
}

/// The total is the count held for one key plus the total of the others.
pub proof fn lemma_count_total_split(m: ProofCounts, k: ProofKey)
    requires
        m.dom().finite(),
        m.contains_key(k),
    ensures
        count_total(m) == count_total(m.remove(k)) + m[k],
{
    let rest = m.remove(k);
    lemma_total_step_commutes(m);
    assert(rest.dom() =~= m.dom().remove(k));
    assert(rest.dom().insert(k) =~= m.dom());
    vstd::set::fold::lemma_fold_insert(rest.dom(), 0int, add_count(m), k);
    lemma_fold_congruent(rest.dom(), m, rest);
}

/// A newer count for a key replaces the older one in the total: the total
/// changes by the difference (a resent count leaves it unchanged).
pub proof fn lemma_count_total_replace(m: ProofCounts, k: ProofKey, c: usize)
    requires
        m.dom().finite(),
    ensures
        m.contains_key(k) ==> count_total(m.insert(k, c)) == count_total(m) - m[k] + c,
        !m.contains_key(k) ==> count_total(m.insert(k, c)) == count_total(m) + c,
{
    let n = m.insert(k, c);
    lemma_count_total_split(n, k);
    if m.contains_key(k) {
        lemma_count_total_split(m, k);
        assert(n.remove(k) =~= m.remove(k));
    } else {
        assert(n.remove(k) =~= m);
    }
}

/// Marking an id seen makes it seen: marking the same id again reports a
/// duplicate.
pub proof fn lemma_mark_seen_twice(ids: Set<MessageId>, id: MessageId)
    ensures
        ids.insert(id).contains(id),
        ids.insert(id).insert(id) == ids.insert(id),
{
    assert(ids.insert(id).insert(id) =~= ids.insert(id));
}

} // verus!
