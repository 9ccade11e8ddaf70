//! The simulated network: node roles and addresses, the topology graph and
//! the Shadow host table.

use vstd::prelude::*;

use crate::config::experiment::{ExperimentConfig, NodeConfig, NodeRole};
use crate::text::{
    decimal, dotted_quad, lemma_dotted_quad_injective, push_decimal, split_fields, split_str,
    string_views,
};

verus! {

/// Number of seed peers each node is given (at most).
pub const SEED_PEER_COUNT: usize = 50;

/// `10.{subnet}.{local_id / 254}.{local_id % 254 + 1}`.
pub open spec fn spec_subnet_ip(subnet: u32, local_id: u32) -> Seq<char> {
    "10."@ + decimal(subnet as nat) + "."@ + decimal((local_id / 254) as nat) + "."@ + decimal(
        (local_id % 254 + 1) as nat,
    )
}

/// `10.255.{node_id / 254}.{node_id % 254 + 1}`.
pub open spec fn spec_global_aggregator_ip(node_id: u32) -> Seq<char> {
    "10.255."@ + decimal((node_id / 254) as nat) + "."@ + decimal((node_id % 254 + 1) as nat)
}

/// The QUIC listen address on `ip`: `/ip4/{ip}/udp/9090/quic-v1`.
pub open spec fn spec_listen_addr(ip: Seq<char>) -> Seq<char> {
    "/ip4/"@ + ip + "/udp/9090/quic-v1"@
}

/// The address of a validator or local aggregator: the subnet is the second
/// octet and the node's index in its subnet spreads over the last two (the
/// last one never 0).
pub fn subnet_ip(subnet: u32, local_id: u32) -> (r: String)
    ensures
        r@ == spec_subnet_ip(subnet, local_id),
{
    let mut s = String::from_str("10.");
    push_decimal(&mut s, subnet as u64);
    s.append(".");
    push_decimal(&mut s, (local_id / 254) as u64);
    s.append(".");
    push_decimal(&mut s, (local_id % 254 + 1) as u64);
    s
}

/// The address of a global aggregator, in the reserved subnet 255.
pub fn global_aggregator_ip(node_id: u32) -> (r: String)
    ensures
        r@ == spec_global_aggregator_ip(node_id),
{
    let mut s = String::from_str("10.255.");
    push_decimal(&mut s, (node_id / 254) as u64);
    s.append(".");
    push_decimal(&mut s, (node_id % 254 + 1) as u64);
    s
}

/// The QUIC listen address on `ip`.
pub fn listen_addr(ip: &str) -> (r: String)
    ensures
        r@ == spec_listen_addr(ip@),
{
    let mut s = String::from_str("/ip4/");
    s.append(ip);
    s.append("/udp/9090/quic-v1");
    s
}

/// The third `/`-separated field of a listen address (the IP of
/// `/ip4/{ip}/...`), or `0.0.0.0` when there is none.
pub open spec fn spec_extract_ip(listen_addr: Seq<char>) -> Seq<char> {
    let fields = split_fields(listen_addr, '/');
    if fields.len() > 2 {
        fields[2]
    } else {
        "0.0.0.0"@
    }
}

/// The IP of a listen address.
pub fn extract_ip(listen_addr: &str) -> (r: String)
    ensures
        r@ == spec_extract_ip(listen_addr@),
{
    let fields = split_str(listen_addr, '/');
    proof {
        assert(string_views(fields@).len() == fields@.len());
    }
    if fields.len() > 2 {
        proof {
            assert(string_views(fields@)[2] == fields@[2]@);
        }
        fields[2].clone()
    } else {
        String::from_str("0.0.0.0")
    }
}

/// A bandwidth in Shadow's notation: `{mbps} Mbit`.
pub open spec fn spec_mbit(mbps: u64) -> Seq<char> {
    decimal(mbps as nat) + " Mbit"@
}

/// A bandwidth in Shadow's notation.
pub fn mbit(mbps: u64) -> (r: String)
    ensures
        r@ == spec_mbit(mbps),
{
    let mut s = String::new();
    push_decimal(&mut s, mbps);
    s.append(" Mbit");
    s
}

/// The (download, upload) bandwidth of a host: the supernode bandwidth for
/// supernodes, the network default otherwise.
pub fn host_bandwidth(experiment: &ExperimentConfig, is_supernode: bool) -> (r: (String, String))
    ensures
        r.0@ == spec_mbit(
            if is_supernode {
                experiment.supernode_downlink_mbps
            } else {
                experiment.network_defaults.downlink_mbps
            },
        ),
        r.1@ == spec_mbit(
            if is_supernode {
                experiment.supernode_uplink_mbps
            } else {
                experiment.network_defaults.uplink_mbps
            },
        ),
{
    if is_supernode {
        (mbit(experiment.supernode_downlink_mbps), mbit(experiment.supernode_uplink_mbps))
    } else {
        (
            mbit(experiment.network_defaults.downlink_mbps),
            mbit(experiment.network_defaults.uplink_mbps),
        )
    }
}

/// When Shadow stops: ten seconds after the run timeout, as `{secs}s`.
pub fn stop_time(experiment: &ExperimentConfig) -> (r: String)
    requires
        experiment.run_timeout_secs + 10 <= u64::MAX,
    ensures
        r@ == decimal((experiment.run_timeout_secs + 10) as nat) + "s"@,
{
    let mut s = String::new();
    push_decimal(&mut s, experiment.run_timeout_secs + 10);
    s.append("s");
    s
}

/// The Shadow host name of a node: `node-{id}`.
pub fn hostname(node_id: u32) -> (r: String)
    ensures
        r@ == "node-"@ + decimal(node_id as nat),
{
    let mut s = String::from_str("node-");
    push_decimal(&mut s, node_id as u64);
    s
}

/// Hosts per subnet: its validators, then its local aggregators.
pub open spec fn spec_block_size(e: ExperimentConfig) -> int {
    e.spec_validators_per_subnet() + e.local_aggregators_per_subnet
}

/// Hosts in the subnets.
pub open spec fn spec_subnet_hosts(e: ExperimentConfig) -> int {
    e.subnet_count * spec_block_size(e)
}

/// Number of nodes the generator lays out: every subnet's validators and
/// local aggregators, then the global aggregators.
pub open spec fn spec_node_count(e: ExperimentConfig) -> int {
    spec_subnet_hosts(e) + e.global_aggregator_count
}

/// The generator lays out exactly the configured total of hosts (the
/// validators plus the global aggregators) when the validators divide
/// evenly among the subnets and no separate local aggregator hosts are added.
pub proof fn lemma_node_count_is_total(e: ExperimentConfig)
    requires
        e.subnet_count > 0,
        e.validator_count % e.subnet_count == 0,
        e.local_aggregators_per_subnet == 0,
    ensures
        spec_node_count(e) == e.spec_total_nodes(),
{
    vstd::arithmetic::div_mod::lemma_fundamental_div_mod(
        e.validator_count as int,
        e.subnet_count as int,
    );
    assert(spec_subnet_hosts(e) == e.subnet_count * (e.validator_count as int / e.subnet_count as int));
}

/// Role of node `j`: within a subnet block the validators come first.
pub open spec fn spec_node_role(e: ExperimentConfig, j: int) -> NodeRole {
    if j < spec_subnet_hosts(e) {
        if j % spec_block_size(e) < e.spec_validators_per_subnet() {
            NodeRole::Validator
        } else {
            NodeRole::LocalAggregator
        }
    } else {
        NodeRole::GlobalAggregator
    }
}

/// Subnet of node `j` (global aggregators are given subnet 0).
pub open spec fn spec_node_subnet(e: ExperimentConfig, j: int) -> u32 {
    if j < spec_subnet_hosts(e) {
        (j / spec_block_size(e)) as u32
    } else {
        0
    }
}

/// IP of node `j`: by subnet and index within the subnet, or by node id for
/// global aggregators.
pub open spec fn spec_node_ip(e: ExperimentConfig, j: int) -> Seq<char> {
    if j < spec_subnet_hosts(e) {
        spec_subnet_ip((j / spec_block_size(e)) as u32, (j % spec_block_size(e)) as u32)
    } else {
        spec_global_aggregator_ip(j as u32)
    }
}

/// Listen address of node `j`.
pub open spec fn spec_node_addr(e: ExperimentConfig, j: int) -> Seq<char> {
    spec_listen_addr(spec_node_ip(e, j))
}

/// Listen addresses of all nodes, by node id.
pub open spec fn spec_all_addrs(e: ExperimentConfig) -> Seq<Seq<char>> {
    Seq::new(spec_node_count(e) as nat, |j: int| spec_node_addr(e, j))
}

/// Base seed of the seed-peer shuffles (42 when the experiment seed is 0).
pub open spec fn spec_seed_base(e: ExperimentConfig) -> u64 {
    if e.geo_seed != 0 {
        e.geo_seed
    } else {
        42
    }
}

/// The addresses other than `addr`, in node order.
pub open spec fn other_addrs(all: Seq<Seq<char>>, addr: Seq<char>) -> Seq<Seq<char>> {
    all.filter(|a: Seq<char>| a != addr)
}

/// Seed peers of node `j`: the other nodes' addresses, shuffled by a
/// generator seeded with the base seed plus `j` (wrapping), cut to at most
/// [`SEED_PEER_COUNT`].
pub open spec fn spec_seed_addrs(e: ExperimentConfig, j: int) -> Seq<Seq<char>> {
    let others = other_addrs(spec_all_addrs(e), spec_node_addr(e, j));
    let shuffled = seeded_shuffle(((spec_seed_base(e) + j) % 0x1_0000_0000_0000_0000) as u64, others);
    shuffled.take(if others.len() < 50 { others.len() as int } else { 50 })
}

/// The order `rand`'s `SliceRandom::shuffle` gives a list when driven by
/// `StdRng::seed_from_u64(seed)`.
pub uninterp spec fn seeded_shuffle(seed: u64, items: Seq<Seq<char>>) -> Seq<Seq<char>>;

/// `SliceRandom::shuffle` with `StdRng::seed_from_u64(seed)`.
///
/// Claims that the result is the named shuffle of the input and, as a
/// shuffle in place, holds the same items.
#[verifier::external_body]
fn shuffle_seeded(seed: u64, items: Vec<String>) -> (r: Vec<String>)
    ensures
        string_views(r@) == seeded_shuffle(seed, string_views(items@)),
        string_views(r@).to_multiset() == string_views(items@).to_multiset(),
{
    let mut items = items;
    let mut rng = <rand::rngs::StdRng as rand::SeedableRng>::seed_from_u64(seed);
    rand::seq::SliceRandom::shuffle(items.as_mut_slice(), &mut rng);
    items
}

/// How many of `available` seed peers a node keeps: at most [`SEED_PEER_COUNT`].
pub open spec fn seed_peer_cap(limit: int, available: int) -> int {
    if available < limit {
        available
    } else {
        limit
    }
}

proof fn lemma_ip_prefix(rest: Seq<char>)
    ensures
        "10."@ + rest == decimal(10) + seq!['.'] + rest,
        "10.255."@ + rest == decimal(10) + seq!['.'] + (decimal(255) + seq!['.'] + rest),
{
    reveal_strlit("10.");
    reveal_strlit("10.255.");
    reveal_with_fuel(decimal, 3);
    assert(decimal(10) =~= seq!['1', '0']);
    assert(decimal(255) =~= seq!['2', '5', '5']);
    assert("10."@ + rest =~= decimal(10) + seq!['.'] + rest);
    assert("10.255."@ + rest =~= decimal(10) + seq!['.'] + (decimal(255) + seq!['.'] + rest));
}

/// The dotted quad of node `j`'s address.
spec fn node_quad(e: ExperimentConfig, j: int) -> (nat, nat, nat, nat) {
    if j < spec_subnet_hosts(e) {
        let loc = j % spec_block_size(e);
        (10, (j / spec_block_size(e)) as nat, (loc / 254) as nat, (loc % 254 + 1) as nat)
    } else {
        (10, 255, (j / 254) as nat, (j % 254 + 1) as nat)
    }
}

proof fn lemma_node_ip_quad(e: ExperimentConfig, j: int)
    requires
        0 <= j < spec_node_count(e),
        spec_node_count(e) <= u32::MAX,
    ensures
        spec_node_ip(e, j) == dotted_quad(node_quad(e, j).0, node_quad(e, j).1, node_quad(e, j).2, node_quad(e, j).3),
{
    let q = node_quad(e, j);
    if j < spec_subnet_hosts(e) {
        let b = spec_block_size(e);
        assert(b > 0) by (nonlinear_arith)
            requires
                0 <= j < spec_subnet_hosts(e),
                spec_subnet_hosts(e) == e.subnet_count * b,
                e.subnet_count >= 0,
        ;
        assert(j / b <= j) by (nonlinear_arith)
            requires
                j >= 0,
                b > 0,
        ;
        assert(j % b <= j) by (nonlinear_arith)
            requires
                j >= 0,
                b > 0,
        ;
        let sub = (j / b) as u32;
        let loc = (j % b) as u32;
        assert(sub as int == j / b);
        assert(loc as int == j % b);
        assert((loc / 254) as nat == q.2);
        assert((loc % 254 + 1) as nat == q.3);
        reveal_strlit(".");
        let rest = decimal(q.1) + seq!['.'] + (decimal(q.2) + seq!['.'] + decimal(q.3));
        lemma_ip_prefix(rest);
        assert(spec_node_ip(e, j) == spec_subnet_ip(sub, loc));
        assert(spec_subnet_ip(sub, loc) =~= "10."@ + rest);
    } else {
        let id = j as u32;
        assert(id as int == j);
        reveal_strlit(".");
        let rest = decimal(q.2) + seq!['.'] + decimal(q.3);
        lemma_ip_prefix(rest);
        assert(spec_node_ip(e, j) == spec_global_aggregator_ip(id));
        assert(spec_global_aggregator_ip(id) =~= "10.255."@ + rest);
    }
}

proof fn lemma_listen_addr_injective(ip1: Seq<char>, ip2: Seq<char>)
    requires
        spec_listen_addr(ip1) == spec_listen_addr(ip2),
    ensures
        ip1 == ip2,
{
    let pre = "/ip4/"@;
    let post = "/udp/9090/quic-v1"@;
    let a = spec_listen_addr(ip1);
    assert(a.len() == pre.len() + ip1.len() + post.len());
    assert(spec_listen_addr(ip2).len() == pre.len() + ip2.len() + post.len());
    assert(ip1.len() == ip2.len());
    assert(ip1 =~= a.subrange(pre.len() as int, pre.len() as int + ip1.len()));
    assert(ip2 =~= spec_listen_addr(ip2).subrange(pre.len() as int, pre.len() as int + ip2.len()));
}

/// Different nodes listen on different addresses when there are at most 255
/// subnets (the last subnet octet, 255, is that of the global aggregators).
pub proof fn lemma_node_addrs_distinct(e: ExperimentConfig, j1: int, j2: int)
    requires
        1 <= e.subnet_count <= 255,
        spec_node_count(e) <= u32::MAX,
        0 <= j1 < spec_node_count(e),
        0 <= j2 < spec_node_count(e),
        j1 != j2,
    ensures
        spec_node_addr(e, j1) != spec_node_addr(e, j2),
{
    if spec_node_addr(e, j1) == spec_node_addr(e, j2) {
        lemma_listen_addr_injective(spec_node_ip(e, j1), spec_node_ip(e, j2));
        lemma_node_ip_quad(e, j1);
        lemma_node_ip_quad(e, j2);
        let q1 = node_quad(e, j1);
        let q2 = node_quad(e, j2);
        lemma_dotted_quad_injective(q1.0, q1.1, q1.2, q1.3, q2.0, q2.1, q2.2, q2.3);
        let h = spec_subnet_hosts(e);
        let b = spec_block_size(e);
        if j1 < h {
            assert(j1 / b < e.subnet_count) by (nonlinear_arith)
                requires
                    0 <= j1 < h,
                    h == e.subnet_count * b,
                    b >= 0,
            ;
        }
        if j2 < h {
            assert(j2 / b < e.subnet_count) by (nonlinear_arith)
                requires
                    0 <= j2 < h,
                    h == e.subnet_count * b,
                    b >= 0,
            ;
        }
        if j1 < h && j2 < h {
            assert(b > 0) by (nonlinear_arith)
                requires
                    0 <= j1 < h,
                    h == e.subnet_count * b,
                    b >= 0,
            ;
            let l1 = j1 % b;
            let l2 = j2 % b;
            vstd::arithmetic::div_mod::lemma_fundamental_div_mod(l1, 254);
            vstd::arithmetic::div_mod::lemma_fundamental_div_mod(l2, 254);
            assert(l1 == l2);
            vstd::arithmetic::div_mod::lemma_fundamental_div_mod(j1, b);
            vstd::arithmetic::div_mod::lemma_fundamental_div_mod(j2, b);
        } else if j1 >= h && j2 >= h {
            vstd::arithmetic::div_mod::lemma_fundamental_div_mod(j1, 254);
            vstd::arithmetic::div_mod::lemma_fundamental_div_mod(j2, 254);
        }
    }
}

/// Nodes' addresses are pairwise distinct when there are at most 255
/// subnets, and so are the addresses other than any one of them.
pub proof fn lemma_all_addrs_distinct(e: ExperimentConfig, addr: Seq<char>)
    requires
        1 <= e.subnet_count <= 255,
        spec_node_count(e) <= u32::MAX,
    ensures
        spec_all_addrs(e).no_duplicates(),
        other_addrs(spec_all_addrs(e), addr).no_duplicates(),
{
    let all = spec_all_addrs(e);
    assert forall|i: int, k: int| 0 <= i < all.len() && 0 <= k < all.len() && i != k implies all[i] != all[k] by {
        lemma_node_addrs_distinct(e, i, k);
    }
    assert forall|p: spec_fn(Seq<char>) -> bool| #[trigger] all.filter(p).no_duplicates() by {
        lemma_filter_no_duplicates(all, p);
    }
}

proof fn lemma_filter_no_duplicates(s: Seq<Seq<char>>, p: spec_fn(Seq<char>) -> bool)
    requires
        s.no_duplicates(),
    ensures
        s.filter(p).no_duplicates(),
    decreases s.len(),
{
    reveal(Seq::filter);
    if s.len() > 0 {
        let init = s.drop_last();
        assert(init.no_duplicates());
        lemma_filter_no_duplicates(init, p);
        let f = init.filter(p);
        if p(s.last()) {
            assert(!f.contains(s.last())) by {
                if f.contains(s.last()) {
                    init.lemma_filter_contains_rev(p, s.last());
                    let i = choose|i: int| 0 <= i < init.len() && init[i] == s.last();
                    assert(s[i] == s[s.len() - 1]);
                }
            }
            assert(s.filter(p) == f.push(s.last()));
        }
    }
}

/// The seed peers kept from a shuffled list of candidates: the first
/// [`SEED_PEER_COUNT`] of them, or all when there are fewer.
pub fn seed_peers(shuffled: Vec<String>) -> (r: Vec<String>)
    ensures
        string_views(r@) == string_views(shuffled@).take(
            seed_peer_cap(SEED_PEER_COUNT as int, shuffled@.len() as int),
        ),
{
    let mut kept = shuffled;
    let keep = if kept.len() < SEED_PEER_COUNT {
        kept.len()
    } else {
        SEED_PEER_COUNT
    };
    let ghost before = kept@;
    kept.truncate(keep);
    proof {
        assert(string_views(kept@) =~= string_views(before).take(keep as int));
    }
    kept
}

/// Node `n` is laid out as node `j` of experiment `e`, seeds aside.
pub open spec fn node_planned(e: ExperimentConfig, n: NodeConfig, j: int) -> bool {
    &&& n.node_id == j
    &&& n.role == spec_node_role(e, j)
    &&& n.subnet_id == spec_node_subnet(e, j)
    &&& n.listen_addr@ == spec_node_addr(e, j)
    &&& n.experiment == e
}

/// The addresses of `all` other than `addr`, in order.
fn addrs_except(all: &Vec<String>, addr: &String) -> (r: Vec<String>)
    ensures
        string_views(r@) == other_addrs(string_views(all@), addr@),
{
    let ghost pred = |a: Seq<char>| a != addr@;
    let mut out: Vec<String> = Vec::new();
    let mut i: usize = 0;
    let n = all.len();
    proof {
        reveal(Seq::filter);
        assert(string_views(all@).take(0) =~= Seq::<Seq<char>>::empty());
        assert(string_views(out@) =~= Seq::<Seq<char>>::empty());
    }
    while i < n
        invariant
            n == all@.len(),
            i <= n,
            pred == (|a: Seq<char>| a != addr@),
            string_views(out@) == string_views(all@).take(i as int).filter(pred),
        decreases n - i,
    {
        let ghost before = string_views(out@);
        let same = all[i] == *addr;
        if !same {
            out.push(all[i].clone());
        }
        proof {
            reveal(Seq::filter);
            let t = string_views(all@).take(i + 1);
            assert(t.drop_last() =~= string_views(all@).take(i as int));
            assert(t.last() == all@[i as int]@);
            assert(string_views(out@) =~= t.filter(pred));
        }
        i = i + 1;
    }
    proof {
        assert(string_views(all@).take(n as int) =~= string_views(all@));
    }
    out
}

/// Each node shuffles with its own seed: the seed peers of node `j` are the
/// other nodes' addresses, shuffled by the generator seeded with the
/// experiment seed (42 when that is 0) plus `j`, wrapping at 2^64, and cut to
/// the first 50. So two nodes' lists come from shuffles with different seeds.
pub proof fn lemma_seed_shuffle_per_node(e: ExperimentConfig, j: int)
    requires
        0 <= j < spec_node_count(e),
        spec_node_count(e) <= u32::MAX,
    ensures
        ({
            let others = other_addrs(spec_all_addrs(e), spec_node_addr(e, j));
            let base: u64 = if e.geo_seed == 0 {
                42
            } else {
                e.geo_seed
            };
            spec_seed_addrs(e, j) == seeded_shuffle(
                ((base as int + j) % 0x1_0000_0000_0000_0000) as u64,
                others,
            ).take(if others.len() < 50 { others.len() as int } else { 50 })
        }),
{
}

/// Different nodes shuffle with different seeds.
pub proof fn lemma_seeds_differ(e: ExperimentConfig, j: int, k: int)
    requires
        0 <= j < spec_node_count(e),
        0 <= k < spec_node_count(e),
        spec_node_count(e) <= u32::MAX,
        j != k,
    ensures
        ((if e.geo_seed == 0 { 42 } else { e.geo_seed as int }) + j) % 0x1_0000_0000_0000_0000
            != ((if e.geo_seed == 0 { 42 } else { e.geo_seed as int }) + k) % 0x1_0000_0000_0000_0000,
{
    let base: int = if e.geo_seed == 0 { 42 } else { e.geo_seed as int };
    vstd::arithmetic::div_mod::lemma_fundamental_div_mod(base + j, 0x1_0000_0000_0000_0000);
    vstd::arithmetic::div_mod::lemma_fundamental_div_mod(base + k, 0x1_0000_0000_0000_0000);
    assert(0 <= base + j < 2 * 0x1_0000_0000_0000_0000);
    assert(0 <= base + k < 2 * 0x1_0000_0000_0000_0000);
}

/// What is kept from a shuffle of the candidates holds only candidates, and
/// no address twice when the candidates hold none twice.
proof fn lemma_seeds_from_candidates(cands: Seq<Seq<char>>, shuffled: Seq<Seq<char>>, seeds: Seq<Seq<char>>)
    requires
        shuffled.to_multiset() == cands.to_multiset(),
        seeds.len() <= shuffled.len(),
        seeds == shuffled.take(seeds.len() as int),
    ensures
        forall|x: Seq<char>| seeds.contains(x) ==> cands.contains(x),
        cands.no_duplicates() ==> seeds.no_duplicates(),
{
    shuffled.to_multiset_ensures();
    cands.to_multiset_ensures();
    assert forall|x: Seq<char>| seeds.contains(x) implies cands.contains(x) by {
        let i = choose|i: int| 0 <= i < seeds.len() && seeds[i] == x;
        assert(shuffled[i] == x);
        assert(shuffled.contains(x));
        assert(shuffled.to_multiset().count(x) > 0);
    }
    if cands.no_duplicates() {
        cands.lemma_multiset_has_no_duplicates();
        shuffled.lemma_multiset_has_no_duplicates_conv();
        assert forall|i: int, j: int| 0 <= i < seeds.len() && 0 <= j < seeds.len() && i != j implies seeds[i] != seeds[j] by {
            assert(seeds[i] == shuffled[i] && seeds[j] == shuffled[j]);
        }
    }
}

/// Assigns roles and addresses to every node, and each node its seed peers.
///
/// Each subnet gets a block of its validators followed by its local
/// aggregators, in subnet order; the global aggregators come last. Node ids
/// count up from 0 in that order.
pub fn assign_nodes(experiment: &ExperimentConfig) -> (r: Vec<NodeConfig>)
    requires
        experiment.subnet_count > 0,
        spec_node_count(*experiment) <= u32::MAX,
    ensures
        r@.len() == spec_node_count(*experiment),
        forall|j: int| 0 <= j < r@.len() ==> node_planned(*experiment, #[trigger] r@[j], j),
        forall|j: int|
            0 <= j < r@.len() ==> string_views(#[trigger] r@[j].seed_addrs@) == spec_seed_addrs(
                *experiment,
                j,
            ),
        forall|j: int|
            0 <= j < r@.len() ==> !string_views(#[trigger] r@[j].seed_addrs@).contains(
                r@[j].listen_addr@,
            ),
        forall|j: int|
            0 <= j < r@.len() ==> (#[trigger] r@[j].seed_addrs@).len() == seed_peer_cap(
                50,
                other_addrs(spec_all_addrs(*experiment), spec_node_addr(*experiment, j)).len() as int,
            ),
        forall|j: int, x: Seq<char>|
            0 <= j < r@.len() && #[trigger] string_views(r@[j].seed_addrs@).contains(x)
                ==> other_addrs(spec_all_addrs(*experiment), spec_node_addr(*experiment, j)).contains(x),
        forall|j: int|
            0 <= j < r@.len() && other_addrs(spec_all_addrs(*experiment), spec_node_addr(*experiment, j)).no_duplicates()
                ==> string_views(#[trigger] r@[j].seed_addrs@).no_duplicates(),
        experiment.subnet_count <= 255 ==> forall|j: int|
            0 <= j < r@.len() ==> string_views(#[trigger] r@[j].seed_addrs@).no_duplicates(),
{
    let ghost e = *experiment;
    let vps = experiment.validators_per_subnet();
    proof {
        assert(spec_subnet_hosts(e) >= spec_block_size(e)) by (nonlinear_arith)
            requires
                e.subnet_count >= 1,
                spec_block_size(e) >= 0,
                spec_subnet_hosts(e) == e.subnet_count * spec_block_size(e),
        ;
    }
    let block = vps + experiment.local_aggregators_per_subnet;
    let mut roles: Vec<NodeRole> = Vec::new();
    let mut subnets: Vec<u32> = Vec::new();
    let mut addrs: Vec<String> = Vec::new();
    let mut subnet: usize = 0;
    while subnet < experiment.subnet_count
        invariant
            e == *experiment,
            vps == e.spec_validators_per_subnet(),
            block == spec_block_size(e),
            spec_node_count(e) <= u32::MAX,
            spec_subnet_hosts(e) == e.subnet_count * block,
            subnet <= e.subnet_count,
            roles@.len() == subnet * block,
            subnets@.len() == roles@.len(),
            addrs@.len() == roles@.len(),
            forall|j: int|
                0 <= j < roles@.len() ==> #[trigger] roles@[j] == spec_node_role(e, j)
                    && subnets@[j] == spec_node_subnet(e, j) && addrs@[j]@ == spec_node_addr(e, j),
        decreases e.subnet_count - subnet,
    {
        let mut k: usize = 0;
        proof {
            assert(subnet * block + block <= e.subnet_count * block) by (nonlinear_arith)
                requires
                    subnet < e.subnet_count,
                    block >= 0,
            ;
        }
        while k < block
            invariant
                e == *experiment,
                vps == e.spec_validators_per_subnet(),
                block == spec_block_size(e),
                spec_node_count(e) <= u32::MAX,
                spec_subnet_hosts(e) == e.subnet_count * block,
                subnet < e.subnet_count,
                subnet * block + block <= e.subnet_count * block,
                k <= block,
                roles@.len() == subnet * block + k,
                subnets@.len() == roles@.len(),
                addrs@.len() == roles@.len(),
                forall|j: int|
                    0 <= j < roles@.len() ==> #[trigger] roles@[j] == spec_node_role(e, j)
                        && subnets@[j] == spec_node_subnet(e, j) && addrs@[j]@ == spec_node_addr(
                        e,
                        j,
                    ),
            decreases block - k,
        {
            let role = if k < vps {
                NodeRole::Validator
            } else {
                NodeRole::LocalAggregator
            };
            let ip = subnet_ip(#[verifier::truncate] (subnet as u32), #[verifier::truncate] (k as u32));
            let addr = listen_addr(ip.as_str());
            let ghost j = subnet * block + k;
            proof {
                vstd::arithmetic::div_mod::lemma_fundamental_div_mod_converse(
                    j,
                    block as int,
                    subnet as int,
                    k as int,
                );
            }
            roles.push(role);
            subnets.push(#[verifier::truncate] (subnet as u32));
            addrs.push(addr);
            k = k + 1;
        }
        proof {
            assert((subnet + 1) * block == subnet * block + block) by (nonlinear_arith);
        }
        subnet = subnet + 1;
    }
    let mut g: usize = 0;
    while g < experiment.global_aggregator_count
        invariant
            e == *experiment,
            spec_node_count(e) <= u32::MAX,
            spec_subnet_hosts(e) == e.subnet_count * block,
            roles@.len() == spec_subnet_hosts(e) + g,
            g <= e.global_aggregator_count,
            subnets@.len() == roles@.len(),
            addrs@.len() == roles@.len(),
            forall|j: int|
                0 <= j < roles@.len() ==> #[trigger] roles@[j] == spec_node_role(e, j)
                    && subnets@[j] == spec_node_subnet(e, j) && addrs@[j]@ == spec_node_addr(e, j),
        decreases e.global_aggregator_count - g,
    {
        let node_id = roles.len() as u32;
        let ip = global_aggregator_ip(node_id);
        let addr = listen_addr(ip.as_str());
        roles.push(NodeRole::GlobalAggregator);
        subnets.push(0);
        addrs.push(addr);
        g = g + 1;
    }
    proof {
        assert forall|j: int| 0 <= j < addrs@.len() implies string_views(addrs@)[j]
            == spec_all_addrs(e)[j] by {
            assert(roles@[j] == spec_node_role(e, j));
        }
        assert(string_views(addrs@) =~= spec_all_addrs(e));
    }
    let seed = if experiment.geo_seed != 0 {
        experiment.geo_seed
    } else {
        42
    };
    let mut nodes: Vec<NodeConfig> = Vec::new();
    let count = roles.len();
    while nodes.len() < count
        invariant
            e == *experiment,
            seed == spec_seed_base(e),
            count == roles@.len(),
            count == spec_node_count(e),
            count <= u32::MAX,
            subnets@.len() == count,
            addrs@.len() == count,
            string_views(addrs@) == spec_all_addrs(e),
            nodes@.len() <= count,
            forall|j: int|
                0 <= j < roles@.len() ==> #[trigger] roles@[j] == spec_node_role(e, j)
                    && subnets@[j] == spec_node_subnet(e, j) && addrs@[j]@ == spec_node_addr(e, j),
            forall|j: int| 0 <= j < nodes@.len() ==> node_planned(e, #[trigger] nodes@[j], j),
            forall|j: int|
                0 <= j < nodes@.len() ==> string_views(#[trigger] nodes@[j].seed_addrs@)
                    == spec_seed_addrs(e, j),
            forall|j: int|
                0 <= j < nodes@.len() ==> !string_views(#[trigger] nodes@[j].seed_addrs@).contains(
                    nodes@[j].listen_addr@,
                ),
            forall|j: int|
                0 <= j < nodes@.len() ==> (#[trigger] nodes@[j].seed_addrs@).len() == seed_peer_cap(
                    50,
                    other_addrs(spec_all_addrs(e), spec_node_addr(e, j)).len() as int,
                ),
            forall|j: int, x: Seq<char>|
                0 <= j < nodes@.len() && #[trigger] string_views(nodes@[j].seed_addrs@).contains(x)
                    ==> other_addrs(spec_all_addrs(e), spec_node_addr(e, j)).contains(x),
            forall|j: int|
                0 <= j < nodes@.len() && other_addrs(spec_all_addrs(e), spec_node_addr(e, j)).no_duplicates()
                    ==> string_views(#[trigger] nodes@[j].seed_addrs@).no_duplicates(),
        decreases count - nodes@.len(),
    {
        let j = nodes.len();
        let candidates = addrs_except(&addrs, &addrs[j]);
        let shuffled = shuffle_seeded(seed.wrapping_add(j as u64), candidates);
        proof {
            assert(string_views(shuffled@).len() == shuffled@.len());
            assert(string_views(candidates@).len() == candidates@.len());
            string_views(shuffled@).to_multiset_ensures();
            string_views(candidates@).to_multiset_ensures();
        }
        let ghost before = shuffled@;
        let shuffled = seed_peers(shuffled);
        proof {
            let me = addrs@[j as int]@;
            assert forall|x: Seq<char>| string_views(shuffled@).contains(x) implies x != me by {
                let i = choose|i: int| 0 <= i < string_views(shuffled@).len() && string_views(shuffled@)[i] == x;
                assert(string_views(before).contains(x)) by {
                    assert(string_views(before)[i] == x);
                }
                assert(string_views(candidates@).to_multiset().count(x) > 0);
                assert(string_views(candidates@).contains(x));
                broadcast use vstd::seq_lib::group_filter_ensures;
            }
            lemma_seeds_from_candidates(
                string_views(candidates@),
                string_views(before),
                string_views(shuffled@),
            );
        }
        nodes.push(
            NodeConfig {
                node_id: j as u32,
                role: roles[j],
                subnet_id: subnets[j],
                listen_addr: addrs[j].clone(),
                seed_addrs: shuffled,
                experiment: experiment.clone(),
            },
        );
    }
    proof {
        if e.subnet_count <= 255 {
            assert forall|j: int| 0 <= j < nodes@.len() implies string_views(
                #[trigger] nodes@[j].seed_addrs@,
            ).no_duplicates() by {
                lemma_all_addrs_distinct(e, spec_node_addr(e, j));
            }
        }
    }
    nodes
}

/// A Shadow host, without its process (whose paths depend on the machine).
pub struct HostPlan {
    pub hostname: String,
    pub network_node_id: u32,
    pub ip_addr: String,
    pub bandwidth_down: String,
    pub bandwidth_up: String,
}

/// The host of `node`: named `node-{id}`, at the IP of its listen address,
/// with the supernode bandwidth when it is one of `supernodes`.
pub open spec fn host_planned(
    e: ExperimentConfig,
    node: NodeConfig,
    supernodes: Seq<u32>,
    h: HostPlan,
) -> bool {
    let sup = supernodes.contains(node.node_id);
    &&& h.hostname@ == "node-"@ + decimal(node.node_id as nat)
    &&& h.network_node_id == node.node_id
    &&& h.ip_addr@ == spec_extract_ip(node.listen_addr@)
    &&& h.bandwidth_down@ == spec_mbit(
        if sup {
            e.supernode_downlink_mbps
        } else {
            e.network_defaults.downlink_mbps
        },
    )
    &&& h.bandwidth_up@ == spec_mbit(
        if sup {
            e.supernode_uplink_mbps
        } else {
            e.network_defaults.uplink_mbps
        },
    )
}

fn contains_id(ids: &Vec<u32>, id: u32) -> (r: bool)
    ensures
        r == ids@.contains(id),
{
    let mut k: usize = 0;
    while k < ids.len()
        invariant
            k <= ids@.len(),
            forall|q: int| 0 <= q < k ==> ids@[q] != id,
        decreases ids@.len() - k,
    {
        if ids[k] == id {
            return true;
        }
        k = k + 1;
    }
    false
}

/// The Shadow host of every node, in node order.
pub fn plan_hosts(experiment: &ExperimentConfig, nodes: &Vec<NodeConfig>, supernodes: &Vec<u32>) -> (r: Vec<HostPlan>)
    ensures
        r@.len() == nodes@.len(),
        forall|k: int| 0 <= k < r@.len() ==> host_planned(*experiment, nodes@[k], supernodes@, #[trigger] r@[k]),
{
    let mut hosts: Vec<HostPlan> = Vec::new();
    let mut k: usize = 0;
    while k < nodes.len()
        invariant
            k <= nodes@.len(),
            hosts@.len() == k,
            forall|q: int| 0 <= q < k ==> host_planned(*experiment, nodes@[q], supernodes@, #[trigger] hosts@[q]),
        decreases nodes@.len() - k,
    {
        let node = &nodes[k];
        let sup = contains_id(supernodes, node.node_id);
        let (down, up) = host_bandwidth(experiment, sup);
        hosts.push(
            HostPlan {
                hostname: hostname(node.node_id),
                network_node_id: node.node_id,
                ip_addr: extract_ip(node.listen_addr.as_str()),
                bandwidth_down: down,
                bandwidth_up: up,
            },
        );
        k = k + 1;
    }
    hosts
}

} // verus!
