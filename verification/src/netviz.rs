//! Conversion of recorded events into a netviz trace: role names, event
//! timestamps, the peer map, the observed mesh links and the event lines.

use vstd::prelude::*;

use crate::config::experiment::NodeRole;
use crate::metrics::events::JsonlEvent;
use crate::shadow::topology::{insert_sorted, strictly_sorted, Edge};
use crate::text::{decimal, push_decimal};

verus! {

/// The name of a role in the trace.
pub open spec fn spec_role_str(role: NodeRole) -> Seq<char> {
    match role {
        NodeRole::Validator => "validator"@,
        NodeRole::LocalAggregator => "local_aggregator"@,
        NodeRole::GlobalAggregator => "global_aggregator"@,
    }
}

/// The name of a role in the trace.
pub fn role_str(role: NodeRole) -> (r: &'static str)
    ensures
        r@ == spec_role_str(role),
{
    match role {
        NodeRole::Validator => "validator",
        NodeRole::LocalAggregator => "local_aggregator",
        NodeRole::GlobalAggregator => "global_aggregator",
    }
}

/// The time of an event in milliseconds; peer announcements come first
/// (no time) and statistics last (no time either).
pub open spec fn event_ms(event: JsonlEvent) -> Option<u64> {
    match event {
        JsonlEvent::NodePeerId { .. } => None,
        JsonlEvent::SigSent { ts_ms, .. } => Some(ts_ms),
        JsonlEvent::SigReceived { ts_ms, .. } => Some(ts_ms),
        JsonlEvent::LocalProofGenerated { latency_ms, .. } => Some(latency_ms),
        JsonlEvent::LocalProofReceived { ts_ms, .. } => Some(ts_ms),
        JsonlEvent::GlobalProofCompleted { latency_ms, .. } => Some(latency_ms),
        JsonlEvent::NodeStats { .. } => None,
    }
}

/// The time of an event in microseconds: 0 for peer announcements,
/// `u64::MAX` for statistics, the millisecond time times 1000 otherwise.
pub open spec fn spec_event_ts_us(event: JsonlEvent) -> u64 {
    match event {
        JsonlEvent::NodePeerId { .. } => 0,
        JsonlEvent::NodeStats { .. } => u64::MAX,
        _ => (event_ms(event).unwrap() * 1000) as u64,
    }
}

/// The event's time fits in microseconds.
pub open spec fn ts_in_range(event: JsonlEvent) -> bool {
    event_ms(event) matches Some(ms) ==> ms * 1000 <= u64::MAX
}

/// The time of an event in microseconds.
pub fn event_ts_us(event: &JsonlEvent) -> (r: u64)
    requires
        ts_in_range(*event),
    ensures
        r == spec_event_ts_us(*event),
{
    match event {
        JsonlEvent::NodePeerId { .. } => 0,
        JsonlEvent::SigSent { ts_ms, .. } => ts_ms * 1000,
        JsonlEvent::SigReceived { ts_ms, .. } => ts_ms * 1000,
        JsonlEvent::LocalProofGenerated { latency_ms, .. } => latency_ms * 1000,
        JsonlEvent::LocalProofReceived { ts_ms, .. } => ts_ms * 1000,
        JsonlEvent::GlobalProofCompleted { latency_ms, .. } => latency_ms * 1000,
        JsonlEvent::NodeStats { .. } => u64::MAX,
    }
}

/// Peer id (base58 text) to node id, as announced by `NodePeerId` events.
pub struct PeerMap {
    pub entries: Vec<(String, u32)>,
}

/// The peer map after the events: each announcement maps its peer id to its
/// node, a later announcement of the same peer id replacing an earlier one.
pub open spec fn spec_peer_map(events: Seq<JsonlEvent>) -> Map<Seq<char>, u32>
    decreases events.len(),
{
    if events.len() == 0 {
        Map::empty()
    } else {
        let m = spec_peer_map(events.drop_last());
        match events.last() {
            JsonlEvent::NodePeerId { node_id, peer_id } => m.insert(peer_id@, node_id),
            _ => m,
        }
    }
}

impl PeerMap {
    /// The mapping the entries hold: the first entry for each peer id.
    pub open spec fn view_map(self) -> Map<Seq<char>, u32> {
        entries_map(self.entries@)
    }

    /// The node announced under `peer_id`, if any.
    pub fn get(&self, peer_id: &String) -> (r: Option<u32>)
        ensures
            r == (if self.view_map().contains_key(peer_id@) {
                Some(self.view_map()[peer_id@])
            } else {
                None::<u32>
            }),
    {
        let n = self.entries.len();
        let mut k: usize = 0;
        while k < n
            invariant
                n == self.entries@.len(),
                k <= n,
                forall|q: int| 0 <= q < k ==> self.entries@[q].0@ != peer_id@,
            decreases n - k,
        {
            if self.entries[k].0 == *peer_id {
                proof {
                    lemma_entries_map_first(self.entries@, k as int);
                }
                return Some(self.entries[k].1);
            }
            k = k + 1;
        }
        proof {
            lemma_entries_map_absent(self.entries@, peer_id@);
        }
        None
    }
}

/// The mapping of a list of entries where an earlier entry wins.
pub open spec fn entries_map(s: Seq<(String, u32)>) -> Map<Seq<char>, u32>
    decreases s.len(),
{
    if s.len() == 0 {
        Map::empty()
    } else {
        entries_map(s.drop_first()).insert(s[0].0@, s[0].1)
    }
}

proof fn lemma_entries_map_first(s: Seq<(String, u32)>, k: int)
    requires
        0 <= k < s.len(),
        forall|q: int| 0 <= q < k ==> s[q].0@ != s[k].0@,
    ensures
        entries_map(s).contains_key(s[k].0@),
        entries_map(s)[s[k].0@] == s[k].1,
    decreases k,
{
    if k > 0 {
        lemma_entries_map_first(s.drop_first(), k - 1);
    }
}

proof fn lemma_entries_map_absent(s: Seq<(String, u32)>, key: Seq<char>)
    requires
        forall|q: int| 0 <= q < s.len() ==> s[q].0@ != key,
    ensures
        !entries_map(s).contains_key(key),
    decreases s.len(),
{
    if s.len() > 0 {
        lemma_entries_map_absent(s.drop_first(), key);
    }
}

proof fn lemma_entries_map_push_front(s: Seq<(String, u32)>, e: (String, u32))
    ensures
        entries_map(seq![e] + s) == entries_map(s).insert(e.0@, e.1),
{
    assert((seq![e] + s).drop_first() =~= s);
}

/// Builds the peer map from the `NodePeerId` events.
pub fn build_peer_map(events: &Vec<JsonlEvent>) -> (r: PeerMap)
    ensures
        r.view_map() == spec_peer_map(events@),
{
    let mut rev: Vec<(String, u32)> = Vec::new();
    let n = events.len();
    let mut k: usize = 0;
    while k < n
        invariant
            n == events@.len(),
            k <= n,
            entries_map(rev@.reverse()) == spec_peer_map(events@.take(k as int)),
        decreases n - k,
    {
        let ghost before = rev@;
        proof {
            assert(events@.take(k + 1).drop_last() =~= events@.take(k as int));
        }
        match &events[k] {
            JsonlEvent::NodePeerId { node_id, peer_id } => {
                let entry = (peer_id.clone(), *node_id);
                rev.push(entry);
                proof {
                    assert(rev@.reverse() =~= seq![entry] + before.reverse());
                    lemma_entries_map_push_front(before.reverse(), entry);
                }
            },
            _ => {},
        }
        k = k + 1;
    }
    proof {
        assert(events@.take(n as int) =~= events@);
    }
    let mut entries: Vec<(String, u32)> = Vec::new();
    let m = rev.len();
    let mut q: usize = m;
    while q > 0
        invariant
            m == rev@.len(),
            q <= m,
            entries@ == rev@.subrange(q as int, m as int).reverse(),
        decreases q,
    {
        q = q - 1;
        let ghost before = entries@;
        entries.push((rev[q].0.clone(), rev[q].1));
        proof {
            assert(entries@ =~= rev@.subrange(q as int, m as int).reverse());
        }
    }
    proof {
        assert(rev@.subrange(0, m as int) =~= rev@);
        assert(entries@ =~= rev@.reverse());
    }
    PeerMap { entries }
}

/// The parts separated by `, `.
pub open spec fn comma_joined(parts: Seq<Seq<char>>) -> Seq<char>
    decreases parts.len(),
{
    if parts.len() == 0 {
        Seq::empty()
    } else if parts.len() == 1 {
        parts[0]
    } else {
        comma_joined(parts.drop_last()) + ", "@ + parts.last()
    }
}

/// A JSON array line of already rendered items.
pub open spec fn array_line(parts: Seq<Seq<char>>) -> Seq<char> {
    "["@ + comma_joined(parts) + "]"@
}

/// A JSON string of a short code.
pub open spec fn quoted(code: Seq<char>) -> Seq<char> {
    "\""@ + code + "\""@
}

/// The node behind a peer id, or `fallback` when the peer id is unknown.
pub open spec fn resolve_peer(peers: Map<Seq<char>, u32>, peer_id: Seq<char>, fallback: u32) -> u32 {
    if peers.contains_key(peer_id) {
        peers[peer_id]
    } else {
        fallback
    }
}

/// The trace line of an event: `[time_us, node, "code", fields...]`; peer
/// announcements and statistics give no line. Received messages carry both
/// the claimed sender and the forwarding peer's node.
pub open spec fn spec_convert_event(event: JsonlEvent, peers: Map<Seq<char>, u32>) -> Option<Seq<char>> {
    match event {
        JsonlEvent::NodePeerId { .. } => None,
        JsonlEvent::NodeStats { .. } => None,
        _ => Some(array_line(spec_parts(event, peers))),
    }
}

proof fn lemma_comma_joined_step(parts: Seq<Seq<char>>, k: int)
    requires
        1 <= k < parts.len(),
    ensures
        comma_joined(parts.take(k + 1)) == comma_joined(parts.take(k)) + ", "@ + parts[k],
{
    assert(parts.take(k + 1).drop_last() =~= parts.take(k));
}

proof fn lemma_comma_joined_first(parts: Seq<Seq<char>>)
    requires
        parts.len() >= 1,
    ensures
        comma_joined(parts.take(1)) == parts[0],
{
}

/// A line of six items, each after the first preceded by `, `.
pub proof fn lemma_array_line6(a: Seq<char>, b: Seq<char>, c: Seq<char>, d: Seq<char>, e: Seq<char>, f: Seq<char>)
    ensures
        array_line(seq![a, b, c, d, e, f]) == "["@ + a + ", "@ + b + ", "@ + c + ", "@ + d + ", "@ + e
            + ", "@ + f + "]"@,
{
    let p = seq![a, b, c, d, e, f];
    lemma_comma_joined_first(p);
    lemma_comma_joined_step(p, 1);
    lemma_comma_joined_step(p, 2);
    lemma_comma_joined_step(p, 3);
    lemma_comma_joined_step(p, 4);
    lemma_comma_joined_step(p, 5);
    assert(p.take(6) =~= p);
    assert(array_line(p) =~= "["@ + a + ", "@ + b + ", "@ + c + ", "@ + d + ", "@ + e + ", "@ + f + "]"@);
}

/// A line of seven items.
pub proof fn lemma_array_line7(a: Seq<char>, b: Seq<char>, c: Seq<char>, d: Seq<char>, e: Seq<char>, f: Seq<char>, g: Seq<char>)
    ensures
        array_line(seq![a, b, c, d, e, f, g]) == "["@ + a + ", "@ + b + ", "@ + c + ", "@ + d + ", "@ + e
            + ", "@ + f + ", "@ + g + "]"@,
{
    let p = seq![a, b, c, d, e, f, g];
    lemma_comma_joined_first(p);
    lemma_comma_joined_step(p, 1);
    lemma_comma_joined_step(p, 2);
    lemma_comma_joined_step(p, 3);
    lemma_comma_joined_step(p, 4);
    lemma_comma_joined_step(p, 5);
    lemma_comma_joined_step(p, 6);
    assert(p.take(7) =~= p);
    assert(array_line(p) =~= "["@ + a + ", "@ + b + ", "@ + c + ", "@ + d + ", "@ + e + ", "@ + f + ", "@ + g + "]"@);
}

/// A line of eight items.
pub proof fn lemma_array_line8(a: Seq<char>, b: Seq<char>, c: Seq<char>, d: Seq<char>, e: Seq<char>, f: Seq<char>, g: Seq<char>, h: Seq<char>)
    ensures
        array_line(seq![a, b, c, d, e, f, g, h]) == "["@ + a + ", "@ + b + ", "@ + c + ", "@ + d + ", "@
            + e + ", "@ + f + ", "@ + g + ", "@ + h + "]"@,
{
    let p = seq![a, b, c, d, e, f, g, h];
    lemma_comma_joined_first(p);
    lemma_comma_joined_step(p, 1);
    lemma_comma_joined_step(p, 2);
    lemma_comma_joined_step(p, 3);
    lemma_comma_joined_step(p, 4);
    lemma_comma_joined_step(p, 5);
    lemma_comma_joined_step(p, 6);
    lemma_comma_joined_step(p, 7);
    assert(p.take(8) =~= p);
    assert(array_line(p) =~= "["@ + a + ", "@ + b + ", "@ + c + ", "@ + d + ", "@ + e + ", "@ + f + ", "@ + g + ", "@ + h + "]"@);
}

/// The trace line of each kind of event, item by item: the time in
/// microseconds, the node, the event's code, then its fields in the order
/// `[t, node, "ss", subnet, seq, bytes]`, `[t, node, "sr"|"sd", from, peer
/// node, subnet, bytes]`, `[t, node, "pg", subnet, signatures, bytes]`,
/// `[t, node, "pr"|"pd", from, peer node, subnet, covered, bytes]` and
/// `[t, node, "gc", signatures, proofs, latency]`, where the peer node is
/// the node announced under the forwarding peer id (the sender when none
/// is); peer announcements and statistics give no line.
pub proof fn lemma_trace_line_format(event: JsonlEvent, peers: Map<Seq<char>, u32>)
    ensures
        match event {
            JsonlEvent::SigSent { node_id, subnet_id, seq, ts_ms, byte_size } => spec_convert_event(
                event,
                peers,
            ) == Some(
                "["@ + decimal((ts_ms * 1000) as nat) + ", "@ + decimal(node_id as nat) + ", "@
                    + "\"ss\""@ + ", "@ + decimal(subnet_id as nat) + ", "@ + decimal(seq as nat)
                    + ", "@ + decimal(byte_size as nat) + "]"@,
            ),
            JsonlEvent::SigReceived { node_id, from_id, from_peer_id, subnet_id, duplicate, ts_ms, byte_size } =>
                spec_convert_event(event, peers) == Some(
                "["@ + decimal((ts_ms * 1000) as nat) + ", "@ + decimal(node_id as nat) + ", "@ + (
                if duplicate {
                    "\"sd\""@
                } else {
                    "\"sr\""@
                }) + ", "@ + decimal(from_id as nat) + ", "@ + decimal(
                    (if peers.contains_key(from_peer_id@) {
                        peers[from_peer_id@]
                    } else {
                        from_id
                    }) as nat,
                ) + ", "@ + decimal(subnet_id as nat) + ", "@ + decimal(byte_size as nat) + "]"@,
            ),
            JsonlEvent::LocalProofGenerated { node_id, subnet_id, sig_count, latency_ms, byte_size } =>
                spec_convert_event(event, peers) == Some(
                "["@ + decimal((latency_ms * 1000) as nat) + ", "@ + decimal(node_id as nat) + ", "@
                    + "\"pg\""@ + ", "@ + decimal(subnet_id as nat) + ", "@ + decimal(
                    sig_count as nat,
                ) + ", "@ + decimal(byte_size as nat) + "]"@,
            ),
            JsonlEvent::LocalProofReceived {
                node_id,
                from_id,
                from_peer_id,
                subnet_id,
                covered_sigs,
                duplicate,
                ts_ms,
                byte_size,
            } => spec_convert_event(event, peers) == Some(
                "["@ + decimal((ts_ms * 1000) as nat) + ", "@ + decimal(node_id as nat) + ", "@ + (
                if duplicate {
                    "\"pd\""@
                } else {
                    "\"pr\""@
                }) + ", "@ + decimal(from_id as nat) + ", "@ + decimal(
                    (if peers.contains_key(from_peer_id@) {
                        peers[from_peer_id@]
                    } else {
                        from_id
                    }) as nat,
                ) + ", "@ + decimal(subnet_id as nat) + ", "@ + decimal(covered_sigs as nat) + ", "@
                    + decimal(byte_size as nat) + "]"@,
            ),
            JsonlEvent::GlobalProofCompleted { node_id, total_sigs, proof_count, latency_ms } =>
                spec_convert_event(event, peers) == Some(
                "["@ + decimal((latency_ms * 1000) as nat) + ", "@ + decimal(node_id as nat) + ", "@
                    + "\"gc\""@ + ", "@ + decimal(total_sigs as nat) + ", "@ + decimal(
                    proof_count as nat,
                ) + ", "@ + decimal(latency_ms as nat) + "]"@,
            ),
            _ => spec_convert_event(event, peers) is None,
        },
{
    reveal_strlit("\"");
    reveal_strlit("ss");
    reveal_strlit("sr");
    reveal_strlit("sd");
    reveal_strlit("pg");
    reveal_strlit("pr");
    reveal_strlit("pd");
    reveal_strlit("gc");
    reveal_strlit("\"ss\"");
    reveal_strlit("\"sr\"");
    reveal_strlit("\"sd\"");
    reveal_strlit("\"pg\"");
    reveal_strlit("\"pr\"");
    reveal_strlit("\"pd\"");
    reveal_strlit("\"gc\"");
    assert(quoted("ss"@) =~= "\"ss\""@);
    assert(quoted("sr"@) =~= "\"sr\""@);
    assert(quoted("sd"@) =~= "\"sd\""@);
    assert(quoted("pg"@) =~= "\"pg\""@);
    assert(quoted("pr"@) =~= "\"pr\""@);
    assert(quoted("pd"@) =~= "\"pd\""@);
    assert(quoted("gc"@) =~= "\"gc\""@);
    let p = spec_parts(event, peers);
    match event {
        JsonlEvent::SigSent { .. } => {
            lemma_array_line6(p[0], p[1], p[2], p[3], p[4], p[5]);
            assert(p =~= seq![p[0], p[1], p[2], p[3], p[4], p[5]]);
        },
        JsonlEvent::SigReceived { .. } => {
            lemma_array_line7(p[0], p[1], p[2], p[3], p[4], p[5], p[6]);
            assert(p =~= seq![p[0], p[1], p[2], p[3], p[4], p[5], p[6]]);
        },
        JsonlEvent::LocalProofGenerated { .. } => {
            lemma_array_line6(p[0], p[1], p[2], p[3], p[4], p[5]);
            assert(p =~= seq![p[0], p[1], p[2], p[3], p[4], p[5]]);
        },
        JsonlEvent::LocalProofReceived { .. } => {
            lemma_array_line8(p[0], p[1], p[2], p[3], p[4], p[5], p[6], p[7]);
            assert(p =~= seq![p[0], p[1], p[2], p[3], p[4], p[5], p[6], p[7]]);
        },
        JsonlEvent::GlobalProofCompleted { .. } => {
            lemma_array_line6(p[0], p[1], p[2], p[3], p[4], p[5]);
            assert(p =~= seq![p[0], p[1], p[2], p[3], p[4], p[5]]);
        },
        _ => {},
    }
}

/// Renders a JSON array line from rendered items.
fn render_array(parts: &Vec<String>) -> (r: String)
    ensures
        r@ == array_line(crate::text::string_views(parts@)),
{
    let ghost views = crate::text::string_views(parts@);
    let mut s = String::from_str("[");
    let n = parts.len();
    let mut k: usize = 0;
    while k < n
        invariant
            n == parts@.len(),
            views == crate::text::string_views(parts@),
            k <= n,
            s@ == "["@ + comma_joined(views.take(k as int)),
        decreases n - k,
    {
        proof {
            assert(views.take(k + 1).drop_last() =~= views.take(k as int));
            assert(views.take(k + 1).last() == parts@[k as int]@);
        }
        if k > 0 {
            s.append(", ");
        } else {
            proof {
                assert(views.take(0) =~= Seq::<Seq<char>>::empty());
            }
        }
        s.append(parts[k].as_str());
        proof {
            if k == 0 {
                assert(s@ =~= "["@ + comma_joined(views.take(1)));
            } else {
                assert(s@ =~= "["@ + comma_joined(views.take(k + 1)));
            }
        }
        k = k + 1;
    }
    proof {
        assert(views.take(n as int) =~= views);
    }
    s.append("]");
    s
}

fn quote(code: &str) -> (r: String)
    ensures
        r@ == quoted(code@),
{
    let mut s = String::from_str("\"");
    s.append(code);
    s.append("\"");
    s
}

/// The trace line of an event, with forwarding peers resolved by `peers`.
pub fn convert_event(event: &JsonlEvent, peers: &PeerMap) -> (r: Option<String>)
    requires
        ts_in_range(*event),
    ensures
        match spec_convert_event(*event, peers.view_map()) {
            Some(line) => r matches Some(s) && s@ == line,
            None => r is None,
        },
{
    let mut parts: Vec<String> = Vec::new();
    match event {
        JsonlEvent::NodePeerId { .. } => { return None; },
        JsonlEvent::SigSent { node_id, subnet_id, seq, ts_ms, byte_size } => {
            parts.push(crate::text::decimal_string(ts_ms * 1000));
            parts.push(crate::text::decimal_string(*node_id as u64));
            parts.push(quote("ss"));
            parts.push(crate::text::decimal_string(*subnet_id as u64));
            parts.push(crate::text::decimal_string(*seq));
            parts.push(crate::text::decimal_string(*byte_size));
        },
        JsonlEvent::SigReceived { node_id, from_id, from_peer_id, subnet_id, duplicate, ts_ms, byte_size } => {
            let peer = match peers.get(from_peer_id) {
                Some(p) => p,
                None => *from_id,
            };
            parts.push(crate::text::decimal_string(ts_ms * 1000));
            parts.push(crate::text::decimal_string(*node_id as u64));
            parts.push(quote(if *duplicate { "sd" } else { "sr" }));
            parts.push(crate::text::decimal_string(*from_id as u64));
            parts.push(crate::text::decimal_string(peer as u64));
            parts.push(crate::text::decimal_string(*subnet_id as u64));
            parts.push(crate::text::decimal_string(*byte_size));
        },
        JsonlEvent::LocalProofGenerated { node_id, subnet_id, sig_count, latency_ms, byte_size } => {
            parts.push(crate::text::decimal_string(latency_ms * 1000));
            parts.push(crate::text::decimal_string(*node_id as u64));
            parts.push(quote("pg"));
            parts.push(crate::text::decimal_string(*subnet_id as u64));
            parts.push(crate::text::decimal_string(*sig_count as u64));
            parts.push(crate::text::decimal_string(*byte_size));
        },
        JsonlEvent::LocalProofReceived { node_id, from_id, from_peer_id, subnet_id, covered_sigs, duplicate, ts_ms, byte_size } => {
            let peer = match peers.get(from_peer_id) {
                Some(p) => p,
                None => *from_id,
            };
            parts.push(crate::text::decimal_string(ts_ms * 1000));
            parts.push(crate::text::decimal_string(*node_id as u64));
            parts.push(quote(if *duplicate { "pd" } else { "pr" }));
            parts.push(crate::text::decimal_string(*from_id as u64));
            parts.push(crate::text::decimal_string(peer as u64));
            parts.push(crate::text::decimal_string(*subnet_id as u64));
            parts.push(crate::text::decimal_string(*covered_sigs as u64));
            parts.push(crate::text::decimal_string(*byte_size));
        },
        JsonlEvent::GlobalProofCompleted { node_id, total_sigs, proof_count, latency_ms } => {
            parts.push(crate::text::decimal_string(latency_ms * 1000));
            parts.push(crate::text::decimal_string(*node_id as u64));
            parts.push(quote("gc"));
            parts.push(crate::text::decimal_string(*total_sigs as u64));
            parts.push(crate::text::decimal_string(*proof_count as u64));
            parts.push(crate::text::decimal_string(*latency_ms));
        },
        JsonlEvent::NodeStats { .. } => { return None; },
    }
    proof {
        match *event {
            JsonlEvent::SigSent { .. } => {
                assert(crate::text::string_views(parts@) =~= spec_parts(*event, peers.view_map()));
            },
            JsonlEvent::SigReceived { .. } => {
                assert(crate::text::string_views(parts@) =~= spec_parts(*event, peers.view_map()));
            },
            JsonlEvent::LocalProofGenerated { .. } => {
                assert(crate::text::string_views(parts@) =~= spec_parts(*event, peers.view_map()));
            },
            JsonlEvent::LocalProofReceived { .. } => {
                assert(crate::text::string_views(parts@) =~= spec_parts(*event, peers.view_map()));
            },
            JsonlEvent::GlobalProofCompleted { .. } => {
                assert(crate::text::string_views(parts@) =~= spec_parts(*event, peers.view_map()));
            },
            _ => {},
        }
    }
    Some(render_array(&parts))
}

/// The items of the trace line of an event that has one: the time in
/// microseconds, the node, the event's code and its fields.
pub open spec fn spec_parts(event: JsonlEvent, peers: Map<Seq<char>, u32>) -> Seq<Seq<char>> {
    match event {
        JsonlEvent::SigSent { node_id, subnet_id, seq, ts_ms, byte_size } => seq![
            decimal((ts_ms * 1000) as nat),
            decimal(node_id as nat),
            quoted("ss"@),
            decimal(subnet_id as nat),
            decimal(seq as nat),
            decimal(byte_size as nat),
        ],
        JsonlEvent::SigReceived { node_id, from_id, from_peer_id, subnet_id, duplicate, ts_ms, byte_size } => seq![
            decimal((ts_ms * 1000) as nat),
            decimal(node_id as nat),
            quoted(if duplicate { "sd"@ } else { "sr"@ }),
            decimal(from_id as nat),
            decimal(resolve_peer(peers, from_peer_id@, from_id) as nat),
            decimal(subnet_id as nat),
            decimal(byte_size as nat),
        ],
        JsonlEvent::LocalProofGenerated { node_id, subnet_id, sig_count, latency_ms, byte_size } => seq![
            decimal((latency_ms * 1000) as nat),
            decimal(node_id as nat),
            quoted("pg"@),
            decimal(subnet_id as nat),
            decimal(sig_count as nat),
            decimal(byte_size as nat),
        ],
        JsonlEvent::LocalProofReceived { node_id, from_id, from_peer_id, subnet_id, covered_sigs, duplicate, ts_ms, byte_size } => seq![
            decimal((ts_ms * 1000) as nat),
            decimal(node_id as nat),
            quoted(if duplicate { "pd"@ } else { "pr"@ }),
            decimal(from_id as nat),
            decimal(resolve_peer(peers, from_peer_id@, from_id) as nat),
            decimal(subnet_id as nat),
            decimal(covered_sigs as nat),
            decimal(byte_size as nat),
        ],
        JsonlEvent::GlobalProofCompleted { node_id, total_sigs, proof_count, latency_ms } => seq![
            decimal((latency_ms * 1000) as nat),
            decimal(node_id as nat),
            quoted("gc"@),
            decimal(total_sigs as nat),
            decimal(proof_count as nat),
            decimal(latency_ms as nat),
        ],
        _ => Seq::empty(),
    }
}

/// Uses of a link before it counts as part of the mesh.
pub const MIN_EDGE_USES: u32 = 3;

/// The link between the receiver of an event and the node that forwarded it
/// (when its peer id is known), smaller node first.
pub open spec fn observed_link(event: JsonlEvent, peers: Map<Seq<char>, u32>) -> Option<Edge> {
    match event {
        JsonlEvent::SigReceived { node_id, from_peer_id, .. } => forward_link(
            node_id,
            from_peer_id@,
            peers,
        ),
        JsonlEvent::LocalProofReceived { node_id, from_peer_id, .. } => forward_link(
            node_id,
            from_peer_id@,
            peers,
        ),
        _ => None,
    }
}

/// The link from `receiver` to the node behind `peer_id`, if it is known.
pub open spec fn forward_link(receiver: u32, peer_id: Seq<char>, peers: Map<Seq<char>, u32>) -> Option<Edge> {
    if peers.contains_key(peer_id) {
        let from = peers[peer_id];
        if receiver < from {
            Some((receiver as usize, from as usize))
        } else {
            Some((from as usize, receiver as usize))
        }
    } else {
        None
    }
}

/// How many of the events travelled over `link`.
pub open spec fn link_uses(events: Seq<JsonlEvent>, peers: Map<Seq<char>, u32>, link: Edge) -> nat
    decreases events.len(),
{
    if events.len() == 0 {
        0
    } else {
        link_uses(events.drop_last(), peers, link) + if observed_link(events.last(), peers) == Some(
            link,
        ) {
            1nat
        } else {
            0nat
        }
    }
}

proof fn lemma_link_uses_step(events: Seq<JsonlEvent>, peers: Map<Seq<char>, u32>, i: int, link: Edge)
    requires
        0 <= i < events.len(),
    ensures
        link_uses(events.take(i + 1), peers, link) == link_uses(events.take(i), peers, link) + if observed_link(events[i], peers) == Some(link) { 1nat } else { 0nat },
{
    assert(events.take(i + 1).drop_last() =~= events.take(i));
}

/// The link an event travelled over, if any.
fn event_link(event: &JsonlEvent, peers: &PeerMap) -> (r: Option<Edge>)
    ensures
        r == observed_link(*event, peers.view_map()),
{
    let (node_id, from_peer_id) = match event {
        JsonlEvent::SigReceived { node_id, from_peer_id, .. } => (*node_id, from_peer_id),
        JsonlEvent::LocalProofReceived { node_id, from_peer_id, .. } => (*node_id, from_peer_id),
        _ => { return None; },
    };
    match peers.get(from_peer_id) {
        Some(from) => {
            if node_id < from {
                Some((node_id as usize, from as usize))
            } else {
                Some((from as usize, node_id as usize))
            }
        },
        None => None,
    }
}

/// The mesh links observed in the events: the links between a receiver and
/// the forwarding peer that were used at least [`MIN_EDGE_USES`] times,
/// each once, in increasing order.
pub fn mesh_links(events: &Vec<JsonlEvent>, peers: &PeerMap) -> (r: Vec<Edge>)
    ensures
        strictly_sorted(r@),
        forall|k: int| 0 <= k < r@.len() ==> link_uses(events@, peers.view_map(), #[trigger] r@[k]) >= 3,
        forall|l: Edge| link_uses(events@, peers.view_map(), l) >= 3 ==> #[trigger] r@.contains(l),
        forall|k: int| 0 <= k < r@.len() ==> (#[trigger] r@[k]).0 <= r@[k].1,
{
    let ghost pm = peers.view_map();
    let mut counts: Vec<(Edge, u64)> = Vec::new();
    let n = events.len();
    let mut i: usize = 0;
    while i < n
        invariant
            n == events@.len(),
            i <= n,
            pm == peers.view_map(),
            forall|a: int, b: int| 0 <= a < b < counts@.len() ==> counts@[a].0 != counts@[b].0,
            forall|a: int| 0 <= a < counts@.len() ==> #[trigger] counts@[a].1 == link_uses(events@.take(i as int), pm, counts@[a].0),
            forall|l: Edge| #[trigger] link_uses(events@.take(i as int), pm, l) > 0 ==> exists|a: int| 0 <= a < counts@.len() && #[trigger] counts@[a].0 == l,
            forall|l: Edge| #[trigger] link_uses(events@.take(i as int), pm, l) <= i,
        decreases n - i,
    {
        proof {
            assert forall|l: Edge| #[trigger] link_uses(events@.take(i + 1), pm, l) == link_uses(events@.take(i as int), pm, l) + if observed_link(events@[i as int], pm) == Some(l) { 1nat } else { 0nat } by {
                lemma_link_uses_step(events@, pm, i as int, l);
            }
        }
        let ghost old_counts = counts@;
        let ghost mut hit: int = 0;
        let observed = event_link(&events[i], peers);
        match observed {
            None => {},
            Some(link) => {
                let m = counts.len();
                let mut a: usize = 0;
                while a < m && !(counts[a].0.0 == link.0 && counts[a].0.1 == link.1)
                    invariant
                        m == counts@.len(),
                        a <= m,
                        forall|q: int| 0 <= q < a ==> counts@[q].0 != link,
                    decreases m - a,
                {
                    a = a + 1;
                }
                if a < m {
                    let c = counts[a].1;
                    assert(c == link_uses(events@.take(i as int), pm, link));
                    counts[a] = (link, c + 1);
                    proof {
                        hit = a as int;
                    }
                } else {
                    counts.push((link, 1));
                    proof {
                        hit = m as int;
                    }
                }
                assert(counts@[hit].0 == link);
            },
        }
        proof {
            assert(counts@.len() >= old_counts.len());
            assert forall|q: int| 0 <= q < old_counts.len() implies #[trigger] counts@[q].0 == old_counts[q].0 by {}
            assert forall|l: Edge| #[trigger] link_uses(events@.take(i + 1), pm, l) > 0 implies exists|a: int| 0 <= a < counts@.len() && #[trigger] counts@[a].0 == l by {
                if link_uses(events@.take(i as int), pm, l) > 0 {
                    let w = choose|w: int| 0 <= w < old_counts.len() && #[trigger] old_counts[w].0 == l;
                    assert(counts@[w].0 == l);
                } else {
                    assert(observed == Some(l));
                    assert(counts@[hit].0 == l);
                }
            }
        }
        i = i + 1;
    }
    proof {
        assert(events@.take(n as int) =~= events@);
    }
    let mut out: Vec<Edge> = Vec::new();
    let m = counts.len();
    let mut a: usize = 0;
    while a < m
        invariant
            m == counts@.len(),
            a <= m,
            pm == peers.view_map(),
            forall|q: int| 0 <= q < counts@.len() ==> #[trigger] counts@[q].1 == link_uses(events@, pm, counts@[q].0),
            forall|l: Edge| #[trigger] link_uses(events@, pm, l) > 0 ==> exists|q: int| 0 <= q < counts@.len() && #[trigger] counts@[q].0 == l,
            strictly_sorted(out@),
            forall|k: int| 0 <= k < out@.len() ==> link_uses(events@, pm, #[trigger] out@[k]) >= 3,
            forall|q: int| 0 <= q < a && counts@[q].1 >= 3 ==> #[trigger] out@.contains(counts@[q].0),
        decreases m - a,
    {
        let ghost before = out@;
        if counts[a].1 >= MIN_EDGE_USES as u64 {
            insert_sorted(&mut out, counts[a].0);
            proof {
                assert forall|k: int| 0 <= k < out@.len() implies link_uses(events@, pm, #[trigger] out@[k]) >= 3 by {
                    assert(out@.contains(out@[k]));
                    if before.contains(out@[k]) {
                        let w = choose|w: int| 0 <= w < before.len() && before[w] == out@[k];
                        assert(link_uses(events@, pm, before[w]) >= 3);
                    }
                }
            }
        }
        proof {
            assert forall|q: int| 0 <= q < a + 1 && counts@[q].1 >= 3 implies #[trigger] out@.contains(counts@[q].0) by {
                if q < a {
                    assert(before.contains(counts@[q].0));
                }
            }
        }
        a = a + 1;
    }
    proof {
        assert forall|l: Edge| link_uses(events@, pm, l) >= 3 implies #[trigger] out@.contains(l) by {
            let q = choose|q: int| 0 <= q < counts@.len() && #[trigger] counts@[q].0 == l;
            assert(counts@[q].1 >= 3);
        }
        assert forall|k: int| 0 <= k < out@.len() implies (#[trigger] out@[k]).0 <= out@[k].1 by {
            lemma_used_link_ordered(events@, pm, out@[k]);
        }
    }
    out
}

/// A link that carried an event joins its smaller node to its larger one.
proof fn lemma_used_link_ordered(events: Seq<JsonlEvent>, peers: Map<Seq<char>, u32>, link: Edge)
    requires
        link_uses(events, peers, link) > 0,
    ensures
        link.0 <= link.1,
    decreases events.len(),
{
    if events.len() > 0 && link_uses(events.drop_last(), peers, link) > 0 {
        lemma_used_link_ordered(events.drop_last(), peers, link);
    }
}

/// A trace line with its time in microseconds.
pub type TimedLine = (u64, Seq<char>);

/// Inserts `x` into a list ordered by time, after every line that is not later.
pub open spec fn insert_by_time(sorted: Seq<TimedLine>, x: TimedLine) -> Seq<TimedLine>
    decreases sorted.len(),
{
    if sorted.len() == 0 {
        seq![x]
    } else if sorted.last().0 <= x.0 {
        sorted.push(x)
    } else {
        insert_by_time(sorted.drop_last(), x).push(sorted.last())
    }
}

/// The lines ordered by time, lines of equal time in their original order
/// (the result of a stable sort by time).
pub open spec fn stable_by_time(s: Seq<TimedLine>) -> Seq<TimedLine>
    decreases s.len(),
{
    if s.len() == 0 {
        s
    } else {
        insert_by_time(stable_by_time(s.drop_last()), s.last())
    }
}

/// The (time, text) of each line.
pub open spec fn timed_views(s: Seq<(u64, String)>) -> Seq<TimedLine> {
    s.map_values(|line: (u64, String)| (line.0, line.1@))
}

/// `slice::sort_by_key` on the time: a stable sort of the lines by time.
#[verifier::external_body]
fn sort_by_time(lines: &mut Vec<(u64, String)>)
    ensures
        timed_views(final(lines)@) == stable_by_time(timed_views(old(lines)@)),
{
    lines.sort_by_key(|line| line.0);
}

/// The (time, text) of the trace line of each event that has one, in event order.
pub open spec fn timed_line_views(events: Seq<JsonlEvent>, peers: Map<Seq<char>, u32>) -> Seq<TimedLine>
    decreases events.len(),
{
    if events.len() == 0 {
        Seq::empty()
    } else {
        let init = timed_line_views(events.drop_last(), peers);
        match spec_convert_event(events.last(), peers) {
            Some(line) => init.push((spec_event_ts_us(events.last()), line)),
            None => init,
        }
    }
}

/// The trace lines of the events that have one, ordered by the events'
/// times (a stable order: simultaneous events keep their recorded order).
pub fn trace_lines(events: &Vec<JsonlEvent>, peers: &PeerMap) -> (r: Vec<String>)
    requires
        forall|k: int| 0 <= k < events@.len() ==> ts_in_range(#[trigger] events@[k]),
    ensures
        crate::text::string_views(r@) == stable_by_time(timed_line_views(events@, peers.view_map()))
            .map_values(|line: TimedLine| line.1),
{
    let mut lines: Vec<(u64, String)> = Vec::new();
    let n = events.len();
    let mut k: usize = 0;
    while k < n
        invariant
            n == events@.len(),
            k <= n,
            forall|q: int| 0 <= q < events@.len() ==> ts_in_range(#[trigger] events@[q]),
            timed_views(lines@) == timed_line_views(events@.take(k as int), peers.view_map()),
        decreases n - k,
    {
        proof {
            assert(events@.take(k + 1).drop_last() =~= events@.take(k as int));
        }
        let ghost before = lines@;
        match convert_event(&events[k], peers) {
            Some(line) => {
                let ts = event_ts_us(&events[k]);
                lines.push((ts, line));
                proof {
                    assert(timed_views(lines@) =~= timed_views(before).push((ts, line@)));
                }
            },
            None => {},
        }
        k = k + 1;
    }
    proof {
        assert(events@.take(n as int) =~= events@);
    }
    sort_by_time(&mut lines);
    let mut out: Vec<String> = Vec::new();
    let m = lines.len();
    let mut q: usize = 0;
    while q < m
        invariant
            m == lines@.len(),
            q <= m,
            out@.len() == q,
            crate::text::string_views(out@) == timed_views(lines@).take(q as int).map_values(|line: TimedLine| line.1),
        decreases m - q,
    {
        let ghost before = out@;
        out.push(lines[q].1.clone());
        proof {
            assert(timed_views(lines@)[q as int].1 == lines@[q as int].1@);
            assert(crate::text::string_views(out@) =~= crate::text::string_views(before).push(lines@[q as int].1@));
            assert(timed_views(lines@).take(q + 1).map_values(|line: TimedLine| line.1) =~= timed_views(lines@).take(q as int).map_values(|line: TimedLine| line.1).push(lines@[q as int].1@));
        }
        q = q + 1;
    }
    proof {
        assert(timed_views(lines@).take(m as int) =~= timed_views(lines@));
    }
    out
}

/// A node of the run manifest: its role, country and bandwidth as run.
pub struct ManifestNode {
    pub node_id: u32,
    pub role: NodeRole,
    pub subnet_id: u32,
    pub country: Option<String>,
    pub supernode: bool,
    pub uplink_mbps: u64,
    pub downlink_mbps: u64,
}

/// Why a run manifest is rejected.
#[derive(Debug, Clone, Copy, PartialEq, Eq, Structural)]
pub enum ManifestError {
    /// The manifest lists no node.
    NoNodes,
    /// Two nodes share this id.
    DuplicateNodeId(u32),
    /// This node (a supernode or not) has a zero uplink or downlink.
    ZeroBandwidth { node_id: u32, supernode: bool },
    /// This node's country is empty or only whitespace.
    BlankCountry(u32),
}

/// `c` has the Unicode White_Space property (what `char::is_whitespace` tests).
pub open spec fn is_white_space(c: char) -> bool {
    ('\u{9}' <= c <= '\u{d}') || c == ' ' || c == '\u{85}' || c == '\u{a0}' || c == '\u{1680}'
        || ('\u{2000}' <= c <= '\u{200a}') || c == '\u{2028}' || c == '\u{2029}' || c == '\u{202f}'
        || c == '\u{205f}' || c == '\u{3000}'
}

/// The text is empty once whitespace is trimmed from both ends.
pub open spec fn is_blank(s: Seq<char>) -> bool {
    forall|i: int| 0 <= i < s.len() ==> is_white_space(#[trigger] s[i])
}

fn white_space(c: char) -> (r: bool)
    ensures
        r == is_white_space(c),
{
    ('\u{9}' <= c && c <= '\u{d}') || c == ' ' || c == '\u{85}' || c == '\u{a0}' || c == '\u{1680}'
        || ('\u{2000}' <= c && c <= '\u{200a}') || c == '\u{2028}' || c == '\u{2029}' || c
        == '\u{202f}' || c == '\u{205f}' || c == '\u{3000}'
}

/// Whether the text is empty once trimmed.
pub fn blank(s: &str) -> (r: bool)
    ensures
        r == is_blank(s@),
{
    let n = s.unicode_len();
    let mut i: usize = 0;
    while i < n
        invariant
            n == s@.len(),
            i <= n,
            forall|q: int| 0 <= q < i ==> is_white_space(#[trigger] s@[q]),
        decreases n - i,
    {
        if !white_space(s.get_char(i)) {
            return false;
        }
        i = i + 1;
    }
    true
}

/// What is wrong with node `k` of the manifest, if anything: an id used by
/// an earlier node, then a zero bandwidth, then a blank country.
pub open spec fn node_problem(nodes: Seq<ManifestNode>, k: int) -> Option<ManifestError> {
    let node = nodes[k];
    if exists|j: int| 0 <= j < k && #[trigger] nodes[j].node_id == node.node_id {
        Some(ManifestError::DuplicateNodeId(node.node_id))
    } else if node.uplink_mbps == 0 || node.downlink_mbps == 0 {
        Some(ManifestError::ZeroBandwidth { node_id: node.node_id, supernode: node.supernode })
    } else if node.country matches Some(c) && is_blank(c@) {
        Some(ManifestError::BlankCountry(node.node_id))
    } else {
        None
    }
}

/// The first problem among nodes `k..` of the manifest.
pub open spec fn first_node_problem(nodes: Seq<ManifestNode>, k: int) -> Option<ManifestError>
    decreases nodes.len() - k,
{
    if k < 0 || k >= nodes.len() {
        None
    } else {
        match node_problem(nodes, k) {
            Some(e) => Some(e),
            None => first_node_problem(nodes, k + 1),
        }
    }
}

/// Why the manifest's nodes are rejected, if they are: no node at all, or
/// the first problem in node order.
pub open spec fn spec_manifest_error(nodes: Seq<ManifestNode>) -> Option<ManifestError> {
    if nodes.len() == 0 {
        Some(ManifestError::NoNodes)
    } else {
        first_node_problem(nodes, 0)
    }
}

/// Checks the nodes of a run manifest.
pub fn check_manifest_nodes(nodes: &Vec<ManifestNode>) -> (r: Result<(), ManifestError>)
    ensures
        match spec_manifest_error(nodes@) {
            None => r is Ok,
            Some(e) => r == Err::<(), ManifestError>(e),
        },
{
    let n = nodes.len();
    if n == 0 {
        return Err(ManifestError::NoNodes);
    }
    let mut k: usize = 0;
    while k < n
        invariant
            n == nodes@.len(),
            k <= n,
            first_node_problem(nodes@, 0) == first_node_problem(nodes@, k as int),
        decreases n - k,
    {
        let node = &nodes[k];
        let mut j: usize = 0;
        while j < k
            invariant
                k < n,
                n == nodes@.len(),
                j <= k,
                *node == nodes@[k as int],
                first_node_problem(nodes@, 0) == first_node_problem(nodes@, k as int),
                forall|q: int| 0 <= q < j ==> nodes@[q].node_id != nodes@[k as int].node_id,
            decreases k - j,
        {
            if nodes[j].node_id == node.node_id {
                assert(nodes@[j as int].node_id == nodes@[k as int].node_id);
                return Err(ManifestError::DuplicateNodeId(node.node_id));
            }
            j = j + 1;
        }
        proof {
            assert(!(exists|q: int| 0 <= q < k && #[trigger] nodes@[q].node_id == nodes@[k as int].node_id));
        }
        if node.uplink_mbps == 0 || node.downlink_mbps == 0 {
            return Err(ManifestError::ZeroBandwidth { node_id: node.node_id, supernode: node.supernode });
        }
        match &node.country {
            Some(c) => {
                if blank(c.as_str()) {
                    return Err(ManifestError::BlankCountry(node.node_id));
                }
            },
            None => {},
        }
        k = k + 1;
    }
    Ok(())
}

} // verus!
