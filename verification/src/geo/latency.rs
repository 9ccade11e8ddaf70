//! Country-to-country latencies: the base latency of a pair of countries,
//! found through a chain of fallbacks, and the jitter ratio that goes with
//! it. Latencies and ratios are held as `f64` bit patterns.

use vstd::prelude::*;

use crate::config::experiment::{f64_bits_is_nan, F64_SIGN_BIT};

verus! {

/// Bit pattern of `30.0`: base latencies below it get the low jitter ratio.
pub const LOW_JITTER_MAX_MS_BITS: u64 = 0x403E_0000_0000_0000;

/// Bit pattern of `80.0`: base latencies below it (and not below 30) get the
/// middle jitter ratio.
pub const MID_JITTER_MAX_MS_BITS: u64 = 0x4054_0000_0000_0000;

/// Bit pattern of positive infinity, the bound of the high jitter ratio.
pub const HIGH_JITTER_MAX_MS_BITS: u64 = 0x7FF0_0000_0000_0000;

/// Bit pattern of `0.05`.
pub const LOW_JITTER_RATIO_BITS: u64 = 0x3FA9_9999_9999_999A;

/// Bit pattern of `0.10`.
pub const MID_JITTER_RATIO_BITS: u64 = 0x3FB9_9999_9999_999A;

/// Bit pattern of `0.15`.
pub const HIGH_JITTER_RATIO_BITS: u64 = 0x3FC3_3333_3333_3333;

/// Bit pattern of `100.0`, the latency used when nothing else is known.
pub const GLOBAL_DEFAULT_MS_BITS: u64 = 0x4059_0000_0000_0000;

/// The `f64` with bit pattern `b` compares below the positive (non-NaN)
/// `f64` with bit pattern `c`: it is not NaN, and it is negative (or a zero)
/// or a smaller positive value, whose bit patterns order as their values.
pub open spec fn f64_bits_lt_positive(b: u64, c: u64) -> bool {
    !f64_bits_is_nan(b) && (b >= F64_SIGN_BIT || b < c)
}

fn lt_positive(b: u64, c: u64) -> (r: bool)
    ensures
        r == f64_bits_lt_positive(b, c),
{
    let is_nan = b % F64_SIGN_BIT > 0x7FF0_0000_0000_0000u64;
    !is_nan && (b >= F64_SIGN_BIT || b < c)
}

/// The jitter ratio of a base latency: the ratio of the first band
/// (below 30, below 80, below infinity) that holds it, the high ratio
/// otherwise.
pub open spec fn spec_jitter_ratio(base_ms: u64) -> u64 {
    if f64_bits_lt_positive(base_ms, LOW_JITTER_MAX_MS_BITS) {
        LOW_JITTER_RATIO_BITS
    } else if f64_bits_lt_positive(base_ms, MID_JITTER_MAX_MS_BITS) {
        MID_JITTER_RATIO_BITS
    } else if f64_bits_lt_positive(base_ms, HIGH_JITTER_MAX_MS_BITS) {
        HIGH_JITTER_RATIO_BITS
    } else {
        HIGH_JITTER_RATIO_BITS
    }
}

/// Per-edge latency with its jitter ratio (bit patterns of `f64`s).
#[derive(Debug, Clone, Copy, PartialEq, Eq, Structural)]
pub struct LatencyParams {
    pub base_ms: u64,
    pub jitter_ratio: u64,
}

/// The latency data: a row of (target country, milliseconds) per source
/// country, a default per source country, and a global fallback.
pub struct CountryLatencyModel {
    pub matrix: Vec<(String, Vec<(String, u64)>)>,
    pub defaults: Vec<(String, u64)>,
    pub global_default_ms: u64,
}

/// The value of the first entry of `entries` for `key`.
pub open spec fn entry_for(entries: Seq<(String, u64)>, key: Seq<char>) -> Option<u64>
    decreases entries.len(),
{
    if entries.len() == 0 {
        None
    } else if entries[0].0@ == key {
        Some(entries[0].1)
    } else {
        entry_for(entries.drop_first(), key)
    }
}

/// The first row of `matrix` for `key`.
pub open spec fn row_for(matrix: Seq<(String, Vec<(String, u64)>)>, key: Seq<char>) -> Option<Seq<(String, u64)>>
    decreases matrix.len(),
{
    if matrix.len() == 0 {
        None
    } else if matrix[0].0@ == key {
        Some(matrix[0].1@)
    } else {
        row_for(matrix.drop_first(), key)
    }
}

/// The matrix entry from `from` to `to`, if there is one.
pub open spec fn matrix_entry(matrix: Seq<(String, Vec<(String, u64)>)>, from: Seq<char>, to: Seq<char>) -> Option<u64> {
    match row_for(matrix, from) {
        Some(row) => entry_for(row, to),
        None => None,
    }
}

impl CountryLatencyModel {
    /// The base latency between two countries: the direct entry, else the
    /// source's default, else the reverse entry, else the target's default,
    /// else the global fallback.
    pub open spec fn spec_lookup_ms(&self, from: Seq<char>, to: Seq<char>) -> u64 {
        if let Some(ms) = matrix_entry(self.matrix@, from, to) {
            ms
        } else if let Some(ms) = entry_for(self.defaults@, from) {
            ms
        } else if let Some(ms) = matrix_entry(self.matrix@, to, from) {
            ms
        } else if let Some(ms) = entry_for(self.defaults@, to) {
            ms
        } else {
            self.global_default_ms
        }
    }

    /// The latency parameters of a pair of countries.
    pub fn get_latency(&self, from: &String, to: &String) -> (r: LatencyParams)
        ensures
            r.base_ms == self.spec_lookup_ms(from@, to@),
            r.jitter_ratio == spec_jitter_ratio(r.base_ms),
    {
        let base_ms = self.lookup_ms(from, to);
        let jitter_ratio = if lt_positive(base_ms, LOW_JITTER_MAX_MS_BITS) {
            LOW_JITTER_RATIO_BITS
        } else if lt_positive(base_ms, MID_JITTER_MAX_MS_BITS) {
            MID_JITTER_RATIO_BITS
        } else if lt_positive(base_ms, HIGH_JITTER_MAX_MS_BITS) {
            HIGH_JITTER_RATIO_BITS
        } else {
            HIGH_JITTER_RATIO_BITS
        };
        LatencyParams { base_ms, jitter_ratio }
    }

    fn lookup_ms(&self, from: &String, to: &String) -> (r: u64)
        ensures
            r == self.spec_lookup_ms(from@, to@),
    {
        if let Some(ms) = find_matrix_entry(&self.matrix, from, to) {
            return ms;
        }
        if let Some(ms) = find_entry(&self.defaults, from) {
            return ms;
        }
        if let Some(ms) = find_matrix_entry(&self.matrix, to, from) {
            return ms;
        }
        if let Some(ms) = find_entry(&self.defaults, to) {
            return ms;
        }
        self.global_default_ms
    }
}

fn find_entry(entries: &Vec<(String, u64)>, key: &String) -> (r: Option<u64>)
    ensures
        r == entry_for(entries@, key@),
{
    let n = entries.len();
    let mut k: usize = 0;
    proof {
        assert(entries@.skip(0) =~= entries@);
    }
    while k < n
        invariant
            n == entries@.len(),
            k <= n,
            entry_for(entries@, key@) == entry_for(entries@.skip(k as int), key@),
        decreases n - k,
    {
        proof {
            assert(entries@.skip(k as int).drop_first() =~= entries@.skip(k + 1));
        }
        if entries[k].0 == *key {
            return Some(entries[k].1);
        }
        k = k + 1;
    }
    None
}

fn find_matrix_entry(matrix: &Vec<(String, Vec<(String, u64)>)>, from: &String, to: &String) -> (r: Option<u64>)
    ensures
        r == matrix_entry(matrix@, from@, to@),
{
    let n = matrix.len();
    let mut k: usize = 0;
    proof {
        assert(matrix@.skip(0) =~= matrix@);
    }
    while k < n
        invariant
            n == matrix@.len(),
            k <= n,
            row_for(matrix@, from@) == row_for(matrix@.skip(k as int), from@),
        decreases n - k,
    {
        proof {
            assert(matrix@.skip(k as int).drop_first() =~= matrix@.skip(k + 1));
        }
        if matrix[k].0 == *from {
            return find_entry(&matrix[k].1, to);
        }
        k = k + 1;
    }
    None
}

/// The number of distinct countries among the nodes.
pub fn country_count(node_countries: &Vec<String>) -> (r: usize)
    ensures
        r == node_countries@.map_values(|c: String| c@).to_set().len(),
{
    let ghost views = node_countries@.map_values(|c: String| c@);
    let mut seen: Vec<String> = Vec::new();
    let n = node_countries.len();
    let mut k: usize = 0;
    while k < n
        invariant
            n == node_countries@.len(),
            views == node_countries@.map_values(|c: String| c@),
            k <= n,
            seen@.len() <= k,
            seen@.map_values(|c: String| c@).no_duplicates(),
            seen@.map_values(|c: String| c@).to_set() == views.take(k as int).to_set(),
        decreases n - k,
    {
        let ghost before = seen@.map_values(|c: String| c@);
        let mut found = false;
        let mut q: usize = 0;
        while q < seen.len()
            invariant
                q <= seen@.len(),
                found ==> seen@.map_values(|c: String| c@).contains(node_countries@[k as int]@),
                !found ==> forall|i: int| 0 <= i < q ==> seen@[i]@ != node_countries@[k as int]@,
                k < n,
                n == node_countries@.len(),
            decreases seen@.len() - q,
        {
            if seen[q] == node_countries[k] {
                proof {
                    assert(seen@.map_values(|c: String| c@)[q as int] == node_countries@[k as int]@);
                }
                found = true;
            }
            q = q + 1;
        }
        if !found {
            seen.push(node_countries[k].clone());
        }
        proof {
            let now = seen@.map_values(|c: String| c@);
            assert(views.take(k + 1) =~= views.take(k as int).push(views[k as int]));
            views.take(k as int).lemma_push_to_set_commute(views[k as int]);
            before.lemma_push_to_set_commute(views[k as int]);
            if found {
                assert(now =~= before);
                assert(views.take(k + 1).to_set() =~= views.take(k as int).to_set().insert(views[k as int]));
                assert(before.to_set().contains(views[k as int]));
                assert(views.take(k + 1).to_set() =~= before.to_set());
            } else {
                assert(now =~= before.push(views[k as int]));
                assert(!before.contains(views[k as int])) by {
                    if before.contains(views[k as int]) {
                        let i = choose|i: int| 0 <= i < before.len() && before[i] == views[k as int];
                        assert(seen@[i]@ == node_countries@[k as int]@);
                    }
                }
                assert(now.to_set() =~= before.to_set().insert(views[k as int]));
                assert(views.take(k + 1).to_set() =~= views.take(k as int).to_set().insert(views[k as int]));
            }
        }
        k = k + 1;
    }
    proof {
        assert(views.take(n as int) =~= views);
        let s = seen@.map_values(|c: String| c@);
        s.unique_seq_to_set();
    }
    seen.len()
}

} // verus!
