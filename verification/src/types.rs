//! The value types of the billing pipeline: usage entries, billing blocks,
//! pricing rates, and burn rates.
//!
//! Money is held in millionths of a dollar ("micros"); pricing rates are
//! micros per 1000 tokens. Timestamps are epoch seconds.

use vstd::prelude::*;
use vstd::multiset::Multiset;

verus! {

/// The largest pricing rate the pipeline accepts, in micros per 1000
/// tokens (one million dollars per 1000 tokens). Keeping rates under this
/// bound makes every cost computation fit in 64 bits.
pub const RATE_LIMIT: u64 = 1_000_000_000_000;

/// A single usage record from a transcript entry. `cost` stays `None`
/// until the pricing pass fills it in; every other field is set once when
/// the log line is parsed.
#[derive(Debug, Clone, PartialEq)]
pub struct UsageEntry {
    pub timestamp: i64,
    pub input_tokens: u32,
    pub output_tokens: u32,
    pub cache_creation_tokens: u32,
    pub cache_read_tokens: u32,
    pub model: String,
    pub cost: Option<u64>,
    pub session_id: String,
}

/// Where a block's start time came from: the fixed five-hour grid, the
/// dynamic strategy's automatic detection, or a user override.
#[derive(Debug, Clone, Copy, PartialEq, Eq, Structural)]
pub enum BlockStartSource {
    Fixed,
    Auto,
    Manual,
}

/// One five-hour billing window with its aggregated metrics. Recomputed
/// fresh on every invocation and never persisted.
#[derive(Debug, Clone, PartialEq)]
pub struct BillingBlock {
    pub start_time: i64,
    pub end_time: i64,
    pub cost: u64,
    pub remaining_minutes: i64,
    pub is_active: bool,
    pub session_count: usize,
    pub total_tokens: u64,
    pub start_time_source: BlockStartSource,
    pub is_gap: bool,
}

/// The direction token volume is moving in the current burn-rate window.
#[derive(Debug, Clone, Copy, PartialEq, Eq, Structural)]
pub enum BurnRateTrend {
    Rising,
    Falling,
    Stable,
}

/// The live spend-rate estimate over an active block. Rates are integers:
/// tokens per minute, and cost per hour in micros.
#[derive(Debug, Clone, PartialEq)]
pub struct BurnRate {
    pub tokens_per_minute: u64,
    pub tokens_per_minute_for_indicator: u64,
    pub cost_per_hour: u64,
    pub trend: BurnRateTrend,
}

/// Token-per-minute thresholds above which the burn-rate indicator turns
/// more urgent.
#[derive(Debug, Clone, PartialEq)]
pub struct BurnRateThresholds {
    pub high: u64,
    pub medium: u64,
}

impl Default for BurnRateThresholds {
    /// The default thresholds: 5000 and 2000 tokens per minute.
    fn default() -> (r: Self)
        ensures
            r.high == 5000,
            r.medium == 2000,
    {
        BurnRateThresholds { high: 5000, medium: 2000 }
    }
}

impl BurnRateTrend {
    /// The trend's name, for string-keyed metadata.
    pub fn name(&self) -> (r: &'static str)
        ensures
            self is Rising ==> r@ == "Rising"@,
            self is Falling ==> r@ == "Falling"@,
            self is Stable ==> r@ == "Stable"@,
    {
        match self {
            BurnRateTrend::Rising => "Rising",
            BurnRateTrend::Falling => "Falling",
            BurnRateTrend::Stable => "Stable",
        }
    }
}

/// Per-model pricing: four rates in micros per 1000 tokens.
#[derive(Debug, Clone, PartialEq)]
pub struct ModelPricing {
    pub model_name: String,
    pub input_cost_per_1k: u64,
    pub output_cost_per_1k: u64,
    pub cache_creation_cost_per_1k: u64,
    pub cache_read_cost_per_1k: u64,
}

impl ModelPricing {
    /// All four rates are within the bound that keeps cost arithmetic in
    /// 64 bits.
    pub open spec fn wf(&self) -> bool {
        &&& self.input_cost_per_1k <= RATE_LIMIT
        &&& self.output_cost_per_1k <= RATE_LIMIT
        &&& self.cache_creation_cost_per_1k <= RATE_LIMIT
        &&& self.cache_read_cost_per_1k <= RATE_LIMIT
    }

    /// The cost of one usage entry at these rates, in micros.
    pub fn calculate_cost(&self, entry: &UsageEntry) -> (r: u64)
        requires
            self.wf(),
        ensures
            r == spec_entry_cost(entry, self),
    {
        cost_of_tokens(
            entry.input_tokens,
            entry.output_tokens,
            entry.cache_creation_tokens,
            entry.cache_read_tokens,
            self,
        )
    }
}

/// The cost of one token component: `tokens * rate / 1000`, truncated.
pub open spec fn spec_component_cost(tokens: int, rate: int) -> int {
    tokens * rate / 1000
}

/// The cost of a usage entry: the four component costs summed.
pub open spec fn spec_entry_cost(entry: &UsageEntry, pricing: &ModelPricing) -> int {
    spec_cost_of_tokens(
        entry.input_tokens as int,
        entry.output_tokens as int,
        entry.cache_creation_tokens as int,
        entry.cache_read_tokens as int,
        pricing,
    )
}

/// The cost of four token counts at the given rates.
pub open spec fn spec_cost_of_tokens(
    input: int,
    output: int,
    cache_creation: int,
    cache_read: int,
    pricing: &ModelPricing,
) -> int {
    spec_component_cost(input, pricing.input_cost_per_1k as int) + spec_component_cost(
        output,
        pricing.output_cost_per_1k as int,
    ) + spec_component_cost(cache_creation, pricing.cache_creation_cost_per_1k as int)
        + spec_component_cost(cache_read, pricing.cache_read_cost_per_1k as int)
}

/// One component cost, computed exactly in wide arithmetic.
fn component_cost(tokens: u32, rate: u64) -> (r: u64)
    requires
        rate <= RATE_LIMIT,
    ensures
        r == spec_component_cost(tokens as int, rate as int),
        r <= 4_294_967_295_000_000_000,
{
    proof {
        assert(0 <= (tokens as int) * (rate as int) <= (u32::MAX as int) * (RATE_LIMIT as int))
            by (nonlinear_arith)
            requires
                0 <= tokens <= u32::MAX,
                0 <= rate <= RATE_LIMIT,
        ;
        assert((tokens as int) * (rate as int) / 1000 <= 4_294_967_295_000_000_000)
            by (nonlinear_arith)
            requires
                0 <= (tokens as int) * (rate as int) <= (u32::MAX as int) * (RATE_LIMIT as int),
        ;
    }
    let wide: u128 = (tokens as u128) * (rate as u128) / 1000;
    wide as u64
}

/// The cost of four token counts at the given rates, in micros.
pub fn cost_of_tokens(
    input: u32,
    output: u32,
    cache_creation: u32,
    cache_read: u32,
    pricing: &ModelPricing,
) -> (r: u64)
    requires
        pricing.wf(),
    ensures
        r == spec_cost_of_tokens(
            input as int,
            output as int,
            cache_creation as int,
            cache_read as int,
            pricing,
        ),
{
    let a = component_cost(input, pricing.input_cost_per_1k);
    let b = component_cost(output, pricing.output_cost_per_1k);
    let c = component_cost(cache_creation, pricing.cache_creation_cost_per_1k);
    let d = component_cost(cache_read, pricing.cache_read_cost_per_1k);
    a + b + c + d
}

/// Session usage aggregated from transcript files.
#[derive(Debug, Clone, PartialEq)]
pub struct SessionUsage {
    pub total_input_tokens: u32,
    pub total_output_tokens: u32,
    pub cache_creation_tokens: u32,
    pub cache_read_tokens: u32,
    pub entries: Vec<UsageEntry>,
    pub session_id: String,
    pub start_time: Option<i64>,
    pub last_update: Option<i64>,
}

impl SessionUsage {
    /// The session's total cost at the given rates, in micros.
    pub fn calculate_cost(&self, pricing: &ModelPricing) -> (r: u64)
        requires
            pricing.wf(),
        ensures
            r == spec_cost_of_tokens(
                self.total_input_tokens as int,
                self.total_output_tokens as int,
                self.cache_creation_tokens as int,
                self.cache_read_tokens as int,
                pricing,
            ),
    {
        cost_of_tokens(
            self.total_input_tokens,
            self.total_output_tokens,
            self.cache_creation_tokens,
            self.cache_read_tokens,
            pricing,
        )
    }

    /// All four token totals summed, saturating at `u32::MAX`.
    pub fn total_tokens(&self) -> (r: u32)
        ensures
            r == crate::usage::spec_sat_add_u32(
                crate::usage::spec_sat_add_u32(
                    crate::usage::spec_sat_add_u32(
                        self.total_input_tokens as int,
                        self.total_output_tokens as int,
                    ),
                    self.cache_creation_tokens as int,
                ),
                self.cache_read_tokens as int,
            ),
    {
        crate::usage::sat_add_u32(
            crate::usage::sat_add_u32(
                crate::usage::sat_add_u32(self.total_input_tokens, self.total_output_tokens),
                self.cache_creation_tokens,
            ),
            self.cache_read_tokens,
        )
    }
}

impl BillingBlock {
    /// Whether `now` lies inside the block's window. The boundary choice
    /// here is inclusive at both ends: a block is counted active at the
    /// exact instant its window closes.
    pub fn is_active(&self, now: i64) -> (r: bool)
        ensures
            r == (now >= self.start_time && now <= self.end_time),
    {
        now >= self.start_time && now <= self.end_time
    }

    /// Whole minutes from `now` to the block's end; zero once it is past.
    pub fn remaining_minutes(&self, now: i64) -> (r: i64)
        requires
            crate::time::ts_in_range(self.end_time as int),
            crate::time::ts_in_range(now as int),
        ensures
            now > self.end_time ==> r == 0,
            now <= self.end_time ==> r == (self.end_time - now) / 60,
    {
        if now > self.end_time {
            return 0;
        }
        (self.end_time - now) / 60
    }
}

/// A usage entry's total token count over all four categories. At most
/// four times `u32::MAX`, so it always fits in 64 bits.
pub open spec fn spec_entry_total_tokens(e: UsageEntry) -> int {
    e.input_tokens as int + e.output_tokens as int + e.cache_creation_tokens as int
        + e.cache_read_tokens as int
}

/// A usage entry's token count outside the caches: input and output only.
pub open spec fn spec_entry_non_cache_tokens(e: UsageEntry) -> int {
    e.input_tokens as int + e.output_tokens as int
}

/// An entry's total tokens as a machine integer.
pub fn entry_total_tokens(e: &UsageEntry) -> (r: u64)
    ensures
        r == spec_entry_total_tokens(*e),
{
    e.input_tokens as u64 + e.output_tokens as u64 + e.cache_creation_tokens as u64
        + e.cache_read_tokens as u64
}

/// An entry's non-cache tokens as a machine integer.
pub fn entry_non_cache_tokens(e: &UsageEntry) -> (r: u64)
    ensures
        r == spec_entry_non_cache_tokens(*e),
{
    e.input_tokens as u64 + e.output_tokens as u64
}

/// Entries in nondecreasing timestamp order.
pub open spec fn spec_sorted_by_time(s: Seq<UsageEntry>) -> bool {
    forall|i: int, j: int| 0 <= i < j < s.len() ==> s[i].timestamp <= s[j].timestamp
}

/// Copy one usage entry.
pub fn clone_usage_entry(e: &UsageEntry) -> (r: UsageEntry)
    ensures
        r == *e,
{
    UsageEntry {
        timestamp: e.timestamp,
        input_tokens: e.input_tokens,
        output_tokens: e.output_tokens,
        cache_creation_tokens: e.cache_creation_tokens,
        cache_read_tokens: e.cache_read_tokens,
        model: e.model.clone(),
        cost: match &e.cost {
            Some(c) => Some(*c),
            None => None,
        },
        session_id: e.session_id.clone(),
    }
}

/// Sort entries by timestamp: the result is an ordered permutation of
/// the input, and an already-ordered input comes back unchanged.
pub fn sort_entries_by_time(entries: &Vec<UsageEntry>) -> (r: Vec<UsageEntry>)
    ensures
        r@.to_multiset() == entries@.to_multiset(),
        spec_sorted_by_time(r@),
        r@.len() == entries@.len(),
        spec_sorted_by_time(entries@) ==> r@ == entries@,
{
    broadcast use vstd::seq_lib::group_to_multiset_ensures;
    broadcast use vstd::multiset::group_multiset_axioms;

    let mut rest: Vec<UsageEntry> = Vec::new();
    let n = entries.len();
    let mut i: usize = 0;
    while i < n
        invariant
            n == entries@.len(),
            i <= n,
            rest@ =~= entries@.take(i as int),
        decreases n - i,
    {
        rest.push(clone_usage_entry(&entries[i]));
        proof {
            assert(rest@ =~= entries@.take(i + 1));
        }
        i = i + 1;
    }
    proof {
        assert(rest@ =~= entries@);
    }

    let mut out: Vec<UsageEntry> = Vec::new();
    while rest.len() > 0
        invariant
            out@.to_multiset().add(rest@.to_multiset()) == entries@.to_multiset(),
            out@.len() + rest@.len() == entries@.len(),
            spec_sorted_by_time(out@),
            forall|a: int, b: int|
                0 <= a < out@.len() && 0 <= b < rest@.len() ==> out@[a].timestamp
                    <= rest@[b].timestamp,
            spec_sorted_by_time(entries@) ==> out@ == entries@.take(out@.len() as int) && rest@
                == entries@.skip(out@.len() as int),
        decreases rest@.len(),
    {
        let rlen = rest.len();
        let mut mi: usize = 0;
        let mut k: usize = 1;
        while k < rlen
            invariant
                rlen == rest@.len(),
                1 <= rlen,
                mi < k <= rlen || (k <= rlen && mi == 0),
                mi < rlen,
                forall|j: int| 0 <= j < k ==> rest@[mi as int].timestamp <= rest@[j].timestamp,
                spec_sorted_by_time(rest@) ==> mi == 0,
            decreases rlen - k,
        {
            if rest[k].timestamp < rest[mi].timestamp {
                mi = k;
            }
            k = k + 1;
        }
        let ghost pre_rest = rest@;
        let ghost pre_out = out@;
        let m = rest.remove(mi);
        out.push(m);
        proof {
            pre_rest.to_multiset_ensures();
            pre_out.to_multiset_ensures();
            rest@.to_multiset_ensures();
            out@.to_multiset_ensures();
            assert(m == pre_rest[mi as int]);
            assert(rest@ == pre_rest.remove(mi as int));
            assert(pre_rest.contains(m));
            assert(pre_rest.to_multiset().count(m) > 0);
            assert(out@.to_multiset().add(rest@.to_multiset()) =~= pre_out.to_multiset().add(
                pre_rest.to_multiset(),
            ));
            assert forall|b: int| 0 <= b < rest@.len() implies m.timestamp
                <= rest@[b].timestamp by {
                if b < mi {
                    assert(rest@[b] == pre_rest[b]);
                } else {
                    assert(rest@[b] == pre_rest[b + 1]);
                }
            }
            assert forall|a: int, b: int|
                0 <= a < out@.len() && 0 <= b < rest@.len() implies out@[a].timestamp
                <= rest@[b].timestamp by {
                if a < pre_out.len() {
                    if b < mi {
                        assert(rest@[b] == pre_rest[b]);
                    } else {
                        assert(rest@[b] == pre_rest[b + 1]);
                    }
                }
            }
            if spec_sorted_by_time(entries@) {
                assert(spec_sorted_by_time(pre_rest)) by {
                    assert forall|x: int, y: int|
                        0 <= x < y < pre_rest.len() implies pre_rest[x].timestamp
                        <= pre_rest[y].timestamp by {
                        assert(pre_rest[x] == entries@[pre_out.len() + x]);
                        assert(pre_rest[y] == entries@[pre_out.len() + y]);
                    }
                }
                assert(mi == 0);
                assert(out@ =~= entries@.take(out@.len() as int));
                assert(rest@ =~= entries@.skip(out@.len() as int));
            }
        }
    }
    proof {
        assert(rest@.to_multiset().len() == 0);
        assert(rest@.to_multiset() =~= Multiset::<UsageEntry>::empty());
        assert(out@.to_multiset().add(Multiset::<UsageEntry>::empty()) =~= out@.to_multiset());
        if spec_sorted_by_time(entries@) {
            assert(out@ =~= entries@);
        }
    }
    out
}

/// `a + b` capped at `u64::MAX`, for aggregate token and cost sums.
pub open spec fn spec_sat_add_u64(a: int, b: int) -> int {
    if a + b > u64::MAX {
        u64::MAX as int
    } else {
        a + b
    }
}

/// Saturating addition of 64-bit aggregates.
pub fn sat_add_u64(a: u64, b: u64) -> (r: u64)
    ensures
        r == spec_sat_add_u64(a as int, b as int),
{
    if a <= u64::MAX - b {
        a + b
    } else {
        u64::MAX
    }
}

} // verus!
