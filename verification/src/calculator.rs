//! Cost and burn-rate calculations over priced usage entries: per-entry
//! cost, per-session and per-day totals, the windowed live burn rate, and
//! the human-readable remaining-time format.

use vstd::prelude::*;
use crate::pricing::{get_model_pricing, spec_lookup, PricingTable};
use crate::text::{spec_dec_str, str_eq, u64_to_string};
use crate::time::{day_of, spec_day_of, ts_in_range};
use crate::types::{
    sat_add_u64, spec_entry_cost, spec_entry_non_cache_tokens, spec_entry_total_tokens,
    spec_sat_add_u64, BillingBlock, BurnRate, BurnRateTrend, ModelPricing, UsageEntry,
};

verus! {

/// The trailing window over which the burn rate is estimated, in seconds.
pub const BURN_WINDOW_SECONDS: i64 = 300;

/// The cost of a single usage entry at the given rates, in micros.
pub fn calculate_entry_cost(entry: &UsageEntry, pricing: &ModelPricing) -> (r: u64)
    requires
        pricing.wf(),
    ensures
        r == spec_entry_cost(entry, pricing),
{
    pricing.calculate_cost(entry)
}

/// What one entry contributes to a cost total: its cost at the rates its
/// model resolves to, or nothing when no pricing resolves.
pub open spec fn spec_cost_contribution(e: UsageEntry, table: PricingTable) -> int {
    match spec_lookup(table, e.model@) {
        Some(p) => spec_entry_cost(&e, &p),
        None => 0,
    }
}

/// The total cost of the entries of one session, accumulated with
/// saturating addition.
pub open spec fn spec_session_cost(s: Seq<UsageEntry>, sid: Seq<char>, table: PricingTable) -> int
    decreases s.len(),
{
    if s.len() == 0 {
        0
    } else {
        spec_sat_add_u64(
            spec_session_cost(s.drop_last(), sid, table),
            if s.last().session_id@ == sid {
                spec_cost_contribution(s.last(), table)
            } else {
                0
            },
        )
    }
}

/// Total cost of the given session's entries, pricing each entry by
/// resolving its model in the table.
pub fn calculate_session_cost(
    entries: &Vec<UsageEntry>,
    session_id: &str,
    pricing_map: &PricingTable,
) -> (r: u64)
    requires
        pricing_map.wf(),
    ensures
        r == spec_session_cost(entries@, session_id@, *pricing_map),
{
    let mut acc: u64 = 0;
    let n = entries.len();
    let mut i: usize = 0;
    while i < n
        invariant
            pricing_map.wf(),
            n == entries@.len(),
            i <= n,
            acc == spec_session_cost(entries@.take(i as int), session_id@, *pricing_map),
        decreases n - i,
    {
        let e = &entries[i];
        if str_eq(e.session_id.as_str(), session_id) {
            match get_model_pricing(pricing_map, e.model.as_str()) {
                Some(p) => {
                    acc = sat_add_u64(acc, p.calculate_cost(e));
                },
                None => {},
            }
        }
        proof {
            assert(entries@.take(i + 1).drop_last() =~= entries@.take(i as int));
            assert(entries@.take(i + 1).last() == entries@[i as int]);
        }
        i = i + 1;
    }
    proof {
        assert(entries@.take(n as int) =~= entries@);
    }
    acc
}

/// The total cost of the entries whose local calendar day is `day`,
/// accumulated with saturating addition.
pub open spec fn spec_daily_total(
    s: Seq<UsageEntry>,
    day: int,
    tz_offset: int,
    table: PricingTable,
) -> int
    decreases s.len(),
{
    if s.len() == 0 {
        0
    } else {
        spec_sat_add_u64(
            spec_daily_total(s.drop_last(), day, tz_offset, table),
            if spec_day_of(s.last().timestamp + tz_offset) == day {
                spec_cost_contribution(s.last(), table)
            } else {
                0
            },
        )
    }
}

/// Total cost of the entries that fall on today's local calendar day,
/// where `tz_offset_seconds` is the local zone's offset from UTC.
pub fn calculate_daily_total(
    entries: &Vec<UsageEntry>,
    pricing_map: &PricingTable,
    now: i64,
    tz_offset_seconds: i64,
) -> (r: u64)
    requires
        pricing_map.wf(),
        ts_in_range(now as int),
        -86400 <= tz_offset_seconds <= 86400,
        forall|k: int|
            0 <= k < entries@.len() ==> ts_in_range((#[trigger] entries@[k]).timestamp as int),
    ensures
        r == spec_daily_total(
            entries@,
            spec_day_of(now + tz_offset_seconds),
            tz_offset_seconds as int,
            *pricing_map,
        ),
{
    let today = day_of(now + tz_offset_seconds);
    let mut acc: u64 = 0;
    let n = entries.len();
    let mut i: usize = 0;
    while i < n
        invariant
            pricing_map.wf(),
            n == entries@.len(),
            i <= n,
            -86400 <= tz_offset_seconds <= 86400,
            forall|k: int|
                0 <= k < entries@.len() ==> ts_in_range((#[trigger] entries@[k]).timestamp as int),
            today == spec_day_of(now + tz_offset_seconds),
            acc == spec_daily_total(
                entries@.take(i as int),
                today as int,
                tz_offset_seconds as int,
                *pricing_map,
            ),
        decreases n - i,
    {
        let e = &entries[i];
        if day_of(e.timestamp + tz_offset_seconds) == today {
            match get_model_pricing(pricing_map, e.model.as_str()) {
                Some(p) => {
                    acc = sat_add_u64(acc, p.calculate_cost(e));
                },
                None => {},
            }
        }
        proof {
            assert(entries@.take(i + 1).drop_last() =~= entries@.take(i as int));
            assert(entries@.take(i + 1).last() == entries@[i as int]);
        }
        i = i + 1;
    }
    proof {
        assert(entries@.take(n as int) =~= entries@);
    }
    acc
}

/// An entry after the pricing pass: its cost filled in at the rates its
/// model resolves to, or left as it was when no pricing resolves.
pub open spec fn spec_priced(e: UsageEntry, table: PricingTable) -> UsageEntry {
    match spec_lookup(table, e.model@) {
        Some(p) => UsageEntry { cost: Some(spec_entry_cost(&e, &p) as u64), ..e },
        None => e,
    }
}

/// The pricing pass: each entry's cost is computed from its model's
/// resolved rates; entries whose model resolves to nothing keep the cost
/// they had.
pub fn price_entries(entries: Vec<UsageEntry>, pricing_map: &PricingTable) -> (r: Vec<UsageEntry>)
    requires
        pricing_map.wf(),
    ensures
        r@.len() == entries@.len(),
        forall|k: int|
            0 <= k < entries@.len() ==> r@[k] == spec_priced(
                #[trigger] entries@[k],
                *pricing_map,
            ),
{
    let mut out: Vec<UsageEntry> = Vec::new();
    let n = entries.len();
    let mut i: usize = 0;
    while i < n
        invariant
            pricing_map.wf(),
            n == entries@.len(),
            i <= n,
            out@.len() == i,
            forall|k: int|
                0 <= k < i ==> out@[k] == spec_priced(#[trigger] entries@[k], *pricing_map),
        decreases n - i,
    {
        let e = &entries[i];
        match get_model_pricing(pricing_map, e.model.as_str()) {
            Some(p) => {
                let cost = p.calculate_cost(e);
                let mut updated = crate::types::clone_usage_entry(e);
                updated.cost = Some(cost);
                out.push(updated);
            },
            None => {
                out.push(crate::types::clone_usage_entry(e));
            },
        }
        i = i + 1;
    }
    out
}

/// Whether an entry counts toward the burn rate: inside the block's span
/// and within the trailing five-minute window ending now.
pub open spec fn spec_qualifies(e: UsageEntry, block: BillingBlock, now: int) -> bool {
    &&& e.timestamp >= block.start_time
    &&& e.timestamp <= block.end_time
    &&& e.timestamp >= now - BURN_WINDOW_SECONDS
}

/// The qualifying entries, in input order.
pub open spec fn spec_qualifying(s: Seq<UsageEntry>, block: BillingBlock, now: int) -> Seq<
    UsageEntry,
>
    decreases s.len(),
{
    if s.len() == 0 {
        Seq::empty()
    } else {
        let prefix = spec_qualifying(s.drop_last(), block, now);
        if spec_qualifies(s.last(), block, now) {
            prefix.push(s.last())
        } else {
            prefix
        }
    }
}

/// Total tokens over a sequence of entries, saturating.
pub open spec fn spec_sum_tokens(s: Seq<UsageEntry>) -> int
    decreases s.len(),
{
    if s.len() == 0 {
        0
    } else {
        spec_sat_add_u64(spec_sum_tokens(s.drop_last()), spec_entry_total_tokens(s.last()))
    }
}

/// Non-cache tokens over a sequence of entries, saturating.
pub open spec fn spec_sum_non_cache(s: Seq<UsageEntry>) -> int
    decreases s.len(),
{
    if s.len() == 0 {
        0
    } else {
        spec_sat_add_u64(spec_sum_non_cache(s.drop_last()), spec_entry_non_cache_tokens(s.last()))
    }
}

/// The measurement span of the qualifying entries, in seconds: a single
/// entry is assumed to span one minute, so a rate never divides by zero.
pub open spec fn spec_span_seconds(q: Seq<UsageEntry>) -> int {
    if q.len() == 1 {
        60
    } else {
        q.last().timestamp - q[0].timestamp
    }
}

/// Tokens per minute over a positive span, capped at `u64::MAX`.
pub open spec fn spec_rate_per_minute(tokens: int, span: int) -> int {
    if tokens * 60 / span > u64::MAX {
        u64::MAX as int
    } else {
        tokens * 60 / span
    }
}

/// Cost per hour extrapolated from the block's realized cost-per-token
/// ratio at the current token rate, capped at `u64::MAX`; zero when the
/// block has no tokens.
pub open spec fn spec_cost_per_hour(cost: int, tpm: int, total: int) -> int {
    if total == 0 {
        0
    } else if (cost * tpm / total) * 60 > u64::MAX {
        u64::MAX as int
    } else {
        (cost * tpm / total) * 60
    }
}

/// The trend over the qualifying entries: token volume of the second half
/// against the first half.
pub open spec fn spec_trend(q: Seq<UsageEntry>) -> BurnRateTrend {
    if q.len() >= 2 {
        let mid = q.len() as int / 2;
        let first_half = spec_sum_tokens(q.take(mid));
        let second_half = spec_sum_tokens(q.skip(mid));
        if second_half > first_half {
            BurnRateTrend::Rising
        } else if second_half < first_half {
            BurnRateTrend::Falling
        } else {
            BurnRateTrend::Stable
        }
    } else {
        BurnRateTrend::Stable
    }
}

/// Compute the live burn rate over the entries that fall inside the
/// block and the trailing five-minute window. Returns nothing when no
/// entry qualifies or the measured span is not positive; a single
/// qualifying entry is measured over an assumed one-minute window.
pub fn calculate_burn_rate(block: &BillingBlock, entries: &Vec<UsageEntry>, now: i64) -> (r:
    Option<BurnRate>)
    requires
        ts_in_range(now as int),
        forall|k: int|
            0 <= k < entries@.len() ==> ts_in_range((#[trigger] entries@[k]).timestamp as int),
    ensures
        ({
            let q = spec_qualifying(entries@, *block, now as int);
            &&& q.len() == 0 ==> r is None
            &&& (q.len() > 0 && spec_span_seconds(q) <= 0) ==> r is None
            &&& (q.len() > 0 && spec_span_seconds(q) > 0) ==> (r matches Some(b) && {
                let tpm = spec_rate_per_minute(spec_sum_tokens(q), spec_span_seconds(q));
                &&& b.tokens_per_minute == tpm
                &&& b.tokens_per_minute_for_indicator == spec_rate_per_minute(
                    spec_sum_non_cache(q),
                    spec_span_seconds(q),
                )
                &&& b.cost_per_hour == spec_cost_per_hour(
                    block.cost as int,
                    tpm,
                    block.total_tokens as int,
                )
                &&& b.trend == spec_trend(q)
            })
            &&& q.len() == 1 ==> (r matches Some(b) && b.tokens_per_minute
                == spec_rate_per_minute(spec_sum_tokens(q), 60))
        }),
{
    let five_minutes_ago = now - BURN_WINDOW_SECONDS;
    let n = entries.len();
    let ghost gq = spec_qualifying(entries@, *block, now as int);

    let mut count: usize = 0;
    let mut first_ts: i64 = 0;
    let mut last_ts: i64 = 0;
    let mut total_tokens: u64 = 0;
    let mut non_cache_tokens: u64 = 0;
    let mut i: usize = 0;
    while i < n
        invariant
            n == entries@.len(),
            i <= n,
            five_minutes_ago == now - BURN_WINDOW_SECONDS,
            ts_in_range(now as int),
            forall|k: int|
                0 <= k < entries@.len() ==> ts_in_range((#[trigger] entries@[k]).timestamp as int),
            count <= i,
            count == spec_qualifying(entries@.take(i as int), *block, now as int).len(),
            total_tokens == spec_sum_tokens(
                spec_qualifying(entries@.take(i as int), *block, now as int),
            ),
            non_cache_tokens == spec_sum_non_cache(
                spec_qualifying(entries@.take(i as int), *block, now as int),
            ),
            count > 0 ==> first_ts == spec_qualifying(
                entries@.take(i as int),
                *block,
                now as int,
            )[0].timestamp,
            count > 0 ==> last_ts == spec_qualifying(
                entries@.take(i as int),
                *block,
                now as int,
            ).last().timestamp,
            count > 0 ==> ts_in_range(first_ts as int) && ts_in_range(last_ts as int),
        decreases n - i,
    {
        let e = &entries[i];
        proof {
            assert(entries@.take(i + 1).drop_last() =~= entries@.take(i as int));
            assert(entries@.take(i + 1).last() == entries@[i as int]);
        }
        if e.timestamp >= block.start_time && e.timestamp <= block.end_time && e.timestamp
            >= five_minutes_ago {
            if count == 0 {
                first_ts = e.timestamp;
            }
            last_ts = e.timestamp;
            total_tokens = sat_add_u64(total_tokens, crate::types::entry_total_tokens(e));
            non_cache_tokens = sat_add_u64(non_cache_tokens, crate::types::entry_non_cache_tokens(e));
            count = count + 1;
            proof {
                let prev = spec_qualifying(entries@.take(i as int), *block, now as int);
                let cur = spec_qualifying(entries@.take(i + 1), *block, now as int);
                assert(cur == prev.push(entries@[i as int]));
                assert(cur.drop_last() =~= prev);
                if prev.len() > 0 {
                    assert(cur[0] == prev[0]);
                }
            }
        }
        i = i + 1;
    }
    proof {
        assert(entries@.take(n as int) =~= entries@);
    }

    if count == 0 {
        return None;
    }

    let span_seconds: i64 = if count == 1 {
        60
    } else {
        last_ts - first_ts
    };
    if span_seconds <= 0 {
        return None;
    }

    let tokens_per_minute = rate_per_minute(total_tokens, span_seconds);
    let tokens_per_minute_for_indicator = rate_per_minute(non_cache_tokens, span_seconds);
    let cost_per_hour = cost_per_hour(block.cost, tokens_per_minute, block.total_tokens);
    let trend = compute_trend(block, entries, now, count, Ghost(gq));

    Some(
        BurnRate {
            tokens_per_minute,
            tokens_per_minute_for_indicator,
            cost_per_hour,
            trend,
        },
    )
}

/// Tokens per minute over a positive span.
fn rate_per_minute(tokens: u64, span_seconds: i64) -> (r: u64)
    requires
        span_seconds > 0,
    ensures
        r == spec_rate_per_minute(tokens as int, span_seconds as int),
{
    let wide: u128 = (tokens as u128) * 60 / (span_seconds as u128);
    proof {
        assert((tokens as int) * 60 >= 0) by (nonlinear_arith)
            requires
                tokens >= 0,
        ;
        assert((tokens as int) * 60 / (span_seconds as int) >= 0) by (nonlinear_arith)
            requires
                (tokens as int) * 60 >= 0,
                span_seconds > 0,
        ;
    }
    if wide > u64::MAX as u128 {
        u64::MAX
    } else {
        wide as u64
    }
}

/// Cost per hour from the block's cost-per-token ratio at the given rate.
fn cost_per_hour(cost: u64, tpm: u64, total_tokens: u64) -> (r: u64)
    ensures
        r == spec_cost_per_hour(cost as int, tpm as int, total_tokens as int),
{
    if total_tokens == 0 {
        return 0;
    }
    proof {
        assert(0 <= (cost as int) * (tpm as int) <= (u64::MAX as int) * (u64::MAX as int))
            by (nonlinear_arith)
            requires
                0 <= cost <= u64::MAX,
                0 <= tpm <= u64::MAX,
        ;
        assert((cost as int) * (tpm as int) / (total_tokens as int) >= 0) by (nonlinear_arith)
            requires
                (cost as int) * (tpm as int) >= 0,
                total_tokens > 0,
        ;
        assert((cost as int) * (tpm as int) / (total_tokens as int) <= (cost as int) * (
        tpm as int)) by (nonlinear_arith)
            requires
                (cost as int) * (tpm as int) >= 0,
                total_tokens >= 1,
        ;
    }
    let per_minute: u128 = (cost as u128) * (tpm as u128) / (total_tokens as u128);
    if per_minute > u64::MAX as u128 {
        return u64::MAX;
    }
    let per_hour: u128 = per_minute * 60;
    if per_hour > u64::MAX as u128 {
        u64::MAX
    } else {
        per_hour as u64
    }
}

/// The trend over the qualifying entries, computed in a second pass.
fn compute_trend(
    block: &BillingBlock,
    entries: &Vec<UsageEntry>,
    now: i64,
    count: usize,
    Ghost(gq): Ghost<Seq<UsageEntry>>,
) -> (r: BurnRateTrend)
    requires
        gq == spec_qualifying(entries@, *block, now as int),
        count == gq.len(),
        ts_in_range(now as int),
    ensures
        r == spec_trend(gq),
{
    if count < 2 {
        return BurnRateTrend::Stable;
    }
    let mid = count / 2;
    let five_minutes_ago = now - BURN_WINDOW_SECONDS;
    let n = entries.len();
    let mut q: usize = 0;
    let mut first_half: u64 = 0;
    let mut second_half: u64 = 0;
    let mut i: usize = 0;
    while i < n
        invariant
            n == entries@.len(),
            i <= n,
            five_minutes_ago == now - BURN_WINDOW_SECONDS,
            gq == spec_qualifying(entries@, *block, now as int),
            count == gq.len(),
            2 <= count,
            mid == count / 2,
            q <= i,
            q == spec_qualifying(entries@.take(i as int), *block, now as int).len(),
            q <= mid ==> first_half == spec_sum_tokens(
                spec_qualifying(entries@.take(i as int), *block, now as int),
            ) && second_half == 0,
            q > mid ==> first_half == spec_sum_tokens(
                spec_qualifying(entries@.take(i as int), *block, now as int).take(mid as int),
            ) && second_half == spec_sum_tokens(
                spec_qualifying(entries@.take(i as int), *block, now as int).skip(mid as int),
            ),
        decreases n - i,
    {
        let e = &entries[i];
        proof {
            assert(entries@.take(i + 1).drop_last() =~= entries@.take(i as int));
            assert(entries@.take(i + 1).last() == entries@[i as int]);
        }
        if e.timestamp >= block.start_time && e.timestamp <= block.end_time && e.timestamp
            >= five_minutes_ago {
            proof {
                let prev = spec_qualifying(entries@.take(i as int), *block, now as int);
                let cur = spec_qualifying(entries@.take(i + 1), *block, now as int);
                assert(cur == prev.push(entries@[i as int]));
                assert(cur.drop_last() =~= prev);
                if q < mid {
                    assert(cur.take(q + 1) =~= cur);
                } else if q == mid {
                    assert(cur.take(mid as int) =~= prev);
                    assert(cur.skip(mid as int).drop_last() =~= Seq::<UsageEntry>::empty());
                    assert(cur.skip(mid as int).last() == entries@[i as int]);
                    assert(spec_sum_tokens(Seq::<UsageEntry>::empty()) == 0);
                    assert(spec_sum_tokens(cur.skip(mid as int)) == spec_sat_add_u64(
                        0,
                        spec_entry_total_tokens(entries@[i as int]),
                    ));
                } else {
                    assert(cur.take(mid as int) =~= prev.take(mid as int));
                    assert(cur.skip(mid as int) =~= prev.skip(mid as int).push(
                        entries@[i as int],
                    ));
                    assert(cur.skip(mid as int).drop_last() =~= prev.skip(mid as int));
                }
            }
            if q < mid {
                first_half = sat_add_u64(first_half, crate::types::entry_total_tokens(e));
            } else {
                second_half = sat_add_u64(second_half, crate::types::entry_total_tokens(e));
            }
            q = q + 1;
        }
        i = i + 1;
    }
    proof {
        assert(entries@.take(n as int) =~= entries@);
    }
    if second_half > first_half {
        BurnRateTrend::Rising
    } else if second_half < first_half {
        BurnRateTrend::Falling
    } else {
        BurnRateTrend::Stable
    }
}

/// The remaining-time rendering: "expired" once nothing remains, else
/// hours and minutes, the hours part omitted when it is zero.
pub open spec fn spec_format_remaining(minutes: int) -> Seq<char> {
    if minutes <= 0 {
        "expired"@
    } else if minutes / 60 > 0 {
        spec_dec_str((minutes / 60) as nat) + "h "@ + spec_dec_str((minutes % 60) as nat) + "m"@
    } else {
        spec_dec_str((minutes % 60) as nat) + "m"@
    }
}

/// Format a number of remaining minutes as "expired", "Nm", or "Nh Mm".
pub fn format_remaining_time(minutes: i64) -> (r: String)
    ensures
        r@ == spec_format_remaining(minutes as int),
{
    if minutes <= 0 {
        return "expired".to_owned();
    }
    let hours: u64 = (minutes as u64) / 60;
    let mins: u64 = (minutes as u64) % 60;
    proof {
        reveal_strlit("h ");
        reveal_strlit("m");
    }
    if hours > 0 {
        let mut s = u64_to_string(hours);
        s.append("h ");
        let m = u64_to_string(mins);
        s.append(m.as_str());
        s.append("m");
        proof {
            assert(s@ =~= spec_format_remaining(minutes as int));
        }
        s
    } else {
        let mut s = u64_to_string(mins);
        s.append("m");
        proof {
            assert(s@ =~= spec_format_remaining(minutes as int));
        }
        s
    }
}

} // verus!
