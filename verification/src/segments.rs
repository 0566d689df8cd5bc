//! The metric segments the core hands to the rendering layer: for each
//! metric a short primary string, a secondary string, and a string-keyed
//! metadata list. No formatting or coloring decisions are made here.
//!
//! Percentages and token counts are rendered in fixed point with one
//! decimal place, and money with two, so every string here is the exact
//! rendering of an integer computation.

use vstd::prelude::*;
use crate::block::{
    find_active_block, identify_session_blocks_with_overrides, spec_dynamic_blocks,
    spec_first_active,
};
use crate::calculator::{
    calculate_daily_total, calculate_session_cost, format_remaining_time, spec_daily_total,
    spec_format_remaining, spec_session_cost,
};
use crate::config::{CostSource, GlobalConfig};
use crate::harvest::{extract_record, split_lines};
use crate::overrides::BlockOverrideManager;
use crate::pricing::PricingTable;
use crate::text::{
    money_string, one_decimal_string, spec_dec_str, spec_money_str, spec_one_decimal_str,
    u64_to_string,
};
use crate::time::{spec_day_of, ts_in_range};
use crate::types::{
    BurnRate, BurnRateThresholds, BillingBlock, UsageEntry, spec_sorted_by_time,
};

verus! {

/// One metric's contribution to the status line: a primary string, a
/// secondary string, and string-keyed metadata.
#[derive(Debug, Clone, PartialEq)]
pub struct SegmentData {
    pub primary: String,
    pub secondary: String,
    pub metadata: Vec<(String, String)>,
}

/// The context-usage segment: how much of the context window the session
/// has consumed.
#[derive(Debug, Clone, PartialEq)]
pub struct UsageSegment {
    pub context_limit: u32,
}

/// Thousandths of the context limit that the tokens consume; zero when
/// no limit is configured.
pub open spec fn spec_percent_tenths(tokens: int, limit: int) -> int {
    if limit > 0 {
        tokens * 1000 / limit
    } else {
        0
    }
}

/// A per-tenths quantity rendered with its decimal dropped when whole.
pub open spec fn spec_tenths_str(tenths: int) -> Seq<char> {
    if tenths % 10 == 0 {
        spec_dec_str((tenths / 10) as nat)
    } else {
        spec_one_decimal_str(tenths)
    }
}

/// The token count display: counts from one thousand up are shown in
/// units of a thousand with one decimal, dropped when whole.
pub open spec fn spec_tokens_display(tokens: int) -> Seq<char> {
    if tokens >= 1000 {
        spec_tenths_str(tokens / 100) + "k"@
    } else {
        spec_dec_str(tokens as nat)
    }
}

/// Render a quantity of tenths, the decimal dropped when whole.
fn tenths_string(tenths: u64) -> (r: String)
    ensures
        r@ == spec_tenths_str(tenths as int),
{
    if tenths % 10 == 0 {
        u64_to_string(tenths / 10)
    } else {
        one_decimal_string(tenths)
    }
}

impl UsageSegment {
    /// A usage segment for the configured context limit.
    pub fn new(global_config: &GlobalConfig) -> (r: Self)
        ensures
            r.context_limit == global_config.context_limit,
    {
        UsageSegment { context_limit: global_config.context_limit }
    }

    /// The segment data for a known context token count: the percentage
    /// of the limit and the count itself, plus the three metadata fields.
    pub fn collect_with_tokens(&self, context_used_token: u32) -> (r: SegmentData)
        ensures
            ({
                let tenths = spec_percent_tenths(
                    context_used_token as int,
                    self.context_limit as int,
                );
                &&& r.primary@ == spec_tenths_str(tenths) + "% · "@ + spec_tokens_display(
                    context_used_token as int,
                ) + " tokens"@
                &&& r.secondary@ == Seq::<char>::empty()
                &&& r.metadata@.len() == 3
                &&& r.metadata@[0].0@ == "tokens"@ && r.metadata@[0].1@ == spec_dec_str(
                    context_used_token as nat,
                )
                &&& r.metadata@[1].0@ == "percentage"@ && r.metadata@[1].1@ == spec_tenths_str(
                    tenths,
                )
                &&& r.metadata@[2].0@ == "limit"@ && r.metadata@[2].1@ == spec_dec_str(
                    self.context_limit as nat,
                )
            }),
    {
        let tenths: u64 = if self.context_limit > 0 {
            (context_used_token as u64) * 1000 / (self.context_limit as u64)
        } else {
            0
        };
        let pct = tenths_string(tenths);
        let tokens_display = if context_used_token >= 1000 {
            let mut t = tenths_string((context_used_token as u64) / 100);
            t.append("k");
            proof {
                reveal_strlit("k");
                assert(t@ =~= spec_tokens_display(context_used_token as int));
            }
            t
        } else {
            u64_to_string(context_used_token as u64)
        };
        let mut primary = pct;
        primary.append("% · ");
        primary.append(tokens_display.as_str());
        primary.append(" tokens");

        let mut metadata: Vec<(String, String)> = Vec::new();
        metadata.push(("tokens".to_owned(), u64_to_string(context_used_token as u64)));
        metadata.push(("percentage".to_owned(), tenths_string(tenths)));
        metadata.push(("limit".to_owned(), u64_to_string(self.context_limit as u64)));
        proof {
            reveal_strlit("% · ");
            reveal_strlit(" tokens");
            assert(primary@ =~= spec_tenths_str(
                spec_percent_tenths(context_used_token as int, self.context_limit as int),
            ) + "% · "@ + spec_tokens_display(context_used_token as int) + " tokens"@);
        }
        SegmentData { primary, secondary: String::new(), metadata }
    }
}

/// The display count the newest eligible record among the lines yields:
/// scanning from the last line backwards, the first line denoting an
/// assistant record with a usage object contributes the display tokens
/// of that usage; zero when no line does.
pub open spec fn spec_latest_usage_tokens(lines: Seq<Seq<u8>>) -> int
    decreases lines.len(),
{
    if lines.len() == 0 {
        0
    } else {
        let rec = crate::harvest::record_of(lines.last());
        if crate::harvest::spec_eligible(rec) {
            crate::usage::spec_display_tokens(rec.usage.unwrap())
        } else {
            spec_latest_usage_tokens(lines.drop_last())
        }
    }
}

/// The context token count the transcript's newest assistant record
/// reports: the file's lines are scanned from the end, and the first
/// assistant record carrying a usage object yields the display count
/// the verified normalizer derives from its raw usage.
pub fn parse_transcript_usage(bytes: &[u8]) -> (r: u32)
    ensures
        r == spec_latest_usage_tokens(crate::harvest::spec_split_lines(bytes@)),
{
    let lines = split_lines(bytes);
    let ghost dv = lines.deep_view();
    let n = lines.len();
    let mut i: usize = n;
    proof {
        assert(dv.take(n as int) =~= dv);
        assert(dv == crate::harvest::spec_split_lines(bytes@));
    }
    while i > 0
        invariant
            n == lines@.len(),
            i <= n,
            dv == lines.deep_view(),
            dv == crate::harvest::spec_split_lines(bytes@),
            dv.len() == n,
            spec_latest_usage_tokens(dv) == spec_latest_usage_tokens(dv.take(i as int)),
        decreases i,
    {
        i = i - 1;
        proof {
            assert(dv.take(i + 1).drop_last() =~= dv.take(i as int));
            assert(dv.take(i + 1).last() == dv[i as int]);
            assert(dv[i as int] =~= lines@[i as int]@);
        }
        let rec = extract_record(lines[i].as_slice());
        let ghost grec = rec;
        let is_assistant = match &rec.rec_type {
            Some(t) => crate::text::str_eq(t.as_str(), "assistant"),
            None => false,
        };
        if is_assistant {
            match rec.usage {
                Some(raw) => {
                    let ghost graw = raw;
                    proof {
                        assert(crate::harvest::record_of(dv[i as int]) == grec);
                        assert(grec.usage == Some(graw));
                        assert(crate::harvest::spec_eligible(grec));
                        assert(spec_latest_usage_tokens(dv.take(i + 1))
                            == crate::usage::spec_display_tokens(graw));
                    }
                    let tokens = raw.normalize().display_tokens();
                    proof {
                        assert(tokens == crate::usage::spec_display_tokens(graw));
                    }
                    return tokens;
                },
                None => {},
            }
        }
        proof {
            assert(spec_latest_usage_tokens(dv.take(i + 1)) == spec_latest_usage_tokens(
                dv.take(i as int),
            ));
        }
    }
    proof {
        assert(dv.take(0).len() == 0);
        assert(spec_latest_usage_tokens(dv.take(0)) == 0);
    }
    0
}

/// The burn-rate segment: thresholds and the enabled flag.
#[derive(Debug, Clone, PartialEq)]
pub struct BurnRateSegment {
    pub enabled: bool,
    pub thresholds: BurnRateThresholds,
}

/// The indicator glyph for a token rate: urgent above the high
/// threshold, elevated above the medium one, calm otherwise.
pub open spec fn spec_indicator(thresholds: BurnRateThresholds, tokens_per_minute: int) -> Seq<
    char,
> {
    if tokens_per_minute > thresholds.high {
        "\u{ef76}"@
    } else if tokens_per_minute > thresholds.medium {
        "\u{f0e7}"@
    } else {
        "\u{f0e4}"@
    }
}

impl BurnRateSegment {
    /// A burn-rate segment.
    pub fn new(enabled: bool, thresholds: BurnRateThresholds) -> (r: Self)
        ensures
            r.enabled == enabled,
            r.thresholds == thresholds,
    {
        BurnRateSegment { enabled, thresholds }
    }

    /// The indicator glyph for a token rate.
    pub fn get_indicator(&self, tokens_per_minute: u64) -> (r: &'static str)
        ensures
            r@ == spec_indicator(self.thresholds, tokens_per_minute as int),
    {
        if tokens_per_minute > self.thresholds.high {
            "\u{ef76}"
        } else if tokens_per_minute > self.thresholds.medium {
            "\u{f0e7}"
        } else {
            "\u{f0e4}"
        }
    }

    /// The segment data for a computed burn rate: the cost per hour and
    /// the indicator, or the no-data display when none was computable.
    pub fn collect_with_data(&self, rate: &Option<BurnRate>) -> (r: SegmentData)
        ensures
            match rate {
                Some(b) => {
                    &&& r.primary@ == "$"@ + spec_money_str(b.cost_per_hour as int) + "/hr"@
                    &&& r.secondary@ == spec_indicator(
                        self.thresholds,
                        b.tokens_per_minute_for_indicator as int,
                    )
                    &&& r.metadata@.len() == 3
                    &&& r.metadata@[0].0@ == "cost_per_hour"@ && r.metadata@[0].1@
                        == spec_money_str(b.cost_per_hour as int)
                    &&& r.metadata@[1].0@ == "tokens_per_minute"@ && r.metadata@[1].1@
                        == spec_dec_str(b.tokens_per_minute_for_indicator as nat)
                    &&& r.metadata@[2].0@ == "trend"@ && r.metadata@[2].1@ == (
                    match b.trend {
                        crate::types::BurnRateTrend::Rising => "Rising"@,
                        crate::types::BurnRateTrend::Falling => "Falling"@,
                        crate::types::BurnRateTrend::Stable => "Stable"@,
                    })
                },
                None => {
                    &&& r.primary@ == "—/hr"@
                    &&& r.secondary@ == "\u{f0e4}"@
                    &&& r.metadata@.len() == 1
                    &&& r.metadata@[0].0@ == "status"@ && r.metadata@[0].1@ == "no_data"@
                },
            },
    {
        match rate {
            Some(b) => {
                let indicator = self.get_indicator(b.tokens_per_minute_for_indicator);
                let mut metadata: Vec<(String, String)> = Vec::new();
                metadata.push(("cost_per_hour".to_owned(), money_string(b.cost_per_hour)));
                metadata.push(
                    (
                        "tokens_per_minute".to_owned(),
                        u64_to_string(b.tokens_per_minute_for_indicator),
                    ),
                );
                metadata.push(("trend".to_owned(), b.trend.name().to_owned()));
                let mut primary = "$".to_owned();
                primary.append(money_string(b.cost_per_hour).as_str());
                primary.append("/hr");
                proof {
                    assert(primary@ =~= "$"@ + spec_money_str(b.cost_per_hour as int) + "/hr"@);
                }
                SegmentData { primary, secondary: indicator.to_owned(), metadata }
            },
            None => {
                let mut metadata: Vec<(String, String)> = Vec::new();
                metadata.push(("status".to_owned(), "no_data".to_owned()));
                SegmentData {
                    primary: "—/hr".to_owned(),
                    secondary: "\u{f0e4}".to_owned(),
                    metadata,
                }
            },
        }
    }

    /// The segment's contribution: nothing when disabled.
    pub fn collect(&self, rate: &Option<BurnRate>) -> (r: Option<SegmentData>)
        ensures
            self.enabled <==> r is Some,
    {
        if !self.enabled {
            return None;
        }
        Some(self.collect_with_data(rate))
    }
}

/// The cost segment: the enabled flag and the session-cost strategy.
#[derive(Debug, Clone, PartialEq)]
pub struct CostSegment {
    pub enabled: bool,
    pub cost_source: CostSource,
}

/// The session cost the configured strategy selects, in micros.
pub open spec fn spec_chosen_session_cost(
    source: CostSource,
    native: Option<u64>,
    calculated: int,
) -> int {
    match source {
        CostSource::Auto => match native {
            Some(n) => n as int,
            None => calculated,
        },
        CostSource::Native => native.unwrap_or(0) as int,
        CostSource::Calculated => calculated,
        CostSource::Both => calculated,
    }
}

/// The cost segment's primary string: both costs under the dual
/// strategy when a native cost exists, else the chosen session cost.
pub open spec fn spec_cost_primary(
    source: CostSource,
    native: Option<u64>,
    calculated: int,
) -> Seq<char> {
    if source is Both && native is Some {
        "$"@ + spec_money_str(native.unwrap() as int) + " native / $"@ + spec_money_str(calculated)
            + " calc"@
    } else {
        "$"@ + spec_money_str(spec_chosen_session_cost(source, native, calculated)) + " session"@
    }
}

/// The cost segment's secondary string: the daily total, and the active
/// block's cost and remaining time when there is an active block.
pub open spec fn spec_cost_secondary(daily: int, active: Option<BillingBlock>) -> Seq<char> {
    match active {
        Some(b) => "$"@ + spec_money_str(daily) + " today · $"@ + spec_money_str(b.cost as int)
            + " block ("@ + spec_format_remaining(b.remaining_minutes as int) + ")"@,
        None => "$"@ + spec_money_str(daily) + " today · No active block"@,
    }
}

impl CostSegment {
    /// A cost segment.
    pub fn new(enabled: bool, cost_source: CostSource) -> (r: Self)
        ensures
            r.enabled == enabled,
            r.cost_source == cost_source,
    {
        CostSegment { enabled, cost_source }
    }

    /// The cost metrics over the priced entries: the session cost under
    /// the configured strategy, today's total, and the active block's
    /// cost and remaining time. The entries are expected time-sorted, as
    /// the harvester yields them; the block-dependent strings are exact
    /// for sorted input.
    pub fn collect_with_pricing(
        &self,
        entries: &Vec<UsageEntry>,
        pricing_map: &PricingTable,
        override_manager: &BlockOverrideManager,
        session_id: &str,
        native_cost: Option<u64>,
        now: i64,
        tz_offset_seconds: i64,
    ) -> (r: SegmentData)
        requires
            pricing_map.wf(),
            override_manager.wf(),
            ts_in_range(now as int),
            -86400 <= tz_offset_seconds <= 86400,
            forall|k: int|
                0 <= k < entries@.len() ==> ts_in_range((#[trigger] entries@[k]).timestamp as int),
        ensures
            ({
                let calculated = spec_session_cost(entries@, session_id@, *pricing_map);
                let daily = spec_daily_total(
                    entries@,
                    spec_day_of(now + tz_offset_seconds),
                    tz_offset_seconds as int,
                    *pricing_map,
                );
                &&& r.primary@ == spec_cost_primary(self.cost_source, native_cost, calculated)
                &&& spec_sorted_by_time(entries@) ==> r.secondary@ == spec_cost_secondary(
                    daily,
                    spec_first_active(
                        spec_dynamic_blocks(entries@, *override_manager, now as int),
                    ),
                )
                &&& r.metadata@.len() >= 2
                &&& r.metadata@[0].0@ == "session_cost"@ && r.metadata@[0].1@ == spec_money_str(
                    spec_chosen_session_cost(self.cost_source, native_cost, calculated),
                )
                &&& r.metadata@[1].0@ == "daily_total"@ && r.metadata@[1].1@ == spec_money_str(
                    daily,
                )
                &&& exists|es: Seq<UsageEntry>|
                    #[trigger] es.to_multiset() == entries@.to_multiset()
                        && crate::types::spec_sorted_by_time(es) && r.secondary@
                        == spec_cost_secondary(
                        daily,
                        spec_first_active(spec_dynamic_blocks(es, *override_manager, now as int)),
                    )
            }),
    {
        let calculated_session_cost = calculate_session_cost(entries, session_id, pricing_map);
        let daily_total = calculate_daily_total(entries, pricing_map, now, tz_offset_seconds);

        let session_cost: u64 = match self.cost_source {
            CostSource::Auto => match &native_cost {
                Some(n) => *n,
                None => calculated_session_cost,
            },
            CostSource::Native => match &native_cost {
                Some(n) => *n,
                None => 0,
            },
            CostSource::Calculated => calculated_session_cost,
            CostSource::Both => calculated_session_cost,
        };

        let blocks = identify_session_blocks_with_overrides(entries, override_manager, now);
        let active_block = find_active_block(&blocks);

        let mut metadata: Vec<(String, String)> = Vec::new();
        metadata.push(("session_cost".to_owned(), money_string(session_cost)));
        metadata.push(("daily_total".to_owned(), money_string(daily_total)));

        let secondary: String = match active_block {
            Some(b) => {
                metadata.push(("block_cost".to_owned(), money_string(b.cost)));
                metadata.push(("block_remaining".to_owned(), crate::text::i64_to_string(
                    b.remaining_minutes,
                )));
                let mut s = "$".to_owned();
                s.append(money_string(daily_total).as_str());
                s.append(" today · $");
                s.append(money_string(b.cost).as_str());
                s.append(" block (");
                s.append(format_remaining_time(b.remaining_minutes).as_str());
                s.append(")");
                proof {
                    assert(s@ =~= spec_cost_secondary(daily_total as int, Some(*b)));
                }
                s
            },
            None => {
                let mut s = "$".to_owned();
                s.append(money_string(daily_total).as_str());
                s.append(" today · No active block");
                proof {
                    assert(s@ =~= spec_cost_secondary(
                        daily_total as int,
                        None::<BillingBlock>,
                    ));
                }
                s
            },
        };
        proof {
            let es = choose|es: Seq<UsageEntry>|
                #[trigger] es.to_multiset() == entries@.to_multiset() && spec_sorted_by_time(es)
                    && blocks@ == spec_dynamic_blocks(es, *override_manager, now as int);
            assert(es.to_multiset() == entries@.to_multiset() && spec_sorted_by_time(es)
                && secondary@ == spec_cost_secondary(
                daily_total as int,
                spec_first_active(spec_dynamic_blocks(es, *override_manager, now as int)),
            ));
        }

        let primary: String = if matches!(self.cost_source, CostSource::Both) && native_cost.is_some() {
            let native = match &native_cost {
                Some(n) => *n,
                None => 0,
            };
            let mut s = "$".to_owned();
            s.append(money_string(native).as_str());
            s.append(" native / $");
            s.append(money_string(calculated_session_cost).as_str());
            s.append(" calc");
            proof {
                assert(s@ =~= spec_cost_primary(
                    self.cost_source,
                    native_cost,
                    calculated_session_cost as int,
                ));
            }
            s
        } else {
            let mut s = "$".to_owned();
            s.append(money_string(session_cost).as_str());
            s.append(" session");
            proof {
                assert(s@ =~= spec_cost_primary(
                    self.cost_source,
                    native_cost,
                    calculated_session_cost as int,
                ));
            }
            s
        };

        SegmentData { primary, secondary, metadata }
    }

    /// The segment's contribution: nothing when disabled.
    pub fn collect_enabled(&self) -> (r: bool)
        ensures
            r == self.enabled,
    {
        self.enabled
    }
}

} // verus!
