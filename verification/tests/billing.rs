use ccometixline::block::{
    create_gap_block, find_active_block, get_block_start, identify_session_blocks,
    identify_session_blocks_with_overrides, merge_consecutive_blocks,
};
use ccometixline::calculator::{
    calculate_burn_rate, calculate_daily_total, calculate_entry_cost, calculate_session_cost,
    format_remaining_time, price_entries,
};
use ccometixline::overrides::BlockOverrideManager;
use ccometixline::pricing::{fallback_pricing, get_model_pricing, PricingTable};
use ccometixline::types::{
    BillingBlock, BlockStartSource, BurnRateTrend, ModelPricing, UsageEntry,
};

// 2024-01-15T00:00:00Z
const DAY_START: i64 = 1705276800;

fn entry(ts: i64, input: u32, output: u32, cost: Option<u64>, session: &str) -> UsageEntry {
    UsageEntry {
        timestamp: ts,
        input_tokens: input,
        output_tokens: output,
        cache_creation_tokens: 0,
        cache_read_tokens: 0,
        model: "sonnet-3-5".to_string(),
        cost,
        session_id: session.to_string(),
    }
}

fn hour_of(ts: i64) -> i64 {
    ts.rem_euclid(86400) / 3600
}

#[test]
fn test_get_block_start() {
    let dt = chrono::DateTime::parse_from_rfc3339("2024-01-15T07:30:45Z")
        .unwrap()
        .timestamp();
    let block_start = get_block_start(dt);
    assert_eq!(hour_of(block_start), 5);
    assert_eq!(block_start % 3600, 0);

    let dt2 = chrono::DateTime::parse_from_rfc3339("2024-01-15T13:45:00Z")
        .unwrap()
        .timestamp();
    assert_eq!(hour_of(get_block_start(dt2)), 10);

    let dt3 = chrono::DateTime::parse_from_rfc3339("2024-01-15T23:59:59Z")
        .unwrap()
        .timestamp();
    assert_eq!(hour_of(get_block_start(dt3)), 20);
}

#[test]
fn test_identify_session_blocks() {
    // Noon UTC, with entries two hours and one hour earlier: all three
    // instants share the 10:00-15:00 grid window.
    let now = DAY_START + 12 * 3600;
    let entries = vec![
        entry(now - 2 * 3600, 100, 50, Some(1_000_000), "session1"),
        entry(now - 3600, 200, 100, Some(2_000_000), "session1"),
    ];

    let blocks = identify_session_blocks(&entries, now);
    assert!(!blocks.is_empty());

    let active_block = blocks.iter().find(|b| b.is_active);
    assert!(active_block.is_some());

    let block = active_block.unwrap();
    assert_eq!(block.total_tokens, 450);
    assert_eq!(block.cost, 3_000_000);
    assert_eq!(block.session_count, 1);
    assert!(block.remaining_minutes > 0);
}

#[test]
fn test_merge_consecutive_blocks() {
    let start1 = DAY_START;
    let start2 = start1 + 5 * 3600;
    let mk = |start: i64, cost: u64, tokens: u64| BillingBlock {
        start_time: start,
        end_time: start + 5 * 3600,
        cost,
        remaining_minutes: 0,
        is_active: false,
        session_count: 1,
        total_tokens: tokens,
        start_time_source: BlockStartSource::Fixed,
        is_gap: false,
    };
    let blocks = vec![mk(start1, 10_000_000, 1000), mk(start2, 20_000_000, 2000)];

    let merged = merge_consecutive_blocks(blocks);
    assert_eq!(merged.len(), 1);
    assert_eq!(merged[0].cost, 30_000_000);
    assert_eq!(merged[0].total_tokens, 3000);
    assert_eq!(merged[0].end_time, start1 + 10 * 3600);
}

#[test]
fn test_empty_entries_yield_no_blocks() {
    let entries: Vec<UsageEntry> = Vec::new();
    assert!(identify_session_blocks(&entries, DAY_START).is_empty());
    let manager = BlockOverrideManager::new();
    assert!(identify_session_blocks_with_overrides(&entries, &manager, DAY_START).is_empty());
}

#[test]
fn test_dynamic_blocks_emit_gap() {
    // Two entries six hours apart: the dual-condition trigger closes the
    // first block and records exactly the one-hour idle span after the
    // first window as a gap block with no cost and no tokens.
    let e1_ts = DAY_START + 10 * 3600;
    let e2_ts = e1_ts + 6 * 3600;
    let now = e2_ts + 3600;
    let entries = vec![
        entry(e1_ts, 100, 50, Some(1_000_000), "s1"),
        entry(e2_ts, 10, 5, Some(2_000_000), "s1"),
    ];
    let manager = BlockOverrideManager::new();
    let blocks = identify_session_blocks_with_overrides(&entries, &manager, now);

    assert_eq!(blocks.len(), 3);
    assert!(!blocks[0].is_gap);
    assert_eq!(blocks[0].start_time, e1_ts);
    assert_eq!(blocks[0].end_time, e1_ts + 5 * 3600);
    assert_eq!(blocks[0].cost, 1_000_000);

    let gap = &blocks[1];
    assert!(gap.is_gap);
    assert_eq!(gap.start_time, e1_ts + 5 * 3600);
    assert_eq!(gap.end_time, e2_ts);
    assert_eq!(gap.end_time - gap.start_time, 3600);
    assert_eq!(gap.cost, 0);
    assert_eq!(gap.total_tokens, 0);

    assert!(!blocks[2].is_gap);
    assert_eq!(blocks[2].start_time, e2_ts);
    assert!(blocks[2].is_active);
}

#[test]
fn test_dynamic_block_uses_valid_override() {
    let e1_ts = DAY_START + 10 * 3600 + 1800;
    let now = e1_ts + 3600;
    let mut manager = BlockOverrideManager::new();
    // Pin 09:00 on the entry's day; the entry arrives within five hours
    // of it, so the pin anchors the block.
    manager.set_override(
        e1_ts.div_euclid(86400),
        DAY_START + 9 * 3600,
        "manual".to_string(),
        None,
        now,
    );
    let entries = vec![entry(e1_ts, 1, 1, None, "s1")];
    let blocks = identify_session_blocks_with_overrides(&entries, &manager, now);
    assert_eq!(blocks.len(), 1);
    assert_eq!(blocks[0].start_time, DAY_START + 9 * 3600);
    assert!(matches!(blocks[0].start_time_source, BlockStartSource::Manual));
}

#[test]
fn test_expired_override_tagged_auto() {
    // An override exists for the day, but the entry arrives more than
    // five hours after it: the anchor falls back to the floored hour and
    // the block is tagged as automatic, not manual.
    let e1_ts = DAY_START + 10 * 3600 + 1800;
    let now = e1_ts + 3600;
    let mut manager = BlockOverrideManager::new();
    manager.set_override(
        e1_ts.div_euclid(86400),
        DAY_START + 2 * 3600,
        "manual".to_string(),
        None,
        now,
    );
    let entries = vec![entry(e1_ts, 1, 1, None, "s1")];
    let blocks = identify_session_blocks_with_overrides(&entries, &manager, now);
    assert_eq!(blocks.len(), 1);
    assert_eq!(blocks[0].start_time, DAY_START + 10 * 3600);
    assert!(matches!(blocks[0].start_time_source, BlockStartSource::Auto));
}

#[test]
fn test_single_entry_block_has_activity() {
    let e_ts = DAY_START + 10 * 3600;
    let now = e_ts + 1800;
    let entries = vec![entry(e_ts, 1, 1, None, "s1")];
    let manager = BlockOverrideManager::new();
    let blocks = identify_session_blocks_with_overrides(&entries, &manager, now);
    assert_eq!(blocks.len(), 1);
    assert!(blocks[0].is_active);
    assert_eq!(blocks[0].remaining_minutes, 270);
}

#[test]
fn test_calculate_entry_cost() {
    let e = UsageEntry {
        timestamp: DAY_START,
        input_tokens: 1000,
        output_tokens: 500,
        cache_creation_tokens: 100,
        cache_read_tokens: 50,
        model: "sonnet-3-5".to_string(),
        cost: None,
        session_id: "test".to_string(),
    };
    let pricing = ModelPricing {
        model_name: "sonnet-3-5".to_string(),
        input_cost_per_1k: 3_000_000,
        output_cost_per_1k: 15_000_000,
        cache_creation_cost_per_1k: 3_750_000,
        cache_read_cost_per_1k: 300_000,
    };
    // 3.00 + 7.50 + 0.375 + 0.015 dollars = 10.89 dollars
    assert_eq!(calculate_entry_cost(&e, &pricing), 10_890_000);
}

#[test]
fn test_format_remaining_time() {
    assert_eq!(format_remaining_time(0), "expired");
    assert_eq!(format_remaining_time(-10), "expired");
    assert_eq!(format_remaining_time(30), "30m");
    assert_eq!(format_remaining_time(90), "1h 30m");
    assert_eq!(format_remaining_time(125), "2h 5m");
}

fn sonnet_table() -> PricingTable {
    let mut table = PricingTable::new();
    table.insert(ModelPricing {
        model_name: "sonnet-3-5".to_string(),
        input_cost_per_1k: 3_000_000,
        output_cost_per_1k: 15_000_000,
        cache_creation_cost_per_1k: 0,
        cache_read_cost_per_1k: 0,
    });
    table
}

#[test]
fn test_calculate_daily_total() {
    let now = DAY_START + 12 * 3600;
    let entries = vec![
        entry(now, 1000, 500, None, "test1"),
        entry(now - 86400, 1000, 500, None, "test2"),
    ];
    let table = sonnet_table();
    // Only today's entry: 3.00 + 7.50 dollars
    assert_eq!(calculate_daily_total(&entries, &table, now, 0), 10_500_000);
}

#[test]
fn test_calculate_session_cost_filters_by_session() {
    let now = DAY_START + 12 * 3600;
    let entries = vec![
        entry(now, 1000, 500, None, "a"),
        entry(now, 1000, 0, None, "b"),
    ];
    let table = sonnet_table();
    assert_eq!(calculate_session_cost(&entries, "a", &table), 10_500_000);
    assert_eq!(calculate_session_cost(&entries, "b", &table), 3_000_000);
    assert_eq!(calculate_session_cost(&entries, "c", &table), 0);
}

#[test]
fn test_price_entries_fills_costs() {
    let now = DAY_START;
    let entries = vec![entry(now, 1000, 500, None, "a")];
    let table = sonnet_table();
    let priced = price_entries(entries, &table);
    assert_eq!(priced[0].cost, Some(10_500_000));
}

#[test]
fn test_burn_rate_single_entry_uses_one_minute_window() {
    // A single qualifying entry never divides by zero: the rate assumes
    // a one-minute window, so 150 tokens become 150 tokens per minute.
    let now = DAY_START + 12 * 3600;
    let block = BillingBlock {
        start_time: now - 2 * 3600,
        end_time: now + 3 * 3600,
        cost: 1_000_000,
        remaining_minutes: 180,
        is_active: true,
        session_count: 1,
        total_tokens: 150,
        start_time_source: BlockStartSource::Auto,
        is_gap: false,
    };
    let entries = vec![entry(now - 120, 120, 30, None, "s1")];
    let rate = calculate_burn_rate(&block, &entries, now).unwrap();
    assert_eq!(rate.tokens_per_minute, 150);
    assert_eq!(rate.tokens_per_minute_for_indicator, 150);
    // 1.00 dollars per 150 tokens at 150 tokens/minute is 60 dollars/hour.
    assert_eq!(rate.cost_per_hour, 60_000_000);
    assert_eq!(rate.trend, BurnRateTrend::Stable);
}

#[test]
fn test_burn_rate_trend_rising() {
    let now = DAY_START + 12 * 3600;
    let block = BillingBlock {
        start_time: now - 3600,
        end_time: now + 4 * 3600,
        cost: 0,
        remaining_minutes: 240,
        is_active: true,
        session_count: 1,
        total_tokens: 400,
        start_time_source: BlockStartSource::Auto,
        is_gap: false,
    };
    let entries = vec![
        entry(now - 240, 100, 0, None, "s1"),
        entry(now - 120, 300, 0, None, "s1"),
    ];
    let rate = calculate_burn_rate(&block, &entries, now).unwrap();
    // 400 tokens over 120 seconds: 200 tokens per minute.
    assert_eq!(rate.tokens_per_minute, 200);
    assert_eq!(rate.trend, BurnRateTrend::Rising);
}

#[test]
fn test_burn_rate_no_recent_entries() {
    let now = DAY_START + 12 * 3600;
    let block = BillingBlock {
        start_time: now - 3600,
        end_time: now + 4 * 3600,
        cost: 0,
        remaining_minutes: 240,
        is_active: true,
        session_count: 1,
        total_tokens: 100,
        start_time_source: BlockStartSource::Auto,
        is_gap: false,
    };
    // The only entry is outside the trailing five-minute window.
    let entries = vec![entry(now - 3600, 100, 0, None, "s1")];
    assert!(calculate_burn_rate(&block, &entries, now).is_none());
}

#[test]
fn test_find_active_block_picks_first_active() {
    let gap = create_gap_block(0, 100);
    let mut active = create_gap_block(100, 200);
    active.is_active = true;
    active.is_gap = false;
    let blocks = vec![gap, active.clone()];
    let found = find_active_block(&blocks).unwrap();
    assert_eq!(found.start_time, 100);
}

#[test]
fn test_fallback_pricing_table() {
    let table = fallback_pricing();
    assert_eq!(table.len(), 7);
    let p = get_model_pricing(&table, "3-5-haiku-20241022").unwrap();
    assert_eq!(p.input_cost_per_1k, 800);
    assert_eq!(p.output_cost_per_1k, 4000);
}

#[test]
fn test_fallback_keys_resolve_for_vendor_prefixed_ids() {
    // Real model identifiers carry a vendor prefix in front of these
    // keys; containment must resolve each table entry from both the
    // dated and the undated form of the identifier.
    let table = fallback_pricing();
    let sonnet = get_model_pricing(&table, "x-3-5-sonnet-20241022").unwrap();
    assert_eq!(sonnet.model_name, "3-5-sonnet-20241022");
    assert_eq!(sonnet.input_cost_per_1k, 3000);
    assert_eq!(sonnet.cache_creation_cost_per_1k, 3750);
    assert_eq!(
        get_model_pricing(&table, "x-3-5-sonnet").unwrap().model_name,
        "3-5-sonnet"
    );

    let opus3 = get_model_pricing(&table, "x-3-opus-20240229").unwrap();
    assert_eq!(opus3.model_name, "3-opus");
    assert_eq!(opus3.output_cost_per_1k, 75000);
    assert_eq!(get_model_pricing(&table, "x-3-opus").unwrap().model_name, "3-opus");

    let haiku = get_model_pricing(&table, "x-3-5-haiku-20241022").unwrap();
    assert_eq!(haiku.model_name, "3-5-haiku");
    assert_eq!(haiku.input_cost_per_1k, 800);
    assert_eq!(
        get_model_pricing(&table, "x-3-5-haiku").unwrap().model_name,
        "3-5-haiku"
    );

    let opus4 = get_model_pricing(&table, "x-opus-4-1-20250805").unwrap();
    assert_eq!(opus4.model_name, "opus-4-1-20250805");
    assert_eq!(get_model_pricing(&table, "x-opus-4-1").unwrap().model_name, "opus-4-1");

    let sonnet4 = get_model_pricing(&table, "x-sonnet-4-20250514").unwrap();
    assert_eq!(sonnet4.model_name, "sonnet-4");
    assert_eq!(sonnet4.input_cost_per_1k, 3000);
    assert_eq!(get_model_pricing(&table, "x-sonnet-4").unwrap().model_name, "sonnet-4");
}

#[test]
fn test_fuzzy_match_prefers_longest_key() {
    // With both a generic and a more specific key present, a dated model
    // name resolves to the longer, more specific key.
    let mut table = PricingTable::new();
    table.insert(ModelPricing {
        model_name: "sonnet-3".to_string(),
        input_cost_per_1k: 1,
        output_cost_per_1k: 1,
        cache_creation_cost_per_1k: 0,
        cache_read_cost_per_1k: 0,
    });
    table.insert(ModelPricing {
        model_name: "sonnet-3-5".to_string(),
        input_cost_per_1k: 2,
        output_cost_per_1k: 2,
        cache_creation_cost_per_1k: 0,
        cache_read_cost_per_1k: 0,
    });
    let p = get_model_pricing(&table, "sonnet-3-5-20241022").unwrap();
    assert_eq!(p.model_name, "sonnet-3-5");
}

#[test]
fn test_fuzzy_match_is_case_insensitive() {
    let table = sonnet_table();
    let p = get_model_pricing(&table, "Sonnet-3-5-Latest").unwrap();
    assert_eq!(p.model_name, "sonnet-3-5");
    assert!(get_model_pricing(&table, "gpt-4o").is_none());
}
