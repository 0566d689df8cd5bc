use ccometixline::config::{CostSource, GlobalConfig};
use ccometixline::overrides::BlockOverrideManager;
use ccometixline::pricing::{
    clear_pricing_cache, convert_catalog, CatalogEntry, FileCachePricing, PricingCache,
    PricingTable,
};
use ccometixline::segments::{BurnRateSegment, CostSegment, UsageSegment};
use ccometixline::types::{BurnRate, BurnRateThresholds, BurnRateTrend, ModelPricing, UsageEntry};

// 2024-01-15T12:00:00Z
const NOON: i64 = 1705320000;

#[test]
fn test_global_config_default() {
    let config = GlobalConfig::default();
    assert_eq!(config.context_limit, 200000);
}

#[test]
fn test_global_config_validate_valid() {
    let config = GlobalConfig { context_limit: 100000 };
    assert!(config.validate().is_ok());
}

#[test]
fn test_global_config_validate_zero() {
    let config = GlobalConfig { context_limit: 0 };
    assert!(config.validate().is_err());
    assert_eq!(
        config.validate().unwrap_err(),
        "Context limit must be greater than 0"
    );
}

#[test]
fn test_global_config_validate_small_value() {
    let config = GlobalConfig { context_limit: 1 };
    assert!(config.validate().is_ok());
}

#[test]
fn test_global_config_validate_large_value() {
    let config = GlobalConfig { context_limit: u32::MAX };
    assert!(config.validate().is_ok());
}

#[test]
fn test_usage_segment_formats_tokens() {
    let segment = UsageSegment::new(&GlobalConfig { context_limit: 200000 });
    let data = segment.collect_with_tokens(150000);
    assert_eq!(data.primary, "75% · 150k tokens");
    assert_eq!(data.secondary, "");
    assert_eq!(data.metadata.len(), 3);
    assert_eq!(data.metadata[0], ("tokens".to_string(), "150000".to_string()));
    assert_eq!(data.metadata[1], ("percentage".to_string(), "75".to_string()));
    assert_eq!(data.metadata[2], ("limit".to_string(), "200000".to_string()));
}

#[test]
fn test_usage_segment_fractional_display() {
    let segment = UsageSegment::new(&GlobalConfig { context_limit: 200000 });
    let data = segment.collect_with_tokens(1234);
    // 1234 of 200000 is 0.6 percent; 1234 tokens display as 1.2k.
    assert_eq!(data.primary, "0.6% · 1.2k tokens");

    let small = segment.collect_with_tokens(999);
    assert!(small.primary.ends_with("999 tokens"));
}

#[test]
fn test_indicator_selection() {
    let segment = BurnRateSegment::new(true, BurnRateThresholds::default());
    assert_eq!(segment.get_indicator(6000), "\u{ef76}");
    assert_eq!(segment.get_indicator(3000), "\u{f0e7}");
    assert_eq!(segment.get_indicator(1000), "\u{f0e4}");
}

#[test]
fn test_burn_rate_segment_disabled() {
    let segment = BurnRateSegment::new(false, BurnRateThresholds::default());
    assert!(segment.collect(&None).is_none());
}

#[test]
fn test_burn_rate_segment_enabled() {
    let segment = BurnRateSegment::new(true, BurnRateThresholds::default());
    let rate = BurnRate {
        tokens_per_minute: 6100,
        tokens_per_minute_for_indicator: 3000,
        cost_per_hour: 12_340_000,
        trend: BurnRateTrend::Rising,
    };
    let data = segment.collect(&Some(rate)).unwrap();
    assert_eq!(data.primary, "$12.34/hr");
    assert_eq!(data.secondary, "\u{f0e7}");
    assert_eq!(data.metadata[2], ("trend".to_string(), "Rising".to_string()));

    let empty = segment.collect(&None).unwrap();
    assert_eq!(empty.primary, "—/hr");
    assert_eq!(empty.metadata[0], ("status".to_string(), "no_data".to_string()));
}

fn sonnet_entry(ts: i64) -> UsageEntry {
    UsageEntry {
        timestamp: ts,
        input_tokens: 1000,
        output_tokens: 500,
        cache_creation_tokens: 0,
        cache_read_tokens: 0,
        model: "sonnet-3-5".to_string(),
        cost: Some(10_500_000),
        session_id: "sess".to_string(),
    }
}

fn sonnet_table() -> PricingTable {
    let mut table = PricingTable::new();
    table.insert(ModelPricing {
        model_name: "sonnet-3-5".to_string(),
        input_cost_per_1k: 3_000_000,
        output_cost_per_1k: 15_000_000,
        cache_creation_cost_per_1k: 0,
        cache_read_cost_per_1k: 0,
    });
    table
}

#[test]
fn test_cost_segment_strings() {
    let segment = CostSegment::new(true, CostSource::Auto);
    let entries = vec![sonnet_entry(NOON - 1800)];
    let table = sonnet_table();
    let manager = BlockOverrideManager::new();
    let data = segment.collect_with_pricing(&entries, &table, &manager, "sess", None, NOON, 0);
    assert_eq!(data.primary, "$10.50 session");
    // The entry's hour-floored block runs from 11:00 to 16:00, so four
    // whole hours remain at noon.
    assert_eq!(data.secondary, "$10.50 today · $10.50 block (4h 0m)");
    assert_eq!(
        data.metadata[0],
        ("session_cost".to_string(), "10.50".to_string())
    );
    assert_eq!(
        data.metadata[1],
        ("daily_total".to_string(), "10.50".to_string())
    );
}

#[test]
fn test_cost_segment_native_preference() {
    let segment = CostSegment::new(true, CostSource::Auto);
    let entries: Vec<UsageEntry> = Vec::new();
    let table = sonnet_table();
    let manager = BlockOverrideManager::new();
    let data = segment.collect_with_pricing(
        &entries,
        &table,
        &manager,
        "sess",
        Some(1_230_000),
        NOON,
        0,
    );
    assert_eq!(data.primary, "$1.23 session");
    assert_eq!(data.secondary, "$0.00 today · No active block");

    let both = CostSegment::new(true, CostSource::Both);
    let data = both.collect_with_pricing(
        &entries,
        &table,
        &manager,
        "sess",
        Some(1_230_000),
        NOON,
        0,
    );
    assert_eq!(data.primary, "$1.23 native / $0.00 calc");
}

#[test]
fn test_pricing_cache_ttl() {
    let mut cache = PricingCache::new();
    assert!(cache.lookup(NOON).is_none());
    cache.store(sonnet_table(), NOON);
    assert!(cache.lookup(NOON + 299).is_some());
    assert!(cache.lookup(NOON + 301).is_none());
    clear_pricing_cache(&mut cache);
    assert!(cache.lookup(NOON).is_none());
}

#[test]
fn test_file_cache_expiry() {
    let snapshot = FileCachePricing { fetched_at: NOON, ttl_hours: 24, data: sonnet_table() };
    assert!(!snapshot.is_expired(NOON + 86400));
    assert!(snapshot.is_expired(NOON + 86401));
}

#[test]
fn test_convert_catalog_filters() {
    let entry = |name: &str, input: Option<u64>, output: Option<u64>| CatalogEntry {
        model_name: name.to_string(),
        input_cost_per_1k: input,
        output_cost_per_1k: output,
        cache_creation_cost_per_1k: None,
        cache_read_cost_per_1k: None,
    };
    let catalog = vec![
        entry("sonnet-3-5", Some(3000), Some(15000)),
        // A non-text model without an output price is dropped.
        entry("imagegen-1", Some(1), None),
        entry("opus-4-1", Some(1), Some(1)),
        // A later duplicate of a taken name is ignored.
        entry("sonnet-3-5", Some(9), Some(9)),
    ];
    let table = convert_catalog(&catalog);
    assert_eq!(table.len(), 2);
    let p = ccometixline::pricing::get_model_pricing(&table, "sonnet-3-5").unwrap();
    assert_eq!(p.input_cost_per_1k, 3000);
    assert_eq!(p.cache_creation_cost_per_1k, 0);
}

#[test]
fn test_money_and_remaining_strings() {
    assert_eq!(ccometixline::text::money_string(10_890_000), "10.89");
    assert_eq!(ccometixline::text::money_string(0), "0.00");
    assert_eq!(ccometixline::text::money_string(999_999), "0.99");
    assert_eq!(ccometixline::text::u64_to_string(1705320000), "1705320000");
    assert_eq!(ccometixline::text::i64_to_string(-42), "-42");
}
