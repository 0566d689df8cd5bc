use ccometixline::overrides::{BlockOverride, BlockOverrideError, BlockOverrideManager};
use ccometixline::time::floor_to_hour;

// 2024-01-15T00:00:00Z and its day number
const DAY_START: i64 = 1705276800;
const DAY: i64 = 19737;

#[test]
fn test_floor_to_hour() {
    let test_time = chrono::DateTime::parse_from_rfc3339("2024-08-14T14:37:42Z")
        .unwrap()
        .timestamp();
    let floored = floor_to_hour(test_time);
    assert_eq!(floored.rem_euclid(86400) / 3600, 14);
    assert_eq!(floored % 3600, 0);
    assert_eq!(floored, test_time - 37 * 60 - 42);
}

#[test]
fn test_parse_time_input_single_digit() {
    // Interpreted as 8 o'clock today, local time, converted to UTC.
    let now = chrono::Utc::now().timestamp();
    let tz_offset = chrono::Local::now().offset().local_minus_utc() as i64;
    let result = BlockOverrideManager::parse_time_input("8", now, tz_offset);
    match result {
        Ok(time) => {
            assert_eq!(time % 3600, 0);
            let local_day_of_time = (time + tz_offset).div_euclid(86400);
            let local_day_today = (now + tz_offset).div_euclid(86400);
            assert_eq!(local_day_of_time, local_day_today);
        }
        Err(BlockOverrideError::FutureTime) => {
            // Expected when the test runs before 8 in the morning local
            // time: the hour would still be in the future today.
        }
        Err(e) => panic!("Unexpected error: {}", e.message()),
    }
}

#[test]
fn test_parse_time_input_invalid_hour() {
    let now = DAY_START + 12 * 3600;
    let result = BlockOverrideManager::parse_time_input("24", now, 0);
    assert!(matches!(result, Err(BlockOverrideError::HourOutOfRange)));

    let result = BlockOverrideManager::parse_time_input("25", now, 0);
    assert!(matches!(result, Err(BlockOverrideError::HourOutOfRange)));
}

#[test]
fn test_parse_time_input_invalid_format() {
    let now = DAY_START + 12 * 3600;
    let result = BlockOverrideManager::parse_time_input("abc", now, 0);
    assert!(matches!(result, Err(BlockOverrideError::InvalidFormat)));
}

#[test]
fn test_parse_time_input_hh_mm_discards_minutes() {
    let now = DAY_START + 12 * 3600;
    let result = BlockOverrideManager::parse_time_input("09:45", now, 0);
    assert_eq!(result.unwrap(), DAY_START + 9 * 3600);
}

#[test]
fn test_parse_time_input_minute_out_of_range() {
    let now = DAY_START + 12 * 3600;
    let result = BlockOverrideManager::parse_time_input("12:99", now, 0);
    assert!(matches!(result, Err(BlockOverrideError::TimeOutOfRange)));
}

#[test]
fn test_parse_time_input_rejects_future_hour() {
    let now = DAY_START + 12 * 3600;
    let result = BlockOverrideManager::parse_time_input("23", now, 0);
    assert!(matches!(result, Err(BlockOverrideError::FutureTime)));
}

#[test]
fn test_parse_time_input_iso_floors_to_hour() {
    let now = DAY_START + 12 * 3600;
    let result = BlockOverrideManager::parse_time_input("2024-01-15T07:30:45Z", now, 0);
    assert_eq!(result.unwrap(), DAY_START + 7 * 3600);
}

#[test]
fn test_block_override_creation() {
    let start_time = DAY_START + 9 * 3600;
    let now = DAY_START + 10 * 3600;
    let override_config = BlockOverride::new(
        start_time,
        "manual".to_string(),
        Some("Test override".to_string()),
        now,
    );
    assert_eq!(override_config.start_time, start_time);
    assert_eq!(override_config.source, "manual");
    assert_eq!(override_config.notes, Some("Test override".to_string()));
    assert!(override_config.created_at <= now);
}

#[test]
fn test_set_get_clear_override() {
    let now = DAY_START + 12 * 3600;
    let mut manager = BlockOverrideManager::new();
    assert!(manager.get_override(DAY).is_none());

    manager.set_override(DAY, DAY_START + 9 * 3600 + 1234, "manual".to_string(), None, now);
    let ov = manager.get_override(DAY).unwrap();
    // The stored start time is floored to the hour.
    assert_eq!(ov.start_time, DAY_START + 9 * 3600);
    assert_eq!(manager.override_count(), 1);

    assert!(manager.clear_override(DAY));
    assert!(!manager.clear_override(DAY));
    assert!(manager.get_override(DAY).is_none());
    assert_eq!(manager.override_count(), 0);
}

#[test]
fn test_set_override_replaces_existing() {
    let now = DAY_START + 12 * 3600;
    let mut manager = BlockOverrideManager::new();
    manager.set_override(DAY, DAY_START + 8 * 3600, "manual".to_string(), None, now);
    manager.set_override(DAY, DAY_START + 10 * 3600, "manual".to_string(), None, now);
    assert_eq!(manager.override_count(), 1);
    assert_eq!(manager.get_override(DAY).unwrap().start_time, DAY_START + 10 * 3600);
}

#[test]
fn test_cleanup_expired_purges_old_entries() {
    let now = DAY_START + 12 * 3600;
    let mut manager = BlockOverrideManager::new();
    // One pin created 40 days ago, one created now.
    manager.set_override(
        DAY - 40,
        DAY_START + 9 * 3600,
        "manual".to_string(),
        None,
        now - 40 * 86400,
    );
    manager.set_override(DAY, DAY_START + 9 * 3600, "manual".to_string(), None, now);

    let removed = manager.cleanup_expired(30, now);
    assert_eq!(removed, 1);
    assert!(manager.get_override(DAY - 40).is_none());
    assert!(manager.get_override(DAY).is_some());
}

#[test]
fn test_error_messages() {
    assert_eq!(
        BlockOverrideError::HourOutOfRange.message(),
        "Hour must be between 0 and 23"
    );
    assert_eq!(BlockOverrideError::FutureTime.message(), "Cannot set future time");
    assert_eq!(
        BlockOverrideError::CorruptedConfig("bad".to_string()).message(),
        "Configuration file is corrupted: bad"
    );
    assert_eq!(
        BlockOverrideError::FileAccess("denied".to_string()).message(),
        "Failed to access configuration file: denied"
    );
    assert_eq!(
        BlockOverrideError::InvalidFormat.message(),
        "Invalid time format. Expected: hour (0-23), HH:MM, or ISO timestamp"
    );
    assert_eq!(
        BlockOverrideError::TimeOutOfRange.message(),
        "Time values out of range"
    );
}

#[test]
fn test_get_all_dates() {
    let now = DAY_START + 12 * 3600;
    let mut manager = BlockOverrideManager::new();
    manager.set_override(DAY, DAY_START + 9 * 3600, "manual".to_string(), None, now);
    manager.set_override(DAY - 1, DAY_START + 9 * 3600, "manual".to_string(), None, now);
    let dates = manager.get_all_dates();
    assert_eq!(dates.len(), 2);
    assert!(dates.contains(&DAY));
    assert!(dates.contains(&(DAY - 1)));
}
