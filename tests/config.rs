use mezmo_reduce::classify::{default_grok_patterns, LogClassification, LogClassificationConfig};
use mezmo_reduce::dates::{decimal_of, parse_i64, parse_u64, path_key_of, DateKind, MezmoMetadata};
use mezmo_reduce::merge::MergeStrategy;
use mezmo_reduce::reducer::{
    byte_threshold, default_expire_after_ms, default_flush_period_ms, MezmoReduce, MezmoReduceConfig,
    ReduceConfigError, REDUCE_BYTE_THRESHOLD_ALL_STATES_DEFAULT, REDUCE_BYTE_THRESHOLD_PER_STATE_DEFAULT,
};
use mezmo_reduce::telemetry::{MezmoAggregateEventRecorded, MezmoAggregateFlushed, MezmoAggregateUpdateFailed};

#[test]
fn mezmo_log_classification_generate_config() {
    let config = LogClassificationConfig::default();
    assert!(config.line_fields.is_none());
    let transform = LogClassification::new(&config);
    assert!(transform.line_fields.is_empty());
    let config = LogClassificationConfig {
        line_fields: Some(vec![".syslog".to_string()]),
        grok_patterns: default_grok_patterns(),
    };
    let transform = LogClassification::new(&config);
    assert_eq!(transform.line_fields, vec![".syslog".to_string()]);
    assert_eq!(transform.patterns.len(), 67);
    assert_eq!(transform.patterns[0], "HTTPD_COMBINEDLOG");
    assert_eq!(transform.patterns[3], "SYSLOG5424LINE");
}

#[test]
fn both_conditions_are_refused() {
    let mut config = MezmoReduceConfig::default();
    config.ends_when = Some("a".to_string());
    config.starts_when = Some("b".to_string());
    assert_eq!(MezmoReduce::new(&config, 1, 1, 0).err(), Some(ReduceConfigError::ConflictingConditions));
}

#[test]
fn unparseable_date_format_is_refused() {
    let mut config = MezmoReduceConfig::default();
    config.date_formats = vec![("ts".to_string(), "%Y-%Q".to_string())];
    assert_eq!(MezmoReduce::new(&config, 1, 1, 0).err(), Some(ReduceConfigError::InvalidDateFormat));
    config.date_formats = vec![("ts".to_string(), "%Y-%m-%d".to_string())];
    assert!(MezmoReduce::new(&config, 1, 1, 0).is_ok());
}

#[test]
fn duplicate_strategy_is_refused() {
    let mut config = MezmoReduceConfig::default();
    config.merge_strategies = vec![
        ("a".to_string(), MergeStrategy::Sum),
        ("a".to_string(), MergeStrategy::Max),
    ];
    assert_eq!(MezmoReduce::new(&config, 1, 1, 0).err(), Some(ReduceConfigError::DuplicateStrategy));
}

#[test]
fn defaults() {
    assert_eq!(default_expire_after_ms(), 30000);
    assert_eq!(default_flush_period_ms(), 1000);
    assert_eq!(REDUCE_BYTE_THRESHOLD_PER_STATE_DEFAULT, 102400);
    assert_eq!(REDUCE_BYTE_THRESHOLD_ALL_STATES_DEFAULT, 1048576);
}

#[test]
fn thresholds_from_settings() {
    assert_eq!(byte_threshold(Some("30"), 5), 30);
    assert_eq!(byte_threshold(Some("+30"), 5), 30);
    assert_eq!(byte_threshold(Some("3x"), 5), 5);
    assert_eq!(byte_threshold(Some(""), 5), 5);
    assert_eq!(byte_threshold(Some("18446744073709551616"), 5), 5);
    assert_eq!(byte_threshold(None, 5), 5);
}

#[test]
fn decimal_numbers() {
    assert_eq!(decimal_of(0), b"0".to_vec());
    assert_eq!(decimal_of(1671134262), b"1671134262".to_vec());
    assert_eq!(decimal_of(-45), b"-45".to_vec());
    assert_eq!(decimal_of(i64::MIN), i64::MIN.to_string().into_bytes());
    assert_eq!(parse_i64("1671134262"), Some(1671134262));
    assert_eq!(parse_i64("-9223372036854775808"), Some(i64::MIN));
    assert_eq!(parse_i64("9223372036854775808"), None);
    assert_eq!(parse_i64("+7"), Some(7));
    assert_eq!(parse_i64("2014-11-28"), None);
    assert_eq!(parse_i64("-"), None);
    assert_eq!(parse_u64("18446744073709551615"), Some(u64::MAX));
}

#[test]
fn path_keys() {
    assert_eq!(path_key_of(".ts"), "ts");
    assert_eq!(path_key_of("ts"), "ts");
    assert_eq!(path_key_of(".\"a-b\""), "a-b");
}

#[test]
fn first_date_kind_wins() {
    let mut meta = MezmoMetadata::new(vec![]);
    assert_eq!(meta.get_date_kind(&"ts".to_string()), None);
    meta.save_date_kind("ts".to_string(), DateKind::Integer);
    meta.save_date_kind("ts".to_string(), DateKind::Bytes);
    assert_eq!(meta.get_date_kind(&"ts".to_string()), Some(DateKind::Integer));
}

#[test]
fn telemetry_counter_names() {
    assert_eq!(MezmoAggregateEventRecorded.counter_name(), "mezmo_aggregate_events_recorded_total");
    assert_eq!(MezmoAggregateFlushed.counter_name(), "mezmo_aggregate_flushes_total");
    assert_eq!(MezmoAggregateUpdateFailed.counter_name(), "mezmo_aggregate_failed_updates");
}
