use mezmo_reduce::event::{EventMetadata, LogEvent};
use mezmo_reduce::merge::MergeStrategy;
use mezmo_reduce::reducer::{MezmoReduce, MezmoReduceConfig};
use mezmo_reduce::value::{Timestamp, Value};

fn bytes(s: &str) -> Value {
    Value::Bytes(s.as_bytes().to_vec())
}

fn integer(n: i64) -> Value {
    Value::Integer(n)
}

fn object(fields: Vec<(&str, Value)>) -> Value {
    Value::Object(fields.into_iter().map(|(k, v)| (k.to_string(), v)).collect())
}

fn event_with_message(fields: Vec<(&str, Value)>) -> LogEvent {
    LogEvent::from_fields(vec![("message".to_string(), object(fields))], EventMetadata::new())
}

fn field<'a>(fields: &'a [(String, Value)], key: &str) -> Option<&'a Value> {
    fields.iter().find(|(k, _)| k == key).map(|(_, v)| v)
}

fn message(e: &LogEvent) -> &[(String, Value)] {
    match field(&e.fields, "message") {
        Some(Value::Object(fields)) => fields,
        other => panic!("no message object: {:?}", other),
    }
}

fn msg<'a>(e: &'a LogEvent, key: &str) -> &'a Value {
    field(message(e), key).unwrap_or_else(|| panic!("no message field {key}"))
}

fn assert_value(actual: &Value, expected: Value) {
    assert!(actual.same_as(&expected), "{:?} != {:?}", actual, expected);
}

fn has_field(e: &LogEvent, key: &str) -> bool {
    field(message(e), key).is_some()
}

fn is_true(inner: &LogEvent, key: &str) -> bool {
    matches!(field(&inner.fields, key), Some(Value::Boolean(true)))
}

fn has_key(inner: &LogEvent, key: &str) -> bool {
    field(&inner.fields, key).is_some()
}

type Check = fn(&LogEvent) -> bool;

/// Feeds the events in at time 0 and closes the input.
fn run(
    config: MezmoReduceConfig,
    per_state: u64,
    all_states: u64,
    inputs: Vec<LogEvent>,
    starts_when: Option<Check>,
    ends_when: Option<Check>,
) -> Vec<LogEvent> {
    let mut reducer = MezmoReduce::new(&config, per_state, all_states, 0).unwrap();
    let mut output = Vec::new();
    for mut event in inputs {
        let inner = reducer.extract_message_event(&mut event);
        let starts = starts_when.map_or(false, |c| c(&inner));
        let ends = ends_when.map_or(false, |c| c(&inner));
        reducer.transform_one(&mut output, event, inner, starts, ends, 0);
    }
    reducer.flush_all_into(&mut output);
    output
}

fn config() -> MezmoReduceConfig {
    MezmoReduceConfig::default()
}

const PER_STATE: u64 = 102400;
const ALL_STATES: u64 = 1048576;

fn strategies(list: Vec<(&str, MergeStrategy)>) -> Vec<(String, MergeStrategy)> {
    list.into_iter().map(|(k, s)| (k.to_string(), s)).collect()
}

#[test]
fn mezmo_reduce_generate_config() {
    let config = MezmoReduceConfig::default();
    assert_eq!(config.expire_after_ms, 30000);
    assert_eq!(config.flush_period_ms, 1000);
    assert!(MezmoReduce::new(&config, PER_STATE, ALL_STATES, 0).is_ok());
}

#[test]
fn mezmo_reduce_default_behavior_uses_expire_after() {
    let mut config = config();
    config.expire_after_ms = 3000;
    let start_date = Timestamp { secs: 1_700_000_000, nanos: 0 };
    let middle_date = Timestamp { secs: 1_700_000_001, nanos: 0 };
    let end_date = Timestamp { secs: 1_700_000_060, nanos: 0 };

    let mut e_1 = event_with_message(vec![
        ("my_num", integer(10)),
        ("my_string", bytes("first string")),
        ("my_date", Value::Timestamp(start_date)),
    ]);
    e_1.insert("timestamp".to_string(), Value::Timestamp(start_date));
    let mut e_2 = event_with_message(vec![
        ("my_num", integer(10)),
        ("my_string", bytes("second string")),
        ("e2_string", bytes("Added in the second event")),
    ]);
    e_2.insert("timestamp".to_string(), Value::Timestamp(middle_date));
    let mut e_3 = event_with_message(vec![
        ("my_num", integer(10)),
        ("my_string", bytes("third string")),
        ("e2_string", bytes("Ignored, cause it's added in the THIRD event")),
        ("my_date", Value::Timestamp(end_date)),
    ]);
    e_3.insert("timestamp".to_string(), Value::Timestamp(end_date));

    let mut reducer = MezmoReduce::new(&config, PER_STATE, ALL_STATES, 0).unwrap();
    let mut output = Vec::new();
    for mut event in vec![e_1, e_2, e_3] {
        let inner = reducer.extract_message_event(&mut event);
        reducer.transform_one(&mut output, event, inner, false, false, 0);
    }
    assert!(output.is_empty());
    reducer.flush_into(&mut output, 2999);
    assert!(output.is_empty());
    reducer.flush_into(&mut output, 3000);
    assert_eq!(output.len(), 1);

    let output_1 = &output[0];
    assert_value(msg(output_1, "my_num"), integer(30));
    assert_value(msg(output_1, "my_string"), bytes("first string"));
    assert_value(msg(output_1, "e2_string"), bytes("Added in the second event"));
    assert_value(msg(output_1, "my_date"), Value::Timestamp(start_date));
    assert_value(msg(output_1, "my_date_end"), Value::Timestamp(end_date));
    assert!(output_1.metadata.finalizers.is_empty());
    assert_value(field(&output_1.fields, "timestamp").unwrap(), Value::Timestamp(start_date));
    assert_value(field(&output_1.fields, "timestamp_end").unwrap(), Value::Timestamp(end_date));
    assert_eq!(reducer.telemetry.stale_flushes, 1);
}

#[test]
fn mezmo_reduce_from_end_condition() {
    let mut config = config();
    config.ends_when = Some("has_key(.test_end)".to_string());
    let inputs = vec![
        event_with_message(vec![("my_num", integer(10)), ("my_string", bytes("first string"))]),
        event_with_message(vec![
            ("my_num", integer(10)),
            ("my_string", bytes("second string")),
            ("e2_string", bytes("Added in the second event")),
        ]),
        event_with_message(vec![
            ("my_num", integer(10)),
            ("my_string", bytes("third string")),
            ("e2_string", bytes("Ignored, cause it's added in the THIRD event")),
        ]),
        event_with_message(vec![
            ("my_num", integer(10)),
            ("my_string", bytes("fourth string")),
            ("test_end", bytes("first end")),
        ]),
        event_with_message(vec![
            ("my_num", integer(10)),
            ("my_string", bytes("fifth string")),
            ("test_end", bytes("second end")),
        ]),
    ];
    let output = run(config, PER_STATE, ALL_STATES, inputs, None, Some(|e| has_key(e, "test_end")));
    assert_eq!(output.len(), 2);
    let output_1 = &output[0];
    assert_value(msg(output_1, "my_num"), integer(40));
    assert_value(msg(output_1, "my_string"), bytes("first string"));
    assert_value(msg(output_1, "e2_string"), bytes("Added in the second event"));
    assert_value(msg(output_1, "test_end"), bytes("first end"));

    let output_2 = &output[1];
    assert_value(msg(output_2, "my_num"), integer(10));
    assert_value(msg(output_2, "my_string"), bytes("fifth string"));
    assert_value(msg(output_2, "test_end"), bytes("second end"));
}

#[test]
fn mezmo_reduce_from_start_condition() {
    let mut config = config();
    config.starts_when = Some(".start_new_here == true".to_string());
    let inputs = vec![
        event_with_message(vec![("my_num", integer(10)), ("my_string", bytes("first string"))]),
        event_with_message(vec![
            ("my_num", integer(10)),
            ("my_string", bytes("second string")),
            ("e2_string", bytes("Added in the second event")),
            ("start_new_here", Value::Boolean(false)),
        ]),
        event_with_message(vec![
            ("my_num", integer(10)),
            ("my_string", bytes("third string")),
            ("e2_string", bytes("Ignored, cause it's added in the THIRD event")),
            ("start_new_here", Value::Boolean(true)),
        ]),
        event_with_message(vec![("my_num", integer(10)), ("my_string", bytes("fourth string"))]),
        event_with_message(vec![("my_num", integer(10)), ("my_string", bytes("fifth string"))]),
    ];
    let output = run(config, PER_STATE, ALL_STATES, inputs, Some(|e| is_true(e, "start_new_here")), None);
    assert_eq!(output.len(), 2);
    let output_1 = &output[0];
    assert_value(msg(output_1, "my_num"), integer(20));
    assert_value(msg(output_1, "my_string"), bytes("first string"));
    assert_value(msg(output_1, "e2_string"), bytes("Added in the second event"));

    let output_2 = &output[1];
    assert_value(msg(output_2, "my_num"), integer(30));
    assert_value(msg(output_2, "my_string"), bytes("third string"));
    assert_value(msg(output_2, "start_new_here"), Value::Boolean(true));
}

#[test]
fn mezmo_reduce_with_group_by() {
    let mut config = config();
    config.group_by = vec!["request_id".to_string()];
    config.ends_when = Some(".stop_here == true".to_string());
    let inputs = vec![
        event_with_message(vec![
            ("request_id", bytes("1")),
            ("my_num", integer(10)),
            ("my_string", bytes("first string")),
        ]),
        event_with_message(vec![
            ("request_id", bytes("2")),
            ("my_num", integer(11)),
            ("my_string", bytes("second string")),
            ("other_string", bytes("Added in the second event")),
        ]),
        event_with_message(vec![
            ("request_id", bytes("1")),
            ("my_num", integer(12)),
            ("my_string", bytes("third string")),
            ("other_string", bytes("Added in the third event")),
        ]),
        event_with_message(vec![
            ("request_id", bytes("2")),
            ("my_num", integer(13)),
            ("my_string", bytes("Ignore this string")),
            ("other_string", bytes("Ignore this string also")),
            ("stop_here", Value::Boolean(true)),
        ]),
        event_with_message(vec![
            ("request_id", bytes("1")),
            ("my_num", integer(14)),
            ("my_string", bytes("fifth string")),
            ("stop_here", Value::Boolean(true)),
        ]),
    ];
    let output = run(config, PER_STATE, ALL_STATES, inputs, None, Some(|e| is_true(e, "stop_here")));
    assert_eq!(output.len(), 2);
    let output_1 = &output[0];
    assert_value(msg(output_1, "request_id"), bytes("2"));
    assert_value(msg(output_1, "my_num"), integer(24));
    assert_value(msg(output_1, "my_string"), bytes("second string"));
    assert_value(msg(output_1, "other_string"), bytes("Added in the second event"));

    let output_2 = &output[1];
    assert_value(msg(output_2, "request_id"), bytes("1"));
    assert_value(msg(output_2, "my_num"), integer(36));
    assert_value(msg(output_2, "my_string"), bytes("first string"));
    assert_value(msg(output_2, "other_string"), bytes("Added in the third event"));
}

#[test]
fn mezmo_reduce_merge_strategies() {
    let mut config = config();
    config.group_by = vec!["request_id".to_string()];
    config.merge_strategies = strategies(vec![
        ("foo", MergeStrategy::Concat),
        ("bar", MergeStrategy::Array),
        ("baz", MergeStrategy::Max),
    ]);
    config.ends_when = Some("has_key(.test_end)".to_string());
    let inputs = vec![
        event_with_message(vec![
            ("request_id", bytes("1")),
            ("foo", bytes("first foo")),
            ("bar", bytes("first bar")),
            ("baz", integer(2)),
        ]),
        event_with_message(vec![
            ("request_id", bytes("1")),
            ("foo", bytes("second foo")),
            ("bar", integer(2)),
            ("baz", bytes("not number")),
        ]),
        event_with_message(vec![
            ("request_id", bytes("1")),
            ("foo", integer(10)),
            ("bar", bytes("third bar")),
            ("baz", integer(3)),
            ("test_end", bytes("yep")),
        ]),
    ];
    let output = run(config, PER_STATE, ALL_STATES, inputs, None, Some(|e| has_key(e, "test_end")));
    assert_eq!(output.len(), 1);
    let output_1 = &output[0];
    assert_value(msg(output_1, "request_id"), bytes("1"));
    assert_value(msg(output_1, "foo"), bytes("first foo second foo"));
    assert_value(
        msg(output_1, "bar"),
        Value::Array(vec![bytes("first bar"), integer(2), bytes("third bar")]),
    );
    assert_value(msg(output_1, "baz"), integer(3));
}

#[test]
fn mezmo_reduce_missing_group_by() {
    let mut config = config();
    config.group_by = vec!["request_id".to_string()];
    config.ends_when = Some("has_key(.test_end)".to_string());
    let inputs = vec![
        event_with_message(vec![("request_id", bytes("1")), ("counter", integer(1))]),
        event_with_message(vec![("counter", integer(2))]),
        event_with_message(vec![("request_id", bytes("1")), ("counter", integer(3))]),
        event_with_message(vec![
            ("request_id", bytes("1")),
            ("counter", integer(4)),
            ("test_end", bytes("yep")),
        ]),
        event_with_message(vec![
            ("counter", integer(5)),
            ("extra_field", bytes("value1")),
            ("test_end", bytes("yep")),
        ]),
    ];
    let output = run(config, PER_STATE, ALL_STATES, inputs, None, Some(|e| has_key(e, "test_end")));
    assert_eq!(output.len(), 2);
    assert_value(msg(&output[0], "counter"), integer(8));
    assert_value(msg(&output[1], "extra_field"), bytes("value1"));
    assert_value(msg(&output[1], "counter"), integer(7));
}

fn ints(ns: &[i64]) -> Value {
    Value::Array(ns.iter().map(|n| integer(*n)).collect())
}

#[test]
fn mezmo_reduce_arrays_in_payload() {
    let mut config = config();
    config.group_by = vec!["request_id".to_string()];
    config.merge_strategies = strategies(vec![("foo", MergeStrategy::Array), ("bar", MergeStrategy::Concat)]);
    config.ends_when = Some("has_key(.test_end)".to_string());
    let inputs = vec![
        event_with_message(vec![("request_id", bytes("1")), ("foo", ints(&[1, 3])), ("bar", ints(&[1, 3]))]),
        event_with_message(vec![("request_id", bytes("2")), ("foo", ints(&[2, 4])), ("bar", ints(&[2, 4]))]),
        event_with_message(vec![("request_id", bytes("1")), ("foo", ints(&[5, 7])), ("bar", ints(&[5, 7]))]),
        event_with_message(vec![
            ("request_id", bytes("1")),
            ("foo", bytes("done")),
            ("bar", bytes("done")),
            ("test_end", bytes("yep")),
        ]),
        event_with_message(vec![("request_id", bytes("2")), ("foo", ints(&[6, 8])), ("bar", ints(&[6, 8]))]),
        event_with_message(vec![
            ("request_id", bytes("2")),
            ("foo", bytes("done")),
            ("bar", bytes("done")),
            ("test_end", bytes("yep")),
        ]),
    ];
    let output = run(config, PER_STATE, ALL_STATES, inputs, None, Some(|e| has_key(e, "test_end")));
    assert_eq!(output.len(), 2);
    let output_1 = &output[0];
    assert_value(msg(output_1, "request_id"), bytes("1"));
    assert_value(msg(output_1, "foo"), Value::Array(vec![ints(&[1, 3]), ints(&[5, 7]), bytes("done")]));
    assert_value(msg(output_1, "bar"), Value::Array(vec![integer(1), integer(3), integer(5), integer(7), bytes("done")]));

    let output_2 = &output[1];
    assert_value(msg(output_2, "request_id"), bytes("2"));
    assert_value(msg(output_2, "foo"), Value::Array(vec![ints(&[2, 4]), ints(&[6, 8]), bytes("done")]));
    assert_value(msg(output_2, "bar"), Value::Array(vec![integer(2), integer(4), integer(6), integer(8), bytes("done")]));
}

#[test]
fn mezmo_reduce_timestamps_with_path_notation() {
    let mut config = config();
    config.date_formats = vec![
        (".ts".to_string(), "%Y-%m-%d %H:%M:%S".to_string()),
        (".epoch".to_string(), "%s".to_string()),
        (".epoch_str".to_string(), "%s".to_string()),
    ];
    config.ends_when = Some("has_key(.test_end)".to_string());
    let inputs = vec![
        event_with_message(vec![
            ("ts", bytes("2014-11-28 12:00:09")),
            ("epoch", integer(1671134262)),
            ("epoch_str", bytes("1671134262")),
        ]),
        event_with_message(vec![
            ("ts", bytes("2014-11-28 13:00:09")),
            ("epoch", integer(1671134263)),
            ("epoch_str", bytes("1671134263")),
        ]),
        event_with_message(vec![
            ("ts", bytes("2014-11-28 14:00:09")),
            ("epoch", integer(1671134264)),
            ("epoch_str", bytes("1671134264")),
            ("test_end", bytes("yup")),
        ]),
    ];
    let output = run(config, PER_STATE, ALL_STATES, inputs, None, Some(|e| has_key(e, "test_end")));
    assert_eq!(output.len(), 1);
    let output_1 = &output[0];
    assert_value(msg(output_1, "test_end"), bytes("yup"));
    assert_value(msg(output_1, "ts"), bytes("2014-11-28 12:00:09"));
    assert_value(msg(output_1, "ts_end"), bytes("2014-11-28 14:00:09"));
    assert_value(msg(output_1, "epoch"), integer(1671134262));
    assert_value(msg(output_1, "epoch_end"), integer(1671134264));
    assert_value(msg(output_1, "epoch_str"), bytes("1671134262"));
    assert_value(msg(output_1, "epoch_str_end"), bytes("1671134264"));
}

#[test]
fn mezmo_reduce_merge_strategies_with_special_paths() {
    let mut config = config();
    config.merge_strategies = strategies(vec![
        ("some-retain-field", MergeStrategy::Retain),
        ("some!array-field", MergeStrategy::Array),
        ("concat-me!", MergeStrategy::Concat),
    ]);
    let inputs = vec![
        event_with_message(vec![
            ("some-retain-field", bytes("one")),
            ("some!array-field", bytes("four")),
            ("concat-me!", bytes("seven")),
        ]),
        event_with_message(vec![
            ("some-retain-field", bytes("two")),
            ("some!array-field", bytes("five")),
            ("concat-me!", bytes("eight")),
        ]),
        event_with_message(vec![
            ("some-retain-field", bytes("three")),
            ("some!array-field", bytes("six")),
            ("concat-me!", bytes("nine")),
        ]),
    ];
    let output = run(config, PER_STATE, ALL_STATES, inputs, None, None);
    assert_eq!(output.len(), 1);
    let output_1 = &output[0];
    assert_value(msg(output_1, "some-retain-field"), bytes("three"));
    assert_value(
        msg(output_1, "some!array-field"),
        Value::Array(vec![bytes("four"), bytes("five"), bytes("six")]),
    );
    assert_value(msg(output_1, "concat-me!"), bytes("seven eight nine"));
}

#[test]
fn mezmo_reduce_state_exceeds_threshold() {
    let mut config = config();
    config.merge_strategies = strategies(vec![("key1", MergeStrategy::Array)]);
    let inputs = vec![
        event_with_message(vec![("key1", bytes("first one")), ("key2", bytes("first"))]),
        event_with_message(vec![("key1", bytes("second one")), ("key2", bytes("NOPE"))]),
        event_with_message(vec![("key1", bytes("and now you're too big!")), ("key2", bytes("NEIGH"))]),
        event_with_message(vec![("key1", bytes("a new reduce event")), ("key2", bytes("yep"))]),
    ];
    let output = run(config, 30, ALL_STATES, inputs, None, None);
    assert_eq!(output.len(), 2);
    assert_eq!(output[0].fields.len(), 1);
    assert_eq!(message(&output[0]).len(), 2);
    assert_value(
        msg(&output[0], "key1"),
        Value::Array(vec![bytes("first one"), bytes("second one"), bytes("and now you're too big!")]),
    );
    assert_value(msg(&output[0], "key2"), bytes("first"));
    assert_eq!(message(&output[1]).len(), 2);
    assert_value(msg(&output[1], "key1"), Value::Array(vec![bytes("a new reduce event")]));
    assert_value(msg(&output[1], "key2"), bytes("yep"));
}

#[test]
fn mezmo_reduce_all_states_total_exceeds_threshold() {
    let mut config = config();
    config.group_by = vec!["request_id".to_string()];
    config.merge_strategies = strategies(vec![("key1", MergeStrategy::Array)]);
    let inputs = vec![
        event_with_message(vec![("request_id", bytes("1")), ("key1", bytes("one"))]),
        event_with_message(vec![("request_id", bytes("1")), ("key1", bytes("two"))]),
        event_with_message(vec![("request_id", bytes("2")), ("key1", bytes("one"))]),
        event_with_message(vec![("request_id", bytes("2")), ("key1", bytes("two"))]),
        event_with_message(vec![
            ("request_id", bytes("2")),
            ("key1", bytes("aaaaaaaaaaaand we're way too long now")),
        ]),
    ];
    let mut reducer = MezmoReduce::new(&config, PER_STATE, 30, 0).unwrap();
    let mut output = Vec::new();
    for mut event in inputs {
        let inner = reducer.extract_message_event(&mut event);
        reducer.transform_one(&mut output, event, inner, false, false, 0);
    }
    assert_eq!(output.len(), 2);
    assert!(reducer.reduce_merge_states.is_empty());
    assert_eq!(reducer.telemetry.stale_flushes, 0);
    assert_value(msg(&output[0], "key1"), Value::Array(vec![bytes("one"), bytes("two")]));
    assert_value(msg(&output[0], "request_id"), bytes("1"));
    assert_value(
        msg(&output[1], "key1"),
        Value::Array(vec![bytes("one"), bytes("two"), bytes("aaaaaaaaaaaand we're way too long now")]),
    );
    assert_value(msg(&output[1], "request_id"), bytes("2"));
}

#[test]
fn mezmo_reduce_group_by_number_field() {
    let mut config = config();
    config.group_by = vec!["status".to_string()];
    config.merge_strategies = strategies(vec![("method", MergeStrategy::Array), ("status", MergeStrategy::Sum)]);
    let inputs = vec![
        event_with_message(vec![("status", integer(1)), ("method", bytes("GET"))]),
        event_with_message(vec![("status", integer(1)), ("method", bytes("POST"))]),
        event_with_message(vec![("status", integer(1)), ("method", bytes("POST"))]),
        event_with_message(vec![("status", integer(2)), ("method", bytes("POST"))]),
        event_with_message(vec![("status", integer(2)), ("method", bytes("POST"))]),
    ];
    let output = run(config, PER_STATE, ALL_STATES, inputs, None, None);
    assert_eq!(output.len(), 2);
    assert_eq!(output[0].fields.len(), 1, "group_by did not apply merge strategies to its fields");
    assert_eq!(message(&output[0]).len(), 2, "group_by did not apply merge strategies to its fields");
    assert_value(msg(&output[0], "status"), integer(1));
    assert_value(msg(&output[0], "method"), Value::Array(vec![bytes("GET"), bytes("POST"), bytes("POST")]));
    assert_eq!(message(&output[1]).len(), 2, "group_by did not apply merge strategies to its fields");
    assert_value(msg(&output[1], "status"), integer(2));
    assert_value(msg(&output[1], "method"), Value::Array(vec![bytes("POST"), bytes("POST")]));
}

#[test]
fn missing_message_is_an_empty_inner_event() {
    let mut event = LogEvent::from_fields(vec![("host".to_string(), bytes("a"))], EventMetadata::new());
    let mut reducer = MezmoReduce::new(&config(), PER_STATE, ALL_STATES, 0).unwrap();
    let inner = reducer.extract_message_event(&mut event);
    assert!(inner.fields.is_empty());
    let mut output = Vec::new();
    reducer.transform_one(&mut output, event, inner, false, true, 0);
    assert_eq!(output.len(), 1);
    assert_value(field(&output[0].fields, "host").unwrap(), bytes("a"));
    assert!(field(&output[0].fields, "message").is_none());
    assert!(!has_field(&event_with_message(vec![("x", integer(1))]), "y"));
}

#[test]
fn starts_when_on_first_event_is_ordinary_arrival() {
    let inputs = vec![
        event_with_message(vec![("n", integer(1)), ("start", Value::Boolean(true))]),
        event_with_message(vec![("n", integer(2))]),
    ];
    let output = run(config(), PER_STATE, ALL_STATES, inputs, Some(|e| is_true(e, "start")), None);
    assert_eq!(output.len(), 1);
    assert_value(msg(&output[0], "n"), integer(3));
}

#[test]
fn finalizers_of_all_contributing_events_are_kept() {
    let mut a = event_with_message(vec![("n", integer(1))]);
    a.metadata.finalizers.push(7);
    let mut b = event_with_message(vec![("n", integer(2))]);
    b.metadata.finalizers.push(9);
    let output = run(config(), PER_STATE, ALL_STATES, vec![a, b], None, None);
    assert_eq!(output.len(), 1);
    assert_eq!(output[0].metadata.finalizers, vec![7, 9]);
}

#[test]
fn stale_groups_are_emitted_in_start_order() {
    let mut config = config();
    config.group_by = vec!["id".to_string()];
    config.expire_after_ms = 100;
    let mut reducer = MezmoReduce::new(&config, PER_STATE, ALL_STATES, 0).unwrap();
    let mut output = Vec::new();
    for (id, now) in [("b", 10u64), ("a", 20), ("c", 90)] {
        let mut event = event_with_message(vec![("id", bytes(id))]);
        let inner = reducer.extract_message_event(&mut event);
        reducer.transform_one(&mut output, event, inner, false, false, now);
    }
    assert!(output.is_empty());
    reducer.flush_into(&mut output, 120);
    assert_eq!(output.len(), 2);
    assert_value(msg(&output[0], "id"), bytes("b"));
    assert_value(msg(&output[1], "id"), bytes("a"));
    assert_eq!(reducer.reduce_merge_states.len(), 1);
    reducer.flush_all_into(&mut output);
    assert_eq!(output.len(), 3);
    assert_value(msg(&output[2], "id"), bytes("c"));
}
