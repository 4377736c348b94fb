use mezmo_reduce::dates::{DateKind, MezmoMetadata};
use mezmo_reduce::value::{Timestamp, Value};

fn bytes(s: &str) -> Value {
    Value::Bytes(s.as_bytes().to_vec())
}

fn assert_value(actual: &Value, expected: Value) {
    assert!(actual.same_as(&expected), "{:?} != {:?}", actual, expected);
}

fn meta(formats: &[(&str, &str)]) -> MezmoMetadata {
    MezmoMetadata::new(formats.iter().map(|(p, f)| (p.to_string(), f.to_string())).collect())
}

#[test]
fn string_date_is_read_and_written_back_as_string() {
    let mut m = meta(&[(".ts", "%Y-%m-%d %H:%M:%S")]);
    let mut fields = vec![("ts".to_string(), bytes("2014-11-28 12:00:09"))];
    m.coerce_into_timestamp_if_needed(&mut fields);
    assert_value(&fields[0].1, Value::Timestamp(Timestamp { secs: 1417176009, nanos: 0 }));
    assert_eq!(m.get_date_kind(&"ts".to_string()), Some(DateKind::Bytes));
    fields.push(("ts_end".to_string(), Value::Timestamp(Timestamp { secs: 1417183209, nanos: 0 })));
    m.coerce_from_timestamp_if_needed(&mut fields);
    assert_value(&fields[0].1, bytes("2014-11-28 12:00:09"));
    assert_value(&fields[1].1, bytes("2014-11-28 14:00:09"));
}

#[test]
fn integer_epoch_is_written_back_as_integer() {
    let mut m = meta(&[("epoch", "%s")]);
    let mut fields = vec![("epoch".to_string(), Value::Integer(1671134262))];
    m.coerce_into_timestamp_if_needed(&mut fields);
    assert_value(&fields[0].1, Value::Timestamp(Timestamp { secs: 1671134262, nanos: 0 }));
    assert_eq!(m.get_date_kind(&"epoch".to_string()), Some(DateKind::Integer));
    fields.push(("epoch_end".to_string(), Value::Timestamp(Timestamp { secs: 1671134264, nanos: 0 })));
    m.coerce_from_timestamp_if_needed(&mut fields);
    assert_value(&fields[0].1, Value::Integer(1671134262));
    assert_value(&fields[1].1, Value::Integer(1671134264));
}

#[test]
fn integer_kind_falls_back_to_string_when_text_is_not_a_number() {
    let mut m = meta(&[("d", "%Y%m%d%H%M%S-x")]);
    let mut fields = vec![("d".to_string(), bytes("20141128000000-x"))];
    m.coerce_into_timestamp_if_needed(&mut fields);
    assert!(matches!(fields[0].1, Value::Timestamp(_)));
    let mut m2 = meta(&[("d", "%Y%m%d%H%M%S-x")]);
    m2.save_date_kind("d".to_string(), DateKind::Integer);
    fields.push(("d_end".to_string(), Value::Timestamp(Timestamp { secs: 1417132800, nanos: 0 })));
    m2.coerce_from_timestamp_if_needed(&mut fields);
    assert_value(&fields[0].1, bytes("20141128000000-x"));
    assert_value(&fields[1].1, bytes("20141128000000-x"));
}

#[test]
fn unparseable_date_is_left_alone() {
    let mut m = meta(&[("ts", "%Y-%m-%d")]);
    let mut fields = vec![("ts".to_string(), bytes("yesterday"))];
    m.coerce_into_timestamp_if_needed(&mut fields);
    assert_value(&fields[0].1, bytes("yesterday"));
    assert_eq!(m.get_date_kind(&"ts".to_string()), None);
}

#[test]
fn egress_needs_both_timestamps() {
    let mut m = meta(&[("ts", "%s")]);
    m.save_date_kind("ts".to_string(), DateKind::Bytes);
    let mut fields = vec![("ts".to_string(), Value::Timestamp(Timestamp { secs: 5, nanos: 0 }))];
    m.coerce_from_timestamp_if_needed(&mut fields);
    assert_value(&fields[0].1, Value::Timestamp(Timestamp { secs: 5, nanos: 0 }));
}
