use mezmo_reduce::merge::{default_merger, get_value_merger, MergeError, MergeStrategy, ValueMerger};
use mezmo_reduce::value::{Timestamp, Value};

fn bytes(s: &str) -> Value {
    Value::Bytes(s.as_bytes().to_vec())
}

fn finalize(m: ValueMerger) -> Vec<(String, Value)> {
    let mut fields = Vec::new();
    m.insert_into("k".to_string(), &mut fields);
    fields
}

fn only_value(m: ValueMerger) -> Value {
    let fields = finalize(m);
    assert_eq!(fields.len(), 1);
    assert_eq!(fields[0].0, "k");
    fields.into_iter().next().unwrap().1
}

fn assert_value(actual: &Value, expected: Value) {
    assert!(actual.same_as(&expected), "{:?} != {:?}", actual, expected);
}

#[test]
fn finalize_of_new_is_identity() {
    let cases = vec![
        (MergeStrategy::Discard, bytes("x")),
        (MergeStrategy::Retain, Value::Boolean(true)),
        (MergeStrategy::Sum, Value::Integer(5)),
        (MergeStrategy::Max, Value::Integer(-5)),
        (MergeStrategy::Min, Value::Integer(7)),
        (MergeStrategy::Concat, bytes("a b")),
        (MergeStrategy::Concat, Value::Array(vec![Value::Integer(1)])),
        (MergeStrategy::ConcatNewline, bytes("line")),
        (MergeStrategy::ConcatRaw, bytes("raw")),
        (MergeStrategy::ShortestArray, Value::Array(vec![Value::Null])),
        (MergeStrategy::LongestArray, Value::Array(vec![])),
    ];
    for (strategy, v) in cases {
        let m = get_value_merger(v.deep_copy(), strategy).unwrap();
        assert_value(&only_value(m), v);
    }
    assert_value(&only_value(default_merger(bytes("s"))), bytes("s"));
    assert_value(&only_value(default_merger(Value::Integer(3))), Value::Integer(3));
}

#[test]
fn sum_is_arithmetic_sum() {
    let mut m = get_value_merger(Value::Integer(1), MergeStrategy::Sum).unwrap();
    for n in [2, 3, -10, 100] {
        m.add(Value::Integer(n)).unwrap();
    }
    assert_value(&only_value(m), Value::Integer(96));
}

#[test]
fn sum_saturates() {
    let mut m = get_value_merger(Value::Integer(i64::MAX - 1), MergeStrategy::Sum).unwrap();
    m.add(Value::Integer(5)).unwrap();
    assert_value(&only_value(m), Value::Integer(i64::MAX));
}

#[test]
fn array_keeps_arrival_order() {
    let mut m = get_value_merger(bytes("a"), MergeStrategy::Array).unwrap();
    m.add(Value::Integer(2)).unwrap();
    m.add(bytes("c")).unwrap();
    assert_value(&only_value(m), Value::Array(vec![bytes("a"), Value::Integer(2), bytes("c")]));
}

#[test]
fn concat_joins_with_spaces() {
    let mut m = get_value_merger(bytes("a"), MergeStrategy::Concat).unwrap();
    m.add(bytes("b")).unwrap();
    m.add(bytes("c d")).unwrap();
    assert_eq!(m.add(Value::Integer(1)), Err(MergeError::IncompatibleType(MergeStrategy::Concat)));
    assert_value(&only_value(m), bytes("a b c d"));
}

#[test]
fn concat_newline_and_raw() {
    let mut m = get_value_merger(bytes("a"), MergeStrategy::ConcatNewline).unwrap();
    m.add(bytes("b")).unwrap();
    assert_value(&only_value(m), bytes("a\nb"));
    let mut m = get_value_merger(bytes("a"), MergeStrategy::ConcatRaw).unwrap();
    m.add(bytes("b")).unwrap();
    assert_value(&only_value(m), bytes("ab"));
    assert!(get_value_merger(Value::Integer(1), MergeStrategy::ConcatRaw).is_err());
}

#[test]
fn max_min_and_incompatible_values() {
    let mut m = get_value_merger(Value::Integer(2), MergeStrategy::Max).unwrap();
    assert_eq!(m.add(bytes("not number")), Err(MergeError::IncompatibleType(MergeStrategy::Max)));
    m.add(Value::Integer(3)).unwrap();
    m.add(Value::Integer(1)).unwrap();
    assert_value(&only_value(m), Value::Integer(3));
    let mut m = get_value_merger(Value::Integer(2), MergeStrategy::Min).unwrap();
    m.add(Value::Integer(-4)).unwrap();
    assert_value(&only_value(m), Value::Integer(-4));
    assert_eq!(
        get_value_merger(bytes("x"), MergeStrategy::Sum).err(),
        Some(MergeError::IncompatibleType(MergeStrategy::Sum))
    );
    assert_eq!(MergeError::IncompatibleType(MergeStrategy::Concat).description(), "concat: incompatible type");
}

#[test]
fn shortest_and_longest_arrays_keep_current_on_tie() {
    let a = Value::Array(vec![Value::Integer(1), Value::Integer(2)]);
    let b = Value::Array(vec![Value::Integer(3), Value::Integer(4)]);
    let c = Value::Array(vec![Value::Integer(5)]);
    let mut m = get_value_merger(a.deep_copy(), MergeStrategy::ShortestArray).unwrap();
    m.add(b.deep_copy()).unwrap();
    assert_value(&only_value(m), a.deep_copy());
    let mut m = get_value_merger(a.deep_copy(), MergeStrategy::ShortestArray).unwrap();
    m.add(c.deep_copy()).unwrap();
    assert_value(&only_value(m), c.deep_copy());
    let mut m = get_value_merger(c.deep_copy(), MergeStrategy::LongestArray).unwrap();
    m.add(a.deep_copy()).unwrap();
    m.add(b.deep_copy()).unwrap();
    assert_value(&only_value(m), a);
    assert!(get_value_merger(bytes("x"), MergeStrategy::LongestArray).is_err());
}

#[test]
fn flat_unique_collects_distinct_values() {
    let mut m = get_value_merger(Value::Integer(1), MergeStrategy::FlatUnique).unwrap();
    m.add(Value::Array(vec![Value::Integer(1), bytes("x"), Value::Integer(2)])).unwrap();
    m.add(Value::Object(vec![("a".to_string(), bytes("x")), ("b".to_string(), Value::Boolean(false))]))
        .unwrap();
    assert_value(
        &only_value(m),
        Value::Array(vec![Value::Integer(1), bytes("x"), Value::Integer(2), Value::Boolean(false)]),
    );
}

#[test]
fn default_timestamp_keeps_first_and_last() {
    let t = |s: i64| Timestamp { secs: s, nanos: 0 };
    let mut m = default_merger(Value::Timestamp(t(1)));
    m.add(Value::Timestamp(t(5))).unwrap();
    assert_eq!(m.add(Value::Integer(3)), Err(MergeError::ExpectedTimestamp));
    m.add(Value::Timestamp(t(3))).unwrap();
    let fields = finalize(m);
    assert_eq!(fields.len(), 2);
    assert_eq!(fields[1].0, "k_end");
    assert_value(&fields[0].1, Value::Timestamp(t(1)));
    assert_value(&fields[1].1, Value::Timestamp(t(3)));
}

#[test]
fn discard_keeps_first_and_retain_keeps_last() {
    let mut d = get_value_merger(bytes("first"), MergeStrategy::Discard).unwrap();
    d.add(bytes("second")).unwrap();
    assert_value(&only_value(d), bytes("first"));
    let mut r = get_value_merger(bytes("first"), MergeStrategy::Retain).unwrap();
    r.add(bytes("second")).unwrap();
    assert_value(&only_value(r), bytes("second"));
}

#[test]
fn size_estimates_follow_content() {
    let mut m = get_value_merger(bytes("first one"), MergeStrategy::Array).unwrap();
    assert_eq!(m.size_estimate(), 9);
    m.add(bytes("second one")).unwrap();
    assert_eq!(m.size_estimate(), 19);
    assert_eq!(get_value_merger(Value::Integer(1), MergeStrategy::Sum).unwrap().size_estimate(), 8);
    assert_eq!(Value::Object(vec![("ab".to_string(), bytes("xyz"))]).estimated_size(), 5);
}
