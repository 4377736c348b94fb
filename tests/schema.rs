use mezmo_reduce::merge::MergeStrategy;
use mezmo_reduce::reducer::MezmoReduceConfig;
use mezmo_reduce::schema::{new_kind, Kind, SchemaDefinition};

fn never() -> Kind {
    Kind {
        bytes: false,
        integer: false,
        float: false,
        boolean: false,
        timestamp: false,
        regex: false,
        null: false,
        undefined: false,
        array: None,
        object: None,
    }
}

fn find<'a>(fields: &'a [(String, Kind)], key: &str) -> &'a Kind {
    &fields.iter().find(|(k, _)| k == key).unwrap().1
}

#[test]
fn numeric_strategies_keep_only_numbers() {
    let k = Kind { integer: true, float: true, bytes: true, ..never() };
    let r = new_kind(&k, MergeStrategy::Sum);
    assert!(r.integer && r.float && !r.bytes && !r.undefined);
    let r = new_kind(&Kind { bytes: true, ..never() }, MergeStrategy::Max);
    assert!(r.undefined && !r.integer && !r.float);
}

#[test]
fn array_strategy_wraps_the_kind() {
    let r = new_kind(&Kind { bytes: true, ..never() }, MergeStrategy::Array);
    assert!(!r.bytes);
    assert!(r.array.as_ref().unwrap().bytes);
}

#[test]
fn concat_keeps_bytes_and_flattens_arrays() {
    let k = Kind { bytes: true, array: Some(Box::new(Kind { integer: true, ..never() })), ..never() };
    let r = new_kind(&k, MergeStrategy::Concat);
    assert!(r.bytes);
    let elements = r.array.as_ref().unwrap();
    assert!(elements.integer && elements.bytes);
    let r = new_kind(&Kind { integer: true, ..never() }, MergeStrategy::Concat);
    assert!(!r.bytes && r.array.is_none() && !r.integer);
}

#[test]
fn flat_unique_collects_element_kinds() {
    let k = Kind {
        boolean: true,
        array: Some(Box::new(Kind { integer: true, ..never() })),
        object: Some(Box::new(Kind { timestamp: true, ..never() })),
        ..never()
    };
    let r = new_kind(&k, MergeStrategy::FlatUnique);
    let e = r.array.as_ref().unwrap();
    assert!(e.boolean && e.integer && e.timestamp && e.array.is_none() && e.object.is_none());
}

#[test]
fn absent_fields_stay_optional() {
    let r = new_kind(&Kind { bytes: true, undefined: true, ..never() }, MergeStrategy::ConcatRaw);
    assert!(r.bytes && r.undefined);
    let r = new_kind(&Kind { integer: true, ..never() }, MergeStrategy::ShortestArray);
    assert!(r.undefined && r.array.is_none());
}

#[test]
fn outputs_apply_each_strategy() {
    let mut config = MezmoReduceConfig::default();
    config.merge_strategies = vec![
        ("count".to_string(), MergeStrategy::Sum),
        ("names".to_string(), MergeStrategy::Array),
        ("%meta".to_string(), MergeStrategy::Retain),
    ];
    let input = SchemaDefinition {
        event: vec![("count".to_string(), Kind { integer: true, ..never() }), ("other".to_string(), Kind { null: true, ..never() })],
        metadata: vec![("meta".to_string(), Kind { boolean: true, ..never() })],
    };
    let out = config.outputs(input);
    assert!(find(&out.event, "count").integer);
    assert!(find(&out.event, "other").null);
    let names = find(&out.event, "names");
    assert!(names.undefined && names.array.as_ref().unwrap().undefined);
    assert!(find(&out.metadata, "meta").boolean);
    assert_eq!(out.event.len(), 3);
}
