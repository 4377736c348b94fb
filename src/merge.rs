use vstd::prelude::*;
use vstd::string::*;

use crate::value::{
    fields_view, items_estimated_size, items_size, items_view, keys_unique,
    lemma_fields_view, lemma_items_view, lemma_put, lookup, model_size, put, put_field, saturated,
    Timestamp, Value, ValueModel,
};

verus! {

/// How the values of one field are combined across the events of a group.
#[derive(Clone, Copy, Debug, PartialEq, Eq, Structural)]
pub enum MergeStrategy {
    /// Keep the first value.
    Discard,
    /// Keep the last value.
    Retain,
    /// Add the numbers.
    Sum,
    /// Keep the largest number.
    Max,
    /// Keep the smallest number.
    Min,
    /// Collect every value, in arrival order.
    Array,
    /// Join byte strings with a space, or extend an array.
    Concat,
    /// Join byte strings with a newline.
    ConcatNewline,
    /// Join byte strings with no separator.
    ConcatRaw,
    /// Keep the array with the fewest elements.
    ShortestArray,
    /// Keep the array with the most elements.
    LongestArray,
    /// Collect the distinct scalars, array elements and object values.
    FlatUnique,
}

/// Why a value could not be merged.
#[derive(Clone, Copy, Debug, PartialEq, Eq, Structural)]
pub enum MergeError {
    /// The strategy cannot take a value of this type.
    IncompatibleType(MergeStrategy),
    /// A timestamp field received a value that is not a timestamp.
    ExpectedTimestamp,
}

impl MergeError {
    /// A human-readable cause.
    pub fn description(&self) -> &'static str {
        match self {
            MergeError::IncompatibleType(MergeStrategy::Sum) => "sum: expected a number",
            MergeError::IncompatibleType(MergeStrategy::Max) => "max: expected a number",
            MergeError::IncompatibleType(MergeStrategy::Min) => "min: expected a number",
            MergeError::IncompatibleType(MergeStrategy::Concat) => "concat: incompatible type",
            MergeError::IncompatibleType(MergeStrategy::ConcatNewline) => "concat_newline: expected a byte string",
            MergeError::IncompatibleType(MergeStrategy::ConcatRaw) => "concat_raw: expected a byte string",
            MergeError::IncompatibleType(MergeStrategy::ShortestArray) => "shortest_array: expected an array",
            MergeError::IncompatibleType(MergeStrategy::LongestArray) => "longest_array: expected an array",
            MergeError::IncompatibleType(_) => "incompatible type",
            MergeError::ExpectedTimestamp => "expected a timestamp",
        }
    }
}

/// The accumulator of one field of a group.
#[derive(Debug)]
pub enum ValueMerger {
    Discard(Value),
    Retain(Value),
    Sum(i64),
    Max(i64),
    Min(i64),
    Array(Vec<Value>),
    ConcatBytes(Vec<u8>),
    ConcatArray(Vec<Value>),
    ConcatNewline(Vec<u8>),
    ConcatRaw(Vec<u8>),
    ShortestArray(Vec<Value>),
    LongestArray(Vec<Value>),
    FlatUnique(Vec<Value>),
    /// The default for timestamps: the first and the last one seen.
    Timestamp(Timestamp, Timestamp),
}

/// The content of a [`ValueMerger`].
pub enum MergerModel {
    Discard(ValueModel),
    Retain(ValueModel),
    Sum(i64),
    Max(i64),
    Min(i64),
    Array(Seq<ValueModel>),
    ConcatBytes(Seq<u8>),
    ConcatArray(Seq<ValueModel>),
    ConcatNewline(Seq<u8>),
    ConcatRaw(Seq<u8>),
    ShortestArray(Seq<ValueModel>),
    LongestArray(Seq<ValueModel>),
    FlatUnique(Seq<ValueModel>),
    Timestamp(Timestamp, Timestamp),
}

impl View for ValueMerger {
    type V = MergerModel;

    open spec fn view(&self) -> MergerModel {
        match self {
            ValueMerger::Discard(v) => MergerModel::Discard(v@),
            ValueMerger::Retain(v) => MergerModel::Retain(v@),
            ValueMerger::Sum(n) => MergerModel::Sum(*n),
            ValueMerger::Max(n) => MergerModel::Max(*n),
            ValueMerger::Min(n) => MergerModel::Min(*n),
            ValueMerger::Array(s) => MergerModel::Array(items_view(s)),
            ValueMerger::ConcatBytes(b) => MergerModel::ConcatBytes(b@),
            ValueMerger::ConcatArray(s) => MergerModel::ConcatArray(items_view(s)),
            ValueMerger::ConcatNewline(b) => MergerModel::ConcatNewline(b@),
            ValueMerger::ConcatRaw(b) => MergerModel::ConcatRaw(b@),
            ValueMerger::ShortestArray(s) => MergerModel::ShortestArray(items_view(s)),
            ValueMerger::LongestArray(s) => MergerModel::LongestArray(items_view(s)),
            ValueMerger::FlatUnique(s) => MergerModel::FlatUnique(items_view(s)),
            ValueMerger::Timestamp(a, b) => MergerModel::Timestamp(*a, *b),
        }
    }
}

/// Integer addition that stops at the bounds of a signed 64-bit integer.
pub open spec fn saturating_sum(a: int, b: int) -> i64 {
    if a + b > i64::MAX {
        i64::MAX
    } else if a + b < i64::MIN {
        i64::MIN
    } else {
        (a + b) as i64
    }
}

/// The values that `flat_unique` takes from one incoming value: the elements of
/// an array, the values of an object, or the value itself.
pub open spec fn flat_candidates(v: ValueModel) -> Seq<ValueModel> {
    match v {
        ValueModel::Array(items) => items,
        ValueModel::Object(fields) => fields.map_values(|f: (Seq<char>, ValueModel)| f.1),
        _ => seq![v],
    }
}

/// `acc` followed by each of `cands` that is not already present, in order.
pub open spec fn unique_extend(acc: Seq<ValueModel>, cands: Seq<ValueModel>) -> Seq<ValueModel>
    decreases cands.len(),
{
    if cands.len() == 0 {
        acc
    } else {
        let front = unique_extend(acc, cands.drop_last());
        if front.contains(cands.last()) {
            front
        } else {
            front.push(cands.last())
        }
    }
}

/// The separator that a joining strategy puts between byte strings.
pub open spec fn joined(a: Seq<u8>, sep: Seq<u8>, b: Seq<u8>) -> Seq<u8> {
    a + sep + b
}

/// The merger that a field without a configured strategy starts with: numbers
/// are summed, timestamps keep their first and last value, anything else keeps
/// its first value.
pub open spec fn default_merger_spec(v: ValueModel) -> MergerModel {
    match v {
        ValueModel::Integer(n) => MergerModel::Sum(n),
        ValueModel::Timestamp(t) => MergerModel::Timestamp(t, t),
        _ => MergerModel::Discard(v),
    }
}

/// The merger that `strategy` starts with on a first value, or `None` where the
/// strategy cannot take that value.
pub open spec fn new_merger_spec(v: ValueModel, strategy: MergeStrategy) -> Option<MergerModel> {
    match strategy {
        MergeStrategy::Discard => Some(MergerModel::Discard(v)),
        MergeStrategy::Retain => Some(MergerModel::Retain(v)),
        MergeStrategy::Sum => match v {
            ValueModel::Integer(n) => Some(MergerModel::Sum(n)),
            _ => None,
        },
        MergeStrategy::Max => match v {
            ValueModel::Integer(n) => Some(MergerModel::Max(n)),
            _ => None,
        },
        MergeStrategy::Min => match v {
            ValueModel::Integer(n) => Some(MergerModel::Min(n)),
            _ => None,
        },
        MergeStrategy::Array => Some(MergerModel::Array(seq![v])),
        MergeStrategy::Concat => match v {
            ValueModel::Bytes(b) => Some(MergerModel::ConcatBytes(b)),
            ValueModel::Array(items) => Some(MergerModel::ConcatArray(items)),
            _ => None,
        },
        MergeStrategy::ConcatNewline => match v {
            ValueModel::Bytes(b) => Some(MergerModel::ConcatNewline(b)),
            _ => None,
        },
        MergeStrategy::ConcatRaw => match v {
            ValueModel::Bytes(b) => Some(MergerModel::ConcatRaw(b)),
            _ => None,
        },
        MergeStrategy::ShortestArray => match v {
            ValueModel::Array(items) => Some(MergerModel::ShortestArray(items)),
            _ => None,
        },
        MergeStrategy::LongestArray => match v {
            ValueModel::Array(items) => Some(MergerModel::LongestArray(items)),
            _ => None,
        },
        MergeStrategy::FlatUnique => Some(
            MergerModel::FlatUnique(unique_extend(Seq::empty(), flat_candidates(v))),
        ),
    }
}

/// The merger after it takes one more value, or `None` where it cannot take it.
pub open spec fn add_spec(m: MergerModel, v: ValueModel) -> Option<MergerModel> {
    match m {
        MergerModel::Discard(first) => Some(MergerModel::Discard(first)),
        MergerModel::Retain(_) => Some(MergerModel::Retain(v)),
        MergerModel::Sum(a) => match v {
            ValueModel::Integer(b) => Some(MergerModel::Sum(saturating_sum(a as int, b as int))),
            _ => None,
        },
        MergerModel::Max(a) => match v {
            ValueModel::Integer(b) => Some(MergerModel::Max(if b > a { b } else { a })),
            _ => None,
        },
        MergerModel::Min(a) => match v {
            ValueModel::Integer(b) => Some(MergerModel::Min(if b < a { b } else { a })),
            _ => None,
        },
        MergerModel::Array(items) => Some(MergerModel::Array(items.push(v))),
        MergerModel::ConcatBytes(a) => match v {
            ValueModel::Bytes(b) => Some(MergerModel::ConcatBytes(joined(a, seq![32u8], b))),
            _ => None,
        },
        MergerModel::ConcatArray(items) => match v {
            ValueModel::Array(more) => Some(MergerModel::ConcatArray(items + more)),
            _ => Some(MergerModel::ConcatArray(items.push(v))),
        },
        MergerModel::ConcatNewline(a) => match v {
            ValueModel::Bytes(b) => Some(MergerModel::ConcatNewline(joined(a, seq![10u8], b))),
            _ => None,
        },
        MergerModel::ConcatRaw(a) => match v {
            ValueModel::Bytes(b) => Some(MergerModel::ConcatRaw(a + b)),
            _ => None,
        },
        MergerModel::ShortestArray(cur) => match v {
            ValueModel::Array(other) => Some(
                MergerModel::ShortestArray(if other.len() < cur.len() { other } else { cur }),
            ),
            _ => None,
        },
        MergerModel::LongestArray(cur) => match v {
            ValueModel::Array(other) => Some(
                MergerModel::LongestArray(if other.len() > cur.len() { other } else { cur }),
            ),
            _ => None,
        },
        MergerModel::FlatUnique(items) => Some(
            MergerModel::FlatUnique(unique_extend(items, flat_candidates(v))),
        ),
        MergerModel::Timestamp(first, last) => match v {
            ValueModel::Timestamp(t) => Some(MergerModel::Timestamp(first, t)),
            _ => None,
        },
    }
}

/// The value that a merger writes under its own key.
pub open spec fn finalized(m: MergerModel) -> ValueModel {
    match m {
        MergerModel::Discard(v) => v,
        MergerModel::Retain(v) => v,
        MergerModel::Sum(n) => ValueModel::Integer(n),
        MergerModel::Max(n) => ValueModel::Integer(n),
        MergerModel::Min(n) => ValueModel::Integer(n),
        MergerModel::Array(items) => ValueModel::Array(items),
        MergerModel::ConcatBytes(b) => ValueModel::Bytes(b),
        MergerModel::ConcatArray(items) => ValueModel::Array(items),
        MergerModel::ConcatNewline(b) => ValueModel::Bytes(b),
        MergerModel::ConcatRaw(b) => ValueModel::Bytes(b),
        MergerModel::ShortestArray(items) => ValueModel::Array(items),
        MergerModel::LongestArray(items) => ValueModel::Array(items),
        MergerModel::FlatUnique(items) => ValueModel::Array(items),
        MergerModel::Timestamp(first, _) => ValueModel::Timestamp(first),
    }
}

/// The value that a merger writes under `<key>_end`, if any: the last timestamp.
pub open spec fn end_value(m: MergerModel) -> Option<ValueModel> {
    match m {
        MergerModel::Timestamp(_, last) => Some(ValueModel::Timestamp(last)),
        _ => None,
    }
}

/// The key under which a timestamp field's last value is written.
pub open spec fn end_key(key: Seq<char>) -> Seq<char> {
    key + "_end"@
}

/// The fields after a merger for `key` has written its result into them.
pub open spec fn finalize_into(
    fields: Seq<(Seq<char>, ValueModel)>,
    key: Seq<char>,
    m: MergerModel,
) -> Seq<(Seq<char>, ValueModel)> {
    let with_value = put(fields, key, finalized(m));
    match end_value(m) {
        Some(last) => put(with_value, end_key(key), last),
        None => with_value,
    }
}

/// Estimated number of bytes that a merger holds.
pub open spec fn merger_size(m: MergerModel) -> nat {
    match m {
        MergerModel::Discard(v) => model_size(v),
        MergerModel::Retain(v) => model_size(v),
        MergerModel::Sum(_) => 8,
        MergerModel::Max(_) => 8,
        MergerModel::Min(_) => 8,
        MergerModel::Array(items) => items_size(items),
        MergerModel::ConcatBytes(b) => b.len(),
        MergerModel::ConcatArray(items) => items_size(items),
        MergerModel::ConcatNewline(b) => b.len(),
        MergerModel::ConcatRaw(b) => b.len(),
        MergerModel::ShortestArray(items) => items_size(items),
        MergerModel::LongestArray(items) => items_size(items),
        MergerModel::FlatUnique(items) => items_size(items),
        MergerModel::Timestamp(_, _) => 24,
    }
}

} // verus!

verus! {

/// Appends `sep` (when given) and then `b` to `a`.
fn join_bytes(a: &mut Vec<u8>, sep: Option<u8>, b: Vec<u8>)
    ensures
        final(a)@ == match sep {
            Some(c) => old(a)@ + seq![c] + b@,
            None => old(a)@ + b@,
        },
{
    let mut b = b;
    match sep {
        Some(c) => a.push(c),
        None => {},
    }
    a.append(&mut b);
}

/// Whether a list holds a value with the same content as `v`.
fn contains_value(items: &Vec<Value>, v: &Value) -> (r: bool)
    ensures
        r == items_view(items).contains(v@),
{
    proof {
        lemma_items_view(items);
    }
    let mut i: usize = 0;
    while i < items.len()
        invariant
            i <= items.len(),
            items_view(items).len() == items.len(),
            forall|j: int| 0 <= j < items.len() ==> #[trigger] items_view(items)[j] == items@[j]@,
            forall|j: int| 0 <= j < i ==> items_view(items)[j] != v@,
        decreases items.len() - i,
    {
        if items[i].same_as(v) {
            assert(items_view(items)[i as int] == v@);
            return true;
        }
        i += 1;
    }
    false
}

/// Appends to `items` each of `cands` whose content is not yet present.
fn extend_unique(items: &mut Vec<Value>, cands: Vec<Value>)
    ensures
        items_view(final(items)) == unique_extend(items_view(old(items)), items_view(&cands)),
{
    let ghost orig = items_view(items);
    proof {
        lemma_items_view(&cands);
        assert(items_view(&cands).subrange(0, 0) =~= Seq::<ValueModel>::empty());
    }
    let mut i: usize = 0;
    while i < cands.len()
        invariant
            i <= cands.len(),
            items_view(&cands).len() == cands.len(),
            forall|j: int| 0 <= j < cands.len() ==> #[trigger] items_view(&cands)[j] == cands@[j]@,
            items_view(items) == unique_extend(orig, items_view(&cands).subrange(0, i as int)),
        decreases cands.len() - i,
    {
        let c = cands[i].deep_copy();
        let ghost prefix = items_view(&cands).subrange(0, i + 1);
        assert(prefix.drop_last() =~= items_view(&cands).subrange(0, i as int));
        assert(prefix.last() == c@);
        if !contains_value(items, &c) {
            let ghost before = *items;
            items.push(c);
            proof {
                lemma_items_view(&before);
                lemma_items_view(items);
                assert(items_view(items) =~= items_view(&before).push(c@));
            }
        }
        i += 1;
    }
    assert(items_view(&cands).subrange(0, cands.len() as int) =~= items_view(&cands));
}

/// The values that `flat_unique` takes from `v`.
fn flat_candidates_of(v: Value) -> (r: Vec<Value>)
    ensures
        items_view(&r) == flat_candidates(v@),
{
    match v {
        Value::Array(items) => items,
        Value::Object(fields) => {
            let mut r: Vec<Value> = Vec::new();
            let mut i: usize = 0;
            proof {
                lemma_fields_view(&fields);
            }
            while i < fields.len()
                invariant
                    i <= fields.len(),
                    r.len() == i,
                    fields_view(&fields).len() == fields.len(),
                    forall|j: int| 0 <= j < fields.len() ==> #[trigger] fields_view(&fields)[j] == (fields@[j].0@, fields@[j].1@),
                    forall|j: int| 0 <= j < i ==> #[trigger] r@[j]@ == fields@[j].1@,
                decreases fields.len() - i,
            {
                let c = fields[i].1.deep_copy();
                r.push(c);
                i += 1;
            }
            proof {
                lemma_items_view(&r);
                assert(items_view(&r) =~= fields_view(&fields).map_values(|f: (Seq<char>, ValueModel)| f.1));
            }
            r
        },
        other => {
            let r = vec![other];
            proof {
                lemma_items_view(&r);
                assert(items_view(&r) =~= seq![other@]);
            }
            r
        },
    }
}

fn saturating_add_i64(a: i64, b: i64) -> (r: i64)
    ensures
        r == saturating_sum(a as int, b as int),
{
    if b > 0 && a > i64::MAX - b {
        i64::MAX
    } else if b < 0 && a < i64::MIN - b {
        i64::MIN
    } else {
        a + b
    }
}

/// The merger that a field without a configured strategy starts with.
pub fn default_merger(v: Value) -> (r: ValueMerger)
    ensures
        r@ == default_merger_spec(v@),
{
    match v {
        Value::Integer(n) => ValueMerger::Sum(n),
        Value::Timestamp(t) => ValueMerger::Timestamp(t, t),
        other => ValueMerger::Discard(other),
    }
}

/// The merger that `strategy` starts with on a first value.
pub fn get_value_merger(v: Value, strategy: MergeStrategy) -> (r: Result<ValueMerger, MergeError>)
    ensures
        match r {
            Ok(m) => new_merger_spec(v@, strategy) == Some(m@),
            Err(e) => new_merger_spec(v@, strategy) is None && e == MergeError::IncompatibleType(strategy),
        },
{
    let ghost vm = v@;
    match strategy {
        MergeStrategy::Discard => Ok(ValueMerger::Discard(v)),
        MergeStrategy::Retain => Ok(ValueMerger::Retain(v)),
        MergeStrategy::Sum => match v {
            Value::Integer(n) => Ok(ValueMerger::Sum(n)),
            _ => Err(MergeError::IncompatibleType(strategy)),
        },
        MergeStrategy::Max => match v {
            Value::Integer(n) => Ok(ValueMerger::Max(n)),
            _ => Err(MergeError::IncompatibleType(strategy)),
        },
        MergeStrategy::Min => match v {
            Value::Integer(n) => Ok(ValueMerger::Min(n)),
            _ => Err(MergeError::IncompatibleType(strategy)),
        },
        MergeStrategy::Array => {
            let items = vec![v];
            proof {
                lemma_items_view(&items);
                assert(items_view(&items) =~= seq![vm]);
            }
            Ok(ValueMerger::Array(items))
        },
        MergeStrategy::Concat => match v {
            Value::Bytes(b) => Ok(ValueMerger::ConcatBytes(b)),
            Value::Array(items) => Ok(ValueMerger::ConcatArray(items)),
            _ => Err(MergeError::IncompatibleType(strategy)),
        },
        MergeStrategy::ConcatNewline => match v {
            Value::Bytes(b) => Ok(ValueMerger::ConcatNewline(b)),
            _ => Err(MergeError::IncompatibleType(strategy)),
        },
        MergeStrategy::ConcatRaw => match v {
            Value::Bytes(b) => Ok(ValueMerger::ConcatRaw(b)),
            _ => Err(MergeError::IncompatibleType(strategy)),
        },
        MergeStrategy::ShortestArray => match v {
            Value::Array(items) => Ok(ValueMerger::ShortestArray(items)),
            _ => Err(MergeError::IncompatibleType(strategy)),
        },
        MergeStrategy::LongestArray => match v {
            Value::Array(items) => Ok(ValueMerger::LongestArray(items)),
            _ => Err(MergeError::IncompatibleType(strategy)),
        },
        MergeStrategy::FlatUnique => {
            let mut items: Vec<Value> = Vec::new();
            proof {
                lemma_items_view(&items);
                assert(items_view(&items) =~= Seq::<ValueModel>::empty());
            }
            extend_unique(&mut items, flat_candidates_of(v));
            Ok(ValueMerger::FlatUnique(items))
        },
    }
}

impl ValueMerger {
    /// The merger after it takes `v`, and whether it could; where it could not, the
    /// merger comes back unchanged.
    fn merged_with(self, v: Value) -> (r: (ValueMerger, Result<(), MergeError>))
        ensures
            match add_spec(self@, v@) {
                Some(m) => r.1 is Ok && r.0@ == m,
                None => r.1 is Err && r.0@ == self@,
            },
    {
        let ghost vm = v@;
        match self {
            ValueMerger::Discard(first) => (ValueMerger::Discard(first), Ok(())),
            ValueMerger::Retain(_) => (ValueMerger::Retain(v), Ok(())),
            ValueMerger::Sum(a) => match v {
                Value::Integer(b) => (ValueMerger::Sum(saturating_add_i64(a, b)), Ok(())),
                _ => (ValueMerger::Sum(a), Err(MergeError::IncompatibleType(MergeStrategy::Sum))),
            },
            ValueMerger::Max(a) => match v {
                Value::Integer(b) => (ValueMerger::Max(if b > a { b } else { a }), Ok(())),
                _ => (ValueMerger::Max(a), Err(MergeError::IncompatibleType(MergeStrategy::Max))),
            },
            ValueMerger::Min(a) => match v {
                Value::Integer(b) => (ValueMerger::Min(if b < a { b } else { a }), Ok(())),
                _ => (ValueMerger::Min(a), Err(MergeError::IncompatibleType(MergeStrategy::Min))),
            },
            ValueMerger::Array(items) => {
                let mut items = items;
                let ghost before = items;
                items.push(v);
                proof {
                    lemma_items_view(&before);
                    lemma_items_view(&items);
                    assert(items_view(&items) =~= items_view(&before).push(vm));
                }
                (ValueMerger::Array(items), Ok(()))
            },
            ValueMerger::ConcatBytes(a) => match v {
                Value::Bytes(b) => {
                    let mut a = a;
                    join_bytes(&mut a, Some(32u8), b);
                    (ValueMerger::ConcatBytes(a), Ok(()))
                },
                _ => (ValueMerger::ConcatBytes(a), Err(MergeError::IncompatibleType(MergeStrategy::Concat))),
            },
            ValueMerger::ConcatArray(items) => {
                let mut items = items;
                let ghost before = items;
                proof {
                    lemma_items_view(&before);
                }
                match v {
                    Value::Array(more) => {
                        let mut more = more;
                        let ghost m0 = more;
                        proof {
                            lemma_items_view(&m0);
                        }
                        items.append(&mut more);
                        proof {
                            lemma_items_view(&items);
                            assert(items_view(&items) =~= items_view(&before) + items_view(&m0));
                        }
                    },
                    other => {
                        items.push(other);
                        proof {
                            lemma_items_view(&items);
                            assert(items_view(&items) =~= items_view(&before).push(vm));
                        }
                    },
                }
                (ValueMerger::ConcatArray(items), Ok(()))
            },
            ValueMerger::ConcatNewline(a) => match v {
                Value::Bytes(b) => {
                    let mut a = a;
                    join_bytes(&mut a, Some(10u8), b);
                    (ValueMerger::ConcatNewline(a), Ok(()))
                },
                _ => (ValueMerger::ConcatNewline(a), Err(MergeError::IncompatibleType(MergeStrategy::ConcatNewline))),
            },
            ValueMerger::ConcatRaw(a) => match v {
                Value::Bytes(b) => {
                    let mut a = a;
                    join_bytes(&mut a, None, b);
                    (ValueMerger::ConcatRaw(a), Ok(()))
                },
                _ => (ValueMerger::ConcatRaw(a), Err(MergeError::IncompatibleType(MergeStrategy::ConcatRaw))),
            },
            ValueMerger::ShortestArray(cur) => match v {
                Value::Array(other) => {
                    proof {
                        lemma_items_view(&cur);
                        lemma_items_view(&other);
                    }
                    if other.len() < cur.len() {
                        (ValueMerger::ShortestArray(other), Ok(()))
                    } else {
                        (ValueMerger::ShortestArray(cur), Ok(()))
                    }
                },
                _ => (ValueMerger::ShortestArray(cur), Err(MergeError::IncompatibleType(MergeStrategy::ShortestArray))),
            },
            ValueMerger::LongestArray(cur) => match v {
                Value::Array(other) => {
                    proof {
                        lemma_items_view(&cur);
                        lemma_items_view(&other);
                    }
                    if other.len() > cur.len() {
                        (ValueMerger::LongestArray(other), Ok(()))
                    } else {
                        (ValueMerger::LongestArray(cur), Ok(()))
                    }
                },
                _ => (ValueMerger::LongestArray(cur), Err(MergeError::IncompatibleType(MergeStrategy::LongestArray))),
            },
            ValueMerger::FlatUnique(items) => {
                let mut items = items;
                extend_unique(&mut items, flat_candidates_of(v));
                (ValueMerger::FlatUnique(items), Ok(()))
            },
            ValueMerger::Timestamp(first, last) => match v {
                Value::Timestamp(t) => (ValueMerger::Timestamp(first, t), Ok(())),
                _ => (ValueMerger::Timestamp(first, last), Err(MergeError::ExpectedTimestamp)),
            },
        }
    }

    /// Incorporates another value. Where the merger cannot take it, it stays as
    /// it was and the cause is returned.
    pub fn add(&mut self, v: Value) -> (r: Result<(), MergeError>)
        ensures
            match add_spec(old(self)@, v@) {
                Some(m) => r is Ok && final(self)@ == m,
                None => r is Err && final(self)@ == old(self)@,
            },
    {
        let mut m = ValueMerger::Sum(0);
        std::mem::swap(self, &mut m);
        let (m2, r) = m.merged_with(v);
        *self = m2;
        r
    }

    /// The merger's share of its group's byte budget.
    pub fn size_estimate(&self) -> (r: u64)
        ensures
            r == saturated(merger_size(self@) as int),
            r <= i64::MAX,
    {
        match self {
            ValueMerger::Discard(v) => v.estimated_size(),
            ValueMerger::Retain(v) => v.estimated_size(),
            ValueMerger::Sum(_) => 8,
            ValueMerger::Max(_) => 8,
            ValueMerger::Min(_) => 8,
            ValueMerger::Array(items) => items_estimated_size(items),
            ValueMerger::ConcatBytes(b) => bytes_size(b),
            ValueMerger::ConcatArray(items) => items_estimated_size(items),
            ValueMerger::ConcatNewline(b) => bytes_size(b),
            ValueMerger::ConcatRaw(b) => bytes_size(b),
            ValueMerger::ShortestArray(items) => items_estimated_size(items),
            ValueMerger::LongestArray(items) => items_estimated_size(items),
            ValueMerger::FlatUnique(items) => items_estimated_size(items),
            ValueMerger::Timestamp(_, _) => 24,
        }
    }

    /// The value the merger writes under its own key.
    pub fn merged_value(self) -> (r: (Value, Option<Value>))
        ensures
            r.0@ == finalized(self@),
            match end_value(self@) {
                Some(e) => r.1 is Some && r.1->Some_0@ == e,
                None => r.1 is None,
            },
    {
        match self {
            ValueMerger::Discard(v) => (v, None),
            ValueMerger::Retain(v) => (v, None),
            ValueMerger::Sum(n) => (Value::Integer(n), None),
            ValueMerger::Max(n) => (Value::Integer(n), None),
            ValueMerger::Min(n) => (Value::Integer(n), None),
            ValueMerger::Array(items) => (Value::Array(items), None),
            ValueMerger::ConcatBytes(b) => (Value::Bytes(b), None),
            ValueMerger::ConcatArray(items) => (Value::Array(items), None),
            ValueMerger::ConcatNewline(b) => (Value::Bytes(b), None),
            ValueMerger::ConcatRaw(b) => (Value::Bytes(b), None),
            ValueMerger::ShortestArray(items) => (Value::Array(items), None),
            ValueMerger::LongestArray(items) => (Value::Array(items), None),
            ValueMerger::FlatUnique(items) => (Value::Array(items), None),
            ValueMerger::Timestamp(first, last) => (Value::Timestamp(first), Some(Value::Timestamp(last))),
        }
    }

    /// Writes the merged value into `fields` under `key`; a timestamp field also
    /// writes its last value under `<key>_end`.
    pub fn insert_into(self, key: String, fields: &mut Vec<(String, Value)>)
        requires
            keys_unique(fields_view(old(fields))),
        ensures
            keys_unique(fields_view(final(fields))),
            fields_view(final(fields)) == finalize_into(fields_view(old(fields)), key@, self@),
    {
        let ghost m = self@;
        let end = key.clone().concat("_end");
        let (value, last) = self.merged_value();
        put_field(fields, key, value);
        match last {
            Some(l) => put_field(fields, end, l),
            None => {},
        }
    }
}

fn bytes_size(b: &Vec<u8>) -> (r: u64)
    ensures
        r == saturated(b@.len() as int),
        r <= i64::MAX,
{
    if b.len() as u64 > i64::MAX as u64 {
        i64::MAX as u64
    } else {
        b.len() as u64
    }
}

} // verus!

verus! {

/// A merger after it has been offered each of `vs` in turn; a value it cannot
/// take leaves it as it was.
pub open spec fn merge_all(m: MergerModel, vs: Seq<ValueModel>) -> MergerModel
    decreases vs.len(),
{
    if vs.len() == 0 {
        m
    } else {
        let prev = merge_all(m, vs.drop_last());
        match add_spec(prev, vs.last()) {
            Some(next) => next,
            None => prev,
        }
    }
}

/// The arithmetic sum of a sequence of integers.
pub open spec fn int_sum(ns: Seq<i64>) -> int
    decreases ns.len(),
{
    if ns.len() == 0 {
        0
    } else {
        int_sum(ns.drop_last()) + ns.last()
    }
}

/// Every running total of the sequence fits a signed 64-bit integer.
pub open spec fn sums_fit(ns: Seq<i64>) -> bool {
    forall|k: int| 0 <= k <= ns.len() ==> i64::MIN <= #[trigger] int_sum(ns.subrange(0, k)) <= i64::MAX
}

/// Byte strings joined by a single space.
pub open spec fn space_join(parts: Seq<Seq<u8>>) -> Seq<u8>
    decreases parts.len(),
{
    if parts.len() == 0 {
        Seq::empty()
    } else if parts.len() == 1 {
        parts[0]
    } else {
        space_join(parts.drop_last()) + seq![32u8] + parts.last()
    }
}

pub open spec fn as_integers(ns: Seq<i64>) -> Seq<ValueModel> {
    ns.map_values(|n: i64| ValueModel::Integer(n))
}

pub open spec fn as_bytes(parts: Seq<Seq<u8>>) -> Seq<ValueModel> {
    parts.map_values(|b: Seq<u8>| ValueModel::Bytes(b))
}

/// Finalizing a merger that was just created gives back the value it was created
/// with, for every strategy that keeps a single value (all but `array` and
/// `flat_unique`, which wrap it in an array), and for the default merger.
pub proof fn lemma_finalize_new_is_identity(v: ValueModel, strategy: MergeStrategy)
    ensures
        finalized(default_merger_spec(v)) == v,
        strategy != MergeStrategy::Array && strategy != MergeStrategy::FlatUnique
            && new_merger_spec(v, strategy) is Some ==> finalized(
            new_merger_spec(v, strategy)->Some_0,
        ) == v,
{
}

/// `sum` over integers gives their arithmetic sum, as long as no running total
/// leaves the signed 64-bit range (beyond it the sum saturates).
pub proof fn lemma_sum_is_arithmetic_sum(ns: Seq<i64>)
    requires
        ns.len() >= 1,
        sums_fit(ns),
    ensures
        merge_all(
            new_merger_spec(ValueModel::Integer(ns[0]), MergeStrategy::Sum)->Some_0,
            as_integers(ns.skip(1)),
        ) == MergerModel::Sum(int_sum(ns) as i64),
        finalized(
            merge_all(
                new_merger_spec(ValueModel::Integer(ns[0]), MergeStrategy::Sum)->Some_0,
                as_integers(ns.skip(1)),
            ),
        ) == ValueModel::Integer(int_sum(ns) as i64),
    decreases ns.len(),
{
    let m0 = new_merger_spec(ValueModel::Integer(ns[0]), MergeStrategy::Sum)->Some_0;
    assert(int_sum(ns.subrange(0, ns.len() as int)) == int_sum(ns)) by {
        assert(ns.subrange(0, ns.len() as int) =~= ns);
    }
    if ns.len() == 1 {
        assert(as_integers(ns.skip(1)) =~= Seq::<ValueModel>::empty());
        assert(ns.drop_last() =~= Seq::<i64>::empty());
    } else {
        let front = ns.drop_last();
        assert forall|k: int| 0 <= k <= front.len() implies i64::MIN <= #[trigger] int_sum(front.subrange(0, k)) <= i64::MAX by {
            assert(front.subrange(0, k) =~= ns.subrange(0, k));
        }
        lemma_sum_is_arithmetic_sum(front);
        assert(as_integers(ns.skip(1)).drop_last() =~= as_integers(front.skip(1)));
        assert(as_integers(ns.skip(1)).last() == ValueModel::Integer(ns.last()));
        assert(int_sum(front.subrange(0, front.len() as int)) == int_sum(front)) by {
            assert(front.subrange(0, front.len() as int) =~= front);
        }
    }
}

/// `array` keeps every value in arrival order.
pub proof fn lemma_array_keeps_arrival_order(first: ValueModel, rest: Seq<ValueModel>)
    ensures
        merge_all(new_merger_spec(first, MergeStrategy::Array)->Some_0, rest)
            == MergerModel::Array(seq![first] + rest),
        finalized(merge_all(new_merger_spec(first, MergeStrategy::Array)->Some_0, rest))
            == ValueModel::Array(seq![first] + rest),
    decreases rest.len(),
{
    if rest.len() > 0 {
        lemma_array_keeps_arrival_order(first, rest.drop_last());
        assert(seq![first] + rest =~= (seq![first] + rest.drop_last()).push(rest.last()));
    } else {
        assert(seq![first] + rest =~= seq![first]);
    }
}

/// `concat` over byte strings joins them with single spaces.
pub proof fn lemma_concat_joins_with_spaces(parts: Seq<Seq<u8>>)
    requires
        parts.len() >= 1,
    ensures
        merge_all(
            new_merger_spec(ValueModel::Bytes(parts[0]), MergeStrategy::Concat)->Some_0,
            as_bytes(parts.skip(1)),
        ) == MergerModel::ConcatBytes(space_join(parts)),
        finalized(
            merge_all(
                new_merger_spec(ValueModel::Bytes(parts[0]), MergeStrategy::Concat)->Some_0,
                as_bytes(parts.skip(1)),
            ),
        ) == ValueModel::Bytes(space_join(parts)),
    decreases parts.len(),
{
    if parts.len() == 1 {
        assert(as_bytes(parts.skip(1)) =~= Seq::<ValueModel>::empty());
    } else {
        let front = parts.drop_last();
        lemma_concat_joins_with_spaces(front);
        assert(as_bytes(parts.skip(1)).drop_last() =~= as_bytes(front.skip(1)));
        assert(as_bytes(parts.skip(1)).last() == ValueModel::Bytes(parts.last()));
    }
}

} // verus!

verus! {

/// Finalizing a timestamp merger writes its first instant under the key and its
/// last one under `<key>_end`.
pub proof fn lemma_finalize_timestamp_writes_both(
    fields: Seq<(Seq<char>, ValueModel)>,
    key: Seq<char>,
    first: Timestamp,
    last: Timestamp,
)
    requires
        keys_unique(fields),
    ensures
        lookup(finalize_into(fields, key, MergerModel::Timestamp(first, last)), key) == Some(
            ValueModel::Timestamp(first),
        ),
        lookup(finalize_into(fields, key, MergerModel::Timestamp(first, last)), end_key(key)) == Some(
            ValueModel::Timestamp(last),
        ),
{
    let with_value = put(fields, key, ValueModel::Timestamp(first));
    lemma_put(fields, key, ValueModel::Timestamp(first));
    assert(end_key(key).len() == key.len() + 4) by {
        reveal_strlit("_end");
    }
    lemma_put(with_value, end_key(key), ValueModel::Timestamp(last));
}

} // verus!
