use vstd::prelude::*;

verus! {

/// A calendar instant in UTC: whole seconds since the Unix epoch and the
/// nanoseconds past that second.
#[derive(Clone, Copy, Debug, PartialEq, Eq, Structural)]
pub struct Timestamp {
    pub secs: i64,
    pub nanos: u32,
}

/// A value held by an event field.
#[derive(Debug)]
pub enum Value {
    Bytes(Vec<u8>),
    Integer(i64),
    Boolean(bool),
    Timestamp(Timestamp),
    Array(Vec<Value>),
    Object(Vec<(String, Value)>),
    Null,
}

/// The mathematical content of a [`Value`].
pub enum ValueModel {
    Bytes(Seq<u8>),
    Integer(i64),
    Boolean(bool),
    Timestamp(Timestamp),
    Array(Seq<ValueModel>),
    Object(Seq<(Seq<char>, ValueModel)>),
    Null,
}

impl View for Value {
    type V = ValueModel;

    open spec fn view(&self) -> ValueModel
        decreases self,
    {
        match self {
            Value::Bytes(b) => ValueModel::Bytes(b@),
            Value::Integer(i) => ValueModel::Integer(*i),
            Value::Boolean(b) => ValueModel::Boolean(*b),
            Value::Timestamp(t) => ValueModel::Timestamp(*t),
            Value::Array(items) => ValueModel::Array(items_view(items)),
            Value::Object(fields) => ValueModel::Object(fields_view(fields)),
            Value::Null => ValueModel::Null,
        }
    }
}

/// The content of each value of a list.
pub open spec fn items_view(items: &Vec<Value>) -> Seq<ValueModel>
    decreases items,
{
    Seq::new(
        items.len() as nat,
        |i: int|
            if 0 <= i < items.len() {
                items@[i].view()
            } else {
                ValueModel::Null
            },
    )
}

/// The content of each field of a list: its key and its value.
pub open spec fn fields_view(fields: &Vec<(String, Value)>) -> Seq<(Seq<char>, ValueModel)>
    decreases fields,
{
    Seq::new(
        fields.len() as nat,
        |i: int|
            if 0 <= i < fields.len() {
                (fields@[i].0@, fields@[i].1.view())
            } else {
                (Seq::empty(), ValueModel::Null)
            },
    )
}

/// Saturates a byte count at the largest signed 64-bit value.
pub open spec fn saturated(n: int) -> int {
    if n > i64::MAX {
        i64::MAX as int
    } else {
        n
    }
}

/// Estimated number of bytes that a value occupies.
pub open spec fn model_size(m: ValueModel) -> nat
    decreases m,
{
    match m {
        ValueModel::Bytes(b) => b.len(),
        ValueModel::Integer(_) => 8,
        ValueModel::Boolean(_) => 1,
        ValueModel::Timestamp(_) => 12,
        ValueModel::Array(items) => items_size(items),
        ValueModel::Object(fields) => fields_size(fields),
        ValueModel::Null => 1,
    }
}

/// Estimated number of bytes of a sequence of values.
pub open spec fn items_size(s: Seq<ValueModel>) -> nat
    decreases s,
{
    if s.len() == 0 {
        0
    } else {
        items_size(s.drop_last()) + model_size(s.last())
    }
}

/// Estimated number of bytes of the fields of an object: keys and values.
pub open spec fn fields_size(s: Seq<(Seq<char>, ValueModel)>) -> nat
    decreases s,
{
    if s.len() == 0 {
        0
    } else {
        fields_size(s.drop_last()) + s.last().0.len() + model_size(s.last().1)
    }
}

/// No key occurs twice in the field list.
pub open spec fn keys_unique<T>(s: Seq<(Seq<char>, T)>) -> bool {
    forall|i: int, j: int| 0 <= i < j < s.len() ==> s[i].0 != s[j].0
}

/// Each position of [`items_view`] holds the content of the value there.
pub proof fn lemma_items_view(items: &Vec<Value>)
    ensures
        items_view(items).len() == items.len(),
        forall|j: int| 0 <= j < items.len() ==> #[trigger] items_view(items)[j] == items@[j]@,
{
}

/// Each position of [`fields_view`] holds the key and the content of the field
/// there.
pub proof fn lemma_fields_view(fields: &Vec<(String, Value)>)
    ensures
        fields_view(fields).len() == fields.len(),
        forall|j: int|
            0 <= j < fields.len() ==> #[trigger] fields_view(fields)[j] == (fields@[j].0@, fields@[j].1@),
{
}

/// Copies a byte string.
pub fn copy_bytes(b: &Vec<u8>) -> (r: Vec<u8>)
    ensures
        r@ == b@,
{
    let mut r: Vec<u8> = Vec::new();
    let mut i: usize = 0;
    while i < b.len()
        invariant
            i <= b.len(),
            r@ == b@.subrange(0, i as int),
        decreases b.len() - i,
    {
        r.push(b[i]);
        i += 1;
    }
    assert(r@ =~= b@);
    r
}

/// Compares two byte strings.
pub fn bytes_eq(a: &Vec<u8>, b: &Vec<u8>) -> (r: bool)
    ensures
        r == (a@ == b@),
{
    if a.len() != b.len() {
        return false;
    }
    let mut i: usize = 0;
    while i < a.len()
        invariant
            i <= a.len(),
            a.len() == b.len(),
            a@.subrange(0, i as int) == b@.subrange(0, i as int),
        decreases a.len() - i,
    {
        if a[i] != b[i] {
            assert(a@[i as int] != b@[i as int]);
            return false;
        }
        assert(a@.subrange(0, i + 1) =~= a@.subrange(0, i as int).push(a@[i as int]));
        assert(b@.subrange(0, i + 1) =~= b@.subrange(0, i as int).push(b@[i as int]));
        i += 1;
    }
    assert(a@ =~= a@.subrange(0, a.len() as int));
    assert(b@ =~= b@.subrange(0, b.len() as int));
    true
}

impl Value {
    /// A copy of the value, equal in content.
    pub fn deep_copy(&self) -> (r: Value)
        ensures
            r@ == self@,
        decreases self,
    {
        match self {
            Value::Bytes(b) => Value::Bytes(copy_bytes(b)),
            Value::Integer(i) => Value::Integer(*i),
            Value::Boolean(b) => Value::Boolean(*b),
            Value::Timestamp(t) => Value::Timestamp(*t),
            Value::Array(items) => {
                Value::Array(copy_items(items))
            },
            Value::Object(fields) => {
                Value::Object(copy_fields(fields))
            },
            Value::Null => Value::Null,
        }
    }

    /// Whether two values have the same content.
    pub fn same_as(&self, other: &Value) -> (r: bool)
        ensures
            r == (self@ == other@),
        decreases self,
    {
        match (self, other) {
            (Value::Bytes(a), Value::Bytes(b)) => bytes_eq(a, b),
            (Value::Integer(a), Value::Integer(b)) => *a == *b,
            (Value::Boolean(a), Value::Boolean(b)) => *a == *b,
            (Value::Timestamp(a), Value::Timestamp(b)) => a.secs == b.secs && a.nanos == b.nanos,
            (Value::Array(a), Value::Array(b)) => items_eq(a, b),
            (Value::Object(a), Value::Object(b)) => fields_eq(a, b),
            (Value::Null, Value::Null) => true,
            _ => false,
        }
    }
}

/// Copies a list of values.
pub fn copy_items(items: &Vec<Value>) -> (r: Vec<Value>)
    ensures
        items_view(&r) == items_view(items),
    decreases items,
{
    let mut r: Vec<Value> = Vec::new();
    let mut i: usize = 0;
    while i < items.len()
        invariant
            i <= items.len(),
            r.len() == i,
            forall|j: int| 0 <= j < i ==> #[trigger] r@[j]@ == items@[j]@,
        decreases items.len() - i,
    {
        proof {
            vstd::std_specs::vec::axiom_vec_index_decreases(*items, i as int);
        }
        let c = items[i].deep_copy();
        r.push(c);
        i += 1;
    }
    proof {
        lemma_items_view(&r);
        lemma_items_view(items);
    }
    assert(items_view(&r) =~= items_view(items));
    r
}

/// Copies a list of fields.
pub fn copy_fields(fields: &Vec<(String, Value)>) -> (r: Vec<(String, Value)>)
    ensures
        fields_view(&r) == fields_view(fields),
    decreases fields,
{
    let mut r: Vec<(String, Value)> = Vec::new();
    let mut i: usize = 0;
    while i < fields.len()
        invariant
            i <= fields.len(),
            r.len() == i,
            forall|j: int| 0 <= j < i ==> #[trigger] r@[j].0@ == fields@[j].0@ && r@[j].1@ == fields@[j].1@,
        decreases fields.len() - i,
    {
        proof {
            vstd::std_specs::vec::axiom_vec_index_decreases(*fields, i as int);
        }
        let k = fields[i].0.clone();
        let v = fields[i].1.deep_copy();
        r.push((k, v));
        i += 1;
    }
    proof {
        lemma_fields_view(&r);
        lemma_fields_view(fields);
    }
    assert(fields_view(&r) =~= fields_view(fields));
    r
}

/// Whether two lists of values have the same content.
pub fn items_eq(a: &Vec<Value>, b: &Vec<Value>) -> (r: bool)
    ensures
        r == (items_view(a) == items_view(b)),
    decreases a,
{
    if a.len() != b.len() {
        assert(items_view(a).len() != items_view(b).len());
        return false;
    }
    let mut i: usize = 0;
    while i < a.len()
        invariant
            i <= a.len(),
            a.len() == b.len(),
            forall|j: int| 0 <= j < i ==> #[trigger] items_view(a)[j] == items_view(b)[j],
        decreases a.len() - i,
    {
        proof {
            vstd::std_specs::vec::axiom_vec_index_decreases(*a, i as int);
        }
        if !a[i].same_as(&b[i]) {
            assert(items_view(a)[i as int] != items_view(b)[i as int]);
            return false;
        }
        i += 1;
    }
    assert(items_view(a) =~= items_view(b));
    true
}

/// Whether two lists of fields have the same content, in the same order.
pub fn fields_eq(a: &Vec<(String, Value)>, b: &Vec<(String, Value)>) -> (r: bool)
    ensures
        r == (fields_view(a) == fields_view(b)),
    decreases a,
{
    if a.len() != b.len() {
        assert(fields_view(a).len() != fields_view(b).len());
        return false;
    }
    let mut i: usize = 0;
    while i < a.len()
        invariant
            i <= a.len(),
            a.len() == b.len(),
            forall|j: int| 0 <= j < i ==> #[trigger] fields_view(a)[j] == fields_view(b)[j],
        decreases a.len() - i,
    {
        proof {
            vstd::std_specs::vec::axiom_vec_index_decreases(*a, i as int);
        }
        let same_key = a[i].0 == b[i].0;
        if !same_key || !a[i].1.same_as(&b[i].1) {
            assert(fields_view(a)[i as int] != fields_view(b)[i as int]);
            return false;
        }
        i += 1;
    }
    assert(fields_view(a) =~= fields_view(b));
    true
}

} // verus!

verus! {

/// Adds two byte counts, saturating at the largest signed 64-bit value.
pub fn saturating_size_add(a: u64, b: u64) -> (r: u64)
    requires
        a <= i64::MAX,
        b <= i64::MAX,
    ensures
        r == saturated(a + b),
        r <= i64::MAX,
{
    let s = a + b;
    if s > i64::MAX as u64 {
        i64::MAX as u64
    } else {
        s
    }
}

/// Saturating the parts of a sum of counts and then the sum saturates the sum.
pub proof fn lemma_saturated_add(a: int, b: int)
    requires
        a >= 0,
        b >= 0,
    ensures
        saturated(saturated(a) + saturated(b)) == saturated(a + b),
{
}

impl Value {
    /// The estimated size of the value in bytes, saturated at the largest signed
    /// 64-bit value.
    pub fn estimated_size(&self) -> (r: u64)
        ensures
            r == saturated(model_size(self@) as int),
        decreases self,
    {
        match self {
            Value::Bytes(b) => {
                if b.len() as u64 > i64::MAX as u64 {
                    i64::MAX as u64
                } else {
                    b.len() as u64
                }
            },
            Value::Integer(_) => 8,
            Value::Boolean(_) => 1,
            Value::Timestamp(_) => 12,
            Value::Array(items) => items_estimated_size(items),
            Value::Object(fields) => fields_estimated_size(fields),
            Value::Null => 1,
        }
    }
}

/// The estimated size of a list of values, saturated at the largest signed 64-bit
/// value.
pub fn items_estimated_size(items: &Vec<Value>) -> (r: u64)
    ensures
        r == saturated(items_size(items_view(items)) as int),
        r <= i64::MAX,
    decreases items,
{
    let mut acc: u64 = 0;
    let mut i: usize = 0;
    proof {
        lemma_items_view(items);
        assert(items_view(items).subrange(0, 0) =~= Seq::<ValueModel>::empty());
    }
    while i < items.len()
        invariant
            i <= items.len(),
            acc <= i64::MAX,
            items_view(items).len() == items.len(),
            forall|j: int| 0 <= j < items.len() ==> #[trigger] items_view(items)[j] == items@[j]@,
            acc == saturated(items_size(items_view(items).subrange(0, i as int)) as int),
        decreases items.len() - i,
    {
        proof {
            vstd::std_specs::vec::axiom_vec_index_decreases(*items, i as int);
        }
        let vs = items[i].estimated_size();
        proof {
            let s = items_view(items).subrange(0, i + 1);
            assert(s.drop_last() =~= items_view(items).subrange(0, i as int));
            lemma_saturated_add(items_size(s.drop_last()) as int, model_size(items@[i as int]@) as int);
        }
        acc = saturating_size_add(acc, vs);
        i += 1;
    }
    assert(items_view(items).subrange(0, items.len() as int) =~= items_view(items));
    acc
}

/// The estimated size of the fields of an object, saturated at the largest signed
/// 64-bit value.
pub fn fields_estimated_size(fields: &Vec<(String, Value)>) -> (r: u64)
    ensures
        r == saturated(fields_size(fields_view(fields)) as int),
        r <= i64::MAX,
    decreases fields,
{
    let mut acc: u64 = 0;
    let mut i: usize = 0;
    proof {
        lemma_fields_view(fields);
        assert(fields_view(fields).subrange(0, 0) =~= Seq::<(Seq<char>, ValueModel)>::empty());
    }
    while i < fields.len()
        invariant
            i <= fields.len(),
            acc <= i64::MAX,
            fields_view(fields).len() == fields.len(),
            forall|j: int| 0 <= j < fields.len() ==> #[trigger] fields_view(fields)[j] == (fields@[j].0@, fields@[j].1@),
            acc == saturated(fields_size(fields_view(fields).subrange(0, i as int)) as int),
        decreases fields.len() - i,
    {
        proof {
            vstd::std_specs::vec::axiom_vec_index_decreases(*fields, i as int);
        }
        let klen: usize = fields[i].0.as_str().unicode_len();
        let ks: u64 = if klen as u64 > i64::MAX as u64 { i64::MAX as u64 } else { klen as u64 };
        let vs = fields[i].1.estimated_size();
        let step = saturating_size_add(ks, vs);
        proof {
            let s = fields_view(fields).subrange(0, i + 1);
            assert(s.drop_last() =~= fields_view(fields).subrange(0, i as int));
            lemma_saturated_add(fields@[i as int].0@.len() as int, model_size(fields@[i as int].1@) as int);
            lemma_saturated_add(fields_size(s.drop_last()) as int,
                (fields@[i as int].0@.len() + model_size(fields@[i as int].1@)) as int);
        }
        acc = saturating_size_add(acc, step);
        i += 1;
    }
    assert(fields_view(fields).subrange(0, fields.len() as int) =~= fields_view(fields));
    acc

}

} // verus!

verus! {

/// Some entry of the list has this key.
pub open spec fn has_key<T>(s: Seq<(Seq<char>, T)>, key: Seq<char>) -> bool {
    exists|i: int| 0 <= i < s.len() && s[i].0 == key
}

/// The position of an entry with this key (meaningful where [`has_key`] holds).
pub open spec fn key_index<T>(s: Seq<(Seq<char>, T)>, key: Seq<char>) -> int {
    choose|i: int| 0 <= i < s.len() && s[i].0 == key
}

/// What the list holds under `key`.
pub open spec fn lookup<T>(s: Seq<(Seq<char>, T)>, key: Seq<char>) -> Option<T> {
    if has_key(s, key) {
        Some(s[key_index(s, key)].1)
    } else {
        None
    }
}

/// The list with `key` bound to `v`: in place where the key is present, appended
/// otherwise.
pub open spec fn put<T>(s: Seq<(Seq<char>, T)>, key: Seq<char>, v: T) -> Seq<(Seq<char>, T)> {
    if has_key(s, key) {
        s.update(key_index(s, key), (key, v))
    } else {
        s.push((key, v))
    }
}

/// The list without the entry for `key`.
pub open spec fn without<T>(s: Seq<(Seq<char>, T)>, key: Seq<char>) -> Seq<(Seq<char>, T)> {
    if has_key(s, key) {
        s.remove(key_index(s, key))
    } else {
        s
    }
}

/// With unique keys, the entry at `i` is the one that its key looks up.
pub proof fn lemma_key_index<T>(s: Seq<(Seq<char>, T)>, i: int)
    requires
        keys_unique(s),
        0 <= i < s.len(),
    ensures
        has_key(s, s[i].0),
        key_index(s, s[i].0) == i,
        lookup(s, s[i].0) == Some(s[i].1),
{
    assert(has_key(s, s[i].0));
}

/// Binding a key keeps keys unique, and changes what that key alone looks up.
pub proof fn lemma_put<T>(s: Seq<(Seq<char>, T)>, key: Seq<char>, v: T)
    requires
        keys_unique(s),
    ensures
        keys_unique(put(s, key, v)),
        lookup(put(s, key, v), key) == Some(v),
        forall|k: Seq<char>| k != key ==> lookup(put(s, key, v), k) == lookup(s, k),
        forall|k: Seq<char>| has_key(put(s, key, v), k) <==> (k == key || has_key(s, k)),
{
    let t = put(s, key, v);
    if has_key(s, key) {
        let i = key_index(s, key);
        assert(keys_unique(t));
        lemma_key_index(t, i);
        assert forall|k: Seq<char>| k != key implies lookup(t, k) == lookup(s, k) by {
            if has_key(s, k) {
                let j = key_index(s, k);
                lemma_key_index(t, j);
            } else {
                assert(!has_key(t, k));
            }
        }
        assert forall|k: Seq<char>| has_key(t, k) <==> (k == key || has_key(s, k)) by {
            if has_key(s, k) {
                let j = key_index(s, k);
                assert(t[j].0 == k);
            }
        }
    } else {
        assert(keys_unique(t));
        lemma_key_index(t, s.len() as int);
        assert forall|k: Seq<char>| k != key implies lookup(t, k) == lookup(s, k) by {
            if has_key(s, k) {
                let j = key_index(s, k);
                lemma_key_index(t, j);
            } else {
                assert(!has_key(t, k));
            }
        }
        assert forall|k: Seq<char>| has_key(t, k) <==> (k == key || has_key(s, k)) by {
            if has_key(s, k) {
                let j = key_index(s, k);
                assert(t[j].0 == k);
            }
            if k == key {
                assert(t[s.len() as int].0 == k);
            }
        }
    }
}

/// The position of the entry with `key`, if there is one.
pub fn find_key<T>(s: &Vec<(String, T)>, key: &String) -> (r: Option<usize>)
    ensures
        match r {
            Some(i) => i < s.len() && s@[i as int].0@ == key@,
            None => forall|i: int| 0 <= i < s.len() ==> s@[i].0@ != key@,
        },
{
    let mut i: usize = 0;
    while i < s.len()
        invariant
            i <= s.len(),
            forall|j: int| 0 <= j < i ==> s@[j].0@ != key@,
        decreases s.len() - i,
    {
        if s[i].0 == *key {
            return Some(i);
        }
        i += 1;
    }
    None
}

/// Binds `key` to `v` in a list of fields: in place where the key is present,
/// appended otherwise.
pub fn put_field(fields: &mut Vec<(String, Value)>, key: String, v: Value)
    requires
        keys_unique(fields_view(old(fields))),
    ensures
        fields_view(final(fields)) == put(fields_view(old(fields)), key@, v@),
        keys_unique(fields_view(final(fields))),
{
    proof {
        lemma_fields_view(fields);
    }
    let ghost s = fields_view(fields);
    let ghost kv = (key@, v@);
    match find_key(fields, &key) {
        Some(i) => {
            proof {
                lemma_key_index(s, i as int);
            }
            fields.set(i, (key, v));
            proof {
                lemma_fields_view(fields);
                assert(fields_view(fields) =~= s.update(i as int, kv));
            }
        },
        None => {
            assert(!has_key(s, key@));
            fields.push((key, v));
            proof {
                lemma_fields_view(fields);
                assert(fields_view(fields) =~= s.push(kv));
            }
        },
    }
    proof {
        lemma_put(s, kv.0, kv.1);
    }
}

/// Takes the field with `key` out of a list of fields.
pub fn take_field(fields: &mut Vec<(String, Value)>, key: &String) -> (r: Option<Value>)
    requires
        keys_unique(fields_view(old(fields))),
    ensures
        fields_view(final(fields)) == without(fields_view(old(fields)), key@),
        keys_unique(fields_view(final(fields))),
        match r {
            Some(v) => lookup(fields_view(old(fields)), key@) == Some(v@),
            None => lookup(fields_view(old(fields)), key@) is None,
        },
{
    proof {
        lemma_fields_view(fields);
    }
    let ghost s = fields_view(fields);
    match find_key(fields, key) {
        Some(i) => {
            proof {
                lemma_key_index(s, i as int);
            }
            let (_, v) = fields.remove(i);
            proof {
                lemma_fields_view(fields);
                assert(fields_view(fields) =~= s.remove(i as int));
            }
            Some(v)
        },
        None => {
            assert(!has_key(s, key@));
            None
        },
    }
}

} // verus!
