use vstd::prelude::*;

use crate::dates::{path_key, path_key_of};
use crate::merge::MergeStrategy;
use crate::state::strategies_view;
use crate::value::{find_key, has_key, keys_unique, lemma_key_index, lemma_put, lookup, put};

verus! {

/// The types that a field may hold: one flag per scalar type, and, where arrays
/// or objects are possible, the kind of their elements.
#[derive(Debug)]
pub struct Kind {
    pub bytes: bool,
    pub integer: bool,
    pub float: bool,
    pub boolean: bool,
    pub timestamp: bool,
    pub regex: bool,
    pub null: bool,
    /// The field may be absent.
    pub undefined: bool,
    /// The kind of array elements, where the field may be an array.
    pub array: Option<Box<Kind>>,
    /// The kind of object values, where the field may be an object.
    pub object: Option<Box<Kind>>,
}

/// No type at all.
pub open spec fn never() -> Kind {
    Kind {
        bytes: false,
        integer: false,
        float: false,
        boolean: false,
        timestamp: false,
        regex: false,
        null: false,
        undefined: false,
        array: None,
        object: None,
    }
}

/// Only absence.
pub open spec fn undefined_kind() -> Kind {
    Kind { undefined: true, ..never() }
}

/// Arrays whose elements have kind `k`, and nothing else.
pub open spec fn array_of(k: Kind) -> Kind {
    Kind { array: Some(Box::new(k)), ..never() }
}

/// Either kind.
pub open spec fn kind_union(a: Kind, b: Kind) -> Kind
    decreases a,
{
    Kind {
        bytes: a.bytes || b.bytes,
        integer: a.integer || b.integer,
        float: a.float || b.float,
        boolean: a.boolean || b.boolean,
        timestamp: a.timestamp || b.timestamp,
        regex: a.regex || b.regex,
        null: a.null || b.null,
        undefined: a.undefined || b.undefined,
        array: opt_union(a.array, b.array),
        object: opt_union(a.object, b.object),
    }
}

/// The union of two optional element kinds.
pub open spec fn opt_union(a: Option<Box<Kind>>, b: Option<Box<Kind>>) -> Option<Box<Kind>>
    decreases a,
{
    match (a, b) {
        (Some(x), Some(y)) => Some(Box::new(kind_union(*x, *y))),
        (Some(x), None) => Some(x),
        (None, y) => y,
    }
}

/// The kind that a strategy produces from a field of kind `k`.
pub open spec fn merged_kind(k: Kind, strategy: MergeStrategy) -> Kind {
    let produced = match strategy {
        MergeStrategy::Discard | MergeStrategy::Retain => k,
        MergeStrategy::Sum | MergeStrategy::Max | MergeStrategy::Min => {
            if k.integer || k.float {
                Kind { integer: k.integer, float: k.float, ..never() }
            } else {
                undefined_kind()
            }
        },
        MergeStrategy::Array => array_of(k),
        MergeStrategy::Concat => Kind {
            bytes: k.bytes,
            array: match k.array {
                Some(e) => Some(Box::new(kind_union(*e, Kind { array: None, ..k }))),
                None => None,
            },
            ..never()
        },
        MergeStrategy::ConcatNewline | MergeStrategy::ConcatRaw => {
            if k.bytes {
                Kind { bytes: true, ..never() }
            } else {
                undefined_kind()
            }
        },
        MergeStrategy::ShortestArray | MergeStrategy::LongestArray => match k.array {
            Some(e) => array_of(*e),
            None => undefined_kind(),
        },
        MergeStrategy::FlatUnique => {
            let scalars = Kind { array: None, object: None, ..k };
            let with_arrays = match k.array {
                Some(e) => kind_union(scalars, *e),
                None => scalars,
            };
            let with_objects = match k.object {
                Some(e) => kind_union(with_arrays, *e),
                None => with_arrays,
            };
            array_of(with_objects)
        },
    };
    if k.undefined {
        Kind { undefined: true, ..produced }
    } else {
        produced
    }
}

impl Kind {
    /// A copy of the kind.
    pub fn duplicate(&self) -> (r: Kind)
        ensures
            r == *self,
        decreases self,
    {
        Kind {
            bytes: self.bytes,
            integer: self.integer,
            float: self.float,
            boolean: self.boolean,
            timestamp: self.timestamp,
            regex: self.regex,
            null: self.null,
            undefined: self.undefined,
            array: match &self.array {
                Some(e) => Some(Box::new(e.duplicate())),
                None => None,
            },
            object: match &self.object {
                Some(e) => Some(Box::new(e.duplicate())),
                None => None,
            },
        }
    }

    /// Either this kind or `other`.
    pub fn union(&self, other: &Kind) -> (r: Kind)
        ensures
            r == kind_union(*self, *other),
        decreases self,
    {
        Kind {
            bytes: self.bytes || other.bytes,
            integer: self.integer || other.integer,
            float: self.float || other.float,
            boolean: self.boolean || other.boolean,
            timestamp: self.timestamp || other.timestamp,
            regex: self.regex || other.regex,
            null: self.null || other.null,
            undefined: self.undefined || other.undefined,
            array: union_of(&self.array, &other.array),
            object: union_of(&self.object, &other.object),
        }
    }
}

/// The union of two optional element kinds.
fn union_of(a: &Option<Box<Kind>>, b: &Option<Box<Kind>>) -> (r: Option<Box<Kind>>)
    ensures
        r == opt_union(*a, *b),
    decreases a,
{
    match (a, b) {
        (Some(x), Some(y)) => Some(Box::new(x.union(y))),
        (Some(x), None) => Some(Box::new(x.duplicate())),
        (None, Some(y)) => Some(Box::new(y.duplicate())),
        (None, None) => None,
    }
}

fn never_kind() -> (r: Kind)
    ensures
        r == never(),
{
    Kind {
        bytes: false,
        integer: false,
        float: false,
        boolean: false,
        timestamp: false,
        regex: false,
        null: false,
        undefined: false,
        array: None,
        object: None,
    }
}

/// The kind that a strategy produces from a field of kind `k`.
pub fn new_kind(k: &Kind, strategy: MergeStrategy) -> (r: Kind)
    ensures
        r == merged_kind(*k, strategy),
{
    let mut produced = match strategy {
        MergeStrategy::Discard | MergeStrategy::Retain => k.duplicate(),
        MergeStrategy::Sum | MergeStrategy::Max | MergeStrategy::Min => {
            if k.integer || k.float {
                Kind { integer: k.integer, float: k.float, ..never_kind() }
            } else {
                Kind { undefined: true, ..never_kind() }
            }
        },
        MergeStrategy::Array => Kind { array: Some(Box::new(k.duplicate())), ..never_kind() },
        MergeStrategy::Concat => {
            let array = match &k.array {
                Some(e) => {
                    let mut rest = k.duplicate();
                    rest.array = None;
                    Some(Box::new(e.union(&rest)))
                },
                None => None,
            };
            Kind { bytes: k.bytes, array, ..never_kind() }
        },
        MergeStrategy::ConcatNewline | MergeStrategy::ConcatRaw => {
            if k.bytes {
                Kind { bytes: true, ..never_kind() }
            } else {
                Kind { undefined: true, ..never_kind() }
            }
        },
        MergeStrategy::ShortestArray | MergeStrategy::LongestArray => match &k.array {
            Some(e) => Kind { array: Some(Box::new(e.duplicate())), ..never_kind() },
            None => Kind { undefined: true, ..never_kind() },
        },
        MergeStrategy::FlatUnique => {
            let mut elements = k.duplicate();
            elements.array = None;
            elements.object = None;
            match &k.array {
                Some(e) => {
                    elements = elements.union(e);
                },
                None => {},
            }
            match &k.object {
                Some(e) => {
                    elements = elements.union(e);
                },
                None => {},
            }
            Kind { array: Some(Box::new(elements)), ..never_kind() }
        },
    };
    if k.undefined {
        produced.undefined = true;
    }
    produced
}

/// The kinds of the fields of an event and of its metadata.
#[derive(Debug)]
pub struct SchemaDefinition {
    pub event: Vec<(String, Kind)>,
    pub metadata: Vec<(String, Kind)>,
}

pub open spec fn kinds_of(s: Seq<(String, Kind)>) -> Seq<(Seq<char>, Kind)> {
    Seq::new(s.len(), |i: int| (s[i].0@, s[i].1))
}

/// The kind of a field: absent where the schema does not list it.
pub open spec fn kind_at(fields: Seq<(Seq<char>, Kind)>, key: Seq<char>) -> Kind {
    match lookup(fields, key) {
        Some(k) => k,
        None => undefined_kind(),
    }
}

/// Whether a strategy path names a metadata field (`%name`) rather than an event
/// field.
pub open spec fn is_metadata_path(path: Seq<char>) -> bool {
    path.len() > 0 && path[0] == '%'
}

/// The schema after one configured strategy: the field it names takes the kind
/// that the strategy produces.
pub open spec fn schema_step(
    event: Seq<(Seq<char>, Kind)>,
    metadata: Seq<(Seq<char>, Kind)>,
    path: Seq<char>,
    strategy: MergeStrategy,
) -> (Seq<(Seq<char>, Kind)>, Seq<(Seq<char>, Kind)>) {
    if is_metadata_path(path) {
        let key = path_key(path.skip(1));
        (event, put(metadata, key, merged_kind(kind_at(metadata, key), strategy)))
    } else {
        let key = path_key(path);
        (put(event, key, merged_kind(kind_at(event, key), strategy)), metadata)
    }
}

/// [`schema_step`] for each configured strategy in turn.
pub open spec fn schema_all(
    event: Seq<(Seq<char>, Kind)>,
    metadata: Seq<(Seq<char>, Kind)>,
    strategies: Seq<(Seq<char>, MergeStrategy)>,
) -> (Seq<(Seq<char>, Kind)>, Seq<(Seq<char>, Kind)>)
    decreases strategies.len(),
{
    if strategies.len() == 0 {
        (event, metadata)
    } else {
        let (e, m) = schema_all(event, metadata, strategies.drop_last());
        schema_step(e, m, strategies.last().0, strategies.last().1)
    }
}

impl SchemaDefinition {
    pub open spec fn wf(&self) -> bool {
        keys_unique(kinds_of(self.event@)) && keys_unique(kinds_of(self.metadata@))
    }
}

/// The kind of a field of a schema list.
fn kind_in(fields: &Vec<(String, Kind)>, key: &String) -> (r: Kind)
    requires
        keys_unique(kinds_of(fields@)),
    ensures
        r == kind_at(kinds_of(fields@), key@),
{
    match find_key(fields, key) {
        Some(i) => {
            proof {
                lemma_key_index(kinds_of(fields@), i as int);
            }
            fields[i].1.duplicate()
        },
        None => {
            assert(!has_key(kinds_of(fields@), key@));
            Kind { undefined: true, ..never_kind() }
        },
    }
}

/// Sets the kind of a field of a schema list.
fn put_kind(fields: &mut Vec<(String, Kind)>, key: String, k: Kind)
    requires
        keys_unique(kinds_of(old(fields)@)),
    ensures
        keys_unique(kinds_of(final(fields)@)),
        kinds_of(final(fields)@) == put(kinds_of(old(fields)@), key@, k),
{
    let ghost s = kinds_of(fields@);
    let ghost kk = key@;
    let ghost kv = k;
    match find_key(fields, &key) {
        Some(i) => {
            proof {
                lemma_key_index(s, i as int);
            }
            fields.set(i, (key, k));
            assert(kinds_of(fields@) =~= s.update(i as int, (kk, kv)));
        },
        None => {
            assert(!has_key(s, kk));
            fields.push((key, k));
            assert(kinds_of(fields@) =~= s.push((kk, kv)));
        },
    }
    proof {
        lemma_put(s, kk, kv);
    }
}

impl crate::reducer::MezmoReduceConfig {
    /// The schema of the reducer's output: the input schema, with each field that
    /// has a configured strategy taking the kind that the strategy produces.
    pub fn outputs(&self, input: SchemaDefinition) -> (r: SchemaDefinition)
        requires
            input.wf(),
        ensures
            r.wf(),
            (kinds_of(r.event@), kinds_of(r.metadata@)) == schema_all(
                kinds_of(input.event@),
                kinds_of(input.metadata@),
                strategies_view(self.merge_strategies@),
            ),
    {
        let mut schema = input;
        let ghost e0 = kinds_of(schema.event@);
        let ghost m0 = kinds_of(schema.metadata@);
        let ghost sv = strategies_view(self.merge_strategies@);
        let mut i: usize = 0;
        assert(sv.subrange(0, 0) =~= Seq::<(Seq<char>, MergeStrategy)>::empty());
        while i < self.merge_strategies.len()
            invariant
                i <= self.merge_strategies.len(),
                schema.wf(),
                sv == strategies_view(self.merge_strategies@),
                (kinds_of(schema.event@), kinds_of(schema.metadata@)) == schema_all(e0, m0, sv.subrange(0, i as int)),
            decreases self.merge_strategies.len() - i,
        {
            let ghost prefix = sv.subrange(0, i + 1);
            assert(prefix.drop_last() =~= sv.subrange(0, i as int));
            assert(prefix.last() == sv[i as int]);
            let path = self.merge_strategies[i].0.as_str();
            let strategy = self.merge_strategies[i].1;
            let len = path.unicode_len();
            if len > 0 && path.get_char(0) == '%' {
                let rest = path.substring_char(1, len);
                assert(rest@ == path@.skip(1));
                let key = path_key_of(rest);
                let current = kind_in(&schema.metadata, &key);
                let k = new_kind(&current, strategy);
                put_kind(&mut schema.metadata, key, k);
            } else {
                let key = path_key_of(path);
                let current = kind_in(&schema.event, &key);
                let k = new_kind(&current, strategy);
                put_kind(&mut schema.event, key, k);
            }
            i += 1;
        }
        assert(sv.subrange(0, i as int) =~= sv);
        schema
    }
}

} // verus!
