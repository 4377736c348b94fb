use vstd::prelude::*;
use vstd::string::*;

use crate::dates::{egress_all, MezmoMetadata};
use crate::event::{EventMetadata, LogEvent};
use crate::merge::{
    add_spec, default_merger, default_merger_spec, finalize_into, get_value_merger, merger_size,
    new_merger_spec, MergeStrategy, MergerModel, ValueMerger,
};
use crate::value::{
    fields_view, has_key, key_index, keys_unique, lemma_fields_view, lemma_key_index, lemma_put,
    lookup, put, put_field, saturated, saturating_size_add, find_key, Value, ValueModel,
};

verus! {

pub open spec fn mergers_view(s: Seq<(String, ValueMerger)>) -> Seq<(Seq<char>, MergerModel)> {
    Seq::new(s.len(), |i: int| (s[i].0@, s[i].1@))
}

pub open spec fn strategies_view(s: Seq<(String, MergeStrategy)>) -> Seq<(Seq<char>, MergeStrategy)> {
    Seq::new(s.len(), |i: int| (s[i].0@, s[i].1))
}

pub open spec fn names_view(s: Seq<String>) -> Seq<Seq<char>> {
    Seq::new(s.len(), |i: int| s[i]@)
}

/// The strategy configured for an inner field: `discard` for a `group_by` key,
/// whatever else is configured; `None` where the default applies.
pub open spec fn strategy_for(
    strategies: Seq<(Seq<char>, MergeStrategy)>,
    group_by: Seq<Seq<char>>,
    key: Seq<char>,
) -> Option<MergeStrategy> {
    if group_by.contains(key) {
        Some(MergeStrategy::Discard)
    } else {
        lookup(strategies, key)
    }
}

/// A field's merger after the field receives one more value, if it received
/// one: a new merger for a new field (none where the strategy refuses the
/// value), the merger after the value otherwise (unchanged where it refuses it).
pub open spec fn step_key(
    m: Option<MergerModel>,
    v: Option<ValueModel>,
    strategy: Option<MergeStrategy>,
) -> Option<MergerModel> {
    match v {
        None => m,
        Some(v) => match m {
            Some(m) => match add_spec(m, v) {
                Some(next) => Some(next),
                None => Some(m),
            },
            None => match strategy {
                None => Some(default_merger_spec(v)),
                Some(s) => new_merger_spec(v, s),
            },
        },
    }
}

/// The merger refuses the value: an existing merger cannot take it, or the
/// configured strategy cannot start with it.
pub open spec fn refused(m: Option<MergerModel>, v: ValueModel, strategy: Option<MergeStrategy>) -> bool {
    match m {
        Some(m) => add_spec(m, v) is None,
        None => match strategy {
            None => false,
            Some(s) => new_merger_spec(v, s) is None,
        },
    }
}

/// How many fields of an event the mergers refuse.
pub open spec fn refusals(
    mergers: Seq<(Seq<char>, MergerModel)>,
    fields: Seq<(Seq<char>, ValueModel)>,
    strategies: Seq<(Seq<char>, MergeStrategy)>,
    group_by: Seq<Seq<char>>,
) -> nat
    decreases fields.len(),
{
    if fields.len() == 0 {
        0
    } else {
        let last = fields.last();
        let before = fold_fields(mergers, fields.drop_last(), strategies, group_by);
        refusals(mergers, fields.drop_last(), strategies, group_by) + if refused(
            lookup(before, last.0),
            last.1,
            strategy_for(strategies, group_by, last.0),
        ) {
            1nat
        } else {
            0nat
        }
    }
}

/// The mergers after one field arrives.
pub open spec fn fold_field(
    mergers: Seq<(Seq<char>, MergerModel)>,
    key: Seq<char>,
    v: ValueModel,
    strategy: Option<MergeStrategy>,
) -> Seq<(Seq<char>, MergerModel)> {
    match step_key(lookup(mergers, key), Some(v), strategy) {
        Some(m) => put(mergers, key, m),
        None => mergers,
    }
}

/// The mergers after each field of an event arrives, in order.
pub open spec fn fold_fields(
    mergers: Seq<(Seq<char>, MergerModel)>,
    fields: Seq<(Seq<char>, ValueModel)>,
    strategies: Seq<(Seq<char>, MergeStrategy)>,
    group_by: Seq<Seq<char>>,
) -> Seq<(Seq<char>, MergerModel)>
    decreases fields.len(),
{
    if fields.len() == 0 {
        mergers
    } else {
        let last = fields.last();
        fold_field(
            fold_fields(mergers, fields.drop_last(), strategies, group_by),
            last.0,
            last.1,
            strategy_for(strategies, group_by, last.0),
        )
    }
}

/// The total estimated size of a list of mergers.
pub open spec fn mergers_size(s: Seq<(Seq<char>, MergerModel)>) -> nat
    decreases s.len(),
{
    if s.len() == 0 {
        0
    } else {
        mergers_size(s.drop_last()) + merger_size(s.last().1)
    }
}

/// The fields that a list of mergers writes, in order, into `fields`.
pub open spec fn finalize_all(
    fields: Seq<(Seq<char>, ValueModel)>,
    mergers: Seq<(Seq<char>, MergerModel)>,
) -> Seq<(Seq<char>, ValueModel)>
    decreases mergers.len(),
{
    if mergers.len() == 0 {
        fields
    } else {
        finalize_into(finalize_all(fields, mergers.drop_last()), mergers.last().0, mergers.last().1)
    }
}

/// Folding one field changes what that field's key looks up, and nothing else.
pub proof fn lemma_fold_field(
    mergers: Seq<(Seq<char>, MergerModel)>,
    key: Seq<char>,
    v: ValueModel,
    strategy: Option<MergeStrategy>,
)
    requires
        keys_unique(mergers),
    ensures
        keys_unique(fold_field(mergers, key, v, strategy)),
        lookup(fold_field(mergers, key, v, strategy), key) == step_key(lookup(mergers, key), Some(v), strategy),
        forall|k: Seq<char>| k != key ==> lookup(fold_field(mergers, key, v, strategy), k) == lookup(mergers, k),
{
    match step_key(lookup(mergers, key), Some(v), strategy) {
        Some(m) => lemma_put(mergers, key, m),
        None => {},
    }
}

/// How folding an event's fields changes the merger of one key: the key's merger
/// takes the event's value for that key, if any, and no other.
pub proof fn lemma_fold_fields_key(
    mergers: Seq<(Seq<char>, MergerModel)>,
    fields: Seq<(Seq<char>, ValueModel)>,
    strategies: Seq<(Seq<char>, MergeStrategy)>,
    group_by: Seq<Seq<char>>,
    key: Seq<char>,
)
    requires
        keys_unique(mergers),
        keys_unique(fields),
    ensures
        keys_unique(fold_fields(mergers, fields, strategies, group_by)),
        lookup(fold_fields(mergers, fields, strategies, group_by), key) == step_key(
            lookup(mergers, key),
            lookup(fields, key),
            strategy_for(strategies, group_by, key),
        ),
    decreases fields.len(),
{
    if fields.len() > 0 {
        let front = fields.drop_last();
        let last = fields.last();
        assert(keys_unique(front));
        lemma_fold_fields_key(mergers, front, strategies, group_by, key);
        let mid = fold_fields(mergers, front, strategies, group_by);
        lemma_fold_field(mid, last.0, last.1, strategy_for(strategies, group_by, last.0));
        lemma_key_index(fields, fields.len() - 1);
        if last.0 == key {
            assert(!has_key(front, key)) by {
                if has_key(front, key) {
                    let j = key_index(front, key);
                    assert(fields[j].0 == fields[fields.len() - 1].0);
                }
            }
        } else {
            if has_key(front, key) {
                let j = key_index(front, key);
                lemma_key_index(front, j);
                lemma_key_index(fields, j);
            } else {
                assert(!has_key(fields, key)) by {
                    if has_key(fields, key) {
                        let j = key_index(fields, key);
                        assert(front[j].0 == key);
                    }
                }
            }
        }
    }
}

/// The accumulator of one group.
#[derive(Debug)]
pub struct ReduceState {
    /// Mergers of the outer fields, all with default strategies.
    pub fields: Vec<(String, ValueMerger)>,
    /// Mergers of the fields of the inner `message` object.
    pub message_fields: Vec<(String, ValueMerger)>,
    /// When the group started, in milliseconds of a monotonic clock.
    pub started_at: u64,
    pub metadata: EventMetadata,
    /// Estimated bytes held by the inner mergers.
    pub size_estimate: u64,
}

impl ReduceState {
    pub open spec fn outer(&self) -> Seq<(Seq<char>, MergerModel)> {
        mergers_view(self.fields@)
    }

    pub open spec fn inner(&self) -> Seq<(Seq<char>, MergerModel)> {
        mergers_view(self.message_fields@)
    }

    /// Keys are unique in both merger lists, and the size estimate is the sum of
    /// the inner mergers' sizes.
    pub open spec fn wf(&self) -> bool {
        &&& keys_unique(self.outer())
        &&& keys_unique(self.inner())
        &&& self.size_estimate == saturated(mergers_size(self.inner()) as int)
    }
}

fn total_size(mergers: &Vec<(String, ValueMerger)>) -> (r: u64)
    ensures
        r == saturated(mergers_size(mergers_view(mergers@)) as int),
        r <= i64::MAX,
{
    let ghost mv = mergers_view(mergers@);
    let mut acc: u64 = 0;
    let mut i: usize = 0;
    assert(mv.subrange(0, 0) =~= Seq::<(Seq<char>, MergerModel)>::empty());
    while i < mergers.len()
        invariant
            i <= mergers.len(),
            mv == mergers_view(mergers@),
            acc <= i64::MAX,
            acc == saturated(mergers_size(mv.subrange(0, i as int)) as int),
        decreases mergers.len() - i,
    {
        let s = mergers[i].1.size_estimate();
        proof {
            let p = mv.subrange(0, i + 1);
            assert(p.drop_last() =~= mv.subrange(0, i as int));
            crate::value::lemma_saturated_add(mergers_size(p.drop_last()) as int, merger_size(p.last().1) as int);
        }
        acc = saturating_size_add(acc, s);
        i += 1;
    }
    assert(mv.subrange(0, i as int) =~= mv);
    acc
}

/// Whether `key` is one of `names`.
fn contains_name(names: &Vec<String>, key: &String) -> (r: bool)
    ensures
        r == names_view(names@).contains(key@),
{
    let mut i: usize = 0;
    while i < names.len()
        invariant
            i <= names.len(),
            forall|j: int| 0 <= j < i ==> names@[j]@ != key@,
        decreases names.len() - i,
    {
        if names[i] == *key {
            assert(names_view(names@)[i as int] == key@);
            return true;
        }
        i += 1;
    }
    assert(!names_view(names@).contains(key@)) by {
        if names_view(names@).contains(key@) {
            let j = choose|j: int| 0 <= j < names_view(names@).len() && names_view(names@)[j] == key@;
            assert(names@[j]@ == key@);
        }
    }
    false
}

/// The strategy configured for an inner field.
fn strategy_of(
    strategies: &Vec<(String, MergeStrategy)>,
    group_by: &Vec<String>,
    key: &String,
) -> (r: Option<MergeStrategy>)
    requires
        keys_unique(strategies_view(strategies@)),
    ensures
        r == strategy_for(strategies_view(strategies@), names_view(group_by@), key@),
{
    if contains_name(group_by, key) {
        return Some(MergeStrategy::Discard);
    }
    match find_key(strategies, key) {
        Some(i) => {
            proof {
                lemma_key_index(strategies_view(strategies@), i as int);
            }
            Some(strategies[i].1)
        },
        None => {
            assert(!has_key(strategies_view(strategies@), key@));
            None
        },
    }
}

/// Folds one field into a list of mergers.
fn fold_field_into(
    mergers: &mut Vec<(String, ValueMerger)>,
    key: String,
    v: Value,
    strategy: Option<MergeStrategy>,
) -> (r: Result<(), crate::merge::MergeError>)
    requires
        keys_unique(mergers_view(old(mergers)@)),
    ensures
        keys_unique(mergers_view(final(mergers)@)),
        mergers_view(final(mergers)@) == fold_field(mergers_view(old(mergers)@), key@, v@, strategy),
        r is Err == refused(lookup(mergers_view(old(mergers)@), key@), v@, strategy),
{
    let ghost mv = mergers_view(mergers@);
    let ghost kk = key@;
    let ghost vv = v@;
    match find_key(mergers, &key) {
        Some(i) => {
            proof {
                lemma_key_index(mv, i as int);
            }
            let mut m = ValueMerger::Sum(0);
            let mut entry = mergers.remove(i);
            std::mem::swap(&mut entry.1, &mut m);
            let r = m.add(v);
            mergers.insert(i, (entry.0, m));
            assert(mergers_view(mergers@) =~= mv.update(i as int, (kk, mergers@[i as int].1@)));
            proof {
                lemma_put(mv, kk, mergers@[i as int].1@);
                if r is Err {
                    assert(mergers_view(mergers@) =~= mv);
                }
            }
            r
        },
        None => {
            assert(!has_key(mv, kk));
            let created = match strategy {
                None => Ok(default_merger(v)),
                Some(s) => get_value_merger(v, s),
            };
            match created {
                Ok(m) => {
                    let ghost mm = m@;
                    mergers.push((key, m));
                    assert(mergers_view(mergers@) =~= mv.push((kk, mm)));
                    proof {
                        lemma_put(mv, kk, mm);
                    }
                    Ok(())
                },
                Err(e) => Err(e),
            }
        },
    }
}

/// Folds the fields of an event, in order, into a list of mergers; returns how
/// many values were refused.
fn fold_fields_into(
    mergers: &mut Vec<(String, ValueMerger)>,
    fields: Vec<(String, Value)>,
    strategies: &Vec<(String, MergeStrategy)>,
    group_by: &Vec<String>,
) -> (r: u64)
    requires
        keys_unique(mergers_view(old(mergers)@)),
        keys_unique(strategies_view(strategies@)),
    ensures
        keys_unique(mergers_view(final(mergers)@)),
        mergers_view(final(mergers)@) == fold_fields(
            mergers_view(old(mergers)@),
            fields_view(&fields),
            strategies_view(strategies@),
            names_view(group_by@),
        ),
        r == saturated(refusals(
            mergers_view(old(mergers)@),
            fields_view(&fields),
            strategies_view(strategies@),
            names_view(group_by@),
        ) as int),
{
    let ghost m0 = mergers_view(mergers@);
    let ghost sv = strategies_view(strategies@);
    let ghost gv = names_view(group_by@);
    let ghost orig = fields_view(&fields);
    proof {
        lemma_fields_view(&fields);
    }
    let mut fields = fields;
    let total: usize = fields.len();
    let mut n: usize = 0;
    let mut refused_count: u64 = 0;
    assert(orig.subrange(0, 0) =~= Seq::<(Seq<char>, ValueModel)>::empty());
    while fields.len() > 0
        invariant
            keys_unique(mergers_view(mergers@)),
            keys_unique(sv),
            sv == strategies_view(strategies@),
            gv == names_view(group_by@),
            n + fields.len() == total,
            orig.len() == total,
            forall|j: int| 0 <= j < fields.len() ==> (#[trigger] fields@[j]).0@ == orig[n + j].0 && fields@[j].1@ == orig[n + j].1,
            mergers_view(mergers@) == fold_fields(m0, orig.subrange(0, n as int), sv, gv),
            refused_count == saturated(refusals(m0, orig.subrange(0, n as int), sv, gv) as int),
            refused_count <= i64::MAX,
        decreases fields.len(),
    {
        let ghost prefix = orig.subrange(0, n + 1);
        assert(prefix.drop_last() =~= orig.subrange(0, n as int));
        let (k, v) = fields.remove(0);
        assert(prefix.last() == (k@, v@));
        let strategy = strategy_of(strategies, group_by, &k);
        let r = fold_field_into(mergers, k, v, strategy);
        if r.is_err() {
            refused_count = saturating_size_add(refused_count, 1);
        }
        n += 1;
    }
    assert(orig.subrange(0, n as int) =~= orig);
    refused_count
}

/// Writes each merger's result, in order, into `fields`.
fn finalize_mergers(mergers: Vec<(String, ValueMerger)>, fields: &mut Vec<(String, Value)>)
    requires
        keys_unique(fields_view(old(fields))),
    ensures
        keys_unique(fields_view(final(fields))),
        fields_view(final(fields)) == finalize_all(fields_view(old(fields)), mergers_view(mergers@)),
{
    let ghost f0 = fields_view(fields);
    let ghost orig = mergers_view(mergers@);
    let mut mergers = mergers;
    let total: usize = mergers.len();
    let mut n: usize = 0;
    assert(orig.subrange(0, 0) =~= Seq::<(Seq<char>, MergerModel)>::empty());
    while mergers.len() > 0
        invariant
            keys_unique(fields_view(fields)),
            n + mergers.len() == total,
            orig.len() == total,
            forall|j: int| 0 <= j < mergers.len() ==> (#[trigger] mergers@[j]).0@ == orig[n + j].0 && mergers@[j].1@ == orig[n + j].1,
            fields_view(fields) == finalize_all(f0, orig.subrange(0, n as int)),
        decreases mergers.len(),
    {
        let ghost prefix = orig.subrange(0, n + 1);
        assert(prefix.drop_last() =~= orig.subrange(0, n as int));
        let (k, m) = mergers.remove(0);
        assert(prefix.last() == (k@, m@));
        m.insert_into(k, fields);
        n += 1;
    }
    assert(orig.subrange(0, n as int) =~= orig);
}

/// The fields of the event that a group flushes: the outer results at the top
/// level, and, where the group has inner fields, their results under `message`
/// with the configured date fields written back in the kind they arrived as.
pub open spec fn flushed_fields(
    outer: Seq<(Seq<char>, MergerModel)>,
    inner: Seq<(Seq<char>, MergerModel)>,
    meta: MezmoMetadata,
) -> Seq<(Seq<char>, ValueModel)> {
    let top = finalize_all(Seq::empty(), outer);
    if inner.len() == 0 {
        top
    } else {
        put(
            top,
            "message"@,
            ValueModel::Object(egress_all(finalize_all(Seq::empty(), inner), meta.kinds(), meta.formats())),
        )
    }
}

impl ReduceState {
    /// A group started by its first event: outer fields take default strategies,
    /// inner fields the configured ones (`discard` for `group_by` keys).
    pub fn new(
        event: LogEvent,
        message_event: LogEvent,
        strategies: &Vec<(String, MergeStrategy)>,
        group_by: &Vec<String>,
        now: u64,
    ) -> (r: ReduceState)
        requires
            event.wf(),
            message_event.wf(),
            keys_unique(strategies_view(strategies@)),
        ensures
            r.wf(),
            r.started_at == now,
            r.metadata == event.metadata,
            r.outer() == fold_fields(Seq::empty(), event.model(), Seq::empty(), Seq::empty()),
            r.inner() == fold_fields(
                Seq::empty(),
                message_event.model(),
                strategies_view(strategies@),
                names_view(group_by@),
            ),
    {
        let no_strategies: Vec<(String, MergeStrategy)> = Vec::new();
        let no_keys: Vec<String> = Vec::new();
        let mut fields: Vec<(String, ValueMerger)> = Vec::new();
        let mut message_fields: Vec<(String, ValueMerger)> = Vec::new();
        assert(mergers_view(fields@) =~= Seq::<(Seq<char>, MergerModel)>::empty());
        assert(mergers_view(message_fields@) =~= Seq::<(Seq<char>, MergerModel)>::empty());
        assert(strategies_view(no_strategies@) =~= Seq::<(Seq<char>, MergeStrategy)>::empty());
        assert(names_view(no_keys@) =~= Seq::<Seq<char>>::empty());
        let LogEvent { fields: outer_fields, metadata } = event;
        let LogEvent { fields: inner_fields, metadata: _ } = message_event;
        fold_fields_into(&mut fields, outer_fields, &no_strategies, &no_keys);
        fold_fields_into(&mut message_fields, inner_fields, strategies, group_by);
        let size_estimate = total_size(&message_fields);
        ReduceState { fields, message_fields, started_at: now, metadata, size_estimate }
    }

    /// Folds a later event of the group; returns how many values were refused.
    pub fn add_event(
        &mut self,
        event: LogEvent,
        message_event: LogEvent,
        strategies: &Vec<(String, MergeStrategy)>,
        group_by: &Vec<String>,
    ) -> (r: u64)
        requires
            old(self).wf(),
            event.wf(),
            message_event.wf(),
            keys_unique(strategies_view(strategies@)),
        ensures
            final(self).wf(),
            final(self).started_at == old(self).started_at,
            final(self).metadata.finalizers@ == old(self).metadata.finalizers@ + event.metadata.finalizers@,
            final(self).outer() == fold_fields(old(self).outer(), event.model(), Seq::empty(), Seq::empty()),
            final(self).inner() == fold_fields(
                old(self).inner(),
                message_event.model(),
                strategies_view(strategies@),
                names_view(group_by@),
            ),
            r == saturated(
                (refusals(old(self).outer(), event.model(), Seq::empty(), Seq::empty())
                    + refusals(old(self).inner(), message_event.model(), strategies_view(strategies@), names_view(group_by@))) as int,
            ),
    {
        let no_strategies: Vec<(String, MergeStrategy)> = Vec::new();
        let no_keys: Vec<String> = Vec::new();
        assert(strategies_view(no_strategies@) =~= Seq::<(Seq<char>, MergeStrategy)>::empty());
        assert(names_view(no_keys@) =~= Seq::<Seq<char>>::empty());
        let LogEvent { fields: outer_fields, metadata } = event;
        let LogEvent { fields: inner_fields, metadata: _ } = message_event;
        self.metadata.merge(metadata);
        let a = fold_fields_into(&mut self.fields, outer_fields, &no_strategies, &no_keys);
        let b = fold_fields_into(&mut self.message_fields, inner_fields, strategies, group_by);
        self.size_estimate = total_size(&self.message_fields);
        proof {
            crate::value::lemma_saturated_add(
                refusals(old(self).outer(), event.model(), Seq::empty(), Seq::empty()) as int,
                refusals(old(self).inner(), message_event.model(), strategies_view(strategies@), names_view(group_by@)) as int,
            );
        }
        saturating_size_add(a, b)
    }

    /// Consumes the group and builds the event it stands for (see
    /// [`flushed_fields`]), with the merged metadata.
    pub fn flush(self, meta: &MezmoMetadata) -> (r: LogEvent)
        requires
            self.wf(),
            meta.wf(),
        ensures
            r.wf(),
            r.metadata == self.metadata,
            r.model() == flushed_fields(self.outer(), self.inner(), *meta),
    {
        let ghost outer = self.outer();
        let ghost inner = self.inner();
        let ReduceState { fields, message_fields, started_at: _, metadata, size_estimate: _ } = self;
        let mut top: Vec<(String, Value)> = Vec::new();
        assert(fields_view(&top) =~= Seq::<(Seq<char>, ValueModel)>::empty());
        finalize_mergers(fields, &mut top);
        if message_fields.len() > 0 {
            let mut message: Vec<(String, Value)> = Vec::new();
            assert(fields_view(&message) =~= Seq::<(Seq<char>, ValueModel)>::empty());
            finalize_mergers(message_fields, &mut message);
            meta.coerce_from_timestamp_if_needed(&mut message);
            put_field(&mut top, String::from_str("message"), Value::Object(message));
        }
        LogEvent { fields: top, metadata }
    }
}

} // verus!

verus! {

/// The inner mergers of a group after its events, in order: the first starts
/// the group, each later one is folded in.
pub open spec fn absorb_all(
    events: Seq<Seq<(Seq<char>, ValueModel)>>,
    strategies: Seq<(Seq<char>, MergeStrategy)>,
    group_by: Seq<Seq<char>>,
) -> Seq<(Seq<char>, MergerModel)>
    decreases events.len(),
{
    if events.len() == 0 {
        Seq::empty()
    } else {
        fold_fields(absorb_all(events.drop_last(), strategies, group_by), events.last(), strategies, group_by)
    }
}

/// The value of `key` in the earliest event that has the key.
pub open spec fn first_observed(events: Seq<Seq<(Seq<char>, ValueModel)>>, key: Seq<char>) -> Option<ValueModel>
    decreases events.len(),
{
    if events.len() == 0 {
        None
    } else {
        match first_observed(events.drop_last(), key) {
            Some(v) => Some(v),
            None => lookup(events.last(), key),
        }
    }
}

/// The value of `key` in the latest event that has the key.
pub open spec fn last_observed(events: Seq<Seq<(Seq<char>, ValueModel)>>, key: Seq<char>) -> Option<ValueModel>
    decreases events.len(),
{
    if events.len() == 0 {
        None
    } else {
        match lookup(events.last(), key) {
            Some(v) => Some(v),
            None => last_observed(events.drop_last(), key),
        }
    }
}

pub open spec fn all_keys_unique(events: Seq<Seq<(Seq<char>, ValueModel)>>) -> bool {
    forall|i: int| 0 <= i < events.len() ==> keys_unique(#[trigger] events[i])
}

/// A `group_by` key keeps the first value observed for it, whatever strategy is
/// configured for it: its merger is `discard` holding that value, and finalizes
/// to it.
pub proof fn lemma_group_by_keeps_first(
    events: Seq<Seq<(Seq<char>, ValueModel)>>,
    strategies: Seq<(Seq<char>, MergeStrategy)>,
    group_by: Seq<Seq<char>>,
    key: Seq<char>,
)
    requires
        group_by.contains(key),
        all_keys_unique(events),
    ensures
        keys_unique(absorb_all(events, strategies, group_by)),
        match first_observed(events, key) {
            Some(v) => lookup(absorb_all(events, strategies, group_by), key) == Some(MergerModel::Discard(v))
                && crate::merge::finalized(MergerModel::Discard(v)) == v,
            None => lookup(absorb_all(events, strategies, group_by), key) is None,
        },
    decreases events.len(),
{
    if events.len() > 0 {
        let front = events.drop_last();
        assert(all_keys_unique(front)) by {
            assert forall|i: int| 0 <= i < front.len() implies keys_unique(#[trigger] front[i]) by {
                assert(front[i] == events[i]);
            }
        }
        lemma_group_by_keeps_first(front, strategies, group_by, key);
        assert(keys_unique(events[events.len() - 1]));
        lemma_fold_fields_key(absorb_all(front, strategies, group_by), events.last(), strategies, group_by, key);
    } else {
        assert(!has_key(Seq::<(Seq<char>, MergerModel)>::empty(), key));
    }
}

/// A timestamp field with the default strategy (no configured strategy, not a
/// `group_by` key), whose observed values are all timestamps, keeps the first
/// one under its key and the last one under `<key>_end`.
pub proof fn lemma_default_timestamp_first_and_last(
    events: Seq<Seq<(Seq<char>, ValueModel)>>,
    strategies: Seq<(Seq<char>, MergeStrategy)>,
    group_by: Seq<Seq<char>>,
    key: Seq<char>,
)
    requires
        !group_by.contains(key),
        lookup(strategies, key) is None,
        all_keys_unique(events),
        forall|i: int| 0 <= i < events.len() ==> match lookup(#[trigger] events[i], key) {
            Some(v) => v is Timestamp,
            None => true,
        },
    ensures
        keys_unique(absorb_all(events, strategies, group_by)),
        match (first_observed(events, key), last_observed(events, key)) {
            (Some(ValueModel::Timestamp(f)), Some(ValueModel::Timestamp(l))) => {
                &&& lookup(absorb_all(events, strategies, group_by), key) == Some(MergerModel::Timestamp(f, l))
                &&& crate::merge::finalized(MergerModel::Timestamp(f, l)) == ValueModel::Timestamp(f)
                &&& crate::merge::end_value(MergerModel::Timestamp(f, l)) == Some(ValueModel::Timestamp(l))
            },
            (None, None) => lookup(absorb_all(events, strategies, group_by), key) is None,
            _ => false,
        },
    decreases events.len(),
{
    if events.len() > 0 {
        let front = events.drop_last();
        assert(all_keys_unique(front)) by {
            assert forall|i: int| 0 <= i < front.len() implies keys_unique(#[trigger] front[i]) by {
                assert(front[i] == events[i]);
            }
        }
        assert forall|i: int| 0 <= i < front.len() implies match lookup(#[trigger] front[i], key) {
            Some(v) => v is Timestamp,
            None => true,
        } by {
            assert(front[i] == events[i]);
        }
        lemma_default_timestamp_first_and_last(front, strategies, group_by, key);
        assert(keys_unique(events[events.len() - 1]));
        assert(match lookup(events[events.len() - 1], key) {
            Some(v) => v is Timestamp,
            None => true,
        });
        lemma_fold_fields_key(absorb_all(front, strategies, group_by), events.last(), strategies, group_by, key);
    } else {
        assert(!has_key(Seq::<(Seq<char>, MergerModel)>::empty(), key));
    }
}

} // verus!
