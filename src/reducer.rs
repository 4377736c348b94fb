use vstd::prelude::*;

use crate::dates::{
    date_formats_valid, ingress_all, parse_u64, parse_u64_spec,
    path_key, path_key_of, valid_date_format, MezmoMetadata,
};
use crate::event::{put_all, EventMetadata, LogEvent};
use crate::merge::MergeStrategy;
use crate::state::{
    flushed_fields, fold_fields, names_view, refusals, strategies_view, ReduceState,
};
use crate::value::{
    keys_unique, lemma_fields_view, lookup, saturated, saturating_size_add,
    without, Value, ValueModel,
};

verus! {

/// The per-group byte threshold where none is configured.
pub const REDUCE_BYTE_THRESHOLD_PER_STATE_DEFAULT: u64 = 102400;

/// The threshold on the bytes of all groups together where none is configured.
pub const REDUCE_BYTE_THRESHOLD_ALL_STATES_DEFAULT: u64 = 1048576;

/// How long a group may stay open, in milliseconds, where nothing is configured.
pub fn default_expire_after_ms() -> (r: u64)
    ensures
        r == 30000,
{
    30000
}

/// How often open groups are checked, in milliseconds, where nothing is
/// configured.
pub fn default_flush_period_ms() -> (r: u64)
    ensures
        r == 1000,
{
    1000
}

/// A byte threshold from its setting: the number that the setting reads as, or
/// `default` where there is no setting or it is not a number.
pub fn byte_threshold(setting: Option<&str>, default: u64) -> (r: u64)
    ensures
        r == match setting {
            Some(s) => match parse_u64_spec(s@) {
                Some(n) => n,
                None => default,
            },
            None => default,
        },
{
    match setting {
        Some(s) => match parse_u64(s) {
            Some(n) => n,
            None => default,
        },
        None => default,
    }
}

/// The configuration of a reducer.
#[derive(Debug)]
pub struct MezmoReduceConfig {
    /// Milliseconds after which an open group is flushed.
    pub expire_after_ms: u64,
    /// Milliseconds between checks for groups to flush.
    pub flush_period_ms: u64,
    /// Paths of the inner fields whose values tell groups apart.
    pub group_by: Vec<String>,
    /// Strategies for inner fields, by field name.
    pub merge_strategies: Vec<(String, MergeStrategy)>,
    /// The condition that ends a group with the event that meets it.
    pub ends_when: Option<String>,
    /// The condition that starts a new group with the event that meets it.
    pub starts_when: Option<String>,
    /// Date fields, by path, with their strftime-style formats.
    pub date_formats: Vec<(String, String)>,
}

impl Default for MezmoReduceConfig {
    fn default() -> (r: MezmoReduceConfig)
        ensures
            r.expire_after_ms == 30000,
            r.flush_period_ms == 1000,
            r.group_by@.len() == 0,
            r.merge_strategies@.len() == 0,
            r.ends_when is None,
            r.starts_when is None,
            r.date_formats@.len() == 0,
    {
        MezmoReduceConfig {
            expire_after_ms: default_expire_after_ms(),
            flush_period_ms: default_flush_period_ms(),
            group_by: Vec::new(),
            merge_strategies: Vec::new(),
            ends_when: None,
            starts_when: None,
            date_formats: Vec::new(),
        }
    }
}

/// Why a configuration cannot make a reducer.
#[derive(Clone, Copy, Debug, PartialEq, Eq, Structural)]
pub enum ReduceConfigError {
    /// Both `ends_when` and `starts_when` are given.
    ConflictingConditions,
    /// A date format is not one chrono accepts.
    InvalidDateFormat,
    /// A field is given two strategies.
    DuplicateStrategy,
}

impl ReduceConfigError {
    /// A human-readable cause.
    pub fn description(&self) -> &'static str {
        match self {
            ReduceConfigError::ConflictingConditions => "only one of `ends_when` and `starts_when` can be provided",
            ReduceConfigError::InvalidDateFormat => "a date format could not be parsed",
            ReduceConfigError::DuplicateStrategy => "a field has more than one merge strategy",
        }
    }
}

/// Counts of what a reducer has done.
#[derive(Clone, Copy, Debug, PartialEq, Eq, Structural)]
pub struct ReduceTelemetry {
    /// Events folded into a group.
    pub events_recorded: u64,
    /// Groups emitted.
    pub events_flushed: u64,
    /// Values that a merger refused.
    pub failed_updates: u64,
    /// Groups emitted because they were stale or over the per-group threshold.
    pub stale_flushes: u64,
}

pub open spec fn opt_view(o: Option<Value>) -> Option<ValueModel> {
    match o {
        Some(v) => Some(v@),
        None => None,
    }
}

/// The content of a discriminant: one slot per `group_by` key.
pub open spec fn disc_view(d: Seq<Option<Value>>) -> Seq<Option<ValueModel>> {
    Seq::new(d.len(), |i: int| opt_view(d[i]))
}

/// The discriminant of an inner event: the value of each `group_by` key, or its
/// absence.
pub open spec fn discriminant_of(
    fields: Seq<(Seq<char>, ValueModel)>,
    group_by: Seq<Seq<char>>,
) -> Seq<Option<ValueModel>> {
    Seq::new(group_by.len(), |i: int| lookup(fields, group_by[i]))
}

pub type Group = (Vec<Option<Value>>, ReduceState);

/// Some open group has the discriminant `d`.
pub open spec fn has_group(s: Seq<Group>, d: Seq<Option<ValueModel>>) -> bool {
    exists|i: int| 0 <= i < s.len() && disc_view(s[i].0@) == d
}

/// The position of the open group with discriminant `d`.
pub open spec fn group_index(s: Seq<Group>, d: Seq<Option<ValueModel>>) -> int {
    choose|i: int| 0 <= i < s.len() && disc_view(s[i].0@) == d
}

/// `e` is the event that the group `st` flushes to.
pub open spec fn flushed_ok(e: LogEvent, st: ReduceState, meta: MezmoMetadata) -> bool {
    &&& e.wf()
    &&& e.model() == flushed_fields(st.outer(), st.inner(), meta)
    &&& e.metadata == st.metadata
}

/// `st` is the group that an event starts.
pub open spec fn started_with(
    st: ReduceState,
    event: LogEvent,
    message: LogEvent,
    strategies: Seq<(Seq<char>, MergeStrategy)>,
    group_by: Seq<Seq<char>>,
    now: u64,
) -> bool {
    &&& st.wf()
    &&& st.started_at == now
    &&& st.metadata == event.metadata
    &&& st.outer() == fold_fields(Seq::empty(), event.model(), Seq::empty(), Seq::empty())
    &&& st.inner() == fold_fields(Seq::empty(), message.model(), strategies, group_by)
}

/// `st2` is the group `st` after it folds an event.
pub open spec fn folded_with(
    st2: ReduceState,
    st: ReduceState,
    event: LogEvent,
    message: LogEvent,
    strategies: Seq<(Seq<char>, MergeStrategy)>,
    group_by: Seq<Seq<char>>,
) -> bool {
    &&& st2.wf()
    &&& st2.started_at == st.started_at
    &&& st2.metadata.finalizers@ == st.metadata.finalizers@ + event.metadata.finalizers@
    &&& st2.outer() == fold_fields(st.outer(), event.model(), Seq::empty(), Seq::empty())
    &&& st2.inner() == fold_fields(st.inner(), message.model(), strategies, group_by)
}

/// The group is due: stale, or over the per-group threshold.
pub open spec fn is_due(st: ReduceState, now: u64, expire_after: u64, per_state: u64) -> bool {
    now - st.started_at >= expire_after || st.size_estimate > per_state
}

/// The open groups split, in order, into those due and those kept.
pub open spec fn split_due(s: Seq<Group>, now: u64, expire_after: u64, per_state: u64) -> (Seq<Group>, Seq<Group>)
    decreases s.len(),
{
    if s.len() == 0 {
        (Seq::empty(), Seq::empty())
    } else {
        let (due, kept) = split_due(s.drop_last(), now, expire_after, per_state);
        if is_due(s.last().1, now, expire_after, per_state) {
            (due.push(s.last()), kept)
        } else {
            (due, kept.push(s.last()))
        }
    }
}

/// The sum of the size estimates of groups.
pub open spec fn groups_size(s: Seq<Group>) -> nat
    decreases s.len(),
{
    if s.len() == 0 {
        0
    } else {
        groups_size(s.drop_last()) + s.last().1.size_estimate as nat
    }
}

/// `out` extends `old_out` by the events that the groups `gs` flush to, in order.
pub open spec fn emits(out: Seq<LogEvent>, old_out: Seq<LogEvent>, gs: Seq<Group>, meta: MezmoMetadata) -> bool {
    &&& out.len() == old_out.len() + gs.len()
    &&& out.subrange(0, old_out.len() as int) == old_out
    &&& forall|j: int| 0 <= j < gs.len() ==> flushed_ok(#[trigger] out[old_out.len() + j], gs[j].1, meta)
}

/// The reducer: its configuration and its open groups, oldest first.
#[derive(Debug)]
pub struct MezmoReduce {
    pub expire_after_ms: u64,
    pub flush_period_ms: u64,
    /// Inner field keys whose values tell groups apart.
    pub group_by: Vec<String>,
    pub merge_strategies: Vec<(String, MergeStrategy)>,
    /// Open groups, by discriminant, in the order they started.
    pub reduce_merge_states: Vec<Group>,
    pub mezmo_metadata: MezmoMetadata,
    pub byte_threshold_per_state: u64,
    pub byte_threshold_all_states: u64,
    /// The latest time seen, in milliseconds of a monotonic clock.
    pub now_ms: u64,
    pub telemetry: ReduceTelemetry,
}

impl MezmoReduce {
    pub open spec fn strategies(&self) -> Seq<(Seq<char>, MergeStrategy)> {
        strategies_view(self.merge_strategies@)
    }

    pub open spec fn keys(&self) -> Seq<Seq<char>> {
        names_view(self.group_by@)
    }

    pub open spec fn groups(&self) -> Seq<Group> {
        self.reduce_merge_states@
    }

    /// Strategies are keyed uniquely; every group is well formed and started no
    /// later than the latest time seen; groups have distinct discriminants and
    /// stand in the order they started.
    pub open spec fn wf(&self) -> bool {
        &&& keys_unique(self.strategies())
        &&& self.mezmo_metadata.wf()
        &&& groups_wf(self.groups(), self.now_ms)
        &&& self.telemetry.events_recorded <= i64::MAX
        &&& self.telemetry.events_flushed <= i64::MAX
        &&& self.telemetry.failed_updates <= i64::MAX
        &&& self.telemetry.stale_flushes <= i64::MAX
    }
}

pub open spec fn groups_wf(s: Seq<Group>, now: u64) -> bool {
    &&& forall|i: int| 0 <= i < s.len() ==> (#[trigger] s[i]).1.wf() && s[i].1.started_at <= now
    &&& forall|i: int, j: int| 0 <= i < j < s.len() ==> disc_view(s[i].0@) != disc_view(s[j].0@)
    &&& forall|i: int, j: int| 0 <= i < j < s.len() ==> s[i].1.started_at <= s[j].1.started_at
}

} // verus!

verus! {

/// The field key of each `group_by` path.
pub open spec fn keys_of_paths(paths: Seq<String>) -> Seq<Seq<char>> {
    Seq::new(paths.len(), |i: int| path_key(paths[i]@))
}

fn group_keys(paths: &Vec<String>) -> (r: Vec<String>)
    ensures
        names_view(r@) == keys_of_paths(paths@),
{
    let mut r: Vec<String> = Vec::new();
    let mut i: usize = 0;
    while i < paths.len()
        invariant
            i <= paths.len(),
            r.len() == i,
            forall|j: int| 0 <= j < i ==> #[trigger] r@[j]@ == path_key(paths@[j]@),
        decreases paths.len() - i,
    {
        r.push(path_key_of(paths[i].as_str()));
        i += 1;
    }
    assert(names_view(r@) =~= keys_of_paths(paths@));
    r
}

fn copy_strategies(s: &Vec<(String, MergeStrategy)>) -> (r: Vec<(String, MergeStrategy)>)
    ensures
        strategies_view(r@) == strategies_view(s@),
{
    let mut r: Vec<(String, MergeStrategy)> = Vec::new();
    let mut i: usize = 0;
    while i < s.len()
        invariant
            i <= s.len(),
            r.len() == i,
            forall|j: int| 0 <= j < i ==> (#[trigger] r@[j]).0@ == s@[j].0@ && r@[j].1 == s@[j].1,
        decreases s.len() - i,
    {
        r.push((s[i].0.clone(), s[i].1));
        i += 1;
    }
    assert(strategies_view(r@) =~= strategies_view(s@));
    r
}

fn copy_formats(s: &Vec<(String, String)>) -> (r: Vec<(String, String)>)
    ensures
        crate::dates::formats_view(r@) == crate::dates::formats_view(s@),
        forall|i: int| 0 <= i < s.len() ==> (#[trigger] r@[i]).1@ == s@[i].1@,
        r.len() == s.len(),
{
    let mut r: Vec<(String, String)> = Vec::new();
    let mut i: usize = 0;
    while i < s.len()
        invariant
            i <= s.len(),
            r.len() == i,
            forall|j: int| 0 <= j < i ==> (#[trigger] r@[j]).0@ == s@[j].0@ && r@[j].1@ == s@[j].1@,
        decreases s.len() - i,
    {
        r.push((s[i].0.clone(), s[i].1.clone()));
        i += 1;
    }
    assert(crate::dates::formats_view(r@) =~= crate::dates::formats_view(s@));
    r
}

/// Whether no field is given two strategies.
fn strategies_distinct(s: &Vec<(String, MergeStrategy)>) -> (r: bool)
    ensures
        r == keys_unique(strategies_view(s@)),
{
    let ghost sv = strategies_view(s@);
    let mut i: usize = 0;
    while i < s.len()
        invariant
            i <= s.len(),
            sv == strategies_view(s@),
            forall|a: int, b: int| 0 <= a < b < s.len() && a < i ==> sv[a].0 != sv[b].0,
        decreases s.len() - i,
    {
        let mut j: usize = i + 1;
        while j < s.len()
            invariant
                i < j <= s.len(),
                sv == strategies_view(s@),
                forall|a: int, b: int| 0 <= a < b < s.len() && a < i ==> sv[a].0 != sv[b].0,
                forall|b: int| i < b < j ==> sv[i as int].0 != sv[b].0,
            decreases s.len() - j,
        {
            if s[i].0 == s[j].0 {
                assert(sv[i as int].0 == sv[j as int].0);
                return false;
            }
            j += 1;
        }
        i += 1;
    }
    true
}

/// Whether two discriminants have the same content.
fn disc_eq(a: &Vec<Option<Value>>, b: &Vec<Option<Value>>) -> (r: bool)
    ensures
        r == (disc_view(a@) == disc_view(b@)),
{
    if a.len() != b.len() {
        assert(disc_view(a@).len() != disc_view(b@).len());
        return false;
    }
    let mut i: usize = 0;
    while i < a.len()
        invariant
            i <= a.len(),
            a.len() == b.len(),
            forall|j: int| 0 <= j < i ==> #[trigger] disc_view(a@)[j] == disc_view(b@)[j],
        decreases a.len() - i,
    {
        let same = match (&a[i], &b[i]) {
            (Some(x), Some(y)) => x.same_as(y),
            (None, None) => true,
            _ => false,
        };
        if !same {
            assert(disc_view(a@)[i as int] != disc_view(b@)[i as int]);
            return false;
        }
        i += 1;
    }
    assert(disc_view(a@) =~= disc_view(b@));
    true
}

/// The discriminant of an inner event.
fn discriminant(message: &LogEvent, group_by: &Vec<String>) -> (r: Vec<Option<Value>>)
    requires
        message.wf(),
    ensures
        disc_view(r@) == discriminant_of(message.model(), names_view(group_by@)),
{
    let mut r: Vec<Option<Value>> = Vec::new();
    let mut i: usize = 0;
    while i < group_by.len()
        invariant
            i <= group_by.len(),
            r.len() == i,
            message.wf(),
            forall|j: int| 0 <= j < i ==> opt_view(#[trigger] r@[j]) == lookup(message.model(), group_by@[j]@),
        decreases group_by.len() - i,
    {
        let slot = match message.get(&group_by[i]) {
            Some(v) => Some(v.deep_copy()),
            None => None,
        };
        r.push(slot);
        i += 1;
    }
    assert(disc_view(r@) =~= discriminant_of(message.model(), names_view(group_by@)));
    r
}

impl MezmoReduce {
    /// A reducer with no open groups, or the reason the configuration cannot make
    /// one. The byte thresholds are given apart from the configuration.
    pub fn new(
        config: &MezmoReduceConfig,
        byte_threshold_per_state: u64,
        byte_threshold_all_states: u64,
        now: u64,
    ) -> (r: Result<MezmoReduce, ReduceConfigError>)
        ensures
            (config.ends_when is Some && config.starts_when is Some) ==> r == Err::<MezmoReduce, ReduceConfigError>(
                ReduceConfigError::ConflictingConditions,
            ),
            !(config.ends_when is Some && config.starts_when is Some) && !(forall|i: int|
                0 <= i < config.date_formats.len() ==> valid_date_format(
                    #[trigger] config.date_formats@[i].1@,
                )) ==> r == Err::<MezmoReduce, ReduceConfigError>(ReduceConfigError::InvalidDateFormat),
            !(config.ends_when is Some && config.starts_when is Some) && (forall|i: int|
                0 <= i < config.date_formats.len() ==> valid_date_format(
                    #[trigger] config.date_formats@[i].1@,
                )) && !keys_unique(strategies_view(config.merge_strategies@)) ==> r == Err::<MezmoReduce, ReduceConfigError>(
                ReduceConfigError::DuplicateStrategy,
            ),
            r is Ok <==> !(config.ends_when is Some && config.starts_when is Some) && (forall|i: int|
                0 <= i < config.date_formats.len() ==> valid_date_format(
                    #[trigger] config.date_formats@[i].1@,
                )) && keys_unique(strategies_view(config.merge_strategies@)),
            r matches Ok(m) ==> {
                &&& m.wf()
                &&& m.groups().len() == 0
                &&& m.expire_after_ms == config.expire_after_ms
                &&& m.flush_period_ms == config.flush_period_ms
                &&& m.keys() == keys_of_paths(config.group_by@)
                &&& m.strategies() == strategies_view(config.merge_strategies@)
                &&& m.mezmo_metadata.formats() == crate::dates::formats_view(config.date_formats@)
                &&& m.mezmo_metadata.kinds().len() == 0
                &&& m.byte_threshold_per_state == byte_threshold_per_state
                &&& m.byte_threshold_all_states == byte_threshold_all_states
                &&& m.now_ms == now
                &&& m.telemetry == ReduceTelemetry {
                    events_recorded: 0,
                    events_flushed: 0,
                    failed_updates: 0,
                    stale_flushes: 0,
                }
            },
    {
        if config.ends_when.is_some() && config.starts_when.is_some() {
            return Err(ReduceConfigError::ConflictingConditions);
        }
        if !date_formats_valid(&config.date_formats) {
            return Err(ReduceConfigError::InvalidDateFormat);
        }
        if !strategies_distinct(&config.merge_strategies) {
            return Err(ReduceConfigError::DuplicateStrategy);
        }
        let merge_strategies = copy_strategies(&config.merge_strategies);
        let mezmo_metadata = MezmoMetadata::new(copy_formats(&config.date_formats));
        let r = MezmoReduce {
            expire_after_ms: config.expire_after_ms,
            flush_period_ms: config.flush_period_ms,
            group_by: group_keys(&config.group_by),
            merge_strategies,
            reduce_merge_states: Vec::new(),
            mezmo_metadata,
            byte_threshold_per_state,
            byte_threshold_all_states,
            now_ms: now,
            telemetry: ReduceTelemetry {
                events_recorded: 0,
                events_flushed: 0,
                failed_updates: 0,
                stale_flushes: 0,
            },
        };
        Ok(r)
    }

    /// The position of the open group with discriminant `d`, if any.
    fn find_group(&self, d: &Vec<Option<Value>>) -> (r: Option<usize>)
        requires
            groups_wf(self.groups(), self.now_ms),
        ensures
            match r {
                Some(i) => i < self.groups().len() && has_group(self.groups(), disc_view(d@))
                    && group_index(self.groups(), disc_view(d@)) == i,
                None => !has_group(self.groups(), disc_view(d@)),
            },
    {
        let mut i: usize = 0;
        while i < self.reduce_merge_states.len()
            invariant
                i <= self.groups().len(),
                groups_wf(self.groups(), self.now_ms),
                forall|j: int| 0 <= j < i ==> disc_view(#[trigger] self.groups()[j].0@) != disc_view(d@),
            decreases self.reduce_merge_states.len() - i,
        {
            if disc_eq(&self.reduce_merge_states[i].0, d) {
                assert(has_group(self.groups(), disc_view(d@)));
                let ghost k = group_index(self.groups(), disc_view(d@));
                assert(0 <= k < self.groups().len() && disc_view(self.groups()[k].0@) == disc_view(d@));
                assert(k == i as int) by {
                    if k < i {
                        assert(disc_view(self.groups()[k].0@) != disc_view(d@));
                    } else if k > i {
                        assert(disc_view(self.groups()[i as int].0@) != disc_view(self.groups()[k].0@));
                    }
                }
                return Some(i);
            }
            i += 1;
        }
        None
    }

    /// Takes the inner `message` object out of `event` (which keeps everything
    /// else) and returns it as an event of its own, with the configured date
    /// fields read as timestamps. A `message` that is not an object is dropped and
    /// the inner event is empty.
    pub fn extract_message_event(&mut self, event: &mut LogEvent) -> (r: LogEvent)
        requires
            old(self).wf(),
            old(event).wf(),
        ensures
            final(self).wf(),
            r.wf(),
            final(event).wf(),
            final(event).model() == without(old(event).model(), "message"@),
            final(event).metadata == old(event).metadata,
            r.metadata.finalizers@.len() == 0,
            ({
                let inner = match lookup(old(event).model(), "message"@) {
                    Some(ValueModel::Object(fields)) => put_all(Seq::empty(), fields),
                    _ => Seq::empty(),
                };
                let (fields, kinds) = ingress_all(
                    inner,
                    old(self).mezmo_metadata.kinds(),
                    old(self).mezmo_metadata.formats(),
                );
                r.model() == fields && final(self).mezmo_metadata.kinds() == kinds
            }),
            final(self).mezmo_metadata.formats() == old(self).mezmo_metadata.formats(),
            final(self).groups() == old(self).groups(),
            final(self).now_ms == old(self).now_ms,
            final(self).telemetry == old(self).telemetry,
            final(self).group_by == old(self).group_by,
            final(self).merge_strategies == old(self).merge_strategies,
            final(self).expire_after_ms == old(self).expire_after_ms,
            final(self).byte_threshold_per_state == old(self).byte_threshold_per_state,
            final(self).byte_threshold_all_states == old(self).byte_threshold_all_states,
    {
        let key = String::from_str("message");
        let mut message_event = match event.remove(&key) {
            Some(Value::Object(fields)) => {
                proof {
                    lemma_fields_view(&fields);
                }
                LogEvent::from_fields(fields, EventMetadata::new())
            },
            _ => {
                let empty: Vec<(String, Value)> = Vec::new();
                proof {
                    lemma_fields_view(&empty);
                }
                LogEvent::from_fields(empty, EventMetadata::new())
            },
        };
        self.mezmo_metadata.coerce_into_timestamp_if_needed(&mut message_event.fields);
        message_event
    }
}

} // verus!

verus! {

proof fn lemma_groups_wf_later(s: Seq<Group>, now: u64, later: u64)
    requires
        groups_wf(s, now),
        now <= later,
    ensures
        groups_wf(s, later),
{
}

proof fn lemma_groups_wf_remove(s: Seq<Group>, i: int, now: u64)
    requires
        groups_wf(s, now),
        0 <= i < s.len(),
    ensures
        groups_wf(s.remove(i), now),
        forall|j: int| 0 <= j < s.remove(i).len() ==> disc_view(#[trigger] s.remove(i)[j].0@) != disc_view(s[i].0@),
{
    let t = s.remove(i);
    assert forall|a: int, b: int| 0 <= a < b < t.len() implies disc_view(t[a].0@) != disc_view(t[b].0@)
        && t[a].1.started_at <= t[b].1.started_at by {
        let a0 = if a < i { a } else { a + 1 };
        let b0 = if b < i { b } else { b + 1 };
        assert(t[a] == s[a0] && t[b] == s[b0]);
    }
    assert forall|j: int| 0 <= j < t.len() implies disc_view(#[trigger] t[j].0@) != disc_view(s[i].0@) by {
        let j0 = if j < i { j } else { j + 1 };
        assert(t[j] == s[j0]);
    }
}

proof fn lemma_groups_wf_push(s: Seq<Group>, g: Group, now: u64, later: u64)
    requires
        groups_wf(s, now),
        now <= later,
        g.1.wf(),
        g.1.started_at == later,
        forall|j: int| 0 <= j < s.len() ==> disc_view(#[trigger] s[j].0@) != disc_view(g.0@),
    ensures
        groups_wf(s.push(g), later),
{
    let t = s.push(g);
    assert forall|a: int, b: int| 0 <= a < b < t.len() implies disc_view(t[a].0@) != disc_view(t[b].0@)
        && t[a].1.started_at <= t[b].1.started_at by {
        if b == s.len() {
            assert(t[a] == s[a]);
        }
    }
}

/// What [`MezmoReduce::route`] does: the reducer `old_self` becomes `new_self`
/// and the output `old_out` becomes `out`.
pub open spec fn routed(
    old_self: MezmoReduce,
    new_self: MezmoReduce,
    old_out: Seq<LogEvent>,
    out: Seq<LogEvent>,
    event: LogEvent,
    message_event: LogEvent,
    starts_here: bool,
    ends_here: bool,
    now: u64,
) -> bool {
    &&& new_self.wf()
    &&& new_self.now_ms == now
    &&& new_self.mezmo_metadata == old_self.mezmo_metadata
    &&& new_self.group_by == old_self.group_by
    &&& new_self.merge_strategies == old_self.merge_strategies
    &&& new_self.expire_after_ms == old_self.expire_after_ms
    &&& new_self.flush_period_ms == old_self.flush_period_ms
    &&& new_self.byte_threshold_per_state == old_self.byte_threshold_per_state
    &&& new_self.byte_threshold_all_states == old_self.byte_threshold_all_states
    &&& new_self.telemetry.events_recorded == saturated(old_self.telemetry.events_recorded + 1)
    &&& new_self.telemetry.stale_flushes == old_self.telemetry.stale_flushes
    &&& new_self.telemetry.events_flushed == saturated(
        old_self.telemetry.events_flushed + out.len() - old_out.len(),
    )
    &&& ({
        let s = old_self.groups();
        let s2 = new_self.groups();
        let d = discriminant_of(message_event.model(), old_self.keys());
        let sv = old_self.strategies();
        let gv = old_self.keys();
        let meta = old_self.mezmo_metadata;
        let i = group_index(s, d);
        if starts_here {
            &&& s2.len() >= 1
            &&& disc_view(s2.last().0@) == d
            &&& started_with(s2.last().1, event, message_event, sv, gv, now)
            &&& new_self.telemetry.failed_updates == old_self.telemetry.failed_updates
            &&& if has_group(s, d) {
                &&& s2.drop_last() == s.remove(i)
                &&& out.len() == old_out.len() + 1
                &&& out.drop_last() == old_out
                &&& flushed_ok(out.last(), s[i].1, meta)
            } else {
                &&& s2.drop_last() == s
                &&& out == old_out
            }
        } else if ends_here {
            &&& out.len() == old_out.len() + 1
            &&& out.drop_last() == old_out
            &&& out.last().wf()
            &&& if has_group(s, d) {
                &&& s2 == s.remove(i)
                &&& out.last().model() == flushed_fields(
                    fold_fields(s[i].1.outer(), event.model(), Seq::empty(), Seq::empty()),
                    fold_fields(s[i].1.inner(), message_event.model(), sv, gv),
                    meta,
                )
                &&& out.last().metadata.finalizers@ == s[i].1.metadata.finalizers@ + event.metadata.finalizers@
                &&& new_self.telemetry.failed_updates == saturated(
                    old_self.telemetry.failed_updates + saturated(
                        (refusals(s[i].1.outer(), event.model(), Seq::empty(), Seq::empty())
                            + refusals(s[i].1.inner(), message_event.model(), sv, gv)) as int,
                    ),
                )
            } else {
                &&& s2 == s
                &&& out.last().model() == flushed_fields(
                    fold_fields(Seq::empty(), event.model(), Seq::empty(), Seq::empty()),
                    fold_fields(Seq::empty(), message_event.model(), sv, gv),
                    meta,
                )
                &&& out.last().metadata == event.metadata
                &&& new_self.telemetry.failed_updates == old_self.telemetry.failed_updates
            }
        } else {
            &&& out == old_out
            &&& if has_group(s, d) {
                &&& s2.len() == s.len()
                &&& forall|j: int| 0 <= j < s.len() && j != i ==> s2[j] == s[j]
                &&& s2[i].0 == s[i].0
                &&& folded_with(s2[i].1, s[i].1, event, message_event, sv, gv)
                &&& new_self.telemetry.failed_updates == saturated(
                    old_self.telemetry.failed_updates + saturated(
                        (refusals(s[i].1.outer(), event.model(), Seq::empty(), Seq::empty())
                            + refusals(s[i].1.inner(), message_event.model(), sv, gv)) as int,
                    ),
                )
            } else {
                &&& s2.len() == s.len() + 1
                &&& s2.drop_last() == s
                &&& disc_view(s2.last().0@) == d
                &&& started_with(s2.last().1, event, message_event, sv, gv, now)
                &&& new_self.telemetry.failed_updates == old_self.telemetry.failed_updates
            }
        }
    })
}

impl MezmoReduce {
    /// Routes an event to its group, given the event's outer part, its inner part
    /// and the verdicts of the boundary conditions on the inner part:
    /// - `starts_here`: the open group with the same discriminant, if any, is
    ///   emitted without the event, and the event starts a new group;
    /// - otherwise `ends_here`: the event is folded into its group (a new one if
    ///   none is open), which is emitted at once;
    /// - otherwise the event is folded into its group, or starts one.
    pub fn route(
        &mut self,
        output: &mut Vec<LogEvent>,
        event: LogEvent,
        message_event: LogEvent,
        starts_here: bool,
        ends_here: bool,
        now: u64,
    )
        requires
            old(self).wf(),
            event.wf(),
            message_event.wf(),
            now >= old(self).now_ms,
        ensures
            routed(*old(self), *final(self), old(output)@, final(output)@, event, message_event, starts_here, ends_here, now),
    {
        let ghost s = self.groups();
        let ghost out0 = output@;
        proof {
            lemma_groups_wf_later(s, self.now_ms, now);
        }
        self.now_ms = now;
        let d = discriminant(&message_event, &self.group_by);
        let found = self.find_group(&d);
        let ghost i = group_index(s, disc_view(d@));
        self.telemetry.events_recorded = saturating_size_add(self.telemetry.events_recorded, 1);
        if starts_here {
            match found {
                Some(k) => {
                    proof {
                        lemma_groups_wf_remove(s, k as int, now);
                    }
                    let (_, st) = self.reduce_merge_states.remove(k);
                    let e = st.flush(&self.mezmo_metadata);
                    output.push(e);
                    assert(output@.drop_last() =~= out0);
                    self.telemetry.events_flushed = saturating_size_add(self.telemetry.events_flushed, 1);
                },
                None => {},
            }
            let ghost s1 = self.groups();
            let st = ReduceState::new(event, message_event, &self.merge_strategies, &self.group_by, now);
            proof {
                assert forall|j: int| 0 <= j < s1.len() implies disc_view(#[trigger] s1[j].0@) != disc_view(d@) by {
                    if found is None {
                        assert(!has_group(s, disc_view(d@)));
                        assert(s1[j] == s[j]);
                    }
                }
                lemma_groups_wf_push(s1, (d, st), now, now);
            }
            self.reduce_merge_states.push((d, st));
            assert(self.groups().drop_last() =~= s1);
        } else if ends_here {
            match found {
                Some(k) => {
                    proof {
                        lemma_groups_wf_remove(s, k as int, now);
                    }
                    let (_, mut st) = self.reduce_merge_states.remove(k);
                    let refused = st.add_event(event, message_event, &self.merge_strategies, &self.group_by);
                    self.telemetry.failed_updates = saturating_size_add(self.telemetry.failed_updates, refused);
                    let e = st.flush(&self.mezmo_metadata);
                    output.push(e);
                },
                None => {
                    let st = ReduceState::new(event, message_event, &self.merge_strategies, &self.group_by, now);
                    let e = st.flush(&self.mezmo_metadata);
                    output.push(e);
                },
            }
            assert(output@.drop_last() =~= out0);
            self.telemetry.events_flushed = saturating_size_add(self.telemetry.events_flushed, 1);
        } else {
            self.push_or_new_reduce_state(event, message_event, d, found, now);
        }
    }

    /// Folds an event into the open group with its discriminant `d` (at position
    /// `found`), or starts a group with it where none is open.
    fn push_or_new_reduce_state(
        &mut self,
        event: LogEvent,
        message_event: LogEvent,
        d: Vec<Option<Value>>,
        found: Option<usize>,
        now: u64,
    )
        requires
            old(self).wf(),
            event.wf(),
            message_event.wf(),
            now == old(self).now_ms,
            match found {
                Some(i) => i < old(self).groups().len() && has_group(old(self).groups(), disc_view(d@))
                    && group_index(old(self).groups(), disc_view(d@)) == i,
                None => !has_group(old(self).groups(), disc_view(d@)),
            },
        ensures
            final(self).wf(),
            final(self).now_ms == old(self).now_ms,
            final(self).mezmo_metadata == old(self).mezmo_metadata,
            final(self).group_by == old(self).group_by,
            final(self).merge_strategies == old(self).merge_strategies,
            final(self).expire_after_ms == old(self).expire_after_ms,
            final(self).flush_period_ms == old(self).flush_period_ms,
            final(self).byte_threshold_per_state == old(self).byte_threshold_per_state,
            final(self).byte_threshold_all_states == old(self).byte_threshold_all_states,
            final(self).telemetry.events_recorded == old(self).telemetry.events_recorded,
            final(self).telemetry.events_flushed == old(self).telemetry.events_flushed,
            final(self).telemetry.stale_flushes == old(self).telemetry.stale_flushes,
            ({
                let s = old(self).groups();
                let s2 = final(self).groups();
                let sv = old(self).strategies();
                let gv = old(self).keys();
                match found {
                    Some(i) => {
                        &&& s2.len() == s.len()
                        &&& forall|j: int| 0 <= j < s.len() && j != i ==> s2[j] == s[j]
                        &&& s2[i as int].0 == s[i as int].0
                        &&& folded_with(s2[i as int].1, s[i as int].1, event, message_event, sv, gv)
                        &&& final(self).telemetry.failed_updates == saturated(
                            old(self).telemetry.failed_updates + saturated(
                                (refusals(s[i as int].1.outer(), event.model(), Seq::empty(), Seq::empty())
                                    + refusals(s[i as int].1.inner(), message_event.model(), sv, gv)) as int,
                            ),
                        )
                    },
                    None => {
                        &&& s2.len() == s.len() + 1
                        &&& s2.drop_last() == s
                        &&& s2.last().0 == d
                        &&& started_with(s2.last().1, event, message_event, sv, gv, now)
                        &&& final(self).telemetry.failed_updates == old(self).telemetry.failed_updates
                    },
                }
            }),
    {
        let ghost s = self.groups();
        match found {
            Some(k) => {
                let (dk, mut st) = self.reduce_merge_states.remove(k);
                let refused = st.add_event(event, message_event, &self.merge_strategies, &self.group_by);
                self.telemetry.failed_updates = saturating_size_add(self.telemetry.failed_updates, refused);
                self.reduce_merge_states.insert(k, (dk, st));
                proof {
                    let s2 = self.groups();
                    assert forall|a: int, b: int| 0 <= a < b < s2.len() implies disc_view(s2[a].0@) != disc_view(s2[b].0@)
                        && s2[a].1.started_at <= s2[b].1.started_at by {
                        assert(a != k ==> s2[a] == s[a]);
                        assert(b != k ==> s2[b] == s[b]);
                    }
                    assert forall|j: int| 0 <= j < s2.len() implies (#[trigger] s2[j]).1.wf() && s2[j].1.started_at <= now by {
                        assert(j != k ==> s2[j] == s[j]);
                    }
                }
            },
            None => {
                let st = ReduceState::new(event, message_event, &self.merge_strategies, &self.group_by, now);
                proof {
                    lemma_groups_wf_push(s, (d, st), now, now);
                }
                self.reduce_merge_states.push((d, st));
                assert(self.groups().drop_last() =~= s);
            },
        }
    }
}

} // verus!

verus! {

proof fn lemma_split_due_wf(s: Seq<Group>, now: u64, expire_after: u64, per_state: u64, clock: u64)
    requires
        groups_wf(s, clock),
    ensures
        groups_wf(split_due(s, now, expire_after, per_state).1, clock),
        forall|k: int| 0 <= k < split_due(s, now, expire_after, per_state).0.len()
            ==> (#[trigger] split_due(s, now, expire_after, per_state).0[k]).1.wf(),
        forall|k: int| #![trigger split_due(s, now, expire_after, per_state).1[k]]
            0 <= k < split_due(s, now, expire_after, per_state).1.len()
            ==> exists|i: int| 0 <= i < s.len() && split_due(s, now, expire_after, per_state).1[k] == s[i],
        forall|k: int| #![trigger split_due(s, now, expire_after, per_state).0[k]]
            0 <= k < split_due(s, now, expire_after, per_state).0.len()
            ==> exists|i: int| 0 <= i < s.len() && split_due(s, now, expire_after, per_state).0[k] == s[i],
    decreases s.len(),
{
    if s.len() > 0 {
        let front = s.drop_last();
        assert(groups_wf(front, clock));
        lemma_split_due_wf(front, now, expire_after, per_state, clock);
        let (due, kept) = split_due(front, now, expire_after, per_state);
        let last = s.last();
        assert(last == s[s.len() - 1]);
        if is_due(last.1, now, expire_after, per_state) {
            let d2 = due.push(last);
            assert forall|k: int| 0 <= k < d2.len() implies exists|i: int| 0 <= i < s.len() && #[trigger] d2[k] == s[i] by {
                if k < due.len() {
                    let i = choose|i: int| 0 <= i < front.len() && due[k] == front[i];
                    assert(d2[k] == s[i]);
                } else {
                    assert(d2[k] == s[s.len() - 1]);
                }
            }
            assert forall|k: int| 0 <= k < kept.len() implies exists|i: int| 0 <= i < s.len() && #[trigger] kept[k] == s[i] by {
                let i = choose|i: int| 0 <= i < front.len() && kept[k] == front[i];
                assert(kept[k] == s[i]);
            }
        } else {
            let k2 = kept.push(last);
            assert forall|k: int| 0 <= k < k2.len() implies exists|i: int| 0 <= i < s.len() && #[trigger] k2[k] == s[i] by {
                if k < kept.len() {
                    let i = choose|i: int| 0 <= i < front.len() && kept[k] == front[i];
                    assert(k2[k] == s[i]);
                } else {
                    assert(k2[k] == s[s.len() - 1]);
                }
            }
            assert forall|k: int| 0 <= k < due.len() implies exists|i: int| 0 <= i < s.len() && #[trigger] due[k] == s[i] by {
                let i = choose|i: int| 0 <= i < front.len() && due[k] == front[i];
                assert(due[k] == s[i]);
            }
            assert forall|a: int, b: int| 0 <= a < b < k2.len() implies disc_view(k2[a].0@) != disc_view(k2[b].0@)
                && k2[a].1.started_at <= k2[b].1.started_at by {
                if b == kept.len() {
                    let i = choose|i: int| 0 <= i < front.len() && kept[a] == front[i];
                    assert(k2[a] == s[i]);
                    assert(k2[b] == s[s.len() - 1]);
                }
            }
        }
    }
}

proof fn lemma_emits_push(out: Seq<LogEvent>, old_out: Seq<LogEvent>, gs: Seq<Group>, meta: MezmoMetadata, e: LogEvent, g: Group)
    requires
        emits(out, old_out, gs, meta),
        flushed_ok(e, g.1, meta),
    ensures
        emits(out.push(e), old_out, gs.push(g), meta),
{
    let o2 = out.push(e);
    let g2 = gs.push(g);
    assert(o2.subrange(0, old_out.len() as int) =~= out.subrange(0, old_out.len() as int));
    assert forall|j: int| 0 <= j < g2.len() implies flushed_ok(#[trigger] o2[old_out.len() + j], g2[j].1, meta) by {
        if j < gs.len() {
            assert(o2[old_out.len() + j] == out[old_out.len() + j]);
        }
    }
}

/// Emits every group, in order.
fn emit_all(groups: Vec<Group>, meta: &MezmoMetadata, output: &mut Vec<LogEvent>)
    requires
        meta.wf(),
        forall|k: int| 0 <= k < groups.len() ==> (#[trigger] groups@[k]).1.wf(),
    ensures
        emits(final(output)@, old(output)@, groups@, *meta),
{
    let ghost orig = groups@;
    let ghost out0 = output@;
    let mut groups = groups;
    let total: usize = groups.len();
    let mut n: usize = 0;
    assert(output@.subrange(0, out0.len() as int) =~= out0);
    assert(emits(output@, out0, orig.subrange(0, 0), *meta));
    while groups.len() > 0
        invariant
            meta.wf(),
            n + groups.len() == total,
            orig.len() == total,
            forall|j: int| 0 <= j < groups.len() ==> #[trigger] groups@[j] == orig[n + j],
            forall|k: int| 0 <= k < orig.len() ==> (#[trigger] orig[k]).1.wf(),
            emits(output@, out0, orig.subrange(0, n as int), *meta),
        decreases groups.len(),
    {
        let ghost prefix = orig.subrange(0, n + 1);
        assert(prefix =~= orig.subrange(0, n as int).push(orig[n as int]));
        let g = groups.remove(0);
        let ghost gg = g;
        let ghost before = output@;
        let (_, st) = g;
        let e = st.flush(meta);
        proof {
            lemma_emits_push(before, out0, orig.subrange(0, n as int), *meta, e, gg);
        }
        output.push(e);
        n += 1;
    }
    assert(orig.subrange(0, n as int) =~= orig);
}

/// Splits groups, in order, into those due and those kept.
fn split_groups(groups: Vec<Group>, now: u64, expire_after: u64, per_state: u64) -> (r: (Vec<Group>, Vec<Group>))
    requires
        forall|k: int| 0 <= k < groups.len() ==> (#[trigger] groups@[k]).1.started_at <= now,
    ensures
        (r.0@, r.1@) == split_due(groups@, now, expire_after, per_state),
{
    let ghost orig = groups@;
    let mut groups = groups;
    let total: usize = groups.len();
    let mut n: usize = 0;
    let mut due: Vec<Group> = Vec::new();
    let mut kept: Vec<Group> = Vec::new();
    assert(orig.subrange(0, 0) =~= Seq::<Group>::empty());
    while groups.len() > 0
        invariant
            n + groups.len() == total,
            orig.len() == total,
            forall|j: int| 0 <= j < groups.len() ==> #[trigger] groups@[j] == orig[n + j],
            forall|k: int| 0 <= k < orig.len() ==> (#[trigger] orig[k]).1.started_at <= now,
            (due@, kept@) == split_due(orig.subrange(0, n as int), now, expire_after, per_state),
        decreases groups.len(),
    {
        let ghost prefix = orig.subrange(0, n + 1);
        assert(prefix.drop_last() =~= orig.subrange(0, n as int));
        let g = groups.remove(0);
        assert(prefix.last() == g);
        if now - g.1.started_at >= expire_after || g.1.size_estimate > per_state {
            due.push(g);
        } else {
            kept.push(g);
        }
        n += 1;
    }
    assert(orig.subrange(0, n as int) =~= orig);
    (due, kept)
}

/// The sum of the size estimates of groups, saturated at the largest signed
/// 64-bit value.
fn groups_total(groups: &Vec<Group>) -> (r: u64)
    requires
        forall|k: int| 0 <= k < groups.len() ==> (#[trigger] groups@[k]).1.wf(),
    ensures
        r == saturated(groups_size(groups@) as int),
{
    let mut acc: u64 = 0;
    let mut i: usize = 0;
    assert(groups@.subrange(0, 0) =~= Seq::<Group>::empty());
    while i < groups.len()
        invariant
            i <= groups.len(),
            forall|k: int| 0 <= k < groups.len() ==> (#[trigger] groups@[k]).1.wf(),
            acc <= i64::MAX,
            acc == saturated(groups_size(groups@.subrange(0, i as int)) as int),
        decreases groups.len() - i,
    {
        let ghost p = groups@.subrange(0, i + 1);
        assert(p.drop_last() =~= groups@.subrange(0, i as int));
        assert(groups@[i as int].1.wf());
        proof {
            crate::value::lemma_saturated_add(groups_size(p.drop_last()) as int, groups@[i as int].1.size_estimate as int);
        }
        acc = saturating_size_add(acc, groups[i].1.size_estimate);
        i += 1;
    }
    assert(groups@.subrange(0, i as int) =~= groups@);
    acc
}

} // verus!

verus! {

/// What [`MezmoReduce::flush_into`] does at time `now`: the reducer `old_self`
/// becomes `new_self` and the output `old_out` becomes `out`.
pub open spec fn swept(
    old_self: MezmoReduce,
    new_self: MezmoReduce,
    old_out: Seq<LogEvent>,
    out: Seq<LogEvent>,
    now: u64,
) -> bool {
    &&& new_self.wf()
    &&& new_self.now_ms == now
    &&& new_self.mezmo_metadata == old_self.mezmo_metadata
    &&& new_self.group_by == old_self.group_by
    &&& new_self.merge_strategies == old_self.merge_strategies
    &&& new_self.expire_after_ms == old_self.expire_after_ms
    &&& new_self.flush_period_ms == old_self.flush_period_ms
    &&& new_self.byte_threshold_per_state == old_self.byte_threshold_per_state
    &&& new_self.byte_threshold_all_states == old_self.byte_threshold_all_states
    &&& new_self.telemetry.events_recorded == old_self.telemetry.events_recorded
    &&& new_self.telemetry.failed_updates == old_self.telemetry.failed_updates
    &&& ({
        let (due, kept) = split_due(
            old_self.groups(),
            now,
            old_self.expire_after_ms,
            old_self.byte_threshold_per_state,
        );
        let meta = old_self.mezmo_metadata;
        &&& new_self.telemetry.stale_flushes == saturated(old_self.telemetry.stale_flushes + due.len())
        &&& if saturated(groups_size(kept) as int) > old_self.byte_threshold_all_states {
            &&& new_self.groups().len() == 0
            &&& emits(out, old_out, due + kept, meta)
            &&& new_self.telemetry.events_flushed == saturated(
                saturated(old_self.telemetry.events_flushed + due.len()) + kept.len(),
            )
        } else {
            &&& new_self.groups() == kept
            &&& emits(out, old_out, due, meta)
            &&& new_self.telemetry.events_flushed == saturated(old_self.telemetry.events_flushed + due.len())
        }
    })
}

impl MezmoReduce {
    /// The expiration sweep at time `now`: groups that are stale (open for at
    /// least `expire_after_ms`) or over the per-group threshold are emitted in
    /// the order they started; then, if the groups left hold more bytes than the
    /// threshold for all groups, they are all emitted too, in the order they
    /// started.
    pub fn flush_into(&mut self, output: &mut Vec<LogEvent>, now: u64)
        requires
            old(self).wf(),
            now >= old(self).now_ms,
        ensures
            swept(*old(self), *final(self), old(output)@, final(output)@, now),
    {
        let ghost s = self.groups();
        let ghost out0 = output@;
        proof {
            lemma_groups_wf_later(s, self.now_ms, now);
            lemma_split_due_wf(s, now, self.expire_after_ms, self.byte_threshold_per_state, now);
        }
        self.now_ms = now;
        let mut groups: Vec<Group> = Vec::new();
        std::mem::swap(&mut groups, &mut self.reduce_merge_states);
        assert(groups@ == s);
        let (due, kept) = split_groups(groups, now, self.expire_after_ms, self.byte_threshold_per_state);
        proof {
            let sd = split_due(s, now, self.expire_after_ms, self.byte_threshold_per_state);
            assert(due@ == sd.0 && kept@ == sd.1);
            assert forall|k: int| 0 <= k < due.len() implies (#[trigger] due@[k]).1.wf() by {
                assert(sd.0[k].1.wf());
            }
            assert forall|k: int| 0 <= k < kept.len() implies (#[trigger] kept@[k]).1.wf() by {
                assert(sd.1[k].1.wf() && sd.1[k].1.started_at <= now);
            }
        }
        let n_due = due.len();
        emit_all(due, &self.mezmo_metadata, output);
        let ghost out1 = output@;
        self.telemetry.stale_flushes = saturating_size_add(self.telemetry.stale_flushes, clamp(n_due));
        self.telemetry.events_flushed = saturating_size_add(self.telemetry.events_flushed, clamp(n_due));
        let total = groups_total(&kept);
        if total > self.byte_threshold_all_states {
            let n_kept = kept.len();
            let ghost kv = kept@;
            emit_all(kept, &self.mezmo_metadata, output);
            self.telemetry.events_flushed = saturating_size_add(self.telemetry.events_flushed, clamp(n_kept));
            proof {
                let d = split_due(s, now, self.expire_after_ms, self.byte_threshold_per_state).0;
                let all = d + kv;
                assert(output@.subrange(0, out0.len() as int) =~= out1.subrange(0, out0.len() as int));
                assert forall|j: int| 0 <= j < all.len() implies flushed_ok(#[trigger] output@[out0.len() + j], all[j].1, self.mezmo_metadata) by {
                    if j < d.len() {
                        assert(output@[out0.len() + j] == out1[out0.len() + j]);
                    } else {
                        assert(output@[out1.len() + (j - d.len())] == output@[out0.len() + j]);
                    }
                }
            }
        } else {
            self.reduce_merge_states = kept;
        }
    }

    /// Emits every open group, in the order they started, and closes them all.
    pub fn flush_all_into(&mut self, output: &mut Vec<LogEvent>)
        requires
            old(self).wf(),
        ensures
            final(self).wf(),
            final(self).groups().len() == 0,
            emits(final(output)@, old(output)@, old(self).groups(), old(self).mezmo_metadata),
            final(self).now_ms == old(self).now_ms,
            final(self).mezmo_metadata == old(self).mezmo_metadata,
            final(self).group_by == old(self).group_by,
            final(self).merge_strategies == old(self).merge_strategies,
            final(self).telemetry.events_flushed == saturated(old(self).telemetry.events_flushed + old(self).groups().len()),
            final(self).telemetry.events_recorded == old(self).telemetry.events_recorded,
            final(self).telemetry.failed_updates == old(self).telemetry.failed_updates,
            final(self).telemetry.stale_flushes == old(self).telemetry.stale_flushes,
    {
        let mut groups: Vec<Group> = Vec::new();
        std::mem::swap(&mut groups, &mut self.reduce_merge_states);
        let n = groups.len();
        emit_all(groups, &self.mezmo_metadata, output);
        self.telemetry.events_flushed = saturating_size_add(self.telemetry.events_flushed, clamp(n));
    }

    /// Handles one event: routes it (see [`MezmoReduce::route`]), then runs the
    /// expiration sweep (see [`MezmoReduce::flush_into`]).
    pub fn transform_one(
        &mut self,
        output: &mut Vec<LogEvent>,
        event: LogEvent,
        message_event: LogEvent,
        starts_here: bool,
        ends_here: bool,
        now: u64,
    )
        requires
            old(self).wf(),
            event.wf(),
            message_event.wf(),
            now >= old(self).now_ms,
        ensures
            exists|mid: MezmoReduce, mid_out: Seq<LogEvent>|
                routed(*old(self), mid, old(output)@, mid_out, event, message_event, starts_here, ends_here, now)
                && #[trigger] swept(mid, *final(self), mid_out, final(output)@, now),
    {
        self.route(output, event, message_event, starts_here, ends_here, now);
        let ghost mid = *self;
        let ghost mid_out = output@;
        self.flush_into(output, now);
        assert(swept(mid, *self, mid_out, output@, now));
    }
}

/// A count as a byte-count-sized number, saturated at the largest signed 64-bit
/// value.
fn clamp(n: usize) -> (r: u64)
    ensures
        r == saturated(n as int),
{
    if n as u64 > i64::MAX as u64 {
        i64::MAX as u64
    } else {
        n as u64
    }
}

} // verus!
