use vstd::prelude::*;

verus! {

/// Signal: an event was folded into a group.
#[derive(Clone, Copy, Debug, PartialEq, Eq, Structural)]
pub struct MezmoAggregateEventRecorded;

/// Signal: a group was emitted.
#[derive(Clone, Copy, Debug, PartialEq, Eq, Structural)]
pub struct MezmoAggregateFlushed;

/// Signal: a merger refused a value.
#[derive(Clone, Copy, Debug, PartialEq, Eq, Structural)]
pub struct MezmoAggregateUpdateFailed;

impl MezmoAggregateEventRecorded {
    /// The name of the counter that the signal increments.
    pub fn counter_name(&self) -> (r: &'static str)
        ensures
            r@ == "mezmo_aggregate_events_recorded_total"@,
    {
        "mezmo_aggregate_events_recorded_total"
    }
}

impl MezmoAggregateFlushed {
    /// The name of the counter that the signal increments.
    pub fn counter_name(&self) -> (r: &'static str)
        ensures
            r@ == "mezmo_aggregate_flushes_total"@,
    {
        "mezmo_aggregate_flushes_total"
    }
}

impl MezmoAggregateUpdateFailed {
    /// The name of the counter that the signal increments.
    pub fn counter_name(&self) -> (r: &'static str)
        ensures
            r@ == "mezmo_aggregate_failed_updates"@,
    {
        "mezmo_aggregate_failed_updates"
    }
}

} // verus!
