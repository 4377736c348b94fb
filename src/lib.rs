//! A streaming reducer of log events: events are grouped by the values of
//! configured fields of their inner `message` object, the fields of each group
//! are merged by per-field strategies, and each group is emitted as one event
//! when a boundary condition fires, when it goes stale, or when it (or all
//! groups together) holds too many bytes.

pub mod classify;
pub mod dates;
pub mod event;
pub mod merge;
pub mod reducer;
pub mod schema;
pub mod state;
pub mod telemetry;
pub mod value;
