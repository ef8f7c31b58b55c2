//! Message types carried from the telemetry producer to observers.
use vstd::prelude::*;

verus! {

/// A point in time, as seconds and nanoseconds since the Unix epoch.
#[derive(Clone, Copy, Debug, PartialEq, Eq, Structural)]
pub struct Timestamp {
    pub seconds: i64,
    pub nanos: i32,
}

/// The value recorded for one field of a log event.
#[derive(Clone, Debug, PartialEq)]
pub enum FieldValue {
    Debug(String),
    Str(String),
    U64(u64),
    I64(i64),
    Bool(bool),
}

/// A user-defined key-value pair attached to a log event.
#[derive(Clone, Debug, PartialEq)]
pub struct Field {
    pub name: String,
    pub value: FieldValue,
}

/// One log event.
#[derive(Clone, Debug, PartialEq)]
pub struct LogEvent {
    /// The main message body of the log.
    pub message: String,
    /// The span the event happened in, if any.
    pub parent: Option<u64>,
    /// Identifier of the metadata describing the event's call site.
    pub metadata_id: u64,
    /// User-defined key-value pairs associated with the event.
    pub fields: Vec<Field>,
    /// When the event happened.
    pub at: Option<Timestamp>,
}

/// A batch of telemetry: the log events since the previous batch, and how
/// many events were dropped because the event buffer was at capacity.
#[derive(Clone, Debug, PartialEq)]
pub struct Update {
    pub log_events: Vec<LogEvent>,
    pub dropped_events: u64,
}

} // verus!
