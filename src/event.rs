use vstd::prelude::*;

verus! {

/// A timestamp: seconds and microseconds.
#[derive(Clone, Copy, Debug, PartialEq, Eq, Structural)]
pub struct TimeVal {
    pub sec: i64,
    pub usec: i64,
}

/// What an event reports.
#[derive(Clone, Copy, Debug, PartialEq, Eq, Structural)]
pub enum EventCode {
    /// Relative motion along X.
    RelX,
    /// Relative motion along Y.
    RelY,
    /// End of a frame: what came since the previous one happened together.
    SynReport,
    /// Any other event, by its type and code numbers.
    Other { kind: u32, code: u32 },
}

/// One event of the input stream.
#[derive(Clone, Copy, Debug, PartialEq, Eq, Structural)]
pub struct RawEvent {
    pub time: TimeVal,
    pub code: EventCode,
    pub value: i32,
}

/// How a read from the source went.
#[derive(Clone, Copy, Debug, PartialEq, Eq, Structural)]
pub enum ReadStatus {
    /// An ordinary event.
    Normal,
    /// The source dropped events; this one belongs to its resynchronization.
    SyncLoss,
}

/// Whether the stream is in step with the source.
#[derive(Clone, Copy, Debug, PartialEq, Eq, Structural)]
pub enum SyncState {
    Normal,
    Resyncing,
}

/// How the next read from the source is to be made.
#[derive(Clone, Copy, Debug, PartialEq, Eq, Structural)]
pub enum ReadMode {
    /// A normal blocking read.
    Normal,
    /// A read that asks the source for the resynchronization events.
    Sync,
}

} // verus!
