//! Points in time, counted from the Unix epoch.
use vstd::prelude::*;

verus! {

/// The time since the Unix epoch: whole seconds, and the nanoseconds on top.
#[derive(Clone, Copy, Debug, PartialEq, Eq, Structural)]
pub struct Timestamp {
    pub secs: u64,
    pub nanos: u32,
}

} // verus!
