use vstd::prelude::*;

verus! {

/// A point in time: seconds and nanoseconds, exactly as they stand on the
/// wire.
#[derive(Clone, Copy, Debug, PartialEq, Eq, Structural)]
pub struct Time {
    /// Seconds.
    pub sec: u32,
    /// Nanoseconds.
    pub nsec: u32,
}

/// A span of time: seconds and nanoseconds. Carried by the schema model but
/// never decoded from the wire; duration fields are unsupported.
#[derive(Clone, Copy, Debug, PartialEq, Eq, Structural)]
pub struct Duration {
    /// Seconds.
    pub sec: i32,
    /// Nanoseconds.
    pub nsec: i32,
}

} // verus!
