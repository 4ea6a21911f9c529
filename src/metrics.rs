//! Operation sets of telemetry metrics, for implementors.

use vstd::prelude::*;

verus! {

/// The kinds of error a metric records instead of failing.
#[derive(Clone, Copy, Debug, PartialEq, Eq, Structural)]
pub enum ErrorType {
    /// The value was invalid.
    InvalidValue,
    /// The label was invalid.
    InvalidLabel,
    /// The metric was in an invalid state.
    InvalidState,
    /// The value overflowed.
    InvalidOverflow,
}

/// The operations of a quantity metric: a single non-negative integer.
pub trait Quantity {
    /// Sets the value; a negative value is recorded as an error instead.
    fn set(&self, value: i64);

    /// The stored value, for the named ping or the metric's first ping, without
    /// clearing it.
    fn test_get_value(&self, ping_name: Option<&str>) -> Option<i64>;

    /// How many errors of the given kind were recorded for the named ping or
    /// the metric's first ping.
    fn test_get_num_recorded_errors(&self, error: ErrorType, ping_name: Option<&str>) -> i32;
}

/// The operations of a UUID metric; a UUID is held as its 128-bit value.
pub trait Uuid {
    /// Sets the metric to the given UUID.
    fn set(&self, value: u128);

    /// Generates a new random UUID, sets the metric to it and returns it.
    fn generate_and_set(&self) -> u128;

    /// The stored UUID, for the named ping or the metric's first ping, without
    /// clearing it.
    fn test_get_value(&self, ping_name: Option<&str>) -> Option<u128>;

    /// How many errors of the given kind were recorded for the named ping or
    /// the metric's first ping.
    fn test_get_num_recorded_errors(&self, error: ErrorType, ping_name: Option<&str>) -> i32;
}

} // verus!
