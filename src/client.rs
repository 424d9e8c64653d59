use vstd::prelude::*;

use crate::attribute::Attribute;

verus! {

/// Five minutes, in nanoseconds.
pub const DEFAULT_HANDLE_TIME: u64 = 300_000_000_000;

/// Thirty seconds, in nanoseconds.
pub const DEFAULT_ABANDON_TIME: u64 = 30_000_000_000;

/// Describes one arriving request: what it needs, how long it takes to
/// handle, and how long it waits before abandoning.
#[derive(Debug, Clone, PartialEq, Eq)]
pub struct Client {
    pub required_attributes: Vec<Attribute>,
    pub handle_time: u64,
    pub clean_up_time: u64,
    pub abandon_time: u64,
}

impl Default for Client {
    fn default() -> (r: Self)
        ensures
            r.required_attributes@.len() == 0,
            r.handle_time == DEFAULT_HANDLE_TIME,
            r.clean_up_time == 0,
            r.abandon_time == DEFAULT_ABANDON_TIME,
    {
        Client {
            required_attributes: Vec::new(),
            handle_time: DEFAULT_HANDLE_TIME,
            clean_up_time: 0,
            abandon_time: DEFAULT_ABANDON_TIME,
        }
    }
}

} // verus!
