//! Payloads of the upstream services, as plain values.

use vstd::prelude::*;

pub mod fighter;
pub mod tournament;
pub mod tournament_detail;
pub mod util;

verus! {

/// The envelope that accompanies every page of the tournament listing.
#[derive(Clone, Copy, Debug)]
pub struct Pagination {
    pub total_count: u64,
    pub total_pages: u64,
    pub has_next_page: bool,
    pub current_page: u64,
    pub item_count: u64,
}

/// A point in time: seconds since the start of 1970 in UTC, and the
/// nanoseconds into that second.
#[derive(Clone, Copy, Debug, PartialEq, Eq, Structural)]
pub struct Timestamp {
    pub secs: i64,
    pub nanos: u32,
}

} // verus!
