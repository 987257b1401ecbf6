//! The two synchronisation engines and what they share.

pub mod chunk;
pub mod detail;
pub mod discovery;
pub mod fetch;
pub mod fighter;
pub mod scan;
pub mod tournament;
