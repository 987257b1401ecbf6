//! Mirrors fighter and tournament data of an upstream game service into
//! relational rows.
//!
//! The crate holds the decisions of the two synchronisation engines: how
//! upstream payloads are validated, how they become rows, in what groups the
//! rows are written, which page is fetched next, and how many fetches may be
//! outstanding at once. Transport and storage are left to the caller, who
//! performs the actions that the engines hand out and reports what came back.

pub mod api;
pub mod entity;
pub mod store;
pub mod task;
