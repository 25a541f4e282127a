//! Select over an unbounded set of futures.
//!
//! A [`SelectAll`] owns any number of pending futures with one output type.
//! [`SelectAll::select`] gives a future that, each time it is polled, asks
//! every pending future in turn and hands out the output of the first one
//! that has finished, taking that future out of the set.
//!
//! Contracts speak of a future through the value it resolves to, written
//! `future@`, and of a set through the sequence of its pending tasks. Each
//! task carries, for contracts only, how often it has been polled and what
//! it answered last, so that a contract can say which tasks an attempt
//! asked and that the first to answer `Ready` is the one that leaves.
//! [`model`] holds what follows for every run of pushes and selects: no
//! output is lost, none is handed out twice, and a set that has been drained
//! has handed out exactly what its tasks resolve to.

pub mod model;
pub mod select_all;
pub mod select_future;
pub mod task;

pub use select_all::SelectAll;
pub use select_future::SelectFuture;
pub use task::Task;
