//! Core of an online judge: the judging pipeline and the contest ranklist
//! engine, together with the in-memory job store they operate on.
//!
//! The library is organised as pure, verified logic over plain values.
//! Everything that touches the outside world (subprocesses, files, the wire
//! queue, wall-clock time) lives in the surrounding application, which feeds
//! observations into the functions here and persists the states they produce.

pub mod config;
pub mod dispatch;
pub mod error;
pub mod jobs;
pub mod judge;
pub mod queue;
pub mod rank;
pub mod store;
