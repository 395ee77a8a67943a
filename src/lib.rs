//! Orchestration of scenario operations: a tree of sequential and concurrent
//! groups, a scheduler that decides which operation may start, and the
//! aggregators that fold the produced statistics into reports.

pub mod aggregators;
pub mod batch;
pub mod distribution;
pub mod event;
pub mod execution;
pub mod mode_printer;
pub mod statistic;
pub mod summary;
pub mod table;
