//! A harness for measuring how many concurrent sleeping tasks a scheduling
//! runtime can drive: memory accounting, per-task bookkeeping, the driver's
//! spawn/await/collect protocol and the aggregation of outcomes into a report.

pub mod accountant;
pub mod task;
pub mod report;
pub mod driver;
pub mod config;
