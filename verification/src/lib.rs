//! Bookkeeping for scanning many files against one rule set with a fixed pool
//! of workers: the request and result types, the pool's dispatch rules and the
//! summary of a finished run.

pub mod cli;
pub mod orchestrator;
pub mod pool;
pub mod report;
pub mod scanner;
pub mod server;
pub mod summary;
