//! Verified core of a tender-listing collector: page parsing, the per-session
//! bookkeeping of found tenders, report and e-mail rendering, and scheduling.

pub mod text;
pub mod numbers;
pub mod error;
pub mod page_parser;
pub mod storage;
pub mod workers;
pub mod client;
pub mod schedule;
