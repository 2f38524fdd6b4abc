//! Personal time tracking: clock-in / clock-out events, their line-oriented
//! storage format, and the daily and weekly totals computed from them.

pub mod clock;
pub mod text;
pub mod event;
pub mod order;
pub mod parser;
pub mod report;
pub mod laws;
