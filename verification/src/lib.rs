//! A minute-granularity task scheduler library: cron-like rule lines are
//! parsed into field matchers, and a drift-corrected scheduler state decides,
//! once per nominal minute, which commands are due.

pub mod entry;
pub mod matcher;
pub mod scheduler;
