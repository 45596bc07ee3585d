//! A verified normalizer for line-oriented time-tracking logs.
//!
//! Input lines carry five whitespace-separated fields: a name, a start
//! date and time, and an end date and time. The processor skips lines
//! that repeat their immediate predecessor, rejects lines with fewer
//! than five fields, drops entries whose start and end timestamps are
//! identical, and emits one tagged report line per surviving entry,
//! together with a running count.

pub mod tokens;
pub mod record;
pub mod processor;
