//! A verified word/line/byte/character counting library in the manner of the
//! Unix `wc` tool.
//!
//! The library computes five metrics over a text: line count, word count,
//! byte count (of the UTF-8 encoding), character count, and the maximum
//! byte length over the text's lines. An options record selects which
//! metrics are computed, per-source counts aggregate into a running total,
//! and a reporter renders one fixed-format output line per source.

pub mod counter;
pub mod counts;
pub mod options;
pub mod report;
pub mod text;

pub use counts::Counts;
pub use options::Args;
pub use options::Options;
