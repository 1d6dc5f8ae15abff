//! Per-interface network throughput reporting.
//!
//! The library turns a line-oriented counter dump into a snapshot mapping
//! interface names to cumulative (received, transmitted) byte counts,
//! filters interfaces with no recorded activity, and renders an aligned
//! two-line header and one data row per sampling tick.

mod digits;
mod parse;
mod render;
mod snapshot;
mod text;

pub use parse::ParseError;
pub use parse::parse_net_dev_stats;
pub use render::print_headers;
pub use render::print_stats;
pub use snapshot::NetStats;
pub use snapshot::filter_zero_counters;
pub use text::is_space;
