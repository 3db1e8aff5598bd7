//! A verified core for a word-count command-line tool.
//!
//! The crate has two components. The flag resolver turns raw command-line
//! tokens into a metric selection and a file name, rejecting malformed
//! input. The counting engine takes the contents of a file and the selected
//! metrics and produces byte, line, word and Unicode character counts,
//! sharing a single pass where the metrics allow it. A formatting helper
//! renders the counts in the canonical output order.

pub mod arg_parser;
pub mod counting;
pub mod errors;
pub mod format;
pub mod metrics;
pub mod text;

pub use arg_parser::ArgParser;
pub use arg_parser::resolve;
pub use counting::compute;
pub use errors::WcError;
pub use format::format_result;
pub use metrics::CountRequest;
pub use metrics::CountResult;
pub use metrics::Metric;
pub use metrics::MetricSet;
