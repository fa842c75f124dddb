//! A query engine for filtering log lines.
//!
//! The engine evaluates a small textual query language over a structured
//! value (a JSON-like tree) together with the raw source line it came from.
//! Queries are an OR-of-AND tree of conditions; each condition names a field,
//! an operator and an operand, with special handling for timestamp fields,
//! the `text` pseudo-field and `num(...)`-wrapped fields.

pub mod text;
pub mod num;
pub mod value;
pub mod time;
pub mod query;
pub mod laws;

pub use query::evaluate;
pub use query::evaluate_at;
pub use query::QueryError;
pub use value::LogValue;
pub use value::LogEntry;
pub use num::Dec;
pub use time::Instant;
pub use time::parse_time_string;
pub use time::parse_time_string_at;
pub use time::extract_and_parse_timestamp;
pub use text::split_once_char;
pub use text::extract_quoted;

