//! Validation, normalization and percent-encoding-aware comparison of the query
//! component of a URI (RFC 3986, section 3.4).
pub mod chars;
pub mod compare;
pub mod encoding;
pub mod query;

pub use query::{parse_query, InvalidQuery, Query};
