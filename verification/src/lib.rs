//! Reading the text that platform network scanners print into a list of
//! visible wireless networks.
//!
//! Two formats are read, each into the same [`NetworkRecord`]:
//! a table with aligned columns ([`tabular`]) and a JSON document
//! ([`structured`]).

pub mod json;
pub mod record;
pub mod structured;
pub mod tabular;
pub mod text;

pub use record::{NetworkRecord, ParseError};
pub use structured::parse_systemprofiler;
pub use tabular::parse_airport;
