//! Line search in a text: the lines that contain a query, exactly or with
//! case ignored, and the configuration that picks between the two.
use vstd::prelude::*;

pub mod config;
pub mod laws;
pub mod search;
pub mod text;

pub use config::{Config, ConfigError};
pub use search::{search, search_case_insensitive, search_with};
pub use text::{is_substring, lowercase, split_lines};

verus! {

} // verus!
