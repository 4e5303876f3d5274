//! Reading, searching, filtering and laying out the JSON lines that rustc
//! writes to its log when `RUSTC_LOG_FORMAT_JSON` is set.
//!
//! - `grammar`: what a line says, stated over its characters;
//! - `parser`: reading a line into an arena (`arena`, `list`);
//! - `message`: the tree of entered spans, filters and search;
//! - `render`: the coloured pieces of a message's text, with search marks;
//! - `palette`: colours, and the categories that `logparse` gives a message;
//! - `laws` and `prefix`: what holds across calls and inputs;
//! - `finding`: what a search and a filter look at, and where a search lands;
//! - `shown`: what the laid-out text of a message always shows.

pub mod arena;
pub mod list;
pub mod strings;
pub mod grammar;
pub mod parser;
pub mod palette;
pub mod message;
pub mod render;
pub mod laws;
pub mod prefix;
pub mod finding;
pub mod shown;
