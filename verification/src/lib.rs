//! A verified line-search library: a minimal `grep` over in-memory text.
//!
//! The library splits a text into lines, keeps the lines that contain a
//! query string (exactly, or after simple ASCII case folding), and resolves
//! the search parameters from a raw argument list.  Every executable
//! function is verified against a mathematical model of line splitting and
//! substring containment, and the laws the library obeys are stated and
//! proved in [`laws`].

pub mod engine;
pub mod laws;
pub mod model;
pub mod params;

pub use engine::run;
pub use engine::search;
pub use engine::search_case_insensitive;
pub use engine::split_lines;
pub use params::Params;
pub use params::ParseError;
