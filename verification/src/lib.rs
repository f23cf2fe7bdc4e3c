//! Parser for jemalloc's `heap_v2` textual heap-profile dump.
//!
//! The dump is a line-oriented ASCII document: a header carrying the
//! sampling rate, a block of program-wide per-thread totals, one block per
//! recorded call chain, and the table of mapped libraries. [`Profile::parse`]
//! walks the text in one left-to-right pass and returns the structured
//! profile, or a single aggregate failure.
//!
//! The grammar itself is stated as specification functions over the byte
//! sequence of the input ([`grammar`]); every executable parser is proved to
//! return exactly what the grammar assigns to its input.

pub mod grammar;
pub mod laws;
pub mod model;
pub mod parse;
pub mod text;

pub use model::MappedLibrary;
pub use model::ParseError;
pub use model::Profile;
pub use model::Stack;
pub use model::Thread;
pub use parse::hexadecimal_value;
pub use parse::parse_decimal;
pub use parse::parse_header;
pub use parse::parse_mapped_library;
pub use parse::parse_profile;
pub use parse::parse_stack;
pub use parse::parse_stack_addrs;
pub use parse::parse_thread;
