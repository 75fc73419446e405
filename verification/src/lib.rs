//! In-memory substring search over a fixed list of named elements.
//!
//! A store is loaded once and then only read. Its elements are sorted by
//! the byte length of their names. Beside every element stands a 64-bit
//! summary of the characters of its name, and a length index tells, for a
//! query of a given length, where the first element stands whose name is long
//! enough to hold it. A fingerprint of the store lets a client that pages
//! through results notice that the store is another one.
//!
//! * `bloomfilter`: the summary and its laws.
//! * `store`, `length_index`: the order of the store and the length index.
//! * `utils`: the fingerprint.
//! * `feed`: the record format that elements are read from.
//! * `models`: the records, and the loaded state.
//! * `api`: the read operations: count, paged search, random sample,
//!   saturated elements, figures.
//! * `bits`, `text`: facts about bits, and the text operations of the
//!   standard library that the search relies on.

pub mod api;
pub mod bits;
pub mod bloomfilter;
pub mod feed;
pub mod length_index;
pub mod models;
pub mod store;
pub mod text;
pub mod utils;
