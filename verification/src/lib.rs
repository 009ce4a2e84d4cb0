//! A verified core for a directory-listing utility.
//!
//! The library holds the logic of the tool: which entries a listing shows,
//! the order they are sorted in, how each metadata field is rendered, and
//! how the lines of a listing are assembled. The surrounding binary does the
//! filesystem walking and printing, and hands this library plain values.

pub mod opts;
pub mod entry;
pub mod filter;
pub mod order;
pub mod fields;
pub mod render;
