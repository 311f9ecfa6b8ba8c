//! A locale-sensitive comparator for polytonic Greek text.
//!
//! Input strings are canonicalized to their decomposed Unicode form, turned
//! into sequences of multi-level collation weights by a bundled weight table,
//! and compared level by level (primary letters, diacritics, letter case,
//! variants, then otherwise-ignorable characters) under a caller-chosen
//! configuration.  The public entry point, [`sort::sort_words`], orders a
//! list of words under that relation with a stable sort.

pub mod compare;
pub mod config;
pub mod generate;
pub mod normalize;
pub mod sort;
pub mod table;
