//! Splitting a byte stream into tokens separated by a single sentinel byte,
//! either from a slice that is wholly in memory or incrementally, chunk by
//! chunk, with memory bounded by the longest unresolved token.

pub mod rule;
pub mod nomcomplete;
pub mod nomstreaming;
pub mod filecreator;
