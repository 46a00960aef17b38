//! Core of a bracketed-format log browser: parsing of `[SEVERITY][CATEGORY]: MESSAGE`
//! lines, an append-only entry store with a category index, and a conjunctive
//! filter engine (severity mask, category choice, fuzzy text search) that
//! yields matching entries in original order.

pub mod entry;
pub mod filter;
pub mod laws;
pub mod matcher;
pub mod parse;
pub mod severity;
pub mod source;
