//! Counts source lines (total, code, comment, blank) per language.
//!
//! The crate is organised around three components:
//! - `lang`: the language registry, mapping file extensions (and a few bare
//!   file names) to a language and each language to its comment syntax;
//! - `counter`: the line classifier, a finite-state scan over the lines of
//!   one file that tallies code, comment and blank lines;
//! - `scanner`: the aggregator, which merges per-file tallies by language,
//!   orders them and appends a grand total.
//!
//! Reading files, walking directory trees and printing the final table are
//! left to the embedding program; everything here is pure computation on
//! byte strings and records.

pub mod counter;
pub mod lang;
pub mod scanner;
pub mod text;
