//! Paragraph-level diffing of labeled manuscript snapshots, with citation and
//! cross-reference resolution.
//!
//! The library extracts labeled paragraphs from two document snapshots,
//! aligns a pair of paragraphs word by word into same/added/removed segments,
//! parses auxiliary metadata into citation and reference tables, and rewrites
//! embedded formatting commands against those tables.

pub mod util;
pub mod table;
pub mod labels;
pub mod meta;
pub mod diff;
pub mod commands;
pub mod lookup;
