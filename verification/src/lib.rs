//! A literal-substring line-search library: deciding which lines of text
//! match a pattern, and rendering the matching lines with optional
//! filename / line-number prefixes and highlighted occurrences.

pub mod collect;
pub mod format;
pub mod highlight;
pub mod matcher;
pub mod options;
