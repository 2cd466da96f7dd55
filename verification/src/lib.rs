//! Conversion core for turning parsed HTML into Atlassian Document Format
//! (ADF) trees: a tag registry, a nesting grammar, and a leaf extractor.

pub mod text;
pub mod html;
pub mod extractor;
pub mod grammar;
pub mod registry;
