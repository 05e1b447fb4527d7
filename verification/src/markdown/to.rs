//! Conversions from Markdown to other dialects.
pub mod typst;
