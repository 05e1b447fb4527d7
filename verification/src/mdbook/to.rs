//! Conversions from mdBook to other dialects.
pub mod typst;
