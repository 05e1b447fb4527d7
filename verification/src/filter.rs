//! The adaptors that hand out the events of one dialect and leave the others out.
pub use crate::markdown::MarkdownFilter;
pub use crate::mdbook::MdbookFilter;
pub use crate::typst::TypstFilter;
