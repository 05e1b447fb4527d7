//! A loaded book, as far as the conversion reads it.
use vstd::prelude::*;

verus! {

/// The metadata of a book.
#[derive(Clone, Debug, Default, PartialEq)]
pub struct Config {
    /// The title of the book.
    pub title: Option<String>,
    /// The authors of the book.
    pub authors: Vec<String>,
}

/// A chapter of a book.
#[derive(Debug, Default, PartialEq)]
pub struct Chapter {
    /// The chapter's name.
    pub name: String,
    /// The chapter's Markdown.
    pub content: String,
    /// The chapter's location, relative to the summary. A chapter without one is a
    /// draft.
    pub path: Option<String>,
    /// The chapter's source file, relative to the summary.
    pub source_path: Option<String>,
    /// The chapters below this one.
    pub sub_items: Vec<BookItem>,
}

/// An item of a book's table of contents.
#[derive(Debug, PartialEq)]
pub enum BookItem {
    /// A chapter, with the chapters below it.
    Chapter(Chapter),
    /// A separator.
    Separator,
    /// The title of the part that begins here.
    PartTitle(String),
}

/// A book as a library loads it.
#[derive(Debug, Default, PartialEq)]
pub struct MDBook {
    /// The root directory of the book.
    pub root: String,
    /// The book's metadata.
    pub config: Config,
    /// The items of the table of contents.
    pub sections: Vec<BookItem>,
}

/// A book as a renderer is handed it.
#[derive(Debug, Default, PartialEq)]
pub struct RenderContext {
    /// The root directory of the book.
    pub root: String,
    /// The book's metadata.
    pub config: Config,
    /// The items of the table of contents.
    pub sections: Vec<BookItem>,
}

impl Chapter {
    /// Whether the chapter is a draft: it has no location.
    pub fn is_draft_chapter(&self) -> (b: bool)
        ensures
            b == (self.path is None),
    {
        self.path.is_none()
    }
}

} // verus!
