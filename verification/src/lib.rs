//! Conversion between markup event dialects: a book's structure and its Markdown
//! become Typst events, and Typst events become Typst markup.
use vstd::prelude::*;

pub mod filter;
pub mod markdown;
pub mod mdbook;
pub mod stream;
pub mod text;
pub mod typst;

verus! {

/// An event of any of the dialects that a conversion works on.
#[derive(Clone, Debug, PartialEq)]
pub enum ParserEvent {
    Markdown(markdown::Event),
    Mdbook(mdbook::Event),
    Typst(typst::Event),
}

/// What a [`ParserEvent`] holds, as mathematical values.
pub enum ParserEventView {
    Markdown(markdown::EventView),
    Mdbook(mdbook::EventView),
    Typst(typst::EventView),
}

impl View for ParserEvent {
    type V = ParserEventView;

    open spec fn view(&self) -> ParserEventView {
        match *self {
            ParserEvent::Markdown(e) => ParserEventView::Markdown(e@),
            ParserEvent::Mdbook(e) => ParserEventView::Mdbook(e@),
            ParserEvent::Typst(e) => ParserEventView::Typst(e@),
        }
    }
}

} // verus!
