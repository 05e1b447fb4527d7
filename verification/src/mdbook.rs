//! The mdBook event dialect: the structure of a book, with the Markdown of its
//! chapters inside.
use crate::markdown;
use crate::text::opt_chars;
use crate::stream::{views, EventStream};
use crate::{ParserEvent, ParserEventView};
use vstd::prelude::*;

pub mod balance;
pub mod book;
pub mod laws;
pub mod parser;
pub mod parts;
pub mod to;

verus! {

/// The status of a chapter.
#[derive(Clone, Copy, Debug, PartialEq, Eq, Structural)]
pub enum ChapterStatus {
    Active,
    Draft,
}

/// The type of content.
#[derive(Clone, Copy, Debug, PartialEq, Eq, Structural)]
pub enum ContentType {
    Markdown,
}

/// The source of a chapter.
#[derive(Clone, Debug, PartialEq, Eq)]
pub enum ChapterSource {
    Url(String),
    Path(String),
}

/// Tags for elements that can contain other elements.
#[derive(Clone, Debug, PartialEq)]
pub enum Tag {
    /// A part separates the sections of a book: its title and, where the part is
    /// ordered, the number of its first chapter.
    Part(Option<String>, Option<u64>),
    /// A chapter: its status, its name, its source and, where the part is ordered,
    /// its number. Chapters can be nested.
    Chapter(ChapterStatus, String, Option<ChapterSource>, Option<u64>),
    /// The content of a chapter.
    Content(ContentType),
    /// The list of the book's authors. Holds only `Author` events.
    AuthorList,
}

/// One event of a book.
#[derive(Clone, Debug, PartialEq)]
pub enum Event {
    /// Start of a tagged element. The events up to the matching `End` are inside it.
    Start(Tag),
    /// End of a tagged element.
    End(Tag),
    /// The root path of the book.
    Root(String),
    /// The title of the book.
    Title(String),
    /// An author of the book.
    Author(String),
    /// A separator, which may stand before, between and after other elements.
    Separator,
    /// An event of a chapter's Markdown.
    MarkdownContentEvent(markdown::Event),
}

/// What a [`ChapterSource`] holds, as mathematical values.
pub enum ChapterSourceView {
    Url(Seq<char>),
    Path(Seq<char>),
}

/// What a [`Tag`] holds, as mathematical values.
pub enum TagView {
    Part(Option<Seq<char>>, Option<u64>),
    Chapter(ChapterStatus, Seq<char>, Option<ChapterSourceView>, Option<u64>),
    Content(ContentType),
    AuthorList,
}

/// What an [`Event`] holds, as mathematical values.
pub enum EventView {
    Start(TagView),
    End(TagView),
    Root(Seq<char>),
    Title(Seq<char>),
    Author(Seq<char>),
    Separator,
    MarkdownContentEvent(markdown::EventView),
}

impl View for ChapterSource {
    type V = ChapterSourceView;

    open spec fn view(&self) -> ChapterSourceView {
        match *self {
            ChapterSource::Url(u) => ChapterSourceView::Url(u@),
            ChapterSource::Path(p) => ChapterSourceView::Path(p@),
        }
    }
}

/// The view of an optional chapter source.
pub open spec fn opt_source(o: Option<ChapterSource>) -> Option<ChapterSourceView> {
    match o {
        Some(s) => Some(s@),
        None => None,
    }
}

impl View for Tag {
    type V = TagView;

    open spec fn view(&self) -> TagView {
        match *self {
            Tag::Part(title, first) => TagView::Part(opt_chars(title), first),
            Tag::Chapter(status, name, source, number) => TagView::Chapter(
                status,
                name@,
                opt_source(source),
                number,
            ),
            Tag::Content(ty) => TagView::Content(ty),
            Tag::AuthorList => TagView::AuthorList,
        }
    }
}

impl View for Event {
    type V = EventView;

    open spec fn view(&self) -> EventView {
        match *self {
            Event::Start(tag) => EventView::Start(tag@),
            Event::End(tag) => EventView::End(tag@),
            Event::Root(path) => EventView::Root(path@),
            Event::Title(title) => EventView::Title(title@),
            Event::Author(author) => EventView::Author(author@),
            Event::Separator => EventView::Separator,
            Event::MarkdownContentEvent(e) => EventView::MarkdownContentEvent(e@),
        }
    }
}

/// The Mdbook events among `events`, in their order.
pub open spec fn mdbook_only(events: Seq<ParserEventView>) -> Seq<EventView>
    decreases events.len(),
{
    if events.len() == 0 {
        Seq::empty()
    } else {
        match events[0] {
            ParserEventView::Mdbook(e) => seq![e] + mdbook_only(events.drop_first()),
            _ => mdbook_only(events.drop_first()),
        }
    }
}

/// Whether every event of `events` is an Mdbook event.
pub open spec fn all_mdbook(events: Seq<ParserEventView>) -> bool {
    forall|i: int| 0 <= i < events.len() ==> (#[trigger] events[i]) is Mdbook
}

/// Each Mdbook event as an event of any dialect.
pub open spec fn mdbook_wrapped(events: Seq<EventView>) -> Seq<ParserEventView> {
    events.map_values(|e: EventView| ParserEventView::Mdbook(e))
}

/// A stream that holds Mdbook events only, and hands them out as such. It
/// cannot be pulled where an event of another dialect is to come.
///
/// To leave the other events out instead, see [`MdbookFilter`].
pub struct AssertMdbook<T>(pub T);

impl<T: EventStream<Item = ParserEvent>> EventStream for AssertMdbook<T> {
    type Item = Event;

    open spec fn wf(&self) -> bool {
        self.0.wf() && all_mdbook(self.0.remaining())
    }

    open spec fn remaining(&self) -> Seq<EventView> {
        mdbook_only(self.0.remaining())
    }

    fn next(&mut self) -> (r: Option<Event>) {
        let ghost events = self.0.remaining();
        match self.0.next() {
            None => None,
            Some(ParserEvent::Mdbook(x)) => {
                proof {
                    assert forall|i: int| 0 <= i < events.drop_first().len() implies (
                    #[trigger] events.drop_first()[i]) is Mdbook by {
                        assert(events[i + 1] is Mdbook);
                    }
                    assert(self.remaining() =~= mdbook_only(events).drop_first());
                }
                Some(x)
            },
            Some(_) => {
                assert(events[0] is Mdbook);
                unreached()
            },
        }
    }
}

/// The Mdbook events of a stream; events of other dialects are left out.
///
/// To insist that there are no other events, see [`AssertMdbook`].
pub struct MdbookFilter<T>(pub T);

impl<T: EventStream<Item = ParserEvent>> EventStream for MdbookFilter<T> {
    type Item = Event;

    open spec fn wf(&self) -> bool {
        self.0.wf()
    }

    open spec fn remaining(&self) -> Seq<EventView> {
        mdbook_only(self.0.remaining())
    }

    fn next(&mut self) -> (r: Option<Event>) {
        loop
            invariant
                self.0.wf(),
                self.remaining() == old(self).remaining(),
            decreases self.0.remaining().len(),
        {
            let ghost events = self.0.remaining();
            match self.0.next() {
                None => {
                    return None;
                },
                Some(ParserEvent::Mdbook(x)) => {
                    assert(self.remaining() =~= mdbook_only(events).drop_first());
                    return Some(x);
                },
                Some(_) => {},
            }
        }
    }
}

/// The events of a Mdbook stream, as events of any dialect.
pub struct MdbookIter<T>(pub T);

impl<T: EventStream<Item = Event>> EventStream for MdbookIter<T> {
    type Item = ParserEvent;

    open spec fn wf(&self) -> bool {
        self.0.wf()
    }

    open spec fn remaining(&self) -> Seq<ParserEventView> {
        mdbook_wrapped(self.0.remaining())
    }

    fn next(&mut self) -> (r: Option<ParserEvent>) {
        match self.0.next() {
            Some(e) => {
                assert(self.remaining() =~= old(self).remaining().drop_first());
                Some(ParserEvent::Mdbook(e))
            },
            None => None,
        }
    }
}

/// Whether every event of the list is an Mdbook event, so that
/// [`AssertMdbook`] can hand all of them out.
pub fn only_mdbook(events: &Vec<ParserEvent>) -> (b: bool)
    ensures
        b == all_mdbook(views(events@)),
{
    let mut i: usize = 0;
    while i < events.len()
        invariant
            i <= events.len(),
            forall|j: int| 0 <= j < i ==> (#[trigger] views(events@)[j]) is Mdbook,
        decreases events.len() - i,
    {
        match &events[i] {
            ParserEvent::Mdbook(_) => {},
            _ => {
                assert(!(views(events@)[i as int] is Mdbook));
                return false;
            },
        }
        i = i + 1;
    }
    true
}

} // verus!
