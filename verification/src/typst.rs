//! The Typst event dialect: the events that Typst markup is rendered from.
use crate::text::{list_chars, opt_chars, opt_pair_chars};
use crate::stream::{views, EventStream};
use crate::{ParserEvent, ParserEventView};
use vstd::prelude::*;

pub mod laws;
pub mod markup;

verus! {

/// How to display a code block.
#[derive(Clone, Copy, Debug, PartialEq, Eq, Structural)]
pub enum CodeBlockDisplay {
    Block,
    Inline,
}

/// Item appearance in bookmarks.
#[derive(Clone, Copy, Debug, PartialEq, Eq, Structural)]
pub enum Bookmarks {
    Include,
    Exclude,
}

/// Item appearance in the table of contents.
#[derive(Clone, Copy, Debug, PartialEq, Eq, Structural)]
pub enum TableOfContents {
    Include,
    Exclude,
}

/// The pattern to use when numbering items.
#[derive(Clone, Debug, PartialEq, Eq)]
pub struct NumberingPattern(pub String);

/// Type specifier for show rules.
#[derive(Clone, Copy, Debug, PartialEq, Eq, Structural)]
pub enum ShowType {
    ShowSet,
    Function,
}

/// Type specifier for links.
#[derive(Clone, Copy, Debug, PartialEq, Eq, Structural)]
pub enum LinkType {
    /// A link like `#link("https://example.com")`.
    Url,
    /// A link like `#link("https://example.com")[my cool content]`.
    Content,
    /// An autolink like `http://foo.bar/baz`.
    Autolink,
}

/// Type specifier for a quote.
#[derive(Clone, Copy, Debug, PartialEq, Eq, Structural)]
pub enum QuoteType {
    Block,
    Inline,
}

/// Whether to wrap a quote in quote marks.
#[derive(Clone, Copy, Debug, PartialEq, Eq, Structural)]
pub enum QuoteQuotes {
    WrapInDoubleQuotes,
    DoNotWrapInDoubleQuotes,
    Auto,
}

/// Alignment of a table cell.
#[derive(Clone, Copy, Debug, PartialEq, Eq, Structural)]
pub enum TableCellAlignment {
    Left,
    Center,
    Right,
    /// No alignment is given.
    Unaligned,
}

/// Tags for elements that can contain other elements.
#[derive(Clone, Debug, PartialEq)]
pub enum Tag {
    /// A paragraph of text and other inline elements.
    Paragraph,
    /// A show rule: its type, the selector, the set data (element, key, value) of a
    /// show-set rule, and the function body of a function rule.
    Show(ShowType, String, Option<(String, String, String)>, Option<String>),
    /// A heading: its level, which is 1 for the topmost and never 0, and whether
    /// it appears in the outline and in the bookmarks.
    Heading(u8, TableOfContents, Bookmarks),
    /// A code block: the fence label if there is one, and how to display it.
    CodeBlock(Option<String>, CodeBlockDisplay),
    /// A bulleted list: its marker and whether it is tight. Contains only items.
    BulletList(Option<String>, bool),
    /// A numbered list: the first number, the numbering pattern and whether it is
    /// tight. Contains only items.
    NumberedList(u64, Option<NumberingPattern>, bool),
    /// A list item.
    Item,
    /// A quote: block or inline, the quote-mark policy, and the attribution.
    Quote(QuoteType, QuoteQuotes, Option<String>),
    Emphasis,
    Strong,
    Strikethrough,
    /// A link: its type and the destination.
    Link(LinkType, String),
    /// A table: the alignment of each column.
    Table(Vec<TableCellAlignment>),
    /// A table header row.
    TableHead,
    /// A table row.
    TableRow,
    /// A table cell.
    TableCell,
}

/// One event of a Typst document.
#[derive(Clone, Debug, PartialEq)]
pub enum Event {
    /// Start of a tagged element. The events up to the matching `End` are inside it.
    Start(Tag),
    /// End of a tagged element.
    End(Tag),
    /// A text node.
    Text(String),
    /// An inline code node.
    Code(String),
    /// A soft line break.
    Linebreak,
    /// A hard line break.
    Parbreak,
    /// A page break.
    PageBreak,
    /// A line: start point, end point, length, angle and stroke.
    Line(
        Option<(String, String)>,
        Option<(String, String)>,
        Option<String>,
        Option<String>,
        Option<String>,
    ),
    /// A let binding: left-hand side and right-hand side.
    Let(String, String),
    /// A function call: the target variable (without `#`), the function's name and
    /// the arguments.
    FunctionCall(Option<String>, String, Vec<String>),
    /// A call of `document` with the given arguments.
    DocumentFunctionCall(Vec<String>),
    /// A set rule: element, key and value.
    SetRule(String, String, String),
    /// A set rule on `document`: parameter name and value.
    DocumentSet(String, String),
    /// Raw text that is handed through to Typst as it is.
    Raw(String),
}

/// What a [`Tag`] holds, as mathematical values.
pub enum TagView {
    Paragraph,
    Show(ShowType, Seq<char>, Option<(Seq<char>, Seq<char>, Seq<char>)>, Option<Seq<char>>),
    Heading(u8, TableOfContents, Bookmarks),
    CodeBlock(Option<Seq<char>>, CodeBlockDisplay),
    BulletList(Option<Seq<char>>, bool),
    NumberedList(u64, Option<Seq<char>>, bool),
    Item,
    Quote(QuoteType, QuoteQuotes, Option<Seq<char>>),
    Emphasis,
    Strong,
    Strikethrough,
    Link(LinkType, Seq<char>),
    Table(Seq<TableCellAlignment>),
    TableHead,
    TableRow,
    TableCell,
}

/// What an [`Event`] holds, as mathematical values.
pub enum EventView {
    Start(TagView),
    End(TagView),
    Text(Seq<char>),
    Code(Seq<char>),
    Linebreak,
    Parbreak,
    PageBreak,
    Line(
        Option<(Seq<char>, Seq<char>)>,
        Option<(Seq<char>, Seq<char>)>,
        Option<Seq<char>>,
        Option<Seq<char>>,
        Option<Seq<char>>,
    ),
    Let(Seq<char>, Seq<char>),
    FunctionCall(Option<Seq<char>>, Seq<char>, Seq<Seq<char>>),
    DocumentFunctionCall(Seq<Seq<char>>),
    SetRule(Seq<char>, Seq<char>, Seq<char>),
    DocumentSet(Seq<char>, Seq<char>),
    Raw(Seq<char>),
}

impl View for NumberingPattern {
    type V = Seq<char>;

    open spec fn view(&self) -> Seq<char> {
        self.0@
    }
}

impl View for Tag {
    type V = TagView;

    open spec fn view(&self) -> TagView {
        match *self {
            Tag::Paragraph => TagView::Paragraph,
            Tag::Show(ty, selector, set, func) => TagView::Show(
                ty,
                selector@,
                match set {
                    Some(t) => Some((t.0@, t.1@, t.2@)),
                    None => None,
                },
                opt_chars(func),
            ),
            Tag::Heading(level, toc, bookmarks) => TagView::Heading(level, toc, bookmarks),
            Tag::CodeBlock(fence, display) => TagView::CodeBlock(opt_chars(fence), display),
            Tag::BulletList(marker, tight) => TagView::BulletList(opt_chars(marker), tight),
            Tag::NumberedList(first, pattern, tight) => TagView::NumberedList(
                first,
                match pattern {
                    Some(p) => Some(p@),
                    None => None,
                },
                tight,
            ),
            Tag::Item => TagView::Item,
            Tag::Quote(ty, quotes, attribution) => TagView::Quote(
                ty,
                quotes,
                opt_chars(attribution),
            ),
            Tag::Emphasis => TagView::Emphasis,
            Tag::Strong => TagView::Strong,
            Tag::Strikethrough => TagView::Strikethrough,
            Tag::Link(ty, url) => TagView::Link(ty, url@),
            Tag::Table(alignment) => TagView::Table(alignment@),
            Tag::TableHead => TagView::TableHead,
            Tag::TableRow => TagView::TableRow,
            Tag::TableCell => TagView::TableCell,
        }
    }
}

impl View for Event {
    type V = EventView;

    open spec fn view(&self) -> EventView {
        match *self {
            Event::Start(tag) => EventView::Start(tag@),
            Event::End(tag) => EventView::End(tag@),
            Event::Text(t) => EventView::Text(t@),
            Event::Code(t) => EventView::Code(t@),
            Event::Linebreak => EventView::Linebreak,
            Event::Parbreak => EventView::Parbreak,
            Event::PageBreak => EventView::PageBreak,
            Event::Line(start, end, length, angle, stroke) => EventView::Line(
                opt_pair_chars(start),
                opt_pair_chars(end),
                opt_chars(length),
                opt_chars(angle),
                opt_chars(stroke),
            ),
            Event::Let(lhs, rhs) => EventView::Let(lhs@, rhs@),
            Event::FunctionCall(target, name, args) => EventView::FunctionCall(
                opt_chars(target),
                name@,
                list_chars(args@),
            ),
            Event::DocumentFunctionCall(args) => EventView::DocumentFunctionCall(
                list_chars(args@),
            ),
            Event::SetRule(element, key, value) => EventView::SetRule(element@, key@, value@),
            Event::DocumentSet(key, value) => EventView::DocumentSet(key@, value@),
            Event::Raw(t) => EventView::Raw(t@),
        }
    }
}

/// The Typst events among `events`, in their order.
pub open spec fn typst_only(events: Seq<ParserEventView>) -> Seq<EventView>
    decreases events.len(),
{
    if events.len() == 0 {
        Seq::empty()
    } else {
        match events[0] {
            ParserEventView::Typst(e) => seq![e] + typst_only(events.drop_first()),
            _ => typst_only(events.drop_first()),
        }
    }
}

/// Whether every event of `events` is a Typst event.
pub open spec fn all_typst(events: Seq<ParserEventView>) -> bool {
    forall|i: int| 0 <= i < events.len() ==> (#[trigger] events[i]) is Typst
}

/// Each Typst event as an event of any dialect.
pub open spec fn typst_wrapped(events: Seq<EventView>) -> Seq<ParserEventView> {
    events.map_values(|e: EventView| ParserEventView::Typst(e))
}

/// A stream that holds Typst events only, and hands them out as such. It
/// cannot be pulled where an event of another dialect is to come.
///
/// To leave the other events out instead, see [`TypstFilter`].
pub struct AssertTypst<T>(pub T);

impl<T: EventStream<Item = ParserEvent>> EventStream for AssertTypst<T> {
    type Item = Event;

    open spec fn wf(&self) -> bool {
        self.0.wf() && all_typst(self.0.remaining())
    }

    open spec fn remaining(&self) -> Seq<EventView> {
        typst_only(self.0.remaining())
    }

    fn next(&mut self) -> (r: Option<Event>) {
        let ghost events = self.0.remaining();
        match self.0.next() {
            None => None,
            Some(ParserEvent::Typst(x)) => {
                proof {
                    assert forall|i: int| 0 <= i < events.drop_first().len() implies (
                    #[trigger] events.drop_first()[i]) is Typst by {
                        assert(events[i + 1] is Typst);
                    }
                    assert(self.remaining() =~= typst_only(events).drop_first());
                }
                Some(x)
            },
            Some(_) => {
                assert(events[0] is Typst);
                unreached()
            },
        }
    }
}

/// The Typst events of a stream; events of other dialects are left out.
///
/// To insist that there are no other events, see [`AssertTypst`].
pub struct TypstFilter<T>(pub T);

impl<T: EventStream<Item = ParserEvent>> EventStream for TypstFilter<T> {
    type Item = Event;

    open spec fn wf(&self) -> bool {
        self.0.wf()
    }

    open spec fn remaining(&self) -> Seq<EventView> {
        typst_only(self.0.remaining())
    }

    fn next(&mut self) -> (r: Option<Event>) {
        loop
            invariant
                self.0.wf(),
                self.remaining() == old(self).remaining(),
            decreases self.0.remaining().len(),
        {
            let ghost events = self.0.remaining();
            match self.0.next() {
                None => {
                    return None;
                },
                Some(ParserEvent::Typst(x)) => {
                    assert(self.remaining() =~= typst_only(events).drop_first());
                    return Some(x);
                },
                Some(_) => {},
            }
        }
    }
}

/// The events of a Typst stream, as events of any dialect.
pub struct TypstIter<T>(pub T);

impl<T: EventStream<Item = Event>> EventStream for TypstIter<T> {
    type Item = ParserEvent;

    open spec fn wf(&self) -> bool {
        self.0.wf()
    }

    open spec fn remaining(&self) -> Seq<ParserEventView> {
        typst_wrapped(self.0.remaining())
    }

    fn next(&mut self) -> (r: Option<ParserEvent>) {
        match self.0.next() {
            Some(e) => {
                assert(self.remaining() =~= old(self).remaining().drop_first());
                Some(ParserEvent::Typst(e))
            },
            None => None,
        }
    }
}

/// Whether every event of the list is a Typst event, so that
/// [`AssertTypst`] can hand all of them out.
pub fn only_typst(events: &Vec<ParserEvent>) -> (b: bool)
    ensures
        b == all_typst(views(events@)),
{
    let mut i: usize = 0;
    while i < events.len()
        invariant
            i <= events.len(),
            forall|j: int| 0 <= j < i ==> (#[trigger] views(events@)[j]) is Typst,
        decreases events.len() - i,
    {
        match &events[i] {
            ParserEvent::Typst(_) => {},
            _ => {
                assert(!(views(events@)[i as int] is Typst));
                return false;
            },
        }
        i = i + 1;
    }
    true
}

} // verus!
