//! The Markdown event dialect: the events that a Markdown tokenizer produces.
use crate::text::{list_chars, opt_chars};
use crate::stream::{views, EventStream};
use crate::{ParserEvent, ParserEventView};
use vstd::prelude::*;

pub mod merge;
pub mod parse;
pub mod strip;
pub mod to;

verus! {

/// The level of a heading, `H1` being the topmost.
#[derive(Clone, Copy, Debug, PartialEq, Eq)]
pub enum HeadingLevel {
    H1,
    H2,
    H3,
    H4,
    H5,
    H6,
}

/// How a link was written.
#[derive(Clone, Copy, Debug, PartialEq, Eq)]
pub enum LinkType {
    /// Inline link like `[foo](bar)`.
    Inline,
    /// Reference link like `[foo][bar]`.
    Reference,
    /// Reference without a destination in the document.
    ReferenceUnknown,
    /// Collapsed link like `[foo][]`.
    Collapsed,
    /// Collapsed link without a destination in the document.
    CollapsedUnknown,
    /// Shortcut link like `[foo]`.
    Shortcut,
    /// Shortcut link without a destination in the document.
    ShortcutUnknown,
    /// Autolink like `<http://foo.bar/baz>`.
    Autolink,
    /// Email address in an autolink like `<john@example.org>`.
    Email,
}

/// The alignment of a table column.
#[derive(Clone, Copy, Debug, PartialEq, Eq)]
pub enum Alignment {
    /// No alignment is given.
    Unaligned,
    Left,
    Center,
    Right,
}

/// The kind of a code block.
#[derive(Clone, Debug, PartialEq)]
pub enum CodeBlockKind {
    Indented,
    /// A fenced block; the value is the text after the opening fence, which may be
    /// empty.
    Fenced(String),
}

/// Tags for elements that can contain other elements.
#[derive(Clone, Debug, PartialEq)]
pub enum Tag {
    /// A paragraph of text and other inline elements.
    Paragraph,
    /// A heading: its level, its fragment identifier and its classes.
    Heading(HeadingLevel, Option<String>, Vec<String>),
    BlockQuote,
    /// A code block.
    CodeBlock(CodeBlockKind),
    /// A list; an ordered list holds the number of its first item.
    List(Option<u64>),
    /// A list item.
    Item,
    /// A footnote definition, with the label by which it is referred to.
    FootnoteDefinition(String),
    /// A table, with the alignment of each column.
    Table(Vec<Alignment>),
    TableHead,
    TableRow,
    TableCell,
    Emphasis,
    Strong,
    Strikethrough,
    /// A link: its type, the destination and the title.
    Link(LinkType, String, String),
    /// An image: its type, the destination and the title.
    Image(LinkType, String, String),
}

/// One event of a Markdown document.
#[derive(Clone, Debug, PartialEq)]
pub enum Event {
    /// Start of a tagged element. The events up to the matching `End` are inside it.
    Start(Tag),
    /// End of a tagged element.
    End(Tag),
    /// A text node.
    Text(String),
    /// An inline code node.
    Code(String),
    /// An HTML node.
    Html(String),
    /// A reference to a footnote with the given label.
    FootnoteReference(String),
    /// A soft line break.
    SoftBreak,
    /// A hard line break.
    HardBreak,
    /// A horizontal ruler.
    Rule,
    /// A task list marker; the value says whether it is checked.
    TaskListMarker(bool),
}

/// What a [`CodeBlockKind`] holds, as mathematical values.
pub enum CodeBlockKindView {
    Indented,
    Fenced(Seq<char>),
}

/// What a [`Tag`] holds, as mathematical values.
pub enum TagView {
    Paragraph,
    Heading(HeadingLevel, Option<Seq<char>>, Seq<Seq<char>>),
    BlockQuote,
    CodeBlock(CodeBlockKindView),
    List(Option<u64>),
    Item,
    FootnoteDefinition(Seq<char>),
    Table(Seq<Alignment>),
    TableHead,
    TableRow,
    TableCell,
    Emphasis,
    Strong,
    Strikethrough,
    Link(LinkType, Seq<char>, Seq<char>),
    Image(LinkType, Seq<char>, Seq<char>),
}

/// What an [`Event`] holds, as mathematical values.
pub enum EventView {
    Start(TagView),
    End(TagView),
    Text(Seq<char>),
    Code(Seq<char>),
    Html(Seq<char>),
    FootnoteReference(Seq<char>),
    SoftBreak,
    HardBreak,
    Rule,
    TaskListMarker(bool),
}

impl View for CodeBlockKind {
    type V = CodeBlockKindView;

    open spec fn view(&self) -> CodeBlockKindView {
        match *self {
            CodeBlockKind::Indented => CodeBlockKindView::Indented,
            CodeBlockKind::Fenced(label) => CodeBlockKindView::Fenced(label@),
        }
    }
}

impl View for Tag {
    type V = TagView;

    open spec fn view(&self) -> TagView {
        match *self {
            Tag::Paragraph => TagView::Paragraph,
            Tag::Heading(level, id, classes) => TagView::Heading(
                level,
                opt_chars(id),
                list_chars(classes@),
            ),
            Tag::BlockQuote => TagView::BlockQuote,
            Tag::CodeBlock(kind) => TagView::CodeBlock(kind@),
            Tag::List(first) => TagView::List(first),
            Tag::Item => TagView::Item,
            Tag::FootnoteDefinition(label) => TagView::FootnoteDefinition(label@),
            Tag::Table(alignment) => TagView::Table(alignment@),
            Tag::TableHead => TagView::TableHead,
            Tag::TableRow => TagView::TableRow,
            Tag::TableCell => TagView::TableCell,
            Tag::Emphasis => TagView::Emphasis,
            Tag::Strong => TagView::Strong,
            Tag::Strikethrough => TagView::Strikethrough,
            Tag::Link(ty, url, title) => TagView::Link(ty, url@, title@),
            Tag::Image(ty, url, title) => TagView::Image(ty, url@, title@),
        }
    }
}

impl View for Event {
    type V = EventView;

    open spec fn view(&self) -> EventView {
        match *self {
            Event::Start(tag) => EventView::Start(tag@),
            Event::End(tag) => EventView::End(tag@),
            Event::Text(t) => EventView::Text(t@),
            Event::Code(t) => EventView::Code(t@),
            Event::Html(t) => EventView::Html(t@),
            Event::FootnoteReference(t) => EventView::FootnoteReference(t@),
            Event::SoftBreak => EventView::SoftBreak,
            Event::HardBreak => EventView::HardBreak,
            Event::Rule => EventView::Rule,
            Event::TaskListMarker(checked) => EventView::TaskListMarker(checked),
        }
    }
}

/// The Markdown events among `events`, in their order.
pub open spec fn markdown_only(events: Seq<ParserEventView>) -> Seq<EventView>
    decreases events.len(),
{
    if events.len() == 0 {
        Seq::empty()
    } else {
        match events[0] {
            ParserEventView::Markdown(e) => seq![e] + markdown_only(events.drop_first()),
            _ => markdown_only(events.drop_first()),
        }
    }
}

/// Whether every event of `events` is a Markdown event.
pub open spec fn all_markdown(events: Seq<ParserEventView>) -> bool {
    forall|i: int| 0 <= i < events.len() ==> (#[trigger] events[i]) is Markdown
}

/// Each Markdown event as an event of any dialect.
pub open spec fn markdown_wrapped(events: Seq<EventView>) -> Seq<ParserEventView> {
    events.map_values(|e: EventView| ParserEventView::Markdown(e))
}

/// A stream that holds Markdown events only, and hands them out as such. It
/// cannot be pulled where an event of another dialect is to come.
///
/// To leave the other events out instead, see [`MarkdownFilter`].
pub struct AssertMarkdown<T>(pub T);

impl<T: EventStream<Item = ParserEvent>> EventStream for AssertMarkdown<T> {
    type Item = Event;

    open spec fn wf(&self) -> bool {
        self.0.wf() && all_markdown(self.0.remaining())
    }

    open spec fn remaining(&self) -> Seq<EventView> {
        markdown_only(self.0.remaining())
    }

    fn next(&mut self) -> (r: Option<Event>) {
        let ghost events = self.0.remaining();
        match self.0.next() {
            None => None,
            Some(ParserEvent::Markdown(x)) => {
                proof {
                    assert forall|i: int| 0 <= i < events.drop_first().len() implies (
                    #[trigger] events.drop_first()[i]) is Markdown by {
                        assert(events[i + 1] is Markdown);
                    }
                    assert(self.remaining() =~= markdown_only(events).drop_first());
                }
                Some(x)
            },
            Some(_) => {
                assert(events[0] is Markdown);
                unreached()
            },
        }
    }
}

/// The Markdown events of a stream; events of other dialects are left out.
///
/// To insist that there are no other events, see [`AssertMarkdown`].
pub struct MarkdownFilter<T>(pub T);

impl<T: EventStream<Item = ParserEvent>> EventStream for MarkdownFilter<T> {
    type Item = Event;

    open spec fn wf(&self) -> bool {
        self.0.wf()
    }

    open spec fn remaining(&self) -> Seq<EventView> {
        markdown_only(self.0.remaining())
    }

    fn next(&mut self) -> (r: Option<Event>) {
        loop
            invariant
                self.0.wf(),
                self.remaining() == old(self).remaining(),
            decreases self.0.remaining().len(),
        {
            let ghost events = self.0.remaining();
            match self.0.next() {
                None => {
                    return None;
                },
                Some(ParserEvent::Markdown(x)) => {
                    assert(self.remaining() =~= markdown_only(events).drop_first());
                    return Some(x);
                },
                Some(_) => {},
            }
        }
    }
}

/// The events of a Markdown stream, as events of any dialect.
pub struct MarkdownIter<T>(pub T);

impl<T: EventStream<Item = Event>> EventStream for MarkdownIter<T> {
    type Item = ParserEvent;

    open spec fn wf(&self) -> bool {
        self.0.wf()
    }

    open spec fn remaining(&self) -> Seq<ParserEventView> {
        markdown_wrapped(self.0.remaining())
    }

    fn next(&mut self) -> (r: Option<ParserEvent>) {
        match self.0.next() {
            Some(e) => {
                assert(self.remaining() =~= old(self).remaining().drop_first());
                Some(ParserEvent::Markdown(e))
            },
            None => None,
        }
    }
}

/// Whether every event of the list is a Markdown event, so that
/// [`AssertMarkdown`] can hand all of them out.
pub fn only_markdown(events: &Vec<ParserEvent>) -> (b: bool)
    ensures
        b == all_markdown(views(events@)),
{
    let mut i: usize = 0;
    while i < events.len()
        invariant
            i <= events.len(),
            forall|j: int| 0 <= j < i ==> (#[trigger] views(events@)[j]) is Markdown,
        decreases events.len() - i,
    {
        match &events[i] {
            ParserEvent::Markdown(_) => {},
            _ => {
                assert(!(views(events@)[i as int] is Markdown));
                return false;
            },
        }
        i = i + 1;
    }
    true
}

} // verus!
