//! A conversion from mdBook to Typst, stage by stage.
use crate::markdown::to::typst::{
    block_quotes_converted, code_converted, emphasis_converted, hard_breaks_converted,
    headings_converted, links_converted, lists_converted, paragraphs_converted,
    soft_breaks_converted, strong_converted, text_converted, ConvertBlockQuotes, ConvertCode,
    ConvertEmphasis, ConvertHardBreaks, ConvertHeadings, ConvertLinks, ConvertLists,
    ConvertParagraphs, ConvertSoftBreaks, ConvertStrong, ConvertText,
};
use crate::mdbook;
use crate::mdbook::to::typst::{
    authors_converted, chapters_converted, content_converted, title_converted, ConvertAuthors,
    ConvertChapter, ConvertContent, ConvertTitle,
};
use crate::mdbook::{mdbook_wrapped, MdbookIter};
use crate::stream::{EventStream, Switch};
use crate::ParserEventView;
use vstd::prelude::*;

verus! {

/// For each stage of a conversion, whether it is applied.
///
/// The stages for a chapter's Markdown, from `headings` on, are applied only
/// where `content` is on as well.
#[derive(Clone, Copy, Debug, PartialEq, Eq)]
pub struct Stages {
    pub title: bool,
    pub authors: bool,
    pub chapters: bool,
    pub content: bool,
    pub headings: bool,
    pub paragraphs: bool,
    pub soft_breaks: bool,
    pub hard_breaks: bool,
    pub text: bool,
    pub strong: bool,
    pub emphasis: bool,
    pub blockquotes: bool,
    pub lists: bool,
    pub code: bool,
    pub links: bool,
}

/// A conversion of mdBook events to Typst events: the events, and the stages to
/// apply to them.
///
/// For more control over the conversion, use the stages themselves. A stage that
/// is switched off leaves its events to whatever works on the result.
pub struct Conversion<T> {
    pub events: T,
    pub stages: Stages,
}

/// Sets up a [`Conversion`]. Every stage is applied unless it is switched off.
pub struct ConversionBuilder<T> {
    pub conversion: Conversion<T>,
}

impl Stages {
    /// Every stage.
    pub open spec fn all() -> Stages {
        Stages {
            title: true,
            authors: true,
            chapters: true,
            content: true,
            headings: true,
            paragraphs: true,
            soft_breaks: true,
            hard_breaks: true,
            text: true,
            strong: true,
            emphasis: true,
            blockquotes: true,
            lists: true,
            code: true,
            links: true,
        }
    }

    /// The events after the stages up to the one for the title.
    pub open spec fn after_title(self, events: Seq<ParserEventView>) -> Seq<ParserEventView> {
        let s = events;
        if self.title {
            title_converted(s)
        } else {
            s
        }
    }

    /// The events after the stages up to the one for the authors.
    pub open spec fn after_authors(self, events: Seq<ParserEventView>) -> Seq<ParserEventView> {
        let s = self.after_title(events);
        if self.authors {
            authors_converted(s, Seq::empty())
        } else {
            s
        }
    }

    /// The events after the stages up to the one for the chapters.
    pub open spec fn after_chapters(self, events: Seq<ParserEventView>) -> Seq<ParserEventView> {
        let s = self.after_authors(events);
        if self.chapters {
            chapters_converted(s, 0)
        } else {
            s
        }
    }

    /// The events after the stages up to the one for the unwrapping of the Markdown.
    pub open spec fn after_content(self, events: Seq<ParserEventView>) -> Seq<ParserEventView> {
        let s = self.after_chapters(events);
        if self.content {
            content_converted(s)
        } else {
            s
        }
    }

    /// The events after the stages up to the one for the headings.
    pub open spec fn after_headings(self, events: Seq<ParserEventView>) -> Seq<ParserEventView> {
        let s = self.after_content(events);
        if self.content && self.headings {
            headings_converted(s)
        } else {
            s
        }
    }

    /// The events after the stages up to the one for the paragraphs.
    pub open spec fn after_paragraphs(self, events: Seq<ParserEventView>) -> Seq<ParserEventView> {
        let s = self.after_headings(events);
        if self.content && self.paragraphs {
            paragraphs_converted(s)
        } else {
            s
        }
    }

    /// The events after the stages up to the one for the soft breaks.
    pub open spec fn after_soft_breaks(self, events: Seq<ParserEventView>) -> Seq<ParserEventView> {
        let s = self.after_paragraphs(events);
        if self.content && self.soft_breaks {
            soft_breaks_converted(s)
        } else {
            s
        }
    }

    /// The events after the stages up to the one for the hard breaks.
    pub open spec fn after_hard_breaks(self, events: Seq<ParserEventView>) -> Seq<ParserEventView> {
        let s = self.after_soft_breaks(events);
        if self.content && self.hard_breaks {
            hard_breaks_converted(s)
        } else {
            s
        }
    }

    /// The events after the stages up to the one for the text.
    pub open spec fn after_text(self, events: Seq<ParserEventView>) -> Seq<ParserEventView> {
        let s = self.after_hard_breaks(events);
        if self.content && self.text {
            text_converted(s, 0)
        } else {
            s
        }
    }

    /// The events after the stages up to the one for the strong text.
    pub open spec fn after_strong(self, events: Seq<ParserEventView>) -> Seq<ParserEventView> {
        let s = self.after_text(events);
        if self.content && self.strong {
            strong_converted(s)
        } else {
            s
        }
    }

    /// The events after the stages up to the one for the emphasis.
    pub open spec fn after_emphasis(self, events: Seq<ParserEventView>) -> Seq<ParserEventView> {
        let s = self.after_strong(events);
        if self.content && self.emphasis {
            emphasis_converted(s)
        } else {
            s
        }
    }

    /// The events after the stages up to the one for the block quotes.
    pub open spec fn after_blockquotes(self, events: Seq<ParserEventView>) -> Seq<ParserEventView> {
        let s = self.after_emphasis(events);
        if self.content && self.blockquotes {
            block_quotes_converted(s)
        } else {
            s
        }
    }

    /// The events after the stages up to the one for the lists.
    pub open spec fn after_lists(self, events: Seq<ParserEventView>) -> Seq<ParserEventView> {
        let s = self.after_blockquotes(events);
        if self.content && self.lists {
            lists_converted(s)
        } else {
            s
        }
    }

    /// The events after the stages up to the one for the code.
    pub open spec fn after_code(self, events: Seq<ParserEventView>) -> Seq<ParserEventView> {
        let s = self.after_lists(events);
        if self.content && self.code {
            code_converted(s)
        } else {
            s
        }
    }

    /// The events after the stages up to the one for the links.
    pub open spec fn after_links(self, events: Seq<ParserEventView>) -> Seq<ParserEventView> {
        let s = self.after_code(events);
        if self.content && self.links {
            links_converted(s)
        } else {
            s
        }
    }

    /// What the stages make of the events: the stages that are on, in their fixed
    /// order.
    pub open spec fn converted(self, events: Seq<ParserEventView>) -> Seq<ParserEventView> {
        self.after_links(events)
    }
}

impl Conversion<()> {
    /// A builder without events yet, with every stage switched on.
    pub fn builder() -> (r: ConversionBuilder<()>)
        ensures
            r.conversion.stages == Stages::all(),
    {
        ConversionBuilder {
            conversion: Conversion {
                events: (),
                stages: Stages {
                    title: true,
                    authors: true,
                    chapters: true,
                    content: true,
                    headings: true,
                    paragraphs: true,
                    soft_breaks: true,
                    hard_breaks: true,
                    text: true,
                    strong: true,
                    emphasis: true,
                    blockquotes: true,
                    lists: true,
                    code: true,
                    links: true,
                },
            },
        }
    }
}

type Titled<T> = Switch<ConvertTitle<MdbookIter<T>>>;

type Authored<T> = Switch<ConvertAuthors<Titled<T>>>;

type Chaptered<T> = Switch<ConvertChapter<Authored<T>>>;

type Unwrapped<T> = Switch<ConvertContent<Chaptered<T>>>;

type WithHeadings<T> = Switch<ConvertHeadings<Unwrapped<T>>>;

type WithParagraphs<T> = Switch<ConvertParagraphs<WithHeadings<T>>>;

type WithSoftBreaks<T> = Switch<ConvertSoftBreaks<WithParagraphs<T>>>;

type WithHardBreaks<T> = Switch<ConvertHardBreaks<WithSoftBreaks<T>>>;

type WithText<T> = Switch<ConvertText<WithHardBreaks<T>>>;

type WithStrong<T> = Switch<ConvertStrong<WithText<T>>>;

type WithEmphasis<T> = Switch<ConvertEmphasis<WithStrong<T>>>;

type WithBlockQuotes<T> = Switch<ConvertBlockQuotes<WithEmphasis<T>>>;

type WithLists<T> = Switch<ConvertLists<WithBlockQuotes<T>>>;

type WithCode<T> = Switch<ConvertCode<WithLists<T>>>;

/// The stream that a conversion of the events of `T` is.
pub type Converted<T> = Switch<ConvertLinks<WithCode<T>>>;

impl<T> ConversionBuilder<T> {
    /// The events to convert.
    pub fn events<U>(self, events: U) -> (r: ConversionBuilder<U>)
        ensures
            r.conversion.events == events,
            r.conversion.stages == self.conversion.stages,
    {
        ConversionBuilder { conversion: Conversion { events, stages: self.conversion.stages } }
    }

    /// Whether the book's title becomes the document's title.
    pub fn title(self, on: bool) -> (r: Self)
        ensures
            r.conversion.events == self.conversion.events,
            r.conversion.stages == (Stages { title: on, ..self.conversion.stages }),
    {
        let mut conversion = self.conversion;
        conversion.stages.title = on;
        ConversionBuilder { conversion }
    }

    /// Whether the book's authors become the document's authors.
    pub fn authors(self, on: bool) -> (r: Self)
        ensures
            r.conversion.events == self.conversion.events,
            r.conversion.stages == (Stages { authors: on, ..self.conversion.stages }),
    {
        let mut conversion = self.conversion;
        conversion.stages.authors = on;
        ConversionBuilder { conversion }
    }

    /// Whether chapters become headings and page breaks.
    pub fn chapters(self, on: bool) -> (r: Self)
        ensures
            r.conversion.events == self.conversion.events,
            r.conversion.stages == (Stages { chapters: on, ..self.conversion.stages }),
    {
        let mut conversion = self.conversion;
        conversion.stages.chapters = on;
        ConversionBuilder { conversion }
    }

    /// Whether the Markdown of the chapters is converted at all.
    pub fn content(self, on: bool) -> (r: Self)
        ensures
            r.conversion.events == self.conversion.events,
            r.conversion.stages == (Stages { content: on, ..self.conversion.stages }),
    {
        let mut conversion = self.conversion;
        conversion.stages.content = on;
        ConversionBuilder { conversion }
    }

    /// Whether Markdown headings are converted.
    pub fn headings(self, on: bool) -> (r: Self)
        ensures
            r.conversion.events == self.conversion.events,
            r.conversion.stages == (Stages { headings: on, ..self.conversion.stages }),
    {
        let mut conversion = self.conversion;
        conversion.stages.headings = on;
        ConversionBuilder { conversion }
    }

    /// Whether Markdown paragraphs are converted.
    pub fn paragraphs(self, on: bool) -> (r: Self)
        ensures
            r.conversion.events == self.conversion.events,
            r.conversion.stages == (Stages { paragraphs: on, ..self.conversion.stages }),
    {
        let mut conversion = self.conversion;
        conversion.stages.paragraphs = on;
        ConversionBuilder { conversion }
    }

    /// Whether Markdown soft breaks are converted.
    pub fn soft_breaks(self, on: bool) -> (r: Self)
        ensures
            r.conversion.events == self.conversion.events,
            r.conversion.stages == (Stages { soft_breaks: on, ..self.conversion.stages }),
    {
        let mut conversion = self.conversion;
        conversion.stages.soft_breaks = on;
        ConversionBuilder { conversion }
    }

    /// Whether Markdown hard breaks are converted.
    pub fn hard_breaks(self, on: bool) -> (r: Self)
        ensures
            r.conversion.events == self.conversion.events,
            r.conversion.stages == (Stages { hard_breaks: on, ..self.conversion.stages }),
    {
        let mut conversion = self.conversion;
        conversion.stages.hard_breaks = on;
        ConversionBuilder { conversion }
    }

    /// Whether Markdown text is converted.
    pub fn text(self, on: bool) -> (r: Self)
        ensures
            r.conversion.events == self.conversion.events,
            r.conversion.stages == (Stages { text: on, ..self.conversion.stages }),
    {
        let mut conversion = self.conversion;
        conversion.stages.text = on;
        ConversionBuilder { conversion }
    }

    /// Whether Markdown strong text is converted.
    pub fn strong(self, on: bool) -> (r: Self)
        ensures
            r.conversion.events == self.conversion.events,
            r.conversion.stages == (Stages { strong: on, ..self.conversion.stages }),
    {
        let mut conversion = self.conversion;
        conversion.stages.strong = on;
        ConversionBuilder { conversion }
    }

    /// Whether Markdown emphasis is converted.
    pub fn emphasis(self, on: bool) -> (r: Self)
        ensures
            r.conversion.events == self.conversion.events,
            r.conversion.stages == (Stages { emphasis: on, ..self.conversion.stages }),
    {
        let mut conversion = self.conversion;
        conversion.stages.emphasis = on;
        ConversionBuilder { conversion }
    }

    /// Whether Markdown block quotes are converted.
    pub fn blockquotes(self, on: bool) -> (r: Self)
        ensures
            r.conversion.events == self.conversion.events,
            r.conversion.stages == (Stages { blockquotes: on, ..self.conversion.stages }),
    {
        let mut conversion = self.conversion;
        conversion.stages.blockquotes = on;
        ConversionBuilder { conversion }
    }

    /// Whether Markdown lists are converted.
    pub fn lists(self, on: bool) -> (r: Self)
        ensures
            r.conversion.events == self.conversion.events,
            r.conversion.stages == (Stages { lists: on, ..self.conversion.stages }),
    {
        let mut conversion = self.conversion;
        conversion.stages.lists = on;
        ConversionBuilder { conversion }
    }

    /// Whether Markdown code is converted.
    pub fn code(self, on: bool) -> (r: Self)
        ensures
            r.conversion.events == self.conversion.events,
            r.conversion.stages == (Stages { code: on, ..self.conversion.stages }),
    {
        let mut conversion = self.conversion;
        conversion.stages.code = on;
        ConversionBuilder { conversion }
    }

    /// Whether Markdown links are converted.
    pub fn links(self, on: bool) -> (r: Self)
        ensures
            r.conversion.events == self.conversion.events,
            r.conversion.stages == (Stages { links: on, ..self.conversion.stages }),
    {
        let mut conversion = self.conversion;
        conversion.stages.links = on;
        ConversionBuilder { conversion }
    }
}

/// The stages for the structure of the book.
fn structure_stages<T: EventStream<Item = mdbook::Event>>(
    events: MdbookIter<T>,
    stages: Stages,
    source: Ghost<Seq<ParserEventView>>,
) -> (r: Unwrapped<T>)
    requires
        events.wf(),
        events.remaining() == source@,
    ensures
        r.wf(),
        r.remaining() == stages.after_content(source@),
{
    let events: Titled<T> = Switch::new(events, stages.title);
    assert(events.remaining() == stages.after_title(source@));
    let events: Authored<T> = Switch::new(events, stages.authors);
    assert(events.remaining() == stages.after_authors(source@));
    let events: Chaptered<T> = Switch::new(events, stages.chapters);
    assert(events.remaining() == stages.after_chapters(source@));
    let events: Unwrapped<T> = Switch::new(events, stages.content);
    assert(events.remaining() == stages.after_content(source@));
    events
}

/// The stages for headings, paragraphs and breaks.
fn block_stages<T: EventStream<Item = mdbook::Event>>(
    events: Unwrapped<T>,
    stages: Stages,
    source: Ghost<Seq<ParserEventView>>,
) -> (r: WithHardBreaks<T>)
    requires
        events.wf(),
        events.remaining() == stages.after_content(source@),
    ensures
        r.wf(),
        r.remaining() == stages.after_hard_breaks(source@),
{
    let events: WithHeadings<T> = Switch::new(events, stages.content && stages.headings);
    assert(events.remaining() == stages.after_headings(source@));
    let events: WithParagraphs<T> = Switch::new(events, stages.content && stages.paragraphs);
    assert(events.remaining() == stages.after_paragraphs(source@));
    let events: WithSoftBreaks<T> = Switch::new(events, stages.content && stages.soft_breaks);
    assert(events.remaining() == stages.after_soft_breaks(source@));
    let events: WithHardBreaks<T> = Switch::new(events, stages.content && stages.hard_breaks);
    assert(events.remaining() == stages.after_hard_breaks(source@));
    events
}

/// The stages for text, strong text, emphasis and block quotes.
fn inline_stages<T: EventStream<Item = mdbook::Event>>(
    events: WithHardBreaks<T>,
    stages: Stages,
    source: Ghost<Seq<ParserEventView>>,
) -> (r: WithBlockQuotes<T>)
    requires
        events.wf(),
        events.remaining() == stages.after_hard_breaks(source@),
    ensures
        r.wf(),
        r.remaining() == stages.after_blockquotes(source@),
{
    let events: WithText<T> = Switch::new(events, stages.content && stages.text);
    assert(events.remaining() == stages.after_text(source@));
    let events: WithStrong<T> = Switch::new(events, stages.content && stages.strong);
    assert(events.remaining() == stages.after_strong(source@));
    let events: WithEmphasis<T> = Switch::new(events, stages.content && stages.emphasis);
    assert(events.remaining() == stages.after_emphasis(source@));
    let events: WithBlockQuotes<T> = Switch::new(events, stages.content && stages.blockquotes);
    assert(events.remaining() == stages.after_blockquotes(source@));
    events
}

/// The stages for lists, code and links.
fn last_stages<T: EventStream<Item = mdbook::Event>>(
    events: WithBlockQuotes<T>,
    stages: Stages,
    source: Ghost<Seq<ParserEventView>>,
) -> (r: Converted<T>)
    requires
        events.wf(),
        events.remaining() == stages.after_blockquotes(source@),
    ensures
        r.wf(),
        r.remaining() == stages.after_links(source@),
{
    let events: WithLists<T> = Switch::new(events, stages.content && stages.lists);
    assert(events.remaining() == stages.after_lists(source@));
    let events: WithCode<T> = Switch::new(events, stages.content && stages.code);
    assert(events.remaining() == stages.after_code(source@));
    let events: Converted<T> = Switch::new(events, stages.content && stages.links);
    assert(events.remaining() == stages.after_links(source@));
    events
}

impl<T: EventStream<Item = mdbook::Event>> ConversionBuilder<T> {
    /// The conversion as a stream: the events, with the stages that are switched on
    /// applied in their fixed order, one event at a time.
    pub fn build(self) -> (r: Converted<T>)
        requires
            self.conversion.events.wf(),
        ensures
            r.wf(),
            r.remaining() == self.conversion.stages.converted(
                mdbook_wrapped(self.conversion.events.remaining()),
            ),
    {
        let stages = self.conversion.stages;
        let ghost source = mdbook_wrapped(self.conversion.events.remaining());
        let events = structure_stages(MdbookIter(self.conversion.events), stages, Ghost(source));
        let events = block_stages(events, stages, Ghost(source));
        let events = inline_stages(events, stages, Ghost(source));
        last_stages(events, stages, Ghost(source))
    }
}

} // verus!
