//! Conversion of Markdown events to Typst events.
use crate::markdown;
use crate::stream::{EventStream, Stage};
use crate::typst;
use crate::{ParserEvent, ParserEventView};
use std::collections::VecDeque;
use vstd::prelude::*;
use vstd::string::*;

verus! {

/// The Typst event that stands for the start or the end of a paragraph; any other
/// event as it is.
pub open spec fn paragraph_event(e: ParserEventView) -> ParserEventView {
    match e {
        ParserEventView::Markdown(markdown::EventView::Start(markdown::TagView::Paragraph)) =>
            ParserEventView::Typst(typst::EventView::Start(typst::TagView::Paragraph)),
        ParserEventView::Markdown(markdown::EventView::End(markdown::TagView::Paragraph)) =>
            ParserEventView::Typst(typst::EventView::End(typst::TagView::Paragraph)),
        x => x,
    }
}

fn convert_paragraph(e: ParserEvent) -> (r: ParserEvent)
    ensures
        r@ == paragraph_event(e@),
{
    match e {
        ParserEvent::Markdown(markdown::Event::Start(markdown::Tag::Paragraph)) =>
            ParserEvent::Typst(
                typst::Event::Start(typst::Tag::Paragraph),
            ),
        ParserEvent::Markdown(markdown::Event::End(markdown::Tag::Paragraph)) =>
            ParserEvent::Typst(
                typst::Event::End(typst::Tag::Paragraph),
            ),
        x => x,
    }
}

/// Converts Markdown paragraphs to Typst paragraphs.
#[derive(Debug)]
pub struct ConvertParagraphs<T> {
    iter: T,
}

/// What [`ConvertParagraphs`] makes of a sequence of events: each event as [`paragraph_event`]
/// has it.
pub open spec fn paragraphs_converted(events: Seq<ParserEventView>) -> Seq<ParserEventView> {
    events.map_values(|e: ParserEventView| paragraph_event(e))
}

impl<T: EventStream<Item = ParserEvent>> ConvertParagraphs<T> {
    /// The conversion of the events of `iter`.
    pub fn new(iter: T) -> (r: Self)
        requires
            iter.wf(),
        ensures
            r.wf(),
            r.remaining() == paragraphs_converted(iter.remaining()),
    {
        ConvertParagraphs { iter }
    }
}

impl<T: EventStream<Item = ParserEvent>> EventStream for ConvertParagraphs<T> {
    type Item = ParserEvent;

    closed spec fn wf(&self) -> bool {
        self.iter.wf()
    }

    closed spec fn remaining(&self) -> Seq<ParserEventView> {
        paragraphs_converted(self.iter.remaining())
    }

    fn next(&mut self) -> (r: Option<ParserEvent>) {
        match self.iter.next() {
            Some(e) => {
                assert(self.remaining() =~= old(self).remaining().drop_first());
                Some(convert_paragraph(e))
            },
            None => None,
        }
    }
}

impl<T: EventStream<Item = ParserEvent>> Stage for ConvertParagraphs<T> {
    type Source = T;

    open spec fn applied(items: Seq<ParserEventView>) -> Seq<ParserEventView> {
        paragraphs_converted(items)
    }

    fn wrap(source: T) -> (r: Self) {
        ConvertParagraphs::new(source)
    }
}

/// The Typst event that stands for the start or the end of strong text; any other
/// event as it is.
pub open spec fn strong_event(e: ParserEventView) -> ParserEventView {
    match e {
        ParserEventView::Markdown(markdown::EventView::Start(markdown::TagView::Strong)) =>
            ParserEventView::Typst(typst::EventView::Start(typst::TagView::Strong)),
        ParserEventView::Markdown(markdown::EventView::End(markdown::TagView::Strong)) =>
            ParserEventView::Typst(typst::EventView::End(typst::TagView::Strong)),
        x => x,
    }
}

fn convert_strong(e: ParserEvent) -> (r: ParserEvent)
    ensures
        r@ == strong_event(e@),
{
    match e {
        ParserEvent::Markdown(markdown::Event::Start(markdown::Tag::Strong)) =>
            ParserEvent::Typst(
                typst::Event::Start(typst::Tag::Strong),
            ),
        ParserEvent::Markdown(markdown::Event::End(markdown::Tag::Strong)) =>
            ParserEvent::Typst(
                typst::Event::End(typst::Tag::Strong),
            ),
        x => x,
    }
}

/// Converts Markdown strong tags to Typst strong tags.
#[derive(Debug)]
pub struct ConvertStrong<T> {
    iter: T,
}

/// What [`ConvertStrong`] makes of a sequence of events: each event as [`strong_event`]
/// has it.
pub open spec fn strong_converted(events: Seq<ParserEventView>) -> Seq<ParserEventView> {
    events.map_values(|e: ParserEventView| strong_event(e))
}

impl<T: EventStream<Item = ParserEvent>> ConvertStrong<T> {
    /// The conversion of the events of `iter`.
    pub fn new(iter: T) -> (r: Self)
        requires
            iter.wf(),
        ensures
            r.wf(),
            r.remaining() == strong_converted(iter.remaining()),
    {
        ConvertStrong { iter }
    }
}

impl<T: EventStream<Item = ParserEvent>> EventStream for ConvertStrong<T> {
    type Item = ParserEvent;

    closed spec fn wf(&self) -> bool {
        self.iter.wf()
    }

    closed spec fn remaining(&self) -> Seq<ParserEventView> {
        strong_converted(self.iter.remaining())
    }

    fn next(&mut self) -> (r: Option<ParserEvent>) {
        match self.iter.next() {
            Some(e) => {
                assert(self.remaining() =~= old(self).remaining().drop_first());
                Some(convert_strong(e))
            },
            None => None,
        }
    }
}

impl<T: EventStream<Item = ParserEvent>> Stage for ConvertStrong<T> {
    type Source = T;

    open spec fn applied(items: Seq<ParserEventView>) -> Seq<ParserEventView> {
        strong_converted(items)
    }

    fn wrap(source: T) -> (r: Self) {
        ConvertStrong::new(source)
    }
}

/// The Typst event that stands for the start or the end of emphasis; any other
/// event as it is.
pub open spec fn emphasis_event(e: ParserEventView) -> ParserEventView {
    match e {
        ParserEventView::Markdown(markdown::EventView::Start(markdown::TagView::Emphasis)) =>
            ParserEventView::Typst(typst::EventView::Start(typst::TagView::Emphasis)),
        ParserEventView::Markdown(markdown::EventView::End(markdown::TagView::Emphasis)) =>
            ParserEventView::Typst(typst::EventView::End(typst::TagView::Emphasis)),
        x => x,
    }
}

fn convert_emphasis(e: ParserEvent) -> (r: ParserEvent)
    ensures
        r@ == emphasis_event(e@),
{
    match e {
        ParserEvent::Markdown(markdown::Event::Start(markdown::Tag::Emphasis)) =>
            ParserEvent::Typst(
                typst::Event::Start(typst::Tag::Emphasis),
            ),
        ParserEvent::Markdown(markdown::Event::End(markdown::Tag::Emphasis)) =>
            ParserEvent::Typst(
                typst::Event::End(typst::Tag::Emphasis),
            ),
        x => x,
    }
}

/// Converts Markdown emphasis tags to Typst emphasis tags.
#[derive(Debug)]
pub struct ConvertEmphasis<T> {
    iter: T,
}

/// What [`ConvertEmphasis`] makes of a sequence of events: each event as [`emphasis_event`]
/// has it.
pub open spec fn emphasis_converted(events: Seq<ParserEventView>) -> Seq<ParserEventView> {
    events.map_values(|e: ParserEventView| emphasis_event(e))
}

impl<T: EventStream<Item = ParserEvent>> ConvertEmphasis<T> {
    /// The conversion of the events of `iter`.
    pub fn new(iter: T) -> (r: Self)
        requires
            iter.wf(),
        ensures
            r.wf(),
            r.remaining() == emphasis_converted(iter.remaining()),
    {
        ConvertEmphasis { iter }
    }
}

impl<T: EventStream<Item = ParserEvent>> EventStream for ConvertEmphasis<T> {
    type Item = ParserEvent;

    closed spec fn wf(&self) -> bool {
        self.iter.wf()
    }

    closed spec fn remaining(&self) -> Seq<ParserEventView> {
        emphasis_converted(self.iter.remaining())
    }

    fn next(&mut self) -> (r: Option<ParserEvent>) {
        match self.iter.next() {
            Some(e) => {
                assert(self.remaining() =~= old(self).remaining().drop_first());
                Some(convert_emphasis(e))
            },
            None => None,
        }
    }
}

impl<T: EventStream<Item = ParserEvent>> Stage for ConvertEmphasis<T> {
    type Source = T;

    open spec fn applied(items: Seq<ParserEventView>) -> Seq<ParserEventView> {
        emphasis_converted(items)
    }

    fn wrap(source: T) -> (r: Self) {
        ConvertEmphasis::new(source)
    }
}

/// A soft break as a Typst text of one space; any other event as it is.
pub open spec fn soft_break_event(e: ParserEventView) -> ParserEventView {
    match e {
        ParserEventView::Markdown(markdown::EventView::SoftBreak) => ParserEventView::Typst(
            typst::EventView::Text(seq![' ']),
        ),
        x => x,
    }
}

fn convert_soft_break(e: ParserEvent) -> (r: ParserEvent)
    ensures
        r@ == soft_break_event(e@),
{
    match e {
        ParserEvent::Markdown(markdown::Event::SoftBreak) => {
            proof {
                reveal_strlit(" ");
                assert(" "@ =~= seq![' ']);
            }
            ParserEvent::Typst(typst::Event::Text(String::from_str(" ")))
        },
        x => x,
    }
}

/// Converts Markdown soft breaks to spaces in the Typst text.
#[derive(Debug)]
pub struct ConvertSoftBreaks<T> {
    iter: T,
}

/// What [`ConvertSoftBreaks`] makes of a sequence of events: each event as [`soft_break_event`]
/// has it.
pub open spec fn soft_breaks_converted(events: Seq<ParserEventView>) -> Seq<ParserEventView> {
    events.map_values(|e: ParserEventView| soft_break_event(e))
}

impl<T: EventStream<Item = ParserEvent>> ConvertSoftBreaks<T> {
    /// The conversion of the events of `iter`.
    pub fn new(iter: T) -> (r: Self)
        requires
            iter.wf(),
        ensures
            r.wf(),
            r.remaining() == soft_breaks_converted(iter.remaining()),
    {
        ConvertSoftBreaks { iter }
    }
}

impl<T: EventStream<Item = ParserEvent>> EventStream for ConvertSoftBreaks<T> {
    type Item = ParserEvent;

    closed spec fn wf(&self) -> bool {
        self.iter.wf()
    }

    closed spec fn remaining(&self) -> Seq<ParserEventView> {
        soft_breaks_converted(self.iter.remaining())
    }

    fn next(&mut self) -> (r: Option<ParserEvent>) {
        match self.iter.next() {
            Some(e) => {
                assert(self.remaining() =~= old(self).remaining().drop_first());
                Some(convert_soft_break(e))
            },
            None => None,
        }
    }
}

impl<T: EventStream<Item = ParserEvent>> Stage for ConvertSoftBreaks<T> {
    type Source = T;

    open spec fn applied(items: Seq<ParserEventView>) -> Seq<ParserEventView> {
        soft_breaks_converted(items)
    }

    fn wrap(source: T) -> (r: Self) {
        ConvertSoftBreaks::new(source)
    }
}

/// A hard break as a Typst paragraph break; any other event as it is.
pub open spec fn hard_break_event(e: ParserEventView) -> ParserEventView {
    match e {
        ParserEventView::Markdown(markdown::EventView::HardBreak) => ParserEventView::Typst(
            typst::EventView::Parbreak,
        ),
        x => x,
    }
}

fn convert_hard_break(e: ParserEvent) -> (r: ParserEvent)
    ensures
        r@ == hard_break_event(e@),
{
    match e {
        ParserEvent::Markdown(markdown::Event::HardBreak) => ParserEvent::Typst(
            typst::Event::Parbreak,
        ),
        x => x,
    }
}

/// Converts Markdown hard breaks to Typst paragraph breaks.
#[derive(Debug)]
pub struct ConvertHardBreaks<T> {
    iter: T,
}

/// What [`ConvertHardBreaks`] makes of a sequence of events: each event as [`hard_break_event`]
/// has it.
pub open spec fn hard_breaks_converted(events: Seq<ParserEventView>) -> Seq<ParserEventView> {
    events.map_values(|e: ParserEventView| hard_break_event(e))
}

impl<T: EventStream<Item = ParserEvent>> ConvertHardBreaks<T> {
    /// The conversion of the events of `iter`.
    pub fn new(iter: T) -> (r: Self)
        requires
            iter.wf(),
        ensures
            r.wf(),
            r.remaining() == hard_breaks_converted(iter.remaining()),
    {
        ConvertHardBreaks { iter }
    }
}

impl<T: EventStream<Item = ParserEvent>> EventStream for ConvertHardBreaks<T> {
    type Item = ParserEvent;

    closed spec fn wf(&self) -> bool {
        self.iter.wf()
    }

    closed spec fn remaining(&self) -> Seq<ParserEventView> {
        hard_breaks_converted(self.iter.remaining())
    }

    fn next(&mut self) -> (r: Option<ParserEvent>) {
        match self.iter.next() {
            Some(e) => {
                assert(self.remaining() =~= old(self).remaining().drop_first());
                Some(convert_hard_break(e))
            },
            None => None,
        }
    }
}

impl<T: EventStream<Item = ParserEvent>> Stage for ConvertHardBreaks<T> {
    type Source = T;

    open spec fn applied(items: Seq<ParserEventView>) -> Seq<ParserEventView> {
        hard_breaks_converted(items)
    }

    fn wrap(source: T) -> (r: Self) {
        ConvertHardBreaks::new(source)
    }
}

/// The tag of the Typst quote that a block quote becomes.
pub open spec fn block_quote_tag() -> typst::TagView {
    typst::TagView::Quote(typst::QuoteType::Block, typst::QuoteQuotes::Auto, None)
}

/// The Typst event that stands for the start or the end of a block quote; any
/// other event as it is.
pub open spec fn block_quote_event(e: ParserEventView) -> ParserEventView {
    match e {
        ParserEventView::Markdown(markdown::EventView::Start(markdown::TagView::BlockQuote)) =>
            ParserEventView::Typst(typst::EventView::Start(block_quote_tag())),
        ParserEventView::Markdown(markdown::EventView::End(markdown::TagView::BlockQuote)) =>
            ParserEventView::Typst(typst::EventView::End(block_quote_tag())),
        x => x,
    }
}

fn convert_block_quote(e: ParserEvent) -> (r: ParserEvent)
    ensures
        r@ == block_quote_event(e@),
{
    match e {
        ParserEvent::Markdown(markdown::Event::Start(markdown::Tag::BlockQuote)) =>
            ParserEvent::Typst(
                typst::Event::Start(
                    typst::Tag::Quote(typst::QuoteType::Block, typst::QuoteQuotes::Auto, None),
                ),
            ),
        ParserEvent::Markdown(markdown::Event::End(markdown::Tag::BlockQuote)) =>
            ParserEvent::Typst(
                typst::Event::End(
                    typst::Tag::Quote(typst::QuoteType::Block, typst::QuoteQuotes::Auto, None),
                ),
            ),
        x => x,
    }
}

/// Converts Markdown block quotes to Typst quotes.
#[derive(Debug)]
pub struct ConvertBlockQuotes<T> {
    iter: T,
}

/// What [`ConvertBlockQuotes`] makes of a sequence of events: each event as [`block_quote_event`]
/// has it.
pub open spec fn block_quotes_converted(events: Seq<ParserEventView>) -> Seq<ParserEventView> {
    events.map_values(|e: ParserEventView| block_quote_event(e))
}

impl<T: EventStream<Item = ParserEvent>> ConvertBlockQuotes<T> {
    /// The conversion of the events of `iter`.
    pub fn new(iter: T) -> (r: Self)
        requires
            iter.wf(),
        ensures
            r.wf(),
            r.remaining() == block_quotes_converted(iter.remaining()),
    {
        ConvertBlockQuotes { iter }
    }
}

impl<T: EventStream<Item = ParserEvent>> EventStream for ConvertBlockQuotes<T> {
    type Item = ParserEvent;

    closed spec fn wf(&self) -> bool {
        self.iter.wf()
    }

    closed spec fn remaining(&self) -> Seq<ParserEventView> {
        block_quotes_converted(self.iter.remaining())
    }

    fn next(&mut self) -> (r: Option<ParserEvent>) {
        match self.iter.next() {
            Some(e) => {
                assert(self.remaining() =~= old(self).remaining().drop_first());
                Some(convert_block_quote(e))
            },
            None => None,
        }
    }
}

impl<T: EventStream<Item = ParserEvent>> Stage for ConvertBlockQuotes<T> {
    type Source = T;

    open spec fn applied(items: Seq<ParserEventView>) -> Seq<ParserEventView> {
        block_quotes_converted(items)
    }

    fn wrap(source: T) -> (r: Self) {
        ConvertBlockQuotes::new(source)
    }
}

/// The tag of the Typst code block that a Markdown code block becomes: the text
/// after the fence is its label, unless it is empty.
pub open spec fn code_block_tag(kind: markdown::CodeBlockKindView) -> typst::TagView {
    typst::TagView::CodeBlock(
        match kind {
            markdown::CodeBlockKindView::Indented => None,
            markdown::CodeBlockKindView::Fenced(label) => if label.len() == 0 {
                None
            } else {
                Some(label)
            },
        },
        typst::CodeBlockDisplay::Block,
    )
}

/// Inline code as Typst inline code, and the start or the end of a code block as
/// that of a Typst code block; any other event as it is.
pub open spec fn code_event(e: ParserEventView) -> ParserEventView {
    match e {
        ParserEventView::Markdown(markdown::EventView::Code(x)) => ParserEventView::Typst(
            typst::EventView::Code(x),
        ),
        ParserEventView::Markdown(
            markdown::EventView::Start(markdown::TagView::CodeBlock(kind)),
        ) => ParserEventView::Typst(typst::EventView::Start(code_block_tag(kind))),
        ParserEventView::Markdown(markdown::EventView::End(markdown::TagView::CodeBlock(kind))) =>
            ParserEventView::Typst(typst::EventView::End(code_block_tag(kind))),
        x => x,
    }
}

fn convert_code_block_kind(kind: markdown::CodeBlockKind) -> (t: typst::Tag)
    ensures
        t@ == code_block_tag(kind@),
{
    let label = match kind {
        markdown::CodeBlockKind::Indented => None,
        markdown::CodeBlockKind::Fenced(label) => if label.as_str().is_empty() {
            None
        } else {
            Some(label)
        },
    };
    typst::Tag::CodeBlock(label, typst::CodeBlockDisplay::Block)
}

fn convert_code(e: ParserEvent) -> (r: ParserEvent)
    ensures
        r@ == code_event(e@),
{
    match e {
        ParserEvent::Markdown(markdown::Event::Code(x)) => ParserEvent::Typst(
            typst::Event::Code(x),
        ),
        ParserEvent::Markdown(markdown::Event::Start(markdown::Tag::CodeBlock(kind))) =>
            ParserEvent::Typst(typst::Event::Start(convert_code_block_kind(kind))),
        ParserEvent::Markdown(markdown::Event::End(markdown::Tag::CodeBlock(kind))) =>
            ParserEvent::Typst(typst::Event::End(convert_code_block_kind(kind))),
        x => x,
    }
}

/// Converts Markdown code, inline and in blocks, to Typst code.
#[derive(Debug)]
pub struct ConvertCode<T> {
    iter: T,
}

/// What [`ConvertCode`] makes of a sequence of events: each event as [`code_event`]
/// has it.
pub open spec fn code_converted(events: Seq<ParserEventView>) -> Seq<ParserEventView> {
    events.map_values(|e: ParserEventView| code_event(e))
}

impl<T: EventStream<Item = ParserEvent>> ConvertCode<T> {
    /// The conversion of the events of `iter`.
    pub fn new(iter: T) -> (r: Self)
        requires
            iter.wf(),
        ensures
            r.wf(),
            r.remaining() == code_converted(iter.remaining()),
    {
        ConvertCode { iter }
    }
}

impl<T: EventStream<Item = ParserEvent>> EventStream for ConvertCode<T> {
    type Item = ParserEvent;

    closed spec fn wf(&self) -> bool {
        self.iter.wf()
    }

    closed spec fn remaining(&self) -> Seq<ParserEventView> {
        code_converted(self.iter.remaining())
    }

    fn next(&mut self) -> (r: Option<ParserEvent>) {
        match self.iter.next() {
            Some(e) => {
                assert(self.remaining() =~= old(self).remaining().drop_first());
                Some(convert_code(e))
            },
            None => None,
        }
    }
}

impl<T: EventStream<Item = ParserEvent>> Stage for ConvertCode<T> {
    type Source = T;

    open spec fn applied(items: Seq<ParserEventView>) -> Seq<ParserEventView> {
        code_converted(items)
    }

    fn wrap(source: T) -> (r: Self) {
        ConvertCode::new(source)
    }
}

/// The tag of the Typst list that a Markdown list becomes: numbered from its
/// first number where it has one, else bulleted.
pub open spec fn list_tag(first: Option<u64>) -> typst::TagView {
    match first {
        Some(start) => typst::TagView::NumberedList(start, None, false),
        None => typst::TagView::BulletList(None, false),
    }
}

/// The start or the end of a list or of a list item as that of a Typst list or
/// list item; any other event as it is.
pub open spec fn list_event(e: ParserEventView) -> ParserEventView {
    match e {
        ParserEventView::Markdown(markdown::EventView::Start(markdown::TagView::List(first))) =>
            ParserEventView::Typst(typst::EventView::Start(list_tag(first))),
        ParserEventView::Markdown(markdown::EventView::End(markdown::TagView::List(first))) =>
            ParserEventView::Typst(typst::EventView::End(list_tag(first))),
        ParserEventView::Markdown(markdown::EventView::Start(markdown::TagView::Item)) =>
            ParserEventView::Typst(typst::EventView::Start(typst::TagView::Item)),
        ParserEventView::Markdown(markdown::EventView::End(markdown::TagView::Item)) =>
            ParserEventView::Typst(typst::EventView::End(typst::TagView::Item)),
        x => x,
    }
}

fn convert_list_tag(first: Option<u64>) -> (t: typst::Tag)
    ensures
        t@ == list_tag(first),
{
    match first {
        Some(start) => typst::Tag::NumberedList(start, None, false),
        None => typst::Tag::BulletList(None, false),
    }
}

fn convert_list(e: ParserEvent) -> (r: ParserEvent)
    ensures
        r@ == list_event(e@),
{
    match e {
        ParserEvent::Markdown(markdown::Event::Start(markdown::Tag::List(first))) =>
            ParserEvent::Typst(typst::Event::Start(convert_list_tag(first))),
        ParserEvent::Markdown(markdown::Event::End(markdown::Tag::List(first))) =>
            ParserEvent::Typst(typst::Event::End(convert_list_tag(first))),
        ParserEvent::Markdown(markdown::Event::Start(markdown::Tag::Item)) => ParserEvent::Typst(
            typst::Event::Start(typst::Tag::Item),
        ),
        ParserEvent::Markdown(markdown::Event::End(markdown::Tag::Item)) => ParserEvent::Typst(
            typst::Event::End(typst::Tag::Item),
        ),
        x => x,
    }
}

/// Converts Markdown lists to Typst lists.
#[derive(Debug)]
pub struct ConvertLists<T> {
    iter: T,
}

/// What [`ConvertLists`] makes of a sequence of events: each event as [`list_event`]
/// has it.
pub open spec fn lists_converted(events: Seq<ParserEventView>) -> Seq<ParserEventView> {
    events.map_values(|e: ParserEventView| list_event(e))
}

impl<T: EventStream<Item = ParserEvent>> ConvertLists<T> {
    /// The conversion of the events of `iter`.
    pub fn new(iter: T) -> (r: Self)
        requires
            iter.wf(),
        ensures
            r.wf(),
            r.remaining() == lists_converted(iter.remaining()),
    {
        ConvertLists { iter }
    }
}

impl<T: EventStream<Item = ParserEvent>> EventStream for ConvertLists<T> {
    type Item = ParserEvent;

    closed spec fn wf(&self) -> bool {
        self.iter.wf()
    }

    closed spec fn remaining(&self) -> Seq<ParserEventView> {
        lists_converted(self.iter.remaining())
    }

    fn next(&mut self) -> (r: Option<ParserEvent>) {
        match self.iter.next() {
            Some(e) => {
                assert(self.remaining() =~= old(self).remaining().drop_first());
                Some(convert_list(e))
            },
            None => None,
        }
    }
}

impl<T: EventStream<Item = ParserEvent>> Stage for ConvertLists<T> {
    type Source = T;

    open spec fn applied(items: Seq<ParserEventView>) -> Seq<ParserEventView> {
        lists_converted(items)
    }

    fn wrap(source: T) -> (r: Self) {
        ConvertLists::new(source)
    }
}

/// The number of a heading level, from 1 for `H1` to 6 for `H6`.
pub open spec fn level_number(level: markdown::HeadingLevel) -> u8 {
    match level {
        markdown::HeadingLevel::H1 => 1,
        markdown::HeadingLevel::H2 => 2,
        markdown::HeadingLevel::H3 => 3,
        markdown::HeadingLevel::H4 => 4,
        markdown::HeadingLevel::H5 => 5,
        markdown::HeadingLevel::H6 => 6,
    }
}

/// The tag of the Typst heading that a Markdown heading of a level becomes.
pub open spec fn heading_tag(level: markdown::HeadingLevel) -> typst::TagView {
    typst::TagView::Heading(
        level_number(level),
        typst::TableOfContents::Include,
        typst::Bookmarks::Include,
    )
}

/// The start or the end of a heading as that of a Typst heading of the same
/// level; any other event as it is.
pub open spec fn heading_event(e: ParserEventView) -> ParserEventView {
    match e {
        ParserEventView::Markdown(
            markdown::EventView::Start(markdown::TagView::Heading(level, _, _)),
        ) => ParserEventView::Typst(typst::EventView::Start(heading_tag(level))),
        ParserEventView::Markdown(
            markdown::EventView::End(markdown::TagView::Heading(level, _, _)),
        ) => ParserEventView::Typst(typst::EventView::End(heading_tag(level))),
        x => x,
    }
}

fn convert_heading_level(level: markdown::HeadingLevel) -> (t: typst::Tag)
    ensures
        t@ == heading_tag(level),
{
    let n: u8 = match level {
        markdown::HeadingLevel::H1 => 1,
        markdown::HeadingLevel::H2 => 2,
        markdown::HeadingLevel::H3 => 3,
        markdown::HeadingLevel::H4 => 4,
        markdown::HeadingLevel::H5 => 5,
        markdown::HeadingLevel::H6 => 6,
    };
    typst::Tag::Heading(n, typst::TableOfContents::Include, typst::Bookmarks::Include)
}

fn convert_heading(e: ParserEvent) -> (r: ParserEvent)
    ensures
        r@ == heading_event(e@),
{
    match e {
        ParserEvent::Markdown(markdown::Event::Start(markdown::Tag::Heading(level, _, _))) =>
            ParserEvent::Typst(typst::Event::Start(convert_heading_level(level))),
        ParserEvent::Markdown(markdown::Event::End(markdown::Tag::Heading(level, _, _))) =>
            ParserEvent::Typst(typst::Event::End(convert_heading_level(level))),
        x => x,
    }
}

/// Converts Markdown headings to Typst headings.
#[derive(Debug)]
pub struct ConvertHeadings<T> {
    iter: T,
}

/// What [`ConvertHeadings`] makes of a sequence of events: each event as [`heading_event`]
/// has it.
pub open spec fn headings_converted(events: Seq<ParserEventView>) -> Seq<ParserEventView> {
    events.map_values(|e: ParserEventView| heading_event(e))
}

impl<T: EventStream<Item = ParserEvent>> ConvertHeadings<T> {
    /// The conversion of the events of `iter`.
    pub fn new(iter: T) -> (r: Self)
        requires
            iter.wf(),
        ensures
            r.wf(),
            r.remaining() == headings_converted(iter.remaining()),
    {
        ConvertHeadings { iter }
    }
}

impl<T: EventStream<Item = ParserEvent>> EventStream for ConvertHeadings<T> {
    type Item = ParserEvent;

    closed spec fn wf(&self) -> bool {
        self.iter.wf()
    }

    closed spec fn remaining(&self) -> Seq<ParserEventView> {
        headings_converted(self.iter.remaining())
    }

    fn next(&mut self) -> (r: Option<ParserEvent>) {
        match self.iter.next() {
            Some(e) => {
                assert(self.remaining() =~= old(self).remaining().drop_first());
                Some(convert_heading(e))
            },
            None => None,
        }
    }
}

impl<T: EventStream<Item = ParserEvent>> Stage for ConvertHeadings<T> {
    type Source = T;

    open spec fn applied(items: Seq<ParserEventView>) -> Seq<ParserEventView> {
        headings_converted(items)
    }

    fn wrap(source: T) -> (r: Self) {
        ConvertHeadings::new(source)
    }
}

/// What becomes of a link's start or end: `None` where the link is of a type that
/// is not converted; a Typst content link for an inline link, a Typst autolink
/// for an autolink, and a Typst URL link to `mailto:` and the address for an
/// email link. Any other event stays as it is.
pub open spec fn link_event(e: ParserEventView) -> Option<ParserEventView> {
    match e {
        ParserEventView::Markdown(
            markdown::EventView::Start(markdown::TagView::Link(kind, url, _)),
        ) => match link_tag(kind, url) {
            Some(tag) => Some(ParserEventView::Typst(typst::EventView::Start(tag))),
            None => None,
        },
        ParserEventView::Markdown(
            markdown::EventView::End(markdown::TagView::Link(kind, url, _)),
        ) => match link_tag(kind, url) {
            Some(tag) => Some(ParserEventView::Typst(typst::EventView::End(tag))),
            None => None,
        },
        x => Some(x),
    }
}

/// The tag of the Typst link that a Markdown link of a type becomes, where that
/// type is converted.
pub open spec fn link_tag(kind: markdown::LinkType, url: Seq<char>) -> Option<typst::TagView> {
    match kind {
        markdown::LinkType::Inline => Some(typst::TagView::Link(typst::LinkType::Content, url)),
        markdown::LinkType::Autolink => Some(
            typst::TagView::Link(typst::LinkType::Autolink, url),
        ),
        markdown::LinkType::Email => Some(
            typst::TagView::Link(typst::LinkType::Url, "mailto:"@ + url),
        ),
        _ => None,
    }
}

/// What [`ConvertLinks`] makes of a sequence of events: each event as
/// [`link_event`] has it; where a link is not converted, its event is left out
/// and the event that follows it is handed on as it is.
pub open spec fn links_converted(events: Seq<ParserEventView>) -> Seq<ParserEventView>
    decreases events.len(),
{
    if events.len() == 0 {
        Seq::empty()
    } else {
        match link_event(events[0]) {
            Some(e) => seq![e] + links_converted(events.drop_first()),
            None => if events.len() >= 2 {
                seq![events[1]] + links_converted(events.skip(2))
            } else {
                Seq::empty()
            },
        }
    }
}

fn convert_link_tag(kind: markdown::LinkType, url: String) -> (t: Option<typst::Tag>)
    ensures
        match t {
            Some(tag) => link_tag(kind, url@) == Some(tag@),
            None => link_tag(kind, url@) is None,
        },
{
    match kind {
        markdown::LinkType::Inline => Some(typst::Tag::Link(typst::LinkType::Content, url)),
        markdown::LinkType::Autolink => Some(typst::Tag::Link(typst::LinkType::Autolink, url)),
        markdown::LinkType::Email => {
            let mut target = String::from_str("mailto:");
            target.append(url.as_str());
            Some(typst::Tag::Link(typst::LinkType::Url, target))
        },
        _ => None,
    }
}

fn convert_link(e: ParserEvent) -> (r: Option<ParserEvent>)
    ensures
        match r {
            Some(x) => link_event(e@) == Some(x@),
            None => link_event(e@) is None,
        },
{
    match e {
        ParserEvent::Markdown(markdown::Event::Start(markdown::Tag::Link(kind, url, _))) => {
            match convert_link_tag(kind, url) {
                Some(tag) => Some(ParserEvent::Typst(typst::Event::Start(tag))),
                None => None,
            }
        },
        ParserEvent::Markdown(markdown::Event::End(markdown::Tag::Link(kind, url, _))) => {
            match convert_link_tag(kind, url) {
                Some(tag) => Some(ParserEvent::Typst(typst::Event::End(tag))),
                None => None,
            }
        },
        x => Some(x),
    }
}

/// Converts Markdown links to Typst links.
#[derive(Debug)]
pub struct ConvertLinks<T> {
    iter: T,
}

impl<T: EventStream<Item = ParserEvent>> ConvertLinks<T> {
    /// The conversion of the events of `iter`.
    pub fn new(iter: T) -> (r: Self)
        requires
            iter.wf(),
        ensures
            r.wf(),
            r.remaining() == links_converted(iter.remaining()),
    {
        ConvertLinks { iter }
    }
}

impl<T: EventStream<Item = ParserEvent>> EventStream for ConvertLinks<T> {
    type Item = ParserEvent;

    closed spec fn wf(&self) -> bool {
        self.iter.wf()
    }

    closed spec fn remaining(&self) -> Seq<ParserEventView> {
        links_converted(self.iter.remaining())
    }

    fn next(&mut self) -> (r: Option<ParserEvent>) {
        let ghost events = self.iter.remaining();
        match self.iter.next() {
            Some(e) => match convert_link(e) {
                Some(x) => {
                    assert(self.remaining() =~= old(self).remaining().drop_first());
                    Some(x)
                },
                None => {
                    let r = self.iter.next();
                    proof {
                        if events.len() >= 2 {
                            assert(events.drop_first().drop_first() =~= events.skip(2));
                            assert(events.drop_first()[0] == events[1]);
                            assert(self.remaining() =~= old(self).remaining().drop_first());
                        } else {
                            assert(events.drop_first().len() == 0);
                        }
                    }
                    r
                },
            },
            None => None,
        }
    }
}

impl<T: EventStream<Item = ParserEvent>> Stage for ConvertLinks<T> {
    type Source = T;

    open spec fn applied(items: Seq<ParserEventView>) -> Seq<ParserEventView> {
        links_converted(items)
    }

    fn wrap(source: T) -> (r: Self) {
        ConvertLinks::new(source)
    }
}

/// Whether a character is white space, as Unicode defines it: the characters
/// with the property `White_Space`, which are the controls U+0009 to U+000D and
/// U+0085, the space U+0020, the no-break spaces U+00A0 and U+202F, U+1680, the
/// spaces U+2000 to U+200A, the separators U+2028 and U+2029, U+205F and U+3000.
pub open spec fn white_space(c: char) -> bool {
    let n = c as u32;
    ||| 0x0009 <= n <= 0x000D
    ||| n == 0x0020
    ||| n == 0x0085
    ||| n == 0x00A0
    ||| n == 0x1680
    ||| 0x2000 <= n <= 0x200A
    ||| n == 0x2028
    ||| n == 0x2029
    ||| n == 0x202F
    ||| n == 0x205F
    ||| n == 0x3000
}

/// Whether a character is white space, as Unicode defines it.
fn is_whitespace(c: char) -> (b: bool)
    ensures
        b == white_space(c),
{
    let n: u32 = c as u32;
    (0x0009 <= n && n <= 0x000D) || n == 0x0020 || n == 0x0085 || n == 0x00A0 || n == 0x1680
        || (0x2000 <= n && n <= 0x200A) || n == 0x2028 || n == 0x2029 || n == 0x202F
        || n == 0x205F || n == 0x3000
}

/// `s` without the white space at its start.
pub open spec fn trimmed_start(s: Seq<char>) -> Seq<char>
    decreases s.len(),
{
    if s.len() > 0 && white_space(s[0]) {
        trimmed_start(s.drop_first())
    } else {
        s
    }
}

/// `s` without the white space at its end.
pub open spec fn trimmed_end(s: Seq<char>) -> Seq<char>
    decreases s.len(),
{
    if s.len() > 0 && white_space(s.last()) {
        trimmed_end(s.drop_last())
    } else {
        s
    }
}

/// `s` without the white space at its start and at its end.
pub open spec fn trimmed(s: Seq<char>) -> Seq<char> {
    trimmed_end(trimmed_start(s))
}

/// Whether a text is a block of display mathematics in the MathJax notation:
/// without the white space around it, it starts with `\[` and ends with `\]`.
pub open spec fn is_display_math(text: Seq<char>) -> bool {
    let t = trimmed(text);
    t.len() >= 2 && t[0] == '\\' && t[1] == '[' && t[t.len() - 2] == '\\' && t[t.len() - 1] == ']'
}

proof fn lemma_trimmed_start(s: Seq<char>, a: int)
    requires
        0 <= a <= s.len(),
        forall|j: int| 0 <= j < a ==> white_space(#[trigger] s[j]),
        a < s.len() ==> !white_space(s[a]),
    ensures
        trimmed_start(s) == s.skip(a),
    decreases s.len(),
{
    if a == 0 {
        assert(s.skip(0) =~= s);
    } else {
        assert(white_space(s[0]));
        let t = s.drop_first();
        assert forall|j: int| 0 <= j < a - 1 implies white_space(#[trigger] t[j]) by {
            assert(t[j] == s[j + 1]);
        }
        lemma_trimmed_start(t, a - 1);
        assert(t.skip(a - 1) =~= s.skip(a));
    }
}

proof fn lemma_trimmed_end(s: Seq<char>, b: int)
    requires
        0 <= b <= s.len(),
        forall|j: int| b <= j < s.len() ==> white_space(#[trigger] s[j]),
        b > 0 ==> !white_space(s[b - 1]),
    ensures
        trimmed_end(s) == s.take(b),
    decreases s.len(),
{
    if b == s.len() {
        assert(s.take(b) =~= s);
    } else {
        assert(white_space(s[s.len() - 1]));
        let t = s.drop_last();
        assert forall|j: int| b <= j < t.len() implies white_space(#[trigger] t[j]) by {
            assert(t[j] == s[j]);
        }
        lemma_trimmed_end(t, b);
        assert(t.take(b) =~= s.take(b));
    }
}

fn chars_of(text: &str) -> (v: Vec<char>)
    ensures
        v@ == text@,
{
    let mut v: Vec<char> = Vec::new();
    for c in it: text.chars()
        invariant
            it.seq() == text@,
            v@ == text@.take(it.index() as int),
    {
        v.push(c);
        assert(v@ =~= text@.take(it.index() + 1));
    }
    assert(text@.take(text@.len() as int) =~= text@);
    v
}

/// Whether a text is a block of display mathematics in the MathJax notation.
pub fn display_math(text: &str) -> (b: bool)
    ensures
        b == is_display_math(text@),
{
    let v = chars_of(text);
    let mut a: usize = 0;
    while a < v.len() && is_whitespace(v[a])
        invariant
            a <= v.len(),
            forall|j: int| 0 <= j < a ==> white_space(#[trigger] v@[j]),
        decreases v.len() - a,
    {
        a = a + 1;
    }
    let mut b: usize = v.len();
    while b > a && is_whitespace(v[b - 1])
        invariant
            a <= b <= v.len(),
            forall|j: int| b <= j < v.len() ==> white_space(#[trigger] v@[j]),
        decreases b,
    {
        b = b - 1;
    }
    proof {
        lemma_trimmed_start(v@, a as int);
        let u = v@.skip(a as int);
        assert forall|j: int| b - a <= j < u.len() implies white_space(#[trigger] u[j]) by {
            assert(u[j] == v@[j + a]);
        }
        if b > a {
            assert(u[b - a - 1] == v@[b - 1]);
        }
        lemma_trimmed_end(u, b - a);
        assert(trimmed(text@) == u.take(b - a));
    }
    b - a >= 2 && v[a] == '\\' && v[a + 1] == '[' && v[b - 2] == '\\' && v[b - 1] == ']'
}

/// What [`ConvertText`] makes of a sequence of events, where `depth` code blocks
/// are open before the first of them.
///
/// A text inside a code block becomes a Typst text as it is. Outside code blocks a
/// text that is a block of display mathematics is left out, and any other text
/// becomes a Typst text. The starts and ends of code blocks are counted and handed
/// on, as is every other event.
pub open spec fn text_converted(events: Seq<ParserEventView>, depth: nat) -> Seq<ParserEventView>
    decreases events.len(),
{
    if events.len() == 0 {
        Seq::empty()
    } else {
        let rest = events.drop_first();
        match events[0] {
            ParserEventView::Markdown(markdown::EventView::Text(t)) => if depth == 0
                && is_display_math(t) {
                text_converted(rest, depth)
            } else {
                seq![ParserEventView::Typst(typst::EventView::Text(t))] + text_converted(
                    rest,
                    depth,
                )
            },
            ParserEventView::Markdown(
                markdown::EventView::Start(markdown::TagView::CodeBlock(_)),
            ) => seq![events[0]] + text_converted(rest, depth + 1),
            ParserEventView::Markdown(
                markdown::EventView::End(markdown::TagView::CodeBlock(_)),
            ) => seq![events[0]] + text_converted(
                rest,
                if depth > 0 {
                    (depth - 1) as nat
                } else {
                    0
                },
            ),
            x => seq![x] + text_converted(rest, depth),
        }
    }
}

/// Converts Markdown text to Typst text.
#[derive(Debug)]
pub struct ConvertText<T> {
    code: VecDeque<()>,
    iter: T,
}

impl<T: EventStream<Item = ParserEvent>> ConvertText<T> {
    /// The conversion of the events of `iter`.
    pub fn new(iter: T) -> (r: Self)
        requires
            iter.wf(),
        ensures
            r.wf(),
            r.remaining() == text_converted(iter.remaining(), 0),
    {
        ConvertText { code: VecDeque::new(), iter }
    }
}

impl<T: EventStream<Item = ParserEvent>> EventStream for ConvertText<T> {
    type Item = ParserEvent;

    closed spec fn wf(&self) -> bool {
        self.iter.wf()
    }

    closed spec fn remaining(&self) -> Seq<ParserEventView> {
        text_converted(self.iter.remaining(), self.code@.len())
    }

    fn next(&mut self) -> (r: Option<ParserEvent>) {
        loop
            invariant
                self.iter.wf(),
                self.remaining() == old(self).remaining(),
            decreases self.iter.remaining().len(),
        {
            let ghost events = self.iter.remaining();
            let ghost depth = self.code@.len();
            match self.iter.next() {
                Some(ParserEvent::Markdown(markdown::Event::Text(t))) => {
                    if self.code.len() == 0 && display_math(t.as_str()) {
                        // Display mathematics is not converted: go on with the next event.
                    } else {
                        assert(self.remaining() =~= text_converted(events, depth).drop_first());
                        return Some(ParserEvent::Typst(typst::Event::Text(t)));
                    }
                },
                Some(
                    ParserEvent::Markdown(markdown::Event::Start(markdown::Tag::CodeBlock(kind))),
                ) => {
                    self.code.push_back(());
                    assert(self.remaining() =~= text_converted(events, depth).drop_first());
                    return Some(
                        ParserEvent::Markdown(
                            markdown::Event::Start(markdown::Tag::CodeBlock(kind)),
                        ),
                    );
                },
                Some(
                    ParserEvent::Markdown(markdown::Event::End(markdown::Tag::CodeBlock(kind))),
                ) => {
                    let _ = self.code.pop_back();
                    assert(self.remaining() =~= text_converted(events, depth).drop_first());
                    return Some(
                        ParserEvent::Markdown(markdown::Event::End(markdown::Tag::CodeBlock(kind))),
                    );
                },
                Some(x) => {
                    assert(self.remaining() =~= text_converted(events, depth).drop_first());
                    return Some(x);
                },
                None => {
                    return None;
                },
            }
        }
    }
}

impl<T: EventStream<Item = ParserEvent>> Stage for ConvertText<T> {
    type Source = T;

    open spec fn applied(items: Seq<ParserEventView>) -> Seq<ParserEventView> {
        text_converted(items, 0)
    }

    fn wrap(source: T) -> (r: Self) {
        ConvertText::new(source)
    }
}

} // verus!
