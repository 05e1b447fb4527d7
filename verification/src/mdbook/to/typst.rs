//! Conversion of mdBook events to Typst events.
use crate::markdown;
use crate::mdbook;
use crate::stream::{lemma_views_drop_first, views, EventStream, Stage};
use crate::text::{joined, list_chars, push_joined};
use crate::typst;
use crate::{ParserEvent, ParserEventView};
use std::collections::VecDeque;
use vstd::prelude::*;
use vstd::string::*;

pub mod builder;

verus! {

/// The book's title as the Typst rule that sets the document's title to it,
/// between double quotes; any other event as it is.
pub open spec fn title_event(e: ParserEventView) -> ParserEventView {
    match e {
        ParserEventView::Mdbook(mdbook::EventView::Title(title)) => ParserEventView::Typst(
            typst::EventView::DocumentSet("title"@, "\""@ + title + "\""@),
        ),
        x => x,
    }
}

fn convert_title(e: ParserEvent) -> (r: ParserEvent)
    ensures
        r@ == title_event(e@),
{
    match e {
        ParserEvent::Mdbook(mdbook::Event::Title(title)) => {
            let mut value = String::from_str("\"");
            value.append(title.as_str());
            value.append("\"");
            ParserEvent::Typst(typst::Event::DocumentSet(String::from_str("title"), value))
        },
        x => x,
    }
}

/// Converts the title of a book to the rule that sets a Typst document's title.
#[derive(Debug)]
pub struct ConvertTitle<T> {
    iter: T,
}

/// What [`ConvertTitle`] makes of a sequence of events: each event as [`title_event`]
/// has it.
pub open spec fn title_converted(events: Seq<ParserEventView>) -> Seq<ParserEventView> {
    events.map_values(|e: ParserEventView| title_event(e))
}

impl<T: EventStream<Item = ParserEvent>> ConvertTitle<T> {
    /// The conversion of the events of `iter`.
    pub fn new(iter: T) -> (r: Self)
        requires
            iter.wf(),
        ensures
            r.wf(),
            r.remaining() == title_converted(iter.remaining()),
    {
        ConvertTitle { iter }
    }
}

impl<T: EventStream<Item = ParserEvent>> EventStream for ConvertTitle<T> {
    type Item = ParserEvent;

    closed spec fn wf(&self) -> bool {
        self.iter.wf()
    }

    closed spec fn remaining(&self) -> Seq<ParserEventView> {
        title_converted(self.iter.remaining())
    }

    fn next(&mut self) -> (r: Option<ParserEvent>) {
        match self.iter.next() {
            Some(e) => {
                assert(self.remaining() =~= old(self).remaining().drop_first());
                Some(convert_title(e))
            },
            None => None,
        }
    }
}

impl<T: EventStream<Item = ParserEvent>> Stage for ConvertTitle<T> {
    type Source = T;

    open spec fn applied(items: Seq<ParserEventView>) -> Seq<ParserEventView> {
        title_converted(items)
    }

    fn wrap(source: T) -> (r: Self) {
        ConvertTitle::new(source)
    }
}

/// An event of a chapter's Markdown as a Markdown event; any other event as it is.
pub open spec fn content_event(e: ParserEventView) -> ParserEventView {
    match e {
        ParserEventView::Mdbook(mdbook::EventView::MarkdownContentEvent(m)) =>
            ParserEventView::Markdown(m),
        x => x,
    }
}

fn convert_content(e: ParserEvent) -> (r: ParserEvent)
    ensures
        r@ == content_event(e@),
{
    match e {
        ParserEvent::Mdbook(mdbook::Event::MarkdownContentEvent(m)) => ParserEvent::Markdown(m),
        x => x,
    }
}

/// Hands on the events of a chapter's Markdown as Markdown events, for the
/// conversions of Markdown to work on.
#[derive(Debug)]
pub struct ConvertContent<T> {
    iter: T,
}

/// What [`ConvertContent`] makes of a sequence of events: each event as [`content_event`]
/// has it.
pub open spec fn content_converted(events: Seq<ParserEventView>) -> Seq<ParserEventView> {
    events.map_values(|e: ParserEventView| content_event(e))
}

impl<T: EventStream<Item = ParserEvent>> ConvertContent<T> {
    /// The conversion of the events of `iter`.
    pub fn new(iter: T) -> (r: Self)
        requires
            iter.wf(),
        ensures
            r.wf(),
            r.remaining() == content_converted(iter.remaining()),
    {
        ConvertContent { iter }
    }
}

impl<T: EventStream<Item = ParserEvent>> EventStream for ConvertContent<T> {
    type Item = ParserEvent;

    closed spec fn wf(&self) -> bool {
        self.iter.wf()
    }

    closed spec fn remaining(&self) -> Seq<ParserEventView> {
        content_converted(self.iter.remaining())
    }

    fn next(&mut self) -> (r: Option<ParserEvent>) {
        match self.iter.next() {
            Some(e) => {
                assert(self.remaining() =~= old(self).remaining().drop_first());
                Some(convert_content(e))
            },
            None => None,
        }
    }
}

impl<T: EventStream<Item = ParserEvent>> Stage for ConvertContent<T> {
    type Source = T;

    open spec fn applied(items: Seq<ParserEventView>) -> Seq<ParserEventView> {
        content_converted(items)
    }

    fn wrap(source: T) -> (r: Self) {
        ConvertContent::new(source)
    }
}

/// The call that breaks the page unless the page is empty.
pub open spec fn weak_pagebreak() -> ParserEventView {
    ParserEventView::Typst(
        typst::EventView::FunctionCall(None, "pagebreak"@, seq!["weak: true"@]),
    )
}

fn pagebreak_event() -> (r: ParserEvent)
    ensures
        r@ == weak_pagebreak(),
{
    let mut args: Vec<String> = Vec::new();
    args.push(String::from_str("weak: true"));
    assert(list_chars(args@) =~= seq!["weak: true"@]);
    ParserEvent::Typst(typst::Event::FunctionCall(None, String::from_str("pagebreak"), args))
}

/// An author's name between double quotes.
pub open spec fn quoted(name: Seq<char>) -> Seq<char> {
    "\""@ + name + "\""@
}

/// The Typst array of the authors: their names, each between double quotes, with
/// commas between them and round brackets around them.
pub open spec fn author_array(authors: Seq<Seq<char>>) -> Seq<char> {
    "("@ + joined(authors.map_values(|a: Seq<char>| quoted(a)), ","@) + ")"@
}

/// What [`ConvertAuthors`] makes of a sequence of events, where `authors` are the
/// authors that were seen since the last start of an author list.
///
/// The start of an author list and each author are left out. The end of an author
/// list becomes the Typst rule that sets the document's authors, unless there are
/// none, in which case it is left out. Every other event is handed on.
pub open spec fn authors_converted(events: Seq<ParserEventView>, authors: Seq<Seq<char>>) -> Seq<
    ParserEventView,
>
    decreases events.len(),
{
    if events.len() == 0 {
        Seq::empty()
    } else {
        let rest = events.drop_first();
        match events[0] {
            ParserEventView::Mdbook(mdbook::EventView::Start(mdbook::TagView::AuthorList)) =>
                authors_converted(rest, Seq::empty()),
            ParserEventView::Mdbook(mdbook::EventView::Author(a)) => authors_converted(
                rest,
                authors.push(a),
            ),
            ParserEventView::Mdbook(mdbook::EventView::End(mdbook::TagView::AuthorList)) =>
                if authors.len() > 0 {
                    seq![
                        ParserEventView::Typst(
                            typst::EventView::DocumentSet("author"@, author_array(authors)),
                        ),
                    ] + authors_converted(rest, authors)
                } else {
                    authors_converted(rest, authors)
                },
            x => seq![x] + authors_converted(rest, authors),
        }
    }
}

/// Converts the authors of a book to the authors of a Typst document.
#[derive(Debug)]
pub struct ConvertAuthors<T> {
    authors: Vec<String>,
    iter: T,
}

impl<T: EventStream<Item = ParserEvent>> ConvertAuthors<T> {
    /// The conversion of the events of `iter`.
    pub fn new(iter: T) -> (r: Self)
        requires
            iter.wf(),
        ensures
            r.wf(),
            r.remaining() == authors_converted(iter.remaining(), Seq::empty()),
    {
        let r = ConvertAuthors { authors: Vec::new(), iter };
        assert(list_chars(r.authors@) =~= Seq::<Seq<char>>::empty());
        r
    }

    /// The Typst array of the authors that were seen.
    fn array(&self) -> (r: String)
        ensures
            r@ == author_array(list_chars(self.authors@)),
    {
        let mut names: Vec<String> = Vec::new();
        let mut i: usize = 0;
        while i < self.authors.len()
            invariant
                i <= self.authors.len(),
                list_chars(names@) == list_chars(self.authors@).take(i as int).map_values(
                    |a: Seq<char>| quoted(a),
                ),
            decreases self.authors.len() - i,
        {
            let mut name = String::from_str("\"");
            name.append(self.authors[i].as_str());
            name.append("\"");
            let ghost before = names@;
            names.push(name);
            i = i + 1;
            proof {
                assert(list_chars(names@) =~= list_chars(before).push(name@));
                assert(list_chars(self.authors@).take(i as int) =~= list_chars(
                    self.authors@,
                ).take(i - 1).push(self.authors@[i - 1]@));
                assert(list_chars(names@) =~= list_chars(self.authors@).take(
                    i as int,
                ).map_values(|a: Seq<char>| quoted(a)));
            }
        }
        assert(list_chars(self.authors@).take(self.authors.len() as int) =~= list_chars(
            self.authors@,
        ));
        let mut out = String::from_str("(");
        push_joined(&mut out, &names, ",");
        out.append(")");
        out
    }
}

impl<T: EventStream<Item = ParserEvent>> EventStream for ConvertAuthors<T> {
    type Item = ParserEvent;

    closed spec fn wf(&self) -> bool {
        self.iter.wf()
    }

    closed spec fn remaining(&self) -> Seq<ParserEventView> {
        authors_converted(self.iter.remaining(), list_chars(self.authors@))
    }

    fn next(&mut self) -> (r: Option<ParserEvent>) {
        loop
            invariant
                self.iter.wf(),
                self.remaining() == old(self).remaining(),
            decreases self.iter.remaining().len(),
        {
            let ghost events = self.iter.remaining();
            let ghost authors = list_chars(self.authors@);
            match self.iter.next() {
                Some(ParserEvent::Mdbook(mdbook::Event::Start(mdbook::Tag::AuthorList))) => {
                    self.authors = Vec::new();
                    assert(list_chars(self.authors@) =~= Seq::<Seq<char>>::empty());
                },
                Some(ParserEvent::Mdbook(mdbook::Event::Author(a))) => {
                    self.authors.push(a);
                    assert(list_chars(self.authors@) =~= authors.push(a@));
                },
                Some(ParserEvent::Mdbook(mdbook::Event::End(mdbook::Tag::AuthorList))) => {
                    if self.authors.len() > 0 {
                        let array = self.array();
                        assert(self.remaining() =~= authors_converted(
                            events,
                            authors,
                        ).drop_first());
                        return Some(
                            ParserEvent::Typst(
                                typst::Event::DocumentSet(String::from_str("author"), array),
                            ),
                        );
                    }
                },
                Some(x) => {
                    assert(self.remaining() =~= authors_converted(events, authors).drop_first());
                    return Some(x);
                },
                None => {
                    return None;
                },
            }
        }
    }
}

impl<T: EventStream<Item = ParserEvent>> Stage for ConvertAuthors<T> {
    type Source = T;

    open spec fn applied(items: Seq<ParserEventView>) -> Seq<ParserEventView> {
        authors_converted(items, Seq::empty())
    }

    fn wrap(source: T) -> (r: Self) {
        ConvertAuthors::new(source)
    }
}

/// The deepest level that a Markdown heading can have.
pub open spec fn max_level() -> nat {
    6
}

/// The heading level with a number from 1 to 6; a number above 6 gives the
/// deepest level.
pub open spec fn level_of(n: nat) -> markdown::HeadingLevel {
    if n <= 1 {
        markdown::HeadingLevel::H1
    } else if n == 2 {
        markdown::HeadingLevel::H2
    } else if n == 3 {
        markdown::HeadingLevel::H3
    } else if n == 4 {
        markdown::HeadingLevel::H4
    } else if n == 5 {
        markdown::HeadingLevel::H5
    } else {
        markdown::HeadingLevel::H6
    }
}

/// The number of a heading level, from 1 for `H1` to 6 for `H6`.
pub open spec fn number_of(level: markdown::HeadingLevel) -> nat {
    match level {
        markdown::HeadingLevel::H1 => 1,
        markdown::HeadingLevel::H2 => 2,
        markdown::HeadingLevel::H3 => 3,
        markdown::HeadingLevel::H4 => 4,
        markdown::HeadingLevel::H5 => 5,
        markdown::HeadingLevel::H6 => 6,
    }
}

/// The smaller of two numbers.
pub open spec fn at_most(n: nat, limit: nat) -> nat {
    if n <= limit {
        n
    } else {
        limit
    }
}

/// The depth of the chapter that is entered last, where `open` chapters are open:
/// the number of chapters around it, which is 0 for a chapter at the top. It is 0
/// outside any chapter as well.
pub open spec fn chapter_depth(open: nat) -> nat {
    if open > 0 {
        (open - 1) as nat
    } else {
        0
    }
}

/// The level of a heading inside a chapter of depth `depth`, which is the number
/// of chapters around that chapter: `depth` levels deeper than the heading was
/// written, but never deeper than the deepest level. A heading in a chapter at the
/// top keeps its level.
pub open spec fn shifted_level(
    level: markdown::HeadingLevel,
    depth: nat,
) -> markdown::HeadingLevel {
    level_of(at_most(number_of(level) + depth, max_level()))
}

/// The tag of the Typst heading of a chapter that has `depth` chapters around it:
/// its level is one more than `depth`, but never deeper than the deepest level,
/// which is the limit for the headings inside the chapter as well.
pub open spec fn chapter_heading(depth: nat) -> typst::TagView {
    typst::TagView::Heading(
        at_most(1 + depth, max_level()) as u8,
        typst::TableOfContents::Include,
        typst::Bookmarks::Include,
    )
}

/// What [`ConvertChapter`] makes of a sequence of events, where `depth` chapters
/// are open before the first of them.
///
/// The start of a chapter becomes a Typst heading with the chapter's name as its
/// text: the heading's start, the text and the heading's end. The end of a chapter
/// becomes a weak page break. A Markdown heading inside a chapter is moved as many
/// levels down as there are chapters around that chapter, which is the same
/// number that gives the chapter's own heading its level: a chapter at the top
/// leaves its headings at their levels. Every other event is handed on.
pub open spec fn chapters_converted(events: Seq<ParserEventView>, depth: nat) -> Seq<
    ParserEventView,
>
    decreases events.len(),
{
    if events.len() == 0 {
        Seq::empty()
    } else {
        let rest = events.drop_first();
        match events[0] {
            ParserEventView::Mdbook(
                mdbook::EventView::Start(mdbook::TagView::Chapter(_, name, _, _)),
            ) => seq![
                ParserEventView::Typst(typst::EventView::Start(chapter_heading(depth))),
                ParserEventView::Typst(typst::EventView::Text(name)),
                ParserEventView::Typst(typst::EventView::End(chapter_heading(depth))),
            ] + chapters_converted(rest, depth + 1),
            ParserEventView::Mdbook(
                mdbook::EventView::End(mdbook::TagView::Chapter(_, _, _, _)),
            ) => seq![weak_pagebreak()] + chapters_converted(
                rest,
                if depth > 0 {
                    (depth - 1) as nat
                } else {
                    0
                },
            ),
            ParserEventView::Mdbook(
                mdbook::EventView::MarkdownContentEvent(
                    markdown::EventView::Start(markdown::TagView::Heading(level, id, classes)),
                ),
            ) => seq![
                ParserEventView::Mdbook(
                    mdbook::EventView::MarkdownContentEvent(
                        markdown::EventView::Start(
                            markdown::TagView::Heading(
                                shifted_level(level, chapter_depth(depth)),
                                id,
                                classes,
                            ),
                        ),
                    ),
                ),
            ] + chapters_converted(rest, depth),
            ParserEventView::Mdbook(
                mdbook::EventView::MarkdownContentEvent(
                    markdown::EventView::End(markdown::TagView::Heading(level, id, classes)),
                ),
            ) => seq![
                ParserEventView::Mdbook(
                    mdbook::EventView::MarkdownContentEvent(
                        markdown::EventView::End(
                            markdown::TagView::Heading(
                                shifted_level(level, chapter_depth(depth)),
                                id,
                                classes,
                            ),
                        ),
                    ),
                ),
            ] + chapters_converted(rest, depth),
            x => seq![x] + chapters_converted(rest, depth),
        }
    }
}

/// A heading that was written at level `L`, inside a chapter of depth `d` (`d`
/// chapters are around the chapter; 0 for a chapter at the top), gets the level
/// that is the smaller of `L + d` and the deepest level.
pub proof fn lemma_heading_level(level: markdown::HeadingLevel, depth: nat)
    ensures
        number_of(shifted_level(level, depth)) == at_most(number_of(level) + depth, max_level()),
        number_of(shifted_level(level, depth)) <= max_level(),
        depth == 0 ==> shifted_level(level, depth) == level,
{
}

/// The start of a heading of the level `level`.
pub open spec fn heading_start(
    level: markdown::HeadingLevel,
    id: Option<Seq<char>>,
    classes: Seq<Seq<char>>,
) -> ParserEventView {
    ParserEventView::Mdbook(
        mdbook::EventView::MarkdownContentEvent(
            markdown::EventView::Start(markdown::TagView::Heading(level, id, classes)),
        ),
    )
}

/// The end of a heading of the level `level`.
pub open spec fn heading_end(
    level: markdown::HeadingLevel,
    id: Option<Seq<char>>,
    classes: Seq<Seq<char>>,
) -> ParserEventView {
    ParserEventView::Mdbook(
        mdbook::EventView::MarkdownContentEvent(
            markdown::EventView::End(markdown::TagView::Heading(level, id, classes)),
        ),
    )
}

/// Inside a chapter of depth `d`, which is where `d + 1` chapters are open, the
/// start and the end of a heading of level `L` are handed on with the level that
/// is the smaller of `L + d` and the deepest level, and are otherwise unchanged.
/// Outside any chapter they are handed on as they are.
pub proof fn lemma_heading_in_chapter(
    level: markdown::HeadingLevel,
    id: Option<Seq<char>>,
    classes: Seq<Seq<char>>,
    rest: Seq<ParserEventView>,
    d: nat,
)
    ensures
        chapters_converted(seq![heading_start(level, id, classes)] + rest, d + 1) == seq![
            heading_start(level_of(at_most(number_of(level) + d, max_level())), id, classes),
        ] + chapters_converted(rest, d + 1),
        chapters_converted(seq![heading_end(level, id, classes)] + rest, d + 1) == seq![
            heading_end(level_of(at_most(number_of(level) + d, max_level())), id, classes),
        ] + chapters_converted(rest, d + 1),
        chapters_converted(seq![heading_start(level, id, classes)] + rest, 0) == seq![
            heading_start(level, id, classes),
        ] + chapters_converted(rest, 0),
        chapters_converted(seq![heading_end(level, id, classes)] + rest, 0) == seq![
            heading_end(level, id, classes),
        ] + chapters_converted(rest, 0),
{
    assert((seq![heading_start(level, id, classes)] + rest).drop_first() =~= rest);
    assert((seq![heading_end(level, id, classes)] + rest).drop_first() =~= rest);
}

/// The heading of a chapter of depth `d` has the level that is the smaller of
/// `1 + d` and the deepest level, and a heading of level `L` inside that chapter
/// is handed on with the level that is the smaller of `L + d` and the deepest
/// level: both are moved down by `d`, and both stop at the same level.
pub proof fn lemma_chapter_and_its_headings(
    status: mdbook::ChapterStatus,
    name: Seq<char>,
    source: Option<mdbook::ChapterSourceView>,
    number: Option<u64>,
    level: markdown::HeadingLevel,
    id: Option<Seq<char>>,
    classes: Seq<Seq<char>>,
    d: nat,
)
    ensures
        chapters_converted(
            seq![
                ParserEventView::Mdbook(
                    mdbook::EventView::Start(
                        mdbook::TagView::Chapter(status, name, source, number),
                    ),
                ),
                heading_start(level, id, classes),
            ],
            d,
        ) == seq![
            ParserEventView::Typst(
                typst::EventView::Start(
                    typst::TagView::Heading(
                        at_most(1 + d, max_level()) as u8,
                        typst::TableOfContents::Include,
                        typst::Bookmarks::Include,
                    ),
                ),
            ),
            ParserEventView::Typst(typst::EventView::Text(name)),
            ParserEventView::Typst(
                typst::EventView::End(
                    typst::TagView::Heading(
                        at_most(1 + d, max_level()) as u8,
                        typst::TableOfContents::Include,
                        typst::Bookmarks::Include,
                    ),
                ),
            ),
            heading_start(level_of(at_most(number_of(level) + d, max_level())), id, classes),
        ],
{
    let chapter = ParserEventView::Mdbook(
        mdbook::EventView::Start(mdbook::TagView::Chapter(status, name, source, number)),
    );
    let heading = heading_start(level, id, classes);
    let both = seq![chapter, heading];
    reveal_with_fuel(chapters_converted, 3);
    assert(both.drop_first() =~= seq![heading]);
    assert(seq![heading].drop_first() =~= Seq::<ParserEventView>::empty());
    assert(chapters_converted(both, d) =~= seq![
        ParserEventView::Typst(typst::EventView::Start(chapter_heading(d))),
        ParserEventView::Typst(typst::EventView::Text(name)),
        ParserEventView::Typst(typst::EventView::End(chapter_heading(d))),
        heading_start(level_of(at_most(number_of(level) + d, max_level())), id, classes),
    ]);
}

/// The heading of a chapter with `depth` chapters around it has the level that is
/// the smaller of `1 + depth` and the deepest level: from the sixth chapter
/// inwards it is the deepest level, however many chapters are open.
pub proof fn lemma_chapter_heading_level(depth: nat)
    ensures
        chapter_heading(depth) == typst::TagView::Heading(
            at_most(1 + depth, max_level()) as u8,
            typst::TableOfContents::Include,
            typst::Bookmarks::Include,
        ),
        depth < 6 ==> chapter_heading(depth)->Heading_0 == 1 + depth,
        depth >= 5 ==> chapter_heading(depth)->Heading_0 == 6,
        1 <= chapter_heading(depth)->Heading_0 <= 6,
{
}

/// The level of a heading inside a chapter of depth `depth`: see
/// [`shifted_level`].
pub fn shift_level(level: markdown::HeadingLevel, depth: usize) -> (r: markdown::HeadingLevel)
    ensures
        r == shifted_level(level, depth as nat),
        number_of(r) == at_most(number_of(level) + depth as nat, max_level()),
{
    let n: usize = match level {
        markdown::HeadingLevel::H1 => 1,
        markdown::HeadingLevel::H2 => 2,
        markdown::HeadingLevel::H3 => 3,
        markdown::HeadingLevel::H4 => 4,
        markdown::HeadingLevel::H5 => 5,
        markdown::HeadingLevel::H6 => 6,
    };
    let m: usize = if depth >= 6 {
        6
    } else if n + depth > 6 {
        6
    } else {
        n + depth
    };
    if m <= 1 {
        markdown::HeadingLevel::H1
    } else if m == 2 {
        markdown::HeadingLevel::H2
    } else if m == 3 {
        markdown::HeadingLevel::H3
    } else if m == 4 {
        markdown::HeadingLevel::H4
    } else if m == 5 {
        markdown::HeadingLevel::H5
    } else {
        markdown::HeadingLevel::H6
    }
}

fn heading_of_chapter(depth: usize) -> (t: typst::Tag)
    ensures
        t@ == chapter_heading(depth as nat),
{
    let level: u8 = if depth >= 5 {
        6
    } else {
        (1 + depth) as u8
    };
    typst::Tag::Heading(level, typst::TableOfContents::Include, typst::Bookmarks::Include)
}

/// Converts the chapters of a book to Typst headings and page breaks, and moves
/// the headings inside a chapter down by the chapter's depth.
#[derive(Debug)]
pub struct ConvertChapter<T> {
    chapters: VecDeque<()>,
    buf: VecDeque<ParserEvent>,
    iter: T,
}

impl<T: EventStream<Item = ParserEvent>> ConvertChapter<T> {
    /// The conversion of the events of `iter`.
    pub fn new(iter: T) -> (r: Self)
        requires
            iter.wf(),
        ensures
            r.wf(),
            r.remaining() == chapters_converted(iter.remaining(), 0),
    {
        let r = ConvertChapter { chapters: VecDeque::new(), buf: VecDeque::new(), iter };
        assert(views(r.buf@) + chapters_converted(iter.remaining(), 0) =~= chapters_converted(
            iter.remaining(),
            0,
        ));
        r
    }
}

impl<T> ConvertChapter<T> {
    /// The depth of the chapter that was entered last: the number of chapters
    /// around it.
    fn depth(&self) -> (d: usize)
        ensures
            d == chapter_depth(self.chapters@.len()),
    {
        if self.chapters.len() > 0 {
            self.chapters.len() - 1
        } else {
            0
        }
    }
}

impl<T: EventStream<Item = ParserEvent>> EventStream for ConvertChapter<T> {
    type Item = ParserEvent;

    closed spec fn wf(&self) -> bool {
        self.iter.wf()
    }

    closed spec fn remaining(&self) -> Seq<ParserEventView> {
        views(self.buf@) + chapters_converted(self.iter.remaining(), self.chapters@.len())
    }

    fn next(&mut self) -> (r: Option<ParserEvent>) {
        // An event that was held back comes first.
        if let Some(buffered) = self.buf.pop_front() {
            proof {
                lemma_views_drop_first(old(self).buf@);
                assert(self.buf@ =~= old(self).buf@.drop_first());
                assert(self.remaining() =~= old(self).remaining().drop_first());
            }
            return Some(buffered);
        }
        let ghost events = self.iter.remaining();
        let ghost depth = self.chapters@.len();
        assert(views(self.buf@) =~= Seq::<ParserEventView>::empty());
        assert(old(self).remaining() =~= chapters_converted(events, depth));
        match self.iter.next() {
            Some(
                ParserEvent::Mdbook(mdbook::Event::Start(mdbook::Tag::Chapter(_, name, _, _))),
            ) => {
                let depth = self.chapters.len();
                let text = ParserEvent::Typst(typst::Event::Text(name));
                let end = ParserEvent::Typst(typst::Event::End(heading_of_chapter(depth)));
                self.buf.push_back(text);
                self.buf.push_back(end);
                self.chapters.push_back(());
                proof {
                    assert(views(self.buf@) =~= seq![text@, end@]);
                    assert(self.remaining() =~= old(self).remaining().drop_first());
                }
                Some(ParserEvent::Typst(typst::Event::Start(heading_of_chapter(depth))))
            },
            Some(ParserEvent::Mdbook(mdbook::Event::End(mdbook::Tag::Chapter(_, _, _, _)))) => {
                let _ = self.chapters.pop_front();
                assert(self.remaining() =~= old(self).remaining().drop_first());
                Some(pagebreak_event())
            },
            Some(
                ParserEvent::Mdbook(
                    mdbook::Event::MarkdownContentEvent(
                        markdown::Event::Start(markdown::Tag::Heading(level, id, classes)),
                    ),
                ),
            ) => {
                let new_level = shift_level(level, self.depth());
                assert(self.remaining() =~= old(self).remaining().drop_first());
                Some(
                    ParserEvent::Mdbook(
                        mdbook::Event::MarkdownContentEvent(
                            markdown::Event::Start(
                                markdown::Tag::Heading(new_level, id, classes),
                            ),
                        ),
                    ),
                )
            },
            Some(
                ParserEvent::Mdbook(
                    mdbook::Event::MarkdownContentEvent(
                        markdown::Event::End(markdown::Tag::Heading(level, id, classes)),
                    ),
                ),
            ) => {
                let new_level = shift_level(level, self.depth());
                assert(self.remaining() =~= old(self).remaining().drop_first());
                Some(
                    ParserEvent::Mdbook(
                        mdbook::Event::MarkdownContentEvent(
                            markdown::Event::End(markdown::Tag::Heading(new_level, id, classes)),
                        ),
                    ),
                )
            },
            Some(x) => {
                assert(self.remaining() =~= old(self).remaining().drop_first());
                Some(x)
            },
            None => None,
        }
    }
}

impl<T: EventStream<Item = ParserEvent>> Stage for ConvertChapter<T> {
    type Source = T;

    open spec fn applied(items: Seq<ParserEventView>) -> Seq<ParserEventView> {
        chapters_converted(items, 0)
    }

    fn wrap(source: T) -> (r: Self) {
        ConvertChapter::new(source)
    }
}

/// What [`ConvertChapterToPagebreak`] makes of a sequence of events: the start of
/// a chapter is left out, the end of a chapter becomes a weak page break, and
/// every other event is handed on.
pub open spec fn pagebreaks_converted(events: Seq<ParserEventView>) -> Seq<ParserEventView>
    decreases events.len(),
{
    if events.len() == 0 {
        Seq::empty()
    } else {
        let rest = events.drop_first();
        match events[0] {
            ParserEventView::Mdbook(
                mdbook::EventView::Start(mdbook::TagView::Chapter(_, _, _, _)),
            ) => pagebreaks_converted(rest),
            ParserEventView::Mdbook(
                mdbook::EventView::End(mdbook::TagView::Chapter(_, _, _, _)),
            ) => seq![weak_pagebreak()] + pagebreaks_converted(rest),
            x => seq![x] + pagebreaks_converted(rest),
        }
    }
}

/// Converts the chapters of a book to Typst page breaks. What is inside a chapter
/// is left as it is.
#[derive(Debug)]
pub struct ConvertChapterToPagebreak<T> {
    iter: T,
}

impl<T: EventStream<Item = ParserEvent>> ConvertChapterToPagebreak<T> {
    /// The conversion of the events of `iter`.
    pub fn new(iter: T) -> (r: Self)
        requires
            iter.wf(),
        ensures
            r.wf(),
            r.remaining() == pagebreaks_converted(iter.remaining()),
    {
        ConvertChapterToPagebreak { iter }
    }
}

impl<T: EventStream<Item = ParserEvent>> EventStream for ConvertChapterToPagebreak<T> {
    type Item = ParserEvent;

    closed spec fn wf(&self) -> bool {
        self.iter.wf()
    }

    closed spec fn remaining(&self) -> Seq<ParserEventView> {
        pagebreaks_converted(self.iter.remaining())
    }

    fn next(&mut self) -> (r: Option<ParserEvent>) {
        loop
            invariant
                self.iter.wf(),
                self.remaining() == old(self).remaining(),
            decreases self.iter.remaining().len(),
        {
            let ghost events = self.iter.remaining();
            match self.iter.next() {
                Some(
                    ParserEvent::Mdbook(mdbook::Event::Start(mdbook::Tag::Chapter(_, _, _, _))),
                ) => {},
                Some(ParserEvent::Mdbook(mdbook::Event::End(mdbook::Tag::Chapter(_, _, _, _)))) => {
                    assert(self.remaining() =~= pagebreaks_converted(events).drop_first());
                    return Some(pagebreak_event());
                },
                Some(x) => {
                    assert(self.remaining() =~= pagebreaks_converted(events).drop_first());
                    return Some(x);
                },
                None => {
                    return None;
                },
            }
        }
    }
}

impl<T: EventStream<Item = ParserEvent>> Stage for ConvertChapterToPagebreak<T> {
    type Source = T;

    open spec fn applied(items: Seq<ParserEventView>) -> Seq<ParserEventView> {
        pagebreaks_converted(items)
    }

    fn wrap(source: T) -> (r: Self) {
        ConvertChapterToPagebreak::new(source)
    }
}

} // verus!
