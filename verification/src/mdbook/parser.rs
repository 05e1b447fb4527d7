//! From a book to its events.
use crate::markdown;
use crate::markdown::merge::{merged, TextMergeStream};
use crate::markdown::parse::{markdown_events, parse};
use crate::mdbook::balance::balanced;
use crate::mdbook::book::{BookItem, Chapter, Config, MDBook, RenderContext};
use crate::mdbook::laws::{
    below_well_shaped, covered, covering, lemma_book_balanced, lemma_book_covered,
    lemma_whole_book_balanced, well_shaped,
};
use crate::mdbook::parts::{normalize_parts, normalized};
use crate::mdbook::{
    ChapterSource, ChapterSourceView, ChapterStatus, ContentType, Event, EventView, Tag, TagView,
};
use crate::stream::{collect, lemma_views_add, lemma_views_push, views, EventStream, VecStream};
use crate::text::opt_chars;
use vstd::prelude::*;

verus! {

/// The events of a chapter's Markdown, with the text events that stand next to
/// each other merged, each as an event of the book.
pub open spec fn content_events(text: Seq<char>) -> Seq<EventView> {
    merged(markdown_events(text)).map_values(
        |e: markdown::EventView| EventView::MarkdownContentEvent(e),
    )
}

/// The tag of a chapter: a chapter without a location is a draft, and its source
/// is its source file.
pub open spec fn chapter_tag(ch: Chapter) -> TagView {
    TagView::Chapter(
        if ch.path is None {
            ChapterStatus::Draft
        } else {
            ChapterStatus::Active
        },
        ch.name@,
        match ch.source_path {
            Some(p) => Some(ChapterSourceView::Path(p@)),
            None => None,
        },
        None,
    )
}

/// The events of a chapter: its start, its content between a start and an end of
/// its own where there is any, the events of the chapters below it where there
/// are any, and its end.
pub open spec fn chapter_events(ch: Chapter) -> Seq<EventView>
    decreases ch, 0nat,
{
    seq![EventView::Start(chapter_tag(ch))] + (if ch.content@.len() > 0 {
        seq![EventView::Start(TagView::Content(ContentType::Markdown))] + content_events(
            ch.content@,
        ) + seq![EventView::End(TagView::Content(ContentType::Markdown))]
    } else {
        Seq::empty()
    }) + (if ch.sub_items@.len() > 0 {
        book_events(ch.sub_items@)
    } else {
        Seq::empty()
    }) + seq![EventView::End(chapter_tag(ch))]
}

/// The events of one item, where `current` is the title of the part that is open.
pub open spec fn item_events(item: BookItem, current: Option<Seq<char>>) -> Seq<EventView>
    decreases item, 0nat,
{
    match item {
        BookItem::Chapter(ch) => chapter_events(ch),
        BookItem::Separator => seq![EventView::Separator],
        BookItem::PartTitle(title) => match current {
            Some(c) => seq![
                EventView::End(TagView::Part(Some(c), None)),
                EventView::Start(TagView::Part(Some(title@), None)),
            ],
            None => seq![EventView::Start(TagView::Part(Some(title@), None))],
        },
    }
}

/// The title of the part that is open after `item`.
pub open spec fn title_after(item: BookItem, current: Option<Seq<char>>) -> Option<Seq<char>> {
    match item {
        BookItem::PartTitle(title) => Some(title@),
        _ => current,
    }
}

/// The events of the items in turn, where `current` is the title of the part that
/// is open before the first of them. A part title ends the open part and starts
/// its own; the last part is left open.
pub open spec fn item_list_events(items: Seq<BookItem>, current: Option<Seq<char>>) -> Seq<
    EventView,
>
    decreases items, 0nat,
{
    if items.len() == 0 {
        Seq::empty()
    } else {
        item_events(items[0], current) + item_list_events(
            items.drop_first(),
            title_after(items[0], current),
        )
    }
}

/// The events of a list of items: those of the items in turn, with the part
/// boundaries completed.
pub open spec fn book_events(items: Seq<BookItem>) -> Seq<EventView>
    decreases items, 1nat,
{
    normalized(item_list_events(items, None))
}

/// The events of a chapter's content, between a start and an end.
fn content_of(text: &str) -> (out: Vec<Event>)
    requires
        text@.len() > 0,
    ensures
        views(out@) == seq![EventView::Start(TagView::Content(ContentType::Markdown))]
            + content_events(text@) + seq![
            EventView::End(TagView::Content(ContentType::Markdown)),
        ],
{
    let tokens = collect(TextMergeStream::new(parse(text)));
    let mut out: Vec<Event> = Vec::new();
    out.push(Event::Start(Tag::Content(ContentType::Markdown)));
    assert(views(out@) =~= seq![EventView::Start(TagView::Content(ContentType::Markdown))]);
    let ghost head = views(out@);
    for e in it: tokens
        invariant
            it.seq() == tokens@,
            views(tokens@) == merged(markdown_events(text@)),
            views(out@) == head + content_events(text@).take(it.index() as int),
    {
        proof {
            lemma_views_push(out@, Event::MarkdownContentEvent(e));
            assert(views(tokens@)[it.index() as int] == e@);
            assert(content_events(text@).take(it.index() + 1) =~= content_events(text@).take(
                it.index() as int,
            ).push(EventView::MarkdownContentEvent(e@)));
        }
        out.push(Event::MarkdownContentEvent(e));
    }
    proof {
        assert(content_events(text@).take(tokens@.len() as int) =~= content_events(text@));
        lemma_views_push(out@, Event::End(Tag::Content(ContentType::Markdown)));
    }
    out.push(Event::End(Tag::Content(ContentType::Markdown)));
    out
}

/// The tag of a chapter.
fn tag_of_chapter(ch: &Chapter) -> (t: Tag)
    ensures
        t@ == chapter_tag(*ch),
{
    let status = if ch.is_draft_chapter() {
        ChapterStatus::Draft
    } else {
        ChapterStatus::Active
    };
    let source = match &ch.source_path {
        Some(p) => Some(ChapterSource::Path(p.clone())),
        None => None,
    };
    Tag::Chapter(status, ch.name.clone(), source, None)
}

/// The events of a list of items of a book: those of the items in turn, with the
/// part boundaries completed.
///
/// The events are balanced where the last part gets its end, and every event that
/// is no part boundary stands inside a part where the items are as [`covering`]
/// describes.
pub fn events_from_items(items: &Vec<BookItem>) -> (out: Vec<Event>)
    ensures
        views(out@) == book_events(items@),
        well_shaped(items@) ==> balanced(views(out@)),
        covering(items@) && below_well_shaped(items@) ==> covered(views(out@)),
    decreases items,
{
    proof {
        if well_shaped(items@) {
            lemma_book_balanced(items@);
        }
        if covering(items@) && below_well_shaped(items@) {
            lemma_book_covered(items@);
        }
    }
    let mut out: Vec<Event> = Vec::new();
    let mut current: Option<String> = None;
    let mut i: usize = 0;
    assert(views(out@) =~= Seq::<EventView>::empty());
    assert(items@.skip(0) =~= items@);
    while i < items.len()
        invariant
            i <= items.len(),
            views(out@) + item_list_events(items@.skip(i as int), opt_chars(current))
                == item_list_events(items@, None),
        decreases items.len() - i,
    {
        let ghost rest = items@.skip(i as int);
        let ghost before = views(out@);
        let ghost open = opt_chars(current);
        proof {
            assert(rest[0] == items@[i as int]);
            assert(rest.drop_first() =~= items@.skip(i + 1));
            assert(item_list_events(rest, open) == item_events(rest[0], open) + item_list_events(
                rest.drop_first(),
                title_after(rest[0], open),
            ));
        }
        match &items[i] {
            BookItem::Chapter(ch) => {
                let tag = tag_of_chapter(ch);
                proof {
                    lemma_views_push(out@, Event::Start(tag));
                }
                out.push(Event::Start(tag));
                if !ch.content.as_str().is_empty() {
                    let mut content = content_of(ch.content.as_str());
                    proof {
                        lemma_views_add(out@, content@);
                    }
                    out.append(&mut content);
                }
                if ch.sub_items.len() > 0 {
                    let mut below = events_from_items(&ch.sub_items);
                    proof {
                        lemma_views_add(out@, below@);
                    }
                    out.append(&mut below);
                }
                let tag = tag_of_chapter(ch);
                proof {
                    lemma_views_push(out@, Event::End(tag));
                }
                out.push(Event::End(tag));
                assert(views(out@) =~= before + chapter_events(*ch));
            },
            BookItem::Separator => {
                proof {
                    lemma_views_push(out@, Event::Separator);
                }
                out.push(Event::Separator);
                assert(views(out@) =~= before + seq![EventView::Separator]);
            },
            BookItem::PartTitle(title) => {
                if let Some(c) = current {
                    let end = Event::End(Tag::Part(Some(c), None));
                    proof {
                        lemma_views_push(out@, end);
                    }
                    out.push(end);
                }
                let start = Event::Start(Tag::Part(Some(title.clone()), None));
                proof {
                    lemma_views_push(out@, start);
                }
                out.push(start);
                assert(views(out@) =~= before + item_events(items@[i as int], open));
                current = Some(title.clone());
            },
        }
        i = i + 1;
        assert(views(out@) == before + item_events(rest[0], open));
        assert(opt_chars(current) == title_after(rest[0], open));
        assert(views(out@) + item_list_events(items@.skip(i as int), opt_chars(current))
            =~= before + item_list_events(rest, open));
    }
    normalize_parts(out)
}

/// The authors of a book, each as an event.
pub open spec fn author_events(authors: Seq<String>) -> Seq<EventView> {
    authors.map_values(|a: String| EventView::Author(a@))
}

/// The events of a book's metadata: the title where there is one, and the list of
/// authors, between a start and an end, where there are any.
pub open spec fn config_events(config: Config) -> Seq<EventView> {
    (match config.title {
        Some(t) => seq![EventView::Title(t@)],
        None => Seq::empty(),
    }) + (if config.authors@.len() > 0 {
        seq![EventView::Start(TagView::AuthorList)] + author_events(config.authors@) + seq![
            EventView::End(TagView::AuthorList),
        ]
    } else {
        Seq::empty()
    })
}

#[derive(Debug)]
enum ConfigState {
    Start,
    Title,
    AuthorList,
    Author(usize),
    Done,
}

/// The events of a book's metadata, as a stream.
#[derive(Debug)]
pub struct ConfigParser<'a> {
    state: ConfigState,
    config: &'a Config,
}

impl<'a> ConfigParser<'a> {
    /// The events of the metadata `config`.
    pub fn new(config: &'a Config) -> (r: Self)
        ensures
            r.wf(),
            r.remaining() == config_events(*config),
    {
        ConfigParser { config, state: ConfigState::Start }
    }

    /// What is left of the author list from the author at `index` on.
    spec fn authors_from(&self, index: int) -> Seq<EventView> {
        if 0 <= index < self.config.authors@.len() {
            author_events(self.config.authors@).skip(index) + seq![
                EventView::End(TagView::AuthorList),
            ]
        } else {
            seq![EventView::End(TagView::AuthorList)]
        }
    }
}

impl<'a> EventStream for ConfigParser<'a> {
    type Item = Event;

    closed spec fn wf(&self) -> bool {
        self.state is AuthorList ==> self.config.authors@.len() > 0
    }

    closed spec fn remaining(&self) -> Seq<EventView> {
        match self.state {
            ConfigState::Start => config_events(*self.config),
            ConfigState::Title => if self.config.authors@.len() > 0 {
                seq![EventView::Start(TagView::AuthorList)] + self.authors_from(0)
            } else {
                Seq::empty()
            },
            ConfigState::AuthorList => self.authors_from(0),
            ConfigState::Author(index) => self.authors_from(index as int),
            ConfigState::Done => Seq::empty(),
        }
    }

    fn next(&mut self) -> (r: Option<Event>) {
        let ghost authors = author_events(self.config.authors@);
        if let ConfigState::Start = self.state {
            self.state = ConfigState::Title;
            proof {
                assert(authors.skip(0) =~= authors);
            }
            if let Some(title) = &self.config.title {
                assert(self.remaining() =~= config_events(*self.config).drop_first());
                return Some(Event::Title(title.clone()));
            }
            assert(self.remaining() =~= config_events(*self.config));
        }
        match self.state {
            ConfigState::Start => None,
            ConfigState::Title => {
                if self.config.authors.len() > 0 {
                    self.state = ConfigState::AuthorList;
                    assert(self.remaining() =~= old(self).remaining().drop_first());
                    Some(Event::Start(Tag::AuthorList))
                } else {
                    self.state = ConfigState::Done;
                    None
                }
            },
            ConfigState::AuthorList => {
                self.state = ConfigState::Author(1);
                proof {
                    assert(authors.skip(0).drop_first() =~= authors.skip(1));
                    assert(self.remaining() =~= old(self).remaining().drop_first());
                }
                Some(Event::Author(self.config.authors[0].clone()))
            },
            ConfigState::Author(index) => {
                if index >= self.config.authors.len() {
                    self.state = ConfigState::Done;
                    assert(self.remaining() =~= old(self).remaining().drop_first());
                    Some(Event::End(Tag::AuthorList))
                } else {
                    self.state = ConfigState::Author(index + 1);
                    proof {
                        assert(authors.skip(index as int).drop_first() =~= authors.skip(
                            index + 1,
                        ));
                        assert(self.remaining() =~= old(self).remaining().drop_first());
                    }
                    Some(Event::Author(self.config.authors[index].clone()))
                }
            },
            ConfigState::Done => None,
        }
    }
}

/// The events of a whole book: its root, its metadata and its items.
pub open spec fn whole_book_events(root: Seq<char>, config: Config, sections: Seq<BookItem>) -> Seq<
    EventView,
> {
    seq![EventView::Root(root)] + config_events(config) + book_events(sections)
}

fn events_of_book(root: &String, config: &Config, sections: &Vec<BookItem>) -> (out: Vec<Event>)
    ensures
        views(out@) == whole_book_events(root@, *config, sections@),
        well_shaped(sections@) ==> balanced(views(out@)),
{
    proof {
        if well_shaped(sections@) {
            lemma_whole_book_balanced(root@, *config, sections@);
        }
    }
    let mut out: Vec<Event> = Vec::new();
    out.push(Event::Root(root.clone()));
    assert(views(out@) =~= seq![EventView::Root(root@)]);
    let mut meta = collect(ConfigParser::new(config));
    proof {
        lemma_views_add(out@, meta@);
    }
    out.append(&mut meta);
    let mut items = events_from_items(sections);
    proof {
        lemma_views_add(out@, items@);
    }
    out.append(&mut items);
    out
}

/// The events of a book.
#[derive(Debug, Clone)]
pub struct Parser(Vec<Event>);

impl Parser {
    /// The events that the parser holds.
    pub closed spec fn events(&self) -> Seq<EventView> {
        views(self.0@)
    }

    /// The events of a book that was loaded as a library does.
    pub fn from_mdbook(book: &MDBook) -> (r: Self)
        ensures
            r.events() == whole_book_events(book.root@, book.config, book.sections@),
            well_shaped(book.sections@) ==> balanced(r.events()),
    {
        Parser(events_of_book(&book.root, &book.config, &book.sections))
    }

    /// The events of a book that was handed to a renderer.
    pub fn from_rendercontext(ctx: &RenderContext) -> (r: Self)
        ensures
            r.events() == whole_book_events(ctx.root@, ctx.config, ctx.sections@),
            well_shaped(ctx.sections@) ==> balanced(r.events()),
    {
        Parser(events_of_book(&ctx.root, &ctx.config, &ctx.sections))
    }

    /// The events, to look at one after the other.
    pub fn iter(&self) -> (r: &Vec<Event>)
        ensures
            views(r@) == self.events(),
    {
        &self.0
    }

    /// The events as a stream, to hand on to a conversion.
    pub fn into_stream(self) -> (s: VecStream<Event>)
        ensures
            s.wf(),
            s.remaining() == self.events(),
    {
        VecStream::new(self.0)
    }
}

/// The events of a book, under the name that says which kind of book.
#[derive(Debug, Clone)]
pub struct MdBookParser(Vec<Event>);

impl MdBookParser {
    /// The events that the parser holds.
    pub closed spec fn events(&self) -> Seq<EventView> {
        views(self.0@)
    }

    /// The events of a book that was loaded as a library does.
    pub fn from_mdbook(book: &MDBook) -> (r: Self)
        ensures
            r.events() == whole_book_events(book.root@, book.config, book.sections@),
            well_shaped(book.sections@) ==> balanced(r.events()),
    {
        MdBookParser(events_of_book(&book.root, &book.config, &book.sections))
    }

    /// The events of a book that was handed to a renderer.
    pub fn from_rendercontext(ctx: &RenderContext) -> (r: Self)
        ensures
            r.events() == whole_book_events(ctx.root@, ctx.config, ctx.sections@),
            well_shaped(ctx.sections@) ==> balanced(r.events()),
    {
        MdBookParser(events_of_book(&ctx.root, &ctx.config, &ctx.sections))
    }

    /// The events, to look at one after the other.
    pub fn iter(&self) -> (r: &Vec<Event>)
        ensures
            views(r@) == self.events(),
    {
        &self.0
    }

    /// The events as a stream, to hand on to a conversion.
    pub fn into_stream(self) -> (s: VecStream<Event>)
        ensures
            s.wf(),
            s.remaining() == self.events(),
    {
        VecStream::new(self.0)
    }
}

} // verus!
