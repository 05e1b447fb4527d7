//! Tokenizing of Markdown text, which the `pulldown_cmark` crate does.
use crate::markdown;
use crate::stream::{views, EventStream, VecStream};
use pulldown_cmark::Alignment as CmarkAlignment;
use pulldown_cmark::CodeBlockKind as CmarkCodeBlockKind;
use pulldown_cmark::Event as CmarkEvent;
use pulldown_cmark::HeadingLevel as CmarkHeadingLevel;
use pulldown_cmark::LinkType as CmarkLinkType;
use pulldown_cmark::Tag as CmarkTag;
use vstd::prelude::*;

verus! {

/// `pulldown_cmark::Event`, which is handed on as it is.
#[verifier::external_type_specification]
#[verifier::external_body]
pub struct ExCmarkEvent<'a>(CmarkEvent<'a>);

/// `pulldown_cmark::Tag`, which is handed on as it is.
#[verifier::external_type_specification]
#[verifier::external_body]
pub struct ExCmarkTag<'a>(CmarkTag<'a>);

/// `pulldown_cmark::HeadingLevel`, which is handed on as it is.
#[verifier::external_type_specification]
#[verifier::external_body]
pub struct ExCmarkHeadingLevel(CmarkHeadingLevel);

/// `pulldown_cmark::LinkType`, which is handed on as it is.
#[verifier::external_type_specification]
#[verifier::external_body]
pub struct ExCmarkLinkType(CmarkLinkType);

/// `pulldown_cmark::Alignment`, which is handed on as it is.
#[verifier::external_type_specification]
#[verifier::external_body]
pub struct ExCmarkAlignment(CmarkAlignment);

/// The events that `pulldown_cmark::Parser::new` yields for a text, each in the
/// form that this library gives it, one for one. The tokenizer reads nothing but
/// the text, so the same text has the same events.
pub uninterp spec fn markdown_events(text: Seq<char>) -> Seq<markdown::EventView>;

/// `pulldown_cmark::HeadingLevel`, variant for variant.
#[verifier::external_body]
fn heading_level(level: CmarkHeadingLevel) -> markdown::HeadingLevel {
    match level {
        CmarkHeadingLevel::H1 => markdown::HeadingLevel::H1,
        CmarkHeadingLevel::H2 => markdown::HeadingLevel::H2,
        CmarkHeadingLevel::H3 => markdown::HeadingLevel::H3,
        CmarkHeadingLevel::H4 => markdown::HeadingLevel::H4,
        CmarkHeadingLevel::H5 => markdown::HeadingLevel::H5,
        CmarkHeadingLevel::H6 => markdown::HeadingLevel::H6,
    }
}

/// `pulldown_cmark::LinkType`, variant for variant.
#[verifier::external_body]
fn link_type(ty: CmarkLinkType) -> markdown::LinkType {
    match ty {
        CmarkLinkType::Inline => markdown::LinkType::Inline,
        CmarkLinkType::Reference => markdown::LinkType::Reference,
        CmarkLinkType::ReferenceUnknown => markdown::LinkType::ReferenceUnknown,
        CmarkLinkType::Collapsed => markdown::LinkType::Collapsed,
        CmarkLinkType::CollapsedUnknown => markdown::LinkType::CollapsedUnknown,
        CmarkLinkType::Shortcut => markdown::LinkType::Shortcut,
        CmarkLinkType::ShortcutUnknown => markdown::LinkType::ShortcutUnknown,
        CmarkLinkType::Autolink => markdown::LinkType::Autolink,
        CmarkLinkType::Email => markdown::LinkType::Email,
    }
}

/// `pulldown_cmark::Alignment`, variant for variant.
#[verifier::external_body]
fn alignment(a: &CmarkAlignment) -> markdown::Alignment {
    match a {
        CmarkAlignment::None => markdown::Alignment::Unaligned,
        CmarkAlignment::Left => markdown::Alignment::Left,
        CmarkAlignment::Center => markdown::Alignment::Center,
        CmarkAlignment::Right => markdown::Alignment::Right,
    }
}

/// A `pulldown_cmark::Event` that is no start and no end, variant for variant; of
/// a start or an end, whether it is a start, and its tag.
#[verifier::external_body]
fn event_parts<'a>(e: CmarkEvent<'a>) -> Result<
    markdown::Event,
    (bool, CmarkTag<'a>),
> {
    match e {
        CmarkEvent::Start(t) => Err((true, t)),
        CmarkEvent::End(t) => Err((false, t)),
        CmarkEvent::Text(s) => Ok(markdown::Event::Text(s.into_string())),
        CmarkEvent::Code(s) => Ok(markdown::Event::Code(s.into_string())),
        CmarkEvent::Html(s) => Ok(markdown::Event::Html(s.into_string())),
        CmarkEvent::FootnoteReference(s) => Ok(
            markdown::Event::FootnoteReference(s.into_string()),
        ),
        CmarkEvent::SoftBreak => Ok(markdown::Event::SoftBreak),
        CmarkEvent::HardBreak => Ok(markdown::Event::HardBreak),
        CmarkEvent::Rule => Ok(markdown::Event::Rule),
        CmarkEvent::TaskListMarker(b) => Ok(markdown::Event::TaskListMarker(b)),
    }
}

/// A `pulldown_cmark::Tag` without strings or lists in it, variant for variant.
#[verifier::external_body]
fn plain_tag(t: &CmarkTag<'_>) -> Option<markdown::Tag> {
    match t {
        CmarkTag::Paragraph => Some(markdown::Tag::Paragraph),
        CmarkTag::BlockQuote => Some(markdown::Tag::BlockQuote),
        CmarkTag::List(first) => Some(markdown::Tag::List(*first)),
        CmarkTag::Item => Some(markdown::Tag::Item),
        CmarkTag::TableHead => Some(markdown::Tag::TableHead),
        CmarkTag::TableRow => Some(markdown::Tag::TableRow),
        CmarkTag::TableCell => Some(markdown::Tag::TableCell),
        CmarkTag::Emphasis => Some(markdown::Tag::Emphasis),
        CmarkTag::Strong => Some(markdown::Tag::Strong),
        CmarkTag::Strikethrough => Some(markdown::Tag::Strikethrough),
        _ => None,
    }
}

/// The label of `pulldown_cmark::Tag::FootnoteDefinition`, and the kind of
/// `pulldown_cmark::Tag::CodeBlock`, as a tag of this library.
#[verifier::external_body]
fn labelled_tag(t: &CmarkTag<'_>) -> Option<markdown::Tag> {
    match t {
        CmarkTag::FootnoteDefinition(label) => Some(
            markdown::Tag::FootnoteDefinition(label.to_string()),
        ),
        CmarkTag::CodeBlock(CmarkCodeBlockKind::Indented) => Some(
            markdown::Tag::CodeBlock(markdown::CodeBlockKind::Indented),
        ),
        CmarkTag::CodeBlock(CmarkCodeBlockKind::Fenced(label)) => Some(
            markdown::Tag::CodeBlock(markdown::CodeBlockKind::Fenced(label.to_string())),
        ),
        _ => None,
    }
}

/// The fields of `pulldown_cmark::Tag::Heading`: level, fragment identifier and
/// classes.
#[verifier::external_body]
fn heading_parts(t: &CmarkTag<'_>) -> Option<
    (CmarkHeadingLevel, Option<String>, Vec<String>),
> {
    match t {
        CmarkTag::Heading(level, id, classes) => Some(
            (*level, id.map(|s| s.to_string()), classes.iter().map(|s| s.to_string()).collect()),
        ),
        _ => None,
    }
}

/// The column alignments of `pulldown_cmark::Tag::Table`.
#[verifier::external_body]
fn table_parts(t: &CmarkTag<'_>) -> Option<Vec<CmarkAlignment>> {
    match t {
        CmarkTag::Table(alignments) => Some(alignments.clone()),
        _ => None,
    }
}

/// The fields of `pulldown_cmark::Tag::Link` and `pulldown_cmark::Tag::Image`:
/// whether it is an image, then type, destination and title.
#[verifier::external_body]
fn link_parts(t: &CmarkTag<'_>) -> Option<
    (bool, CmarkLinkType, String, String),
> {
    match t {
        CmarkTag::Link(ty, url, title) => Some(
            (false, *ty, url.to_string(), title.to_string()),
        ),
        CmarkTag::Image(ty, url, title) => Some(
            (true, *ty, url.to_string(), title.to_string()),
        ),
        _ => None,
    }
}

/// A table tag with one column for each of the alignments, in their order.
fn table_tag(alignments: Vec<CmarkAlignment>) -> (t: markdown::Tag)
    ensures
        t is Table,
        t->Table_0@.len() == alignments@.len(),
{
    let mut columns: Vec<markdown::Alignment> = Vec::new();
    let mut i: usize = 0;
    while i < alignments.len()
        invariant
            i <= alignments.len(),
            columns@.len() == i,
        decreases alignments.len() - i,
    {
        columns.push(alignment(&alignments[i]));
        i = i + 1;
    }
    markdown::Tag::Table(columns)
}

/// The tag that the parts of a tokenizer's tag give. The parts are what was found
/// in the tag as a tag without strings or lists, as a tag with a label, as a
/// heading, as a table, and as a link or an image: the first of them that is
/// there makes the tag, and there is no tag where none of them is there.
pub open spec fn form_of_parts(
    plain: Option<markdown::Tag>,
    labelled: Option<markdown::Tag>,
    heading: Option<(markdown::HeadingLevel, Option<String>, Vec<String>)>,
    table: Option<markdown::Tag>,
    link: Option<(bool, markdown::LinkType, String, String)>,
) -> Option<markdown::Tag> {
    if plain is Some {
        plain
    } else if labelled is Some {
        labelled
    } else if heading is Some {
        let h = heading->0;
        Some(markdown::Tag::Heading(h.0, h.1, h.2))
    } else if table is Some {
        table
    } else {
        match link {
            Some(l) => if l.0 {
                Some(markdown::Tag::Image(l.1, l.2, l.3))
            } else {
                Some(markdown::Tag::Link(l.1, l.2, l.3))
            },
            None => None,
        }
    }
}

/// The tag that the parts of a tokenizer's tag give: see [`form_of_parts`].
pub fn tag_of_parts(
    plain: Option<markdown::Tag>,
    labelled: Option<markdown::Tag>,
    heading: Option<(markdown::HeadingLevel, Option<String>, Vec<String>)>,
    table: Option<markdown::Tag>,
    link: Option<(bool, markdown::LinkType, String, String)>,
) -> (r: Option<markdown::Tag>)
    ensures
        r == form_of_parts(plain, labelled, heading, table, link),
{
    if plain.is_some() {
        return plain;
    }
    if labelled.is_some() {
        return labelled;
    }
    if let Some((level, id, classes)) = heading {
        return Some(markdown::Tag::Heading(level, id, classes));
    }
    if table.is_some() {
        return table;
    }
    match link {
        Some((image, ty, url, title)) => if image {
            Some(markdown::Tag::Image(ty, url, title))
        } else {
            Some(markdown::Tag::Link(ty, url, title))
        },
        None => None,
    }
}

/// The start or the end of the element with the tag, where there is a tag.
pub open spec fn boundary(start: bool, tag: Option<markdown::Tag>) -> Option<markdown::Event> {
    match tag {
        Some(t) => if start {
            Some(markdown::Event::Start(t))
        } else {
            Some(markdown::Event::End(t))
        },
        None => None,
    }
}

/// The start (`start`) or the end of the element with the tag, where there is a
/// tag: see [`boundary`].
pub fn tagged_event(start: bool, tag: Option<markdown::Tag>) -> (r: Option<markdown::Event>)
    ensures
        r == boundary(start, tag),
{
    match tag {
        Some(t) => if start {
            Some(markdown::Event::Start(t))
        } else {
            Some(markdown::Event::End(t))
        },
        None => None,
    }
}

/// The tag of this library that stands for a tag of the tokenizer; `None` for a
/// tag that this library has no form for, of which the tokenizer has none.
///
/// The tag is asked for each of its parts, and [`tag_of_parts`] makes the tag of
/// what was found.
fn tag_from(t: CmarkTag<'_>) -> Option<markdown::Tag> {
    let heading = match heading_parts(&t) {
        Some((level, id, classes)) => Some((heading_level(level), id, classes)),
        None => None,
    };
    let table = match table_parts(&t) {
        Some(alignments) => Some(table_tag(alignments)),
        None => None,
    };
    let link = match link_parts(&t) {
        Some((image, ty, url, title)) => Some((image, link_type(ty), url, title)),
        None => None,
    };
    tag_of_parts(plain_tag(&t), labelled_tag(&t), heading, table, link)
}

/// The event of this library that stands for an event of the tokenizer; `None`
/// for a start or an end with a tag that this library has no form for.
///
/// An event that is no start and no end comes over as it is, and
/// [`tagged_event`] makes the start or the end of what [`tag_from`] found.
fn event_from(e: CmarkEvent<'_>) -> Option<markdown::Event> {
    match event_parts(e) {
        Ok(event) => Some(event),
        Err((start, t)) => tagged_event(start, tag_from(t)),
    }
}

/// `pulldown_cmark::Parser::new`, pulled to its end: the events of `text`, each
/// in the form that `event_from` gives it, which is what the name
/// `markdown_events` stands for.
///
/// An event for which `event_from` has no form would be left out. There is none:
/// every variant of the tokenizer's events and tags has its arm in the conversions
/// that `event_from` calls, so that it returns an event for each event that the
/// tokenizer yields, and none is lost.
#[verifier::external_body]
fn tokenize(text: &str) -> (r: Vec<markdown::Event>)
    ensures
        views(r@) == markdown_events(text@),
{
    pulldown_cmark::Parser::new(text).filter_map(|e| event_from(e)).collect()
}

/// The Markdown events of `text`, as the tokenizer yields them, as a stream.
pub fn parse(text: &str) -> (s: VecStream<markdown::Event>)
    ensures
        s.wf(),
        s.remaining() == markdown_events(text@),
{
    VecStream::new(tokenize(text))
}

} // verus!
