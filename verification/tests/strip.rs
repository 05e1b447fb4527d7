use pullup::markdown::merge::TextMergeStream;
use pullup::markdown::parse::{parse, tag_of_parts, tagged_event};
use pullup::markdown::strip::StripHtml;
use pullup::markdown::{
    Alignment, AssertMarkdown, Event, HeadingLevel, LinkType, MarkdownFilter, MarkdownIter, Tag,
};
use pullup::stream::{collect, VecStream};
use pullup::{typst, ParserEvent};

#[test]
fn strip_html() {
    let md = "\
# Hello

<html>
is anybody in there?
</html>

*just nod if you can hear me*
<del>*foo*</del>
";
    let i = AssertMarkdown(StripHtml::new(MarkdownIter(parse(&md))));
    assert_eq!(
        collect(i),
        vec![
            Event::Start(Tag::Heading(HeadingLevel::H1, None, vec![])),
            Event::Text("Hello".to_string()),
            Event::End(Tag::Heading(HeadingLevel::H1, None, vec![])),
            Event::Start(Tag::Paragraph),
            Event::Start(Tag::Emphasis),
            Event::Text("just nod if you can hear me".to_string()),
            Event::End(Tag::Emphasis),
            Event::SoftBreak,
            Event::Start(Tag::Emphasis),
            Event::Text("foo".to_string()),
            Event::End(Tag::Emphasis),
            Event::End(Tag::Paragraph),
        ]
    );
}

#[test]
fn strip_html_at_the_end() {
    let input = vec![
        ParserEvent::Markdown(Event::Html("<a>".to_string())),
        ParserEvent::Markdown(Event::Rule),
        ParserEvent::Markdown(Event::Html("<b>".to_string())),
        ParserEvent::Markdown(Event::Html("<c>".to_string())),
    ];
    assert_eq!(
        collect(StripHtml::new(VecStream::new(input))),
        vec![ParserEvent::Markdown(Event::Rule)]
    );
}

#[test]
fn filter_leaves_other_dialects_out() {
    let input = vec![
        ParserEvent::Typst(typst::Event::Parbreak),
        ParserEvent::Markdown(Event::Rule),
        ParserEvent::Typst(typst::Event::Linebreak),
        ParserEvent::Markdown(Event::SoftBreak),
    ];
    assert_eq!(
        collect(MarkdownFilter(VecStream::new(input))),
        vec![Event::Rule, Event::SoftBreak]
    );
}

#[test]
fn tokens_of_every_kind() {
    let md = "\
- [x] done

| a | b |
|:--|--:|
| 1 | 2 |

![alt](img.png \"title\") ~~no~~[^1]

[^1]: note

---
";
    let events = collect(parse(md));
    assert!(events.contains(&Event::Start(Tag::List(None))));
    assert!(events.contains(&Event::Start(Tag::Item)));
    assert!(events.contains(&Event::Rule));
    assert!(events.contains(&Event::Start(Tag::Image(
        pullup::markdown::LinkType::Inline,
        "img.png".to_string(),
        "title".to_string()
    ))));
    assert!(events.contains(&Event::Text("alt".to_string())));
    // Every start has its end.
    let starts = events.iter().filter(|e| matches!(e, Event::Start(_))).count();
    let ends = events.iter().filter(|e| matches!(e, Event::End(_))).count();
    assert_eq!(starts, ends);
}

#[test]
fn text_events_next_to_each_other_are_merged() {
    let text = |t: &str| Event::Text(t.to_string());
    let input = vec![
        text("a"),
        text("b"),
        Event::SoftBreak,
        text("c"),
        Event::Code("d".to_string()),
        text(""),
        text("e"),
        text("f"),
    ];
    assert_eq!(
        collect(TextMergeStream::new(VecStream::new(input))),
        vec![text("ab"), Event::SoftBreak, text("c"), Event::Code("d".to_string()), text("ef")]
    );
    assert_eq!(collect(TextMergeStream::new(VecStream::new(vec![]))), Vec::<Event>::new());
    // The tokenizer splits a text at an escaped character.
    assert_eq!(
        collect(TextMergeStream::new(parse("a \\* b"))),
        vec![Event::Start(Tag::Paragraph), text("a * b"), Event::End(Tag::Paragraph)]
    );
}

#[test]
fn a_tag_is_made_of_the_first_part_that_is_there() {
    let heading = || (HeadingLevel::H3, Some("id".to_string()), vec!["c".to_string()]);
    let table = || Tag::Table(vec![Alignment::Left, Alignment::Unaligned]);
    let link = |image| (image, LinkType::Email, "u".to_string(), "t".to_string());
    assert_eq!(tag_of_parts(None, None, None, None, None), None);
    assert_eq!(
        tag_of_parts(Some(Tag::Strong), None, None, None, None),
        Some(Tag::Strong)
    );
    assert_eq!(
        tag_of_parts(None, Some(Tag::FootnoteDefinition("n".to_string())), None, None, None),
        Some(Tag::FootnoteDefinition("n".to_string()))
    );
    assert_eq!(
        tag_of_parts(None, None, Some(heading()), None, None),
        Some(Tag::Heading(HeadingLevel::H3, Some("id".to_string()), vec!["c".to_string()]))
    );
    assert_eq!(tag_of_parts(None, None, None, Some(table()), None), Some(table()));
    assert_eq!(
        tag_of_parts(None, None, None, None, Some(link(false))),
        Some(Tag::Link(LinkType::Email, "u".to_string(), "t".to_string()))
    );
    assert_eq!(
        tag_of_parts(None, None, None, None, Some(link(true))),
        Some(Tag::Image(LinkType::Email, "u".to_string(), "t".to_string()))
    );
    // The parts come in a fixed order.
    assert_eq!(
        tag_of_parts(
            Some(Tag::Item),
            Some(Tag::Emphasis),
            Some(heading()),
            Some(table()),
            Some(link(true))
        ),
        Some(Tag::Item)
    );
    assert_eq!(
        tag_of_parts(None, None, Some(heading()), Some(table()), Some(link(true))),
        Some(Tag::Heading(HeadingLevel::H3, Some("id".to_string()), vec!["c".to_string()]))
    );
    assert_eq!(
        tag_of_parts(None, None, None, Some(table()), Some(link(true))),
        Some(table())
    );
}

#[test]
fn a_tag_becomes_a_start_or_an_end() {
    assert_eq!(tagged_event(true, Some(Tag::Strong)), Some(Event::Start(Tag::Strong)));
    assert_eq!(tagged_event(false, Some(Tag::Strong)), Some(Event::End(Tag::Strong)));
    assert_eq!(tagged_event(true, None), None);
    assert_eq!(tagged_event(false, None), None);
}

#[test]
fn tags_with_fields_come_over_with_their_fields() {
    let events = collect(parse("## Title\n\n```rust\nx\n```\n\n<a@b.c> ![i](p \"t\")\n"));
    assert!(events.contains(&Event::Start(Tag::Heading(HeadingLevel::H2, None, vec![]))));
    assert!(events.contains(&Event::End(Tag::Heading(HeadingLevel::H2, None, vec![]))));
    assert!(events.contains(&Event::Start(Tag::CodeBlock(
        pullup::markdown::CodeBlockKind::Fenced("rust".to_string())
    ))));
    assert!(events.contains(&Event::Start(Tag::Link(
        LinkType::Email,
        "a@b.c".to_string(),
        "".to_string()
    ))));
    assert!(events.contains(&Event::End(Tag::Image(
        LinkType::Inline,
        "p".to_string(),
        "t".to_string()
    ))));
}
