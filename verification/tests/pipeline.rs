use pullup::markdown::parse::parse;
use pullup::markdown::to::typst::{
    display_math, ConvertCode, ConvertEmphasis, ConvertLinks, ConvertParagraphs, ConvertStrong,
    ConvertText,
};
use pullup::markdown::MarkdownIter;
use pullup::mdbook::balance::balanced_events;
use pullup::mdbook::book::{BookItem, Chapter};
use pullup::mdbook::parser::events_from_items;
use pullup::mdbook::to::typst::builder::Conversion;
use pullup::mdbook::to::typst::{
    shift_level, ConvertAuthors, ConvertChapter, ConvertChapterToPagebreak, ConvertTitle,
};
use pullup::mdbook::{AssertMdbook, MdbookFilter, MdbookIter};
use pullup::stream::{collect, EventStream, VecStream};
use pullup::typst::markup::{renderable_events, renderable_prefix, same_tag, TypstMarkup};
use pullup::typst::{AssertTypst, TypstFilter, TypstIter};
use pullup::ParserEvent::{Markdown, Mdbook, Typst};
use pullup::{markdown, mdbook, typst, ParserEvent};

use markdown::HeadingLevel;

fn chapter(name: &str) -> mdbook::Tag {
    mdbook::Tag::Chapter(mdbook::ChapterStatus::Active, name.to_string(), None, None)
}

fn heading(level: u8) -> typst::Tag {
    typst::Tag::Heading(level, typst::TableOfContents::Include, typst::Bookmarks::Include)
}

fn pagebreak() -> ParserEvent {
    Typst(typst::Event::FunctionCall(
        None,
        "pagebreak".to_string(),
        vec!["weak: true".to_string()],
    ))
}

fn md_heading(level: HeadingLevel, start: bool) -> mdbook::Event {
    let tag = markdown::Tag::Heading(level, None, vec![]);
    mdbook::Event::MarkdownContentEvent(if start {
        markdown::Event::Start(tag)
    } else {
        markdown::Event::End(tag)
    })
}

#[test]
fn title_becomes_document_title() {
    let input = vec![
        Mdbook(mdbook::Event::Title("My Book".to_string())),
        Mdbook(mdbook::Event::Separator),
    ];
    assert_eq!(
        collect(ConvertTitle::new(VecStream::new(input))),
        vec![
            Typst(typst::Event::DocumentSet("title".to_string(), "\"My Book\"".to_string())),
            Mdbook(mdbook::Event::Separator),
        ]
    );
}

#[test]
fn authors_become_document_authors() {
    let input = vec![
        Mdbook(mdbook::Event::Start(mdbook::Tag::AuthorList)),
        Mdbook(mdbook::Event::Author("A".to_string())),
        Mdbook(mdbook::Event::Author("B C".to_string())),
        Mdbook(mdbook::Event::End(mdbook::Tag::AuthorList)),
        Mdbook(mdbook::Event::Separator),
    ];
    assert_eq!(
        collect(ConvertAuthors::new(VecStream::new(input))),
        vec![
            Typst(typst::Event::DocumentSet(
                "author".to_string(),
                "(\"A\",\"B C\")".to_string()
            )),
            Mdbook(mdbook::Event::Separator),
        ]
    );
}

#[test]
fn empty_author_list_gives_nothing() {
    let input = vec![
        Mdbook(mdbook::Event::Start(mdbook::Tag::AuthorList)),
        Mdbook(mdbook::Event::End(mdbook::Tag::AuthorList)),
    ];
    assert_eq!(collect(ConvertAuthors::new(VecStream::new(input))), vec![]);
}

#[test]
fn chapters_become_headings() {
    let input = vec![
        Mdbook(mdbook::Event::Start(chapter("One"))),
        Mdbook(md_heading(HeadingLevel::H1, true)),
        Mdbook(md_heading(HeadingLevel::H1, false)),
        Mdbook(mdbook::Event::Start(chapter("Sub"))),
        Mdbook(md_heading(HeadingLevel::H5, true)),
        Mdbook(md_heading(HeadingLevel::H5, false)),
        Mdbook(mdbook::Event::End(chapter("Sub"))),
        Mdbook(md_heading(HeadingLevel::H3, true)),
        Mdbook(mdbook::Event::End(chapter("One"))),
        Mdbook(md_heading(HeadingLevel::H3, true)),
    ];
    assert_eq!(
        collect(ConvertChapter::new(VecStream::new(input))),
        vec![
            // A chapter at the top leaves its headings at their levels.
            Typst(typst::Event::Start(heading(1))),
            Typst(typst::Event::Text("One".to_string())),
            Typst(typst::Event::End(heading(1))),
            Mdbook(md_heading(HeadingLevel::H1, true)),
            Mdbook(md_heading(HeadingLevel::H1, false)),
            // A chapter with one chapter around it moves them one level down.
            Typst(typst::Event::Start(heading(2))),
            Typst(typst::Event::Text("Sub".to_string())),
            Typst(typst::Event::End(heading(2))),
            Mdbook(md_heading(HeadingLevel::H6, true)),
            Mdbook(md_heading(HeadingLevel::H6, false)),
            pagebreak(),
            Mdbook(md_heading(HeadingLevel::H3, true)),
            pagebreak(),
            Mdbook(md_heading(HeadingLevel::H3, true)),
        ]
    );
}

#[test]
fn chapter_without_content_still_breaks_the_page() {
    let input = vec![
        Mdbook(mdbook::Event::Start(chapter("One"))),
        Mdbook(mdbook::Event::End(chapter("One"))),
    ];
    let mut stream = ConvertChapter::new(VecStream::new(input));
    assert_eq!(stream.next(), Some(Typst(typst::Event::Start(heading(1)))));
    assert_eq!(stream.next(), Some(Typst(typst::Event::Text("One".to_string()))));
    assert_eq!(stream.next(), Some(Typst(typst::Event::End(heading(1)))));
    assert_eq!(stream.next(), Some(pagebreak()));
    assert_eq!(stream.next(), None);
    assert_eq!(stream.next(), None);
}

#[test]
fn heading_levels_are_shifted_and_clamped() {
    assert_eq!(shift_level(HeadingLevel::H1, 0), HeadingLevel::H1);
    assert_eq!(shift_level(HeadingLevel::H1, 1), HeadingLevel::H2);
    assert_eq!(shift_level(HeadingLevel::H2, 3), HeadingLevel::H5);
    assert_eq!(shift_level(HeadingLevel::H4, 2), HeadingLevel::H6);
    assert_eq!(shift_level(HeadingLevel::H5, 2), HeadingLevel::H6);
    assert_eq!(shift_level(HeadingLevel::H6, 0), HeadingLevel::H6);
    assert_eq!(shift_level(HeadingLevel::H1, usize::MAX), HeadingLevel::H6);
}

#[test]
fn deep_chapters_saturate() {
    let mut input = Vec::new();
    for _ in 0..300 {
        input.push(Mdbook(mdbook::Event::Start(chapter("c"))));
    }
    let out = collect(ConvertChapter::new(VecStream::new(input)));
    assert_eq!(out.len(), 900);
    for depth in 0..300 {
        let level = if depth < 5 { 1 + depth as u8 } else { 6 };
        assert_eq!(out[3 * depth], Typst(typst::Event::Start(heading(level))));
        assert_eq!(out[3 * depth + 1], Typst(typst::Event::Text("c".to_string())));
        assert_eq!(out[3 * depth + 2], Typst(typst::Event::End(heading(level))));
    }
}

#[test]
fn chapters_to_pagebreaks() {
    let input = vec![
        Mdbook(mdbook::Event::Start(chapter("One"))),
        Mdbook(mdbook::Event::Separator),
        Mdbook(mdbook::Event::End(chapter("One"))),
    ];
    assert_eq!(
        collect(ConvertChapterToPagebreak::new(VecStream::new(input))),
        vec![Mdbook(mdbook::Event::Separator), pagebreak()]
    );
}

#[test]
fn display_math_is_recognized() {
    assert!(display_math("\\[ x^2 \\]"));
    assert!(display_math("  \n\\[x\\]\t "));
    assert!(display_math("\\[\\]"));
    assert!(!display_math("\\[ x^2"));
    assert!(!display_math("x \\[ y \\]"));
    assert!(!display_math("\\[]"));
    assert!(!display_math("\\"));
    assert!(!display_math(""));
    assert!(!display_math("   "));
}

#[test]
fn text_in_and_out_of_code() {
    let code = || markdown::Tag::CodeBlock(markdown::CodeBlockKind::Indented);
    let input = vec![
        Markdown(markdown::Event::Text("\\[ a \\]".to_string())),
        Markdown(markdown::Event::Text("plain".to_string())),
        Markdown(markdown::Event::Start(code())),
        Markdown(markdown::Event::Text("line 1".to_string())),
        Markdown(markdown::Event::Text("\\[ b \\]".to_string())),
        Markdown(markdown::Event::End(code())),
        Markdown(markdown::Event::Text("\\[ c \\]".to_string())),
        Markdown(markdown::Event::Rule),
    ];
    assert_eq!(
        collect(ConvertText::new(VecStream::new(input))),
        vec![
            Typst(typst::Event::Text("plain".to_string())),
            Markdown(markdown::Event::Start(code())),
            Typst(typst::Event::Text("line 1".to_string())),
            Typst(typst::Event::Text("\\[ b \\]".to_string())),
            Markdown(markdown::Event::End(code())),
            Markdown(markdown::Event::Rule),
        ]
    );
}

#[test]
fn links_of_other_types_are_dropped() {
    let link = |ty| markdown::Tag::Link(ty, "u".to_string(), "t".to_string());
    let input = vec![
        Markdown(markdown::Event::Start(link(markdown::LinkType::Reference))),
        Markdown(markdown::Event::Start(link(markdown::LinkType::Inline))),
        Markdown(markdown::Event::End(link(markdown::LinkType::Collapsed))),
    ];
    // The event after a dropped one is handed on as it is.
    assert_eq!(
        collect(ConvertLinks::new(VecStream::new(input))),
        vec![Markdown(markdown::Event::Start(link(markdown::LinkType::Inline)))]
    );
}

#[test]
fn dialect_adaptors() {
    let mixed = || {
        vec![
            Typst(typst::Event::Parbreak),
            Mdbook(mdbook::Event::Separator),
            Typst(typst::Event::Linebreak),
        ]
    };
    assert_eq!(
        collect(TypstFilter(VecStream::new(mixed()))),
        vec![typst::Event::Parbreak, typst::Event::Linebreak]
    );
    assert_eq!(
        collect(MdbookFilter(VecStream::new(mixed()))),
        vec![mdbook::Event::Separator]
    );
    assert_eq!(
        collect(AssertTypst(TypstIter(VecStream::new(vec![typst::Event::Parbreak])))),
        vec![typst::Event::Parbreak]
    );
    assert_eq!(
        collect(AssertMdbook(MdbookIter(VecStream::new(vec![mdbook::Event::Separator])))),
        vec![mdbook::Event::Separator]
    );
}

fn book_events() -> Vec<mdbook::Event> {
    let md = |e| mdbook::Event::MarkdownContentEvent(e);
    vec![
        mdbook::Event::Root("/b".to_string()),
        mdbook::Event::Title("T".to_string()),
        mdbook::Event::Start(mdbook::Tag::AuthorList),
        mdbook::Event::Author("A".to_string()),
        mdbook::Event::End(mdbook::Tag::AuthorList),
        mdbook::Event::Start(mdbook::Tag::Part(None, None)),
        mdbook::Event::Start(chapter("One")),
        md(markdown::Event::Start(markdown::Tag::Heading(HeadingLevel::H1, None, vec![]))),
        md(markdown::Event::Text("In_tro".to_string())),
        md(markdown::Event::End(markdown::Tag::Heading(HeadingLevel::H1, None, vec![]))),
        md(markdown::Event::Start(markdown::Tag::Paragraph)),
        md(markdown::Event::Text("a".to_string())),
        md(markdown::Event::SoftBreak),
        md(markdown::Event::Start(markdown::Tag::Strong)),
        md(markdown::Event::Text("b".to_string())),
        md(markdown::Event::End(markdown::Tag::Strong)),
        md(markdown::Event::HardBreak),
        md(markdown::Event::Code("c".to_string())),
        md(markdown::Event::End(markdown::Tag::Paragraph)),
        mdbook::Event::End(chapter("One")),
        mdbook::Event::End(mdbook::Tag::Part(None, None)),
    ]
}

#[test]
fn whole_conversion() {
    let events = Conversion::builder().events(VecStream::new(book_events())).build();
    let markup = collect(TypstMarkup::new(TypstFilter(events))).concat();
    assert_eq!(
        markup,
        "#set document(title: \"T\")\n#set document(author: (\"A\"))\n= One\n= In \\_tro\n\
         #par()[a #strong[b]#parbreak()\n`c`]\n#pagebreak(weak: true)\n"
    );
}

#[test]
fn stages_can_be_switched_off() {
    let events = Conversion::builder()
        .events(VecStream::new(book_events()))
        .title(false)
        .authors(false)
        .content(false)
        .build();
    let out = collect(events);
    // The title, the authors and the Markdown are left as they were.
    assert_eq!(out[1], Mdbook(mdbook::Event::Title("T".to_string())));
    assert_eq!(out[3], Mdbook(mdbook::Event::Author("A".to_string())));
    assert_eq!(out[6], Typst(typst::Event::Start(heading(1))));
    assert!(out.contains(&Mdbook(mdbook::Event::MarkdownContentEvent(
        markdown::Event::SoftBreak
    ))));
    // Without the content stage the stages for the content do nothing, though
    // they are switched on. The heading stays what it was: its chapter is at the
    // top.
    assert!(out.contains(&Mdbook(md_heading(HeadingLevel::H1, true))));
    assert!(!out.iter().any(|e| matches!(e, Markdown(_))));

    let events = Conversion::builder()
        .events(VecStream::new(book_events()))
        .chapters(false)
        .headings(false)
        .paragraphs(false)
        .soft_breaks(false)
        .hard_breaks(false)
        .text(false)
        .strong(false)
        .emphasis(false)
        .blockquotes(false)
        .lists(false)
        .code(false)
        .links(false)
        .build();
    let out = collect(events);
    assert_eq!(out[4], Mdbook(mdbook::Event::Start(chapter("One"))));
    assert_eq!(
        out[5],
        Markdown(markdown::Event::Start(markdown::Tag::Heading(
            HeadingLevel::H1,
            None,
            vec![]
        )))
    );
    assert!(out.contains(&Markdown(markdown::Event::SoftBreak)));
    assert!(out.contains(&Markdown(markdown::Event::Code("c".to_string()))));
}

fn markdown_to_markup(md: &str) -> String {
    let events = ConvertLinks::new(ConvertCode::new(ConvertEmphasis::new(ConvertStrong::new(
        ConvertText::new(ConvertParagraphs::new(MarkdownIter(parse(md)))),
    ))));
    collect(TypstMarkup::new(AssertTypst(events))).concat()
}

#[test]
fn code_is_verbatim_and_paragraph_text_is_escaped() {
    assert_eq!(markdown_to_markup("    *blah*\n"), "``````\n*blah*\n``````\n");
    assert_eq!(markdown_to_markup("\\*blah\\*\n"), "#par()[\\*blah\\*]\n");
}

#[test]
fn link_destination_is_not_escaped() {
    assert_eq!(
        markdown_to_markup("[beans](https://example.com/a_b#c)\n"),
        "#par()[#link(\"https://example.com/a_b#c\")[beans]]\n"
    );
}

#[test]
fn no_parts_scenario_through_the_parser() {
    let items = vec![BookItem::Chapter(Chapter {
        name: "Chapter 1".to_string(),
        ..Default::default()
    })];
    let out = events_from_items(&items);
    assert_eq!(out.len(), 4);
    assert!(balanced_events(&out));
    // A part title before a chapter with chapters below it leaves the part open.
    let open = vec![
        BookItem::PartTitle("a".to_string()),
        BookItem::Chapter(Chapter {
            name: "c".to_string(),
            sub_items: vec![BookItem::Separator],
            ..Default::default()
        }),
    ];
    assert!(!balanced_events(&events_from_items(&open)));
}

#[test]
fn events_that_cannot_be_rendered_are_told_apart() {
    let link = |url: &str| typst::Tag::Link(typst::LinkType::Url, url.to_string());
    assert!(renderable_events(&vec![
        typst::Event::Start(link("a")),
        typst::Event::End(link("a")),
    ]));
    assert!(!renderable_events(&vec![
        typst::Event::Start(link("a")),
        typst::Event::End(link("b")),
    ]));
    assert!(!renderable_events(&vec![typst::Event::End(typst::Tag::Strong)]));
    assert!(!renderable_events(&vec![typst::Event::Start(typst::Tag::Item)]));
    assert!(!renderable_events(&vec![typst::Event::Start(typst::Tag::Strikethrough)]));
    assert!(!renderable_events(&vec![typst::Event::Start(typst::Tag::Show(
        typst::ShowType::ShowSet,
        "x".to_string(),
        None,
        None
    ))]));
    assert!(renderable_events(&vec![typst::Event::Start(typst::Tag::Emphasis)]));
    assert!(same_tag(&heading(2), &heading(2)));
    assert!(!same_tag(&heading(2), &heading(3)));
    assert!(!same_tag(
        &typst::Tag::Table(vec![typst::TableCellAlignment::Left]),
        &typst::Tag::Table(vec![typst::TableCellAlignment::Right])
    ));
}

#[test]
fn dialects_are_told_apart() {
    let typst_only = vec![Typst(typst::Event::Parbreak), Typst(typst::Event::Linebreak)];
    let mixed = vec![Typst(typst::Event::Parbreak), Mdbook(mdbook::Event::Separator)];
    assert!(typst::only_typst(&typst_only));
    assert!(!typst::only_typst(&mixed));
    assert!(!mdbook::only_mdbook(&mixed));
    assert!(mdbook::only_mdbook(&vec![Mdbook(mdbook::Event::Separator)]));
    assert!(markdown::only_markdown(&vec![]));
    assert!(!markdown::only_markdown(&typst_only));
    assert!(markdown::only_markdown(&vec![Markdown(markdown::Event::Rule)]));
}

#[test]
fn headings_move_down_by_the_depth_of_their_chapter() {
    let mut input = Vec::new();
    for _ in 0..7 {
        input.push(Mdbook(mdbook::Event::Start(chapter("c"))));
        input.push(Mdbook(md_heading(HeadingLevel::H1, true)));
        input.push(Mdbook(md_heading(HeadingLevel::H4, false)));
    }
    let out = collect(ConvertChapter::new(VecStream::new(input)));
    let levels = [
        (HeadingLevel::H1, HeadingLevel::H4),
        (HeadingLevel::H2, HeadingLevel::H5),
        (HeadingLevel::H3, HeadingLevel::H6),
        (HeadingLevel::H4, HeadingLevel::H6),
        (HeadingLevel::H5, HeadingLevel::H6),
        (HeadingLevel::H6, HeadingLevel::H6),
        (HeadingLevel::H6, HeadingLevel::H6),
    ];
    for (d, (first, second)) in levels.into_iter().enumerate() {
        let own = if d < 5 { 1 + d as u8 } else { 6 };
        assert_eq!(out[5 * d], Typst(typst::Event::Start(heading(own))));
        assert_eq!(out[5 * d + 3], Mdbook(md_heading(first, true)));
        assert_eq!(out[5 * d + 4], Mdbook(md_heading(second, false)));
    }
    // Outside any chapter a heading stays as it is.
    let outside = vec![Mdbook(md_heading(HeadingLevel::H2, true))];
    assert_eq!(
        collect(ConvertChapter::new(VecStream::new(outside))),
        vec![Mdbook(md_heading(HeadingLevel::H2, true))]
    );
}

#[test]
fn white_space_is_what_the_standard_library_says() {
    // Around the mathematics, exactly the characters of white space are dropped.
    for n in 0..=0x3_0000u32 {
        if let Some(c) = char::from_u32(n) {
            let text = format!("{c}\\[x\\]{c}");
            assert_eq!(display_math(&text), c.is_whitespace(), "U+{n:04X}");
        }
    }
    assert!(display_math("\u{00A0}\u{3000}\\[x\\]\u{2028}\u{0085}"));
    assert!(!display_math("\u{200B}\\[x\\]"));
    assert!(!display_math("\u{180E}\\[x\\]"));
}

#[test]
fn the_events_before_the_first_fault_can_be_rendered() {
    let link = |url: &str| typst::Tag::Link(typst::LinkType::Url, url.to_string());
    let events = vec![
        typst::Event::Start(typst::Tag::Strong),
        typst::Event::Text("x".to_string()),
        typst::Event::End(typst::Tag::Strong),
        typst::Event::Start(link("a")),
        typst::Event::End(link("b")),
        typst::Event::Parbreak,
    ];
    assert_eq!(renderable_prefix(&events), 4);
    assert!(!renderable_events(&events));
    let good: Vec<typst::Event> = events.into_iter().take(4).collect();
    assert_eq!(renderable_prefix(&good), 4);
    assert!(renderable_events(&good));
    assert_eq!(
        collect(TypstMarkup::new(VecStream::new(good))).concat(),
        "#strong[x]#link(\"a\")["
    );
    assert_eq!(renderable_prefix(&vec![]), 0);
    assert_eq!(renderable_prefix(&vec![typst::Event::End(typst::Tag::Strong)]), 0);
}

#[test]
fn a_heading_has_a_level_of_one_at_least() {
    assert!(!renderable_events(&vec![typst::Event::Start(heading(0))]));
    assert!(renderable_events(&vec![
        typst::Event::Start(heading(1)),
        typst::Event::End(heading(1)),
    ]));
    assert!(renderable_events(&vec![typst::Event::Start(heading(255))]));
}
