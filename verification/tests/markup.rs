use pullup::stream::{collect, VecStream};
use pullup::typst::markup::{push_markup, typst_escape, TypstMarkup};
use pullup::typst::{
    CodeBlockDisplay, Event, LinkType, QuoteQuotes, QuoteType, ShowType, TableCellAlignment,
    TableOfContents, Bookmarks, Tag,
};

fn render(input: Vec<Event>) -> String {
    collect(TypstMarkup::new(VecStream::new(input))).concat()
}

#[test]
fn markup_inline() {
    let input = vec![
        Event::Start(Tag::Emphasis),
        Event::Text("foo bar baz".into()),
        Event::End(Tag::Emphasis),
    ];
    let output = render(input);
    let expected = "#emph[foo bar baz]";
    assert_eq!(&output, &expected);
}

#[test]
fn containing_underscores() {
    let input = vec![
        Event::Start(Tag::Emphasis),
        Event::Text("_whatever_".into()),
        Event::End(Tag::Emphasis),
    ];
    let output = render(input);
    let expected = "#emph[ \\_whatever \\_]";
    assert_eq!(&output, &expected);
}

#[test]
fn nested() {
    let input = vec![
        Event::Start(Tag::Emphasis),
        Event::Start(Tag::Strong),
        Event::Text("blah".into()),
        Event::End(Tag::Strong),
        Event::End(Tag::Emphasis),
    ];
    let output = render(input);
    let expected = "#emph[#strong[blah]]";
    assert_eq!(&output, &expected);
}

// Inline code without a backtick in it stands between backticks, unescaped.
#[test]
fn raw_encodes_code() {
    let input = vec![Event::Code("*foo*".into())];
    let output = render(input);
    let expected = "`*foo*`";
    assert_eq!(&output, &expected);
}

#[test]
fn raw_escapes_forward_slash() {
    let input = vec![Event::Code(r#"\"#.into())];
    let output = render(input);
    let expected = r####"`\`"####;
    assert_eq!(&output, &expected);

    let input = vec![
        Event::Start(Tag::Paragraph),
        Event::Text("before ".into()),
        Event::Code(r#"\"#.into()),
        Event::Text(" after".into()),
        Event::End(Tag::Paragraph),
    ];
    let output = render(input);
    let expected = r####"#par()[before `\` after]"####.to_string() + "\n";
    assert_eq!(&output, &expected);
}

// Inline code with a backtick in it becomes a call of `raw`, in whose string
// backslashes and double quotes are escaped, and nothing else.
#[test]
fn raw_call_for_code_with_backtick() {
    let input = vec![Event::Code("a`*b*\\ \"c\"".into())];
    let output = render(input);
    let expected = "#raw(\"a`*b*\\\\ \\\"c\\\"\")";
    assert_eq!(&output, &expected);
}

#[test]
fn doesnt_escape_codeblock() {
    let input = vec![
        Event::Start(Tag::CodeBlock(None, CodeBlockDisplay::Block)),
        Event::Text("*blah*".into()),
        Event::End(Tag::CodeBlock(None, CodeBlockDisplay::Block)),
    ];
    let output = render(input);
    let expected = "``````\n*blah*``````\n";
    assert_eq!(&output, &expected);
}

#[test]
fn escapes_link_content() {
    let input = vec![
        Event::Start(Tag::Link(LinkType::Content, "http://example.com".into())),
        Event::Text("*blah*".into()),
        Event::End(Tag::Link(LinkType::Content, "http://example.com".into())),
    ];
    let output = render(input);
    let expected = "#link(\"http://example.com\")[\\*blah\\*]";
    assert_eq!(&output, &expected);
}

#[test]
fn single() {
    let input = vec![
        Event::Start(Tag::Quote(QuoteType::Block, QuoteQuotes::Auto, None)),
        Event::Text("to be or not to be".into()),
        Event::End(Tag::Quote(QuoteType::Block, QuoteQuotes::Auto, None)),
    ];
    let output = render(input);
    let expected = "#quote(block: true, quotes: auto,)[to be or not to be]\n";
    assert_eq!(&output, &expected);
}

#[test]
fn attribution() {
    let input = vec![
        Event::Start(Tag::Quote(
            QuoteType::Block,
            QuoteQuotes::Auto,
            Some("some dude".into()),
        )),
        Event::Text("to be or not to be".into()),
        Event::End(Tag::Quote(
            QuoteType::Block,
            QuoteQuotes::Auto,
            Some("some dude".into()),
        )),
    ];
    let output = render(input);
    let expected =
        "#quote(block: true, quotes: auto, attribution: [some dude])[to be or not to be]\n";
    assert_eq!(&output, &expected);
}

#[test]
fn inline_no_newline() {
    let input = vec![
        Event::Start(Tag::Quote(
            QuoteType::Inline,
            QuoteQuotes::Auto,
            Some("some dude".into()),
        )),
        Event::Text("whatever".into()),
        Event::End(Tag::Quote(
            QuoteType::Inline,
            QuoteQuotes::Auto,
            Some("some dude".into()),
        )),
    ];
    let output = render(input);
    assert!(!output.contains('\n'));
}

#[test]
fn block_has_newline() {
    let input = vec![
        Event::Start(Tag::Quote(
            QuoteType::Block,
            QuoteQuotes::Auto,
            Some("some dude".into()),
        )),
        Event::Text("whatever".into()),
        Event::End(Tag::Quote(
            QuoteType::Block,
            QuoteQuotes::Auto,
            Some("some dude".into()),
        )),
    ];
    let output = render(input);
    assert!(output.contains('\n'));
}

#[test]
fn quote_mark_policies() {
    let wrap = Tag::Quote(QuoteType::Inline, QuoteQuotes::WrapInDoubleQuotes, None);
    let bare = Tag::Quote(QuoteType::Inline, QuoteQuotes::DoNotWrapInDoubleQuotes, None);
    let output = render(vec![
        Event::Start(wrap.clone()),
        Event::End(wrap),
        Event::Start(bare.clone()),
        Event::End(bare),
    ]);
    assert_eq!(
        output,
        "#quote(block: false, quotes: true,)[]#quote(block: false, quotes: false,)[]"
    );
}

#[test]
fn basic() {
    let input = vec![Event::Line(None, None, None, None, None)];
    let output = render(input);
    let expected = "#line()\n";
    assert_eq!(&output, &expected);
}

#[test]
fn start() {
    let input = vec![Event::Line(
        Some(("1".into(), "2".into())),
        None,
        None,
        None,
        None,
    )];
    let output = render(input);
    let expected = "#line(start: (1, 2))\n";
    assert_eq!(&output, &expected);
}

#[test]
fn end() {
    let input = vec![Event::Line(
        None,
        Some(("3".into(), "4".into())),
        None,
        None,
        None,
    )];
    let output = render(input);
    let expected = "#line(end: (3, 4))\n";
    assert_eq!(&output, &expected);
}

#[test]
fn length() {
    let input = vec![Event::Line(None, None, Some("5".into()), None, None)];
    let output = render(input);
    let expected = "#line(length: 5)\n";
    assert_eq!(&output, &expected);
}

#[test]
fn angle() {
    let input = vec![Event::Line(None, None, None, Some("6".into()), None)];
    let output = render(input);
    let expected = "#line(angle: 6)\n";
    assert_eq!(&output, &expected);
}

#[test]
fn stroke() {
    let input = vec![Event::Line(None, None, None, None, Some("7".into()))];
    let output = render(input);
    let expected = "#line(stroke: 7)\n";
    assert_eq!(&output, &expected);
}

#[test]
fn all() {
    let input = vec![Event::Line(
        Some(("1".into(), "2".into())),
        Some(("3".into(), "4".into())),
        Some("5".into()),
        Some("6".into()),
        Some("7".into()),
    )];
    let output = render(input);
    let expected = "#line(start: (1, 2), end: (3, 4), length: 5, angle: 6, stroke: 7)\n";
    assert_eq!(&output, &expected);
}

#[test]
fn table_conversion() {
    let input = vec![
        Event::Start(Tag::Table(vec![
            TableCellAlignment::Left,
            TableCellAlignment::Center,
        ])),
        Event::Start(Tag::TableRow),
        Event::Start(Tag::TableCell),
        Event::Text("Header 1".into()),
        Event::End(Tag::TableCell),
        Event::Start(Tag::TableCell),
        Event::Text("Header 2".into()),
        Event::End(Tag::TableCell),
        Event::End(Tag::TableRow),
        Event::End(Tag::Table(vec![
            TableCellAlignment::Left,
            TableCellAlignment::Center,
        ])),
    ];

    let output = render(input);
    let expected =
        "#table(align: [left, center])[\n#row[\n#cell[Header 1]#cell[Header 2]\n]\n]\n";
    assert_eq!(output, expected);
}

#[test]
fn table_alignment_names_and_head() {
    let table = Tag::Table(vec![TableCellAlignment::Right, TableCellAlignment::Unaligned]);
    let output = render(vec![
        Event::Start(table.clone()),
        Event::Start(Tag::TableHead),
        Event::End(Tag::TableHead),
        Event::End(table),
    ]);
    assert_eq!(output, "#table(align: [right, none])[\n#row[\n\n]\n]\n");
}

#[test]
fn escape_table() {
    assert_eq!(typst_escape("$"), "\\$");
    assert_eq!(typst_escape("#"), "\\#");
    assert_eq!(typst_escape("<"), "\\<");
    assert_eq!(typst_escape(">"), "\\>");
    assert_eq!(typst_escape("*"), "\\*");
    assert_eq!(typst_escape("_"), " \\_");
    assert_eq!(typst_escape("`"), "\\`");
    assert_eq!(typst_escape("@"), "\\@");
    assert_eq!(typst_escape("a\\b c"), "a\\b c");
    assert_eq!(typst_escape(""), "");
    assert_eq!(typst_escape("1 < 2 $x$ é"), "1 \\< 2 \\$x\\$ é");
}

// Reads escaped text back: a space, a backslash and an underscore are an
// underscore, and a backslash before a special character is dropped.
fn read_back(escaped: &str) -> String {
    let special = ['$', '#', '<', '>', '*', '_', '`', '@'];
    let chars: Vec<char> = escaped.chars().collect();
    let mut out = String::new();
    let mut i = 0;
    while i < chars.len() {
        if i + 2 < chars.len() && chars[i] == ' ' && chars[i + 1] == '\\' && chars[i + 2] == '_' {
            out.push('_');
            i += 3;
        } else if chars[i] == '\\' && i + 1 < chars.len() && special.contains(&chars[i + 1]) {
            out.push(chars[i + 1]);
            i += 2;
        } else {
            out.push(chars[i]);
            i += 1;
        }
    }
    out
}

#[test]
fn escaping_round_trip() {
    for text in [
        "$",
        "#",
        "<",
        ">",
        "*",
        "_",
        "`",
        "@",
        "$#<>*_`@",
        "a$b #c <d> *e* `f` g@h",
        "\\$ \\\\ plain",
        "a_b",
        "a _b",
        " _ __ \\_ \\ _",
        "",
    ] {
        assert_eq!(read_back(&typst_escape(text)), text);
    }
}

#[test]
fn code_fence_widths() {
    let block = || Tag::CodeBlock(None, CodeBlockDisplay::Block);
    let labelled = || Tag::CodeBlock(Some("rust".into()), CodeBlockDisplay::Block);
    let input = vec![
        Event::Start(block()),
        Event::Start(labelled()),
        Event::Text("*x*".into()),
        Event::Start(block()),
        Event::End(block()),
        Event::End(labelled()),
        Event::End(block()),
        Event::Text("*x*".into()),
    ];
    let pieces = collect(TypstMarkup::new(VecStream::new(input)));
    assert_eq!(
        pieces,
        vec![
            "``````\n".to_string(),
            "```````rust\n".to_string(),
            "*x*".to_string(),
            "````````\n".to_string(),
            "````````\n".to_string(),
            "```````\n".to_string(),
            "``````\n".to_string(),
            "\\*x\\*".to_string(),
        ]
    );
}

#[test]
fn headings_and_lists() {
    let heading = || Tag::Heading(3, TableOfContents::Include, Bookmarks::Include);
    let bullets = || Tag::BulletList(None, false);
    let numbers = || Tag::NumberedList(1, None, false);
    let input = vec![
        Event::Start(heading()),
        Event::Text("T".into()),
        Event::End(heading()),
        Event::Start(bullets()),
        Event::Start(Tag::Item),
        Event::Text("a".into()),
        Event::Start(numbers()),
        Event::Start(Tag::Item),
        Event::Text("b".into()),
        Event::End(Tag::Item),
        Event::End(numbers()),
        Event::End(Tag::Item),
        Event::End(bullets()),
    ];
    assert_eq!(render(input), "=== T\n- a+ b\n\n");
}

#[test]
fn show_rules() {
    let set = Tag::Show(
        ShowType::ShowSet,
        "heading".into(),
        Some(("text".into(), "fill".into(), "red".into())),
        None,
    );
    let func = Tag::Show(ShowType::Function, "link".into(), None, Some("underline".into()));
    let input = vec![
        Event::Start(set.clone()),
        Event::End(set),
        Event::Start(func.clone()),
        Event::End(func),
    ];
    assert_eq!(
        render(input),
        "#show heading: set text(fill:red)\n#show link:underline\n"
    );
}

#[test]
fn leaves() {
    let input = vec![
        Event::Raw("#v(1em)".into()),
        Event::Linebreak,
        Event::Parbreak,
        Event::PageBreak,
        Event::Let("x".into(), "1".into()),
        Event::FunctionCall(None, "pagebreak".into(), vec!["weak: true".into()]),
        Event::FunctionCall(Some("a".into()), "f".into(), vec!["1".into(), "2".into()]),
        Event::DocumentFunctionCall(vec![]),
        Event::SetRule("par".into(), "justify".into(), "true".into()),
        Event::DocumentSet("title".into(), "\"T\"".into()),
    ];
    assert_eq!(
        render(input),
        "#v(1em)#linebreak()\n#parbreak()\n#pagebreak()\n#let x = 1\n#pagebreak(weak: true)\n\
         #a.f(1, 2)\n#document()\n#set par(justify: true)\n#set document(title: \"T\")\n"
    );
}

#[test]
fn push_markup_replaces_the_text() {
    let mut s = String::from("old");
    push_markup(
        &mut s,
        VecStream::new(vec![
            Event::Start(Tag::Strong),
            Event::Text("x".into()),
            Event::End(Tag::Strong),
        ]),
    );
    assert_eq!(s, "#strong[x]");
}
