use pullup::markdown::parse::parse;
use pullup::markdown::to::typst::{
    ConvertBlockQuotes, ConvertCode, ConvertEmphasis, ConvertHardBreaks, ConvertHeadings,
    ConvertLinks, ConvertLists, ConvertParagraphs, ConvertSoftBreaks, ConvertStrong, ConvertText,
};
use pullup::markdown::{HeadingLevel, MarkdownIter};
use pullup::stream::collect;
use pullup::ParserEvent::{Markdown, Typst};
use pullup::{markdown, typst};

use markdown::Event as MdEvent;
use markdown::Tag as MdTag;
use typst::Event as TypstEvent;
use typst::Tag as TypstTag;

#[test]
fn convert_headings() {
    let md = "\
# Greetings

## This is **rad**!
";
    let i = ConvertHeadings::new(MarkdownIter(parse(&md)));

    assert_eq!(
        collect(i),
        vec![
            Typst(TypstEvent::Start(TypstTag::Heading(
                1,
                typst::TableOfContents::Include,
                typst::Bookmarks::Include,
            ))),
            Markdown(MdEvent::Text("Greetings".to_string())),
            Typst(TypstEvent::End(TypstTag::Heading(
                1,
                typst::TableOfContents::Include,
                typst::Bookmarks::Include,
            ))),
            Typst(TypstEvent::Start(TypstTag::Heading(
                2,
                typst::TableOfContents::Include,
                typst::Bookmarks::Include,
            ))),
            Markdown(MdEvent::Text("This is ".to_string())),
            Markdown(MdEvent::Start(MdTag::Strong)),
            Markdown(MdEvent::Text("rad".to_string())),
            Markdown(MdEvent::End(MdTag::Strong)),
            Markdown(MdEvent::Text("!".to_string())),
            Typst(TypstEvent::End(TypstTag::Heading(
                2,
                typst::TableOfContents::Include,
                typst::Bookmarks::Include,
            ))),
        ]
    );
}

#[test]
fn typst_inline() {
    let md = "\
Cool [beans](https://example.com)
";
    let i = ConvertLinks::new(MarkdownIter(parse(&md)));

    assert_eq!(
        collect(i),
        vec![
            Markdown(MdEvent::Start(MdTag::Paragraph)),
            Markdown(MdEvent::Text("Cool ".to_string())),
            Typst(TypstEvent::Start(TypstTag::Link(
                typst::LinkType::Content,
                "https://example.com".to_string()
            ))),
            Markdown(MdEvent::Text("beans".to_string())),
            Typst(TypstEvent::End(TypstTag::Link(
                typst::LinkType::Content,
                "https://example.com".to_string()
            ))),
            Markdown(MdEvent::End(MdTag::Paragraph)),
        ]
    );
}

#[test]
fn auto() {
    let md = "\
Cool <https://example.com>
";
    let i = ConvertLinks::new(MarkdownIter(parse(&md)));

    assert_eq!(
        collect(i),
        vec![
            Markdown(MdEvent::Start(MdTag::Paragraph)),
            Markdown(MdEvent::Text("Cool ".to_string())),
            Typst(TypstEvent::Start(TypstTag::Link(
                typst::LinkType::Autolink,
                "https://example.com".to_string()
            ))),
            Markdown(MdEvent::Text("https://example.com".to_string())),
            Typst(TypstEvent::End(TypstTag::Link(
                typst::LinkType::Autolink,
                "https://example.com".to_string()
            ))),
            Markdown(MdEvent::End(MdTag::Paragraph)),
        ]
    );
}

#[test]
fn email() {
    let md = "\
Who are <you@example.com>
";
    let i = ConvertLinks::new(MarkdownIter(parse(&md)));

    assert_eq!(
        collect(i),
        vec![
            Markdown(MdEvent::Start(MdTag::Paragraph)),
            Markdown(MdEvent::Text("Who are ".to_string())),
            Typst(TypstEvent::Start(TypstTag::Link(
                typst::LinkType::Url,
                "mailto:you@example.com".to_string()
            ))),
            Markdown(MdEvent::Text("you@example.com".to_string())),
            Typst(TypstEvent::End(TypstTag::Link(
                typst::LinkType::Url,
                "mailto:you@example.com".to_string()
            ))),
            Markdown(MdEvent::End(MdTag::Paragraph)),
        ]
    );
}

#[test]
fn convert_strong() {
    let md = "\
## **Foo**

I **love** cake!
";
    let i = ConvertStrong::new(MarkdownIter(parse(&md)));

    assert_eq!(
        collect(i),
        vec![
            Markdown(MdEvent::Start(MdTag::Heading(
                HeadingLevel::H2,
                None,
                vec![]
            ))),
            Typst(TypstEvent::Start(TypstTag::Strong)),
            Markdown(MdEvent::Text("Foo".to_string())),
            Typst(TypstEvent::End(TypstTag::Strong)),
            Markdown(MdEvent::End(MdTag::Heading(HeadingLevel::H2, None, vec![]))),
            Markdown(MdEvent::Start(MdTag::Paragraph)),
            Markdown(MdEvent::Text("I ".to_string())),
            Typst(TypstEvent::Start(TypstTag::Strong)),
            Markdown(MdEvent::Text("love".to_string())),
            Typst(TypstEvent::End(TypstTag::Strong)),
            Markdown(MdEvent::Text(" cake!".to_string())),
            Markdown(MdEvent::End(MdTag::Paragraph)),
        ]
    );
}

#[test]
fn convert_emphasis() {
    let md = "\
## _Foo_

I *love* cake!
";
    let i = ConvertEmphasis::new(MarkdownIter(parse(&md)));

    assert_eq!(
        collect(i),
        vec![
            Markdown(MdEvent::Start(MdTag::Heading(
                HeadingLevel::H2,
                None,
                vec![]
            ))),
            Typst(TypstEvent::Start(TypstTag::Emphasis)),
            Markdown(MdEvent::Text("Foo".to_string())),
            Typst(TypstEvent::End(TypstTag::Emphasis)),
            Markdown(MdEvent::End(MdTag::Heading(HeadingLevel::H2, None, vec![]))),
            Markdown(MdEvent::Start(MdTag::Paragraph)),
            Markdown(MdEvent::Text("I ".to_string())),
            Typst(TypstEvent::Start(TypstTag::Emphasis)),
            Markdown(MdEvent::Text("love".to_string())),
            Typst(TypstEvent::End(TypstTag::Emphasis)),
            Markdown(MdEvent::Text(" cake!".to_string())),
            Markdown(MdEvent::End(MdTag::Paragraph)),
        ]
    );
}

#[test]
fn typst_inline_code() {
    let md = "\
foo `bar` baz
";
    let i = ConvertCode::new(MarkdownIter(parse(&md)));

    assert_eq!(
        collect(i),
        vec![
            Markdown(MdEvent::Start(MdTag::Paragraph)),
            Markdown(MdEvent::Text("foo ".to_string())),
            Typst(TypstEvent::Code("bar".to_string())),
            Markdown(MdEvent::Text(" baz".to_string())),
            Markdown(MdEvent::End(MdTag::Paragraph)),
        ]
    );
}

#[test]
fn block_indent() {
    let md = "\
whatever

    code 1
    code 2
";
    let i = ConvertCode::new(MarkdownIter(parse(&md)));

    assert_eq!(
        collect(i),
        vec![
            Markdown(MdEvent::Start(MdTag::Paragraph)),
            Markdown(MdEvent::Text("whatever".to_string())),
            Markdown(MdEvent::End(MdTag::Paragraph)),
            Typst(TypstEvent::Start(TypstTag::CodeBlock(
                None,
                typst::CodeBlockDisplay::Block
            ))),
            Markdown(MdEvent::Text("code 1\n".to_string())),
            Markdown(MdEvent::Text("code 2\n".to_string())),
            Typst(TypstEvent::End(TypstTag::CodeBlock(
                None,
                typst::CodeBlockDisplay::Block
            ))),
        ]
    );
}

#[test]
fn block() {
    let md = "\
```
blah
```
";
    let i = ConvertCode::new(MarkdownIter(parse(&md)));

    assert_eq!(
        collect(i),
        vec![
            Typst(TypstEvent::Start(TypstTag::CodeBlock(
                None,
                typst::CodeBlockDisplay::Block
            ))),
            Markdown(MdEvent::Text("blah\n".to_string())),
            Typst(TypstEvent::End(TypstTag::CodeBlock(
                None,
                typst::CodeBlockDisplay::Block
            ))),
        ]
    );
}

#[test]
fn block_with_fence() {
    let md = "\
```foo
blah
```
";
    let i = ConvertCode::new(MarkdownIter(parse(&md)));

    assert_eq!(
        collect(i),
        vec![
            Typst(TypstEvent::Start(TypstTag::CodeBlock(
                Some("foo".to_string()),
                typst::CodeBlockDisplay::Block
            ))),
            Markdown(MdEvent::Text("blah\n".to_string())),
            Typst(TypstEvent::End(TypstTag::CodeBlock(
                Some("foo".to_string()),
                typst::CodeBlockDisplay::Block
            ))),
        ]
    );
}

#[test]
fn convert_text() {
    let md = "\
foo

bar

baz
";
    let i = ConvertText::new(MarkdownIter(parse(&md)));

    assert_eq!(
        collect(i),
        vec![
            Markdown(MdEvent::Start(MdTag::Paragraph)),
            Typst(TypstEvent::Text("foo".to_string())),
            Markdown(MdEvent::End(MdTag::Paragraph)),
            Markdown(MdEvent::Start(MdTag::Paragraph)),
            Typst(TypstEvent::Text("bar".to_string())),
            Markdown(MdEvent::End(MdTag::Paragraph)),
            Markdown(MdEvent::Start(MdTag::Paragraph)),
            Typst(TypstEvent::Text("baz".to_string())),
            Markdown(MdEvent::End(MdTag::Paragraph)),
        ]
    );
}

#[test]
fn soft() {
    let md = "\
foo
bar
";
    let i = ConvertSoftBreaks::new(MarkdownIter(parse(&md)));

    assert_eq!(
        collect(i),
        vec![
            Markdown(MdEvent::Start(MdTag::Paragraph)),
            Markdown(MdEvent::Text("foo".to_string())),
            Typst(TypstEvent::Text(" ".to_string())),
            Markdown(MdEvent::Text("bar".to_string())),
            Markdown(MdEvent::End(MdTag::Paragraph)),
        ]
    );
}

#[test]
fn hard() {
    // Note that "foo" has two spaces after it.
    let md = "\
foo  
bar
";
    let i = ConvertHardBreaks::new(MarkdownIter(parse(&md)));

    assert_eq!(
        collect(i),
        vec![
            Markdown(MdEvent::Start(MdTag::Paragraph)),
            Markdown(MdEvent::Text("foo".to_string())),
            Typst(TypstEvent::Parbreak),
            Markdown(MdEvent::Text("bar".to_string())),
            Markdown(MdEvent::End(MdTag::Paragraph)),
        ]
    );
}

#[test]
fn convert_paragraphs() {
    let md = "\
foo

bar

baz
";
    let i = ConvertParagraphs::new(MarkdownIter(parse(&md)));

    assert_eq!(
        collect(i),
        vec![
            Typst(TypstEvent::Start(TypstTag::Paragraph)),
            Markdown(MdEvent::Text("foo".to_string())),
            Typst(TypstEvent::End(TypstTag::Paragraph)),
            Typst(TypstEvent::Start(TypstTag::Paragraph)),
            Markdown(MdEvent::Text("bar".to_string())),
            Typst(TypstEvent::End(TypstTag::Paragraph)),
            Typst(TypstEvent::Start(TypstTag::Paragraph)),
            Markdown(MdEvent::Text("baz".to_string())),
            Typst(TypstEvent::End(TypstTag::Paragraph)),
        ]
    );
}

#[test]
fn bullet() {
    let md = "\
* dogs
* are
* cool
";
    let i = ConvertLists::new(MarkdownIter(parse(&md)));

    assert_eq!(
        collect(i),
        vec![
            Typst(TypstEvent::Start(TypstTag::BulletList(None, false))),
            // First bulet.
            Typst(TypstEvent::Start(TypstTag::Item)),
            Markdown(MdEvent::Text("dogs".to_string())),
            Typst(TypstEvent::End(TypstTag::Item)),
            // Second bullet.
            Typst(TypstEvent::Start(TypstTag::Item)),
            Markdown(MdEvent::Text("are".to_string())),
            Typst(TypstEvent::End(TypstTag::Item)),
            // Third bullet.
            Typst(TypstEvent::Start(TypstTag::Item)),
            Markdown(MdEvent::Text("cool".to_string())),
            Typst(TypstEvent::End(TypstTag::Item)),
            Typst(TypstEvent::End(TypstTag::BulletList(None, false))),
        ],
    );
}

#[test]
fn numbered() {
    let md = "\
1. cats are _too_
2. birds are ok
";
    let i = ConvertLists::new(MarkdownIter(parse(&md)));

    assert_eq!(
        collect(i),
        vec![
            Typst(TypstEvent::Start(TypstTag::NumberedList(1, None, false))),
            // First bullet
            Typst(TypstEvent::Start(TypstTag::Item)),
            Markdown(MdEvent::Text("cats are ".to_string())),
            Markdown(MdEvent::Start(MdTag::Emphasis)),
            Markdown(MdEvent::Text("too".to_string())),
            Markdown(MdEvent::End(MdTag::Emphasis)),
            Typst(TypstEvent::End(TypstTag::Item)),
            // Second bullet
            Typst(TypstEvent::Start(TypstTag::Item)),
            Markdown(MdEvent::Text("birds are ok".to_string())),
            Typst(TypstEvent::End(TypstTag::Item)),
            Typst(TypstEvent::End(TypstTag::NumberedList(1, None, false))),
        ],
    );
}

#[test]
fn numbered_custom_start() {
    let md = "\
6. foo
1. bar
";
    let i = ConvertLists::new(MarkdownIter(parse(&md)));

    assert_eq!(
        collect(i),
        vec![
            Typst(TypstEvent::Start(TypstTag::NumberedList(6, None, false))),
            // First bullet.
            Typst(TypstEvent::Start(TypstTag::Item)),
            Markdown(MdEvent::Text("foo".to_string())),
            Typst(TypstEvent::End(TypstTag::Item)),
            // Second bullet.
            Typst(TypstEvent::Start(TypstTag::Item)),
            Markdown(MdEvent::Text("bar".to_string())),
            Typst(TypstEvent::End(TypstTag::Item)),
            Typst(TypstEvent::End(TypstTag::NumberedList(6, None, false))),
        ],
    );
}

#[test]
fn multiple_lines() {
    let md = "\
* multiple
  lines
";
    let i = ConvertLists::new(MarkdownIter(parse(&md)));

    assert_eq!(
        collect(i),
        vec![
            Typst(TypstEvent::Start(TypstTag::BulletList(None, false))),
            // First bullet.
            Typst(TypstEvent::Start(TypstTag::Item)),
            Markdown(MdEvent::Text("multiple".to_string())),
            Markdown(MdEvent::SoftBreak),
            Markdown(MdEvent::Text("lines".to_string())),
            Typst(TypstEvent::End(TypstTag::Item)),
            Typst(TypstEvent::End(TypstTag::BulletList(None, false))),
        ]
    );
}

// https://github.com/LegNeato/mdbook-typst/issues/3
#[test]
fn backslashes_in_backticks() {
    let md = r###"before `\` after"###;

    let i = ConvertText::new(MarkdownIter(parse(&md)));

    assert_eq!(
        collect(i),
        vec![
            Markdown(MdEvent::Start(MdTag::Paragraph)),
            Typst(TypstEvent::Text("before ".into())),
            Markdown(MdEvent::Code(r#"\"#.into())),
            Typst(TypstEvent::Text(" after".into())),
            Markdown(MdEvent::End(MdTag::Paragraph)),
        ],
    );
}

// https://github.com/LegNeato/mdbook-typst/issues/9
#[test]
fn simple_blockquote() {
    let md = "> test";

    let i = ConvertBlockQuotes::new(MarkdownIter(parse(&md)));

    assert_eq!(
        collect(i),
        vec![
            Typst(TypstEvent::Start(TypstTag::Quote(
                typst::QuoteType::Block,
                typst::QuoteQuotes::Auto,
                None,
            ))),
            Markdown(MdEvent::Start(MdTag::Paragraph)),
            Markdown(MdEvent::Text("test".to_string())),
            Markdown(MdEvent::End(MdTag::Paragraph)),
            Typst(TypstEvent::End(TypstTag::Quote(
                typst::QuoteType::Block,
                typst::QuoteQuotes::Auto,
                None,
            ))),
        ],
    );
}

// https://github.com/LegNeato/mdbook-typst/issues/9
#[test]
fn complex_blockquote() {
    let md = "> one\n> two\n> three";

    let i = ConvertBlockQuotes::new(MarkdownIter(parse(&md)));

    assert_eq!(
        collect(i),
        vec![
            Typst(TypstEvent::Start(TypstTag::Quote(
                typst::QuoteType::Block,
                typst::QuoteQuotes::Auto,
                None,
            ))),
            Markdown(MdEvent::Start(MdTag::Paragraph)),
            Markdown(MdEvent::Text("one".to_string())),
            Markdown(MdEvent::SoftBreak),
            Markdown(MdEvent::Text("two".to_string())),
            Markdown(MdEvent::SoftBreak),
            Markdown(MdEvent::Text("three".to_string())),
            Markdown(MdEvent::End(MdTag::Paragraph)),
            Typst(TypstEvent::End(TypstTag::Quote(
                typst::QuoteType::Block,
                typst::QuoteQuotes::Auto,
                None,
            ))),
        ],
    );
}
