use pullup::mdbook::balance::{balanced_events, same_tag};
use pullup::mdbook::book::{BookItem, Chapter, Config, MDBook, RenderContext};
use pullup::mdbook::parser::{events_from_items, ConfigParser, MdBookParser, Parser};
use pullup::mdbook::parts::normalize_parts;
use pullup::mdbook::{ChapterSource, ChapterStatus, ContentType, Event, Tag};
use pullup::markdown;
use pullup::stream::{collect, EventStream};

fn ch1() -> Chapter {
    Chapter {
        name: "Chapter 1".to_string(),
        ..Default::default()
    }
}

fn ch2() -> Chapter {
    Chapter {
        name: "Chapter 2".to_string(),
        ..Default::default()
    }
}

fn chapter_start(name: &str) -> Event {
    Event::Start(Tag::Chapter(ChapterStatus::Draft, name.to_string(), None, None))
}

fn chapter_end(name: &str) -> Event {
    Event::End(Tag::Chapter(ChapterStatus::Draft, name.to_string(), None, None))
}

fn part_start(title: Option<&str>) -> Event {
    Event::Start(Tag::Part(title.map(|t| t.to_string()), None))
}

fn part_end(title: Option<&str>) -> Event {
    Event::End(Tag::Part(title.map(|t| t.to_string()), None))
}

#[test]
fn no_parts() {
    let input = vec![BookItem::Chapter(ch1())];
    let output = events_from_items(&input);
    assert_eq!(
        output,
        vec![
            Event::Start(Tag::Part(None, None)),
            Event::Start(Tag::Chapter(ChapterStatus::Draft, ch1().name, None, None)),
            Event::End(Tag::Chapter(ChapterStatus::Draft, ch1().name, None, None)),
            Event::End(Tag::Part(None, None)),
        ],
    );
}

#[test]
fn some_parts() {
    let input = vec![
        BookItem::Chapter(ch1()),
        BookItem::PartTitle("between".to_string()),
        BookItem::Chapter(ch2()),
    ];
    let output = events_from_items(&input);
    assert_eq!(
        output,
        vec![
            // Synthesized untitled part with chapter 1.
            Event::Start(Tag::Part(None, None)),
            Event::Start(Tag::Chapter(ChapterStatus::Draft, ch1().name, None, None)),
            Event::End(Tag::Chapter(ChapterStatus::Draft, ch1().name, None, None)),
            Event::End(Tag::Part(None, None)),
            // Second part with title and chapter 2.
            Event::Start(Tag::Part(Some("between".to_string()), None)),
            Event::Start(Tag::Chapter(ChapterStatus::Draft, ch2().name, None, None)),
            Event::End(Tag::Chapter(ChapterStatus::Draft, ch2().name, None, None)),
            Event::End(Tag::Part(Some("between".to_string()), None)),
        ],
    );
}

#[test]
fn all_parts() {
    let input = vec![
        BookItem::PartTitle("one".to_string()),
        BookItem::Chapter(ch1()),
        BookItem::PartTitle("twox".to_string()),
        BookItem::Chapter(ch2()),
    ];
    let output = events_from_items(&input);
    assert_eq!(
        output,
        vec![
            // Part 1.
            Event::Start(Tag::Part(Some("one".to_string()), None)),
            Event::Start(Tag::Chapter(ChapterStatus::Draft, ch1().name, None, None)),
            Event::End(Tag::Chapter(ChapterStatus::Draft, ch1().name, None, None)),
            Event::End(Tag::Part(Some("one".to_string()), None)),
            // Part 2.
            Event::Start(Tag::Part(Some("twox".to_string()), None)),
            Event::Start(Tag::Chapter(ChapterStatus::Draft, ch2().name, None, None)),
            Event::End(Tag::Chapter(ChapterStatus::Draft, ch2().name, None, None)),
            Event::End(Tag::Part(Some("twox".to_string()), None)),
        ],
    );
}

#[test]
fn normalize_without_parts_wraps_everything() {
    let out = normalize_parts(vec![Event::Separator]);
    assert_eq!(out, vec![part_start(None), Event::Separator, part_end(None)]);
    assert_eq!(normalize_parts(vec![]), vec![part_start(None), part_end(None)]);
}

#[test]
fn normalize_with_ends_only_opens_the_first() {
    let out = normalize_parts(vec![Event::Separator, part_end(Some("a")), part_end(Some("b"))]);
    assert_eq!(
        out,
        vec![part_start(Some("a")), Event::Separator, part_end(Some("a")), part_end(Some("b"))]
    );
}

#[test]
fn normalize_with_starts_only_closes_the_last() {
    let out = normalize_parts(vec![part_start(Some("a")), Event::Separator]);
    assert_eq!(out, vec![part_start(Some("a")), Event::Separator, part_end(Some("a"))]);
    let out = normalize_parts(vec![
        Event::Separator,
        part_start(Some("a")),
        part_start(Some("b")),
        Event::Separator,
    ]);
    assert_eq!(
        out,
        vec![
            part_start(None),
            Event::Separator,
            part_end(None),
            part_start(Some("a")),
            part_start(Some("b")),
            Event::Separator,
            part_end(Some("b")),
        ]
    );
}

#[test]
fn normalize_with_both_repairs_both_ends() {
    // An end without a start before it, and a start without an end after it.
    let out = normalize_parts(vec![
        Event::Separator,
        part_end(Some("a")),
        part_start(Some("b")),
        Event::Separator,
    ]);
    assert_eq!(
        out,
        vec![
            part_start(Some("a")),
            Event::Separator,
            part_end(Some("a")),
            part_start(Some("b")),
            Event::Separator,
            part_end(Some("b")),
        ]
    );
    // Nothing to repair.
    let balanced = vec![part_start(Some("a")), Event::Separator, part_end(Some("a"))];
    assert_eq!(normalize_parts(balanced.clone()), balanced);
}

#[test]
fn normalize_is_idempotent() {
    let inputs: Vec<Vec<Event>> = vec![
        vec![],
        vec![Event::Separator],
        vec![part_end(Some("a")), Event::Separator],
        vec![Event::Separator, part_start(Some("a"))],
        vec![part_end(Some("a")), part_start(Some("b"))],
        vec![part_start(Some("a")), part_end(Some("a")), part_start(Some("b"))],
    ];
    for input in inputs {
        let once = normalize_parts(input);
        let twice = normalize_parts(once.clone());
        assert_eq!(once, twice);
    }
}

// A stack that every start is pushed on and every end pops from.
fn balanced(events: &[Event]) -> bool {
    let mut stack: Vec<&Tag> = Vec::new();
    for e in events {
        match e {
            Event::Start(t) => stack.push(t),
            Event::End(t) => {
                if stack.pop() != Some(t) {
                    return false;
                }
            }
            _ => {}
        }
    }
    stack.is_empty()
}

#[test]
fn output_is_balanced_and_covered() {
    let book = vec![
        BookItem::PartTitle("one".to_string()),
        BookItem::Chapter(Chapter {
            name: "A".to_string(),
            content: "# Title\n\ntext".to_string(),
            path: Some("a.md".to_string()),
            source_path: Some("a.md".to_string()),
            sub_items: vec![],
        }),
        BookItem::Separator,
        BookItem::PartTitle("two".to_string()),
        BookItem::Chapter(ch2()),
    ];
    let out = events_from_items(&book);
    assert!(balanced(&out));
    assert!(balanced_events(&out));
    // Every event that is no part boundary stands inside a part.
    let mut depth = 0;
    for e in &out {
        match e {
            Event::Start(Tag::Part(_, _)) => depth += 1,
            Event::End(Tag::Part(_, _)) => depth -= 1,
            _ => assert!(depth > 0),
        }
    }
    assert_eq!(depth, 0);
}

#[test]
fn chapter_with_content_and_source() {
    let book = vec![BookItem::Chapter(Chapter {
        name: "A".to_string(),
        content: "hi".to_string(),
        path: Some("a.md".to_string()),
        source_path: Some("src/a.md".to_string()),
        sub_items: vec![],
    })];
    let tag = || {
        Tag::Chapter(
            ChapterStatus::Active,
            "A".to_string(),
            Some(ChapterSource::Path("src/a.md".to_string())),
            None,
        )
    };
    assert_eq!(
        events_from_items(&book),
        vec![
            part_start(None),
            Event::Start(tag()),
            Event::Start(Tag::Content(ContentType::Markdown)),
            Event::MarkdownContentEvent(markdown::Event::Start(markdown::Tag::Paragraph)),
            Event::MarkdownContentEvent(markdown::Event::Text("hi".to_string())),
            Event::MarkdownContentEvent(markdown::Event::End(markdown::Tag::Paragraph)),
            Event::End(Tag::Content(ContentType::Markdown)),
            Event::End(tag()),
            part_end(None),
        ]
    );
}

#[test]
fn chapters_below_a_chapter_form_a_part_of_their_own() {
    let book = vec![BookItem::Chapter(Chapter {
        name: "A".to_string(),
        sub_items: vec![BookItem::Chapter(ch1()), BookItem::Separator],
        ..Default::default()
    })];
    assert_eq!(
        events_from_items(&book),
        vec![
            chapter_start("A"),
            part_start(None),
            chapter_start("Chapter 1"),
            chapter_end("Chapter 1"),
            Event::Separator,
            part_end(None),
            chapter_end("A"),
        ]
    );
}

#[test]
fn config_events() {
    let config = Config {
        title: Some("T".to_string()),
        authors: vec!["A".to_string(), "B".to_string()],
    };
    assert_eq!(
        collect(ConfigParser::new(&config)),
        vec![
            Event::Title("T".to_string()),
            Event::Start(Tag::AuthorList),
            Event::Author("A".to_string()),
            Event::Author("B".to_string()),
            Event::End(Tag::AuthorList),
        ]
    );
    let empty = Config::default();
    let mut parser = ConfigParser::new(&empty);
    assert_eq!(parser.next(), None);
    assert_eq!(parser.next(), None);
    let untitled = Config { title: None, authors: vec!["A".to_string()] };
    assert_eq!(
        collect(ConfigParser::new(&untitled)),
        vec![
            Event::Start(Tag::AuthorList),
            Event::Author("A".to_string()),
            Event::End(Tag::AuthorList),
        ]
    );
}

#[test]
fn whole_book() {
    let book = MDBook {
        root: "/book".to_string(),
        config: Config { title: Some("T".to_string()), authors: vec![] },
        sections: vec![BookItem::Chapter(ch1())],
    };
    let expected = vec![
        Event::Root("/book".to_string()),
        Event::Title("T".to_string()),
        part_start(None),
        chapter_start("Chapter 1"),
        chapter_end("Chapter 1"),
        part_end(None),
    ];
    let parser = Parser::from_mdbook(&book);
    assert_eq!(parser.iter(), &expected);
    assert_eq!(collect(parser.into_stream()), expected);
    let parser = MdBookParser::from_mdbook(&book);
    assert_eq!(parser.iter(), &expected);
    let ctx = RenderContext {
        root: "/book".to_string(),
        config: Config { title: Some("T".to_string()), authors: vec![] },
        sections: vec![BookItem::Chapter(ch1())],
    };
    assert_eq!(Parser::from_rendercontext(&ctx).iter(), &expected);
    assert_eq!(collect(MdBookParser::from_rendercontext(&ctx).into_stream()), expected);
}

// Whether every event that is no part boundary stands inside a part.
fn all_inside_parts(events: &[Event]) -> bool {
    let mut depth = 0;
    for e in events {
        match e {
            Event::Start(Tag::Part(_, _)) => depth += 1,
            Event::End(Tag::Part(_, _)) => depth -= 1,
            _ => {
                if depth <= 0 {
                    return false;
                }
            }
        }
    }
    depth == 0
}

#[test]
fn what_stands_before_the_first_of_two_part_titles_is_left_outside() {
    let book = vec![
        BookItem::Chapter(ch1()),
        BookItem::PartTitle("a".to_string()),
        BookItem::PartTitle("b".to_string()),
        BookItem::Chapter(ch2()),
    ];
    let out = events_from_items(&book);
    assert_eq!(
        out,
        vec![
            chapter_start("Chapter 1"),
            chapter_end("Chapter 1"),
            part_start(Some("a")),
            part_end(Some("a")),
            part_start(Some("b")),
            chapter_start("Chapter 2"),
            chapter_end("Chapter 2"),
            part_end(Some("b")),
        ]
    );
    assert!(balanced_events(&out));
    assert!(!all_inside_parts(&out));
}

#[test]
fn part_titles_from_the_first_item_on_cover_everything() {
    let book = vec![
        BookItem::PartTitle("a".to_string()),
        BookItem::Chapter(Chapter {
            name: "A".to_string(),
            sub_items: vec![BookItem::Chapter(ch1())],
            ..Default::default()
        }),
        BookItem::PartTitle("b".to_string()),
        BookItem::Separator,
    ];
    let out = events_from_items(&book);
    assert!(balanced_events(&out));
    assert!(all_inside_parts(&out));
    assert_eq!(out.first(), Some(&part_start(Some("a"))));
    assert_eq!(out.last(), Some(&part_end(Some("b"))));
}

#[test]
fn validator_tells_balanced_from_unbalanced() {
    assert!(balanced_events(&vec![]));
    assert!(balanced_events(&vec![Event::Separator]));
    assert!(balanced_events(&vec![part_start(Some("a")), part_end(Some("a"))]));
    assert!(!balanced_events(&vec![part_start(Some("a")), part_end(Some("b"))]));
    assert!(!balanced_events(&vec![part_start(Some("a"))]));
    assert!(!balanced_events(&vec![part_end(Some("a"))]));
    assert!(!balanced_events(&vec![
        part_start(None),
        chapter_start("x"),
        part_end(None),
        chapter_end("x"),
    ]));
    assert!(same_tag(
        &Tag::Chapter(
            ChapterStatus::Active,
            "a".to_string(),
            Some(ChapterSource::Url("u".to_string())),
            Some(1)
        ),
        &Tag::Chapter(
            ChapterStatus::Active,
            "a".to_string(),
            Some(ChapterSource::Url("u".to_string())),
            Some(1)
        )
    ));
    assert!(!same_tag(
        &Tag::Chapter(ChapterStatus::Active, "a".to_string(), None, None),
        &Tag::Chapter(ChapterStatus::Draft, "a".to_string(), None, None)
    ));
    assert!(!same_tag(&Tag::Content(ContentType::Markdown), &Tag::AuthorList));
}
