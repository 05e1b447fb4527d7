//! Rendering of Typst events as Typst markup.
use crate::stream::{collect, lemma_views_push, views, EventStream};
use crate::text::{
    joined, list_chars, push_joined, push_repeated, repeated, same_string, same_text,
};
use crate::typst::laws::{lemma_escape_round_trip, lemma_run_extended, state_after, unescaped};
use crate::typst::{
    Event, EventView, QuoteQuotes, QuoteType, ShowType, TableCellAlignment, Tag, TagView,
};
use std::collections::VecDeque;
use vstd::prelude::*;
use vstd::string::*;

verus! {

/// Whether `c` has a meaning in Typst markup and so is escaped in plain text.
pub open spec fn is_special(c: char) -> bool {
    c == '$' || c == '#' || c == '<' || c == '>' || c == '*' || c == '_' || c == '`' || c == '@'
}

/// How one character of plain text is written in markup: a special character gets
/// a backslash in front, and the underscore a space before that.
pub open spec fn escaped_char(c: char) -> Seq<char> {
    if c == '_' {
        seq![' ', '\\', '_']
    } else if is_special(c) {
        seq!['\\', c]
    } else {
        seq![c]
    }
}

/// Plain text as it is written in markup: each character as [`escaped_char`] has it.
pub open spec fn escaped(s: Seq<char>) -> Seq<char>
    decreases s.len(),
{
    if s.len() == 0 {
        Seq::empty()
    } else {
        escaped(s.drop_last()) + escaped_char(s.last())
    }
}

/// How one character is written inside the string of a `#raw("..")` call.
pub open spec fn raw_escaped_char(c: char) -> Seq<char> {
    if c == '\\' || c == '"' {
        seq!['\\', c]
    } else {
        seq![c]
    }
}

/// Code as it is written inside the string of a `#raw("..")` call.
pub open spec fn raw_escaped(s: Seq<char>) -> Seq<char>
    decreases s.len(),
{
    if s.len() == 0 {
        Seq::empty()
    } else {
        raw_escaped(s.drop_last()) + raw_escaped_char(s.last())
    }
}

/// `String::push`: the character is added at the end of the string.
#[verifier::external_body]
fn push_char(out: &mut String, c: char)
    ensures
        final(out)@ == old(out)@.push(c),
{
    out.push(c);
}

/// Escapes plain text for Typst markup: every special character gets a backslash
/// in front, and the underscore a space before that. Read back, the result is
/// the text itself.
pub fn typst_escape(s: &str) -> (r: String)
    ensures
        r@ == escaped(s@),
        unescaped(r@) == s@,
{
    proof {
        lemma_escape_round_trip(s@);
    }
    let mut out = String::new();
    for c in it: s.chars()
        invariant
            it.seq() == s@,
            out@ == escaped(s@.take(it.index() as int)),
    {
        proof {
            let next = s@.take(it.index() + 1);
            assert(next.drop_last() =~= s@.take(it.index() as int));
            assert(next.last() == c);
        }
        let ghost before = out@;
        if c == '_' {
            push_char(&mut out, ' ');
            push_char(&mut out, '\\');
            push_char(&mut out, '_');
            assert(out@ =~= before + escaped_char(c));
        } else if c == '$' || c == '#' || c == '<' || c == '>' || c == '*' || c == '`' || c
            == '@' {
            push_char(&mut out, '\\');
            push_char(&mut out, c);
            assert(out@ =~= before + escaped_char(c));
        } else {
            push_char(&mut out, c);
            assert(out@ =~= before + escaped_char(c));
        }
    }
    assert(s@.take(s@.len() as int) =~= s@);
    out
}

/// Escapes code for the string of a `#raw("..")` call.
fn raw_escape(s: &str) -> (r: String)
    ensures
        r@ == raw_escaped(s@),
{
    let mut out = String::new();
    for c in it: s.chars()
        invariant
            it.seq() == s@,
            out@ == raw_escaped(s@.take(it.index() as int)),
    {
        proof {
            let next = s@.take(it.index() + 1);
            assert(next.drop_last() =~= s@.take(it.index() as int));
            assert(next.last() == c);
        }
        let ghost before = out@;
        if c == '\\' || c == '"' {
            push_char(&mut out, '\\');
            push_char(&mut out, c);
            assert(out@ =~= before + raw_escaped_char(c));
        } else {
            push_char(&mut out, c);
            assert(out@ =~= before + raw_escaped_char(c));
        }
    }
    assert(s@.take(s@.len() as int) =~= s@);
    out
}

/// Whether the text holds a backtick.
fn has_backtick(s: &str) -> (b: bool)
    ensures
        b == s@.contains('`'),
{
    let mut found = false;
    for c in it: s.chars()
        invariant
            it.seq() == s@,
            found == s@.take(it.index() as int).contains('`'),
    {
        proof {
            let next = s@.take(it.index() + 1);
            assert(next.drop_last() =~= s@.take(it.index() as int));
            assert(next.last() == c);
            if s@.take(it.index() as int).contains('`') {
                let j = choose|j: int|
                    0 <= j < it.index() && s@.take(it.index() as int)[j] == '`';
                assert(next[j] == '`');
            }
            if next.contains('`') && c != '`' {
                let j = choose|j: int| 0 <= j < next.len() && next[j] == '`';
                assert(s@.take(it.index() as int)[j] == '`');
            }
        }
        if c == '`' {
            found = true;
        }
    }
    assert(s@.take(s@.len() as int) =~= s@);
    found
}

/// What the renderer remembers between two events.
pub struct MarkupState {
    /// The tags that are open, the innermost last.
    pub open: Seq<TagView>,
    /// How many code blocks are open.
    pub code_depth: nat,
}

impl MarkupState {
    /// The state before the first event.
    pub open spec fn initial() -> MarkupState {
        MarkupState { open: Seq::empty(), code_depth: 0 }
    }
}

/// The name of a column alignment.
pub open spec fn alignment_name(a: TableCellAlignment) -> Seq<char> {
    match a {
        TableCellAlignment::Left => "left"@,
        TableCellAlignment::Center => "center"@,
        TableCellAlignment::Right => "right"@,
        TableCellAlignment::Unaligned => "none"@,
    }
}

/// The `block:` argument of a quote.
pub open spec fn quote_block(ty: QuoteType) -> Seq<char> {
    match ty {
        QuoteType::Block => "block: true,"@,
        QuoteType::Inline => "block: false,"@,
    }
}

/// The `quotes:` argument of a quote.
pub open spec fn quote_quotes(quotes: QuoteQuotes) -> Seq<char> {
    match quotes {
        QuoteQuotes::DoNotWrapInDoubleQuotes => "quotes: false,"@,
        QuoteQuotes::WrapInDoubleQuotes => "quotes: true,"@,
        QuoteQuotes::Auto => "quotes: auto,"@,
    }
}

/// A code fence where `depth` code blocks are open around it: six backticks and
/// one more for each of them.
pub open spec fn fence(depth: nat) -> Seq<char> {
    repeated('`', 6 + depth)
}

/// Whether the start of `tag` can be rendered in state `st`: a show rule holds
/// the data of its type, a heading has a level of 1 at least, a list item stands
/// directly in a list, and the tag is no strikethrough.
pub open spec fn can_start(tag: TagView, st: MarkupState) -> bool {
    match tag {
        TagView::Heading(level, _, _) => level >= 1,
        TagView::Show(ShowType::ShowSet, _, set, _) => set is Some,
        TagView::Show(ShowType::Function, _, _, func) => func is Some,
        TagView::Item => st.open.len() > 0 && (st.open.last() is BulletList
            || st.open.last() is NumberedList),
        TagView::Strikethrough => false,
        _ => true,
    }
}

/// Whether the end of `tag` can be rendered in state `st`: it closes the innermost
/// open tag, which is equal to it.
pub open spec fn can_end(tag: TagView, st: MarkupState) -> bool {
    !(tag is Strikethrough) && st.open.len() > 0 && st.open.last() == tag
}

/// Whether `event` can be rendered in state `st`.
pub open spec fn can_render(event: EventView, st: MarkupState) -> bool {
    match event {
        EventView::Start(tag) => can_start(tag, st),
        EventView::End(tag) => can_end(tag, st),
        _ => true,
    }
}

/// The markup that opens `tag` in state `st`.
pub open spec fn start_markup(tag: TagView, st: MarkupState) -> Seq<char> {
    match tag {
        TagView::Paragraph => "#par()["@,
        TagView::Show(ShowType::ShowSet, selector, set, _) => match set {
            Some(t) => "#show "@ + selector + ": set "@ + t.0 + "("@ + t.1 + ":"@ + t.2 + ")"@,
            None => Seq::empty(),
        },
        TagView::Show(ShowType::Function, selector, _, func) => match func {
            Some(f) => "#show "@ + selector + ":"@ + f,
            None => Seq::empty(),
        },
        TagView::Heading(level, _, _) => repeated('=', level as nat) + " "@,
        TagView::CodeBlock(label, _) => fence(st.code_depth) + (match label {
            Some(l) => l,
            None => Seq::empty(),
        }) + "\n"@,
        TagView::BulletList(_, _) => Seq::empty(),
        TagView::NumberedList(_, _, _) => Seq::empty(),
        TagView::Item => if st.open.len() > 0 && st.open.last() is NumberedList {
            "+ "@
        } else {
            "- "@
        },
        TagView::Emphasis => "#emph["@,
        TagView::Strong => "#strong["@,
        TagView::Link(_, url) => "#link(\""@ + url + "\")["@,
        TagView::Quote(ty, quotes, attribution) => match attribution {
            Some(a) => "#quote("@ + quote_block(ty) + " "@ + quote_quotes(quotes)
                + " attribution: ["@ + a + "])["@,
            None => "#quote("@ + quote_block(ty) + " "@ + quote_quotes(quotes) + ")["@,
        },
        TagView::Table(alignment) => "#table(align: ["@ + joined(
            alignment.map_values(|a: TableCellAlignment| alignment_name(a)),
            ", "@,
        ) + "])[\n"@,
        TagView::TableRow => "#row[\n"@,
        TagView::TableHead => "#row[\n"@,
        TagView::TableCell => "#cell["@,
        TagView::Strikethrough => Seq::empty(),
    }
}

/// The markup that closes `tag` in state `st`.
pub open spec fn end_markup(tag: TagView, st: MarkupState) -> Seq<char> {
    match tag {
        TagView::Paragraph => "]\n"@,
        TagView::Heading(_, _, _) => "\n"@,
        TagView::Item => "\n"@,
        TagView::Emphasis => "]"@,
        TagView::Strong => "]"@,
        TagView::BulletList(_, _) => Seq::empty(),
        TagView::NumberedList(_, _, _) => Seq::empty(),
        TagView::CodeBlock(_, _) => fence(
            if st.code_depth > 0 {
                (st.code_depth - 1) as nat
            } else {
                0
            },
        ) + "\n"@,
        TagView::Link(_, _) => "]"@,
        TagView::Show(_, _, _, _) => "\n"@,
        TagView::Quote(QuoteType::Inline, _, _) => "]"@,
        TagView::Quote(QuoteType::Block, _, _) => "]\n"@,
        TagView::Table(_) => "]\n"@,
        TagView::TableHead => "\n]\n"@,
        TagView::TableRow => "\n]\n"@,
        TagView::TableCell => "]"@,
        TagView::Strikethrough => Seq::empty(),
    }
}

/// The arguments of a `#line(..)` call: those that are given, in a fixed order.
pub open spec fn line_parts(
    start: Option<(Seq<char>, Seq<char>)>,
    end: Option<(Seq<char>, Seq<char>)>,
    length: Option<Seq<char>>,
    angle: Option<Seq<char>>,
    stroke: Option<Seq<char>>,
) -> Seq<Seq<char>> {
    (match start {
        Some(p) => seq!["start: ("@ + p.0 + ", "@ + p.1 + ")"@],
        None => Seq::empty(),
    }) + (match end {
        Some(p) => seq!["end: ("@ + p.0 + ", "@ + p.1 + ")"@],
        None => Seq::empty(),
    }) + (match length {
        Some(l) => seq!["length: "@ + l],
        None => Seq::empty(),
    }) + (match angle {
        Some(a) => seq!["angle: "@ + a],
        None => Seq::empty(),
    }) + (match stroke {
        Some(s) => seq!["stroke: "@ + s],
        None => Seq::empty(),
    })
}

/// The markup of inline code: between backticks, or as a `#raw("..")` call where
/// the code itself holds a backtick.
pub open spec fn code_markup(code: Seq<char>) -> Seq<char> {
    if code.contains('`') {
        "#raw(\""@ + raw_escaped(code) + "\")"@
    } else {
        "`"@ + code + "`"@
    }
}

/// The markup of `event` in state `st`.
pub open spec fn event_markup(event: EventView, st: MarkupState) -> Seq<char> {
    match event {
        EventView::Start(tag) => start_markup(tag, st),
        EventView::End(tag) => end_markup(tag, st),
        EventView::Raw(t) => t,
        EventView::Text(t) => if st.code_depth == 0 {
            escaped(t)
        } else {
            t
        },
        EventView::Code(t) => code_markup(t),
        EventView::Linebreak => "#linebreak()\n"@,
        EventView::Parbreak => "#parbreak()\n"@,
        EventView::PageBreak => "#pagebreak()\n"@,
        EventView::Line(start, end, length, angle, stroke) => "#line("@ + joined(
            line_parts(start, end, length, angle, stroke),
            ", "@,
        ) + ")\n"@,
        EventView::Let(lhs, rhs) => "#let "@ + lhs + " = "@ + rhs + "\n"@,
        EventView::FunctionCall(target, name, args) => match target {
            Some(v) => "#"@ + v + "."@ + name + "("@ + joined(args, ", "@) + ")\n"@,
            None => "#"@ + name + "("@ + joined(args, ", "@) + ")\n"@,
        },
        EventView::DocumentFunctionCall(args) => "#document("@ + joined(args, ", "@) + ")\n"@,
        EventView::SetRule(element, key, value) => "#set "@ + element + "("@ + key + ": "@
            + value + ")\n"@,
        EventView::DocumentSet(key, value) => "#set document("@ + key + ": "@ + value + ")\n"@,
    }
}

/// The state after `event` was rendered in state `st`.
pub open spec fn next_state(event: EventView, st: MarkupState) -> MarkupState {
    match event {
        EventView::Start(tag) => MarkupState {
            open: st.open.push(tag),
            code_depth: if tag is CodeBlock {
                st.code_depth + 1
            } else {
                st.code_depth
            },
        },
        EventView::End(tag) => MarkupState {
            open: if st.open.len() > 0 {
                st.open.drop_last()
            } else {
                st.open
            },
            code_depth: if tag is CodeBlock && st.code_depth > 0 {
                (st.code_depth - 1) as nat
            } else {
                st.code_depth
            },
        },
        _ => st,
    }
}

/// Whether all of `events` can be rendered in turn, starting in state `st`.
pub open spec fn renderable(events: Seq<EventView>, st: MarkupState) -> bool
    decreases events.len(),
{
    events.len() == 0 || (can_render(events[0], st) && renderable(
        events.drop_first(),
        next_state(events[0], st),
    ))
}

/// The markup of each of `events` in turn, starting in state `st`.
pub open spec fn rendered(events: Seq<EventView>, st: MarkupState) -> Seq<Seq<char>>
    decreases events.len(),
{
    if events.len() == 0 {
        Seq::empty()
    } else {
        seq![event_markup(events[0], st)] + rendered(
            events.drop_first(),
            next_state(events[0], st),
        )
    }
}

/// The state that a stack of open tags and a stack with one entry for each open
/// code block stand for.
pub open spec fn state_of(open: Seq<Tag>, code: Seq<()>) -> MarkupState {
    MarkupState { open: views(open), code_depth: code.len() }
}

fn alignment_names(alignment: &Vec<TableCellAlignment>) -> (names: Vec<String>)
    ensures
        list_chars(names@) == alignment@.map_values(|a: TableCellAlignment| alignment_name(a)),
{
    let mut names: Vec<String> = Vec::new();
    let mut i: usize = 0;
    while i < alignment.len()
        invariant
            i <= alignment.len(),
            list_chars(names@) == alignment@.take(i as int).map_values(
                |a: TableCellAlignment| alignment_name(a),
            ),
        decreases alignment.len() - i,
    {
        let name = match alignment[i] {
            TableCellAlignment::Left => String::from_str("left"),
            TableCellAlignment::Center => String::from_str("center"),
            TableCellAlignment::Right => String::from_str("right"),
            TableCellAlignment::Unaligned => String::from_str("none"),
        };
        let ghost before = names@;
        names.push(name);
        i = i + 1;
        assert(list_chars(names@) =~= alignment@.take(i as int).map_values(
            |a: TableCellAlignment| alignment_name(a),
        )) by {
            assert(list_chars(names@) =~= list_chars(before).push(name@));
            assert(alignment@.take(i as int) =~= alignment@.take(i - 1).push(
                alignment@[i - 1],
            ));
        }
    }
    assert(alignment@.take(alignment.len() as int) =~= alignment@);
    names
}

fn render_start(tag: &Tag, open: &VecDeque<Tag>, code: &VecDeque<()>) -> (out: String)
    requires
        can_start(tag@, state_of(open@, code@)),
    ensures
        out@ == start_markup(tag@, state_of(open@, code@)),
{
    match tag {
        Tag::Paragraph => String::from_str("#par()["),
        Tag::Show(ty, selector, set, func) => match ty {
            ShowType::ShowSet => match set {
                Some(t) => {
                    let mut out = String::from_str("#show ");
                    out.append(selector.as_str());
                    out.append(": set ");
                    out.append(t.0.as_str());
                    out.append("(");
                    out.append(t.1.as_str());
                    out.append(":");
                    out.append(t.2.as_str());
                    out.append(")");
                    out
                },
                None => unreached(),
            },
            ShowType::Function => match func {
                Some(f) => {
                    let mut out = String::from_str("#show ");
                    out.append(selector.as_str());
                    out.append(":");
                    out.append(f.as_str());
                    out
                },
                None => unreached(),
            },
        },
        Tag::Heading(level, _, _) => {
            let mut out = String::new();
            proof {
                reveal_strlit("=");
            }
            push_repeated(&mut out, "=", *level as usize);
            out.append(" ");
            assert(out@ =~= repeated('=', *level as nat) + " "@);
            out
        },
        Tag::CodeBlock(label, _) => {
            let mut out = String::new();
            proof {
                reveal_strlit("`");
            }
            push_repeated(&mut out, "`", 6);
            push_repeated(&mut out, "`", code.len());
            assert(out@ =~= fence(code@.len()));
            match label {
                Some(l) => {
                    out.append(l.as_str());
                },
                None => {
                    assert(out@ =~= fence(code@.len()) + Seq::<char>::empty());
                },
            }
            out.append("\n");
            out
        },
        Tag::BulletList(_, _) => String::new(),
        Tag::NumberedList(_, _, _) => String::new(),
        Tag::Item => {
            assert(views(open@).last() == open@.last()@);
            match &open[open.len() - 1] {
                Tag::NumberedList(_, _, _) => String::from_str("+ "),
                _ => String::from_str("- "),
            }
        },
        Tag::Emphasis => String::from_str("#emph["),
        Tag::Strong => String::from_str("#strong["),
        Tag::Link(_, url) => {
            let mut out = String::from_str("#link(\"");
            out.append(url.as_str());
            out.append("\")[");
            out
        },
        Tag::Quote(ty, quotes, attribution) => {
            let mut out = String::from_str("#quote(");
            match ty {
                QuoteType::Block => out.append("block: true,"),
                QuoteType::Inline => out.append("block: false,"),
            }
            out.append(" ");
            match quotes {
                QuoteQuotes::DoNotWrapInDoubleQuotes => out.append("quotes: false,"),
                QuoteQuotes::WrapInDoubleQuotes => out.append("quotes: true,"),
                QuoteQuotes::Auto => out.append("quotes: auto,"),
            }
            match attribution {
                Some(a) => {
                    out.append(" attribution: [");
                    out.append(a.as_str());
                    out.append("])[");
                },
                None => {
                    out.append(")[");
                },
            }
            out
        },
        Tag::Table(alignment) => {
            let names = alignment_names(alignment);
            let mut out = String::from_str("#table(align: [");
            push_joined(&mut out, &names, ", ");
            out.append("])[\n");
            out
        },
        Tag::TableRow => String::from_str("#row[\n"),
        Tag::TableHead => String::from_str("#row[\n"),
        Tag::TableCell => String::from_str("#cell["),
        Tag::Strikethrough => unreached(),
    }
}

fn render_end(tag: &Tag, open: &VecDeque<Tag>, code: &VecDeque<()>) -> (out: String)
    requires
        can_end(tag@, state_of(open@, code@)),
    ensures
        out@ == end_markup(tag@, state_of(open@, code@)),
{
    match tag {
        Tag::Paragraph => String::from_str("]\n"),
        Tag::Heading(_, _, _) => String::from_str("\n"),
        Tag::Item => String::from_str("\n"),
        Tag::Emphasis => String::from_str("]"),
        Tag::Strong => String::from_str("]"),
        Tag::BulletList(_, _) => String::new(),
        Tag::NumberedList(_, _, _) => String::new(),
        Tag::CodeBlock(_, _) => {
            let depth = if code.len() > 0 {
                code.len() - 1
            } else {
                0
            };
            let mut out = String::new();
            proof {
                reveal_strlit("`");
            }
            push_repeated(&mut out, "`", 6);
            push_repeated(&mut out, "`", depth);
            assert(out@ =~= fence(depth as nat));
            out.append("\n");
            out
        },
        Tag::Link(_, _) => String::from_str("]"),
        Tag::Show(_, _, _, _) => String::from_str("\n"),
        Tag::Quote(ty, _, _) => match ty {
            QuoteType::Inline => String::from_str("]"),
            QuoteType::Block => String::from_str("]\n"),
        },
        Tag::Table(_) => String::from_str("]\n"),
        Tag::TableHead => String::from_str("\n]\n"),
        Tag::TableRow => String::from_str("\n]\n"),
        Tag::TableCell => String::from_str("]"),
        Tag::Strikethrough => unreached(),
    }
}

fn line_arguments(
    start: &Option<(String, String)>,
    end: &Option<(String, String)>,
    length: &Option<String>,
    angle: &Option<String>,
    stroke: &Option<String>,
) -> (parts: Vec<String>)
    ensures
        list_chars(parts@) == line_parts(
            crate::text::opt_pair_chars(*start),
            crate::text::opt_pair_chars(*end),
            crate::text::opt_chars(*length),
            crate::text::opt_chars(*angle),
            crate::text::opt_chars(*stroke),
        ),
{
    let mut parts: Vec<String> = Vec::new();
    assert(list_chars(parts@) =~= Seq::<Seq<char>>::empty());
    if let Some(p) = start {
        let mut part = String::from_str("start: (");
        part.append(p.0.as_str());
        part.append(", ");
        part.append(p.1.as_str());
        part.append(")");
        let ghost before = parts@;
        parts.push(part);
        assert(list_chars(parts@) =~= list_chars(before) + seq![part@]);
    }
    if let Some(p) = end {
        let mut part = String::from_str("end: (");
        part.append(p.0.as_str());
        part.append(", ");
        part.append(p.1.as_str());
        part.append(")");
        let ghost before = parts@;
        parts.push(part);
        assert(list_chars(parts@) =~= list_chars(before) + seq![part@]);
    }
    if let Some(l) = length {
        let mut part = String::from_str("length: ");
        part.append(l.as_str());
        let ghost before = parts@;
        parts.push(part);
        assert(list_chars(parts@) =~= list_chars(before) + seq![part@]);
    }
    if let Some(a) = angle {
        let mut part = String::from_str("angle: ");
        part.append(a.as_str());
        let ghost before = parts@;
        parts.push(part);
        assert(list_chars(parts@) =~= list_chars(before) + seq![part@]);
    }
    if let Some(k) = stroke {
        let mut part = String::from_str("stroke: ");
        part.append(k.as_str());
        let ghost before = parts@;
        parts.push(part);
        assert(list_chars(parts@) =~= list_chars(before) + seq![part@]);
    }
    assert(list_chars(parts@) =~= line_parts(
        crate::text::opt_pair_chars(*start),
        crate::text::opt_pair_chars(*end),
        crate::text::opt_chars(*length),
        crate::text::opt_chars(*angle),
        crate::text::opt_chars(*stroke),
    ));
    parts
}

fn render_leaf(event: &Event, open: &VecDeque<Tag>, code: &VecDeque<()>) -> (out: String)
    requires
        !(event is Start),
        !(event is End),
    ensures
        out@ == event_markup(event@, state_of(open@, code@)),
{
    match event {
        Event::Start(_) => unreached(),
        Event::End(_) => unreached(),
        Event::Raw(t) => t.clone(),
        Event::Text(t) => if code.len() == 0 {
            typst_escape(t.as_str())
        } else {
            t.clone()
        },
        Event::Code(t) => if has_backtick(t.as_str()) {
            let mut out = String::from_str("#raw(\"");
            let inner = raw_escape(t.as_str());
            out.append(inner.as_str());
            out.append("\")");
            out
        } else {
            let mut out = String::from_str("`");
            out.append(t.as_str());
            out.append("`");
            out
        },
        Event::Linebreak => String::from_str("#linebreak()\n"),
        Event::Parbreak => String::from_str("#parbreak()\n"),
        Event::PageBreak => String::from_str("#pagebreak()\n"),
        Event::Line(start, end, length, angle, stroke) => {
            let parts = line_arguments(start, end, length, angle, stroke);
            let mut out = String::from_str("#line(");
            push_joined(&mut out, &parts, ", ");
            out.append(")\n");
            out
        },
        Event::Let(lhs, rhs) => {
            let mut out = String::from_str("#let ");
            out.append(lhs.as_str());
            out.append(" = ");
            out.append(rhs.as_str());
            out.append("\n");
            out
        },
        Event::FunctionCall(target, name, args) => {
            let mut out = String::from_str("#");
            if let Some(v) = target {
                out.append(v.as_str());
                out.append(".");
            }
            out.append(name.as_str());
            out.append("(");
            push_joined(&mut out, args, ", ");
            out.append(")\n");
            out
        },
        Event::DocumentFunctionCall(args) => {
            let mut out = String::from_str("#document(");
            push_joined(&mut out, args, ", ");
            out.append(")\n");
            out
        },
        Event::SetRule(element, key, value) => {
            let mut out = String::from_str("#set ");
            out.append(element.as_str());
            out.append("(");
            out.append(key.as_str());
            out.append(": ");
            out.append(value.as_str());
            out.append(")\n");
            out
        },
        Event::DocumentSet(key, value) => {
            let mut out = String::from_str("#set document(");
            out.append(key.as_str());
            out.append(": ");
            out.append(value.as_str());
            out.append(")\n");
            out
        },
    }
}

/// Renders Typst events as Typst markup, one piece of markup for each event.
///
/// A piece may hold several lines.
pub struct TypstMarkup<T> {
    tag_queue: VecDeque<Tag>,
    codeblock_queue: VecDeque<()>,
    iter: T,
}

impl<T: EventStream<Item = Event>> TypstMarkup<T> {
    /// A renderer of the events of `iter`, which must be renderable: every end
    /// closes the innermost open tag, a list item stands in a list, a show rule
    /// holds the data of its type, a heading has a level of 1 at least, and there
    /// is no strikethrough.
    pub fn new(iter: T) -> (r: Self)
        requires
            iter.wf(),
            renderable(iter.remaining(), MarkupState::initial()),
        ensures
            r.wf(),
            r.remaining() == rendered(iter.remaining(), MarkupState::initial()),
    {
        let r = TypstMarkup {
            tag_queue: VecDeque::new(),
            codeblock_queue: VecDeque::new(),
            iter,
        };
        assert(views(r.tag_queue@) =~= Seq::<TagView>::empty());
        r
    }
}

impl<T: EventStream<Item = Event>> EventStream for TypstMarkup<T> {
    type Item = String;

    closed spec fn wf(&self) -> bool {
        self.iter.wf() && renderable(
            self.iter.remaining(),
            state_of(self.tag_queue@, self.codeblock_queue@),
        )
    }

    closed spec fn remaining(&self) -> Seq<Seq<char>> {
        rendered(self.iter.remaining(), state_of(self.tag_queue@, self.codeblock_queue@))
    }

    fn next(&mut self) -> (r: Option<String>) {
        let ghost events = self.iter.remaining();
        let ghost st = state_of(self.tag_queue@, self.codeblock_queue@);
        match self.iter.next() {
            None => None,
            Some(Event::Start(tag)) => {
                let out = render_start(&tag, &self.tag_queue, &self.codeblock_queue);
                if let Tag::CodeBlock(_, _) = &tag {
                    self.codeblock_queue.push_back(());
                }
                proof {
                    lemma_views_push(self.tag_queue@, tag);
                }
                self.tag_queue.push_back(tag);
                proof {
                    assert(state_of(self.tag_queue@, self.codeblock_queue@) =~= next_state(
                        events[0],
                        st,
                    ));
                    assert(self.remaining() =~= rendered(events, st).drop_first());
                }
                Some(out)
            },
            Some(Event::End(tag)) => {
                let out = render_end(&tag, &self.tag_queue, &self.codeblock_queue);
                if let Tag::CodeBlock(_, _) = &tag {
                    let _ = self.codeblock_queue.pop_back();
                }
                let _ = self.tag_queue.pop_back();
                proof {
                    assert(views(self.tag_queue@) =~= st.open.drop_last());
                    assert(state_of(self.tag_queue@, self.codeblock_queue@) =~= next_state(
                        events[0],
                        st,
                    ));
                    assert(self.remaining() =~= rendered(events, st).drop_first());
                }
                Some(out)
            },
            Some(event) => {
                let out = render_leaf(&event, &self.tag_queue, &self.codeblock_queue);
                proof {
                    assert(st == next_state(events[0], st));
                    assert(self.remaining() =~= rendered(events, st).drop_first());
                }
                Some(out)
            },
        }
    }
}

/// All the pieces of `parts`, one after the other.
pub open spec fn concat(parts: Seq<Seq<char>>) -> Seq<char>
    decreases parts.len(),
{
    if parts.len() == 0 {
        Seq::empty()
    } else {
        concat(parts.drop_last()) + parts.last()
    }
}

/// Renders the events of `iter` and stores the whole markup in `s`, in place of
/// what `s` held.
pub fn push_markup<T: EventStream<Item = Event>>(s: &mut String, iter: T)
    requires
        iter.wf(),
        renderable(iter.remaining(), MarkupState::initial()),
    ensures
        final(s)@ == concat(rendered(iter.remaining(), MarkupState::initial())),
{
    let pieces = collect(TypstMarkup::new(iter));
    let mut out = String::new();
    let mut i: usize = 0;
    while i < pieces.len()
        invariant
            i <= pieces.len(),
            out@ == concat(views(pieces@).take(i as int)),
        decreases pieces.len() - i,
    {
        proof {
            let next = views(pieces@).take(i + 1);
            assert(next.drop_last() =~= views(pieces@).take(i as int));
            assert(next.last() == pieces@[i as int]@);
        }
        out.append(pieces[i].as_str());
        i = i + 1;
    }
    assert(views(pieces@).take(pieces.len() as int) =~= views(pieces@));
    *s = out;
}

fn same_alignment(a: &Vec<TableCellAlignment>, b: &Vec<TableCellAlignment>) -> (r: bool)
    ensures
        r == (a@ == b@),
{
    if a.len() != b.len() {
        return false;
    }
    let mut i: usize = 0;
    while i < a.len()
        invariant
            i <= a.len(),
            a.len() == b.len(),
            forall|j: int| 0 <= j < i ==> a@[j] == b@[j],
        decreases a.len() - i,
    {
        if a[i] != b[i] {
            return false;
        }
        i = i + 1;
    }
    assert(a@ =~= b@);
    true
}

/// Whether two tags are equal.
pub fn same_tag(a: &Tag, b: &Tag) -> (r: bool)
    ensures
        r == (a@ == b@),
{
    match (a, b) {
        (Tag::Paragraph, Tag::Paragraph) => true,
        (Tag::Show(ty1, sel1, set1, f1), Tag::Show(ty2, sel2, set2, f2)) => {
            let sets = match (set1, set2) {
                (Some(x), Some(y)) => same_string(&x.0, &y.0) && same_string(&x.1, &y.1)
                    && same_string(&x.2, &y.2),
                (None, None) => true,
                _ => false,
            };
            *ty1 == *ty2 && same_string(sel1, sel2) && sets && same_text(f1, f2)
        },
        (Tag::Heading(l1, t1, b1), Tag::Heading(l2, t2, b2)) => *l1 == *l2 && *t1 == *t2 && *b1
            == *b2,
        (Tag::CodeBlock(f1, d1), Tag::CodeBlock(f2, d2)) => same_text(f1, f2) && *d1 == *d2,
        (Tag::BulletList(m1, t1), Tag::BulletList(m2, t2)) => same_text(m1, m2) && *t1 == *t2,
        (Tag::NumberedList(n1, p1, t1), Tag::NumberedList(n2, p2, t2)) => {
            let patterns = match (p1, p2) {
                (Some(x), Some(y)) => same_string(&x.0, &y.0),
                (None, None) => true,
                _ => false,
            };
            *n1 == *n2 && patterns && *t1 == *t2
        },
        (Tag::Item, Tag::Item) => true,
        (Tag::Quote(t1, q1, a1), Tag::Quote(t2, q2, a2)) => *t1 == *t2 && *q1 == *q2
            && same_text(a1, a2),
        (Tag::Emphasis, Tag::Emphasis) => true,
        (Tag::Strong, Tag::Strong) => true,
        (Tag::Strikethrough, Tag::Strikethrough) => true,
        (Tag::Link(t1, u1), Tag::Link(t2, u2)) => *t1 == *t2 && same_string(u1, u2),
        (Tag::Table(a1), Tag::Table(a2)) => same_alignment(a1, a2),
        (Tag::TableHead, Tag::TableHead) => true,
        (Tag::TableRow, Tag::TableRow) => true,
        (Tag::TableCell, Tag::TableCell) => true,
        _ => false,
    }
}

/// Whether the event can be rendered, where `open` are the tags that are open,
/// the innermost last: see [`can_render`].
fn renders(event: &Event, open: &Vec<&Tag>) -> (r: bool)
    ensures
        forall|depth: nat|
            r == #[trigger] can_render(
                event@,
                MarkupState { open: views(open@), code_depth: depth },
            ),
{
    let r = match event {
        Event::Start(tag) => match tag {
            Tag::Show(ShowType::ShowSet, _, set, _) => set.is_some(),
            Tag::Show(ShowType::Function, _, _, func) => func.is_some(),
            Tag::Heading(level, _, _) => *level >= 1,
            Tag::Item => if open.len() > 0 {
                match open[open.len() - 1] {
                    Tag::BulletList(_, _) => true,
                    Tag::NumberedList(_, _, _) => true,
                    _ => false,
                }
            } else {
                false
            },
            Tag::Strikethrough => false,
            _ => true,
        },
        Event::End(tag) => match tag {
            Tag::Strikethrough => false,
            _ => open.len() > 0 && same_tag(open[open.len() - 1], tag),
        },
        _ => true,
    };
    proof {
        if open.len() > 0 {
            assert(views(open@).last() == open@.last()@);
        }
    }
    r
}

/// How many of the events can be rendered from the first on: the place of the
/// first event that cannot be rendered, or the number of the events where all of
/// them can be. An event can be rendered where it is an end that closes the
/// innermost open tag, which is equal to it; a list item that stands directly in a
/// list; a show rule that holds the data of its type; a heading with a level of 1
/// at least; or anything else but a strikethrough.
pub fn renderable_prefix(events: &Vec<Event>) -> (n: usize)
    ensures
        n <= events.len(),
        renderable(views(events@).take(n as int), MarkupState::initial()),
        n < events.len() ==> !can_render(
            events@[n as int]@,
            state_after(views(events@).take(n as int), MarkupState::initial()),
        ),
        (n == events.len()) == renderable(views(events@), MarkupState::initial()),
{
    let mut open: Vec<&Tag> = Vec::new();
    let ghost mut depth: nat = 0;
    let ghost all = views(events@);
    let mut i: usize = 0;
    assert(views(open@) =~= Seq::<TagView>::empty());
    assert(all.skip(0) =~= all);
    assert(all.take(0) =~= Seq::<EventView>::empty());
    while i < events.len()
        invariant
            i <= events.len(),
            all == views(events@),
            renderable(all, MarkupState::initial()) == renderable(
                all.skip(i as int),
                MarkupState { open: views(open@), code_depth: depth },
            ),
            renderable(all.take(i as int), MarkupState::initial()),
            state_after(all.take(i as int), MarkupState::initial()) == (MarkupState {
                open: views(open@),
                code_depth: depth,
            }),
        decreases events.len() - i,
    {
        let ghost rest = all.skip(i as int);
        let ghost st = MarkupState { open: views(open@), code_depth: depth };
        proof {
            assert(rest[0] == events@[i as int]@);
            assert(rest.drop_first() =~= all.skip(i + 1));
            assert(all.take(i + 1) =~= all.take(i as int).push(rest[0]));
            lemma_run_extended(all.take(i as int), rest[0], MarkupState::initial());
        }
        if !renders(&events[i], &open) {
            assert(!can_render(rest[0], st));
            return i;
        }
        assert(can_render(rest[0], st));
        match &events[i] {
            Event::Start(tag) => {
                proof {
                    lemma_views_push(open@, tag);
                }
                open.push(tag);
            },
            Event::End(_) => {
                let _ = open.pop();
                assert(views(open@) =~= st.open.drop_last());
            },
            _ => {},
        }
        proof {
            depth = next_state(rest[0], st).code_depth;
            assert(MarkupState { open: views(open@), code_depth: depth } == next_state(
                rest[0],
                st,
            ));
        }
        i = i + 1;
    }
    assert(all.take(events.len() as int) =~= all);
    i
}

/// Whether a list of events can be rendered from the first to the last: every
/// end closes the innermost open tag, which is equal to it; a list item stands
/// directly in a list; a show rule holds the data of its type; a heading has a
/// level of 1 at least; and there is no strikethrough.
pub fn renderable_events(events: &Vec<Event>) -> (r: bool)
    ensures
        r == renderable(views(events@), MarkupState::initial()),
{
    renderable_prefix(events) == events.len()
}

} // verus!
