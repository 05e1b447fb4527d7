//! What holds of the markup that is rendered.
use crate::typst::markup::{
    can_render, end_markup, escaped, escaped_char, fence, is_special, next_state, renderable,
    start_markup, MarkupState,
};
use crate::typst::{CodeBlockDisplay, EventView, TagView};
use crate::text::repeated;
use vstd::prelude::*;

verus! {

/// Escaped text read back: a space, a backslash and an underscore stand for an
/// underscore, the space being the one that escaping puts before it; a backslash
/// before a special character stands for that character; and every other
/// character stands for itself.
pub open spec fn unescaped(s: Seq<char>) -> Seq<char>
    decreases s.len(),
{
    if s.len() == 0 {
        Seq::empty()
    } else if s.len() >= 3 && s[0] == ' ' && s[1] == '\\' && s[2] == '_' {
        seq!['_'] + unescaped(s.skip(3))
    } else if s.len() >= 2 && s[0] == '\\' && is_special(s[1]) {
        seq![s[1]] + unescaped(s.skip(2))
    } else {
        seq![s[0]] + unescaped(s.drop_first())
    }
}

/// Escaped text starts with the escaped form of the first character.
pub proof fn lemma_escaped_front(s: Seq<char>)
    requires
        s.len() > 0,
    ensures
        escaped(s) == escaped_char(s[0]) + escaped(s.drop_first()),
    decreases s.len(),
{
    if s.len() == 1 {
        assert(s.drop_last() =~= Seq::<char>::empty());
        assert(s.drop_first() =~= Seq::<char>::empty());
        assert(escaped(s) =~= escaped_char(s[0]) + escaped(s.drop_first()));
    } else {
        lemma_escaped_front(s.drop_last());
        assert(s.drop_last().drop_first() =~= s.drop_first().drop_last());
        assert(s.drop_last()[0] == s[0]);
        assert(s.drop_first().last() == s.last());
        assert(escaped(s) =~= escaped_char(s[0]) + escaped(s.drop_first()));
    }
}

/// Escaped text never starts with a bare special character, nor with a backslash
/// and an underscore: an escaped underscore has its space in front.
pub proof fn lemma_escaped_head(s: Seq<char>)
    ensures
        escaped(s).len() > 0 ==> !is_special(escaped(s)[0]),
        escaped(s).len() >= 2 && escaped(s)[0] == '\\' ==> escaped(s)[1] != '_',
    decreases s.len(),
{
    if s.len() > 0 {
        lemma_escaped_front(s);
        lemma_escaped_head(s.drop_first());
        let c = s[0];
        let rest = escaped(s.drop_first());
        if c != '_' && !is_special(c) && escaped(s).len() >= 2 {
            assert(escaped(s)[1] == rest[0]);
        }
    }
}

/// Reading escaped text back gives the text that was escaped, whatever its
/// characters are.
pub proof fn lemma_escape_round_trip(s: Seq<char>)
    ensures
        unescaped(escaped(s)) == s,
    decreases s.len(),
{
    if s.len() > 0 {
        let c = s[0];
        let rest = escaped(s.drop_first());
        let u = escaped(s);
        lemma_escaped_front(s);
        lemma_escaped_head(s.drop_first());
        lemma_escape_round_trip(s.drop_first());
        assert(seq![c] + s.drop_first() =~= s);
        if c == '_' {
            assert(u.skip(3) =~= rest);
            assert(unescaped(u) =~= seq!['_'] + unescaped(rest));
        } else if is_special(c) {
            assert(u.skip(2) =~= rest);
            assert(unescaped(u) =~= seq![c] + unescaped(rest));
        } else {
            assert(u.drop_first() =~= rest);
            if u.len() >= 2 {
                assert(u[1] == rest[0]);
            }
            if u.len() >= 3 {
                assert(u[2] == rest[1]);
            }
            assert(unescaped(u) =~= seq![c] + unescaped(rest));
        }
    }
}

/// Each character that escaping treats comes back as itself, alone and in any
/// text.
pub proof fn lemma_escape_round_trip_of_special(c: char)
    requires
        is_special(c),
    ensures
        unescaped(escaped(seq![c])) == seq![c],
{
    lemma_escape_round_trip(seq![c]);
}

/// The state after all of `events` were rendered in turn, starting in state `st`.
pub open spec fn state_after(events: Seq<EventView>, st: MarkupState) -> MarkupState
    decreases events.len(),
{
    if events.len() == 0 {
        st
    } else {
        state_after(events.drop_first(), next_state(events[0], st))
    }
}

/// Events with one more event behind them can be rendered where the events can
/// be, and the one more event in the state that they leave; the state after all
/// of them is the state after that event.
pub proof fn lemma_run_extended(events: Seq<EventView>, last: EventView, st: MarkupState)
    ensures
        renderable(events.push(last), st) == (renderable(events, st) && can_render(
            last,
            state_after(events, st),
        )),
        state_after(events.push(last), st) == next_state(last, state_after(events, st)),
    decreases events.len(),
{
    reveal_with_fuel(renderable, 2);
    reveal_with_fuel(state_after, 2);
    if events.len() == 0 {
        assert(events.push(last).drop_first() =~= Seq::<EventView>::empty());
    } else {
        assert(events.push(last).drop_first() =~= events.drop_first().push(last));
        lemma_run_extended(events.drop_first(), last, next_state(events[0], st));
    }
}

/// How many of the tags are code blocks.
pub open spec fn code_blocks(open: Seq<TagView>) -> nat
    decreases open.len(),
{
    if open.len() == 0 {
        0
    } else {
        code_blocks(open.drop_last()) + if open.last() is CodeBlock {
            1nat
        } else {
            0nat
        }
    }
}

/// Whether the count of open code blocks is that of the code blocks among the
/// open tags.
pub open spec fn consistent(st: MarkupState) -> bool {
    st.code_depth == code_blocks(st.open)
}

/// Rendering an event that can be rendered keeps the state consistent.
pub proof fn lemma_step_consistent(event: EventView, st: MarkupState)
    requires
        consistent(st),
        can_render(event, st),
    ensures
        consistent(next_state(event, st)),
{
    match event {
        EventView::Start(tag) => {
            assert(st.open.push(tag).drop_last() =~= st.open);
        },
        EventView::End(tag) => {},
        _ => {},
    }
}

/// Rendering events that can be rendered keeps the state consistent.
pub proof fn lemma_run_consistent(events: Seq<EventView>, st: MarkupState)
    requires
        consistent(st),
        renderable(events, st),
    ensures
        consistent(state_after(events, st)),
    decreases events.len(),
{
    if events.len() > 0 {
        lemma_step_consistent(events[0], st);
        lemma_run_consistent(events.drop_first(), next_state(events[0], st));
    }
}

/// A code block that is opened where `k` code blocks are open has six and `k`
/// backticks in its opening fence and as many in its closing fence, whatever is
/// rendered inside it.
///
/// `st` is the state in which the block is opened, and `inner` are the events
/// inside it: they leave the open tags as they found them, so that the end of the
/// block is what comes next.
pub proof fn lemma_code_fences(
    label: Option<Seq<char>>,
    display: CodeBlockDisplay,
    inner: Seq<EventView>,
    st: MarkupState,
)
    requires
        consistent(st),
        renderable(inner, next_state(EventView::Start(TagView::CodeBlock(label, display)), st)),
        state_after(
            inner,
            next_state(EventView::Start(TagView::CodeBlock(label, display)), st),
        ).open == st.open.push(TagView::CodeBlock(label, display)),
    ensures
        start_markup(TagView::CodeBlock(label, display), st) == repeated(
            '`',
            6 + st.code_depth,
        ) + (match label {
            Some(l) => l,
            None => Seq::empty(),
        }) + "\n"@,
        end_markup(
            TagView::CodeBlock(label, display),
            state_after(
                inner,
                next_state(EventView::Start(TagView::CodeBlock(label, display)), st),
            ),
        ) == repeated('`', 6 + st.code_depth) + "\n"@,
        can_render(
            EventView::End(TagView::CodeBlock(label, display)),
            state_after(
                inner,
                next_state(EventView::Start(TagView::CodeBlock(label, display)), st),
            ),
        ),
{
    let tag = TagView::CodeBlock(label, display);
    let inside = next_state(EventView::Start(tag), st);
    lemma_step_consistent(EventView::Start(tag), st);
    lemma_run_consistent(inner, inside);
    let at_end = state_after(inner, inside);
    assert(st.open.push(tag).drop_last() =~= st.open);
    assert(at_end.code_depth == st.code_depth + 1);
}

} // verus!
