//! Balance: every start has its end, and the elements are properly nested.
use crate::mdbook::parts::{
    first_mark, is_part_mark, last_mark, lemma_first_mark, lemma_last_mark, normalized, tag_of,
    untitled_end, untitled_start,
};
use crate::mdbook::{opt_source, ChapterSource, Event, EventView, Tag, TagView};
use crate::stream::{lemma_views_push, views};
use crate::text::{same_string, same_text};
use vstd::prelude::*;

verus! {

/// The stack that is left where the events are checked in turn, starting with
/// the stack `stack`: every start pushes its tag, and every end pops a tag, which
/// must be equal to its own. `None` where an end finds another tag, or none.
pub open spec fn checked(events: Seq<EventView>, stack: Seq<TagView>) -> Option<Seq<TagView>>
    decreases events.len(),
{
    if events.len() == 0 {
        Some(stack)
    } else {
        match events[0] {
            EventView::Start(tag) => checked(events.drop_first(), stack.push(tag)),
            EventView::End(tag) => if stack.len() > 0 && stack.last() == tag {
                checked(events.drop_first(), stack.drop_last())
            } else {
                None
            },
            _ => checked(events.drop_first(), stack),
        }
    }
}

/// Whether every start has its end and the elements are properly nested: checked
/// with an empty stack, the events leave an empty stack.
pub open spec fn balanced(events: Seq<EventView>) -> bool {
    checked(events, Seq::empty()) == Some(Seq::<TagView>::empty())
}

fn same_number(a: &Option<u64>, b: &Option<u64>) -> (r: bool)
    ensures
        r == (*a == *b),
{
    match (a, b) {
        (Some(x), Some(y)) => *x == *y,
        (None, None) => true,
        _ => false,
    }
}

fn same_source(a: &Option<ChapterSource>, b: &Option<ChapterSource>) -> (r: bool)
    ensures
        r == (opt_source(*a) == opt_source(*b)),
{
    match (a, b) {
        (Some(ChapterSource::Url(x)), Some(ChapterSource::Url(y))) => same_string(x, y),
        (Some(ChapterSource::Path(x)), Some(ChapterSource::Path(y))) => same_string(x, y),
        (None, None) => true,
        _ => false,
    }
}

/// Whether two tags are equal.
pub fn same_tag(a: &Tag, b: &Tag) -> (r: bool)
    ensures
        r == (a@ == b@),
{
    match (a, b) {
        (Tag::Part(t1, n1), Tag::Part(t2, n2)) => same_text(t1, t2) && same_number(n1, n2),
        (Tag::Chapter(s1, name1, src1, n1), Tag::Chapter(s2, name2, src2, n2)) => *s1 == *s2
            && same_string(name1, name2) && same_source(src1, src2) && same_number(n1, n2),
        (Tag::Content(c1), Tag::Content(c2)) => *c1 == *c2,
        (Tag::AuthorList, Tag::AuthorList) => true,
        _ => false,
    }
}

/// Whether the events are balanced: checked with a stack that every start pushes
/// its tag on and every end pops a tag from, each end finds the tag of its start,
/// and the stack is empty in the end.
pub fn balanced_events(events: &Vec<Event>) -> (r: bool)
    ensures
        r == balanced(views(events@)),
{
    let mut stack: Vec<&Tag> = Vec::new();
    let mut i: usize = 0;
    assert(views(stack@) =~= Seq::<TagView>::empty());
    assert(views(events@).skip(0) =~= views(events@));
    while i < events.len()
        invariant
            i <= events.len(),
            checked(views(events@), Seq::empty()) == checked(
                views(events@).skip(i as int),
                views(stack@),
            ),
        decreases events.len() - i,
    {
        let ghost rest = views(events@).skip(i as int);
        let ghost before = views(stack@);
        proof {
            assert(rest[0] == events@[i as int]@);
            assert(rest.drop_first() =~= views(events@).skip(i + 1));
        }
        match &events[i] {
            Event::Start(tag) => {
                proof {
                    lemma_views_push(stack@, tag);
                }
                stack.push(tag);
            },
            Event::End(tag) => {
                if stack.len() == 0 {
                    return false;
                }
                assert(before.last() == stack@.last()@);
                if !same_tag(stack[stack.len() - 1], tag) {
                    return false;
                }
                let _ = stack.pop();
                assert(views(stack@) =~= before.drop_last());
            },
            _ => {},
        }
        i = i + 1;
    }
    assert(views(events@).skip(events@.len() as int) =~= Seq::<EventView>::empty());
    proof {
        if stack.len() == 0 {
            assert(views(stack@) =~= Seq::<TagView>::empty());
        }
    }
    stack.len() == 0
}

/// Checking one event: a start pushes its tag, an end pops a tag equal to its own,
/// and any other event leaves the stack as it is.
pub proof fn lemma_checked_one(e: EventView, stack: Seq<TagView>)
    ensures
        checked(seq![e], stack) == match e {
            EventView::Start(tag) => Some(stack.push(tag)),
            EventView::End(tag) => if stack.len() > 0 && stack.last() == tag {
                Some(stack.drop_last())
            } else {
                None
            },
            _ => Some(stack),
        },
{
    reveal_with_fuel(checked, 2);
    assert(seq![e].drop_first() =~= Seq::<EventView>::empty());
}

/// Checking two lists of events one after the other is checking the second with
/// the stack that the first leaves.
pub proof fn lemma_checked_add(a: Seq<EventView>, b: Seq<EventView>, stack: Seq<TagView>)
    ensures
        checked(a + b, stack) == match checked(a, stack) {
            Some(m) => checked(b, m),
            None => None,
        },
    decreases a.len(),
{
    if a.len() == 0 {
        assert(a + b =~= b);
    } else {
        assert((a + b)[0] == a[0]);
        assert((a + b).drop_first() =~= a.drop_first() + b);
        match a[0] {
            EventView::Start(tag) => {
                lemma_checked_add(a.drop_first(), b, stack.push(tag));
            },
            EventView::End(tag) => {
                if stack.len() > 0 && stack.last() == tag {
                    lemma_checked_add(a.drop_first(), b, stack.drop_last());
                }
            },
            _ => {
                lemma_checked_add(a.drop_first(), b, stack);
            },
        }
    }
}

/// What is below the stack that a check starts with stays there.
pub proof fn lemma_checked_frame(a: Seq<EventView>, below: Seq<TagView>, stack: Seq<TagView>)
    requires
        checked(a, stack) is Some,
    ensures
        checked(a, below + stack) == Some(below + checked(a, stack)->0),
    decreases a.len(),
{
    if a.len() == 0 {
    } else {
        match a[0] {
            EventView::Start(tag) => {
                assert((below + stack).push(tag) =~= below + stack.push(tag));
                lemma_checked_frame(a.drop_first(), below, stack.push(tag));
            },
            EventView::End(tag) => {
                assert((below + stack).drop_last() =~= below + stack.drop_last());
                assert((below + stack).last() == stack.last());
                lemma_checked_frame(a.drop_first(), below, stack.drop_last());
            },
            _ => {
                lemma_checked_frame(a.drop_first(), below, stack);
            },
        }
    }
}

/// Balanced events leave any stack as they found it.
pub proof fn lemma_balanced_frame(a: Seq<EventView>, stack: Seq<TagView>)
    requires
        balanced(a),
    ensures
        checked(a, stack) == Some(stack),
{
    lemma_checked_frame(a, stack, Seq::empty());
    assert(stack + Seq::<TagView>::empty() =~= stack);
}

/// Events that are neither starts nor ends leave the stack as it is.
pub proof fn lemma_checked_leaves(a: Seq<EventView>, stack: Seq<TagView>)
    requires
        forall|i: int| 0 <= i < a.len() ==> !(#[trigger] a[i] is Start) && !(a[i] is End),
    ensures
        checked(a, stack) == Some(stack),
    decreases a.len(),
{
    if a.len() > 0 {
        assert(!(a[0] is Start) && !(a[0] is End));
        assert forall|i: int| 0 <= i < a.drop_first().len() implies !(
        #[trigger] a.drop_first()[i] is Start) && !(a.drop_first()[i] is End) by {
            assert(a.drop_first()[i] == a[i + 1]);
        }
        lemma_checked_leaves(a.drop_first(), stack);
    }
}

/// Whether none of the tags is a part.
pub open spec fn no_part(stack: Seq<TagView>) -> bool {
    forall|i: int| 0 <= i < stack.len() ==> !(#[trigger] stack[i] is Part)
}

/// Without the start of a part among the events, no part comes onto the stack.
pub proof fn lemma_no_part_pushed(a: Seq<EventView>, stack: Seq<TagView>)
    requires
        no_part(stack),
        forall|i: int| 0 <= i < a.len() ==> !is_part_mark(#[trigger] a[i], true),
        checked(a, stack) is Some,
    ensures
        no_part(checked(a, stack)->0),
    decreases a.len(),
{
    if a.len() > 0 {
        assert(!is_part_mark(a[0], true));
        assert forall|i: int| 0 <= i < a.drop_first().len() implies !is_part_mark(
            #[trigger] a.drop_first()[i],
            true,
        ) by {
            assert(a.drop_first()[i] == a[i + 1]);
        }
        match a[0] {
            EventView::Start(tag) => {
                lemma_no_part_pushed(a.drop_first(), stack.push(tag));
            },
            EventView::End(tag) => {
                lemma_no_part_pushed(a.drop_first(), stack.drop_last());
            },
            _ => {
                lemma_no_part_pushed(a.drop_first(), stack);
            },
        }
    }
}

/// Without the end of a part among the events, a part that is on the stack stays
/// where it is.
pub proof fn lemma_part_stays(a: Seq<EventView>, stack: Seq<TagView>, d: int)
    requires
        0 <= d < stack.len(),
        stack[d] is Part,
        forall|i: int| 0 <= i < a.len() ==> !is_part_mark(#[trigger] a[i], false),
        checked(a, stack) is Some,
    ensures
        d < checked(a, stack)->0.len(),
        checked(a, stack)->0[d] == stack[d],
    decreases a.len(),
{
    if a.len() > 0 {
        assert(!is_part_mark(a[0], false));
        assert forall|i: int| 0 <= i < a.drop_first().len() implies !is_part_mark(
            #[trigger] a.drop_first()[i],
            false,
        ) by {
            assert(a.drop_first()[i] == a[i + 1]);
        }
        match a[0] {
            EventView::Start(tag) => {
                lemma_part_stays(a.drop_first(), stack.push(tag), d);
            },
            EventView::End(tag) => {
                lemma_part_stays(a.drop_first(), stack.drop_last(), d);
            },
            _ => {
                lemma_part_stays(a.drop_first(), stack, d);
            },
        }
    }
}

/// Where a check from an empty stack does not fail, the end of a part never comes
/// before every start of a part.
pub proof fn lemma_start_before_end(x: Seq<EventView>)
    requires
        checked(x, Seq::empty()) is Some,
        first_mark(x, false) is Some,
    ensures
        first_mark(x, true) is Some,
        first_mark(x, true)->0 < first_mark(x, false)->0,
{
    lemma_first_mark(x, true);
    lemma_first_mark(x, false);
    let e = first_mark(x, false)->0;
    let before = x.take(e);
    let from = x.skip(e);
    assert(before + from =~= x);
    lemma_checked_add(before, from, Seq::empty());
    let no_start_before = match first_mark(x, true) {
        Some(f) => f > e,
        None => true,
    };
    if no_start_before {
        assert forall|i: int| 0 <= i < before.len() implies !is_part_mark(
            #[trigger] before[i],
            true,
        ) by {
            assert(before[i] == x[i]);
        }
        lemma_no_part_pushed(before, Seq::empty());
        let m = checked(before, Seq::empty())->0;
        assert(from[0] == x[e]);
        if m.len() > 0 {
            assert(!(m[m.len() - 1] is Part));
        }
        assert(checked(from, m) is None);
        assert(false);
    }
}

/// In balanced events, the start of a part never comes after every end of a part.
pub proof fn lemma_end_after_start(x: Seq<EventView>)
    requires
        balanced(x),
        last_mark(x, true) is Some,
    ensures
        last_mark(x, false) is Some,
        last_mark(x, true)->0 < last_mark(x, false)->0,
{
    lemma_last_mark(x, true);
    lemma_last_mark(x, false);
    let ls = last_mark(x, true)->0;
    let before = x.take(ls);
    let at = seq![x[ls]];
    let after = x.skip(ls + 1);
    assert(before + (at + after) =~= x);
    lemma_checked_add(before, at + after, Seq::empty());
    let m = checked(before, Seq::empty())->0;
    lemma_checked_add(at, after, m);
    let no_end_after = match last_mark(x, false) {
        Some(le) => le < ls,
        None => true,
    };
    if no_end_after {
        assert forall|i: int| 0 <= i < after.len() implies !is_part_mark(
            #[trigger] after[i],
            false,
        ) by {
            assert(after[i] == x[i + ls + 1]);
        }
        let pushed = m.push(tag_of(x[ls]));
        lemma_checked_one(x[ls], m);
        lemma_part_stays(after, pushed, m.len() as int);
        assert(false);
    }
}

/// Balanced events stay balanced where their part boundaries are completed.
pub proof fn lemma_balanced_normalized(x: Seq<EventView>)
    requires
        balanced(x),
    ensures
        balanced(normalized(x)),
{
    lemma_first_mark(x, true);
    lemma_first_mark(x, false);
    lemma_last_mark(x, true);
    lemma_last_mark(x, false);
    if first_mark(x, false) is Some {
        lemma_start_before_end(x);
    }
    if last_mark(x, true) is Some {
        lemma_end_after_start(x);
    }
    if first_mark(x, true) is None && first_mark(x, false) is None {
        let open = seq![untitled_start()];
        let close = seq![untitled_end()];
        let part = seq![TagView::Part(None, None)];
        assert(normalized(x) =~= open + (x + close));
        lemma_checked_add(open, x + close, Seq::empty());
        lemma_checked_one(untitled_start(), Seq::empty());
        assert(Seq::<TagView>::empty().push(TagView::Part(None, None)) =~= part);
        lemma_checked_add(x, close, part);
        lemma_balanced_frame(x, part);
        lemma_checked_one(untitled_end(), part);
        assert(part.drop_last() =~= Seq::<TagView>::empty());
    } else {
        assert(normalized(x) == x);
    }
}

/// Whether the events leave the part with the tag `tag` open and nothing else,
/// and no end of a part stands behind the last start of a part.
pub open spec fn leaves_open(x: Seq<EventView>, tag: TagView) -> bool {
    &&& tag is Part
    &&& checked(x, Seq::empty()) == Some(seq![tag])
    &&& last_mark(x, true) is Some
    &&& match last_mark(x, false) {
        Some(le) => le < last_mark(x, true)->0,
        None => true,
    }
}

/// The part that is left open is the one that starts last, and what stands
/// before its start is balanced.
pub proof fn lemma_open_part_is_last(x: Seq<EventView>, tag: TagView)
    requires
        leaves_open(x, tag),
    ensures
        tag_of(x[last_mark(x, true)->0]) == tag,
        balanced(x.take(last_mark(x, true)->0)),
        checked(x.skip(last_mark(x, true)->0), Seq::empty()) == Some(seq![tag]),
{
    lemma_last_mark(x, true);
    lemma_last_mark(x, false);
    let ls = last_mark(x, true)->0;
    let empty = Seq::<TagView>::empty();
    let before = x.take(ls);
    let at = seq![x[ls]];
    let after = x.skip(ls + 1);
    assert(before + (at + after) =~= x);
    assert(at + after =~= x.skip(ls));
    lemma_checked_add(before, at + after, empty);
    let m = checked(before, empty)->0;
    lemma_checked_add(at, after, m);
    let pushed = m.push(tag_of(x[ls]));
    lemma_checked_one(x[ls], m);
    assert forall|i: int| 0 <= i < after.len() implies !is_part_mark(
        #[trigger] after[i],
        false,
    ) by {
        assert(after[i] == x[i + ls + 1]);
    }
    lemma_part_stays(after, pushed, m.len() as int);
    assert(m.len() == 0);
    assert(m =~= empty);
}

/// Where a part is left open and there is no end of a part at all, only one part
/// starts.
pub proof fn lemma_open_part_is_only(x: Seq<EventView>, tag: TagView)
    requires
        leaves_open(x, tag),
        first_mark(x, false) is None,
    ensures
        first_mark(x, true) == last_mark(x, true),
{
    lemma_first_mark(x, true);
    lemma_first_mark(x, false);
    lemma_last_mark(x, true);
    let ls = last_mark(x, true)->0;
    let f = first_mark(x, true)->0;
    let empty = Seq::<TagView>::empty();
    if f < ls {
        // A part that starts before the last one would stay open as well.
        let head = x.take(f);
        let first = seq![x[f]];
        let tail = x.skip(f + 1);
        assert(head + (first + tail) =~= x);
        lemma_checked_add(head, first + tail, empty);
        let h = checked(head, empty)->0;
        lemma_checked_add(first, tail, h);
        lemma_checked_one(x[f], h);
        let mid = x.subrange(f + 1, ls);
        let from = x.skip(ls);
        assert(tail =~= mid + from);
        lemma_checked_add(mid, from, h.push(tag_of(x[f])));
        let after_mid = checked(mid, h.push(tag_of(x[f])))->0;
        assert forall|i: int| 0 <= i < mid.len() implies !is_part_mark(
            #[trigger] mid[i],
            false,
        ) by {
            assert(mid[i] == x[i + f + 1]);
        }
        lemma_part_stays(mid, h.push(tag_of(x[f])), h.len() as int);
        assert forall|i: int| 0 <= i < from.len() implies !is_part_mark(
            #[trigger] from[i],
            false,
        ) by {
            assert(from[i] == x[i + ls]);
        }
        lemma_part_stays(from, after_mid, h.len() as int);
        let at = seq![x[ls]];
        let after = x.skip(ls + 1);
        assert(from =~= at + after);
        lemma_checked_add(at, after, after_mid);
        lemma_checked_one(x[ls], after_mid);
        assert forall|i: int| 0 <= i < after.len() implies !is_part_mark(
            #[trigger] after[i],
            false,
        ) by {
            assert(after[i] == x[i + ls + 1]);
        }
        lemma_part_stays(after, after_mid.push(tag_of(x[ls])), after_mid.len() as int);
        assert(false);
    }
}

/// Where a part is left open, completing the part boundaries puts its end at the
/// back; where the events hold no end of a part and do not begin with the start
/// of one, what stands before the start becomes an untitled part as well.
pub proof fn lemma_open_part_normalized(x: Seq<EventView>, tag: TagView)
    requires
        leaves_open(x, tag),
    ensures
        normalized(x) == if first_mark(x, false) is None && first_mark(x, true) != Some(0int) {
            seq![untitled_start()] + x.take(last_mark(x, true)->0) + seq![untitled_end()]
                + x.skip(last_mark(x, true)->0) + seq![EventView::End(tag)]
        } else {
            x + seq![EventView::End(tag)]
        },
{
    lemma_first_mark(x, true);
    lemma_first_mark(x, false);
    lemma_last_mark(x, true);
    lemma_last_mark(x, false);
    lemma_open_part_is_last(x, tag);
    if first_mark(x, false) is Some {
        lemma_start_before_end(x);
    } else {
        lemma_open_part_is_only(x, tag);
    }
}

/// Events that leave one part open, with no end of a part behind the last start
/// of a part, are balanced once their part boundaries are completed.
pub proof fn lemma_open_part_closed(x: Seq<EventView>, tag: TagView)
    requires
        leaves_open(x, tag),
    ensures
        balanced(normalized(x)),
{
    lemma_open_part_normalized(x, tag);
    lemma_open_part_is_last(x, tag);
    let ls = last_mark(x, true)->0;
    let empty = Seq::<TagView>::empty();
    let close = seq![EventView::End(tag)];
    lemma_checked_one(EventView::End(tag), seq![tag]);
    assert(seq![tag].drop_last() =~= empty);
    if first_mark(x, false) is None && first_mark(x, true) != Some(0int) {
        let open = seq![untitled_start()];
        let end_untitled = seq![untitled_end()];
        let part = seq![TagView::Part(None, None)];
        let before = x.take(ls);
        let rest = x.skip(ls);
        assert(normalized(x) =~= open + (before + (end_untitled + (rest + close))));
        lemma_checked_add(open, before + (end_untitled + (rest + close)), empty);
        lemma_checked_one(untitled_start(), empty);
        assert(empty.push(TagView::Part(None, None)) =~= part);
        lemma_checked_add(before, end_untitled + (rest + close), part);
        lemma_balanced_frame(before, part);
        lemma_checked_add(end_untitled, rest + close, part);
        lemma_checked_one(untitled_end(), part);
        assert(part.drop_last() =~= empty);
        lemma_checked_add(rest, close, empty);
    } else {
        lemma_checked_add(x, close, empty);
    }
}

} // verus!
