//! What holds of the events of a book.
use crate::mdbook::balance::{
    balanced, checked, leaves_open, lemma_balanced_frame, lemma_balanced_normalized,
    lemma_checked_add, lemma_checked_leaves, lemma_checked_one, lemma_open_part_closed,
    lemma_open_part_normalized,
};
use crate::mdbook::book::{BookItem, Chapter, Config};
use crate::mdbook::parser::{
    author_events, book_events, chapter_events, chapter_tag, config_events, content_events,
    item_events, item_list_events, title_after, whole_book_events,
};
use crate::mdbook::parts::{
    is_part_event, is_part_mark, last_mark, lemma_first_mark_at, lemma_last_mark,
    lemma_last_mark_at, lemma_no_mark, tag_of,
};
use crate::mdbook::{ContentType, EventView, TagView};
use vstd::prelude::*;

verus! {

/// Whether an item is a chapter with chapters below it.
pub open spec fn nests(item: BookItem) -> bool {
    match item {
        BookItem::Chapter(ch) => ch.sub_items@.len() > 0,
        _ => false,
    }
}

/// Whether the last part of a list of items gets its end: a chapter with chapters
/// below it that has a part title before it has one behind it as well.
pub open spec fn closes(items: Seq<BookItem>) -> bool {
    forall|i: int, j: int|
        0 <= i < j < items.len() && (#[trigger] items[i]) is PartTitle && nests(
            #[trigger] items[j],
        ) ==> exists|k: int| j < k < items.len() && (#[trigger] items[k]) is PartTitle
}

/// Whether the events of a list of items are balanced: the last part gets its
/// end, here and in the chapters below each chapter.
pub open spec fn well_shaped(items: Seq<BookItem>) -> bool
    decreases items, 1nat,
{
    closes(items) && below_well_shaped(items)
}

/// Whether the chapters below each chapter of the list are well shaped.
pub open spec fn below_well_shaped(items: Seq<BookItem>) -> bool
    decreases items, 0nat,
{
    items.len() == 0 || ((match items[0] {
        BookItem::Chapter(ch) => ch.sub_items@.len() > 0 ==> well_shaped(ch.sub_items@),
        _ => true,
    }) && below_well_shaped(items.drop_first()))
}

/// The title of the part that is open after the items, where `current` is the
/// title of the part that is open before them.
pub open spec fn title_after_all(items: Seq<BookItem>, current: Option<Seq<char>>) -> Option<
    Seq<char>,
>
    decreases items.len(),
{
    if items.len() == 0 {
        current
    } else {
        title_after_all(items.drop_first(), title_after(items[0], current))
    }
}

/// The stack that holds the part that is open, if there is one.
pub open spec fn open_part(current: Option<Seq<char>>) -> Seq<TagView> {
    match current {
        Some(c) => seq![TagView::Part(Some(c), None)],
        None => Seq::empty(),
    }
}

/// The events of two lists of items, one after the other.
pub proof fn lemma_item_list_add(a: Seq<BookItem>, b: Seq<BookItem>, current: Option<Seq<char>>)
    ensures
        item_list_events(a + b, current) == item_list_events(a, current) + item_list_events(
            b,
            title_after_all(a, current),
        ),
        title_after_all(a + b, current) == title_after_all(b, title_after_all(a, current)),
    decreases a.len(),
{
    if a.len() == 0 {
        assert(a + b =~= b);
        assert(item_list_events(a, current) + item_list_events(b, current) =~= item_list_events(
            b,
            current,
        ));
    } else {
        assert((a + b)[0] == a[0]);
        assert((a + b).drop_first() =~= a.drop_first() + b);
        lemma_item_list_add(a.drop_first(), b, title_after(a[0], current));
        assert(item_list_events(a + b, current) =~= item_list_events(a, current)
            + item_list_events(b, title_after_all(a, current)));
    }
}

/// The events of a chapter without chapters below it hold no part boundary.
pub proof fn lemma_flat_chapter_no_marks(ch: Chapter)
    requires
        ch.sub_items@.len() == 0,
    ensures
        forall|i: int|
            0 <= i < chapter_events(ch).len() ==> !is_part_event(#[trigger] chapter_events(ch)[i]),
{
    let x = chapter_events(ch);
    let content = content_events(ch.content@);
    assert forall|i: int| 0 <= i < x.len() implies !is_part_event(#[trigger] x[i]) by {
        if ch.content@.len() > 0 {
            if 2 <= i < 2 + content.len() {
                assert(x[i] == content[i - 2]);
            }
        }
    }
}

/// Items without part titles and without chapters below a chapter have no part
/// boundary among their events, and leave the open part as it is.
pub proof fn lemma_flat_items_no_marks(items: Seq<BookItem>, current: Option<Seq<char>>)
    requires
        forall|i: int| 0 <= i < items.len() ==> !((#[trigger] items[i]) is PartTitle) && !nests(
            items[i],
        ),
    ensures
        forall|i: int|
            0 <= i < item_list_events(items, current).len() ==> !is_part_event(
                #[trigger] item_list_events(items, current)[i],
            ),
        title_after_all(items, current) == current,
    decreases items.len(),
{
    if items.len() > 0 {
        let rest = items.drop_first();
        assert(!(items[0] is PartTitle) && !nests(items[0]));
        assert forall|i: int| 0 <= i < rest.len() implies !((#[trigger] rest[i]) is PartTitle)
            && !nests(rest[i]) by {
            assert(rest[i] == items[i + 1]);
        }
        lemma_flat_items_no_marks(rest, current);
        let head = item_events(items[0], current);
        let tail = item_list_events(rest, current);
        match items[0] {
            BookItem::Chapter(ch) => {
                lemma_flat_chapter_no_marks(ch);
            },
            _ => {},
        }
        let x = item_list_events(items, current);
        assert forall|i: int| 0 <= i < x.len() implies !is_part_event(#[trigger] x[i]) by {
            if i < head.len() {
                assert(x[i] == head[i]);
            } else {
                assert(x[i] == tail[i - head.len()]);
            }
        }
    }
}

/// The events of a chapter are balanced where those of the chapters below it are.
pub proof fn lemma_chapter_balanced(ch: Chapter)
    requires
        ch.sub_items@.len() > 0 ==> balanced(book_events(ch.sub_items@)),
    ensures
        balanced(chapter_events(ch)),
{
    let empty = Seq::<TagView>::empty();
    let tag = chapter_tag(ch);
    let content_tag = TagView::Content(ContentType::Markdown);
    let open = seq![EventView::Start(tag)];
    let close = seq![EventView::End(tag)];
    let content = if ch.content@.len() > 0 {
        seq![EventView::Start(content_tag)] + content_events(ch.content@) + seq![
            EventView::End(content_tag),
        ]
    } else {
        Seq::empty()
    };
    let below = if ch.sub_items@.len() > 0 {
        book_events(ch.sub_items@)
    } else {
        Seq::empty()
    };
    let inside = seq![tag];
    assert(chapter_events(ch) =~= open + (content + (below + close)));
    lemma_checked_add(open, content + (below + close), empty);
    lemma_checked_one(EventView::Start(tag), empty);
    assert(empty.push(tag) =~= inside);
    lemma_checked_add(content, below + close, inside);
    assert(checked(content, inside) == Some(inside)) by {
        if ch.content@.len() > 0 {
            let leaves = content_events(ch.content@);
            let start = seq![EventView::Start(content_tag)];
            let end = seq![EventView::End(content_tag)];
            assert(content =~= start + (leaves + end));
            lemma_checked_add(start, leaves + end, inside);
            lemma_checked_one(EventView::Start(content_tag), inside);
            lemma_checked_add(leaves, end, inside.push(content_tag));
            lemma_checked_leaves(leaves, inside.push(content_tag));
            lemma_checked_one(EventView::End(content_tag), inside.push(content_tag));
            assert(inside.push(content_tag).drop_last() =~= inside);
        }
    }
    lemma_checked_add(below, close, inside);
    assert(checked(below, inside) == Some(inside)) by {
        if ch.sub_items@.len() > 0 {
            lemma_balanced_frame(below, inside);
        }
    }
    lemma_checked_one(EventView::End(tag), inside);
    assert(inside.drop_last() =~= empty);
}

/// Checking the events of a list of items whose chapters are well shaped, with
/// the open part on the stack, leaves the part on the stack that is open after
/// them.
pub proof fn lemma_items_checked(items: Seq<BookItem>, current: Option<Seq<char>>)
    requires
        below_well_shaped(items),
    ensures
        checked(item_list_events(items, current), open_part(current)) == Some(
            open_part(title_after_all(items, current)),
        ),
    decreases items, 0nat,
{
    if items.len() > 0 {
        let rest = items.drop_first();
        let head = item_events(items[0], current);
        let next = title_after(items[0], current);
        lemma_items_checked(rest, next);
        lemma_checked_add(head, item_list_events(rest, next), open_part(current));
        match items[0] {
            BookItem::Chapter(ch) => {
                if ch.sub_items@.len() > 0 {
                    lemma_book_balanced(ch.sub_items@);
                }
                lemma_chapter_balanced(ch);
                lemma_balanced_frame(head, open_part(current));
            },
            BookItem::Separator => {
                lemma_checked_one(EventView::Separator, open_part(current));
            },
            BookItem::PartTitle(title) => {
                let start = EventView::Start(TagView::Part(Some(title@), None));
                match current {
                    Some(c) => {
                        let end = EventView::End(TagView::Part(Some(c), None));
                        assert(head =~= seq![end] + seq![start]);
                        lemma_checked_add(seq![end], seq![start], open_part(current));
                        lemma_checked_one(end, open_part(current));
                        assert(open_part(current).drop_last() =~= Seq::<TagView>::empty());
                        lemma_checked_one(start, Seq::empty());
                        assert(Seq::<TagView>::empty().push(TagView::Part(Some(title@), None))
                            =~= open_part(next));
                    },
                    None => {
                        lemma_checked_one(start, Seq::empty());
                        assert(Seq::<TagView>::empty().push(TagView::Part(Some(title@), None))
                            =~= open_part(next));
                    },
                }
            },
        }
    }
}

/// The place of the last part title among the items.
pub open spec fn last_title(items: Seq<BookItem>) -> Option<int>
    decreases items.len(),
{
    if items.len() == 0 {
        None
    } else if items.last() is PartTitle {
        Some(items.len() - 1)
    } else {
        last_title(items.drop_last())
    }
}

/// What `last_title` finds is a part title, and none stands behind it; where it
/// finds nothing, there is no part title, and no part is open after the items.
pub proof fn lemma_last_title(items: Seq<BookItem>)
    ensures
        match last_title(items) {
            Some(k) => 0 <= k < items.len() && items[k] is PartTitle && forall|j: int|
                k < j < items.len() ==> !((#[trigger] items[j]) is PartTitle),
            None => forall|j: int| 0 <= j < items.len() ==> !((#[trigger] items[j]) is PartTitle),
        },
    decreases items.len(),
{
    if items.len() > 0 && !(items.last() is PartTitle) {
        let t = items.drop_last();
        lemma_last_title(t);
        match last_title(t) {
            Some(k) => {
                assert forall|j: int| k < j < items.len() implies !((#[trigger] items[j])
                    is PartTitle) by {
                    if j < items.len() - 1 {
                        assert(items[j] == t[j]);
                    }
                }
            },
            None => {
                assert forall|j: int| 0 <= j < items.len() implies !((#[trigger] items[j])
                    is PartTitle) by {
                    if j < items.len() - 1 {
                        assert(items[j] == t[j]);
                    }
                }
            },
        }
    }
}

/// The title that the item at `k` gives, where it is a part title.
pub open spec fn title_at(items: Seq<BookItem>, k: int) -> Seq<char> {
    match items[k] {
        BookItem::PartTitle(t) => t@,
        _ => Seq::empty(),
    }
}

/// The events of the items before the last part title.
pub open spec fn events_before_last_title(items: Seq<BookItem>) -> Seq<EventView> {
    item_list_events(items.take(last_title(items)->0), None)
}

/// The events of the last part title: the end of the part that is open before it,
/// if there is one, and the start of its own part.
pub open spec fn events_of_last_title(items: Seq<BookItem>) -> Seq<EventView> {
    let k = last_title(items)->0;
    item_events(items[k], title_after_all(items.take(k), None))
}

/// The events of the items behind the last part title.
pub open spec fn events_after_last_title(items: Seq<BookItem>) -> Seq<EventView> {
    let k = last_title(items)->0;
    item_list_events(items.skip(k + 1), Some(title_at(items, k)))
}

/// The events of items with a part title are those before the last part title,
/// those of that title, and those behind it; the part of that title is the one
/// that is left open.
pub proof fn lemma_split_at_last_title(items: Seq<BookItem>)
    requires
        last_title(items) is Some,
    ensures
        item_list_events(items, None) == events_before_last_title(items) + events_of_last_title(
            items,
        ) + events_after_last_title(items),
        title_after_all(items, None) == Some(title_at(items, last_title(items)->0)),
        events_of_last_title(items).len() > 0,
        events_of_last_title(items).last() == EventView::Start(
            TagView::Part(Some(title_at(items, last_title(items)->0)), None),
        ),
        forall|i: int|
            0 <= i < items.skip(last_title(items)->0 + 1).len() ==> !((
            #[trigger] items.skip(last_title(items)->0 + 1)[i]) is PartTitle),
{
    lemma_last_title(items);
    let k = last_title(items)->0;
    let before = items.take(k);
    let at = seq![items[k]];
    let after = items.skip(k + 1);
    assert(before + (at + after) =~= items);
    lemma_item_list_add(before, at + after, None);
    let open_before = title_after_all(before, None);
    lemma_item_list_add(at, after, open_before);
    let title = title_at(items, k);
    assert(title_after_all(at, open_before) == Some(title)) by {
        reveal_with_fuel(title_after_all, 2);
        assert(at.drop_first() =~= Seq::<BookItem>::empty());
    }
    assert(item_list_events(at, open_before) == item_events(items[k], open_before)) by {
        reveal_with_fuel(item_list_events, 2);
        assert(at.drop_first() =~= Seq::<BookItem>::empty());
        assert(item_list_events(at, open_before) =~= item_events(items[k], open_before));
    }
    assert forall|i: int| 0 <= i < after.len() implies !((#[trigger] after[i]) is PartTitle) by {
        assert(after[i] == items[i + k + 1]);
    }
    lemma_no_title_none_open(after, Some(title));
    assert(item_list_events(items, None) =~= events_before_last_title(items)
        + events_of_last_title(items) + events_after_last_title(items));
}

/// Where the last part of a list of items gets its end, no chapter behind the
/// last part title has chapters below it.
pub proof fn lemma_closes_flat_tail(items: Seq<BookItem>)
    requires
        last_title(items) is Some,
        closes(items),
    ensures
        forall|i: int|
            0 <= i < items.skip(last_title(items)->0 + 1).len() ==> !((
            #[trigger] items.skip(last_title(items)->0 + 1)[i]) is PartTitle) && !nests(
                items.skip(last_title(items)->0 + 1)[i],
            ),
{
    lemma_last_title(items);
    let k = last_title(items)->0;
    let after = items.skip(k + 1);
    assert forall|i: int| 0 <= i < after.len() implies !((#[trigger] after[i]) is PartTitle)
        && !nests(after[i]) by {
        assert(after[i] == items[i + k + 1]);
        if nests(items[i + k + 1]) {
            assert(items[k] is PartTitle);
            let w = choose|w: int|
                i + k + 1 < w < items.len() && (#[trigger] items[w]) is PartTitle;
            assert(false);
        }
    }
}

/// The events of items with a part title, whose last part gets its end, leave the
/// part of the last title open, with no part boundary behind its start.
pub proof fn lemma_items_leave_open(items: Seq<BookItem>)
    requires
        last_title(items) is Some,
        closes(items),
        below_well_shaped(items),
    ensures
        leaves_open(
            item_list_events(items, None),
            TagView::Part(title_after_all(items, None), None),
        ),
        last_mark(item_list_events(items, None), true) == Some(
            events_before_last_title(items).len() + events_of_last_title(items).len() - 1,
        ),
        forall|i: int|
            0 <= i < events_after_last_title(items).len() ==> !is_part_event(
                #[trigger] events_after_last_title(items)[i],
            ),
    decreases items, 1nat,
{
    let x = item_list_events(items, None);
    let k = last_title(items)->0;
    lemma_split_at_last_title(items);
    lemma_closes_flat_tail(items);
    lemma_flat_items_no_marks(items.skip(k + 1), Some(title_at(items, k)));
    let a = events_before_last_title(items);
    let m = events_of_last_title(items);
    let b = events_after_last_title(items);
    let p = a.len() + m.len() - 1;
    assert(x[p] == m[m.len() - 1]);
    assert forall|j: int| p < j < x.len() implies !is_part_event(#[trigger] x[j]) by {
        assert(x[j] == b[j - a.len() - m.len()]);
    }
    lemma_last_mark_at(x, true, p);
    lemma_last_mark(x, false);
    lemma_items_checked(items, None);
}

/// The events of a book are balanced: every start has its end, with an equal tag,
/// and the elements are properly nested.
///
/// This holds of the items whose last part gets its end, here and in the chapters
/// below each chapter: see [`well_shaped`].
pub proof fn lemma_book_balanced(items: Seq<BookItem>)
    requires
        well_shaped(items),
    ensures
        balanced(book_events(items)),
    decreases items, 2nat,
{
    let x = item_list_events(items, None);
    lemma_last_title(items);
    match last_title(items) {
        None => {
            // No part title: the events are balanced as they are.
            lemma_items_checked(items, None);
            lemma_no_title_none_open(items, None);
            lemma_balanced_normalized(x);
        },
        Some(k) => {
            lemma_items_leave_open(items);
            lemma_open_part_closed(x, TagView::Part(title_after_all(items, None), None));
        },
    }
}

/// Items without a part title leave the open part as it is.
pub proof fn lemma_no_title_none_open(items: Seq<BookItem>, current: Option<Seq<char>>)
    requires
        forall|i: int| 0 <= i < items.len() ==> !((#[trigger] items[i]) is PartTitle),
    ensures
        title_after_all(items, current) == current,
    decreases items.len(),
{
    if items.len() > 0 {
        assert(!(items[0] is PartTitle));
        assert forall|i: int| 0 <= i < items.drop_first().len() implies !((
        #[trigger] items.drop_first()[i]) is PartTitle) by {
            assert(items.drop_first()[i] == items[i + 1]);
        }
        lemma_no_title_none_open(items.drop_first(), current);
    }
}

/// Whether the event at `i` stands inside the part that starts at `j` and ends at
/// `k`: the end has the tag of the start, and what stands between them is
/// balanced, so that the end is the one that matches the start.
pub open spec fn encloses(t: Seq<EventView>, j: int, k: int, i: int) -> bool {
    &&& 0 <= j < i < k < t.len()
    &&& is_part_mark(t[j], true)
    &&& is_part_mark(t[k], false)
    &&& tag_of(t[j]) == tag_of(t[k])
    &&& balanced(t.subrange(j + 1, k))
}

/// Whether the event at `i` stands inside a part.
pub open spec fn inside_part(t: Seq<EventView>, i: int) -> bool {
    exists|j: int, k: int| encloses(t, j, k, i)
}

/// Whether every event that is no part boundary stands inside a part.
pub open spec fn covered(t: Seq<EventView>) -> bool {
    forall|i: int| 0 <= i < t.len() && !is_part_event(#[trigger] t[i]) ==> inside_part(t, i)
}

/// An event that stands inside a part still does so where events are put before
/// and behind the list.
pub proof fn lemma_inside_part_extended(
    before: Seq<EventView>,
    t: Seq<EventView>,
    after: Seq<EventView>,
    i: int,
)
    requires
        inside_part(t, i),
    ensures
        inside_part(before + t + after, before.len() + i),
{
    let (j, k) = choose|j: int, k: int| encloses(t, j, k, i);
    let full = before + t + after;
    let d = before.len() as int;
    assert(full.subrange(d + j + 1, d + k) =~= t.subrange(j + 1, k));
    assert(full[d + j] == t[j]);
    assert(full[d + k] == t[k]);
    assert(encloses(full, d + j, d + k, d + i));
}

/// A balanced list of events without part boundaries, put between the start and
/// the end of a part, is covered, and so is what stands around it where that was
/// covered before.
pub proof fn lemma_part_covers(inner: Seq<EventView>, tag: TagView)
    requires
        tag is Part,
        balanced(inner),
    ensures
        forall|i: int|
            0 < i <= inner.len() ==> inside_part(
                seq![EventView::Start(tag)] + inner + seq![EventView::End(tag)],
                i,
            ),
{
    let t = seq![EventView::Start(tag)] + inner + seq![EventView::End(tag)];
    let last: int = t.len() - 1;
    assert(t.subrange(1, last) =~= inner);
    assert forall|i: int| 0 < i <= inner.len() implies inside_part(t, i) by {
        assert(encloses(t, 0, last, i));
    }
}

/// The events of items without part titles do not depend on the part that is
/// open.
pub proof fn lemma_untitled_items(items: Seq<BookItem>, current: Option<Seq<char>>)
    requires
        forall|i: int| 0 <= i < items.len() ==> !((#[trigger] items[i]) is PartTitle),
    ensures
        item_list_events(items, current) == item_list_events(items, None),
    decreases items.len(),
{
    if items.len() > 0 {
        assert(!(items[0] is PartTitle));
        assert forall|i: int| 0 <= i < items.drop_first().len() implies !((
        #[trigger] items.drop_first()[i]) is PartTitle) by {
            assert(items.drop_first()[i] == items[i + 1]);
        }
        lemma_untitled_items(items.drop_first(), current);
        lemma_untitled_items(items.drop_first(), None);
        assert(title_after(items[0], current) == current);
        assert(title_after(items[0], None) == None::<Seq<char>>);
        assert(item_events(items[0], current) == item_events(items[0], None));
    }
}

/// The events of items without part titles are balanced where the chapters below
/// each chapter are well shaped.
pub proof fn lemma_untitled_items_balanced(items: Seq<BookItem>, current: Option<Seq<char>>)
    requires
        below_well_shaped(items),
        forall|i: int| 0 <= i < items.len() ==> !((#[trigger] items[i]) is PartTitle),
    ensures
        balanced(item_list_events(items, current)),
{
    lemma_untitled_items(items, current);
    lemma_items_checked(items, None);
    lemma_no_title_none_open(items, None);
}

/// The chapters below each chapter of two lists are well shaped where they are
/// so in the two lists together.
pub proof fn lemma_below_well_shaped_add(a: Seq<BookItem>, b: Seq<BookItem>)
    requires
        below_well_shaped(a + b),
    ensures
        below_well_shaped(a),
        below_well_shaped(b),
    decreases a.len(),
{
    if a.len() == 0 {
        assert(a + b =~= b);
    } else {
        assert((a + b)[0] == a[0]);
        assert((a + b).drop_first() =~= a.drop_first() + b);
        lemma_below_well_shaped_add(a.drop_first(), b);
    }
}

/// The events of items, and behind them the end of the part that they leave open.
pub open spec fn closed_events(items: Seq<BookItem>) -> Seq<EventView> {
    item_list_events(items, None) + seq![
        EventView::End(TagView::Part(title_after_all(items, None), None)),
    ]
}

/// Where the first item is a part title, the events of the items are covered once
/// the last part has its end.
pub proof fn lemma_titled_items_covered(items: Seq<BookItem>)
    requires
        items.len() > 0,
        items[0] is PartTitle,
        below_well_shaped(items),
    ensures
        covered(closed_events(items)),
    decreases items.len(),
{
    lemma_last_title(items);
    lemma_split_at_last_title(items);
    let k = last_title(items)->0;
    let before = items.take(k);
    let after = items.skip(k + 1);
    let title = title_at(items, k);
    let m = events_of_last_title(items);
    let b = events_after_last_title(items);
    assert(before + (seq![items[k]] + after) =~= items);
    lemma_below_well_shaped_add(before, seq![items[k]] + after);
    lemma_below_well_shaped_add(seq![items[k]], after);
    lemma_untitled_items_balanced(after, Some(title));
    let tag = TagView::Part(Some(title), None);
    let start = seq![EventView::Start(tag)];
    let end = seq![EventView::End(tag)];
    let last_part = start + b + end;
    lemma_part_covers(b, tag);
    let t = closed_events(items);
    // What comes before the last part.
    let head: Seq<EventView> = if k == 0 {
        Seq::empty()
    } else {
        closed_events(before)
    };
    if k > 0 {
        assert(before[0] == items[0]);
        lemma_titled_items_covered(before);
        lemma_last_title(before);
        lemma_split_at_last_title(before);
        assert(m =~= seq![EventView::End(TagView::Part(title_after_all(before, None), None))]
            + start);
    } else {
        assert(before =~= Seq::<BookItem>::empty());
        assert(m =~= start);
    }
    assert(t =~= head + last_part + Seq::<EventView>::empty());
    assert forall|i: int| 0 <= i < t.len() && !is_part_event(#[trigger] t[i]) implies inside_part(
        t,
        i,
    ) by {
        if i < head.len() {
            assert(t[i] == head[i]);
            lemma_inside_part_extended(Seq::empty(), head, last_part, i);
            assert(Seq::<EventView>::empty() + head + last_part =~= t);
        } else {
            let r = i - head.len();
            assert(t[i] == last_part[r]);
            assert(0 < r <= b.len());
            lemma_inside_part_extended(head, last_part, Seq::empty(), r);
        }
    }
}

/// Whether the events of a list of items are covered: without a part title, no
/// chapter has chapters below it; with part titles, the last part gets its end
/// and the first item is a part title, unless there is one part title only and no
/// chapter has chapters below it.
pub open spec fn covering(items: Seq<BookItem>) -> bool {
    let flat = forall|i: int| 0 <= i < items.len() ==> !nests(#[trigger] items[i]);
    let one_title = forall|i: int, j: int|
        0 <= i < items.len() && 0 <= j < items.len() && (#[trigger] items[i]) is PartTitle && (
        #[trigger] items[j]) is PartTitle ==> i == j;
    if last_title(items) is None {
        flat
    } else {
        closes(items) && (items[0] is PartTitle || (one_title && flat))
    }
}

/// Where the first item is a part title and the last part gets its end, the
/// events of a book are covered.
pub proof fn lemma_titled_book_covered(items: Seq<BookItem>)
    requires
        items.len() > 0,
        items[0] is PartTitle,
        closes(items),
        below_well_shaped(items),
    ensures
        covered(book_events(items)),
{
    let x = item_list_events(items, None);
    lemma_last_title(items);
    lemma_split_at_last_title(items);
    lemma_items_leave_open(items);
    let k = last_title(items)->0;
    let a = events_before_last_title(items);
    let m = events_of_last_title(items);
    // The first event starts a part, so that an end is all that is added.
    assert(is_part_mark(x[0], true)) by {
        if k == 0 {
            assert(items.take(k) =~= Seq::<BookItem>::empty());
            assert(x[0] == m[0]);
        } else {
            assert(items.take(k)[0] == items[0]);
            assert(a[0] == item_events(items[0], None)[0]);
            assert(x[0] == a[0]);
        }
    }
    lemma_first_mark_at(x, true, 0);
    lemma_open_part_normalized(x, TagView::Part(title_after_all(items, None), None));
    lemma_titled_items_covered(items);
    assert(book_events(items) =~= closed_events(items));
}

/// Where there is one part title and no chapter has chapters below it, the
/// events of a book are covered: what stands before the title becomes a part of
/// its own.
pub proof fn lemma_single_title_covered(items: Seq<BookItem>)
    requires
        last_title(items) is Some,
        forall|i: int| 0 <= i < items.len() ==> !nests(#[trigger] items[i]),
        forall|i: int, j: int|
            0 <= i < items.len() && 0 <= j < items.len() && (#[trigger] items[i]) is PartTitle && (
            #[trigger] items[j]) is PartTitle ==> i == j,
        below_well_shaped(items),
    ensures
        covered(book_events(items)),
{
    let x = item_list_events(items, None);
    let n = book_events(items);
    lemma_last_title(items);
    lemma_split_at_last_title(items);
    lemma_items_leave_open(items);
    let k = last_title(items)->0;
    let before = items.take(k);
    let after = items.skip(k + 1);
    let title = title_at(items, k);
    let a = events_before_last_title(items);
    let m = events_of_last_title(items);
    let b = events_after_last_title(items);
    let tag = TagView::Part(Some(title), None);
    assert forall|i: int| 0 <= i < before.len() implies !((#[trigger] before[i]) is PartTitle)
        && !nests(before[i]) by {
        assert(before[i] == items[i]);
    }
    lemma_flat_items_no_marks(before, None);
    assert(before + (seq![items[k]] + after) =~= items);
    lemma_below_well_shaped_add(before, seq![items[k]] + after);
    lemma_below_well_shaped_add(seq![items[k]], after);
    lemma_untitled_items_balanced(before, None);
    lemma_untitled_items_balanced(after, Some(title));
    assert(m =~= seq![EventView::Start(tag)]);
    let p = a.len() as int;
    assert forall|j: int| 0 <= j < x.len() implies !is_part_mark(#[trigger] x[j], false) by {
        if j < a.len() {
            assert(x[j] == a[j]);
        } else if j > p {
            assert(x[j] == b[j - a.len() - 1]);
        }
    }
    lemma_no_mark(x, false);
    assert forall|j: int| 0 <= j < p implies !is_part_mark(#[trigger] x[j], true) by {
        assert(x[j] == a[j]);
    }
    lemma_first_mark_at(x, true, p);
    lemma_open_part_normalized(x, tag);
    let end = seq![EventView::End(tag)];
    let last_part = seq![EventView::Start(tag)] + b + end;
    lemma_part_covers(b, tag);
    assert(x.take(p) =~= a);
    assert(x.skip(p) =~= seq![EventView::Start(tag)] + b);
    if p == 0 {
        assert(n =~= last_part);
        assert forall|i: int|
            0 <= i < n.len() && !is_part_event(#[trigger] n[i]) implies inside_part(n, i) by {}
    } else {
        let untitled = TagView::Part(None, None);
        let first_part = seq![EventView::Start(untitled)] + a + seq![EventView::End(untitled)];
        assert(n =~= first_part + last_part + Seq::<EventView>::empty());
        lemma_part_covers(a, untitled);
        assert forall|i: int|
            0 <= i < n.len() && !is_part_event(#[trigger] n[i]) implies inside_part(n, i) by {
            if i < first_part.len() {
                assert(n[i] == first_part[i]);
                lemma_inside_part_extended(Seq::empty(), first_part, last_part, i);
                assert(Seq::<EventView>::empty() + first_part + last_part =~= n);
            } else {
                let r = i - first_part.len();
                assert(n[i] == last_part[r]);
                lemma_inside_part_extended(first_part, last_part, Seq::empty(), r);
            }
        }
    }
}

/// Every event of a book that is no part boundary stands inside a part, between
/// the start of the part and the end that matches it.
///
/// This holds of the items that [`covering`] describes, where the chapters below
/// each chapter are well shaped.
pub proof fn lemma_book_covered(items: Seq<BookItem>)
    requires
        covering(items),
        below_well_shaped(items),
    ensures
        covered(book_events(items)),
{
    let x = item_list_events(items, None);
    let n = book_events(items);
    lemma_last_title(items);
    match last_title(items) {
        None => {
            assert forall|i: int| 0 <= i < items.len() implies !((#[trigger] items[i])
                is PartTitle) && !nests(items[i]) by {}
            lemma_flat_items_no_marks(items, None);
            lemma_untitled_items_balanced(items, None);
            let part = TagView::Part(None, None);
            lemma_part_covers(x, part);
            lemma_no_mark(x, true);
            lemma_no_mark(x, false);
            assert(n =~= seq![EventView::Start(part)] + x + seq![EventView::End(part)]);
        },
        Some(k) => {
            if items[0] is PartTitle {
                lemma_titled_book_covered(items);
            } else {
                lemma_single_title_covered(items);
            }
        },
    }
}

/// The events of a book's metadata are balanced.
pub proof fn lemma_config_balanced(config: Config)
    ensures
        balanced(config_events(config)),
{
    let empty = Seq::<TagView>::empty();
    let title: Seq<EventView> = match config.title {
        Some(t) => seq![EventView::Title(t@)],
        None => Seq::empty(),
    };
    let authors: Seq<EventView> = if config.authors@.len() > 0 {
        seq![EventView::Start(TagView::AuthorList)] + author_events(config.authors@) + seq![
            EventView::End(TagView::AuthorList),
        ]
    } else {
        Seq::empty()
    };
    lemma_checked_add(title, authors, empty);
    lemma_checked_leaves(title, empty);
    if config.authors@.len() > 0 {
        let open = seq![EventView::Start(TagView::AuthorList)];
        let names = author_events(config.authors@);
        let close = seq![EventView::End(TagView::AuthorList)];
        let inside = seq![TagView::AuthorList];
        assert(authors =~= open + (names + close));
        lemma_checked_add(open, names + close, empty);
        lemma_checked_one(EventView::Start(TagView::AuthorList), empty);
        assert(empty.push(TagView::AuthorList) =~= inside);
        lemma_checked_add(names, close, inside);
        lemma_checked_leaves(names, inside);
        lemma_checked_one(EventView::End(TagView::AuthorList), inside);
        assert(inside.drop_last() =~= empty);
    }
}

/// The events of a whole book are balanced: every start has its end, with an
/// equal tag, and the elements are properly nested.
///
/// This holds of the books whose last part gets its end, among the items of the
/// book and among the chapters below each chapter: see [`well_shaped`].
pub proof fn lemma_whole_book_balanced(root: Seq<char>, config: Config, sections: Seq<BookItem>)
    requires
        well_shaped(sections),
    ensures
        balanced(whole_book_events(root, config, sections)),
{
    let empty = Seq::<TagView>::empty();
    let first = seq![EventView::Root(root)];
    lemma_config_balanced(config);
    lemma_book_balanced(sections);
    assert(whole_book_events(root, config, sections) =~= first + (config_events(config)
        + book_events(sections)));
    lemma_checked_add(first, config_events(config) + book_events(sections), empty);
    lemma_checked_one(EventView::Root(root), empty);
    lemma_checked_add(config_events(config), book_events(sections), empty);
}

} // verus!
