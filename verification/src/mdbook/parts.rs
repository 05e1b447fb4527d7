//! The boundaries of the parts of a book, and their completion.
use crate::mdbook::{Event, EventView, Tag, TagView};
use crate::stream::{lemma_views_push, views};
use vstd::prelude::*;

verus! {

/// Whether `e` starts a part (`start`) or ends one (`!start`).
pub open spec fn is_part_mark(e: EventView, start: bool) -> bool {
    match e {
        EventView::Start(TagView::Part(_, _)) => start,
        EventView::End(TagView::Part(_, _)) => !start,
        _ => false,
    }
}

/// Whether `e` starts or ends a part.
pub open spec fn is_part_event(e: EventView) -> bool {
    is_part_mark(e, true) || is_part_mark(e, false)
}

/// The tag of a start or an end.
pub open spec fn tag_of(e: EventView) -> TagView {
    match e {
        EventView::Start(t) => t,
        EventView::End(t) => t,
        _ => TagView::Part(None, None),
    }
}

/// The place of the first part start, or of the first part end, in `s`.
pub open spec fn first_mark(s: Seq<EventView>, start: bool) -> Option<int>
    decreases s.len(),
{
    if s.len() == 0 {
        None
    } else if is_part_mark(s[0], start) {
        Some(0)
    } else {
        match first_mark(s.drop_first(), start) {
            Some(i) => Some(i + 1),
            None => None,
        }
    }
}

/// The place of the last part start, or of the last part end, in `s`.
pub open spec fn last_mark(s: Seq<EventView>, start: bool) -> Option<int>
    decreases s.len(),
{
    if s.len() == 0 {
        None
    } else if is_part_mark(s.last(), start) {
        Some(s.len() - 1)
    } else {
        last_mark(s.drop_last(), start)
    }
}

/// The start of a part without a title.
pub open spec fn untitled_start() -> EventView {
    EventView::Start(TagView::Part(None, None))
}

/// The end of a part without a title.
pub open spec fn untitled_end() -> EventView {
    EventView::End(TagView::Part(None, None))
}

/// `s` with its part boundaries completed.
///
/// Without any part boundary, all of `s` becomes one untitled part. With ends only,
/// a start for the first end is put in front. With starts only, an end for the
/// last start is put at the back, and what stands before the first start becomes
/// an untitled part. With both, an end that comes before every start gets a start
/// in front, and a start that comes after every end gets an end at the back.
pub open spec fn normalized(s: Seq<EventView>) -> Seq<EventView> {
    match (first_mark(s, true), first_mark(s, false)) {
        (None, None) => seq![untitled_start()] + s + seq![untitled_end()],
        (None, Some(e)) => seq![EventView::Start(tag_of(s[e]))] + s,
        (Some(f), None) => {
            let end = EventView::End(tag_of(s[last_mark(s, true)->0]));
            if f != 0 {
                seq![untitled_start()] + s.take(f) + seq![untitled_end()] + s.skip(f) + seq![end]
            } else {
                s + seq![end]
            }
        },
        (Some(f), Some(e)) => {
            let ls = last_mark(s, true)->0;
            let le = last_mark(s, false)->0;
            let opened = if e < f {
                seq![EventView::Start(tag_of(s[e]))] + s
            } else {
                s
            };
            if ls > le {
                opened + seq![EventView::End(tag_of(s[ls]))]
            } else {
                opened
            }
        },
    }
}

/// What `first_mark` finds is a mark, and no mark stands before it; where it
/// finds nothing, there is no mark.
pub proof fn lemma_first_mark(s: Seq<EventView>, start: bool)
    ensures
        match first_mark(s, start) {
            Some(i) => 0 <= i < s.len() && is_part_mark(s[i], start) && forall|j: int|
                0 <= j < i ==> !is_part_mark(#[trigger] s[j], start),
            None => forall|j: int| 0 <= j < s.len() ==> !is_part_mark(#[trigger] s[j], start),
        },
    decreases s.len(),
{
    if s.len() > 0 && !is_part_mark(s[0], start) {
        let t = s.drop_first();
        lemma_first_mark(t, start);
        match first_mark(t, start) {
            Some(i) => {
                assert forall|j: int| 0 <= j < i + 1 implies !is_part_mark(
                    #[trigger] s[j],
                    start,
                ) by {
                    if j > 0 {
                        assert(s[j] == t[j - 1]);
                    }
                }
            },
            None => {
                assert forall|j: int| 0 <= j < s.len() implies !is_part_mark(
                    #[trigger] s[j],
                    start,
                ) by {
                    if j > 0 {
                        assert(s[j] == t[j - 1]);
                    }
                }
            },
        }
    }
}

/// What `last_mark` finds is a mark, and no mark stands behind it; where it
/// finds nothing, there is no mark.
pub proof fn lemma_last_mark(s: Seq<EventView>, start: bool)
    ensures
        match last_mark(s, start) {
            Some(i) => 0 <= i < s.len() && is_part_mark(s[i], start) && forall|j: int|
                i < j < s.len() ==> !is_part_mark(#[trigger] s[j], start),
            None => forall|j: int| 0 <= j < s.len() ==> !is_part_mark(#[trigger] s[j], start),
        },
    decreases s.len(),
{
    if s.len() > 0 && !is_part_mark(s.last(), start) {
        let t = s.drop_last();
        lemma_last_mark(t, start);
        match last_mark(t, start) {
            Some(i) => {
                assert forall|j: int| i < j < s.len() implies !is_part_mark(
                    #[trigger] s[j],
                    start,
                ) by {
                    if j < s.len() - 1 {
                        assert(s[j] == t[j]);
                    }
                }
            },
            None => {
                assert forall|j: int| 0 <= j < s.len() implies !is_part_mark(
                    #[trigger] s[j],
                    start,
                ) by {
                    if j < s.len() - 1 {
                        assert(s[j] == t[j]);
                    }
                }
            },
        }
    }
}

/// The first mark is at `i` where a mark stands at `i` and none before it.
pub proof fn lemma_first_mark_at(s: Seq<EventView>, start: bool, i: int)
    requires
        0 <= i < s.len(),
        is_part_mark(s[i], start),
        forall|j: int| 0 <= j < i ==> !is_part_mark(#[trigger] s[j], start),
    ensures
        first_mark(s, start) == Some(i),
{
    lemma_first_mark(s, start);
}

/// The last mark is at `i` where a mark stands at `i` and none behind it.
pub proof fn lemma_last_mark_at(s: Seq<EventView>, start: bool, i: int)
    requires
        0 <= i < s.len(),
        is_part_mark(s[i], start),
        forall|j: int| i < j < s.len() ==> !is_part_mark(#[trigger] s[j], start),
    ensures
        last_mark(s, start) == Some(i),
{
    lemma_last_mark(s, start);
}

/// There is no mark of a kind in `s` where none of its events is one.
pub proof fn lemma_no_mark(s: Seq<EventView>, start: bool)
    requires
        forall|j: int| 0 <= j < s.len() ==> !is_part_mark(#[trigger] s[j], start),
    ensures
        first_mark(s, start) is None,
        last_mark(s, start) is None,
{
    lemma_first_mark(s, start);
    lemma_last_mark(s, start);
}

fn is_mark(e: &Event, start: bool) -> (b: bool)
    ensures
        b == is_part_mark(e@, start),
{
    match e {
        Event::Start(Tag::Part(_, _)) => start,
        Event::End(Tag::Part(_, _)) => !start,
        _ => false,
    }
}

fn find_first(events: &Vec<Event>, start: bool) -> (r: Option<usize>)
    ensures
        match r {
            Some(i) => first_mark(views(events@), start) == Some(i as int),
            None => first_mark(views(events@), start) is None,
        },
{
    let mut i: usize = 0;
    while i < events.len()
        invariant
            i <= events.len(),
            forall|j: int| 0 <= j < i ==> !is_part_mark(#[trigger] views(events@)[j], start),
        decreases events.len() - i,
    {
        if is_mark(&events[i], start) {
            proof {
                lemma_first_mark_at(views(events@), start, i as int);
            }
            return Some(i);
        }
        i = i + 1;
    }
    proof {
        lemma_no_mark(views(events@), start);
    }
    None
}

fn find_last(events: &Vec<Event>, start: bool) -> (r: Option<usize>)
    ensures
        match r {
            Some(i) => last_mark(views(events@), start) == Some(i as int),
            None => last_mark(views(events@), start) is None,
        },
{
    let mut i: usize = events.len();
    while i > 0
        invariant
            i <= events.len(),
            forall|j: int| i <= j < events.len() ==> !is_part_mark(
                #[trigger] views(events@)[j],
                start,
            ),
        decreases i,
    {
        i = i - 1;
        if is_mark(&events[i], start) {
            proof {
                lemma_last_mark_at(views(events@), start, i as int);
            }
            return Some(i);
        }
    }
    proof {
        lemma_no_mark(views(events@), start);
    }
    None
}

/// A copy of the tag of a part start or part end.
fn part_tag(e: &Event) -> (t: Tag)
    requires
        is_part_event(e@),
    ensures
        t@ == tag_of(e@),
{
    match e {
        Event::Start(Tag::Part(title, first)) => Tag::Part(
            match title {
                Some(t) => Some(t.clone()),
                None => None,
            },
            *first,
        ),
        Event::End(Tag::Part(title, first)) => Tag::Part(
            match title {
                Some(t) => Some(t.clone()),
                None => None,
            },
            *first,
        ),
        _ => unreached(),
    }
}

proof fn lemma_views_insert(s: Seq<Event>, i: int, e: Event)
    requires
        0 <= i <= s.len(),
    ensures
        views(s.insert(i, e)) == views(s).insert(i, e@),
{
    assert(views(s.insert(i, e)) =~= views(s).insert(i, e@));
}

/// Completes the part boundaries of a list of events: see [`normalized`]. What
/// comes out needs no repair: to complete it again would change nothing.
pub fn normalize_parts(events: Vec<Event>) -> (out: Vec<Event>)
    ensures
        views(out@) == normalized(views(events@)),
        parts_complete(views(out@)),
        normalized(views(out@)) == views(out@),
{
    proof {
        lemma_normalized_idempotent(views(events@));
        lemma_normalized_is_complete(views(events@));
    }
    let mut out = events;
    let ghost s = views(events@);
    let first_start = find_first(&out, true);
    let first_end = find_first(&out, false);
    let last_start = find_last(&out, true);
    let last_end = find_last(&out, false);
    proof {
        lemma_first_mark(s, true);
        lemma_first_mark(s, false);
        lemma_last_mark(s, true);
        lemma_last_mark(s, false);
    }
    match (first_start, first_end) {
        (None, None) => {
            proof {
                lemma_views_insert(out@, 0, Event::Start(Tag::Part(None, None)));
            }
            out.insert(0, Event::Start(Tag::Part(None, None)));
            proof {
                lemma_views_push(out@, Event::End(Tag::Part(None, None)));
            }
            out.push(Event::End(Tag::Part(None, None)));
            assert(views(out@) =~= seq![untitled_start()] + s + seq![untitled_end()]);
        },
        (None, Some(e)) => {
            let start = Event::Start(part_tag(&out[e]));
            proof {
                lemma_views_insert(out@, 0, start);
            }
            out.insert(0, start);
            assert(views(out@) =~= seq![EventView::Start(tag_of(s[e as int]))] + s);
        },
        (Some(f), None) => {
            let ls = match last_start {
                Some(ls) => ls,
                None => unreached(),
            };
            let end = Event::End(part_tag(&out[ls]));
            if f != 0 {
                proof {
                    lemma_views_insert(out@, f as int, Event::End(Tag::Part(None, None)));
                }
                out.insert(f, Event::End(Tag::Part(None, None)));
                proof {
                    lemma_views_insert(out@, 0, Event::Start(Tag::Part(None, None)));
                }
                out.insert(0, Event::Start(Tag::Part(None, None)));
            }
            proof {
                lemma_views_push(out@, end);
            }
            out.push(end);
            proof {
                if f != 0 {
                    assert(views(out@) =~= seq![untitled_start()] + s.take(f as int)
                        + seq![untitled_end()] + s.skip(f as int) + seq![
                        EventView::End(tag_of(s[ls as int])),
                    ]);
                } else {
                    assert(views(out@) =~= s + seq![EventView::End(tag_of(s[ls as int]))]);
                }
            }
        },
        (Some(f), Some(e)) => {
            let ls = match last_start {
                Some(ls) => ls,
                None => unreached(),
            };
            let le = match last_end {
                Some(le) => le,
                None => unreached(),
            };
            let end = if ls > le {
                Some(Event::End(part_tag(&out[ls])))
            } else {
                None
            };
            if e < f {
                let start = Event::Start(part_tag(&out[e]));
                proof {
                    lemma_views_insert(out@, 0, start);
                }
                out.insert(0, start);
                assert(views(out@) =~= seq![EventView::Start(tag_of(s[e as int]))] + s);
            }
            if let Some(end) = end {
                proof {
                    lemma_views_push(out@, end);
                }
                out.push(end);
            }
        },
    }
    out
}

/// Whether the part boundaries of `s` need no repair: there is a start and an end,
/// no end comes before every start, and no start comes after every end.
pub open spec fn parts_complete(s: Seq<EventView>) -> bool {
    match (first_mark(s, true), first_mark(s, false), last_mark(s, true), last_mark(s, false)) {
        (Some(fs), Some(fe), Some(ls), Some(le)) => fs < fe && ls < le,
        _ => false,
    }
}

/// A list of events whose part boundaries need no repair is left as it is.
pub proof fn lemma_complete_is_unchanged(s: Seq<EventView>)
    requires
        parts_complete(s),
    ensures
        normalized(s) == s,
{
}

/// Completing the part boundaries leaves nothing to repair.
pub proof fn lemma_normalized_is_complete(s: Seq<EventView>)
    ensures
        parts_complete(normalized(s)),
{
    let n = normalized(s);
    lemma_first_mark(s, true);
    lemma_first_mark(s, false);
    lemma_last_mark(s, true);
    lemma_last_mark(s, false);
    match (first_mark(s, true), first_mark(s, false)) {
        (None, None) => {
            let last: int = n.len() - 1;
            assert(n[0] == untitled_start());
            assert(n[last] == untitled_end());
            assert forall|j: int| 0 < j < s.len() + 1 implies !is_part_event(#[trigger] n[j]) by {
                assert(n[j] == s[j - 1]);
            }
            lemma_first_mark_at(n, true, 0);
            lemma_first_mark_at(n, false, last);
            lemma_last_mark_at(n, true, 0);
            lemma_last_mark_at(n, false, last);
        },
        (None, Some(e)) => {
            let le = last_mark(s, false)->0;
            assert forall|j: int| 0 < j < n.len() implies n[j] == s[j - 1] by {}
            assert forall|j: int| 0 < j < n.len() implies !is_part_mark(#[trigger] n[j], true) by {
                assert(n[j] == s[j - 1]);
            }
            assert forall|j: int| 0 <= j < e + 1 implies !is_part_mark(#[trigger] n[j], false) by {
                if j > 0 {
                    assert(n[j] == s[j - 1]);
                }
            }
            assert forall|j: int| le + 1 < j < n.len() implies !is_part_mark(
                #[trigger] n[j],
                false,
            ) by {
                assert(n[j] == s[j - 1]);
            }
            assert(n[e + 1] == s[e]);
            assert(n[le + 1] == s[le]);
            lemma_first_mark_at(n, true, 0);
            lemma_first_mark_at(n, false, e + 1);
            lemma_last_mark_at(n, true, 0);
            lemma_last_mark_at(n, false, le + 1);
        },
        (Some(f), None) => {
            let ls = last_mark(s, true)->0;
            if f != 0 {
                assert forall|j: int| 0 < j < f + 1 implies n[j] == s[j - 1] by {}
                assert forall|j: int| f + 1 < j < n.len() - 1 implies n[j] == s[j - 2] by {}
                assert(n[0] == untitled_start());
                assert(n[f + 1] == untitled_end());
                assert(n[n.len() - 1] == EventView::End(tag_of(s[ls])));
                assert forall|j: int| 0 <= j < f + 1 implies !is_part_mark(
                    #[trigger] n[j],
                    false,
                ) by {
                    if j > 0 {
                        assert(n[j] == s[j - 1]);
                    }
                }
                assert forall|j: int| ls + 2 < j < n.len() implies !is_part_mark(
                    #[trigger] n[j],
                    true,
                ) by {
                    if j < n.len() - 1 {
                        assert(n[j] == s[j - 2]);
                    }
                }
                assert(n[ls + 2] == s[ls]);
                lemma_first_mark_at(n, true, 0);
                lemma_first_mark_at(n, false, f + 1);
                lemma_last_mark_at(n, true, ls + 2);
                lemma_last_mark_at(n, false, n.len() - 1);
            } else {
                assert forall|j: int| 0 <= j < s.len() implies n[j] == s[j] by {}
                assert(n[s.len() as int] == EventView::End(tag_of(s[ls])));
                assert forall|j: int| 0 <= j < s.len() implies !is_part_mark(
                    #[trigger] n[j],
                    false,
                ) by {
                    assert(n[j] == s[j]);
                }
                assert forall|j: int| ls < j < n.len() implies !is_part_mark(
                    #[trigger] n[j],
                    true,
                ) by {
                    if j < s.len() {
                        assert(n[j] == s[j]);
                    }
                }
                assert(n[0] == s[0]);
                assert(n[ls] == s[ls]);
                lemma_first_mark_at(n, true, 0);
                lemma_first_mark_at(n, false, s.len() as int);
                lemma_last_mark_at(n, true, ls);
                lemma_last_mark_at(n, false, s.len() as int);
            }
        },
        (Some(f), Some(e)) => {
            let ls = last_mark(s, true)->0;
            let le = last_mark(s, false)->0;
            let k: int = if e < f {
                1
            } else {
                0
            };
            // `s` stands in `n` from `k` on.
            assert forall|j: int| 0 <= j < s.len() implies n[j + k] == s[j] by {}
            let fs2: int = if e < f {
                0
            } else {
                f
            };
            let le2: int = if ls > le {
                n.len() - 1
            } else {
                le + k
            };
            assert(is_part_mark(n[fs2], true)) by {
                if e >= f {
                    assert(n[f + k] == s[f]);
                }
            }
            assert(is_part_mark(n[e + k], false)) by {
                assert(n[e + k] == s[e]);
            }
            assert(is_part_mark(n[ls + k], true)) by {
                assert(n[ls + k] == s[ls]);
            }
            assert(is_part_mark(n[le2], false)) by {
                if ls <= le {
                    assert(n[le + k] == s[le]);
                }
            }
            assert forall|j: int| 0 <= j < fs2 implies !is_part_mark(#[trigger] n[j], true) by {
                assert(n[j + k] == s[j]);
            }
            assert forall|j: int| 0 <= j < e + k implies !is_part_mark(
                #[trigger] n[j],
                false,
            ) by {
                if j >= k {
                    assert(n[(j - k) + k] == s[j - k]);
                }
            }
            assert forall|j: int| ls + k < j < n.len() implies !is_part_mark(
                #[trigger] n[j],
                true,
            ) by {
                if j < s.len() + k {
                    assert(n[(j - k) + k] == s[j - k]);
                }
            }
            assert forall|j: int| le2 < j < n.len() implies !is_part_mark(
                #[trigger] n[j],
                false,
            ) by {
                if j < s.len() + k {
                    assert(n[(j - k) + k] == s[j - k]);
                }
            }
            lemma_first_mark_at(n, true, fs2);
            lemma_first_mark_at(n, false, e + k);
            lemma_last_mark_at(n, true, ls + k);
            lemma_last_mark_at(n, false, le2);
        },
    }
}

/// Completing the part boundaries a second time changes nothing.
pub proof fn lemma_normalized_idempotent(s: Seq<EventView>)
    ensures
        normalized(normalized(s)) == normalized(s),
{
    lemma_normalized_is_complete(s);
    lemma_complete_is_unchanged(normalized(s));
}

} // verus!
