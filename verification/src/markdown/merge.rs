//! Merging of the text events that stand next to each other.
use crate::markdown::{Event, EventView};
use crate::stream::EventStream;
use vstd::prelude::*;
use vstd::string::*;

verus! {

/// The events with every run of text events merged into one text event, which
/// holds the texts of the run one after the other: two text events that stand
/// next to each other become one. Every other event stays as it is.
pub open spec fn merged(events: Seq<EventView>) -> Seq<EventView>
    decreases events.len(),
{
    if events.len() == 0 {
        Seq::empty()
    } else if events.len() >= 2 && events[0] is Text && events[1] is Text {
        merged(seq![EventView::Text(events[0]->Text_0 + events[1]->Text_0)] + events.skip(2))
    } else {
        seq![events[0]] + merged(events.drop_first())
    }
}

/// Two text events at the start of a sequence give what one text event with
/// both their texts gives.
pub proof fn lemma_merged_two_texts(a: Seq<char>, b: Seq<char>, rest: Seq<EventView>)
    ensures
        merged(seq![EventView::Text(a), EventView::Text(b)] + rest) == merged(
            seq![EventView::Text(a + b)] + rest,
        ),
{
    let two = seq![EventView::Text(a), EventView::Text(b)] + rest;
    assert(two.skip(2) =~= rest);
}

/// A text event before an event that is no text event, or before the end, stays
/// as it is.
pub proof fn lemma_merged_last_text(a: Seq<char>, rest: Seq<EventView>)
    requires
        rest.len() == 0 || !(rest[0] is Text),
    ensures
        merged(seq![EventView::Text(a)] + rest) == seq![EventView::Text(a)] + merged(rest),
{
    let s = seq![EventView::Text(a)] + rest;
    assert(s.drop_first() =~= rest);
    if rest.len() > 0 {
        assert(s[1] == rest[0]);
    }
}

/// The events that are held back, if any, and those that are yet to come.
pub open spec fn pending(last: Option<Event>, source: Seq<EventView>) -> Seq<EventView> {
    match last {
        Some(e) => seq![e@] + source,
        None => source,
    }
}

/// Merges the text events that stand next to each other into one text event.
pub struct TextMergeStream<T> {
    iter: T,
    last_event: Option<Event>,
}

impl<T: EventStream<Item = Event>> TextMergeStream<T> {
    /// The events of `iter`, merged.
    pub fn new(iter: T) -> (r: Self)
        requires
            iter.wf(),
        ensures
            r.wf(),
            r.remaining() == merged(iter.remaining()),
    {
        TextMergeStream { iter, last_event: None }
    }
}

impl<T: EventStream<Item = Event>> EventStream for TextMergeStream<T> {
    type Item = Event;

    closed spec fn wf(&self) -> bool {
        self.iter.wf()
    }

    closed spec fn remaining(&self) -> Seq<EventView> {
        merged(pending(self.last_event, self.iter.remaining()))
    }

    fn next(&mut self) -> (r: Option<Event>) {
        let ghost before = pending(self.last_event, self.iter.remaining());
        let first = match self.last_event.take() {
            Some(e) => Some(e),
            None => self.iter.next(),
        };
        let ghost source = self.iter.remaining();
        match first {
            None => None,
            Some(Event::Text(text)) => {
                let mut text = text;
                assert(before =~= seq![EventView::Text(text@)] + source);
                loop
                    invariant
                        self.iter.wf(),
                        self.last_event is None,
                        old(self).remaining() == merged(before),
                        merged(seq![EventView::Text(text@)] + self.iter.remaining()) == merged(
                            before,
                        ),
                    decreases self.iter.remaining().len(),
                {
                    let ghost rest = self.iter.remaining();
                    let ghost so_far = text@;
                    match self.iter.next() {
                        Some(Event::Text(more)) => {
                            text.append(more.as_str());
                            proof {
                                lemma_merged_two_texts(so_far, more@, self.iter.remaining());
                                assert(seq![EventView::Text(so_far)] + rest =~= seq![
                                    EventView::Text(so_far),
                                    EventView::Text(more@),
                                ] + self.iter.remaining());
                            }
                        },
                        next => {
                            proof {
                                lemma_merged_last_text(so_far, rest);
                                if rest.len() > 0 {
                                    assert(rest =~= seq![rest[0]] + rest.drop_first());
                                }
                            }
                            self.last_event = next;
                            assert(pending(self.last_event, self.iter.remaining()) =~= rest);
                            assert(merged(before) =~= seq![EventView::Text(so_far)] + merged(
                                rest,
                            ));
                            assert(self.remaining() =~= merged(before).drop_first());
                            return Some(Event::Text(text));
                        },
                    }
                }
            },
            Some(e) => {
                assert(before =~= seq![e@] + source);
                assert(before.drop_first() =~= source);
                Some(e)
            },
        }
    }
}

} // verus!
