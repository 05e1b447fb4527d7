//! Removal of HTML from Markdown events.
use crate::markdown;
use crate::stream::{EventStream, Stage};
use crate::{ParserEvent, ParserEventView};
use vstd::prelude::*;

verus! {

/// Whether an event is a Markdown HTML node.
pub open spec fn is_html(e: ParserEventView) -> bool {
    e matches ParserEventView::Markdown(markdown::EventView::Html(_))
}

/// The events that are no Markdown HTML nodes, in their order.
pub open spec fn html_stripped(events: Seq<ParserEventView>) -> Seq<ParserEventView>
    decreases events.len(),
{
    if events.len() == 0 {
        Seq::empty()
    } else if is_html(events[0]) {
        html_stripped(events.drop_first())
    } else {
        seq![events[0]] + html_stripped(events.drop_first())
    }
}

/// Strips out Markdown HTML.
#[derive(Debug)]
pub struct StripHtml<T> {
    iter: T,
}

impl<T: EventStream<Item = ParserEvent>> StripHtml<T> {
    /// The events of `iter`, without the HTML.
    pub fn new(iter: T) -> (r: Self)
        requires
            iter.wf(),
        ensures
            r.wf(),
            r.remaining() == html_stripped(iter.remaining()),
    {
        StripHtml { iter }
    }
}

impl<T: EventStream<Item = ParserEvent>> EventStream for StripHtml<T> {
    type Item = ParserEvent;

    closed spec fn wf(&self) -> bool {
        self.iter.wf()
    }

    closed spec fn remaining(&self) -> Seq<ParserEventView> {
        html_stripped(self.iter.remaining())
    }

    fn next(&mut self) -> (r: Option<ParserEvent>) {
        loop
            invariant
                self.iter.wf(),
                self.remaining() == old(self).remaining(),
            decreases self.iter.remaining().len(),
        {
            let ghost events = self.iter.remaining();
            match self.iter.next() {
                Some(ParserEvent::Markdown(markdown::Event::Html(_))) => {},
                Some(x) => {
                    assert(self.remaining() =~= html_stripped(events).drop_first());
                    return Some(x);
                },
                None => {
                    return None;
                },
            }
        }
    }
}

impl<T: EventStream<Item = ParserEvent>> Stage for StripHtml<T> {
    type Source = T;

    open spec fn applied(items: Seq<ParserEventView>) -> Seq<ParserEventView> {
        html_stripped(items)
    }

    fn wrap(source: T) -> (r: Self) {
        StripHtml::new(source)
    }
}

} // verus!
