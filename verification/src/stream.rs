//! Pull-based event streams.
//!
//! Every stage of a conversion hands out one event at a time. What a stream will
//! still produce is a mathematical sequence, so a rewriter can say exactly which
//! sequence it turns its source into.
use std::collections::VecDeque;
use vstd::prelude::*;

verus! {

/// The views of a sequence of values, one for one.
pub open spec fn views<E: View>(s: Seq<E>) -> Seq<E::V> {
    s.map_values(|e: E| e@)
}

/// The views of a sequence with one more value at its end.
pub proof fn lemma_views_push<E: View>(s: Seq<E>, e: E)
    ensures
        views(s.push(e)) == views(s).push(e@),
{
    assert(views(s.push(e)) =~= views(s).push(e@));
}

/// The views of two sequences, one after the other.
pub proof fn lemma_views_add<E: View>(a: Seq<E>, b: Seq<E>)
    ensures
        views(a + b) == views(a) + views(b),
{
    assert(views(a + b) =~= views(a) + views(b));
}

/// The views of a sequence without its first value.
pub proof fn lemma_views_drop_first<E: View>(s: Seq<E>)
    requires
        s.len() > 0,
    ensures
        views(s.drop_first()) == views(s).drop_first(),
{
    assert(views(s.drop_first()) =~= views(s).drop_first());
}

/// A finite source of items that is pulled one item at a time.
pub trait EventStream {
    type Item: View;

    /// What the stream needs in order to be pulled without a fault.
    spec fn wf(&self) -> bool;

    /// The views of the items that the stream has yet to hand out, in order.
    spec fn remaining(&self) -> Seq<<Self::Item as View>::V>;

    /// Hands out the next item, or `None` once the stream is exhausted.
    fn next(&mut self) -> (r: Option<Self::Item>)
        requires
            old(self).wf(),
        ensures
            final(self).wf(),
            old(self).remaining().len() == 0 ==> r is None && final(self).remaining() == old(
                self,
            ).remaining(),
            old(self).remaining().len() > 0 ==> r is Some && r->0@ == old(self).remaining()[0]
                && final(self).remaining() == old(self).remaining().drop_first(),
    ;
}

/// A stream over a list of items held in memory.
pub struct VecStream<E> {
    items: VecDeque<E>,
}

impl<E: View> VecStream<E> {
    /// A stream that hands out the items of the list, from the first to the last.
    pub fn new(items: Vec<E>) -> (r: Self)
        ensures
            r.wf(),
            r.remaining() == views(items@),
    {
        let mut queue: VecDeque<E> = VecDeque::new();
        for e in it: items
            invariant
                it.seq() == items@,
                queue@ == it.seq().take(it.index() as int),
        {
            queue.push_back(e);
        }
        VecStream { items: queue }
    }
}

impl<E: View> EventStream for VecStream<E> {
    type Item = E;

    closed spec fn wf(&self) -> bool {
        true
    }

    closed spec fn remaining(&self) -> Seq<E::V> {
        views(self.items@)
    }

    fn next(&mut self) -> (r: Option<E>) {
        let r = self.items.pop_front();
        proof {
            if old(self).items@.len() > 0 {
                lemma_views_drop_first(old(self).items@);
                assert(self.items@ =~= old(self).items@.drop_first());
            }
        }
        r
    }
}

/// Pulls a stream until it is exhausted and returns everything it handed out.
pub fn collect<S: EventStream>(stream: S) -> (out: Vec<S::Item>)
    requires
        stream.wf(),
    ensures
        views(out@) == stream.remaining(),
{
    let mut stream = stream;
    let mut out: Vec<S::Item> = Vec::new();
    let ghost all = stream.remaining();
    loop
        invariant
            stream.wf(),
            views(out@) + stream.remaining() == all,
        ensures
            views(out@) == all,
        decreases stream.remaining().len(),
    {
        match stream.next() {
            Some(e) => {
                proof {
                    lemma_views_push(out@, e);
                }
                out.push(e);
                assert(views(out@) + stream.remaining() =~= all);
            },
            None => {
                assert(views(out@) + stream.remaining() =~= views(out@));
                break ;
            },
        }
    }
    out
}

/// A rewriter: a stream that is fed by another stream of the same items.
pub trait Stage: EventStream + Sized {
    type Source: EventStream<Item = Self::Item>;

    /// What the rewriter, set up anew, makes of the items of its source.
    spec fn applied(items: Seq<<Self::Item as View>::V>) -> Seq<<Self::Item as View>::V>;

    /// The rewriter, set up anew on a source.
    fn wrap(source: Self::Source) -> (r: Self)
        requires
            source.wf(),
        ensures
            r.wf(),
            r.remaining() == Self::applied(source.remaining()),
    ;
}

/// A stage that can be switched off, in which case its source is handed through
/// untouched.
pub enum Switch<S: Stage> {
    On(S),
    Off(S::Source),
}

impl<S: Stage> Switch<S> {
    /// The stage `S` on `source` where `on` holds, else `source` itself.
    pub fn new(source: S::Source, on: bool) -> (r: Self)
        requires
            source.wf(),
        ensures
            r.wf(),
            r.remaining() == if on {
                S::applied(source.remaining())
            } else {
                source.remaining()
            },
    {
        if on {
            Switch::On(S::wrap(source))
        } else {
            Switch::Off(source)
        }
    }
}

impl<S: Stage> EventStream for Switch<S> {
    type Item = S::Item;

    open spec fn wf(&self) -> bool {
        match self {
            Switch::On(s) => s.wf(),
            Switch::Off(s) => s.wf(),
        }
    }

    open spec fn remaining(&self) -> Seq<<S::Item as View>::V> {
        match self {
            Switch::On(s) => s.remaining(),
            Switch::Off(s) => s.remaining(),
        }
    }

    fn next(&mut self) -> (r: Option<S::Item>) {
        match self {
            Switch::On(s) => s.next(),
            Switch::Off(s) => s.next(),
        }
    }
}

} // verus!
