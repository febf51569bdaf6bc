//! The append-only history of a computation.

use vstd::prelude::*;
use crate::kernel::event::{event_text, Event, SpecEvent, Symbol};

verus! {

/// Number of `Pop` events in `h`.
pub open spec fn count_pops(h: Seq<SpecEvent>) -> nat
    decreases h.len(),
{
    if h.len() == 0 {
        0
    } else {
        count_pops(h.drop_last()) + if h.last() is Pop { 1nat } else { 0nat }
    }
}

/// Number of `Refuse` events in `h`.
pub open spec fn count_refusals(h: Seq<SpecEvent>) -> nat
    decreases h.len(),
{
    if h.len() == 0 {
        0
    } else {
        count_refusals(h.drop_last()) + if h.last() is Refuse { 1nat } else { 0nat }
    }
}

/// Whether `h` holds a `Pop` of `s`.
pub open spec fn ever_popped(h: Seq<SpecEvent>, s: Seq<char>) -> bool {
    exists|i: int| 0 <= i < h.len() && h[i] == SpecEvent::Pop(s)
}

/// Whether `e` refuses `s`.
pub open spec fn refuses(e: SpecEvent, s: Seq<char>) -> bool {
    e matches SpecEvent::Refuse { target, .. } && target == s
}

/// Whether `h` holds a `Refuse` of `s`.
pub open spec fn ever_refused(h: Seq<SpecEvent>, s: Seq<char>) -> bool {
    exists|i: int| 0 <= i < h.len() && #[trigger] refuses(h[i], s)
}

/// The events of `h` rendered and separated by `", "`.
pub open spec fn events_joined(h: Seq<SpecEvent>) -> Seq<char>
    decreases h.len(),
{
    if h.len() == 0 {
        Seq::empty()
    } else if h.len() == 1 {
        event_text(h[0])
    } else {
        events_joined(h.drop_last()) + ", "@ + event_text(h.last())
    }
}

/// The display text of a history.
pub open spec fn history_text(h: Seq<SpecEvent>) -> Seq<char> {
    "["@ + events_joined(h) + "]"@
}

/// History is the identity of a computation. It grows monotonically:
/// events are never removed or reordered.
#[derive(Debug, PartialEq, Eq, Default)]
pub struct History {
    events: Vec<Event>,
}

impl View for History {
    type V = Seq<SpecEvent>;

    closed spec fn view(&self) -> Seq<SpecEvent> {
        self.events@.map_values(|e: Event| e@)
    }
}

impl Clone for History {
    fn clone(&self) -> (r: Self)
        ensures
            r@ == self@,
    {
        let mut events: Vec<Event> = Vec::new();
        let mut i: usize = 0;
        while i < self.events.len()
            invariant
                i <= self.events@.len(),
                events@ == self.events@.take(i as int),
            decreases self.events@.len() - i,
        {
            let e = self.events[i].clone();
            events.push(e);
            assert(events@ =~= self.events@.take(i + 1));
            i = i + 1;
        }
        assert(self.events@.take(i as int) =~= self.events@);
        History { events }
    }
}

impl History {
    /// The empty history.
    pub fn new() -> (r: History)
        ensures
            r@ == Seq::<SpecEvent>::empty(),
    {
        let r = History { events: Vec::new() };
        assert(r@ =~= Seq::<SpecEvent>::empty());
        r
    }

    /// Record one more event at the end.
    pub fn append(&mut self, event: Event)
        ensures
            final(self)@ == old(self)@.push(event@),
    {
        self.events.push(event);
        assert(self@ =~= old(self)@.push(event@));
    }

    /// The recorded events, oldest first.
    pub fn events(&self) -> (r: &[Event])
        ensures
            r@.map_values(|e: Event| e@) == self@,
    {
        self.events.as_slice()
    }

    /// Number of recorded events.
    pub fn len(&self) -> (r: usize)
        ensures
            r == self@.len(),
    {
        self.events.len()
    }

    /// Whether no event has been recorded.
    pub fn is_empty(&self) -> (r: bool)
        ensures
            r == (self@.len() == 0),
    {
        self.events.len() == 0
    }

    /// Append all events of `other`, in order.
    pub fn meld(&mut self, other: &History)
        ensures
            final(self)@ == old(self)@ + other@,
    {
        let mut i: usize = 0;
        while i < other.events.len()
            invariant
                i <= other.events@.len(),
                self.events@ == old(self).events@ + other.events@.take(i as int),
            decreases other.events@.len() - i,
        {
            let e = other.events[i].clone();
            self.events.push(e);
            assert(self.events@ =~= old(self).events@ + other.events@.take(i + 1));
            i = i + 1;
        }
        assert(other.events@.take(i as int) =~= other.events@);
        assert(self@ =~= old(self)@ + other@);
    }

    /// Number of `Pop` events.
    pub fn pop_count(&self) -> (r: usize)
        ensures
            r == count_pops(self@),
    {
        let mut n: usize = 0;
        let mut i: usize = 0;
        while i < self.events.len()
            invariant
                i <= self.events@.len(),
                n == count_pops(self@.take(i as int)),
                n <= i,
            decreases self.events@.len() - i,
        {
            assert(self@.take(i + 1).drop_last() =~= self@.take(i as int));
            if let Event::Pop(_) = &self.events[i] {
                n = n + 1;
            }
            i = i + 1;
        }
        assert(self@.take(i as int) =~= self@);
        n
    }

    /// Number of `Refuse` events.
    pub fn refuse_count(&self) -> (r: usize)
        ensures
            r == count_refusals(self@),
    {
        let mut n: usize = 0;
        let mut i: usize = 0;
        while i < self.events.len()
            invariant
                i <= self.events@.len(),
                n == count_refusals(self@.take(i as int)),
                n <= i,
            decreases self.events@.len() - i,
        {
            assert(self@.take(i + 1).drop_last() =~= self@.take(i as int));
            if let Event::Refuse { .. } = &self.events[i] {
                n = n + 1;
            }
            i = i + 1;
        }
        assert(self@.take(i as int) =~= self@);
        n
    }

    /// Whether `s` was ever popped.
    pub fn ever_popped(&self, s: &Symbol) -> (r: bool)
        ensures
            r == ever_popped(self@, s@),
    {
        let mut i: usize = 0;
        while i < self.events.len()
            invariant
                i <= self.events@.len(),
                forall|j: int| 0 <= j < i ==> self@[j] != SpecEvent::Pop(s@),
            decreases self.events@.len() - i,
        {
            if let Event::Pop(x) = &self.events[i] {
                if x.same(s) {
                    assert(self@[i as int] == SpecEvent::Pop(s@));
                    return true;
                }
            }
            i = i + 1;
        }
        false
    }

    /// Whether `s` was ever refused.
    pub fn ever_refused(&self, s: &Symbol) -> (r: bool)
        ensures
            r == ever_refused(self@, s@),
    {
        let mut i: usize = 0;
        while i < self.events.len()
            invariant
                i <= self.events@.len(),
                forall|j: int| 0 <= j < i ==> !refuses(#[trigger] self@[j], s@),
            decreases self.events@.len() - i,
        {
            if let Event::Refuse { target, .. } = &self.events[i] {
                if target.same(s) {
                    assert(refuses(self@[i as int], s@));
                    return true;
                }
            }
            i = i + 1;
        }
        false
    }

    /// The display text of the history.
    pub fn to_text(&self) -> (r: String)
        ensures
            r@ == history_text(self@),
    {
        let mut out = String::new();
        out.append("[");
        let mut i: usize = 0;
        while i < self.events.len()
            invariant
                i <= self.events@.len(),
                out@ == "["@ + events_joined(self@.take(i as int)),
            decreases self.events@.len() - i,
        {
            assert(self@.take(i + 1).drop_last() =~= self@.take(i as int));
            if i > 0 {
                out.append(", ");
            }
            self.events[i].write_text(&mut out);
            proof {
                if i == 0 {
                    assert(events_joined(self@.take(1)) == event_text(self@.take(1)[0]));
                }
            }
            assert(out@ =~= "["@ + events_joined(self@.take(i + 1)));
            i = i + 1;
        }
        assert(self@.take(i as int) =~= self@);
        out.append("]");
        out
    }
}

proof fn lemma_count_refusals_push(h: Seq<SpecEvent>, e: SpecEvent)
    ensures
        count_refusals(h.push(e)) == count_refusals(h) + if e is Refuse { 1nat } else { 0nat },
{
    assert(h.push(e).drop_last() =~= h);
}

/// Removing the event at `i` removes its contribution to the refusal count.
proof fn lemma_count_refusals_remove(h: Seq<SpecEvent>, i: int)
    requires
        0 <= i < h.len(),
    ensures
        count_refusals(h) == count_refusals(h.remove(i)) + if h[i] is Refuse { 1nat } else { 0nat },
    decreases h.len(),
{
    if i == h.len() - 1 {
        assert(h.remove(i) =~= h.drop_last());
    } else {
        lemma_count_refusals_remove(h.drop_last(), i);
        assert(h.remove(i).drop_last() =~= h.drop_last().remove(i));
        assert(h.remove(i).last() == h.last());
    }
}

/// The number of refusals does not depend on order: two histories that
/// hold the same events, each as many times, hold as many refusals.
pub proof fn law_refusal_count_ignores_order(h1: Seq<SpecEvent>, h2: Seq<SpecEvent>)
    requires
        h1.to_multiset() == h2.to_multiset(),
    ensures
        count_refusals(h1) == count_refusals(h2),
    decreases h1.len(),
{
    broadcast use vstd::seq_lib::group_to_multiset_ensures;

    if h1.len() == 0 {
        assert(h2.to_multiset().len() == 0);
        assert(h2.len() == 0);
    } else {
        let e = h1.last();
        let rest = h1.drop_last();
        assert(h1 =~= rest.push(e));
        assert(h1.to_multiset() == rest.to_multiset().insert(e));
        assert(h2.to_multiset().count(e) > 0);
        assert(h2.contains(e));
        let i = choose|i: int| 0 <= i < h2.len() && h2[i] == e;
        assert(h2.remove(i).to_multiset() == h2.to_multiset().remove(e));
        assert(rest.to_multiset() =~= rest.to_multiset().insert(e).remove(e));
        law_refusal_count_ignores_order(rest, h2.remove(i));
        lemma_count_refusals_remove(h2, i);
        lemma_count_refusals_push(rest, e);
    }
}

} // verus!
