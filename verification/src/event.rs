//! Deadline scheduler: an ordered collection of deferred events keyed by
//! expiry instant, with a cached "next wake" time that is re-armed whenever
//! membership changes.
//!
//! Timestamps are absolute instants in milliseconds.  The caller that wants a
//! blocking "wait for next" sleeps until [`EventQueue::wake_at`] and then
//! calls [`EventQueue::next`]; inserting an event whose expiry has already
//! passed drives the wake time at or below that expiry, so the wait returns
//! without unbounded delay.

use vstd::prelude::*;
use vstd::seq_lib::to_multiset_insert;
use vstd::seq_lib::to_multiset_remove;

verus! {

/// Far-future sentinel wake time: makes "no next event" representable
/// without a nullable wake time and avoids busy-waiting.
pub const FAR_FUTURE: u64 = 0xFFFF_FFFF_FFFF_FFFF;

/// A deferred event: `expires` is an absolute timestamp in milliseconds,
/// `id` names the deferred work and breaks ties between equal deadlines.
#[derive(Clone, Copy, PartialEq, Eq, Structural, Debug)]
pub struct Event {
    pub expires: u64,
    pub id: u64,
}

/// Total order on events: first by expiry, then by id.  The tie-break makes
/// delivery order deterministic for equal deadlines.
pub open spec fn event_le(a: Event, b: Event) -> bool {
    a.expires < b.expires || (a.expires == b.expires && a.id <= b.id)
}

/// Every pair of positions in `s` is ordered by `event_le`.
pub open spec fn events_sorted(s: Seq<Event>) -> bool {
    forall|i: int, j: int| 0 <= i < j < s.len() ==> event_le(s[i], s[j])
}

/// Insertion into a sorted sequence: the new event goes behind every event
/// ordered at or before it, so the result of [`EventQueue::insert`] is
/// pinned exactly.
pub open spec fn sorted_insert(s: Seq<Event>, e: Event) -> Seq<Event>
    decreases s.len(),
{
    if s.len() == 0 {
        seq![e]
    } else if event_le(s[0], e) {
        seq![s[0]] + sorted_insert(s.drop_first(), e)
    } else {
        seq![e] + s
    }
}

proof fn lemma_sorted_insert_at(s: Seq<Event>, e: Event, idx: int)
    requires
        0 <= idx <= s.len(),
        forall|k: int| 0 <= k < idx ==> event_le(s[k], e),
        idx < s.len() ==> !event_le(s[idx], e),
    ensures
        sorted_insert(s, e) =~= s.insert(idx, e),
    decreases idx,
{
    if idx == 0 {
        if s.len() > 0 {
            assert(sorted_insert(s, e) =~= s.insert(0, e));
        }
    } else {
        assert(event_le(s[0], e));
        assert forall|k: int| 0 <= k < idx - 1 implies event_le(s.drop_first()[k], e) by {
            assert(s.drop_first()[k] == s[k + 1]);
        }
        if idx - 1 < s.drop_first().len() {
            assert(s.drop_first()[idx - 1] == s[idx]);
        }
        lemma_sorted_insert_at(s.drop_first(), e, idx - 1);
        assert(sorted_insert(s, e) =~= s.insert(idx, e));
    }
}

fn event_le_exec(a: &Event, b: &Event) -> (r: bool)
    ensures
        r == event_le(*a, *b),
{
    a.expires < b.expires || (a.expires == b.expires && a.id <= b.id)
}

/// The pending events, kept sorted by `(expires, id)` at all times, with the
/// cached wake time of the earliest one.
pub struct EventQueue {
    events: Vec<Event>,
    next_wake: u64,
}

impl View for EventQueue {
    type V = Seq<Event>;

    closed spec fn view(&self) -> Seq<Event> {
        self.events@
    }
}

impl EventQueue {
    /// The cached wake time: the earliest pending expiry, or the far-future
    /// sentinel when nothing is pending.
    pub closed spec fn wake(&self) -> u64 {
        self.next_wake
    }

    /// Well-formedness: the backing sequence is sorted and the cached wake
    /// time matches the front element (or the sentinel when empty).
    pub open spec fn wf(&self) -> bool {
        &&& events_sorted(self@)
        &&& self.wake() == if self@.len() == 0 {
            FAR_FUTURE
        } else {
            self@[0].expires
        }
    }

    /// An empty queue, armed at the far-future sentinel.
    pub fn new() -> (q: Self)
        ensures
            q.wf(),
            q@ == Seq::<Event>::empty(),
            q.wake() == FAR_FUTURE,
    {
        let q = Self { events: Vec::new(), next_wake: FAR_FUTURE };
        proof {
            assert(q@ =~= Seq::<Event>::empty());
        }
        q
    }

    /// Number of pending events.
    pub fn len(&self) -> (n: usize)
        ensures
            n == self@.len(),
    {
        self.events.len()
    }

    /// The instant the owner should sleep until before calling [`Self::next`].
    pub fn wake_at(&self) -> (t: u64)
        ensures
            t == self.wake(),
    {
        self.next_wake
    }

    /// Adds an event in sorted position and pulls the cached wake time down
    /// to its expiry if the new event is sooner.  The wake time never exceeds
    /// the expiry of anything just inserted, so a deadline already in the
    /// past makes the next wait return without unbounded delay.
    pub fn insert(&mut self, event: Event)
        requires
            old(self).wf(),
            old(self)@.len() < usize::MAX,
        ensures
            final(self).wf(),
            final(self)@ == sorted_insert(old(self)@, event),
            final(self)@.len() == old(self)@.len() + 1,
            final(self)@.to_multiset() == old(self)@.to_multiset().insert(event),
            final(self).wake() == if event.expires < old(self).wake() {
                event.expires
            } else {
                old(self).wake()
            },
            final(self).wake() <= event.expires,
    {
        let ghost s = self.events@;
        let mut idx: usize = 0;
        while idx < self.events.len() && event_le_exec(&self.events[idx], &event)
            invariant
                idx <= self.events.len(),
                self.events@ == s,
                forall|k: int| 0 <= k < idx ==> event_le(s[k], event),
            decreases self.events@.len() - idx,
        {
            idx += 1;
        }
        self.events.insert(idx, event);
        if event.expires < self.next_wake {
            self.next_wake = event.expires;
        }
        proof {
            let t = self.events@;
            assert forall|i: int, j: int| 0 <= i < j < t.len() implies event_le(t[i], t[j]) by {
                if j < idx {
                    assert(event_le(s[i], s[j]));
                } else if i < idx && j == idx {
                    assert(event_le(s[i], event));
                } else if i < idx && j > idx {
                    assert(event_le(s[i], s[j - 1]));
                } else if i == idx && j > idx {
                    assert(event_le(s[idx as int], s[j - 1]));
                } else if i > idx {
                    assert(event_le(s[i - 1], s[j - 1]));
                }
            }
            to_multiset_insert(s, idx as int, event);
            lemma_sorted_insert_at(s, event, idx as int);
        }
    }

    /// Removes and returns the earliest event (least by `(expires, id)`),
    /// and re-arms the cached wake time from the new front element.  The
    /// caller must have slept until [`Self::wake_at`], which equals the
    /// returned event's expiry.
    pub fn next(&mut self) -> (event: Event)
        requires
            old(self).wf(),
            old(self)@.len() > 0,
        ensures
            final(self).wf(),
            event == old(self)@[0],
            event.expires == old(self).wake(),
            final(self)@ == old(self)@.remove(0),
            final(self)@.to_multiset() == old(self)@.to_multiset().remove(event),
            forall|i: int| 0 <= i < final(self)@.len() ==> event_le(event, final(self)@[i]),
    {
        let ghost s = self.events@;
        let event = self.events.remove(0);
        if self.events.len() > 0 {
            self.next_wake = self.events[0].expires;
        } else {
            self.next_wake = FAR_FUTURE;
        }
        proof {
            to_multiset_remove(s, 0);
        }
        event
    }
}

/// Scheduler monotonicity: whatever was inserted, the pending sequence is
/// ordered by `(expires, id)`, so repeated calls of [`EventQueue::next`]
/// return events in non-decreasing expiry order, tie-broken by ascending id.
pub proof fn lemma_schedule_monotone(q: EventQueue)
    requires
        q.wf(),
    ensures
        forall|i: int, j: int| 0 <= i <= j < q@.len() ==> event_le(q@[i], q@[j]),
{
    assert forall|i: int, j: int| 0 <= i <= j < q@.len() implies event_le(q@[i], q@[j]) by {
        if i < j {
            assert(event_le(q@[i], q@[j]));
        }
    }
}

} // verus!
