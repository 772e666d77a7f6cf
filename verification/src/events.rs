//! Double-buffered event queues.
//!
//! An event queue keeps two generations of events: the previous tick's and
//! the current tick's. Once per tick a rotation drops the previous
//! generation and promotes the current one, so an event stays observable
//! during the tick it was sent and the next tick, and is gone after that.

use vstd::prelude::*;

verus! {

/// A double-buffered queue of events of type `T`.
///
/// `total` counts every event ever sent to this queue; each event's global
/// index is the value of `total` just before it was sent. The retained
/// events are `previous` followed by `current`, holding the globally
/// consecutive indices `total - previous.len() - current.len() .. total`.
pub struct Events<T> {
    previous: Vec<T>,
    current: Vec<T>,
    total: u64,
}

/// The abstract value of an [`Events`] queue.
pub struct EventsModel<T> {
    /// Events of the previous generation, oldest first.
    pub previous: Seq<T>,
    /// Events of the current generation, oldest first.
    pub current: Seq<T>,
    /// Number of events ever sent.
    pub total: nat,
}

impl<T> EventsModel<T> {
    /// All events still observable, oldest first.
    pub open spec fn retained(self) -> Seq<T> {
        self.previous + self.current
    }

    /// Global index of the oldest retained event.
    pub open spec fn oldest_index(self) -> int {
        self.total - self.retained().len()
    }

    /// The queue holds at most as many events as were ever sent, and the
    /// count of events ever sent still fits the machine's index type.
    pub open spec fn wf(self) -> bool {
        self.retained().len() <= self.total && self.total <= usize::MAX
    }

    /// The state one rotation later: the current generation becomes the
    /// previous one and a fresh, empty current generation begins.
    pub open spec fn rotated(self) -> EventsModel<T> {
        EventsModel { previous: self.current, current: Seq::empty(), total: self.total }
    }

    /// The state after sending one more event.
    pub open spec fn sent(self, e: T) -> EventsModel<T> {
        EventsModel {
            previous: self.previous,
            current: self.current.push(e),
            total: (self.total + 1) as nat,
        }
    }
}

impl<T> View for Events<T> {
    type V = EventsModel<T>;

    closed spec fn view(&self) -> EventsModel<T> {
        EventsModel { previous: self.previous@, current: self.current@, total: self.total as nat }
    }
}

impl<T> Events<T> {
    /// An empty queue that has never carried an event.
    pub fn new() -> (r: Events<T>)
        ensures
            r@ == (EventsModel::<T> { previous: Seq::empty(), current: Seq::empty(), total: 0 }),
            r@.wf(),
    {
        Events { previous: Vec::new(), current: Vec::new(), total: 0 }
    }

    /// Appends an event to the current generation.
    pub fn send(&mut self, event: T)
        requires
            old(self)@.wf(),
            old(self)@.total < usize::MAX,
        ensures
            final(self)@ == old(self)@.sent(event),
            final(self)@.wf(),
    {
        self.current.push(event);
        self.total = self.total + 1;
    }

    /// Rotates the buffers: the previous generation is dropped, the current
    /// one becomes previous, and a fresh current generation begins. The
    /// per-tick update system calls this exactly once per tick.
    pub fn update(&mut self)
        ensures
            final(self)@ == old(self)@.rotated(),
            old(self)@.wf() ==> final(self)@.wf(),
    {
        let mut fresh: Vec<T> = Vec::new();
        core::mem::swap(&mut self.current, &mut fresh);
        self.previous = fresh;
    }

    /// Number of retained (observable) events.
    pub fn len(&self) -> (r: usize)
        requires
            self@.wf(),
        ensures
            r == self@.retained().len(),
    {
        self.previous.len() + self.current.len()
    }

    /// The retained event at position `i` (0 is the oldest retained one).
    pub fn get(&self, i: usize) -> (r: &T)
        requires
            i < self@.retained().len(),
        ensures
            *r == self@.retained()[i as int],
    {
        if i < self.previous.len() {
            &self.previous[i]
        } else {
            &self.current[i - self.previous.len()]
        }
    }

    /// Number of events ever sent.
    pub fn total(&self) -> (r: u64)
        ensures
            r == self@.total,
    {
        self.total
    }
}

impl<T: Copy> Events<T> {
    /// Copies out all retained events, oldest first.
    pub fn retained_events(&self) -> (r: Vec<T>)
        ensures
            r@ == self@.retained(),
    {
        let mut out: Vec<T> = Vec::new();
        let mut i: usize = 0;
        while i < self.previous.len()
            invariant
                i <= self.previous@.len(),
                out@ == self.previous@.take(i as int),
            decreases self.previous@.len() - i,
        {
            out.push(self.previous[i]);
            proof {
                assert(out@ == self.previous@.take(i + 1 as int));
            }
            i = i + 1;
        }
        proof {
            assert(self.previous@.take(self.previous@.len() as int) == self.previous@);
        }
        let mut j: usize = 0;
        while j < self.current.len()
            invariant
                j <= self.current@.len(),
                out@ == self.previous@ + self.current@.take(j as int),
            decreases self.current@.len() - j,
        {
            out.push(self.current[j]);
            proof {
                assert(out@ == self.previous@ + self.current@.take(j + 1 as int));
            }
            j = j + 1;
        }
        proof {
            assert(self.current@.take(self.current@.len() as int) == self.current@);
        }
        out
    }
}

/// A cursor over an event queue: remembers how many events it has already
/// seen, by global index.
pub struct ManualEventReader {
    last_count: u64,
}

impl View for ManualEventReader {
    type V = nat;

    closed spec fn view(&self) -> nat {
        self.last_count as nat
    }
}

impl ManualEventReader {
    /// A reader that has seen nothing yet.
    pub fn new() -> (r: ManualEventReader)
        ensures
            r@ == 0,
    {
        ManualEventReader { last_count: 0 }
    }

    /// The events this reader observes in `events`: every retained event it
    /// has not seen before, oldest first.
    pub open spec fn observable<T>(self, events: EventsModel<T>) -> Seq<T> {
        if self@ <= events.oldest_index() {
            events.retained()
        } else if self@ >= events.total {
            Seq::empty()
        } else {
            events.retained().skip(self@ - events.oldest_index())
        }
    }

    /// Reads all not-yet-seen retained events and advances the cursor past
    /// everything ever sent.
    pub fn read<T: Copy>(&mut self, events: &Events<T>) -> (r: Vec<T>)
        requires
            events@.wf(),
        ensures
            r@ == old(self).observable(events@),
            final(self)@ == events@.total,
    {
        let retained = events.retained_events();
        let oldest: u64 = events.total - (retained.len() as u64);
        let skip: usize = if self.last_count <= oldest {
            0
        } else if self.last_count >= events.total {
            retained.len()
        } else {
            (self.last_count - oldest) as usize
        };
        self.last_count = events.total;
        let mut out: Vec<T> = Vec::new();
        let mut i: usize = skip;
        while i < retained.len()
            invariant
                skip <= i <= retained@.len(),
                out@ == retained@.subrange(skip as int, i as int),
            decreases retained@.len() - i,
        {
            out.push(retained[i]);
            proof {
                assert(out@ == retained@.subrange(skip as int, i + 1 as int));
            }
            i = i + 1;
        }
        proof {
            assert(out@ == retained@.skip(skip as int));
        }
        out
    }
}

/// Two-tick visibility law of the double buffer.
///
/// Take a queue during some tick, and an event `e` sent during that tick
/// (it sits in the current generation). However many further events are
/// sent this tick, `e` stays retained for the rest of the tick; after the
/// rotation that opens the next tick it is still retained, whatever that
/// tick sends; and after the following rotation it is dropped: the
/// retained events are then exactly the next tick's sends, and `e`'s
/// global index lies strictly before every one of them.
pub proof fn lemma_two_tick_visibility<T>(
    e: EventsModel<T>,
    i: int,
    later_this_tick: Seq<T>,
    next_tick: Seq<T>,
)
    requires
        e.wf(),
        0 <= i < e.current.len(),
    ensures
        ({
            let end_of_tick = EventsModel {
                previous: e.previous,
                current: e.current + later_this_tick,
                total: (e.total + later_this_tick.len()) as nat,
            };
            let in_next_tick = EventsModel {
                previous: end_of_tick.rotated().previous,
                current: next_tick,
                total: (end_of_tick.total + next_tick.len()) as nat,
            };
            let after_two = in_next_tick.rotated();
            &&& end_of_tick.retained().contains(e.current[i])
            &&& in_next_tick.retained().contains(e.current[i])
            &&& after_two.retained() == next_tick
            &&& after_two.oldest_index() > e.oldest_index() + e.previous.len() + i
        }),
{
    let end_of_tick = EventsModel {
        previous: e.previous,
        current: e.current + later_this_tick,
        total: (e.total + later_this_tick.len()) as nat,
    };
    let in_next_tick = EventsModel {
        previous: end_of_tick.rotated().previous,
        current: next_tick,
        total: (end_of_tick.total + next_tick.len()) as nat,
    };
    let v = e.current[i];
    assert(end_of_tick.retained()[e.previous.len() + i] == v);
    assert(in_next_tick.retained()[i] == v);
    assert(in_next_tick.rotated().retained() == next_tick) by {
        assert(in_next_tick.rotated().retained() =~= next_tick);
    }
}

} // verus!
