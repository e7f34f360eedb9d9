//! Bounded handoff of native actions that must mutate GTK outside Ghostty callbacks.
use std::collections::VecDeque;
use vstd::prelude::*;

verus! {

/// Largest number of queued events.
pub const CAPACITY: usize = 128;
/// Largest number of events handed to one GTK turn.
pub const PER_TURN: usize = 16;

/// An owned pane identity; closed panes are ignored when GTK consumes the event.
#[derive(Clone, Copy, Debug, PartialEq, Eq, Structural)]
pub enum Event {
    Bell(u64),
    NewTerminalTab(u64),
}

/// Pending native events in arrival order, with the count of events refused since the last take.
pub struct Pending {
    pub events: VecDeque<Event>,
    pub dropped: usize,
}

/// What a push does to the queue contents: a bell already queued for the same pane is
/// coalesced, a full queue refuses the event, anything else is appended.
pub open spec fn push_outcome(events: Seq<Event>, event: Event) -> (Seq<Event>, bool) {
    if event is Bell && events.contains(event) {
        (events, true)
    } else if events.len() == CAPACITY {
        (events, false)
    } else {
        (events.push(event), true)
    }
}

impl Default for Pending {
    /// An empty queue with no refused events.
    fn default() -> (p: Self)
        ensures
            p@ == Seq::<Event>::empty(),
            p.dropped == 0,
    {
        Pending::new()
    }
}

impl Pending {
    /// The queue never holds more than its capacity.
    pub open spec fn wf(&self) -> bool {
        self@.len() <= CAPACITY
    }

    /// The queued events, oldest first.
    pub open spec fn view(&self) -> Seq<Event> {
        self.events@
    }

    /// An empty queue with no refused events.
    pub fn new() -> (p: Self)
        ensures
            p@ == Seq::<Event>::empty(),
            p.dropped == 0,
            p.wf(),
    {
        Pending { events: VecDeque::new(), dropped: 0 }
    }

    /// Whether `event` is already queued.
    fn contains(&self, event: Event) -> (r: bool)
        ensures
            r == self@.contains(event),
    {
        let mut i: usize = 0;
        while i < self.events.len()
            invariant
                i <= self@.len(),
                forall|j: int| 0 <= j < i ==> self@[j] != event,
            decreases self@.len() - i,
        {
            if self.events[i] == event {
                assert(self@[i as int] == event);
                return true;
            }
            i = i + 1;
        }
        false
    }

    /// Preserve FIFO order and coalesce only redundant bell attention for the same pane.
    /// A full queue refuses the event, counts it as dropped and returns false.
    pub fn push(&mut self, event: Event) -> (accepted: bool)
        requires
            old(self).wf(),
        ensures
            final(self).wf(),
            (final(self)@, accepted) == push_outcome(old(self)@, event),
            final(self).dropped == if accepted {
                old(self).dropped as int
            } else if old(self).dropped == usize::MAX {
                usize::MAX as int
            } else {
                old(self).dropped + 1
            },
    {
        let is_bell = match event {
            Event::Bell(_) => true,
            Event::NewTerminalTab(_) => false,
        };
        if is_bell && self.contains(event) {
            return true;
        }
        if self.events.len() == CAPACITY {
            self.dropped = self.dropped.saturating_add(1);
            return false;
        }
        self.events.push_back(event);
        true
    }

    /// Take a bounded batch and the refusal count, retaining later events for the next GTK turn.
    pub fn take(&mut self) -> (r: (Vec<Event>, usize))
        requires
            old(self).wf(),
        ensures
            final(self).wf(),
            r.0@ == old(self)@.take(min_len(old(self)@.len() as int, PER_TURN as int)),
            final(self)@ == old(self)@.skip(min_len(old(self)@.len() as int, PER_TURN as int)),
            r.1 == old(self).dropped,
            final(self).dropped == 0,
    {
        let count = if self.events.len() < PER_TURN { self.events.len() } else { PER_TURN };
        let ghost initial = self@;
        let ghost dropped0 = self.dropped;
        let mut batch: Vec<Event> = Vec::new();
        let mut i: usize = 0;
        while i < count
            invariant
                count == min_len(initial.len() as int, PER_TURN as int),
                i <= count,
                batch@ == initial.take(i as int),
                self@ == initial.skip(i as int),
                self.dropped == dropped0,
            decreases count - i,
        {
            let event = self.events.pop_front();
            match event {
                Some(event) => {
                    batch.push(event);
                },
                None => {
                    assert(false);
                },
            }
            i = i + 1;
            assert(batch@ =~= initial.take(i as int));
            assert(self@ =~= initial.skip(i as int));
        }
        let dropped = self.dropped;
        self.dropped = 0;
        (batch, dropped)
    }
}

/// The smaller of a length and a bound.
pub open spec fn min_len(len: int, bound: int) -> int {
    if len < bound { len } else { bound }
}

/// Events leave the queue in the order in which they were accepted: pushing an event that is
/// appended and then taking a batch gives the earlier contents first.
pub proof fn law_events_fifo(events: Seq<Event>, event: Event)
    requires
        events.len() < CAPACITY,
        !(event is Bell && events.contains(event)),
    ensures
        push_outcome(events, event) == (events.push(event), true),
        push_outcome(events, event).0.take(events.len() as int) == events,
        push_outcome(events, event).0[events.len() as int] == event,
{
    assert(events.push(event).take(events.len() as int) =~= events);
}

/// A bell for a pane that is already queued changes nothing and is reported as accepted.
pub proof fn law_bell_coalesced(events: Seq<Event>, pane: u64)
    requires
        events.contains(Event::Bell(pane)),
    ensures
        push_outcome(events, Event::Bell(pane)) == (events, true),
{
}

} // verus!
