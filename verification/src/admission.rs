//! Connection admission: a fixed number of slots, refusals counted, slots reused on release.
use vstd::prelude::*;

verus! {

/// Connections served at once.
pub const CAPACITY: usize = 64;

/// Admission state: the capacity, the slots held, and the refusals counted (modulo 2^64).
pub type SlotsModel = (usize, usize, u64);

/// Admission: a free slot is taken, otherwise the refusal is counted.
pub open spec fn spec_admit(m: SlotsModel) -> (SlotsModel, bool) {
    if m.1 < m.0 {
        ((m.0, (m.1 + 1) as usize, m.2), true)
    } else {
        ((m.0, m.1, if m.2 == u64::MAX { 0 } else { (m.2 + 1) as u64 }), false)
    }
}

/// Release of one held slot.
pub open spec fn spec_release(m: SlotsModel) -> SlotsModel {
    (m.0, (m.1 - 1) as usize, m.2)
}

/// Proof of one admission, handed back to release its slot.
pub struct Permit {
    _private: (),
}

/// Fixed connection capacity and cumulative overload accounting.
pub struct Slots {
    capacity: usize,
    active: usize,
    rejected: u64,
}

impl Slots {
    /// The capacity, the slots held and the refusals counted.
    pub closed spec fn model(&self) -> SlotsModel {
        (self.capacity, self.active, self.rejected)
    }

    /// No more slots are held than exist.
    pub closed spec fn wf(&self) -> bool {
        self.active <= self.capacity
    }

    /// Slots with `capacity` free slots and no refusals.
    pub fn new(capacity: usize) -> (g: Slots)
        ensures
            g.wf(),
            g.model() == (capacity, 0usize, 0u64),
    {
        Slots { capacity, active: 0, rejected: 0 }
    }

    /// Admit immediately or count the refusal.
    pub fn acquire(&mut self) -> (p: Option<Permit>)
        requires
            old(self).wf(),
        ensures
            final(self).wf(),
            (final(self).model(), p is Some) == spec_admit(old(self).model()),
    {
        if self.active < self.capacity {
            self.active = self.active + 1;
            Some(Permit { _private: () })
        } else {
            self.rejected = self.rejected.wrapping_add(1);
            None
        }
    }

    /// Return an admitted connection's slot.
    pub fn release(&mut self, permit: Permit)
        requires
            old(self).wf(),
            old(self).model().1 > 0,
        ensures
            final(self).wf(),
            final(self).model() == spec_release(old(self).model()),
    {
        let _ = permit;
        self.active = self.active - 1;
    }

    /// Capacity, slots held, and refusals counted.
    pub fn snapshot(&self) -> (s: (usize, usize, u64))
        ensures
            s == self.model(),
    {
        (self.capacity, self.active, self.rejected)
    }
}

/// Saturation refuses immediately, and releasing a held slot lets the next connection in.
pub proof fn law_release_reopens(m: SlotsModel)
    requires
        0 < m.1 <= m.0,
    ensures
        spec_admit(spec_release(m)).1,
        m.1 == m.0 ==> !spec_admit(m).1,
{
}

/// Admission never holds more slots than the capacity.
pub proof fn law_admission_bounded(m: SlotsModel)
    requires
        m.1 <= m.0,
    ensures
        spec_admit(m).0.1 <= m.0,
{
}

} // verus!
