use vstd::prelude::*;

verus! {

/// A tick of the engine's logical clock.
///
/// The clock starts at 1, so that 0 never names a moment at which anything
/// was installed.
#[derive(Clone, Copy, Debug, PartialEq, Eq, Structural, Hash)]
pub struct Epoch(pub u64);

impl Epoch {
    /// The first epoch of every engine.
    pub fn new() -> (e: Epoch)
        ensures
            e == Epoch::initial(),
    {
        Epoch(1)
    }

    /// The value that `new` returns.
    pub open spec fn initial() -> Epoch {
        Epoch(1)
    }

    /// The epoch that follows this one.
    pub fn increment(&mut self) -> (e: Epoch)
        requires
            old(self).0 < u64::MAX,
        ensures
            e.0 == old(self).0 + 1,
            *final(self) == e,
    {
        self.0 = self.0 + 1;
        *self
    }

    /// The later of two epochs.
    pub open spec fn later(self, other: Epoch) -> Epoch {
        if self.0 >= other.0 {
            self
        } else {
            other
        }
    }

    /// The later of two epochs.
    pub fn max(self, other: Epoch) -> (e: Epoch)
        ensures
            e == self.later(other),
    {
        if self.0 >= other.0 {
            self
        } else {
            other
        }
    }
}

} // verus!
