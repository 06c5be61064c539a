//! Listeners that the engine's users subscribe: one that shows every event
//! and one that counts them.

use vstd::prelude::*;
use crate::tuples::Event;

verus! {

/// A listener that shows every event it receives.
#[derive(Clone, Debug)]
pub struct DebugListener;

/// A listener that counts the events it receives over a run of `duration`
/// seconds.
#[derive(Clone, Debug)]
pub struct CountListener {
    pub duration: usize,
    pub count: usize,
}

impl CountListener {
    /// Counts a received event.
    pub fn receive(&mut self, event: &Event)
        requires
            old(self).count < usize::MAX,
        ensures
            final(self).count == old(self).count + 1,
            final(self).duration == old(self).duration,
    {
        self.count = self.count + 1;
    }

    /// The events received per second of the run.
    pub fn throughput(&self) -> (r: usize)
        requires
            self.duration > 0,
        ensures
            r == self.count / self.duration,
    {
        self.count / self.duration
    }
}

} // verus!
