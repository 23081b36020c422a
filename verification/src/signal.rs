use vstd::prelude::*;

verus! {

/// The one-shot completion event: fired exactly once, when the initial
/// backlog of the source file has been fully written to the sink. This
/// is the producer-side state; the surrounding program couples it to
/// whatever single-producer, single-consumer primitive wakes the
/// foreground (a one-shot channel, a condition variable, a future).
pub struct CompletionSignal {
    pub fired: bool,
}

impl CompletionSignal {
    /// A fresh, unfired signal.
    pub fn new() -> (s: Self)
        ensures
            !s.fired,
    {
        CompletionSignal { fired: false }
    }

    /// Fire the signal. Firing twice is a programming error, not a
    /// runtime condition: callers must prove it has not fired yet.
    pub fn fire(&mut self)
        requires
            !old(self).fired,
        ensures
            final(self).fired,
    {
        self.fired = true;
    }

    /// Whether the signal has fired.
    pub fn is_fired(&self) -> (r: bool)
        ensures
            r == self.fired,
    {
        self.fired
    }
}

} // verus!
