//! The frame loop's lifecycle: whether a next frame is scheduled, and which.
use vstd::prelude::*;

verus! {

/// The handle of the frame scheduled next, if the loop runs.
#[derive(Clone, Copy, Debug, PartialEq, Eq, Structural)]
pub struct FrameLoop {
    pub scheduled: Option<i32>,
}

impl FrameLoop {
    /// A loop that has not started.
    pub fn new() -> (l: FrameLoop)
        ensures
            l.scheduled.is_none(),
    {
        FrameLoop { scheduled: None }
    }

    /// Records `handle` as the frame scheduled next.
    pub fn schedule(&mut self, handle: i32)
        ensures
            final(self).scheduled == Some(handle),
    {
        self.scheduled = Some(handle);
    }

    /// Whether a next frame is scheduled.
    pub fn is_running(&self) -> (r: bool)
        ensures
            r == self.scheduled.is_some(),
    {
        self.scheduled.is_some()
    }

    /// Stops the loop: returns the handle of the scheduled frame, which the caller cancels,
    /// or `None` if nothing was scheduled. Stopping twice cancels nothing the second time.
    pub fn stop(&mut self) -> (cancel: Option<i32>)
        ensures
            cancel == old(self).scheduled,
            final(self).scheduled.is_none(),
    {
        let cancel = self.scheduled;
        self.scheduled = None;
        cancel
    }
}

} // verus!
