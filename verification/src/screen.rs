//! Pacing of the loop that shows one frame after another: how long to wait
//! between two frames, and when to stop.

use vstd::prelude::*;

verus! {

/// What the loop does after a step.
#[derive(Clone, Copy, Debug, PartialEq, Eq, Structural)]
pub enum Pacing {
    /// The step reported that it was the last: leave the loop.
    Stop,
    /// Wait this many milliseconds, then take the next step.
    Wait { millis: u64 },
}

/// Shows frames at a fixed rate.
#[derive(Clone, Copy, Debug, PartialEq, Eq, Structural)]
pub struct Screen {
    interval_millis: u64,
}

/// The capability of pacing a loop of steps. The caller runs the loop: it
/// takes a step, hands over whether that step was the last, and does what
/// comes back.
pub trait Render {
    /// The pause between two steps, in milliseconds.
    spec fn pause(&self) -> u64;

    /// What to do after a step: stop if it was the last, else wait for the
    /// pause and go on.
    fn after_step(&self, finished: bool) -> (next: Pacing)
        ensures
            finished ==> next == Pacing::Stop,
            !finished ==> next == (Pacing::Wait { millis: self.pause() }),
    ;
}

impl Screen {
    /// The pause between two frames, in milliseconds.
    pub closed spec fn interval(&self) -> u64 {
        self.interval_millis
    }

    /// A screen that shows `fps` frames a second: the pause between two
    /// frames is a second divided by `fps`, in whole milliseconds.
    pub fn new(fps: u64) -> (screen: Screen)
        requires
            fps > 0,
        ensures
            screen.interval() == 1000u64 / fps,
    {
        Screen { interval_millis: 1000 / fps }
    }

    /// As `new`, but a rate of zero frames a second is turned down.
    pub fn try_new(fps: u64) -> (made: Option<Screen>)
        ensures
            fps == 0 <==> made.is_none(),
            made matches Some(screen) ==> screen.interval() == 1000u64 / fps,
    {
        if fps == 0 {
            None
        } else {
            Some(Screen::new(fps))
        }
    }

    /// The pause between two frames, in milliseconds.
    pub fn interval_millis(&self) -> (millis: u64)
        ensures
            millis == self.interval(),
    {
        self.interval_millis
    }
}

impl Render for Screen {
    open spec fn pause(&self) -> u64 {
        self.interval()
    }

    fn after_step(&self, finished: bool) -> (next: Pacing) {
        if finished {
            Pacing::Stop
        } else {
            Pacing::Wait { millis: self.interval_millis }
        }
    }
}

} // verus!
