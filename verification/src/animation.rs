//! Frame-based animation configuration.

use vstd::prelude::*;
use crate::banner::BannerContent;
use core::time::Duration;

verus! {

/// One frame of an animation: a complete banner snapshot.
pub type Frame = BannerContent;

/// The duration that a count of milliseconds denotes.
pub uninterp spec fn duration_of_millis(ms: u64) -> Duration;

/// Relies on core::time::Duration::from_millis to build the inter-frame
/// delay; the result depends on the millisecond count alone.
pub assume_specification [ Duration::from_millis ] (millis: u64) -> (d: Duration)
    ensures
        d == duration_of_millis(millis),
;

/// Relies on Clone for core::time::Duration, a Copy type: the clone is the
/// value itself.
pub assume_specification [ <Duration as Clone>::clone ] (d: &Duration) -> (c: Duration)
    ensures
        c == *d,
;

/// Configuration of a frame-based banner animation.
///
/// An empty frame sequence is valid; displaying it is a no-op.
#[derive(Debug, Clone)]
pub struct Animation {
    /// The frames, in playback order.
    pub frames: Vec<Frame>,
    /// How long to wait between frames.
    pub frame_delay: Duration,
    /// How many full passes to play; `None` loops until cancelled.
    pub repeat: Option<usize>,
}

impl Animation {
    /// Creates an animation from its frames with the given inter-frame
    /// delay in milliseconds.  By default the sequence plays once.
    pub fn new(frames: Vec<Frame>, frame_delay_ms: u64) -> (a: Self)
        ensures
            a.frames == frames,
            a.frame_delay == duration_of_millis(frame_delay_ms),
            a.repeat == Some(1usize),
    {
        Self { frames, frame_delay: Duration::from_millis(frame_delay_ms), repeat: Some(1) }
    }

    /// Sets how many times the full sequence plays; `None` loops until
    /// cancelled.
    pub fn repeat(self, count: Option<usize>) -> (a: Self)
        ensures
            a.frames == self.frames,
            a.frame_delay == self.frame_delay,
            a.repeat == count,
    {
        Self { frames: self.frames, frame_delay: self.frame_delay, repeat: count }
    }

    /// Sets the delay between frames.
    pub fn delay(self, duration: Duration) -> (a: Self)
        ensures
            a.frames == self.frames,
            a.frame_delay == duration,
            a.repeat == self.repeat,
    {
        Self { frames: self.frames, frame_delay: duration, repeat: self.repeat }
    }

    /// Sets the delay between frames, in milliseconds.
    pub fn delay_ms(self, ms: u64) -> (a: Self)
        ensures
            a.frames == self.frames,
            a.frame_delay == duration_of_millis(ms),
            a.repeat == self.repeat,
    {
        Self { frames: self.frames, frame_delay: Duration::from_millis(ms), repeat: self.repeat }
    }
}

} // verus!
