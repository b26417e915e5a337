//! The beat of the audio thread, and what is looked at now and then.

use crate::sip::types::{FRAME_PTIME_MS, SAMPLES_PER_FRAME};
use vstd::prelude::*;

verus! {

/// The beat of the audio thread: one frame every twenty milliseconds.
#[derive(Debug)]
pub struct FrameClock {
    /// When the next frame is due, in milliseconds.
    pub deadline: u64,
    pub frames: u64,
    pub timestamp: u64,
}

impl FrameClock {
    /// A beat that starts now.
    pub fn new(now: u64) -> (r: Self)
        requires
            now <= u64::MAX - 20,
        ensures
            r.deadline == now + 20,
            r.frames == 0,
            r.timestamp == 0,
    {
        FrameClock { deadline: now + FRAME_PTIME_MS as u64, frames: 0, timestamp: 0 }
    }

    /// A frame was handled. Returns whether it was the first.
    pub fn frame_done(&mut self) -> (first: bool)
        requires
            old(self).frames < u64::MAX,
            old(self).timestamp <= u64::MAX - 320,
        ensures
            final(self).frames == old(self).frames + 1,
            final(self).timestamp == old(self).timestamp + 320,
            final(self).deadline == old(self).deadline,
            first == (old(self).frames == 0),
    {
        self.frames = self.frames + 1;
        self.timestamp = self.timestamp + SAMPLES_PER_FRAME as u64;
        self.frames == 1
    }

    /// How long to sleep until the next frame is due.
    pub fn sleep_ms(&self, now: u64) -> (r: u64)
        ensures
            r == (if self.deadline > now {
                (self.deadline - now) as u64
            } else {
                0
            }),
    {
        if self.deadline > now {
            self.deadline - now
        } else {
            0
        }
    }

    /// Sets the next deadline one frame on, which keeps the beat; where the thread is more than
    /// a hundred milliseconds behind the beat starts anew. Returns whether it did.
    pub fn advance(&mut self, now: u64) -> (reset: bool)
        requires
            old(self).deadline <= u64::MAX - 120,
            now <= u64::MAX - 20,
        ensures
            reset == (old(self).deadline + 120 < now),
            final(self).deadline == (if reset {
                now + 20
            } else {
                old(self).deadline + 20
            }),
            final(self).frames == old(self).frames,
            final(self).timestamp == old(self).timestamp,
    {
        self.deadline = self.deadline + FRAME_PTIME_MS as u64;
        if self.deadline + 100 < now {
            self.deadline = now + FRAME_PTIME_MS as u64;
            return true;
        }
        false
    }
}

/// The samples that a channel sends in a frame: those that were drained, or silence. Something
/// is always sent, so that the stream stays alive.
pub fn channel_frame(drained: &[i16], n: usize) -> (r: Vec<i16>)
    requires
        n <= drained@.len(),
    ensures
        r@ == (if n > 0 {
            drained@.take(n as int)
        } else {
            Seq::new(320, |i: int| 0i16)
        }),
{
    let mut r: Vec<i16> = Vec::new();
    if n == 0 {
        while r.len() < SAMPLES_PER_FRAME
            invariant
                r@.len() <= 320,
                r@ =~= Seq::new(r@.len(), |i: int| 0i16),
            decreases 320 - r@.len(),
        {
            r.push(0);
        }
        return r;
    }
    let mut i: usize = 0;
    while i < n
        invariant
            i <= n <= drained@.len(),
            r@ =~= drained@.take(i as int),
        decreases n - i,
    {
        r.push(drained[i]);
        i = i + 1;
    }
    r
}

/// What is looked at in a round of the SIP loop, which takes ten milliseconds.
#[derive(Debug, Clone, Copy, PartialEq, Eq, Structural)]
pub struct RoundChecks {
    /// Calls without audio, every five seconds.
    pub rtp: bool,
    /// Calls that count, every thirty seconds.
    pub counted: bool,
    /// Slots that are stuck, every minute.
    pub zombies: bool,
}

/// What is looked at in a round.
pub fn round_checks(round: u64) -> (r: RoundChecks)
    ensures
        r.rtp == (round % 500 == 0),
        r.counted == (round % 3000 == 0),
        r.zombies == (round % 6000 == 0),
{
    RoundChecks { rtp: round % 500 == 0, counted: round % 3000 == 0, zombies: round % 6000 == 0 }
}

} // verus!
