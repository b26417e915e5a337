//! What happens to a fax call.

use vstd::prelude::*;

verus! {

/// The state of a fax session.
#[derive(Debug, Clone, Copy, PartialEq, Eq, Structural)]
pub struct FaxProgress {
    /// The session is over, by success or failure.
    pub finished: bool,
    /// The session is over, and a fax was received.
    pub received: bool,
    /// The session takes too long.
    pub timed_out: bool,
}

/// What a fax session does next.
#[derive(Debug, Clone, Copy, PartialEq, Eq, Structural)]
pub enum FaxStep {
    /// It goes on.
    Continue,
    /// The fax is converted and posted; then the call is hung up.
    ConvertAndHangup,
    /// The call is hung up.
    Hangup,
    /// Failure to receive in time is posted; then the call is hung up.
    TimeoutAndHangup,
}

/// What a session that receives sound does next.
pub fn after_audio_tick(p: FaxProgress) -> (r: FaxStep)
    ensures
        r == (if p.finished && p.received {
            FaxStep::ConvertAndHangup
        } else if p.finished {
            FaxStep::Hangup
        } else if p.timed_out {
            FaxStep::TimeoutAndHangup
        } else {
            FaxStep::Continue
        }),
{
    if p.finished {
        if p.received {
            FaxStep::ConvertAndHangup
        } else {
            FaxStep::Hangup
        }
    } else if p.timed_out {
        FaxStep::TimeoutAndHangup
    } else {
        FaxStep::Continue
    }
}

/// What a session that receives T.38 does next, behind a packet (`by_timer` is false) or a
/// tick of its timer. A packet does not end a session that takes too long.
pub fn after_t38(completed: bool, p: FaxProgress, by_timer: bool) -> (r: FaxStep)
    ensures
        r == (if completed {
            FaxStep::ConvertAndHangup
        } else if p.finished {
            FaxStep::Hangup
        } else if by_timer && p.timed_out {
            FaxStep::TimeoutAndHangup
        } else {
            FaxStep::Continue
        }),
{
    if completed {
        FaxStep::ConvertAndHangup
    } else if p.finished {
        FaxStep::Hangup
    } else if by_timer && p.timed_out {
        FaxStep::TimeoutAndHangup
    } else {
        FaxStep::Continue
    }
}

/// What happens to a fax whose call has ended.
#[derive(Debug, Clone, Copy, PartialEq, Eq, Structural)]
pub enum FaxEnd {
    /// The session is over already.
    Nothing,
    /// The pages that were received are converted and posted.
    Convert,
    /// The caller hung up too early, which is posted.
    HungUpEarly,
}

/// What happens to a fax whose call has ended: a caller may hang up behind the last page.
pub fn after_call_end(finished: bool, pages: u32) -> (r: FaxEnd)
    ensures
        r == (if finished {
            FaxEnd::Nothing
        } else if pages > 0 {
            FaxEnd::Convert
        } else {
            FaxEnd::HungUpEarly
        }),
{
    if finished {
        FaxEnd::Nothing
    } else if pages > 0 {
        FaxEnd::Convert
    } else {
        FaxEnd::HungUpEarly
    }
}

/// How many of the generated samples are written: as many as there is room for.
pub fn samples_to_write(generated: usize, room: usize) -> (r: usize)
    ensures
        r == (if generated < room {
            generated
        } else {
            room
        }),
{
    if generated < room {
        generated
    } else {
        room
    }
}

/// What becomes of an offer of T.38.
#[derive(Debug, Clone, Copy, PartialEq, Eq, Structural)]
pub enum T38Step {
    /// The fax session of the call takes it.
    Switch,
    /// The call has no fax session, and is hung up.
    Hangup,
}

/// What becomes of an offer of T.38.
pub fn on_t38_offer(has_fax_session: bool) -> (r: T38Step)
    ensures
        r == (if has_fax_session {
            T38Step::Switch
        } else {
            T38Step::Hangup
        }),
{
    if has_fax_session {
        T38Step::Switch
    } else {
        T38Step::Hangup
    }
}

} // verus!
