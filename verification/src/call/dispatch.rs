//! What the coordinator does with each event of the SIP side.

use crate::call::coordinator::{bridges_after_end, end_step, BridgeCoordinator, EndStep};
use crate::call::fax::{on_t38_offer, T38Step};
use crate::call::state::blank_call;
use crate::config::opt_text;
use crate::routing::CallStatus;
use crate::services::sound::SoundManager;
use crate::sip::types::{CallId, DigestAuthParams, SipEvent};
use crate::text::parse_decimal;
use vstd::prelude::*;
use vstd::string::*;

verus! {

/// What the program round the coordinator knows of the call of an event.
#[derive(Debug, Clone, Copy, PartialEq, Eq, Structural)]
pub struct EventFacts {
    /// The call has a fax session.
    pub has_fax_session: bool,
    /// A menu waits for digits of the call.
    pub awaits_digit: bool,
    /// Other legs of the outbound call are left.
    pub legs_left: bool,
}

/// What is done with an event.
#[derive(Debug)]
pub enum EventStep {
    /// The sound of the extension is played; the call is not followed.
    PlayExtension { call_id: CallId, sound: String },
    /// The call is followed, and routed.
    Route {
        call_id: CallId,
        digest_auth: DigestAuthParams,
        extension: String,
        source_ip: Option<String>,
    },
    /// The call has ended as stated.
    Ended { call_id: CallId, how: EndStep },
    /// The digit goes to the menu that waits for it.
    ForwardDigit { call_id: CallId, digit: char },
    /// The call is hung up. Where a request is stated, it is reported that it had no audio.
    HangUpSilent { call_id: CallId, report: Option<String> },
    /// The other legs of the call are cancelled, its answer is reported, and it is bridged.
    Answered { tracking_id: String, call_id: CallId },
    /// The failure of the request is reported.
    ReportFailure { tracking_id: String },
    /// The fax session of the call takes up T.38.
    SwitchToT38 { call_id: CallId, remote_ip: String, remote_port: u16, local_port: u16 },
    /// The call is hung up, as it has no fax session.
    RefuseT38 { call_id: CallId },
    /// Nothing.
    Ignore,
}

/// What the backend is told of an outbound call for a step, if anything.
pub open spec fn status_of(step: EventStep) -> Option<CallStatus> {
    match step {
        EventStep::HangUpSilent { report, .. } => if report is Some {
            Some(CallStatus::NoAudio)
        } else {
            None
        },
        EventStep::Answered { .. } => Some(CallStatus::Answered),
        EventStep::ReportFailure { .. } => Some(CallStatus::Failed),
        _ => None,
    }
}

/// What the backend is told of an outbound call for a step, if anything.
pub fn reported_status(step: &EventStep) -> (r: Option<CallStatus>)
    ensures
        r == status_of(*step),
{
    match step {
        EventStep::HangUpSilent { report, .. } => match report {
            Some(_) => Some(CallStatus::NoAudio),
            None => None,
        },
        EventStep::Answered { .. } => Some(CallStatus::Answered),
        EventStep::ReportFailure { .. } => Some(CallStatus::Failed),
        _ => None,
    }
}

/// The sound of an extension as it was dialled.
pub open spec fn sound_of_extension(m: SoundManager, extension: Seq<char>) -> Option<Seq<char>> {
    match parse_decimal(extension, u32::MAX as nat) {
        Some(n) => if m.extension_table().contains_key(n as u32) {
            Some(m.extension_table()[n as u32])
        } else {
            None
        },
        None => None,
    }
}

/// The coordinators know the same, but for what is stated.
pub open spec fn same_but_calls(a: BridgeCoordinator, b: BridgeCoordinator) -> bool {
    a.bridges() == b.bridges() && a.pending() == b.pending() && a.requests() == b.requests()
}

/// Nothing changed.
pub open spec fn unchanged(a: BridgeCoordinator, b: BridgeCoordinator) -> bool {
    same_but_calls(a, b) && a.calls() == b.calls()
}

/// The step is that of the event, and the coordinator changed as it says.
pub open spec fn handled(
    before: BridgeCoordinator,
    after: BridgeCoordinator,
    event: SipEvent,
    facts: EventFacts,
    sounds: SoundManager,
    s: EventStep,
) -> bool {
    match event {
        SipEvent::IncomingCall { call_id, digest_auth, extension, source_ip } => {
            match sound_of_extension(sounds, extension@) {
                Some(name) => (s matches EventStep::PlayExtension { call_id: c, sound } && c
                    == call_id && sound@ == name) && unchanged(before, after),
                None => s == (EventStep::Route { call_id, digest_auth, extension, source_ip })
                    && same_but_calls(before, after) && after.calls() == before.calls().insert(
                    call_id.num(),
                    blank_call(),
                ),
            }
        },
        SipEvent::CallEnded { call_id } => {
            &&& s == (EventStep::Ended {
                call_id,
                how: end_step(
                    before.bridges(),
                    before.calls(),
                    call_id.num(),
                    facts.has_fax_session,
                ),
            })
            &&& after.calls() == before.calls().remove(call_id.num())
            &&& after.bridges() == bridges_after_end(
                before.bridges(),
                before.calls(),
                call_id.num(),
                facts.has_fax_session,
            )
            &&& after.pending() == before.pending()
            &&& after.requests() == before.requests()
        },
        SipEvent::Dtmf { call_id, digit } => unchanged(before, after) && s == (
        if facts.awaits_digit {
            EventStep::ForwardDigit { call_id, digit }
        } else {
            EventStep::Ignore
        }),
        SipEvent::CallTimeout { call_id, rx_count } => unchanged(before, after) && (s
            matches EventStep::HangUpSilent { call_id: c, report } && c == call_id && opt_text(
            report,
        ) == (if rx_count == 0 && before.calls().contains_key(call_id.num()) {
            before.calls()[call_id.num()].tracking
        } else {
            None
        })),
        SipEvent::OutboundCallAnswered { tracking_id, call_id } => unchanged(before, after) && s
            == (EventStep::Answered { tracking_id, call_id }),
        SipEvent::OutboundCallFailed { tracking_id, call_id, .. } => {
            &&& after.calls() == before.calls()
            &&& after.bridges() == before.bridges()
            &&& after.pending() == before.pending()
            &&& if call_id is Some && facts.legs_left {
                s is Ignore && after.requests() == before.requests()
            } else {
                s == (EventStep::ReportFailure { tracking_id }) && after.requests()
                    == before.requests().remove(tracking_id@)
            }
        },
        SipEvent::T38Offered { call_id, remote_ip, remote_port, local_port, .. } => unchanged(
            before,
            after,
        ) && s == (if facts.has_fax_session {
            EventStep::SwitchToT38 { call_id, remote_ip, remote_port, local_port }
        } else {
            EventStep::RefuseT38 { call_id }
        }),
    }
}

impl BridgeCoordinator {
    /// Takes an event of the SIP side in.
    pub fn on_sip_event(&mut self, event: SipEvent, facts: EventFacts, sounds: &SoundManager) -> (s:
        EventStep)
        ensures
            handled(*old(self), *final(self), event, facts, *sounds, s),
    {
        match event {
            SipEvent::IncomingCall { call_id, digest_auth, extension, source_ip } => {
                if let Some(name) = sounds.dialled_sound(extension.as_str()) {
                    return EventStep::PlayExtension { call_id, sound: String::from_str(name) };
                }
                self.track_call(call_id);
                EventStep::Route { call_id, digest_auth, extension, source_ip }
            },
            SipEvent::CallEnded { call_id } => {
                let how: EndStep = self.call_ended(call_id, facts.has_fax_session);
                EventStep::Ended { call_id, how }
            },
            SipEvent::Dtmf { call_id, digit } => {
                if facts.awaits_digit {
                    EventStep::ForwardDigit { call_id, digit }
                } else {
                    EventStep::Ignore
                }
            },
            SipEvent::CallTimeout { call_id, rx_count } => {
                let report: Option<String> = self.call_timed_out(call_id, rx_count);
                EventStep::HangUpSilent { call_id, report }
            },
            SipEvent::OutboundCallAnswered { tracking_id, call_id } => EventStep::Answered {
                tracking_id,
                call_id,
            },
            SipEvent::OutboundCallFailed { tracking_id, call_id, reason: _ } => {
                if self.outbound_failed(tracking_id.as_str(), call_id.is_some(), facts.legs_left) {
                    EventStep::ReportFailure { tracking_id }
                } else {
                    EventStep::Ignore
                }
            },
            SipEvent::T38Offered { call_id, remote_ip, remote_port, local_port, .. } => {
                match on_t38_offer(facts.has_fax_session) {
                    T38Step::Switch => EventStep::SwitchToT38 {
                        call_id,
                        remote_ip,
                        remote_port,
                        local_port,
                    },
                    T38Step::Hangup => EventStep::RefuseT38 { call_id },
                }
            },
        }
    }
}

/// The number of an extension leads to its sound; what is no number, and a number without a sound,
/// leads to none.
pub proof fn law_a_dialled_number_leads_to_its_sound(m: SoundManager, n: u32, other: Seq<char>)
    ensures
        m.extension_table().contains_key(n) ==> sound_of_extension(
            m,
            crate::text::decimal(n as nat),
        ) == Some(m.extension_table()[n]),
        !m.extension_table().contains_key(n) ==> sound_of_extension(
            m,
            crate::text::decimal(n as nat),
        ) is None,
        parse_decimal(other, u32::MAX as nat) is None ==> sound_of_extension(m, other) is None,
{
    crate::text::lemma_parse_undoes_decimal(n as nat, u32::MAX as nat);
}

/// What the coordinator knows changes only as an event says: a digit, an offer of T.38, a call
/// without sound and an answer change nothing, a call that comes in is followed or not, and one that
/// fails is forgotten only with its last leg. No event makes a bridge, or the making of one.
pub proof fn law_what_events_leave_alone(
    before: BridgeCoordinator,
    after: BridgeCoordinator,
    event: SipEvent,
    facts: EventFacts,
    sounds: SoundManager,
    s: EventStep,
    channel: u64,
    caller: i32,
)
    requires
        handled(before, after, event, facts, sounds, s),
    ensures
        after.pending() == before.pending(),
        after.bridges().contains_key(channel) ==> before.bridges().contains_key(channel),
        event is Dtmf || event is T38Offered || event is CallTimeout || event
            is OutboundCallAnswered ==> after.calls() == before.calls() && after.bridges()
            == before.bridges() && after.requests() == before.requests(),
        event is IncomingCall ==> after.bridges() == before.bridges() && after.requests()
            == before.requests() && (after.calls().contains_key(caller) <==> before.calls().contains_key(
            caller,
        ) || (s is Route && caller == event->IncomingCall_call_id.num())),
        event is CallEnded ==> (after.calls().contains_key(caller) <==> before.calls().contains_key(
            caller,
        ) && caller != event->CallEnded_call_id.num()) && after.requests() == before.requests(),
        event is OutboundCallFailed ==> after.calls() == before.calls() && (s is Ignore
            <==> event->OutboundCallFailed_call_id is Some && facts.legs_left),
{
}

/// What the backend is told: of an answer that it was answered, of a failure that it failed, of a
/// silent call that serves a request that it had no audio, and of nothing else anything.
pub proof fn law_what_the_backend_is_told(step: EventStep)
    ensures
        status_of(step) == Some(CallStatus::Answered) <==> step is Answered,
        status_of(step) == Some(CallStatus::Failed) <==> step is ReportFailure,
        status_of(step) == Some(CallStatus::NoAudio) <==> step is HangUpSilent && step->report
            is Some,
        status_of(step) is None <==> !(step is Answered) && !(step is ReportFailure) && !(step
            is HangUpSilent && step->report is Some),
{
}

} // verus!
