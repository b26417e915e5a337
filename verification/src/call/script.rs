//! What is sent to a call, and when: the sounds of connecting, of joining and of errors.

use crate::call::coordinator::uses_connecting_audio;
use crate::routing::{error_sound, CallError, RouteDecision};
use crate::services::sound::{duration_of, sound_named, ExtensionPlay, SoundManager};
use crate::sip::types::{CallId, SipCommand};
use vstd::prelude::*;
use vstd::string::*;

verus! {

/// A part of a script.
#[derive(Debug)]
pub enum CallAction {
    /// A command is sent.
    Send(SipCommand),
    /// So many milliseconds go by.
    Wait(u64),
}

/// The action is to play samples to a call.
pub open spec fn plays_samples(a: CallAction, call: CallId, samples: Seq<i16>) -> bool {
    a matches CallAction::Send(SipCommand::PlayDirectToCall { call_id, samples: s }) && call_id
        == call && s@ == samples
}

/// The action is to play samples to a call again and again.
pub open spec fn loops_samples(a: CallAction, call: CallId, samples: Seq<i16>) -> bool {
    a matches CallAction::Send(SipCommand::StartConnectingLoop { call_id, samples: s }) && call_id
        == call && s@ == samples
}

/// The samples of a sound in memory.
pub open spec fn samples_named(m: SoundManager, name: Seq<char>) -> Option<Seq<i16>> {
    sound_named(m.preloaded_table(), name)
}

fn copy_samples(v: &Vec<i16>) -> (r: Vec<i16>)
    ensures
        r@ == v@,
{
    let r: Vec<i16> = v.clone();
    proof {
        assert(r@ =~= v@);
    }
    r
}

/// What a caller hears until the call is connected, given where the call goes: nothing for a
/// fax and in front of a menu; else the connecting sound, over early media.
pub fn connecting_script(call: CallId, decision: &RouteDecision, sounds: &SoundManager) -> (r: Vec<
    CallAction,
>)
    requires
        sounds.wf(),
    ensures
        if *decision is ConnectFax || *decision is Menu {
            r@.len() == 0
        } else {
            &&& r@.len() == (if samples_named(*sounds, "connecting"@) is Some {
                3nat
            } else {
                2nat
            })
            &&& r@[0] == CallAction::Send(SipCommand::Send183 { call_id: call })
            &&& r@[1] == CallAction::Wait(100)
            &&& samples_named(*sounds, "connecting"@) is Some ==> loops_samples(
                r@[2],
                call,
                samples_named(*sounds, "connecting"@)->0,
            )
        },
{
    let mut r: Vec<CallAction> = Vec::new();
    if !uses_connecting_audio(decision) {
        return r;
    }
    r.push(CallAction::Send(SipCommand::Send183 { call_id: call }));
    r.push(CallAction::Wait(100));
    if let Some(samples) = sounds.get_connecting_samples() {
        r.push(
            CallAction::Send(
                SipCommand::StartConnectingLoop { call_id: call, samples: copy_samples(samples) },
            ),
        );
    }
    r
}

/// What a caller hears on joining a voice channel: the join sound, behind the answer where the
/// call was not answered yet.
pub fn join_script(call: CallId, answer: bool, sounds: &SoundManager) -> (r: Vec<CallAction>)
    requires
        sounds.wf(),
    ensures
        ({
            let first: int = if answer {
                1
            } else {
                0
            };
            let join = samples_named(*sounds, "discord_join"@);
            &&& r@.len() == first + (if join is Some {
                1int
            } else {
                0int
            })
            &&& answer ==> r@[0] == CallAction::Send(SipCommand::Answer { call_id: call })
            &&& join is Some ==> plays_samples(r@[first], call, join->0)
        }),
{
    let mut r: Vec<CallAction> = Vec::new();
    if answer {
        r.push(CallAction::Send(SipCommand::Answer { call_id: call }));
    }
    if let Some(samples) = sounds.get_discord_join_samples() {
        r.push(
            CallAction::Send(
                SipCommand::PlayDirectToCall { call_id: call, samples: copy_samples(samples) },
            ),
        );
    }
    r
}

/// What a caller hears of an error: the call is answered, the sound of the error is played to
/// its end where there is one, and the call is hung up.
pub fn error_script(call: CallId, error: CallError, sounds: &SoundManager) -> (r: Vec<CallAction>)
    requires
        sounds.wf(),
    ensures
        ({
            let sound = samples_named(*sounds, error_sound(error));
            &&& r@[0] == CallAction::Send(SipCommand::Answer { call_id: call })
            &&& r@[1] == CallAction::Wait(200)
            &&& r@.len() == (if sound is Some {
                5nat
            } else {
                3nat
            })
            &&& sound is Some ==> plays_samples(r@[2], call, sound->0) && r@[3]
                == CallAction::Wait((duration_of((sound->0).len()) + 200) as u64)
            &&& r@.last() == CallAction::Send(SipCommand::Hangup { call_id: call })
        }),
{
    let mut r: Vec<CallAction> = Vec::new();
    r.push(CallAction::Send(SipCommand::Answer { call_id: call }));
    r.push(CallAction::Wait(200));
    if let Some(sound) = sounds.get_preloaded(error.sound_name()) {
        assert(sound.samples.len() * 1000 / 16000 <= usize::MAX / 16);
        r.push(
            CallAction::Send(
                SipCommand::PlayDirectToCall {
                    call_id: call,
                    samples: copy_samples(&sound.samples),
                },
            ),
        );
        r.push(CallAction::Wait(sound.duration_ms + 200));
    }
    r.push(CallAction::Send(SipCommand::Hangup { call_id: call }));
    r
}

/// What the caller of a sound's extension hears. A tone and a streamed sound go on by
/// themselves; behind a sound in memory, and where there is none, the call is hung up.
pub fn extension_script(call: CallId, name: &str, sounds: &SoundManager) -> (r: Vec<CallAction>)
    requires
        sounds.wf(),
    ensures
        r@[0] == CallAction::Send(SipCommand::Answer { call_id: call }),
        ({
            let streamed = sound_named(sounds.streaming_table(), name@);
            let held = samples_named(*sounds, name@);
            if name@ == "test_tone"@ {
                r@.len() == 2 && r@[1] == CallAction::Send(
                    SipCommand::StartTestTone { call_id: call },
                )
            } else if streamed is Some {
                r@.len() == 2 && (r@[1] matches CallAction::Send(
                    SipCommand::StartStreaming { call_id, path },
                ) && call_id == call && path@ == streamed->0)
            } else if held is Some {
                r@.len() == 4 && plays_samples(r@[1], call, held->0) && r@[2]
                    == CallAction::Wait((duration_of((held->0).len()) + 200) as u64) && r@[3]
                    == CallAction::Send(SipCommand::Hangup { call_id: call })
            } else {
                r@.len() == 2 && r@[1] == CallAction::Send(SipCommand::Hangup { call_id: call })
            }
        }),
{
    let mut r: Vec<CallAction> = Vec::new();
    r.push(CallAction::Send(SipCommand::Answer { call_id: call }));
    match sounds.extension_play(name) {
        ExtensionPlay::TestTone => {
            r.push(CallAction::Send(SipCommand::StartTestTone { call_id: call }));
        },
        ExtensionPlay::Stream { path } => {
            r.push(CallAction::Send(SipCommand::StartStreaming { call_id: call, path }));
        },
        ExtensionPlay::Play { wait_ms } => {
            if let Some(sound) = sounds.get_preloaded(name) {
                r.push(
                    CallAction::Send(
                        SipCommand::PlayDirectToCall {
                            call_id: call,
                            samples: copy_samples(&sound.samples),
                        },
                    ),
                );
            }
            r.push(CallAction::Wait(wait_ms));
            r.push(CallAction::Send(SipCommand::Hangup { call_id: call }));
        },
        ExtensionPlay::NotFound => {
            r.push(CallAction::Send(SipCommand::Hangup { call_id: call }));
        },
    }
    r
}

/// What a caller hears of a spoken prompt: it is played to its end.
pub fn prompt_script(call: CallId, samples: Vec<i16>) -> (r: Vec<CallAction>)
    requires
        samples@.len() * 1000 <= u64::MAX,
    ensures
        r@.len() == 2,
        plays_samples(r@[0], call, samples@),
        r@[1] == CallAction::Wait((duration_of(samples@.len()) + 100) as u64),
{
    let n: u64 = samples.len() as u64;
    assert(n * 1000 / 16000 <= u64::MAX / 16);
    let wait: u64 = crate::call::menu::playback_ms(n, 100);
    let mut r: Vec<CallAction> = Vec::new();
    r.push(CallAction::Send(SipCommand::PlayDirectToCall { call_id: call, samples }));
    r.push(CallAction::Wait(wait));
    r
}

/// What is played to a call is played to that call and no other, and is played whole.
pub proof fn law_what_is_played_is_played_whole(a: CallAction, call: CallId, samples: Seq<i16>)
    ensures
        plays_samples(a, call, samples) ==> a is Send && a->Send_0 is PlayDirectToCall
            && a->Send_0->PlayDirectToCall_call_id == call
            && a->Send_0->PlayDirectToCall_samples@ == samples,
        loops_samples(a, call, samples) ==> a is Send && a->Send_0 is StartConnectingLoop
            && a->Send_0->StartConnectingLoop_call_id == call
            && a->Send_0->StartConnectingLoop_samples@ == samples,
{
}

} // verus!
