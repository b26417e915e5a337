//! A voice connection: its health, and the voices that come in over it.

use crate::config::AppConfig;
use crate::discord::mixing::{
    decimate_48k_to_16k, every_third, law_decimation_keeps_a_third,
    law_the_peak_is_the_loudest_sample, max_abs_i16, mix_voices, mixed, peak, stereo_to_mono, to_mono,
    voices_view,
};
use crate::services::snowflake::Snowflake;
use crate::text::{contains, contains_text, decimal, join2, lemma_parse_undoes_decimal};
use std::collections::HashMap;
use vstd::prelude::*;
use vstd::string::*;

verus! {

broadcast use vstd::std_specs::hash::group_hash_axioms;

/// The sample rate of Discord.
pub const DISCORD_SAMPLE_RATE: u32 = 48000;

/// What the Discord side reports.
#[derive(Debug)]
pub enum DiscordEvent {
    /// A voice channel was joined.
    VoiceConnected { bridge_id: String, guild_id: Snowflake, channel_id: Snowflake },
    /// A voice channel was left.
    VoiceDisconnected { bridge_id: String },
}

/// The name of the bridge to a channel.
pub open spec fn bridge_named(channel: u64) -> Seq<char> {
    "bridge_"@ + decimal(channel as nat)
}

/// The name of the bridge to a channel.
pub fn bridge_name(channel: Snowflake) -> (r: String)
    ensures
        r@ == bridge_named(channel.id()),
{
    join2("bridge_", channel.text().as_str())
}

impl DiscordEvent {
    /// The report that the voice channel of a bridge was joined.
    pub fn connected(guild_id: Snowflake, channel_id: Snowflake) -> (e: Self)
        ensures
            e matches DiscordEvent::VoiceConnected { bridge_id, guild_id: g, channel_id: c }
                && bridge_id@ == bridge_named(channel_id.id()) && g == guild_id && c == channel_id,
    {
        DiscordEvent::VoiceConnected { bridge_id: bridge_name(channel_id), guild_id, channel_id }
    }

    /// The report that the voice channel of a bridge was left.
    pub fn disconnected(channel_id: Snowflake) -> (e: Self)
        ensures
            e matches DiscordEvent::VoiceDisconnected { bridge_id } && bridge_id@ == bridge_named(
                channel_id.id(),
            ),
    {
        DiscordEvent::VoiceDisconnected { bridge_id: bridge_name(channel_id) }
    }
}

/// Bridges to different channels have different names.
pub proof fn law_bridges_are_told_apart(a: u64, b: u64)
    requires
        bridge_named(a) == bridge_named(b),
    ensures
        a == b,
{
    let head = "bridge_"@;
    let behind = bridge_named(a).subrange(head.len() as int, bridge_named(a).len() as int);
    assert(behind =~= decimal(a as nat));
    assert(behind =~= decimal(b as nat));
    lemma_parse_undoes_decimal(a as nat, u64::MAX as nat);
    lemma_parse_undoes_decimal(b as nat, u64::MAX as nat);
}

/// The capacity of the ring buffer to Discord, in samples.
pub fn ring_buffer_samples(loaded: Option<&AppConfig>) -> (r: usize)
    ensures
        r == (match loaded {
            Some(c) => c.audio.ring_buffer_samples,
            None => 96000,
        }),
{
    AppConfig::audio(loaded).ring_buffer_samples
}

/// How full a ring buffer is, in percent.
pub open spec fn percent_full(total: usize, free: usize) -> int {
    if free >= total {
        0
    } else {
        (total - free) * 100 / total as int
    }
}

/// How full a ring buffer is, in percent.
pub fn fill_percent(total: usize, free: usize) -> (r: u8)
    requires
        0 < total,
        total * 100 <= usize::MAX,
    ensures
        r == percent_full(total, free),
        r <= 100,
{
    if free >= total {
        return 0;
    }
    let filled: usize = total - free;
    proof {
        let f = filled as int;
        let t = total as int;
        assert(f * 100 <= 100 * t);
        vstd::arithmetic::div_mod::lemma_div_is_ordered(f * 100, 100 * t, t);
        vstd::arithmetic::div_mod::lemma_div_by_multiple(100, t);
        vstd::arithmetic::div_mod::lemma_div_pos_is_pos(f * 100, t);
    }
    ((filled * 100) / total) as u8
}

/// What follows an attempt to join a voice channel that failed.
#[derive(Debug, Clone, Copy, PartialEq, Eq, Structural)]
pub enum JoinStep {
    /// It is tried again after the delay.
    Retry,
    /// It is given up.
    GiveUp,
}

/// What follows the failure of an attempt, counted from one.
pub fn after_join_failure(attempt: u32, max_retries: u32) -> (r: JoinStep)
    ensures
        r == (if attempt < max_retries {
            JoinStep::Retry
        } else {
            JoinStep::GiveUp
        }),
{
    if attempt < max_retries {
        JoinStep::Retry
    } else {
        JoinStep::GiveUp
    }
}

/// What comes in over a voice connection.
pub struct VoiceReceiver {
    bot_user_id: u64,
    ssrc_to_user: HashMap<u32, u64>,
    last_audio_received: u64,
    active: bool,
    driver_disconnected: bool,
}

/// The voice of a speaker in a tick, if it was decoded.
pub type Voice = (u32, Option<Vec<i16>>);

/// The voice is heard: it is not the bot's own, and something was decoded.
pub open spec fn is_heard(v: Voice, users: Map<u32, u64>, bot: u64) -> bool {
    !(users.contains_key(v.0) && users[v.0] == bot) && v.1 is Some && (v.1->0)@.len() > 0
}

/// The voices that are heard.
pub open spec fn heard(speakers: Seq<Voice>, users: Map<u32, u64>, bot: u64) -> Seq<Seq<i16>>
    decreases speakers.len(),
{
    if speakers.len() == 0 {
        Seq::empty()
    } else {
        let before = heard(speakers.drop_last(), users, bot);
        if is_heard(speakers.last(), users, bot) {
            before.push((speakers.last().1->0)@)
        } else {
            before
        }
    }
}

/// What goes to the calls of a channel for a mix: 16 kHz mono, unless it is silence.
pub open spec fn to_calls(mix: Seq<i16>, threshold: i16) -> Option<Seq<i16>> {
    let mono = to_mono(mix);
    if mono.len() == 0 || peak(mono) < threshold {
        None
    } else {
        Some(every_third(mono))
    }
}

impl VoiceReceiver {
    /// The user of the bot.
    pub closed spec fn bot(&self) -> u64 {
        self.bot_user_id
    }

    /// The users behind the sources.
    pub closed spec fn users(&self) -> Map<u32, u64> {
        self.ssrc_to_user@
    }

    /// When sound last came in, in milliseconds.
    pub closed spec fn last_audio(&self) -> u64 {
        self.last_audio_received
    }

    /// The connection is in use.
    pub closed spec fn is_active(&self) -> bool {
        self.active
    }

    /// The connection was lost.
    pub closed spec fn is_lost(&self) -> bool {
        self.driver_disconnected
    }

    /// A connection that was just made.
    pub fn new(bot_user_id: Snowflake, now: u64) -> (r: Self)
        ensures
            r.bot() == bot_user_id.id(),
            r.users() == Map::<u32, u64>::empty(),
            r.last_audio() == now,
            r.is_active(),
            !r.is_lost(),
    {
        VoiceReceiver {
            bot_user_id: bot_user_id.get(),
            ssrc_to_user: HashMap::new(),
            last_audio_received: now,
            active: true,
            driver_disconnected: false,
        }
    }

    /// The connection is given up: what still comes in is ignored.
    pub fn deactivate(&mut self)
        ensures
            !final(self).is_active(),
            final(self).bot() == old(self).bot(),
            final(self).users() == old(self).users(),
            final(self).last_audio() == old(self).last_audio(),
            final(self).is_lost() == old(self).is_lost(),
    {
        self.active = false;
    }

    /// A source was announced to be a user's.
    pub fn speaking_update(&mut self, ssrc: u32, user: Option<Snowflake>)
        ensures
            final(self).users() == (if old(self).is_active() && user is Some {
                old(self).users().insert(ssrc, (user->0).id())
            } else {
                old(self).users()
            }),
            final(self).is_active() == old(self).is_active(),
            final(self).bot() == old(self).bot(),
            final(self).last_audio() == old(self).last_audio(),
            final(self).is_lost() == old(self).is_lost(),
    {
        if self.active {
            if let Some(u) = user {
                self.ssrc_to_user.insert(ssrc, u.get());
            }
        }
    }

    /// The connection broke off, for a reason. Unless that was asked for the connection is
    /// lost, and the health check is to be woken.
    pub fn driver_disconnect(&mut self, reason: Option<&str>) -> (wake: bool)
        ensures
            wake == (old(self).is_active() && !(reason is Some && contains_text(
                (reason->0)@,
                "Requested"@,
            ))),
            final(self).is_lost() == (old(self).is_lost() || wake),
            final(self).users() == old(self).users(),
            final(self).is_active() == old(self).is_active(),
            final(self).bot() == old(self).bot(),
            final(self).last_audio() == old(self).last_audio(),
    {
        if !self.active {
            return false;
        }
        let requested: bool = match reason {
            Some(r) => contains(r, "Requested"),
            None => false,
        };
        if requested {
            return false;
        }
        self.driver_disconnected = true;
        true
    }

    /// Whether the connection is well: it is not lost, and sound came in less than five seconds
    /// ago.
    pub fn is_healthy(&self, now: u64) -> (r: bool)
        ensures
            r == (!self.is_lost() && now - self.last_audio() < 5000),
    {
        if self.driver_disconnected {
            return false;
        }
        now < self.last_audio_received || now - self.last_audio_received < 5000
    }

    /// The voices of a tick that are heard.
    fn collect(&self, speakers: &Vec<Voice>) -> (r: Vec<Vec<i16>>)
        ensures
            voices_view(r@) == heard(speakers@, self.users(), self.bot()),
            r@.len() <= speakers@.len(),
    {
        let mut r: Vec<Vec<i16>> = Vec::new();
        let mut i: usize = 0;
        proof {
            assert(voices_view(r@) =~= heard(speakers@.take(0), self.users(), self.bot()));
        }
        while i < speakers.len()
            invariant
                i <= speakers@.len(),
                r@.len() <= i,
                voices_view(r@) == heard(speakers@.take(i as int), self.users(), self.bot()),
            decreases speakers@.len() - i,
        {
            let ghost before = voices_view(r@);
            proof {
                assert(speakers@.take(i + 1).drop_last() =~= speakers@.take(i as int));
                assert(speakers@.take(i + 1).last() == speakers@[i as int]);
            }
            let ssrc: u32 = speakers[i].0;
            let own: bool = match self.ssrc_to_user.get(&ssrc) {
                Some(u) => *u == self.bot_user_id,
                None => false,
            };
            if !own {
                if let Some(voice) = &speakers[i].1 {
                    if voice.len() > 0 {
                        let copy: Vec<i16> = voice.clone();
                        proof {
                            assert(copy@ =~= voice@);
                        }
                        r.push(copy);
                        proof {
                            assert(voices_view(r@) =~= before.push(voice@));
                        }
                    }
                }
            }
            i = i + 1;
        }
        proof {
            assert(speakers@.take(speakers@.len() as int) =~= speakers@);
        }
        r
    }

    /// Takes a tick in: the voices of the speakers, but not the bot's own. Returns what goes to
    /// the calls of the channel, unless that is silence.
    pub fn voice_tick(&mut self, now: u64, speakers: &Vec<Voice>, threshold: i16) -> (r: Option<
        Vec<i16>,
    >)
        requires
            speakers@.len() <= 0xffff,
        ensures
            final(self).last_audio() == (if old(self).is_active() {
                now
            } else {
                old(self).last_audio()
            }),
            final(self).users() == old(self).users(),
            final(self).is_active() == old(self).is_active(),
            final(self).bot() == old(self).bot(),
            final(self).is_lost() == old(self).is_lost(),
            !old(self).is_active() ==> r is None,
            old(self).is_active() ==> (match to_calls(
                mixed(heard(speakers@, old(self).users(), old(self).bot())),
                threshold,
            ) {
                Some(s) => r is Some && (r->0)@ == s,
                None => r is None,
            }),
    {
        if !self.active {
            return None;
        }
        self.last_audio_received = now;
        let voices: Vec<Vec<i16>> = self.collect(speakers);
        proof {
            assert(voices_view(voices@) == heard(speakers@, old(self).users(), old(self).bot()));
        }
        let mix: Vec<i16> = mix_voices(&voices);
        let mono: Vec<i16> = stereo_to_mono(mix.as_slice());
        if mono.len() == 0 || max_abs_i16(mono.as_slice()) < threshold {
            return None;
        }
        Some(decimate_48k_to_16k(mono.as_slice()))
    }
}

/// The bot never hears itself: its own voice adds nothing to what is heard.
pub proof fn law_the_bot_is_not_heard(
    speakers: Seq<Voice>,
    users: Map<u32, u64>,
    bot: u64,
    own: Voice,
)
    requires
        users.contains_key(own.0),
        users[own.0] == bot,
    ensures
        heard(speakers.push(own), users, bot) == heard(speakers, users, bot),
{
    assert(speakers.push(own).drop_last() =~= speakers);
}

/// Everybody but the bot is heard: the voice of one speaker more is added behind the others where
/// something of it was decoded, whoever it belongs to, unless it is known to be the bot's own. A
/// speaker of whom nothing was decoded adds nothing.
pub proof fn law_every_other_voice_is_heard(
    speakers: Seq<Voice>,
    users: Map<u32, u64>,
    bot: u64,
    ssrc: u32,
    samples: Vec<i16>,
)
    ensures
        heard(Seq::empty(), users, bot).len() == 0,
        samples@.len() > 0 && (!users.contains_key(ssrc) || users[ssrc] != bot) ==> heard(
            speakers.push((ssrc, Some(samples))),
            users,
            bot,
        ) == heard(speakers, users, bot).push(samples@),
        samples@.len() == 0 ==> heard(speakers.push((ssrc, Some(samples))), users, bot) == heard(
            speakers,
            users,
            bot,
        ),
        heard(speakers.push((ssrc, None)), users, bot) == heard(speakers, users, bot),
{
    assert(speakers.push((ssrc, Some(samples))).drop_last() =~= speakers);
    assert(speakers.push((ssrc, None::<Vec<i16>>)).drop_last() =~= speakers);
}

/// A mix goes to the calls of its channel where any of its mono samples is as loud as the
/// threshold, and else nothing does: every third mono sample, which brings it to the rate of the
/// conference bridge.
pub proof fn law_a_mix_goes_to_the_calls_unless_silent(mix: Seq<i16>, threshold: i16, i: int)
    requires
        threshold > 0,
    ensures
        to_calls(mix, threshold) is Some <==> exists|k: int|
            0 <= k < to_mono(mix).len() && ((#[trigger] to_mono(mix)[k]) >= threshold || to_mono(
                mix,
            )[k] <= -threshold),
        to_calls(mix, threshold) is Some ==> {
            let sent = to_calls(mix, threshold)->0;
            &&& 3 * sent.len() - 3 < to_mono(mix).len() <= 3 * sent.len()
            &&& 0 <= i < sent.len() ==> sent[i] == to_mono(mix)[3 * i]
        },
{
    let mono = to_mono(mix);
    law_the_peak_is_the_loudest_sample(mono);
    law_decimation_keeps_a_third(mono, 3 * i);
    if to_calls(mix, threshold) is Some {
        let k = choose|k: int|
            0 <= k < mono.len() && ((#[trigger] mono[k]) == peak(mono) || -mono[k] == peak(mono)
                || mono[k] == i16::MIN && peak(mono) == 32767);
        assert(mono[k] >= threshold || mono[k] <= -threshold);
    }
}

/// The percentage that a ring buffer is full is what part of it is taken, rounded down.
pub proof fn law_the_percentage_is_the_part_that_is_taken(total: usize, free: usize)
    requires
        0 < total,
    ensures
        free >= total ==> percent_full(total, free) == 0,
        free <= total ==> {
            let p = percent_full(total, free);
            p * total <= 100 * (total - free) < (p + 1) * total
        },
{
    let taken = 100 * (total - free);
    let t = total as int;
    let p = percent_full(total, free);
    if free < total {
        assert((total - free) * 100 == taken);
        vstd::arithmetic::div_mod::lemma_fundamental_div_mod(taken, t);
        vstd::arithmetic::div_mod::lemma_mod_bound(taken, t);
        assert(p * t <= taken < (p + 1) * t) by (nonlinear_arith)
            requires
                taken == t * p + taken % t,
                0 <= taken % t < t,
        ;
    } else if free == total {
        assert(0 * t == 0 && 1 * t == t);
    }
}

} // verus!
