//! Mixing of the voices of a channel, and detection of speech.

use crate::config::AudioConfig;
use crate::fax::spandsp::half;
use vstd::prelude::*;

verus! {

/// The samples of a tick that are mixed: 20 ms of stereo at 48 kHz.
pub const MIX_CAPACITY: usize = 1920;

/// The size of a sample without its sign, at most the largest sample.
pub open spec fn magnitude(s: i16) -> int {
    if s == i16::MIN {
        32767
    } else if s < 0 {
        -s
    } else {
        s as int
    }
}

/// The largest size among samples.
pub open spec fn peak(s: Seq<i16>) -> int
    decreases s.len(),
{
    if s.len() == 0 {
        0
    } else if magnitude(s.last()) > peak(s.drop_last()) {
        magnitude(s.last())
    } else {
        peak(s.drop_last())
    }
}

/// The largest size among samples.
pub fn max_abs_i16(samples: &[i16]) -> (r: i16)
    ensures
        r == peak(samples@),
        r >= 0,
{
    let mut best: i16 = 0;
    let mut i: usize = 0;
    while i < samples.len()
        invariant
            i <= samples@.len(),
            best >= 0,
            best == peak(samples@.take(i as int)),
        decreases samples@.len() - i,
    {
        let s: i16 = samples[i];
        let a: i16 = if s == i16::MIN {
            32767
        } else if s < 0 {
            -s
        } else {
            s
        };
        proof {
            assert(samples@.take(i + 1).drop_last() =~= samples@.take(i as int));
        }
        if a > best {
            best = a;
        }
        i = i + 1;
    }
    proof {
        assert(samples@.take(samples@.len() as int) =~= samples@);
    }
    best
}

/// Whether somebody speaks, and for how many frames nobody has.
#[derive(Debug, Clone, Copy, PartialEq, Eq, Structural)]
pub struct VadState {
    pub silence_frames: u32,
    pub speaking: bool,
}

/// The state behind one more frame with the given peak.
///
/// A muted frame ends speech at once, a loud one begins it; a quiet one ends it once there
/// were enough of them.
pub open spec fn vad_after(s: VadState, peak: int, cfg: AudioConfig) -> VadState {
    if peak < cfg.vad_mute_threshold {
        VadState { silence_frames: cfg.vad_silence_frames_before_stop, speaking: false }
    } else if peak > cfg.vad_silence_threshold {
        VadState { silence_frames: 0, speaking: true }
    } else {
        let n = if s.silence_frames == u32::MAX {
            u32::MAX
        } else {
            (s.silence_frames + 1) as u32
        };
        VadState {
            silence_frames: n,
            speaking: s.speaking && n < cfg.vad_silence_frames_before_stop,
        }
    }
}

impl VadState {
    /// Nobody speaks.
    pub fn new() -> (r: Self)
        ensures
            r == (VadState { silence_frames: 0, speaking: false }),
    {
        VadState { silence_frames: 0, speaking: false }
    }

    /// Takes a frame in.
    pub fn update(&mut self, samples: &[i16], cfg: &AudioConfig)
        ensures
            *final(self) == vad_after(*old(self), peak(samples@), *cfg),
    {
        let amp: i16 = max_abs_i16(samples);
        if amp < cfg.vad_mute_threshold {
            self.silence_frames = cfg.vad_silence_frames_before_stop;
            self.speaking = false;
        } else if amp > cfg.vad_silence_threshold {
            self.silence_frames = 0;
            self.speaking = true;
        } else {
            let was_speaking: bool = self.speaking;
            let n: u32 = self.silence_frames.saturating_add(1);
            self.silence_frames = n;
            if n >= cfg.vad_silence_frames_before_stop || !was_speaking {
                self.speaking = false;
            }
        }
    }
}

/// Speech begins with a loud frame only.
pub proof fn law_speech_begins_with_a_loud_frame(s: VadState, peak: int, cfg: AudioConfig)
    requires
        !s.speaking,
        vad_after(s, peak, cfg).speaking,
    ensures
        peak > cfg.vad_silence_threshold,
{
}

/// The samples of voices.
pub open spec fn voices_view(voices: Seq<Vec<i16>>) -> Seq<Seq<i16>> {
    voices.map_values(|v: Vec<i16>| v@)
}

/// What one speaker adds at index `i`: nothing behind the end of the sound.
pub open spec fn voice_at(voice: Seq<i16>, i: int) -> int {
    if i < voice.len() {
        voice[i] as int
    } else {
        0
    }
}

/// The sum of voices at index `i`.
pub open spec fn voices_at(voices: Seq<Seq<i16>>, i: int) -> int
    decreases voices.len(),
{
    if voices.len() == 0 {
        0
    } else {
        voices_at(voices.drop_last(), i) + voice_at(voices.last(), i)
    }
}

/// The number of samples that voices make up, up to the capacity.
pub open spec fn mix_length(voices: Seq<Seq<i16>>) -> int
    decreases voices.len(),
{
    if voices.len() == 0 {
        0
    } else {
        let n = if voices.last().len() < MIX_CAPACITY {
            voices.last().len() as int
        } else {
            MIX_CAPACITY as int
        };
        if n > mix_length(voices.drop_last()) {
            n
        } else {
            mix_length(voices.drop_last())
        }
    }
}

/// A number as a sample, cut off at the largest and smallest sample.
pub open spec fn clamped(x: int) -> i16 {
    if x > 32767 {
        32767
    } else if x < -32768 {
        (-32768) as i16
    } else {
        x as i16
    }
}

/// The voices of a tick, mixed.
pub open spec fn mixed(voices: Seq<Seq<i16>>) -> Seq<i16> {
    Seq::new(mix_length(voices) as nat, |i: int| clamped(voices_at(voices, i)))
}

/// The average of the left and right samples.
pub open spec fn to_mono(s: Seq<i16>) -> Seq<i16> {
    Seq::new(s.len() / 2, |i: int| half(s[2 * i] + s[2 * i + 1]) as i16)
}

/// Every third sample.
pub open spec fn every_third(s: Seq<i16>) -> Seq<i16> {
    Seq::new((s.len() + 2) / 3, |i: int| s[3 * i])
}

/// Clamps a sum to a sample.
pub fn clamp_i32_to_i16(x: i32) -> (r: i16)
    ensures
        r == clamped(x as int),
{
    if x > 32767 {
        32767
    } else if x < -32768 {
        -32768
    } else {
        x as i16
    }
}

/// Mixes voices: sums at each index, cut off at the largest and smallest sample.
pub fn mix_voices(voices: &Vec<Vec<i16>>) -> (r: Vec<i16>)
    requires
        voices@.len() <= 0xffff,
    ensures
        r@ == mixed(voices_view(voices@)),
        r@.len() <= 1920,
{
    let ghost all = voices_view(voices@);
    let mut sums: Vec<i32> = Vec::new();
    let mut v: usize = 0;
    while v < voices.len()
        invariant
            v <= voices@.len() <= 0xffff,
            all == voices_view(voices@),
            sums@.len() == mix_length(all.take(v as int)),
            sums@.len() <= 1920,
            forall|i: int|
                0 <= i < sums@.len() ==> #[trigger] sums@[i] == voices_at(
                    all.take(v as int),
                    i,
                ),
            forall|i: int|
                sums@.len() <= i < 1920 ==> #[trigger] voices_at(all.take(v as int), i) == 0,
            forall|i: int|
                0 <= i < sums@.len() ==> -0x8000 * v <= #[trigger] sums@[i] <= 0x7fff * v,
        decreases voices@.len() - v,
    {
        let voice: &Vec<i16> = &voices[v];
        let ghost seen = all.take(v as int);
        let ghost now = all.take(v + 1);
        let ghost before = sums@;
        proof {
            assert(now.drop_last() =~= seen);
            assert(now.last() == voice@);
        }
        let len: usize = if voice.len() < MIX_CAPACITY {
            voice.len()
        } else {
            MIX_CAPACITY
        };
        let mut i: usize = 0;
        while i < len
            invariant
                i <= len <= 1920,
                len <= voice@.len(),
                v < 0xffff,
                before.len() <= sums@.len() <= 1920,
                sums@.len() == (if i > before.len() {
                    i as int
                } else {
                    before.len() as int
                }),
                forall|k: int|
                    0 <= k < before.len() ==> -0x8000 * v <= #[trigger] before[k] <= 0x7fff * v,
                forall|k: int|
                    0 <= k < i ==> #[trigger] sums@[k] == voice@[k] + (if k < before.len() {
                        before[k] as int
                    } else {
                        0
                    }),
                forall|k: int| i <= k < before.len() ==> #[trigger] sums@[k] == before[k],
            decreases len - i,
        {
            let s: i32 = voice[i] as i32;
            if i < sums.len() {
                assert(sums@[i as int] == before[i as int]);
                let t: i32 = sums[i] + s;
                sums.set(i, t);
            } else {
                sums.push(s);
            }
            i = i + 1;
        }
        proof {
            assert forall|k: int| 0 <= k < sums@.len() implies #[trigger] sums@[k] == voices_at(
                now,
                k,
            ) by {
                if k < before.len() {
                    assert(before[k] == voices_at(seen, k));
                } else {
                    assert(voices_at(seen, k) == 0);
                }
            }
            assert forall|k: int| sums@.len() <= k < 1920 implies #[trigger] voices_at(now, k)
                == 0 by {
                assert(voices_at(seen, k) == 0);
            }
        }
        v = v + 1;
    }
    proof {
        assert(all.take(all.len() as int) =~= all);
    }
    let mut out: Vec<i16> = Vec::new();
    let mut i: usize = 0;
    while i < sums.len()
        invariant
            i <= sums@.len(),
            sums@.len() == mix_length(all),
            sums@.len() <= 1920,
            forall|k: int|
                0 <= k < sums@.len() ==> #[trigger] sums@[k] == voices_at(all, k),
            out@ =~= mixed(all).take(i as int),
        decreases sums@.len() - i,
    {
        out.push(clamp_i32_to_i16(sums[i]));
        i = i + 1;
    }
    proof {
        assert(out@ =~= mixed(all));
    }
    out
}

/// Averages the left and right samples.
pub fn stereo_to_mono(stereo: &[i16]) -> (r: Vec<i16>)
    ensures
        r@ == to_mono(stereo@),
{
    let mut out: Vec<i16> = Vec::new();
    let n: usize = stereo.len() / 2;
    let mut i: usize = 0;
    while i < n
        invariant
            i <= n,
            n == stereo@.len() / 2,
            2 * n <= stereo.len(),
            out@ =~= to_mono(stereo@).take(i as int),
        decreases n - i,
    {
        let sum: i32 = stereo[2 * i] as i32 + stereo[2 * i + 1] as i32;
        let h: i32 = if sum >= 0 {
            sum / 2
        } else {
            -((-sum) / 2)
        };
        out.push(h as i16);
        i = i + 1;
    }
    out
}

/// Brings samples from 48 kHz to 16 kHz, by taking every third.
pub fn decimate_48k_to_16k(samples: &[i16]) -> (r: Vec<i16>)
    ensures
        r@ == every_third(samples@),
{
    let mut out: Vec<i16> = Vec::new();
    let mut i: usize = 0;
    let mut k: usize = 0;
    while i < samples.len()
        invariant
            i == 3 * k,
            k <= (samples@.len() + 2) / 3,
            out@ =~= every_third(samples@).take(k as int),
            samples.len() == samples@.len(),
        decreases samples@.len() - i,
    {
        out.push(samples[i]);
        k = k + 1;
        if samples.len() - i <= 3 {
            proof {
                assert(k == (samples@.len() + 2) / 3);
                assert(out@ =~= every_third(samples@));
            }
            return out;
        }
        i = i + 3;
    }
    proof {
        assert(out@ =~= every_third(samples@));
    }
    out
}

/// The order in which voices come makes no difference to the mix.
pub proof fn law_mixing_is_fair(voices: Seq<Seq<i16>>, a: Seq<i16>, b: Seq<i16>)
    ensures
        mixed(voices.push(a).push(b)) == mixed(voices.push(b).push(a)),
{
    let ab = voices.push(a).push(b);
    let ba = voices.push(b).push(a);
    assert(ab.drop_last() =~= voices.push(a));
    assert(ba.drop_last() =~= voices.push(b));
    assert(voices.push(a).drop_last() =~= voices);
    assert(voices.push(b).drop_last() =~= voices);
    assert(mix_length(ab) == mix_length(ba)) by {
        reveal_with_fuel(mix_length, 3);
    }
    assert forall|i: int| #[trigger] voices_at(ab, i) == voices_at(ba, i) by {
        reveal_with_fuel(voices_at, 3);
    }
    assert(mixed(ab) =~= mixed(ba));
}

/// One voice alone is heard as it is, up to the capacity.
pub proof fn law_one_voice_is_unchanged(voice: Seq<i16>)
    requires
        voice.len() <= MIX_CAPACITY,
    ensures
        mixed(seq![voice]) == voice,
{
    let one = seq![voice];
    assert(one.drop_last() =~= Seq::<Seq<i16>>::empty());
    assert(mix_length(one) == voice.len()) by {
        reveal_with_fuel(mix_length, 2);
    }
    assert forall|i: int| #[trigger] voices_at(one, i) == voice_at(voice, i) by {
        reveal_with_fuel(voices_at, 2);
    }
    assert(mixed(one) =~= voice);
}

/// The mix is as long as the longest voice, up to the capacity: no voice is cut off before its
/// end but at the capacity, and where the mix ends a voice ends.
pub proof fn law_the_mix_is_as_long_as_the_longest_voice(voices: Seq<Seq<i16>>)
    ensures
        mixed(voices).len() <= 1920,
        forall|k: int|
            0 <= k < voices.len() ==> (#[trigger] voices[k]).len() <= mixed(voices).len() || mixed(
                voices,
            ).len() == 1920,
        mixed(voices).len() > 0 ==> exists|k: int|
            0 <= k < voices.len() && mixed(voices).len() <= (#[trigger] voices[k]).len(),
    decreases voices.len(),
{
    if voices.len() > 0 {
        let fewer = voices.drop_last();
        let last = voices.len() - 1;
        law_the_mix_is_as_long_as_the_longest_voice(fewer);
        assert(voices[last] == voices.last());
        assert forall|k: int| 0 <= k < voices.len() implies (#[trigger] voices[k]).len() <= mixed(
            voices,
        ).len() || mixed(voices).len() == 1920 by {
            if k < last {
                assert(fewer[k] == voices[k]);
            }
        }
        if mixed(voices).len() > 0 {
            if mixed(voices).len() == mixed(fewer).len() {
                let k = choose|k: int|
                    0 <= k < fewer.len() && mixed(fewer).len() <= (#[trigger] fewer[k]).len();
                assert(voices[k] == fewer[k]);
            } else {
                assert(mixed(voices).len() <= voices[last].len());
            }
        }
    }
}

/// What all voices together come to at index `i`.
pub open spec fn loudness_at(voices: Seq<Seq<i16>>, i: int) -> int {
    voices.fold_left(
        0int,
        |sum: int, voice: Seq<i16>|
            sum + (if i < voice.len() {
                voice[i] as int
            } else {
                0
            }),
    )
}

proof fn lemma_loudness(voices: Seq<Seq<i16>>, i: int)
    ensures
        voices_at(voices, i) == loudness_at(voices, i),
    decreases voices.len(),
{
    if voices.len() > 0 {
        lemma_loudness(voices.drop_last(), i);
    }
}

/// Every voice is heard, however many there are: each sample of the mix is the sum over all voices
/// of their samples at its index, or the largest or smallest sample where the sum is beyond it.
pub proof fn law_every_voice_is_heard(voices: Seq<Seq<i16>>, i: int)
    requires
        0 <= i < mixed(voices).len(),
    ensures
        -32768 <= loudness_at(voices, i) <= 32767 ==> mixed(voices)[i] == loudness_at(voices, i),
        loudness_at(voices, i) > 32767 ==> mixed(voices)[i] == 32767,
        loudness_at(voices, i) < -32768 ==> mixed(voices)[i] == -32768,
{
    lemma_loudness(voices, i);
}

/// The sample of a sound at an index, and silence behind its end.
pub open spec fn sound_at(s: Seq<i16>, i: int) -> int {
    if 0 <= i < s.len() {
        s[i] as int
    } else {
        0
    }
}

/// One voice more adds its samples to the mix: wherever neither mix is at the end of the range of
/// samples, they differ by the sample of the voice. The mix gets no shorter.
pub proof fn law_one_voice_more_adds_its_samples(voices: Seq<Seq<i16>>, voice: Seq<i16>, i: int)
    requires
        0 <= i < 1920,
    ensures
        mixed(voices).len() <= mixed(voices.push(voice)).len(),
        i < voice.len() ==> i < mixed(voices.push(voice)).len(),
        -32768 < sound_at(mixed(voices), i) < 32767 && -32768 < sound_at(
            mixed(voices.push(voice)),
            i,
        ) < 32767 ==> sound_at(mixed(voices.push(voice)), i) == sound_at(mixed(voices), i)
            + sound_at(voice, i),
{
    let more = voices.push(voice);
    assert(more.drop_last() =~= voices);
    assert(more.last() == voice);
    lemma_silence_behind(voices, i);
    lemma_silence_behind(more, i);
}

/// Behind the end of a mix no voice has a sample, within the capacity.
proof fn lemma_silence_behind(voices: Seq<Seq<i16>>, i: int)
    requires
        0 <= i < 1920,
    ensures
        0 <= mix_length(voices) <= 1920,
        i >= mix_length(voices) ==> voices_at(voices, i) == 0,
    decreases voices.len(),
{
    if voices.len() > 0 {
        lemma_silence_behind(voices.drop_last(), i);
    }
}

/// A mono sample is what the left and right samples come to in the middle: between the two, and
/// within half a step of their average. There is one for each whole pair.
pub proof fn law_mono_is_the_middle_of_stereo(s: Seq<i16>, i: int)
    requires
        0 <= i < to_mono(s).len(),
    ensures
        2 * to_mono(s).len() <= s.len() < 2 * to_mono(s).len() + 2,
        -1 <= 2 * to_mono(s)[i] - (s[2 * i] + s[2 * i + 1]) <= 1,
        s[2 * i] <= s[2 * i + 1] ==> s[2 * i] <= to_mono(s)[i] <= s[2 * i + 1],
        s[2 * i + 1] <= s[2 * i] ==> s[2 * i + 1] <= to_mono(s)[i] <= s[2 * i],
{
}

/// Decimation keeps the first of every three samples, and so a third of them.
pub proof fn law_decimation_keeps_a_third(s: Seq<i16>, i: int)
    ensures
        3 * every_third(s).len() - 3 < s.len() <= 3 * every_third(s).len(),
        0 <= i < s.len() && i % 3 == 0 ==> every_third(s)[i / 3] == s[i],
{
}

/// The peak of samples is reached by one of them, and passed by none. The smallest sample counts
/// as the largest.
pub proof fn law_the_peak_is_the_loudest_sample(s: Seq<i16>)
    ensures
        0 <= peak(s) <= 32767,
        forall|i: int|
            0 <= i < s.len() ==> (#[trigger] s[i]) <= peak(s) && (-s[i] <= peak(s) || s[i]
                == i16::MIN && peak(s) == 32767),
        peak(s) > 0 ==> exists|i: int|
            0 <= i < s.len() && ((#[trigger] s[i]) == peak(s) || -s[i] == peak(s) || s[i]
                == i16::MIN && peak(s) == 32767),
    decreases s.len(),
{
    if s.len() > 0 {
        let fewer = s.drop_last();
        law_the_peak_is_the_loudest_sample(fewer);
        assert(s[s.len() - 1] == s.last());
        assert forall|i: int| 0 <= i < s.len() implies (#[trigger] s[i]) <= peak(s) && (-s[i]
            <= peak(s) || s[i] == i16::MIN && peak(s) == 32767) by {
            if i < fewer.len() {
                assert(fewer[i] == s[i]);
            }
        }
        if peak(s) > 0 && peak(s) == peak(fewer) {
            let i = choose|i: int|
                0 <= i < fewer.len() && ((#[trigger] fewer[i]) == peak(fewer) || -fewer[i] == peak(
                    fewer,
                ) || fewer[i] == i16::MIN && peak(fewer) == 32767);
            assert(s[i] == fewer[i]);
        }
    }
}

/// What frames with the given peaks make of a state, one after another.
pub open spec fn vad_after_all(s: VadState, peaks: Seq<int>, cfg: AudioConfig) -> VadState
    decreases peaks.len(),
{
    if peaks.len() == 0 {
        s
    } else {
        vad_after(vad_after_all(s, peaks.drop_last(), cfg), peaks.last(), cfg)
    }
}

proof fn lemma_quiet_frames(s: VadState, peaks: Seq<int>, cfg: AudioConfig)
    requires
        s.speaking,
        s.silence_frames == 0,
        peaks.len() < u32::MAX,
        cfg.vad_silence_frames_before_stop > 0,
        forall|i: int|
            0 <= i < peaks.len() ==> cfg.vad_mute_threshold <= #[trigger] peaks[i]
                <= cfg.vad_silence_threshold,
    ensures
        vad_after_all(s, peaks, cfg).silence_frames == peaks.len(),
        vad_after_all(s, peaks, cfg).speaking <==> peaks.len() < cfg.vad_silence_frames_before_stop,
    decreases peaks.len(),
{
    if peaks.len() > 0 {
        let fewer = peaks.drop_last();
        assert forall|i: int| 0 <= i < fewer.len() implies cfg.vad_mute_threshold
            <= #[trigger] fewer[i] <= cfg.vad_silence_threshold by {
            assert(fewer[i] == peaks[i]);
        }
        lemma_quiet_frames(s, fewer, cfg);
        assert(peaks[peaks.len() - 1] == peaks.last());
    }
}

/// Speech outlasts quiet frames, up to the number that ends it: behind a loud frame, somebody
/// still speaks exactly as long as fewer quiet frames have come. A muted frame ends it at once, and
/// a loud one begins it from any state.
pub proof fn law_speech_outlasts_short_pauses(
    s: VadState,
    loud: int,
    peaks: Seq<int>,
    muted: int,
    cfg: AudioConfig,
)
    requires
        loud > cfg.vad_silence_threshold,
        loud >= cfg.vad_mute_threshold,
        muted < cfg.vad_mute_threshold,
        peaks.len() < u32::MAX,
        cfg.vad_silence_frames_before_stop > 0,
        forall|i: int|
            0 <= i < peaks.len() ==> cfg.vad_mute_threshold <= #[trigger] peaks[i]
                <= cfg.vad_silence_threshold,
    ensures
        vad_after(s, loud, cfg).speaking,
        vad_after_all(vad_after(s, loud, cfg), peaks, cfg).speaking <==> peaks.len()
            < cfg.vad_silence_frames_before_stop,
        !vad_after(s, muted, cfg).speaking,
{
    lemma_quiet_frames(vad_after(s, loud, cfg), peaks, cfg);
}

} // verus!
