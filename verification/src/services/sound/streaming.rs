//! Sounds that are decoded while they play.

use vstd::prelude::*;
use vstd::string::*;

verus! {

/// Why a file cannot be streamed.
#[derive(Debug)]
pub enum StreamingError {
    /// It cannot be opened.
    Open { path: String, detail: String },
    /// Its format is not known.
    Probe { path: String, detail: String },
    /// It has no audio track.
    NoTrack { path: String },
    /// It does not state its rate.
    NoSampleRate { path: String },
    /// It is not at the rate of the conference bridge.
    WrongSampleRate { path: String, got: u32, expected: u32 },
    /// It cannot be decoded.
    Decoder(String),
}

/// The first track that has a codec, given for each track whether it has one.
pub fn first_audio_track(has_codec: &Vec<bool>) -> (r: Option<usize>)
    ensures
        match r {
            Some(i) => i < has_codec@.len() && has_codec@[i as int] && forall|j: int|
                0 <= j < i ==> !#[trigger] has_codec@[j],
            None => forall|j: int| 0 <= j < has_codec@.len() ==> !#[trigger] has_codec@[j],
        },
{
    let mut i: usize = 0;
    while i < has_codec.len()
        invariant
            i <= has_codec@.len(),
            forall|j: int| 0 <= j < i ==> !#[trigger] has_codec@[j],
        decreases has_codec@.len() - i,
    {
        if has_codec[i] {
            return Some(i);
        }
        i = i + 1;
    }
    None
}

/// Whether a file can be streamed: it needs an audio track, at the rate of the conference
/// bridge.
pub fn check_stream(path: &str, track: Option<usize>, sample_rate: Option<u32>) -> (r: Result<
    usize,
    StreamingError,
>)
    ensures
        match r {
            Ok(t) => track == Some(t) && sample_rate == Some(16000u32),
            Err(StreamingError::NoTrack { path: p }) => track is None && p@ == path@,
            Err(StreamingError::NoSampleRate { path: p }) => track is Some && sample_rate is None
                && p@ == path@,
            Err(StreamingError::WrongSampleRate { path: p, got, expected }) => track is Some
                && sample_rate == Some(got) && got != 16000 && expected == 16000 && p@ == path@,
            _ => false,
        },
{
    let t: usize = match track {
        Some(t) => t,
        None => {
            return Err(StreamingError::NoTrack { path: String::from_str(path) });
        },
    };
    match sample_rate {
        None => Err(StreamingError::NoSampleRate { path: String::from_str(path) }),
        Some(rate) => {
            if rate != crate::sip::types::CONF_SAMPLE_RATE {
                return Err(
                    StreamingError::WrongSampleRate {
                        path: String::from_str(path),
                        got: rate,
                        expected: crate::sip::types::CONF_SAMPLE_RATE,
                    },
                );
            }
            Ok(t)
        },
    }
}

/// A division that rounds towards zero.
pub open spec fn div_to_zero(x: int, n: int) -> int {
    if x >= 0 {
        x / n
    } else {
        -((-x) / n)
    }
}

/// The sum of the samples of a frame over the first `n` channels.
pub open spec fn sum16(channels: Seq<Vec<i16>>, frame: int, n: int) -> int
    decreases n,
{
    if n <= 0 {
        0
    } else {
        sum16(channels, frame, n - 1) + channels[n - 1]@[frame]
    }
}

/// The sum of the samples of a frame over the first `n` channels.
pub open spec fn sum32(channels: Seq<Vec<i32>>, frame: int, n: int) -> int
    decreases n,
{
    if n <= 0 {
        0
    } else {
        sum32(channels, frame, n - 1) + channels[n - 1]@[frame]
    }
}

/// The average of a frame of sixteen-bit samples.
pub open spec fn mono16(channels: Seq<Vec<i16>>, frame: int) -> i16 {
    div_to_zero(sum16(channels, frame, channels.len() as int), channels.len() as int) as i16
}

/// The upper half of the average of a frame of thirty-two-bit samples.
pub open spec fn mono32(channels: Seq<Vec<i32>>, frame: int) -> i16 {
    (div_to_zero(sum32(channels, frame, channels.len() as int), channels.len() as int) / 0x1_0000) as i16
}

/// One channel, made of sixteen-bit channels by averaging.
pub fn mix_s16(channels: &Vec<Vec<i16>>, frames: usize) -> (out: Vec<i16>)
    requires
        1 <= channels@.len() <= 0xffff,
        forall|c: int| 0 <= c < channels@.len() ==> (#[trigger] channels@[c])@.len() >= frames,
    ensures
        out@.len() == frames,
        forall|f: int| 0 <= f < frames ==> #[trigger] out@[f] == mono16(channels@, f),
{
    let mut out: Vec<i16> = Vec::new();
    let mut f: usize = 0;
    let n: usize = channels.len();
    while f < frames
        invariant
            f <= frames,
            n == channels@.len(),
            1 <= n <= 0xffff,
            forall|c: int|
                0 <= c < channels@.len() ==> (#[trigger] channels@[c])@.len() >= frames,
            out@.len() == f,
            forall|k: int| 0 <= k < f ==> #[trigger] out@[k] == mono16(channels@, k),
        decreases frames - f,
    {
        let mut sum: i64 = 0;
        let mut c: usize = 0;
        while c < n
            invariant
                f < frames,
                c <= n,
                n == channels@.len(),
                n <= 0xffff,
                forall|k: int|
                    0 <= k < channels@.len() ==> (#[trigger] channels@[k])@.len() >= frames,
                sum == sum16(channels@, f as int, c as int),
                -0x8000 * c <= sum <= 0x7fff * c,
            decreases n - c,
        {
            assert(channels@[c as int]@.len() >= frames);
            sum = sum + channels[c][f] as i64;
            c = c + 1;
        }
        let count: i64 = n as i64;
        proof {
            lemma_average_bound(sum as int, n as int, 0x8000);
        }
        let mono: i64 = if sum >= 0 {
            sum / count
        } else {
            -((-sum) / count)
        };
        out.push(mono as i16);
        f = f + 1;
    }
    out
}

proof fn lemma_average_bound(sum: int, n: int, bound: int)
    requires
        n >= 1,
        bound >= 1,
        -bound * n <= sum <= (bound - 1) * n,
    ensures
        -bound <= div_to_zero(sum, n) <= bound - 1,
{
    if sum >= 0 {
        vstd::arithmetic::div_mod::lemma_div_by_multiple(bound - 1, n);
        vstd::arithmetic::div_mod::lemma_div_is_ordered(sum, (bound - 1) * n, n);
        vstd::arithmetic::div_mod::lemma_div_pos_is_pos(sum, n);
    } else {
        assert(-sum <= bound * n) by (nonlinear_arith)
            requires
                -bound * n <= sum,
        ;
        vstd::arithmetic::div_mod::lemma_div_by_multiple(bound, n);
        vstd::arithmetic::div_mod::lemma_div_is_ordered(-sum, bound * n, n);
        vstd::arithmetic::div_mod::lemma_div_pos_is_pos(-sum, n);
    }
}

/// One channel of sixteen bits, made of thirty-two-bit channels by averaging.
pub fn mix_s32(channels: &Vec<Vec<i32>>, frames: usize) -> (out: Vec<i16>)
    requires
        1 <= channels@.len() <= 0xffff,
        forall|c: int| 0 <= c < channels@.len() ==> (#[trigger] channels@[c])@.len() >= frames,
    ensures
        out@.len() == frames,
        forall|f: int| 0 <= f < frames ==> #[trigger] out@[f] == mono32(channels@, f),
{
    let mut out: Vec<i16> = Vec::new();
    let mut f: usize = 0;
    let n: usize = channels.len();
    while f < frames
        invariant
            f <= frames,
            n == channels@.len(),
            1 <= n <= 0xffff,
            forall|c: int|
                0 <= c < channels@.len() ==> (#[trigger] channels@[c])@.len() >= frames,
            out@.len() == f,
            forall|k: int| 0 <= k < f ==> #[trigger] out@[k] == mono32(channels@, k),
        decreases frames - f,
    {
        let mut sum: i64 = 0;
        let mut c: usize = 0;
        while c < n
            invariant
                f < frames,
                c <= n,
                n == channels@.len(),
                n <= 0xffff,
                forall|k: int|
                    0 <= k < channels@.len() ==> (#[trigger] channels@[k])@.len() >= frames,
                sum == sum32(channels@, f as int, c as int),
                -0x8000_0000 * c <= sum <= 0x7fff_ffff * c,
            decreases n - c,
        {
            assert(channels@[c as int]@.len() >= frames);
            sum = sum + channels[c][f] as i64;
            c = c + 1;
        }
        let count: i64 = n as i64;
        proof {
            lemma_average_bound(sum as int, n as int, 0x8000_0000);
        }
        let mono: i64 = if sum >= 0 {
            sum / count
        } else {
            -((-sum) / count)
        };
        let shifted: i64 = if mono >= 0 {
            mono / 0x1_0000
        } else {
            -((-mono + 0xffff) / 0x1_0000)
        };
        out.push(shifted as i16);
        f = f + 1;
    }
    out
}

/// The samples that wait to be played, and whether more will come.
#[derive(Debug)]
pub struct StreamingPlayer {
    buffer: Vec<i16>,
    eof: bool,
    samples_read: u64,
    samples_delivered: u64,
}

impl StreamingPlayer {
    /// The samples that wait to be played.
    pub closed spec fn waiting(&self) -> Seq<i16> {
        self.buffer@
    }

    /// No more samples will come.
    pub closed spec fn ended(&self) -> bool {
        self.eof
    }

    /// How many samples have come.
    pub closed spec fn read(&self) -> nat {
        self.samples_read as nat
    }

    /// How many samples have been played.
    pub closed spec fn delivered(&self) -> nat {
        self.samples_delivered as nat
    }

    /// What has come was played or waits.
    pub open spec fn wf(&self) -> bool {
        self.read() == self.delivered() + self.waiting().len()
    }

    /// A player that nothing has come to.
    pub fn new() -> (p: Self)
        ensures
            p.wf(),
            p.waiting().len() == 0,
            !p.ended(),
            p.read() == 0,
    {
        StreamingPlayer { buffer: Vec::new(), eof: false, samples_read: 0, samples_delivered: 0 }
    }

    /// Whether more samples have to come before a frame can be played.
    pub fn wants_more(&self, frame_size: usize) -> (r: bool)
        ensures
            r == (too_few(self.waiting(), frame_size as nat) && !self.ended()),
    {
        self.buffer.len() < frame_size && !self.eof
    }

    /// Takes samples in.
    pub fn push_samples(&mut self, samples: &[i16])
        requires
            old(self).wf(),
            old(self).read() + samples@.len() <= u64::MAX,
        ensures
            final(self).wf(),
            final(self).waiting() == old(self).waiting() + samples@,
            final(self).ended() == old(self).ended(),
            final(self).read() == old(self).read() + samples@.len(),
            final(self).delivered() == old(self).delivered(),
    {
        let ghost before = self.buffer@;
        let n: usize = samples.len();
        self.buffer.extend_from_slice(samples);
        self.samples_read = self.samples_read + n as u64;
        proof {
            assert(self.buffer@ =~= before + samples@);
        }
    }

    /// No more samples will come.
    pub fn end_of_file(&mut self)
        ensures
            final(self).ended(),
            final(self).waiting() == old(self).waiting(),
            final(self).read() == old(self).read(),
            final(self).delivered() == old(self).delivered(),
    {
        self.eof = true;
    }

    /// Plays a frame: the samples that wait, with silence behind them where the file has ended
    /// with too few. `None` where the file is finished.
    ///
    /// Samples are taken in first, for as long as more are wanted.
    pub fn get_frame(&mut self, frame_size: usize) -> (r: Option<Vec<i16>>)
        requires
            old(self).wf(),
            too_few(old(self).waiting(), frame_size as nat) ==> old(self).ended(),
        ensures
            final(self).wf(),
            final(self).ended() == old(self).ended(),
            final(self).read() == old(self).read(),
            r is Some <==> old(self).waiting().len() > 0,
            r is None ==> final(self).waiting() == old(self).waiting(),
            r is None && frame_size > 0 ==> old(self).ended(),
            r is Some ==> (r->0)@ == frame_of(old(self).waiting(), frame_size as nat)
                && final(self).waiting() == left_behind(old(self).waiting(), frame_size as nat),
    {
        if self.buffer.len() == 0 {
            return None;
        }
        let count: usize = if frame_size < self.buffer.len() {
            frame_size
        } else {
            self.buffer.len()
        };
        let ghost all = self.buffer@;
        let mut samples: Vec<i16> = Vec::new();
        let mut i: usize = 0;
        while i < count
            invariant
                i <= count <= self.buffer@.len(),
                self.buffer@ == all,
                samples@ =~= all.take(i as int),
                self.eof == old(self).eof,
                self.samples_read == old(self).samples_read,
                self.samples_delivered == old(self).samples_delivered,
            decreases count - i,
        {
            samples.push(self.buffer[i]);
            i = i + 1;
        }
        let mut rest: Vec<i16> = Vec::new();
        let mut k: usize = count;
        while k < self.buffer.len()
            invariant
                count <= k <= self.buffer@.len(),
                self.buffer@ == all,
                rest@ =~= all.subrange(count as int, k as int),
                self.eof == old(self).eof,
                self.samples_read == old(self).samples_read,
                self.samples_delivered == old(self).samples_delivered,
            decreases self.buffer@.len() - k,
        {
            rest.push(self.buffer[k]);
            k = k + 1;
        }
        self.buffer = rest;
        self.samples_delivered = self.samples_delivered + count as u64;
        while samples.len() < frame_size
            invariant
                count <= samples@.len() <= frame_size,
                samples@ =~= all.take(count as int) + Seq::new(
                    (samples@.len() - count) as nat,
                    |j: int| 0i16,
                ),
                count <= all.len(),
            decreases frame_size - samples@.len(),
        {
            samples.push(0);
        }
        Some(samples)
    }

    /// Whether everything was played.
    pub fn is_finished(&self) -> (r: bool)
        ensures
            r == (self.ended() && self.waiting().len() == 0),
    {
        self.eof && self.buffer.len() == 0
    }
}

/// The samples that wait are too few for a frame.
pub open spec fn too_few(waiting: Seq<i16>, frame: nat) -> bool {
    waiting.len() < frame
}

/// How many of the samples that wait make up a frame.
pub open spec fn taken(waiting: Seq<i16>, frame: nat) -> int {
    if frame < waiting.len() {
        frame as int
    } else {
        waiting.len() as int
    }
}

/// A frame: the samples that wait, and silence behind them.
pub open spec fn frame_of(waiting: Seq<i16>, frame: nat) -> Seq<i16> {
    waiting.take(taken(waiting, frame)) + silence((frame - taken(waiting, frame)) as nat)
}

/// The samples that wait once a frame was played.
pub open spec fn left_behind(waiting: Seq<i16>, frame: nat) -> Seq<i16> {
    waiting.subrange(taken(waiting, frame), waiting.len() as int)
}

/// A frame has the length that was asked for, and what was played and what is left are what
/// waited.
pub proof fn law_a_frame_is_whole(waiting: Seq<i16>, frame: nat)
    ensures
        frame_of(waiting, frame).len() == frame,
        frame_of(waiting, frame).take(taken(waiting, frame)) + left_behind(waiting, frame)
            == waiting,
{
    assert(frame_of(waiting, frame).take(taken(waiting, frame)) + left_behind(waiting, frame)
        =~= waiting);
}

/// The samples of packets, one behind the other.
pub open spec fn joined(packets: Seq<Seq<i16>>) -> Seq<i16>
    decreases packets.len(),
{
    if packets.len() == 0 {
        Seq::empty()
    } else {
        packets[0] + joined(packets.drop_first())
    }
}

/// The samples that wait, and the packets that are left, once packets were taken in for a frame:
/// for as long as there are too few samples, and packets are left.
pub open spec fn filled(waiting: Seq<i16>, packets: Seq<Seq<i16>>, frame: nat) -> (
    Seq<i16>,
    Seq<Seq<i16>>,
)
    decreases packets.len(),
{
    if too_few(waiting, frame) && packets.len() > 0 {
        filled(waiting + packets[0], packets.drop_first(), frame)
    } else {
        (waiting, packets)
    }
}

/// Taking packets in changes no sample, and stops short of a frame only where no packet is left.
pub proof fn lemma_filled(waiting: Seq<i16>, packets: Seq<Seq<i16>>, frame: nat)
    ensures
        ({
            let (w, rest) = filled(waiting, packets, frame);
            &&& w + joined(rest) == waiting + joined(packets)
            &&& too_few(w, frame) ==> rest.len() == 0
        }),
    decreases packets.len(),
{
    if too_few(waiting, frame) && packets.len() > 0 {
        lemma_filled(waiting + packets[0], packets.drop_first(), frame);
        assert(waiting + packets[0] + joined(packets.drop_first()) =~= waiting + joined(packets));
    }
}

/// The frames that a file is played as: for each frame packets are taken in, and the frames end
/// where no sample is left.
pub open spec fn frames_of(waiting: Seq<i16>, packets: Seq<Seq<i16>>, frame: nat) -> Seq<Seq<i16>>
    decreases waiting.len() + joined(packets).len(),
    via frames_of_decreases
{
    let (w, rest) = filled(waiting, packets, frame);
    if frame == 0 || w.len() == 0 {
        Seq::empty()
    } else {
        seq![frame_of(w, frame)] + frames_of(left_behind(w, frame), rest, frame)
    }
}

#[via_fn]
proof fn frames_of_decreases(waiting: Seq<i16>, packets: Seq<Seq<i16>>, frame: nat) {
    lemma_filled(waiting, packets, frame);
    let (w, rest) = filled(waiting, packets, frame);
    assert((w + joined(rest)).len() == (waiting + joined(packets)).len());
}

/// A file is played whole: every frame has the length that was asked for, and all frames together
/// are the samples of the file with fewer zeros behind them than a frame has.
pub proof fn law_a_file_is_played_whole(waiting: Seq<i16>, packets: Seq<Seq<i16>>, frame: nat)
    requires
        frame >= 1,
    ensures
        ({
            let frames = frames_of(waiting, packets, frame);
            let samples = waiting + joined(packets);
            &&& forall|i: int| 0 <= i < frames.len() ==> (#[trigger] frames[i]).len() == frame
            &&& joined(frames).len() < samples.len() + frame
            &&& exists|zeros: nat|
                zeros < frame && joined(frames) == samples + #[trigger] silence(zeros)
        }),
    decreases waiting.len() + joined(packets).len(),
{
    let samples = waiting + joined(packets);
    let (w, rest) = filled(waiting, packets, frame);
    lemma_filled(waiting, packets, frame);
    let frames = frames_of(waiting, packets, frame);
    if w.len() == 0 {
        assert(samples =~= Seq::empty());
        assert(joined(frames) =~= samples + silence(0));
    } else {
        let left = left_behind(w, frame);
        let more = frames_of(left, rest, frame);
        assert(samples.len() == (w + joined(rest)).len());
        law_a_file_is_played_whole(left, rest, frame);
        assert(frames[0] == frame_of(w, frame));
        assert(frames.drop_first() =~= more);
        assert forall|i: int| 0 <= i < frames.len() implies (#[trigger] frames[i]).len() == frame by {
            if i > 0 {
                assert(frames[i] == more[i - 1]);
            }
        }
        let zeros = choose|zeros: nat|
            zeros < frame && joined(more) == left + joined(rest) + #[trigger] silence(zeros);
        if too_few(w, frame) {
            // The last frame: no packet and no sample is left.
            assert(left =~= Seq::empty());
            assert(filled(left, rest, frame) == (left, rest));
            assert(more =~= Seq::empty());
            assert(joined(frames) =~= samples + silence((frame - w.len()) as nat));
        } else {
            assert(frame_of(w, frame) =~= w.take(frame as int));
            assert(w.take(frame as int) + left =~= w);
            assert(joined(frames) =~= frame_of(w, frame) + (left + joined(rest) + silence(zeros)));
            assert(joined(frames) =~= w + joined(rest) + silence(zeros));
            assert(joined(frames) == samples + silence(zeros));
        }
    }
}

/// So many samples of silence.
pub open spec fn silence(n: nat) -> Seq<i16> {
    Seq::new(n, |j: int| 0i16)
}

/// Where packets were taken in and no sample waits, the file has ended: no packet is left, so that
/// no later frame has a sample either.
pub proof fn law_the_end_is_the_end(waiting: Seq<i16>, packets: Seq<Seq<i16>>, frame: nat)
    requires
        frame >= 1,
        filled(waiting, packets, frame).0.len() == 0,
    ensures
        filled(waiting, packets, frame).1.len() == 0,
        waiting + joined(packets) == Seq::<i16>::empty(),
        frames_of(waiting, packets, frame).len() == 0,
{
    lemma_filled(waiting, packets, frame);
    let (w, rest) = filled(waiting, packets, frame);
    assert(w + joined(rest) =~= Seq::empty());
}

/// The sum over channels is that of each of them: one channel more adds its sample.
pub proof fn law_every_channel_is_summed(channels: Seq<Vec<i16>>, wide: Seq<Vec<i32>>, frame: int, n: int)
    requires
        0 <= n,
    ensures
        sum16(channels, frame, 0) == 0,
        sum32(wide, frame, 0) == 0,
        sum16(channels, frame, n + 1) == sum16(channels, frame, n) + channels[n]@[frame],
        sum32(wide, frame, n + 1) == sum32(wide, frame, n) + wide[n]@[frame],
{
}

/// Channels that say the same are heard as each of them, and two channels in the middle: the average
/// of any number of equal samples is that sample.
pub proof fn law_equal_channels_are_heard_as_one(channels: Seq<Vec<i16>>, frame: int, s: i16)
    requires
        channels.len() > 0,
        forall|c: int| 0 <= c < channels.len() ==> (#[trigger] channels[c])@[frame] == s,
    ensures
        mono16(channels, frame) == s,
{
    let n = channels.len() as int;
    lemma_equal_sum(channels, frame, s, n);
    let v = s as int;
    if v >= 0 {
        assert((n * v) / n == v) by (nonlinear_arith)
            requires
                n > 0,
        ;
        assert(n * v >= 0) by (nonlinear_arith)
            requires
                n > 0,
                v >= 0,
        ;
    } else {
        let w = -v;
        assert((n * w) / n == w) by (nonlinear_arith)
            requires
                n > 0,
        ;
        assert(n * v == -(n * w) && n * v < 0) by (nonlinear_arith)
            requires
                n > 0,
                w == -v,
                v < 0,
        ;
    }
}

proof fn lemma_equal_sum(channels: Seq<Vec<i16>>, frame: int, s: i16, n: int)
    requires
        0 <= n <= channels.len(),
        forall|c: int| 0 <= c < channels.len() ==> (#[trigger] channels[c])@[frame] == s,
    ensures
        sum16(channels, frame, n) == n * s,
    decreases n,
{
    if n > 0 {
        lemma_equal_sum(channels, frame, s, n - 1);
        assert(channels[n - 1]@[frame] == s);
        let v = s as int;
        assert((n - 1) * v + v == n * v) by (nonlinear_arith);
    } else {
        assert(0 * s == 0);
    }
}

/// A division that rounds towards zero leaves less than the divisor, and never passes what it
/// divides.
pub proof fn law_averages_round_towards_zero(x: int, n: int)
    requires
        n > 0,
    ensures
        x >= 0 ==> div_to_zero(x, n) * n <= x < (div_to_zero(x, n) + 1) * n,
        x <= 0 ==> (div_to_zero(x, n) - 1) * n < x <= div_to_zero(x, n) * n,
{
    let a: int = if x >= 0 {
        x
    } else {
        -x
    };
    let q = a / n;
    vstd::arithmetic::div_mod::lemma_fundamental_div_mod(a, n);
    vstd::arithmetic::div_mod::lemma_mod_bound(a, n);
    assert(q * n <= a < (q + 1) * n) by (nonlinear_arith)
        requires
            a == n * q + a % n,
            0 <= a % n < n,
    ;
    assert((-q) * n == -(q * n) && (-q - 1) * n == -((q + 1) * n)) by (nonlinear_arith);
    if x == 0 {
        assert(q == 0) by (nonlinear_arith)
            requires
                q * n <= 0 < (q + 1) * n,
                n > 0,
        ;
    }
}

/// A frame is the first of the samples that wait, as many as it has room for, and silence behind
/// them; the rest waits on.
pub proof fn law_a_frame_takes_the_first_samples(waiting: Seq<i16>, frame: nat, i: int)
    requires
        0 <= i < frame,
    ensures
        frame_of(waiting, frame).len() == frame,
        frame_of(waiting, frame)[i] == (if i < waiting.len() {
            waiting[i]
        } else {
            0
        }),
        frame <= waiting.len() ==> left_behind(waiting, frame) == waiting.subrange(
            frame as int,
            waiting.len() as int,
        ),
        frame > waiting.len() ==> left_behind(waiting, frame).len() == 0,
{
}

/// More of a file is read as long as a whole frame is not there, and no longer.
pub proof fn law_when_more_is_read(waiting: Seq<i16>, frame: nat)
    ensures
        !too_few(waiting, frame) <==> exists|rest: Seq<i16>| waiting == #[trigger] (waiting.take(
            frame as int,
        ) + rest) && frame <= waiting.len(),
{
    if frame <= waiting.len() {
        let rest = waiting.skip(frame as int);
        assert(waiting =~= waiting.take(frame as int) + rest);
    }
}

} // verus!
