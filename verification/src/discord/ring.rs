//! The ring buffers between the two sides.

use crate::config::AudioConfig;
use crate::discord::connection::{fill_percent, percent_full};
use crate::discord::mixing::{peak, vad_after, VadState};
use vstd::prelude::*;

verus! {

/// The writing end of a ring buffer of the `rtrb` crate.
#[verifier::external_type_specification]
#[verifier::external_body]
#[verifier::reject_recursive_types(T)]
pub struct ExProducer<T>(rtrb::Producer<T>);

/// The reading end of a ring buffer of the `rtrb` crate.
#[verifier::external_type_specification]
#[verifier::external_body]
#[verifier::reject_recursive_types(T)]
pub struct ExConsumer<T>(rtrb::Consumer<T>);

/// Everything that was ever written through a writing end of sixteen-bit samples.
pub uninterp spec fn written16(p: rtrb::Producer<i16>) -> Seq<i16>;

/// How many sixteen-bit samples the ring buffer of a writing end holds at most.
pub uninterp spec fn capacity16(p: rtrb::Producer<i16>) -> nat;

/// Everything that was ever written through a writing end of raw samples.
pub uninterp spec fn written(p: rtrb::Producer<u32>) -> Seq<u32>;

/// How many raw samples the ring buffer of a writing end holds at most.
pub uninterp spec fn capacity_of(p: rtrb::Producer<u32>) -> nat;

/// Everything that was ever read through a reading end of raw samples.
pub uninterp spec fn taken_out(c: rtrb::Consumer<u32>) -> Seq<u32>;

/// How many raw samples a reading end has seen to be there, and not taken out yet.
pub uninterp spec fn seen(c: rtrb::Consumer<u32>) -> nat;

/// Everything that was ever read through a reading end of sixteen-bit samples.
pub uninterp spec fn taken_out16(c: rtrb::Consumer<i16>) -> Seq<i16>;

/// How many sixteen-bit samples a reading end has seen to be there, and not taken out yet.
pub uninterp spec fn seen16(c: rtrb::Consumer<i16>) -> nat;

/// `rtrb::Producer::push_entire_slice`: writes all samples, or none where there is not room for
/// all of them.
///
/// There is room for them while all that was ever written fits. Beyond that it is up to the
/// reading end, which makes room at any time, so no more is stated.
#[verifier::external_body]
fn push16(p: &mut rtrb::Producer<i16>, samples: &[i16]) -> (ok: bool)
    ensures
        written16(*final(p)) == (if ok {
            written16(*old(p)) + samples@
        } else {
            written16(*old(p))
        }),
        capacity16(*final(p)) == capacity16(*old(p)),
        ok ==> samples@.len() <= capacity16(*old(p)),
        written16(*old(p)).len() + samples@.len() <= capacity16(*old(p)) ==> ok,
{
    p.push_entire_slice(samples).is_ok()
}

/// `rtrb::Producer::push_entire_slice`: writes all samples, or none where there is not room for
/// all of them.
///
/// There is room for them while all that was ever written fits. Beyond that it is up to the
/// reading end, which makes room at any time, so no more is stated.
#[verifier::external_body]
fn push_raw(p: &mut rtrb::Producer<u32>, samples: &[u32]) -> (ok: bool)
    ensures
        written(*final(p)) == (if ok {
            written(*old(p)) + samples@
        } else {
            written(*old(p))
        }),
        capacity_of(*final(p)) == capacity_of(*old(p)),
        ok ==> samples@.len() <= capacity_of(*old(p)),
        written(*old(p)).len() + samples@.len() <= capacity_of(*old(p)) ==> ok,
{
    p.push_entire_slice(samples).is_ok()
}

/// `rtrb::Producer::slots`: how many samples there is room for. That is all of the ring buffer
/// but for what was written and not read; how much was read is up to the reading end.
#[verifier::external_body]
fn room(p: &rtrb::Producer<u32>) -> (n: usize)
    ensures
        n <= capacity_of(*p),
        capacity_of(*p) <= n + written(*p).len(),
{
    p.slots()
}

/// `rtrb::Consumer::slots`: how many samples can be read: as many as were seen before, and what
/// the writing end has added since, of which nothing is promised.
#[verifier::external_body]
fn readable(c: &mut rtrb::Consumer<u32>) -> (n: usize)
    ensures
        seen(*old(c)) <= n,
        seen(*final(c)) == n,
        taken_out(*final(c)) == taken_out(*old(c)),
{
    c.slots()
}

/// `rtrb::Consumer::read_chunk`: reads that many samples, or none where there are not as many.
///
/// Samples that were seen to be there can be read. Which samples come out, and whether the
/// writing end has added others, is up to that end, and not stated.
#[verifier::external_body]
fn pop_raw(c: &mut rtrb::Consumer<u32>, n: usize) -> (r: Option<Vec<u32>>)
    ensures
        n <= seen(*old(c)) ==> r is Some && seen(*final(c)) == seen(*old(c)) - n,
        r is Some ==> (r->0)@.len() == n && taken_out(*final(c)) == taken_out(*old(c)) + (r->0)@,
        r is None ==> taken_out(*final(c)) == taken_out(*old(c)),
{
    c.read_chunk(n).ok().map(|chunk| chunk.into_iter().collect())
}

/// `rtrb::Consumer::slots`: how many samples can be read: as many as were seen before, and what
/// the writing end has added since, of which nothing is promised.
#[verifier::external_body]
fn readable16(c: &mut rtrb::Consumer<i16>) -> (n: usize)
    ensures
        seen16(*old(c)) <= n,
        seen16(*final(c)) == n,
        taken_out16(*final(c)) == taken_out16(*old(c)),
{
    c.slots()
}

/// `rtrb::Consumer::read_chunk`: reads that many samples, or none where there are not as many.
///
/// Samples that were seen to be there can be read. Which samples come out, and whether the
/// writing end has added others, is up to that end, and not stated.
#[verifier::external_body]
fn pop16(c: &mut rtrb::Consumer<i16>, n: usize) -> (r: Option<Vec<i16>>)
    ensures
        n <= seen16(*old(c)) ==> r is Some && seen16(*final(c)) == seen16(*old(c)) - n,
        r is Some ==> (r->0)@.len() == n && taken_out16(*final(c)) == taken_out16(*old(c))
            + (r->0)@,
        r is None ==> taken_out16(*final(c)) == taken_out16(*old(c)),
{
    c.read_chunk(n).ok().map(|chunk| chunk.into_iter().collect())
}

/// `rtrb::RingBuffer::new`: the two ends of a ring buffer that nothing went through.
#[verifier::external_body]
fn raw_ring(capacity: usize) -> (r: (rtrb::Producer<u32>, rtrb::Consumer<u32>))
    requires
        capacity * 4 <= isize::MAX,
    ensures
        written(r.0).len() == 0,
        capacity_of(r.0) == capacity,
        taken_out(r.1).len() == 0,
        seen(r.1) == 0,
{
    rtrb::RingBuffer::new(capacity)
}

/// Writes samples for the calls of a channel. All are written, or the frame is dropped.
pub fn write_discord_to_sip(producer: &mut rtrb::Producer<i16>, samples_16k: &[i16]) -> (ok: bool)
    ensures
        written16(*final(producer)) == (if ok {
            written16(*old(producer)) + samples_16k@
        } else {
            written16(*old(producer))
        }),
        capacity16(*final(producer)) == capacity16(*old(producer)),
        ok ==> samples_16k@.len() <= capacity16(*old(producer)),
        written16(*old(producer)).len() + samples_16k@.len() <= capacity16(*old(producer)) ==> ok,
{
    push16(producer, samples_16k)
}

/// The samples of frames, one behind the other.
pub open spec fn frames_joined(frames: Seq<Vec<i16>>) -> Seq<i16>
    decreases frames.len(),
{
    if frames.len() == 0 {
        Seq::empty()
    } else {
        frames_joined(frames.drop_last()) + frames.last()@
    }
}

/// How many whole frames so many samples make up.
pub open spec fn frame_count(readable: usize, frame_size: usize) -> int {
    readable as int / frame_size as int
}

/// How many whole frames so many samples make up.
pub fn frames_in(readable: usize, frame_size: usize) -> (n: usize)
    requires
        frame_size > 0,
    ensures
        n == frame_count(readable, frame_size),
        n * frame_size <= readable < (n + 1) * frame_size,
{
    let n: usize = readable / frame_size;
    proof {
        let (r, f) = (readable as int, frame_size as int);
        vstd::arithmetic::div_mod::lemma_fundamental_div_mod(r, f);
        assert(n * f <= r < (n + 1) * f) by (nonlinear_arith)
            requires
                r == f * n + r % f,
                0 <= r % f < f,
        ;
    }
    n
}

/// Takes out all whole frames that are there. How many samples are there is up to the writing
/// end, but for those that were seen before; what is less than a frame stays.
pub fn take_frames(consumer: &mut rtrb::Consumer<i16>, frame_size: usize) -> (r: Vec<Vec<i16>>)
    requires
        frame_size > 0,
    ensures
        forall|i: int| 0 <= i < r@.len() ==> (#[trigger] r@[i])@.len() == frame_size,
        taken_out16(*final(consumer)) == taken_out16(*old(consumer)) + frames_joined(r@),
        exists|available: usize|
            seen16(*old(consumer)) <= available && r@.len() == #[trigger] frame_count(
                available,
                frame_size,
            ) && seen16(*final(consumer)) == available - r@.len() * frame_size,
        seen16(*final(consumer)) < frame_size,
{
    let available: usize = readable16(consumer);
    let n: usize = frames_in(available, frame_size);
    let ghost before = taken_out16(*consumer);
    let mut r: Vec<Vec<i16>> = Vec::new();
    proof {
        assert(before + frames_joined(r@) =~= before);
    }
    while r.len() < n
        invariant
            frame_size > 0,
            r@.len() <= n,
            n * frame_size <= available < (n + 1) * frame_size,
            seen16(*consumer) == available - r@.len() * frame_size,
            forall|i: int| 0 <= i < r@.len() ==> (#[trigger] r@[i])@.len() == frame_size,
            taken_out16(*consumer) == before + frames_joined(r@),
        decreases n - r@.len(),
    {
        proof {
            let (k, f) = (r@.len() as int, frame_size as int);
            assert(available - k * f >= f && (k + 1) * f == k * f + f) by (nonlinear_arith)
                requires
                    n * f <= available,
                    k + 1 <= n,
                    f > 0,
            ;
        }
        match pop16(consumer, frame_size) {
            Some(frame) => {
                let ghost so_far = r@;
                r.push(frame);
                proof {
                    assert(r@.drop_last() =~= so_far);
                    assert(before + frames_joined(so_far) + frame@ =~= before + frames_joined(r@));
                }
            },
            None => {
                return r;
            },
        }
    }
    proof {
        let (k, f) = (n as int, frame_size as int);
        assert((k + 1) * f == k * f + f) by (nonlinear_arith);
    }
    r
}

/// What a reader of raw samples does.
#[derive(Debug, Clone, Copy, PartialEq, Eq, Structural)]
pub enum ReadStep {
    /// Silence is handed out until enough samples have come.
    PreBuffer,
    /// Silence is handed out, as no sample is there.
    Underrun,
    /// That many samples are read.
    Read(usize),
}

/// What a reader of raw samples does: it waits once for enough samples, and from then on
/// reads what is there.
pub open spec fn read_step(
    pre_buffered: bool,
    available: usize,
    pre_buffer_samples: usize,
    requested: usize,
) -> ReadStep {
    if !pre_buffered && available < pre_buffer_samples {
        ReadStep::PreBuffer
    } else if requested == 0 || available == 0 {
        ReadStep::Underrun
    } else if requested < available {
        ReadStep::Read(requested)
    } else {
        ReadStep::Read(available)
    }
}

/// How many samples a step takes out.
pub open spec fn step_takes(step: ReadStep) -> nat {
    match step {
        ReadStep::Read(n) => n as nat,
        _ => 0,
    }
}

/// What a reader of raw samples does.
pub fn plan_read(
    pre_buffered: bool,
    available: usize,
    pre_buffer_samples: usize,
    requested: usize,
) -> (r: ReadStep)
    ensures
        r == read_step(pre_buffered, available, pre_buffer_samples, requested),
{
    if !pre_buffered && available < pre_buffer_samples {
        return ReadStep::PreBuffer;
    }
    let n: usize = if requested < available {
        requested
    } else {
        available
    };
    if n == 0 {
        ReadStep::Underrun
    } else {
        ReadStep::Read(n)
    }
}

/// Samples, and silence behind them up to the length.
pub open spec fn padded(s: Seq<u32>, len: nat) -> Seq<u32> {
    s + Seq::new((len - s.len()) as nat, |i: int| 0u32)
}

/// Samples, and silence behind them up to the length.
pub fn pad_with_silence(samples: Vec<u32>, len: usize) -> (r: Vec<u32>)
    requires
        samples@.len() <= len,
    ensures
        r@ == padded(samples@, len as nat),
        r@.len() == len,
{
    let ghost s = samples@;
    let mut r: Vec<u32> = samples;
    while r.len() < len
        invariant
            s.len() <= r@.len() <= len,
            r@ =~= padded(s, r@.len()),
        decreases len - r@.len(),
    {
        r.push(0);
    }
    r
}

/// The sound that goes to Discord: raw samples out of a ring buffer, each the thirty-two bits
/// of its encoding, with silence where none are there.
pub struct StreamingAudioSource {
    consumer: rtrb::Consumer<u32>,
    pre_buffered: bool,
    pre_buffer_samples: usize,
    underruns: u64,
}

impl StreamingAudioSource {
    /// What was handed out so far, without the silence.
    pub closed spec fn handed_out(&self) -> Seq<u32> {
        taken_out(self.consumer)
    }

    /// How many samples were seen to be there, and not handed out yet.
    pub closed spec fn seen_ready(&self) -> nat {
        seen(self.consumer)
    }

    /// Enough samples have come once.
    pub closed spec fn started(&self) -> bool {
        self.pre_buffered
    }

    /// How many samples have to come before any is handed out.
    pub closed spec fn threshold(&self) -> usize {
        self.pre_buffer_samples
    }

    /// A source, and the end to write its samples to.
    pub fn new(ring_buffer_samples: usize, pre_buffer_samples: usize) -> (r: (
        Self,
        rtrb::Producer<u32>,
    ))
        requires
            ring_buffer_samples * 4 <= isize::MAX,
        ensures
            r.0.handed_out().len() == 0,
            !r.0.started(),
            r.0.threshold() == pre_buffer_samples,
            r.0.seen_ready() == 0,
            written(r.1).len() == 0,
            capacity_of(r.1) == ring_buffer_samples,
    {
        let (producer, consumer) = raw_ring(ring_buffer_samples);
        (
            StreamingAudioSource {
                consumer,
                pre_buffered: false,
                pre_buffer_samples,
                underruns: 0,
            },
            producer,
        )
    }

    /// Hands out the samples that were asked for: those that are there, and silence behind
    /// them. How many are there is up to the writing end, but for those that were seen before.
    pub fn read(&mut self, requested: usize) -> (r: Vec<u32>)
        ensures
            r@.len() == requested,
            final(self).threshold() == old(self).threshold(),
            exists|available: usize|
                old(self).seen_ready() <= available && handed(
                    *old(self),
                    *final(self),
                    #[trigger] read_step(
                        old(self).started(),
                        available,
                        old(self).threshold(),
                        requested,
                    ),
                    r@,
                    available as nat,
                ),
    {
        let available: usize = readable(&mut self.consumer);
        let step: ReadStep = plan_read(
            self.pre_buffered,
            available,
            self.pre_buffer_samples,
            requested,
        );
        if step != ReadStep::PreBuffer {
            self.pre_buffered = true;
        }
        let ghost before = taken_out(self.consumer);
        let fresh: Vec<u32> = match step {
            ReadStep::PreBuffer => Vec::new(),
            ReadStep::Underrun => {
                self.underruns = self.underruns.wrapping_add(1);
                Vec::new()
            },
            ReadStep::Read(n) => match pop_raw(&mut self.consumer, n) {
                Some(v) => v,
                None => Vec::new(),
            },
        };
        let ghost taken = fresh@;
        let r: Vec<u32> = pad_with_silence(fresh, requested);
        proof {
            assert(taken_out(self.consumer) =~= before + taken);
            assert(r@ == padded(taken, requested as nat));
            assert(taken.len() == step_takes(step));
            assert(self.handed_out() == old(self).handed_out() + taken);
            assert(r@ == padded(taken, r@.len()));
            assert(handed(*old(self), *self, step, r@, available as nat));
            let witness = read_step(
                old(self).started(),
                available,
                old(self).threshold(),
                requested,
            );
            assert(step == witness);
            assert(old(self).seen_ready() <= available && handed(
                *old(self),
                *self,
                witness,
                r@,
                available as nat,
            ));
        }
        r
    }
}

/// What a step hands out: as many samples as it takes out, and silence behind them. Once enough
/// samples have come it is never waited for them again.
pub open spec fn handed(
    before: StreamingAudioSource,
    after: StreamingAudioSource,
    step: ReadStep,
    r: Seq<u32>,
    available: nat,
) -> bool {
    &&& after.started() == (before.started() || step != ReadStep::PreBuffer)
    &&& after.seen_ready() == available - step_takes(step)
    &&& exists|fresh: Seq<u32>|
        fresh.len() == step_takes(step) && after.handed_out() == before.handed_out() + fresh && r
            == #[trigger] padded(fresh, r.len())
}

/// The way of a channel's calls to Discord: what the calls say is watched for speech, and
/// goes into the ring buffer.
pub struct DirectAudioSender {
    producer: rtrb::Producer<u32>,
    vad: VadState,
    consecutive_overflows: u64,
}

impl DirectAudioSender {
    /// What went into the ring buffer.
    pub closed spec fn sent(&self) -> Seq<u32> {
        written(self.producer)
    }

    /// How many samples the ring buffer holds at most.
    pub closed spec fn capacity(&self) -> nat {
        capacity_of(self.producer)
    }

    /// Whether somebody speaks.
    pub closed spec fn voice(&self) -> VadState {
        self.vad
    }

    /// Frames that were dropped since one was sent.
    pub closed spec fn overflows(&self) -> u64 {
        self.consecutive_overflows
    }

    /// A way through the given end.
    pub fn new(producer: rtrb::Producer<u32>) -> (r: Self)
        ensures
            r.sent() == written(producer),
            r.capacity() == capacity_of(producer),
            r.voice() == (VadState { silence_frames: 0, speaking: false }),
            r.overflows() == 0,
    {
        DirectAudioSender { producer, vad: VadState::new(), consecutive_overflows: 0 }
    }

    /// Watches a frame for speech.
    pub fn observe(&mut self, samples: &[i16], cfg: &AudioConfig)
        ensures
            final(self).voice() == vad_after(old(self).voice(), peak(samples@), *cfg),
            final(self).sent() == old(self).sent(),
            final(self).capacity() == old(self).capacity(),
            final(self).overflows() == old(self).overflows(),
    {
        self.vad.update(samples, cfg);
    }

    /// Sends a frame of raw samples. All of it is sent, or it is dropped and counted.
    pub fn send(&mut self, samples: &[u32]) -> (ok: bool)
        requires
            old(self).overflows() < u64::MAX,
        ensures
            final(self).sent() == (if ok {
                old(self).sent() + samples@
            } else {
                old(self).sent()
            }),
            final(self).overflows() == (if ok {
                0
            } else {
                (old(self).overflows() + 1) as u64
            }),
            final(self).voice() == old(self).voice(),
            final(self).capacity() == old(self).capacity(),
            ok ==> samples@.len() <= old(self).capacity(),
            old(self).sent().len() + samples@.len() <= old(self).capacity() ==> ok,
    {
        if push_raw(&mut self.producer, samples) {
            self.consecutive_overflows = 0;
            true
        } else {
            self.consecutive_overflows = self.consecutive_overflows + 1;
            false
        }
    }

    /// Sends a frame that could not be resampled as usual. One that is dropped is not counted.
    pub fn send_uncounted(&mut self, samples: &[u32]) -> (ok: bool)
        ensures
            final(self).sent() == (if ok {
                old(self).sent() + samples@
            } else {
                old(self).sent()
            }),
            final(self).overflows() == (if ok {
                0
            } else {
                old(self).overflows()
            }),
            final(self).voice() == old(self).voice(),
            final(self).capacity() == old(self).capacity(),
            ok ==> samples@.len() <= old(self).capacity(),
            old(self).sent().len() + samples@.len() <= old(self).capacity() ==> ok,
    {
        let ok: bool = push_raw(&mut self.producer, samples);
        if ok {
            self.consecutive_overflows = 0;
        }
        ok
    }

    /// How full the ring buffer is, in percent, where it has room for `total` samples.
    pub fn queue_fill_percent(&self, total: usize) -> (r: u8)
        requires
            0 < total,
            total * 100 <= usize::MAX,
        ensures
            r <= 100,
            exists|free: usize|
                free <= self.capacity() <= free + self.sent().len() && r == #[trigger] percent_full(
                    total,
                    free,
                ),
    {
        fill_percent(total, room(&self.producer))
    }

    /// Frames that were dropped since one was sent.
    pub fn consecutive_overflows(&self) -> (r: u64)
        ensures
            r == self.overflows(),
    {
        self.consecutive_overflows
    }

    /// Whether somebody speaks.
    pub fn is_speaking(&self) -> (r: bool)
        ensures
            r == self.voice().speaking,
    {
        self.vad.speaking
    }
}

/// A reader waits once, until enough samples have come, and never again; from then on it takes what
/// it is asked for, or all that is there where that is less, and nothing else.
pub proof fn law_a_reader_takes_what_is_there(
    pre_buffered: bool,
    available: usize,
    pre_buffer_samples: usize,
    requested: usize,
)
    ensures
        ({
            let s = read_step(pre_buffered, available, pre_buffer_samples, requested);
            &&& s == ReadStep::PreBuffer <==> !pre_buffered && available < pre_buffer_samples
            &&& s != ReadStep::PreBuffer ==> step_takes(s) <= available && step_takes(s)
                <= requested && (step_takes(s) == available || step_takes(s) == requested)
            &&& s == ReadStep::PreBuffer ==> step_takes(s) == 0
            &&& s is Read <==> step_takes(s) > 0
        }),
{
}

/// Padding keeps the samples in front, and puts nothing but silence behind them.
pub proof fn law_padding_is_silence(s: Seq<u32>, len: nat, i: int)
    requires
        s.len() <= len,
        0 <= i < len,
    ensures
        padded(s, len).len() == len,
        padded(s, len)[i] == (if i < s.len() {
            s[i]
        } else {
            0
        }),
{
}

/// Frames that are joined keep every sample at its place: sample `j` of frame `k` stands behind the
/// frames before it.
pub proof fn law_joined_frames_keep_their_places(frames: Seq<Vec<i16>>, size: nat, k: int, j: int)
    requires
        forall|i: int| 0 <= i < frames.len() ==> (#[trigger] frames[i])@.len() == size,
        0 <= k < frames.len(),
        0 <= j < size,
    ensures
        frames_joined(frames).len() == frames.len() * size,
        0 <= k * size + j < frames_joined(frames).len(),
        frames_joined(frames)[k * size + j] == frames[k]@[j],
    decreases frames.len(),
{
    let fewer = frames.drop_last();
    let n = fewer.len() as int;
    let z = size as int;
    assert forall|i: int| 0 <= i < fewer.len() implies (#[trigger] fewer[i])@.len() == size by {
        assert(frames[i] == fewer[i]);
    }
    lemma_joined_length(fewer, size);
    assert(frames[n] == frames.last());
    assert(n * z + z == (n + 1) * z) by (nonlinear_arith);
    if k < n {
        law_joined_frames_keep_their_places(fewer, size, k, j);
        assert(fewer[k] == frames[k]);
    } else {
        assert(0 <= n * z) by (nonlinear_arith)
            requires
                n >= 0,
                z >= 0,
        ;
    }
}

proof fn lemma_joined_length(frames: Seq<Vec<i16>>, size: nat)
    requires
        forall|i: int| 0 <= i < frames.len() ==> (#[trigger] frames[i])@.len() == size,
    ensures
        frames_joined(frames).len() == frames.len() * size,
    decreases frames.len(),
{
    if frames.len() > 0 {
        let fewer = frames.drop_last();
        assert forall|i: int| 0 <= i < fewer.len() implies (#[trigger] fewer[i])@.len() == size by {
            assert(frames[i] == fewer[i]);
        }
        lemma_joined_length(fewer, size);
        assert(frames[frames.len() - 1] == frames.last());
        let n = fewer.len() as int;
        let z = size as int;
        assert(n * z + z == (n + 1) * z) by (nonlinear_arith);
    } else {
        assert(0 * size == 0);
    }
}

/// What a reader is handed is taken from the ring, sample for sample, with silence behind it, and a
/// reader that has started goes on.
pub proof fn law_a_reader_is_handed_what_was_taken(
    before: StreamingAudioSource,
    after: StreamingAudioSource,
    step: ReadStep,
    r: Seq<u32>,
    available: nat,
)
    requires
        handed(before, after, step, r, available),
        step_takes(step) <= r.len(),
        step_takes(step) <= available,
    ensures
        after.handed_out() == before.handed_out() + r.take(step_takes(step) as int),
        forall|i: int| step_takes(step) <= i < r.len() ==> #[trigger] r[i] == 0,
        after.seen_ready() + step_takes(step) == available,
        before.started() ==> after.started(),
        !before.started() && after.started() <==> !before.started() && step != ReadStep::PreBuffer,
{
    let n = step_takes(step) as int;
    let fresh = choose|fresh: Seq<u32>|
        fresh.len() == step_takes(step) && after.handed_out() == before.handed_out() + fresh && r
            == #[trigger] padded(fresh, r.len());
    assert(r.take(n) =~= fresh);
}

} // verus!
