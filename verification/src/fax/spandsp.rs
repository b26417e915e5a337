//! What happens round the fax modem: resampling, reception state and its outcome.
//!
//! The modem works at 8 kHz, the conference bridge at 16 kHz.

use crate::text::{join2, signed_decimal, signed_decimal_text};
use vstd::prelude::*;
use vstd::string::*;

verus! {

/// The state of a fax reception.
#[derive(Debug, PartialEq, Eq)]
pub enum FaxRxStatus {
    /// The reception goes on.
    InProgress,
    /// The reception succeeded.
    Complete,
    /// The reception failed.
    Error(String),
}

/// What the modem has reported of a reception.
#[derive(Debug)]
pub struct FaxCallbackState {
    /// Negotiation has begun.
    pub negotiation_started: bool,
    /// Pages received so far.
    pub pages_received: u32,
    /// The code that the reception ended with; -1 before that.
    pub completion_code: i32,
    /// The reception has ended.
    pub completed: bool,
}

/// What a completion code means to the modem.
#[derive(Debug)]
pub enum CodeMeaning {
    /// The code is known and stands for success.
    Success,
    /// The code is known and stands for the failure that the text describes.
    Failure(String),
    /// The code is not known.
    Unknown,
}

/// Figures of a reception.
#[derive(Debug, Clone, Copy, PartialEq, Eq, Structural)]
pub struct FaxStats {
    pub bit_rate: i32,
    pub pages_rx: i32,
    pub image_width: i32,
    pub image_length: i32,
    pub bad_rows: i32,
    pub ecm: bool,
}

/// The figures of the modem: it counts error correction as any number but zero.
pub fn get_fax_stats(
    bit_rate: i32,
    pages_rx: i32,
    image_width: i32,
    image_length: i32,
    bad_rows: i32,
    error_correcting_mode: i32,
) -> (r: FaxStats)
    ensures
        r == (FaxStats {
            bit_rate,
            pages_rx,
            image_width,
            image_length,
            bad_rows,
            ecm: error_correcting_mode != 0,
        }),
{
    FaxStats {
        bit_rate,
        pages_rx,
        image_width,
        image_length,
        bad_rows,
        ecm: error_correcting_mode != 0,
    }
}

impl FaxCallbackState {
    /// A reception of which nothing was reported.
    pub fn new() -> (s: Self)
        ensures
            s == (FaxCallbackState {
                negotiation_started: false,
                pages_received: 0,
                completion_code: (-1) as i32,
                completed: false,
            }),
    {
        FaxCallbackState {
            negotiation_started: false,
            pages_received: 0,
            completion_code: -1,
            completed: false,
        }
    }

    /// Negotiation begins (phase B).
    pub fn negotiation_begins(&mut self)
        ensures
            *final(self) == (FaxCallbackState { negotiation_started: true, ..*old(self) }),
    {
        self.negotiation_started = true;
    }

    /// A page was received (phase D).
    pub fn page_received(&mut self)
        requires
            old(self).pages_received < u32::MAX,
        ensures
            *final(self) == (FaxCallbackState {
                pages_received: (old(self).pages_received + 1) as u32,
                ..*old(self)
            }),
    {
        self.pages_received = self.pages_received + 1;
    }

    /// The reception ended with a code (phase E).
    pub fn reception_ends(&mut self, completion_code: i32)
        ensures
            *final(self) == (FaxCallbackState { completion_code, completed: true, ..*old(self) }),
    {
        self.completion_code = completion_code;
        self.completed = true;
    }
}

/// The status that a reception has, given what its completion code means.
pub open spec fn status_is(r: FaxRxStatus, state: FaxCallbackState, meaning: CodeMeaning) -> bool {
    if !state.completed {
        r is InProgress
    } else {
        match meaning {
            CodeMeaning::Success => r is Complete,
            CodeMeaning::Failure(text) => r is Error && r->Error_0@ == "Fax failed: "@ + text@,
            CodeMeaning::Unknown => r is Error && r->Error_0@
                == "Fax failed with unknown T.30 error code "@ + signed_decimal(
                state.completion_code as int,
            ),
        }
    }
}

/// Tells how far a reception is, given what its completion code means.
pub fn check_completion(state: &FaxCallbackState, meaning: &CodeMeaning) -> (r: FaxRxStatus)
    ensures
        status_is(r, *state, *meaning),
{
    if state.completed {
        match meaning {
            CodeMeaning::Success => FaxRxStatus::Complete,
            CodeMeaning::Failure(text) => FaxRxStatus::Error(join2("Fax failed: ", text.as_str())),
            CodeMeaning::Unknown => FaxRxStatus::Error(
                join2(
                    "Fax failed with unknown T.30 error code ",
                    signed_decimal_text(state.completion_code).as_str(),
                ),
            ),
        }
    } else {
        FaxRxStatus::InProgress
    }
}

/// How often an outgoing packet is sent: at least once, and as often as the modem asks.
///
/// `None` for a packet without bytes.
pub fn tx_repeat(len: i32, count: i32) -> (r: Option<usize>)
    ensures
        r == (if len <= 0 {
            None
        } else if count < 1 {
            Some(1usize)
        } else {
            Some(count as usize)
        }),
{
    if len <= 0 {
        None
    } else if count < 1 {
        Some(1)
    } else {
        Some(count as usize)
    }
}

/// Half of a number, rounded towards zero.
pub open spec fn half(x: int) -> int {
    if x >= 0 {
        x / 2
    } else {
        -((-x) / 2)
    }
}

/// Each pair of neighbours replaced by its average; an odd last sample is left out.
pub open spec fn averaged(s: Seq<i16>) -> Seq<i16> {
    Seq::new(s.len() / 2, |i: int| half(s[2 * i] + s[2 * i + 1]) as i16)
}

/// The odd last sample, if there is one.
pub open spec fn leftover(s: Seq<i16>) -> Seq<i16> {
    s.subrange(2 * (s.len() / 2) as int, s.len() as int)
}

/// Each sample twice.
pub open spec fn doubled(s: Seq<i16>) -> Seq<i16> {
    Seq::new(2 * s.len(), |i: int| s[i / 2])
}

/// Halves the rate by averaging pairs. What is left of an odd number waits in `buf`.
pub fn downsample_16k_to_8k(buf: &mut Vec<i16>, samples: &[i16]) -> (out: Vec<i16>)
    ensures
        out@ == averaged(old(buf)@ + samples@),
        final(buf)@ == leftover(old(buf)@ + samples@),
{
    let ghost all = buf@ + samples@;
    buf.extend_from_slice(samples);
    proof {
        assert(buf@ =~= all);
    }
    let pairs: usize = buf.len() / 2;
    let mut out: Vec<i16> = Vec::new();
    let mut i: usize = 0;
    while i < pairs
        invariant
            buf@ == all,
            pairs == all.len() / 2,
            i <= pairs,
            2 * pairs <= buf.len(),
            out@ =~= averaged(all).take(i as int),
        decreases pairs - i,
    {
        let a: i32 = buf[2 * i] as i32;
        let b: i32 = buf[2 * i + 1] as i32;
        let sum: i32 = a + b;
        let h: i32 = if sum >= 0 {
            sum / 2
        } else {
            -((-sum) / 2)
        };
        out.push(h as i16);
        i = i + 1;
    }
    let mut rest: Vec<i16> = Vec::new();
    if buf.len() % 2 == 1 {
        rest.push(buf[buf.len() - 1]);
    }
    *buf = rest;
    proof {
        assert(buf@ =~= leftover(all));
        assert(out@ =~= averaged(all));
    }
    out
}

/// Doubles the rate by repeating each sample. Returns how many samples were written.
pub fn upsample_8k_to_16k(samples_8k: &[i16], out: &mut [i16]) -> (n: usize)
    requires
        2 * samples_8k@.len() <= old(out)@.len(),
    ensures
        n == 2 * samples_8k@.len(),
        final(out)@ == doubled(samples_8k@) + old(out)@.subrange(n as int, old(out)@.len() as int),
{
    let len: usize = samples_8k.len();
    assert(2 * len <= out.len());
    let mut i: usize = 0;
    let ghost before = out@;
    while i < len
        invariant
            i <= len,
            len == samples_8k@.len(),
            2 * len <= out.len(),
            out@.len() == before.len(),
            forall|j: int| 0 <= j < 2 * i ==> #[trigger] out@[j] == samples_8k@[j / 2],
            forall|j: int| 2 * i <= j < before.len() ==> #[trigger] out@[j] == before[j],
        decreases len - i,
    {
        let s: i16 = samples_8k[i];
        out[2 * i] = s;
        out[2 * i + 1] = s;
        i = i + 1;
    }
    proof {
        assert(out@ =~= doubled(samples_8k@) + before.subrange(2 * len, before.len() as int));
    }
    2 * len
}

/// Halving the rate of a signal whose rate was doubled gives the signal back.
pub proof fn law_downsample_undoes_upsample(s: Seq<i16>)
    ensures
        averaged(doubled(s)) == s,
        leftover(doubled(s)).len() == 0,
{
    assert(averaged(doubled(s)) =~= s);
}

/// Feeding a signal in two pieces gives the samples, and the waiting sample, of feeding it whole.
pub proof fn law_downsampling_in_pieces(x: Seq<i16>, y: Seq<i16>)
    ensures
        averaged(x) + averaged(leftover(x) + y) == averaged(x + y),
        leftover(leftover(x) + y) == leftover(x + y),
{
    let l = leftover(x) + y;
    let n = 2 * (x.len() / 2) as int;
    assert forall|i: int| 0 <= i < l.len() implies l[i] == (x + y)[n + i] by {}
    assert(leftover(l) =~= leftover(x + y));
    assert(averaged(x) + averaged(l) =~= averaged(x + y));
}

/// The samples of several feedings, one behind the other.
pub open spec fn all_fed(chunks: Seq<Seq<i16>>) -> Seq<i16>
    decreases chunks.len(),
{
    if chunks.len() == 0 {
        Seq::empty()
    } else {
        all_fed(chunks.drop_last()) + chunks.last()
    }
}

/// What waits behind several feedings.
pub open spec fn waiting_after(chunks: Seq<Seq<i16>>) -> Seq<i16>
    decreases chunks.len(),
{
    if chunks.len() == 0 {
        Seq::empty()
    } else {
        leftover(waiting_after(chunks.drop_last()) + chunks.last())
    }
}

/// What several feedings hand to the modem, one behind the other.
pub open spec fn handed_to_modem(chunks: Seq<Seq<i16>>) -> Seq<i16>
    decreases chunks.len(),
{
    if chunks.len() == 0 {
        Seq::empty()
    } else {
        handed_to_modem(chunks.drop_last()) + averaged(
            waiting_after(chunks.drop_last()) + chunks.last(),
        )
    }
}

/// Samples that are fed in any number of pieces hand the modem what they would in one: half as
/// many samples, rounded down. An odd one waits.
pub proof fn law_any_number_of_feedings(chunks: Seq<Seq<i16>>)
    ensures
        handed_to_modem(chunks) == averaged(all_fed(chunks)),
        waiting_after(chunks) == leftover(all_fed(chunks)),
        handed_to_modem(chunks).len() == all_fed(chunks).len() / 2,
    decreases chunks.len(),
{
    if chunks.len() == 0 {
        assert(averaged(all_fed(chunks)) =~= Seq::empty());
        assert(leftover(all_fed(chunks)) =~= Seq::empty());
    } else {
        law_any_number_of_feedings(chunks.drop_last());
        law_downsampling_in_pieces(all_fed(chunks.drop_last()), chunks.last());
    }
}

/// A fax receiver: what stands round the modem while a fax comes in as sound.
#[derive(Debug)]
pub struct FaxReceiver {
    tiff_path: String,
    callback_state: FaxCallbackState,
    downsample_buf: Vec<i16>,
    samples_fed: usize,
}

impl FaxReceiver {
    /// Where the fax is written.
    pub closed spec fn path(&self) -> Seq<char> {
        self.tiff_path@
    }

    /// What the modem has reported.
    pub closed spec fn reported(&self) -> FaxCallbackState {
        self.callback_state
    }

    /// The sample that waits for its neighbour.
    pub closed spec fn waiting(&self) -> Seq<i16> {
        self.downsample_buf@
    }

    /// The number of 8 kHz samples that went to the modem.
    pub closed spec fn fed(&self) -> nat {
        self.samples_fed as nat
    }

    /// A receiver that writes the fax to the given path.
    pub fn new_audio_receiver(tiff_path: &str) -> (r: Self)
        ensures
            r.path() == tiff_path@,
            r.reported() == (FaxCallbackState {
                negotiation_started: false,
                pages_received: 0,
                completion_code: (-1) as i32,
                completed: false,
            }),
            r.waiting().len() == 0,
            r.fed() == 0,
            was_fed(r, Seq::empty()),
    {
        let r = FaxReceiver {
            tiff_path: String::from_str(tiff_path),
            callback_state: FaxCallbackState::new(),
            downsample_buf: Vec::new(),
            samples_fed: 0,
        };
        proof {
            assert(r.waiting() =~= waiting_after(Seq::empty()));
        }
        r
    }

    /// Takes 16 kHz samples in, and returns the 8 kHz samples that go to the modem.
    ///
    /// Where none are returned the modem is not called.
    pub fn feed_samples_16k(&mut self, samples: &[i16]) -> (out: Vec<i16>)
        requires
            old(self).fed() + old(self).waiting().len() + samples@.len() <= usize::MAX,
        ensures
            out@ == averaged(old(self).waiting() + samples@),
            final(self).waiting() == leftover(old(self).waiting() + samples@),
            final(self).fed() == old(self).fed() + out@.len(),
            forall|chunks: Seq<Seq<i16>>| #[trigger]
                was_fed(*old(self), chunks) ==> was_fed(*final(self), chunks.push(samples@)),
            final(self).path() == old(self).path(),
            final(self).reported() == old(self).reported(),
    {
        let out: Vec<i16> = downsample_16k_to_8k(&mut self.downsample_buf, samples);
        self.samples_fed = self.samples_fed + out.len();
        proof {
            assert forall|chunks: Seq<Seq<i16>>| #[trigger] was_fed(
                *old(self),
                chunks,
            ) implies was_fed(*self, chunks.push(samples@)) by {
                lemma_feeding(*old(self), *self, chunks, samples@);
            }
        }
        out
    }

    /// The modem reports that negotiation begins.
    pub fn negotiation_begins(&mut self)
        ensures
            final(self).reported() == (FaxCallbackState {
                negotiation_started: true,
                ..old(self).reported()
            }),
            final(self).path() == old(self).path(),
            final(self).waiting() == old(self).waiting(),
            final(self).fed() == old(self).fed(),
    {
        self.callback_state.negotiation_begins();
    }

    /// The modem reports a page.
    pub fn page_received(&mut self)
        requires
            old(self).reported().pages_received < u32::MAX,
        ensures
            final(self).reported() == (FaxCallbackState {
                pages_received: (old(self).reported().pages_received + 1) as u32,
                ..old(self).reported()
            }),
            final(self).path() == old(self).path(),
            final(self).waiting() == old(self).waiting(),
            final(self).fed() == old(self).fed(),
    {
        self.callback_state.page_received();
    }

    /// The modem reports the end of the reception.
    pub fn reception_ends(&mut self, completion_code: i32)
        ensures
            final(self).reported() == (FaxCallbackState {
                completion_code,
                completed: true,
                ..old(self).reported()
            }),
            final(self).path() == old(self).path(),
            final(self).waiting() == old(self).waiting(),
            final(self).fed() == old(self).fed(),
    {
        self.callback_state.reception_ends(completion_code);
    }

    /// The code that the modem ended with; -1 before that.
    pub fn completion_code(&self) -> (r: i32)
        ensures
            r == self.reported().completion_code,
    {
        self.callback_state.completion_code
    }

    /// Tells how far the reception is, given what its completion code means.
    pub fn current_status(&self, meaning: &CodeMeaning) -> (r: FaxRxStatus)
        ensures
            status_is(r, self.reported(), *meaning),
    {
        check_completion(&self.callback_state, meaning)
    }

    /// Pages received so far.
    pub fn pages_received(&self) -> (r: u32)
        ensures
            r == self.reported().pages_received,
    {
        self.callback_state.pages_received
    }

    /// Where the fax is written.
    pub fn tiff_output_path(&self) -> (r: &str)
        ensures
            r@ == self.path(),
    {
        self.tiff_path.as_str()
    }

    /// The number of 8 kHz samples that went to the modem.
    pub fn samples_fed(&self) -> (r: usize)
        ensures
            r == self.fed(),
    {
        self.samples_fed
    }

    /// Turns what the modem generated into 16 kHz samples for the conference bridge.
    ///
    /// The modem is asked for half as many samples as `out_buf` holds.
    pub fn generate_tx_16k(&self, generated: &[i16], out_buf: &mut [i16]) -> (n: usize)
        requires
            2 * generated@.len() <= old(out_buf)@.len(),
        ensures
            n == 2 * generated@.len(),
            final(out_buf)@ == doubled(generated@) + old(out_buf)@.subrange(
                n as int,
                old(out_buf)@.len() as int,
            ),
    {
        upsample_8k_to_16k(generated, out_buf)
    }

    /// The figures of the modem, if it gave any: rate, pages, width, length, bad rows and
    /// error correction.
    pub fn get_stats(&self, figures: Option<(i32, i32, i32, i32, i32, i32)>) -> (r: Option<
        FaxStats,
    >)
        ensures
            r == (match figures {
                None => None,
                Some((bit_rate, pages_rx, image_width, image_length, bad_rows, ecm)) => Some(
                    (FaxStats {
                        bit_rate,
                        pages_rx,
                        image_width,
                        image_length,
                        bad_rows,
                        ecm: ecm != 0,
                    }),
                ),
            }),
    {
        match figures {
            None => None,
            Some((rate, pages, width, length, bad, ecm)) => Some(
                get_fax_stats(rate, pages, width, length, bad, ecm),
            ),
        }
    }
}

/// The receiver was fed the chunks, one behind the other, since it was made.
pub open spec fn was_fed(r: FaxReceiver, chunks: Seq<Seq<i16>>) -> bool {
    r.waiting() == waiting_after(chunks) && r.fed() == handed_to_modem(chunks).len()
}

/// A call that feeds samples adds them to the chunks.
proof fn lemma_feeding(
    before: FaxReceiver,
    after: FaxReceiver,
    chunks: Seq<Seq<i16>>,
    samples: Seq<i16>,
)
    requires
        was_fed(before, chunks),
        after.waiting() == leftover(before.waiting() + samples),
        after.fed() == before.fed() + averaged(before.waiting() + samples).len(),
    ensures
        was_fed(after, chunks.push(samples)),
{
    assert(chunks.push(samples).drop_last() =~= chunks);
}

/// A receiver that was fed N samples, over any number of calls, has handed N / 2 samples to the
/// modem, rounded down.
pub proof fn law_half_of_the_samples_are_fed(r: FaxReceiver, chunks: Seq<Seq<i16>>)
    requires
        was_fed(r, chunks),
    ensures
        r.fed() == all_fed(chunks).len() / 2,
        r.waiting() == leftover(all_fed(chunks)),
{
    law_any_number_of_feedings(chunks);
}

/// The milliseconds between two ticks of the timer of a T.38 reception.
pub const T38_TICK_MS: u32 = 20;

/// The time of a tick as the modem counts it: in samples at 8 kHz.
pub const T38_TICK_SAMPLES: i32 = 160;

/// A fax receiver: what stands round the modem while a fax comes in as T.38 packets.
#[derive(Debug)]
pub struct FaxT38Receiver {
    tiff_path: String,
    callback_state: FaxCallbackState,
}

impl FaxT38Receiver {
    /// Where the fax is written.
    pub closed spec fn path(&self) -> Seq<char> {
        self.tiff_path@
    }

    /// What the modem has reported.
    pub closed spec fn reported(&self) -> FaxCallbackState {
        self.callback_state
    }

    /// A receiver that writes the fax to the given path.
    pub fn new(tiff_path: &str) -> (r: Self)
        ensures
            r.path() == tiff_path@,
            r.reported() == (FaxCallbackState {
                negotiation_started: false,
                pages_received: 0,
                completion_code: (-1) as i32,
                completed: false,
            }),
    {
        FaxT38Receiver {
            tiff_path: String::from_str(tiff_path),
            callback_state: FaxCallbackState::new(),
        }
    }

    /// Tells how far the reception is behind a packet. Where the modem could not be handed the
    /// packet at all, the reception has failed for that reason; a packet that the modem was
    /// handed and refused is lost, and no more.
    pub fn feed_ifp_packet(&self, unreachable: Option<&str>, meaning: &CodeMeaning) -> (r:
        FaxRxStatus)
        ensures
            match unreachable {
                Some(e) => r is Error && r->Error_0@ == "T38Core error: "@ + e@,
                None => status_is(r, self.reported(), *meaning),
            },
    {
        match unreachable {
            Some(e) => FaxRxStatus::Error(join2("T38Core error: ", e)),
            None => self.current_status(meaning),
        }
    }

    /// The modem reports that negotiation begins.
    pub fn negotiation_begins(&mut self)
        ensures
            final(self).reported() == (FaxCallbackState {
                negotiation_started: true,
                ..old(self).reported()
            }),
            final(self).path() == old(self).path(),
    {
        self.callback_state.negotiation_begins();
    }

    /// The modem reports a page.
    pub fn page_received(&mut self)
        requires
            old(self).reported().pages_received < u32::MAX,
        ensures
            final(self).reported() == (FaxCallbackState {
                pages_received: (old(self).reported().pages_received + 1) as u32,
                ..old(self).reported()
            }),
            final(self).path() == old(self).path(),
    {
        self.callback_state.page_received();
    }

    /// The modem reports the end of the reception.
    pub fn reception_ends(&mut self, completion_code: i32)
        ensures
            final(self).reported() == (FaxCallbackState {
                completion_code,
                completed: true,
                ..old(self).reported()
            }),
            final(self).path() == old(self).path(),
    {
        self.callback_state.reception_ends(completion_code);
    }

    /// The code that the modem ended with; -1 before that.
    pub fn completion_code(&self) -> (r: i32)
        ensures
            r == self.reported().completion_code,
    {
        self.callback_state.completion_code
    }

    /// Tells how far the reception is, given what its completion code means.
    pub fn current_status(&self, meaning: &CodeMeaning) -> (r: FaxRxStatus)
        ensures
            status_is(r, self.reported(), *meaning),
    {
        check_completion(&self.callback_state, meaning)
    }

    /// Pages received so far.
    pub fn pages_received(&self) -> (r: u32)
        ensures
            r == self.reported().pages_received,
    {
        self.callback_state.pages_received
    }

    /// Where the fax is written.
    pub fn tiff_output_path(&self) -> (r: &str)
        ensures
            r@ == self.path(),
    {
        self.tiff_path.as_str()
    }
}

/// The modem is told of as much time as passes between two ticks.
pub proof fn law_ticks_keep_time()
    ensures
        T38_TICK_SAMPLES == 8 * T38_TICK_MS,
{
}

/// A reception that goes on has not ended, and one that has ended goes on no more: the status
/// is "in progress" exactly until the modem reports the end, whatever its code means.
pub proof fn law_a_reception_ends_once(
    r: FaxRxStatus,
    state: FaxCallbackState,
    meaning: CodeMeaning,
)
    requires
        status_is(r, state, meaning),
    ensures
        r is InProgress <==> !state.completed,
{
}

/// Halving the rate makes one sample of each two: twice the sample is their sum, or the number next
/// to it on the side of silence. Only an odd last sample waits.
pub proof fn law_each_pair_is_averaged(s: Seq<i16>, i: int)
    requires
        0 <= i,
        2 * i + 1 < s.len(),
    ensures
        s.len() - 1 <= 2 * averaged(s).len() <= s.len(),
        ({
            let sum = s[2 * i] + s[2 * i + 1];
            let twice = 2 * averaged(s)[i];
            &&& sum >= 0 ==> sum - 1 <= twice <= sum && twice >= 0
            &&& sum <= 0 ==> sum <= twice <= sum + 1 && twice <= 0
        }),
        leftover(s).len() == s.len() - 2 * averaged(s).len(),
        leftover(s).len() == 1 ==> leftover(s)[0] == s.last(),
{
    let sum = s[2 * i] + s[2 * i + 1];
    assert(-65536 <= sum <= 65534);
}

/// Doubling the rate lets each sample be heard twice.
pub proof fn law_each_sample_is_heard_twice(s: Seq<i16>, i: int)
    requires
        0 <= i < s.len(),
    ensures
        doubled(s).len() == 2 * s.len(),
        doubled(s)[2 * i] == s[i],
        doubled(s)[2 * i + 1] == s[i],
{
}

/// A reception that has ended is complete where its code stands for success, and failed else, with
/// what the modem says of the code.
pub proof fn law_a_failure_says_why(
    r: FaxRxStatus,
    state: FaxCallbackState,
    meaning: CodeMeaning,
)
    requires
        status_is(r, state, meaning),
    ensures
        r is Complete <==> state.completed && meaning is Success,
        r is Error <==> state.completed && !(meaning is Success),
        r is Error ==> ({
            let detail = if meaning is Failure {
                meaning->Failure_0@
            } else {
                signed_decimal(state.completion_code as int)
            };
            let said = r->Error_0@;
            said.len() >= detail.len() && said.subrange(
                said.len() - detail.len(),
                said.len() as int,
            ) == detail
        }),
{
    if r is Error {
        let front = if meaning is Failure {
            "Fax failed: "@
        } else {
            "Fax failed with unknown T.30 error code "@
        };
        let detail = if meaning is Failure {
            meaning->Failure_0@
        } else {
            signed_decimal(state.completion_code as int)
        };
        let said = r->Error_0@;
        assert(said == front + detail);
        assert(said.subrange(said.len() - detail.len(), said.len() as int) =~= detail);
    }
}

} // verus!
