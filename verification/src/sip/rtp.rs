//! Calls whose audio has stopped.

use crate::config::BridgeConfig;
use crate::sip::types::CallId;
use std::collections::HashMap;
use vstd::prelude::*;
use vstd::std_specs::iter::IteratorSpec;

verus! {

broadcast use vstd::std_specs::hash::group_hash_axioms;

/// What is known of the audio of a call: the packets received, and when they last grew.
pub struct RtpTracker {
    activity: HashMap<i32, (u64, u64)>,
}

/// What the check makes of a call.
#[derive(Debug, Clone, Copy, PartialEq, Eq, Structural)]
pub enum RtpVerdict {
    /// Packets have come since the last look.
    Active,
    /// None have come, but not for too long.
    Waiting,
    /// None have come for too long; so many came before.
    TimedOut(u64),
}

/// What the check makes of a call: a call whose packets cannot be counted is dead, and one
/// that never had any is given less time.
pub open spec fn rtp_verdict(
    seen: (u64, u64),
    current: Option<u64>,
    cfg: BridgeConfig,
    now: u64,
) -> RtpVerdict {
    match current {
        None => RtpVerdict::TimedOut(0),
        Some(rx) => {
            let timeout = if rx == 0 {
                cfg.no_audio_timeout_secs
            } else {
                cfg.rtp_inactivity_timeout_secs
            };
            if rx > seen.0 {
                RtpVerdict::Active
            } else if crate::call::health::seconds_since(now, seen.1) > timeout {
                RtpVerdict::TimedOut(rx)
            } else {
                RtpVerdict::Waiting
            }
        },
    }
}

fn judge_rtp(seen: (u64, u64), current: Option<u64>, cfg: &BridgeConfig, now: u64) -> (r:
    RtpVerdict)
    ensures
        r == rtp_verdict(seen, current, *cfg, now),
{
    match current {
        None => RtpVerdict::TimedOut(0),
        Some(rx) => {
            if rx > seen.0 {
                return RtpVerdict::Active;
            }
            let timeout: u64 = if rx == 0 {
                cfg.no_audio_timeout_secs
            } else {
                cfg.rtp_inactivity_timeout_secs
            };
            if crate::call::health::elapsed_secs(now, seen.1) > timeout {
                RtpVerdict::TimedOut(rx)
            } else {
                RtpVerdict::Waiting
            }
        },
    }
}

/// The packets of a call, by what was counted; a call that was not counted has none.
pub open spec fn counted_packets(counts: Seq<(i32, Option<u64>)>, call: i32) -> Option<u64>
    decreases counts.len(),
{
    if counts.len() == 0 {
        None
    } else if counts.last().0 == call {
        counts.last().1
    } else {
        counted_packets(counts.drop_last(), call)
    }
}

fn find_count(counts: &Vec<(i32, Option<u64>)>, call: i32) -> (r: Option<u64>)
    ensures
        r == counted_packets(counts@, call),
{
    let mut i: usize = counts.len();
    proof {
        assert(counts@.take(counts@.len() as int) =~= counts@);
    }
    while i > 0
        invariant
            i <= counts@.len(),
            counted_packets(counts@, call) == counted_packets(counts@.take(i as int), call),
        decreases i,
    {
        proof {
            assert(counts@.take(i as int).drop_last() =~= counts@.take(i - 1));
        }
        i = i - 1;
        if counts[i].0 == call {
            return counts[i].1;
        }
    }
    None
}

/// What a look at the watched calls changes, and which calls it finds to have had no packet for
/// too long: those are named, each once and with its packets, and are no longer watched.
pub open spec fn rtp_checked(
    before: Map<i32, (u64, u64)>,
    after: Map<i32, (u64, u64)>,
    timed_out: Seq<(i32, u64)>,
    counts: Seq<(i32, Option<u64>)>,
    cfg: BridgeConfig,
    now: u64,
) -> bool {
    &&& forall|c: i32| #[trigger]
        after.contains_key(c) <==> before.contains_key(c) && !(rtp_verdict(
            before[c],
            counted_packets(counts, c),
            cfg,
            now,
        ) is TimedOut)
    &&& forall|c: i32| #[trigger]
        after.contains_key(c) ==> after[c] == (if rtp_verdict(
            before[c],
            counted_packets(counts, c),
            cfg,
            now,
        ) is Active {
            (counted_packets(counts, c)->0, now)
        } else {
            before[c]
        })
    &&& forall|c: i32, rx: u64| #[trigger]
        timed_out.contains((c, rx)) <==> before.contains_key(c) && rtp_verdict(
            before[c],
            counted_packets(counts, c),
            cfg,
            now,
        ) == RtpVerdict::TimedOut(rx)
    &&& timed_out.no_duplicates()
}

impl RtpTracker {
    /// What is known, by call.
    pub closed spec fn view(&self) -> Map<i32, (u64, u64)> {
        self.activity@
    }

    /// Nothing is known.
    pub fn new() -> (r: Self)
        ensures
            r@ == Map::<i32, (u64, u64)>::empty(),
    {
        RtpTracker { activity: HashMap::new() }
    }

    /// Begins to watch a call.
    pub fn init_call_rtp_tracking(&mut self, call: CallId, now: u64)
        ensures
            final(self)@ == old(self)@.insert(call.num(), (0u64, now)),
    {
        self.activity.insert(call.get(), (0, now));
    }

    /// Ends to watch a call.
    pub fn remove_call_rtp_tracking(&mut self, call: CallId)
        ensures
            final(self)@ == old(self)@.remove(call.num()),
    {
        self.activity.remove(&call.get());
    }

    /// Whether a call is watched.
    pub fn tracks(&self, call: CallId) -> (r: bool)
        ensures
            r == self@.contains_key(call.num()),
    {
        self.activity.contains_key(&call.get())
    }

    /// The calls that are watched, each once.
    pub fn tracked_calls(&self) -> (r: Vec<i32>)
        ensures
            r@.no_duplicates(),
            forall|c: i32| #[trigger] r@.contains(c) <==> self@.contains_key(c),
    {
        let mut r: Vec<i32> = Vec::new();
        let ghost all = self.activity.keys().remaining().unref();
        for k in it: self.activity.keys()
            invariant
                it.seq().unref() == all,
                it.seq().len() == all.len(),
                r@ =~= all.take(it.index() as int),
                all.no_duplicates(),
                all.to_set() == self.activity@.dom(),
        {
            r.push(*k);
        }
        proof {
            assert(all.take(all.len() as int) =~= all);
            assert forall|c: i32| #[trigger] r@.contains(c) <==> self@.contains_key(c) by {
                assert(r@.to_set().contains(c) == r@.contains(c));
            }
        }
        r
    }

    /// Looks at every call that is watched, given the packets of each: a call with new packets
    /// is noted, one without any for too long is returned and no longer watched.
    pub fn check_rtp_inactivity(
        &mut self,
        counts: &Vec<(i32, Option<u64>)>,
        cfg: &BridgeConfig,
        now: u64,
    ) -> (timed_out: Vec<(i32, u64)>)
        ensures
            rtp_checked(old(self)@, final(self)@, timed_out@, counts@, *cfg, now),
    {
        let calls: Vec<i32> = self.tracked_calls();
        let ghost before = self@;
        let mut timed_out: Vec<(i32, u64)> = Vec::new();
        let mut i: usize = 0;
        proof {
            assert forall|k: int| 0 <= k < calls@.len() implies self@.contains_key(
                #[trigger] calls@[k],
            ) by {
                assert(calls@.contains(calls@[k]));
            }
        }
        while i < calls.len()
            invariant
                i <= calls@.len(),
                before == old(self)@,
                calls@.no_duplicates(),
                forall|c: i32| #[trigger] calls@.contains(c) <==> before.contains_key(c),
                forall|k: int|
                    i <= k < calls@.len() ==> self@.contains_key(#[trigger] calls@[k])
                        && self@[calls@[k]] == before[calls@[k]],
                forall|c: i32| #[trigger]
                    self@.contains_key(c) <==> before.contains_key(c) && !(calls@.take(
                        i as int,
                    ).contains(c) && rtp_verdict(
                        before[c],
                        counted_packets(counts@, c),
                        *cfg,
                        now,
                    ) is TimedOut),
                forall|c: i32| #[trigger]
                    self@.contains_key(c) ==> self@[c] == (if calls@.take(i as int).contains(c)
                        && rtp_verdict(
                        before[c],
                        counted_packets(counts@, c),
                        *cfg,
                        now,
                    ) is Active {
                        (counted_packets(counts@, c)->0, now)
                    } else {
                        before[c]
                    }),
                forall|c: i32, rx: u64| #[trigger]
                    timed_out@.contains((c, rx)) <==> calls@.take(i as int).contains(c)
                        && rtp_verdict(
                        before[c],
                        counted_packets(counts@, c),
                        *cfg,
                        now,
                    ) == RtpVerdict::TimedOut(rx),
                timed_out@.no_duplicates(),
            decreases calls@.len() - i,
        {
            let c: i32 = calls[i];
            let ghost seen = calls@.take(i as int);
            let ghost now_seen = calls@.take(i + 1);
            let ghost out_before = timed_out@;
            let ghost map_before = self@;
            proof {
                assert(calls@.contains(c));
                assert(!seen.contains(c)) by {
                    if seen.contains(c) {
                        let k = choose|k: int| 0 <= k < seen.len() && seen[k] == c;
                        assert(calls@[k] == calls@[i as int]);
                    }
                }
                assert forall|x: i32| #[trigger] now_seen.contains(x) <==> x == c || seen.contains(
                    x,
                ) by {
                    if seen.contains(x) {
                        let k = choose|k: int| 0 <= k < seen.len() && seen[k] == x;
                        assert(now_seen[k] == x);
                    }
                    if x == c {
                        assert(now_seen[i as int] == x);
                    }
                }
                assert(self@.contains_key(calls@[i as int]));
            }
            let current: Option<u64> = find_count(counts, c);
            let entry: (u64, u64) = match self.activity.get(&c) {
                Some(e) => *e,
                None => (0, now),
            };
            match judge_rtp(entry, current, cfg, now) {
                RtpVerdict::Active => {
                    if let Some(rx) = current {
                        self.activity.insert(c, (rx, now));
                    }
                },
                RtpVerdict::Waiting => {},
                RtpVerdict::TimedOut(rx) => {
                    self.activity.remove(&c);
                    timed_out.push((c, rx));
                    proof {
                        let out = timed_out@;
                        assert(!out_before.contains((c, rx)));
                        assert forall|x: i32, r: u64| #[trigger] out.contains((x, r)) <==> (x, r)
                            == (c, rx) || out_before.contains((x, r)) by {
                            if out_before.contains((x, r)) {
                                let k = choose|k: int|
                                    0 <= k < out_before.len() && out_before[k] == (x, r);
                                assert(out[k] == (x, r));
                            }
                            if (x, r) == (c, rx) {
                                assert(out[out_before.len() as int] == (x, r));
                            }
                        }
                        assert(out.no_duplicates()) by {
                            assert forall|a: int, b: int|
                                0 <= a < out.len() && 0 <= b < out.len() && a != b implies out[a]
                                != out[b] by {
                                if a == out_before.len() {
                                    assert(out_before.contains(out_before[b]));
                                } else if b == out_before.len() {
                                    assert(out_before.contains(out_before[a]));
                                }
                            }
                        }
                    }
                },
            }
            i = i + 1;
        }
        proof {
            assert(calls@.take(calls@.len() as int) =~= calls@);
        }
        timed_out
    }
}

/// The last count of a call in a list is so many packets.
pub open spec fn last_count_is(counts: Seq<(i32, Option<u64>)>, call: i32, rx: Option<u64>) -> bool {
    exists|k: int|
        0 <= k < counts.len() && #[trigger] counts[k] == (call, rx) && forall|j: int|
            k < j < counts.len() ==> (#[trigger] counts[j]).0 != call
}

proof fn lemma_counted(counts: Seq<(i32, Option<u64>)>, call: i32, rx: Option<u64>)
    requires
        last_count_is(counts, call, rx),
    ensures
        counted_packets(counts, call) == rx,
    decreases counts.len(),
{
    let k = choose|k: int|
        0 <= k < counts.len() && #[trigger] counts[k] == (call, rx) && forall|j: int|
            k < j < counts.len() ==> (#[trigger] counts[j]).0 != call;
    let last = counts.len() - 1;
    assert(counts[last] == counts.last());
    if k < last {
        let fewer = counts.drop_last();
        assert(fewer[k] == (call, rx));
        assert forall|j: int| k < j < fewer.len() implies (#[trigger] fewer[j]).0 != call by {
            assert(counts[j] == fewer[j]);
        }
        lemma_counted(fewer, call, rx);
    }
}

proof fn lemma_uncounted(counts: Seq<(i32, Option<u64>)>, call: i32)
    requires
        forall|k: int| 0 <= k < counts.len() ==> (#[trigger] counts[k]).0 != call,
    ensures
        counted_packets(counts, call) is None,
    decreases counts.len(),
{
    if counts.len() > 0 {
        let fewer = counts.drop_last();
        assert(counts[counts.len() - 1] == counts.last());
        assert forall|k: int| 0 <= k < fewer.len() implies (#[trigger] fewer[k]).0 != call by {
            assert(counts[k] == fewer[k]);
        }
        lemma_uncounted(fewer, call);
    }
}

/// A call is named as timed out, with whatever packets.
pub open spec fn is_named(timed_out: Seq<(i32, u64)>, call: i32) -> bool {
    exists|rx: u64| #[trigger] timed_out.contains((call, rx))
}

/// A call with more packets than at the last look is active: it is not named, it is still watched,
/// and its packets and the present time are noted.
pub proof fn law_a_call_with_new_packets_is_active(
    before: Map<i32, (u64, u64)>,
    after: Map<i32, (u64, u64)>,
    timed_out: Seq<(i32, u64)>,
    counts: Seq<(i32, Option<u64>)>,
    cfg: BridgeConfig,
    now: u64,
    call: i32,
    rx: u64,
)
    requires
        rtp_checked(before, after, timed_out, counts, cfg, now),
        before.contains_key(call),
        last_count_is(counts, call, Some(rx)),
        rx > before[call].0,
    ensures
        !is_named(timed_out, call),
        after.contains_key(call),
        after[call] == (rx, now),
{
    lemma_counted(counts, call, Some(rx));
    assert(after.contains_key(call));
    assert forall|r: u64| !#[trigger] timed_out.contains((call, r)) by {}
}

/// A call without new packets is named once, with its packets, when more whole seconds than it is
/// given have gone by since they last grew, and is no longer watched; until then it is watched as
/// before. One that never had a packet is given the time of silent calls.
pub proof fn law_a_silent_call_times_out(
    before: Map<i32, (u64, u64)>,
    after: Map<i32, (u64, u64)>,
    timed_out: Seq<(i32, u64)>,
    counts: Seq<(i32, Option<u64>)>,
    cfg: BridgeConfig,
    now: u64,
    call: i32,
    rx: u64,
)
    requires
        rtp_checked(before, after, timed_out, counts, cfg, now),
        before.contains_key(call),
        last_count_is(counts, call, Some(rx)),
        rx <= before[call].0,
    ensures
        ({
            let given: int = if rx == 0 {
                cfg.no_audio_timeout_secs as int
            } else {
                cfg.rtp_inactivity_timeout_secs as int
            };
            if now >= before[call].1 + 1000 * (given + 1) {
                &&& timed_out.contains((call, rx))
                &&& !after.contains_key(call)
                &&& forall|r: u64| #[trigger] timed_out.contains((call, r)) ==> r == rx
            } else {
                &&& !is_named(timed_out, call)
                &&& after.contains_key(call)
                &&& after[call] == before[call]
            }
        }),
        timed_out.no_duplicates(),
{
    lemma_counted(counts, call, Some(rx));
    assert(after.contains_key(call) <==> !(rtp_verdict(before[call], Some(rx), cfg, now) is TimedOut));
    assert forall|r: u64| #[trigger] timed_out.contains((call, r)) <==> rtp_verdict(
        before[call],
        Some(rx),
        cfg,
        now,
    ) == RtpVerdict::TimedOut(r) by {}
}

/// A call whose packets cannot be counted is dead: it is named without packets, and no longer
/// watched. A call that is not watched is never named, and none comes to be watched.
pub proof fn law_only_watched_calls_are_named(
    before: Map<i32, (u64, u64)>,
    after: Map<i32, (u64, u64)>,
    timed_out: Seq<(i32, u64)>,
    counts: Seq<(i32, Option<u64>)>,
    cfg: BridgeConfig,
    now: u64,
    call: i32,
)
    requires
        rtp_checked(before, after, timed_out, counts, cfg, now),
    ensures
        !before.contains_key(call) ==> !is_named(timed_out, call) && !after.contains_key(call),
        before.contains_key(call) ==> (is_named(timed_out, call) <==> !after.contains_key(call)),
        before.contains_key(call) && (last_count_is(counts, call, None) || forall|k: int|
            0 <= k < counts.len() ==> (#[trigger] counts[k]).0 != call) ==> timed_out.contains(
            (call, 0u64),
        ) && !after.contains_key(call),
{
    if before.contains_key(call) && last_count_is(counts, call, None) {
        lemma_counted(counts, call, None);
    }
    if forall|k: int| 0 <= k < counts.len() ==> (#[trigger] counts[k]).0 != call {
        lemma_uncounted(counts, call);
    }
    let v = rtp_verdict(before[call], counted_packets(counts, call), cfg, now);
    if let RtpVerdict::TimedOut(rx) = v {
        if before.contains_key(call) {
            assert(timed_out.contains((call, rx)));
        }
    }
}

/// A call whose packets grow from each check to the next never times out, however many checks
/// there are and however long it lasts.
pub proof fn law_steady_audio_never_times_out(
    states: Seq<Map<i32, (u64, u64)>>,
    named: Seq<Seq<(i32, u64)>>,
    counts: Seq<Seq<(i32, Option<u64>)>>,
    packets: Seq<u64>,
    times: Seq<u64>,
    cfg: BridgeConfig,
    call: i32,
)
    requires
        states.len() == times.len() + 1,
        named.len() == times.len(),
        counts.len() == times.len(),
        packets.len() == times.len(),
        forall|k: int|
            0 <= k < times.len() ==> #[trigger] rtp_checked(
                states[k],
                states[k + 1],
                named[k],
                counts[k],
                cfg,
                times[k],
            ),
        forall|k: int|
            0 <= k < times.len() ==> last_count_is(counts[k], call, Some(#[trigger] packets[k])),
        forall|j: int, k: int| 0 <= j < k < times.len() ==> #[trigger] packets[j] < #[trigger] packets[k],
        states[0].contains_key(call),
        times.len() > 0 ==> states[0][call].0 < packets[0],
    ensures
        states.last().contains_key(call),
        times.len() > 0 ==> states.last()[call] == (packets.last(), times.last()),
        forall|k: int| 0 <= k < named.len() ==> !is_named(#[trigger] named[k], call),
    decreases times.len(),
{
    if times.len() > 0 {
        let n = times.len() - 1;
        let (s, o, c, p, t) = (
            states.drop_last(),
            named.drop_last(),
            counts.drop_last(),
            packets.drop_last(),
            times.drop_last(),
        );
        assert forall|k: int| 0 <= k < t.len() implies #[trigger] rtp_checked(
            s[k],
            s[k + 1],
            o[k],
            c[k],
            cfg,
            t[k],
        ) by {
            assert(rtp_checked(states[k], states[k + 1], named[k], counts[k], cfg, times[k]));
        }
        assert forall|k: int| 0 <= k < t.len() implies last_count_is(
            c[k],
            call,
            Some(#[trigger] p[k]),
        ) by {
            assert(last_count_is(counts[k], call, Some(packets[k])));
        }
        law_steady_audio_never_times_out(s, o, c, p, t, cfg, call);
        assert(s.last() == states[n]);
        if n > 0 {
            assert(p.last() == packets[n - 1]);
            assert(packets[n - 1] < packets[n]);
        }
        assert(rtp_checked(states[n], states[n + 1], named[n], counts[n], cfg, times[n]));
        assert(last_count_is(counts[n], call, Some(packets[n])));
        law_a_call_with_new_packets_is_active(
            states[n],
            states[n + 1],
            named[n],
            counts[n],
            cfg,
            times[n],
            call,
            packets[n],
        );
        assert forall|k: int| 0 <= k < named.len() implies !is_named(#[trigger] named[k], call) by {
            if k < n {
                assert(!is_named(o[k], call));
            }
        }
    }
}

} // verus!
