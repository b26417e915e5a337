//! The health check: which bridges are reconnected, and which are torn down.

use crate::call::coordinator::BridgeCoordinator;
use crate::call::state::{call_numbers, BridgeFacts, CallFacts, CallSet, ChannelBridge};
use crate::config::BridgeConfig;
use crate::services::snowflake::Snowflake;
use crate::sip::types::CallId;
use vstd::arithmetic::power2::pow2;
use vstd::prelude::*;

verus! {

/// What a voice connection says of itself.
#[derive(Debug, Clone, Copy, PartialEq, Eq, Structural)]
pub struct ConnectionHealth {
    pub healthy: bool,
    /// How full the queue of audio is, in percent.
    pub queue_fill: u8,
    /// Overflows of the queue without a success between them.
    pub overflows: u64,
}

/// What the health check finds of a bridge.
#[derive(Debug, Clone, Copy, PartialEq, Eq, Structural)]
pub enum Verdict {
    /// It is well.
    Well,
    /// It is not, but it was made or reconnected a short while ago.
    TooYoung,
    /// It is not, and it was reconnected as often as is allowed: it is torn down.
    Exhausted,
    /// It is not, but the time to try again has not come.
    BackingOff,
    /// It is to be reconnected.
    Reconnect,
}

/// The whole seconds from one time to another, in milliseconds; none where it lies ahead.
pub open spec fn seconds_since(now: u64, then: u64) -> int {
    if now < then {
        0
    } else {
        (now - then) / 1000
    }
}

/// The whole seconds from one time to another.
pub fn elapsed_secs(now: u64, then: u64) -> (r: u64)
    ensures
        r == seconds_since(now, then),
{
    if now < then {
        0
    } else {
        (now - then) / 1000
    }
}

/// The connection has to be made anew: it is broken, or nobody reads its full queue.
pub open spec fn is_broken(h: ConnectionHealth) -> bool {
    !h.healthy || (h.queue_fill > 90 && h.overflows > 50)
}

/// Whether a connection has to be made anew.
pub fn needs_reconnect(h: ConnectionHealth) -> (r: bool)
    ensures
        r == is_broken(h),
{
    !h.healthy || (h.queue_fill > 90 && h.overflows > 50)
}

/// The doublings of the delay behind a number of attempts: none behind the first.
pub open spec fn doublings(attempts: u32) -> nat {
    if attempts == 0 {
        0
    } else {
        (attempts - 1) as nat
    }
}

/// The delay before the next attempt: it doubles with each, up to the longest delay.
pub open spec fn backoff(cfg: BridgeConfig, attempts: u32) -> int {
    let delay = cfg.reconnect_base_delay_secs * pow2(doublings(attempts));
    if delay < cfg.reconnect_max_delay_secs {
        delay
    } else {
        cfg.reconnect_max_delay_secs as int
    }
}

/// The delay before the next attempt, in seconds.
pub fn backoff_secs(cfg: &BridgeConfig, attempts: u32) -> (r: u64)
    ensures
        r == backoff(*cfg, attempts),
{
    let base: u64 = cfg.reconnect_base_delay_secs;
    let max: u64 = cfg.reconnect_max_delay_secs;
    let n: u32 = if attempts == 0 {
        0
    } else {
        attempts - 1
    };
    let mut delay: u64 = base;
    let mut i: u32 = 0;
    proof {
        vstd::arithmetic::power2::lemma2_to64();
    }
    while i < n
        invariant
            i <= n,
            n == doublings(attempts),
            base == cfg.reconnect_base_delay_secs,
            max == cfg.reconnect_max_delay_secs,
            delay == base * pow2(i as nat),
        decreases n - i,
    {
        proof {
            vstd::arithmetic::power2::lemma_pow2_unfold((i + 1) as nat);
            let p = pow2(i as nat) as int;
            assert(base * (2 * p) == 2 * (base * p)) by (nonlinear_arith);
        }
        if delay >= max {
            proof {
                lemma_delay_grows(base as nat, i as nat, n as nat);
            }
            return max;
        }
        if delay > u64::MAX / 2 {
            proof {
                lemma_delay_grows(base as nat, (i + 1) as nat, n as nat);
            }
            return max;
        }
        delay = delay * 2;
        i = i + 1;
    }
    if delay < max {
        delay
    } else {
        max
    }
}

proof fn lemma_delay_grows(base: nat, a: nat, b: nat)
    requires
        a <= b,
    ensures
        base * pow2(a) <= base * pow2(b),
    decreases b,
{
    if a < b {
        lemma_delay_grows(base, a, (b - 1) as nat);
        vstd::arithmetic::power2::lemma_pow2_unfold(b);
        let p = pow2((b - 1) as nat) as int;
        assert(base * p <= base * (2 * p)) by (nonlinear_arith)
            requires
                base >= 0,
                p >= 0,
        ;
    }
}

/// The delay never shrinks from one attempt to the next, starts at the base delay and never
/// passes the longest delay.
pub proof fn law_backoff_grows_up_to_the_longest_delay(cfg: BridgeConfig, attempts: u32)
    requires
        attempts < u32::MAX,
    ensures
        backoff(cfg, attempts) <= backoff(cfg, (attempts + 1) as u32)
            <= cfg.reconnect_max_delay_secs,
        cfg.reconnect_base_delay_secs <= cfg.reconnect_max_delay_secs ==> backoff(cfg, 1)
            == cfg.reconnect_base_delay_secs,
{
    vstd::arithmetic::power2::lemma2_to64();
    lemma_delay_grows(
        cfg.reconnect_base_delay_secs as nat,
        doublings(attempts),
        doublings((attempts + 1) as u32),
    );
    assert(doublings(1) == 0);
    assert(cfg.reconnect_base_delay_secs * pow2(0) == cfg.reconnect_base_delay_secs);
}

/// What the health check finds of a bridge.
pub open spec fn verdict(b: BridgeFacts, h: ConnectionHealth, cfg: BridgeConfig, now: u64) -> Verdict {
    if !is_broken(h) {
        Verdict::Well
    } else if seconds_since(now, b.created) < cfg.reconnect_min_age_secs {
        Verdict::TooYoung
    } else if b.attempts >= cfg.reconnect_max_attempts {
        Verdict::Exhausted
    } else if b.last_reconnect is Some && seconds_since(now, b.last_reconnect->0) < backoff(
        cfg,
        b.attempts,
    ) {
        Verdict::BackingOff
    } else {
        Verdict::Reconnect
    }
}

/// What the health check finds of a bridge.
pub fn judge(bridge: &ChannelBridge, h: ConnectionHealth, cfg: &BridgeConfig, now: u64) -> (r:
    Verdict)
    ensures
        r == verdict(bridge@, h, *cfg, now),
{
    if !needs_reconnect(h) {
        return Verdict::Well;
    }
    if elapsed_secs(now, bridge.created_at) < cfg.reconnect_min_age_secs {
        return Verdict::TooYoung;
    }
    if bridge.reconnect_attempts >= cfg.reconnect_max_attempts {
        return Verdict::Exhausted;
    }
    if let Some(last) = bridge.last_reconnect_at {
        if elapsed_secs(now, last) < backoff_secs(cfg, bridge.reconnect_attempts) {
            return Verdict::BackingOff;
        }
    }
    Verdict::Reconnect
}

/// A bridge is never reconnected more often than is allowed.
pub proof fn law_reconnections_are_bounded(
    b: BridgeFacts,
    h: ConnectionHealth,
    cfg: BridgeConfig,
    now: u64,
)
    requires
        verdict(b, h, cfg, now) == Verdict::Reconnect,
    ensures
        b.attempts < cfg.reconnect_max_attempts,
        is_broken(h),
{
}

/// Some call of the bridge is known.
pub open spec fn has_known_call(b: BridgeFacts, calls: Map<i32, CallFacts>) -> bool {
    exists|c: i32| #[trigger] b.calls.contains(c) && calls.contains_key(c)
}

/// The bridge is left over: it has had no call for longer than the grace period, or none of
/// its calls is known and it is neither young nor newly joined.
pub open spec fn is_orphaned(
    b: BridgeFacts,
    calls: Map<i32, CallFacts>,
    grace_secs: u64,
    now: u64,
) -> bool {
    if b.calls == Set::<i32>::empty() {
        seconds_since(now, b.last_call) > grace_secs
    } else {
        !has_known_call(b, calls) && seconds_since(now, b.last_call) > 30 && seconds_since(
            now,
            b.created,
        ) > 60
    }
}

/// The bridge after it was reconnected: the calls that are still known stay on it.
pub open spec fn reconnected(
    b: BridgeFacts,
    calls: Map<i32, CallFacts>,
    now: u64,
) -> BridgeFacts {
    BridgeFacts {
        calls: b.calls.filter(|c: i32| calls.contains_key(c)),
        created: now,
        attempts: (b.attempts + 1) as u32,
        last_reconnect: Some(now),
        ..b
    }
}

/// A bridge that is reconnected in time stays off the list of those left over for as long as
/// some call on it is known.
pub proof fn law_a_bridge_with_a_known_call_is_kept(
    b: BridgeFacts,
    calls: Map<i32, CallFacts>,
    grace_secs: u64,
    now: u64,
)
    requires
        has_known_call(b, calls),
    ensures
        !is_orphaned(b, calls, grace_secs, now),
        has_known_call(reconnected(b, calls, now), calls),
{
    let c = choose|c: i32| #[trigger] b.calls.contains(c) && calls.contains_key(c);
    assert(b.calls != Set::<i32>::empty());
    assert(reconnected(b, calls, now).calls.contains(c));
}

/// The first entries of a list.
pub fn at_most(items: &Vec<u64>, max: usize) -> (r: Vec<u64>)
    ensures
        r@ == items@.take(if items@.len() < max {
            items@.len() as int
        } else {
            max as int
        }),
{
    let mut r: Vec<u64> = Vec::new();
    let mut i: usize = 0;
    while i < items.len() && i < max
        invariant
            i <= items@.len(),
            i <= max,
            r@ =~= items@.take(i as int),
        decreases items@.len() - i,
    {
        r.push(items[i]);
        i = i + 1;
    }
    r
}

/// What a health check does.
#[derive(Debug)]
pub struct HealthPlan {
    /// The bridges that are torn down, each with the calls to hang up.
    pub exhausted: Vec<(u64, Vec<CallId>)>,
    /// The bridges that are left over, and destroyed.
    pub orphaned: Vec<u64>,
    /// The bridges to reconnect.
    pub reconnect: Vec<u64>,
}

/// The health of the connection of a channel; a channel without a report is well.
pub open spec fn health_of(reports: Seq<(u64, ConnectionHealth)>, channel: u64) -> ConnectionHealth
    decreases reports.len(),
{
    if reports.len() == 0 {
        ConnectionHealth { healthy: true, queue_fill: 0, overflows: 0 }
    } else if reports[0].0 == channel {
        reports[0].1
    } else {
        health_of(reports.subrange(1, reports.len() as int), channel)
    }
}

fn find_health(reports: &Vec<(u64, ConnectionHealth)>, channel: u64) -> (r: ConnectionHealth)
    ensures
        r == health_of(reports@, channel),
{
    let mut i: usize = 0;
    proof {
        assert(reports@.subrange(0, reports@.len() as int) =~= reports@);
    }
    while i < reports.len()
        invariant
            i <= reports@.len(),
            health_of(reports@, channel) == health_of(
                reports@.subrange(i as int, reports@.len() as int),
                channel,
            ),
        decreases reports@.len() - i,
    {
        let (c, h) = reports[i];
        if c == channel {
            return h;
        }
        proof {
            let now = reports@.subrange(i as int, reports@.len() as int);
            assert(now.subrange(1, now.len() as int) =~= reports@.subrange(
                i + 1,
                reports@.len() as int,
            ));
        }
        i = i + 1;
    }
    ConnectionHealth { healthy: true, queue_fill: 0, overflows: 0 }
}

/// A list holds each of its entries once.
pub open spec fn lists_set(s: Seq<u64>, set: Set<u64>) -> bool {
    s.no_duplicates() && forall|c: u64| #[trigger] s.contains(c) <==> set.contains(c)
}

/// A list holds each of the calls once.
pub open spec fn lists_calls(s: Seq<CallId>, calls: Set<i32>) -> bool {
    call_numbers(s).no_duplicates() && call_numbers(s).to_set() == calls
}

/// The bridges of a verdict.
pub open spec fn channels_judged(
    bridges: Map<u64, BridgeFacts>,
    reports: Seq<(u64, ConnectionHealth)>,
    cfg: BridgeConfig,
    now: u64,
    v: Verdict,
) -> Set<u64> {
    Set::new(
        |c: u64| bridges.contains_key(c) && verdict(bridges[c], health_of(reports, c), cfg, now) == v,
    )
}

/// The bridges that are left over.
pub open spec fn channels_orphaned(
    bridges: Map<u64, BridgeFacts>,
    calls: Map<i32, CallFacts>,
    grace_secs: u64,
    now: u64,
) -> Set<u64> {
    Set::new(|c: u64| bridges.contains_key(c) && is_orphaned(bridges[c], calls, grace_secs, now))
}

/// The bridges without those of the channels.
pub open spec fn without_channels(
    bridges: Map<u64, BridgeFacts>,
    gone: Set<u64>,
) -> Map<u64, BridgeFacts> {
    bridges.remove_keys(gone)
}

/// The channels of a list of channels with calls.
pub open spec fn channels_of(s: Seq<(u64, Vec<CallId>)>) -> Seq<u64> {
    s.map_values(|e: (u64, Vec<CallId>)| e.0)
}

/// The plan is that of the bridges and calls, and `after` is what it leaves of the bridges.
pub open spec fn is_plan(
    plan: HealthPlan,
    bridges: Map<u64, BridgeFacts>,
    calls: Map<i32, CallFacts>,
    reports: Seq<(u64, ConnectionHealth)>,
    cfg: BridgeConfig,
    now: u64,
    after: Map<u64, BridgeFacts>,
) -> bool {
    let dead = channels_judged(bridges, reports, cfg, now, Verdict::Exhausted);
    let left = without_channels(bridges, dead);
    let orphans = channels_orphaned(left, calls, cfg.empty_bridge_grace_period_secs, now);
    &&& lists_set(channels_of(plan.exhausted@), dead)
    &&& forall|i: int|
        0 <= i < plan.exhausted@.len() ==> lists_calls(
            (#[trigger] plan.exhausted@[i]).1@,
            bridges[plan.exhausted@[i].0].calls,
        )
    &&& lists_set(plan.orphaned@, orphans)
    &&& after == without_channels(left, orphans)
    &&& exists|unwell: Seq<u64>| #[trigger]
        lists_set(unwell, channels_judged(bridges, reports, cfg, now, Verdict::Reconnect))
            && plan.reconnect@ == unwell.take(
            if unwell.len() < cfg.reconnect_max_per_cycle {
                unwell.len() as int
            } else {
                cfg.reconnect_max_per_cycle as int
            },
        )
}

/// What a list gains by one more entry.
proof fn lemma_list_grows(s: Seq<u64>, c: u64, seen: Seq<u64>, p: spec_fn(u64) -> bool)
    requires
        s.no_duplicates(),
        !seen.contains(c),
        forall|x: u64| #[trigger] s.contains(x) <==> seen.contains(x) && p(x),
    ensures
        p(c) ==> s.push(c).no_duplicates(),
        p(c) ==> forall|x: u64| #[trigger]
            s.push(c).contains(x) <==> seen.push(c).contains(x) && p(x),
        !p(c) ==> forall|x: u64| #[trigger]
            s.contains(x) <==> seen.push(c).contains(x) && p(x),
{
    let now = if p(c) {
        s.push(c)
    } else {
        s
    };
    assert forall|x: u64| seen.push(c).contains(x) <==> x == c || seen.contains(x) by {
        if seen.contains(x) {
            let k = choose|k: int| 0 <= k < seen.len() && seen[k] == x;
            assert(seen.push(c)[k] == x);
        }
        if x == c {
            assert(seen.push(c)[seen.len() as int] == x);
        }
    }
    assert(!s.contains(c));
    assert forall|x: u64| #[trigger] now.contains(x) <==> seen.push(c).contains(x) && p(x) by {
        if p(c) {
            if s.contains(x) {
                let k = choose|k: int| 0 <= k < s.len() && s[k] == x;
                assert(s.push(c)[k] == x);
            }
            if x == c {
                assert(s.push(c)[s.len() as int] == x);
            }
        }
    }
    assert(now.no_duplicates()) by {
        assert forall|a: int, b: int|
            0 <= a < now.len() && 0 <= b < now.len() && a != b implies now[a] != now[b] by {
            if p(c) {
                if a == s.len() {
                    assert(s.contains(s[b]));
                } else if b == s.len() {
                    assert(s.contains(s[a]));
                }
            }
        }
    }
}

impl BridgeCoordinator {
    /// The channels of a verdict.
    fn channels_with(
        &self,
        reports: &Vec<(u64, ConnectionHealth)>,
        cfg: &BridgeConfig,
        now: u64,
        v: Verdict,
    ) -> (r: Vec<u64>)
        ensures
            lists_set(r@, channels_judged(self.bridges(), reports@, *cfg, now, v)),
    {
        let keys: Vec<u64> = self.active_channels();
        let ghost p = |c: u64|
            verdict(self.bridges()[c], health_of(reports@, c), *cfg, now) == v;
        let mut r: Vec<u64> = Vec::new();
        let mut i: usize = 0;
        while i < keys.len()
            invariant
                i <= keys@.len(),
                keys@.no_duplicates(),
                forall|c: u64| #[trigger]
                    keys@.contains(c) <==> self.bridges().contains_key(c),
                p == (|c: u64|
                    verdict(self.bridges()[c], health_of(reports@, c), *cfg, now) == v),
                r@.no_duplicates(),
                forall|x: u64| #[trigger]
                    r@.contains(x) <==> keys@.take(i as int).contains(x) && p(x),
            decreases keys@.len() - i,
        {
            let c: u64 = keys[i];
            let ghost seen = keys@.take(i as int);
            let ghost before = r@;
            proof {
                assert(keys@.contains(c));
                assert(keys@.take(i + 1) =~= seen.push(c));
                assert(!seen.contains(c)) by {
                    if seen.contains(c) {
                        let k = choose|k: int| 0 <= k < seen.len() && seen[k] == c;
                        assert(keys@[k] == keys@[i as int]);
                    }
                }
                lemma_list_grows(before, c, seen, p);
            }
            if let Some(bridge) = self.bridge(Snowflake::new(c)) {
                if judge(&bridge, find_health(reports, c), cfg, now) == v {
                    r.push(c);
                }
            }
            proof {
                if p(c) {
                    assert(r@ =~= before.push(c));
                } else {
                    assert(r@ =~= before);
                }
                assert forall|x: u64| #[trigger] r@.contains(x) <==> keys@.take(i + 1).contains(x)
                    && p(x) by {
                    assert(keys@.take(i + 1).contains(x) == seen.push(c).contains(x));
                }
            }
            i = i + 1;
        }
        proof {
            assert(keys@.take(keys@.len() as int) =~= keys@);
        }
        r
    }

    /// Whether some call of a bridge is known.
    fn knows_some_call(&self, calls: &CallSet) -> (r: bool)
        ensures
            r == (exists|c: i32| #[trigger] calls@.contains(c) && self.calls().contains_key(c)),
    {
        let list: Vec<CallId> = calls.to_vec();
        let ghost numbers = call_numbers(list@);
        let mut i: usize = 0;
        while i < list.len()
            invariant
                i <= list@.len(),
                numbers == call_numbers(list@),
                numbers.to_set() == calls@,
                forall|j: int|
                    0 <= j < i ==> !self.calls().contains_key((#[trigger] list@[j]).num()),
            decreases list@.len() - i,
        {
            if self.knows_call(list[i]) {
                proof {
                    assert(numbers[i as int] == list@[i as int].num());
                    assert(calls@.contains(list@[i as int].num()));
                }
                return true;
            }
            i = i + 1;
        }
        proof {
            assert forall|c: i32| #[trigger] calls@.contains(c) implies !self.calls().contains_key(
                c,
            ) by {
                assert(numbers.contains(c));
                let k = choose|k: int| 0 <= k < numbers.len() && numbers[k] == c;
                assert(list@[k].num() == c);
            }
        }
        false
    }

    /// The channels of the bridges that are left over.
    fn orphaned_channels(&self, grace_secs: u64, now: u64) -> (r: Vec<u64>)
        ensures
            lists_set(
                r@,
                channels_orphaned(self.bridges(), self.calls(), grace_secs, now),
            ),
    {
        let keys: Vec<u64> = self.active_channels();
        let ghost p = |c: u64| is_orphaned(self.bridges()[c], self.calls(), grace_secs, now);
        let mut r: Vec<u64> = Vec::new();
        let mut i: usize = 0;
        while i < keys.len()
            invariant
                i <= keys@.len(),
                keys@.no_duplicates(),
                forall|c: u64| #[trigger]
                    keys@.contains(c) <==> self.bridges().contains_key(c),
                p == (|c: u64| is_orphaned(self.bridges()[c], self.calls(), grace_secs, now)),
                r@.no_duplicates(),
                forall|x: u64| #[trigger]
                    r@.contains(x) <==> keys@.take(i as int).contains(x) && p(x),
            decreases keys@.len() - i,
        {
            let c: u64 = keys[i];
            let ghost seen = keys@.take(i as int);
            let ghost before = r@;
            proof {
                assert(keys@.contains(c));
                assert(keys@.take(i + 1) =~= seen.push(c));
                assert(!seen.contains(c)) by {
                    if seen.contains(c) {
                        let k = choose|k: int| 0 <= k < seen.len() && seen[k] == c;
                        assert(keys@[k] == keys@[i as int]);
                    }
                }
                lemma_list_grows(before, c, seen, p);
            }
            if let Some(bridge) = self.bridge(Snowflake::new(c)) {
                let left_over: bool = if bridge.sip_calls.is_empty() {
                    elapsed_secs(now, bridge.last_call_time) > grace_secs
                } else {
                    !self.knows_some_call(&bridge.sip_calls) && elapsed_secs(
                        now,
                        bridge.last_call_time,
                    ) > 30 && elapsed_secs(now, bridge.created_at) > 60
                };
                if left_over {
                    r.push(c);
                }
            }
            proof {
                if p(c) {
                    assert(r@ =~= before.push(c));
                } else {
                    assert(r@ =~= before);
                }
                assert forall|x: u64| #[trigger] r@.contains(x) <==> keys@.take(i + 1).contains(x)
                    && p(x) by {
                    assert(keys@.take(i + 1).contains(x) == seen.push(c).contains(x));
                }
            }
            i = i + 1;
        }
        proof {
            assert(keys@.take(keys@.len() as int) =~= keys@);
        }
        r
    }

    /// Checks the bridges: those that were reconnected too often are torn down, those that are
    /// left over are destroyed, and some of those that are unwell are to be reconnected.
    pub fn health_check(
        &mut self,
        reports: &Vec<(u64, ConnectionHealth)>,
        cfg: &BridgeConfig,
        now: u64,
    ) -> (plan: HealthPlan)
        ensures
            is_plan(
                plan,
                old(self).bridges(),
                old(self).calls(),
                reports@,
                *cfg,
                now,
                final(self).bridges(),
            ),
            final(self).calls() == old(self).calls(),
            final(self).pending() == old(self).pending(),
            final(self).requests() == old(self).requests(),
    {
        let ghost bridges = self.bridges();
        let ghost calls = self.calls();
        let ghost dead = channels_judged(bridges, reports@, *cfg, now, Verdict::Exhausted);
        let unwell: Vec<u64> = self.channels_with(reports, cfg, now, Verdict::Reconnect);
        let worn_out: Vec<u64> = self.channels_with(reports, cfg, now, Verdict::Exhausted);
        let mut exhausted: Vec<(u64, Vec<CallId>)> = Vec::new();
        let mut i: usize = 0;
        while i < worn_out.len()
            invariant
                i <= worn_out@.len(),
                lists_set(worn_out@, dead),
                dead == channels_judged(bridges, reports@, *cfg, now, Verdict::Exhausted),
                channels_of(exhausted@) =~= worn_out@.take(i as int),
                forall|j: int|
                    0 <= j < exhausted@.len() ==> lists_calls(
                        (#[trigger] exhausted@[j]).1@,
                        bridges[exhausted@[j].0].calls,
                    ),
                self.bridges() == without_channels(bridges, worn_out@.take(i as int).to_set()),
                self.calls() == calls,
                self.pending() == old(self).pending(),
                self.requests() == old(self).requests(),
            decreases worn_out@.len() - i,
        {
            let c: u64 = worn_out[i];
            let ghost seen = worn_out@.take(i as int);
            proof {
                assert(worn_out@.contains(c));
                assert(!seen.contains(c)) by {
                    if seen.contains(c) {
                        let k = choose|k: int| 0 <= k < seen.len() && seen[k] == c;
                        assert(worn_out@[k] == worn_out@[i as int]);
                    }
                }
                assert(worn_out@.take(i + 1) =~= seen.push(c));
            }
            let ghost before = exhausted@;
            let calls_left: Vec<CallId> = match self.destroy_bridge(Snowflake::new(c)) {
                Some(bridge) => bridge.sip_calls.to_vec(),
                None => Vec::new(),
            };
            exhausted.push((c, calls_left));
            proof {
                assert(channels_of(exhausted@) =~= channels_of(before).push(c));
                lemma_set_grows(seen, c);
                assert(self.bridges() =~= without_channels(
                    bridges,
                    worn_out@.take(i + 1).to_set(),
                ));
            }
            i = i + 1;
        }
        proof {
            assert(worn_out@.take(worn_out@.len() as int) =~= worn_out@);
            assert(worn_out@.to_set() =~= dead) by {
                assert forall|c: u64| worn_out@.to_set().contains(c) == dead.contains(c) by {
                    assert(worn_out@.contains(c) == dead.contains(c));
                }
            }
        }
        let ghost left = self.bridges();
        let orphaned: Vec<u64> = self.orphaned_channels(cfg.empty_bridge_grace_period_secs, now);
        let ghost orphans = channels_orphaned(
            left,
            calls,
            cfg.empty_bridge_grace_period_secs,
            now,
        );
        let mut k: usize = 0;
        while k < orphaned.len()
            invariant
                k <= orphaned@.len(),
                self.bridges() == without_channels(left, orphaned@.take(k as int).to_set()),
                self.calls() == calls,
                self.pending() == old(self).pending(),
                self.requests() == old(self).requests(),
            decreases orphaned@.len() - k,
        {
            let c: u64 = orphaned[k];
            let _ = self.destroy_bridge(Snowflake::new(c));
            proof {
                let seen = orphaned@.take(k as int);
                assert(orphaned@.take(k + 1) =~= seen.push(c));
                lemma_set_grows(seen, c);
                assert(self.bridges() =~= without_channels(
                    left,
                    orphaned@.take(k + 1).to_set(),
                ));
            }
            k = k + 1;
        }
        proof {
            assert(orphaned@.take(orphaned@.len() as int) =~= orphaned@);
            assert(orphaned@.to_set() =~= orphans) by {
                assert forall|c: u64| orphaned@.to_set().contains(c) == orphans.contains(c) by {
                    assert(orphaned@.contains(c) == orphans.contains(c));
                }
            }
        }
        let reconnect: Vec<u64> = at_most(&unwell, cfg.reconnect_max_per_cycle);
        HealthPlan { exhausted, orphaned, reconnect }
    }
}

proof fn lemma_set_grows(s: Seq<u64>, c: u64)
    ensures
        s.push(c).to_set() == s.to_set().insert(c),
{
    let t = s.push(c);
    assert forall|x: u64| #[trigger] t.contains(x) <==> x == c || s.contains(x) by {
        if s.contains(x) {
            let k = choose|k: int| 0 <= k < s.len() && s[k] == x;
            assert(t[k] == x);
        }
        if x == c {
            assert(t[s.len() as int] == x);
        }
    }
    assert(t.to_set() =~= s.to_set().insert(c));
}

/// Whole seconds are counted down: as many as have fully gone by, and none before a time.
pub proof fn law_whole_seconds_have_gone_by(now: u64, then: u64)
    ensures
        now >= then ==> 1000 * seconds_since(now, then) <= now - then < 1000 * (seconds_since(
            now,
            then,
        ) + 1),
        now < then ==> seconds_since(now, then) == 0,
{
}

/// The delay doubles from each attempt to the next, until it is the longest delay, and starts at
/// the base delay.
pub proof fn law_the_delay_doubles(cfg: BridgeConfig, attempts: u32)
    requires
        1 <= attempts < u32::MAX,
    ensures
        ({
            let longest = cfg.reconnect_max_delay_secs as int;
            let now = backoff(cfg, attempts);
            let next = backoff(cfg, (attempts + 1) as u32);
            &&& next == (if 2 * now < longest {
                2 * now
            } else {
                longest
            })
            &&& backoff(cfg, 1) == (if cfg.reconnect_base_delay_secs < longest {
                cfg.reconnect_base_delay_secs as int
            } else {
                longest
            })
            &&& backoff(cfg, 0) == backoff(cfg, 1)
        }),
{
    let base = cfg.reconnect_base_delay_secs as int;
    let p = pow2((attempts - 1) as nat) as int;
    vstd::arithmetic::power2::lemma_pow2_unfold(attempts as nat);
    vstd::arithmetic::power2::lemma2_to64();
    let q = pow2(attempts as nat) as int;
    let one = pow2(0) as int;
    assert(base * q == 2 * (base * p)) by (nonlinear_arith)
        requires
            q == 2 * p,
    ;
    assert(base * one == base) by (nonlinear_arith)
        requires
            one == 1,
    ;
    assert(base * p >= 0) by (nonlinear_arith)
        requires
            base >= 0,
            p >= 0,
    ;
    vstd::arithmetic::power2::lemma_pow2_pos((attempts - 1) as nat);
}

/// What the health check finds of every bridge. It is well unless its connection is broken, or its
/// queue is more than nine tenths full and more than fifty frames in a row were lost. Of those that
/// are not, one made too short a while ago is left alone, one that was reconnected as often as is
/// allowed is given up, one whose delay has not gone by waits, and any other is reconnected.
pub proof fn law_every_bridge_is_judged(
    b: BridgeFacts,
    h: ConnectionHealth,
    cfg: BridgeConfig,
    now: u64,
)
    ensures
        ({
            let v = verdict(b, h, cfg, now);
            let unwell = !h.healthy || (h.queue_fill >= 91 && h.overflows >= 51);
            let young = cfg.reconnect_min_age_secs > 0 && now < b.created + 1000
                * cfg.reconnect_min_age_secs;
            let spent = b.attempts >= cfg.reconnect_max_attempts;
            let delay = backoff(cfg, b.attempts);
            let early = b.last_reconnect is Some && delay > 0 && now < b.last_reconnect->0 + 1000
                * delay;
            &&& v == Verdict::Well <==> !unwell
            &&& v == Verdict::TooYoung <==> unwell && young
            &&& v == Verdict::Exhausted <==> unwell && !young && spent
            &&& v == Verdict::BackingOff <==> unwell && !young && !spent && early
            &&& v == Verdict::Reconnect <==> unwell && !young && !spent && !early
        }),
{
    lemma_earlier(now, b.created, cfg.reconnect_min_age_secs as int);
    if b.last_reconnect is Some {
        lemma_earlier(now, b.last_reconnect->0, backoff(cfg, b.attempts));
    }
    assert(backoff(cfg, b.attempts) >= 0) by {
        let base = cfg.reconnect_base_delay_secs as int;
        let p = pow2(doublings(b.attempts)) as int;
        assert(base * p >= 0) by (nonlinear_arith)
            requires
                base >= 0,
                p >= 0,
        ;
    }
}

proof fn lemma_earlier(now: u64, then: u64, secs: int)
    ensures
        secs >= 0 ==> (seconds_since(now, then) < secs <==> now < then + 1000 * secs && secs > 0),
        seconds_since(now, then) > secs && secs >= 0 <==> now >= then + 1000 * (secs + 1) && secs
            >= 0,
{
}

/// Which bridges are left over: one without calls whose last call joined longer ago than the grace
/// period, and one none of whose calls is known, if its last call joined more than thirty seconds
/// ago and it is more than a minute old.
pub proof fn law_which_bridges_are_left_over(
    b: BridgeFacts,
    calls: Map<i32, CallFacts>,
    grace_secs: u64,
    now: u64,
)
    ensures
        ({
            let orphaned = is_orphaned(b, calls, grace_secs, now);
            let none = forall|c: i32| !#[trigger] b.calls.contains(c);
            let unknown = forall|c: i32| #[trigger] b.calls.contains(c) ==> !calls.contains_key(c);
            &&& none ==> (orphaned <==> now >= b.last_call + 1000 * (grace_secs + 1))
            &&& !none ==> (orphaned <==> unknown && now >= b.last_call + 31_000 && now >= b.created
                + 61_000)
        }),
{
    let none = forall|c: i32| !#[trigger] b.calls.contains(c);
    if none {
        assert(b.calls =~= Set::<i32>::empty());
    } else {
        let c = choose|c: i32| #[trigger] b.calls.contains(c);
        assert(b.calls != Set::<i32>::empty());
    }
}

/// A bridge that is reconnected keeps the calls that are still known and no others, counts the
/// attempt, and is as old as the attempt. What it leads to stays.
pub proof fn law_what_a_reconnection_keeps(
    b: BridgeFacts,
    calls: Map<i32, CallFacts>,
    now: u64,
    caller: i32,
)
    requires
        b.attempts < u32::MAX,
        b.calls.finite(),
    ensures
        ({
            let r = reconnected(b, calls, now);
            &&& r.calls.contains(caller) <==> b.calls.contains(caller) && calls.contains_key(caller)
            &&& r.attempts == b.attempts + 1
            &&& r.created == now && r.last_reconnect == Some(now)
            &&& r.guild == b.guild && r.token == b.token && r.last_call == b.last_call
        }),
{
}

/// The first report of a channel is what counts of it, wherever it stands; a channel without one is
/// well.
pub proof fn law_the_first_report_counts(
    reports: Seq<(u64, ConnectionHealth)>,
    channel: u64,
    k: int,
)
    requires
        0 <= k <= reports.len(),
        forall|j: int| 0 <= j < k ==> (#[trigger] reports[j]).0 != channel,
        k < reports.len() ==> reports[k].0 == channel,
    ensures
        k < reports.len() ==> health_of(reports, channel) == reports[k].1,
        k == reports.len() ==> health_of(reports, channel).healthy && health_of(
            reports,
            channel,
        ).overflows == 0 && health_of(reports, channel).queue_fill == 0,
    decreases reports.len(),
{
    if k > 0 {
        assert(reports[0].0 != channel);
        let rest = reports.subrange(1, reports.len() as int);
        assert forall|j: int| 0 <= j < k - 1 implies (#[trigger] rest[j]).0 != channel by {
            assert(rest[j] == reports[j + 1]);
        }
        if k < reports.len() {
            assert(rest[k - 1] == reports[k]);
        }
        law_the_first_report_counts(rest, channel, k - 1);
    }
}

/// What a health check does to every bridge: those given up are torn down, those left over are
/// destroyed, and all others stay as they are. Of those to be reconnected, at most so many as a
/// cycle allows are named, and all of them where they are fewer.
pub proof fn law_what_a_health_check_does(
    plan: HealthPlan,
    bridges: Map<u64, BridgeFacts>,
    calls: Map<i32, CallFacts>,
    reports: Seq<(u64, ConnectionHealth)>,
    cfg: BridgeConfig,
    now: u64,
    after: Map<u64, BridgeFacts>,
    c: u64,
)
    requires
        is_plan(plan, bridges, calls, reports, cfg, now, after),
    ensures
        ({
            let there = bridges.contains_key(c);
            let v = verdict(bridges[c], health_of(reports, c), cfg, now);
            let given_up = there && v == Verdict::Exhausted;
            let left_over = there && !given_up && is_orphaned(
                bridges[c],
                calls,
                cfg.empty_bridge_grace_period_secs,
                now,
            );
            &&& channels_of(plan.exhausted@).contains(c) <==> given_up
            &&& plan.orphaned@.contains(c) <==> left_over
            &&& after.contains_key(c) <==> there && !given_up && !left_over
            &&& after.contains_key(c) ==> after[c] == bridges[c]
            &&& plan.reconnect@.contains(c) ==> there && v == Verdict::Reconnect
            &&& plan.reconnect@.len() < cfg.reconnect_max_per_cycle && there && v
                == Verdict::Reconnect ==> plan.reconnect@.contains(c)
            &&& plan.reconnect@.len() <= cfg.reconnect_max_per_cycle
        }),
{
    let unwell = choose|unwell: Seq<u64>| #[trigger]
        lists_set(unwell, channels_judged(bridges, reports, cfg, now, Verdict::Reconnect))
            && plan.reconnect@ == unwell.take(
            if unwell.len() < cfg.reconnect_max_per_cycle {
                unwell.len() as int
            } else {
                cfg.reconnect_max_per_cycle as int
            },
        );
    let n = plan.reconnect@.len();
    assert(unwell.contains(c) <==> channels_judged(
        bridges,
        reports,
        cfg,
        now,
        Verdict::Reconnect,
    ).contains(c));
    if plan.reconnect@.contains(c) {
        let k = choose|k: int| 0 <= k < n && plan.reconnect@[k] == c;
        assert(unwell[k] == c);
    }
    if n < cfg.reconnect_max_per_cycle {
        assert(plan.reconnect@ =~= unwell);
    }
}

} // verus!
