//! The media of calls: which ports of the conference bridge are wired to which, and when the
//! audio thread runs.

use crate::call::state::{call_numbers, CallSet};
use crate::config::BridgeConfig;
use crate::services::snowflake::Snowflake;
use crate::sip::events::{InvState, MediaStatus};
use crate::sip::rtp::{rtp_checked, RtpTracker};
use crate::sip::types::{CallId, ConfPort};
use std::collections::{HashMap, HashSet};
use vstd::prelude::*;
use vstd::std_specs::iter::IteratorSpec;

verus! {

broadcast use vstd::std_specs::hash::group_hash_axioms;

/// A queue of the `crossbeam-queue` crate.
#[verifier::external_type_specification]
#[verifier::external_body]
#[verifier::reject_recursive_types(T)]
pub struct ExSegQueue<T>(crossbeam_queue::SegQueue<T>);

/// The ports of calls.
pub type PortMap = dashmap::DashMap<i32, i32>;

/// The channels of calls.
pub type ChannelMap = dashmap::DashMap<i32, u64>;

/// Calls that wait for the audio thread, each with its port.
pub type CompletionQueue = crossbeam_queue::SegQueue<(i32, i32)>;

/// What a map of ports holds.
pub uninterp spec fn held_ports(m: PortMap) -> Map<i32, i32>;

/// What a map of channels holds.
pub uninterp spec fn held_call_channels(m: ChannelMap) -> Map<i32, u64>;

/// What a queue holds, from the first to leave to the last.
pub uninterp spec fn held_completions(q: CompletionQueue) -> Seq<(i32, i32)>;

/// `dashmap::DashMap::new`: a map of ports that holds nothing.
#[verifier::external_body]
fn ports_new() -> (m: PortMap)
    ensures
        held_ports(m).dom() == Set::<i32>::empty(),
{
    dashmap::DashMap::new()
}

/// `dashmap::DashMap::get`: the port of the call, if there is one.
#[verifier::external_body]
fn ports_get(m: &PortMap, call: i32) -> (r: Option<i32>)
    ensures
        r == (if held_ports(*m).contains_key(call) {
            Some(held_ports(*m)[call])
        } else {
            None
        }),
{
    m.get(&call).map(|entry| *entry.value())
}

/// `dashmap::DashMap::insert`: the call has the port, in place of any other.
#[verifier::external_body]
fn ports_insert(m: &mut PortMap, call: i32, port: i32)
    ensures
        held_ports(*final(m)) == held_ports(*old(m)).insert(call, port),
{
    m.insert(call, port);
}

/// `dashmap::DashMap::new`: a map of channels that holds nothing.
#[verifier::external_body]
fn call_channels_new() -> (m: ChannelMap)
    ensures
        held_call_channels(m).dom() == Set::<i32>::empty(),
{
    dashmap::DashMap::new()
}

/// `dashmap::DashMap::get`: the channel of the call, if there is one.
#[verifier::external_body]
fn call_channels_get(m: &ChannelMap, call: i32) -> (r: Option<u64>)
    ensures
        r == (if held_call_channels(*m).contains_key(call) {
            Some(held_call_channels(*m)[call])
        } else {
            None
        }),
{
    m.get(&call).map(|entry| *entry.value())
}

/// `dashmap::DashMap::insert`: the call is on the channel, and on no other.
#[verifier::external_body]
fn call_channels_insert(m: &mut ChannelMap, call: i32, channel: u64)
    ensures
        held_call_channels(*final(m)) == held_call_channels(*old(m)).insert(call, channel),
{
    m.insert(call, channel);
}

/// `dashmap::DashMap::remove`: the call is on no channel.
#[verifier::external_body]
fn call_channels_remove(m: &mut ChannelMap, call: i32)
    ensures
        held_call_channels(*final(m)) == held_call_channels(*old(m)).remove(call),
{
    m.remove(&call);
}

/// `crossbeam_queue::SegQueue::new`: a queue that holds nothing.
#[verifier::external_body]
fn completions_new() -> (q: CompletionQueue)
    ensures
        held_completions(q).len() == 0,
{
    crossbeam_queue::SegQueue::new()
}

/// `crossbeam_queue::SegQueue::push`: the entry is the last to leave.
#[verifier::external_body]
fn completions_push(q: &mut CompletionQueue, call: i32, port: i32)
    ensures
        held_completions(*final(q)) == held_completions(*old(q)).push((call, port)),
{
    q.push((call, port));
}

/// `crossbeam_queue::SegQueue::pop`: the first entry leaves, if there is one.
#[verifier::external_body]
fn completions_pop(q: &mut CompletionQueue) -> (r: Option<(i32, i32)>)
    ensures
        r is Some <==> held_completions(*old(q)).len() > 0,
        r is Some ==> r->0 == held_completions(*old(q))[0],
        held_completions(*final(q)) == (if held_completions(*old(q)).len() > 0 {
            held_completions(*old(q)).drop_first()
        } else {
            held_completions(*old(q))
        }),
{
    q.pop()
}

/// A change of the wiring of the conference bridge, from one port to another.
#[derive(Debug, Clone, Copy, PartialEq, Eq, Structural)]
pub enum Wire {
    Disconnect(i32, i32),
    Connect(i32, i32),
}

/// The wiring of a channel's port moved from `old_port` to `new_port`, both ways.
pub open spec fn rewired(other: i32, old_port: i32, new_port: i32) -> Seq<Wire> {
    seq![
        Wire::Disconnect(other, old_port),
        Wire::Disconnect(old_port, other),
        Wire::Connect(other, new_port),
        Wire::Connect(new_port, other),
    ]
}

/// The wiring of another call's port moved from `old_port` to `new_port`, both ways.
pub open spec fn call_rewired(other: i32, old_port: i32, new_port: i32) -> Seq<Wire> {
    seq![
        Wire::Disconnect(old_port, other),
        Wire::Disconnect(other, old_port),
        Wire::Connect(new_port, other),
        Wire::Connect(other, new_port),
    ]
}

/// The wiring of several calls' ports moved.
pub open spec fn all_rewired(others: Seq<i32>, old_port: i32, new_port: i32) -> Seq<Wire>
    decreases others.len(),
{
    if others.len() == 0 {
        Seq::empty()
    } else {
        all_rewired(others.drop_last(), old_port, new_port) + call_rewired(
            others.last(),
            old_port,
            new_port,
        )
    }
}

/// What follows a call's media becoming active.
#[derive(Debug)]
pub struct ActiveStep {
    /// The changes of the wiring, in order.
    pub wires: Vec<Wire>,
    /// The audio thread is to be started.
    pub start_audio: bool,
    /// The call's registration with its channel is to be completed now; else it waits for the
    /// audio thread.
    pub complete_now: bool,
}

/// What follows the end of a call.
#[derive(Debug, Clone, Copy, PartialEq, Eq, Structural)]
pub struct DisconnectStep {
    /// The call had been let in, and its end is reported.
    pub report: bool,
    /// The audio thread is to be stopped.
    pub stop_audio: bool,
}

/// The media of calls.
pub struct MediaState {
    ports: PortMap,
    channels: ChannelMap,
    channel_calls: HashMap<u64, CallSet>,
    counted: HashSet<i32>,
    rtp: RtpTracker,
    audio_ready: bool,
    completions: CompletionQueue,
}

/// The calls of channels.
pub open spec fn sets_view(m: Map<u64, CallSet>) -> Map<u64, Set<i32>> {
    m.map_values(|s: CallSet| s@)
}

/// The calls of channels, without one call of one channel; a channel without calls is gone.
pub open spec fn without_call(m: Map<u64, Set<i32>>, channel: u64, call: i32) -> Map<u64, Set<i32>> {
    if !m.contains_key(channel) {
        m
    } else if !m[channel].contains(call) {
        m
    } else if m[channel].remove(call) == Set::<i32>::empty() {
        m.remove(channel)
    } else {
        m.insert(channel, m[channel].remove(call))
    }
}

/// The ports of the other calls of a channel.
pub open spec fn lists_other_ports(
    s: Seq<i32>,
    calls: Seq<i32>,
    call: i32,
    ports: Map<i32, i32>,
) -> bool
    decreases calls.len(),
{
    if calls.len() == 0 {
        s.len() == 0
    } else if calls.last() == call || !ports.contains_key(calls.last()) {
        lists_other_ports(s, calls.drop_last(), call, ports)
    } else {
        s.len() > 0 && s.last() == ports[calls.last()] && lists_other_ports(
            s.drop_last(),
            calls.drop_last(),
            call,
            ports,
        )
    }
}

/// The ports to rewire: those of the other calls of the channel, in an order of the calls that
/// is not stated.
pub open spec fn other_ports(
    s: Seq<i32>,
    calls: Set<i32>,
    call: i32,
    ports: Map<i32, i32>,
) -> bool {
    exists|order: Seq<i32>|
        order.no_duplicates() && order.to_set() == calls && #[trigger] lists_other_ports(
            s,
            order,
            call,
            ports,
        )
}

/// The changes of the wiring where the port of a call changed: the channel's own port first,
/// if it has one, then those of the other calls.
pub open spec fn wires_are(
    wires: Seq<Wire>,
    slot: Option<i32>,
    calls: Set<i32>,
    call: i32,
    ports: Map<i32, i32>,
    old_port: i32,
    new_port: i32,
) -> bool {
    let first = match slot {
        Some(s) => rewired(s, old_port, new_port),
        None => Seq::empty(),
    };
    exists|others: Seq<i32>|
        other_ports(others, calls, call, ports) && wires == first + #[trigger] all_rewired(
            others,
            old_port,
            new_port,
        )
}

impl MediaState {
    /// The ports of calls.
    pub closed spec fn ports(&self) -> Map<i32, i32> {
        held_ports(self.ports)
    }

    /// The channels of calls.
    pub closed spec fn channels(&self) -> Map<i32, u64> {
        held_call_channels(self.channels)
    }

    /// The calls that are wired to each channel.
    pub closed spec fn channel_calls(&self) -> Map<u64, Set<i32>> {
        sets_view(self.channel_calls@)
    }

    /// The calls whose media count as active.
    pub closed spec fn counted(&self) -> Set<i32> {
        self.counted@
    }

    /// What is known of the audio of calls.
    pub closed spec fn rtp(&self) -> Map<i32, (u64, u64)> {
        self.rtp@
    }

    /// The audio thread has handled its first frame.
    pub closed spec fn ready(&self) -> bool {
        self.audio_ready
    }

    /// The calls that wait for the audio thread.
    pub closed spec fn waiting(&self) -> Seq<(i32, i32)> {
        held_completions(self.completions)
    }

    /// No media.
    pub fn new() -> (m: Self)
        ensures
            m.ports().dom() == Set::<i32>::empty(),
            m.channels().dom() == Set::<i32>::empty(),
            m.channel_calls().dom() == Set::<u64>::empty(),
            m.counted() == Set::<i32>::empty(),
            m.rtp() == Map::<i32, (u64, u64)>::empty(),
            !m.ready(),
            m.waiting().len() == 0,
    {
        let m = MediaState {
            ports: ports_new(),
            channels: call_channels_new(),
            channel_calls: HashMap::new(),
            counted: HashSet::new(),
            rtp: RtpTracker::new(),
            audio_ready: false,
            completions: completions_new(),
        };
        proof {
            assert(m.channel_calls().dom() =~= Set::<u64>::empty());
        }
        m
    }

    /// The port of a call.
    pub fn port_of(&self, call: CallId) -> (r: Option<i32>)
        ensures
            r == (if self.ports().contains_key(call.num()) {
                Some(self.ports()[call.num()])
            } else {
                None
            }),
    {
        ports_get(&self.ports, call.get())
    }

    /// The channel of a call.
    pub fn channel_of(&self, call: CallId) -> (r: Option<u64>)
        ensures
            r == (if self.channels().contains_key(call.num()) {
                Some(self.channels()[call.num()])
            } else {
                None
            }),
    {
        call_channels_get(&self.channels, call.get())
    }

    /// The ports of the calls that are wired to a channel, without one call's own.
    pub fn ports_on(&self, channel: u64, but: CallId) -> (r: Vec<i32>)
        ensures
            other_ports(
                r@,
                calls_of(self.channel_calls(), channel),
                but.num(),
                self.ports(),
            ),
    {
        match self.channel_calls.get(&channel) {
            Some(set) => self.ports_of_others(set, but),
            None => {
                let none: CallSet = CallSet::new();
                self.ports_of_others(&none, but)
            },
        }
    }

    /// The calls whose audio is watched, each once.
    pub fn watched_calls(&self) -> (r: Vec<i32>)
        ensures
            r@.no_duplicates(),
            forall|c: i32| #[trigger] r@.contains(c) <==> self.rtp().contains_key(c),
    {
        self.rtp.tracked_calls()
    }

    /// Looks at every call whose audio is watched, given the packets of each: a call with new
    /// packets is noted, one without any for too long is returned and no longer watched.
    pub fn check_rtp_inactivity(
        &mut self,
        counts: &Vec<(i32, Option<u64>)>,
        cfg: &BridgeConfig,
        now: u64,
    ) -> (timed_out: Vec<(i32, u64)>)
        ensures
            rtp_checked(old(self).rtp(), final(self).rtp(), timed_out@, counts@, *cfg, now),
            final(self).ports() == old(self).ports(),
            final(self).channels() == old(self).channels(),
            final(self).channel_calls() == old(self).channel_calls(),
            final(self).counted() == old(self).counted(),
            final(self).ready() == old(self).ready(),
            final(self).waiting() == old(self).waiting(),
    {
        self.rtp.check_rtp_inactivity(counts, cfg, now)
    }

    /// How many calls have active media.
    pub fn active_media_call_count(&self) -> (n: usize)
        ensures
            n == self.counted().len(),
    {
        self.counted.len()
    }

    /// Whether a certificate may be reloaded: not while any call has active media.
    pub fn may_reload_tls(&self) -> (r: bool)
        ensures
            r == (self.counted().len() == 0),
    {
        self.counted.len() == 0
    }

    /// Drops the calls that waited for an audio thread that is no more.
    fn drop_waiting(&mut self)
        ensures
            final(self).waiting().len() == 0,
            final(self).ready() == old(self).ready(),
            same_but_audio(*old(self), *final(self)),
    {
        loop
            invariant
                self.ready() == old(self).ready(),
                same_but_audio(*old(self), *self),
            ensures
                self.waiting().len() == 0,
            decreases self.waiting().len(),
        {
            if completions_pop(&mut self.completions).is_none() {
                break;
            }
        }
    }

    /// The audio thread has handled its first frame: the calls that waited for it are handed
    /// out, in their order.
    pub fn first_frame_done(&mut self) -> (r: Vec<(i32, i32)>)
        ensures
            final(self).ready(),
            r@ == old(self).waiting(),
            final(self).waiting().len() == 0,
            same_but_audio(*old(self), *final(self)),
    {
        self.audio_ready = true;
        let mut r: Vec<(i32, i32)> = Vec::new();
        let ghost all = self.waiting();
        let ghost mut done: int = 0;
        proof {
            assert(all.subrange(0, all.len() as int) =~= all);
        }
        loop
            invariant
                0 <= done <= all.len(),
                all == old(self).waiting(),
                self.ready(),
                same_but_audio(*old(self), *self),
                r@ =~= all.take(done),
                self.waiting() == all.subrange(done, all.len() as int),
            decreases self.waiting().len(),
        {
            match completions_pop(&mut self.completions) {
                Some(e) => {
                    r.push(e);
                    proof {
                        assert(all.subrange(done, all.len() as int).drop_first() =~= all.subrange(
                            done + 1,
                            all.len() as int,
                        ));
                        done = done + 1;
                    }
                },
                None => {
                    proof {
                        assert(done == all.len());
                        assert(all.take(done) =~= all);
                    }
                    return r;
                },
            }
        }
    }

    /// A call's registration is to be completed: now, where the audio thread is ready (false is
    /// returned), or else once it is.
    pub fn queue_pending_channel_completion(&mut self, call: CallId, port: ConfPort) -> (queued:
        bool)
        ensures
            queued == !old(self).ready(),
            final(self).waiting() == (if queued {
                old(self).waiting().push((call.num(), port.num()))
            } else {
                old(self).waiting()
            }),
            final(self).ready() == old(self).ready(),
            same_but_audio(*old(self), *final(self)),
    {
        if self.audio_ready {
            return false;
        }
        completions_push(&mut self.completions, call.get(), port.get());
        true
    }

    /// Notes the channel of a call.
    pub fn set_channel(&mut self, call: CallId, channel: Snowflake)
        ensures
            final(self).channels() == old(self).channels().insert(call.num(), channel.id()),
            final(self).ports() == old(self).ports(),
            final(self).channel_calls() == old(self).channel_calls(),
            final(self).counted() == old(self).counted(),
            final(self).rtp() == old(self).rtp(),
            final(self).ready() == old(self).ready(),
            final(self).waiting() == old(self).waiting(),
    {
        call_channels_insert(&mut self.channels, call.get(), channel.get());
    }

    /// Forgets the channel of a call.
    pub fn clear_channel(&mut self, call: CallId)
        ensures
            final(self).channels() == old(self).channels().remove(call.num()),
            final(self).ports() == old(self).ports(),
            final(self).channel_calls() == old(self).channel_calls(),
            final(self).counted() == old(self).counted(),
            final(self).rtp() == old(self).rtp(),
            final(self).ready() == old(self).ready(),
            final(self).waiting() == old(self).waiting(),
    {
        call_channels_remove(&mut self.channels, call.get());
    }

    /// Notes that a call is wired to a channel.
    pub fn join_channel(&mut self, call: CallId, channel: Snowflake)
        ensures
            final(self).channel_calls() == old(self).channel_calls().insert(
                channel.id(),
                calls_of(old(self).channel_calls(), channel.id()).insert(call.num()),
            ),
            final(self).ports() == old(self).ports(),
            final(self).channels() == old(self).channels(),
            final(self).counted() == old(self).counted(),
            final(self).rtp() == old(self).rtp(),
            final(self).ready() == old(self).ready(),
            final(self).waiting() == old(self).waiting(),
    {
        let ghost before = self.channel_calls@;
        let mut set: CallSet = match self.channel_calls.remove(&channel.get()) {
            Some(s) => s,
            None => CallSet::new(),
        };
        set.insert(call);
        let ghost numbers = set@;
        self.channel_calls.insert(channel.get(), set);
        proof {
            assert(self.channel_calls() =~= sets_view(before).insert(channel.id(), numbers));
        }
    }

    /// The ports of the other calls of a channel.
    fn ports_of_others(&self, calls: &CallSet, call: CallId) -> (r: Vec<i32>)
        ensures
            other_ports(r@, calls@, call.num(), self.ports()),
    {
        let list: Vec<CallId> = calls.to_vec();
        let ghost order = call_numbers(list@);
        let mut r: Vec<i32> = Vec::new();
        let mut i: usize = 0;
        while i < list.len()
            invariant
                i <= list@.len(),
                order == call_numbers(list@),
                lists_other_ports(r@, order.take(i as int), call.num(), self.ports()),
            decreases list@.len() - i,
        {
            let c: CallId = list[i];
            let ghost before = r@;
            proof {
                assert(order.take(i + 1).drop_last() =~= order.take(i as int));
                assert(order.take(i + 1).last() == c.num());
            }
            if c.get() != call.get() {
                if let Some(p) = ports_get(&self.ports, c.get()) {
                    r.push(p);
                    proof {
                        assert(r@.drop_last() =~= before);
                    }
                }
            }
            i = i + 1;
        }
        proof {
            assert(order.take(order.len() as int) =~= order);
            assert(lists_other_ports(r@, order, call.num(), self.ports()));
        }
        r
    }

    /// The changes of the wiring where the port of a call on a channel changed.
    fn rewire(
        &self,
        call: CallId,
        channel: u64,
        slot: Option<i32>,
        old_port: i32,
        new_port: i32,
    ) -> (wires: Vec<Wire>)
        ensures
            wires_are(
                wires@,
                slot,
                calls_of(self.channel_calls(), channel),
                call.num(),
                self.ports(),
                old_port,
                new_port,
            ),
    {
        let mut wires: Vec<Wire> = Vec::new();
        if let Some(s) = slot {
            wires.push(Wire::Disconnect(s, old_port));
            wires.push(Wire::Disconnect(old_port, s));
            wires.push(Wire::Connect(s, new_port));
            wires.push(Wire::Connect(new_port, s));
        }
        let ghost first = match slot {
            Some(s) => rewired(s, old_port, new_port),
            None => Seq::empty(),
        };
        proof {
            assert(wires@ =~= first);
        }
        let others: Vec<i32> = self.ports_on(channel, call);
        let mut i: usize = 0;
        proof {
            assert(wires@ =~= first + all_rewired(others@.take(0), old_port, new_port));
        }
        while i < others.len()
            invariant
                i <= others@.len(),
                wires@ == first + all_rewired(others@.take(i as int), old_port, new_port),
            decreases others@.len() - i,
        {
            let o: i32 = others[i];
            wires.push(Wire::Disconnect(old_port, o));
            wires.push(Wire::Disconnect(o, old_port));
            wires.push(Wire::Connect(new_port, o));
            wires.push(Wire::Connect(o, new_port));
            i = i + 1;
            proof {
                assert(others@.take(i as int).drop_last() =~= others@.take(i - 1));
                assert(others@.take(i as int).last() == o);
                assert(wires@ =~= first + all_rewired(
                    others@.take(i as int),
                    old_port,
                    new_port,
                ));
            }
        }
        proof {
            assert(others@.take(others@.len() as int) =~= others@);
            assert(wires@ == first + all_rewired(others@, old_port, new_port));
        }
        wires
    }

    /// Takes a call out of the calls that are wired to a channel.
    fn leave_channel(&mut self, call: CallId, channel: u64)
        ensures
            final(self).channel_calls() == without_call(
                old(self).channel_calls(),
                channel,
                call.num(),
            ),
            final(self).ports() == old(self).ports(),
            final(self).channels() == old(self).channels(),
            final(self).counted() == old(self).counted(),
            final(self).rtp() == old(self).rtp(),
            final(self).ready() == old(self).ready(),
            final(self).waiting() == old(self).waiting(),
    {
        let ghost before = self.channel_calls@;
        let ghost view = sets_view(before);
        match self.channel_calls.remove(&channel) {
            None => {
                proof {
                    assert(self.channel_calls() =~= view);
                }
            },
            Some(s) => {
                let mut set: CallSet = s;
                if !set.contains(call) {
                    let ghost numbers = set@;
                    self.channel_calls.insert(channel, set);
                    proof {
                        assert(self.channel_calls() =~= view);
                    }
                    return;
                }
                set.remove(call);
                if set.is_empty() {
                    proof {
                        assert(self.channel_calls() =~= view.remove(channel));
                    }
                } else {
                    let ghost numbers = set@;
                    self.channel_calls.insert(channel, set);
                    proof {
                        assert(self.channel_calls() =~= view.insert(channel, numbers));
                    }
                }
            },
        }
    }

    /// The media of a call became active on a port; `slot` is the port of its channel, if that
    /// has one.
    ///
    /// Where the port changed the wiring follows it. A call that comes back from hold is taken
    /// out of its channel, so that its registration wires it anew. The first call has the audio
    /// thread started; what an earlier thread left behind is dropped.
    pub fn media_active(&mut self, call: CallId, port: ConfPort, slot: Option<i32>, now: u64) -> (s:
        ActiveStep)
        ensures
            activated(*old(self), *final(self), s, call.num(), port.num(), slot, now),
    {
        let old_port: Option<i32> = ports_get(&self.ports, call.get());
        ports_insert(&mut self.ports, call.get(), port.get());
        let channel: Option<u64> = call_channels_get(&self.channels, call.get());
        let mut wires: Vec<Wire> = Vec::new();
        if let Some(p) = old_port {
            if p != port.get() {
                if let Some(c) = channel {
                    wires = self.rewire(call, c, slot, p, port.get());
                }
            }
        }
        self.rtp.init_call_rtp_tracking(call, now);
        let none_before: bool = self.counted.len() == 0;
        let is_new: bool = self.counted.insert(call.get());
        let start_audio: bool = is_new && none_before;
        if start_audio {
            self.audio_ready = false;
            self.drop_waiting();
        }
        if is_new {
            if let Some(c) = channel {
                self.leave_channel(call, c);
            }
        } else {
            proof {
                assert(old(self).counted().insert(call.num()) =~= old(self).counted());
            }
        }
        let queued: bool = self.queue_pending_channel_completion(call, port);
        proof {
            if start_audio {
                assert(self.waiting() =~= seq![(call.num(), port.num())]);
            }
        }
        ActiveStep { wires, start_audio, complete_now: !queued }
    }

    /// A call was put on hold by this side: its media do not count. Returns whether the audio
    /// thread is to be stopped.
    pub fn local_hold(&mut self, call: CallId) -> (stop_audio: bool)
        ensures
            final(self).counted() == old(self).counted().remove(call.num()),
            stop_audio == (old(self).counted().contains(call.num()) && final(self).counted().len() == 0),
            final(self).ports() == old(self).ports(),
            final(self).channels() == old(self).channels(),
            final(self).channel_calls() == old(self).channel_calls(),
            final(self).rtp() == old(self).rtp(),
            final(self).ready() == (old(self).ready() && !stop_audio),
            final(self).waiting() == old(self).waiting(),
    {
        let was_counted: bool = self.counted.remove(&call.get());
        let stop_audio: bool = was_counted && self.counted.len() == 0;
        if stop_audio {
            self.audio_ready = false;
        }
        stop_audio
    }

    /// A call was put on hold by the other side: its wiring stays, but its audio is not watched.
    pub fn remote_hold(&mut self, call: CallId)
        ensures
            final(self).rtp() == old(self).rtp().remove(call.num()),
            final(self).counted() == old(self).counted(),
            final(self).ports() == old(self).ports(),
            final(self).channels() == old(self).channels(),
            final(self).channel_calls() == old(self).channel_calls(),
            final(self).ready() == old(self).ready(),
            final(self).waiting() == old(self).waiting(),
    {
        self.rtp.remove_call_rtp_tracking(call);
    }

    /// A call has ended. Its end is reported where its media counted, or where it has a
    /// channel, as a call on hold has.
    pub fn disconnected(&mut self, call: CallId) -> (s: DisconnectStep)
        ensures
            ended(*old(self), *final(self), s, call.num()),
    {
        self.rtp.remove_call_rtp_tracking(call);
        let was_counted: bool = self.counted.remove(&call.get());
        let report: bool = was_counted || call_channels_get(&self.channels, call.get()).is_some();
        let stop_audio: bool = report && self.counted.len() == 0;
        if stop_audio {
            self.audio_ready = false;
        }
        DisconnectStep { report, stop_audio }
    }
}

/// What the end of a call changes, and what follows.
pub open spec fn ended(before: MediaState, after: MediaState, s: DisconnectStep, call: i32) -> bool {
    &&& after.rtp() == before.rtp().remove(call)
    &&& after.counted() == before.counted().remove(call)
    &&& after.ports() == before.ports()
    &&& after.channels() == before.channels()
    &&& after.channel_calls() == before.channel_calls()
    &&& after.ready() == (before.ready() && !s.stop_audio)
    &&& after.waiting() == before.waiting()
    &&& s.report == (before.counted().contains(call) || before.channels().contains_key(call))
    &&& s.stop_audio == (s.report && after.counted().len() == 0)
}

/// A call whose media were active is reported when it ends, and leaves the calls that count as
/// they were. The audio thread that was started for it is stopped with it.
pub proof fn law_ending_undoes_activation(
    before: MediaState,
    active: MediaState,
    after: MediaState,
    s: ActiveStep,
    e: DisconnectStep,
    call: i32,
    port: i32,
    slot: Option<i32>,
    now: u64,
)
    requires
        activated(before, active, s, call, port, slot, now),
        ended(active, after, e, call),
        !before.counted().contains(call),
    ensures
        e.report,
        after.counted() == before.counted(),
        !after.rtp().contains_key(call),
        s.start_audio == e.stop_audio,
{
    assert(before.counted().insert(call).remove(call) =~= before.counted());
}

/// The first call waits for the audio thread that is started for it, and is the first that the
/// thread hands out: an earlier thread leaves nothing behind.
pub proof fn law_the_first_call_waits_for_its_audio_thread(
    before: MediaState,
    after: MediaState,
    s: ActiveStep,
    call: i32,
    port: i32,
    slot: Option<i32>,
    now: u64,
)
    requires
        activated(before, after, s, call, port, slot, now),
        before.counted().len() == 0,
        !before.counted().contains(call),
    ensures
        s.start_audio,
        !s.complete_now,
        !after.ready(),
        after.waiting() == seq![(call, port)],
{
}

/// The port is that of another call that is wired to the channel.
pub open spec fn is_port_of_other(
    port: i32,
    calls: Set<i32>,
    call: i32,
    ports: Map<i32, i32>,
) -> bool {
    exists|c: i32| #[trigger]
        calls.contains(c) && c != call && ports.contains_key(c) && ports[c] == port
}

/// The ports that are listed are those of other calls.
proof fn lemma_listed_ports(s: Seq<i32>, order: Seq<i32>, call: i32, ports: Map<i32, i32>, k: int)
    requires
        lists_other_ports(s, order, call, ports),
        0 <= k < s.len(),
    ensures
        is_port_of_other(s[k], order.to_set(), call, ports),
    decreases order.len(),
{
    let shorter = order.drop_last();
    if order.len() > 0 {
        assert forall|c: i32| shorter.to_set().contains(c) implies order.to_set().contains(c) by {
            let j = choose|j: int| 0 <= j < shorter.len() && shorter[j] == c;
            assert(order[j] == c);
        }
        if order.last() == call || !ports.contains_key(order.last()) {
            lemma_listed_ports(s, shorter, call, ports, k);
            let c = choose|c: i32| #[trigger]
                shorter.to_set().contains(c) && c != call && ports.contains_key(c) && ports[c]
                    == s[k];
            assert(order.to_set().contains(c));
        } else if k == s.len() - 1 {
            assert(order[order.len() - 1] == order.last());
            assert(order.to_set().contains(order.last()));
        } else {
            lemma_listed_ports(s.drop_last(), shorter, call, ports, k);
            let c = choose|c: i32| #[trigger]
                shorter.to_set().contains(c) && c != call && ports.contains_key(c) && ports[c]
                    == s[k];
            assert(order.to_set().contains(c));
        }
    }
}

/// Each change of a wiring is that of one of its ports.
proof fn lemma_wire_of_port(others: Seq<i32>, old_port: i32, new_port: i32, i: int) -> (k: int)
    requires
        0 <= i < all_rewired(others, old_port, new_port).len(),
    ensures
        0 <= k < others.len(),
        call_rewired(others[k], old_port, new_port).contains(
            all_rewired(others, old_port, new_port)[i],
        ),
    decreases others.len(),
{
    let before = all_rewired(others.drop_last(), old_port, new_port);
    let last = call_rewired(others.last(), old_port, new_port);
    if i < before.len() {
        let k = lemma_wire_of_port(others.drop_last(), old_port, new_port, i);
        k
    } else {
        assert(last[i - before.len()] == all_rewired(others, old_port, new_port)[i]);
        others.len() - 1
    }
}

/// Channels are kept apart: where the port of a call changes, it is wired to the port of its own
/// channel and to calls of that channel, and to nothing else.
pub proof fn law_channels_are_kept_apart(
    before: MediaState,
    after: MediaState,
    s: ActiveStep,
    call: i32,
    port: i32,
    slot: Option<i32>,
    now: u64,
    i: int,
)
    requires
        activated(before, after, s, call, port, slot, now),
        0 <= i < s.wires@.len(),
    ensures
        (slot is Some && rewired(slot->0, before.ports()[call], port).contains(s.wires@[i]))
            || exists|other: i32|
            is_port_of_other(
                other,
                calls_of(before.channel_calls(), before.channels()[call]),
                call,
                after.ports(),
            ) && (#[trigger] call_rewired(other, before.ports()[call], port)).contains(
                s.wires@[i],
            ),
{
    let old_port = before.ports()[call];
    let calls = calls_of(before.channel_calls(), before.channels()[call]);
    let first = match slot {
        Some(x) => rewired(x, old_port, port),
        None => Seq::empty(),
    };
    let others = choose|others: Seq<i32>|
        other_ports(others, calls, call, after.ports()) && s.wires@ == first
            + #[trigger] all_rewired(others, old_port, port);
    if i < first.len() {
        assert(rewired(slot->0, old_port, port)[i] == s.wires@[i]);
        assert(rewired(slot->0, old_port, port).contains(s.wires@[i]));
    } else {
        let k = lemma_wire_of_port(others, old_port, port, i - first.len());
        let order = choose|order: Seq<i32>|
            order.no_duplicates() && order.to_set() == calls && #[trigger] lists_other_ports(
                others,
                order,
                call,
                after.ports(),
            );
        lemma_listed_ports(others, order, call, after.ports(), k);
        assert(call_rewired(others[k], old_port, port).contains(s.wires@[i]));
    }
}

/// What media that became active change, and what follows.
pub open spec fn activated(
    before: MediaState,
    after: MediaState,
    s: ActiveStep,
    call: i32,
    port: i32,
    slot: Option<i32>,
    now: u64,
) -> bool {
    let is_new = !before.counted().contains(call);
    &&& after.ports() == before.ports().insert(call, port)
    &&& after.channels() == before.channels()
    &&& after.counted() == before.counted().insert(call)
    &&& after.rtp() == before.rtp().insert(call, (0u64, now))
    &&& after.ready() == (before.ready() && !s.start_audio)
    &&& s.complete_now == after.ready()
    &&& after.waiting() == (if s.complete_now {
        before.waiting()
    } else if s.start_audio {
        seq![(call, port)]
    } else {
        before.waiting().push((call, port))
    })
    &&& s.start_audio == (is_new && before.counted().len() == 0)
    &&& after.channel_calls() == (if is_new && before.channels().contains_key(call) {
        without_call(before.channel_calls(), before.channels()[call], call)
    } else {
        before.channel_calls()
    })
    &&& if before.ports().contains_key(call) && before.ports()[call] != port
        && before.channels().contains_key(call) {
        wires_are(
            s.wires@,
            slot,
            calls_of(before.channel_calls(), before.channels()[call]),
            call,
            after.ports(),
            before.ports()[call],
            port,
        )
    } else {
        s.wires@.len() == 0
    }
}

/// What follows a change of a call's media.
#[derive(Debug)]
pub enum MediaStep {
    /// Nothing.
    Nothing,
    /// The media are active.
    Active(ActiveStep),
    /// The call is put off the bridge. The audio thread is to be stopped where that is stated.
    Hold { stop_audio: bool },
}

impl MediaState {
    /// The media of a call changed. Active media on a port that is none change nothing.
    pub fn media_changed(
        &mut self,
        call: CallId,
        status: MediaStatus,
        port: ConfPort,
        slot: Option<i32>,
        now: u64,
    ) -> (s: MediaStep)
        ensures
            match status {
                MediaStatus::Active => if port.num() >= 0 {
                    s is Active && activated(
                        *old(self),
                        *final(self),
                        s->Active_0,
                        call.num(),
                        port.num(),
                        slot,
                        now,
                    )
                } else {
                    s is Nothing && same_media(*old(self), *final(self))
                },
                MediaStatus::LocalHold => s == (MediaStep::Hold {
                    stop_audio: old(self).counted().contains(call.num()) && final(
                        self).counted().len() == 0,
                }) && final(self).counted() == old(self).counted().remove(call.num()) && final(
                    self).rtp() == old(self).rtp() && final(self).ports() == old(self).ports()
                    && final(self).channels() == old(self).channels() && final(
                    self).channel_calls() == old(self).channel_calls() && final(self).ready() == (old(
                    self).ready() && !s->stop_audio) && final(self).waiting() == old(
                    self).waiting(),
                MediaStatus::RemoteHold => s is Nothing && final(self).rtp() == old(
                    self).rtp().remove(call.num()) && final(self).counted() == old(
                    self).counted() && final(self).ports() == old(self).ports() && final(
                    self).channels() == old(self).channels() && final(self).channel_calls() == old(
                    self).channel_calls() && final(self).ready() == old(self).ready() && final(
                    self).waiting() == old(self).waiting(),
                _ => s is Nothing && same_media(*old(self), *final(self)),
            },
    {
        match status {
            MediaStatus::Active => {
                if port.is_valid() {
                    MediaStep::Active(self.media_active(call, port, slot, now))
                } else {
                    MediaStep::Nothing
                }
            },
            MediaStatus::LocalHold => MediaStep::Hold { stop_audio: self.local_hold(call) },
            MediaStatus::RemoteHold => {
                self.remote_hold(call);
                MediaStep::Nothing
            },
            _ => MediaStep::Nothing,
        }
    }
}

/// The two states are the same.
pub open spec fn same_media(a: MediaState, b: MediaState) -> bool {
    same_but_audio(a, b) && a.ready() == b.ready() && a.waiting() == b.waiting()
}

/// What the SIP library knows of a call: its state and that of its media, if it knows it at all.
pub type CallReport = (i32, Option<(InvState, MediaStatus)>);

/// The report on a call; a call without one is not known to the library.
pub open spec fn report_on(reports: Seq<CallReport>, call: i32) -> Option<(InvState, MediaStatus)>
    decreases reports.len(),
{
    if reports.len() == 0 {
        None
    } else if reports.last().0 == call {
        reports.last().1
    } else {
        report_on(reports.drop_last(), call)
    }
}

fn find_report(reports: &Vec<CallReport>, call: i32) -> (r: Option<(InvState, MediaStatus)>)
    ensures
        r == report_on(reports@, call),
{
    let mut i: usize = reports.len();
    proof {
        assert(reports@.take(reports@.len() as int) =~= reports@);
    }
    while i > 0
        invariant
            i <= reports@.len(),
            report_on(reports@, call) == report_on(reports@.take(i as int), call),
        decreases i,
    {
        proof {
            assert(reports@.take(i as int).drop_last() =~= reports@.take(i - 1));
        }
        i = i - 1;
        if reports[i].0 == call {
            return reports[i].1;
        }
    }
    None
}

/// A call that counts is stale: the library does not know it, or it has ended, or its audio is
/// not watched though the other side has not put it on hold.
pub open spec fn is_stale(report: Option<(InvState, MediaStatus)>, watched: bool) -> bool {
    match report {
        None => true,
        Some((state, media)) => state == InvState::Disconnected || (!watched && media
            != MediaStatus::RemoteHold),
    }
}

impl MediaState {
    /// The calls that count, each once.
    pub fn counted_calls(&self) -> (r: Vec<i32>)
        ensures
            r@.no_duplicates(),
            r@.to_set() == self.counted(),
    {
        let mut r: Vec<i32> = Vec::new();
        let ghost all = self.counted.iter().remaining().unref();
        for k in it: self.counted.iter()
            invariant
                it.seq().unref() == all,
                it.seq().len() == all.len(),
                r@ =~= all.take(it.index() as int),
                all.no_duplicates(),
                all.to_set() == self.counted@,
        {
            r.push(*k);
        }
        proof {
            assert(all.take(all.len() as int) =~= all);
        }
        r
    }

    /// Takes stale calls out of those that count, given what the library knows of each.
    /// Returns how many there were, and whether the audio thread is to be stopped.
    pub fn validate_counted_calls(&mut self, reports: &Vec<CallReport>) -> (r: (usize, bool))
        ensures
            final(self).counted() == old(self).counted().filter(
                |c: i32|
                    !is_stale(report_on(reports@, c), old(self).rtp().contains_key(c)),
            ),
            forall|c: i32| #[trigger]
                final(self).rtp().contains_key(c) <==> old(self).rtp().contains_key(c) && !(old(
                    self).counted().contains(c) && is_stale(
                    report_on(reports@, c),
                    old(self).rtp().contains_key(c),
                )),
            forall|c: i32| #[trigger]
                final(self).rtp().contains_key(c) ==> final(self).rtp()[c] == old(self).rtp()[c],
            r.0 + final(self).counted().len() == old(self).counted().len(),
            r.1 == (r.0 > 0 && final(self).counted().len() == 0),
            final(self).ports() == old(self).ports(),
            final(self).channels() == old(self).channels(),
            final(self).channel_calls() == old(self).channel_calls(),
            final(self).ready() == (old(self).ready() && !r.1),
            final(self).waiting() == old(self).waiting(),
    {
        let calls: Vec<i32> = self.counted_calls();
        let ghost counted = self.counted();
        let ghost rtp = self.rtp();
        let ghost stale = |c: i32| is_stale(report_on(reports@, c), rtp.contains_key(c));
        let mut removed: usize = 0;
        let mut i: usize = 0;
        proof {
            calls@.unique_seq_to_set();
            assert(self.counted().finite());
        }
        while i < calls.len()
            invariant
                i <= calls@.len(),
                removed <= i,
                counted == old(self).counted(),
                rtp == old(self).rtp(),
                calls@.no_duplicates(),
                calls@.to_set() == counted,
                stale == (|c: i32| is_stale(report_on(reports@, c), rtp.contains_key(c))),
                self.counted().finite(),
                removed + self.counted().len() == counted.len(),
                forall|c: i32| #[trigger]
                    self.counted().contains(c) <==> counted.contains(c) && !(calls@.take(
                        i as int,
                    ).contains(c) && stale(c)),
                forall|c: i32| #[trigger]
                    self.rtp().contains_key(c) <==> rtp.contains_key(c) && !(calls@.take(
                        i as int,
                    ).contains(c) && stale(c)),
                forall|c: i32| #[trigger]
                    self.rtp().contains_key(c) ==> self.rtp()[c] == rtp[c],
                self.ports() == old(self).ports(),
                self.channels() == old(self).channels(),
                self.channel_calls() == old(self).channel_calls(),
                self.ready() == old(self).ready(),
                self.waiting() == old(self).waiting(),
            decreases calls@.len() - i,
        {
            let c: i32 = calls[i];
            let ghost seen = calls@.take(i as int);
            let ghost now_seen = calls@.take(i + 1);
            proof {
                assert(calls@.contains(c));
                assert(counted.contains(c));
                assert(!seen.contains(c)) by {
                    if seen.contains(c) {
                        let k = choose|k: int| 0 <= k < seen.len() && seen[k] == c;
                        assert(calls@[k] == calls@[i as int]);
                    }
                }
                assert forall|x: i32| #[trigger] now_seen.contains(x) <==> x == c || seen.contains(
                    x,
                ) by {
                    if seen.contains(x) {
                        let k = choose|k: int| 0 <= k < seen.len() && seen[k] == x;
                        assert(now_seen[k] == x);
                    }
                    if x == c {
                        assert(now_seen[i as int] == x);
                    }
                }
                assert(self.counted().contains(c));
                assert(self.rtp().contains_key(c) == rtp.contains_key(c));
            }
            let report: Option<(InvState, MediaStatus)> = find_report(reports, c);
            let watched: bool = self.rtp.tracks(CallId::new(c));
            let remove: bool = match report {
                None => true,
                Some((state, media)) => state == InvState::Disconnected || (!watched && media
                    != MediaStatus::RemoteHold),
            };
            if remove {
                self.counted.remove(&c);
                self.rtp.remove_call_rtp_tracking(CallId::new(c));
                removed = removed + 1;
            }
            i = i + 1;
        }
        proof {
            assert(calls@.take(calls@.len() as int) =~= calls@);
            assert(self.counted() =~= counted.filter(|c: i32| !stale(c))) by {
                assert forall|c: i32| self.counted().contains(c) <==> counted.contains(c) && !stale(
                    c,
                ) by {
                    assert(calls@.contains(c) <==> counted.contains(c)) by {
                        assert(calls@.to_set().contains(c) <==> calls@.contains(c));
                    }
                }
            }
            assert(counted.filter(|c: i32| !stale(c)) =~= counted.filter(
                |c: i32| !is_stale(report_on(reports@, c), rtp.contains_key(c)),
            ));
            assert forall|c: i32| #[trigger] self.rtp().contains_key(c) <==> rtp.contains_key(c)
                && !(counted.contains(c) && stale(c)) by {
                assert(calls@.to_set().contains(c) <==> calls@.contains(c));
            }
        }
        let stop_audio: bool = removed > 0 && self.counted.len() == 0;
        let ghost rtp_left = self.rtp();
        if stop_audio {
            self.audio_ready = false;
        }
        proof {
            assert(self.rtp() == rtp_left);
        }
        (removed, stop_audio)
    }
}

/// The slots of the SIP library whose calls are stuck: not confirmed after two minutes, or
/// disconnected and not freed.
pub fn zombie_slots(slots: &Vec<Option<(InvState, u64)>>) -> (r: Vec<usize>)
    ensures
        r@.no_duplicates(),
        forall|i: usize| #[trigger]
            r@.contains(i) <==> i < slots@.len() && is_zombie(slots@[i as int]),
{
    let mut r: Vec<usize> = Vec::new();
    let mut i: usize = 0;
    while i < slots.len()
        invariant
            i <= slots@.len(),
            r@.no_duplicates(),
            forall|k: usize| #[trigger]
                r@.contains(k) <==> k < i && is_zombie(slots@[k as int]),
        decreases slots@.len() - i,
    {
        let stuck: bool = match &slots[i] {
            None => false,
            Some((state, age)) => *state == InvState::Disconnected || (*state
                != InvState::Confirmed && *age > 120),
        };
        if stuck {
            let ghost before = r@;
            r.push(i);
            proof {
                let now = r@;
                assert(!before.contains(i));
                assert forall|k: usize| #[trigger] now.contains(k) <==> k == i || before.contains(
                    k,
                ) by {
                    if before.contains(k) {
                        let a = choose|a: int| 0 <= a < before.len() && before[a] == k;
                        assert(now[a] == k);
                    }
                    if k == i {
                        assert(now[before.len() as int] == k);
                    }
                }
                assert forall|a: int, b: int|
                    0 <= a < now.len() && 0 <= b < now.len() && a != b implies now[a] != now[b] by {
                    if a == before.len() {
                        assert(before.contains(before[b]));
                    } else if b == before.len() {
                        assert(before.contains(before[a]));
                    }
                }
            }
        }
        i = i + 1;
    }
    r
}

/// The call of a slot is stuck.
pub open spec fn is_zombie(slot: Option<(InvState, u64)>) -> bool {
    match slot {
        None => false,
        Some((state, age)) => state == InvState::Disconnected || (state != InvState::Confirmed
            && age > 120),
    }
}

/// The calls of a channel.
pub open spec fn calls_of(m: Map<u64, Set<i32>>, channel: u64) -> Set<i32> {
    if m.contains_key(channel) {
        m[channel]
    } else {
        Set::empty()
    }
}

/// The two states differ in the audio thread and the calls that wait for it, at most.
pub open spec fn same_but_audio(a: MediaState, b: MediaState) -> bool {
    &&& a.ports() == b.ports()
    &&& a.channels() == b.channels()
    &&& a.channel_calls() == b.channel_calls()
    &&& a.counted() == b.counted()
    &&& a.rtp() == b.rtp()
}

proof fn lemma_every_port_is_listed(
    s: Seq<i32>,
    order: Seq<i32>,
    call: i32,
    ports: Map<i32, i32>,
    c: i32,
)
    requires
        lists_other_ports(s, order, call, ports),
        order.contains(c),
        c != call,
        ports.contains_key(c),
    ensures
        s.contains(ports[c]),
    decreases order.len(),
{
    let fewer = order.drop_last();
    let j = choose|j: int| 0 <= j < order.len() && order[j] == c;
    assert(order[order.len() - 1] == order.last());
    if order.last() == call || !ports.contains_key(order.last()) {
        assert(fewer[j] == c);
        lemma_every_port_is_listed(s, fewer, call, ports, c);
    } else if order.last() == c {
        assert(s[s.len() - 1] == ports[c]);
    } else {
        assert(fewer[j] == c);
        lemma_every_port_is_listed(s.drop_last(), fewer, call, ports, c);
        let k = choose|k: int| 0 <= k < s.drop_last().len() && s.drop_last()[k] == ports[c];
        assert(s[k] == ports[c]);
    }
}

proof fn lemma_every_port_is_rewired(others: Seq<i32>, old_port: i32, new_port: i32, k: int)
    requires
        0 <= k < others.len(),
    ensures
        ({
            let wires = all_rewired(others, old_port, new_port);
            &&& wires.contains(Wire::Disconnect(old_port, others[k]))
            &&& wires.contains(Wire::Disconnect(others[k], old_port))
            &&& wires.contains(Wire::Connect(new_port, others[k]))
            &&& wires.contains(Wire::Connect(others[k], new_port))
        }),
    decreases others.len(),
{
    let fewer = others.drop_last();
    let wires = all_rewired(others, old_port, new_port);
    let n = all_rewired(fewer, old_port, new_port).len() as int;
    if k == others.len() - 1 {
        let last = call_rewired(others[k], old_port, new_port);
        assert(wires[n] == last[0] && wires[n + 1] == last[1] && wires[n + 2] == last[2] && wires[n
            + 3] == last[3]);
    } else {
        lemma_every_port_is_rewired(fewer, old_port, new_port, k);
        let before = all_rewired(fewer, old_port, new_port);
        assert forall|w: Wire| before.contains(w) implies #[trigger] wires.contains(w) by {
            let i = choose|i: int| 0 <= i < before.len() && before[i] == w;
            assert(wires[i] == w);
        }
        assert(fewer[k] == others[k]);
    }
}

/// Where the port of a call changes, every wire follows it: the port of its channel and those of
/// all other calls there are taken off the old port and put on the new one, both ways.
pub proof fn law_every_wire_follows_the_port(
    before: MediaState,
    after: MediaState,
    s: ActiveStep,
    call: i32,
    port: i32,
    slot: Option<i32>,
    now: u64,
    other: i32,
)
    requires
        activated(before, after, s, call, port, slot, now),
        before.ports().contains_key(call),
        before.ports()[call] != port,
        before.channels().contains_key(call),
    ensures
        ({
            let was = before.ports()[call];
            let wires = s.wires@;
            let joined = before.channel_calls().contains_key(before.channels()[call])
                && before.channel_calls()[before.channels()[call]].contains(other);
            &&& slot is Some ==> wires.contains(Wire::Connect(slot->0, port)) && wires.contains(
                Wire::Connect(port, slot->0),
            ) && wires.contains(Wire::Disconnect(slot->0, was)) && wires.contains(
                Wire::Disconnect(was, slot->0),
            )
            &&& joined && other != call && after.ports().contains_key(other) ==> {
                let p = after.ports()[other];
                wires.contains(Wire::Connect(port, p)) && wires.contains(Wire::Connect(p, port))
                    && wires.contains(Wire::Disconnect(was, p)) && wires.contains(
                    Wire::Disconnect(p, was),
                )
            }
        }),
{
    let was = before.ports()[call];
    let wires = s.wires@;
    let calls = calls_of(before.channel_calls(), before.channels()[call]);
    let first = match slot {
        Some(p) => rewired(p, was, port),
        None => Seq::empty(),
    };
    let others = choose|others: Seq<i32>|
        other_ports(others, calls, call, after.ports()) && wires == first + #[trigger] all_rewired(
            others,
            was,
            port,
        );
    let rest = all_rewired(others, was, port);
    if slot is Some {
        assert(wires[0] == first[0] && wires[1] == first[1] && wires[2] == first[2] && wires[3]
            == first[3]);
    }
    if calls.contains(other) && other != call && after.ports().contains_key(other) {
        let order = choose|order: Seq<i32>|
            order.no_duplicates() && order.to_set() == calls && #[trigger] lists_other_ports(
                others,
                order,
                call,
                after.ports(),
            );
        assert(order.to_set().contains(other));
        lemma_every_port_is_listed(others, order, call, after.ports(), other);
        let k = choose|k: int| 0 <= k < others.len() && others[k] == after.ports()[other];
        lemma_every_port_is_rewired(others, was, port, k);
        assert forall|w: Wire| rest.contains(w) implies #[trigger] wires.contains(w) by {
            let i = choose|i: int| 0 <= i < rest.len() && rest[i] == w;
            assert(wires[first.len() + i] == w);
        }
    }
}

/// What active media change: the call has its port and counts, and its audio is watched from now
/// on without a packet. No other call changes. The audio thread is started for the first call that
/// counts, and for no other; a call waits for the thread unless it runs.
pub proof fn law_what_active_media_change(
    before: MediaState,
    after: MediaState,
    s: ActiveStep,
    call: i32,
    port: i32,
    slot: Option<i32>,
    now: u64,
    other: i32,
)
    requires
        activated(before, after, s, call, port, slot, now),
    ensures
        after.ports().contains_key(call) && after.ports()[call] == port,
        after.counted().contains(call),
        after.rtp().contains_key(call) && after.rtp()[call] == (0u64, now),
        other != call ==> {
            &&& after.ports().contains_key(other) <==> before.ports().contains_key(other)
            &&& after.ports()[other] == before.ports()[other]
            &&& after.counted().contains(other) <==> before.counted().contains(other)
            &&& after.rtp().contains_key(other) <==> before.rtp().contains_key(other)
            &&& after.rtp()[other] == before.rtp()[other]
        },
        after.channels() == before.channels(),
        s.start_audio <==> !before.counted().contains(call) && before.counted().len() == 0,
        s.complete_now <==> before.ready() && !s.start_audio,
        !s.complete_now ==> after.waiting().len() > 0 && after.waiting().last() == (call, port),
        !(before.ports().contains_key(call) && before.channels().contains_key(call)
            && before.ports()[call] != port) ==> s.wires@.len() == 0,
{
}

/// A call that leaves a channel leaves it to the others there: they stay, the call does not, a
/// channel without calls is gone, and every other channel is as it was.
pub proof fn law_a_call_leaves_its_channel_to_the_others(
    m: Map<u64, Set<i32>>,
    channel: u64,
    call: i32,
    other_channel: u64,
    other: i32,
)
    ensures
        ({
            let after = without_call(m, channel, call);
            &&& !calls_of(after, channel).contains(call)
            &&& other != call ==> (calls_of(after, channel).contains(other) <==> calls_of(
                m,
                channel,
            ).contains(other))
            &&& other_channel != channel ==> (after.contains_key(other_channel) <==> m.contains_key(
                other_channel,
            )) && after[other_channel] == m[other_channel]
            &&& m.contains_key(channel) && m[channel].contains(call) && after.contains_key(channel)
                ==> after[channel] != Set::<i32>::empty()
        }),
{
    if m.contains_key(channel) && m[channel].contains(call) {
        let left = m[channel].remove(call);
        assert(left.contains(other) <==> other != call && m[channel].contains(other));
    }
}

/// What the end of a call changes: its audio is no longer watched and it no longer counts. Its end
/// is reported where it counted or had a channel, and the audio thread is stopped where no call that
/// counts is left. Nothing else changes.
pub proof fn law_what_the_end_of_a_call_changes(
    before: MediaState,
    after: MediaState,
    s: DisconnectStep,
    call: i32,
    other: i32,
)
    requires
        ended(before, after, s, call),
    ensures
        !after.rtp().contains_key(call) && !after.counted().contains(call),
        other != call ==> (after.counted().contains(other) <==> before.counted().contains(other))
            && (after.rtp().contains_key(other) <==> before.rtp().contains_key(other))
            && after.rtp()[other] == before.rtp()[other],
        s.report <==> before.counted().contains(call) || before.channels().contains_key(call),
        s.stop_audio <==> s.report && after.counted().len() == 0,
        same_but_audio(before, after) || before.counted().contains(call)
            || before.rtp().contains_key(call),
        after.ports() == before.ports() && after.channels() == before.channels()
            && after.channel_calls() == before.channel_calls(),
        after.ready() <==> before.ready() && !s.stop_audio,
{
    if !before.counted().contains(call) && !before.rtp().contains_key(call) {
        assert(before.counted().remove(call) =~= before.counted());
        assert(before.rtp().remove(call) =~= before.rtp());
    }
}

/// The last report on a call is what is known of it, wherever it stands; a call without one is not
/// known.
pub proof fn law_the_last_report_counts(reports: Seq<CallReport>, call: i32, k: int)
    requires
        -1 <= k < reports.len(),
        k >= 0 ==> reports[k].0 == call,
        forall|j: int| k < j < reports.len() ==> (#[trigger] reports[j]).0 != call,
    ensures
        k >= 0 ==> report_on(reports, call) == reports[k].1,
        k < 0 ==> report_on(reports, call) is None,
    decreases reports.len(),
{
    if reports.len() > 0 {
        let last = reports.len() - 1;
        assert(reports[last] == reports.last());
        if k < last {
            let fewer = reports.drop_last();
            assert forall|j: int| k < j < fewer.len() implies (#[trigger] fewer[j]).0 != call by {
                assert(fewer[j] == reports[j]);
            }
            law_the_last_report_counts(fewer, call, k);
        }
    }
}

/// Which calls are stale, and which slots are stuck. A call that the library knows, that has not
/// ended, and that is watched or put on hold by the other side is not stale; any other is. A slot is
/// stuck where its call has ended, at any age, or is not confirmed after more than two minutes.
pub proof fn law_which_calls_are_stale(state: InvState, media: MediaStatus, watched: bool, age: u64)
    ensures
        is_stale(None, watched),
        is_stale(Some((state, media)), watched) <==> state == InvState::Disconnected || (!watched
            && media != MediaStatus::RemoteHold),
        !is_zombie(None),
        is_zombie(Some((state, age))) <==> state == InvState::Disconnected || (age >= 121 && state
            != InvState::Confirmed),
{
}

/// Where the media are the same nothing of them has changed: no port, channel, count, packet or call
/// that waits.
pub proof fn law_nothing_has_changed(a: MediaState, b: MediaState, call: i32)
    requires
        same_media(a, b),
    ensures
        a.ports().contains_key(call) <==> b.ports().contains_key(call),
        a.ports()[call] == b.ports()[call],
        a.channels().contains_key(call) <==> b.channels().contains_key(call),
        a.channels()[call] == b.channels()[call],
        a.channel_calls() == b.channel_calls(),
        a.counted().contains(call) <==> b.counted().contains(call),
        a.rtp().contains_key(call) <==> b.rtp().contains_key(call),
        a.rtp()[call] == b.rtp()[call],
        a.ready() == b.ready(),
        a.waiting() == b.waiting(),
{
}

} // verus!
