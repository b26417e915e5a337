//! What the bridge keeps: bridges, calls, bridges in the making and outbound requests.

use crate::config::{copy_opt, opt_text};
use crate::routing::OutboundCallRequest;
use crate::services::snowflake::Snowflake;
use crate::sip::types::CallId;
use vstd::prelude::*;
use vstd::string::*;

verus! {

/// A set of calls.
#[derive(Debug)]
pub struct CallSet {
    items: Vec<CallId>,
}

/// The numbers of calls.
pub open spec fn call_numbers(s: Seq<CallId>) -> Seq<i32> {
    s.map_values(|c: CallId| c.num())
}

impl CallSet {
    /// The numbers of the calls.
    pub closed spec fn view(&self) -> Set<i32> {
        call_numbers(self.items@).to_set()
    }

    #[verifier::type_invariant]
    spec fn distinct(&self) -> bool {
        call_numbers(self.items@).no_duplicates()
    }

    /// No call.
    pub fn new() -> (s: Self)
        ensures
            s@ == Set::<i32>::empty(),
    {
        let s = CallSet { items: Vec::new() };
        proof {
            assert(s@ =~= Set::<i32>::empty());
        }
        s
    }

    /// Where a call stands.
    fn position(&self, call: CallId) -> (r: Option<usize>)
        ensures
            match r {
                Some(i) => i < self.items@.len() && self.items@[i as int].num() == call.num(),
                None => forall|i: int|
                    0 <= i < self.items@.len() ==> (#[trigger] self.items@[i]).num() != call.num(),
            },
    {
        let mut i: usize = 0;
        while i < self.items.len()
            invariant
                i <= self.items@.len(),
                forall|j: int|
                    0 <= j < i ==> (#[trigger] self.items@[j]).num() != call.num(),
            decreases self.items@.len() - i,
        {
            if self.items[i].get() == call.get() {
                return Some(i);
            }
            i = i + 1;
        }
        None
    }

    /// Whether a call belongs to the set.
    pub fn contains(&self, call: CallId) -> (r: bool)
        ensures
            r == self@.contains(call.num()),
    {
        match self.position(call) {
            Some(i) => {
                proof {
                    assert(call_numbers(self.items@)[i as int] == call.num());
                }
                true
            },
            None => {
                proof {
                    if self@.contains(call.num()) {
                        let ns = call_numbers(self.items@);
                        let k = choose|k: int| 0 <= k < ns.len() && ns[k] == call.num();
                        assert(self.items@[k].num() == call.num());
                    }
                }
                false
            },
        }
    }

    /// Adds a call.
    pub fn insert(&mut self, call: CallId)
        ensures
            final(self)@ == old(self)@.insert(call.num()),
    {
        proof {
            use_type_invariant(&*self);
        }
        if self.contains(call) {
            proof {
                assert(self@.insert(call.num()) =~= self@);
            }
            return;
        }
        let ghost before = call_numbers(self.items@);
        let mut items: Vec<CallId> = self.copy_items();
        items.push(call);
        proof {
            assert(call_numbers(items@) =~= before.push(call.num()));
            assert(!before.contains(call.num()));
            let after = before.push(call.num());
            assert(after.to_set() =~= before.to_set().insert(call.num())) by {
                assert forall|n: i32| after.contains(n) <==> n == call.num() || before.contains(n) by {
                    if before.contains(n) {
                        let k = choose|k: int| 0 <= k < before.len() && before[k] == n;
                        assert(after[k] == n);
                    }
                    if n == call.num() {
                        assert(after[before.len() as int] == n);
                    }
                }
            }
        }
        *self = CallSet { items };
    }

    fn copy_items(&self) -> (r: Vec<CallId>)
        ensures
            r@ == self.items@,
    {
        let mut r: Vec<CallId> = Vec::new();
        let mut i: usize = 0;
        while i < self.items.len()
            invariant
                i <= self.items@.len(),
                r@ =~= self.items@.take(i as int),
            decreases self.items@.len() - i,
        {
            r.push(self.items[i]);
            i = i + 1;
        }
        r
    }

    /// Removes a call.
    pub fn remove(&mut self, call: CallId)
        ensures
            final(self)@ == old(self)@.remove(call.num()),
    {
        proof {
            use_type_invariant(&*self);
        }
        let ghost before = call_numbers(self.items@);
        let mut kept: Vec<CallId> = Vec::new();
        let mut i: usize = 0;
        while i < self.items.len()
            invariant
                i <= self.items@.len(),
                before == call_numbers(self.items@),
                before.no_duplicates(),
                call_numbers(kept@).no_duplicates(),
                forall|n: i32| #[trigger]
                    call_numbers(kept@).contains(n) <==> n != call.num() && before.take(
                        i as int,
                    ).contains(n),
            decreases self.items@.len() - i,
        {
            let c: CallId = self.items[i];
            let ghost seen = before.take(i as int);
            let ghost now = before.take(i + 1);
            let ghost kept_before = call_numbers(kept@);
            proof {
                assert(now =~= seen.push(c.num()));
                assert(before[i as int] == c.num());
                assert(!seen.contains(c.num())) by {
                    if seen.contains(c.num()) {
                        let k = choose|k: int| 0 <= k < seen.len() && seen[k] == c.num();
                        assert(before[k] == before[i as int]);
                    }
                }
                assert forall|n: i32| now.contains(n) <==> n == c.num() || seen.contains(n) by {
                    if seen.contains(n) {
                        let k = choose|k: int| 0 <= k < seen.len() && seen[k] == n;
                        assert(now[k] == n);
                    }
                    if n == c.num() {
                        assert(now[i as int] == n);
                    }
                }
            }
            if c.get() != call.get() {
                kept.push(c);
                proof {
                    let after = call_numbers(kept@);
                    assert(after =~= kept_before.push(c.num()));
                    assert forall|n: i32| #[trigger]
                        after.contains(n) <==> n == c.num() || kept_before.contains(n) by {
                        if kept_before.contains(n) {
                            let k = choose|k: int|
                                0 <= k < kept_before.len() && kept_before[k] == n;
                            assert(after[k] == n);
                        }
                        if n == c.num() {
                            assert(after[kept_before.len() as int] == n);
                        }
                    }
                    assert(!kept_before.contains(c.num()));
                    assert(after.no_duplicates()) by {
                        assert forall|a: int, b: int|
                            0 <= a < after.len() && 0 <= b < after.len() && a != b implies after[a]
                            != after[b] by {
                            if a == kept_before.len() {
                                assert(kept_before.contains(kept_before[b]));
                            } else if b == kept_before.len() {
                                assert(kept_before.contains(kept_before[a]));
                            }
                        }
                    }
                }
            }
            i = i + 1;
        }
        proof {
            assert(before.take(before.len() as int) =~= before);
            assert(call_numbers(kept@).to_set() =~= self@.remove(call.num())) by {
                assert forall|n: i32| call_numbers(kept@).to_set().contains(n) == self@.remove(
                    call.num(),
                ).contains(n) by {
                    assert(call_numbers(kept@).contains(n) == (n != call.num() && before.contains(
                        n,
                    )));
                }
            }
        }
        *self = CallSet { items: kept };
    }

    /// How many calls there are.
    pub fn len(&self) -> (n: usize)
        ensures
            n == self@.len(),
            self@.finite(),
    {
        proof {
            use_type_invariant(self);
            call_numbers(self.items@).unique_seq_to_set();
        }
        self.items.len()
    }

    /// Whether there is no call.
    pub fn is_empty(&self) -> (r: bool)
        ensures
            r == (self@ == Set::<i32>::empty()),
    {
        let r: bool = self.items.len() == 0;
        proof {
            if r {
                assert(self@ =~= Set::<i32>::empty());
            } else {
                assert(call_numbers(self.items@)[0] == self.items@[0].num());
                assert(self@.contains(self.items@[0].num()));
            }
        }
        r
    }

    /// The calls, each once.
    pub fn to_vec(&self) -> (r: Vec<CallId>)
        ensures
            call_numbers(r@).no_duplicates(),
            call_numbers(r@).to_set() == self@,
    {
        proof {
            use_type_invariant(self);
        }
        self.copy_items()
    }

    /// A copy.
    pub fn copy(&self) -> (r: Self)
        ensures
            r@ == self@,
    {
        proof {
            use_type_invariant(self);
        }
        CallSet { items: self.copy_items() }
    }
}

/// A bridge to a voice channel, shared by the calls on it.
#[derive(Debug)]
pub struct ChannelBridge {
    pub guild_id: Snowflake,
    /// The calls on the bridge.
    pub sip_calls: CallSet,
    pub bot_token: String,
    /// When a call last joined, in milliseconds.
    pub last_call_time: u64,
    /// When the bridge was made, in milliseconds.
    pub created_at: u64,
    /// How often the bridge was reconnected.
    pub reconnect_attempts: u32,
    /// When the bridge was last reconnected, in milliseconds.
    pub last_reconnect_at: Option<u64>,
}

/// What a bridge is.
pub struct BridgeFacts {
    pub guild: u64,
    pub calls: Set<i32>,
    pub token: Seq<char>,
    pub last_call: u64,
    pub created: u64,
    pub attempts: u32,
    pub last_reconnect: Option<u64>,
}

impl View for ChannelBridge {
    type V = BridgeFacts;

    open spec fn view(&self) -> BridgeFacts {
        BridgeFacts {
            guild: self.guild_id.id(),
            calls: self.sip_calls@,
            token: self.bot_token@,
            last_call: self.last_call_time,
            created: self.created_at,
            attempts: self.reconnect_attempts,
            last_reconnect: self.last_reconnect_at,
        }
    }
}

impl ChannelBridge {
    /// A copy.
    pub fn copy(&self) -> (r: Self)
        ensures
            r@ == self@,
    {
        ChannelBridge {
            guild_id: self.guild_id,
            sip_calls: self.sip_calls.copy(),
            bot_token: self.bot_token.clone(),
            last_call_time: self.last_call_time,
            created_at: self.created_at,
            reconnect_attempts: self.reconnect_attempts,
            last_reconnect_at: self.last_reconnect_at,
        }
    }
}

/// What is known of a call.
#[derive(Debug)]
pub struct SipCallInfo {
    /// The voice channel that the call is on; none while it is being set up.
    pub channel_id: Option<Snowflake>,
    pub user_id: Option<String>,
    pub guild_id: Option<Snowflake>,
    /// The name of the outbound request that made the call.
    pub tracking_id: Option<String>,
}

/// What a call is.
pub struct CallFacts {
    pub channel: Option<u64>,
    pub user: Option<Seq<char>>,
    pub guild: Option<u64>,
    pub tracking: Option<Seq<char>>,
}

/// The number of an optional identifier.
pub open spec fn opt_id(s: Option<Snowflake>) -> Option<u64> {
    match s {
        Some(x) => Some(x.id()),
        None => None,
    }
}

impl View for SipCallInfo {
    type V = CallFacts;

    open spec fn view(&self) -> CallFacts {
        CallFacts {
            channel: opt_id(self.channel_id),
            user: opt_text(self.user_id),
            guild: opt_id(self.guild_id),
            tracking: opt_text(self.tracking_id),
        }
    }
}

/// A call of which nothing is known.
pub open spec fn blank_call() -> CallFacts {
    CallFacts { channel: None, user: None, guild: None, tracking: None }
}

impl SipCallInfo {
    /// A copy.
    pub fn copy(&self) -> (r: Self)
        ensures
            r@ == self@,
    {
        SipCallInfo {
            channel_id: self.channel_id,
            user_id: copy_opt(&self.user_id),
            guild_id: self.guild_id,
            tracking_id: copy_opt(&self.tracking_id),
        }
    }

    /// A call of which nothing is known.
    pub fn blank() -> (r: Self)
        ensures
            r@ == blank_call(),
    {
        SipCallInfo { channel_id: None, user_id: None, guild_id: None, tracking_id: None }
    }
}

/// What an outbound request asks.
pub struct RequestFacts {
    pub call_id: Seq<char>,
    pub discord_username: Seq<char>,
    pub guild_id: Seq<char>,
    pub channel_id: Seq<char>,
    pub bot_token: Seq<char>,
    pub caller_username: Seq<char>,
    pub sip_uri: Option<Seq<char>>,
    pub created_at: u64,
}

impl View for OutboundCallRequest {
    type V = RequestFacts;

    open spec fn view(&self) -> RequestFacts {
        RequestFacts {
            call_id: self.call_id@,
            discord_username: self.discord_username@,
            guild_id: self.guild_id@,
            channel_id: self.channel_id@,
            bot_token: self.bot_token@,
            caller_username: self.caller_username@,
            sip_uri: opt_text(self.sip_uri),
            created_at: self.created_at,
        }
    }
}

/// A concurrent map of the `dashmap` crate.
#[verifier::external_type_specification]
#[verifier::external_body]
#[verifier::reject_recursive_types(K)]
#[verifier::reject_recursive_types(V)]
#[verifier::reject_recursive_types(S)]
pub struct ExDashMap<K, V, S>(dashmap::DashMap<K, V, S>);

/// A concurrent set of the `dashmap` crate.
#[verifier::external_type_specification]
#[verifier::external_body]
#[verifier::reject_recursive_types(K)]
#[verifier::reject_recursive_types(S)]
pub struct ExDashSet<K, S>(dashmap::DashSet<K, S>);

/// The bridges, by the numbers of their channels.
pub type BridgeMap = dashmap::DashMap<u64, ChannelBridge>;

/// The calls, by their numbers.
pub type CallMap = dashmap::DashMap<i32, SipCallInfo>;

/// The outbound requests, by their names.
pub type RequestMap = dashmap::DashMap<String, OutboundCallRequest>;

/// The channels whose bridges are in the making.
pub type ChannelSet = dashmap::DashSet<u64>;

/// What a map of bridges holds.
pub uninterp spec fn held_bridges(m: BridgeMap) -> Map<u64, BridgeFacts>;

/// What a map of calls holds.
pub uninterp spec fn held_calls(m: CallMap) -> Map<i32, CallFacts>;

/// What a map of requests holds.
pub uninterp spec fn held_requests(m: RequestMap) -> Map<Seq<char>, RequestFacts>;

/// What a set of channels holds.
pub uninterp spec fn held_channels(s: ChannelSet) -> Set<u64>;

/// `dashmap::DashMap::new`: a map of bridges that holds nothing.
#[verifier::external_body]
pub(crate) fn bridges_new() -> (m: BridgeMap)
    ensures
        held_bridges(m).dom() == Set::<u64>::empty(),
{
    dashmap::DashMap::new()
}

/// `dashmap::DashMap::contains_key`: whether there is a bridge to the channel.
#[verifier::external_body]
pub(crate) fn bridges_contain(m: &BridgeMap, channel: u64) -> (r: bool)
    ensures
        r == held_bridges(*m).contains_key(channel),
{
    m.contains_key(&channel)
}

/// `dashmap::DashMap::insert`: the channel has the bridge, in place of any other.
#[verifier::external_body]
pub(crate) fn bridges_insert(m: &mut BridgeMap, channel: u64, bridge: ChannelBridge)
    ensures
        held_bridges(*final(m)) == held_bridges(*old(m)).insert(channel, bridge@),
{
    m.insert(channel, bridge);
}

/// `dashmap::DashMap::remove`: takes the bridge of the channel out, if there is one.
#[verifier::external_body]
pub(crate) fn bridges_remove(m: &mut BridgeMap, channel: u64) -> (r: Option<ChannelBridge>)
    ensures
        held_bridges(*final(m)) == held_bridges(*old(m)).remove(channel),
        r is Some <==> held_bridges(*old(m)).contains_key(channel),
        r is Some ==> (r->0)@ == held_bridges(*old(m))[channel],
{
    m.remove(&channel).map(|entry| entry.1)
}

/// `dashmap::DashMap::get`: a copy of the bridge of the channel, if there is one.
#[verifier::external_body]
pub(crate) fn bridges_get(m: &BridgeMap, channel: u64) -> (r: Option<ChannelBridge>)
    ensures
        r is Some <==> held_bridges(*m).contains_key(channel),
        r is Some ==> (r->0)@ == held_bridges(*m)[channel],
{
    m.get(&channel).map(|entry| ChannelBridge::copy(entry.value()))
}

/// `dashmap::DashMap::iter`: the channels that have bridges, each once, in an order that is not
/// stated.
#[verifier::external_body]
pub(crate) fn bridges_keys(m: &BridgeMap) -> (r: Vec<u64>)
    ensures
        r@.no_duplicates(),
        forall|c: u64| #[trigger] r@.contains(c) <==> held_bridges(*m).contains_key(c),
{
    m.iter().map(|entry| *entry.key()).collect()
}

/// `dashmap::DashMap::new`: a map of calls that holds nothing.
#[verifier::external_body]
pub(crate) fn calls_new() -> (m: CallMap)
    ensures
        held_calls(m).dom() == Set::<i32>::empty(),
{
    dashmap::DashMap::new()
}

/// `dashmap::DashMap::contains_key`: whether the call is known.
#[verifier::external_body]
pub(crate) fn calls_contain(m: &CallMap, call: i32) -> (r: bool)
    ensures
        r == held_calls(*m).contains_key(call),
{
    m.contains_key(&call)
}

/// `dashmap::DashMap::insert`: the call is known as stated, and not otherwise.
#[verifier::external_body]
pub(crate) fn calls_insert(m: &mut CallMap, call: i32, info: SipCallInfo)
    ensures
        held_calls(*final(m)) == held_calls(*old(m)).insert(call, info@),
{
    m.insert(call, info);
}

/// `dashmap::DashMap::remove`: takes the call out, if it is known.
#[verifier::external_body]
pub(crate) fn calls_remove(m: &mut CallMap, call: i32) -> (r: Option<SipCallInfo>)
    ensures
        held_calls(*final(m)) == held_calls(*old(m)).remove(call),
        r is Some <==> held_calls(*old(m)).contains_key(call),
        r is Some ==> (r->0)@ == held_calls(*old(m))[call],
{
    m.remove(&call).map(|entry| entry.1)
}

/// `dashmap::DashMap::get`: a copy of what is known of the call, if it is known.
#[verifier::external_body]
pub(crate) fn calls_get(m: &CallMap, call: i32) -> (r: Option<SipCallInfo>)
    ensures
        r is Some <==> held_calls(*m).contains_key(call),
        r is Some ==> (r->0)@ == held_calls(*m)[call],
{
    m.get(&call).map(|entry| SipCallInfo::copy(entry.value()))
}

/// `dashmap::DashMap::new`: a map of requests that holds nothing.
#[verifier::external_body]
pub(crate) fn requests_new() -> (m: RequestMap)
    ensures
        held_requests(m).dom() == Set::<Seq<char>>::empty(),
{
    dashmap::DashMap::new()
}

/// `dashmap::DashMap::insert`: the name has the request, in place of any other.
#[verifier::external_body]
pub(crate) fn requests_insert(m: &mut RequestMap, name: String, req: OutboundCallRequest)
    ensures
        held_requests(*final(m)) == held_requests(*old(m)).insert(name@, req@),
{
    m.insert(name, req);
}

/// `dashmap::DashMap::remove`: takes the request of the name out, if there is one.
#[verifier::external_body]
pub(crate) fn requests_remove(m: &mut RequestMap, name: &str) -> (r: Option<OutboundCallRequest>)
    ensures
        held_requests(*final(m)) == held_requests(*old(m)).remove(name@),
        r is Some <==> held_requests(*old(m)).contains_key(name@),
        r is Some ==> (r->0)@ == held_requests(*old(m))[name@],
{
    m.remove(name).map(|entry| entry.1)
}

/// The request is less than a minute old.
pub open spec fn request_is_fresh(req: RequestFacts, now: u64) -> bool {
    now - req.created_at < 60_000
}

/// Whether a request is less than a minute old.
pub fn is_fresh(req: &OutboundCallRequest, now: u64) -> (r: bool)
    ensures
        r == request_is_fresh(req@, now),
{
    now < req.created_at || now - req.created_at < 60_000
}

/// `dashmap::DashMap::retain`: keeps the requests that are fresh, and no others.
#[verifier::external_body]
pub(crate) fn requests_retain_fresh(m: &mut RequestMap, now: u64)
    ensures
        forall|name: Seq<char>| #[trigger]
            held_requests(*final(m)).contains_key(name) <==> held_requests(*old(m)).contains_key(
                name,
            ) && request_is_fresh(held_requests(*old(m))[name], now),
        forall|name: Seq<char>|
            held_requests(*final(m)).contains_key(name) ==> #[trigger] held_requests(
                *final(m),
            )[name] == held_requests(*old(m))[name],
{
    m.retain(|_, req| is_fresh(req, now));
}

/// `dashmap::DashSet::new`: a set of channels that holds nothing.
#[verifier::external_body]
pub(crate) fn channels_new() -> (s: ChannelSet)
    ensures
        held_channels(s) == Set::<u64>::empty(),
{
    dashmap::DashSet::new()
}

/// `dashmap::DashSet::contains`: whether the set holds the channel.
#[verifier::external_body]
pub(crate) fn channels_contain(s: &ChannelSet, channel: u64) -> (r: bool)
    ensures
        r == held_channels(*s).contains(channel),
{
    s.contains(&channel)
}

/// `dashmap::DashSet::insert`: the set holds the channel too.
#[verifier::external_body]
pub(crate) fn channels_insert(s: &mut ChannelSet, channel: u64)
    ensures
        held_channels(*final(s)) == held_channels(*old(s)).insert(channel),
{
    s.insert(channel);
}

/// `dashmap::DashSet::remove`: the set does not hold the channel.
#[verifier::external_body]
pub(crate) fn channels_remove(s: &mut ChannelSet, channel: u64)
    ensures
        held_channels(*final(s)) == held_channels(*old(s)).remove(channel),
{
    s.remove(&channel);
}

/// A request is kept for a minute from its making on, and no longer.
pub proof fn law_requests_last_a_minute(req: RequestFacts, now: u64)
    ensures
        request_is_fresh(req, now) <==> now < req.created_at + 60 * 1000,
{
}

} // verus!
