//! The steps that calls take: from the first ring to the last caller's leaving.

use crate::call::state::{
    blank_call, bridges_contain, bridges_get, bridges_insert, bridges_keys, bridges_new,
    bridges_remove, calls_contain, calls_get, calls_insert, calls_new, calls_remove,
    channels_contain, channels_insert, channels_new, channels_remove, held_bridges, held_calls,
    held_channels, held_requests, requests_insert, requests_new, requests_remove,
    requests_retain_fresh, BridgeFacts, BridgeMap, CallFacts, CallMap, CallSet, ChannelBridge,
    ChannelSet, RequestFacts, RequestMap, SipCallInfo,
};
use crate::routing::{error_sound, CallError, MenuRoute, OutboundCallRequest, RouteDecision};
use crate::services::snowflake::Snowflake;
use crate::sip::types::CallId;
use crate::text::parse_decimal;
use vstd::prelude::*;
use vstd::string::*;

verus! {

/// The bridge coordinator: bridges, calls, bridges in the making and outbound requests.
pub struct BridgeCoordinator {
    bridges: BridgeMap,
    pending: ChannelSet,
    calls: CallMap,
    requests: RequestMap,
}

/// What becomes of a call that is to join a voice channel.
#[derive(Debug, Clone, Copy, PartialEq, Eq, Structural)]
pub enum ConnectStep {
    /// The bot is on another channel of the guild: the caller hears that the server is busy.
    Busy,
    /// A bridge to the channel is in the making: the call waits for it.
    Wait,
    /// The call has ended meanwhile.
    Gone,
    /// The call has joined the bridge to the channel.
    Joined,
    /// A bridge to the channel is to be made.
    Create,
}

/// What a waiting call finds.
#[derive(Debug, Clone, Copy, PartialEq, Eq, Structural)]
pub enum WaitStep {
    /// The bridge is there, or no longer in the making.
    Ready,
    /// The call has ended meanwhile.
    Gone,
    /// The wait goes on.
    Pending,
}

/// How a wait ended.
#[derive(Debug, Clone, Copy, PartialEq, Eq, Structural)]
pub enum WaitOutcome {
    Ready,
    Gone,
    TimedOut,
}

/// What follows a wait.
#[derive(Debug, Clone, Copy, PartialEq, Eq, Structural)]
pub enum AfterWait {
    /// The call goes on.
    Proceed,
    /// Nothing is left to do.
    GiveUp,
    /// The caller hears the error.
    PlayError(CallError),
}

/// What follows a wait: a call from a menu hears an error also where it has ended meanwhile.
pub fn after_wait(outcome: WaitOutcome, from_menu: bool) -> (r: AfterWait)
    ensures
        r == (match outcome {
            WaitOutcome::Ready => AfterWait::Proceed,
            WaitOutcome::Gone => if from_menu {
                AfterWait::PlayError(CallError::Unknown)
            } else {
                AfterWait::GiveUp
            },
            WaitOutcome::TimedOut => AfterWait::PlayError(CallError::Unknown),
        }),
{
    match outcome {
        WaitOutcome::Ready => AfterWait::Proceed,
        WaitOutcome::Gone => if from_menu {
            AfterWait::PlayError(CallError::Unknown)
        } else {
            AfterWait::GiveUp
        },
        WaitOutcome::TimedOut => AfterWait::PlayError(CallError::Unknown),
    }
}

/// The seconds that a call waits for a bridge in the making, at most.
pub const BRIDGE_WAIT_SECS: u64 = 15;

/// The error that a caller hears of a step, if there is one.
pub open spec fn error_of_step(step: ConnectStep) -> Option<CallError> {
    if step == ConnectStep::Busy {
        Some(CallError::ServerBusy)
    } else {
        None
    }
}

/// The error that a caller hears of a step: that the server is busy where the bot is on another
/// channel of the guild, and none of any other step.
pub fn refusal_of(step: ConnectStep) -> (r: Option<CallError>)
    ensures
        r == error_of_step(step),
{
    match step {
        ConnectStep::Busy => Some(CallError::ServerBusy),
        _ => None,
    }
}

/// How the making of a bridge for a call ended.
#[derive(Debug, Clone, Copy, PartialEq, Eq, Structural)]
pub enum Making {
    /// The bot has connected, and the call is on the bridge.
    Kept,
    /// The bot has connected, but the call has ended meanwhile.
    CallEnded,
    /// The bot could not connect.
    Failed,
}

/// The error that a caller hears of the making of a bridge: one that is not named where the bot
/// could not connect, and none else.
pub fn refusal_of_making(making: Making) -> (r: Option<CallError>)
    ensures
        r == (if making == Making::Failed {
            Some(CallError::Unknown)
        } else {
            None
        }),
{
    match making {
        Making::Failed => Some(CallError::Unknown),
        _ => None,
    }
}

/// What is done with a routed call.
#[derive(Debug)]
pub enum RouteStep {
    /// It is redirected, and forgotten.
    Redirect { domain: String, extension: String },
    /// It is hung up without a sound, and forgotten.
    Hangup,
    /// The caller hears the error; then the call is hung up and forgotten.
    PlayError(CallError),
    /// It is received as a fax.
    Fax { text_channel_id: Snowflake, guild_id: Snowflake, user_id: String, bot_token: String },
    /// It is led through a menu.
    Menu(MenuRoute),
    /// It is to join a voice channel.
    Connect { channel_id: Snowflake, guild_id: Snowflake, user_id: String, bot_token: String },
}

/// The step is that of the decision.
pub open spec fn step_of(d: RouteDecision, s: RouteStep) -> bool {
    match d {
        RouteDecision::Redirect { domain, extension } => s == (RouteStep::Redirect {
            domain,
            extension,
        }),
        RouteDecision::RejectInvalidCredentials => s is Hangup,
        RouteDecision::RejectWithError { error } => s == RouteStep::PlayError(error),
        RouteDecision::ConnectFax { text_channel_id, guild_id, user_id, bot_token } => s == (
        RouteStep::Fax { text_channel_id, guild_id, user_id, bot_token }),
        RouteDecision::Menu { menu } => s == RouteStep::Menu(menu),
        RouteDecision::Connect { channel_id, guild_id, user_id, bot_token } => s == (
        RouteStep::Connect { channel_id, guild_id, user_id, bot_token }),
    }
}

/// Whether a caller hears the connecting sound: not for a fax, and not in front of a menu.
pub fn uses_connecting_audio(decision: &RouteDecision) -> (r: bool)
    ensures
        r == !(*decision is ConnectFax || *decision is Menu),
{
    match decision {
        RouteDecision::ConnectFax { .. } => false,
        RouteDecision::Menu { .. } => false,
        _ => true,
    }
}

/// How a call ended.
#[derive(Debug, Clone, Copy, PartialEq, Eq, Structural)]
pub enum EndStep {
    /// It was a fax call; the backend is not told.
    Fax,
    /// It was a voice call; the backend is told, and the bridge goes on.
    Voice,
    /// It was the last call on the bridge to the channel, which is gone.
    LastCaller(u64),
}

/// What becomes of an outbound call that was answered.
#[derive(Debug)]
pub enum OutboundStep {
    /// No request is known for it: it is hung up.
    NoRequest,
    /// The request names no guild or channel: failure is reported, and the call is hung up.
    BadRequest { report: String },
    /// The bot is on a channel of the guild: failure is reported, and the call is hung up.
    Busy { report: String },
    /// A bridge is to be made; until then the caller hears the connecting sound.
    Create { channel_id: Snowflake, guild_id: Snowflake, bot_token: String, report: String },
}

/// There is a bridge to another channel of the guild.
pub open spec fn other_channel_in_guild(
    bridges: Map<u64, BridgeFacts>,
    guild: u64,
    channel: u64,
) -> bool {
    exists|c: u64| #[trigger]
        bridges.contains_key(c) && bridges[c].guild == guild && c != channel
}

/// There is a bridge to a channel of the guild.
pub open spec fn any_channel_in_guild(bridges: Map<u64, BridgeFacts>, guild: u64) -> bool {
    exists|c: u64| #[trigger] bridges.contains_key(c) && bridges[c].guild == guild
}

/// No two bridges lead to one guild.
pub open spec fn one_channel_per_guild(bridges: Map<u64, BridgeFacts>) -> bool {
    forall|a: u64, b: u64|
        #![trigger bridges.contains_key(a), bridges.contains_key(b)]
        bridges.contains_key(a) && bridges.contains_key(b) && bridges[a].guild == bridges[b].guild
            ==> a == b
}

/// The call as it is on a channel; its user stays as it is where none is stated.
pub open spec fn call_on(
    c: CallFacts,
    channel: u64,
    guild: u64,
    user: Option<Seq<char>>,
) -> CallFacts {
    CallFacts {
        channel: Some(channel),
        user: if user is Some {
            user
        } else {
            c.user
        },
        guild: Some(guild),
        tracking: c.tracking,
    }
}

/// The bridge with one more call.
pub open spec fn bridge_with(b: BridgeFacts, call: i32, now: u64) -> BridgeFacts {
    BridgeFacts { calls: b.calls.insert(call), last_call: now, ..b }
}

/// The bridge with one call less.
pub open spec fn bridge_without(b: BridgeFacts, call: i32) -> BridgeFacts {
    BridgeFacts { calls: b.calls.remove(call), ..b }
}

/// A new bridge with one call.
pub open spec fn new_bridge(guild: u64, call: i32, token: Seq<char>, now: u64) -> BridgeFacts {
    BridgeFacts {
        guild,
        calls: Set::empty().insert(call),
        token,
        last_call: now,
        created: now,
        attempts: 0,
        last_reconnect: None,
    }
}

/// The step of a call that goes on to join a channel or to make a bridge.
pub open spec fn settle_step(
    bridges: Map<u64, BridgeFacts>,
    calls: Map<i32, CallFacts>,
    call: i32,
    channel: u64,
) -> ConnectStep {
    if !calls.contains_key(call) {
        ConnectStep::Gone
    } else if bridges.contains_key(channel) {
        ConnectStep::Joined
    } else {
        ConnectStep::Create
    }
}

/// The step of a call that is to join a channel.
pub open spec fn connect_step(
    bridges: Map<u64, BridgeFacts>,
    pending: Set<u64>,
    calls: Map<i32, CallFacts>,
    call: i32,
    channel: u64,
    guild: u64,
) -> ConnectStep {
    if other_channel_in_guild(bridges, guild, channel) {
        ConnectStep::Busy
    } else if pending.contains(channel) && !bridges.contains_key(channel) {
        ConnectStep::Wait
    } else {
        settle_step(bridges, calls, call, channel)
    }
}

/// The step of an outbound call that was answered, given its request.
pub open spec fn outbound_step_is(
    step: OutboundStep,
    req: Option<RequestFacts>,
    bridges: Map<u64, BridgeFacts>,
    pending: Set<u64>,
) -> bool {
    match req {
        None => step is NoRequest,
        Some(r) => match (
            parse_decimal(r.guild_id, u64::MAX as nat),
            parse_decimal(r.channel_id, u64::MAX as nat),
        ) {
            (Some(guild), Some(channel)) => {
                if any_channel_in_guild(bridges, guild as u64) || pending.contains(channel as u64) {
                    step is Busy && step->Busy_report@ == r.call_id
                } else {
                    &&& step is Create
                    &&& step->channel_id.id() == channel
                    &&& step->guild_id.id() == guild
                    &&& step->bot_token@ == r.bot_token
                    &&& step->Create_report@ == r.call_id
                }
            },
            _ => step is BadRequest && step->BadRequest_report@ == r.call_id,
        },
    }
}

impl BridgeCoordinator {
    /// The bridges, by channel.
    pub closed spec fn bridges(&self) -> Map<u64, BridgeFacts> {
        held_bridges(self.bridges)
    }

    /// The channels whose bridges are in the making.
    pub closed spec fn pending(&self) -> Set<u64> {
        held_channels(self.pending)
    }

    /// The calls.
    pub closed spec fn calls(&self) -> Map<i32, CallFacts> {
        held_calls(self.calls)
    }

    /// The outbound requests, by name.
    pub closed spec fn requests(&self) -> Map<Seq<char>, RequestFacts> {
        held_requests(self.requests)
    }

    /// A coordinator that knows of nothing.
    pub fn new() -> (c: Self)
        ensures
            c.bridges().dom() == Set::<u64>::empty(),
            c.pending() == Set::<u64>::empty(),
            c.calls().dom() == Set::<i32>::empty(),
            c.requests().dom() == Set::<Seq<char>>::empty(),
    {
        BridgeCoordinator {
            bridges: bridges_new(),
            pending: channels_new(),
            calls: calls_new(),
            requests: requests_new(),
        }
    }

    /// Whether a call is known.
    pub fn knows_call(&self, call: CallId) -> (r: bool)
        ensures
            r == self.calls().contains_key(call.num()),
    {
        calls_contain(&self.calls, call.get())
    }

    /// Whether there is a bridge to a channel.
    pub fn has_bridge(&self, channel: Snowflake) -> (r: bool)
        ensures
            r == self.bridges().contains_key(channel.id()),
    {
        bridges_contain(&self.bridges, channel.get())
    }

    /// The channels that have bridges, each once.
    pub fn active_channels(&self) -> (r: Vec<u64>)
        ensures
            r@.no_duplicates(),
            forall|c: u64| #[trigger] r@.contains(c) <==> self.bridges().contains_key(c),
    {
        bridges_keys(&self.bridges)
    }

    /// A copy of the bridge to a channel.
    pub fn bridge(&self, channel: Snowflake) -> (r: Option<ChannelBridge>)
        ensures
            r is Some <==> self.bridges().contains_key(channel.id()),
            r is Some ==> (r->0)@ == self.bridges()[channel.id()],
    {
        bridges_get(&self.bridges, channel.get())
    }

    /// Begins to follow a call.
    pub fn track_call(&mut self, call: CallId)
        ensures
            final(self).calls() == old(self).calls().insert(call.num(), blank_call()),
            final(self).bridges() == old(self).bridges(),
            final(self).pending() == old(self).pending(),
            final(self).requests() == old(self).requests(),
    {
        calls_insert(&mut self.calls, call.get(), SipCallInfo::blank());
    }

    /// Forgets a call.
    pub fn forget_call(&mut self, call: CallId)
        ensures
            final(self).calls() == old(self).calls().remove(call.num()),
            final(self).bridges() == old(self).bridges(),
            final(self).pending() == old(self).pending(),
            final(self).requests() == old(self).requests(),
    {
        let _ = calls_remove(&mut self.calls, call.get());
    }

    /// Takes the decision on an incoming call. A call that is redirected, or rejected without
    /// a sound, is forgotten.
    pub fn route(&mut self, call: CallId, decision: RouteDecision) -> (s: RouteStep)
        ensures
            step_of(decision, s),
            final(self).calls() == (if s is Redirect || s is Hangup {
                old(self).calls().remove(call.num())
            } else {
                old(self).calls()
            }),
            final(self).bridges() == old(self).bridges(),
            final(self).pending() == old(self).pending(),
            final(self).requests() == old(self).requests(),
    {
        match decision {
            RouteDecision::Redirect { domain, extension } => {
                self.forget_call(call);
                RouteStep::Redirect { domain, extension }
            },
            RouteDecision::RejectInvalidCredentials => {
                self.forget_call(call);
                RouteStep::Hangup
            },
            RouteDecision::RejectWithError { error } => RouteStep::PlayError(error),
            RouteDecision::ConnectFax {
                text_channel_id,
                guild_id,
                user_id,
                bot_token,
            } => RouteStep::Fax { text_channel_id, guild_id, user_id, bot_token },
            RouteDecision::Menu { menu } => RouteStep::Menu(menu),
            RouteDecision::Connect { channel_id, guild_id, user_id, bot_token } => RouteStep::Connect {
                channel_id,
                guild_id,
                user_id,
                bot_token,
            },
        }
    }

    /// Whether there is a bridge to the guild, on a channel other than `but` where that is stated.
    fn guild_in_use(&self, guild: u64, but: Option<u64>) -> (r: bool)
        ensures
            but is Some ==> r == other_channel_in_guild(self.bridges(), guild, but->0),
            but is None ==> r == any_channel_in_guild(self.bridges(), guild),
    {
        let keys: Vec<u64> = bridges_keys(&self.bridges);
        let mut i: usize = 0;
        while i < keys.len()
            invariant
                i <= keys@.len(),
                forall|c: u64| #[trigger]
                    keys@.contains(c) <==> self.bridges().contains_key(c),
                forall|j: int|
                    0 <= j < i ==> !(self.bridges()[#[trigger] keys@[j]].guild == guild && (but is None
                        || keys@[j] != but->0)),
            decreases keys@.len() - i,
        {
            let c: u64 = keys[i];
            let same: bool = match but {
                Some(b) => b == c,
                None => false,
            };
            proof {
                assert(keys@.contains(c));
            }
            if !same {
                if let Some(b) = bridges_get(&self.bridges, c) {
                    if b.guild_id.get() == guild {
                        assert(self.bridges().contains_key(c));
                        return true;
                    }
                }
            }
            i = i + 1;
        }
        proof {
            assert forall|c: u64| #[trigger]
                self.bridges().contains_key(c) && self.bridges()[c].guild == guild implies but is Some
                && c == but->0 by {
                assert(keys@.contains(c));
                let j = choose|j: int| 0 <= j < keys@.len() && keys@[j] == c;
                assert(keys@[j] == c);
            }
        }
        false
    }

    /// A call is to join a voice channel.
    ///
    /// The bot can be on one channel of a guild only. Where a bridge to the channel exists the
    /// call joins it; where one is in the making the call waits; else one is to be made.
    pub fn begin_connect(
        &mut self,
        call: CallId,
        channel: Snowflake,
        guild: Snowflake,
        user: &str,
        now: u64,
    ) -> (s: ConnectStep)
        ensures
            s == connect_step(
                old(self).bridges(),
                old(self).pending(),
                old(self).calls(),
                call.num(),
                channel.id(),
                guild.id(),
            ),
            final(self).requests() == old(self).requests(),
            settled(
                *old(self),
                *final(self),
                s,
                call.num(),
                channel.id(),
                guild.id(),
                user@,
                now,
            ),
    {
        if self.guild_in_use(guild.get(), Some(channel.get())) {
            return ConnectStep::Busy;
        }
        if channels_contain(&self.pending, channel.get()) && !bridges_contain(
            &self.bridges,
            channel.get(),
        ) {
            return ConnectStep::Wait;
        }
        self.join_or_create(call, channel, guild, user, now)
    }

    /// What a call that waits for the bridge to a channel finds.
    pub fn wait_step(&self, call: CallId, channel: Snowflake) -> (s: WaitStep)
        ensures
            s == (if self.bridges().contains_key(channel.id()) || !self.pending().contains(
                channel.id(),
            ) {
                WaitStep::Ready
            } else if !self.calls().contains_key(call.num()) {
                WaitStep::Gone
            } else {
                WaitStep::Pending
            }),
    {
        if bridges_contain(&self.bridges, channel.get()) || !channels_contain(
            &self.pending,
            channel.get(),
        ) {
            WaitStep::Ready
        } else if !calls_contain(&self.calls, call.get()) {
            WaitStep::Gone
        } else {
            WaitStep::Pending
        }
    }

    /// Notes that a call is on a channel.
    fn put_call_on(&mut self, call: CallId, channel: Snowflake, guild: Snowflake, user: Option<&str>)
        requires
            old(self).calls().contains_key(call.num()),
        ensures
            final(self).calls() == old(self).calls().insert(
                call.num(),
                call_on(
                    old(self).calls()[call.num()],
                    channel.id(),
                    guild.id(),
                    match user {
                        Some(u) => Some(u@),
                        None => None,
                    },
                ),
            ),
            final(self).bridges() == old(self).bridges(),
            final(self).pending() == old(self).pending(),
            final(self).requests() == old(self).requests(),
    {
        if let Some(info) = calls_get(&self.calls, call.get()) {
            let user_id: Option<String> = match user {
                Some(u) => Some(String::from_str(u)),
                None => info.user_id,
            };
            let updated = SipCallInfo {
                channel_id: Some(channel),
                user_id,
                guild_id: Some(guild),
                tracking_id: info.tracking_id,
            };
            calls_insert(&mut self.calls, call.get(), updated);
        }
    }

    /// A call joins the bridge to a channel, or a bridge is to be made.
    pub fn join_or_create(
        &mut self,
        call: CallId,
        channel: Snowflake,
        guild: Snowflake,
        user: &str,
        now: u64,
    ) -> (s: ConnectStep)
        ensures
            s == settle_step(
                old(self).bridges(),
                old(self).calls(),
                call.num(),
                channel.id(),
            ),
            final(self).requests() == old(self).requests(),
            settled(
                *old(self),
                *final(self),
                s,
                call.num(),
                channel.id(),
                guild.id(),
                user@,
                now,
            ),
    {
        if !calls_contain(&self.calls, call.get()) {
            return ConnectStep::Gone;
        }
        if bridges_contain(&self.bridges, channel.get()) {
            self.put_call_on(call, channel, guild, Some(user));
            if let Some(mut bridge) = bridges_get(&self.bridges, channel.get()) {
                bridge.sip_calls.insert(call);
                bridge.last_call_time = now;
                bridges_insert(&mut self.bridges, channel.get(), bridge);
            }
            ConnectStep::Joined
        } else {
            channels_insert(&mut self.pending, channel.get());
            ConnectStep::Create
        }
    }

    /// The bot has connected to a channel for a call. Returns false where the call has ended
    /// meanwhile: the bot is to disconnect.
    pub fn bridge_connected(
        &mut self,
        call: CallId,
        channel: Snowflake,
        guild: Snowflake,
        user: Option<&str>,
        bot_token: &str,
        now: u64,
    ) -> (kept: bool)
        ensures
            kept == old(self).calls().contains_key(call.num()),
            final(self).pending() == old(self).pending().remove(channel.id()),
            final(self).requests() == old(self).requests(),
            !kept ==> final(self).calls() == old(self).calls() && final(self).bridges() == old(self).bridges(),
            kept ==> final(self).bridges() == old(self).bridges().insert(
                channel.id(),
                new_bridge(guild.id(), call.num(), bot_token@, now),
            ) && final(self).calls() == old(self).calls().insert(
                call.num(),
                call_on(
                    old(self).calls()[call.num()],
                    channel.id(),
                    guild.id(),
                    match user {
                        Some(u) => Some(u@),
                        None => None,
                    },
                ),
            ),
    {
        channels_remove(&mut self.pending, channel.get());
        if !calls_contain(&self.calls, call.get()) {
            return false;
        }
        let mut sip_calls: CallSet = CallSet::new();
        sip_calls.insert(call);
        bridges_insert(
            &mut self.bridges,
            channel.get(),
            ChannelBridge {
                guild_id: guild,
                sip_calls,
                bot_token: String::from_str(bot_token),
                last_call_time: now,
                created_at: now,
                reconnect_attempts: 0,
                last_reconnect_at: None,
            },
        );
        self.put_call_on(call, channel, guild, user);
        true
    }

    /// The bot could not connect to a channel.
    pub fn bridge_failed(&mut self, channel: Snowflake)
        ensures
            final(self).pending() == old(self).pending().remove(channel.id()),
            final(self).calls() == old(self).calls(),
            final(self).bridges() == old(self).bridges(),
            final(self).requests() == old(self).requests(),
    {
        channels_remove(&mut self.pending, channel.get());
    }

    /// A call has ended, and is forgotten. The bridge that it was on loses it, and is gone
    /// itself where no call is left on it.
    pub fn call_ended(&mut self, call: CallId, is_fax: bool) -> (s: EndStep)
        ensures
            final(self).calls() == old(self).calls().remove(call.num()),
            final(self).pending() == old(self).pending(),
            final(self).requests() == old(self).requests(),
            s == end_step(old(self).bridges(), old(self).calls(), call.num(), is_fax),
            final(self).bridges() == bridges_after_end(
                old(self).bridges(),
                old(self).calls(),
                call.num(),
                is_fax,
            ),
    {
        let info: Option<SipCallInfo> = calls_remove(&mut self.calls, call.get());
        if is_fax {
            return EndStep::Fax;
        }
        if let Some(i) = info {
            if let Some(channel) = i.channel_id {
                if let Some(mut bridge) = bridges_remove(&mut self.bridges, channel.get()) {
                    bridge.sip_calls.remove(call);
                    if bridge.sip_calls.is_empty() {
                        return EndStep::LastCaller(channel.get());
                    }
                    bridges_insert(&mut self.bridges, channel.get(), bridge);
                    proof {
                        assert(self.bridges() =~= bridges_after_end(
                            old(self).bridges(),
                            old(self).calls(),
                            call.num(),
                            is_fax,
                        ));
                    }
                    return EndStep::Voice;
                }
                proof {
                    assert(self.bridges() =~= old(self).bridges());
                }
            }
        }
        EndStep::Voice
    }

    /// A call has had no audio for too long, and is to be hung up. Returns the name of the
    /// outbound request to report, where no packet was ever received.
    pub fn call_timed_out(&self, call: CallId, rx_count: u64) -> (r: Option<String>)
        ensures
            r is Some <==> rx_count == 0 && self.calls().contains_key(call.num())
                && self.calls()[call.num()].tracking is Some,
            r is Some ==> Some((r->0)@) == self.calls()[call.num()].tracking,
    {
        if rx_count != 0 {
            return None;
        }
        match calls_get(&self.calls, call.get()) {
            Some(info) => info.tracking_id,
            None => None,
        }
    }

    /// Remembers an outbound request under its name.
    pub fn remember_request(&mut self, req: OutboundCallRequest)
        ensures
            final(self).requests() == old(self).requests().insert(req@.call_id, req@),
            final(self).calls() == old(self).calls(),
            final(self).bridges() == old(self).bridges(),
            final(self).pending() == old(self).pending(),
    {
        let name: String = req.call_id.clone();
        requests_insert(&mut self.requests, name, req);
    }

    /// An outbound call was answered: its request is used up.
    pub fn outbound_answered(&mut self, tracking_id: &str, call: CallId) -> (s: OutboundStep)
        ensures
            final(self).requests() == old(self).requests().remove(tracking_id@),
            final(self).bridges() == old(self).bridges(),
            outbound_step_is(
                s,
                if old(self).requests().contains_key(tracking_id@) {
                    Some(old(self).requests()[tracking_id@])
                } else {
                    None
                },
                old(self).bridges(),
                old(self).pending(),
            ),
            match s {
                OutboundStep::NoRequest => final(self).calls() == old(self).calls()
                    && final(self).pending() == old(self).pending(),
                OutboundStep::BadRequest { .. } => final(self).calls() == old(self).calls()
                    && final(self).pending() == old(self).pending(),
                OutboundStep::Busy { .. } => final(self).calls() == old(self).calls().remove(
                    call.num(),
                ) && final(self).pending() == old(self).pending(),
                OutboundStep::Create { channel_id, guild_id, .. } => final(self).calls() == old(self).calls().insert(
                    call.num(),
                    (CallFacts {
                        channel: None,
                        user: None,
                        guild: Some(guild_id.id()),
                        tracking: Some(tracking_id@),
                    }),
                ) && final(self).pending() == old(self).pending().insert(channel_id.id()),
            },
    {
        let req: OutboundCallRequest = match requests_remove(&mut self.requests, tracking_id) {
            Some(r) => r,
            None => {
                return OutboundStep::NoRequest;
            },
        };
        let guild: Snowflake = match Snowflake::parse(req.guild_id.as_str()) {
            Some(g) => g,
            None => {
                return OutboundStep::BadRequest { report: req.call_id };
            },
        };
        let channel: Snowflake = match Snowflake::parse(req.channel_id.as_str()) {
            Some(c) => c,
            None => {
                return OutboundStep::BadRequest { report: req.call_id };
            },
        };
        calls_insert(
            &mut self.calls,
            call.get(),
            SipCallInfo {
                channel_id: None,
                user_id: None,
                guild_id: Some(guild),
                tracking_id: Some(String::from_str(tracking_id)),
            },
        );
        if self.guild_in_use(guild.get(), None) || channels_contain(&self.pending, channel.get()) {
            let _ = calls_remove(&mut self.calls, call.get());
            proof {
                assert(self.calls() =~= old(self).calls().remove(call.num()));
            }
            return OutboundStep::Busy { report: req.call_id };
        }
        channels_insert(&mut self.pending, channel.get());
        OutboundStep::Create {
            channel_id: channel,
            guild_id: guild,
            bot_token: req.bot_token,
            report: req.call_id,
        }
    }

    /// A leg of an outbound call failed. Failure is reported, and the request forgotten, where
    /// no other leg is left: `legs_left` is what the other legs say, and a leg that never
    /// started has no others.
    pub fn outbound_failed(&mut self, tracking_id: &str, started: bool, legs_left: bool) -> (report:
        bool)
        ensures
            report == !(started && legs_left),
            final(self).requests() == (if report {
                old(self).requests().remove(tracking_id@)
            } else {
                old(self).requests()
            }),
            final(self).calls() == old(self).calls(),
            final(self).bridges() == old(self).bridges(),
            final(self).pending() == old(self).pending(),
    {
        if started && legs_left {
            return false;
        }
        let _ = requests_remove(&mut self.requests, tracking_id);
        true
    }

    /// The calls to hang up on request, given the channel as the request has it; `None` where
    /// that is no identifier.
    pub fn hangup_requested(&self, channel_id: &str) -> (r: Option<Vec<CallId>>)
        ensures
            r is Some <==> parse_decimal(channel_id@, u64::MAX as nat) is Some,
            r is Some ==> {
                let channel = parse_decimal(channel_id@, u64::MAX as nat)->0 as u64;
                let numbers = crate::call::state::call_numbers((r->0)@);
                numbers.no_duplicates() && numbers.to_set() == (if self.bridges().contains_key(
                    channel,
                ) {
                    self.bridges()[channel].calls
                } else {
                    Set::empty()
                })
            },
    {
        match Snowflake::parse(channel_id) {
            None => None,
            Some(channel) => match bridges_get(&self.bridges, channel.get()) {
                Some(bridge) => Some(bridge.sip_calls.to_vec()),
                None => {
                    let none: Vec<CallId> = Vec::new();
                    proof {
                        assert(crate::call::state::call_numbers(none@).to_set() =~= Set::empty());
                    }
                    Some(none)
                },
            },
        }
    }

    /// Takes the bridge to a channel away.
    pub fn destroy_bridge(&mut self, channel: Snowflake) -> (r: Option<ChannelBridge>)
        ensures
            final(self).bridges() == old(self).bridges().remove(channel.id()),
            r is Some <==> old(self).bridges().contains_key(channel.id()),
            r is Some ==> (r->0)@ == old(self).bridges()[channel.id()],
            final(self).calls() == old(self).calls(),
            final(self).pending() == old(self).pending(),
            final(self).requests() == old(self).requests(),
    {
        bridges_remove(&mut self.bridges, channel.get())
    }

    /// Begins to reconnect the bridge to a channel, which is taken away and returned. Nothing
    /// is done where a bridge to the channel is in the making; else one is from now on.
    pub fn begin_reconnect(&mut self, channel: Snowflake) -> (r: Option<ChannelBridge>)
        ensures
            r is Some <==> !old(self).pending().contains(channel.id()) && old(
                self).bridges().contains_key(channel.id()),
            r is Some ==> (r->0)@ == old(self).bridges()[channel.id()],
            final(self).pending() == old(self).pending().insert(channel.id()),
            final(self).bridges() == (if old(self).pending().contains(channel.id()) {
                old(self).bridges()
            } else {
                old(self).bridges().remove(channel.id())
            }),
            final(self).calls() == old(self).calls(),
            final(self).requests() == old(self).requests(),
    {
        if channels_contain(&self.pending, channel.get()) {
            proof {
                assert(self.pending().insert(channel.id()) =~= self.pending());
            }
            return None;
        }
        channels_insert(&mut self.pending, channel.get());
        bridges_remove(&mut self.bridges, channel.get())
    }

    /// The bridge to a channel was reconnected: it is back, with those of its calls that are
    /// still known.
    pub fn finish_reconnect(&mut self, channel: Snowflake, old_bridge: ChannelBridge, now: u64)
        requires
            old_bridge.reconnect_attempts < u32::MAX,
        ensures
            final(self).bridges() == old(self).bridges().insert(
                channel.id(),
                crate::call::health::reconnected(old_bridge@, old(self).calls(), now),
            ),
            final(self).pending() == old(self).pending().remove(channel.id()),
            final(self).calls() == old(self).calls(),
            final(self).requests() == old(self).requests(),
    {
        let sip_calls: CallSet = self.known_calls(&old_bridge.sip_calls);
        bridges_insert(
            &mut self.bridges,
            channel.get(),
            ChannelBridge {
                guild_id: old_bridge.guild_id,
                sip_calls,
                bot_token: old_bridge.bot_token,
                last_call_time: old_bridge.last_call_time,
                created_at: now,
                reconnect_attempts: old_bridge.reconnect_attempts + 1,
                last_reconnect_at: Some(now),
            },
        );
        channels_remove(&mut self.pending, channel.get());
    }

    /// Those of the calls that are known.
    fn known_calls(&self, calls: &CallSet) -> (r: CallSet)
        ensures
            r@ == calls@.filter(|c: i32| self.calls().contains_key(c)),
    {
        let list: Vec<CallId> = calls.to_vec();
        let ghost numbers = crate::call::state::call_numbers(list@);
        let mut r: CallSet = CallSet::new();
        let mut i: usize = 0;
        while i < list.len()
            invariant
                i <= list@.len(),
                numbers == crate::call::state::call_numbers(list@),
                numbers.to_set() == calls@,
                forall|c: i32| #[trigger]
                    r@.contains(c) <==> self.calls().contains_key(c) && numbers.take(
                        i as int,
                    ).contains(c),
            decreases list@.len() - i,
        {
            let c: CallId = list[i];
            let ghost seen = numbers.take(i as int);
            proof {
                assert(numbers[i as int] == c.num());
                assert(numbers.take(i + 1) =~= seen.push(c.num()));
                let now = numbers.take(i + 1);
                assert forall|x: i32| #[trigger] now.contains(x) <==> x == c.num()
                    || seen.contains(x) by {
                    if seen.contains(x) {
                        let k = choose|k: int| 0 <= k < seen.len() && seen[k] == x;
                        assert(now[k] == x);
                    }
                    if x == c.num() {
                        assert(now[seen.len() as int] == x);
                    }
                }
            }
            if calls_contain(&self.calls, c.get()) {
                r.insert(c);
            }
            i = i + 1;
        }
        proof {
            assert(numbers.take(numbers.len() as int) =~= numbers);
            assert(r@ =~= calls@.filter(|c: i32| self.calls().contains_key(c))) by {
                assert forall|c: i32| r@.contains(c) <==> calls@.contains(c)
                    && self.calls().contains_key(c) by {
                    assert(numbers.contains(c) <==> calls@.contains(c));
                }
            }
        }
        r
    }

    /// Forgets the outbound requests that are a minute old or older.
    pub fn sweep_requests(&mut self, now: u64)
        ensures
            forall|name: Seq<char>| #[trigger]
                final(self).requests().contains_key(name) <==> old(self).requests().contains_key(
                    name,
                ) && crate::call::state::request_is_fresh(old(self).requests()[name], now),
            forall|name: Seq<char>|
                final(self).requests().contains_key(name) ==> #[trigger] final(self).requests()[name] == old(self).requests()[name],
            final(self).calls() == old(self).calls(),
            final(self).bridges() == old(self).bridges(),
            final(self).pending() == old(self).pending(),
    {
        requests_retain_fresh(&mut self.requests, now);
    }
}

/// What the steps of a call that is to join a channel change.
pub open spec fn settled(
    before: BridgeCoordinator,
    after: BridgeCoordinator,
    s: ConnectStep,
    call: i32,
    channel: u64,
    guild: u64,
    user: Seq<char>,
    now: u64,
) -> bool {
    match s {
        ConnectStep::Joined => {
            &&& after.bridges() == before.bridges().insert(
                channel,
                bridge_with(before.bridges()[channel], call, now),
            )
            &&& after.calls() == before.calls().insert(
                call,
                call_on(before.calls()[call], channel, guild, Some(user)),
            )
            &&& after.pending() == before.pending()
        },
        ConnectStep::Create => {
            &&& after.bridges() == before.bridges()
            &&& after.calls() == before.calls()
            &&& after.pending() == before.pending().insert(channel)
        },
        _ => {
            &&& after.bridges() == before.bridges()
            &&& after.calls() == before.calls()
            &&& after.pending() == before.pending()
        },
    }
}

/// The channel that a call is on, if there is a bridge to it.
pub open spec fn bridged_channel(
    bridges: Map<u64, BridgeFacts>,
    calls: Map<i32, CallFacts>,
    call: i32,
) -> Option<u64> {
    if calls.contains_key(call) && calls[call].channel is Some && bridges.contains_key(
        calls[call].channel->0,
    ) {
        calls[call].channel
    } else {
        None
    }
}

/// How a call ends.
pub open spec fn end_step(
    bridges: Map<u64, BridgeFacts>,
    calls: Map<i32, CallFacts>,
    call: i32,
    is_fax: bool,
) -> EndStep {
    if is_fax {
        EndStep::Fax
    } else {
        match bridged_channel(bridges, calls, call) {
            None => EndStep::Voice,
            Some(c) => if bridges[c].calls.remove(call) == Set::<i32>::empty() {
                EndStep::LastCaller(c)
            } else {
                EndStep::Voice
            },
        }
    }
}

/// The bridges after a call has ended.
pub open spec fn bridges_after_end(
    bridges: Map<u64, BridgeFacts>,
    calls: Map<i32, CallFacts>,
    call: i32,
    is_fax: bool,
) -> Map<u64, BridgeFacts> {
    match bridged_channel(bridges, calls, call) {
        None => bridges,
        Some(c) => if is_fax {
            bridges
        } else if bridges[c].calls.remove(call) == Set::<i32>::empty() {
            bridges.remove(c)
        } else {
            bridges.insert(c, bridge_without(bridges[c], call))
        },
    }
}

/// A bridge that is made where no other channel of the guild is bridged leaves the bot on at
/// most one channel of each guild.
pub proof fn law_one_channel_per_guild(
    bridges: Map<u64, BridgeFacts>,
    channel: u64,
    bridge: BridgeFacts,
)
    requires
        one_channel_per_guild(bridges),
        !other_channel_in_guild(bridges, bridge.guild, channel),
    ensures
        one_channel_per_guild(bridges.insert(channel, bridge)),
{
}

/// Calls that end leave the bot on at most one channel of each guild.
pub proof fn law_ending_keeps_one_channel_per_guild(
    bridges: Map<u64, BridgeFacts>,
    calls: Map<i32, CallFacts>,
    call: i32,
    is_fax: bool,
)
    requires
        one_channel_per_guild(bridges),
    ensures
        one_channel_per_guild(bridges_after_end(bridges, calls, call, is_fax)),
{
}

/// A bridge is gone with its last caller, and not before: a voice call that ends takes the
/// bridge of its channel away exactly where no other call is on it.
pub proof fn law_a_bridge_lives_as_long_as_its_calls(
    bridges: Map<u64, BridgeFacts>,
    calls: Map<i32, CallFacts>,
    call: i32,
    channel: u64,
)
    requires
        bridged_channel(bridges, calls, call) == Some(channel),
    ensures
        bridges_after_end(bridges, calls, call, false).contains_key(channel) <==> exists|other: i32|
            other != call && bridges[channel].calls.contains(other),
        forall|c: u64|
            c != channel ==> (bridges_after_end(bridges, calls, call, false).contains_key(c)
                <==> bridges.contains_key(c)),
{
    let left = bridges[channel].calls.remove(call);
    if left == Set::<i32>::empty() {
        assert forall|other: i32| other != call implies !bridges[channel].calls.contains(other) by {
            assert(!left.contains(other));
        }
    } else {
        assert(!(left =~= Set::<i32>::empty()));
        let other = choose|other: i32| left.contains(other);
        assert(other != call && bridges[channel].calls.contains(other));
    }
}

/// A call that joins a bridge and ends leaves the bridge with the calls that it had.
pub proof fn law_ending_undoes_joining(
    bridges: Map<u64, BridgeFacts>,
    calls: Map<i32, CallFacts>,
    call: i32,
    channel: u64,
    guild: u64,
    user: Seq<char>,
    now: u64,
)
    requires
        calls.contains_key(call),
        bridges.contains_key(channel),
        !bridges[channel].calls.contains(call),
        bridges[channel].calls != Set::<i32>::empty(),
    ensures
        ({
            let joined = bridges.insert(channel, bridge_with(bridges[channel], call, now));
            let known = calls.insert(call, call_on(calls[call], channel, guild, Some(user)));
            let after = bridges_after_end(joined, known, call, false);
            after.contains_key(channel) && after[channel].calls == bridges[channel].calls
                && end_step(joined, known, call, false) == EndStep::Voice
        }),
{
    assert(bridges[channel].calls.insert(call).remove(call) =~= bridges[channel].calls);
}

/// A call that has a bridge made for it and ends leaves no bridge to the channel.
pub proof fn law_ending_undoes_making(
    bridges: Map<u64, BridgeFacts>,
    calls: Map<i32, CallFacts>,
    call: i32,
    channel: u64,
    guild: u64,
    token: Seq<char>,
    user: Option<Seq<char>>,
    now: u64,
)
    requires
        calls.contains_key(call),
        !bridges.contains_key(channel),
    ensures
        ({
            let made = bridges.insert(channel, new_bridge(guild, call, token, now));
            let known = calls.insert(call, call_on(calls[call], channel, guild, user));
            bridges_after_end(made, known, call, false) == bridges && end_step(
                made,
                known,
                call,
                false,
            ) == EndStep::LastCaller(channel)
        }),
{
    let made = bridges.insert(channel, new_bridge(guild, call, token, now));
    assert(made[channel].calls.remove(call) =~= Set::<i32>::empty());
    assert(made.remove(channel) =~= bridges);
}

/// A caller is told that the server is busy exactly where the bot is on another channel of the
/// guild, and hears the sound of that error.
pub proof fn law_a_busy_guild_is_heard(
    bridges: Map<u64, BridgeFacts>,
    pending: Set<u64>,
    calls: Map<i32, CallFacts>,
    call: i32,
    channel: u64,
    guild: u64,
)
    ensures
        ({
            let error = error_of_step(connect_step(bridges, pending, calls, call, channel, guild));
            &&& error is Some <==> other_channel_in_guild(bridges, guild, channel)
            &&& error is Some ==> error->0 == CallError::ServerBusy && error_sound(error->0)
                == "server_is_busy"@
        }),
{
}

/// Where every call that is to join a channel goes: it is refused where the bot is on another
/// channel of the guild, it waits where only the making of the bridge is under way, and else, where
/// it is still there, it joins the bridge or has one made.
pub proof fn law_where_a_call_goes(
    bridges: Map<u64, BridgeFacts>,
    pending: Set<u64>,
    calls: Map<i32, CallFacts>,
    call: i32,
    channel: u64,
    guild: u64,
)
    ensures
        ({
            let s = connect_step(bridges, pending, calls, call, channel, guild);
            let busy = exists|c: u64| #[trigger]
                bridges.contains_key(c) && bridges[c].guild == guild && c != channel;
            let bridged = bridges.contains_key(channel);
            let there = calls.contains_key(call);
            &&& s == ConnectStep::Busy <==> busy
            &&& s == ConnectStep::Wait <==> !busy && !bridged && pending.contains(channel)
            &&& s == ConnectStep::Gone <==> !busy && !there && (bridged || !pending.contains(
                channel,
            ))
            &&& s == ConnectStep::Joined <==> !busy && there && bridged
            &&& s == ConnectStep::Create <==> !busy && there && !bridged && !pending.contains(
                channel,
            )
        }),
        ({
            let s = settle_step(bridges, calls, call, channel);
            &&& s == ConnectStep::Gone <==> !calls.contains_key(call)
            &&& s == ConnectStep::Joined <==> calls.contains_key(call) && bridges.contains_key(
                channel,
            )
            &&& s == ConnectStep::Create <==> calls.contains_key(call) && !bridges.contains_key(
                channel,
            )
        }),
{
}

/// What a step leaves behind. A call that joins is on the bridge with those that were there, and
/// is known to be on its channel; where a bridge is to be made, its making is noted; nothing else
/// changes, and no other step changes anything.
pub proof fn law_what_a_step_leaves_behind(
    before: BridgeCoordinator,
    after: BridgeCoordinator,
    s: ConnectStep,
    call: i32,
    channel: u64,
    guild: u64,
    user: Seq<char>,
    now: u64,
    other: u64,
    caller: i32,
)
    requires
        settled(before, after, s, call, channel, guild, user, now),
        s == ConnectStep::Joined ==> before.bridges().contains_key(channel),
    ensures
        s == ConnectStep::Joined ==> {
            let (was, is) = (before.bridges()[channel], after.bridges()[channel]);
            &&& after.bridges().contains_key(channel)
            &&& is.calls.contains(caller) <==> caller == call || was.calls.contains(caller)
            &&& is.last_call == now
            &&& is.guild == was.guild && is.token == was.token && is.created == was.created
            &&& is.attempts == was.attempts && is.last_reconnect == was.last_reconnect
            &&& after.calls().contains_key(call)
            &&& after.calls()[call].channel == Some(channel)
            &&& after.calls()[call].guild == Some(guild)
            &&& after.calls()[call].user == Some(user)
            &&& after.calls()[call].tracking == before.calls()[call].tracking
        },
        s == ConnectStep::Create ==> after.pending().contains(channel),
        other != channel || s != ConnectStep::Joined ==> (after.bridges().contains_key(other)
            <==> before.bridges().contains_key(other)) && after.bridges()[other]
            == before.bridges()[other],
        caller != call || s != ConnectStep::Joined ==> (after.calls().contains_key(caller)
            <==> before.calls().contains_key(caller)) && after.calls()[caller]
            == before.calls()[caller],
        other != channel || s != ConnectStep::Create ==> (after.pending().contains(other)
            <==> before.pending().contains(other)),
{
}

/// What is left of the bridges when a call has ended. A voice call leaves the bridge that it was on
/// to the other calls there, and takes it away where there are none; every other bridge is as it
/// was. A fax call, and one that was on no bridge, changes nothing.
pub proof fn law_what_an_ended_call_leaves(
    bridges: Map<u64, BridgeFacts>,
    calls: Map<i32, CallFacts>,
    call: i32,
    is_fax: bool,
    channel: u64,
    caller: i32,
)
    ensures
        ({
            let after = bridges_after_end(bridges, calls, call, is_fax);
            let s = end_step(bridges, calls, call, is_fax);
            let was_there = !is_fax && calls.contains_key(call) && calls[call].channel == Some(
                channel,
            ) && bridges.contains_key(channel);
            let others = exists|c: i32| c != call && #[trigger] bridges[channel].calls.contains(c);
            &&& !was_there ==> (after.contains_key(channel) <==> bridges.contains_key(channel))
                && after[channel] == bridges[channel] && s != EndStep::LastCaller(channel)
            &&& was_there && others ==> {
                &&& after.contains_key(channel)
                &&& after[channel].calls.contains(caller) <==> caller != call
                    && bridges[channel].calls.contains(caller)
                &&& after[channel].guild == bridges[channel].guild
                &&& after[channel].token == bridges[channel].token
                &&& after[channel].last_call == bridges[channel].last_call
                &&& after[channel].created == bridges[channel].created
                &&& after[channel].attempts == bridges[channel].attempts
                &&& after[channel].last_reconnect == bridges[channel].last_reconnect
                &&& s == EndStep::Voice
            }
            &&& was_there && !others ==> !after.contains_key(channel) && s == EndStep::LastCaller(
                channel,
            )
            &&& is_fax <==> s == EndStep::Fax
        }),
{
    let left = bridges[channel].calls.remove(call);
    let others = exists|c: i32| c != call && #[trigger] bridges[channel].calls.contains(c);
    if others {
        let c = choose|c: i32| c != call && #[trigger] bridges[channel].calls.contains(c);
        assert(left.contains(c));
    } else {
        assert(left =~= Set::<i32>::empty());
    }
}

/// A new bridge has the call that it was made for and no other, and its age counts from now.
pub proof fn law_a_new_bridge_has_one_call(
    guild: u64,
    call: i32,
    token: Seq<char>,
    now: u64,
    caller: i32,
)
    ensures
        ({
            let b = new_bridge(guild, call, token, now);
            &&& b.calls.contains(caller) <==> caller == call
            &&& b.guild == guild && b.token == token
            &&& b.last_call == now && b.created == now
            &&& b.attempts == 0 && b.last_reconnect is None
        }),
{
}

/// What becomes of an outbound call that was answered: without a request it is hung up, as is one
/// whose request names no guild or channel; where the bot is on a channel of the guild, or on its
/// way to the channel, it is busy; else a bridge is made to the channel that was named.
pub proof fn law_where_an_answered_call_goes(
    step: OutboundStep,
    req: Option<RequestFacts>,
    bridges: Map<u64, BridgeFacts>,
    pending: Set<u64>,
    guild: u64,
    channel: u64,
)
    requires
        outbound_step_is(step, req, bridges, pending),
        req is Some ==> (req->0).guild_id == crate::text::decimal(guild as nat),
        req is Some ==> (req->0).channel_id == crate::text::decimal(channel as nat),
    ensures
        step is NoRequest <==> req is None,
        !(step is BadRequest),
        step is Busy <==> req is Some && (pending.contains(channel) || exists|c: u64| #[trigger]
            bridges.contains_key(c) && bridges[c].guild == guild),
        step is Busy ==> step->Busy_report@ == (req->0).call_id,
        step is Create ==> step->channel_id.id() == channel && step->guild_id.id() == guild
            && step->bot_token@ == (req->0).bot_token && step->Create_report@ == (req->0).call_id,
{
    crate::text::lemma_parse_undoes_decimal(guild as nat, u64::MAX as nat);
    crate::text::lemma_parse_undoes_decimal(channel as nat, u64::MAX as nat);
}

/// A decision is carried out as it was made: nothing that it names is lost or changed on the way, and
/// only wrong credentials end a call without a sound.
pub proof fn law_decisions_are_carried_out(d: RouteDecision, s: RouteStep)
    requires
        step_of(d, s),
    ensures
        s is Hangup <==> d is RejectInvalidCredentials,
        s is PlayError <==> d is RejectWithError,
        s is PlayError ==> s->PlayError_0 == d->error,
        s is Menu <==> d is Menu,
        s is Menu ==> s->Menu_0 == d->menu,
        s is Redirect <==> d is Redirect,
        s is Redirect ==> s->domain == d->domain && s->extension == d->extension,
        s is Fax <==> d is ConnectFax,
        s is Fax ==> s->text_channel_id == d->text_channel_id && s->Fax_guild_id
            == d->ConnectFax_guild_id && s->Fax_bot_token == d->ConnectFax_bot_token,
        s is Connect <==> d is Connect,
        s is Connect ==> s->channel_id == d->channel_id && s->Connect_guild_id
            == d->Connect_guild_id && s->Connect_bot_token == d->Connect_bot_token,
{
}

} // verus!
