//! The types of the SIP side.

use crate::config::AppConfig;
use crate::config::{default_bridge, BridgeConfig};
use crate::text::{signed_decimal, signed_decimal_text};
use vstd::prelude::*;
use vstd::std_specs::convert::FromSpec;
use vstd::string::*;

verus! {

/// The number of a SIP call.
#[derive(Debug, Clone, Copy, PartialEq, Eq, Hash, PartialOrd, Ord, Structural)]
pub struct CallId(i32);

impl CallId {
    /// The number.
    pub closed spec fn num(&self) -> i32 {
        self.0
    }

    /// The number that stands for none.
    pub fn invalid() -> (r: Self)
        ensures
            r.num() == -1,
    {
        CallId(-1)
    }

    /// Wraps a number.
    pub fn new(value: i32) -> (r: Self)
        ensures
            r.num() == value,
    {
        CallId(value)
    }

    /// The number.
    pub fn get(self) -> (r: i32)
        ensures
            r == self.num(),
    {
        self.0
    }

    /// Whether the number stands for one: it is not negative.
    pub fn is_valid(self) -> (r: bool)
        ensures
            r == (self.num() >= 0),
    {
        self.0 >= 0
    }

    /// The number in decimal notation.
    pub fn text(&self) -> (s: String)
        ensures
            s@ == signed_decimal(self.num() as int),
    {
        signed_decimal_text(self.0)
    }
}

impl core::ops::Deref for CallId {
    type Target = i32;

    fn deref(&self) -> (r: &i32)
        ensures
            *r == self.num(),
    {
        &self.0
    }
}

impl From<i32> for CallId {
    fn from(v: i32) -> Self {
        CallId(v)
    }
}

impl vstd::std_specs::convert::FromSpecImpl<i32> for CallId {
    open spec fn obeys_from_spec() -> bool {
        true
    }

    closed spec fn from_spec(v: i32) -> Self {
        CallId(v)
    }
}

impl From<CallId> for i32 {
    fn from(c: CallId) -> i32 {
        c.0
    }
}

impl vstd::std_specs::convert::FromSpecImpl<CallId> for i32 {
    open spec fn obeys_from_spec() -> bool {
        true
    }

    open spec fn from_spec(c: CallId) -> i32 {
        c.num()
    }
}

/// A number that is turned into a call and back is unchanged.
pub proof fn law_call_numbers_are_kept(v: i32)
    ensures
        <CallId as FromSpec<i32>>::obeys_from_spec(),
        <CallId as FromSpec<i32>>::from_spec(v).num() == v,
        <i32 as FromSpec<CallId>>::obeys_from_spec(),
        <i32 as FromSpec<CallId>>::from_spec(<CallId as FromSpec<i32>>::from_spec(v)) == v,
{
}

/// The number of a port of the conference bridge.
#[derive(Debug, Clone, Copy, PartialEq, Eq, Hash, PartialOrd, Ord, Structural)]
pub struct ConfPort(i32);

impl ConfPort {
    /// The number.
    pub closed spec fn num(&self) -> i32 {
        self.0
    }

    /// The number that stands for none.
    pub fn invalid() -> (r: Self)
        ensures
            r.num() == -1,
    {
        ConfPort(-1)
    }

    /// Wraps a number.
    pub fn new(value: i32) -> (r: Self)
        ensures
            r.num() == value,
    {
        ConfPort(value)
    }

    /// The number.
    pub fn get(self) -> (r: i32)
        ensures
            r == self.num(),
    {
        self.0
    }

    /// Whether the number stands for one: it is not negative.
    pub fn is_valid(self) -> (r: bool)
        ensures
            r == (self.num() >= 0),
    {
        self.0 >= 0
    }

    /// The number in decimal notation.
    pub fn text(&self) -> (s: String)
        ensures
            s@ == signed_decimal(self.num() as int),
    {
        signed_decimal_text(self.0)
    }
}

impl core::ops::Deref for ConfPort {
    type Target = i32;

    fn deref(&self) -> (r: &i32)
        ensures
            *r == self.num(),
    {
        &self.0
    }
}

impl From<i32> for ConfPort {
    fn from(v: i32) -> Self {
        ConfPort(v)
    }
}

impl vstd::std_specs::convert::FromSpecImpl<i32> for ConfPort {
    open spec fn obeys_from_spec() -> bool {
        true
    }

    closed spec fn from_spec(v: i32) -> Self {
        ConfPort(v)
    }
}

impl From<ConfPort> for i32 {
    fn from(c: ConfPort) -> i32 {
        c.0
    }
}

impl vstd::std_specs::convert::FromSpecImpl<ConfPort> for i32 {
    open spec fn obeys_from_spec() -> bool {
        true
    }

    open spec fn from_spec(c: ConfPort) -> i32 {
        c.num()
    }
}

/// A number that is turned into a port and back is unchanged.
pub proof fn law_port_numbers_are_kept(v: i32)
    ensures
        <ConfPort as FromSpec<i32>>::obeys_from_spec(),
        <ConfPort as FromSpec<i32>>::from_spec(v).num() == v,
        <i32 as FromSpec<ConfPort>>::obeys_from_spec(),
        <i32 as FromSpec<ConfPort>>::from_spec(<ConfPort as FromSpec<i32>>::from_spec(v)) == v,
{
}

/// The credentials of a request, as its Authorization header has them.
#[derive(Debug)]
pub struct DigestAuthParams {
    pub username: String,
    pub realm: String,
    pub nonce: String,
    pub uri: String,
    pub response: String,
    pub method: String,
    pub qop: Option<String>,
    pub nc: Option<String>,
    pub cnonce: Option<String>,
}

impl Default for DigestAuthParams {
    fn default() -> (r: Self)
        ensures
            r.username@.len() == 0,
            r.realm@.len() == 0,
            r.nonce@.len() == 0,
            r.uri@.len() == 0,
            r.response@.len() == 0,
            r.method@.len() == 0,
            r.qop is None,
            r.nc is None,
            r.cnonce is None,
    {
        DigestAuthParams {
            username: String::new(),
            realm: String::new(),
            nonce: String::new(),
            uri: String::new(),
            response: String::new(),
            method: String::new(),
            qop: None,
            nc: None,
            cnonce: None,
        }
    }
}

/// The realm of the server.
pub const SIP_REALM: &'static str = "sipcord";

/// The sample rate of the conference bridge.
pub const CONF_SAMPLE_RATE: u32 = 16000;

/// The channels of the conference bridge.
pub const CONF_CHANNELS: u32 = 1;

/// The length of a frame in milliseconds.
pub const FRAME_PTIME_MS: u32 = 20;

/// The samples of a frame.
pub const SAMPLES_PER_FRAME: usize = 320;

/// A frame holds the samples of its length at the rate of the conference bridge.
pub proof fn law_frame_length()
    ensures
        SAMPLES_PER_FRAME == CONF_SAMPLE_RATE * FRAME_PTIME_MS / 1000,
{
}

/// The bridge configuration in force: the loaded one, or the default.
pub open spec fn bridge_in_force(loaded: Option<&AppConfig>) -> BridgeConfig {
    match loaded {
        Some(c) => c.bridge,
        None => default_bridge(),
    }
}

/// Seconds without RTP before a call is dead.
pub fn rtp_inactivity_timeout_secs(loaded: Option<&AppConfig>) -> (r: u64)
    ensures
        r == bridge_in_force(loaded).rtp_inactivity_timeout_secs,
{
    AppConfig::bridge(loaded).rtp_inactivity_timeout_secs
}

/// Seconds without any RTP at all before a call is dead.
pub fn no_audio_timeout_secs(loaded: Option<&AppConfig>) -> (r: u64)
    ensures
        r == bridge_in_force(loaded).no_audio_timeout_secs,
{
    AppConfig::bridge(loaded).no_audio_timeout_secs
}

/// Seconds before a bridge without calls is destroyed.
pub fn empty_bridge_grace_period_secs(loaded: Option<&AppConfig>) -> (r: u64)
    ensures
        r == bridge_in_force(loaded).empty_bridge_grace_period_secs,
{
    AppConfig::bridge(loaded).empty_bridge_grace_period_secs
}

/// Samples buffered per channel, at most.
pub fn max_channel_buffer_samples(loaded: Option<&AppConfig>) -> (r: usize)
    ensures
        r == bridge_in_force(loaded).max_channel_buffer_samples,
{
    AppConfig::bridge(loaded).max_channel_buffer_samples
}

/// What the SIP side reports.
#[derive(Debug)]
pub enum SipEvent {
    /// An authenticated call comes in.
    IncomingCall {
        call_id: CallId,
        digest_auth: DigestAuthParams,
        extension: String,
        source_ip: Option<String>,
    },
    /// A call has ended.
    CallEnded { call_id: CallId },
    /// A digit was pressed.
    Dtmf { call_id: CallId, digit: char },
    /// A call has had no audio for too long; `rx_count` packets were received before.
    CallTimeout { call_id: CallId, rx_count: u64 },
    /// An outbound call was answered.
    OutboundCallAnswered { tracking_id: String, call_id: CallId },
    /// An outbound call failed.
    OutboundCallFailed { tracking_id: String, call_id: Option<CallId>, reason: String },
    /// The remote side offers T.38.
    T38Offered {
        call_id: CallId,
        remote_ip: String,
        remote_port: u16,
        t38_version: u8,
        max_bit_rate: u32,
        rate_management: String,
        udp_ec: String,
        local_port: u16,
    },
}

/// What the SIP side is told to do.
#[derive(Debug)]
pub enum SipCommand {
    /// Play samples to a call.
    PlayDirectToCall { call_id: CallId, samples: Vec<i16> },
    /// Stop what is played to a call.
    StopDirectToCall { call_id: CallId },
    /// Play samples to a call again and again.
    StartConnectingLoop { call_id: CallId, samples: Vec<i16> },
    /// Hang up.
    Hangup { call_id: CallId },
    /// Answer with 200.
    Answer { call_id: CallId },
    /// Answer with 183, so that the caller hears what is played.
    Send183 { call_id: CallId },
    /// Play a file to a call, and hang up behind it.
    StartStreaming { call_id: CallId, path: String },
    /// Play a tone to a call until the caller hangs up.
    StartTestTone { call_id: CallId },
    /// Redirect a call to another bridge.
    Redirect { call_id: CallId, domain: String, extension: String },
    /// Call a SIP URI.
    MakeOutboundCall {
        tracking_id: String,
        sip_uri: String,
        caller_display_name: Option<String>,
        fork_total: usize,
    },
    /// Answer a registration that was put off.
    RespondRegister { expires: u32, contact_uri: Option<String>, auth_ok: bool },
}

/// The transport that a client registered over.
#[derive(Debug, Clone, Copy, PartialEq, Eq, Structural)]
pub enum SipTransport {
    Udp,
    Tcp,
    Tls,
}

/// A call that the SIP side knows of.
#[derive(Debug, Clone, Copy, PartialEq, Eq, Structural)]
pub struct CallState;

/// What a configuration says holds wherever one was loaded.
pub proof fn law_the_loaded_configuration_holds(c: &AppConfig)
    ensures
        bridge_in_force(Some(c)) == c.bridge,
        bridge_in_force(None).rtp_inactivity_timeout_secs == 60,
        bridge_in_force(None).no_audio_timeout_secs == 10,
        bridge_in_force(None).empty_bridge_grace_period_secs == 30,
        bridge_in_force(None).max_channel_buffer_samples == 32000,
{
}

} // verus!
