//! Where an incoming call goes, and what the backend is told of calls.

use crate::services::snowflake::Snowflake;
use vstd::prelude::*;

pub mod static_router;

verus! {

/// A request to call a phone, such as that of the Discord command `/call`.
#[derive(Debug)]
pub struct OutboundCallRequest {
    pub call_id: String,
    pub discord_username: String,
    pub guild_id: String,
    pub channel_id: String,
    pub bot_token: String,
    pub caller_username: String,
    pub sip_uri: Option<String>,
    /// When the request was made, in milliseconds.
    pub created_at: u64,
}

/// A request to hang up, such as that of the Discord command `/hangup`.
#[derive(Debug)]
pub struct HangupCallRequest {
    pub request_id: String,
    pub guild_id: String,
    pub channel_id: String,
    pub requested_by: String,
    /// When the request was made, in milliseconds.
    pub created_at: u64,
}

/// One option of a menu.
#[derive(Debug)]
pub struct MenuOptionRoute {
    pub guild_id: Snowflake,
    pub channel_id: Snowflake,
    pub label: Option<String>,
}

/// A menu that a caller is led through.
#[derive(Debug)]
pub struct MenuRoute {
    pub id: String,
    pub prompt: Option<String>,
    pub invalid_prompt: Option<String>,
    pub timeout_seconds: u64,
    pub max_attempts: u8,
    /// The fixed options, each with its digit; no digit occurs twice.
    pub options: Vec<(char, MenuOptionRoute)>,
}

/// Where an incoming call goes.
#[derive(Debug)]
pub enum RouteDecision {
    /// To a voice channel.
    Connect { channel_id: Snowflake, guild_id: Snowflake, user_id: String, bot_token: String },
    /// To the fax receiver, which posts to a text channel.
    ConnectFax {
        text_channel_id: Snowflake,
        guild_id: Snowflake,
        user_id: String,
        bot_token: String,
    },
    /// Through a menu.
    Menu { menu: MenuRoute },
    /// To another bridge.
    Redirect { domain: String, extension: String },
    /// Nowhere: the credentials are wrong, and the caller hears nothing.
    RejectInvalidCredentials,
    /// Nowhere: the caller hears an error.
    RejectWithError { error: CallError },
}

/// An error that the caller hears.
#[derive(Debug, Clone, Copy, PartialEq, Eq, Structural)]
pub enum CallError {
    NoChannelMapping,
    NoPermissions,
    DiscordApiError,
    ServerBusy,
    Unknown,
}

/// The name of the sound of an error.
pub open spec fn error_sound(e: CallError) -> Seq<char> {
    match e {
        CallError::NoChannelMapping => "no_channel_mapping"@,
        CallError::NoPermissions => "no_permissions"@,
        CallError::DiscordApiError => "server_is_busy"@,
        CallError::ServerBusy => "server_is_busy"@,
        CallError::Unknown => "unknown_error"@,
    }
}

impl CallError {
    /// The name of the sound of the error.
    pub fn sound_name(&self) -> (r: &'static str)
        ensures
            r@ == error_sound(*self),
    {
        match self {
            CallError::NoChannelMapping => "no_channel_mapping",
            CallError::NoPermissions => "no_permissions",
            CallError::DiscordApiError => "server_is_busy",
            CallError::ServerBusy => "server_is_busy",
            CallError::Unknown => "unknown_error",
        }
    }

    /// What went wrong, in words.
    pub fn message(&self) -> (r: &'static str)
        ensures
            r@ == (match *self {
                CallError::NoChannelMapping => "no channel mapping for the dialed extension"@,
                CallError::NoPermissions => "user lacks permission for the target Discord channel"@,
                CallError::DiscordApiError => "Discord API error"@,
                CallError::ServerBusy => "server is busy"@,
                CallError::Unknown => "unknown call error"@,
            }),
    {
        match self {
            CallError::NoChannelMapping => "no channel mapping for the dialed extension",
            CallError::NoPermissions => "user lacks permission for the target Discord channel",
            CallError::DiscordApiError => "Discord API error",
            CallError::ServerBusy => "server is busy",
            CallError::Unknown => "unknown call error",
        }
    }
}

/// What the backend is told of an outbound call.
#[derive(Debug, Clone, Copy, PartialEq, Eq, Structural)]
pub enum CallStatus {
    /// The phones ring.
    Ringing,
    /// A phone was answered.
    Answered,
    /// The call failed.
    Failed,
    /// The call was answered, but no sound ever came from it.
    NoAudio,
}

impl CallStatus {
    /// The word for the status.
    pub fn name(self) -> (r: &'static str)
        ensures
            r@ == (match self {
                CallStatus::Ringing => "ringing"@,
                CallStatus::Answered => "answered"@,
                CallStatus::Failed => "failed"@,
                CallStatus::NoAudio => "no_audio"@,
            }),
    {
        match self {
            CallStatus::Ringing => "ringing",
            CallStatus::Answered => "answered",
            CallStatus::Failed => "failed",
            CallStatus::NoAudio => "no_audio",
        }
    }
}

/// What the backend is told of a call that starts.
#[derive(Debug)]
pub struct CallStartedInfo {
    pub sip_call_id: String,
    pub user_id: String,
    pub guild_id: String,
    pub channel_id: String,
    pub extension: String,
}

/// An entry of the phone directory.
#[derive(Debug)]
pub struct PhoneDirectoryEntry {
    pub id: String,
    pub label: String,
    pub extension: String,
}

/// Errors are heard apart, but for those of Discord, which are heard as a busy server.
pub proof fn law_errors_are_heard_apart(a: CallError, b: CallError)
    ensures
        error_sound(a) == error_sound(b) <==> a == b || ((a == CallError::DiscordApiError || a
            == CallError::ServerBusy) && (b == CallError::DiscordApiError || b
            == CallError::ServerBusy)),
        error_sound(a) == "server_is_busy"@ <==> a == CallError::DiscordApiError || a
            == CallError::ServerBusy,
        error_sound(a) == "no_permissions"@ <==> a == CallError::NoPermissions,
        error_sound(a) == "no_channel_mapping"@ <==> a == CallError::NoChannelMapping,
{
    reveal_strlit("no_channel_mapping");
    reveal_strlit("no_permissions");
    reveal_strlit("server_is_busy");
    reveal_strlit("unknown_error");
    assert("no_channel_mapping"@.len() == 18 && "no_permissions"@.len() == 14
        && "server_is_busy"@.len() == 14 && "unknown_error"@.len() == 13);
    assert("no_permissions"@[0] == 'n' && "server_is_busy"@[0] == 's');
}

} // verus!
