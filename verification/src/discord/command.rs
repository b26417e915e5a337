//! The commands that call phones from a voice channel, and hang up.

use crate::config::{opt_text, outbound_uri, DiscordOutboundSipConfig};
use crate::routing::{HangupCallRequest, OutboundCallRequest};
use crate::text::{
    behind_prefix, chars_of, decimal, decimal_text, join2, join3, lemma_parse_undoes_decimal,
    occurs_at, parse_decimal, strip_prefix, text_of, trim, trimmed,
};
use vstd::prelude::*;
use vstd::string::*;

verus! {

/// A letter or digit of ASCII, or one of `*#+-_.`.
pub open spec fn safe_char(c: char) -> bool {
    ('0' <= c && c <= '9') || ('A' <= c && c <= 'Z') || ('a' <= c && c <= 'z') || c == '*' || c
        == '#' || c == '+' || c == '-' || c == '_' || c == '.'
}

/// An extension that can be put into a URI: one to sixty-four safe characters.
pub open spec fn safe_extension(s: Seq<char>) -> bool {
    0 < s.len() <= 64 && forall|i: int| 0 <= i < s.len() ==> safe_char(#[trigger] s[i])
}

/// Whether an extension can be put into a URI.
pub fn is_safe_extension(extension: &str) -> (r: bool)
    ensures
        r == safe_extension(extension@),
{
    let v: Vec<char> = chars_of(extension);
    if v.len() == 0 || v.len() > 64 {
        return false;
    }
    let mut i: usize = 0;
    while i < v.len()
        invariant
            v@ == extension@,
            i <= v@.len(),
            forall|j: int| 0 <= j < i ==> safe_char(#[trigger] v@[j]),
        decreases v@.len() - i,
    {
        let c: char = v[i];
        let ok: bool = ('0' <= c && c <= '9') || ('A' <= c && c <= 'Z') || ('a' <= c && c <= 'z')
            || c == '*' || c == '#' || c == '+' || c == '-' || c == '_' || c == '.';
        if !ok {
            return false;
        }
        i = i + 1;
    }
    true
}

/// The URI of a safe extension holds nothing of the extension that could end its user part: no
/// at sign, colon, semicolon, angle bracket, quote, slash or space.
pub proof fn law_safe_extensions_stay_in_the_user_part(s: Seq<char>, i: int)
    requires
        safe_extension(s),
        0 <= i < s.len(),
    ensures
        s[i] != '@' && s[i] != ':' && s[i] != ';' && s[i] != '<' && s[i] != '>' && s[i] != '"'
            && s[i] != '/' && s[i] != ' ' && s[i] != '\\' && s[i] != '?' && s[i] != '&',
{
    assert(safe_char(s[i]));
}

/// A command as it was given.
#[derive(Debug)]
pub struct CallCommand {
    pub command_id: u64,
    /// The extension to dial.
    pub extension: Option<String>,
    /// The guild that the command was given in.
    pub guild_id: Option<u64>,
    /// Whether the guild is known.
    pub guild_known: bool,
    /// The voice channel that the user is on.
    pub voice_channel: Option<u64>,
    pub nick: Option<String>,
    pub global_name: Option<String>,
    pub user_name: String,
}

/// The extension to dial, without white space round it.
pub open spec fn dialled(c: CallCommand) -> Seq<char> {
    trim((c.extension->0)@)
}

/// The name of the caller: the nick, or else the global name, or else the user name.
pub open spec fn caller_name(c: CallCommand) -> Seq<char> {
    match (opt_text(c.nick), opt_text(c.global_name)) {
        (Some(n), _) => n,
        (None, Some(g)) => g,
        (None, None) => c.user_name@,
    }
}

/// Why a command cannot be carried out, if it cannot: the first of the reasons.
pub open spec fn refusal(c: CallCommand) -> Option<Seq<char>> {
    if c.extension is None {
        Some("Missing extension."@)
    } else if !safe_extension(dialled(c)) {
        Some(
            "Extension contains unsupported characters. Use digits or simple SIP-safe extension text."@,
        )
    } else if c.guild_id is None {
        Some("This command only works inside a server."@)
    } else if !c.guild_known {
        Some("Guild is not available in cache yet. Try again in a moment."@)
    } else if c.voice_channel is None {
        Some("Join a voice channel first, then run `/call` there."@)
    } else {
        None
    }
}

/// The request is that of the command.
pub open spec fn requested(
    r: OutboundCallRequest,
    c: CallCommand,
    cfg: DiscordOutboundSipConfig,
    token: Seq<char>,
    now: u64,
) -> bool {
    &&& r.call_id@ == "discord-"@ + decimal(c.command_id as nat) + "-"@ + dialled(c)
    &&& r.discord_username@ == dialled(c)
    &&& r.guild_id@ == decimal(c.guild_id->0 as nat)
    &&& r.channel_id@ == decimal(c.voice_channel->0 as nat)
    &&& r.bot_token@ == token
    &&& r.caller_username@ == caller_name(c)
    &&& opt_text(r.sip_uri) == Some(outbound_uri(dialled(c), cfg.host@, cfg.port, cfg.transport))
    &&& r.created_at == now
}

/// The request that a command makes, or what the user is told.
pub fn build_outbound_request(
    c: &CallCommand,
    cfg: &DiscordOutboundSipConfig,
    bot_token: &str,
    now: u64,
) -> (r: Result<OutboundCallRequest, String>)
    ensures
        match r {
            Ok(req) => refusal(*c) is None && requested(req, *c, *cfg, bot_token@, now),
            Err(m) => refusal(*c) == Some(m@),
        },
{
    let extension: String = match &c.extension {
        Some(e) => text_of(trimmed(chars_of(e.as_str()).as_slice()).as_slice()),
        None => {
            return Err(String::from_str("Missing extension."));
        },
    };
    if !is_safe_extension(extension.as_str()) {
        return Err(
            String::from_str(
                "Extension contains unsupported characters. Use digits or simple SIP-safe extension text.",
            ),
        );
    }
    let guild_id: u64 = match c.guild_id {
        Some(g) => g,
        None => {
            return Err(String::from_str("This command only works inside a server."));
        },
    };
    if !c.guild_known {
        return Err(
            String::from_str("Guild is not available in cache yet. Try again in a moment."),
        );
    }
    let channel_id: u64 = match c.voice_channel {
        Some(v) => v,
        None => {
            return Err(String::from_str("Join a voice channel first, then run `/call` there."));
        },
    };
    let caller_username: String = name_of_caller(c);
    let head: String = join3("discord-", decimal_text(c.command_id).as_str(), "-");
    Ok(
        OutboundCallRequest {
            call_id: join2(head.as_str(), extension.as_str()),
            discord_username: extension.clone(),
            guild_id: decimal_text(guild_id),
            channel_id: decimal_text(channel_id),
            bot_token: String::from_str(bot_token),
            caller_username,
            sip_uri: Some(cfg.build_sip_uri(extension.as_str())),
            created_at: now,
        },
    )
}

/// What the user is told once a request was made: whether it could be queued.
pub fn dialling_text(extension: &str, queued: bool) -> (r: String)
    ensures
        r@ == (if queued {
            "Dialing extension `"@ + extension@ + "` from your current voice channel."@
        } else {
            "Outbound call queue is unavailable right now."@
        }),
{
    if queued {
        join3("Dialing extension `", extension, "` from your current voice channel.")
    } else {
        String::from_str("Outbound call queue is unavailable right now.")
    }
}

/// The commands that are registered in each guild: none, unless phones can be called.
pub open spec fn registered(outbound: bool) -> Seq<Seq<char>> {
    if outbound {
        seq!["call"@, "hangup"@, "directory"@]
    } else {
        Seq::empty()
    }
}

/// The commands that are registered in each guild: `/call`, `/hangup` and `/directory` where there
/// is a host to call phones at, and none where there is not.
pub fn commands_to_register(outbound: bool) -> (r: Vec<String>)
    ensures
        r@.map_values(|s: String| s@) == registered(outbound),
{
    let mut r: Vec<String> = Vec::new();
    if outbound {
        r.push(String::from_str("call"));
        r.push(String::from_str("hangup"));
        r.push(String::from_str("directory"));
    }
    proof {
        assert(r@.map_values(|s: String| s@) =~= registered(outbound));
    }
    r
}

/// Why a user's calls cannot be hung up, if they cannot: the first of the reasons.
pub open spec fn hangup_refusal(c: CallCommand) -> Option<Seq<char>> {
    if c.guild_id is None {
        Some("This command only works inside a server."@)
    } else if !c.guild_known {
        Some("Guild is not available in cache yet. Try again in a moment."@)
    } else if c.voice_channel is None {
        Some("Join a voice channel first, then run `/hangup` there."@)
    } else {
        None
    }
}

/// The request to hang up is that of the command.
pub open spec fn hangup_asked(r: HangupCallRequest, c: CallCommand, now: u64) -> bool {
    &&& r.request_id@ == "discord-"@ + decimal(c.command_id as nat) + "-hangup"@
    &&& r.guild_id@ == decimal(c.guild_id->0 as nat)
    &&& r.channel_id@ == decimal(c.voice_channel->0 as nat)
    &&& r.requested_by@ == caller_name(c)
    &&& r.created_at == now
}

/// The name of the caller.
fn name_of_caller(c: &CallCommand) -> (r: String)
    ensures
        r@ == caller_name(*c),
{
    match (&c.nick, &c.global_name) {
        (Some(n), _) => n.clone(),
        (None, Some(g)) => g.clone(),
        (None, None) => c.user_name.clone(),
    }
}

/// The request to hang up that a command makes, or what the user is told.
pub fn build_hangup_request(c: &CallCommand, now: u64) -> (r: Result<HangupCallRequest, String>)
    ensures
        match r {
            Ok(req) => hangup_refusal(*c) is None && hangup_asked(req, *c, now),
            Err(m) => hangup_refusal(*c) == Some(m@),
        },
{
    let guild_id: u64 = match c.guild_id {
        Some(g) => g,
        None => {
            return Err(String::from_str("This command only works inside a server."));
        },
    };
    if !c.guild_known {
        return Err(
            String::from_str("Guild is not available in cache yet. Try again in a moment."),
        );
    }
    let channel_id: u64 = match c.voice_channel {
        Some(v) => v,
        None => {
            return Err(String::from_str("Join a voice channel first, then run `/hangup` there."));
        },
    };
    Ok(
        HangupCallRequest {
            request_id: join3("discord-", decimal_text(c.command_id).as_str(), "-hangup"),
            guild_id: decimal_text(guild_id),
            channel_id: decimal_text(channel_id),
            requested_by: name_of_caller(c),
            created_at: now,
        },
    )
}

/// A request to hang up names the voice channel that the command was given in.
pub proof fn law_a_hangup_is_for_its_voice_channel(c: CallCommand, req: HangupCallRequest, now: u64)
    requires
        hangup_refusal(c) is None,
        hangup_asked(req, c, now),
    ensures
        parse_decimal(req.channel_id@, u64::MAX as nat) == Some(c.voice_channel->0 as nat),
        parse_decimal(req.guild_id@, u64::MAX as nat) == Some(c.guild_id->0 as nat),
{
    lemma_parse_undoes_decimal(c.voice_channel->0 as nat, u64::MAX as nat);
    lemma_parse_undoes_decimal(c.guild_id->0 as nat, u64::MAX as nat);
}

/// The identifier of the directory's button for an extension.
pub open spec fn button_of(extension: Seq<char>) -> Seq<char> {
    "dial:"@ + extension
}

/// The identifier of the directory's button for an extension.
pub fn button_id(extension: &str) -> (r: String)
    ensures
        r@ == button_of(extension@),
{
    join2("dial:", extension)
}

/// The extension that a button dials; `None` for a button that is not the directory's.
pub fn button_extension(id: &str) -> (r: Option<String>)
    ensures
        r is Some <==> behind_prefix(id@, "dial:"@) is Some,
        r is Some ==> Some((r->0)@) == behind_prefix(id@, "dial:"@),
{
    match strip_prefix(chars_of(id).as_slice(), "dial:") {
        Some(rest) => Some(text_of(rest.as_slice())),
        None => None,
    }
}

/// A button of the directory dials the extension that it was made for, as the command for that
/// extension does.
pub proof fn law_a_button_dials_its_extension(extension: Seq<char>)
    ensures
        behind_prefix(button_of(extension), "dial:"@) == Some(extension),
{
    let id = button_of(extension);
    let prefix = "dial:"@;
    assert(id.subrange(0, prefix.len() as int) =~= prefix);
    assert(occurs_at(id, prefix, 0));
    assert(id.subrange(prefix.len() as int, id.len() as int) =~= extension);
}

/// Which extensions are safe: those of one to sixty-four characters, each of which is a letter or a
/// digit of ASCII, a star, a pound sign, a plus, a hyphen, an underscore or a dot.
pub proof fn law_which_extensions_are_safe(s: Seq<char>)
    ensures
        safe_extension(s) <==> 1 <= s.len() <= 64 && forall|i: int|
            0 <= i < s.len() ==> {
                let u = (#[trigger] s[i]) as int;
                48 <= u <= 57 || 65 <= u <= 90 || 97 <= u <= 122 || u == 42 || u == 35 || u == 43
                    || u == 45 || u == 95 || u == 46
            },
{
    assert forall|i: int| 0 <= i < s.len() implies safe_char(#[trigger] s[i]) == ({
        let u = s[i] as int;
        48 <= u <= 57 || 65 <= u <= 90 || 97 <= u <= 122 || u == 42 || u == 35 || u == 43 || u == 45
            || u == 95 || u == 46
    }) by {}
    if forall|i: int|
        0 <= i < s.len() ==> {
            let u = (#[trigger] s[i]) as int;
            48 <= u <= 57 || 65 <= u <= 90 || 97 <= u <= 122 || u == 42 || u == 35 || u == 43 || u
                == 45 || u == 95 || u == 46
        } {
        assert forall|i: int| 0 <= i < s.len() implies safe_char(#[trigger] s[i]) by {}
    }
}

/// A user may call a phone exactly where an extension is named that is safe without the white space
/// round it, and the user is on a voice channel of a guild that is known. The name that is shown is
/// the nickname, or else the global name, or else the user's.
pub proof fn law_who_may_call(c: CallCommand)
    ensures
        refusal(c) is None <==> c.extension is Some && safe_extension(trim((c.extension->0)@))
            && c.guild_id is Some && c.guild_known && c.voice_channel is Some,
        hangup_refusal(c) is None <==> c.guild_id is Some && c.guild_known && c.voice_channel
            is Some,
        c.nick is Some ==> caller_name(c) == (c.nick->0)@,
        c.nick is None && c.global_name is Some ==> caller_name(c) == (c.global_name->0)@,
        c.nick is None && c.global_name is None ==> caller_name(c) == c.user_name@,
{
}

/// The three commands are there where calls out are, in their order, and none is there else.
pub proof fn law_which_commands_are_there()
    ensures
        registered(true).len() == 3,
        registered(true)[0] == seq!['c', 'a', 'l', 'l'],
        registered(true)[1] == seq!['h', 'a', 'n', 'g', 'u', 'p'],
        registered(true)[2] == seq!['d', 'i', 'r', 'e', 'c', 't', 'o', 'r', 'y'],
        registered(false).len() == 0,
{
    reveal_strlit("call");
    reveal_strlit("hangup");
    reveal_strlit("directory");
    assert("call"@ =~= seq!['c', 'a', 'l', 'l']);
    assert("hangup"@ =~= seq!['h', 'a', 'n', 'g', 'u', 'p']);
    assert("directory"@ =~= seq!['d', 'i', 'r', 'e', 'c', 't', 'o', 'r', 'y']);
}

} // verus!
