//! Calls from Discord to phones.

use crate::call::coordinator::{
    any_channel_in_guild, outbound_step_is, BridgeCoordinator, OutboundStep,
};
use crate::call::state::BridgeFacts;
use crate::config::{outbound_uri, DiscordOutboundSipConfig};
use crate::discord::command::{dialled, refusal, requested, CallCommand};
use crate::routing::{CallStatus, OutboundCallRequest};
use crate::sip::types::{SipCommand, SipTransport};
use crate::text::{
    before_char, behind_prefix, chars_of, join2, join3, lemma_parse_undoes_decimal, strip_prefix,
    text_of, up_to_char,
};
use vstd::prelude::*;
use vstd::string::*;

verus! {

/// Where a phone can be reached: the URI that it registered, the address that it registered
/// from, and the transport.
#[derive(Debug)]
pub struct PhoneContact {
    pub contact_uri: String,
    pub source_addr: String,
    pub transport: SipTransport,
}

/// The user of a contact: what stands in its URI in front of the at sign, or `fallback` where
/// it is no SIP URI.
pub open spec fn contact_user(uri: Seq<char>, fallback: Seq<char>) -> Seq<char> {
    match behind_prefix(uri, "sip:"@) {
        Some(rest) => before_char(rest, '@'),
        None => match behind_prefix(uri, "sips:"@) {
            Some(rest) => before_char(rest, '@'),
            None => fallback,
        },
    }
}

/// The URI that reaches a phone.
pub open spec fn contact_target(c: PhoneContact, fallback: Seq<char>) -> Seq<char> {
    let user = contact_user(c.contact_uri@, fallback);
    match c.transport {
        SipTransport::Tls => "sips:"@ + user + "@"@ + c.source_addr@,
        SipTransport::Tcp => "sip:"@ + user + "@"@ + c.source_addr@ + ";transport=tcp"@,
        SipTransport::Udp => "sip:"@ + user + "@"@ + c.source_addr@ + ";transport=udp"@,
    }
}

/// The URI that reaches a phone.
pub fn build_contact_uri(c: &PhoneContact, fallback: &str) -> (r: String)
    ensures
        r@ == contact_target(*c, fallback@),
{
    let uri: Vec<char> = chars_of(c.contact_uri.as_str());
    let user: String = match strip_prefix(uri.as_slice(), "sip:") {
        Some(rest) => text_of(up_to_char(rest.as_slice(), '@').as_slice()),
        None => match strip_prefix(uri.as_slice(), "sips:") {
            Some(rest) => text_of(up_to_char(rest.as_slice(), '@').as_slice()),
            None => String::from_str(fallback),
        },
    };
    match c.transport {
        SipTransport::Tls => {
            let head: String = join3("sips:", user.as_str(), "@");
            join2(head.as_str(), c.source_addr.as_str())
        },
        SipTransport::Tcp => {
            let head: String = join3("sip:", user.as_str(), "@");
            join3(head.as_str(), c.source_addr.as_str(), ";transport=tcp")
        },
        SipTransport::Udp => {
            let head: String = join3("sip:", user.as_str(), "@");
            join3(head.as_str(), c.source_addr.as_str(), ";transport=udp")
        },
    }
}

/// The command calls a URI on behalf of a request.
pub open spec fn is_leg(
    cmd: SipCommand,
    req: OutboundCallRequest,
    uri: Seq<char>,
    legs: nat,
) -> bool {
    match cmd {
        SipCommand::MakeOutboundCall { tracking_id, sip_uri, caller_display_name, fork_total } => {
            &&& tracking_id@ == req.call_id@
            &&& sip_uri@ == uri
            &&& caller_display_name is Some
            &&& (caller_display_name->0)@ == req.caller_username@
            &&& fork_total == legs
        },
        _ => false,
    }
}

/// The commands that serve a request: one for its own URI, or else one for each contact.
pub open spec fn are_legs(
    cmds: Seq<SipCommand>,
    req: OutboundCallRequest,
    contacts: Seq<PhoneContact>,
) -> bool {
    match req.sip_uri {
        Some(uri) => cmds.len() == 1 && is_leg(cmds[0], req, uri@, 1),
        None => cmds.len() == contacts.len() && forall|i: int|
            0 <= i < contacts.len() ==> is_leg(
                #[trigger] cmds[i],
                req,
                contact_target(contacts[i], req.discord_username@),
                contacts.len(),
            ),
    }
}

fn leg(req: &OutboundCallRequest, sip_uri: String, fork_total: usize) -> (r: SipCommand)
    ensures
        is_leg(r, *req, sip_uri@, fork_total as nat),
{
    SipCommand::MakeOutboundCall {
        tracking_id: req.call_id.clone(),
        sip_uri,
        caller_display_name: Some(req.caller_username.clone()),
        fork_total,
    }
}

/// The commands that serve a request, or `None` where there is nothing to call: that is
/// reported as a failure, anything else as ringing.
pub fn plan_outbound(req: &OutboundCallRequest, contacts: &Vec<PhoneContact>) -> (r: Option<
    Vec<SipCommand>,
>)
    ensures
        r is Some <==> req.sip_uri is Some || contacts@.len() > 0,
        r is Some ==> are_legs((r->0)@, *req, contacts@),
{
    if let Some(uri) = &req.sip_uri {
        let mut cmds: Vec<SipCommand> = Vec::new();
        cmds.push(leg(req, uri.clone(), 1));
        return Some(cmds);
    }
    if contacts.len() == 0 {
        return None;
    }
    let total: usize = contacts.len();
    let mut cmds: Vec<SipCommand> = Vec::new();
    let mut i: usize = 0;
    while i < contacts.len()
        invariant
            i <= contacts@.len(),
            total == contacts@.len(),
            cmds@.len() == i,
            forall|j: int|
                0 <= j < i ==> is_leg(
                    #[trigger] cmds@[j],
                    *req,
                    contact_target(contacts@[j], req.discord_username@),
                    contacts@.len(),
                ),
        decreases contacts@.len() - i,
    {
        let uri: String = build_contact_uri(&contacts[i], req.discord_username.as_str());
        cmds.push(leg(req, uri, total));
        i = i + 1;
    }
    Some(cmds)
}

/// What the backend is told of a request: that phones ring where it is served, and that it failed
/// where it is not, or no longer can be.
pub fn status_of_request(served: bool) -> (r: CallStatus)
    ensures
        r == (if served {
            CallStatus::Ringing
        } else {
            CallStatus::Failed
        }),
{
    if served {
        CallStatus::Ringing
    } else {
        CallStatus::Failed
    }
}

impl BridgeCoordinator {
    /// Takes an outbound request in: it is remembered under its name where it can be served.
    pub fn begin_outbound(&mut self, req: OutboundCallRequest, contacts: &Vec<PhoneContact>) -> (r:
        Option<Vec<SipCommand>>)
        ensures
            r is Some <==> req.sip_uri is Some || contacts@.len() > 0,
            r is Some ==> are_legs((r->0)@, req, contacts@),
            final(self).requests() == (if r is Some {
                old(self).requests().insert(req@.call_id, req@)
            } else {
                old(self).requests()
            }),
            final(self).calls() == old(self).calls(),
            final(self).bridges() == old(self).bridges(),
            final(self).pending() == old(self).pending(),
    {
        let r: Option<Vec<SipCommand>> = plan_outbound(&req, contacts);
        match r {
            None => None,
            Some(cmds) => {
                self.remember_request(req);
                Some(cmds)
            },
        }
    }
}

/// A call that was asked for from a voice channel leads back there: once it is answered, the
/// bridge that is made for it leads to the guild and channel that the command was given in, with
/// the bot's own token, unless the guild is in use.
pub proof fn law_a_call_leads_back_to_its_voice_channel(
    c: CallCommand,
    cfg: DiscordOutboundSipConfig,
    token: Seq<char>,
    now: u64,
    req: OutboundCallRequest,
    bridges: Map<u64, BridgeFacts>,
    pending: Set<u64>,
    step: OutboundStep,
)
    requires
        refusal(c) is None,
        requested(req, c, cfg, token, now),
        outbound_step_is(step, Some(req@), bridges, pending),
    ensures
        step is Busy <==> any_channel_in_guild(bridges, c.guild_id->0) || pending.contains(
            c.voice_channel->0,
        ),
        !(step is Busy) ==> step is Create && step->channel_id.id() == c.voice_channel->0
            && step->guild_id.id() == c.guild_id->0 && step->bot_token@ == token,
{
    lemma_parse_undoes_decimal(c.guild_id->0 as nat, u64::MAX as nat);
    lemma_parse_undoes_decimal(c.voice_channel->0 as nat, u64::MAX as nat);
}

/// A command calls one phone: its extension at the configured host.
pub proof fn law_a_command_calls_its_extension(
    c: CallCommand,
    cfg: DiscordOutboundSipConfig,
    token: Seq<char>,
    now: u64,
    req: OutboundCallRequest,
    contacts: Seq<PhoneContact>,
    cmds: Seq<SipCommand>,
)
    requires
        refusal(c) is None,
        requested(req, c, cfg, token, now),
        are_legs(cmds, req, contacts),
    ensures
        cmds.len() == 1,
        is_leg(cmds[0], req, outbound_uri(dialled(c), cfg.host@, cfg.port, cfg.transport), 1),
{
}

/// The user of a contact is what stands behind the scheme of its URI and in front of the at sign,
/// whatever else the URI holds.
pub proof fn law_the_user_of_a_contact(user: Seq<char>, rest: Seq<char>, fallback: Seq<char>)
    requires
        !user.contains('@'),
    ensures
        contact_user("sip:"@ + user + seq!['@'] + rest, fallback) == user,
        contact_user("sips:"@ + user + seq!['@'] + rest, fallback) == user,
        contact_user("tel:"@ + rest, fallback) == fallback,
{
    reveal_strlit("sip:");
    reveal_strlit("sips:");
    reveal_strlit("tel:");
    let tail = user + seq!['@'] + rest;
    let a = "sip:"@ + user + seq!['@'] + rest;
    let b = "sips:"@ + user + seq!['@'] + rest;
    let t = "tel:"@ + rest;
    crate::text::law_text_ends_in_front_of_a_character(user, '@', rest);
    assert(a.subrange(0, 4) =~= "sip:"@);
    assert(a.subrange(4, a.len() as int) =~= tail);
    assert(b.subrange(0, 4)[3] == 's' && "sip:"@[3] == ':');
    assert(b.subrange(0, 5) =~= "sips:"@);
    assert(b.subrange(5, b.len() as int) =~= tail);
    assert(t.subrange(0, 4)[0] == 't' && "sip:"@[0] == 's');
    if t.len() >= 5 {
        assert(t.subrange(0, 5)[0] == 't' && "sips:"@[0] == 's');
    }
}

/// Every phone of a request rings, each at the address that it registered from and over its own
/// transport, and each leg knows how many there are.
pub proof fn law_every_phone_rings(
    cmds: Seq<SipCommand>,
    req: OutboundCallRequest,
    contacts: Seq<PhoneContact>,
    i: int,
)
    requires
        req.sip_uri is None,
        are_legs(cmds, req, contacts),
        0 <= i < contacts.len(),
    ensures
        cmds.len() == contacts.len(),
        cmds[i] is MakeOutboundCall,
        cmds[i]->tracking_id@ == req.call_id@,
        cmds[i]->fork_total == contacts.len(),
        ({
            let user = contact_user(contacts[i].contact_uri@, req.discord_username@);
            let source = contacts[i].source_addr@;
            let uri = cmds[i]->sip_uri@;
            let head = if contacts[i].transport is Tls {
                "sips:"@
            } else {
                "sip:"@
            };
            let tail = if contacts[i].transport is Tls {
                ""@
            } else if contacts[i].transport is Tcp {
                ";transport=tcp"@
            } else {
                ";transport=udp"@
            };
            uri == head + user + "@"@ + source + tail
        }),
{
    reveal_strlit("");
    let uri = cmds[i]->sip_uri@;
    assert(is_leg(
        cmds[i],
        req,
        contact_target(contacts[i], req.discord_username@),
        contacts.len(),
    ));
    assert(uri + ""@ =~= uri);
}

} // verus!
