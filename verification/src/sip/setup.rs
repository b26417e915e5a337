//! How the SIP library is set up.

use crate::config::{copy_opt, opt_text, SipConfig};
use crate::text::{join2, signed_decimal, signed_decimal_text};
use vstd::prelude::*;
use vstd::string::*;

verus! {

/// The network that a CIDR text stands for: its address and the length of its prefix.
pub uninterp spec fn ipv4_network(cidr: Seq<char>) -> Option<(u32, u8)>;

/// `<ipnet::Ipv4Net as FromStr>::from_str`: the network that a CIDR text stands for, if it
/// stands for one. A prefix has at most thirty-two bits.
#[verifier::external_body]
fn parse_network(cidr: &str) -> (r: Option<(u32, u8)>)
    ensures
        r == ipv4_network(cidr@),
        r is Some ==> (r->0).1 <= 32,
{
    cidr.parse::<ipnet::Ipv4Net>().ok().map(|net| (u32::from(net.addr()), net.prefix_len()))
}

/// What clients of the local network are told.
#[derive(Debug)]
pub struct LocalNetwork {
    pub host: String,
    pub address: u32,
    pub prefix: u8,
    pub port: u16,
    /// The address that is replaced in session descriptions.
    pub rtp_public_ip: Option<String>,
}

/// Every host that clients are told is theirs to reach.
#[derive(Debug)]
pub struct ServerSetup {
    /// The host and port of Contact headers, where there is a public host.
    pub public: Option<(String, u16)>,
    pub local: Option<LocalNetwork>,
    pub port: u16,
    pub rtp_port: u16,
    pub rtp_port_range: u16,
    pub rtp_public_ip: Option<String>,
    pub account_uri: String,
    pub max_calls: u32,
}

/// The local network of a configuration, given what its CIDR text stands for. One that stands
/// for nothing is ignored.
pub fn local_network(config: &SipConfig, network: Option<(u32, u8)>) -> (r: Option<LocalNetwork>)
    ensures
        r is Some <==> config.local_net is Some && network is Some,
        r is Some ==> is_local(r->0, *config, network->0),
{
    match (&config.local_net, network) {
        (Some(ln), Some((address, prefix))) => Some(
            LocalNetwork {
                host: ln.host.clone(),
                address,
                prefix,
                port: config.port,
                rtp_public_ip: copy_opt(&config.rtp_public_ip),
            },
        ),
        _ => None,
    }
}

/// The local network is that of the configuration.
pub open spec fn is_local(l: LocalNetwork, config: SipConfig, network: (u32, u8)) -> bool {
    &&& config.local_net is Some
    &&& l.host@ == (config.local_net->0).host@
    &&& l.address == network.0
    &&& l.prefix == network.1
    &&& l.port == config.port
    &&& opt_text(l.rtp_public_ip) == opt_text(config.rtp_public_ip)
}

/// How the SIP library is set up for a configuration.
pub fn plan_setup(config: &SipConfig) -> (r: ServerSetup)
    requires
        config.rtp_port_start <= config.rtp_port_end,
    ensures
        r.public is Some <==> config.public_host@.len() > 0,
        r.public is Some ==> (r.public->0).0@ == config.public_host@ && (r.public->0).1
            == config.port,
        r.local is Some <==> config.local_net is Some && ipv4_network(
            (config.local_net->0).cidr@,
        ) is Some,
        r.local is Some ==> is_local(
            r.local->0,
            *config,
            ipv4_network((config.local_net->0).cidr@)->0,
        ),
        r.port == config.port,
        r.rtp_port == config.rtp_port_start,
        r.rtp_port_range == config.rtp_port_end - config.rtp_port_start,
        opt_text(r.rtp_public_ip) == opt_text(config.rtp_public_ip),
        r.account_uri@ == "sip:sipcord@"@ + config.public_host@,
        r.max_calls == 128,
{
    let public: Option<(String, u16)> = if config.public_host.as_str().is_empty() {
        None
    } else {
        Some((config.public_host.clone(), config.port))
    };
    let network: Option<(u32, u8)> = match &config.local_net {
        Some(ln) => parse_network(ln.cidr.as_str()),
        None => None,
    };
    ServerSetup {
        public,
        local: local_network(config, network),
        port: config.port,
        rtp_port: config.rtp_port_start,
        rtp_port_range: config.rtp_port_end - config.rtp_port_start,
        rtp_public_ip: copy_opt(&config.rtp_public_ip),
        account_uri: join2("sip:sipcord@", config.public_host.as_str()),
        max_calls: 128,
    }
}

/// A codec and its priority.
pub struct CodecPriority {
    pub name: &'static str,
    pub priority: u8,
}

/// The codecs that are offered; every other is switched off, so that an invitation fits into
/// one packet. A higher priority is preferred.
pub fn codec_priorities() -> (r: Vec<CodecPriority>)
    ensures
        r@.len() == 6,
        r@[0].name@ == "opus/48000"@ && r@[0].priority == 255,
        r@[1].name@ == "G722/16000"@ && r@[1].priority == 254,
        r@[2].name@ == "AMR/8000"@ && r@[2].priority == 252,
        r@[3].name@ == "PCMU/8000"@ && r@[3].priority == 200,
        r@[4].name@ == "PCMA/8000"@ && r@[4].priority == 199,
        r@[5].name@ == "telephone-event"@ && r@[5].priority == 200,
{
    let mut r: Vec<CodecPriority> = Vec::new();
    r.push(CodecPriority { name: "opus/48000", priority: 255 });
    r.push(CodecPriority { name: "G722/16000", priority: 254 });
    r.push(CodecPriority { name: "AMR/8000", priority: 252 });
    r.push(CodecPriority { name: "PCMU/8000", priority: 200 });
    r.push(CodecPriority { name: "PCMA/8000", priority: 199 });
    r.push(CodecPriority { name: "telephone-event", priority: 200 });
    r
}

/// A step of the setup that can fail.
#[derive(Debug, Clone, Copy, PartialEq, Eq, Structural)]
pub enum SetupStep {
    Create,
    Init,
    UdpTransport,
    TcpTransport,
    Start,
    NullSoundDevice,
    AddAccount,
}

/// What is said of a step that failed with a status.
pub open spec fn setup_failure(step: SetupStep, status: i32) -> Seq<char> {
    let code = signed_decimal(status as int);
    match step {
        SetupStep::Create => "Failed to create pjsua: "@ + code,
        SetupStep::Init => "Failed to init pjsua: "@ + code,
        SetupStep::UdpTransport => "Failed to create UDP transport: "@ + code,
        SetupStep::TcpTransport => "Failed to create TCP transport: "@ + code,
        SetupStep::Start => "Failed to start pjsua: "@ + code,
        SetupStep::NullSoundDevice => "Failed to set null sound device"@,
        SetupStep::AddAccount => "Failed to add account: "@ + code,
    }
}

/// Whether a step went well: its status is zero.
pub fn check_setup(step: SetupStep, status: i32) -> (r: Result<(), String>)
    ensures
        r is Ok <==> status == 0,
        r is Err ==> (r->Err_0)@ == setup_failure(step, status),
{
    if status == 0 {
        return Ok(());
    }
    let code: String = signed_decimal_text(status);
    let message: String = match step {
        SetupStep::Create => join2("Failed to create pjsua: ", code.as_str()),
        SetupStep::Init => join2("Failed to init pjsua: ", code.as_str()),
        SetupStep::UdpTransport => join2("Failed to create UDP transport: ", code.as_str()),
        SetupStep::TcpTransport => join2("Failed to create TCP transport: ", code.as_str()),
        SetupStep::Start => join2("Failed to start pjsua: ", code.as_str()),
        SetupStep::NullSoundDevice => String::from_str("Failed to set null sound device"),
        SetupStep::AddAccount => join2("Failed to add account: ", code.as_str()),
    };
    Err(message)
}

/// What becomes of TLS.
#[derive(Debug, Clone, Copy, PartialEq, Eq, Structural)]
pub enum TlsStep {
    /// The bridge runs without it: the certificate or the key is missing.
    Skip,
    /// Its transport is created.
    Create,
}

/// What becomes of TLS, given which of its files exist.
pub fn tls_step(cert_exists: bool, key_exists: bool) -> (r: TlsStep)
    ensures
        r == (if cert_exists && key_exists {
            TlsStep::Create
        } else {
            TlsStep::Skip
        }),
{
    if !cert_exists {
        return TlsStep::Skip;
    }
    if !key_exists {
        return TlsStep::Skip;
    }
    TlsStep::Create
}

/// The TLS transport, and whether it is to be made anew.
#[derive(Debug)]
pub struct TlsState {
    transport: Option<i32>,
    reload_pending: bool,
}

/// What a reload of TLS does.
#[derive(Debug, Clone, Copy, PartialEq, Eq, Structural)]
pub enum ReloadStep {
    /// Nothing, as calls are active.
    Busy,
    /// The transport with the number, if there is one, is closed; then one is created.
    CloseAndCreate(Option<i32>),
}

impl TlsState {
    /// The number of the transport, if there is one.
    pub closed spec fn open_transport(&self) -> Option<i32> {
        self.transport
    }

    /// The transport is to be made anew.
    pub closed spec fn pending(&self) -> bool {
        self.reload_pending
    }

    /// No transport.
    pub fn new() -> (r: Self)
        ensures
            r.open_transport() is None,
            !r.pending(),
    {
        TlsState { transport: None, reload_pending: false }
    }

    /// Notes whether the transport is to be made anew.
    pub fn set_tls_reload_pending(&mut self, pending: bool)
        ensures
            final(self).pending() == pending,
            final(self).open_transport() == old(self).open_transport(),
    {
        self.reload_pending = pending;
    }

    /// Begins a reload: not while calls are active. The old transport is given up.
    pub fn begin_reload(&mut self, active_calls: usize) -> (s: ReloadStep)
        ensures
            s == (if active_calls > 0 {
                ReloadStep::Busy
            } else {
                ReloadStep::CloseAndCreate(old(self).open_transport())
            }),
            final(self).open_transport() == (if active_calls > 0 {
                old(self).open_transport()
            } else {
                None
            }),
            final(self).pending() == old(self).pending(),
    {
        if active_calls > 0 {
            return ReloadStep::Busy;
        }
        let old_transport: Option<i32> = self.transport;
        self.transport = None;
        ReloadStep::CloseAndCreate(old_transport)
    }

    /// A transport was created.
    pub fn created(&mut self, transport: i32)
        ensures
            final(self).open_transport() == Some(transport),
            final(self).pending() == old(self).pending(),
    {
        self.transport = Some(transport);
    }

    /// A reload came to its end: where it created a transport, none is pending.
    pub fn finish_reload(&mut self, transport: Option<i32>)
        ensures
            final(self).open_transport() == (if transport is Some {
                transport
            } else {
                old(self).open_transport()
            }),
            final(self).pending() == (old(self).pending() && transport is None),
    {
        if let Some(t) = transport {
            self.transport = Some(t);
            self.reload_pending = false;
        }
    }
}

/// What is said of a step that failed ends with its status, but for the sound device, and no two
/// steps are spoken of alike.
pub proof fn law_a_failed_step_is_named(step: SetupStep, other: SetupStep, status: i32)
    requires
        status != 0,
    ensures
        ({
            let said = setup_failure(step, status);
            let code = signed_decimal(status as int);
            step != SetupStep::NullSoundDevice ==> said.len() >= code.len() && said.subrange(
                said.len() - code.len(),
                said.len() as int,
            ) == code
        }),
        setup_failure(step, status) == setup_failure(other, status) ==> step == other,
{
    reveal_strlit("Failed to create pjsua: ");
    reveal_strlit("Failed to init pjsua: ");
    reveal_strlit("Failed to create UDP transport: ");
    reveal_strlit("Failed to create TCP transport: ");
    reveal_strlit("Failed to start pjsua: ");
    reveal_strlit("Failed to set null sound device");
    reveal_strlit("Failed to add account: ");
    let said = setup_failure(step, status);
    let code = signed_decimal(status as int);
    if step != SetupStep::NullSoundDevice {
        assert(said.subrange(said.len() - code.len(), said.len() as int) =~= code);
    }
    let that = setup_failure(other, status);
    if said == that {
        assert(said[10] == that[10] && said[12] == that[12] && said[17] == that[17] && said[18]
            == that[18]);
    }
}

/// Clients of the local network are told the host that is configured for it, and are told apart by
/// the address and the prefix of the network.
pub proof fn law_what_local_clients_are_told(l: LocalNetwork, config: SipConfig, network: (u32, u8))
    requires
        is_local(l, config, network),
    ensures
        (l.address, l.prefix) == network,
        config.local_net is Some && l.host@ == (config.local_net->0).host@,
        l.port == config.port,
        l.rtp_public_ip is Some <==> config.rtp_public_ip is Some,
        l.rtp_public_ip is Some ==> (l.rtp_public_ip->0)@ == (config.rtp_public_ip->0)@,
{
}

} // verus!
