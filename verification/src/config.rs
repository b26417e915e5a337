//! What the bridge is configured with.

use crate::sorting::{ascii_lower_text, ascii_lowercase};
use crate::text::{chars_of, decimal, decimal_text, join2, join3, same_text, text_of, trim, trimmed};
use vstd::prelude::*;
use vstd::string::*;

verus! {

/// The data directory, where the environment does not say.
pub fn default_data_dir() -> (r: String)
    ensures
        r@ == "/var/lib/sipcord"@,
{
    String::from_str("/var/lib/sipcord")
}

/// The configuration file, where the environment does not say.
pub fn default_config_path() -> (r: String)
    ensures
        r@ == "./config.toml"@,
{
    String::from_str("./config.toml")
}

/// The name of the bridge, where the environment does not say.
pub fn default_bridge_id() -> (r: String)
    ensures
        r@ == "br_unknown"@,
{
    String::from_str("br_unknown")
}

/// The directory of sounds, where the environment does not say.
pub fn default_sounds_dir() -> (r: String)
    ensures
        r@ == "./wav"@,
{
    String::from_str("./wav")
}

/// The dialplan, where the environment does not say.
pub fn default_dialplan_path() -> (r: String)
    ensures
        r@ == "./dialplan.toml"@,
{
    String::from_str("./dialplan.toml")
}

/// The transport of calls from Discord, where the environment does not say.
pub fn default_discord_outbound_sip_transport() -> (r: String)
    ensures
        r@ == "udp"@,
{
    String::from_str("udp")
}

/// The SIP port, where the environment does not say.
pub fn default_sip_port() -> (r: u16)
    ensures
        r == 5060,
{
    5060
}

/// The first RTP port, where the environment does not say.
pub fn default_rtp_port_start() -> (r: u16)
    ensures
        r == 10000,
{
    10000
}

/// The last RTP port, where the environment does not say.
pub fn default_rtp_port_end() -> (r: u16)
    ensures
        r == 15000,
{
    15000
}

/// The TLS port, where the environment does not say.
pub fn default_tls_port() -> (r: u16)
    ensures
        r == 5061,
{
    5061
}

/// The seconds between looks at the certificates, where the environment does not say.
pub fn default_tls_refresh() -> (r: u64)
    ensures
        r == 3600,
{
    3600
}

/// The port that calls from Discord go to, where the environment does not say.
pub fn default_discord_outbound_sip_port() -> (r: u16)
    ensures
        r == 5060,
{
    5060
}

/// Whether callers must authenticate, where the environment does not say.
pub fn default_sip_require_auth() -> (r: bool)
    ensures
        r,
{
    true
}

/// Why a configuration cannot be used.
#[derive(Debug)]
pub enum ConfigError {
    /// A file cannot be read.
    Read { path: String, detail: String },
    /// A file is not valid TOML.
    TomlParse { path: String, detail: String },
    /// The environment cannot be read.
    Envy(String),
    /// The environment was read already.
    EnvAlreadyInitialised,
    /// The environment lacks a variable.
    MissingEnvVar(String),
}

/// What the environment says.
#[derive(Debug)]
pub struct EnvConfig {
    pub data_dir: String,
    pub config_path: String,
    pub bridge_id: String,
    pub sounds_dir: String,
    pub dev_mode: bool,
    pub sip_public_host: Option<String>,
    pub sip_port: u16,
    pub rtp_port_start: u16,
    pub rtp_port_end: u16,
    pub rtp_public_ip: Option<String>,
    pub sip_local_host: Option<String>,
    pub sip_local_cidr: Option<String>,
    pub sip_require_auth: bool,
    pub tls_cert_dir: Option<String>,
    pub tls_port: u16,
    pub tls_refresh_interval: u64,
    pub discord_bot_token: Option<String>,
    pub dialplan_path: String,
    pub discord_outbound_sip_host: Option<String>,
    pub discord_outbound_sip_port: u16,
    pub discord_outbound_sip_transport: String,
}

/// The transport of a SIP call.
#[derive(Debug, Clone, Copy, PartialEq, Eq, Structural)]
pub enum OutboundSipTransport {
    Udp,
    Tcp,
    Tls,
}

/// The transport that a word names, without regard to case and to white space round it.
pub open spec fn transport_named(raw: Seq<char>) -> Option<OutboundSipTransport> {
    let word = ascii_lower_text(trim(raw));
    if word == "udp"@ {
        Some(OutboundSipTransport::Udp)
    } else if word == "tcp"@ {
        Some(OutboundSipTransport::Tcp)
    } else if word == "tls"@ || word == "sips"@ {
        Some(OutboundSipTransport::Tls)
    } else {
        None
    }
}

impl OutboundSipTransport {
    /// The transport that a word names.
    pub fn parse(raw: &str) -> (r: Option<Self>)
        ensures
            r == transport_named(raw@),
    {
        let word: String = text_of(trimmed(chars_of(raw).as_slice()).as_slice());
        let lower: String = text_of(ascii_lowercase(word.as_str()).as_slice());
        proof {
            reveal_strlit("udp");
            reveal_strlit("tcp");
            reveal_strlit("tls");
            reveal_strlit("sips");
        }
        if same_text(lower.as_str(), "udp") {
            Some(OutboundSipTransport::Udp)
        } else if same_text(lower.as_str(), "tcp") {
            Some(OutboundSipTransport::Tcp)
        } else if same_text(lower.as_str(), "tls") || same_text(lower.as_str(), "sips") {
            Some(OutboundSipTransport::Tls)
        } else {
            None
        }
    }
}

/// Where calls from Discord go.
#[derive(Debug)]
pub struct DiscordOutboundSipConfig {
    pub host: String,
    pub port: u16,
    pub transport: OutboundSipTransport,
}

/// The URI of an extension.
pub open spec fn outbound_uri(
    extension: Seq<char>,
    host: Seq<char>,
    port: u16,
    transport: OutboundSipTransport,
) -> Seq<char> {
    let target = extension + "@"@ + host + ":"@ + decimal(port as nat);
    match transport {
        OutboundSipTransport::Udp => "sip:"@ + target + ";transport=udp"@,
        OutboundSipTransport::Tcp => "sip:"@ + target + ";transport=tcp"@,
        OutboundSipTransport::Tls => "sips:"@ + target,
    }
}

impl DiscordOutboundSipConfig {
    /// The URI of an extension.
    pub fn build_sip_uri(&self, extension: &str) -> (r: String)
        ensures
            r@ == outbound_uri(extension@, self.host@, self.port, self.transport),
    {
        let mut target: String = join3(extension, "@", self.host.as_str());
        target = join3(target.as_str(), ":", decimal_text(self.port as u64).as_str());
        match self.transport {
            OutboundSipTransport::Udp => join3("sip:", target.as_str(), ";transport=udp"),
            OutboundSipTransport::Tcp => join3("sip:", target.as_str(), ";transport=tcp"),
            OutboundSipTransport::Tls => join2("sips:", target.as_str()),
        }
    }
}

/// A relative name below a directory: with a slash between, unless the directory is empty or
/// ends in one.
pub open spec fn path_below(dir: Seq<char>, name: Seq<char>) -> Seq<char> {
    if dir.len() == 0 || dir.last() == '/' {
        dir + name
    } else {
        dir + "/"@ + name
    }
}

/// A relative name below a directory.
pub fn join_path(dir: &str, name: &str) -> (r: String)
    ensures
        r@ == path_below(dir@, name@),
{
    let n: usize = dir.unicode_len();
    if n == 0 || dir.get_char(n - 1) == '/' {
        join2(dir, name)
    } else {
        join3(dir, "/", name)
    }
}

/// What TLS needs.
#[derive(Debug)]
pub struct TlsConfig {
    pub cert_dir: String,
    pub port: u16,
    pub refresh_interval_secs: u64,
}

impl TlsConfig {
    /// The path of the certificate.
    pub fn cert_path(&self) -> (r: String)
        ensures
            r@ == path_below(self.cert_dir@, "bridge.crt"@),
    {
        join_path(self.cert_dir.as_str(), "bridge.crt")
    }

    /// The path of the private key.
    pub fn key_path(&self) -> (r: String)
        ensures
            r@ == path_below(self.cert_dir@, "bridge.key"@),
    {
        join_path(self.cert_dir.as_str(), "bridge.key")
    }
}

/// The local network, whose clients are told another host.
#[derive(Debug)]
pub struct LocalNetConfig {
    pub host: String,
    pub cidr: String,
}

/// What SIP needs.
#[derive(Debug)]
pub struct SipConfig {
    pub public_host: String,
    pub port: u16,
    pub rtp_port_start: u16,
    pub rtp_port_end: u16,
    /// The address that media is announced at.
    pub rtp_public_ip: Option<String>,
    pub local_net: Option<LocalNetConfig>,
    /// Whether callers must authenticate.
    pub require_auth: bool,
}

/// The text of an optional string.
pub open spec fn opt_text(s: Option<String>) -> Option<Seq<char>> {
    match s {
        Some(t) => Some(t@),
        None => None,
    }
}

/// A copy of an optional string.
pub fn copy_opt(s: &Option<String>) -> (r: Option<String>)
    ensures
        opt_text(r) == opt_text(*s),
{
    match s {
        Some(t) => Some(t.clone()),
        None => None,
    }
}

impl EnvConfig {
    /// What SIP needs. The local network is set where both its host and its range are.
    pub fn to_sip_config(&self) -> (r: Result<SipConfig, ConfigError>)
        ensures
            match r {
                Ok(c) => {
                    &&& self.sip_public_host is Some
                    &&& c.public_host@ == self.sip_public_host->0@
                    &&& c.port == self.sip_port
                    &&& c.rtp_port_start == self.rtp_port_start
                    &&& c.rtp_port_end == self.rtp_port_end
                    &&& opt_text(c.rtp_public_ip) == opt_text(self.rtp_public_ip)
                    &&& c.require_auth == self.sip_require_auth
                    &&& c.local_net is Some <==> self.sip_local_host is Some
                        && self.sip_local_cidr is Some
                    &&& c.local_net is Some ==> (c.local_net->0).host@ == self.sip_local_host->0@
                        && (c.local_net->0).cidr@ == self.sip_local_cidr->0@
                },
                Err(e) => self.sip_public_host is None && e is MissingEnvVar
                    && e->MissingEnvVar_0@ == "SIP_PUBLIC_HOST"@,
            },
    {
        let public_host: String = match &self.sip_public_host {
            Some(h) => h.clone(),
            None => {
                return Err(ConfigError::MissingEnvVar(String::from_str("SIP_PUBLIC_HOST")));
            },
        };
        let local_net: Option<LocalNetConfig> = match (&self.sip_local_host, &self.sip_local_cidr) {
            (Some(host), Some(cidr)) => Some(
                LocalNetConfig { host: host.clone(), cidr: cidr.clone() },
            ),
            _ => None,
        };
        Ok(
            SipConfig {
                public_host,
                port: self.sip_port,
                rtp_port_start: self.rtp_port_start,
                rtp_port_end: self.rtp_port_end,
                rtp_public_ip: copy_opt(&self.rtp_public_ip),
                local_net,
                require_auth: self.sip_require_auth,
            },
        )
    }

    /// What TLS needs. The certificates lie below the data directory unless stated.
    pub fn to_tls_config(&self) -> (r: TlsConfig)
        ensures
            r.cert_dir@ == (match self.tls_cert_dir {
                Some(d) => d@,
                None => path_below(self.data_dir@, "certs"@),
            }),
            r.port == self.tls_port,
            r.refresh_interval_secs == self.tls_refresh_interval,
    {
        let cert_dir: String = match &self.tls_cert_dir {
            Some(d) => d.clone(),
            None => join_path(self.data_dir.as_str(), "certs"),
        };
        TlsConfig {
            cert_dir,
            port: self.tls_port,
            refresh_interval_secs: self.tls_refresh_interval,
        }
    }

    /// The public host, or the address of every interface.
    pub fn sip_public_host_or_default(&self) -> (r: &str)
        ensures
            r@ == (match self.sip_public_host {
                Some(h) => h@,
                None => "0.0.0.0"@,
            }),
    {
        match &self.sip_public_host {
            Some(h) => h.as_str(),
            None => "0.0.0.0",
        }
    }

    /// Where calls from Discord go, if that is set and names a transport.
    pub fn discord_outbound_sip_config(&self) -> (r: Option<DiscordOutboundSipConfig>)
        ensures
            r is Some <==> self.discord_outbound_sip_host is Some && transport_named(
                self.discord_outbound_sip_transport@,
            ) is Some,
            r is Some ==> (r->0).host@ == self.discord_outbound_sip_host->0@ && (r->0).port
                == self.discord_outbound_sip_port && Some((r->0).transport) == transport_named(
                self.discord_outbound_sip_transport@,
            ),
    {
        match &self.discord_outbound_sip_host {
            None => None,
            Some(host) => match OutboundSipTransport::parse(
                self.discord_outbound_sip_transport.as_str(),
            ) {
                None => None,
                Some(transport) => Some(
                    DiscordOutboundSipConfig {
                        host: host.clone(),
                        port: self.discord_outbound_sip_port,
                        transport,
                    },
                ),
            },
        }
    }

    /// The data directory, given whether it exists: the default one gives way to the working
    /// directory where it is missing.
    pub fn resolved_data_dir(&self, exists: bool) -> (r: String)
        ensures
            r@ == (if self.data_dir@ == "/var/lib/sipcord"@ && !exists {
                "."@
            } else {
                self.data_dir@
            }),
    {
        if same_text(self.data_dir.as_str(), "/var/lib/sipcord") && !exists {
            String::from_str(".")
        } else {
            self.data_dir.clone()
        }
    }
}

/// How the bridge works.
#[derive(Debug, Clone, Copy, PartialEq, Eq, Structural)]
pub struct BridgeConfig {
    /// Seconds without RTP before a call is dead.
    pub rtp_inactivity_timeout_secs: u64,
    /// Seconds without any RTP at all before a call is dead.
    pub no_audio_timeout_secs: u64,
    /// Seconds before a bridge without calls is destroyed.
    pub empty_bridge_grace_period_secs: u64,
    /// Samples buffered per channel, at most.
    pub max_channel_buffer_samples: usize,
    pub api_timeout_secs: u64,
    pub health_check_interval_secs: u64,
    pub voice_join_max_retries: u32,
    pub voice_join_retry_delay_secs: u64,
    pub pjsip_log_level: u32,
    /// Reconnections before a bridge is torn down.
    pub reconnect_max_attempts: u32,
    /// The delay between reconnections that doubles each time.
    pub reconnect_base_delay_secs: u64,
    /// The longest delay between reconnections.
    pub reconnect_max_delay_secs: u64,
    /// The age at which a bridge may be reconnected.
    pub reconnect_min_age_secs: u64,
    /// Reconnections per health check, at most.
    pub reconnect_max_per_cycle: usize,
}

/// How the bridge works, where nothing is configured.
pub open spec fn default_bridge() -> BridgeConfig {
    BridgeConfig {
        rtp_inactivity_timeout_secs: 60,
        no_audio_timeout_secs: 10,
        empty_bridge_grace_period_secs: 30,
        max_channel_buffer_samples: 32000,
        api_timeout_secs: 10,
        health_check_interval_secs: 5,
        voice_join_max_retries: 2,
        voice_join_retry_delay_secs: 5,
        pjsip_log_level: 4,
        reconnect_max_attempts: 5,
        reconnect_base_delay_secs: 5,
        reconnect_max_delay_secs: 300,
        reconnect_min_age_secs: 30,
        reconnect_max_per_cycle: 3,
    }
}

impl Default for BridgeConfig {
    fn default() -> (r: Self)
        ensures
            r == default_bridge(),
    {
        BridgeConfig {
            rtp_inactivity_timeout_secs: 60,
            no_audio_timeout_secs: 10,
            empty_bridge_grace_period_secs: 30,
            max_channel_buffer_samples: 32000,
            api_timeout_secs: 10,
            health_check_interval_secs: 5,
            voice_join_max_retries: 2,
            voice_join_retry_delay_secs: 5,
            pjsip_log_level: 4,
            reconnect_max_attempts: 5,
            reconnect_base_delay_secs: 5,
            reconnect_max_delay_secs: 300,
            reconnect_min_age_secs: 30,
            reconnect_max_per_cycle: 3,
        }
    }
}

/// How sound is handled.
#[derive(Debug, Clone, Copy, PartialEq, Eq, Structural)]
pub struct AudioConfig {
    pub ring_buffer_samples: usize,
    pub pre_buffer_samples: usize,
    /// The amplitude above which sound is speech.
    pub vad_silence_threshold: i16,
    /// The amplitude below which sound is muted.
    pub vad_mute_threshold: i16,
    /// Silent frames before speech ends.
    pub vad_silence_frames_before_stop: u32,
}

/// How sound is handled, where nothing is configured.
pub open spec fn default_audio() -> AudioConfig {
    AudioConfig {
        ring_buffer_samples: 96000,
        pre_buffer_samples: 14400,
        vad_silence_threshold: 200,
        vad_mute_threshold: 50,
        vad_silence_frames_before_stop: 15,
    }
}

impl Default for AudioConfig {
    fn default() -> (r: Self)
        ensures
            r == default_audio(),
    {
        AudioConfig {
            ring_buffer_samples: 96000,
            pre_buffer_samples: 14400,
            vad_silence_threshold: 200,
            vad_mute_threshold: 50,
            vad_silence_frames_before_stop: 15,
        }
    }
}

/// How faxes are received.
#[derive(Debug)]
pub struct FaxConfig {
    /// The directory for temporary files; the system's where none is stated.
    pub tmp_folder: Option<String>,
    pub prefix: String,
    /// The format of images, `png` or `jpg`.
    pub output_format: String,
}

/// Two fax configurations say the same.
pub open spec fn same_fax(a: FaxConfig, b: FaxConfig) -> bool {
    opt_text(a.tmp_folder) == opt_text(b.tmp_folder) && a.prefix@ == b.prefix@ && a.output_format@
        == b.output_format@
}

/// The configuration says what is the case where nothing is configured.
pub open spec fn is_default_fax(c: FaxConfig) -> bool {
    c.tmp_folder is None && c.prefix@ == "fax_"@ && c.output_format@ == "png"@
}

impl Default for FaxConfig {
    fn default() -> (r: Self)
        ensures
            is_default_fax(r),
    {
        FaxConfig {
            tmp_folder: None,
            prefix: String::from_str("fax_"),
            output_format: String::from_str("png"),
        }
    }
}

/// A configured sound.
#[derive(Debug)]
pub struct SoundEntry {
    /// The file; none for a generated tone.
    pub src: Option<String>,
    /// Whether the file is loaded at the start, or streamed.
    pub preload: bool,
    /// The extension that plays the sound.
    pub extension: Option<u32>,
}

/// The configured sounds, each under its name.
#[derive(Debug)]
pub struct SoundsConfig {
    pub entries: Vec<(String, SoundEntry)>,
}

/// The whole configuration.
#[derive(Debug)]
pub struct AppConfig {
    pub sounds: SoundsConfig,
    pub bridge: BridgeConfig,
    pub audio: AudioConfig,
    pub fax: FaxConfig,
}

impl AppConfig {
    /// How the bridge works: as configured, or by default while nothing is loaded.
    pub fn bridge(loaded: Option<&AppConfig>) -> (r: BridgeConfig)
        ensures
            r == (match loaded {
                Some(c) => c.bridge,
                None => default_bridge(),
            }),
    {
        match loaded {
            Some(c) => c.bridge,
            None => BridgeConfig::default(),
        }
    }

    /// How sound is handled: as configured, or by default while nothing is loaded.
    pub fn audio(loaded: Option<&AppConfig>) -> (r: AudioConfig)
        ensures
            r == (match loaded {
                Some(c) => c.audio,
                None => default_audio(),
            }),
    {
        match loaded {
            Some(c) => c.audio,
            None => AudioConfig::default(),
        }
    }

    /// How faxes are received: as configured, or by default while nothing is loaded.
    pub fn fax(loaded: Option<&AppConfig>) -> (r: FaxConfig)
        ensures
            match loaded {
                Some(c) => same_fax(r, c.fax),
                None => is_default_fax(r),
            },
    {
        match loaded {
            Some(c) => FaxConfig {
                tmp_folder: copy_opt(&c.fax.tmp_folder),
                prefix: c.fax.prefix.clone(),
                output_format: c.fax.output_format.clone(),
            },
            None => FaxConfig::default(),
        }
    }
}

/// A word names a transport without regard to case and to white space round it; TLS has two names,
/// and no other word names one.
pub proof fn law_which_words_name_a_transport(raw: Seq<char>)
    ensures
        ({
            let word = ascii_lower_text(trim(raw));
            let t = transport_named(raw);
            &&& t == Some(OutboundSipTransport::Udp) <==> word == "udp"@
            &&& t == Some(OutboundSipTransport::Tcp) <==> word == "tcp"@
            &&& t == Some(OutboundSipTransport::Tls) <==> word == "tls"@ || word == "sips"@
        }),
{
    reveal_strlit("udp");
    reveal_strlit("tcp");
    reveal_strlit("tls");
    reveal_strlit("sips");
    assert("udp"@[0] == 'u' && "tcp"@[1] == 'c' && "tls"@[1] == 'l');
    assert("tcp"@[0] == 't' && "tls"@[0] == 't' && "sips"@[0] == 's');
}

/// A path below a directory starts with the directory and ends with the name, with one slash between
/// them and no more.
pub proof fn law_a_path_has_one_slash_more(dir: Seq<char>, name: Seq<char>)
    requires
        dir.len() > 0,
        dir.last() != '/',
    ensures
        path_below(dir, name) == dir + seq!['/'] + name,
        path_below(dir + seq!['/'], name) == path_below(dir, name),
        path_below(Seq::empty(), name) == name,
{
    reveal_strlit("/");
    assert("/"@ =~= seq!['/']);
    assert((dir + seq!['/']).last() == '/');
    assert(path_below(Seq::empty(), name) =~= name);
}

/// What holds where nothing is configured, in the units of the bridge: a second of stereo sound at
/// 48 kHz is kept and 150 milliseconds of it come first; two seconds of 16 kHz are kept for a
/// channel; speech ends with 300 milliseconds of silence.
pub proof fn law_what_holds_unless_configured()
    ensures
        default_audio().ring_buffer_samples == 2 * 48000,
        1000 * default_audio().pre_buffer_samples == 150 * 2 * 48000,
        20 * default_audio().vad_silence_frames_before_stop == 300,
        default_audio().vad_silence_threshold == 4 * default_audio().vad_mute_threshold,
        default_audio().vad_mute_threshold == 50,
        default_bridge().max_channel_buffer_samples == 2 * 16000,
        default_bridge().rtp_inactivity_timeout_secs == 60,
        default_bridge().no_audio_timeout_secs == 10,
        default_bridge().empty_bridge_grace_period_secs == 30,
        default_bridge().api_timeout_secs == 10,
        default_bridge().health_check_interval_secs == 5,
        default_bridge().voice_join_max_retries == 2,
        default_bridge().voice_join_retry_delay_secs == 5,
        default_bridge().pjsip_log_level == 4,
        default_bridge().reconnect_max_attempts == 5,
        default_bridge().reconnect_base_delay_secs == 5,
        default_bridge().reconnect_max_delay_secs == 5 * 60,
        default_bridge().reconnect_min_age_secs == 30,
        default_bridge().reconnect_max_per_cycle == 3,
{
}

/// The URI of an outbound call starts with the scheme of its transport, then names the extension, the
/// host and the port; only TLS needs no more.
pub proof fn law_outbound_calls_name_their_transport(
    extension: Seq<char>,
    host: Seq<char>,
    port: u16,
    t: OutboundSipTransport,
)
    ensures
        ({
            let head = if t == OutboundSipTransport::Tls {
                "sips:"@
            } else {
                "sip:"@
            };
            let tail = if t == OutboundSipTransport::Tls {
                ""@
            } else if t == OutboundSipTransport::Tcp {
                ";transport=tcp"@
            } else {
                ";transport=udp"@
            };
            outbound_uri(extension, host, port, t) == head + extension + "@"@ + host + ":"@
                + decimal(port as nat) + tail
        }),
{
    reveal_strlit("");
    let n = decimal(port as nat);
    assert("sips:"@ + (extension + "@"@ + host + ":"@ + n) =~= "sips:"@ + extension + "@"@ + host
        + ":"@ + n + ""@);
    assert("sip:"@ + (extension + "@"@ + host + ":"@ + n) =~= "sip:"@ + extension + "@"@ + host
        + ":"@ + n);
}

/// Faxes are named "fax_" and become PNG in a folder of the system, unless a configuration says
/// otherwise; then what it says holds.
pub proof fn law_how_faxes_are_kept(a: FaxConfig, b: FaxConfig, unset: FaxConfig)
    requires
        same_fax(a, b),
        is_default_fax(unset),
    ensures
        a.prefix@ == b.prefix@,
        a.output_format@ == b.output_format@,
        a.tmp_folder is Some <==> b.tmp_folder is Some,
        a.tmp_folder is Some ==> (a.tmp_folder->0)@ == (b.tmp_folder->0)@,
        unset.prefix@ == seq!['f', 'a', 'x', '_'],
        unset.output_format@ == seq!['p', 'n', 'g'],
        unset.tmp_folder is None,
{
    reveal_strlit("fax_");
    reveal_strlit("png");
    assert("fax_"@ =~= seq!['f', 'a', 'x', '_']);
    assert("png"@ =~= seq!['p', 'n', 'g']);
}

} // verus!
