use sipcord_bridge::config::{
    default_rtp_port_end, default_sip_require_auth, default_tls_refresh, AppConfig, AudioConfig,
    BridgeConfig, ConfigError, DiscordOutboundSipConfig, EnvConfig, FaxConfig, OutboundSipTransport,
    SoundEntry, SoundsConfig, TlsConfig,
};

fn env() -> EnvConfig {
    EnvConfig {
        data_dir: "/data".to_string(),
        config_path: "./config.toml".to_string(),
        bridge_id: "br_test".to_string(),
        sounds_dir: "./wav".to_string(),
        dev_mode: false,
        sip_public_host: None,
        sip_port: 5060,
        rtp_port_start: 10000,
        rtp_port_end: 15000,
        rtp_public_ip: None,
        sip_local_host: None,
        sip_local_cidr: None,
        sip_require_auth: true,
        tls_cert_dir: None,
        tls_port: 5061,
        tls_refresh_interval: 3600,
        discord_bot_token: None,
        dialplan_path: "./dialplan.toml".to_string(),
        discord_outbound_sip_host: None,
        discord_outbound_sip_port: 5060,
        discord_outbound_sip_transport: "udp".to_string(),
    }
}

#[test]
fn test_bridge_config_default() {
    let c = BridgeConfig::default();
    assert_eq!(c.rtp_inactivity_timeout_secs, 60);
    assert_eq!(c.no_audio_timeout_secs, 10);
    assert_eq!(c.empty_bridge_grace_period_secs, 30);
    assert_eq!(c.max_channel_buffer_samples, 32000);
    assert_eq!(c.api_timeout_secs, 10);
    assert_eq!(c.pjsip_log_level, 4);
}

#[test]
fn test_audio_config_default() {
    let c = AudioConfig::default();
    assert_eq!(c.ring_buffer_samples, 96000);
    assert_eq!(c.pre_buffer_samples, 14400);
    assert_eq!(c.vad_silence_threshold, 200);
    assert_eq!(c.vad_mute_threshold, 50);
    assert_eq!(c.vad_silence_frames_before_stop, 15);
}

#[test]
fn test_fax_config_default() {
    let c = FaxConfig::default();
    assert!(c.tmp_folder.is_none());
    assert_eq!(c.prefix, "fax_");
    assert_eq!(c.output_format, "png");
}

#[test]
fn test_resolved_data_dir_default_missing() {
    let mut e = env();
    e.data_dir = "/var/lib/sipcord".to_string();
    assert_eq!(e.resolved_data_dir(false), ".");
    assert_eq!(e.resolved_data_dir(true), "/var/lib/sipcord");
}

#[test]
fn test_resolved_data_dir_custom() {
    let mut e = env();
    e.data_dir = "/tmp".to_string();
    assert_eq!(e.resolved_data_dir(true), "/tmp");
    assert_eq!(e.resolved_data_dir(false), "/tmp");
}

#[test]
fn test_to_tls_config_cert_dir_fallback() {
    let tls = env().to_tls_config();
    assert_eq!(tls.cert_dir, "/data/certs");
    assert_eq!(tls.port, 5061);
}

#[test]
fn test_tls_config_paths() {
    let tls = TlsConfig {
        cert_dir: "/etc/ssl/sipcord".to_string(),
        port: 5061,
        refresh_interval_secs: 3600,
    };
    assert_eq!(tls.cert_path(), "/etc/ssl/sipcord/bridge.crt");
    assert_eq!(tls.key_path(), "/etc/ssl/sipcord/bridge.key");
}

#[test]
fn test_discord_outbound_sip_config_uri() {
    let mut e = env();
    e.discord_outbound_sip_host = Some("192.168.0.25".to_string());
    let outbound = e.discord_outbound_sip_config().unwrap();
    assert_eq!(
        outbound.build_sip_uri("1101"),
        "sip:1101@192.168.0.25:5060;transport=udp"
    );
}

#[test]
fn outbound_uris_of_the_other_transports() {
    let mut c = DiscordOutboundSipConfig {
        host: "pbx".to_string(),
        port: 5080,
        transport: OutboundSipTransport::Tcp,
    };
    assert_eq!(c.build_sip_uri("7"), "sip:7@pbx:5080;transport=tcp");
    c.transport = OutboundSipTransport::Tls;
    assert_eq!(c.build_sip_uri("7"), "sips:7@pbx:5080");
}

#[test]
fn transports_are_named_without_regard_to_case() {
    assert_eq!(OutboundSipTransport::parse(" UDP\t"), Some(OutboundSipTransport::Udp));
    assert_eq!(OutboundSipTransport::parse("Tcp"), Some(OutboundSipTransport::Tcp));
    assert_eq!(OutboundSipTransport::parse("sips"), Some(OutboundSipTransport::Tls));
    assert_eq!(OutboundSipTransport::parse("TLS"), Some(OutboundSipTransport::Tls));
    assert_eq!(OutboundSipTransport::parse("sctp"), None);
    assert_eq!(OutboundSipTransport::parse("ud p"), None);
    let mut e = env();
    e.discord_outbound_sip_host = Some("h".to_string());
    e.discord_outbound_sip_transport = "carrier pigeon".to_string();
    assert!(e.discord_outbound_sip_config().is_none());
    assert!(env().discord_outbound_sip_config().is_none());
}

#[test]
fn sip_config_needs_a_public_host() {
    match env().to_sip_config() {
        Err(ConfigError::MissingEnvVar(name)) => assert_eq!(name, "SIP_PUBLIC_HOST"),
        other => panic!("expected a missing variable, got {:?}", other),
    }
    let mut e = env();
    e.sip_public_host = Some("sip.example.org".to_string());
    e.sip_local_host = Some("192.168.10.1".to_string());
    let c = e.to_sip_config().unwrap();
    assert_eq!(c.public_host, "sip.example.org");
    assert!(c.local_net.is_none());
    assert!(c.require_auth);
    e.sip_local_cidr = Some("192.168.10.0/24".to_string());
    let c = e.to_sip_config().unwrap();
    let net = c.local_net.unwrap();
    assert_eq!(net.host, "192.168.10.1");
    assert_eq!(net.cidr, "192.168.10.0/24");
    assert_eq!(e.sip_public_host_or_default(), "sip.example.org");
    assert_eq!(env().sip_public_host_or_default(), "0.0.0.0");
}

#[test]
fn stated_certificate_directories_are_kept() {
    let mut e = env();
    e.tls_cert_dir = Some("/certs/".to_string());
    let tls = e.to_tls_config();
    assert_eq!(tls.cert_dir, "/certs/");
    assert_eq!(tls.cert_path(), "/certs/bridge.crt");
}

#[test]
fn defaults_hold_until_a_configuration_is_loaded() {
    assert_eq!(AppConfig::bridge(None).reconnect_max_attempts, 5);
    assert_eq!(AppConfig::audio(None).ring_buffer_samples, 96000);
    assert_eq!(AppConfig::fax(None).prefix, "fax_");
    let mut bridge = BridgeConfig::default();
    bridge.rtp_inactivity_timeout_secs = 120;
    let mut audio = AudioConfig::default();
    audio.ring_buffer_samples = 48000;
    let mut fax = FaxConfig::default();
    fax.prefix = "test_".to_string();
    let app = AppConfig {
        sounds: SoundsConfig {
            entries: vec![(
                "join".to_string(),
                SoundEntry { src: Some("join.wav".to_string()), preload: true, extension: None },
            )],
        },
        bridge,
        audio,
        fax,
    };
    assert_eq!(AppConfig::bridge(Some(&app)).rtp_inactivity_timeout_secs, 120);
    assert_eq!(AppConfig::audio(Some(&app)).ring_buffer_samples, 48000);
    assert_eq!(AppConfig::fax(Some(&app)).prefix, "test_");
    assert_eq!(
        sipcord_bridge::sip::types::rtp_inactivity_timeout_secs(Some(&app)),
        120
    );
    assert_eq!(sipcord_bridge::sip::types::no_audio_timeout_secs(None), 10);
    assert_eq!(sipcord_bridge::sip::types::empty_bridge_grace_period_secs(None), 30);
    assert_eq!(sipcord_bridge::sip::types::max_channel_buffer_samples(None), 32000);
    assert_eq!(sipcord_bridge::discord::connection::ring_buffer_samples(Some(&app)), 48000);
}

#[test]
fn environment_defaults() {
    assert_eq!(sipcord_bridge::config::default_data_dir(), "/var/lib/sipcord");
    assert_eq!(sipcord_bridge::config::default_sounds_dir(), "./wav");
    assert_eq!(default_rtp_port_end(), 15000);
    assert_eq!(default_tls_refresh(), 3600);
    assert!(default_sip_require_auth());
}
