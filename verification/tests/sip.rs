use sipcord_bridge::config::{BridgeConfig, EnvConfig, LocalNetConfig, SipConfig};
use sipcord_bridge::services::snowflake::Snowflake;
use sipcord_bridge::sip::auth::{
    challenge_with, deferred_register_code, extract_contact_uri, extract_digest_auth,
    extract_expires, is_sipvicious_scanner, judge_incoming, judge_register, new_challenge,
    register_ok_headers, to_hex, AuthorizationFields, CacheVerdict, ExtensionLimits, IncomingStep,
    Offense, RegisterFacts, RegisterStep, SourceStanding,
};
use sipcord_bridge::sip::clock::{channel_frame, round_checks, FrameClock};
use sipcord_bridge::sip::events::{
    extract_packet_source, extract_ssl_peer, log_level, media_status, peer_host, InvState, LogLevel,
    MalformedThrottle, MediaDir, MediaStatus, PjsipEvent, ThrottleStep,
};
use sipcord_bridge::sip::media::{zombie_slots, DisconnectStep, MediaState, MediaStep, Wire};
use sipcord_bridge::sip::ops::{
    build_from_header, describe_op, may_redirect, op_step, process_sip_command,
    sanitize_display_name, CommandStep, OpQueue, OpStep, PendingPjsuaOp,
};
use sipcord_bridge::sip::players::DirectPlayers;
use sipcord_bridge::sip::rtp::RtpTracker;
use sipcord_bridge::sip::sdp::{
    announced_ip, build_t38_answer, reinvite_step, sdp_has_t38, strip_hold, ReinviteStep, SdpAttr,
    SdpMedia, SdpSession,
};
use sipcord_bridge::sip::setup::{
    check_setup, codec_priorities, plan_setup, tls_step, ReloadStep, SetupStep, TlsState, TlsStep,
};
use sipcord_bridge::sip::tracking::{OutboundReport, OutboundTracking};
use sipcord_bridge::sip::types::{CallId, ConfPort, SipCommand};

fn call(n: i32) -> CallId {
    CallId::new(n)
}

#[test]
fn scanners_are_recognised() {
    assert!(is_sipvicious_scanner("friendly-scanner"));
    assert!(is_sipvicious_scanner("SIPVicious/0.3"));
    assert!(is_sipvicious_scanner("My SCANNER"));
    assert!(!is_sipvicious_scanner("Linphone/5"));
    assert!(!is_sipvicious_scanner(""));
}

fn fields(scheme: &str) -> AuthorizationFields {
    AuthorizationFields {
        scheme: scheme.to_string(),
        username: "u".to_string(),
        realm: "r".to_string(),
        nonce: "n".to_string(),
        uri: "sip:x".to_string(),
        response: "abc".to_string(),
        qop: "auth".to_string(),
        nc: String::new(),
        cnonce: String::new(),
    }
}

#[test]
fn credentials_are_extracted() {
    let p = extract_digest_auth(&fields("DIGEST")).unwrap();
    assert_eq!(p.username, "u");
    assert_eq!(p.method, "");
    assert_eq!(p.qop.as_deref(), Some("auth"));
    assert!(p.nc.is_none() && p.cnonce.is_none());
    assert!(extract_digest_auth(&fields("Basic")).is_none());
    let mut f = fields("Digest");
    f.response = String::new();
    assert!(extract_digest_auth(&f).is_none());
}

#[test]
fn challenges() {
    assert_eq!(to_hex(&[0, 0x0f, 0xa5, 255]), "000fa5ff");
    assert_eq!(
        challenge_with("ab"),
        "Digest realm=\"sipcord\", nonce=\"ab\", algorithm=MD5, qop=\"auth\""
    );
    let a = new_challenge();
    let b = new_challenge();
    assert_eq!(a.len(), challenge_with("").len() + 32);
    assert_ne!(a, b);
}

fn source(known: bool, subject: bool, banned: bool) -> SourceStanding {
    SourceStanding { known, subject_to_bans: subject, banned }
}

#[test]
fn incoming_calls_are_judged() {
    let limits = Some(ExtensionLimits { suspicious_min: 6, very_long_min: 10 });
    let ok = source(true, true, false);
    assert_eq!(
        judge_incoming(source(true, true, true), None, "1000", limits, true, true),
        IncomingStep::Reject { code: 403, record: None }
    );
    assert_eq!(
        judge_incoming(source(true, false, true), None, "1000", limits, true, true),
        IncomingStep::HandOn
    );
    assert_eq!(
        judge_incoming(ok, Some("sipvicious"), "1000", limits, true, true),
        IncomingStep::Reject { code: 403, record: Some(Offense::Scanner) }
    );
    assert_eq!(
        judge_incoming(source(false, true, false), Some("sipvicious"), "1000", limits, true, true),
        IncomingStep::Reject { code: 403, record: None }
    );
    assert_eq!(
        judge_incoming(ok, None, "123456", limits, true, true),
        IncomingStep::Reject { code: 404, record: Some(Offense::SuspiciousExtension) }
    );
    assert_eq!(
        judge_incoming(ok, None, "1234567890", limits, true, true),
        IncomingStep::Reject { code: 404, record: Some(Offense::VeryLongExtension) }
    );
    assert_eq!(judge_incoming(ok, None, "12345a7890", limits, true, true), IncomingStep::HandOn);
    assert_eq!(judge_incoming(ok, None, "1234567890", None, true, true), IncomingStep::HandOn);
    assert_eq!(judge_incoming(ok, Some("X"), "12345", limits, false, true), IncomingStep::Challenge);
    assert_eq!(judge_incoming(ok, Some("X"), "12345", limits, false, false), IncomingStep::HandOn);
    assert_eq!(judge_incoming(ok, None, "12345", limits, true, false), IncomingStep::HandOn);
}

#[test]
fn registrations_are_judged() {
    let base = RegisterFacts {
        too_many: false,
        has_credentials: true,
        in_cooldown: false,
        cache: Some(CacheVerdict::Verified),
        can_defer: true,
        require_auth: true,
    };
    let ok = source(true, true, false);
    let judge = |f: RegisterFacts| judge_register(ok, None, f);
    assert_eq!(judge(base), RegisterStep::Accept);
    assert_eq!(
        judge(RegisterFacts { cache: Some(CacheVerdict::Mismatch), ..base }),
        RegisterStep::ForbidAndVerify
    );
    assert_eq!(
        judge(RegisterFacts { cache: Some(CacheVerdict::Miss), ..base }),
        RegisterStep::Defer
    );
    assert_eq!(
        judge(RegisterFacts { cache: Some(CacheVerdict::Miss), can_defer: false, ..base }),
        RegisterStep::Accept
    );
    assert_eq!(judge(RegisterFacts { cache: None, ..base }), RegisterStep::Accept);
    assert_eq!(judge(RegisterFacts { too_many: true, ..base }), RegisterStep::SlowDown);
    assert_eq!(judge(RegisterFacts { in_cooldown: true, ..base }), RegisterStep::SlowDown);
    let open = RegisterFacts { has_credentials: false, ..base };
    assert_eq!(judge(open), RegisterStep::Challenge);
    assert_eq!(
        judge(RegisterFacts { require_auth: false, ..open }),
        RegisterStep::AcceptOpen
    );
    assert_eq!(
        judge_register(source(true, true, true), None, base),
        RegisterStep::Forbid { record_scanner: false }
    );
    assert_eq!(
        judge_register(ok, Some("scanner"), base),
        RegisterStep::Forbid { record_scanner: true }
    );
    assert_eq!(
        judge_register(source(false, true, false), None, RegisterFacts { too_many: true, ..base }),
        RegisterStep::Accept
    );
    assert_eq!(RegisterStep::Challenge.code(), Some(401));
    assert_eq!(RegisterStep::SlowDown.code(), Some(429));
    assert_eq!(RegisterStep::Defer.code(), None);
    assert!(RegisterStep::Defer.is_handed_on());
    assert!(!RegisterStep::AcceptOpen.is_handed_on());
    assert_eq!(deferred_register_code(true), 200);
    assert_eq!(deferred_register_code(false), 403);
}

#[test]
fn registrations_are_answered() {
    assert_eq!(extract_expires(None, None), 3600);
    assert_eq!(extract_expires(Some(0), Some(120)), 0);
    assert_eq!(extract_expires(None, Some(120)), 120);
    assert_eq!(extract_contact_uri("3001", "10.0.0.1", 5062).unwrap(), "sip:3001@10.0.0.1:5062");
    assert_eq!(extract_contact_uri("3001", "h", 0).unwrap(), "sip:3001@h");
    assert_eq!(extract_contact_uri("", "h", 5060).unwrap(), "sip:h:5060");
    assert_eq!(extract_contact_uri("", "h", -1).unwrap(), "sip:h");
    assert!(extract_contact_uri("u", "", 5060).is_none());
    let h = register_ok_headers(60, Some("sip:u@h"));
    assert_eq!(h.len(), 2);
    assert_eq!((h[0].0, h[0].1.as_str()), ("Expires", "60"));
    assert_eq!((h[1].0, h[1].1.as_str()), ("Contact", "<sip:u@h>;expires=60"));
    assert_eq!(register_ok_headers(60, None).len(), 1);
}

#[test]
fn states_and_directions() {
    assert_eq!(InvState::from(5), InvState::Confirmed);
    assert_eq!(InvState::from(0).text(), "NULL");
    assert_eq!(InvState::from(6).text(), "DISCONNECTED");
    assert_eq!(InvState::from(9).text(), "UNKNOWN(9)");
    assert_eq!(MediaDir::from(3).text(), "ENCODING_DECODING");
    assert_eq!(MediaDir::from(0).text(), "NONE");
    assert_eq!(MediaDir::from(7), MediaDir::Unknown(7));
    assert_eq!(media_status(3), MediaStatus::RemoteHold);
    assert_eq!(media_status(17), MediaStatus::Unknown);
}

#[test]
fn messages_are_classified() {
    let c = |m: &str| PjsipEvent::classify(m);
    assert_eq!(c("Error: too many calls"), (PjsipEvent::TooManyCalls, Some(0)));
    assert_eq!(c("SSL_ERROR_SSL peer: x"), (PjsipEvent::SslHandshakeError, None));
    assert_eq!(c("SSL_ERROR_SYSCALL"), (PjsipEvent::SslHandshakeError, None));
    assert_eq!(c("Unable to send 200 response"), (PjsipEvent::SendResponseFailed, Some(1)));
    assert_eq!(c("Unable to send"), (PjsipEvent::Unclassified, None));
    assert_eq!(c("ICE negotiation failed"), (PjsipEvent::IceNegotiationFailed, None));
    assert_eq!(c("Transport had an error"), (PjsipEvent::TransportError, Some(1)));
    assert_eq!(c("No matching codec"), (PjsipEvent::NoMatchingCodec, None));
    assert_eq!(
        c("Unable to create server subscription"),
        (PjsipEvent::BadEventSubscription, Some(4))
    );
    assert_eq!(c("PJSIP syntax error exception"), (PjsipEvent::MalformedPacket, None));
    assert_eq!(PjsipEvent::BadEventSubscription.as_str(), "BAD_EVENT_SUBSCRIBE");
    assert_eq!(log_level(0), LogLevel::Error);
    assert_eq!(log_level(2), LogLevel::Warn);
    assert_eq!(log_level(9), LogLevel::Trace);
}

#[test]
fn sources_are_extracted() {
    let m = "Dropping 24 bytes packet from UDP 1.2.3.4:5060 : PJSIP syntax error exception";
    assert_eq!(extract_packet_source(m).unwrap(), "1.2.3.4:5060");
    assert_eq!(extract_packet_source("from TCP [::1]:9").unwrap(), "[::1]:9");
    assert!(extract_packet_source("from UDP").is_none());
    assert!(extract_packet_source("nothing").is_none());
    assert_eq!(peer_host("1.2.3.4:5060").unwrap(), "1.2.3.4");
    assert_eq!(peer_host("[2001:db8::1]:5060").unwrap(), "2001:db8::1");
    assert_eq!(peer_host("host").unwrap(), "host");
    assert!(peer_host("[::1").is_none());
    assert_eq!(extract_ssl_peer("bad, peer:  9.9.9.9:1 ").unwrap(), "9.9.9.9:1");
    assert!(extract_ssl_peer("bad, peer:  ").is_none());
    assert!(extract_ssl_peer("bad").is_none());
}

#[test]
fn floods_are_throttled() {
    let mut t = MalformedThrottle::new();
    assert_eq!(t.handle_malformed_packet("a", 0), ThrottleStep::First);
    assert_eq!(t.handle_malformed_packet("b", 1_000), ThrottleStep::First);
    assert_eq!(t.handle_malformed_packet("a", 59_999), ThrottleStep::Quiet);
    assert_eq!((t.suppressed("a"), t.suppressed("b"), t.suppressed("c")), (1, 0, 0));
    assert_eq!(
        t.handle_malformed_packet("a", 60_000),
        ThrottleStep::Summary { suppressed: 2, window_secs: 60 }
    );
    assert_eq!(t.handle_malformed_packet("a", 61_000), ThrottleStep::Quiet);
    assert_eq!(t.handle_malformed_packet("a", 360_000), ThrottleStep::First);
    assert_eq!(t.handle_malformed_packet("b", 361_000), ThrottleStep::First);
}

fn attr(name: &str, value: &str) -> SdpAttr {
    SdpAttr { name: name.to_string(), value: value.to_string() }
}

fn image(transport: &str, port: u16, conn: Option<&str>, attrs: Vec<SdpAttr>) -> SdpMedia {
    SdpMedia {
        media: "image".to_string(),
        transport: transport.to_string(),
        port,
        conn: conn.map(|c| c.to_string()),
        attrs,
    }
}

#[test]
fn offers_of_t38_are_found() {
    let mut offer = SdpSession {
        conn: Some("10.0.0.9".to_string()),
        media: vec![
            image("UDPTL", 0, None, vec![]),
            image("RTP/AVP", 4000, None, vec![]),
            image(
                "UDPTL",
                4002,
                None,
                vec![
                    attr("T38FaxVersion", "3"),
                    attr("T38MaxBitRate", "junk"),
                    attr("T38FaxUdpEC", "t38UDPFEC"),
                    attr("T38FaxVersion", "300"),
                ],
            ),
        ],
    };
    let p = sdp_has_t38(&offer).unwrap();
    assert_eq!(p.remote_ip, "10.0.0.9");
    assert_eq!(p.remote_port, 4002);
    assert_eq!(p.t38_version, 0);
    assert_eq!(p.max_bit_rate, 14400);
    assert_eq!(p.rate_management, "transferredTCF");
    assert_eq!(p.udp_ec, "t38UDPFEC");
    assert!(matches!(reinvite_step(Some(&offer)), ReinviteStep::T38(_)));
    offer.conn = None;
    assert!(sdp_has_t38(&offer).is_none());
    offer.media[2].conn = Some("10.0.0.8".to_string());
    offer.media[2].attrs = vec![attr("T38MaxBitRate", "9600"), attr("T38FaxVersion", "1")];
    let p = sdp_has_t38(&offer).unwrap();
    assert_eq!((p.remote_ip.as_str(), p.max_bit_rate, p.t38_version), ("10.0.0.8", 9600, 1));
    assert!(matches!(reinvite_step(None), ReinviteStep::Audio));
}

#[test]
fn t38_is_answered() {
    let text = build_t38_answer(17, "1.2.3.4", 10002);
    assert_eq!(
        text,
        "v=0\r\no=- 17 17 IN IP4 1.2.3.4\r\ns=T.38 Fax\r\nc=IN IP4 1.2.3.4\r\nt=0 0\r\n\
         m=image 10002 udptl t38\r\na=T38FaxVersion:0\r\na=T38MaxBitRate:14400\r\n\
         a=T38FaxRateManagement:transferredTCF\r\na=T38FaxMaxBuffer:260\r\n\
         a=T38FaxMaxDatagram:316\r\na=T38FaxUdpEC:t38UDPRedundancy\r\n"
    );
}

#[test]
fn announced_addresses() {
    let mut e = EnvConfig {
        data_dir: String::new(),
        config_path: String::new(),
        bridge_id: String::new(),
        sounds_dir: String::new(),
        dev_mode: false,
        sip_public_host: Some("h".to_string()),
        sip_port: 5060,
        rtp_port_start: 1,
        rtp_port_end: 2,
        rtp_public_ip: None,
        sip_local_host: None,
        sip_local_cidr: None,
        sip_require_auth: true,
        tls_cert_dir: None,
        tls_port: 5061,
        tls_refresh_interval: 1,
        discord_bot_token: None,
        dialplan_path: String::new(),
        discord_outbound_sip_host: None,
        discord_outbound_sip_port: 1,
        discord_outbound_sip_transport: String::new(),
    };
    assert_eq!(announced_ip(&e), "h");
    e.sip_public_host = None;
    assert_eq!(announced_ip(&e), "0.0.0.0");
    e.rtp_public_ip = Some("5.5.5.5".to_string());
    assert_eq!(announced_ip(&e), "5.5.5.5");
}

#[test]
fn hold_is_stripped() {
    let mut sdp = SdpSession {
        conn: None,
        media: vec![
            image("x", 1, None, vec![attr("ptime", "20"), attr("sendonly", ""), attr("inactive", "")]),
            image("x", 1, None, vec![attr("sendrecv", "")]),
        ],
    };
    assert!(strip_hold(&mut sdp));
    assert_eq!(sdp.media[0].attrs.len(), 1);
    assert_eq!(sdp.media[0].attrs[0].name, "ptime");
    assert_eq!(sdp.media[1].attrs.len(), 1);
    assert!(!strip_hold(&mut sdp));
}

#[test]
fn silent_calls_time_out() {
    let cfg = BridgeConfig::default();
    let mut t = RtpTracker::new();
    t.init_call_rtp_tracking(call(1), 0);
    t.init_call_rtp_tracking(call(2), 0);
    t.init_call_rtp_tracking(call(3), 0);
    let out = t.check_rtp_inactivity(&vec![(1, Some(5)), (2, Some(0)), (3, None)], &cfg, 10_000);
    assert_eq!(out, vec![(3, 0)]);
    let out = t.check_rtp_inactivity(&vec![(1, Some(5)), (2, Some(0))], &cfg, 11_000);
    assert_eq!(out, vec![(2, 0)]);
    assert!(t.tracks(call(1)) && !t.tracks(call(2)));
    assert!(t.check_rtp_inactivity(&vec![(1, Some(5))], &cfg, 70_999).is_empty());
    assert_eq!(t.check_rtp_inactivity(&vec![(1, Some(5))], &cfg, 71_000), vec![(1, 5)]);
    assert!(t.tracked_calls().is_empty());
    t.init_call_rtp_tracking(call(4), 0);
    t.remove_call_rtp_tracking(call(4));
    assert!(!t.tracks(call(4)));
}

fn active(m: &mut MediaState, c: i32, port: i32, slot: Option<i32>) -> (Vec<Wire>, bool, bool) {
    match m.media_changed(call(c), MediaStatus::Active, ConfPort::new(port), slot, 7) {
        MediaStep::Active(s) => (s.wires, s.start_audio, s.complete_now),
        other => panic!("unexpected {:?}", other),
    }
}

#[test]
fn media_come_and_go() {
    let mut m = MediaState::new();
    assert_eq!(active(&mut m, 1, 11, None), (vec![], true, false));
    assert_eq!(active(&mut m, 2, 12, None), (vec![], false, false));
    assert_eq!(active(&mut m, 2, 12, None), (vec![], false, false));
    assert_eq!(m.first_frame_done(), vec![(1, 11), (2, 12), (2, 12)]);
    assert_eq!(active(&mut m, 3, 13, None), (vec![], false, true));
    assert_eq!(m.active_media_call_count(), 3);
    assert!(!m.may_reload_tls());
    assert!(matches!(
        m.media_changed(call(3), MediaStatus::LocalHold, ConfPort::new(13), None, 7),
        MediaStep::Hold { stop_audio: false }
    ));
    assert_eq!(
        m.disconnected(call(3)),
        DisconnectStep { report: false, stop_audio: false }
    );
    assert_eq!(m.disconnected(call(1)), DisconnectStep { report: true, stop_audio: false });
    assert_eq!(m.disconnected(call(2)), DisconnectStep { report: true, stop_audio: true });
    assert!(m.may_reload_tls());
    assert!(m.queue_pending_channel_completion(call(8), ConfPort::new(18)));
    assert_eq!(active(&mut m, 4, 14, None), (vec![], true, false));
    assert_eq!(m.port_of(call(4)), Some(14));
    assert_eq!(m.counted_calls(), vec![4]);
    assert_eq!(m.watched_calls(), vec![4]);
    assert_eq!(m.first_frame_done(), vec![(4, 14)]);
    assert!(!m.queue_pending_channel_completion(call(4), ConfPort::new(14)));
    let cfg = BridgeConfig::default();
    assert_eq!(m.check_rtp_inactivity(&vec![(4, Some(0))], &cfg, 11_007), vec![(4, 0)]);
    assert!(m.watched_calls().is_empty());
    assert!(matches!(
        m.media_changed(call(4), MediaStatus::LocalHold, ConfPort::new(14), None, 7),
        MediaStep::Hold { stop_audio: true }
    ));
    assert!(m.queue_pending_channel_completion(call(4), ConfPort::new(14)));
    assert!(matches!(
        m.media_changed(call(5), MediaStatus::Active, ConfPort::invalid(), None, 7),
        MediaStep::Nothing
    ));
    assert_eq!(m.active_media_call_count(), 0);
    m.set_channel(call(9), Snowflake::new(10));
    assert_eq!(m.channel_of(call(9)), Some(10));
    assert!(m.disconnected(call(9)).report);
    m.clear_channel(call(9));
    assert!(!m.disconnected(call(9)).report);
}

#[test]
fn changed_ports_are_rewired() {
    let mut m = MediaState::new();
    for c in 1..=3 {
        active(&mut m, c, 10 + c, None);
        m.set_channel(call(c), Snowflake::new(50));
        m.join_channel(call(c), Snowflake::new(50));
    }
    let (wires, _, _) = active(&mut m, 1, 21, Some(99));
    assert_eq!(wires.len(), 12);
    assert_eq!(
        wires[..4],
        [
            Wire::Disconnect(99, 11),
            Wire::Disconnect(11, 99),
            Wire::Connect(99, 21),
            Wire::Connect(21, 99)
        ]
    );
    for other in [12, 13] {
        assert!(wires.contains(&Wire::Connect(21, other)));
        assert!(wires.contains(&Wire::Disconnect(other, 11)));
    }
    // Back from hold: the call is taken out of its channel, so nothing of it is rewired.
    m.local_hold(call(2));
    active(&mut m, 2, 12, None);
    let (wires, _, _) = active(&mut m, 1, 31, None);
    assert_eq!(wires.len(), 4);
}

#[test]
fn stale_calls_are_removed() {
    let mut m = MediaState::new();
    for c in 1..=4 {
        active(&mut m, c, 10 + c, None);
    }
    m.remote_hold(call(3));
    m.remote_hold(call(4));
    let reports = vec![
        (1, Some((InvState::Confirmed, MediaStatus::Active))),
        (2, Some((InvState::Disconnected, MediaStatus::Active))),
        (3, Some((InvState::Confirmed, MediaStatus::RemoteHold))),
        (4, Some((InvState::Confirmed, MediaStatus::Active))),
    ];
    assert_eq!(m.validate_counted_calls(&reports), (2, false));
    assert_eq!(m.active_media_call_count(), 2);
    assert_eq!(m.validate_counted_calls(&vec![]), (2, true));
    assert_eq!(m.validate_counted_calls(&vec![]), (0, false));
    let slots = vec![
        None,
        Some((InvState::Confirmed, 1000)),
        Some((InvState::Early, 120)),
        Some((InvState::Early, 121)),
        Some((InvState::Disconnected, 500)),
        Some((InvState::Disconnected, 0)),
    ];
    assert_eq!(zombie_slots(&slots), vec![3, 4, 5]);
}

#[test]
fn operations_wait_in_order() {
    let mut q = OpQueue::new();
    q.play_audio_to_call_direct(call(1), &[5, 6]);
    q.stop_direct_audio_to_call(call(2));
    match q.next_op() {
        Some(PendingPjsuaOp::PlayDirect { call_id, samples }) => {
            assert_eq!((call_id.get(), samples), (1, vec![5, 6]));
        }
        other => panic!("unexpected {:?}", other),
    }
    q.queue_pjsua_op(PendingPjsuaOp::Hangup { call_id: call(3) });
    assert_eq!(q.drain(), 2);
    assert!(q.next_op().is_none());
}

#[test]
fn operations_of_dead_calls_are_skipped() {
    let fax = || PendingPjsuaOp::ConnectFaxPort {
        call_id: call(1),
        fax_slot: ConfPort::new(4),
        call_conf_port: ConfPort::new(5),
        reply_to: 88,
    };
    assert!(matches!(op_step(fax(), false), OpStep::Skip { tell: Some(88) }));
    assert!(matches!(op_step(fax(), true), OpStep::Run { stop_loop: false, .. }));
    let tone = || PendingPjsuaOp::StartTestTone { call_id: call(1) };
    assert!(matches!(op_step(tone(), false), OpStep::Skip { tell: None }));
    assert!(matches!(op_step(tone(), true), OpStep::Run { stop_loop: true, .. }));
    assert_eq!(
        describe_op(&fax()),
        "ConnectFaxPort { call_id: 1, fax_slot: ConfPort(4), call_conf_port: ConfPort(5) }"
    );
    assert_eq!(
        describe_op(&PendingPjsuaOp::PlayDirect { call_id: call(2), samples: vec![0; 7] }),
        "PlayDirect { call_id: 2, samples: 7 }"
    );
    assert_eq!(
        describe_op(&PendingPjsuaOp::StartStreaming {
            call_id: call(2),
            path: "/a".to_string(),
            hangup_on_complete: true
        }),
        "StartStreaming { call_id: 2, path: /a, hangup_on_complete: true }"
    );
}

#[test]
fn commands_become_steps() {
    let s = process_sip_command(SipCommand::StartStreaming {
        call_id: call(1),
        path: "/a".to_string(),
    });
    assert!(matches!(
        s,
        CommandStep::Queue(PendingPjsuaOp::StartStreaming { hangup_on_complete: true, .. })
    ));
    let s = process_sip_command(SipCommand::Send183 { call_id: call(1) });
    assert!(matches!(s, CommandStep::Answer { code: 183, .. }));
    let s = process_sip_command(SipCommand::Redirect {
        call_id: call(1),
        domain: "eu.example".to_string(),
        extension: "1000".to_string(),
    });
    match s {
        CommandStep::Redirect { contact, .. } => assert_eq!(contact, "sip:1000@eu.example"),
        other => panic!("unexpected {:?}", other),
    }
    assert!(may_redirect(Some(InvState::Incoming)));
    assert!(may_redirect(Some(InvState::Early)));
    assert!(!may_redirect(Some(InvState::Confirmed)));
    assert!(!may_redirect(None));
}

#[test]
fn display_names_are_sanitized() {
    assert_eq!(sanitize_display_name("Eve\" <sip:x>\r\n\\"), "Eve sip:x");
    assert_eq!(sanitize_display_name(&"a".repeat(100)).len(), 64);
    assert_eq!(
        build_from_header("Ann", "sip:sipcord@h"),
        "\"Ann\" <sip:sipcord@h>"
    );
}

#[test]
fn outbound_calls_are_tracked() {
    let mut t = OutboundTracking::new();
    t.track(call(1), "r");
    assert_eq!(t.get_outbound_tracking_id(call(1)).as_deref(), Some("r"));
    let (r, go_on) = t.call_state(call(1), InvState::Early, 180, "Ringing");
    assert!(matches!(r, OutboundReport::Nothing) && !go_on);
    let (r, go_on) = t.call_state(call(1), InvState::Confirmed, 200, "OK");
    assert!(matches!(r, OutboundReport::Answered { .. }) && !go_on);
    let (r, go_on) = t.call_state(call(1), InvState::Disconnected, 486, "Busy Here");
    assert!(go_on);
    match r {
        OutboundReport::Failed { tracking_id, reason } => {
            assert_eq!((tracking_id.as_str(), reason.as_str()), ("r", "486 Busy Here"));
        }
        other => panic!("unexpected {:?}", other),
    }
    assert!(t.get_outbound_tracking_id(call(1)).is_none());
    let (r, go_on) = t.call_state(call(1), InvState::Confirmed, 200, "OK");
    assert!(matches!(r, OutboundReport::Nothing) && go_on);
    t.track(call(2), "s");
    assert_eq!(t.remove_outbound_tracking(call(2)).as_deref(), Some("s"));
    assert_eq!(t.remove_outbound_tracking(call(2)), None);
}

#[test]
fn sounds_are_played_once() {
    let mut p = DirectPlayers::new();
    p.start(7, call(1), (0..400).collect());
    p.start(8, call(2), vec![1]);
    assert_eq!(p.next_frame(7).unwrap().len(), 320);
    assert_eq!(p.next_frame(7).unwrap(), (320..400).collect::<Vec<i16>>());
    assert!(p.next_frame(7).is_none());
    assert!(p.next_frame(9).is_none());
    p.start(7, call(1), vec![5]);
    p.stop_direct_audio_to_call_internal(call(1));
    assert!(p.next_frame(7).is_none());
    assert_eq!(p.next_frame(8), Some(vec![1]));
    p.start(8, call(2), vec![1]);
    p.port_destroyed(8);
    assert!(p.next_frame(8).is_none());
}

#[test]
fn the_beat_is_kept() {
    let mut c = FrameClock::new(1000);
    assert_eq!(c.sleep_ms(1005), 15);
    assert!(c.frame_done());
    assert!(!c.frame_done());
    assert_eq!((c.frames, c.timestamp), (2, 640));
    assert!(!c.advance(1021));
    assert_eq!(c.deadline, 1040);
    assert!(!c.advance(1160));
    assert_eq!(c.deadline, 1060);
    assert!(c.advance(1181));
    assert_eq!(c.deadline, 1201);
    assert_eq!(c.sleep_ms(5000), 0);
    assert_eq!(channel_frame(&[1, 2, 3], 2), vec![1, 2]);
    assert_eq!(channel_frame(&[1, 2, 3], 0), vec![0; 320]);
    let r = round_checks(3000);
    assert!(r.rtp && r.counted && !r.zombies);
    assert!(!round_checks(501).rtp);
    assert!(round_checks(6000).zombies);
}

fn sip_config() -> SipConfig {
    SipConfig {
        public_host: "sip.example.org".to_string(),
        port: 5060,
        rtp_port_start: 10000,
        rtp_port_end: 15000,
        rtp_public_ip: Some("5.5.5.5".to_string()),
        local_net: Some(LocalNetConfig {
            host: "192.168.10.1".to_string(),
            cidr: "192.168.10.0/24".to_string(),
        }),
        require_auth: true,
    }
}

#[test]
fn the_server_is_set_up() {
    let s = plan_setup(&sip_config());
    assert_eq!(s.public, Some(("sip.example.org".to_string(), 5060)));
    let local = s.local.unwrap();
    assert_eq!(local.host, "192.168.10.1");
    assert_eq!((local.address, local.prefix), (0xC0A8_0A00, 24));
    assert_eq!(local.rtp_public_ip.as_deref(), Some("5.5.5.5"));
    assert_eq!((s.rtp_port, s.rtp_port_range), (10000, 5000));
    assert_eq!(s.account_uri, "sip:sipcord@sip.example.org");
    assert_eq!(s.max_calls, 128);
    let mut c = sip_config();
    c.public_host = String::new();
    c.local_net = Some(LocalNetConfig { host: "h".to_string(), cidr: "192.168.10.0/33".to_string() });
    let s = plan_setup(&c);
    assert!(s.public.is_none() && s.local.is_none());
    let codecs = codec_priorities();
    assert_eq!((codecs[0].name, codecs[0].priority), ("opus/48000", 255));
    assert_eq!(codecs.len(), 6);
    assert!(check_setup(SetupStep::Init, 0).is_ok());
    assert_eq!(
        check_setup(SetupStep::UdpTransport, -3).unwrap_err(),
        "Failed to create UDP transport: -3"
    );
    assert_eq!(
        check_setup(SetupStep::NullSoundDevice, 1).unwrap_err(),
        "Failed to set null sound device"
    );
}

#[test]
fn tls_is_reloaded_between_calls() {
    assert_eq!(tls_step(true, true), TlsStep::Create);
    assert_eq!(tls_step(true, false), TlsStep::Skip);
    assert_eq!(tls_step(false, true), TlsStep::Skip);
    let mut t = TlsState::new();
    t.set_tls_reload_pending(true);
    t.created(3);
    assert_eq!(t.begin_reload(1), ReloadStep::Busy);
    assert_eq!(t.begin_reload(0), ReloadStep::CloseAndCreate(Some(3)));
    assert_eq!(t.begin_reload(0), ReloadStep::CloseAndCreate(None));
    t.finish_reload(Some(4));
    assert_eq!(t.begin_reload(0), ReloadStep::CloseAndCreate(Some(4)));
}
