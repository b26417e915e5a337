use sipcord_bridge::call::coordinator::{
    after_wait, refusal_of, refusal_of_making, AfterWait, BridgeCoordinator, ConnectStep, EndStep,
    Making, OutboundStep, RouteStep, WaitOutcome, WaitStep, BRIDGE_WAIT_SECS,
};
use sipcord_bridge::call::dispatch::{reported_status, EventFacts, EventStep};
use sipcord_bridge::call::fax::{
    after_audio_tick, after_call_end, after_t38, samples_to_write, FaxEnd, FaxProgress, FaxStep,
};
use sipcord_bridge::call::health::{backoff_secs, ConnectionHealth};
use sipcord_bridge::call::menu::{
    after_digit_wait, allowed_attempts, build_option_prompt, channel_intro, channel_options,
    check_tts_rate, clean_tts_label, digit_step_text, digit_taken, digit_timeout, guild_intro,
    guild_options, has_next_page, menu_step, menu_step_text, no_channels_text, no_guilds_text,
    page_slice, playback_ms, DigitStep, DigitWait, DynamicGuildOption, MenuStep,
};
use sipcord_bridge::call::outbound::{build_contact_uri, status_of_request, PhoneContact};
use sipcord_bridge::call::script::{
    connecting_script, error_script, extension_script, join_script, prompt_script, CallAction,
};
use sipcord_bridge::config::{
    BridgeConfig, DiscordOutboundSipConfig, OutboundSipTransport, SoundEntry,
};
use sipcord_bridge::discord::command::{build_outbound_request, CallCommand};
use sipcord_bridge::routing::{CallError, CallStatus, OutboundCallRequest, RouteDecision};
use sipcord_bridge::services::snowflake::Snowflake;
use sipcord_bridge::services::sound::{SoundFile, SoundManager};
use sipcord_bridge::sip::types::{CallId, DigestAuthParams, SipCommand, SipEvent, SipTransport};
use sipcord_bridge::text::is_white;

fn id(n: u64) -> Snowflake {
    Snowflake::new(n)
}

fn call(n: i32) -> CallId {
    CallId::new(n)
}

fn sounds() -> SoundManager {
    let entries = vec![
        (
            "connecting".to_string(),
            SoundEntry { src: Some("c".to_string()), preload: true, extension: None },
        ),
        (
            "discord_join".to_string(),
            SoundEntry { src: Some("j".to_string()), preload: true, extension: None },
        ),
        (
            "server_is_busy".to_string(),
            SoundEntry { src: Some("b".to_string()), preload: true, extension: None },
        ),
        ("egg".to_string(), SoundEntry { src: None, preload: false, extension: Some(77) }),
    ];
    let files = vec![
        SoundFile::Samples(vec![1, 2]),
        SoundFile::Samples(vec![3; 160]),
        SoundFile::Samples(vec![4; 1600]),
        SoundFile::Missing,
    ];
    SoundManager::new("", &entries, files)
}

/// A coordinator with one call on a bridge to channel 10 of guild 1.
fn bridged() -> BridgeCoordinator {
    let mut c = BridgeCoordinator::new();
    c.track_call(call(1));
    assert_eq!(c.begin_connect(call(1), id(10), id(1), "u", 0), ConnectStep::Create);
    assert!(c.bridge_connected(call(1), id(10), id(1), Some("u"), "tok", 5));
    c
}

#[test]
fn a_second_caller_joins_the_bridge() {
    let mut c = bridged();
    c.track_call(call(2));
    assert_eq!(c.begin_connect(call(2), id(10), id(1), "v", 9), ConnectStep::Joined);
    let b = c.bridge(id(10)).unwrap();
    assert_eq!(b.sip_calls.len(), 2);
    assert_eq!(b.last_call_time, 9);
    assert_eq!(b.created_at, 5);
    assert_eq!(c.call_ended(call(1), false), EndStep::Voice);
    assert!(c.has_bridge(id(10)));
    assert_eq!(c.call_ended(call(2), false), EndStep::LastCaller(10));
    assert!(!c.has_bridge(id(10)));
    assert_eq!(c.call_ended(call(2), false), EndStep::Voice);
}

#[test]
fn a_guild_has_one_channel() {
    let mut c = bridged();
    c.track_call(call(2));
    assert_eq!(c.begin_connect(call(2), id(11), id(1), "v", 9), ConnectStep::Busy);
    assert_eq!(c.begin_connect(call(2), id(11), id(2), "v", 9), ConnectStep::Create);
    assert_eq!(c.active_channels(), vec![10]);
}

#[test]
fn calls_wait_for_bridges_in_the_making() {
    let mut c = BridgeCoordinator::new();
    c.track_call(call(1));
    c.track_call(call(2));
    assert_eq!(c.begin_connect(call(1), id(10), id(1), "u", 0), ConnectStep::Create);
    assert_eq!(c.begin_connect(call(2), id(10), id(1), "v", 0), ConnectStep::Wait);
    assert_eq!(c.wait_step(call(2), id(10)), WaitStep::Pending);
    c.forget_call(call(2));
    assert_eq!(c.wait_step(call(2), id(10)), WaitStep::Gone);
    c.track_call(call(2));
    assert!(c.bridge_connected(call(1), id(10), id(1), Some("u"), "tok", 5));
    assert_eq!(c.wait_step(call(2), id(10)), WaitStep::Ready);
    assert_eq!(c.join_or_create(call(2), id(10), id(1), "v", 7), ConnectStep::Joined);
    assert_eq!(after_wait(WaitOutcome::Ready, true), AfterWait::Proceed);
    assert_eq!(after_wait(WaitOutcome::Gone, false), AfterWait::GiveUp);
    assert_eq!(
        after_wait(WaitOutcome::Gone, true),
        AfterWait::PlayError(CallError::Unknown)
    );
    assert_eq!(
        after_wait(WaitOutcome::TimedOut, false),
        AfterWait::PlayError(CallError::Unknown)
    );
}

#[test]
fn calls_that_end_while_connecting_leave_no_bridge() {
    let mut c = BridgeCoordinator::new();
    c.track_call(call(1));
    assert_eq!(c.begin_connect(call(1), id(10), id(1), "u", 0), ConnectStep::Create);
    assert_eq!(c.call_ended(call(1), false), EndStep::Voice);
    assert!(!c.bridge_connected(call(1), id(10), id(1), Some("u"), "tok", 5));
    assert!(!c.has_bridge(id(10)));
    assert_eq!(c.begin_connect(call(1), id(10), id(1), "u", 0), ConnectStep::Gone);
    c.track_call(call(3));
    assert_eq!(c.begin_connect(call(3), id(10), id(1), "u", 0), ConnectStep::Create);
    c.bridge_failed(id(10));
    assert_eq!(c.wait_step(call(3), id(10)), WaitStep::Ready);
}

#[test]
fn decisions_become_steps() {
    let mut c = BridgeCoordinator::new();
    c.track_call(call(1));
    let d = RouteDecision::RejectWithError { error: CallError::NoPermissions };
    assert!(matches!(c.route(call(1), d), RouteStep::PlayError(CallError::NoPermissions)));
    assert!(c.knows_call(call(1)));
    assert!(matches!(
        c.route(call(1), RouteDecision::RejectInvalidCredentials),
        RouteStep::Hangup
    ));
    assert!(!c.knows_call(call(1)));
    c.track_call(call(1));
    let d = RouteDecision::Redirect { domain: "d".to_string(), extension: "5".to_string() };
    match c.route(call(1), d) {
        RouteStep::Redirect { domain, extension } => {
            assert_eq!((domain.as_str(), extension.as_str()), ("d", "5"));
        }
        other => panic!("unexpected {:?}", other),
    }
    assert!(!c.knows_call(call(1)));
}

fn request(name: &str, guild: &str, channel: &str, uri: Option<&str>) -> OutboundCallRequest {
    OutboundCallRequest {
        call_id: name.to_string(),
        discord_username: "bob".to_string(),
        guild_id: guild.to_string(),
        channel_id: channel.to_string(),
        bot_token: "tok".to_string(),
        caller_username: "ann".to_string(),
        sip_uri: uri.map(|u| u.to_string()),
        created_at: 1000,
    }
}

#[test]
fn outbound_calls_are_bridged() {
    let mut c = BridgeCoordinator::new();
    let cmds = c.begin_outbound(request("r", "1", "10", Some("sip:7@pbx")), &vec![]).unwrap();
    assert_eq!(cmds.len(), 1);
    match &cmds[0] {
        SipCommand::MakeOutboundCall { tracking_id, sip_uri, caller_display_name, fork_total } => {
            assert_eq!(tracking_id, "r");
            assert_eq!(sip_uri, "sip:7@pbx");
            assert_eq!(caller_display_name.as_deref(), Some("ann"));
            assert_eq!(*fork_total, 1);
        }
        other => panic!("unexpected {:?}", other),
    }
    match c.outbound_answered("r", call(4)) {
        OutboundStep::Create { channel_id, guild_id, bot_token, report } => {
            assert_eq!((channel_id, guild_id), (id(10), id(1)));
            assert_eq!((bot_token.as_str(), report.as_str()), ("tok", "r"));
        }
        other => panic!("unexpected {:?}", other),
    }
    assert!(matches!(c.outbound_answered("r", call(5)), OutboundStep::NoRequest));
    assert!(c.bridge_connected(call(4), id(10), id(1), None, "tok", 5));
    assert_eq!(c.call_timed_out(call(4), 0), Some("r".to_string()));
    assert_eq!(c.call_timed_out(call(4), 1), None);
    c.begin_outbound(request("s", "1", "11", Some("sip:8@pbx")), &vec![]);
    assert!(matches!(c.outbound_answered("s", call(6)), OutboundStep::Busy { .. }));
    assert!(!c.knows_call(call(6)));
    c.begin_outbound(request("t", "x", "11", Some("sip:8@pbx")), &vec![]);
    match c.outbound_answered("t", call(6)) {
        OutboundStep::BadRequest { report } => assert_eq!(report, "t"),
        other => panic!("unexpected {:?}", other),
    }
}

#[test]
fn commands_lead_back_to_their_voice_channel() {
    let command = CallCommand {
        command_id: 99,
        extension: Some(" 1101 ".to_string()),
        guild_id: Some(668249361339383808),
        guild_known: true,
        voice_channel: Some(931737080176979968),
        nick: None,
        global_name: Some("Ann".to_string()),
        user_name: "ann".to_string(),
    };
    let sip = DiscordOutboundSipConfig {
        host: "192.168.0.25".to_string(),
        port: 5060,
        transport: OutboundSipTransport::Udp,
    };
    let request = build_outbound_request(&command, &sip, "tok", 5).unwrap();
    let name = request.call_id.clone();
    assert_eq!(name, "discord-99-1101");
    let mut c = BridgeCoordinator::new();
    let cmds = c.begin_outbound(request, &vec![]).unwrap();
    match &cmds[..] {
        [SipCommand::MakeOutboundCall { sip_uri, .. }] => {
            assert_eq!(sip_uri, "sip:1101@192.168.0.25:5060;transport=udp");
        }
        other => panic!("unexpected {:?}", other),
    }
    match c.outbound_answered(&name, call(1)) {
        OutboundStep::Create { channel_id, guild_id, bot_token, .. } => {
            assert_eq!(channel_id, id(931737080176979968));
            assert_eq!(guild_id, id(668249361339383808));
            assert_eq!(bot_token, "tok");
        }
        other => panic!("unexpected {:?}", other),
    }
}

#[test]
fn outbound_calls_fork_to_contacts() {
    let mut c = BridgeCoordinator::new();
    assert!(c.begin_outbound(request("r", "1", "10", None), &vec![]).is_none());
    assert!(matches!(c.outbound_answered("r", call(1)), OutboundStep::NoRequest));
    let contact = |uri: &str, transport| PhoneContact {
        contact_uri: uri.to_string(),
        source_addr: "1.2.3.4:5062".to_string(),
        transport,
    };
    let contacts = vec![
        contact("sip:3001@10.0.1.151:5060", SipTransport::Udp),
        contact("sips:3002@h", SipTransport::Tls),
        contact("tel:3003", SipTransport::Tcp),
        contact("sip:3004", SipTransport::Tcp),
    ];
    let uris: Vec<String> = contacts.iter().map(|c| build_contact_uri(c, "bob")).collect();
    assert_eq!(
        uris,
        vec![
            "sip:3001@1.2.3.4:5062;transport=udp",
            "sips:3002@1.2.3.4:5062",
            "sip:bob@1.2.3.4:5062;transport=tcp",
            "sip:3004@1.2.3.4:5062;transport=tcp",
        ]
    );
    let cmds = c.begin_outbound(request("r", "1", "10", None), &contacts).unwrap();
    assert_eq!(cmds.len(), 4);
    for cmd in &cmds {
        assert!(matches!(cmd, SipCommand::MakeOutboundCall { fork_total: 4, .. }));
    }
    assert!(!c.outbound_failed("r", true, true));
    assert!(c.outbound_failed("r", true, false));
    assert!(matches!(c.outbound_answered("r", call(1)), OutboundStep::NoRequest));
    c.begin_outbound(request("r", "1", "10", None), &contacts);
    assert!(c.outbound_failed("r", false, true));
}

#[test]
fn old_requests_are_forgotten() {
    let mut c = BridgeCoordinator::new();
    c.remember_request(request("r", "1", "10", None));
    c.sweep_requests(60_999);
    assert!(matches!(c.outbound_answered("r", call(1)), OutboundStep::Create { .. }));
    c.remember_request(request("r", "1", "20", None));
    c.sweep_requests(61_000);
    assert!(matches!(c.outbound_answered("r", call(1)), OutboundStep::NoRequest));
}

#[test]
fn hangup_requests_name_the_calls_of_a_channel() {
    let mut c = bridged();
    c.track_call(call(2));
    c.begin_connect(call(2), id(10), id(1), "v", 9);
    let mut calls: Vec<i32> =
        c.hangup_requested("10").unwrap().iter().map(|c| c.get()).collect();
    calls.sort();
    assert_eq!(calls, vec![1, 2]);
    assert!(c.hangup_requested("11").unwrap().is_empty());
    assert!(c.hangup_requested("ten").is_none());
}

fn facts(fax: bool, digit: bool, legs: bool) -> EventFacts {
    EventFacts { has_fax_session: fax, awaits_digit: digit, legs_left: legs }
}

#[test]
fn events_are_dispatched() {
    let s = sounds();
    let mut c = BridgeCoordinator::new();
    let incoming = |ext: &str| SipEvent::IncomingCall {
        call_id: call(1),
        digest_auth: DigestAuthParams::default(),
        extension: ext.to_string(),
        source_ip: None,
    };
    match c.on_sip_event(incoming("77"), facts(false, false, false), &s) {
        EventStep::PlayExtension { sound, .. } => assert_eq!(sound, "egg"),
        other => panic!("unexpected {:?}", other),
    }
    assert!(!c.knows_call(call(1)));
    match c.on_sip_event(incoming("1000"), facts(false, false, false), &s) {
        EventStep::Route { extension, .. } => assert_eq!(extension, "1000"),
        other => panic!("unexpected {:?}", other),
    }
    assert!(c.knows_call(call(1)));
    let dtmf = |d| SipEvent::Dtmf { call_id: call(1), digit: d };
    assert!(matches!(
        c.on_sip_event(dtmf('5'), facts(false, true, false), &s),
        EventStep::ForwardDigit { digit: '5', .. }
    ));
    assert!(matches!(
        c.on_sip_event(dtmf('5'), facts(false, false, false), &s),
        EventStep::Ignore
    ));
    let timeout = SipEvent::CallTimeout { call_id: call(1), rx_count: 0 };
    assert!(matches!(
        c.on_sip_event(timeout, facts(false, false, false), &s),
        EventStep::HangUpSilent { report: None, .. }
    ));
    let t38 = || SipEvent::T38Offered {
        call_id: call(1),
        remote_ip: "9.9.9.9".to_string(),
        remote_port: 4000,
        t38_version: 0,
        max_bit_rate: 14400,
        rate_management: String::new(),
        udp_ec: String::new(),
        local_port: 10002,
    };
    assert!(matches!(
        c.on_sip_event(t38(), facts(true, false, false), &s),
        EventStep::SwitchToT38 { remote_port: 4000, local_port: 10002, .. }
    ));
    assert!(matches!(
        c.on_sip_event(t38(), facts(false, false, false), &s),
        EventStep::RefuseT38 { .. }
    ));
    let failed = || SipEvent::OutboundCallFailed {
        tracking_id: "r".to_string(),
        call_id: Some(call(3)),
        reason: "486 Busy".to_string(),
    };
    assert!(matches!(
        c.on_sip_event(failed(), facts(false, false, true), &s),
        EventStep::Ignore
    ));
    assert!(matches!(
        c.on_sip_event(failed(), facts(false, false, false), &s),
        EventStep::ReportFailure { .. }
    ));
    let answered =
        SipEvent::OutboundCallAnswered { tracking_id: "r".to_string(), call_id: call(3) };
    assert!(matches!(
        c.on_sip_event(answered, facts(false, false, false), &s),
        EventStep::Answered { .. }
    ));
    let ended = SipEvent::CallEnded { call_id: call(1) };
    assert!(matches!(
        c.on_sip_event(ended, facts(true, false, false), &s),
        EventStep::Ended { how: EndStep::Fax, .. }
    ));
    assert!(!c.knows_call(call(1)));
}

#[test]
fn reconnections_back_off() {
    let cfg = BridgeConfig::default();
    let delays: Vec<u64> = (0..10).map(|n| backoff_secs(&cfg, n)).collect();
    assert_eq!(delays, vec![5, 5, 10, 20, 40, 80, 160, 300, 300, 300]);
    assert_eq!(backoff_secs(&cfg, u32::MAX), 300);
    let mut big = cfg;
    big.reconnect_base_delay_secs = u64::MAX / 2 + 1;
    big.reconnect_max_delay_secs = u64::MAX;
    assert_eq!(backoff_secs(&big, 2), u64::MAX);
    assert_eq!(backoff_secs(&big, 1), u64::MAX / 2 + 1);
}

fn sick() -> ConnectionHealth {
    ConnectionHealth { healthy: false, queue_fill: 0, overflows: 0 }
}

#[test]
fn unhealthy_bridges_are_reconnected() {
    let cfg = BridgeConfig::default();
    let mut c = bridged();
    let plan = c.health_check(&vec![(10, sick())], &cfg, 20_000);
    assert!(plan.reconnect.is_empty());
    let plan = c.health_check(&vec![(10, sick())], &cfg, 40_000);
    assert_eq!(plan.reconnect, vec![10]);
    assert!(plan.exhausted.is_empty() && plan.orphaned.is_empty());
    let old = c.begin_reconnect(id(10)).unwrap();
    assert!(!c.has_bridge(id(10)));
    assert!(c.begin_reconnect(id(10)).is_none());
    c.finish_reconnect(id(10), old, 41_000);
    let b = c.bridge(id(10)).unwrap();
    assert_eq!((b.reconnect_attempts, b.last_reconnect_at), (1, Some(41_000)));
    assert_eq!((b.created_at, b.last_call_time, b.sip_calls.len()), (41_000, 5, 1));
    let full = ConnectionHealth { healthy: true, queue_fill: 91, overflows: 51 };
    assert_eq!(c.health_check(&vec![(10, full)], &cfg, 80_000).reconnect, vec![10]);
    let busy = ConnectionHealth { healthy: true, queue_fill: 91, overflows: 50 };
    assert!(c.health_check(&vec![(10, busy)], &cfg, 80_000).reconnect.is_empty());
}

#[test]
fn worn_out_bridges_are_torn_down() {
    let cfg = BridgeConfig::default();
    let mut c = bridged();
    let mut now = 100_000;
    for _ in 0..5 {
        let old = c.begin_reconnect(id(10)).unwrap();
        c.finish_reconnect(id(10), old, now);
        now += 1_000_000;
    }
    let plan = c.health_check(&vec![(10, sick())], &cfg, now);
    assert_eq!(plan.exhausted.len(), 1);
    assert_eq!(plan.exhausted[0].0, 10);
    assert_eq!(plan.exhausted[0].1, vec![call(1)]);
    assert!(!c.has_bridge(id(10)));
}

#[test]
fn bridges_without_calls_are_destroyed() {
    let cfg = BridgeConfig::default();
    let mut c = bridged();
    c.forget_call(call(1));
    assert!(c.health_check(&vec![], &cfg, 61_000).orphaned.is_empty());
    assert_eq!(c.health_check(&vec![], &cfg, 61_005).orphaned, vec![10]);
    assert!(!c.has_bridge(id(10)));
    let mut c = bridged();
    let old = c.begin_reconnect(id(10)).unwrap();
    c.forget_call(call(1));
    c.finish_reconnect(id(10), old, 10_000);
    assert_eq!(c.bridge(id(10)).unwrap().sip_calls.len(), 0);
    assert!(c.health_check(&vec![], &cfg, 31_004).orphaned.is_empty());
    assert_eq!(c.health_check(&vec![], &cfg, 31_005).orphaned, vec![10]);
}

#[test]
fn reconnections_per_check_are_limited() {
    let cfg = BridgeConfig::default();
    let mut c = BridgeCoordinator::new();
    let mut reports = Vec::new();
    for n in 0..5 {
        c.track_call(call(n));
        c.begin_connect(call(n), id(100 + n as u64), id(n as u64), "u", 0);
        c.bridge_connected(call(n), id(100 + n as u64), id(n as u64), Some("u"), "t", 0);
        reports.push((100 + n as u64, sick()));
    }
    let plan = c.health_check(&reports, &cfg, 40_000);
    assert_eq!(plan.reconnect.len(), 3);
}

#[test]
fn labels_are_spoken() {
    assert_eq!(clean_tts_label("general-chat"), "general chat");
    assert_eq!(clean_tts_label("\u{1F3AE} Gaming | Room_1 "), "Gaming Room 1");
    assert_eq!(clean_tts_label("\u{2764}\u{FE0F}"), "unnamed");
    assert_eq!(clean_tts_label(""), "unnamed");
    assert_eq!(clean_tts_label("a\u{a0}\tb"), "a b");
    assert_eq!(clean_tts_label("caf\u{e9}"), "caf\u{e9}");
}

fn guilds(n: usize) -> Vec<DynamicGuildOption> {
    (0..n)
        .map(|i| DynamicGuildOption { guild_id: id(i as u64), name: format!("g-{}", i) })
        .collect()
}

#[test]
fn pages_of_eight() {
    let g = guilds(10);
    assert_eq!(page_slice(&g, 0).len(), 8);
    assert_eq!(page_slice(&g, 1).len(), 2);
    assert_eq!(page_slice(&g, 2).len(), 0);
    assert_eq!(page_slice(&g, usize::MAX).len(), 0);
    assert!(has_next_page(9, 0));
    assert!(!has_next_page(8, 0));
    assert!(!has_next_page(0, 0));
    assert!(!has_next_page(10, usize::MAX));
    let intro = guild_intro();
    assert_eq!(
        build_option_prompt(&intro, page_slice(&g, 1), 1, 10),
        "Select a Discord server. Press 1 for g 8. Press 2 for g 9. Press star for previous. \
         Press pound to repeat."
    );
    assert_eq!(
        build_option_prompt("Hi.", page_slice(&g, 0)[..1].as_ref(), 0, 10),
        "Hi. Press 1 for g 0. Press 9 for more. Press pound to repeat."
    );
    assert_eq!(channel_intro("My_Guild"), "Select a voice channel in My Guild.");
}

#[test]
fn digits_lead_through_the_menu() {
    assert_eq!(menu_step(10, 0, 0, 3, '#'), MenuStep::Speak { page: 0 });
    assert_eq!(menu_step(10, 0, 0, 3, '9'), MenuStep::Speak { page: 1 });
    assert_eq!(menu_step(10, 1, 0, 3, '*'), MenuStep::Speak { page: 0 });
    assert_eq!(menu_step(10, 1, 0, 3, '2'), MenuStep::Chosen { index: 9 });
    assert_eq!(menu_step(10, 1, 0, 3, '3'), MenuStep::Invalid { attempts: 1 });
    assert_eq!(menu_step(10, 1, 1, 3, '9'), MenuStep::Invalid { attempts: 2 });
    assert_eq!(menu_step(10, 0, 2, 3, '*'), MenuStep::GiveUp);
    assert_eq!(menu_step(10, 0, 0, 1, '\0'), MenuStep::GiveUp);
    assert_eq!(menu_step(10, 0, 255, 255, '0'), MenuStep::GiveUp);
    assert_eq!(allowed_attempts(0), 1);
    assert_eq!(allowed_attempts(3), 3);
    assert_eq!(digit_timeout(0), 1);
    assert_eq!(digit_timeout(10), 10);
    assert_eq!(after_digit_wait(DigitWait::Pressed('4')), DigitStep::Take('4'));
    assert_eq!(after_digit_wait(DigitWait::Closed), DigitStep::Hangup);
    assert_eq!(after_digit_wait(DigitWait::TimedOut), DigitStep::SayNothingReceived);
}

#[test]
fn menus_without_entries() {
    assert_eq!(no_guilds_text(None), Some("I could not load Discord servers."));
    assert_eq!(no_guilds_text(Some(0)), Some("No Discord servers are available."));
    assert_eq!(no_guilds_text(Some(1)), None);
    assert_eq!(no_channels_text("G", Some(0)).unwrap(), "G has no voice channels available.");
    assert_eq!(no_channels_text("G", None).unwrap(), "I could not load voice channels.");
    assert_eq!(no_channels_text("G", Some(2)), None);
}

#[test]
fn options_are_listed_by_name() {
    let raw = vec![
        ("3".to_string(), "zeta".to_string()),
        ("x".to_string(), "bad".to_string()),
        ("4".to_string(), "Alpha".to_string()),
    ];
    let names: Vec<String> = guild_options(&raw).into_iter().map(|g| g.name).collect();
    assert_eq!(names, vec!["Alpha", "zeta"]);
    let raw = vec![
        ("3".to_string(), "voice b".to_string(), 2),
        ("5".to_string(), "text".to_string(), 0),
        ("y".to_string(), "bad".to_string(), 2),
        ("4".to_string(), "Voice A".to_string(), 2),
    ];
    let ids: Vec<u64> = channel_options(&raw).iter().map(|c| c.channel_id.get()).collect();
    assert_eq!(ids, vec![4, 3]);
}

#[test]
fn speech_has_a_rate_and_a_length() {
    assert_eq!(playback_ms(16000, 100), 1100);
    assert_eq!(playback_ms(15, 0), 0);
    assert!(check_tts_rate(16000).is_ok());
    assert_eq!(
        check_tts_rate(22050).unwrap_err(),
        "TTS WAV has sample rate 22050, expected 16000"
    );
}

#[test]
fn fax_sessions_come_to_an_end() {
    let p = |finished, received, timed_out| FaxProgress { finished, received, timed_out };
    assert_eq!(after_audio_tick(p(true, true, true)), FaxStep::ConvertAndHangup);
    assert_eq!(after_audio_tick(p(true, false, true)), FaxStep::Hangup);
    assert_eq!(after_audio_tick(p(false, false, true)), FaxStep::TimeoutAndHangup);
    assert_eq!(after_audio_tick(p(false, false, false)), FaxStep::Continue);
    assert_eq!(after_t38(true, p(false, false, false), false), FaxStep::ConvertAndHangup);
    assert_eq!(after_t38(false, p(true, true, false), false), FaxStep::Hangup);
    assert_eq!(after_t38(false, p(false, false, true), false), FaxStep::Continue);
    assert_eq!(after_t38(false, p(false, false, true), true), FaxStep::TimeoutAndHangup);
    assert_eq!(after_call_end(true, 3), FaxEnd::Nothing);
    assert_eq!(after_call_end(false, 3), FaxEnd::Convert);
    assert_eq!(after_call_end(false, 0), FaxEnd::HungUpEarly);
    assert_eq!(samples_to_write(320, 100), 100);
    assert_eq!(samples_to_write(100, 320), 100);
}

fn sent(a: &CallAction) -> String {
    match a {
        CallAction::Wait(ms) => format!("wait {}", ms),
        CallAction::Send(SipCommand::Answer { .. }) => "answer".to_string(),
        CallAction::Send(SipCommand::Send183 { .. }) => "183".to_string(),
        CallAction::Send(SipCommand::Hangup { .. }) => "hangup".to_string(),
        CallAction::Send(SipCommand::PlayDirectToCall { samples, .. }) => {
            format!("play {}", samples.len())
        }
        CallAction::Send(SipCommand::StartConnectingLoop { samples, .. }) => {
            format!("loop {}", samples.len())
        }
        CallAction::Send(SipCommand::StartTestTone { .. }) => "tone".to_string(),
        CallAction::Send(other) => format!("{:?}", other),
    }
}

#[test]
fn scripts() {
    let s = sounds();
    let text = |v: Vec<CallAction>| v.iter().map(sent).collect::<Vec<_>>().join(", ");
    let connect = RouteDecision::RejectInvalidCredentials;
    assert_eq!(text(connecting_script(call(1), &connect, &s)), "183, wait 100, loop 2");
    let fax = RouteDecision::ConnectFax {
        text_channel_id: id(1),
        guild_id: id(2),
        user_id: String::new(),
        bot_token: String::new(),
    };
    assert_eq!(text(connecting_script(call(1), &fax, &s)), "");
    assert_eq!(text(join_script(call(1), true, &s)), "answer, play 160");
    assert_eq!(text(join_script(call(1), false, &s)), "play 160");
    assert_eq!(
        text(error_script(call(1), CallError::ServerBusy, &s)),
        "answer, wait 200, play 1600, wait 300, hangup"
    );
    assert_eq!(
        text(error_script(call(1), CallError::Unknown, &s)),
        "answer, wait 200, hangup"
    );
    assert_eq!(text(extension_script(call(1), "test_tone", &s)), "answer, tone");
    assert_eq!(text(extension_script(call(1), "egg", &s)), "answer, hangup");
    assert_eq!(
        text(extension_script(call(1), "discord_join", &s)),
        "answer, play 160, wait 210, hangup"
    );
    assert_eq!(text(prompt_script(call(1), vec![0; 160])), "play 160, wait 110");
}

#[test]
fn spoken_labels_stay_as_they_are() {
    for label in ["\u{1F3AE} Gaming | Room_1 ", "", "a\u{a0}\tb", "caf\u{e9}", "..."] {
        let once = clean_tts_label(label);
        assert_eq!(clean_tts_label(&once), once);
    }
}

#[test]
fn white_space_is_a_gap() {
    let listed = |u: u32| {
        (0x9..=0xD).contains(&u)
            || (0x2000..=0x200A).contains(&u)
            || [0x20, 0x85, 0xA0, 0x1680, 0x2028, 0x2029, 0x202F, 0x205F, 0x3000].contains(&u)
    };
    let mut count = 0;
    for u in 0..=0x10FFFF {
        if let Some(c) = char::from_u32(u) {
            assert_eq!(c.is_whitespace(), listed(u), "{:x}", u);
            if listed(u) {
                count += 1;
                assert_eq!(clean_tts_label(&format!("{c}a{c}b{c}")), "a b");
            }
        }
    }
    assert_eq!(count, 25);
}

#[test]
fn refused_callers_hear_why() {
    assert_eq!(refusal_of(ConnectStep::Busy), Some(CallError::ServerBusy));
    for step in [ConnectStep::Wait, ConnectStep::Gone, ConnectStep::Joined, ConnectStep::Create] {
        assert_eq!(refusal_of(step), None);
    }
    assert_eq!(refusal_of_making(Making::Failed), Some(CallError::Unknown));
    assert_eq!(refusal_of_making(Making::Kept), None);
    assert_eq!(refusal_of_making(Making::CallEnded), None);
    assert_eq!(BRIDGE_WAIT_SECS, 15);
}

#[test]
fn a_second_channel_of_a_guild_is_refused_as_busy() {
    let mut c = bridged();
    c.track_call(call(2));
    let step = c.begin_connect(call(2), id(11), id(1), "u", 0);
    assert_eq!(refusal_of(step), Some(CallError::ServerBusy));
}

#[test]
fn menus_say_what_went_wrong() {
    assert_eq!(menu_step_text(MenuStep::Invalid { attempts: 1 }), Some("Invalid selection."));
    assert_eq!(
        menu_step_text(MenuStep::GiveUp),
        Some("Too many invalid selections. Goodbye.")
    );
    assert_eq!(menu_step_text(MenuStep::Speak { page: 1 }), None);
    assert_eq!(menu_step_text(MenuStep::Chosen { index: 0 }), None);
    assert_eq!(
        digit_step_text(DigitStep::SayNothingReceived),
        Some("No selection received.")
    );
    assert_eq!(digit_step_text(DigitStep::Take('1')), None);
    assert_eq!(digit_step_text(DigitStep::Hangup), None);
}

#[test]
fn a_digit_that_never_came_is_a_wrong_one() {
    assert_eq!(digit_taken(after_digit_wait(DigitWait::Pressed('7'))), Some('7'));
    assert_eq!(digit_taken(after_digit_wait(DigitWait::Closed)), None);
    let none = digit_taken(after_digit_wait(DigitWait::TimedOut)).unwrap();
    assert_eq!(none, '\0');
    assert_eq!(menu_step(3, 0, 0, 3, none), MenuStep::Invalid { attempts: 1 });
    assert_eq!(menu_step(3, 0, 2, 3, none), MenuStep::GiveUp);
}

#[test]
fn steps_of_outbound_calls_are_reported() {
    let silent = |report| EventStep::HangUpSilent { call_id: call(1), report };
    assert_eq!(reported_status(&silent(Some("r".to_string()))), Some(CallStatus::NoAudio));
    assert_eq!(reported_status(&silent(None)), None);
    let answered = EventStep::Answered { tracking_id: "r".to_string(), call_id: call(1) };
    assert_eq!(reported_status(&answered), Some(CallStatus::Answered));
    let failed = EventStep::ReportFailure { tracking_id: "r".to_string() };
    assert_eq!(reported_status(&failed), Some(CallStatus::Failed));
    assert_eq!(reported_status(&EventStep::Ignore), None);
    assert_eq!(status_of_request(true), CallStatus::Ringing);
    assert_eq!(status_of_request(false), CallStatus::Failed);
}

#[test]
fn white_space_is_that_of_unicode() {
    for c in '\0'..=char::MAX {
        assert_eq!(is_white(c), c.is_whitespace());
    }
}
