use sipcord_bridge::config::{AudioConfig, DiscordOutboundSipConfig, OutboundSipTransport};
use sipcord_bridge::discord::command::{
    build_hangup_request, build_outbound_request, button_extension, button_id,
    commands_to_register, dialling_text, is_safe_extension, CallCommand,
};
use sipcord_bridge::discord::connection::{
    after_join_failure, bridge_name, fill_percent, DiscordEvent, JoinStep, VoiceReceiver,
};
use sipcord_bridge::discord::mixing::{
    decimate_48k_to_16k, max_abs_i16, mix_voices, stereo_to_mono, VadState,
};
use sipcord_bridge::discord::ring::{
    frames_in, pad_with_silence, plan_read, take_frames, write_discord_to_sip, DirectAudioSender,
    ReadStep, StreamingAudioSource,
};
use sipcord_bridge::services::snowflake::Snowflake;

#[test]
fn safe_extensions_are_accepted() {
    assert!(is_safe_extension("1101"));
    assert!(is_safe_extension("*98"));
    assert!(is_safe_extension("queue-1"));
}

#[test]
fn unsafe_extensions_are_rejected() {
    assert!(!is_safe_extension(""));
    assert!(!is_safe_extension("1101@pbx"));
    assert!(!is_safe_extension("11 01"));
    assert!(!is_safe_extension("1101/../../"));
}

#[test]
fn extensions_have_at_most_sixty_four_characters() {
    assert!(is_safe_extension(&"7".repeat(64)));
    assert!(!is_safe_extension(&"7".repeat(65)));
    assert!(!is_safe_extension("caf\u{e9}"));
}

fn command() -> CallCommand {
    CallCommand {
        command_id: 99,
        extension: Some(" 1101 ".to_string()),
        guild_id: Some(5),
        guild_known: true,
        voice_channel: Some(6),
        nick: None,
        global_name: None,
        user_name: "ann".to_string(),
    }
}

fn target() -> DiscordOutboundSipConfig {
    DiscordOutboundSipConfig {
        host: "192.168.0.25".to_string(),
        port: 5060,
        transport: OutboundSipTransport::Udp,
    }
}

#[test]
fn commands_become_requests() {
    let r = build_outbound_request(&command(), &target(), "tok", 17).unwrap();
    assert_eq!(r.call_id, "discord-99-1101");
    assert_eq!(r.discord_username, "1101");
    assert_eq!(r.guild_id, "5");
    assert_eq!(r.channel_id, "6");
    assert_eq!(r.bot_token, "tok");
    assert_eq!(r.caller_username, "ann");
    assert_eq!(r.sip_uri.unwrap(), "sip:1101@192.168.0.25:5060;transport=udp");
    assert_eq!(r.created_at, 17);
    let mut c = command();
    c.global_name = Some("Ann G".to_string());
    assert_eq!(build_outbound_request(&c, &target(), "t", 0).unwrap().caller_username, "Ann G");
    c.nick = Some("Annie".to_string());
    assert_eq!(build_outbound_request(&c, &target(), "t", 0).unwrap().caller_username, "Annie");
}

#[test]
fn commands_are_refused_in_order() {
    let refused = |c: &CallCommand| build_outbound_request(c, &target(), "t", 0).unwrap_err();
    let mut c = command();
    c.voice_channel = None;
    assert_eq!(refused(&c), "Join a voice channel first, then run `/call` there.");
    c.guild_known = false;
    assert_eq!(refused(&c), "Guild is not available in cache yet. Try again in a moment.");
    c.guild_id = None;
    assert_eq!(refused(&c), "This command only works inside a server.");
    c.extension = Some("a b".to_string());
    assert_eq!(
        refused(&c),
        "Extension contains unsupported characters. Use digits or simple SIP-safe extension text."
    );
    c.extension = None;
    assert_eq!(refused(&c), "Missing extension.");
    assert_eq!(
        dialling_text("7", true),
        "Dialing extension `7` from your current voice channel."
    );
    assert_eq!(dialling_text("7", false), "Outbound call queue is unavailable right now.");
}

#[test]
fn peaks() {
    assert_eq!(max_abs_i16(&[]), 0);
    assert_eq!(max_abs_i16(&[3, -9, 4]), 9);
    assert_eq!(max_abs_i16(&[i16::MIN, 5]), 32767);
}

#[test]
fn speech_is_detected() {
    let cfg = AudioConfig::default();
    let mut v = VadState::new();
    v.update(&[100], &cfg);
    assert_eq!(v, VadState { silence_frames: 1, speaking: false });
    v.update(&[201], &cfg);
    assert_eq!(v, VadState { silence_frames: 0, speaking: true });
    for n in 1..15u32 {
        v.update(&[-200], &cfg);
        assert_eq!(v, VadState { silence_frames: n, speaking: true });
    }
    v.update(&[200], &cfg);
    assert_eq!(v, VadState { silence_frames: 15, speaking: false });
    v.update(&[300], &cfg);
    v.update(&[49], &cfg);
    assert_eq!(v, VadState { silence_frames: 15, speaking: false });
}

#[test]
fn voices_are_mixed() {
    assert_eq!(mix_voices(&vec![]), Vec::<i16>::new());
    assert_eq!(
        mix_voices(&vec![vec![1, 2], vec![10, 20, 30], vec![-5]]),
        vec![6, 22, 30]
    );
    assert_eq!(
        mix_voices(&vec![vec![30000, -30000], vec![30000, -30000]]),
        vec![32767, -32768]
    );
    assert_eq!(mix_voices(&vec![vec![1; 3000]]).len(), 1920);
    assert_eq!(stereo_to_mono(&[1, 2, -3, -4, 9]), vec![1, -3]);
    assert_eq!(decimate_48k_to_16k(&[0, 1, 2, 3, 4, 5, 6]), vec![0, 3, 6]);
    assert_eq!(decimate_48k_to_16k(&[0, 1, 2]), vec![0]);
    assert_eq!(decimate_48k_to_16k(&[]), Vec::<i16>::new());
}

#[test]
fn ticks_reach_the_calls() {
    let mut r = VoiceReceiver::new(Snowflake::new(42), 1000);
    r.speaking_update(7, Some(Snowflake::new(42)));
    r.speaking_update(8, Some(Snowflake::new(43)));
    let voice = vec![600i16; 12];
    let speakers = vec![(7, Some(vec![9999; 12])), (8, Some(voice.clone())), (9, None)];
    assert_eq!(r.voice_tick(2000, &speakers, 200), Some(vec![600, 600]));
    assert_eq!(r.voice_tick(2020, &vec![(7, Some(vec![9999; 12]))], 200), None);
    assert_eq!(r.voice_tick(2040, &vec![(8, Some(vec![100; 12]))], 200), None);
    assert!(r.is_healthy(7039));
    assert!(!r.is_healthy(7040));
    assert!(r.is_healthy(0));
    assert!(!r.driver_disconnect(Some("Requested")));
    assert!(r.is_healthy(2040));
    assert!(r.driver_disconnect(None));
    assert!(!r.is_healthy(2040));
    r.deactivate();
    assert_eq!(r.voice_tick(9000, &speakers, 200), None);
    assert!(!r.driver_disconnect(Some("WsClosed")));
}

#[test]
fn fill_levels_and_retries() {
    assert_eq!(fill_percent(96000, 96000), 0);
    assert_eq!(fill_percent(96000, 48000), 50);
    assert_eq!(fill_percent(96000, 0), 100);
    assert_eq!(fill_percent(3, 2), 33);
    assert_eq!(fill_percent(3, 9), 0);
    assert_eq!(after_join_failure(1, 2), JoinStep::Retry);
    assert_eq!(after_join_failure(2, 2), JoinStep::GiveUp);
}

#[test]
fn reads_are_planned() {
    assert_eq!(plan_read(false, 9, 10, 4), ReadStep::PreBuffer);
    assert_eq!(plan_read(false, 10, 10, 4), ReadStep::Read(4));
    assert_eq!(plan_read(true, 3, 10, 4), ReadStep::Read(3));
    assert_eq!(plan_read(true, 0, 10, 4), ReadStep::Underrun);
    assert_eq!(pad_with_silence(vec![5], 3), vec![5, 0, 0]);
}

#[test]
fn sound_flows_through_the_ring() {
    let (mut source, producer) = StreamingAudioSource::new(8, 4);
    let mut sender = DirectAudioSender::new(producer);
    assert!(sender.send(&[1, 2]));
    assert_eq!(sender.queue_fill_percent(8), 25);
    assert_eq!(source.read(2), vec![0, 0]);
    assert!(sender.send(&[3, 4]));
    assert_eq!(source.read(3), vec![1, 2, 3]);
    assert_eq!(source.read(3), vec![4, 0, 0]);
    assert_eq!(source.read(2), vec![0, 0]);
    assert!(sender.send(&[1, 2, 3, 4, 5, 6, 7, 8]));
    assert!(!sender.send(&[9]));
    assert!(!sender.send(&[9]));
    assert_eq!(sender.consecutive_overflows(), 2);
    assert_eq!(source.read(8), vec![1, 2, 3, 4, 5, 6, 7, 8]);
    assert!(sender.send(&[9]));
    assert_eq!(sender.consecutive_overflows(), 0);
    sender.observe(&[1000], &AudioConfig::default());
    assert!(sender.is_speaking());
}

#[test]
fn frames_for_calls_are_written_whole() {
    let (mut producer, mut consumer) = rtrb::RingBuffer::<i16>::new(4);
    assert!(write_discord_to_sip(&mut producer, &[1, 2, 3]));
    assert!(!write_discord_to_sip(&mut producer, &[4, 5]));
    assert!(write_discord_to_sip(&mut producer, &[6]));
    let mut got = Vec::new();
    while let Ok(s) = consumer.pop() {
        got.push(s);
    }
    assert_eq!(got, vec![1, 2, 3, 6]);
}

fn given(guild: Option<u64>, known: bool, channel: Option<u64>) -> CallCommand {
    CallCommand {
        command_id: 7,
        extension: None,
        guild_id: guild,
        guild_known: known,
        voice_channel: channel,
        nick: Some("Nick".to_string()),
        global_name: None,
        user_name: "u".to_string(),
    }
}

#[test]
fn commands_are_registered_where_phones_can_be_called() {
    assert_eq!(commands_to_register(true), vec!["call", "hangup", "directory"]);
    assert!(commands_to_register(false).is_empty());
}

#[test]
fn hangups_name_their_voice_channel() {
    let r = build_hangup_request(&given(Some(1), true, Some(10)), 5).unwrap();
    assert_eq!((r.request_id.as_str(), r.guild_id.as_str()), ("discord-7-hangup", "1"));
    assert_eq!((r.channel_id.as_str(), r.requested_by.as_str()), ("10", "Nick"));
    assert_eq!(r.created_at, 5);
    assert_eq!(
        build_hangup_request(&given(None, true, Some(10)), 5).unwrap_err(),
        "This command only works inside a server."
    );
    assert_eq!(
        build_hangup_request(&given(Some(1), false, Some(10)), 5).unwrap_err(),
        "Guild is not available in cache yet. Try again in a moment."
    );
    assert_eq!(
        build_hangup_request(&given(Some(1), true, None), 5).unwrap_err(),
        "Join a voice channel first, then run `/hangup` there."
    );
}

#[test]
fn buttons_dial_their_extension() {
    assert_eq!(button_id("777"), "dial:777");
    assert_eq!(button_extension("dial:777").as_deref(), Some("777"));
    assert_eq!(button_extension("other:777"), None);
}

#[test]
fn whole_frames_are_taken_out() {
    let (mut producer, mut consumer) = rtrb::RingBuffer::<i16>::new(8);
    assert!(take_frames(&mut consumer, 2).is_empty());
    assert!(write_discord_to_sip(&mut producer, &[1, 2, 3, 4, 5]));
    assert_eq!(take_frames(&mut consumer, 2), vec![vec![1, 2], vec![3, 4]]);
    assert!(write_discord_to_sip(&mut producer, &[6]));
    assert_eq!(take_frames(&mut consumer, 2), vec![vec![5, 6]]);
    assert!(take_frames(&mut consumer, 2).is_empty());
}

#[test]
fn one_voice_is_unchanged() {
    assert_eq!(mix_voices(&vec![vec![5, -6, 7]]), vec![5, -6, 7]);
}

#[test]
fn bridges_are_named_after_their_channel() {
    assert_eq!(bridge_name(Snowflake::new(42)), "bridge_42");
    assert_ne!(bridge_name(Snowflake::new(4)), bridge_name(Snowflake::new(42)));
    match DiscordEvent::connected(Snowflake::new(1), Snowflake::new(42)) {
        DiscordEvent::VoiceConnected { bridge_id, guild_id, channel_id } => {
            assert_eq!(bridge_id, "bridge_42");
            assert_eq!((guild_id.get(), channel_id.get()), (1, 42));
        }
        other => panic!("unexpected {:?}", other),
    }
    match DiscordEvent::disconnected(Snowflake::new(42)) {
        DiscordEvent::VoiceDisconnected { bridge_id } => assert_eq!(bridge_id, "bridge_42"),
        other => panic!("unexpected {:?}", other),
    }
}

#[test]
fn whole_frames_are_counted() {
    assert_eq!(frames_in(0, 320), 0);
    assert_eq!(frames_in(319, 320), 0);
    assert_eq!(frames_in(320, 320), 1);
    assert_eq!(frames_in(1000, 320), 3);
}

#[test]
fn uncounted_frames_leave_no_mark_when_dropped() {
    let (mut source, producer) = StreamingAudioSource::new(2, 1);
    let mut sender = DirectAudioSender::new(producer);
    assert!(sender.send(&[1, 2]));
    assert!(!sender.send(&[3]));
    assert!(!sender.send_uncounted(&[3]));
    assert_eq!(sender.consecutive_overflows(), 1);
    assert_eq!(source.read(2), vec![1, 2]);
    assert!(sender.send_uncounted(&[4]));
    assert_eq!(sender.consecutive_overflows(), 0);
    assert_eq!(source.read(1), vec![4]);
}
