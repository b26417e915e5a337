use sipcord_bridge::routing::static_router::{
    default_menu_max_attempts, default_menu_timeout_seconds, ExtensionTarget, MenuConfig,
    PhoneConfig, StaticBackend,
};
use sipcord_bridge::routing::{CallError, CallStatus, RouteDecision};
use sipcord_bridge::services::snowflake::Snowflake;
use sipcord_bridge::sorting::{ascii_lowercase, sort_by_label};
use sipcord_bridge::call::menu::DynamicGuildOption;

fn target(guild: u64, channel: u64) -> ExtensionTarget {
    ExtensionTarget { guild: Snowflake::new(guild), channel: Snowflake::new(channel) }
}

fn backend(
    extensions: Vec<(&str, ExtensionTarget)>,
    menus: Vec<(&str, MenuConfig)>,
    phones: Vec<(&str, PhoneConfig)>,
) -> StaticBackend {
    StaticBackend::new(
        "tok".to_string(),
        extensions.into_iter().map(|(n, t)| (n.to_string(), t)).collect(),
        menus.into_iter().map(|(n, t)| (n.to_string(), t)).collect(),
        phones.into_iter().map(|(n, t)| (n.to_string(), t)).collect(),
    )
}

#[test]
fn test_load_valid_dialplan() {
    let b = backend(
        vec![
            ("1000", target(123456789012345678, 987654321012345678)),
            ("2000", target(123456789012345678, 111222333444555666)),
        ],
        vec![],
        vec![],
    );
    assert_eq!(b.extension_count(), 2);
    assert!(b.lookup("1000").is_some());
    assert!(b.lookup("2000").is_some());
    assert_eq!(b.bot_token(), "tok");
}

#[test]
fn test_route_known_extension() {
    let b = backend(vec![("1000", target(111, 222))], vec![], vec![]);
    match b.route_call("1000") {
        RouteDecision::Connect { channel_id, guild_id, user_id, bot_token } => {
            assert_eq!(channel_id, Snowflake::new(222));
            assert_eq!(guild_id, Snowflake::new(111));
            assert_eq!(user_id, "static");
            assert_eq!(bot_token, "tok");
        }
        _ => panic!("Expected Connect"),
    }
}

#[test]
fn test_route_unknown_extension() {
    let b = backend(vec![("1000", target(111, 222))], vec![], vec![]);
    match b.route_call("9999") {
        RouteDecision::RejectWithError { error } => {
            assert!(matches!(error, CallError::NoChannelMapping));
        }
        _ => panic!("Expected RejectWithError"),
    }
}

fn menu(extension: &str) -> MenuConfig {
    MenuConfig { extension: extension.to_string(), timeout_seconds: 7, max_attempts: 2 }
}

#[test]
fn test_route_menu_extension() {
    let b = backend(vec![], vec![("main", menu("8000"))], vec![]);
    match b.route_call("8000") {
        RouteDecision::Menu { menu } => {
            assert_eq!(menu.id, "main");
            assert_eq!(menu.timeout_seconds, 7);
            assert_eq!(menu.max_attempts, 2);
        }
        _ => panic!("Expected Menu"),
    }
}

#[test]
fn menus_win_over_extensions() {
    let b = backend(vec![("8000", target(1, 2))], vec![("main", menu("8000"))], vec![]);
    assert!(matches!(b.route_call("8000"), RouteDecision::Menu { .. }));
    assert_eq!(default_menu_timeout_seconds(), 10);
    assert_eq!(default_menu_max_attempts(), 3);
}

#[test]
fn test_load_phone_directory() {
    let b = backend(
        vec![],
        vec![],
        vec![
            ("777", PhoneConfig { label: "Shop speakerphone".to_string(), extension: None }),
            (
                "desk",
                PhoneConfig {
                    label: "Desk phone".to_string(),
                    extension: Some("111".to_string()),
                },
            ),
        ],
    );
    let directory = b.phone_directory();
    assert_eq!(directory.len(), 2);
    assert_eq!(directory[0].id, "desk");
    assert_eq!(directory[0].label, "Desk phone");
    assert_eq!(directory[0].extension, "111");
    assert_eq!(directory[1].id, "777");
    assert_eq!(directory[1].extension, "777");
    assert_eq!(b.call_nickname("111"), "Desk phone");
    assert_eq!(b.call_nickname("777"), "Shop speakerphone");
    assert_eq!(b.call_nickname("desk"), "desk");
}

#[test]
fn error_sounds() {
    assert_eq!(CallError::NoChannelMapping.sound_name(), "no_channel_mapping");
    assert_eq!(CallError::NoPermissions.sound_name(), "no_permissions");
    assert_eq!(CallError::DiscordApiError.sound_name(), "server_is_busy");
    assert_eq!(CallError::ServerBusy.sound_name(), "server_is_busy");
    assert_eq!(CallError::Unknown.sound_name(), "unknown_error");
    assert_eq!(CallError::ServerBusy.message(), "server is busy");
}

#[test]
fn sorting_is_stable_and_ignores_case() {
    let names = ["beta", "Alpha", "ALPHA", "\u{c4}", "alpha", "Beta", ""];
    let items: Vec<DynamicGuildOption> = names
        .iter()
        .enumerate()
        .map(|(i, n)| DynamicGuildOption {
            guild_id: Snowflake::new(i as u64),
            name: n.to_string(),
        })
        .collect();
    let sorted = sort_by_label(items);
    let order: Vec<u64> = sorted.iter().map(|g| g.guild_id.get()).collect();
    assert_eq!(order, vec![6, 1, 2, 4, 0, 5, 3]);
    let lower: String = ascii_lowercase("AbZ\u{c4}1").into_iter().collect();
    assert_eq!(lower, "abz\u{c4}1");
}

#[test]
fn the_first_menu_of_an_extension_is_taken() {
    let menu = |attempts| MenuConfig {
        extension: "8000".to_string(),
        timeout_seconds: 10,
        max_attempts: attempts,
    };
    let b = backend(vec![("8000", target(1, 2))], vec![("one", menu(1)), ("two", menu(2))], vec![]);
    for _ in 0..2 {
        match b.route_call("8000") {
            RouteDecision::Menu { menu } => assert_eq!((menu.id.as_str(), menu.max_attempts), ("one", 1)),
            other => panic!("unexpected {:?}", other),
        }
    }
}

#[test]
fn call_statuses_have_their_words() {
    assert_eq!(CallStatus::Ringing.name(), "ringing");
    assert_eq!(CallStatus::Answered.name(), "answered");
    assert_eq!(CallStatus::Failed.name(), "failed");
    assert_eq!(CallStatus::NoAudio.name(), "no_audio");
}
