use sipcord_bridge::sip::types::{CallId, ConfPort, DigestAuthParams, SAMPLES_PER_FRAME};
use sipcord_bridge::sip::utils::{
    extract_caller_id, extract_display_name, extract_p_asserted_identity, extract_sip_username,
};

#[test]
fn test_call_id_invalid() {
    assert_eq!(CallId::invalid().get(), -1);
    assert!(!CallId::invalid().is_valid());
}

#[test]
fn test_call_id_valid() {
    assert!(CallId::new(0).is_valid());
    assert!(CallId::new(5).is_valid());
}

#[test]
fn test_call_id_deref() {
    let id = CallId::new(42);
    let val: &i32 = &id;
    assert_eq!(*val, 42);
}

#[test]
fn test_call_id_from_into() {
    let id: CallId = 7.into();
    assert_eq!(id.get(), 7);
    let raw: i32 = id.into();
    assert_eq!(raw, 7);
}

#[test]
fn test_call_id_display_debug() {
    let id = CallId::new(3);
    assert_eq!(id.text(), "3");
    assert_eq!(format!("{:?}", id), "CallId(3)");
}

#[test]
fn test_conf_port_invalid() {
    assert_eq!(ConfPort::invalid().get(), -1);
    assert!(!ConfPort::invalid().is_valid());
}

#[test]
fn test_conf_port_valid() {
    assert!(ConfPort::new(0).is_valid());
    assert!(ConfPort::new(5).is_valid());
}

#[test]
fn test_conf_port_deref() {
    let port = ConfPort::new(10);
    let val: &i32 = &port;
    assert_eq!(*val, 10);
}

#[test]
fn test_conf_port_from_into() {
    let port: ConfPort = 9.into();
    assert_eq!(port.get(), 9);
    let raw: i32 = port.into();
    assert_eq!(raw, 9);
}

#[test]
fn test_conf_port_display_debug() {
    let port = ConfPort::new(4);
    assert_eq!(port.text(), "4");
    assert_eq!(format!("{:?}", port), "ConfPort(4)");
}

#[test]
fn negative_numbers_have_a_sign() {
    assert_eq!(CallId::new(-17).text(), "-17");
    assert_eq!(CallId::new(i32::MIN).text(), "-2147483648");
    assert_eq!(SAMPLES_PER_FRAME, 320);
}

#[test]
fn test_digest_auth_params_default() {
    let params = DigestAuthParams::default();
    assert!(params.username.is_empty());
    assert!(params.realm.is_empty());
    assert!(params.nonce.is_empty());
    assert!(params.uri.is_empty());
    assert!(params.response.is_empty());
    assert!(params.method.is_empty());
    assert!(params.qop.is_none());
    assert!(params.nc.is_none());
    assert!(params.cnonce.is_none());
}

#[test]
fn test_extract_sip_username_full_uri() {
    assert_eq!(extract_sip_username("<sip:alice@example.com>"), "alice");
}

#[test]
fn test_extract_sip_username_no_brackets() {
    assert_eq!(extract_sip_username("sip:bob@domain"), "bob");
}

#[test]
fn test_extract_sip_username_no_sip_prefix() {
    assert_eq!(extract_sip_username("charlie@host"), "charlie");
}

#[test]
fn test_extract_sip_username_no_at() {
    assert_eq!(extract_sip_username("sip:dave"), "dave");
}

#[test]
fn test_extract_sip_username_with_port() {
    assert_eq!(extract_sip_username("<sip:eve@host:5060>"), "eve");
}

#[test]
fn test_extract_sip_username_empty() {
    assert_eq!(extract_sip_username(""), "");
}

#[test]
fn test_extract_display_name_with_quotes_and_uri() {
    assert_eq!(
        extract_display_name("\"Alice Smith\" <sip:alice@example.com>"),
        "Alice Smith"
    );
}

#[test]
fn test_extract_display_name_without_quotes() {
    assert_eq!(
        extract_display_name("Bob Jones <sip:bob@example.com>"),
        "Bob Jones"
    );
}

#[test]
fn test_extract_display_name_no_display_name() {
    assert_eq!(extract_display_name("<sip:charlie@example.com>"), "");
}

#[test]
fn test_extract_display_name_uri_only() {
    assert_eq!(extract_display_name("sip:dave@example.com"), "");
}

#[test]
fn test_extract_display_name_with_extra_spaces() {
    assert_eq!(
        extract_display_name("  \"Eve Adams\"  <sip:eve@example.com>  "),
        "Eve Adams"
    );
}

#[test]
fn test_extract_display_name_empty() {
    assert_eq!(extract_display_name(""), "");
}

#[test]
fn several_brackets_are_stripped() {
    assert_eq!(extract_sip_username("<<sip:ann@h>>"), "ann");
    assert_eq!(extract_sip_username("sips:ann@h"), "sips:ann");
    assert_eq!(extract_display_name("\u{a0}\u{2003}Zo\u{eb} <sip:z@h>"), "Zo\u{eb}");
}

#[test]
fn asserted_identities_come_first() {
    assert_eq!(
        extract_p_asserted_identity("\"Front Desk\" <sip:100@pbx>"),
        Some("Front Desk".to_string())
    );
    assert_eq!(
        extract_p_asserted_identity("<sip:100@pbx>"),
        Some("100".to_string())
    );
    assert_eq!(extract_p_asserted_identity(""), None);
    assert_eq!(extract_p_asserted_identity("<sip:@pbx>"), None);
    let from = "\"Bob\" <sip:bob@h>";
    assert_eq!(extract_caller_id(from, Some("<sip:100@pbx>")), "100");
    assert_eq!(extract_caller_id(from, Some("")), "Bob");
    assert_eq!(extract_caller_id(from, None), "Bob");
    assert_eq!(extract_caller_id("<sip:bob@h>", None), "bob");
}
