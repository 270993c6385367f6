use openusage_cli::http_api::{
    control_words, is_control_origin_allowed, is_loopback_host, origin_host, parse_plugin_ids,
    request_log_level, usage_request, validate_control_request,
    LifecycleCommand, LifecycleGate, OriginHeader, Refusal, RequestLogLevel, UsageRequest,
};
use openusage_cli::net::IpAddress;

fn v4(octets: [u8; 4]) -> IpAddress {
    IpAddress::V4 { octets }
}

fn v6_loopback() -> IpAddress {
    IpAddress::V6 { segments: [0, 0, 0, 0, 0, 0, 0, 1], text: "::1".to_string() }
}

fn origin(text: &str) -> OriginHeader {
    OriginHeader::Text(text.to_string())
}

#[test]
fn plugin_lists_are_trimmed_and_blank_pieces_dropped() {
    assert_eq!(
        parse_plugin_ids(&Some(" a, ,b ,,".to_string())),
        Some(vec!["a".to_string(), "b".to_string()])
    );
    assert_eq!(parse_plugin_ids(&Some(" , ".to_string())), None);
    assert_eq!(parse_plugin_ids(&Some(String::new())), None);
    assert_eq!(parse_plugin_ids(&None), None);
    assert_eq!(
        usage_request(Some(true), &Some("a".to_string())),
        UsageRequest { refresh: true, plugin_ids: Some(vec!["a".to_string()]) }
    );
    assert_eq!(usage_request(None, &None), UsageRequest { refresh: false, plugin_ids: None });
}

#[test]
fn hosts_of_the_same_machine_are_known() {
    assert!(is_loopback_host("LocalHost", &None));
    assert!(is_loopback_host("127.8.9.1", &Some(v4([127, 8, 9, 1]))));
    assert!(is_loopback_host("::1", &Some(v6_loopback())));
    assert!(!is_loopback_host("10.0.0.1", &Some(v4([10, 0, 0, 1]))));
    assert!(!is_loopback_host("example.com", &None));
}

#[test]
fn origins_name_their_hosts() {
    assert_eq!(origin_host(&origin("http://localhost:3000")).as_deref(), Some("localhost"));
    assert_eq!(origin_host(&origin("https://example.com")).as_deref(), Some("example.com"));
    assert_eq!(origin_host(&origin("/only/a/path")), None);
    assert_eq!(origin_host(&origin("not a uri")), None);
    assert_eq!(origin_host(&OriginHeader::Absent), None);
}

#[test]
fn pages_of_other_machines_are_refused() {
    assert!(is_control_origin_allowed(&OriginHeader::Absent, &None));
    assert!(!is_control_origin_allowed(&OriginHeader::Unreadable, &None));
    assert!(!is_control_origin_allowed(&origin("NULL"), &None));
    assert!(is_control_origin_allowed(&origin("http://localhost:3000"), &None));
    assert!(is_control_origin_allowed(&origin("http://127.0.0.1"), &Some(v4([127, 0, 0, 1]))));
    assert!(!is_control_origin_allowed(&origin("https://example.com"), &None));
    assert!(!is_control_origin_allowed(&origin("not a uri"), &None));
}

#[test]
fn control_requests_come_from_the_same_machine() {
    let check = |remote: &IpAddress, header: &OriginHeader| {
        validate_control_request(remote, header, &None, "remote", "origin")
    };
    assert_eq!(check(&v4([127, 0, 0, 1]), &OriginHeader::Absent), None);
    assert_eq!(check(&v6_loopback(), &origin("http://localhost")), None);
    assert_eq!(
        check(&v4([10, 0, 0, 1]), &origin("https://example.com")),
        Some(Refusal { status: 403, error: "remote".to_string() })
    );
    assert_eq!(
        check(&v4([127, 0, 0, 1]), &origin("https://example.com")),
        Some(Refusal { status: 403, error: "origin".to_string() })
    );
}

#[test]
fn only_the_first_command_is_carried_out() {
    let words = control_words(LifecycleCommand::Restart);
    assert_eq!(words.action, "restart");
    let mut gate = LifecycleGate::new(true);
    let first =
        gate.trigger(LifecycleCommand::Restart, &words.status, &words.already_triggered);
    assert_eq!(first.carried_out, Some(LifecycleCommand::Restart));
    assert_eq!(first.status, 200);
    assert_eq!(first.word, "restarting");
    let words = control_words(LifecycleCommand::Shutdown);
    let second =
        gate.trigger(LifecycleCommand::Shutdown, &words.status, &words.already_triggered);
    assert_eq!(second.carried_out, None);
    assert_eq!(second.status, 503);
    assert_eq!(second.word, "shutdown_already_triggered");
    let mut closed = LifecycleGate::new(false);
    assert_eq!(closed.trigger(LifecycleCommand::Shutdown, "s", "a").carried_out, None);
}

#[test]
fn answers_have_their_status() {
    assert_eq!(request_log_level(500), RequestLogLevel::Error);
    assert_eq!(request_log_level(404), RequestLogLevel::Warn);
    assert_eq!(request_log_level(204), RequestLogLevel::Info);
}
