//! Tests for the proxy data plane: token parsing, path rewriting, the
//! routing decision table, and the coalescing route map.

use plane::route_map::{LookupOutcome, RouteMap};
use plane::routing::{
    check_host_label, format_ipv4, format_u32, parse_token_segment, rewrite_upstream_path,
    route_request, Protocol, RouteDecision, RouteLookup,
};
use plane::protocol::RouteInfo;
use plane::time::TimeMs;
use plane::types::{
    BackendAddr, BackendName, BearerToken, ClusterName, IpAddress, SecretToken, Subdomain,
};

fn t(ms: i64) -> TimeMs {
    TimeMs { ms }
}

fn route(sub: Option<&str>) -> RouteInfo {
    RouteInfo {
        backend_id: BackendName { name: "backend-a".to_owned() },
        address: BackendAddr { ip: IpAddress::V4(10, 0, 0, 1), port: 8080 },
        secret_token: SecretToken { token: "secret".to_owned() },
        cluster: ClusterName { name: "plane.test".to_owned() },
        user: None,
        user_data: None,
        subdomain: sub.map(|s| Subdomain { label: s.to_owned() }),
    }
}

#[test]
fn token_is_the_first_path_segment() {
    assert_eq!(parse_token_segment("/abc123/foo").as_deref(), Some("abc123"));
    assert_eq!(parse_token_segment("/abc123").as_deref(), Some("abc123"));
    assert_eq!(parse_token_segment("/s.xyz/foo/bar").as_deref(), Some("s.xyz"));
    assert_eq!(parse_token_segment("/"), None);
    assert_eq!(parse_token_segment(""), None);
    assert_eq!(parse_token_segment("//foo"), None);
    assert_eq!(parse_token_segment("noslash"), None);
}

#[test]
fn non_static_tokens_are_stripped_from_the_path() {
    let token = BearerToken { token: "abc123".to_owned() };
    assert_eq!(rewrite_upstream_path(&token, "/abc123/foo/bar"), "/foo/bar");
    assert_eq!(rewrite_upstream_path(&token, "/abc123"), "/");
}

#[test]
fn static_tokens_pass_the_path_through() {
    let token = BearerToken { token: "s.xyz".to_owned() };
    assert_eq!(rewrite_upstream_path(&token, "/s.xyz/foo/bar"), "/s.xyz/foo/bar");
}

#[test]
fn routing_decision_table() {
    // No token segment: redirect when configured, else 400.
    assert!(matches!(
        route_request(None, RouteLookup::Unknown, "plane.test", true),
        RouteDecision::RedirectToRoot
    ));
    assert!(matches!(
        route_request(None, RouteLookup::Unknown, "plane.test", false),
        RouteDecision::BadRequest
    ));

    // Unknown token: 410.
    assert!(matches!(
        route_request(Some("abc".to_owned()), RouteLookup::Unknown, "plane.test", false),
        RouteDecision::Gone
    ));

    // Pending backend: 503.
    assert!(matches!(
        route_request(Some("abc".to_owned()), RouteLookup::Pending, "plane.test", false),
        RouteDecision::ServiceUnavailable
    ));

    // Subdomain required but the host lacks it: 403.
    assert!(matches!(
        route_request(
            Some("abc".to_owned()),
            RouteLookup::Found(route(Some("room1"))),
            "plane.test",
            false,
        ),
        RouteDecision::Forbidden
    ));

    // Subdomain present: forward.
    assert!(matches!(
        route_request(
            Some("abc".to_owned()),
            RouteLookup::Found(route(Some("room1"))),
            "room1.plane.test",
            false,
        ),
        RouteDecision::Forward(_)
    ));

    // No subdomain requirement: forward.
    match route_request(
        Some("abc".to_owned()),
        RouteLookup::Found(route(None)),
        "plane.test",
        false,
    ) {
        RouteDecision::Forward(info) => assert_eq!(info.backend_id.name, "backend-a"),
        other => panic!("expected forward, got {:?}", other),
    }
}

#[test]
fn host_label_check_wants_exact_prefix() {
    let sub = Some(Subdomain { label: "room1".to_owned() });
    assert!(check_host_label("room1.plane.test", &sub));
    assert!(!check_host_label("plane.test", &sub));
    assert!(!check_host_label("room10.plane.test", &sub));
    assert!(!check_host_label("room1", &sub));
    assert!(check_host_label("anything", &None));
}

#[test]
fn concurrent_lookups_send_one_request() {
    let mut map = RouteMap::new();
    let token = BearerToken { token: "abc123".to_owned() };

    let mut requests: usize = 0;
    for _ in 0..5 {
        match map.lookup(&token, t(1_000)) {
            LookupOutcome::MustRequest => requests += 1,
            LookupOutcome::Wait => {}
            other => panic!("expected miss or wait, got {:?}", other),
        }
    }
    assert_eq!(requests, 1);

    // The controller answers: later lookups hit the cache.
    map.receive_response(&token, Some(route(None)), t(2_000));
    match map.lookup(&token, t(3_000)) {
        LookupOutcome::Hit(info) => assert_eq!(info.backend_id.name, "backend-a"),
        other => panic!("expected hit, got {:?}", other),
    }

    // A negative answer is cached for a minute, then re-asked.
    let gone = BearerToken { token: "dead".to_owned() };
    assert!(matches!(map.lookup(&gone, t(3_000)), LookupOutcome::MustRequest));
    map.receive_response(&gone, None, t(3_000));
    assert!(matches!(map.lookup(&gone, t(10_000)), LookupOutcome::HitGone));
    assert!(matches!(map.lookup(&gone, t(70_000)), LookupOutcome::MustRequest));
}

#[test]
fn protocol_names_and_addresses_format() {
    assert_eq!(Protocol::Http.as_str(), "http");
    assert_eq!(Protocol::Https.as_str(), "https");
    assert_eq!(format_u32(0), "0");
    assert_eq!(format_u32(7), "7");
    assert_eq!(format_u32(1234), "1234");
    assert_eq!(format_u32(4_294_967_295), "4294967295");
    assert_eq!(format_ipv4(127, 0, 0, 1), "127.0.0.1");
    assert_eq!(format_ipv4(255, 255, 255, 255), "255.255.255.255");
}
