use bcsp_application::admission::{
    duplicate_route_path,
    extension_admission, requested_subprotocol, secondary_route_path_rejection, session_query,
    websocket_admission_denied, ExtensionAdmission, SecondaryRoutePathRejection,
};
use bcsp_application::host::{
    ExtensionRequest, ExtensionResponse, ExtensionRoute, RequestMethod, SessionNonce,
    JSON_CONTENT_TYPE, TEXT_CONTENT_TYPE,
};

#[test]
fn target_hosts_can_construct_the_shared_extension_request() {
    let request = ExtensionRequest::new(
        RequestMethod::Post,
        "/api/v1/query".to_owned(),
        Some("page=2".to_owned()),
        br#"{}"#.to_vec(),
    );
    assert_eq!(request.method(), &RequestMethod::Post);
    assert_eq!(request.path(), "/api/v1/query");
    assert_eq!(request.query(), Some("page=2"));
    assert_eq!(request.body(), br#"{}"#);
}

#[test]
fn websocket_session_query_is_exact_and_unique() {
    assert_eq!(session_query(Some("session=abc")), Some("abc"));
    assert_eq!(session_query(Some("other=1&session=abc")), Some("abc"));
    assert_eq!(session_query(Some("session=abc&session=abc")), None);
    assert_eq!(session_query(Some("session%3Dabc")), None);
    assert_eq!(session_query(None), None);
}

#[test]
fn a_secondary_route_path_must_be_absolute_exact_and_literal() {
    for (path, expected) in [
        ("api/v1/local/presence", SecondaryRoutePathRejection::NotAbsolute),
        ("", SecondaryRoutePathRejection::NotAbsolute),
        ("/", SecondaryRoutePathRejection::EmptySegment),
        ("/api//presence", SecondaryRoutePathRejection::EmptySegment),
        ("/api/v1/presence/", SecondaryRoutePathRejection::EmptySegment),
        ("/api/../watch", SecondaryRoutePathRejection::RelativeSegment),
        ("/api/./watch", SecondaryRoutePathRejection::RelativeSegment),
        ("/api/v1/presence?session=1", SecondaryRoutePathRejection::QueryOrFragment),
        ("/api/v1/presence#tab", SecondaryRoutePathRejection::QueryOrFragment),
        ("/api/v1/{kind}", SecondaryRoutePathRejection::NotLiteral),
        ("/api/v1/*rest", SecondaryRoutePathRejection::NotLiteral),
        ("/api/v1/:kind", SecondaryRoutePathRejection::NotLiteral),
        ("/api/v1/local/pre%2Dsence", SecondaryRoutePathRejection::NotLiteral),
        ("/api/v1/local presence", SecondaryRoutePathRejection::NotLiteral),
        ("/api/v1/watch", SecondaryRoutePathRejection::ReservedPath),
    ] {
        assert_eq!(secondary_route_path_rejection(path), Some(expected), "{path}");
    }
    for path in ["/api/v1/local/presence", "/api/v1/local/probe"] {
        assert_eq!(secondary_route_path_rejection(path), None, "{path}");
    }
}

#[test]
fn rejection_messages_name_each_rule() {
    assert_eq!(SecondaryRoutePathRejection::NotAbsolute.message(), "not an absolute path");
    assert_eq!(
        SecondaryRoutePathRejection::ReservedPath.message(),
        "reserved by the built-in watch route"
    );
    assert_eq!(
        SecondaryRoutePathRejection::Duplicate.message(),
        "already claimed by another route in the set"
    );
}

#[test]
fn responses_carry_status_content_type_and_body() {
    let json = ExtensionResponse::json_bytes(201, b"{\"ok\":true}".to_vec());
    assert_eq!(json.status(), 201);
    assert_eq!(json.content_type(), JSON_CONTENT_TYPE);
    assert_eq!(json.body(), b"{\"ok\":true}");
    let missing = ExtensionResponse::not_found();
    assert_eq!(missing.status(), 404);
    assert_eq!(missing.content_type(), TEXT_CONTENT_TYPE);
    assert_eq!(missing.body(), b"not found");
    let empty = ExtensionResponse::no_content();
    assert_eq!(empty.status(), 204);
    assert!(empty.body().is_empty());
    let page = ExtensionResponse::html(200, b"<p>hi</p>".to_vec());
    assert_eq!(page.content_type(), "text/html; charset=utf-8");
    let text = ExtensionResponse::text(503, b"busy".to_vec());
    assert_eq!(text.content_type(), "text/plain; charset=utf-8");
    let raw = ExtensionResponse::bytes(200, "image/png", vec![1, 2, 3]);
    assert_eq!(raw.content_type(), "image/png");
    assert_eq!(raw.body(), &[1, 2, 3]);
}

#[test]
fn routes_match_exact_method_and_path() {
    let route = ExtensionRoute::new(RequestMethod::Get, "/api/v1/service/status");
    assert!(route.matches(&RequestMethod::Get, "/api/v1/service/status"));
    assert!(!route.matches(&RequestMethod::Post, "/api/v1/service/status"));
    assert!(!route.matches(&RequestMethod::Get, "/api/v1/service/status/"));
    assert_eq!(route.method(), &RequestMethod::Get);
    assert_eq!(route.path(), "/api/v1/service/status");
}

#[test]
fn only_mutating_methods_change_state() {
    assert!(!RequestMethod::Get.changes_state());
    assert!(RequestMethod::Post.changes_state());
}

#[test]
fn session_nonce_keeps_its_text() {
    let nonce = SessionNonce::from_trace_id_text("00000000-0000-4000-8000-000000000001".to_owned());
    assert_eq!(nonce.as_str(), "00000000-0000-4000-8000-000000000001");
    assert_eq!(nonce.to_text(), "00000000-0000-4000-8000-000000000001");
}

#[test]
fn subprotocol_offer_must_name_the_shared_protocol() {
    assert!(requested_subprotocol(Some("bcsp.v1")));
    assert!(requested_subprotocol(Some("chat, bcsp.v1")));
    assert!(!requested_subprotocol(Some("bcsp.v2")));
    assert!(!requested_subprotocol(None));
}

#[test]
fn reads_are_host_bound_and_mutations_need_origin_and_nonce() {
    let nonce = SessionNonce::from_trace_id_text("00000000-0000-4000-8000-000000000001".to_owned());
    let authority = "127.0.0.1:43210";
    let origin = "http://127.0.0.1:43210";
    assert_eq!(
        extension_admission(authority, origin, &nonce, &RequestMethod::Get, "/status", None, Some(authority), None, None),
        ExtensionAdmission::Admitted
    );
    assert_eq!(
        extension_admission(authority, origin, &nonce, &RequestMethod::Get, "/status", None, Some("attacker.invalid"), None, None),
        ExtensionAdmission::MisdirectedHost
    );
    assert_eq!(
        extension_admission(authority, origin, &nonce, &RequestMethod::Post, "/settings", None, Some(authority), Some(origin), None),
        ExtensionAdmission::Forbidden
    );
    assert_eq!(
        extension_admission(
            authority,
            origin,
            &nonce,
            &RequestMethod::Post,
            "/settings",
            None,
            Some(authority),
            Some(origin),
            Some("00000000-0000-4000-8000-000000000001"),
        ),
        ExtensionAdmission::Admitted
    );
}

#[test]
fn websocket_handshake_needs_host_origin_nonce_and_protocol() {
    let nonce = SessionNonce::from_trace_id_text("abc".to_owned());
    let authority = "127.0.0.1:43210";
    let origin = "http://127.0.0.1:43210";
    assert!(!websocket_admission_denied(authority, origin, &nonce, Some(authority), Some(origin), Some("session=abc"), Some("bcsp.v1")));
    assert!(websocket_admission_denied(authority, origin, &nonce, Some(authority), Some(origin), Some("session=abd"), Some("bcsp.v1")));
    assert!(websocket_admission_denied(authority, origin, &nonce, Some(authority), None, Some("session=abc"), Some("bcsp.v1")));
    assert!(websocket_admission_denied(authority, origin, &nonce, Some(authority), Some(origin), Some("session=abc"), None));
}

#[test]
fn a_route_set_is_refused_at_its_first_repeated_path() {
    assert_eq!(duplicate_route_path(&vec!["/a", "/b", "/c"]), None);
    assert_eq!(duplicate_route_path(&vec!["/a", "/b", "/a", "/b"]), Some(2));
    assert_eq!(duplicate_route_path(&vec!["/x", "/y", "/y"]), Some(2));
    assert_eq!(duplicate_route_path(&Vec::new()), None);
}
