use wakecomputer::agent::{
    handle_request, respond, service_launch, shutdown_arguments, AgentReply, HostOs, ServiceLaunch,
};

const TOKEN: &str = "s3cret";

#[test]
fn health_needs_no_token() {
    let r = handle_request("GET /health HTTP/1.1\r\nHost: x\r\n\r\n", TOKEN);
    assert_eq!(r, AgentReply::Health);
    assert_eq!(r.status(), 200);
    assert_eq!(r.body(), r#"{"status":"ok"}"#);
    assert!(!r.shuts_down());
}

#[test]
fn shutdown_with_token_is_accepted() {
    let req = "POST /shutdown HTTP/1.1\r\nHost: x\r\nAuthorization: Bearer s3cret\r\n\r\n";
    let r = handle_request(req, TOKEN);
    assert_eq!(r, AgentReply::ShutdownAccepted);
    assert_eq!(r.status(), 200);
    assert!(r.shuts_down());
}

#[test]
fn header_name_case_is_ignored() {
    let req = "POST /shutdown HTTP/1.1\r\nauthorization: Bearer s3cret\r\n\r\n";
    assert_eq!(handle_request(req, TOKEN), AgentReply::ShutdownAccepted);
    let req = "POST /shutdown HTTP/1.1\nAUTHORIZATION:Bearer s3cret\n";
    assert_eq!(handle_request(req, TOKEN), AgentReply::ShutdownAccepted);
}

#[test]
fn header_value_is_trimmed() {
    let req = "POST /shutdown HTTP/1.1\r\nAuthorization:   Bearer s3cret  \t\r\n\r\n";
    assert_eq!(handle_request(req, TOKEN), AgentReply::ShutdownAccepted);
}

#[test]
fn scheme_is_case_sensitive() {
    let req = "POST /shutdown HTTP/1.1\r\nAuthorization: bearer s3cret\r\n\r\n";
    assert_eq!(handle_request(req, TOKEN), AgentReply::Unauthorized);
}

#[test]
fn wrong_or_missing_token_is_refused() {
    let wrong = "POST /shutdown HTTP/1.1\r\nAuthorization: Bearer nope\r\n\r\n";
    let r = handle_request(wrong, TOKEN);
    assert_eq!(r, AgentReply::Unauthorized);
    assert_eq!(r.status(), 401);
    assert_eq!(r.body(), r#"{"error":"unauthorized"}"#);
    assert!(!r.shuts_down());
    let missing = "POST /shutdown HTTP/1.1\r\nHost: x\r\n\r\n";
    assert_eq!(handle_request(missing, TOKEN), AgentReply::Unauthorized);
}

#[test]
fn only_first_authorization_header_counts() {
    let req = "POST /shutdown HTTP/1.1\r\nAuthorization: Bearer nope\r\nAuthorization: Bearer s3cret\r\n\r\n";
    assert_eq!(handle_request(req, TOKEN), AgentReply::Unauthorized);
}

#[test]
fn token_prefix_is_not_enough() {
    let req = "POST /shutdown HTTP/1.1\r\nAuthorization: Bearer s3cretX\r\n\r\n";
    assert_eq!(handle_request(req, TOKEN), AgentReply::Unauthorized);
}

#[test]
fn short_request_line_is_bad_request() {
    for req in ["", "GET", "\r\n", "   \r\nGET /health HTTP/1.1\r\n"] {
        let r = handle_request(req, TOKEN);
        assert_eq!(r, AgentReply::BadRequest);
        assert_eq!(r.status(), 400);
        assert_eq!(r.body(), r#"{"error":"bad request"}"#);
    }
}

#[test]
fn other_routes_are_not_found() {
    for req in ["POST /health HTTP/1.1\r\n", "GET /shutdown HTTP/1.1\r\n", "get /health\r\n", "DELETE /x\r\n"] {
        let r = handle_request(req, TOKEN);
        assert_eq!(r, AgentReply::NotFound);
        assert_eq!(r.status(), 404);
        assert_eq!(r.body(), r#"{"error":"not found"}"#);
    }
}

#[test]
fn request_line_words_split_on_any_whitespace() {
    assert_eq!(handle_request("  GET\t /health", TOKEN), AgentReply::Health);
    assert_eq!(handle_request("GET\u{a0}/health\r\n", TOKEN), AgentReply::Health);
}

#[test]
fn respond_writes_full_response() {
    assert_eq!(
        respond(200, r#"{"status":"ok"}"#),
        "HTTP/1.1 200 OK\r\nContent-Type: application/json\r\nContent-Length: 15\r\nConnection: close\r\n\r\n{\"status\":\"ok\"}"
    );
    assert_eq!(
        respond(401, r#"{"error":"unauthorized"}"#),
        "HTTP/1.1 401 Unauthorized\r\nContent-Type: application/json\r\nContent-Length: 24\r\nConnection: close\r\n\r\n{\"error\":\"unauthorized\"}"
    );
}

#[test]
fn respond_reason_phrases() {
    assert!(respond(400, "").starts_with("HTTP/1.1 400 Bad Request\r\n"));
    assert!(respond(404, "").starts_with("HTTP/1.1 404 Not Found\r\n"));
    assert!(respond(500, "").starts_with("HTTP/1.1 500 Error\r\n"));
    assert!(respond(0, "").starts_with("HTTP/1.1 0 Error\r\n"));
}

#[test]
fn content_length_counts_bytes() {
    let r = respond(200, "é");
    assert!(r.contains("Content-Length: 2\r\n"));
    assert!(r.ends_with("\r\n\r\né"));
}

#[test]
fn shutdown_arguments_per_os() {
    assert_eq!(shutdown_arguments(HostOs::Windows), vec!["/s", "/t", "1"]);
    assert_eq!(shutdown_arguments(HostOs::MacOs), vec!["-h", "now"]);
    assert_eq!(shutdown_arguments(HostOs::Other), vec!["now"]);
}

#[test]
fn service_launch_outcomes() {
    assert_eq!(service_launch(true, 0), ServiceLaunch::RanAsService);
    assert_eq!(service_launch(false, 1063), ServiceLaunch::Console);
    assert_eq!(service_launch(false, 5), ServiceLaunch::Failed(5));
}
