use wakecomputer::config::{Config, Machine, WolConfig};
use wakecomputer::errors::AppError;
use wakecomputer::numbers::decimal_text;
use wakecomputer::routes::{authorize_machine, check_token, power_label, RouteError};

fn config() -> Config {
    Config {
        listen: None,
        api_token: "server-token".to_string(),
        wol: WolConfig::default(),
        machines: vec![Machine {
            name: "Workstation".to_string(),
            mac: "00:AA:BB:CC:DD:EE".to_string(),
            ip: "192.168.1.2".to_string(),
            agent_port: None,
            agent_token: "agent-token".to_string(),
        }],
    }
}

#[test]
fn token_check_outcomes() {
    let c = config();
    assert_eq!(check_token(Some("Bearer server-token"), &c), Ok(()));
    assert_eq!(check_token(Some("Bearer wrong"), &c), Err(RouteError::InvalidToken));
    assert_eq!(check_token(Some("Bearer "), &c), Err(RouteError::InvalidToken));
    assert_eq!(check_token(Some("bearer server-token"), &c), Err(RouteError::MissingAuthorization));
    assert_eq!(check_token(Some("server-token"), &c), Err(RouteError::MissingAuthorization));
    assert_eq!(check_token(None, &c), Err(RouteError::MissingAuthorization));
}

#[test]
fn refusals_have_status_and_message() {
    let m = RouteError::MissingAuthorization;
    assert_eq!(m.status(), 401);
    assert_eq!(m.message(), "missing or invalid Authorization header");
    let i = RouteError::InvalidToken;
    assert_eq!(i.status(), 401);
    assert_eq!(i.message(), "invalid token");
}

#[test]
fn authorize_machine_finds_or_refuses() {
    let c = config();
    let m = authorize_machine(Some("Bearer server-token"), &c, "workstation").unwrap();
    assert_eq!(m.ip, "192.168.1.2");
    let e = authorize_machine(Some("Bearer server-token"), &c, "nas").unwrap_err();
    assert_eq!(e, RouteError::Failed(AppError::MachineNotFound("nas".to_string())));
    assert_eq!(e.status(), 404);
    assert_eq!(e.message(), "machine not found: nas");
    let e = authorize_machine(Some("Bearer nope"), &c, "nas").unwrap_err();
    assert_eq!(e, RouteError::InvalidToken);
}

#[test]
fn app_error_texts_and_statuses() {
    let cases = [
        (AppError::Config("x".to_string()), "configuration error: x", 500),
        (AppError::MachineNotFound("x".to_string()), "machine not found: x", 404),
        (AppError::Wol("x".to_string()), "WoL error: x", 500),
        (AppError::Agent("x".to_string()), "agent error: x", 500),
    ];
    for (e, text, status) in cases {
        assert_eq!(e.message(), text);
        assert_eq!(e.status_code(), status);
        assert_eq!(RouteError::Failed(e).status(), status);
    }
}

#[test]
fn power_labels() {
    assert_eq!(power_label(true), "on");
    assert_eq!(power_label(false), "off");
}

#[test]
fn decimal_rendering() {
    assert_eq!(decimal_text(0), "0");
    assert_eq!(decimal_text(7), "7");
    assert_eq!(decimal_text(10), "10");
    assert_eq!(decimal_text(9877), "9877");
    assert_eq!(decimal_text(u64::MAX), u64::MAX.to_string());
}
