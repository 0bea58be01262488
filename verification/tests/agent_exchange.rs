use wakecomputer::agent::{handle_request, AgentReply};
use wakecomputer::agent_client::{
    agent_addr, health_request, health_step, shutdown_request, shutdown_step, AgentAction,
    AgentEvent,
};
use wakecomputer::config::Machine;
use wakecomputer::errors::AppError;

fn machine(port: Option<u16>) -> Machine {
    Machine {
        name: "workstation".to_string(),
        mac: "00:AA:BB:CC:DD:EE".to_string(),
        ip: "192.168.1.2".to_string(),
        agent_port: port,
        agent_token: "agent-token".to_string(),
    }
}

#[test]
fn agent_address_uses_default_port() {
    assert_eq!(agent_addr(&machine(None)), "192.168.1.2:9877");
    assert_eq!(agent_addr(&machine(Some(80))), "192.168.1.2:80");
    assert_eq!(agent_addr(&machine(Some(0))), "192.168.1.2:0");
    assert_eq!(agent_addr(&machine(Some(65535))), "192.168.1.2:65535");
}

#[test]
fn requests_are_well_formed() {
    let m = machine(None);
    assert_eq!(
        shutdown_request(&m),
        "POST /shutdown HTTP/1.1\r\nHost: 192.168.1.2:9877\r\nAuthorization: Bearer agent-token\r\nConnection: close\r\n\r\n"
    );
    assert_eq!(
        health_request(&m),
        "GET /health HTTP/1.1\r\nHost: 192.168.1.2:9877\r\nConnection: close\r\n\r\n"
    );
}

#[test]
fn agent_accepts_server_shutdown_request() {
    let m = machine(Some(1234));
    let req = shutdown_request(&m);
    assert_eq!(handle_request(&req, "agent-token"), AgentReply::ShutdownAccepted);
    assert_eq!(handle_request(&req, "other-token"), AgentReply::Unauthorized);
}

#[test]
fn agent_answers_server_health_request() {
    let m = machine(None);
    assert_eq!(handle_request(&health_request(&m), "anything"), AgentReply::Health);
}

#[test]
fn shutdown_steps_when_agent_answers() {
    let m = machine(None);
    assert_eq!(shutdown_step(&m, AgentEvent::Start), AgentAction::Connect("192.168.1.2:9877".to_string()));
    assert_eq!(shutdown_step(&m, AgentEvent::Connected), AgentAction::Send(shutdown_request(&m)));
    assert_eq!(shutdown_step(&m, AgentEvent::Written), AgentAction::Receive);
    assert_eq!(
        shutdown_step(&m, AgentEvent::Received("HTTP/1.1 200 OK\r\n".to_string())),
        AgentAction::Finish(Ok(()))
    );
    assert_eq!(
        shutdown_step(&m, AgentEvent::Received("HTTP/1.1 401 Unauthorized\r\n".to_string())),
        AgentAction::Finish(Err(AppError::Agent("agent on workstation rejected token (401)".to_string())))
    );
    assert_eq!(
        shutdown_step(&m, AgentEvent::Received("HTTP/1.1 500 Error\r\n".to_string())),
        AgentAction::Finish(Ok(()))
    );
    assert_eq!(shutdown_step(&m, AgentEvent::ReadFailed), AgentAction::Finish(Ok(())));
}

#[test]
fn shutdown_reply_with_both_codes_counts_as_accepted() {
    let m = machine(None);
    assert_eq!(
        shutdown_step(&m, AgentEvent::Received("HTTP/1.1 401 x 200".to_string())),
        AgentAction::Finish(Ok(()))
    );
}

#[test]
fn shutdown_steps_when_agent_is_unreachable() {
    let m = machine(Some(1));
    assert_eq!(shutdown_step(&m, AgentEvent::ConnectFailed), AgentAction::Ping("192.168.1.2".to_string()));
    assert_eq!(shutdown_step(&m, AgentEvent::PingAnswered(false)), AgentAction::Finish(Ok(())));
    assert_eq!(
        shutdown_step(&m, AgentEvent::PingAnswered(true)),
        AgentAction::Finish(Err(AppError::Agent(
            "agent on workstation is not running but machine responds to ping".to_string()
        )))
    );
    assert_eq!(
        shutdown_step(&m, AgentEvent::WriteFailed("broken pipe".to_string())),
        AgentAction::Finish(Err(AppError::Agent("write 192.168.1.2:1: broken pipe".to_string())))
    );
}

#[test]
fn health_steps() {
    let m = machine(None);
    assert_eq!(health_step(&m, AgentEvent::Start), AgentAction::Connect("192.168.1.2:9877".to_string()));
    assert_eq!(health_step(&m, AgentEvent::Connected), AgentAction::Send(health_request(&m)));
    assert_eq!(health_step(&m, AgentEvent::Written), AgentAction::Receive);
    assert_eq!(
        health_step(&m, AgentEvent::Received("HTTP/1.1 200 OK".to_string())),
        AgentAction::Finish(Ok(true))
    );
    assert_eq!(
        health_step(&m, AgentEvent::Received("HTTP/1.1 404 Not Found".to_string())),
        AgentAction::Finish(Ok(false))
    );
    let ping = AgentAction::Ping("192.168.1.2".to_string());
    assert_eq!(health_step(&m, AgentEvent::ConnectFailed), ping);
    assert_eq!(health_step(&m, AgentEvent::WriteFailed("x".to_string())), ping);
    assert_eq!(health_step(&m, AgentEvent::ReadFailed), ping);
    assert_eq!(health_step(&m, AgentEvent::PingAnswered(true)), AgentAction::Finish(Ok(true)));
    assert_eq!(health_step(&m, AgentEvent::PingAnswered(false)), AgentAction::Finish(Ok(false)));
}

/// Drives an exchange with scripted outcomes, counting the events it takes.
fn run<T>(step: impl Fn(AgentEvent) -> AgentAction<T>, connects: bool, writes: bool, reads: Option<&str>, pings: bool) -> (Result<T, AppError>, usize) {
    let mut event = AgentEvent::Start;
    let mut count = 1;
    loop {
        event = match step(event) {
            AgentAction::Finish(r) => return (r, count),
            AgentAction::Connect(_) => if connects { AgentEvent::Connected } else { AgentEvent::ConnectFailed },
            AgentAction::Ping(_) => AgentEvent::PingAnswered(pings),
            AgentAction::Send(_) => if writes { AgentEvent::Written } else { AgentEvent::WriteFailed("reset".to_string()) },
            AgentAction::Receive => match reads {
                Some(text) => AgentEvent::Received(text.to_string()),
                None => AgentEvent::ReadFailed,
            },
        };
        count += 1;
    }
}

#[test]
fn exchanges_end_within_bounds() {
    let m = machine(None);
    for connects in [true, false] {
        for writes in [true, false] {
            for reads in [Some("HTTP/1.1 200 OK"), Some("HTTP/1.1 401"), Some(""), None] {
                for pings in [true, false] {
                    let (_, n) = run(|e| shutdown_step(&m, e), connects, writes, reads, pings);
                    assert!(n <= 4);
                    let (_, n) = run(|e| health_step(&m, e), connects, writes, reads, pings);
                    assert!(n <= 5);
                }
            }
        }
    }
}

#[test]
fn health_run_outcomes() {
    let m = machine(None);
    assert_eq!(run(|e| health_step(&m, e), true, true, Some("HTTP/1.1 200 OK"), false).0, Ok(true));
    assert_eq!(run(|e| health_step(&m, e), true, true, None, true), (Ok(true), 5));
    assert_eq!(run(|e| health_step(&m, e), false, true, None, false), (Ok(false), 3));
}

#[test]
fn token_with_colon_is_read_after_first_colon() {
    let mut m = machine(None);
    m.agent_token = "a:b".to_string();
    assert_eq!(handle_request(&shutdown_request(&m), "a:b"), AgentReply::ShutdownAccepted);
}

#[test]
fn token_ending_in_space_is_trimmed_away() {
    let mut m = machine(None);
    m.agent_token = "abc ".to_string();
    assert_eq!(handle_request(&shutdown_request(&m), "abc "), AgentReply::Unauthorized);
}
