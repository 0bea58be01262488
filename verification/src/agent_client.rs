//! How the server talks to a machine's agent. The talking itself (connecting,
//! writing, reading, pinging) is left to the caller: each step here takes what
//! the last piece of outside work gave and says what to do next.

use vstd::prelude::*;

use crate::config::{default_port, Machine};
use crate::errors::AppError;
use crate::numbers::{append_decimal, decimal};
use crate::text::{contains_text, has_infix};

verus! {

/// What the caller observed since the last step.
#[derive(Debug, PartialEq, Eq)]
pub enum AgentEvent {
    /// Nothing yet: the exchange begins.
    Start,
    /// No TCP connection to the agent could be made.
    ConnectFailed,
    /// The TCP connection to the agent is open.
    Connected,
    /// Sending the request failed, with the error's text.
    WriteFailed(String),
    /// The request was sent.
    Written,
    /// The reply was read (decoded as UTF-8, invalid bytes replaced).
    Received(String),
    /// Reading the reply failed.
    ReadFailed,
    /// Whether the machine answered a ping.
    PingAnswered(bool),
}

/// What the caller is to do next.
#[derive(Debug, PartialEq, Eq)]
pub enum AgentAction<T> {
    /// Open a TCP connection to this address.
    Connect(String),
    /// Ping this IP address once.
    Ping(String),
    /// Send this request on the connection.
    Send(String),
    /// Read the reply from the connection.
    Receive,
    /// Stop, with this result.
    Finish(Result<T, AppError>),
}

/// The kind of work an action asks for.
#[derive(Debug, Clone, Copy, PartialEq, Eq)]
pub enum Work {
    Connect,
    Ping,
    Send,
    Receive,
    Done,
}

pub open spec fn work_of<T>(a: AgentAction<T>) -> Work {
    match a {
        AgentAction::Connect(_) => Work::Connect,
        AgentAction::Ping(_) => Work::Ping,
        AgentAction::Send(_) => Work::Send,
        AgentAction::Receive => Work::Receive,
        AgentAction::Finish(_) => Work::Done,
    }
}

/// Whether `e` is what performing work `w` can report.
pub open spec fn reports(w: Work, e: AgentEvent) -> bool {
    match w {
        Work::Connect => e == AgentEvent::Connected || e == AgentEvent::ConnectFailed,
        Work::Ping => e is PingAnswered,
        Work::Send => e == AgentEvent::Written || e is WriteFailed,
        Work::Receive => e is Received || e == AgentEvent::ReadFailed,
        Work::Done => false,
    }
}

/// The work that follows `e` when shutting a machine down.
pub open spec fn shutdown_work(e: AgentEvent) -> Work {
    match e {
        AgentEvent::Start => Work::Connect,
        AgentEvent::ConnectFailed => Work::Ping,
        AgentEvent::Connected => Work::Send,
        AgentEvent::Written => Work::Receive,
        _ => Work::Done,
    }
}

/// The work that follows `e` when asking whether a machine is on.
pub open spec fn health_work(e: AgentEvent) -> Work {
    match e {
        AgentEvent::Start => Work::Connect,
        AgentEvent::Connected => Work::Send,
        AgentEvent::Written => Work::Receive,
        AgentEvent::Received(_) => Work::Done,
        AgentEvent::PingAnswered(_) => Work::Done,
        _ => Work::Ping,
    }
}

/// `events` is a run of a shutdown exchange: it starts, and each event
/// reports the work that the one before it asked for.
pub open spec fn is_shutdown_run(events: Seq<AgentEvent>) -> bool {
    &&& events.len() > 0
    &&& events[0] == AgentEvent::Start
    &&& forall|i: int|
        #![trigger events[i]]
        0 < i < events.len() ==> reports(shutdown_work(events[i - 1]), events[i])
}

/// `events` is a run of a health exchange.
pub open spec fn is_health_run(events: Seq<AgentEvent>) -> bool {
    &&& events.len() > 0
    &&& events[0] == AgentEvent::Start
    &&& forall|i: int|
        #![trigger events[i]]
        0 < i < events.len() ==> reports(health_work(events[i - 1]), events[i])
}

/// A shutdown exchange ends after at most three pieces of outside work:
/// no run has more than four events.
pub proof fn lemma_shutdown_exchange_ends(events: Seq<AgentEvent>)
    requires
        is_shutdown_run(events),
    ensures
        events.len() <= 4,
{
    if events.len() > 4 {
        assert(reports(shutdown_work(events[0]), events[1]));
        assert(reports(shutdown_work(events[1]), events[2]));
        assert(reports(shutdown_work(events[2]), events[3]));
        assert(reports(shutdown_work(events[3]), events[4]));
    }
}

/// A health exchange ends after at most four pieces of outside work:
/// no run has more than five events.
pub proof fn lemma_health_exchange_ends(events: Seq<AgentEvent>)
    requires
        is_health_run(events),
    ensures
        events.len() <= 5,
{
    if events.len() > 5 {
        assert(reports(health_work(events[0]), events[1]));
        assert(reports(health_work(events[1]), events[2]));
        assert(reports(health_work(events[2]), events[3]));
        assert(reports(health_work(events[3]), events[4]));
        assert(reports(health_work(events[4]), events[5]));
    }
}

/// The port of a machine's agent.
pub open spec fn agent_port_of(m: Machine) -> u16 {
    match m.agent_port {
        Some(p) => p,
        None => default_port(),
    }
}

/// `ip:port` of a machine's agent.
pub open spec fn agent_addr_text(m: Machine) -> Seq<char> {
    m.ip@ + ":"@ + decimal(agent_port_of(m) as nat)
}

/// The request that asks the agent at `addr` to shut its machine down.
pub open spec fn shutdown_request_text(addr: Seq<char>, token: Seq<char>) -> Seq<char> {
    "POST /shutdown HTTP/1.1\r\nHost: "@ + addr + "\r\nAuthorization: Bearer "@ + token
        + "\r\nConnection: close\r\n\r\n"@
}

/// The request that asks the agent at `addr` whether it runs.
pub open spec fn health_request_text(addr: Seq<char>) -> Seq<char> {
    "GET /health HTTP/1.1\r\nHost: "@ + addr + "\r\nConnection: close\r\n\r\n"@
}

pub open spec fn still_on_message(m: Machine) -> Seq<char> {
    "agent on "@ + m.name@ + " is not running but machine responds to ping"@
}

pub open spec fn rejected_message(m: Machine) -> Seq<char> {
    "agent on "@ + m.name@ + " rejected token (401)"@
}

pub open spec fn write_failed_message(m: Machine, e: Seq<char>) -> Seq<char> {
    "write "@ + agent_addr_text(m) + ": "@ + e
}

/// The outcome of a shutdown that the agent answered with `reply`: accepted
/// when the reply holds "200"; refused when it holds "401" and not "200";
/// otherwise taken as accepted, since the machine may still go down.
pub open spec fn shutdown_reply_outcome(m: Machine, reply: Seq<char>) -> Result<(), Seq<char>> {
    if has_infix(reply, "200"@) {
        Ok(())
    } else if has_infix(reply, "401"@) {
        Err(rejected_message(m))
    } else {
        Ok(())
    }
}

/// `ip:port` of the machine's agent; the port is 9877 unless configured.
pub fn agent_addr(machine: &Machine) -> (s: String)
    ensures
        s@ == agent_addr_text(*machine),
{
    let port: u16 = match machine.agent_port {
        Some(p) => p,
        None => 9877,
    };
    let mut s = machine.ip.clone().concat(":");
    append_decimal(&mut s, port as u64);
    s
}

/// The shutdown request for `machine`, with its agent's token.
pub fn shutdown_request(machine: &Machine) -> (r: String)
    ensures
        r@ == shutdown_request_text(agent_addr_text(*machine), machine.agent_token@),
{
    let addr = agent_addr(machine);
    let r = String::from_str("POST /shutdown HTTP/1.1\r\nHost: ").concat(addr.as_str()).concat(
        "\r\nAuthorization: Bearer ",
    ).concat(machine.agent_token.as_str()).concat("\r\nConnection: close\r\n\r\n");
    r
}

/// The health request for `machine`.
pub fn health_request(machine: &Machine) -> (r: String)
    ensures
        r@ == health_request_text(agent_addr_text(*machine)),
{
    let addr = agent_addr(machine);
    String::from_str("GET /health HTTP/1.1\r\nHost: ").concat(addr.as_str()).concat(
        "\r\nConnection: close\r\n\r\n",
    )
}

/// The next step of shutting `machine` down. An agent that cannot be reached
/// on a machine that answers pings is an error; one that cannot be reached on
/// a machine that does not is a machine already off. A reply that cannot be
/// read is taken as the machine going down.
pub fn shutdown_step(machine: &Machine, event: AgentEvent) -> (a: AgentAction<()>)
    ensures
        work_of(a) == shutdown_work(event),
        match event {
            AgentEvent::Start => a matches AgentAction::Connect(addr) && addr@ == agent_addr_text(
                *machine,
            ),
            AgentEvent::ConnectFailed => a matches AgentAction::Ping(ip) && ip@ == machine.ip@,
            AgentEvent::PingAnswered(true) => a matches AgentAction::Finish(
                Err(AppError::Agent(m)),
            ) && m@ == still_on_message(*machine),
            AgentEvent::PingAnswered(false) => a == AgentAction::<()>::Finish(Ok(())),
            AgentEvent::Connected => a matches AgentAction::Send(r) && r@ == shutdown_request_text(
                agent_addr_text(*machine),
                machine.agent_token@,
            ),
            AgentEvent::WriteFailed(e) => a matches AgentAction::Finish(Err(AppError::Agent(m)))
                && m@ == write_failed_message(*machine, e@),
            AgentEvent::Written => a == AgentAction::<()>::Receive,
            AgentEvent::Received(reply) => match shutdown_reply_outcome(*machine, reply@) {
                Ok(()) => a == AgentAction::<()>::Finish(Ok(())),
                Err(text) => a matches AgentAction::Finish(Err(AppError::Agent(m))) && m@ == text,
            },
            AgentEvent::ReadFailed => a == AgentAction::<()>::Finish(Ok(())),
        },
{
    match event {
        AgentEvent::Start => AgentAction::Connect(agent_addr(machine)),
        AgentEvent::ConnectFailed => AgentAction::Ping(machine.ip.clone()),
        AgentEvent::PingAnswered(answered) => {
            if answered {
                AgentAction::Finish(
                    Err(
                        AppError::Agent(
                            String::from_str("agent on ").concat(machine.name.as_str()).concat(
                                " is not running but machine responds to ping",
                            ),
                        ),
                    ),
                )
            } else {
                AgentAction::Finish(Ok(()))
            }
        },
        AgentEvent::Connected => AgentAction::Send(shutdown_request(machine)),
        AgentEvent::WriteFailed(e) => {
            let addr = agent_addr(machine);
            AgentAction::Finish(
                Err(AppError::Agent(String::from_str("write ").concat(addr.as_str()).concat(": ").concat(e.as_str()))),
            )
        },
        AgentEvent::Written => AgentAction::Receive,
        AgentEvent::Received(reply) => {
            if contains_text(reply.as_str(), "200") {
                AgentAction::Finish(Ok(()))
            } else if contains_text(reply.as_str(), "401") {
                AgentAction::Finish(
                    Err(
                        AppError::Agent(
                            String::from_str("agent on ").concat(machine.name.as_str()).concat(
                                " rejected token (401)",
                            ),
                        ),
                    ),
                )
            } else {
                AgentAction::Finish(Ok(()))
            }
        },
        AgentEvent::ReadFailed => AgentAction::Finish(Ok(())),
    }
}

/// The next step of asking whether `machine` is on. The machine is on when
/// its agent answers with "200" in the reply; when the agent cannot be
/// reached or read, when it answers ping.
pub fn health_step(machine: &Machine, event: AgentEvent) -> (a: AgentAction<bool>)
    ensures
        work_of(a) == health_work(event),
        match event {
            AgentEvent::Start => a matches AgentAction::Connect(addr) && addr@ == agent_addr_text(
                *machine,
            ),
            AgentEvent::Connected => a matches AgentAction::Send(r) && r@ == health_request_text(
                agent_addr_text(*machine),
            ),
            AgentEvent::Written => a == AgentAction::<bool>::Receive,
            AgentEvent::Received(reply) => a == AgentAction::<bool>::Finish(
                Ok(has_infix(reply@, "200"@)),
            ),
            AgentEvent::PingAnswered(on) => a == AgentAction::<bool>::Finish(Ok(on)),
            _ => a matches AgentAction::Ping(ip) && ip@ == machine.ip@,
        },
{
    match event {
        AgentEvent::Start => AgentAction::Connect(agent_addr(machine)),
        AgentEvent::Connected => AgentAction::Send(health_request(machine)),
        AgentEvent::Written => AgentAction::Receive,
        AgentEvent::Received(reply) => AgentAction::Finish(Ok(contains_text(reply.as_str(), "200"))),
        AgentEvent::PingAnswered(on) => AgentAction::Finish(Ok(on)),
        _ => AgentAction::Ping(machine.ip.clone()),
    }
}

} // verus!
