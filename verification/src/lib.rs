//! Decisions of a Wake-on-LAN service: configuration checks, MAC parsing and
//! magic packets, the agent's HTTP request handling, and the steps by which the
//! server talks to an agent. Sockets, processes and files are left to the caller.

pub mod agent;
pub mod agent_client;
pub mod config;
pub mod errors;
pub mod exchange;
pub mod numbers;
pub mod routes;
pub mod text;
pub mod wol;
