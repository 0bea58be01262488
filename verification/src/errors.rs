//! The server's error type.

use vstd::prelude::*;

verus! {

/// A failed request or a refused configuration.
#[derive(Debug, PartialEq, Eq)]
pub enum AppError {
    Config(String),
    MachineNotFound(String),
    Wol(String),
    Agent(String),
}

impl AppError {
    /// The text that the error displays.
    pub open spec fn message_text(self) -> Seq<char> {
        match self {
            AppError::Config(m) => "configuration error: "@ + m@,
            AppError::MachineNotFound(m) => "machine not found: "@ + m@,
            AppError::Wol(m) => "WoL error: "@ + m@,
            AppError::Agent(m) => "agent error: "@ + m@,
        }
    }

    /// The HTTP status of a request that failed with this error.
    pub open spec fn status_of(self) -> u16 {
        match self {
            AppError::MachineNotFound(_) => 404,
            _ => 500,
        }
    }

    /// The text that the error displays (its `Display`).
    pub fn message(&self) -> (s: String)
        ensures
            s@ == self.message_text(),
    {
        match self {
            AppError::Config(m) => String::from_str("configuration error: ").concat(m.as_str()),
            AppError::MachineNotFound(m) => String::from_str("machine not found: ").concat(
                m.as_str(),
            ),
            AppError::Wol(m) => String::from_str("WoL error: ").concat(m.as_str()),
            AppError::Agent(m) => String::from_str("agent error: ").concat(m.as_str()),
        }
    }

    /// The HTTP status of a request that failed with this error:
    /// 404 for an unknown machine, 500 for the rest.
    pub fn status_code(&self) -> (code: u16)
        ensures
            code == self.status_of(),
    {
        match self {
            AppError::MachineNotFound(_) => 404,
            _ => 500,
        }
    }
}

} // verus!
