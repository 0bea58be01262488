//! What the server's HTTP endpoints decide before and after their outside work.

use vstd::prelude::*;

use crate::config::{answers_to, Config, Machine};
use crate::errors::AppError;
use crate::text::{chars_of, span_equals, strip_prefix};

verus! {

/// Why a request to the server was refused or failed.
#[derive(Debug, PartialEq, Eq)]
pub enum RouteError {
    /// No `Authorization` header, or one that is not `Bearer <token>`.
    MissingAuthorization,
    /// A bearer token other than the configured one.
    InvalidToken,
    /// The request was accepted but failed.
    Failed(AppError),
}

/// The outcome of checking the `Authorization` header against `api_token`.
pub open spec fn token_outcome(header: Option<Seq<char>>, api_token: Seq<char>) -> Result<(), RouteError> {
    match header {
        None => Err(RouteError::MissingAuthorization),
        Some(h) => match strip_prefix(h, "Bearer "@) {
            None => Err(RouteError::MissingAuthorization),
            Some(t) => if t == api_token {
                Ok(())
            } else {
                Err(RouteError::InvalidToken)
            },
        },
    }
}

pub open spec fn view_header(header: Option<&str>) -> Option<Seq<char>> {
    match header {
        Some(h) => Some(h@),
        None => None,
    }
}

impl RouteError {
    pub open spec fn status_of(self) -> u16 {
        match self {
            RouteError::MissingAuthorization => 401,
            RouteError::InvalidToken => 401,
            RouteError::Failed(e) => e.status_of(),
        }
    }

    pub open spec fn message_text(self) -> Seq<char> {
        match self {
            RouteError::MissingAuthorization => "missing or invalid Authorization header"@,
            RouteError::InvalidToken => "invalid token"@,
            RouteError::Failed(e) => e.message_text(),
        }
    }

    /// The HTTP status of the refusal: 401 for the token, else that of the error.
    pub fn status(&self) -> (code: u16)
        ensures
            code == self.status_of(),
    {
        match self {
            RouteError::MissingAuthorization => 401,
            RouteError::InvalidToken => 401,
            RouteError::Failed(e) => e.status_code(),
        }
    }

    /// The text of the refusal, for the `error` field of the JSON body.
    pub fn message(&self) -> (s: String)
        ensures
            s@ == self.message_text(),
    {
        match self {
            RouteError::MissingAuthorization => String::from_str(
                "missing or invalid Authorization header",
            ),
            RouteError::InvalidToken => String::from_str("invalid token"),
            RouteError::Failed(e) => e.message(),
        }
    }
}

/// Checks the value of the request's `Authorization` header (absent, or not
/// text, is `None`) against the configured API token.
pub fn check_token(header: Option<&str>, config: &Config) -> (r: Result<(), RouteError>)
    ensures
        r == token_outcome(view_header(header), config.api_token@),
{
    let h = match header {
        None => return Err(RouteError::MissingAuthorization),
        Some(h) => h,
    };
    let v = chars_of(h);
    let p = "Bearer ".unicode_len();
    if v.len() < p || !span_equals(&v, 0, p, "Bearer ") {
        proof {
            if p <= v@.len() {
                assert(v@.take(p as int) =~= v@.subrange(0, p as int));
            }
        }
        return Err(RouteError::MissingAuthorization);
    }
    assert(v@.take(p as int) =~= v@.subrange(0, p as int));
    assert(v@.skip(p as int) =~= v@.subrange(p as int, v@.len() as int));
    if span_equals(&v, p, v.len(), config.api_token.as_str()) {
        Ok(())
    } else {
        Err(RouteError::InvalidToken)
    }
}

/// Checks the token, then finds the machine the request names.
pub fn authorize_machine<'a>(header: Option<&str>, config: &'a Config, name: &str) -> (r: Result<&'a Machine, RouteError>)
    ensures
        token_outcome(view_header(header), config.api_token@) matches Err(e) ==> r == Err::<&Machine, RouteError>(e),
        token_outcome(view_header(header), config.api_token@) is Ok ==> match r {
            Ok(m) => exists|i: int|
                0 <= i < config.machines@.len() && *m == config.machines@[i] && answers_to(
                    config.machines@[i],
                    name@,
                ) && forall|j: int| 0 <= j < i ==> !answers_to(config.machines@[j], name@),
            Err(e) => (e matches RouteError::Failed(AppError::MachineNotFound(n)) && n@ == name@)
                && forall|i: int|
                0 <= i < config.machines@.len() ==> !answers_to(config.machines@[i], name@),
        },
{
    check_token(header, config)?;
    match config.find_machine(name) {
        Some(m) => Ok(m),
        None => Err(RouteError::Failed(AppError::MachineNotFound(String::from_str(name)))),
    }
}

/// A request is let through exactly when its header is `Bearer ` followed by
/// the configured token.
pub proof fn lemma_bearer_token_accepted(t: Seq<char>, api_token: Seq<char>)
    ensures
        token_outcome(Some("Bearer "@ + t), api_token) == if t == api_token {
            Ok::<(), RouteError>(())
        } else {
            Err(RouteError::InvalidToken)
        },
{
    let h = "Bearer "@ + t;
    assert(h.take("Bearer "@.len() as int) =~= "Bearer "@);
    assert(h.skip("Bearer "@.len() as int) =~= t);
}

/// The power state reported for a machine: "on" or "off".
pub fn power_label(is_on: bool) -> (s: &'static str)
    ensures
        s@ == if is_on {
            "on"@
        } else {
            "off"@
        },
{
    if is_on {
        "on"
    } else {
        "off"
    }
}

} // verus!
