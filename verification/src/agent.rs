//! The agent: how it answers an HTTP request, and what it runs to shut down.

use vstd::prelude::*;

use crate::numbers::{append_decimal, decimal};
use crate::text::{
    chars_of, copy_span, field_spans, fields, first_line, lines, nonempty_field_spans,
    nonempty_fields, span_equals, span_starts_with_folded, spans_text, starts_with_folded,
    strip_cr, strip_prefix, trim, trim_span, Separator,
};

verus! {

/// The agent's answer to one request.
#[derive(Debug, Clone, Copy, PartialEq, Eq)]
pub enum AgentReply {
    /// The request line has fewer than two words.
    BadRequest,
    /// `GET /health`.
    Health,
    /// `POST /shutdown` with the agent's bearer token: the machine shuts down.
    ShutdownAccepted,
    /// `POST /shutdown` without the agent's bearer token.
    Unauthorized,
    /// Any other method and path.
    NotFound,
}

/// Whether a header line is the `Authorization` header (name in any case).
pub open spec fn is_auth_line(line: Seq<char>) -> bool {
    starts_with_folded(line, "authorization:"@)
}

/// The first `Authorization` line among `ls`.
pub open spec fn find_auth_line(ls: Seq<Seq<char>>) -> Option<Seq<char>>
    decreases ls.len(),
{
    if ls.len() == 0 {
        None
    } else if is_auth_line(ls[0]) {
        Some(ls[0])
    } else {
        find_auth_line(ls.drop_first())
    }
}

/// The first `Authorization` line counts wherever it stands among the lines.
pub proof fn lemma_first_auth_line_found(ls: Seq<Seq<char>>, i: int)
    requires
        0 <= i < ls.len(),
        is_auth_line(ls[i]),
        forall|j: int| 0 <= j < i ==> !is_auth_line(#[trigger] ls[j]),
    ensures
        find_auth_line(ls) == Some(ls[i]),
    decreases i,
{
    if i > 0 {
        let rest = ls.drop_first();
        assert(!is_auth_line(ls[0]));
        assert forall|j: int| 0 <= j < i - 1 implies !is_auth_line(#[trigger] rest[j]) by {
            assert(rest[j] == ls[j + 1]);
        }
        assert(rest[i - 1] == ls[i]);
        lemma_first_auth_line_found(rest, i - 1);
    }
}

/// Without an `Authorization` line there is none to find.
pub proof fn lemma_no_auth_line(ls: Seq<Seq<char>>)
    requires
        forall|j: int| 0 <= j < ls.len() ==> !is_auth_line(#[trigger] ls[j]),
    ensures
        find_auth_line(ls) is None,
    decreases ls.len(),
{
    if ls.len() > 0 {
        let rest = ls.drop_first();
        assert(!is_auth_line(ls[0]));
        assert forall|j: int| 0 <= j < rest.len() implies !is_auth_line(#[trigger] rest[j]) by {
            assert(rest[j] == ls[j + 1]);
        }
        lemma_no_auth_line(rest);
    }
}

/// Whether the `Authorization` line `line` carries `Bearer <token>`: its value
/// (what follows `authorization:`, whose colon is the line's first), trimmed,
/// is `Bearer ` followed by exactly the token.
pub open spec fn carries_token(line: Seq<char>, token: Seq<char>) -> bool {
    strip_prefix(trim(line.skip("authorization:"@.len() as int)), "Bearer "@) == Some(token)
}

/// In an `Authorization` line the first colon is the one that ends the
/// header's name, so the value `carries_token` reads is what follows the
/// line's first colon (`line.splitn(2, ':').nth(1)`).
pub proof fn lemma_auth_line_first_colon(line: Seq<char>)
    requires
        is_auth_line(line),
    ensures
        line["authorization:"@.len() - 1] == ':',
        forall|i: int| 0 <= i < "authorization:"@.len() - 1 ==> line[i] != ':',
{
    reveal_strlit("authorization:");
    let lit = "authorization:"@;
    assert(lit =~= seq!['a', 'u', 't', 'h', 'o', 'r', 'i', 'z', 'a', 't', 'i', 'o', 'n', ':']);
    assert(crate::text::ascii_fold(line[13]) == lit[13] as int);
    assert forall|i: int| 0 <= i < 13 implies line[i] != ':' by {
        assert(crate::text::ascii_fold(line[i]) == lit[i] as int);
    }
}

/// Whether the request's first `Authorization` line carries `Bearer <token>`.
pub open spec fn is_authorized(request: Seq<char>, token: Seq<char>) -> bool {
    match find_auth_line(lines(request)) {
        Some(line) => carries_token(line, token),
        None => false,
    }
}

/// The agent's answer to `request` when its secret is `token`: the first line
/// is cut into words at whitespace; the first two are the method and the path.
pub open spec fn reply_for(request: Seq<char>, token: Seq<char>) -> AgentReply {
    let parts = nonempty_fields(first_line(request), Separator::Whitespace);
    if parts.len() < 2 {
        AgentReply::BadRequest
    } else if parts[0] == "GET"@ && parts[1] == "/health"@ {
        AgentReply::Health
    } else if parts[0] == "POST"@ && parts[1] == "/shutdown"@ {
        if is_authorized(request, token) {
            AgentReply::ShutdownAccepted
        } else {
            AgentReply::Unauthorized
        }
    } else {
        AgentReply::NotFound
    }
}

/// The agent shuts down only on `POST /shutdown` whose first `Authorization`
/// line carries its token, and answers health checks whatever the token.
pub proof fn lemma_reply_authorization(request: Seq<char>, token: Seq<char>, other: Seq<char>)
    ensures
        reply_for(request, token) == AgentReply::ShutdownAccepted ==> is_authorized(request, token),
        reply_for(request, token) == AgentReply::ShutdownAccepted ==> reply_for(request, other)
            == if is_authorized(request, other) {
            AgentReply::ShutdownAccepted
        } else {
            AgentReply::Unauthorized
        },
        reply_for(request, token) == AgentReply::Health <==> reply_for(request, other)
            == AgentReply::Health,
{
}

impl AgentReply {
    pub open spec fn status_of(self) -> u16 {
        match self {
            AgentReply::BadRequest => 400,
            AgentReply::Health => 200,
            AgentReply::ShutdownAccepted => 200,
            AgentReply::Unauthorized => 401,
            AgentReply::NotFound => 404,
        }
    }

    pub open spec fn body_of(self) -> Seq<char> {
        match self {
            AgentReply::BadRequest => "{\"error\":\"bad request\"}"@,
            AgentReply::Health => "{\"status\":\"ok\"}"@,
            AgentReply::ShutdownAccepted => "{\"status\":\"ok\"}"@,
            AgentReply::Unauthorized => "{\"error\":\"unauthorized\"}"@,
            AgentReply::NotFound => "{\"error\":\"not found\"}"@,
        }
    }

    /// The HTTP status of the answer.
    pub fn status(&self) -> (code: u16)
        ensures
            code == self.status_of(),
    {
        match self {
            AgentReply::BadRequest => 400,
            AgentReply::Health => 200,
            AgentReply::ShutdownAccepted => 200,
            AgentReply::Unauthorized => 401,
            AgentReply::NotFound => 404,
        }
    }

    /// The JSON body of the answer.
    pub fn body(&self) -> (b: &'static str)
        ensures
            b@ == self.body_of(),
    {
        match self {
            AgentReply::BadRequest => "{\"error\":\"bad request\"}",
            AgentReply::Health => "{\"status\":\"ok\"}",
            AgentReply::ShutdownAccepted => "{\"status\":\"ok\"}",
            AgentReply::Unauthorized => "{\"error\":\"unauthorized\"}",
            AgentReply::NotFound => "{\"error\":\"not found\"}",
        }
    }

    /// Whether the machine shuts down once the answer is sent.
    pub fn shuts_down(&self) -> (b: bool)
        ensures
            b == (*self == AgentReply::ShutdownAccepted),
    {
        match self {
            AgentReply::ShutdownAccepted => true,
            _ => false,
        }
    }
}

/// The first `Authorization` line of `xs` is that of `xs.push(e)` when `e` is no such line.
proof fn lemma_find_auth_push(xs: Seq<Seq<char>>, e: Seq<char>)
    requires
        !is_auth_line(e),
    ensures
        find_auth_line(xs.push(e)) == find_auth_line(xs),
    decreases xs.len(),
{
    if xs.len() == 0 {
        assert(xs.push(e).drop_first() =~= Seq::<Seq<char>>::empty());
    } else {
        assert(xs.push(e).drop_first() =~= xs.drop_first().push(e));
        lemma_find_auth_push(xs.drop_first(), e);
    }
}

/// The lines of a request, with its final piece kept even when it is empty.
spec fn line_candidates(s: Seq<char>) -> Seq<Seq<char>> {
    let f = fields(s, Separator::Newline);
    f.take(f.len() - 1).map_values(|l: Seq<char>| strip_cr(l)).push(f.last())
}

/// The end of the `k`th line, given the spans of the request's newline fields.
fn line_end(v: &Vec<char>, spans: &Vec<(usize, usize)>, k: usize) -> (end: usize)
    requires
        k < spans@.len(),
        crate::text::spans_within(spans@, v@.len()),
    ensures
        spans@[k as int].0 <= end <= spans@[k as int].1,
        v@.subrange(spans@[k as int].0 as int, end as int) == if k + 1 < spans@.len() {
            strip_cr(v@.subrange(spans@[k as int].0 as int, spans@[k as int].1 as int))
        } else {
            v@.subrange(spans@[k as int].0 as int, spans@[k as int].1 as int)
        },
{
    let (a, b) = spans[k];
    if k < spans.len() - 1 && b > a && v[b - 1] == '\r' {
        assert(v@.subrange(a as int, (b - 1) as int) =~= v@.subrange(a as int, b as int).drop_last());
        b - 1
    } else {
        b
    }
}

/// Whether the request's first `Authorization` line carries `Bearer <token>`.
fn authorized(v: &Vec<char>, token: &str) -> (b: bool)
    ensures
        b == is_authorized(v@, token@),
{
    let spans = field_spans(v, Separator::Newline);
    let ghost f = fields(v@, Separator::Newline);
    let ghost cands = line_candidates(v@);
    proof {
        crate::text::lemma_fields_nonempty(v@, Separator::Newline);
        assert(spans_text(v@, spans@) == f);
        assert(cands.len() == f.len());
        let ended = f.take(f.len() - 1).map_values(|l: Seq<char>| strip_cr(l));
        assert(cands == ended.push(f.last()));
        if f.last().len() == 0 {
            reveal_strlit("authorization:");
            lemma_find_auth_push(ended, f.last());
        } else {
            assert(lines(v@) == cands);
        }
        assert(find_auth_line(lines(v@)) == find_auth_line(cands));
        assert(cands.skip(0) =~= cands);
    }
    let n = spans.len();
    let mut k: usize = 0;
    while k < n
        invariant
            n == spans@.len(),
            n == f.len(),
            n >= 1,
            k <= n,
            crate::text::spans_within(spans@, v@.len()),
            spans_text(v@, spans@) == f,
            f == fields(v@, Separator::Newline),
            cands == line_candidates(v@),
            cands.len() == n,
            find_auth_line(lines(v@)) == find_auth_line(cands),
            find_auth_line(cands) == find_auth_line(cands.skip(k as int)),
        decreases n - k,
    {
        let a = spans[k].0;
        let e = line_end(v, &spans, k);
        proof {
            assert(f[k as int] == v@.subrange(spans@[k as int].0 as int, spans@[k as int].1 as int));
            if k + 1 < n {
                assert(cands[k as int] == strip_cr(f[k as int]));
            } else {
                assert(cands[k as int] == f.last());
            }
            assert(cands.skip(k as int)[0] == cands[k as int]);
            assert(cands.skip(k as int).drop_first() =~= cands.skip(k + 1));
        }
        if span_starts_with_folded(v, a, e, "authorization:") {
            let name_len = "authorization:".unicode_len();
            let (ta, tb) = trim_span(v, a + name_len, e);
            proof {
                let line = v@.subrange(a as int, e as int);
                assert(line.skip(name_len as int) =~= v@.subrange((a + name_len) as int, e as int));
            }
            let p = "Bearer ".unicode_len();
            if tb - ta < p || !span_equals(v, ta, ta + p, "Bearer ") {
                proof {
                    let t = v@.subrange(ta as int, tb as int);
                    if p <= t.len() {
                        assert(t.take(p as int) =~= v@.subrange(ta as int, (ta + p) as int));
                    }
                }
                return false;
            }
            let ok = span_equals(v, ta + p, tb, token);
            proof {
                let t = v@.subrange(ta as int, tb as int);
                assert(t.take(p as int) =~= v@.subrange(ta as int, (ta + p) as int));
                assert(t.skip(p as int) =~= v@.subrange((ta + p) as int, tb as int));
            }
            return ok;
        }
        k += 1;
    }
    proof {
        assert(cands.skip(n as int) =~= Seq::<Seq<char>>::empty());
    }
    false
}

/// How the agent answers `request` when its secret is `token`.
pub fn handle_request(request: &str, token: &str) -> (r: AgentReply)
    ensures
        r == reply_for(request@, token@),
{
    let v = chars_of(request);
    let spans = field_spans(&v, Separator::Newline);
    let ghost f = fields(v@, Separator::Newline);
    proof {
        crate::text::lemma_fields_nonempty(v@, Separator::Newline);
        assert(spans_text(v@, spans@) == f);
        assert(f[0] == v@.subrange(spans@[0].0 as int, spans@[0].1 as int));
    }
    let a = spans[0].0;
    let e = line_end(&v, &spans, 0);
    let line = copy_span(&v, a, e);
    proof {
        if f.len() == 1 {
            assert(f.take(0).map_values(|l: Seq<char>| strip_cr(l)) =~= Seq::<Seq<char>>::empty());
            if f.last().len() == 0 {
                assert(lines(v@).len() == 0);
                assert(line@ =~= Seq::<char>::empty());
            } else {
                assert(lines(v@)[0] == f[0]);
            }
        } else {
            assert(lines(v@)[0] == strip_cr(f[0]));
        }
        assert(line@ == first_line(v@));
    }
    let words = nonempty_field_spans(&line, Separator::Whitespace);
    let ghost parts = nonempty_fields(first_line(request@), Separator::Whitespace);
    assert(spans_text(line@, words@) == parts);
    if words.len() < 2 {
        return AgentReply::BadRequest;
    }
    let (m0, m1) = words[0];
    let (p0, p1) = words[1];
    assert(parts[0] == line@.subrange(m0 as int, m1 as int));
    assert(parts[1] == line@.subrange(p0 as int, p1 as int));
    if span_equals(&line, m0, m1, "GET") && span_equals(&line, p0, p1, "/health") {
        AgentReply::Health
    } else if span_equals(&line, m0, m1, "POST") && span_equals(&line, p0, p1, "/shutdown") {
        if authorized(&v, token) {
            AgentReply::ShutdownAccepted
        } else {
            AgentReply::Unauthorized
        }
    } else {
        AgentReply::NotFound
    }
}

/// The reason phrase the agent writes after a status code.
pub open spec fn reason_text(status: u16) -> Seq<char> {
    if status == 200 {
        "OK"@
    } else if status == 400 {
        "Bad Request"@
    } else if status == 401 {
        "Unauthorized"@
    } else if status == 404 {
        "Not Found"@
    } else {
        "Error"@
    }
}

/// The HTTP response the agent writes: status line, JSON content type, the
/// body's length in bytes, `Connection: close`, then the body.
pub open spec fn response_text(status: u16, body: Seq<char>, body_bytes: nat) -> Seq<char> {
    "HTTP/1.1 "@ + decimal(status as nat) + " "@ + reason_text(status)
        + "\r\nContent-Type: application/json\r\nContent-Length: "@ + decimal(body_bytes)
        + "\r\nConnection: close\r\n\r\n"@ + body
}

fn reason(status: u16) -> (r: &'static str)
    ensures
        r@ == reason_text(status),
{
    if status == 200 {
        "OK"
    } else if status == 400 {
        "Bad Request"
    } else if status == 401 {
        "Unauthorized"
    } else if status == 404 {
        "Not Found"
    } else {
        "Error"
    }
}

/// The text of the HTTP response with `status` and `body`.
pub fn respond(status: u16, body: &str) -> (r: String)
    ensures
        r@ == response_text(status, body@, body.len() as nat),
{
    let mut r = String::from_str("HTTP/1.1 ");
    append_decimal(&mut r, status as u64);
    r.append(" ");
    r.append(reason(status));
    r.append("\r\nContent-Type: application/json\r\nContent-Length: ");
    append_decimal(&mut r, body.len() as u64);
    r.append("\r\nConnection: close\r\n\r\n");
    r.append(body);
    assert(r@ =~= response_text(status, body@, body.len() as nat));
    r
}

/// The Windows error that the service dispatcher reports when the program was
/// not started by the service control manager.
pub open spec fn not_started_by_scm() -> u32 {
    1063
}

/// How the agent goes on after asking Windows to run it as a service.
#[derive(Debug, Clone, Copy, PartialEq, Eq)]
pub enum ServiceLaunch {
    /// It ran as a service, which has now stopped.
    RanAsService,
    /// It was started from a console: serve directly.
    Console,
    /// The dispatcher failed with this error: exit with status 1.
    Failed(u32),
}

/// The launch outcome, from whether the dispatcher returned non-zero and,
/// when it did not, the thread's last error.
pub fn service_launch(dispatched: bool, last_error: u32) -> (r: ServiceLaunch)
    ensures
        r == if dispatched {
            ServiceLaunch::RanAsService
        } else if last_error == not_started_by_scm() {
            ServiceLaunch::Console
        } else {
            ServiceLaunch::Failed(last_error)
        },
{
    if dispatched {
        ServiceLaunch::RanAsService
    } else if last_error == 1063 {
        ServiceLaunch::Console
    } else {
        ServiceLaunch::Failed(last_error)
    }
}

/// The operating systems whose shutdown commands differ.
#[derive(Debug, Clone, Copy, PartialEq, Eq)]
pub enum HostOs {
    Windows,
    MacOs,
    Other,
}

pub open spec fn shutdown_args_of(os: HostOs) -> Seq<Seq<char>> {
    match os {
        HostOs::Windows => seq!["/s"@, "/t"@, "1"@],
        HostOs::MacOs => seq!["-h"@, "now"@],
        HostOs::Other => seq!["now"@],
    }
}

/// The arguments given to the `shutdown` program on `os`.
pub fn shutdown_arguments(os: HostOs) -> (args: Vec<&'static str>)
    ensures
        args@.map_values(|a: &'static str| a@) == shutdown_args_of(os),
{
    let args = match os {
        HostOs::Windows => vec!["/s", "/t", "1"],
        HostOs::MacOs => vec!["-h", "now"],
        HostOs::Other => vec!["now"],
    };
    assert(args@.map_values(|a: &'static str| a@) =~= shutdown_args_of(os));
    args
}

} // verus!
