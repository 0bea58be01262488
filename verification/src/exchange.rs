//! How the server's requests fare at the agent: proofs that the requests the
//! server builds are the ones the agent serves.

use vstd::prelude::*;

use crate::agent::{
    carries_token, find_auth_line, is_auth_line, lemma_first_auth_line_found, reply_for, AgentReply,
};
use crate::agent_client::{health_request_text, shutdown_request_text};
use crate::text::{
    fields, first_line, is_space, keep_nonempty, lemma_fields_join, lemma_fields_nonempty,
    lemma_fields_single, lemma_keep_nonempty_step, lines, nonempty_fields, separates,
    starts_with_folded, strip_cr, strip_prefix, trim, trim_end, trim_start, Separator,
};

verus! {

/// `s` holds no line feed.
pub open spec fn single_line(s: Seq<char>) -> bool {
    forall|i: int| 0 <= i < s.len() ==> s[i] != '\n'
}

spec fn no_space(s: Seq<char>) -> bool {
    forall|i: int| 0 <= i < s.len() ==> !is_space(#[trigger] s[i])
}

/// Three words cut by single spaces are the words of the text.
proof fn lemma_three_words(a: Seq<char>, b: Seq<char>, c: Seq<char>)
    requires
        a.len() > 0,
        b.len() > 0,
        c.len() > 0,
        no_space(a),
        no_space(b),
        no_space(c),
    ensures
        nonempty_fields(a + seq![' '] + b + seq![' '] + c, Separator::Whitespace) == seq![a, b, c],
{
    let sep = Separator::Whitespace;
    assert(separates(sep, ' '));
    lemma_fields_single(a, sep);
    lemma_fields_single(b, sep);
    lemma_fields_single(c, sep);
    lemma_fields_join(b, ' ', c, sep);
    assert(a + seq![' '] + b + seq![' '] + c =~= a + seq![' '] + (b + seq![' '] + c));
    lemma_fields_join(a, ' ', b + seq![' '] + c, sep);
    let fs = fields(a + seq![' '] + b + seq![' '] + c, sep);
    assert(fs =~= seq![a, b, c]);
    lemma_keep_nonempty_step(seq![a, b, c]);
    assert(seq![a, b, c].drop_last() =~= seq![a, b]);
    lemma_keep_nonempty_step(seq![a, b]);
    assert(seq![a, b].drop_last() =~= seq![a]);
    lemma_keep_nonempty_step(seq![a]);
    assert(seq![a].drop_last() =~= Seq::<Seq<char>>::empty());
    reveal(Seq::filter);
    assert(keep_nonempty(Seq::<Seq<char>>::empty()) =~= Seq::<Seq<char>>::empty());
    assert(keep_nonempty(seq![a, b, c]) =~= seq![a, b, c]);
}

/// The request line of a request of the form `line \r\n rest`.
proof fn lemma_first_line(l: Seq<char>, rest: Seq<char>)
    requires
        single_line(l),
    ensures
        first_line(l + seq!['\r', '\n'] + rest) == l,
{
    let sep = Separator::Newline;
    let lc = l.push('\r');
    assert forall|i: int| 0 <= i < lc.len() implies !separates(sep, #[trigger] lc[i]) by {
        if i < l.len() {
            assert(lc[i] == l[i]);
        }
    }
    lemma_fields_single(lc, sep);
    assert(l + seq!['\r', '\n'] + rest =~= lc + seq!['\n'] + rest);
    lemma_fields_join(lc, '\n', rest, sep);
    lemma_fields_nonempty(rest, sep);
    let f = fields(l + seq!['\r', '\n'] + rest, sep);
    assert(f[0] == lc);
    assert(f.len() >= 2);
    let ended = f.take(f.len() - 1).map_values(|x: Seq<char>| strip_cr(x));
    assert(ended[0] == strip_cr(lc));
    assert(lines(l + seq!['\r', '\n'] + rest)[0] == strip_cr(lc));
    assert(lc.drop_last() =~= l);
}

/// The agent answers the server's health request for any address on one line.
pub proof fn lemma_health_request_served(addr: Seq<char>, secret: Seq<char>)
    requires
        single_line(addr),
    ensures
        reply_for(health_request_text(addr), secret) == AgentReply::Health,
{
    reveal_strlit("GET /health HTTP/1.1\r\nHost: ");
    reveal_strlit("\r\nConnection: close\r\n\r\n");
    reveal_strlit("GET");
    reveal_strlit("/health");
    let get = seq!['G', 'E', 'T'];
    let path = seq!['/', 'h', 'e', 'a', 'l', 't', 'h'];
    let version = seq!['H', 'T', 'T', 'P', '/', '1', '.', '1'];
    let l = get + seq![' '] + path + seq![' '] + version;
    let rest = seq!['H', 'o', 's', 't', ':', ' '] + addr + "\r\nConnection: close\r\n\r\n"@;
    assert(health_request_text(addr) =~= l + seq!['\r', '\n'] + rest);
    lemma_first_line(l, rest);
    lemma_three_words(get, path, version);
    assert("GET"@ =~= get);
    assert("/health"@ =~= path);
}

/// The line that carries the server's token, as the agent reads it.
proof fn lemma_auth_line(token: Seq<char>)
    requires
        token.len() > 0,
        !is_space(token.last()),
    ensures
        is_auth_line(seq!['A', 'u', 't', 'h', 'o', 'r', 'i', 'z', 'a', 't', 'i', 'o', 'n', ':', ' ', 'B', 'e', 'a', 'r', 'e', 'r', ' '] + token),
        forall|secret: Seq<char>|
            carries_token(
                seq!['A', 'u', 't', 'h', 'o', 'r', 'i', 'z', 'a', 't', 'i', 'o', 'n', ':', ' ', 'B', 'e', 'a', 'r', 'e', 'r', ' '] + token,
                secret,
            ) <==> secret == token,
{
    reveal_strlit("authorization:");
    reveal_strlit("Bearer ");
    let name = seq!['A', 'u', 't', 'h', 'o', 'r', 'i', 'z', 'a', 't', 'i', 'o', 'n', ':'];
    let bearer = seq!['B', 'e', 'a', 'r', 'e', 'r', ' '];
    let line = seq!['A', 'u', 't', 'h', 'o', 'r', 'i', 'z', 'a', 't', 'i', 'o', 'n', ':', ' ', 'B', 'e', 'a', 'r', 'e', 'r', ' '] + token;
    assert(line =~= name + seq![' '] + bearer + token);
    let lit = "authorization:"@;
    assert(lit =~= seq!['a', 'u', 't', 'h', 'o', 'r', 'i', 'z', 'a', 't', 'i', 'o', 'n', ':']);
    assert forall|i: int| 0 <= i < lit.len() implies #[trigger] crate::text::ascii_fold(line[i])
        == lit[i] as int by {
        assert(line[i] == name[i]);
    }
    assert(starts_with_folded(line, lit));
    let value = line.skip(lit.len() as int);
    assert(value =~= seq![' '] + bearer + token);
    assert(value.drop_first() =~= bearer + token);
    assert(trim_start(bearer + token) == bearer + token);
    assert(trim_start(value) == bearer + token);
    assert((bearer + token).last() == token.last());
    assert(trim_end(bearer + token) == bearer + token);
    assert(trim(value) == bearer + token);
    assert("Bearer "@ =~= bearer);
    assert((bearer + token).take(7) =~= bearer);
    assert((bearer + token).skip(7) =~= token);
    assert(strip_prefix(trim(value), "Bearer "@) == Some(token));
}

/// The agent that holds `secret` shuts its machine down on the server's
/// shutdown request exactly when the request carries `secret`, provided the
/// address and the token are single lines and the token is not empty and does
/// not end in whitespace (which the agent trims off a header's value).
pub proof fn lemma_shutdown_request_served(addr: Seq<char>, token: Seq<char>, secret: Seq<char>)
    requires
        single_line(addr),
        single_line(token),
        token.len() > 0,
        !is_space(token.last()),
    ensures
        reply_for(shutdown_request_text(addr, token), secret) == if secret == token {
            AgentReply::ShutdownAccepted
        } else {
            AgentReply::Unauthorized
        },
{
    reveal_strlit("POST /shutdown HTTP/1.1\r\nHost: ");
    reveal_strlit("\r\nAuthorization: Bearer ");
    reveal_strlit("\r\nConnection: close\r\n\r\n");
    reveal_strlit("POST");
    reveal_strlit("/shutdown");
    let sep = Separator::Newline;
    let post = seq!['P', 'O', 'S', 'T'];
    let path = seq!['/', 's', 'h', 'u', 't', 'd', 'o', 'w', 'n'];
    let version = seq!['H', 'T', 'T', 'P', '/', '1', '.', '1'];
    let l0 = post + seq![' '] + path + seq![' '] + version;
    let host = seq!['H', 'o', 's', 't', ':', ' '] + addr;
    let auth = seq!['A', 'u', 't', 'h', 'o', 'r', 'i', 'z', 'a', 't', 'i', 'o', 'n', ':', ' ', 'B', 'e', 'a', 'r', 'e', 'r', ' '] + token;
    let conn = seq!['C', 'o', 'n', 'n', 'e', 'c', 't', 'i', 'o', 'n', ':', ' ', 'c', 'l', 'o', 's', 'e'];
    let cr = seq!['\r'];
    let empty = Seq::<char>::empty();
    let request = shutdown_request_text(addr, token);
    // The request, cut at its line feeds.
    let p4 = cr + seq!['\n'] + empty;
    let p3 = conn.push('\r') + seq!['\n'] + p4;
    let p2 = auth.push('\r') + seq!['\n'] + p3;
    let p1 = host.push('\r') + seq!['\n'] + p2;
    assert(request =~= l0.push('\r') + seq!['\n'] + p1);
    assert forall|i: int| 0 <= i < l0.push('\r').len() implies !separates(sep, #[trigger] l0.push('\r')[i]) by {}
    assert forall|i: int| 0 <= i < host.push('\r').len() implies !separates(sep, #[trigger] host.push('\r')[i]) by {
        if i >= 6 && i < host.len() {
            assert(host[i] == addr[i - 6]);
        }
    }
    assert forall|i: int| 0 <= i < auth.push('\r').len() implies !separates(sep, #[trigger] auth.push('\r')[i]) by {
        if i >= 22 && i < auth.len() {
            assert(auth[i] == token[i - 22]);
        }
    }
    assert forall|i: int| 0 <= i < conn.push('\r').len() implies !separates(sep, #[trigger] conn.push('\r')[i]) by {}
    assert forall|i: int| 0 <= i < cr.len() implies !separates(sep, #[trigger] cr[i]) by {}
    lemma_fields_single(l0.push('\r'), sep);
    lemma_fields_single(host.push('\r'), sep);
    lemma_fields_single(auth.push('\r'), sep);
    lemma_fields_single(conn.push('\r'), sep);
    lemma_fields_single(cr, sep);
    lemma_fields_single(empty, sep);
    lemma_fields_join(cr, '\n', empty, sep);
    lemma_fields_join(conn.push('\r'), '\n', p4, sep);
    lemma_fields_join(auth.push('\r'), '\n', p3, sep);
    lemma_fields_join(host.push('\r'), '\n', p2, sep);
    lemma_fields_join(l0.push('\r'), '\n', p1, sep);
    let f = fields(request, sep);
    assert(f =~= seq![l0.push('\r'), host.push('\r'), auth.push('\r'), conn.push('\r'), cr, empty]);
    // Its lines.
    let ls = lines(request);
    assert(l0.push('\r').drop_last() =~= l0);
    assert(host.push('\r').drop_last() =~= host);
    assert(auth.push('\r').drop_last() =~= auth);
    assert(conn.push('\r').drop_last() =~= conn);
    assert(cr.drop_last() =~= empty);
    assert(ls =~= seq![l0, host, auth, conn, empty]);
    // The request line.
    assert(first_line(request) == l0);
    lemma_three_words(post, path, version);
    assert("POST"@ =~= post);
    assert("/shutdown"@ =~= path);
    // The `Authorization` line.
    reveal_strlit("authorization:");
    let lit = "authorization:"@;
    assert(lit =~= seq!['a', 'u', 't', 'h', 'o', 'r', 'i', 'z', 'a', 't', 'i', 'o', 'n', ':']);
    assert(crate::text::ascii_fold(l0[0]) != lit[0] as int);
    assert(!is_auth_line(l0));
    assert(crate::text::ascii_fold(host[0]) != lit[0] as int);
    assert(!is_auth_line(host));
    lemma_auth_line(token);
    assert(ls.drop_first() =~= seq![host, auth, conn, empty]);
    assert(ls.drop_first().drop_first() =~= seq![auth, conn, empty]);
    assert(find_auth_line(ls.drop_first().drop_first()) == Some(auth));
    assert(find_auth_line(ls.drop_first()) == Some(auth));
    assert(find_auth_line(ls) == Some(auth));
    assert(carries_token(auth, secret) == (secret == token));
    assert(crate::agent::is_authorized(request, secret) == (secret == token));
    let parts = nonempty_fields(first_line(request), Separator::Whitespace);
    assert(parts == seq![post, path, version]);
    assert(parts[0] == "POST"@ && parts[1] == "/shutdown"@);
    assert(!(parts[0] == "GET"@)) by {
        reveal_strlit("GET");
    }
}

/// Lines joined, each ended by `\r\n`.
pub open spec fn crlf_join(ls: Seq<Seq<char>>) -> Seq<char>
    decreases ls.len(),
{
    if ls.len() == 0 {
        Seq::<char>::empty()
    } else {
        ls[0] + seq!['\r', '\n'] + crlf_join(ls.drop_first())
    }
}

/// A line ended by `\r\n` is the first of the lines.
proof fn lemma_lines_cons(a: Seq<char>, x: Seq<char>)
    requires
        single_line(a),
    ensures
        lines(a + seq!['\r', '\n'] + x) == seq![a] + lines(x),
{
    let sep = Separator::Newline;
    let ac = a.push('\r');
    assert forall|i: int| 0 <= i < ac.len() implies !separates(sep, #[trigger] ac[i]) by {
        if i < a.len() {
            assert(ac[i] == a[i]);
        }
    }
    lemma_fields_single(ac, sep);
    assert(a + seq!['\r', '\n'] + x =~= ac + seq!['\n'] + x);
    lemma_fields_join(ac, '\n', x, sep);
    lemma_fields_nonempty(x, sep);
    let g = fields(x, sep);
    let f = fields(a + seq!['\r', '\n'] + x, sep);
    assert(f == seq![ac] + g);
    assert(f.take(f.len() - 1) =~= seq![ac] + g.take(g.len() - 1));
    assert(f.take(f.len() - 1).map_values(|l: Seq<char>| strip_cr(l)) =~= seq![strip_cr(ac)]
        + g.take(g.len() - 1).map_values(|l: Seq<char>| strip_cr(l)));
    assert(ac.drop_last() =~= a);
    assert(f.last() == g.last());
    if g.last().len() == 0 {
        assert(lines(a + seq!['\r', '\n'] + x) =~= seq![a] + lines(x));
    } else {
        assert(lines(a + seq!['\r', '\n'] + x) =~= seq![a] + lines(x));
    }
}

/// Lines joined by `\r\n` come back as the first lines.
proof fn lemma_lines_join(ls: Seq<Seq<char>>, x: Seq<char>)
    requires
        forall|i: int| 0 <= i < ls.len() ==> single_line(#[trigger] ls[i]),
    ensures
        lines(crlf_join(ls) + x) == ls + lines(x),
    decreases ls.len(),
{
    if ls.len() == 0 {
        assert(crlf_join(ls) + x =~= x);
        assert(ls + lines(x) =~= lines(x));
    } else {
        let rest = ls.drop_first();
        assert forall|i: int| 0 <= i < rest.len() implies single_line(#[trigger] rest[i]) by {
            assert(rest[i] == ls[i + 1]);
        }
        lemma_lines_join(rest, x);
        assert(single_line(ls[0]));
        assert(crlf_join(ls) + x =~= ls[0] + seq!['\r', '\n'] + (crlf_join(rest) + x));
        lemma_lines_cons(ls[0], crlf_join(rest) + x);
        assert(seq![ls[0]] + (rest + lines(x)) =~= ls + lines(x));
    }
}

/// The agent finds the `Authorization` header wherever it stands among the
/// headers: a shutdown request whose headers before it hold no other
/// `Authorization` line is accepted exactly when it carries the agent's secret.
pub proof fn lemma_authorization_after_headers(
    headers: Seq<Seq<char>>,
    token: Seq<char>,
    secret: Seq<char>,
)
    requires
        forall|i: int|
            0 <= i < headers.len() ==> single_line(#[trigger] headers[i]) && !is_auth_line(
                headers[i],
            ),
        single_line(token),
        token.len() > 0,
        !is_space(token.last()),
    ensures
        reply_for(
            "POST /shutdown HTTP/1.1\r\n"@ + crlf_join(headers) + "Authorization: Bearer "@ + token
                + "\r\n\r\n"@,
            secret,
        ) == if secret == token {
            AgentReply::ShutdownAccepted
        } else {
            AgentReply::Unauthorized
        },
{
    reveal_strlit("POST /shutdown HTTP/1.1\r\n");
    reveal_strlit("Authorization: Bearer ");
    reveal_strlit("\r\n\r\n");
    reveal_strlit("POST");
    reveal_strlit("/shutdown");
    reveal_strlit("GET");
    let post = seq!['P', 'O', 'S', 'T'];
    let path = seq!['/', 's', 'h', 'u', 't', 'd', 'o', 'w', 'n'];
    let version = seq!['H', 'T', 'T', 'P', '/', '1', '.', '1'];
    let l0 = post + seq![' '] + path + seq![' '] + version;
    let auth = seq!['A', 'u', 't', 'h', 'o', 'r', 'i', 'z', 'a', 't', 'i', 'o', 'n', ':', ' ', 'B', 'e', 'a', 'r', 'e', 'r', ' '] + token;
    let empty = Seq::<char>::empty();
    let crlf = seq!['\r', '\n'];
    let request = "POST /shutdown HTTP/1.1\r\n"@ + crlf_join(headers) + "Authorization: Bearer "@ + token
        + "\r\n\r\n"@;
    let tail = auth + crlf + (empty + crlf + empty);
    assert(request =~= l0 + crlf + (crlf_join(headers) + tail));
    // The lines of the request.
    assert(single_line(l0));
    assert(single_line(auth)) by {
        assert forall|i: int| 0 <= i < auth.len() implies auth[i] != '\n' by {
            if i >= 22 {
                assert(auth[i] == token[i - 22]);
            }
        }
    }
    assert(single_line(empty));
    assert(lines(empty) =~= Seq::<Seq<char>>::empty()) by {
        assert(fields(empty, Separator::Newline) == seq![empty]);
    }
    lemma_lines_cons(empty, empty);
    lemma_lines_cons(auth, empty + crlf + empty);
    lemma_lines_join(headers, tail);
    lemma_lines_cons(l0, crlf_join(headers) + tail);
    let ls = lines(request);
    assert(ls =~= seq![l0] + headers + seq![auth, empty]);
    // The request line.
    assert(first_line(request) == l0);
    lemma_three_words(post, path, version);
    assert("POST"@ =~= post);
    assert("/shutdown"@ =~= path);
    let parts = nonempty_fields(first_line(request), Separator::Whitespace);
    assert(parts == seq![post, path, version]);
    assert(!(parts[0] == "GET"@));
    // The `Authorization` line.
    reveal_strlit("authorization:");
    let lit = "authorization:"@;
    assert(lit =~= seq!['a', 'u', 't', 'h', 'o', 'r', 'i', 'z', 'a', 't', 'i', 'o', 'n', ':']);
    assert(crate::text::ascii_fold(l0[0]) != lit[0] as int);
    assert(!is_auth_line(l0));
    lemma_auth_line(token);
    let k = headers.len() + 1;
    assert(ls[k as int] == auth);
    assert forall|j: int| 0 <= j < k implies !is_auth_line(#[trigger] ls[j]) by {
        if j > 0 {
            assert(ls[j] == headers[j - 1]);
        }
    }
    lemma_first_auth_line_found(ls, k as int);
    assert(carries_token(auth, secret) == (secret == token));
    assert(crate::agent::is_authorized(request, secret) == (secret == token));
}

} // verus!
