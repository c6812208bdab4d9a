//! Reading a proxy client's WebSocket request: the session route
//! `/vnc/<session_id>?secret=<secret>` and the page origin it came from.

use vstd::prelude::*;

use crate::text::{
    chars_of, find_char, first_index, lemma_first_index_is, lemma_first_index_props, range_eq,
    range_starts_with, substring,
};

verus! {

broadcast use vstd::string::group_string_axioms;

/// Longest session id or secret, in characters, that a request may carry.
pub const MAX_TOKEN_LEN: usize = 64;

/// A character that may stand in a session id or secret: an ASCII hex digit or `-`.
pub open spec fn is_token_char(c: char) -> bool {
    ||| ('0' <= c && c <= '9')
    ||| ('a' <= c && c <= 'f')
    ||| ('A' <= c && c <= 'F')
    ||| c == '-'
}

/// Every character of `s` may stand in a token, and there are at most
/// `MAX_TOKEN_LEN` of them. (Such text is ASCII, so its length in
/// characters is its length in bytes.)
pub open spec fn is_token(s: Seq<char>) -> bool {
    &&& s.len() <= MAX_TOKEN_LEN
    &&& forall|i: int| 0 <= i < s.len() ==> is_token_char(#[trigger] s[i])
}

/// The request path and query: the text before and after the first `?`
/// (an empty query when there is no `?`).
pub open spec fn split_query(uri: Seq<char>) -> (Seq<char>, Seq<char>) {
    let q = first_index(uri, '?');
    if q < uri.len() {
        (uri.take(q as int), uri.skip(q + 1int))
    } else {
        (uri, Seq::empty())
    }
}

/// The value of the first `secret=` parameter of a query: the query is cut
/// at each `&`, pieces without `=` are passed over, and a piece whose text
/// before its first `=` is `secret` gives the text after that `=`.
pub open spec fn secret_param(query: Seq<char>) -> Option<Seq<char>>
    decreases query.len(),
{
    let a = first_index(query, '&');
    let pair = query.take(a as int);
    let e = first_index(pair, '=');
    if e < pair.len() && pair.take(e as int) == "secret"@ {
        Some(pair.skip(e + 1int))
    } else if a < query.len() {
        secret_param(query.skip(a + 1int))
    } else {
        None
    }
}

/// What a request URI `/vnc/<session_id>?...&secret=<secret>&...` names:
/// the session id and secret, or why the request is refused.
pub open spec fn session_route(uri: Seq<char>) -> Result<(Seq<char>, Seq<char>), Seq<char>> {
    let path = split_query(uri).0;
    let query = split_query(uri).1;
    let prefix = "/vnc/"@;
    if !(prefix.len() <= path.len() && path.take(prefix.len() as int) == prefix) {
        Err("websocket path must be /vnc/<session_id>"@)
    } else {
        let id = path.skip(prefix.len() as int);
        if !(id.len() > 0 && is_token(id)) {
            Err("invalid proxy session id"@)
        } else {
            match secret_param(query) {
                None => Err("proxy session secret is required"@),
                Some(secret) => if !is_token(secret) {
                    Err("invalid proxy session secret"@)
                } else {
                    Ok((id, secret))
                },
            }
        }
    }
}

/// A page origin that may open a proxy connection: none at all, the app's
/// own WebView origins, or a page served from the local machine.
pub open spec fn origin_allowed(origin: Option<Seq<char>>) -> bool {
    match origin {
        None => true,
        Some(o) => {
            ||| o == "tauri://localhost"@
            ||| o == "http://tauri.localhost"@
            ||| ("http://127.0.0.1:"@.len() <= o.len() && o.take(
                "http://127.0.0.1:"@.len() as int,
            ) == "http://127.0.0.1:"@)
            ||| ("http://localhost:"@.len() <= o.len() && o.take("http://localhost:"@.len() as int)
                == "http://localhost:"@)
        },
    }
}

/// The request path that reaches session `id` with `secret`:
/// `/vnc/<id>?secret=<secret>`.
pub open spec fn session_path(id: Seq<char>, secret: Seq<char>) -> Seq<char> {
    "/vnc/"@ + id + "?secret="@ + secret
}

/// The route that a session hands out is read back as that session: a
/// request for `/vnc/<id>?secret=<secret>`, with a non-empty token `id` and
/// a token `secret`, names exactly `id` and `secret`.
pub proof fn lemma_session_route_roundtrip(id: Seq<char>, secret: Seq<char>)
    requires
        id.len() > 0,
        is_token(id),
        is_token(secret),
    ensures
        session_route(session_path(id, secret)) == Ok::<_, Seq<char>>((id, secret)),
{
    reveal_strlit("/vnc/");
    reveal_strlit("?secret=");
    reveal_strlit("secret");
    reveal_strlit("secret=");
    let u = session_path(id, secret);
    let q: int = 5 + id.len() as int;
    assert forall|j: int| 0 <= j < q implies u[j] != '?' by {
        if j >= 5 {
            assert(u[j] == id[j - 5]);
            assert(is_token_char(id[j - 5]));
        }
    }
    assert(u[q] == '?');
    lemma_first_index_is(u, '?', q);
    assert(split_query(u).0 =~= "/vnc/"@ + id);
    let query = split_query(u).1;
    assert(query =~= "secret="@ + secret);
    assert forall|j: int| 0 <= j < query.len() implies query[j] != '&' by {
        if j >= 7 {
            assert(query[j] == secret[j - 7]);
            assert(is_token_char(secret[j - 7]));
        }
    }
    lemma_first_index_is(query, '&', query.len() as int);
    assert(query.take(query.len() as int) =~= query);
    lemma_first_index_is(query, '=', 6);
    assert(query.take(6) =~= "secret"@);
    assert(query.skip(7) =~= secret);
    assert(("/vnc/"@ + id).take(5) =~= "/vnc/"@);
    assert(("/vnc/"@ + id).skip(5) =~= id);
}

fn is_token_char_exec(c: char) -> (b: bool)
    ensures
        b == is_token_char(c),
{
    ('0' <= c && c <= '9') || ('a' <= c && c <= 'f') || ('A' <= c && c <= 'F') || c == '-'
}

/// Whether `v[lo..hi]` is a token.
fn range_is_token(v: &Vec<char>, lo: usize, hi: usize) -> (b: bool)
    requires
        lo <= hi <= v.len(),
    ensures
        b == is_token(v@.subrange(lo as int, hi as int)),
{
    let ghost t = v@.subrange(lo as int, hi as int);
    if hi - lo > MAX_TOKEN_LEN {
        return false;
    }
    let mut i = lo;
    while i < hi
        invariant
            lo <= i <= hi <= v.len(),
            t == v@.subrange(lo as int, hi as int),
            forall|j: int| lo <= j < i ==> is_token_char(v@[j]),
        decreases hi - i,
    {
        if !is_token_char_exec(v[i]) {
            assert(!is_token_char(t[i - lo]));
            return false;
        }
        i = i + 1;
    }
    assert forall|k: int| 0 <= k < t.len() implies is_token_char(#[trigger] t[k]) by {
        assert(t[k] == v@[lo + k]);
    }
    true
}

/// Bounds `[lo, hi)` in `v` of the value of the first `secret=` parameter
/// of the query `v[start..end]`, if it has one.
fn find_secret(v: &Vec<char>, start: usize, end: usize) -> (r: Option<(usize, usize)>)
    requires
        start <= end <= v.len(),
    ensures
        match r {
            None => secret_param(v@.subrange(start as int, end as int)) is None,
            Some((lo, hi)) => start <= lo <= hi <= end && secret_param(
                v@.subrange(start as int, end as int),
            ) == Some(v@.subrange(lo as int, hi as int)),
        },
{
    let key = chars_of("secret");
    let mut p = start;
    loop
        invariant
            start <= p <= end <= v.len(),
            key@ == "secret"@,
            secret_param(v@.subrange(start as int, end as int)) == secret_param(
                v@.subrange(p as int, end as int),
            ),
        decreases end - p,
    {
        let ghost q = v@.subrange(p as int, end as int);
        let a = find_char(v, p, end, '&');
        let e = find_char(v, p, a, '=');
        proof {
            assert(q.take(a - p) =~= v@.subrange(p as int, a as int));
            let pair = v@.subrange(p as int, a as int);
            assert(pair.take(e - p) =~= v@.subrange(p as int, e as int));
            if e < a {
                assert(pair.skip(e - p + 1) =~= v@.subrange(e + 1, a as int));
            }
            if a < end {
                assert(q.skip(a - p + 1) =~= v@.subrange(a + 1, end as int));
            }
        }
        if e < a && range_eq(v, p, e, &key) {
            return Some((e + 1, a));
        }
        if a >= end {
            return None;
        }
        p = a + 1;
    }
}

/// Reads the session id and secret from a WebSocket request URI of the form
/// `/vnc/<session_id>?secret=<secret>`, refusing a malformed route, id or
/// secret.
pub fn extract_session_request(uri: &str) -> (r: Result<(String, String), String>)
    ensures
        match r {
            Ok((id, secret)) => session_route(uri@) == Ok::<_, Seq<char>>((id@, secret@)),
            Err(e) => session_route(uri@) == Err::<(Seq<char>, Seq<char>), _>(e@),
        },
{
    let v = chars_of(uri);
    let n = v.len();
    let q = find_char(&v, 0, n, '?');
    let ghost u = uri@;
    proof {
        assert(v@.subrange(0, n as int) =~= u);
        assert(v@.subrange(0, q as int) =~= split_query(u).0);
    }
    let query_start = if q < n {
        q + 1
    } else {
        n
    };
    proof {
        assert(v@.subrange(query_start as int, n as int) =~= split_query(u).1);
    }
    let prefix = chars_of("/vnc/");
    proof {
        if prefix@.len() <= q {
            assert(v@.subrange(0, prefix@.len() as int) =~= split_query(u).0.take(
                prefix@.len() as int,
            ));
        }
    }
    if !range_starts_with(&v, 0, q, &prefix) {
        return Err("websocket path must be /vnc/<session_id>".to_string());
    }
    let id_start = prefix.len();
    proof {
        assert(v@.subrange(id_start as int, q as int) =~= split_query(u).0.skip(
            "/vnc/"@.len() as int,
        ));
    }
    assert(v@.subrange(id_start as int, q as int).len() == q - id_start);
    if id_start == q || !range_is_token(&v, id_start, q) {
        return Err("invalid proxy session id".to_string());
    }
    match find_secret(&v, query_start, n) {
        None => Err("proxy session secret is required".to_string()),
        Some((lo, hi)) => {
            if !range_is_token(&v, lo, hi) {
                return Err("invalid proxy session secret".to_string());
            }
            let id = substring(uri, id_start, q);
            let secret = substring(uri, lo, hi);
            Ok((id, secret))
        },
    }
}

/// Whether `a` and `b` hold the same text.
fn chars_eq(a: &Vec<char>, b: &Vec<char>) -> (r: bool)
    ensures
        r == (a@ == b@),
{
    let r = range_eq(a, 0, a.len(), b);
    assert(a@.subrange(0, a.len() as int) =~= a@);
    r
}

/// Whether a WebSocket client whose request carried the `Origin` header
/// `origin` (or none) may use the proxy.
pub fn is_allowed_origin(origin: Option<&str>) -> (b: bool)
    ensures
        b == origin_allowed(
            match origin {
                Some(o) => Some(o@),
                None => None,
            },
        ),
{
    let o = match origin {
        None => {
            return true;
        },
        Some(o) => o,
    };
    let v = chars_of(o);
    let n = v.len();
    assert(v@.subrange(0, n as int) =~= v@);
    if chars_eq(&v, &chars_of("tauri://localhost")) || chars_eq(
        &v,
        &chars_of("http://tauri.localhost"),
    ) {
        return true;
    }
    range_starts_with(&v, 0, n, &chars_of("http://127.0.0.1:")) || range_starts_with(
        &v,
        0,
        n,
        &chars_of("http://localhost:"),
    )
}

/// What a client's WebSocket handshake names, once it is done: a request
/// from a page origin that may not use the proxy is refused; otherwise the
/// session id and secret are read from the request URI.
pub fn admit_request(origin: Option<&str>, uri: &str) -> (r: Result<(String, String), String>)
    ensures
        !origin_allowed(
            match origin {
                Some(o) => Some(o@),
                None => None,
            },
        ) ==> (r matches Err(e) && e@ == "websocket origin is not allowed"@),
        origin_allowed(
            match origin {
                Some(o) => Some(o@),
                None => None,
            },
        ) ==> match r {
            Ok((id, secret)) => session_route(uri@) == Ok::<_, Seq<char>>((id@, secret@)),
            Err(e) => session_route(uri@) == Err::<(Seq<char>, Seq<char>), _>(e@),
        },
{
    if !is_allowed_origin(origin) {
        return Err("websocket origin is not allowed".to_string());
    }
    extract_session_request(uri)
}

/// A request without an origin, the app's own WebView origins, and any
/// origin that begins with `http://127.0.0.1:` or `http://localhost:`,
/// whatever port follows, may use the proxy.
pub proof fn lemma_local_origins_allowed(port_text: Seq<char>)
    ensures
        origin_allowed(None),
        origin_allowed(Some("tauri://localhost"@)),
        origin_allowed(Some("http://tauri.localhost"@)),
        origin_allowed(Some("http://127.0.0.1:"@ + port_text)),
        origin_allowed(Some("http://localhost:"@ + port_text)),
{
    assert(("http://127.0.0.1:"@ + port_text).take("http://127.0.0.1:"@.len() as int)
        =~= "http://127.0.0.1:"@);
    assert(("http://localhost:"@ + port_text).take("http://localhost:"@.len() as int)
        =~= "http://localhost:"@);
}

/// Every ASCII hex digit of either case and `-` may stand in a token; text of
/// at most 64 such characters is a token, and longer text is not.
pub proof fn lemma_token_chars(s: Seq<char>)
    ensures
        forall|c: char|
            ('0' <= c && c <= '9') || ('a' <= c && c <= 'f') || ('A' <= c && c <= 'F') || c
                == '-' ==> #[trigger] is_token_char(c),
        (forall|i: int|
            0 <= i < s.len() ==> ('0' <= #[trigger] s[i] && s[i] <= '9') || ('a' <= s[i] && s[i]
                <= 'f') || ('A' <= s[i] && s[i] <= 'F') || s[i] == '-') ==> (is_token(s)
            <==> s.len() <= 64),
{
}

} // verus!
