use vstd::prelude::*;

use crate::request::{info_view, override_model_in_body, parse_request_info, request_info_of, RequestInfo};
use crate::json::{json_parse, json_text, Json};
use crate::store::{copy_string, RouteError};
use crate::text::{chars_of, contains_chars, contains_seq, push_str, str_eq, string_of_range};

verus! {

/// A header, its name in lower case.
pub type Header = (String, String);

/// The view of a header list: pairs of name and value.
pub open spec fn headers_view(h: Seq<Header>) -> Seq<(Seq<char>, Seq<char>)> {
    h.map_values(|p: Header| (p.0@, p.1@))
}

/// The value of the first header named `name`.
pub open spec fn header_value(h: Seq<(Seq<char>, Seq<char>)>, name: Seq<char>) -> Option<Seq<char>>
    decreases h.len(),
{
    if h.len() == 0 {
        None
    } else if h[0].0 == name {
        Some(h[0].1)
    } else {
        header_value(h.drop_first(), name)
    }
}

fn find_header(h: &[Header], name: &str) -> (r: Option<usize>)
    ensures
        match r {
            Some(i) => i < h@.len() && header_value(headers_view(h@), name@) == Some(h@[i as int].1@),
            None => header_value(headers_view(h@), name@) is None,
        },
{
    let mut i: usize = 0;
    assert(headers_view(h@).skip(0) =~= headers_view(h@));
    while i < h.len()
        invariant
            i <= h@.len(),
            header_value(headers_view(h@), name@) == header_value(
                headers_view(h@).skip(i as int),
                name@,
            ),
        decreases h.len() - i,
    {
        let ghost rest = headers_view(h@).skip(i as int);
        assert(rest[0] == (h@[i as int].0@, h@[i as int].1@));
        if str_eq(h[i].0.as_str(), name) {
            return Some(i);
        }
        assert(rest.drop_first() =~= headers_view(h@).skip(i + 1));
        i = i + 1;
    }
    None
}

/// The part of `s` before its first `-` (all of it where there is none).
pub open spec fn before_dash(s: Seq<char>) -> Seq<char> {
    if contains_seq(s, seq!['-']) {
        s.take(crate::text::first_index(s, seq!['-']))
    } else {
        s
    }
}

/// The session id that the headers carry: `x-session-id`, else `x-request-id`,
/// else the trace id of `sentry-trace`; an empty one counts as none.
pub open spec fn session_id_of(h: Seq<(Seq<char>, Seq<char>)>) -> Option<Seq<char>> {
    let raw = match header_value(h, "x-session-id"@) {
        Some(v) => Some(v),
        None => match header_value(h, "x-request-id"@) {
            Some(v) => Some(v),
            None => match header_value(h, "sentry-trace"@) {
                Some(v) => Some(before_dash(v)),
                None => None,
            },
        },
    };
    match raw {
        Some(v) => if v.len() > 0 {
            Some(v)
        } else {
            None
        },
        None => None,
    }
}

/// Derive the session id of a request from its headers.
pub fn extract_session_id(headers: &[Header]) -> (r: Option<String>)
    ensures
        match session_id_of(headers_view(headers@)) {
            Some(s) => r is Some && r->0@ == s,
            None => r is None,
        },
{
    let raw: Option<String> = match find_header(headers, "x-session-id") {
        Some(i) => Some(copy_string(&headers[i].1)),
        None => match find_header(headers, "x-request-id") {
            Some(i) => Some(copy_string(&headers[i].1)),
            None => match find_header(headers, "sentry-trace") {
                Some(i) => {
                    let v = chars_of(headers[i].1.as_str());
                    let dash = vec!['-'];
                    assert(dash@ =~= seq!['-']);
                    match crate::text::find_seq(&v, &dash) {
                        Some(p) => Some(string_of_range(&v, 0, p)),
                        None => Some(string_of_range(&v, 0, v.len())),
                    }
                },
                None => None,
            },
        },
    };
    match raw {
        Some(v) => {
            if v.as_str().is_empty() {
                None
            } else {
                Some(v)
            }
        },
        None => None,
    }
}

/// Headers that never cross the proxy.
pub open spec fn is_hop_by_hop(n: Seq<char>) -> bool {
    n == "host"@ || n == "content-length"@ || n == "connection"@ || n == "transfer-encoding"@ || n
        == "accept-encoding"@
}

/// Headers that carry credentials.
pub open spec fn is_auth_header(n: Seq<char>) -> bool {
    n == "x-api-key"@ || n == "authorization"@
}

/// Whether an upstream is the canonical provider, whose callers bring their own credentials.
pub open spec fn is_canonical(base_url: Seq<char>) -> bool {
    contains_seq(base_url, "api.anthropic.com"@)
}

/// Which inbound headers go upstream.
pub open spec fn forwarded(canonical: bool) -> spec_fn((Seq<char>, Seq<char>)) -> bool {
    |h: (Seq<char>, Seq<char>)| !is_hop_by_hop(h.0) && (canonical || !is_auth_header(h.0))
}

/// The headers sent upstream: the inbound ones that pass, in order, and the
/// stored key where the upstream is not the canonical one.
pub open spec fn outbound_headers(
    inbound: Seq<(Seq<char>, Seq<char>)>,
    canonical: bool,
    key: Seq<char>,
) -> Seq<(Seq<char>, Seq<char>)> {
    inbound.filter(forwarded(canonical)) + if !canonical && key.len() > 0 {
        seq![("x-api-key"@, key)]
    } else {
        Seq::empty()
    }
}

/// The credential headers of a header list.
pub open spec fn auth_headers(h: Seq<(Seq<char>, Seq<char>)>) -> Seq<(Seq<char>, Seq<char>)> {
    h.filter(|p: (Seq<char>, Seq<char>)| is_auth_header(p.0))
}

/// Whether `base_url` names the canonical provider.
pub fn is_canonical_upstream(base_url: &str) -> (r: bool)
    ensures
        r == is_canonical(base_url@),
{
    let b = chars_of(base_url);
    let p = chars_of("api.anthropic.com");
    contains_chars(&b, &p)
}

fn is_hop_by_hop_exec(n: &str) -> (r: bool)
    ensures
        r == is_hop_by_hop(n@),
{
    str_eq(n, "host") || str_eq(n, "content-length") || str_eq(n, "connection") || str_eq(
        n,
        "transfer-encoding",
    ) || str_eq(n, "accept-encoding")
}

fn is_auth_header_exec(n: &str) -> (r: bool)
    ensures
        r == is_auth_header(n@),
{
    str_eq(n, "x-api-key") || str_eq(n, "authorization")
}

proof fn lemma_filter_take_step<A>(s: Seq<A>, c: int, f: spec_fn(A) -> bool)
    requires
        0 <= c < s.len(),
    ensures
        s.take(c + 1).filter(f) == if f(s[c]) {
            s.take(c).filter(f).push(s[c])
        } else {
            s.take(c).filter(f)
        },
{
    reveal(Seq::filter);
    assert(s.take(c + 1).drop_last() =~= s.take(c));
    assert(s.take(c + 1).last() == s[c]);
}

/// Build the headers of the upstream request.
pub fn build_upstream_headers(inbound: &[Header], base_url: &str, api_key: &str) -> (r: Vec<Header>)
    ensures
        headers_view(r@) == outbound_headers(
            headers_view(inbound@),
            is_canonical(base_url@),
            api_key@,
        ),
{
    let canonical = is_canonical_upstream(base_url);
    let ghost inb = headers_view(inbound@);
    let ghost f = forwarded(canonical);
    let mut out: Vec<Header> = Vec::new();
    let mut i: usize = 0;
    while i < inbound.len()
        invariant
            i <= inbound@.len(),
            inb == headers_view(inbound@),
            f == forwarded(canonical),
            headers_view(out@) == inb.take(i as int).filter(f),
        decreases inbound.len() - i,
    {
        let name = inbound[i].0.as_str();
        let pass = !is_hop_by_hop_exec(name) && (canonical || !is_auth_header_exec(name));
        proof {
            lemma_filter_take_step(inb, i as int, f);
            assert(inb[i as int] == (inbound@[i as int].0@, inbound@[i as int].1@));
        }
        if pass {
            let ghost before = out@;
            out.push((copy_string(&inbound[i].0), copy_string(&inbound[i].1)));
            assert(headers_view(out@) =~= headers_view(before).push(inb[i as int]));
        }
        i = i + 1;
    }
    assert(inb.take(inbound@.len() as int) =~= inb);
    if !canonical && !api_key.is_empty() {
        let ghost before = out@;
        out.push((String::from_str("x-api-key"), String::from_str(api_key)));
        assert(headers_view(out@) =~= headers_view(before) + seq![("x-api-key"@, api_key@)]);
    } else {
        assert(headers_view(out@) =~= headers_view(out@) + Seq::<(Seq<char>, Seq<char>)>::empty());
    }
    out
}

proof fn lemma_filter_filter<A>(s: Seq<A>, f: spec_fn(A) -> bool, g: spec_fn(A) -> bool, h: spec_fn(
    A,
) -> bool)
    requires
        forall|x: A| #[trigger] h(x) == (f(x) && g(x)),
    ensures
        s.filter(f).filter(g) == s.filter(h),
    decreases s.len(),
{
    reveal(Seq::filter);
    if s.len() > 0 {
        lemma_filter_filter(s.drop_last(), f, g, h);
        let sub = s.drop_last().filter(f);
        if f(s.last()) {
            assert(sub.push(s.last()).drop_last() =~= sub);
        }
    }
}

proof fn lemma_filter_none<A>(s: Seq<A>, f: spec_fn(A) -> bool)
    requires
        forall|x: A| !#[trigger] f(x),
    ensures
        s.filter(f) == Seq::<A>::empty(),
    decreases s.len(),
{
    reveal(Seq::filter);
    if s.len() > 0 {
        lemma_filter_none(s.drop_last(), f);
    }
}

/// The credentials sent upstream are exactly the inbound ones where the
/// upstream is canonical, and exactly the stored key otherwise; never both.
pub proof fn lemma_auth_header_policy(
    inbound: Seq<(Seq<char>, Seq<char>)>,
    base_url: Seq<char>,
    key: Seq<char>,
)
    requires
        key.len() > 0,
    ensures
        auth_headers(outbound_headers(inbound, is_canonical(base_url), key)) == if is_canonical(
            base_url,
        ) {
            auth_headers(inbound)
        } else {
            seq![("x-api-key"@, key)]
        },
{
    reveal_strlit("x-api-key");
    reveal_strlit("authorization");
    reveal_strlit("host");
    reveal_strlit("content-length");
    reveal_strlit("connection");
    reveal_strlit("transfer-encoding");
    reveal_strlit("accept-encoding");
    let canonical = is_canonical(base_url);
    let a = |p: (Seq<char>, Seq<char>)| is_auth_header(p.0);
    let f = forwarded(canonical);
    let extra: Seq<(Seq<char>, Seq<char>)> = if !canonical && key.len() > 0 {
        seq![("x-api-key"@, key)]
    } else {
        Seq::empty()
    };
    Seq::filter_distributes_over_add(inbound.filter(f), extra, a);
    assert forall|n: Seq<char>| is_auth_header(n) implies !is_hop_by_hop(n) by {
        if n == "x-api-key"@ {
            assert(n.len() == 9);
        } else {
            assert(n.len() == 13);
        }
        assert("host"@.len() == 4);
        assert("content-length"@.len() == 14);
        assert("connection"@.len() == 10);
        assert("transfer-encoding"@.len() == 17);
        assert("accept-encoding"@.len() == 15);
    }
    if canonical {
        lemma_filter_filter(inbound, f, a, a);
        assert(extra.filter(a) =~= Seq::<(Seq<char>, Seq<char>)>::empty()) by {
            reveal(Seq::filter);
        }
        assert(inbound.filter(f).filter(a) + extra.filter(a) =~= inbound.filter(a));
    } else {
        let none = |p: (Seq<char>, Seq<char>)| false;
        lemma_filter_filter(inbound, f, a, none);
        lemma_filter_none(inbound, none);
        assert(extra.filter(a) =~= seq![("x-api-key"@, key)]) by {
            reveal(Seq::filter);
            assert(extra.drop_last() =~= Seq::<(Seq<char>, Seq<char>)>::empty());
        }
    }
}

/// The upstream URL of a request: the account's base URL, the path, and the
/// query where there is one.
pub open spec fn upstream_url_of(base_url: Seq<char>, path: Seq<char>, query: Seq<char>) -> Seq<char> {
    if query.len() == 0 {
        base_url + path
    } else {
        base_url + path + "?"@ + query
    }
}

/// Build the upstream URL of a request.
pub fn upstream_url(base_url: &str, path: &str, query: &str) -> (r: String)
    ensures
        r@ == upstream_url_of(base_url@, path@, query@),
{
    let mut out = String::from_str(base_url);
    push_str(&mut out, path);
    if !query.is_empty() {
        push_str(&mut out, "?");
        push_str(&mut out, query);
    }
    out
}

/// Response headers that are not passed back to the client.
pub open spec fn is_stripped_response_header(n: Seq<char>) -> bool {
    n == "transfer-encoding"@ || n == "connection"@
}

/// The upstream response headers that go back to the client, in order.
pub fn downstream_headers(upstream: &[Header]) -> (r: Vec<Header>)
    ensures
        headers_view(r@) == headers_view(upstream@).filter(
            |h: (Seq<char>, Seq<char>)| !is_stripped_response_header(h.0),
        ),
{
    let ghost all = headers_view(upstream@);
    let ghost f = |h: (Seq<char>, Seq<char>)| !is_stripped_response_header(h.0);
    let mut out: Vec<Header> = Vec::new();
    let mut i: usize = 0;
    while i < upstream.len()
        invariant
            i <= upstream@.len(),
            all == headers_view(upstream@),
            f == (|h: (Seq<char>, Seq<char>)| !is_stripped_response_header(h.0)),
            headers_view(out@) == all.take(i as int).filter(f),
        decreases upstream.len() - i,
    {
        proof {
            lemma_filter_take_step(all, i as int, f);
            assert(all[i as int] == (upstream@[i as int].0@, upstream@[i as int].1@));
        }
        let name = upstream[i].0.as_str();
        if !(str_eq(name, "transfer-encoding") || str_eq(name, "connection")) {
            let ghost before = out@;
            out.push((copy_string(&upstream[i].0), copy_string(&upstream[i].1)));
            assert(headers_view(out@) =~= headers_view(before).push(all[i as int]));
        }
        i = i + 1;
    }
    assert(all.take(upstream@.len() as int) =~= all);
    out
}

/// The internal path that registers an external mapping.
pub open spec fn is_mapping_request(path: Seq<char>, method: Seq<char>) -> bool {
    path == "/_swiftcast/threadcast/mapping"@ && method == "POST"@
}

/// Whether a request is for the internal mapping endpoint, handled by the proxy itself.
pub fn is_internal_mapping_request(path: &str, method: &str) -> (r: bool)
    ensures
        r == is_mapping_request(path@, method@),
{
    str_eq(path, "/_swiftcast/threadcast/mapping") && str_eq(method, "POST")
}

/// Why a proxied request failed, as the client sees it.
#[derive(Debug, Clone, Copy, PartialEq, Eq, Structural)]
pub enum ProxyError {
    /// The body could not be read.
    BadRequest,
    /// The body is over the cap.
    PayloadTooLarge,
    /// The store or the key vault failed.
    StoreError,
    /// The account has no stored key.
    KeyNotFound,
    /// No account is active, or the routed account is gone.
    NoActiveAccount,
    /// The upstream could not be reached.
    UpstreamUnreachable,
}

impl ProxyError {
    /// The HTTP status the client receives.
    pub fn status_code(&self) -> (r: u16)
        ensures
            r == match self {
                ProxyError::BadRequest => 400u16,
                ProxyError::PayloadTooLarge => 413u16,
                ProxyError::StoreError => 500u16,
                ProxyError::KeyNotFound => 500u16,
                ProxyError::NoActiveAccount => 503u16,
                ProxyError::UpstreamUnreachable => 502u16,
            },
    {
        match self {
            ProxyError::BadRequest => 400,
            ProxyError::PayloadTooLarge => 413,
            ProxyError::StoreError => 500,
            ProxyError::KeyNotFound => 500,
            ProxyError::NoActiveAccount => 503,
            ProxyError::UpstreamUnreachable => 502,
        }
    }

    /// The error a routing failure becomes.
    pub fn from_route(e: RouteError) -> (r: ProxyError)
        ensures
            r == ProxyError::NoActiveAccount,
    {
        match e {
            RouteError::NoActiveAccount => ProxyError::NoActiveAccount,
            RouteError::AccountMissing => ProxyError::NoActiveAccount,
        }
    }
}

/// Accept a request body of `len` bytes, or refuse it as too large.
pub fn check_body_size(len: usize) -> (r: Result<(), ProxyError>)
    ensures
        r is Ok <==> len <= 104857600,
        r is Err ==> r == Err::<(), ProxyError>(ProxyError::PayloadTooLarge),
{
    if crate::body_within_limit(len) {
        Ok(())
    } else {
        Err(ProxyError::PayloadTooLarge)
    }
}

/// Everything needed to issue a request upstream.
pub struct UpstreamRequest {
    pub url: String,
    pub headers: Vec<Header>,
    pub body: Vec<u8>,
    /// The model and the user-message excerpt read from the body.
    pub info: RequestInfo,
}

/// Prepare the upstream request for a routed account: its URL, the headers
/// under the credential policy, and the body, moved onto the override model
/// where the session has one.
pub fn prepare_upstream(
    base_url: &str,
    path: &str,
    query: &str,
    inbound: &[Header],
    body: &[u8],
    api_key: &str,
    model_override: Option<&str>,
) -> (r: UpstreamRequest)
    ensures
        r.url@ == upstream_url_of(base_url@, path@, query@),
        headers_view(r.headers@) == outbound_headers(
            headers_view(inbound@),
            is_canonical(base_url@),
            api_key@,
        ),
        match model_override {
            None => r.body@ == body@ && info_view(r.info) == request_info_of(body@),
            Some(m) => match json_parse(body@) {
                Some(j) => if j is Object {
                    exists|after: Json|
                        crate::request::model_set(j, after, m@) && r.body@ == json_text(after)
                            && info_view(r.info) == (m@, request_info_of(body@).1)
                } else {
                    r.body@ == body@ && info_view(r.info) == (m@, request_info_of(body@).1)
                },
                None => r.body@ == body@ && info_view(r.info) == (
                    Seq::<char>::empty(),
                    None::<Seq<char>>,
                ),
            },
        },
{
    let url = upstream_url(base_url, path, query);
    let headers = build_upstream_headers(inbound, base_url, api_key);
    match model_override {
        Some(m) => {
            let (b, info) = override_model_in_body(body, m);
            UpstreamRequest { url, headers, body: b, info }
        },
        None => {
            let info = parse_request_info(body);
            UpstreamRequest { url, headers, body: vstd::slice::slice_to_vec(body), info }
        },
    }
}

} // verus!
