//! The HTTP client's decisions around the network: where a request goes,
//! which headers it carries, how redirects are followed, and the timing of
//! its phases.

use vstd::prelude::*;
use crate::models::Header;
use crate::http::opt_text;
use crate::text::{chars_of, string_of, append_chars, str_eq, to_string_of, concat2, has_prefix, starts_with_chars,
    all_ws, is_blank, dec_chars, dec_digits};

verus! {

// ---------------------------------------------------------------- URLs

/// The parts of a parsed URL: scheme, host, port (or the scheme's known
/// default), path and query.
pub type UrlPartsView = (Seq<char>, Option<Seq<char>>, Option<u16>, Seq<char>, Option<Seq<char>>);

/// What `url::Url::parse` makes of `s`: its parts, or the text of the
/// parse error.
pub uninterp spec fn url_parts_of(s: Seq<char>) -> Result<UrlPartsView, Seq<char>>;

/// What `Url::join` makes of `location` against the parsed `base`: the new
/// URL's text, or the text of the parse error.
pub uninterp spec fn url_join_of(base: Seq<char>, location: Seq<char>) -> Result<Seq<char>, Seq<char>>;

/// The parts of a URL, as plain values.
#[derive(Debug)]
pub struct UrlParts {
    pub scheme: String,
    pub host: Option<String>,
    pub port: Option<u16>,
    pub path: String,
    pub query: Option<String>,
}

pub open spec fn parts_view(p: UrlParts) -> UrlPartsView {
    (p.scheme@, opt_text(p.host), p.port, p.path@, opt_text(p.query))
}

/// `url::Url::parse`, read out with `scheme`, `host_str`,
/// `port_or_known_default`, `path` and `query`.
#[verifier::external_body]
pub(crate) fn parse_url(s: &str) -> (r: Result<UrlParts, String>)
    ensures
        match r {
            Ok(p) => url_parts_of(s@) == Ok::<UrlPartsView, Seq<char>>(parts_view(p)),
            Err(e) => url_parts_of(s@) == Err::<UrlPartsView, Seq<char>>(e@),
        },
{
    match url::Url::parse(s) {
        Ok(u) => Ok(UrlParts {
            scheme: u.scheme().to_string(),
            host: u.host_str().map(|h| h.to_string()),
            port: u.port_or_known_default(),
            path: u.path().to_string(),
            query: u.query().map(|q| q.to_string()),
        }),
        Err(e) => Err(e.to_string()),
    }
}

/// `Url::join` of `location` on the parsed `base`.
#[verifier::external_body]
fn join_url_text(base: &str, location: &str) -> (r: Result<String, String>)
    requires
        url_parts_of(base@) is Ok,
    ensures
        match r {
            Ok(t) => url_join_of(base@, location@) == Ok::<Seq<char>, Seq<char>>(t@),
            Err(e) => url_join_of(base@, location@) == Err::<Seq<char>, Seq<char>>(e@),
        },
{
    match url::Url::parse(base) {
        Ok(b) => b.join(location).map(|u| u.to_string()).map_err(|e| e.to_string()),
        Err(e) => Err(e.to_string()),
    }
}

/// Where a redirect leads: an absolute `http(s)://` location as it is,
/// otherwise the location resolved against the current URL.
pub open spec fn redirect_spec(base: Seq<char>, location: Seq<char>) -> Result<Seq<char>, Seq<char>> {
    if has_prefix(location, "http://"@) || has_prefix(location, "https://"@) {
        Ok(location)
    } else {
        match url_parts_of(base) {
            Err(e) => Err("解析基础 URL 失败: "@ + e),
            Ok(_) => match url_join_of(base, location) {
                Ok(u) => Ok(u),
                Err(e) => Err("解析重定向地址失败: "@ + e),
            },
        }
    }
}

/// Resolves a redirect's `Location`.
pub fn resolve_redirect(base: &str, location: &str) -> (r: Result<String, String>)
    ensures
        match redirect_spec(base@, location@) {
            Ok(u) => r is Ok && r->Ok_0@ == u,
            Err(e) => r is Err && r->Err_0@ == e,
        },
{
    let l = chars_of(location);
    if starts_with_chars(&l, "http://") || starts_with_chars(&l, "https://") {
        return Ok(to_string_of(location));
    }
    match parse_url(base) {
        Err(e) => Err(concat2("解析基础 URL 失败: ", e.as_str())),
        Ok(_) => match join_url_text(base, location) {
            Ok(u) => Ok(u),
            Err(e) => Err(concat2("解析重定向地址失败: ", e.as_str())),
        },
    }
}

// ---------------------------------------------------------------- the target

/// Where a request goes.
#[derive(Debug)]
pub struct RequestTarget {
    pub https: bool,
    pub host: String,
    pub port: u16,
    /// `host:port`, for the `Host` header.
    pub authority: String,
    /// The path (`/` when empty) and the query after `?`.
    pub uri_path: String,
    /// Whether the method carries a body (all but GET and HEAD).
    pub has_body: bool,
}

/// The target of a request to `url`, or why there is none: the URL must
/// parse, be `http` or `https`, and have a host and a port.
pub open spec fn target_spec(method: Seq<char>, url: Seq<char>) -> Result<(bool, Seq<char>, u16, Seq<char>, Seq<char>, bool), Seq<char>> {
    match url_parts_of(url) {
        Err(e) => Err("URL 解析失败: "@ + e),
        Ok((scheme, host, port, path, query)) => if scheme != "http"@ && scheme != "https"@ {
            Err("不支持的协议: "@ + scheme)
        } else if host is None {
            Err("URL 缺少主机名"@)
        } else if port is None {
            Err("无法确定端口"@)
        } else {
            let h = host->Some_0;
            let p = port->Some_0;
            let pth = if path.len() == 0 { "/"@ } else { path };
            let q = match query {
                Some(q) => seq!['?'] + q,
                None => Seq::empty(),
            };
            Ok((scheme == "https"@, h, p, h + seq![':'] + dec_digits(p as nat), pth + q, !(method == "GET"@ || method == "HEAD"@)))
        },
    }
}

pub open spec fn target_view(t: RequestTarget) -> (bool, Seq<char>, u16, Seq<char>, Seq<char>, bool) {
    (t.https, t.host@, t.port, t.authority@, t.uri_path@, t.has_body)
}

/// Works out where a request goes.
pub fn plan_target(method: &str, url: &str) -> (r: Result<RequestTarget, String>)
    ensures
        match target_spec(method@, url@) {
            Ok(t) => r is Ok && target_view(r->Ok_0) == t,
            Err(e) => r is Err && r->Err_0@ == e,
        },
{
    let has_body = !(str_eq(method, "GET") || str_eq(method, "HEAD"));
    let parts = match parse_url(url) {
        Ok(p) => p,
        Err(e) => {
            return Err(concat2("URL 解析失败: ", e.as_str()));
        },
    };
    let https = str_eq(parts.scheme.as_str(), "https");
    if !str_eq(parts.scheme.as_str(), "http") && !https {
        return Err(concat2("不支持的协议: ", parts.scheme.as_str()));
    }
    let host = match parts.host {
        Some(h) => h,
        None => {
            return Err(to_string_of("URL 缺少主机名"));
        },
    };
    let port = match parts.port {
        Some(p) => p,
        None => {
            return Err(to_string_of("无法确定端口"));
        },
    };
    let mut authority = chars_of(host.as_str());
    authority.push(':');
    append_chars(&mut authority, &dec_chars(port as u64));
    let mut uri = if parts.path.as_str().is_empty() {
        chars_of("/")
    } else {
        chars_of(parts.path.as_str())
    };
    match &parts.query {
        Some(q) => {
            uri.push('?');
            append_chars(&mut uri, &chars_of(q.as_str()));
        },
        None => {},
    }
    proof {
        reveal_strlit("/");
    }
    let ghost qv = match parts.query {
        Some(q) => seq!['?'] + q@,
        None => Seq::<char>::empty(),
    };
    assert(uri@ =~= (if parts.path@.len() == 0 { "/"@ } else { parts.path@ }) + qv);
    Ok(RequestTarget {
        https,
        host,
        port,
        authority: string_of(&authority),
        uri_path: string_of(&uri),
        has_body,
    })
}

// ---------------------------------------------------------------- headers and methods

/// The methods the client knows; any other is sent as GET.
#[derive(Debug, Clone, Copy, PartialEq, Eq, Structural)]
pub enum HttpMethod {
    Get,
    Post,
    Put,
    Delete,
    Patch,
    Head,
    Options,
}

pub open spec fn method_of(m: Seq<char>) -> HttpMethod {
    if m == "POST"@ {
        HttpMethod::Post
    } else if m == "PUT"@ {
        HttpMethod::Put
    } else if m == "DELETE"@ {
        HttpMethod::Delete
    } else if m == "PATCH"@ {
        HttpMethod::Patch
    } else if m == "HEAD"@ {
        HttpMethod::Head
    } else if m == "OPTIONS"@ {
        HttpMethod::Options
    } else {
        HttpMethod::Get
    }
}

/// The method to send.
pub fn http_method(m: &str) -> (r: HttpMethod)
    ensures
        r == method_of(m@),
{
    if str_eq(m, "POST") {
        HttpMethod::Post
    } else if str_eq(m, "PUT") {
        HttpMethod::Put
    } else if str_eq(m, "DELETE") {
        HttpMethod::Delete
    } else if str_eq(m, "PATCH") {
        HttpMethod::Patch
    } else if str_eq(m, "HEAD") {
        HttpMethod::Head
    } else if str_eq(m, "OPTIONS") {
        HttpMethod::Options
    } else {
        HttpMethod::Get
    }
}

/// The custom headers sent: the enabled ones with a non-blank name, in
/// order.
pub open spec fn sendable_headers(hs: Seq<Header>) -> Seq<(Seq<char>, Seq<char>)>
    decreases hs.len(),
{
    if hs.len() == 0 {
        Seq::empty()
    } else {
        let h = hs.last();
        let rest = sendable_headers(hs.drop_last());
        if h.enabled && !all_ws(h.key@) {
            rest.push((h.key@, h.value@))
        } else {
            rest
        }
    }
}

pub open spec fn pair_views(s: Seq<(String, String)>) -> Seq<(Seq<char>, Seq<char>)> {
    s.map_values(|p: (String, String)| (p.0@, p.1@))
}

/// The custom headers of a request.
pub fn request_header_pairs(headers: &Vec<Header>) -> (r: Vec<(String, String)>)
    ensures
        pair_views(r@) == sendable_headers(headers@),
{
    let mut r: Vec<(String, String)> = Vec::new();
    for i in 0..headers.len()
        invariant
            pair_views(r@) == sendable_headers(headers@.take(i as int)),
    {
        assert(headers@.take(i + 1).drop_last() =~= headers@.take(i as int));
        assert(headers@.take(i + 1).last() == headers@[i as int]);
        let h = &headers[i];
        if h.enabled && !is_blank(h.key.as_str()) {
            let ghost before = r@;
            r.push((h.key.clone(), h.value.clone()));
            assert(pair_views(r@) =~= pair_views(before).push((h.key@, h.value@)));
        }
    }
    assert(headers@.take(headers@.len() as int) =~= headers@);
    r
}

/// All headers of a request on the wire, in order: `Host`, the body's
/// `Content-Type` when the body has one, then the custom headers.
pub open spec fn wire_headers(authority: Seq<char>, content_type: Option<Seq<char>>, hs: Seq<Header>) -> Seq<(Seq<char>, Seq<char>)> {
    let ct: Seq<(Seq<char>, Seq<char>)> = match content_type {
        Some(c) => seq![("content-type"@, c)],
        None => Seq::empty(),
    };
    seq![("host"@, authority)] + ct + sendable_headers(hs)
}

/// The headers sent with a request to `authority`.
pub fn request_header_list(authority: &str, content_type: Option<&str>, headers: &Vec<Header>) -> (r: Vec<(String, String)>)
    ensures
        pair_views(r@) == wire_headers(authority@, match content_type {
            Some(c) => Some(c@),
            None => None,
        }, headers@),
{
    let mut r: Vec<(String, String)> = Vec::new();
    r.push((to_string_of("host"), to_string_of(authority)));
    match content_type {
        Some(c) => {
            r.push((to_string_of("content-type"), to_string_of(c)));
        },
        None => {},
    }
    let ghost first = pair_views(r@);
    let custom = request_header_pairs(headers);
    let ghost mid = pair_views(custom@);
    for i in 0..custom.len()
        invariant
            pair_views(r@) == first + mid.take(i as int),
            mid == pair_views(custom@),
    {
        let ghost before = r@;
        r.push((custom[i].0.clone(), custom[i].1.clone()));
        assert(pair_views(r@) =~= pair_views(before).push(mid[i as int]));
        assert(mid.take(i + 1) =~= mid.take(i as int).push(mid[i as int]));
    }
    assert(mid.take(custom@.len() as int) =~= mid);
    let ghost ct: Seq<(Seq<char>, Seq<char>)> = match content_type {
        Some(c) => seq![("content-type"@, c@)],
        None => Seq::empty(),
    };
    assert(first =~= seq![("host"@, authority@)] + ct);
    r
}

// ---------------------------------------------------------------- redirects

/// The largest number of redirects followed.
pub const MAX_REDIRECTS: u32 = 10;

/// What to do after a response.
#[derive(Debug, PartialEq, Eq, Structural)]
pub enum RedirectStep {
    /// The response is the answer.
    Done,
    /// Follow the `Location` header.
    Follow,
}

/// A 3xx response with a `Location` is followed; any other is the answer.
pub fn redirect_step(status: u16, has_location: bool) -> (r: RedirectStep)
    ensures
        r == (if 300 <= status < 400 && has_location { RedirectStep::Follow } else { RedirectStep::Done }),
{
    if 300 <= status && status < 400 && has_location {
        RedirectStep::Follow
    } else {
        RedirectStep::Done
    }
}

/// Before each request of a chain: more than ten redirects already
/// followed is an error.
pub fn check_redirect_count(redirects: u32) -> (r: Result<(), String>)
    ensures
        r is Ok <==> redirects <= MAX_REDIRECTS,
        r matches Err(e) ==> e@ == "重定向次数过多"@,
{
    if redirects > MAX_REDIRECTS {
        Err(to_string_of("重定向次数过多"))
    } else {
        Ok(())
    }
}

// ---------------------------------------------------------------- timing

/// How long each phase of a request took, in milliseconds.
#[derive(Debug, Clone, Copy, Default)]
pub struct RequestTiming {
    pub dns_ms: u64,
    pub connect_ms: u64,
    pub tls_ms: u64,
    pub ttfb_ms: u64,
    pub download_ms: u64,
    pub total_ms: u64,
}

/// The total up to the first byte: DNS, connection, TLS and waiting.
pub fn with_total(t: RequestTiming) -> (r: RequestTiming)
    requires
        t.dns_ms + t.connect_ms + t.tls_ms + t.ttfb_ms <= u64::MAX,
    ensures
        r.total_ms == t.dns_ms + t.connect_ms + t.tls_ms + t.ttfb_ms,
        r.dns_ms == t.dns_ms && r.connect_ms == t.connect_ms && r.tls_ms == t.tls_ms && r.ttfb_ms == t.ttfb_ms,
        r.download_ms == t.download_ms,
{
    RequestTiming { total_ms: t.dns_ms + t.connect_ms + t.tls_ms + t.ttfb_ms, ..t }
}

/// The HTTP client (its network work is done by the application layer).
pub struct HttpClientService;

impl HttpClientService {
    pub fn new() -> (r: Self) {
        HttpClientService
    }
}

} // verus!
