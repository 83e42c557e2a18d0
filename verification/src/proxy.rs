//! The reverse proxy: routes, listeners, what is done with a request and its answer,
//! and the files of a directory that is served.

use vstd::prelude::*;
use vstd::string::*;
use vstd::utf8::encode_utf8;
use crate::acme::ChallengeStore;
use crate::metrics::{HostLabels, RequestLabels};
use crate::number::{decimal, law_parse_decimal, number_text, parse_u64, parsed};
use crate::path::{
    components, dot, dot_dot, extension, extension_of, is_absolute, is_component, is_inside,
    is_under, join, joined, law_join_inside, law_join_name, lemma_no_way_back, under,
};
use crate::text::{
    before, before_char, cat2, cat3, copy_opt, find, lemma_after_last, lemma_find_is,
    lemma_split_whole, opt_text, same, slice, split, starts_with, trim_front, trim_start, CharClass,
};
use crate::tls::{
    der_view, load_pair, pair_loaded, CertStoreView, DynamicCertStore, TlsCertificate, TlsView,
};

verus! {

/// The port that a request came in on, where it is not known.
pub const FALLBACK_PORT: u16 = 80;

/// The longest body that is cached, in bytes.
pub const MAX_CACHED_BODY: usize = 5242880;

/// How many answers the cache holds.
pub const CACHE_CAPACITY: u64 = 10000;

/// How long the cache holds an answer, in seconds, where no other time is set.
pub const DEFAULT_CACHE_TTL_SECS: u64 = 60;

/// What the path of a challenge starts with.
pub const CHALLENGE_PREFIX: &'static str = "/.well-known/acme-challenge/";

// ---------------------------------------------------------------------------
// Routes
// ---------------------------------------------------------------------------

/// Where a request goes.
#[derive(Debug, PartialEq, Eq)]
pub enum Backend {
    /// To the process that listens on this port of the local machine.
    Proxy(u16),
    /// To the files of a directory.
    Spa(String),
}

/// The contents of a `Backend`.
#[verifier::ext_equal]
pub enum BackendView {
    Proxy(u16),
    Spa(Seq<char>),
}

impl View for Backend {
    type V = BackendView;

    open spec fn view(&self) -> BackendView {
        match *self {
            Backend::Proxy(p) => BackendView::Proxy(p),
            Backend::Spa(d) => BackendView::Spa(d@),
        }
    }
}

impl Clone for Backend {
    fn clone(&self) -> (r: Self)
        ensures
            r@ == self@,
    {
        match self {
            Backend::Proxy(p) => Backend::Proxy(*p),
            Backend::Spa(d) => Backend::Spa(d.clone()),
        }
    }
}

/// A route of a process.
#[derive(Debug, PartialEq, Eq)]
pub struct RouteEntry {
    pub name: String,
    pub port: u16,
    /// The host that it is for; none for all hosts.
    pub host: Option<String>,
    pub backend: Backend,
}

/// The contents of a `RouteEntry`.
#[verifier::ext_equal]
pub struct RouteView {
    pub name: Seq<char>,
    pub port: u16,
    pub host: Option<Seq<char>>,
    pub backend: BackendView,
}

impl View for RouteEntry {
    type V = RouteView;

    open spec fn view(&self) -> RouteView {
        RouteView {
            name: self.name@,
            port: self.port,
            host: opt_text(self.host),
            backend: self.backend@,
        }
    }
}

/// All routes.
#[derive(Debug, PartialEq, Eq)]
pub struct RouteTable {
    pub entries: Vec<RouteEntry>,
}

/// The contents of a list of routes.
pub open spec fn routes_view(v: Seq<RouteEntry>) -> Seq<RouteView> {
    v.map_values(|r: RouteEntry| r@)
}

impl View for RouteTable {
    type V = Seq<RouteView>;

    open spec fn view(&self) -> Seq<RouteView> {
        routes_view(self.entries@)
    }
}

/// The first route of a port for exactly this host, or for all hosts where it is none.
pub open spec fn exact_route(s: Seq<RouteView>, port: u16, host: Option<Seq<char>>) -> Option<
    RouteView,
>
    decreases s.len(),
{
    if s.len() == 0 {
        None
    } else if s[0].port == port && s[0].host == host {
        Some(s[0])
    } else {
        exact_route(s.skip(1), port, host)
    }
}

/// The route of a request: the one for its host, else the one for all hosts.
pub open spec fn route_of(s: Seq<RouteView>, port: u16, host: Option<Seq<char>>) -> Option<
    RouteView,
> {
    if host is Some && exact_route(s, port, host) is Some {
        exact_route(s, port, host)
    } else {
        exact_route(s, port, None)
    }
}

/// Whether no two routes belong to one process.
pub open spec fn distinct_routes(s: Seq<RouteView>) -> bool {
    forall|i: int, j: int|
        #![trigger s[i], s[j]]
        0 <= i < j < s.len() ==> s[i].name != s[j].name
}

/// The routes of the other processes, in order.
pub open spec fn without_routes(s: Seq<RouteView>, name: Seq<char>) -> Seq<RouteView> {
    s.filter(|r: RouteView| r.name != name)
}

fn same_opt(a: &Option<String>, b: Option<&str>) -> (r: bool)
    ensures
        r == (opt_text(*a) == match b {
            Some(t) => Some(t@),
            None => None,
        }),
{
    match (a, b) {
        (Some(x), Some(y)) => same(x.as_str(), y),
        (None, None) => true,
        _ => false,
    }
}

impl RouteTable {
    /// No routes.
    pub fn new() -> (r: RouteTable)
        ensures
            r@ == Seq::<RouteView>::empty(),
    {
        let r = RouteTable { entries: Vec::new() };
        assert(r@ =~= Seq::empty());
        r
    }

    /// The first route of a port for exactly this host.
    fn find_exact(&self, port: u16, host: Option<&str>) -> (r: Option<&RouteEntry>)
        ensures
            match r {
                Some(e) => exact_route(
                    self@,
                    port,
                    match host {
                        Some(t) => Some(t@),
                        None => None,
                    },
                ) == Some(e@),
                None => exact_route(
                    self@,
                    port,
                    match host {
                        Some(t) => Some(t@),
                        None => None,
                    },
                ) is None,
            },
    {
        let ghost h = match host {
            Some(t) => Some(t@),
            None => None,
        };
        let mut i: usize = 0;
        assert(self@.skip(0) =~= self@);
        while i < self.entries.len()
            invariant
                i <= self.entries@.len(),
                h == match host {
                    Some(t) => Some(t@),
                    None => None,
                },
                exact_route(self@, port, h) == exact_route(self@.skip(i as int), port, h),
            decreases self.entries@.len() - i,
        {
            proof {
                assert(self@.skip(i as int)[0] == self.entries@[i as int]@);
                assert(self@.skip(i as int).skip(1) =~= self@.skip(i + 1));
            }
            if self.entries[i].port == port && same_opt(&self.entries[i].host, host) {
                return Some(&self.entries[i]);
            }
            i += 1;
        }
        None
    }

    /// The route of a request: the one for its host, else the one for all hosts.
    pub fn find(&self, port: u16, host: Option<&str>) -> (r: Option<&RouteEntry>)
        ensures
            match r {
                Some(e) => route_of(
                    self@,
                    port,
                    match host {
                        Some(t) => Some(t@),
                        None => None,
                    },
                ) == Some(e@),
                None => route_of(
                    self@,
                    port,
                    match host {
                        Some(t) => Some(t@),
                        None => None,
                    },
                ) is None,
            },
    {
        if host.is_some() {
            match self.find_exact(port, host) {
                Some(e) => {
                    return Some(e);
                },
                None => {},
            }
        }
        self.find_exact(port, None)
    }

    /// Removes the routes of a process.
    pub fn remove(&mut self, name: &str)
        ensures
            final(self)@ == without_routes(old(self)@, name@),
    {
        let ghost all = self@;
        let ghost keep = |r: RouteView| r.name != name@;
        let mut out: Vec<RouteEntry> = Vec::new();
        let mut i: usize = 0;
        proof {
            reveal(Seq::filter);
            assert(all.take(0) =~= Seq::empty());
            assert(routes_view(out@) =~= all.take(0).filter(keep));
        }
        while i < self.entries.len()
            invariant
                i <= self.entries@.len(),
                all == self@,
                keep == (|r: RouteView| r.name != name@),
                routes_view(out@) == all.take(i as int).filter(keep),
            decreases self.entries@.len() - i,
        {
            let ghost was = routes_view(out@);
            proof {
                assert(all.take(i + 1) =~= all.take(i as int).push(all[i as int]));
                all.take(i as int).lemma_filter_push(all[i as int], keep);
                assert(all[i as int] == self.entries@[i as int]@);
            }
            let e = &self.entries[i];
            if !same(e.name.as_str(), name) {
                out.push(
                    RouteEntry {
                        name: e.name.clone(),
                        port: e.port,
                        host: copy_opt(&e.host),
                        backend: e.backend.clone(),
                    },
                );
                assert(routes_view(out@) =~= was.push(all[i as int]));
            }
            i += 1;
        }
        assert(all.take(i as int) =~= all);
        self.entries = out;
    }
}

proof fn lemma_without_routes(s: Seq<RouteView>, name: Seq<char>)
    ensures
        forall|i: int|
            0 <= i < without_routes(s, name).len() ==> (#[trigger] without_routes(s, name)[i]).name
                != name,
        forall|i: int|
            0 <= i < without_routes(s, name).len() ==> s.contains(
                #[trigger] without_routes(s, name)[i],
            ),
        distinct_routes(s) ==> distinct_routes(without_routes(s, name)),
    decreases s.len(),
{
    let keep = |r: RouteView| r.name != name;
    let t = without_routes(s, name);
    reveal(Seq::filter);
    if s.len() > 0 {
        let front = s.drop_last();
        lemma_without_routes(front, name);
        assert(s =~= front.push(s.last()));
        front.lemma_filter_push(s.last(), keep);
        let u = without_routes(front, name);
        assert forall|i: int| 0 <= i < t.len() implies s.contains(#[trigger] t[i]) by {
            if i < u.len() {
                assert(t[i] == u[i]);
                let k = choose|k: int| 0 <= k < front.len() && front[k] == u[i];
                assert(s[k] == t[i]);
            } else {
                assert(s[s.len() - 1] == t[i]);
            }
        }
        if distinct_routes(s) {
            assert(distinct_routes(front)) by {
                assert forall|i: int, j: int|
                    #![trigger front[i], front[j]]
                    0 <= i < j < front.len() implies front[i].name != front[j].name by {
                    assert(s[i].name != s[j].name);
                }
            }
            if keep(s.last()) {
                assert forall|i: int, j: int|
                    #![trigger t[i], t[j]]
                    0 <= i < j < t.len() implies t[i].name != t[j].name by {
                    assert(t[i] == u[i]);
                    if j == u.len() {
                        let k = choose|k: int| 0 <= k < front.len() && front[k] == u[i];
                        assert(s[k].name != s[s.len() - 1].name);
                    } else {
                        assert(t[j] == u[j]);
                    }
                }
            }
        }
    }
}

/// A route is found by its host where no other route has its port and host, before any
/// route for all hosts.
pub proof fn law_host_routing(s: Seq<RouteView>, r: RouteView)
    requires
        s.contains(r),
        r.host is Some,
        forall|i: int|
            0 <= i < s.len() && (#[trigger] s[i]).port == r.port && s[i].host == r.host ==> s[i]
                == r,
    ensures
        route_of(s, r.port, r.host) == Some(r),
{
    lemma_exact_route(s, r);
}

proof fn lemma_exact_route(s: Seq<RouteView>, r: RouteView)
    requires
        s.contains(r),
        forall|i: int|
            0 <= i < s.len() && (#[trigger] s[i]).port == r.port && s[i].host == r.host ==> s[i]
                == r,
    ensures
        exact_route(s, r.port, r.host) == Some(r),
    decreases s.len(),
{
    if !(s[0].port == r.port && s[0].host == r.host) {
        let t = s.skip(1);
        let k = choose|k: int| 0 <= k < s.len() && s[k] == r;
        assert(t[k - 1] == r);
        assert forall|i: int|
            0 <= i < t.len() && (#[trigger] t[i]).port == r.port && t[i].host == r.host implies t[i]
            == r by {
            assert(t[i] == s[i + 1]);
        }
        lemma_exact_route(t, r);
    }
}

/// A request for a host without a route of its own goes where all hosts go.
pub proof fn law_catch_all(s: Seq<RouteView>, port: u16, host: Seq<char>)
    requires
        forall|i: int|
            0 <= i < s.len() && (#[trigger] s[i]).port == port ==> s[i].host != Some(host),
    ensures
        route_of(s, port, Some(host)) == route_of(s, port, None),
{
    lemma_no_exact_route(s, port, Some(host));
}

proof fn lemma_no_exact_route(s: Seq<RouteView>, port: u16, host: Option<Seq<char>>)
    requires
        forall|i: int| 0 <= i < s.len() && (#[trigger] s[i]).port == port ==> s[i].host != host,
    ensures
        exact_route(s, port, host) is None,
    decreases s.len(),
{
    if s.len() > 0 {
        let t = s.skip(1);
        assert forall|i: int| 0 <= i < t.len() && (#[trigger] t[i]).port == port implies t[i].host
            != host by {
            assert(t[i] == s[i + 1]);
        }
        lemma_no_exact_route(t, port, host);
    }
}

// ---------------------------------------------------------------------------
// Requests
// ---------------------------------------------------------------------------

/// What the proxy reads of a request.
#[derive(Debug, PartialEq, Eq)]
pub struct HttpRequest {
    pub method: String,
    pub path: String,
    pub query: Option<String>,
    /// The header `Host`, where it is text.
    pub host: Option<String>,
    /// The header `Content-Length`, where it is text.
    pub content_length: Option<String>,
    /// The port that the request came in on, where it is known.
    pub port: Option<u16>,
}

/// The contents of an `HttpRequest`.
#[verifier::ext_equal]
pub struct HttpRequestView {
    pub method: Seq<char>,
    pub path: Seq<char>,
    pub query: Option<Seq<char>>,
    pub host: Option<Seq<char>>,
    pub content_length: Option<Seq<char>>,
    pub port: Option<u16>,
}

impl View for HttpRequest {
    type V = HttpRequestView;

    open spec fn view(&self) -> HttpRequestView {
        HttpRequestView {
            method: self.method@,
            path: self.path@,
            query: opt_text(self.query),
            host: opt_text(self.host),
            content_length: opt_text(self.content_length),
            port: self.port,
        }
    }
}

/// The host of a `Host` header: what stands before the first colon.
pub open spec fn host_of(header: Option<Seq<char>>) -> Option<Seq<char>> {
    match header {
        Some(h) => Some(before(h, ':')),
        None => None,
    }
}

/// The host of a `Host` header.
pub fn extract_host(header: &Option<String>) -> (r: Option<String>)
    ensures
        opt_text(r) == host_of(opt_text(*header)),
{
    match header {
        Some(h) => Some(before_char(h.as_str(), ':')),
        None => None,
    }
}

/// The port that a request came in on.
pub open spec fn port_of(port: Option<u16>) -> u16 {
    match port {
        Some(p) => p,
        None => FALLBACK_PORT,
    }
}

/// The port that a request came in on.
pub fn get_listen_port(port: Option<u16>) -> (r: u16)
    ensures
        r == port_of(port),
{
    match port {
        Some(p) => p,
        None => FALLBACK_PORT,
    }
}

/// The size of a request's body, where its header tells it.
pub open spec fn body_size(content_length: Option<Seq<char>>) -> u64 {
    match content_length {
        Some(v) => match parsed(v, u64::MAX as nat) {
            Some(n) => n as u64,
            None => 0,
        },
        None => 0,
    }
}

/// What the cache keeps an answer under: the host, the path and the query.
pub open spec fn cache_key_of(
    host: Option<Seq<char>>,
    path: Seq<char>,
    query: Option<Seq<char>>,
) -> Seq<char> {
    let h = match host {
        Some(h) => h,
        None => "localhost"@,
    };
    let q = match query {
        Some(q) => "?"@ + q,
        None => Seq::empty(),
    };
    h + path + q
}

fn cache_key(host: &Option<String>, path: &str, query: &Option<String>) -> (r: String)
    ensures
        r@ == cache_key_of(opt_text(*host), path@, opt_text(*query)),
{
    let q = match query {
        Some(q) => cat2("?", q.as_str()),
        None => String::new(),
    };
    assert(q@ =~= match opt_text(*query) {
        Some(q) => "?"@ + q,
        None => Seq::empty(),
    });
    match host {
        Some(h) => cat3(h.as_str(), path, q.as_str()),
        None => cat3("localhost", path, q.as_str()),
    }
}

/// An answer that the proxy gives itself.
#[derive(Debug, PartialEq, Eq)]
pub struct Reply {
    pub status: u16,
    pub headers: Vec<(String, String)>,
    pub body: Vec<u8>,
}

/// The contents of a `Reply`.
#[verifier::ext_equal]
pub struct ReplyView {
    pub status: u16,
    pub headers: Seq<(Seq<char>, Seq<char>)>,
    pub body: Seq<u8>,
}

/// The contents of a list of headers.
pub open spec fn headers_view(v: Seq<(String, String)>) -> Seq<(Seq<char>, Seq<char>)> {
    v.map_values(|h: (String, String)| (h.0@, h.1@))
}

impl View for Reply {
    type V = ReplyView;

    open spec fn view(&self) -> ReplyView {
        ReplyView {
            status: self.status,
            headers: headers_view(self.headers@),
            body: self.body@,
        }
    }
}

/// An answer with its type and its length.
pub open spec fn sized_reply(status: u16, mime: Seq<char>, body: Seq<u8>) -> ReplyView {
    ReplyView {
        status,
        headers: seq![
            ("content-type"@, mime),
            ("content-length"@, decimal(body.len())),
        ],
        body,
    }
}

/// An answer of plain text without its length.
pub open spec fn plain_reply(status: u16, text: Seq<char>) -> ReplyView {
    ReplyView {
        status,
        headers: seq![("content-type"@, "text/plain"@)],
        body: encode_utf8(text),
    }
}

fn header(name: &str, value: &str) -> (r: (String, String))
    ensures
        (r.0@, r.1@) == (name@, value@),
{
    (name.to_string(), value.to_string())
}

fn add_header(list: &mut Vec<(String, String)>, name: &str, value: &str)
    ensures
        headers_view(final(list)@) == headers_view(old(list)@).push((name@, value@)),
{
    let ghost was = headers_view(list@);
    list.push(header(name, value));
    assert(headers_view(list@) =~= was.push((name@, value@)));
}

fn reply(status: u16, mime: &str, body: Vec<u8>) -> (r: Reply)
    ensures
        r@ == sized_reply(status, mime@, body@),
{
    let mut headers: Vec<(String, String)> = Vec::new();
    let size = number_text(body.len() as u64);
    add_header(&mut headers, "content-type", mime);
    add_header(&mut headers, "content-length", size.as_str());
    let r = Reply { status, headers, body };
    assert(r@.headers =~= sized_reply(status, mime@, body@).headers);
    r
}

fn text_reply(status: u16, text: &str) -> (r: Reply)
    ensures
        r@ == plain_reply(status, text@),
{
    let mut headers: Vec<(String, String)> = Vec::new();
    add_header(&mut headers, "content-type", "text/plain");
    let r = Reply { status, headers, body: text.as_bytes_vec() };
    assert(r@.headers =~= plain_reply(status, text@).headers);
    r
}

/// What is kept of a request until its answer is through.
#[derive(Debug, PartialEq, Eq)]
pub struct ProxyCtx {
    /// What the answer is cached under; empty where it is not cached.
    pub cache_key: String,
    pub should_cache: bool,
    /// Whether the head of the answer is kept for the cache.
    pub response_header: bool,
    /// The body of the answer so far, where it is to be cached.
    pub response_body: Vec<u8>,
    pub request_bytes: u64,
    pub response_bytes: u64,
}

/// The contents of a `ProxyCtx`.
#[verifier::ext_equal]
pub struct ProxyCtxView {
    pub cache_key: Seq<char>,
    pub should_cache: bool,
    pub response_header: bool,
    pub response_body: Seq<u8>,
    pub request_bytes: u64,
    pub response_bytes: u64,
}

impl View for ProxyCtx {
    type V = ProxyCtxView;

    open spec fn view(&self) -> ProxyCtxView {
        ProxyCtxView {
            cache_key: self.cache_key@,
            should_cache: self.should_cache,
            response_header: self.response_header,
            response_body: self.response_body@,
            request_bytes: self.request_bytes,
            response_bytes: self.response_bytes,
        }
    }
}

impl ProxyCtxView {
    /// What is kept for the cache is never too long for it.
    pub open spec fn valid(self) -> bool {
        self.response_body.len() <= MAX_CACHED_BODY
    }
}

/// What is kept of a request that just came in.
pub fn new_ctx() -> (r: ProxyCtx)
    ensures
        r@.valid(),
        r@ == (ProxyCtxView {
            cache_key: Seq::empty(),
            should_cache: false,
            response_header: false,
            response_body: Seq::empty(),
            request_bytes: 0,
            response_bytes: 0,
        }),
{
    let r = ProxyCtx {
        cache_key: String::new(),
        should_cache: false,
        response_header: false,
        response_body: Vec::new(),
        request_bytes: 0,
        response_bytes: 0,
    };
    assert(r@.cache_key =~= Seq::empty());
    r
}

/// What is done with a request.
#[derive(Debug, PartialEq, Eq)]
pub enum FilterAction {
    /// The proxy answers.
    Answer(Reply),
    /// A file of a directory is the answer.
    ServeSpa { dir: String, path: String },
    /// The process answers, and the cache takes no part.
    Forward,
    /// The cache is asked, and the process answers where it has nothing.
    LookUp(String),
}

/// The contents of a `FilterAction`.
#[verifier::ext_equal]
pub enum FilterActionView {
    Answer(ReplyView),
    ServeSpa(Seq<char>, Seq<char>),
    Forward,
    LookUp(Seq<char>),
}

impl View for FilterAction {
    type V = FilterActionView;

    open spec fn view(&self) -> FilterActionView {
        match *self {
            FilterAction::Answer(r) => FilterActionView::Answer(r@),
            FilterAction::ServeSpa { dir, path } => FilterActionView::ServeSpa(dir@, path@),
            FilterAction::Forward => FilterActionView::Forward,
            FilterAction::LookUp(k) => FilterActionView::LookUp(k@),
        }
    }
}

/// The answer to a challenge that a request asks for, where it is kept.
pub open spec fn challenge_answer(
    challenges: Map<Seq<char>, Seq<char>>,
    path: Seq<char>,
) -> Option<Seq<char>> {
    if CHALLENGE_PREFIX@.is_prefix_of(path) {
        let token = path.skip(CHALLENGE_PREFIX@.len() as int);
        if challenges.contains_key(token) {
            Some(challenges[token])
        } else {
            None
        }
    } else {
        None
    }
}

/// What is done with a request: a challenge that is kept is answered, a file of a
/// directory is served, a process is asked, through the cache where it is a GET, and
/// what has no route is not found.
pub open spec fn filtered(
    routes: Seq<RouteView>,
    challenges: Map<Seq<char>, Seq<char>>,
    req: HttpRequestView,
) -> FilterActionView {
    match challenge_answer(challenges, req.path) {
        Some(text) => FilterActionView::Answer(
            sized_reply(200, "text/plain"@, encode_utf8(text)),
        ),
        None => match route_of(routes, port_of(req.port), host_of(req.host)) {
            Some(r) => match r.backend {
                BackendView::Spa(dir) => FilterActionView::ServeSpa(dir, req.path),
                BackendView::Proxy(_) => if req.method == "GET"@ {
                    FilterActionView::LookUp(
                        cache_key_of(host_of(req.host), req.path, req.query),
                    )
                } else {
                    FilterActionView::Forward
                },
            },
            None => FilterActionView::Answer(
                sized_reply(404, "text/plain"@, encode_utf8("no route found\n"@)),
            ),
        },
    }
}

/// The answer to a challenge that a request asks for.
fn find_challenge(challenges: &ChallengeStore, path: &str) -> (r: Option<String>)
    requires
        challenges.valid(),
    ensures
        opt_text(r) == challenge_answer(challenges@, path@),
{
    if starts_with(path, CHALLENGE_PREFIX) {
        let n = CHALLENGE_PREFIX.unicode_len();
        let token = slice(path, n, path.unicode_len());
        assert(token@ =~= path@.skip(CHALLENGE_PREFIX@.len() as int));
        challenges.get(token.as_str())
    } else {
        None
    }
}

/// What is done with a request.
pub fn request_filter(
    routes: &RouteTable,
    challenges: &ChallengeStore,
    req: &HttpRequest,
    ctx: &mut ProxyCtx,
) -> (r: FilterAction)
    requires
        challenges.valid(),
    ensures
        r@ == filtered(routes@, challenges@, req@),
        final(ctx)@ == (ProxyCtxView {
            request_bytes: body_size(req@.content_length),
            cache_key: match r@ {
                FilterActionView::LookUp(k) => k,
                _ => old(ctx)@.cache_key,
            },
            ..old(ctx)@
        }),
{
    ctx.request_bytes = match &req.content_length {
        Some(v) => match parse_u64(v.as_str()) {
            Some(n) => n,
            None => 0,
        },
        None => 0,
    };
    match find_challenge(challenges, req.path.as_str()) {
        Some(text) => {
            return FilterAction::Answer(reply(200, "text/plain", text.as_str().as_bytes_vec()));
        },
        None => {},
    }
    let host = extract_host(&req.host);
    let asked = match &host {
        Some(h) => Some(h.as_str()),
        None => None,
    };
    match routes.find(get_listen_port(req.port), asked) {
        Some(e) => match &e.backend {
            Backend::Spa(dir) => FilterAction::ServeSpa {
                dir: dir.clone(),
                path: req.path.clone(),
            },
            Backend::Proxy(_) => {
                if !same(req.method.as_str(), "GET") {
                    return FilterAction::Forward;
                }
                let key = cache_key(&host, req.path.as_str(), &req.query);
                ctx.cache_key = key.clone();
                FilterAction::LookUp(key)
            },
        },
        None => FilterAction::Answer(reply(404, "text/plain", "no route found\n".as_bytes_vec())),
    }
}

/// The port of the process that a request goes to, or why there is none.
pub fn upstream_peer(routes: &RouteTable, req: &HttpRequest) -> (r: Result<u16, (u16, String)>)
    ensures
        match (r, route_of(routes@, port_of(req@.port), host_of(req@.host))) {
            (Ok(p), Some(e)) => e.backend == BackendView::Proxy(p),
            (Err((status, text)), Some(e)) => e.backend is Spa && status == 502 && text@
                == "no upstream route"@,
            (Err((status, text)), None) => status == 502 && text@ == "no upstream route"@,
            _ => false,
        },
{
    let host = extract_host(&req.host);
    let asked = match &host {
        Some(h) => Some(h.as_str()),
        None => None,
    };
    match routes.find(get_listen_port(req.port), asked) {
        Some(e) => match &e.backend {
            Backend::Proxy(p) => Ok(*p),
            Backend::Spa(_) => Err((502, "no upstream route".to_string())),
        },
        None => Err((502, "no upstream route".to_string())),
    }
}

/// Whoever asks for a challenge that is kept is answered, whatever the routes are.
pub proof fn law_challenge_first(
    routes: Seq<RouteView>,
    challenges: Map<Seq<char>, Seq<char>>,
    req: HttpRequestView,
    token: Seq<char>,
)
    requires
        challenges.contains_key(token),
        req.path == CHALLENGE_PREFIX@ + token,
    ensures
        filtered(routes, challenges, req) == FilterActionView::Answer(
            sized_reply(200, "text/plain"@, encode_utf8(challenges[token])),
        ),
{
    let n = CHALLENGE_PREFIX@.len() as int;
    assert(req.path.skip(n) =~= token);
    assert(req.path.subrange(0, n) =~= CHALLENGE_PREFIX@);
}

/// Nothing but a GET is answered from the cache or kept for it.
pub proof fn law_only_get_is_cached(
    routes: Seq<RouteView>,
    challenges: Map<Seq<char>, Seq<char>>,
    req: HttpRequestView,
)
    requires
        req.method != "GET"@,
    ensures
        filtered(routes, challenges, req) !is LookUp,
{
}

// ---------------------------------------------------------------------------
// Headers for the process
// ---------------------------------------------------------------------------

/// The headers that are set on a request to a process.
pub open spec fn forwarded(
    client: Option<Seq<char>>,
    has_real_ip: bool,
    is_https: bool,
    host: Option<Seq<char>>,
) -> Seq<(Seq<char>, Seq<char>)> {
    let first = match client {
        Some(addr) => if has_real_ip {
            seq![("X-Forwarded-For"@, before(addr, ':'))]
        } else {
            seq![("X-Forwarded-For"@, before(addr, ':')), ("X-Real-IP"@, before(addr, ':'))]
        },
        None => Seq::empty(),
    };
    let second = seq![
        ("X-Forwarded-Proto"@, if is_https {
            "https"@
        } else {
            "http"@
        }),
    ];
    let third = match host {
        Some(h) => seq![("X-Forwarded-Host"@, h)],
        None => Seq::empty(),
    };
    first + second + third
}

/// The headers that are set on a request to a process. `client` is the address of the
/// client as text, `has_real_ip` whether the request names one already, `host` the
/// header `Host`.
pub fn upstream_request_filter(
    client: &Option<String>,
    has_real_ip: bool,
    is_https: bool,
    host: &Option<String>,
) -> (r: Vec<(String, String)>)
    ensures
        headers_view(r@) == forwarded(opt_text(*client), has_real_ip, is_https, opt_text(*host)),
{
    let mut out: Vec<(String, String)> = Vec::new();
    match client {
        Some(addr) => {
            let ip = before_char(addr.as_str(), ':');
            add_header(&mut out, "X-Forwarded-For", ip.as_str());
            if !has_real_ip {
                add_header(&mut out, "X-Real-IP", ip.as_str());
            }
        },
        None => {},
    }
    if is_https {
        add_header(&mut out, "X-Forwarded-Proto", "https");
    } else {
        add_header(&mut out, "X-Forwarded-Proto", "http");
    }
    match host {
        Some(h) => {
            add_header(&mut out, "X-Forwarded-Host", h.as_str());
        },
        None => {},
    }
    assert(headers_view(out@) =~= forwarded(
        opt_text(*client),
        has_real_ip,
        is_https,
        opt_text(*host),
    ));
    out
}

// ---------------------------------------------------------------------------
// Answers for the cache
// ---------------------------------------------------------------------------

/// What is kept once the head of an answer is there: only an answer of status 200 to a
/// request that may be cached goes to the cache.
pub open spec fn head_seen(c: ProxyCtxView, status: u16) -> ProxyCtxView {
    if c.cache_key.len() > 0 && status == 200 {
        ProxyCtxView { should_cache: true, response_header: true, ..c }
    } else {
        c
    }
}

/// Looks at the head of an answer.
pub fn response_filter(ctx: &mut ProxyCtx, status: u16)
    ensures
        final(ctx)@ == head_seen(old(ctx)@, status),
{
    if ctx.cache_key.as_str().unicode_len() == 0 {
        return;
    }
    if status == 200 {
        ctx.should_cache = true;
        ctx.response_header = true;
    }
}

/// A change of the head of an answer.
#[derive(Debug, PartialEq, Eq)]
pub enum HeaderEdit {
    Remove(String),
    Insert(String, String),
}

/// The contents of a `HeaderEdit`.
#[verifier::ext_equal]
pub enum HeaderEditView {
    Remove(Seq<char>),
    Insert(Seq<char>, Seq<char>),
}

impl View for HeaderEdit {
    type V = HeaderEditView;

    open spec fn view(&self) -> HeaderEditView {
        match *self {
            HeaderEdit::Remove(n) => HeaderEditView::Remove(n@),
            HeaderEdit::Insert(n, v) => HeaderEditView::Insert(n@, v@),
        }
    }
}

/// The change of the head of an answer that comes from the cache.
pub fn cache_hit() -> (r: HeaderEdit)
    ensures
        r@ == HeaderEditView::Insert("X-Cache"@, "HIT"@),
{
    HeaderEdit::Insert("X-Cache".to_string(), "HIT".to_string())
}

/// An answer that goes to the cache, with the changes of its head.
#[derive(Debug, PartialEq, Eq)]
pub struct CacheInsert {
    pub key: String,
    pub edits: Vec<HeaderEdit>,
    pub body: Vec<u8>,
}

/// The contents of a `CacheInsert`.
#[verifier::ext_equal]
pub struct CacheInsertView {
    pub key: Seq<char>,
    pub edits: Seq<HeaderEditView>,
    pub body: Seq<u8>,
}

impl View for CacheInsert {
    type V = CacheInsertView;

    open spec fn view(&self) -> CacheInsertView {
        CacheInsertView {
            key: self.key@,
            edits: self.edits@.map_values(|e: HeaderEdit| e@),
            body: self.body@,
        }
    }
}

/// An answer that goes to the cache: it is not chunked any more and has its length.
pub open spec fn cached(key: Seq<char>, body: Seq<u8>) -> CacheInsertView {
    CacheInsertView {
        key,
        edits: seq![
            HeaderEditView::Remove("Transfer-Encoding"@),
            HeaderEditView::Insert("Content-Length"@, decimal(body.len())),
        ],
        body,
    }
}

/// The bytes of a piece of an answer.
pub open spec fn piece(chunk: Option<Seq<u8>>) -> Seq<u8> {
    match chunk {
        Some(b) => b,
        None => Seq::empty(),
    }
}

/// What is kept after a piece of an answer, and what goes to the cache: a body that
/// gets too long is not cached.
pub open spec fn piece_seen(c: ProxyCtxView, chunk: Option<Seq<u8>>, end: bool) -> (
    ProxyCtxView,
    Option<CacheInsertView>,
) {
    let counted = ProxyCtxView {
        response_bytes: (c.response_bytes + piece(chunk).len()) as u64,
        ..c
    };
    let body = c.response_body + piece(chunk);
    if !c.should_cache {
        (counted, None)
    } else if chunk is Some && body.len() > MAX_CACHED_BODY {
        (ProxyCtxView { should_cache: false, response_body: Seq::empty(), ..counted }, None)
    } else if end && c.response_header {
        (
            ProxyCtxView { response_header: false, response_body: Seq::empty(), ..counted },
            Some(cached(c.cache_key, body)),
        )
    } else {
        (ProxyCtxView { response_body: body, ..counted }, None)
    }
}

/// Looks at a piece of an answer's body.
pub fn response_body_filter(ctx: &mut ProxyCtx, chunk: &Option<Vec<u8>>, end_of_stream: bool) -> (r:
    Option<CacheInsert>)
    requires
        old(ctx)@.valid(),
        old(ctx).response_bytes + piece(
            match *chunk {
                Some(b) => Some(b@),
                None => None,
            },
        ).len() <= u64::MAX,
    ensures
        final(ctx)@.valid(),
        (
            final(ctx)@,
            match r {
                Some(i) => Some(i@),
                None => None,
            },
        ) == piece_seen(
            old(ctx)@,
            match *chunk {
                Some(b) => Some(b@),
                None => None,
            },
            end_of_stream,
        ),
{
    let ghost start = ctx@;
    let size: usize = match chunk {
        Some(b) => b.len(),
        None => 0,
    };
    ctx.response_bytes = ctx.response_bytes + size as u64;
    if !ctx.should_cache {
        return None;
    }
    match chunk {
        Some(b) => {
            if b.len() > MAX_CACHED_BODY - ctx.response_body.len() {
                ctx.should_cache = false;
                ctx.response_body.clear();
                return None;
            }
            let mut i: usize = 0;
            let ghost held = ctx.response_body@;
            assert(held + b@.take(0) =~= held);
            while i < b.len()
                invariant
                    i <= b@.len(),
                    ctx.response_body@ == held + b@.take(i as int),
                    ctx@ == (ProxyCtxView { response_body: ctx.response_body@, ..with_counted(start, b@) }),
                decreases b@.len() - i,
            {
                ctx.response_body.push(b[i]);
                assert(ctx.response_body@ =~= held + b@.take(i + 1));
                i += 1;
            }
            assert(b@.take(i as int) =~= b@);
        },
        None => {
            assert(ctx.response_body@ =~= start.response_body + Seq::<u8>::empty());
        },
    }
    if end_of_stream && ctx.response_header {
        ctx.response_header = false;
        let mut body: Vec<u8> = Vec::new();
        std::mem::swap(&mut body, &mut ctx.response_body);
        let mut edits: Vec<HeaderEdit> = Vec::new();
        edits.push(HeaderEdit::Remove("Transfer-Encoding".to_string()));
        edits.push(
            HeaderEdit::Insert("Content-Length".to_string(), number_text(body.len() as u64)),
        );
        let insert = CacheInsert { key: ctx.cache_key.clone(), edits, body };
        assert(insert@.edits =~= cached(insert@.key, insert@.body).edits);
        Some(insert)
    } else {
        None
    }
}

/// A piece of an answer counted.
spec fn with_counted(c: ProxyCtxView, b: Seq<u8>) -> ProxyCtxView {
    ProxyCtxView { response_bytes: (c.response_bytes + b.len()) as u64, ..c }
}

/// Pieces of a body, one after the other.
pub open spec fn flat(chunks: Seq<Seq<u8>>) -> Seq<u8>
    decreases chunks.len(),
{
    if chunks.len() == 0 {
        Seq::empty()
    } else {
        flat(chunks.drop_last()) + chunks.last()
    }
}

/// What is kept after some pieces of an answer, none of them the last.
pub open spec fn pieces_seen(c: ProxyCtxView, chunks: Seq<Seq<u8>>) -> ProxyCtxView
    decreases chunks.len(),
{
    if chunks.len() == 0 {
        c
    } else {
        piece_seen(pieces_seen(c, chunks.drop_last()), Some(chunks.last()), false).0
    }
}

proof fn lemma_pieces_seen(c: ProxyCtxView, chunks: Seq<Seq<u8>>)
    requires
        c.should_cache,
        c.response_header,
        c.response_body.len() == 0,
        c.response_bytes + flat(chunks).len() <= u64::MAX,
    ensures
        ({
            let d = pieces_seen(c, chunks);
            &&& d.cache_key == c.cache_key && d.response_header
            &&& d.response_bytes == c.response_bytes + flat(chunks).len()
            &&& flat(chunks).len() <= MAX_CACHED_BODY ==> d.should_cache && d.response_body == flat(
                chunks,
            )
            &&& flat(chunks).len() > MAX_CACHED_BODY ==> !d.should_cache
        }),
    decreases chunks.len(),
{
    if chunks.len() > 0 {
        lemma_pieces_seen(c, chunks.drop_last());
    } else {
        assert(c.response_body =~= Seq::empty());
    }
}

/// The cache is given exactly the body that the process answered with, under the key of the
/// request, with a head that is not chunked and has its length, and nothing where the body is
/// too long for it; all of the body is counted either way. `chunks` are the pieces before the
/// end, and `last` is the one that comes with it, where there is one.
pub proof fn law_cached_body(c: ProxyCtxView, chunks: Seq<Seq<u8>>, last: Option<Seq<u8>>)
    requires
        c.should_cache,
        c.response_header,
        c.response_body.len() == 0,
        c.response_bytes + flat(chunks).len() + piece(last).len() <= u64::MAX,
    ensures
        ({
            let body = flat(chunks) + piece(last);
            let (d, insert) = piece_seen(pieces_seen(c, chunks), last, true);
            &&& insert == if body.len() <= MAX_CACHED_BODY {
                Some(cached(c.cache_key, body))
            } else {
                None
            }
            &&& d.response_bytes == c.response_bytes + body.len()
        }),
{
    lemma_pieces_seen(c, chunks);
    let d = pieces_seen(c, chunks);
    if last is None {
        assert(d.response_body + piece(last) =~= d.response_body);
        assert(flat(chunks) + piece(last) =~= flat(chunks));
    }
}

// ---------------------------------------------------------------------------
// Files of a directory
// ---------------------------------------------------------------------------

/// The file that a path asks for in a directory.
pub open spec fn asked_file(dir: Seq<char>, uri_path: Seq<char>) -> Seq<char> {
    let clean = trim_start(uri_path, CharClass::Is('/'));
    if clean.len() == 0 {
        joined(dir, "index.html"@)
    } else {
        joined(dir, clean)
    }
}

/// The file that a path asks for in a directory.
pub fn spa_file(dir: &str, uri_path: &str) -> (r: String)
    ensures
        r@ == asked_file(dir@, uri_path@),
{
    let clean = trim_front(uri_path, CharClass::Is('/'));
    if clean.as_str().unicode_len() == 0 {
        join(dir, "index.html")
    } else {
        join(dir, clean.as_str())
    }
}

/// The file that is served: the one that was asked for where it is a file and lies in the
/// directory, else the directory's first page.
pub open spec fn served_file(dir: Seq<char>, is_file: bool, file: Option<Seq<char>>) -> Seq<char> {
    match file {
        Some(f) => if is_file && is_under(f, dir) {
            f
        } else {
            joined(dir, "index.html"@)
        },
        None => joined(dir, "index.html"@),
    }
}

/// The file that is served, or the answer where the directory is not there. `is_file` tells
/// whether what was asked for is a file; `dir` and `file` are the true paths of the directory
/// and of what was asked for, each missing where there is none.
pub fn spa_target(dir: &Option<String>, is_file: bool, file: &Option<String>) -> (r: Result<
    String,
    Reply,
>)
    ensures
        match (*dir, r) {
            (Some(d), Ok(f)) => f@ == served_file(d@, is_file, opt_text(*file)),
            (None, Err(reply)) => reply@ == plain_reply(500, "SPA directory not found\n"@),
            _ => false,
        },
{
    let d = match dir {
        Some(d) => d,
        None => {
            return Err(text_reply(500, "SPA directory not found\n"));
        },
    };
    match file {
        Some(f) => {
            if is_file && under(f.as_str(), d.as_str()) {
                return Ok(f.clone());
            }
        },
        None => {},
    }
    Ok(join(d.as_str(), "index.html"))
}

/// Nothing outside of the directory is served, given the true path of what was asked for,
/// which never leads back to a parent directory.
pub proof fn law_served_inside(dir: Seq<char>, is_file: bool, file: Option<Seq<char>>)
    requires
        file matches Some(f) ==> !components(f).contains(dot_dot()),
    ensures
        is_inside(served_file(dir, is_file, file), dir),
{
    lemma_page_name();
    lemma_no_way_back(components("index.html"@));
    law_join_inside(dir, "index.html"@);
    if let Some(f) = file {
        let rest = components(f).skip(components(dir).len() as int);
        if is_under(f, dir) {
            if rest.contains(dot_dot()) {
                let i = choose|i: int| 0 <= i < rest.len() && rest[i] == dot_dot();
                assert(components(f)[i + components(dir).len()] == dot_dot());
            }
            lemma_no_way_back(rest);
        }
    }
}

/// The type of a file by its extension.
pub open spec fn mime_of(e: Seq<char>) -> Seq<char> {
    if e == "html"@ {
        "text/html; charset=utf-8"@
    } else if e == "css"@ {
        "text/css; charset=utf-8"@
    } else if e == "js"@ {
        "application/javascript; charset=utf-8"@
    } else if e == "mjs"@ {
        "application/javascript; charset=utf-8"@
    } else if e == "json"@ {
        "application/json; charset=utf-8"@
    } else if e == "png"@ {
        "image/png"@
    } else if e == "jpg"@ {
        "image/jpeg"@
    } else if e == "jpeg"@ {
        "image/jpeg"@
    } else if e == "gif"@ {
        "image/gif"@
    } else if e == "svg"@ {
        "image/svg+xml"@
    } else if e == "ico"@ {
        "image/x-icon"@
    } else if e == "webp"@ {
        "image/webp"@
    } else if e == "woff"@ {
        "font/woff"@
    } else if e == "woff2"@ {
        "font/woff2"@
    } else if e == "ttf"@ {
        "font/ttf"@
    } else if e == "otf"@ {
        "font/otf"@
    } else if e == "wasm"@ {
        "application/wasm"@
    } else if e == "xml"@ {
        "application/xml"@
    } else if e == "txt"@ {
        "text/plain; charset=utf-8"@
    } else if e == "pdf"@ {
        "application/pdf"@
    } else if e == "zip"@ {
        "application/zip"@
    } else if e == "mp4"@ {
        "video/mp4"@
    } else if e == "webm"@ {
        "video/webm"@
    } else if e == "mp3"@ {
        "audio/mpeg"@
    } else {
        "application/octet-stream"@
    }
}

fn mime_text(e: &str) -> (r: &'static str)
    ensures
        r@ == mime_of(e@),
{
    if same(e, "html") {
        "text/html; charset=utf-8"
    } else if same(e, "css") {
        "text/css; charset=utf-8"
    } else if same(e, "js") {
        "application/javascript; charset=utf-8"
    } else if same(e, "mjs") {
        "application/javascript; charset=utf-8"
    } else if same(e, "json") {
        "application/json; charset=utf-8"
    } else if same(e, "png") {
        "image/png"
    } else if same(e, "jpg") {
        "image/jpeg"
    } else if same(e, "jpeg") {
        "image/jpeg"
    } else if same(e, "gif") {
        "image/gif"
    } else if same(e, "svg") {
        "image/svg+xml"
    } else if same(e, "ico") {
        "image/x-icon"
    } else if same(e, "webp") {
        "image/webp"
    } else if same(e, "woff") {
        "font/woff"
    } else if same(e, "woff2") {
        "font/woff2"
    } else if same(e, "ttf") {
        "font/ttf"
    } else if same(e, "otf") {
        "font/otf"
    } else if same(e, "wasm") {
        "application/wasm"
    } else if same(e, "xml") {
        "application/xml"
    } else if same(e, "txt") {
        "text/plain; charset=utf-8"
    } else if same(e, "pdf") {
        "application/pdf"
    } else if same(e, "zip") {
        "application/zip"
    } else if same(e, "mp4") {
        "video/mp4"
    } else if same(e, "webm") {
        "video/webm"
    } else if same(e, "mp3") {
        "audio/mpeg"
    } else {
        "application/octet-stream"
    }
}

/// The type of a file.
pub open spec fn file_type(path: Seq<char>) -> Seq<char> {
    match extension_of(path) {
        Some(e) => mime_of(e),
        None => "application/octet-stream"@,
    }
}

/// The type of a file.
pub fn content_type(path: &str) -> (r: &'static str)
    ensures
        r@ == file_type(path@),
{
    match extension(path) {
        Some(e) => mime_text(e.as_str()),
        None => "application/octet-stream",
    }
}

/// The answer with a file: what it holds, or that it was not found.
pub open spec fn file_reply(path: Seq<char>, content: Option<Seq<u8>>) -> ReplyView {
    match content {
        Some(c) => sized_reply(200, file_type(path), c),
        None => plain_reply(404, "not found\n"@),
    }
}

/// The answer with a file: what it holds, or that it was not found.
pub fn serve_spa(path: &str, content: Option<Vec<u8>>) -> (r: Reply)
    ensures
        r@ == file_reply(
            path@,
            match content {
                Some(c) => Some(c@),
                None => None,
            },
        ),
{
    match content {
        Some(c) => reply(200, content_type(path), c),
        None => text_reply(404, "not found\n"),
    }
}

proof fn lemma_page_name()
    ensures
        !is_absolute("index.html"@),
        !"index.html"@.contains('/'),
        is_component("index.html"@),
        "index.html"@ != dot_dot(),
        !components("index.html"@).contains(dot_dot()),
{
    let page = "index.html"@;
    reveal_strlit("index.html");
    assert(!page.contains('/'));
    assert(page.len() == 10 && dot().len() == 1 && dot_dot().len() == 2);
    lemma_split_whole(page, '/');
    let keep = |p: Seq<char>| is_component(p);
    let nil = Seq::<Seq<char>>::empty();
    reveal(Seq::filter);
    nil.lemma_filter_push(page, keep);
    assert(nil.filter(keep) =~= nil);
    assert(split(page, '/') =~= nil.push(page));
    assert(components(page) =~= seq![page]);
    assert(seq![page][0] == page);
}

/// Whatever is asked for and is no file, a directory among it, is answered with the first
/// page: as HTML, with all of its bytes and their number.
pub proof fn law_first_page(dir: Seq<char>, file: Option<Seq<char>>, page: Seq<u8>)
    ensures
        served_file(dir, false, file) == joined(dir, "index.html"@),
        file_reply(served_file(dir, false, file), Some(page)) == sized_reply(
            200,
            "text/html; charset=utf-8"@,
            page,
        ),
{
    let name = "index.html"@;
    lemma_page_name();
    law_join_name(dir, name);
    reveal_strlit("index.html");
    reveal_strlit("html");
    assert(name[5] == '.');
    assert(name.contains('.'));
    lemma_after_last(name, '.', 6);
    assert(name.skip(6) =~= "html"@);
}

// ---------------------------------------------------------------------------
// What is counted of a request
// ---------------------------------------------------------------------------

/// What is counted once a request is through.
#[derive(Debug, PartialEq, Eq)]
pub struct RequestCounts {
    pub labels: RequestLabels,
    pub host: HostLabels,
    pub received: u64,
    pub sent: u64,
    pub upstream_error: bool,
}

/// The host that a request is counted under; an empty one where it names none.
pub open spec fn counted_host(header: Option<Seq<char>>) -> Seq<char> {
    match host_of(header) {
        Some(h) => h,
        None => Seq::empty(),
    }
}

/// What is counted once a request is through. `status` is that of the answer, where
/// there was one.
pub fn logging(req: &HttpRequest, status: Option<u16>, failed: bool, ctx: &ProxyCtx) -> (r:
    RequestCounts)
    ensures
        r.labels.method@ == req@.method,
        r.labels.status == match status {
            Some(s) => s,
            None => 0,
        },
        r.labels.host@ == counted_host(req@.host),
        r.host.host@ == counted_host(req@.host),
        r.received == ctx.request_bytes,
        r.sent == ctx.response_bytes,
        r.upstream_error == failed,
{
    let host = match extract_host(&req.host) {
        Some(h) => h,
        None => String::new(),
    };
    assert(host@ =~= counted_host(req@.host));
    let number: u16 = match status {
        Some(s) => s,
        None => 0,
    };
    RequestCounts {
        labels: RequestLabels { method: req.method.clone(), status: number, host: host.clone() },
        host: HostLabels { host },
        received: ctx.request_bytes,
        sent: ctx.response_bytes,
        upstream_error: failed,
    }
}

// ---------------------------------------------------------------------------
// The manager
// ---------------------------------------------------------------------------

/// A listener that the proxy opens.
#[derive(Debug, PartialEq, Eq)]
pub struct Listener {
    pub address: String,
    pub port: u16,
    pub tls: bool,
}

/// The contents of a `Listener`.
#[verifier::ext_equal]
pub struct ListenerView {
    pub address: Seq<char>,
    pub port: u16,
    pub tls: bool,
}

impl View for Listener {
    type V = ListenerView;

    open spec fn view(&self) -> ListenerView {
        ListenerView { address: self.address@, port: self.port, tls: self.tls }
    }
}

/// A server that listens on all ports of the proxy.
#[derive(Debug, PartialEq, Eq)]
pub struct ServerStart {
    pub ports: Vec<u16>,
    pub tls_ports: Vec<u16>,
}

/// The listener of a port.
pub open spec fn listener_of(port: u16, tls_ports: Seq<u16>) -> ListenerView {
    ListenerView {
        address: "0.0.0.0:"@ + decimal(port as nat),
        port,
        tls: tls_ports.contains(port),
    }
}

fn has_port(v: &Vec<u16>, port: u16) -> (r: bool)
    ensures
        r == v@.contains(port),
{
    let mut i: usize = 0;
    while i < v.len()
        invariant
            i <= v@.len(),
            forall|j: int| 0 <= j < i ==> v@[j] != port,
        decreases v@.len() - i,
    {
        if v[i] == port {
            return true;
        }
        i += 1;
    }
    false
}

fn copy_ports(v: &Vec<u16>) -> (r: Vec<u16>)
    ensures
        r@ == v@,
{
    let mut out: Vec<u16> = Vec::new();
    let mut i: usize = 0;
    while i < v.len()
        invariant
            i <= v@.len(),
            out@ == v@.take(i as int),
        decreases v@.len() - i,
    {
        out.push(v[i]);
        assert(out@ =~= v@.take(i + 1));
        i += 1;
    }
    assert(v@.take(i as int) =~= v@);
    out
}

/// The listeners of a server: one for each port, with TLS where the port has a
/// certificate.
pub fn start_pingora_server(start: &ServerStart) -> (r: Vec<Listener>)
    ensures
        r@.map_values(|l: Listener| l@) == start.ports@.map_values(
            |p: u16| listener_of(p, start.tls_ports@),
        ),
{
    let ghost all = start.ports@;
    let ghost f = |p: u16| listener_of(p, start.tls_ports@);
    let ghost view = |l: Listener| l@;
    let mut out: Vec<Listener> = Vec::new();
    let mut i: usize = 0;
    assert(out@.map_values(view) =~= all.take(0).map_values(f));
    while i < start.ports.len()
        invariant
            i <= start.ports@.len(),
            all == start.ports@,
            f == (|p: u16| listener_of(p, start.tls_ports@)),
            view == (|l: Listener| l@),
            out@.map_values(view) == all.take(i as int).map_values(f),
        decreases start.ports@.len() - i,
    {
        let ghost was = out@.map_values(view);
        let port = start.ports[i];
        let listener = Listener {
            address: cat2("0.0.0.0:", number_text(port as u64).as_str()),
            port,
            tls: has_port(&start.tls_ports, port),
        };
        assert(listener@ == f(port));
        out.push(listener);
        proof {
            assert(out@.map_values(view) =~= was.push(f(all[i as int])));
            assert(all.take(i + 1) =~= all.take(i as int).push(all[i as int]));
            assert(out@.map_values(view) =~= all.take(i + 1).map_values(f));
        }
        i += 1;
    }
    assert(all.take(i as int) =~= all);
    out
}

/// The proxy.
#[derive(Debug, PartialEq, Eq)]
pub struct ProxyManager {
    pub routes: RouteTable,
    pub cache_ttl_secs: u64,
    pub ports: Vec<u16>,
    pub tls_ports: Vec<u16>,
    pub cert_store: DynamicCertStore,
    pub challenge_store: ChallengeStore,
}

/// The contents of a `ProxyManager`.
#[verifier::ext_equal]
pub struct ProxyView {
    pub routes: Seq<RouteView>,
    pub cache_ttl_secs: u64,
    pub ports: Seq<u16>,
    pub tls_ports: Seq<u16>,
    pub certs: CertStoreView,
    pub challenges: Map<Seq<char>, Seq<char>>,
}

impl View for ProxyManager {
    type V = ProxyView;

    open spec fn view(&self) -> ProxyView {
        ProxyView {
            routes: self.routes@,
            cache_ttl_secs: self.cache_ttl_secs,
            ports: self.ports@,
            tls_ports: self.tls_ports@,
            certs: self.cert_store@,
            challenges: self.challenge_store@,
        }
    }
}

/// A list of ports with one more, unless it is there.
pub open spec fn with_port(s: Seq<u16>, port: u16) -> Seq<u16> {
    if s.contains(port) {
        s
    } else {
        s.push(port)
    }
}

/// The routes with a route of a process in place of the ones that it had.
pub open spec fn with_route(s: Seq<RouteView>, r: RouteView) -> Seq<RouteView> {
    without_routes(s, r.name).push(r)
}

/// The name that a certificate is kept under.
pub open spec fn cert_name(host: Option<Seq<char>>) -> Seq<char> {
    match host {
        Some(h) => h,
        None => "default"@,
    }
}

/// The server that is started for a port: one where nothing listens on it yet, or where it is
/// to be a TLS port and is none yet.
pub open spec fn start_for(before: ProxyView, port: u16, tls: bool) -> Option<
    (Seq<u16>, Seq<u16>),
> {
    if before.ports.contains(port) && (!tls || before.tls_ports.contains(port)) {
        None
    } else {
        Some((with_port(before.ports, port), tls_ports_with(before.tls_ports, port, tls)))
    }
}

/// The TLS ports with a port, where it is to be one.
pub open spec fn tls_ports_with(tls_ports: Seq<u16>, port: u16, tls: bool) -> Seq<u16> {
    if tls {
        with_port(tls_ports, port)
    } else {
        tls_ports
    }
}

/// Whether a server that is started listens on a port with TLS.
pub open spec fn listens_tls(start: Option<(Seq<u16>, Seq<u16>)>, port: u16) -> bool {
    start matches Some((ports, tls_ports)) && ports.map_values(
        |p: u16| listener_of(p, tls_ports),
    ).contains(listener_of(port, tls_ports)) && listener_of(port, tls_ports).tls
}

/// The contents of an optional server.
pub open spec fn start_view(o: Option<ServerStart>) -> Option<(Seq<u16>, Seq<u16>)> {
    match o {
        Some(s) => Some((s.ports@, s.tls_ports@)),
        None => None,
    }
}

/// What reading the two files of a certificate gave.
#[derive(Debug, PartialEq, Eq)]
pub struct CertFiles {
    pub cert_path: String,
    pub key_path: String,
    pub cert: Result<Vec<u8>, String>,
    pub key: Result<Vec<u8>, String>,
}

/// The contents of `CertFiles`.
#[verifier::ext_equal]
pub struct CertFilesView {
    pub cert_path: Seq<char>,
    pub key_path: Seq<char>,
    pub cert: Result<Seq<u8>, Seq<char>>,
    pub key: Result<Seq<u8>, Seq<char>>,
}

impl View for CertFiles {
    type V = CertFilesView;

    open spec fn view(&self) -> CertFilesView {
        CertFilesView {
            cert_path: self.cert_path@,
            key_path: self.key_path@,
            cert: der_view(self.cert),
            key: der_view(self.key),
        }
    }
}

impl CertFilesView {
    /// What the files may give.
    pub open spec fn gives(self, outcome: Result<TlsView, Seq<char>>) -> bool {
        pair_loaded(self.cert_path, self.key_path, self.cert, self.key, outcome)
    }
}

/// The contents of the files of a certificate, where there are any.
pub open spec fn files_view(ssl: Option<CertFiles>) -> Option<CertFilesView> {
    match ssl {
        Some(f) => Some(f@),
        None => None,
    }
}

/// What preparing the certificate of a route gave: none where none is asked for.
pub type Prepared = Result<Option<TlsView>, Seq<char>>;

/// The contents of what preparing a certificate gave.
pub open spec fn prepared_view(r: Result<Option<TlsCertificate>, String>) -> Prepared {
    match r {
        Ok(Some(c)) => Ok(Some(c@)),
        Ok(None) => Ok(None),
        Err(e) => Err(e@),
    }
}

/// What preparing the certificate of a route may give.
pub open spec fn may_prepare(ssl: Option<CertFilesView>, outcome: Prepared) -> bool {
    match ssl {
        None => outcome == Ok::<Option<TlsView>, Seq<char>>(None),
        Some(f) => match outcome {
            Ok(Some(t)) => f.gives(Ok(t)),
            Ok(None) => false,
            Err(e) => f.gives(Err(e)),
        },
    }
}

/// Prepares the certificate of a route, where one is asked for.
pub fn prepare(ssl: Option<CertFiles>) -> (r: Result<Option<TlsCertificate>, String>)
    ensures
        may_prepare(files_view(ssl), prepared_view(r)),
{
    match ssl {
        None => Ok(None),
        Some(f) => match load_pair(f.cert_path.as_str(), f.key_path.as_str(), f.cert, f.key) {
            Ok(c) => Ok(Some(c)),
            Err(e) => Err(e),
        },
    }
}

/// The proxy with a route whose certificate was refused.
pub open spec fn half_routed(p: ProxyView, r: RouteView) -> ProxyView {
    ProxyView { routes: with_route(p.routes, r), ..p }
}

/// The proxy with a route in place of the one that its process had, and the server that is
/// started where nothing listens on the port yet, or not with TLS; or why its certificate was
/// refused, where the route is there all the same.
pub open spec fn route_added(p: ProxyView, r: RouteView, prepared: Prepared) -> (
    ProxyView,
    Result<Option<(Seq<u16>, Seq<u16>)>, Seq<char>>,
) {
    match prepared {
        Err(e) => (half_routed(p, r), Err(e)),
        Ok(cert) => (
            ProxyView {
                routes: with_route(p.routes, r),
                ports: with_port(p.ports, r.port),
                tls_ports: tls_ports_with(p.tls_ports, r.port, cert is Some),
                certs: match cert {
                    Some(c) => p.certs.with(cert_name(r.host), c),
                    None => p.certs,
                },
                ..p
            },
            Ok(start_for(p, r.port, cert is Some)),
        ),
    }
}

/// The contents of what adding a route gave.
pub open spec fn start_result(r: Result<Option<ServerStart>, String>) -> Result<
    Option<(Seq<u16>, Seq<u16>)>,
    Seq<char>,
> {
    match r {
        Ok(s) => Ok(start_view(s)),
        Err(e) => Err(e@),
    }
}

/// Whether nothing occurs twice in a list of ports.
pub open spec fn distinct_ports(s: Seq<u16>) -> bool {
    forall|i: int, j: int| #![trigger s[i], s[j]] 0 <= i < j < s.len() ==> s[i] != s[j]
}

/// Whether the ports of one list are all in another.
pub open spec fn ports_within(a: Seq<u16>, b: Seq<u16>) -> bool {
    forall|p: u16| #[trigger] a.contains(p) ==> b.contains(p)
}

impl ProxyView {
    /// No process has two routes, no port is listed twice, and every TLS port is a port.
    pub open spec fn in_order(self) -> bool {
        &&& distinct_routes(self.routes)
        &&& distinct_ports(self.ports)
        &&& distinct_ports(self.tls_ports)
        &&& ports_within(self.tls_ports, self.ports)
    }
}

proof fn lemma_with_port(s: Seq<u16>, port: u16)
    ensures
        with_port(s, port).contains(port),
        ports_within(s, with_port(s, port)),
        forall|p: u16| #[trigger] with_port(s, port).contains(p) ==> p == port || s.contains(p),
        distinct_ports(s) ==> distinct_ports(with_port(s, port)),
{
    let t = with_port(s, port);
    if !s.contains(port) {
        assert(t[s.len() as int] == port);
        assert forall|p: u16| #[trigger] s.contains(p) implies t.contains(p) by {
            let i = choose|i: int| 0 <= i < s.len() && s[i] == p;
            assert(t[i] == p);
        }
        assert forall|p: u16| #[trigger] t.contains(p) implies p == port || s.contains(p) by {
            let i = choose|i: int| 0 <= i < t.len() && t[i] == p;
            if i < s.len() {
                assert(s[i] == p);
            }
        }
        if distinct_ports(s) {
            assert forall|i: int, j: int|
                #![trigger t[i], t[j]]
                0 <= i < j < t.len() implies t[i] != t[j] by {
                assert(t[i] == s[i]);
                if j == s.len() {
                    assert(s.contains(s[i]));
                } else {
                    assert(s[i] != s[j]);
                }
            }
        }
    }
}

proof fn lemma_with_route(s: Seq<RouteView>, r: RouteView)
    requires
        distinct_routes(s),
    ensures
        distinct_routes(with_route(s, r)),
{
    lemma_without_routes(s, r.name);
    let kept = without_routes(s, r.name);
    let t = with_route(s, r);
    assert forall|i: int, j: int|
        #![trigger t[i], t[j]]
        0 <= i < j < t.len() implies t[i].name != t[j].name by {
        assert(t[i] == kept[i]);
        if j < kept.len() {
            assert(t[j] == kept[j]);
        }
    }
}

/// Adding a route keeps the proxy in order: no process has two routes, no port is listed
/// twice and every TLS port is a port. The process has just this route, the routes of the
/// others stay, and where it succeeds the port is listed once. A server is started exactly
/// where the port was not listed before, or becomes a TLS port; with a certificate either that
/// server listens on the port with TLS, or one did before.
pub proof fn law_route_added(p: ProxyView, r: RouteView, prepared: Prepared)
    requires
        p.in_order(),
    ensures
        ({
            let (q, result) = route_added(p, r, prepared);
            &&& q.in_order()
            &&& q.routes.contains(r)
            &&& without_routes(q.routes, r.name) == without_routes(p.routes, r.name)
            &&& result is Ok ==> q.ports.contains(r.port) && (result->Ok_0 is Some
                <==> !p.ports.contains(r.port) || q.tls_ports != p.tls_ports)
            &&& prepared matches Ok(Some(c)) ==> {
                &&& q.tls_ports.contains(r.port)
                &&& q.certs == p.certs.with(cert_name(r.host), c)
                &&& p.tls_ports.contains(r.port) || listens_tls(result->Ok_0, r.port)
            }
        }),
{
    let (q, result) = route_added(p, r, prepared);
    lemma_with_route(p.routes, r);
    law_routes_of_process(p.routes, r);
    assert(q.routes[q.routes.len() - 1] == r);
    lemma_with_port(p.ports, r.port);
    lemma_with_port(p.tls_ports, r.port);
    assert forall|x: u16| #[trigger] q.tls_ports.contains(x) implies q.ports.contains(x) by {
        if p.tls_ports.contains(x) {
            assert(p.ports.contains(x));
        }
    }
    if result is Ok && !p.tls_ports.contains(r.port) {
        assert(q.ports.contains(r.port));
        assert(with_port(p.tls_ports, r.port).len() != p.tls_ports.len());
        let i = choose|i: int| 0 <= i < q.ports.len() && q.ports[i] == r.port;
        let all = q.ports.map_values(|x: u16| listener_of(x, q.tls_ports));
        assert(all[i] == listener_of(r.port, q.tls_ports));
    }
}

/// Removing the routes of a process keeps the proxy in order.
pub proof fn law_routes_removed(p: ProxyView, name: Seq<char>)
    requires
        p.in_order(),
    ensures
        (ProxyView { routes: without_routes(p.routes, name), ..p }).in_order(),
{
    lemma_without_routes(p.routes, name);
}

impl ProxyManager {
    /// Each host has one certificate, each token one answer, each process one route, no port
    /// is listed twice and every TLS port is a port.
    pub open spec fn valid(self) -> bool {
        &&& self.cert_store.valid()
        &&& self.challenge_store.valid()
        &&& self@.in_order()
    }

    /// A proxy without routes.
    pub fn new(challenge_store: ChallengeStore) -> (r: ProxyManager)
        requires
            challenge_store.valid(),
        ensures
            r.valid(),
            r@ == (ProxyView {
                routes: Seq::empty(),
                cache_ttl_secs: DEFAULT_CACHE_TTL_SECS,
                ports: Seq::empty(),
                tls_ports: Seq::empty(),
                certs: CertStoreView { certs: Map::empty(), default_cert: None },
                challenges: challenge_store@,
            }),
    {
        ProxyManager {
            routes: RouteTable::new(),
            cache_ttl_secs: DEFAULT_CACHE_TTL_SECS,
            ports: Vec::new(),
            tls_ports: Vec::new(),
            cert_store: DynamicCertStore::new(),
            challenge_store,
        }
    }

    /// Sets how long the cache holds an answer.
    pub fn set_cache_ttl(&mut self, secs: u64)
        ensures
            final(self)@ == (ProxyView { cache_ttl_secs: secs, ..old(self)@ }),
            old(self).valid() ==> final(self).valid(),
    {
        self.cache_ttl_secs = secs;
    }

    /// Adds a route of a process, in place of the one that it had. A server is started
    /// where nothing listens on the port yet.
    pub fn add_route(&mut self, name: &str, port: u16, host: Option<String>, backend: Backend) -> (r:
        Option<ServerStart>)
        requires
            old(self).valid(),
        ensures
            final(self).valid(),
            (final(self)@, Ok::<_, Seq<char>>(start_view(r))) == route_added(
                old(self)@,
                RouteView { name: name@, port, host: opt_text(host), backend: backend@ },
                Ok(None),
            ),
    {
        match self.add_prepared(name, port, host, backend, Ok(None)) {
            Ok(s) => s,
            Err(_) => None,
        }
    }

    /// Puts a route of a process in place of the one that it had.
    fn put_route(&mut self, name: &str, port: u16, host: Option<String>, backend: Backend)
        requires
            old(self).valid(),
        ensures
            final(self).valid(),
            final(self)@ == half_routed(
                old(self)@,
                RouteView { name: name@, port, host: opt_text(host), backend: backend@ },
            ),
    {
        let ghost before = self.routes@;
        self.routes.remove(name);
        let ghost kept = self.routes@;
        let entry = RouteEntry { name: name.to_string(), port, host, backend };
        let ghost e = entry@;
        self.routes.entries.push(entry);
        proof {
            lemma_with_route(before, e);
            assert(self.routes@ =~= kept.push(e));
        }
    }

    /// Adds a route of a process, given what preparing its certificate gave. The route is
    /// there even where the certificate is refused.
    pub fn add_prepared(
        &mut self,
        name: &str,
        port: u16,
        host: Option<String>,
        backend: Backend,
        prepared: Result<Option<TlsCertificate>, String>,
    ) -> (r: Result<Option<ServerStart>, String>)
        requires
            old(self).valid(),
        ensures
            final(self).valid(),
            (final(self)@, start_result(r)) == route_added(
                old(self)@,
                RouteView { name: name@, port, host: opt_text(host), backend: backend@ },
                prepared_view(prepared),
            ),
    {
        let ghost before = self@;
        let ghost route = RouteView { name: name@, port, host: opt_text(host), backend: backend@ };
        let ghost given = prepared_view(prepared);
        let name_of_cert = match &host {
            Some(h) => h.clone(),
            None => "default".to_string(),
        };
        assert(name_of_cert@ == cert_name(opt_text(host)));
        self.put_route(name, port, host, backend);
        proof {
            law_route_added(before, route, given);
            lemma_with_port(before.ports, port);
            lemma_with_port(before.tls_ports, port);
        }
        let cert = match prepared {
            Ok(c) => c,
            Err(e) => {
                return Err(e);
            },
        };
        let mut ready = has_port(&self.ports, port);
        if !ready {
            self.ports.push(port);
        }
        match cert {
            Some(c) => {
                self.cert_store.put_cert(name_of_cert.as_str(), c);
                if !has_port(&self.tls_ports, port) {
                    self.tls_ports.push(port);
                    ready = false;
                }
            },
            None => {},
        }
        if ready {
            return Ok(None);
        }
        Ok(
            Some(
                ServerStart {
                    ports: copy_ports(&self.ports),
                    tls_ports: copy_ports(&self.tls_ports),
                },
            ),
        )
    }

    /// Adds a route of a process, with a certificate where its files are given. The route
    /// is there even where the certificate is refused.
    pub fn add_route_with_tls(
        &mut self,
        name: &str,
        port: u16,
        host: Option<String>,
        backend: Backend,
        ssl: Option<CertFiles>,
    ) -> (r: Result<Option<ServerStart>, String>)
        requires
            old(self).valid(),
        ensures
            final(self).valid(),
            exists|prepared: Prepared| #[trigger]
                may_prepare(files_view(ssl), prepared) && (final(self)@, start_result(r)) == route_added(
                    old(self)@,
                    RouteView { name: name@, port, host: opt_text(host), backend: backend@ },
                    prepared,
                ),
    {
        let prepared = prepare(ssl);
        self.add_prepared(name, port, host, backend, prepared)
    }

    /// Removes the routes of a process.
    pub fn remove_routes(&mut self, name: &str)
        requires
            old(self).valid(),
        ensures
            final(self).valid(),
            final(self)@ == (ProxyView {
                routes: without_routes(old(self)@.routes, name@),
                ..old(self)@
            }),
    {
        let ghost before = self.routes@;
        proof {
            law_routes_removed(self@, name@);
        }
        self.routes.remove(name);
    }
}

/// A process whose routes are removed has none; one that is given a route has that one
/// alone, and the routes of the other processes stay.
pub proof fn law_routes_of_process(s: Seq<RouteView>, r: RouteView)
    ensures
        forall|i: int|
            0 <= i < without_routes(s, r.name).len() ==> (#[trigger] without_routes(
                s,
                r.name,
            )[i]).name != r.name,
        with_route(s, r).last() == r,
        without_routes(with_route(s, r), r.name) == without_routes(s, r.name),
{
    lemma_without_routes(s, r.name);
    let keep = |x: RouteView| x.name != r.name;
    let t = without_routes(s, r.name);
    t.lemma_filter_push(r, keep);
    lemma_filter_all(t, r.name);
}

proof fn lemma_filter_all(s: Seq<RouteView>, name: Seq<char>)
    requires
        forall|i: int| 0 <= i < s.len() ==> (#[trigger] s[i]).name != name,
    ensures
        without_routes(s, name) == s,
    decreases s.len(),
{
    let keep = |x: RouteView| x.name != name;
    reveal(Seq::filter);
    if s.len() > 0 {
        lemma_filter_all(s.drop_last(), name);
        assert(s =~= s.drop_last().push(s.last()));
        s.drop_last().lemma_filter_push(s.last(), keep);
    } else {
        assert(s.filter(keep) =~= s);
    }
}

// ---------------------------------------------------------------------------
// What a request meets
// ---------------------------------------------------------------------------

/// A request is routed only to a route of its port, under its host or under none; a route under
/// its host goes first, and with neither there is none.
pub proof fn law_routing(s: Seq<RouteView>, port: u16, host: Option<Seq<char>>)
    ensures
        route_of(s, port, host) matches Some(r) ==> {
            &&& s.contains(r) && r.port == port
            &&& r.host is None || r.host == host
            &&& r.host is None && host is Some ==> forall|i: int|
                0 <= i < s.len() && (#[trigger] s[i]).port == port ==> s[i].host != host
        },
        route_of(s, port, host) is None <==> forall|i: int|
            0 <= i < s.len() && (#[trigger] s[i]).port == port ==> s[i].host is Some && s[i].host
                != host,
{
    lemma_exact_sound(s, port, host);
    lemma_exact_sound(s, port, None);
    let ways = exact_route(s, port, host);
    if let Some(r) = exact_route(s, port, None) {
        let k = choose|k: int| 0 <= k < s.len() && s[k] == r;
        assert(s[k].port == port && s[k].host is None);
    }
    if host is Some && ways is Some {
        let r = ways->Some_0;
        let k = choose|k: int| 0 <= k < s.len() && s[k] == r;
        assert(s[k].port == port && s[k].host == host);
    }
}

proof fn lemma_exact_sound(s: Seq<RouteView>, port: u16, host: Option<Seq<char>>)
    ensures
        exact_route(s, port, host) matches Some(r) ==> s.contains(r) && r.port == port && r.host
            == host,
        exact_route(s, port, host) is None ==> forall|i: int|
            0 <= i < s.len() && (#[trigger] s[i]).port == port ==> s[i].host != host,
    decreases s.len(),
{
    if s.len() > 0 {
        if s[0].port == port && s[0].host == host {
            assert(s.contains(s[0]));
        } else {
            let t = s.skip(1);
            lemma_exact_sound(t, port, host);
            if let Some(r) = exact_route(t, port, host) {
                let k = choose|k: int| 0 <= k < t.len() && t[k] == r;
                assert(s[k + 1] == r);
            } else {
                assert forall|i: int|
                    0 <= i < s.len() && (#[trigger] s[i]).port == port implies s[i].host != host by {
                    if i > 0 {
                        assert(s[i] == t[i - 1]);
                    }
                }
            }
        }
    }
}

/// A route without a host takes what comes in on its port under a host that no route of that
/// port names, and what comes in without one.
pub proof fn law_any_host(s: Seq<RouteView>, r: RouteView, host: Option<Seq<char>>)
    requires
        s.contains(r),
        r.host is None,
        forall|i: int|
            0 <= i < s.len() && (#[trigger] s[i]).port == r.port ==> s[i] == r || (s[i].host is Some
                && s[i].host != host),
    ensures
        route_of(s, r.port, host) == Some(r),
{
    law_routing(s, r.port, host);
    let k = choose|k: int| 0 <= k < s.len() && s[k] == r;
    assert(s[k].port == r.port);
    if let Some(q) = route_of(s, r.port, host) {
        let j = choose|j: int| 0 <= j < s.len() && s[j] == q;
        assert(s[j].port == r.port);
    }
}

/// The host of a request is what its header says before a colon, and its port is the one it
/// came in on, or else the fallback.
pub proof fn law_host_and_port(host: Seq<char>, rest: Seq<char>, port: u16)
    requires
        !host.contains(':'),
    ensures
        host_of(Some(host)) == Some(host),
        host_of(Some(host + seq![':'] + rest)) == Some(host),
        host_of(None) is None,
        port_of(Some(port)) == port,
        port_of(None) == 80,
{
    lemma_before(host, ':', rest);
}

/// What stands before the first of a character.
proof fn lemma_before(a: Seq<char>, c: char, rest: Seq<char>)
    requires
        !a.contains(c),
    ensures
        before(a, c) == a,
        before(a + seq![c] + rest, c) == a,
{
    let s = a + seq![c] + rest;
    assert forall|i: int| 0 <= i < a.len() implies a[i] != c by {
        assert(a.contains(a[i]));
    }
    lemma_find_is(a, c, a.len() as int);
    assert(a.take(a.len() as int) =~= a);
    assert forall|i: int| 0 <= i < a.len() implies s[i] != c by {
        assert(s[i] == a[i]);
    }
    assert(s[a.len() as int] == c);
    lemma_find_is(s, c, a.len() as int);
    assert(s.take(a.len() as int) =~= a);
}

/// What becomes of a request that is no answered challenge: a directory is served, a `GET` to a
/// process is looked up in the cache first, any other request to a process is forwarded, and
/// without a route the answer is that there is none.
pub proof fn law_request_filtered(
    routes: Seq<RouteView>,
    challenges: Map<Seq<char>, Seq<char>>,
    req: HttpRequestView,
    dir: Seq<char>,
    upstream: u16,
)
    requires
        forall|token: Seq<char>|
            req.path == "/.well-known/acme-challenge/"@ + token
                ==> !#[trigger] challenges.contains_key(token),
    ensures
        ({
            let action = filtered(routes, challenges, req);
            let route = route_of(routes, port_of(req.port), host_of(req.host));
            &&& route is None ==> action == FilterActionView::Answer(
                ReplyView {
                    status: 404,
                    headers: seq![
                        ("content-type"@, "text/plain"@),
                        ("content-length"@, decimal(encode_utf8("no route found\n"@).len())),
                    ],
                    body: encode_utf8("no route found\n"@),
                },
            )
            &&& route matches Some(r) ==> {
                &&& r.backend == BackendView::Spa(dir) ==> action == FilterActionView::ServeSpa(
                    dir,
                    req.path,
                )
                &&& r.backend == BackendView::Proxy(upstream) && req.method == "GET"@ ==> action
                    == FilterActionView::LookUp(
                    cache_key_of(host_of(req.host), req.path, req.query),
                )
                &&& r.backend == BackendView::Proxy(upstream) && req.method != "GET"@ ==> action
                    == FilterActionView::Forward
            }
        }),
{
    let prefix = "/.well-known/acme-challenge/"@;
    if prefix.is_prefix_of(req.path) {
        let token = req.path.skip(prefix.len() as int);
        assert(req.path =~= prefix + token);
        assert(!challenges.contains_key(token));
    }
}

/// A challenge is answered with its key authorization as plain text, whatever the routes are.
pub proof fn law_challenge_text(
    routes: Seq<RouteView>,
    challenges: Map<Seq<char>, Seq<char>>,
    req: HttpRequestView,
    token: Seq<char>,
)
    requires
        challenges.contains_key(token),
        req.path == "/.well-known/acme-challenge/"@ + token,
    ensures
        filtered(routes, challenges, req) matches FilterActionView::Answer(r) && {
            &&& r.status == 200
            &&& r.body == encode_utf8(challenges[token])
            &&& r.headers == seq![
                ("content-type"@, "text/plain"@),
                ("content-length"@, decimal(encode_utf8(challenges[token]).len())),
            ]
        },
{
    law_challenge_first(routes, challenges, req, token);
}

/// Two requests share a place in the cache only where host, path and query are the same.
pub proof fn law_cache_keys_differ(
    a: (Seq<char>, Seq<char>, Option<Seq<char>>),
    b: (Seq<char>, Seq<char>, Option<Seq<char>>),
)
    requires
        !a.0.contains('/') && !b.0.contains('/'),
        a.1.len() > 0 && a.1[0] == '/' && !a.1.contains('?'),
        b.1.len() > 0 && b.1[0] == '/' && !b.1.contains('?'),
        !a.0.contains('?') && !b.0.contains('?'),
        cache_key_of(Some(a.0), a.1, a.2) == cache_key_of(Some(b.0), b.1, b.2),
    ensures
        a == b,
{
    reveal_strlit("?");
    lemma_key_parts(a.0, a.1, a.2);
    lemma_key_parts(b.0, b.1, b.2);
    let k = cache_key_of(Some(a.0), a.1, a.2);
    let f = find(k, '/');
    let g = find(k, '?');
    assert(a.0 =~= k.take(f) && b.0 =~= k.take(f));
    assert(a.1 =~= k.subrange(f, g) && b.1 =~= k.subrange(f, g));
    if g == k.len() {
        assert(a.2 is None && b.2 is None);
    } else {
        assert(a.2->Some_0 =~= k.skip(g + 1) && b.2->Some_0 =~= k.skip(g + 1));
    }
}

proof fn lemma_key_parts(host: Seq<char>, path: Seq<char>, query: Option<Seq<char>>)
    requires
        !host.contains('/') && !host.contains('?'),
        path.len() > 0 && path[0] == '/' && !path.contains('?'),
    ensures
        ({
            let k = cache_key_of(Some(host), path, query);
            let f = find(k, '/');
            let g = find(k, '?');
            &&& f == host.len() && g == host.len() + path.len()
            &&& k.take(f) == host && k.subrange(f, g) == path
            &&& query is None <==> g == k.len()
            &&& query matches Some(q) ==> q == k.skip(g + 1)
        }),
{
    reveal_strlit("?");
    let k = cache_key_of(Some(host), path, query);
    let f: int = host.len() as int;
    let g: int = (host.len() + path.len()) as int;
    assert forall|i: int| 0 <= i < f implies k[i] != '/' by {
        assert(k[i] == host[i]);
        assert(host.contains(host[i]));
    }
    assert(k[f] == path[0]);
    lemma_find_is(k, '/', f);
    assert forall|i: int| 0 <= i < g implies k[i] != '?' by {
        if i < f {
            assert(k[i] == host[i]);
            assert(host.contains(host[i]));
        } else {
            assert(k[i] == path[i - f]);
            assert(path.contains(path[i - f]));
        }
    }
    lemma_find_is(k, '?', g);
    assert(k.take(f) =~= host);
    assert(k.subrange(f, g) =~= path);
    if let Some(q) = query {
        assert(k.skip(g + 1) =~= q);
    }
}

/// What a request's place in the cache is called.
pub proof fn law_cache_key(host: Seq<char>, path: Seq<char>, query: Seq<char>)
    ensures
        cache_key_of(Some(host), path, None) == host + path,
        cache_key_of(Some(host), path, Some(query)) == host + path + "?"@ + query,
        cache_key_of(None, path, None) == "localhost"@ + path,
        cache_key_of(None, path, Some(query)) == "localhost"@ + path + "?"@ + query,
{
    assert(host + path + Seq::<char>::empty() =~= host + path);
    assert("localhost"@ + path + Seq::<char>::empty() =~= "localhost"@ + path);
    assert(host + path + ("?"@ + query) =~= host + path + "?"@ + query);
    assert("localhost"@ + path + ("?"@ + query) =~= "localhost"@ + path + "?"@ + query);
}

/// The size of a request is the number that its header gives, and else none is counted.
pub proof fn law_request_size(n: u64, s: Seq<char>)
    ensures
        body_size(Some(decimal(n as nat))) == n,
        body_size(None) == 0,
        parsed(s, u64::MAX as nat) is None ==> body_size(Some(s)) == 0,
{
    law_parse_decimal(n as nat, u64::MAX as nat);
}

/// The headers that a process sees: exactly one says over what the request came in, `https` if
/// and only if it was TLS; the client's address is told without its port, also as the real one
/// where none was told yet; the host is told as it was asked for. No header is set twice, and
/// there are no others.
pub proof fn law_forwarded_headers(
    client: Option<Seq<char>>,
    has_real_ip: bool,
    is_https: bool,
    host: Option<Seq<char>>,
)
    ensures
        ({
            let h = forwarded(client, has_real_ip, is_https, host);
            &&& forall|i: int, j: int|
                #![trigger h[i], h[j]]
                0 <= i < h.len() && 0 <= j < h.len() && h[i].0 == h[j].0 ==> i == j
            &&& h.contains(
                ("X-Forwarded-Proto"@, if is_https {
                    "https"@
                } else {
                    "http"@
                }),
            )
            &&& client matches Some(a) ==> h.contains(("X-Forwarded-For"@, a.take(find(a, ':'))))
            &&& client matches Some(a) ==> !has_real_ip ==> h.contains(
                ("X-Real-IP"@, a.take(find(a, ':'))),
            )
            &&& host matches Some(t) ==> h.contains(("X-Forwarded-Host"@, t))
            &&& forall|i: int|
                #![trigger h[i]]
                0 <= i < h.len() ==> {
                    ||| h[i].0 == "X-Forwarded-Proto"@
                    ||| h[i].0 == "X-Forwarded-For"@ && client is Some
                    ||| h[i].0 == "X-Real-IP"@ && client is Some && !has_real_ip
                    ||| h[i].0 == "X-Forwarded-Host"@ && host is Some
                }
        }),
{
    reveal_strlit("X-Forwarded-Proto");
    reveal_strlit("X-Forwarded-For");
    reveal_strlit("X-Real-IP");
    reveal_strlit("X-Forwarded-Host");
    let h = forwarded(client, has_real_ip, is_https, host);
    let n: int = match client {
        Some(_) => if has_real_ip {
            1int
        } else {
            2
        },
        None => 0,
    };
    assert(h[n].0 == "X-Forwarded-Proto"@);
    if client is Some {
        assert(h[0].0 == "X-Forwarded-For"@);
        if !has_real_ip {
            assert(h[1].0 == "X-Real-IP"@);
        }
    }
    if host is Some {
        assert(h[n + 1].0 == "X-Forwarded-Host"@);
    }
    assert(h.len() == n + 1 + if host is Some {
        1int
    } else {
        0
    });
}

/// One pair of the headers names the protocol, and its value is `https` if and only if the
/// request came in over TLS, and else `http`.
pub proof fn law_forwarded_proto(
    client: Option<Seq<char>>,
    has_real_ip: bool,
    is_https: bool,
    host: Option<Seq<char>>,
) -> (i: int)
    ensures
        ({
            let h = forwarded(client, has_real_ip, is_https, host);
            &&& 0 <= i < h.len() && h[i].0 == "X-Forwarded-Proto"@
            &&& forall|j: int|
                0 <= j < h.len() && (#[trigger] h[j]).0 == "X-Forwarded-Proto"@ ==> j == i
            &&& h[i].1 == "https"@ <==> is_https
            &&& h[i].1 == "http"@ <==> !is_https
        }),
{
    law_forwarded_headers(client, has_real_ip, is_https, host);
    let h = forwarded(client, has_real_ip, is_https, host);
    let pair = ("X-Forwarded-Proto"@, if is_https {
        "https"@
    } else {
        "http"@
    });
    reveal_strlit("https");
    reveal_strlit("http");
    assert("https"@.len() != "http"@.len());
    assert(h.contains(pair));
    let i = choose|i: int| 0 <= i < h.len() && h[i] == pair;
    i
}

/// The head of an answer marks a request for the cache only where its status is 200 and the
/// request has a key; it then sets both marks, and else it changes nothing.
pub proof fn law_head_marks(c: ProxyCtxView, status: u16)
    ensures
        ({
            let d = head_seen(c, status);
            &&& status != 200 ==> d == c
            &&& c.cache_key.len() == 0 ==> d == c
            &&& status == 200 && c.cache_key.len() > 0 ==> d.should_cache && d.response_header
            &&& d.cache_key == c.cache_key && d.response_body == c.response_body
            &&& d.request_bytes == c.request_bytes && d.response_bytes == c.response_bytes
        }),
{
}

/// An answer with another status than 200, or to a request without a key, is never cached,
/// whatever pieces its body comes in.
pub proof fn law_others_not_cached(
    c: ProxyCtxView,
    status: u16,
    chunks: Seq<Seq<u8>>,
    last: Option<Seq<u8>>,
    end: bool,
)
    requires
        !c.should_cache,
        status != 200 || c.cache_key.len() == 0,
    ensures
        !head_seen(c, status).should_cache,
        !pieces_seen(head_seen(c, status), chunks).should_cache,
        piece_seen(pieces_seen(head_seen(c, status), chunks), last, end).1 is None,
    decreases chunks.len(),
{
    if chunks.len() > 0 {
        law_others_not_cached(c, status, chunks.drop_last(), last, end);
    }
}

/// A body is cached at its end and at no piece before; what is cached is under the key of the
/// request, with its length and without a transfer encoding.
pub proof fn law_cached_entry(c: ProxyCtxView, chunk: Option<Seq<u8>>, end: bool)
    ensures
        ({
            let (d, insert) = piece_seen(c, chunk, end);
            let more = match chunk {
                Some(b) => b,
                None => Seq::empty(),
            };
            &&& insert is Some ==> end && c.should_cache && c.response_header
            &&& insert matches Some(i) ==> {
                &&& i.key == c.cache_key
                &&& i.body == c.response_body + more
                &&& i.edits == seq![
                    HeaderEditView::Remove("Transfer-Encoding"@),
                    HeaderEditView::Insert("Content-Length"@, decimal(i.body.len())),
                ]
                &&& !d.response_header
            }
            &&& end && c.should_cache && c.response_header && (c.response_body + more).len()
                <= 5242880 ==> insert is Some
            &&& c.should_cache && chunk is Some && (c.response_body + more).len() > 5242880 ==> {
                &&& insert is None && !d.should_cache && d.response_body.len() == 0
            }
            &&& !c.should_cache ==> !d.should_cache && d.response_body == c.response_body
            &&& c.should_cache && !end && (c.response_body + more).len() <= 5242880
                ==> d.response_body == c.response_body + more && d.should_cache
                && d.response_header == c.response_header
            &&& d.cache_key == c.cache_key && d.request_bytes == c.request_bytes
            &&& c.response_bytes + more.len() <= u64::MAX ==> d.response_bytes == c.response_bytes
                + more.len()
        }),
{
}

/// The whole way of an answer into the cache: a body that comes in pieces after a head with
/// status 200 is inserted whole at its end, under the key of the request, where it is not too
/// long.
pub proof fn law_answer_cached(c: ProxyCtxView, chunks: Seq<Seq<u8>>, last: Seq<u8>)
    requires
        !c.should_cache && !c.response_header && c.response_body.len() == 0,
        c.cache_key.len() > 0,
        c.response_bytes + flat(chunks).len() + last.len() <= u64::MAX,
    ensures
        ({
            let insert = piece_seen(pieces_seen(head_seen(c, 200), chunks), Some(last), true).1;
            let body = flat(chunks) + last;
            &&& body.len() <= 5242880 ==> (insert matches Some(i) && i.key == c.cache_key && i.body
                == body)
            &&& body.len() > 5242880 ==> insert is None
        }),
{
    law_cached_body(head_seen(c, 200), chunks, Some(last));
}

// ---------------------------------------------------------------------------
// What a directory gives
// ---------------------------------------------------------------------------

/// The file that is asked for is the path below the directory, whatever slashes lead it, and
/// the first page where there is no path.
pub proof fn law_asked_file(dir: Seq<char>, slashes: Seq<char>, path: Seq<char>)
    requires
        forall|i: int| 0 <= i < slashes.len() ==> #[trigger] slashes[i] == '/',
        path.len() > 0 ==> path[0] != '/',
        dir.len() > 0 && dir.last() != '/',
    ensures
        path.len() > 0 ==> asked_file(dir, slashes + path) == dir + seq!['/'] + path,
        asked_file(dir, slashes) == dir + "/index.html"@,
{
    let k = CharClass::Is('/');
    let s = slashes + path;
    lemma_trim_front(slashes, path, k);
    lemma_trim_front(slashes, Seq::empty(), k);
    assert(slashes + Seq::<char>::empty() =~= slashes);
    reveal_strlit("index.html");
    reveal_strlit("/index.html");
    assert(dir + seq!['/'] + "index.html"@ =~= dir + "/index.html"@);
}

proof fn lemma_trim_front(a: Seq<char>, b: Seq<char>, k: CharClass)
    requires
        forall|i: int| 0 <= i < a.len() ==> k.holds(#[trigger] a[i]),
        b.len() > 0 ==> !k.holds(b[0]),
    ensures
        trim_start(a + b, k) == b,
    decreases a.len(),
{
    let s = a + b;
    if a.len() > 0 {
        assert(s[0] == a[0]);
        assert(s.skip(1) =~= a.skip(1) + b);
        lemma_trim_front(a.skip(1), b, k);
    } else {
        assert(s =~= b);
    }
}

/// A file of the directory is served as itself; what is no file, or lies elsewhere, is answered
/// with the first page.
pub proof fn law_served_file(dir: Seq<char>, is_file: bool, file: Seq<char>)
    requires
        dir.len() > 0 && dir.last() != '/',
    ensures
        is_file && is_under(file, dir) ==> served_file(dir, is_file, Some(file)) == file,
        !is_file || !is_under(file, dir) ==> served_file(dir, is_file, Some(file)) == dir
            + "/index.html"@,
        served_file(dir, is_file, None) == dir + "/index.html"@,
{
    reveal_strlit("index.html");
    reveal_strlit("/index.html");
    assert(dir + seq!['/'] + "index.html"@ =~= dir + "/index.html"@);
}

/// What a file is served as: its bytes, their number, and a type by its extension; a file that
/// cannot be read is not found.
pub proof fn law_file_reply(path: Seq<char>, content: Seq<u8>)
    ensures
        file_reply(path, Some(content)) == (ReplyView {
            status: 200,
            headers: seq![
                ("content-type"@, file_type(path)),
                ("content-length"@, decimal(content.len())),
            ],
            body: content,
        }),
        file_reply(path, None) == (ReplyView {
            status: 404,
            headers: seq![("content-type"@, "text/plain"@)],
            body: encode_utf8("not found\n"@),
        }),
        extension_of(path) is None ==> file_type(path) == "application/octet-stream"@,
{
}

/// The type of a page, a style, a script or data by its extension.
pub proof fn law_page_types(path: Seq<char>, e: Seq<char>)
    requires
        extension_of(path) == Some(e),
    ensures
        e == "html"@ ==> file_type(path) == "text/html; charset=utf-8"@,
        e == "css"@ ==> file_type(path) == "text/css; charset=utf-8"@,
        e == "js"@ || e == "mjs"@ ==> file_type(path) == "application/javascript; charset=utf-8"@,
        e == "json"@ ==> file_type(path) == "application/json; charset=utf-8"@,
        e == "xml"@ ==> file_type(path) == "application/xml"@,
        e == "txt"@ ==> file_type(path) == "text/plain; charset=utf-8"@,
        e == "pdf"@ ==> file_type(path) == "application/pdf"@,
        e == "zip"@ ==> file_type(path) == "application/zip"@,
        e == "wasm"@ ==> file_type(path) == "application/wasm"@,
{
    lemma_extensions();
}

/// The type of a picture, a font, a film or a sound by its extension.
pub proof fn law_media_types(path: Seq<char>, e: Seq<char>)
    requires
        extension_of(path) == Some(e),
    ensures
        e == "png"@ ==> file_type(path) == "image/png"@,
        e == "jpg"@ || e == "jpeg"@ ==> file_type(path) == "image/jpeg"@,
        e == "gif"@ ==> file_type(path) == "image/gif"@,
        e == "svg"@ ==> file_type(path) == "image/svg+xml"@,
        e == "ico"@ ==> file_type(path) == "image/x-icon"@,
        e == "webp"@ ==> file_type(path) == "image/webp"@,
        e == "woff"@ ==> file_type(path) == "font/woff"@,
        e == "woff2"@ ==> file_type(path) == "font/woff2"@,
        e == "ttf"@ ==> file_type(path) == "font/ttf"@,
        e == "otf"@ ==> file_type(path) == "font/otf"@,
        e == "mp4"@ ==> file_type(path) == "video/mp4"@,
        e == "webm"@ ==> file_type(path) == "video/webm"@,
        e == "mp3"@ ==> file_type(path) == "audio/mpeg"@,
{
    lemma_extensions();
}

proof fn lemma_extensions()
    ensures
        "html"@ == seq!['h', 't', 'm', 'l'],
        "css"@ == seq!['c', 's', 's'],
        "js"@ == seq!['j', 's'],
        "mjs"@ == seq!['m', 'j', 's'],
        "json"@ == seq!['j', 's', 'o', 'n'],
        "png"@ == seq!['p', 'n', 'g'],
        "jpg"@ == seq!['j', 'p', 'g'],
        "jpeg"@ == seq!['j', 'p', 'e', 'g'],
        "gif"@ == seq!['g', 'i', 'f'],
        "svg"@ == seq!['s', 'v', 'g'],
        "ico"@ == seq!['i', 'c', 'o'],
        "webp"@ == seq!['w', 'e', 'b', 'p'],
        "woff"@ == seq!['w', 'o', 'f', 'f'],
        "woff2"@ == seq!['w', 'o', 'f', 'f', '2'],
        "ttf"@ == seq!['t', 't', 'f'],
        "otf"@ == seq!['o', 't', 'f'],
        "wasm"@ == seq!['w', 'a', 's', 'm'],
        "xml"@ == seq!['x', 'm', 'l'],
        "txt"@ == seq!['t', 'x', 't'],
        "pdf"@ == seq!['p', 'd', 'f'],
        "zip"@ == seq!['z', 'i', 'p'],
        "mp4"@ == seq!['m', 'p', '4'],
        "webm"@ == seq!['w', 'e', 'b', 'm'],
        "mp3"@ == seq!['m', 'p', '3'],
{
    reveal_strlit("html");
    reveal_strlit("css");
    reveal_strlit("js");
    reveal_strlit("mjs");
    reveal_strlit("json");
    reveal_strlit("png");
    reveal_strlit("jpg");
    reveal_strlit("jpeg");
    reveal_strlit("gif");
    reveal_strlit("svg");
    reveal_strlit("ico");
    reveal_strlit("webp");
    reveal_strlit("woff");
    reveal_strlit("woff2");
    reveal_strlit("ttf");
    reveal_strlit("otf");
    reveal_strlit("wasm");
    reveal_strlit("xml");
    reveal_strlit("txt");
    reveal_strlit("pdf");
    reveal_strlit("zip");
    reveal_strlit("mp4");
    reveal_strlit("webm");
    reveal_strlit("mp3");
}

// ---------------------------------------------------------------------------
// What a route changes
// ---------------------------------------------------------------------------

/// A route that is added is the only one under its name, and the routes under other names stay
/// as they were.
pub proof fn law_one_route(p: ProxyView, r: RouteView, prepared: Prepared, other: RouteView)
    ensures
        ({
            let q = route_added(p, r, prepared).0;
            &&& q.routes.contains(r)
            &&& forall|i: int|
                0 <= i < q.routes.len() && (#[trigger] q.routes[i]).name == r.name ==> i
                    == q.routes.len() - 1 && q.routes[i] == r
            &&& other.name != r.name ==> (q.routes.contains(other) <==> p.routes.contains(other))
        }),
{
    let q = route_added(p, r, prepared).0;
    let test = |x: RouteView| x.name != r.name;
    let front = without_routes(p.routes, r.name);
    law_routes_of_process(p.routes, r);
    assert(q.routes == front.push(r));
    assert(q.routes[q.routes.len() - 1] == r);
    assert forall|i: int|
        0 <= i < q.routes.len() && (#[trigger] q.routes[i]).name == r.name implies i
        == q.routes.len() - 1 && q.routes[i] == r by {
        if i < front.len() {
            assert(front[i].name != r.name);
        }
    }
    if other.name != r.name {
        if p.routes.contains(other) {
            let i = choose|i: int| 0 <= i < p.routes.len() && p.routes[i] == other;
            assert(test(p.routes[i]));
            p.routes.lemma_filter_contains(test, i);
            let j = choose|j: int| 0 <= j < front.len() && front[j] == other;
            assert(q.routes[j] == other);
        }
        if q.routes.contains(other) {
            let j = choose|j: int| 0 <= j < q.routes.len() && q.routes[j] == other;
            assert(front[j] == other);
            assert(front.contains(other));
            p.routes.lemma_filter_contains_rev(test, other);
        }
    }
}

/// What else a route changes: its port is listened on, with TLS where a certificate came with
/// it, which is then kept under its host or as the default; a listener is started where there
/// was none of that kind, for all ports. A certificate that could not be read changes the
/// routes alone.
pub proof fn law_route_listens(p: ProxyView, r: RouteView, prepared: Prepared, x: u16)
    ensures
        ({
            let (q, result) = route_added(p, r, prepared);
            &&& q.cache_ttl_secs == p.cache_ttl_secs && q.challenges == p.challenges
            &&& prepared matches Err(e) ==> {
                &&& result == Err::<Option<(Seq<u16>, Seq<u16>)>, _>(e)
                &&& q.ports == p.ports && q.tls_ports == p.tls_ports && q.certs == p.certs
            }
            &&& prepared matches Ok(cert) ==> {
                &&& q.ports.contains(x) <==> p.ports.contains(x) || x == r.port
                &&& q.tls_ports.contains(x) <==> p.tls_ports.contains(x) || (x == r.port && cert is Some)
                &&& cert is None ==> q.certs == p.certs
                &&& cert matches Some(c) ==> (r.host matches Some(h) ==> q.certs == p.certs.with(h, c))
                &&& cert matches Some(c) ==> r.host is None ==> q.certs == p.certs.with("default"@, c)
                &&& result is Ok
                &&& result->Ok_0 == if p.ports.contains(r.port) && (cert is None
                    || p.tls_ports.contains(r.port)) {
                    None
                } else {
                    Some((q.ports, q.tls_ports))
                }
            }
        }),
{
    lemma_with_port(p.ports, r.port);
    lemma_with_port(p.tls_ports, r.port);
    lemma_port_listed(p.ports, r.port, x);
    lemma_port_listed(p.tls_ports, r.port, x);
}

proof fn lemma_port_listed(s: Seq<u16>, port: u16, x: u16)
    ensures
        with_port(s, port).contains(x) <==> s.contains(x) || x == port,
{
    if !s.contains(port) {
        let t = s.push(port);
        assert(t[t.len() - 1] == port);
        if s.contains(x) {
            let i = choose|i: int| 0 <= i < s.len() && s[i] == x;
            assert(t[i] == x);
        }
        if t.contains(x) && x != port {
            let i = choose|i: int| 0 <= i < t.len() && t[i] == x;
            assert(s[i] == x);
        }
    }
}

/// A listener stands on every address under its port, with TLS where the port is among those.
pub proof fn law_listener(port: u16, tls_ports: Seq<u16>)
    ensures
        listener_of(port, tls_ports).address == "0.0.0.0:"@ + decimal(port as nat),
        listener_of(port, tls_ports).port == port,
        listener_of(port, tls_ports).tls <==> tls_ports.contains(port),
{
}

/// Removing the routes of a name leaves all others, and none of that name.
pub proof fn law_other_routes_stay(s: Seq<RouteView>, name: Seq<char>, r: RouteView)
    ensures
        without_routes(s, name).contains(r) <==> s.contains(r) && r.name != name,
{
    let test = |x: RouteView| x.name != name;
    if s.contains(r) && r.name != name {
        let i = choose|i: int| 0 <= i < s.len() && s[i] == r;
        assert(test(s[i]));
        s.lemma_filter_contains(test, i);
    }
    if s.filter(test).contains(r) {
        s.lemma_filter_contains_rev(test, r);
        let i = choose|i: int| 0 <= i < s.filter(test).len() && s.filter(test)[i] == r;
        s.lemma_filter_pred(test, i);
    }
}

/// A request is counted under the host that it names, and under none where it names none.
pub proof fn law_counted_host(host: Seq<char>, rest: Seq<char>)
    requires
        !host.contains(':'),
    ensures
        counted_host(Some(host)) == host,
        counted_host(Some(host + seq![':'] + rest)) == host,
        counted_host(None).len() == 0,
{
    lemma_before(host, ':', rest);
}

/// A certificate is prepared where files are named, out of these files, and else there is none.
pub proof fn law_prepared(files: CertFilesView, outcome: Prepared)
    ensures
        may_prepare(None, outcome) <==> outcome == Ok::<Option<TlsView>, Seq<char>>(None),
        may_prepare(Some(files), outcome) ==> {
            &&& outcome != Ok::<Option<TlsView>, Seq<char>>(None)
            &&& files.cert matches Err(e) ==> outcome == Err::<Option<TlsView>, _>(
                "failed to read cert "@ + files.cert_path + ": "@ + e,
            )
            &&& files.cert is Ok ==> (files.key matches Err(e) ==> outcome == Err::<
                Option<TlsView>,
                _,
            >("failed to read key "@ + files.key_path + ": "@ + e))
            &&& outcome matches Ok(Some(t)) ==> (files.cert matches Ok(c) && t.cert
                == crate::tls::pem_cert(c)) && (files.key matches Ok(k) && t.key == k)
        },
{
}

/// A file with another extension is served as bytes of no known type.
pub proof fn law_other_types(path: Seq<char>, e: Seq<char>)
    requires
        extension_of(path) == Some(e),
        e != "html"@ && e != "css"@ && e != "js"@ && e != "mjs"@ && e != "json"@ && e != "xml"@,
        e != "txt"@ && e != "pdf"@ && e != "zip"@ && e != "wasm"@ && e != "png"@ && e != "jpg"@,
        e != "jpeg"@ && e != "gif"@ && e != "svg"@ && e != "ico"@ && e != "webp"@ && e != "woff"@,
        e != "woff2"@ && e != "ttf"@ && e != "otf"@ && e != "mp4"@ && e != "webm"@ && e != "mp3"@,
    ensures
        file_type(path) == "application/octet-stream"@,
{
}

} // verus!
