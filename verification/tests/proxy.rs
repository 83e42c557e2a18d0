use nyrun::acme::ChallengeStore;
use nyrun::proxy::{
    cache_hit, content_type, extract_host, get_listen_port, logging, new_ctx, request_filter, response_body_filter,
    response_filter, serve_spa, spa_file, spa_target, start_pingora_server, upstream_peer, upstream_request_filter,
    Backend, CertFiles, FilterAction, HeaderEdit, HttpRequest, ProxyManager, RouteEntry, RouteTable, ServerStart,
    DEFAULT_CACHE_TTL_SECS, MAX_CACHED_BODY,
};

fn route(name: &str, port: u16, host: Option<&str>, backend: Backend) -> RouteEntry {
    RouteEntry { name: name.to_string(), port, host: host.map(String::from), backend }
}

fn table() -> RouteTable {
    RouteTable {
        entries: vec![
            route("one", 80, Some("example.com"), Backend::Proxy(8000)),
            route("two", 80, Some("other.com"), Backend::Spa("/srv/dist".to_string())),
            route("all", 80, None, Backend::Proxy(7000)),
            route("tls", 443, Some("example.com"), Backend::Proxy(9000)),
        ],
    }
}

fn get(path: &str, host: Option<&str>, port: Option<u16>) -> HttpRequest {
    HttpRequest {
        method: "GET".to_string(),
        path: path.to_string(),
        query: None,
        host: host.map(String::from),
        content_length: None,
        port,
    }
}

#[test]
fn routes_by_host() {
    let t = table();
    assert_eq!(t.find(80, Some("example.com")).map(|r| r.name.as_str()), Some("one"));
    assert_eq!(t.find(80, Some("other.com")).map(|r| r.name.as_str()), Some("two"));
    assert_eq!(t.find(80, Some("unknown.com")).map(|r| r.name.as_str()), Some("all"));
    assert_eq!(t.find(80, None).map(|r| r.name.as_str()), Some("all"));
    assert_eq!(t.find(443, Some("example.com")).map(|r| r.name.as_str()), Some("tls"));
    assert_eq!(t.find(443, Some("unknown.com")), None);
    assert_eq!(t.find(443, None), None);
}

#[test]
fn hosts_and_ports_of_requests() {
    assert_eq!(extract_host(&Some("example.com:8080".to_string())).as_deref(), Some("example.com"));
    assert_eq!(extract_host(&Some("example.com".to_string())).as_deref(), Some("example.com"));
    assert_eq!(extract_host(&None), None);
    assert_eq!(get_listen_port(Some(443)), 443);
    assert_eq!(get_listen_port(None), 80);
}

#[test]
fn requests_for_a_process() {
    let mut ctx = new_ctx();
    let mut req = get("/path", Some("example.com:80"), Some(80));
    req.query = Some("a=1".to_string());
    req.content_length = Some("17".to_string());
    let challenges = ChallengeStore::new();
    let action = request_filter(&table(), &challenges, &req, &mut ctx);
    assert_eq!(action, FilterAction::LookUp("example.com/path?a=1".to_string()));
    assert_eq!((ctx.cache_key.as_str(), ctx.request_bytes), ("example.com/path?a=1", 17));
    let mut plain = new_ctx();
    let action = request_filter(&table(), &challenges, &get("/", None, Some(80)), &mut plain);
    assert_eq!(action, FilterAction::LookUp("localhost/".to_string()));
    let mut post = get("/path", None, None);
    post.method = "POST".to_string();
    post.content_length = Some("x".to_string());
    let mut ctx = new_ctx();
    assert_eq!(request_filter(&table(), &challenges, &post, &mut ctx), FilterAction::Forward);
    assert_eq!((ctx.cache_key.as_str(), ctx.request_bytes), ("", 0));
    assert_eq!(upstream_peer(&table(), &get("/", Some("example.com"), Some(80))), Ok(8000));
    assert_eq!(
        upstream_peer(&table(), &get("/", Some("other.com"), Some(80))),
        Err((502, "no upstream route".to_string()))
    );
    assert_eq!(
        upstream_peer(&table(), &get("/", None, Some(1))),
        Err((502, "no upstream route".to_string()))
    );
}

#[test]
fn requests_for_a_directory_and_for_nothing() {
    let challenges = ChallengeStore::new();
    let mut ctx = new_ctx();
    let action = request_filter(&table(), &challenges, &get("/a/b", Some("other.com"), Some(80)), &mut ctx);
    assert_eq!(action, FilterAction::ServeSpa { dir: "/srv/dist".to_string(), path: "/a/b".to_string() });
    match request_filter(&table(), &challenges, &get("/", None, Some(1234)), &mut ctx) {
        FilterAction::Answer(r) => {
            assert_eq!(r.status, 404);
            assert_eq!(r.body, b"no route found\n");
            assert_eq!(r.headers[1], ("content-length".to_string(), "15".to_string()));
        }
        other => panic!("{other:?}"),
    }
}

#[test]
fn challenges_come_first() {
    let mut challenges = ChallengeStore::new();
    challenges.set("token".to_string(), "authorized".to_string());
    let mut ctx = new_ctx();
    let asked = get("/.well-known/acme-challenge/token", Some("other.com"), Some(80));
    match request_filter(&table(), &challenges, &asked, &mut ctx) {
        FilterAction::Answer(r) => {
            assert_eq!((r.status, r.body), (200, b"authorized".to_vec()));
            assert_eq!(r.headers[0], ("content-type".to_string(), "text/plain".to_string()));
            assert_eq!(r.headers[1], ("content-length".to_string(), "10".to_string()));
        }
        other => panic!("{other:?}"),
    }
    let other = get("/.well-known/acme-challenge/unknown", Some("other.com"), Some(80));
    assert!(matches!(
        request_filter(&table(), &challenges, &other, &mut ctx),
        FilterAction::ServeSpa { .. }
    ));
}

#[test]
fn headers_for_a_process() {
    let pairs = |v: Vec<(String, String)>| -> Vec<String> { v.iter().map(|(a, b)| format!("{a}: {b}")).collect() };
    assert_eq!(
        pairs(upstream_request_filter(&Some("10.0.0.1:999".to_string()), false, false, &Some("h:80".to_string()))),
        ["X-Forwarded-For: 10.0.0.1", "X-Real-IP: 10.0.0.1", "X-Forwarded-Proto: http", "X-Forwarded-Host: h:80"]
    );
    assert_eq!(
        pairs(upstream_request_filter(&Some("10.0.0.1:999".to_string()), true, true, &None)),
        ["X-Forwarded-For: 10.0.0.1", "X-Forwarded-Proto: https"]
    );
    assert_eq!(pairs(upstream_request_filter(&None, false, true, &None)), ["X-Forwarded-Proto: https"]);
}

#[test]
fn an_answer_is_cached_whole() {
    let mut ctx = new_ctx();
    ctx.cache_key = "k".to_string();
    response_filter(&mut ctx, 200);
    assert_eq!(response_body_filter(&mut ctx, &Some(b"ab".to_vec()), false), None);
    assert_eq!(response_body_filter(&mut ctx, &Some(b"cd".to_vec()), false), None);
    let insert = response_body_filter(&mut ctx, &None, true).unwrap();
    assert_eq!((insert.key.as_str(), insert.body), ("k", b"abcd".to_vec()));
    assert_eq!(
        insert.edits,
        vec![
            HeaderEdit::Remove("Transfer-Encoding".to_string()),
            HeaderEdit::Insert("Content-Length".to_string(), "4".to_string()),
        ]
    );
    assert_eq!(ctx.response_bytes, 4);
    assert_eq!(response_body_filter(&mut ctx, &None, true), None);
    assert_eq!(cache_hit(), HeaderEdit::Insert("X-Cache".to_string(), "HIT".to_string()));
}

#[test]
fn an_answer_that_is_not_cached() {
    let mut other = new_ctx();
    other.cache_key = "k".to_string();
    response_filter(&mut other, 404);
    assert_eq!(response_body_filter(&mut other, &Some(vec![1]), true), None);
    let mut keyless = new_ctx();
    response_filter(&mut keyless, 200);
    assert!(!keyless.should_cache);
    assert_eq!(response_body_filter(&mut keyless, &Some(vec![1]), true), None);
    assert_eq!(keyless.response_bytes, 1);
    let mut long = new_ctx();
    long.cache_key = "k".to_string();
    response_filter(&mut long, 200);
    assert_eq!(response_body_filter(&mut long, &Some(vec![0; MAX_CACHED_BODY]), false), None);
    assert!(long.should_cache);
    assert_eq!(response_body_filter(&mut long, &Some(vec![0]), true), None);
    assert!(!long.should_cache && long.response_body.is_empty());
    assert_eq!(long.response_bytes, MAX_CACHED_BODY as u64 + 1);
}

#[test]
fn files_of_a_directory() {
    assert_eq!(spa_file("/srv/dist", "/"), "/srv/dist/index.html");
    assert_eq!(spa_file("/srv/dist", "//js/app.js"), "/srv/dist/js/app.js");
    let dir = Some("/srv/dist".to_string());
    let inside = Some("/srv/dist/a.css".to_string());
    let outside = Some("/etc/passwd".to_string());
    let neighbour = Some("/srv/dist2/a.css".to_string());
    let index = Ok("/srv/dist/index.html".to_string());
    assert_eq!(spa_target(&dir, true, &inside), Ok("/srv/dist/a.css".to_string()));
    assert_eq!(spa_target(&dir, false, &inside), index);
    assert_eq!(spa_target(&dir, true, &outside), index);
    assert_eq!(spa_target(&dir, true, &neighbour), index);
    assert_eq!(spa_target(&dir, true, &None), index);
    let directory = Some("/srv/dist/assets".to_string());
    assert_eq!(spa_target(&dir, false, &directory), index);
    assert_eq!(spa_target(&dir, false, &None), index);
    let page = serve_spa(&index.unwrap(), Some(b"<p>".to_vec()));
    assert_eq!((page.status, page.body), (200, b"<p>".to_vec()));
    assert_eq!(page.headers[0], ("content-type".to_string(), "text/html; charset=utf-8".to_string()));
    assert_eq!(page.headers[1], ("content-length".to_string(), "3".to_string()));
    let missing = spa_target(&None, true, &inside).unwrap_err();
    assert_eq!((missing.status, missing.body), (500, b"SPA directory not found\n".to_vec()));
    assert_eq!(missing.headers.len(), 1);
}

#[test]
fn types_of_files() {
    for (p, t) in [
        ("a.html", "text/html; charset=utf-8"), ("a.css", "text/css; charset=utf-8"),
        ("a.js", "application/javascript; charset=utf-8"), ("a.mjs", "application/javascript; charset=utf-8"),
        ("a.json", "application/json; charset=utf-8"), ("a.png", "image/png"), ("a.jpg", "image/jpeg"),
        ("a.jpeg", "image/jpeg"), ("a.gif", "image/gif"), ("a.svg", "image/svg+xml"), ("a.ico", "image/x-icon"),
        ("a.webp", "image/webp"), ("a.woff", "font/woff"), ("a.woff2", "font/woff2"), ("a.ttf", "font/ttf"),
        ("a.otf", "font/otf"), ("a.wasm", "application/wasm"), ("a.xml", "application/xml"),
        ("a.txt", "text/plain; charset=utf-8"), ("a.pdf", "application/pdf"), ("a.zip", "application/zip"),
        ("a.mp4", "video/mp4"), ("a.webm", "video/webm"), ("a.mp3", "audio/mpeg"),
        ("a.HTML", "application/octet-stream"), ("a", "application/octet-stream"),
        (".html", "application/octet-stream"), ("d.html/a", "application/octet-stream"),
    ] {
        assert_eq!(content_type(p), t, "{p}");
    }
    let file = serve_spa("/srv/a.css", Some(b"body{}".to_vec()));
    assert_eq!((file.status, file.body), (200, b"body{}".to_vec()));
    assert_eq!(file.headers[0].1, "text/css; charset=utf-8");
    assert_eq!(file.headers[1].1, "6");
    let none = serve_spa("/srv/a.css", None);
    assert_eq!((none.status, none.body), (404, b"not found\n".to_vec()));
}

#[test]
fn what_is_counted_of_a_request() {
    let mut ctx = new_ctx();
    ctx.request_bytes = 3;
    ctx.response_bytes = 5;
    let c = logging(&get("/", Some("h:1"), None), Some(200), true, &ctx);
    assert_eq!((c.labels.method.as_str(), c.labels.status, c.labels.host.as_str()), ("GET", 200, "h"));
    assert_eq!((c.host.host.as_str(), c.received, c.sent, c.upstream_error), ("h", 3, 5, true));
    let c = logging(&get("/", None, None), None, false, &ctx);
    assert_eq!((c.labels.status, c.labels.host.as_str(), c.upstream_error), (0, "", false));
}

#[test]
fn routes_of_the_manager() {
    let mut m = ProxyManager::new(ChallengeStore::new());
    assert_eq!(m.cache_ttl_secs, 60);
    assert_eq!(DEFAULT_CACHE_TTL_SECS, 60);
    let start = m.add_route("a", 80, None, Backend::Proxy(1));
    assert_eq!(start, Some(ServerStart { ports: vec![80], tls_ports: vec![] }));
    assert_eq!(m.add_route("b", 80, Some("h".to_string()), Backend::Proxy(2)), None);
    let start = m.add_route("a", 81, None, Backend::Proxy(3));
    assert_eq!(start, Some(ServerStart { ports: vec![80, 81], tls_ports: vec![] }));
    assert_eq!(
        m.routes.entries,
        vec![route("b", 80, Some("h"), Backend::Proxy(2)), route("a", 81, None, Backend::Proxy(3))]
    );
    m.remove_routes("b");
    m.remove_routes("unknown");
    assert_eq!(m.routes.entries.len(), 1);
    m.set_cache_ttl(120);
    assert_eq!(m.cache_ttl_secs, 120);
}

#[test]
fn a_route_whose_certificate_is_refused() {
    let mut m = ProxyManager::new(ChallengeStore::new());
    let files = |cert: Result<Vec<u8>, String>, key: Result<Vec<u8>, String>| CertFiles {
        cert_path: "c.pem".to_string(),
        key_path: "k.pem".to_string(),
        cert,
        key,
    };
    let gone = || Err("gone".to_string());
    let r = m.add_route_with_tls("a", 443, None, Backend::Proxy(1), Some(files(gone(), gone())));
    assert_eq!(r, Err("failed to read cert c.pem: gone".to_string()));
    let r = m.add_route_with_tls("a", 443, None, Backend::Proxy(1), Some(files(Ok(vec![1]), gone())));
    assert_eq!(r, Err("failed to read key k.pem: gone".to_string()));
    let r = m.add_route_with_tls("a", 443, None, Backend::Proxy(1), Some(files(Ok(vec![1]), Ok(vec![2]))));
    assert!(r.unwrap_err().starts_with("failed to parse cert: "));
    assert_eq!((m.routes.entries.len(), m.ports.len(), m.tls_ports.len()), (1, 0, 0));
    let r = m.add_route_with_tls("a", 443, None, Backend::Proxy(1), None);
    assert_eq!(r, Ok(Some(ServerStart { ports: vec![443], tls_ports: vec![] })));
}

#[test]
fn listeners_of_a_server() {
    let listeners = start_pingora_server(&ServerStart { ports: vec![80, 443], tls_ports: vec![443] });
    let shown: Vec<(&str, u16, bool)> =
        listeners.iter().map(|l| (l.address.as_str(), l.port, l.tls)).collect();
    assert_eq!(shown, [("0.0.0.0:80", 80, false), ("0.0.0.0:443", 443, true)]);
}
