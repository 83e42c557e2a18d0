use nyrun::process::{Effect, Pulled, StartOutcome};
use nyrun::protocol::{PortMapping, ProcessConfig, ProcessMode, ProcessStatus, Request, Response, SslConfig, Timestamp};
use nyrun::proxy::{start_pingora_server, Backend, ServerStart};
use nyrun::server::{
    check_run, prepare_ssl, read_files, restore_request, DaemonState, RequestIo, ServerEffect, Update,
};
use nyrun::tls::TlsCertificate;

fn owned(v: &[&str]) -> Vec<String> {
    v.iter().map(|s| s.to_string()).collect()
}

fn config(name: &str, port: Option<(Option<&str>, u16, Option<u16>)>) -> ProcessConfig {
    ProcessConfig {
        name: name.to_string(),
        path: format!("/srv/{name}"),
        args: Vec::new(),
        env_vars: Vec::new(),
        env_file: None,
        mode: ProcessMode::Run,
        port_mapping: port.map(|(h, p, a)| PortMapping {
            host: h.map(String::from),
            public_port: p,
            app_port: a,
        }),
        spa: false,
        ssl: None,
        acme: None,
        deny: Vec::new(),
        allow: Vec::new(),
        is_oci: false,
        oci_reference: None,
        pid_file: None,
    }
}

fn io() -> RequestIo {
    let unused = || Err("unused".to_string());
    RequestIo {
        now: Timestamp { secs: 100, nanos: 0 },
        dirs: Ok(()),
        start: StartOutcome {
            pulled: Err("unused".to_string()),
            spawned: Ok(Some(7)),
            at: Timestamp { secs: 90, nanos: 0 },
        },
        is_dir: true,
        canonical: None,
        cert_file: unused(),
        key_file: unused(),
        pulled: Err("unused".to_string()),
        env: Err("unused".to_string()),
        stdout: None,
        stderr: None,
        stored: Ok(()),
    }
}

fn success(s: &str) -> Response {
    Response::Success(s.to_string())
}

fn error(s: &str) -> Response {
    Response::Error(s.to_string())
}

fn running(names: &[&str]) -> DaemonState {
    let mut d = DaemonState::new();
    for (i, n) in names.iter().enumerate() {
        let c = config(n, Some((None, 80 + i as u16, Some(8000))));
        let (r, _) = d.handle_request(Request::Run { config: c }, io());
        assert!(matches!(r, Response::Success(_)));
    }
    d
}

fn update(name: &str) -> Request {
    Request::Update {
        name: name.to_string(),
        port: None,
        ssl: None,
        acme: None,
        env_file: None,
        args: None,
        image: None,
    }
}

#[test]
fn a_process_runs_behind_the_proxy() {
    let mut d = DaemonState::new();
    let mut c = config("api", Some((Some("x.com"), 443, Some(8000))));
    c.acme = Some("me@x".to_string());
    let (r, effects) = d.handle_request(Request::Run { config: c }, io());
    assert_eq!(r, success("process 'api' started (pid: 7) (proxy x.com:443 -> 8000)"));
    assert_eq!(
        effects,
        vec![
            ServerEffect::Process(Effect::CountProcess),
            ServerEffect::StartServer(ServerStart { ports: vec![443], tls_ports: vec![] }),
            ServerEffect::IssueCert { hostname: "x.com".to_string(), email: "me@x".to_string() },
        ]
    );
    assert_eq!(d.proxy_mgr.routes.entries[0].backend, Backend::Proxy(8000));
    assert_eq!(d.acme_configs, vec![("x.com".to_string(), "me@x".to_string())]);
    let c = config("web", Some((None, 80, None)));
    let (r, _) = d.handle_request(Request::Run { config: c }, io());
    assert_eq!(r, success("process 'web' started (pid: 7) (proxy :80 -> 80)"));
}

#[test]
fn a_process_that_cannot_run() {
    let mut d = DaemonState::new();
    let c = config("api", None);
    assert_eq!(check_run(&c).as_deref(), Some("run requires --p port mapping"));
    let (r, e) = d.handle_request(Request::Run { config: c }, io());
    assert_eq!((r, e), (error("run requires --p port mapping"), Vec::new()));
    let mut c = config("api", Some((None, 443, Some(8000))));
    c.acme = Some("me@x".to_string());
    let (r, _) = d.handle_request(Request::Run { config: c }, io());
    assert_eq!(r, error("ACME requires host-based port mapping (e.g. --p domain.com:443:8000)"));
    assert_eq!(d, DaemonState::new());
    assert_eq!(check_run(&config("api", Some((None, 80, None)))), None);
    let mut refused = io();
    refused.start.spawned = Err("gone".to_string());
    let (r, e) = d.handle_request(Request::Run { config: config("api", Some((None, 80, None))) }, refused);
    assert_eq!((r, e), (error("failed to spawn '/srv/api': gone"), Vec::new()));
}

#[test]
fn a_process_whose_route_fails_is_taken_back() {
    let mut d = running(&["a"]);
    let before = d.process_mgr.get_configs();
    let mut c = config("b", Some((None, 443, None)));
    c.ssl = Some(SslConfig { cert_path: "c.pem".to_string(), key_path: "k.pem".to_string() });
    let (r, e) = d.handle_request(Request::Run { config: c }, io());
    assert_eq!(r, error("proxy setup failed: failed to read cert c.pem: unused"));
    assert_eq!(
        e,
        vec![
            ServerEffect::Process(Effect::CountProcess),
            ServerEffect::Process(Effect::KillChild { name: "b".to_string() }),
            ServerEffect::Process(Effect::UncountProcess),
        ]
    );
    assert_eq!(d.process_mgr.get_configs(), before);
}

#[test]
fn a_directory_is_served() {
    let mut d = DaemonState::new();
    let spa = || {
        let mut c = config("dist", Some((None, 8080, None)));
        c.spa = true;
        c
    };
    let mut missing = io();
    missing.is_dir = false;
    let (r, _) = d.handle_request(Request::Run { config: spa() }, missing);
    assert_eq!(r, error("'/srv/dist' is not a directory"));
    let mut there = io();
    there.canonical = Some("/real/dist".to_string());
    let (r, e) = d.handle_request(Request::Run { config: spa() }, there);
    assert_eq!(r, success("SPA 'dist' serving on port 8080"));
    assert_eq!(
        e,
        vec![
            ServerEffect::StartServer(ServerStart { ports: vec![8080], tls_ports: vec![] }),
            ServerEffect::Process(Effect::CountProcess),
        ]
    );
    assert_eq!(d.proxy_mgr.routes.entries[0].backend, Backend::Spa("/real/dist".to_string()));
    let (r, e) = d.handle_request(Request::Run { config: spa() }, io());
    assert_eq!((r, e), (error("process 'dist' already exists"), Vec::new()));
    let request = update("dist");
    let (r, e) = d.handle_request(request, io());
    assert_eq!((r, e), (success("'dist' config updated"), Vec::new()));
}

#[test]
fn processes_are_deleted() {
    let mut d = running(&["a", "b"]);
    let (r, e) = d.handle_request(Request::Del { name: "a".to_string() }, io());
    assert_eq!(r, success("process 'a' deleted"));
    assert_eq!(
        e,
        vec![
            ServerEffect::Process(Effect::KillChild { name: "a".to_string() }),
            ServerEffect::Process(Effect::UncountProcess),
        ]
    );
    assert_eq!(d.proxy_mgr.routes.entries.len(), 1);
    let (r, e) = d.handle_request(Request::Del { name: "a".to_string() }, io());
    assert_eq!((r, e), (success("'a' removed"), Vec::new()));
}

#[test]
fn processes_are_restarted_and_reloaded() {
    let mut d = running(&["a"]);
    let (r, _) = d.handle_request(Request::Restart { name: "a".to_string() }, io());
    assert_eq!(r, success("process 'a' restarted (pid: 7, restarts: 1)"));
    let (r, _) = d.handle_request(Request::Reload { name: "a".to_string() }, io());
    assert_eq!(r, success("process 'a' restarted (pid: 7, restarts: 2)"));
    let mut failing = io();
    failing.start.spawned = Err("gone".to_string());
    let (r, e) = d.handle_request(Request::Reload { name: "a".to_string() }, failing);
    assert_eq!((r, e), (error("failed to spawn '/srv/a': gone"), Vec::new()));
    assert_eq!(d.process_mgr.processes[0].status, ProcessStatus::Running);
    assert_eq!(d.process_mgr.processes[0].pid, Some(7));
    let (r, _) = d.handle_request(Request::Restart { name: "x".to_string() }, io());
    assert_eq!(r, error("process 'x' not found"));
}

#[test]
fn an_update_changes_the_route_and_restarts() {
    let mut d = running(&["a"]);
    let mut request = update("a");
    if let Request::Update { port, args, .. } = &mut request {
        *port = Some("x.com:90:9000".to_string());
        *args = Some("--new".to_string());
    }
    let (r, e) = d.handle_request(request, io());
    assert_eq!(r, success("updated and restarted: process 'a' restarted (pid: 7, restarts: 1)"));
    assert_eq!(
        e,
        vec![
            ServerEffect::StartServer(ServerStart { ports: vec![80, 90], tls_ports: vec![] }),
            ServerEffect::Process(Effect::KillChild { name: "a".to_string() }),
            ServerEffect::Process(Effect::CountRestart { name: "a".to_string() }),
        ]
    );
    let entry = &d.proxy_mgr.routes.entries[0];
    assert_eq!((entry.port, entry.host.as_deref(), &entry.backend), (90, Some("x.com"), &Backend::Proxy(9000)));
    let c = &d.process_mgr.processes[0].config;
    assert_eq!(c.args, owned(&["--new"]));
    assert_eq!(c.ssl, None);
    let mut failing = io();
    failing.start.spawned = Err("gone".to_string());
    let (r, _) = d.handle_request(update("a"), failing);
    assert_eq!(r, error("config updated but restart failed: failed to spawn '/srv/a': gone"));
    assert_eq!(d.process_mgr.processes[0].status, ProcessStatus::Stopped);
}

#[test]
fn an_update_to_another_image() {
    let mut d = running(&["a"]);
    let with_image = |img: &str| {
        let mut request = update("a");
        if let Request::Update { image, .. } = &mut request {
            *image = Some(img.to_string());
        }
        request
    };
    let (r, _) = d.handle_request(with_image("./local"), io());
    assert_eq!(r, error("'./local' is not a valid OCI image reference"));
    let (r, _) = d.handle_request(with_image("nginx:2"), io());
    assert_eq!(r, error("OCI pull failed: unused"));
    let mut empty = io();
    empty.pulled = Ok(Pulled { dir: "/oci/a".to_string(), entry: Err("none".to_string()) });
    let (r, _) = d.handle_request(with_image("nginx:2"), empty);
    assert_eq!(r, error("OCI entrypoint error: none"));
    let pulled = || Ok(Pulled { dir: "/oci/a".to_string(), entry: Ok(("/oci/a/n".to_string(), owned(&["-g"]))) });
    let mut there = io();
    there.pulled = pulled();
    there.start.pulled = pulled();
    let (r, _) = d.handle_request(with_image("nginx:2"), there);
    assert_eq!(r, success("updated and restarted: process 'a' restarted (pid: 7, restarts: 1)"));
    let c = &d.process_mgr.processes[0].config;
    assert_eq!((c.path.as_str(), c.oci_reference.as_deref()), ("/oci/a/n", Some("nginx:2")));
    assert!(c.is_oci && c.args.is_empty() && c.deny.is_empty());
    let started = &d.process_mgr.processes[0].resolved;
    assert_eq!((started.args.clone(), started.deny.clone()), (owned(&["-g"]), owned(&["io"])));
}

/// A self-signed certificate and its key, in PEM.
fn pair(host: &str) -> (Vec<u8>, Vec<u8>) {
    let key = rcgen::KeyPair::generate().unwrap();
    let params = rcgen::CertificateParams::new(vec![host.to_string()]).unwrap();
    let cert = params.self_signed(&key).unwrap();
    (cert.pem().into_bytes(), key.serialize_pem().into_bytes())
}

fn der(pem: &[u8]) -> Vec<u8> {
    openssl::x509::X509::from_pem(pem).unwrap().to_der().unwrap()
}

#[test]
fn an_update_to_a_certificate() {
    let mut d = running(&["a"]);
    let with_ssl = |p: Option<&str>| {
        let mut request = update("a");
        if let Request::Update { port, ssl, .. } = &mut request {
            *port = p.map(String::from);
            *ssl = Some(owned(&["c.pem", "k.pem"]));
        }
        request
    };
    let (cert, key) = pair("x.com");
    let mut there = io();
    there.cert_file = Ok(cert.clone());
    there.key_file = Ok(key);
    let (r, e) = d.handle_request(with_ssl(None), there);
    assert_eq!(r, success("updated and restarted: process 'a' restarted (pid: 7, restarts: 1)"));
    assert_eq!(
        e,
        vec![
            ServerEffect::StartServer(ServerStart { ports: vec![80], tls_ports: vec![80] }),
            ServerEffect::Process(Effect::KillChild { name: "a".to_string() }),
            ServerEffect::Process(Effect::CountRestart { name: "a".to_string() }),
        ]
    );
    let listeners = start_pingora_server(&ServerStart { ports: vec![80], tls_ports: vec![80] });
    assert!(listeners[0].port == 80 && listeners[0].tls);
    assert_eq!((d.proxy_mgr.ports.clone(), d.proxy_mgr.tls_ports.clone()), (vec![80], vec![80]));
    assert_eq!(d.proxy_mgr.cert_store.certificate_for(Some("any")).unwrap().cert, der(&cert));
    let files = Some(SslConfig { cert_path: "c.pem".to_string(), key_path: "k.pem".to_string() });
    assert_eq!(d.process_mgr.processes[0].config.ssl, files);
    let (other, key) = pair("y.com");
    let mut there = io();
    there.cert_file = Ok(other.clone());
    there.key_file = Ok(key);
    let (_, e) = d.handle_request(with_ssl(Some("y.com:443:8000")), there);
    assert_eq!(
        e[0],
        ServerEffect::StartServer(ServerStart { ports: vec![80, 443], tls_ports: vec![80, 443] })
    );
    assert_eq!(d.proxy_mgr.cert_store.certificate_for(Some("y.com")).unwrap().cert, der(&other));
    let mut request = update("a");
    if let Request::Update { port, .. } = &mut request {
        *port = Some("z.com:444:8000".to_string());
    }
    let (r, e) = d.handle_request(request, io());
    assert_eq!(r, success("updated and restarted: process 'a' restarted (pid: 7, restarts: 3)"));
    assert_eq!(
        e[0],
        ServerEffect::StartServer(ServerStart { ports: vec![80, 443, 444], tls_ports: vec![80, 443] })
    );
    assert_eq!(d.process_mgr.processes[0].config.ssl, files);
    let named = read_files(&Some(owned(&["c.pem", "k.pem"])));
    assert_eq!((named, read_files(&None)), (files, None));
}

#[test]
fn an_update_whose_certificate_is_refused() {
    let mut d = running(&["a"]);
    let before = d.process_mgr.get_configs();
    let mut request = update("a");
    if let Request::Update { ssl, args, .. } = &mut request {
        *ssl = Some(owned(&["only-cert"]));
        *args = Some("--new".to_string());
    }
    let (r, e) = d.handle_request(request, io());
    assert_eq!((r, e), (error("proxy route update failed: failed to read cert only-cert: unused"), Vec::new()));
    assert_eq!(d.process_mgr.get_configs(), before);
    assert!(d.proxy_mgr.tls_ports.is_empty());
    assert_eq!(d.proxy_mgr.routes.entries.len(), 1);
}

#[test]
fn an_update_asks_for_a_certificate() {
    let mut d = DaemonState::new();
    let c = config("a", Some((Some("x.com"), 443, Some(8000))));
    d.handle_request(Request::Run { config: c }, io());
    assert!(d.acme_configs.is_empty());
    let mut request = update("a");
    if let Request::Update { acme, .. } = &mut request {
        *acme = Some("me@x".to_string());
    }
    let (r, e) = d.handle_request(request, io());
    assert_eq!(r, success("updated and restarted: process 'a' restarted (pid: 7, restarts: 1)"));
    assert_eq!(
        e[0],
        ServerEffect::IssueCert { hostname: "x.com".to_string(), email: "me@x".to_string() }
    );
    assert_eq!(d.acme_configs, vec![("x.com".to_string(), "me@x".to_string())]);
    let mut plain = running(&["b"]);
    let mut request = update("b");
    if let Request::Update { acme, .. } = &mut request {
        *acme = Some("me@x".to_string());
    }
    plain.handle_request(request, io());
    assert!(plain.acme_configs.is_empty());
}

#[test]
fn an_update_in_two_parts() {
    let mut d = running(&["a"]);
    let asked = Update {
        name: "a".to_string(),
        port: None,
        ssl: Some(owned(&["c.pem", "k.pem"])),
        acme: None,
        env_file: None,
        args: None,
        image: None,
    };
    let cert = TlsCertificate { cert: vec![1], key: vec![2], chain: Vec::new() };
    let unused = || Err("unused".to_string());
    let (applied, todo) = d.apply_update(&asked, Err("unused".to_string()), unused(), None, Ok(Some(cert)));
    let start = ServerEffect::StartServer(ServerStart { ports: vec![80], tls_ports: vec![80] });
    assert_eq!((&applied, todo), (&Ok(false), vec![start]));
    assert_eq!(d.proxy_mgr.tls_ports, vec![80]);
    let (r, e) = d.finish_update("a", applied, io().start);
    assert_eq!(r, success("updated and restarted: process 'a' restarted (pid: 7, restarts: 1)"));
    assert_eq!(e.len(), 2);
    let (r, e) = d.finish_update("a", Ok(true), io().start);
    assert_eq!((r, e), (success("'a' config updated"), Vec::new()));
    let (r, e) = d.finish_update("a", Err("no".to_string()), io().start);
    assert_eq!((r, e), (error("no"), Vec::new()));
    assert_eq!(prepare_ssl(&None, &unused_file(), &unused_file()), Ok(None));
}

fn unused_file() -> Result<Vec<u8>, String> {
    Err("unused".to_string())
}

#[test]
fn saved_processes_come_back_with_their_routes() {
    let mut d = DaemonState::new();
    let mut spa = config("dist", Some((None, 8080, None)));
    spa.spa = true;
    let mut own = config("worker", None);
    own.mode = ProcessMode::Bin;
    for c in [config("api", Some((Some("x.com"), 80, Some(8000)))), spa, own] {
        let (r, _) = d.handle_request(restore_request(c), io());
        assert!(matches!(r, Response::Success(_)));
    }
    assert_eq!(d.proxy_mgr.ports, vec![80, 8080]);
    let names: Vec<&str> = d.proxy_mgr.routes.entries.iter().map(|r| r.name.as_str()).collect();
    assert_eq!(names, ["api", "dist"]);
    let children: Vec<bool> = d.process_mgr.processes.iter().map(|p| p.child).collect();
    assert_eq!(children, [true, false, true]);
}

#[test]
fn a_process_with_a_prepared_certificate() {
    let mut d = DaemonState::new();
    let cert = TlsCertificate { cert: vec![1], key: vec![2], chain: Vec::new() };
    let c = config("api", Some((Some("x.com"), 443, Some(8000))));
    let (r, e) = d.run_prepared(c, io(), Ok(Some(cert)));
    assert_eq!(r, success("process 'api' started (pid: 7) (proxy x.com:443 -> 8000)"));
    assert_eq!(e[1], ServerEffect::StartServer(ServerStart { ports: vec![443], tls_ports: vec![443] }));
    assert_eq!(d.proxy_mgr.cert_store.certificate_for(Some("x.com")).unwrap().cert, vec![1]);
    let c = config("b", Some((None, 80, None)));
    let (r, _) = d.run_prepared(c, io(), Err("refused".to_string()));
    assert_eq!(r, error("proxy setup failed: refused"));
}

#[test]
fn updates_that_are_refused() {
    let mut d = running(&["a"]);
    let mut request = update("a");
    if let Request::Update { port, .. } = &mut request {
        *port = Some("x".to_string());
    }
    assert_eq!(d.handle_request(request, io()).0, error("invalid port: x"));
    let mut request = update("a");
    if let Request::Update { env_file, .. } = &mut request {
        *env_file = Some(".env".to_string());
    }
    assert_eq!(d.handle_request(request, io()).0, error("failed to read env file '.env': unused"));
    assert_eq!(d.handle_request(update("x"), io()).0, error("process 'x' not found"));
    assert_eq!(d, running(&["a"]));
}

#[test]
fn questions_change_nothing() {
    let mut d = running(&["a", "b"]);
    let before = running(&["a", "b"]);
    match d.handle_request(Request::Ls, io()).0 {
        Response::ProcessList(v) => {
            assert_eq!((v.len(), v[0].name.as_str(), v[0].uptime_secs), (2, "a", Some(10)));
        }
        other => panic!("{other:?}"),
    }
    match d.handle_request(Request::Export, io()).0 {
        Response::ConfigList(v) => assert_eq!(v, before.process_mgr.get_configs()),
        other => panic!("{other:?}"),
    }
    let mut logs = io();
    logs.stdout = Some("x\ny\n".to_string());
    let (r, _) = d.handle_request(Request::Logs { name: "a".to_string(), lines: 1 }, logs);
    assert_eq!(r, Response::Logs("y\n".to_string()));
    let (r, _) = d.handle_request(Request::Logs { name: "z".to_string(), lines: 1 }, io());
    assert_eq!(r, error("process 'z' not found"));
    assert_eq!(d.handle_request(Request::Save, io()), (success("saved 2 processes"), Vec::new()));
    let mut full = io();
    full.stored = Err("put error: full".to_string());
    assert_eq!(d.handle_request(Request::Save, full).0, error("put error: full"));
    assert_eq!(d, before);
}

#[test]
fn settings_of_the_daemon() {
    let mut d = DaemonState::new();
    let set = |k: &str, v: &str| Request::SetKey { key: k.to_string(), value: v.to_string() };
    let (r, e) = d.handle_request(set("cache-ttl", "120"), io());
    assert_eq!((r, e), (success("cache-ttl set to 120s"), vec![ServerEffect::NewCache { ttl_secs: 120 }]));
    assert_eq!(d.proxy_mgr.cache_ttl_secs, 120);
    let (r, _) = d.handle_request(set("cache-ttl", "soon"), io());
    assert_eq!(r, error("invalid value 'soon': expected seconds"));
    let (r, _) = d.handle_request(set("colour", "blue"), io());
    assert_eq!(r, error("unknown config key 'colour'. available: cache-ttl"));
}

#[test]
fn the_daemon_is_stopped() {
    let mut d = running(&["a"]);
    let (r, e) = d.handle_request(Request::Kill, io());
    assert_eq!(r, success("all processes stopped"));
    assert_eq!(
        e,
        vec![
            ServerEffect::Process(Effect::KillChild { name: "a".to_string() }),
            ServerEffect::Process(Effect::CountNone),
            ServerEffect::SaveNothing,
            ServerEffect::CloseStore,
            ServerEffect::StopDaemon,
        ]
    );
    assert!(d.process_mgr.processes.is_empty());
}

#[test]
fn metrics_are_opt_in() {
    let mut d = DaemonState::new();
    assert_eq!(d.metrics_port, None);
    let (r, e) = d.handle_request(Request::MetricsDisable, io());
    assert_eq!((r, e), (error("metrics server is not running"), Vec::new()));
    let (r, e) = d.handle_request(Request::MetricsEnable { port: 9090 }, io());
    assert_eq!(r, success("metrics server listening on port 9090"));
    assert_eq!(e, vec![ServerEffect::StartMetrics { port: 9090 }]);
    let (_, e) = d.handle_request(Request::MetricsEnable { port: 9100 }, io());
    assert_eq!(e, vec![ServerEffect::StopMetrics, ServerEffect::StartMetrics { port: 9100 }]);
    let (r, e) = d.handle_request(Request::MetricsDisable, io());
    assert_eq!((r, e), (success("metrics server stopped"), vec![ServerEffect::StopMetrics]));
    assert_eq!(d.metrics_port, None);
}

#[test]
fn the_cloud_is_linked() {
    let mut d = DaemonState::new();
    let link = || Request::Link { api_key: "k".to_string() };
    let (r, e) = d.handle_request(link(), io());
    assert_eq!(r, success("linked to cloud"));
    assert_eq!(e, vec![ServerEffect::StopAgent, ServerEffect::StartAgent { api_key: "k".to_string() }]);
    let (r, e) = d.handle_request(Request::Unlink, io());
    assert_eq!((r, e), (success("unlinked from cloud"), vec![ServerEffect::StopAgent]));
    let mut full = io();
    full.stored = Err("put error: full".to_string());
    assert_eq!(d.handle_request(link(), full).0, error("put error: full"));
}

#[test]
fn a_process_of_its_own() {
    let mut d = DaemonState::new();
    let (r, e) = d.handle_request(Request::Bin { config: config("w", None) }, io());
    assert_eq!(r, success("process 'w' started (pid: 7)"));
    assert_eq!(e, vec![ServerEffect::Process(Effect::CountProcess)]);
    assert!(d.proxy_mgr.routes.entries.is_empty());
}
