//! The daemon: what each request does to the processes and to the proxy, and how it
//! is answered.

use vstd::prelude::*;
use vstd::string::*;
use crate::acme::{host_list, register_acme, with_host};
use crate::cli::{chosen_env, chosen_mapping, read_env_option, read_port_option, read_view};
use crate::config::{arguments, parse_args_string};
use crate::number::{decimal, number_text, parse_u64, parsed};
use crate::oci::{is_image, is_oci_reference};
use crate::process::{
    delete_change, distinct_names, effects, exists_process, kill_list, law_all_killed,
    lemma_position, lemma_position_kept, logs_text, not_found, position, reload_change,
    restart_change, restart_fits, spa_change, spawn_change, started, text_result, updated,
    with_config, with_path, Effect, EffectView, ManagedView, ProcessManager, Pulled, PulledView,
    StartOutcome, StartOutcomeView,
};
use crate::protocol::{
    opt_mapping, opt_texts, PortMapping, PortMappingView, ProcessConfig, ProcessConfigView,
    ProcessMode, Request, RequestView, Response, ResponseView, SslConfig, SslConfigView, Timestamp,
    UpdateView,
};
use crate::proxy::{
    cert_name, law_one_route, law_other_routes_stay, law_route_added, law_route_listens,
    law_routing, listens_tls, may_prepare, prepare, prepared_view, route_added, route_of,
    start_view, with_port, without_routes, Backend, BackendView, CertFiles, CertFilesView, Prepared,
    ProxyManager, ProxyView, RouteView, ServerStart,
};
use crate::state::copy_bytes;
use crate::text::{cat2, cat3, cat4, cat5, copy_opt, opt_text, same, texts, unit_view};
use crate::tls::{
    der_view, law_certificate_selection, CertStoreView, TlsCertificate, TlsView,
};

verus! {

/// Where the daemon listens.
pub const SOCK_PATH: &'static str = "/var/run/nyrun/nyrun.sock";

// ---------------------------------------------------------------------------
// The daemon
// ---------------------------------------------------------------------------

/// What the daemon knows.
#[derive(Debug, PartialEq, Eq)]
pub struct DaemonState {
    pub process_mgr: ProcessManager,
    pub proxy_mgr: ProxyManager,
    /// The hosts whose certificates are renewed, and whom to write to.
    pub acme_configs: Vec<(String, String)>,
    /// The port of the metrics server, where it runs.
    pub metrics_port: Option<u16>,
}

/// The contents of a `DaemonState`.
#[verifier::ext_equal]
pub struct DaemonView {
    pub processes: Seq<ManagedView>,
    pub proxy: ProxyView,
    pub acme: Seq<(Seq<char>, Seq<char>)>,
    pub metrics_port: Option<u16>,
}

impl View for DaemonState {
    type V = DaemonView;

    open spec fn view(&self) -> DaemonView {
        DaemonView {
            processes: self.process_mgr@,
            proxy: self.proxy_mgr@,
            acme: host_list(self.acme_configs@),
            metrics_port: self.metrics_port,
        }
    }
}

/// What is to be done around a request, in order.
#[derive(Debug, PartialEq, Eq)]
pub enum ServerEffect {
    /// Something around the processes.
    Process(Effect),
    /// Start a server of the proxy.
    StartServer(ServerStart),
    /// Get a certificate for a host.
    IssueCert { hostname: String, email: String },
    /// Make a new cache that holds answers so long.
    NewCache { ttl_secs: u64 },
    /// Keep an empty list of processes.
    SaveNothing,
    /// Close the store.
    CloseStore,
    /// Start the metrics server.
    StartMetrics { port: u16 },
    /// Stop the metrics server.
    StopMetrics,
    /// Start the agent of the cloud.
    StartAgent { api_key: String },
    /// Stop the agent of the cloud.
    StopAgent,
    /// Stop the daemon, once the request is answered.
    StopDaemon,
}

/// The contents of a `ServerEffect`.
#[verifier::ext_equal]
pub enum ServerEffectView {
    Process(EffectView),
    StartServer(Seq<u16>, Seq<u16>),
    IssueCert(Seq<char>, Seq<char>),
    NewCache(u64),
    SaveNothing,
    CloseStore,
    StartMetrics(u16),
    StopMetrics,
    StartAgent(Seq<char>),
    StopAgent,
    StopDaemon,
}

impl View for ServerEffect {
    type V = ServerEffectView;

    open spec fn view(&self) -> ServerEffectView {
        match *self {
            ServerEffect::Process(e) => ServerEffectView::Process(e@),
            ServerEffect::StartServer(s) => ServerEffectView::StartServer(s.ports@, s.tls_ports@),
            ServerEffect::IssueCert { hostname, email } => ServerEffectView::IssueCert(
                hostname@,
                email@,
            ),
            ServerEffect::NewCache { ttl_secs } => ServerEffectView::NewCache(ttl_secs),
            ServerEffect::SaveNothing => ServerEffectView::SaveNothing,
            ServerEffect::CloseStore => ServerEffectView::CloseStore,
            ServerEffect::StartMetrics { port } => ServerEffectView::StartMetrics(port),
            ServerEffect::StopMetrics => ServerEffectView::StopMetrics,
            ServerEffect::StartAgent { api_key } => ServerEffectView::StartAgent(api_key@),
            ServerEffect::StopAgent => ServerEffectView::StopAgent,
            ServerEffect::StopDaemon => ServerEffectView::StopDaemon,
        }
    }
}

/// The contents of a list of effects.
pub open spec fn server_effects(v: Seq<ServerEffect>) -> Seq<ServerEffectView> {
    v.map_values(|e: ServerEffect| e@)
}

/// Effects around the processes.
pub open spec fn process_effects(v: Seq<EffectView>) -> Seq<ServerEffectView> {
    v.map_values(|e: EffectView| ServerEffectView::Process(e))
}

/// What a request leaves: the daemon, the answer and what is to be done.
pub type Answer = (DaemonView, ResponseView, Seq<ServerEffectView>);

fn nothing() -> (r: Vec<ServerEffect>)
    ensures
        server_effects(r@) == Seq::<ServerEffectView>::empty(),
{
    let r: Vec<ServerEffect> = Vec::new();
    assert(server_effects(r@) =~= Seq::empty());
    r
}

fn add_effect(list: &mut Vec<ServerEffect>, e: ServerEffect)
    ensures
        server_effects(final(list)@) == server_effects(old(list)@).push(e@),
{
    let ghost was = server_effects(list@);
    list.push(e);
    assert(server_effects(list@) =~= was.push(e@));
}

/// Adds effects around the processes.
fn add_process_effects(list: &mut Vec<ServerEffect>, more: Vec<Effect>)
    ensures
        server_effects(final(list)@) == server_effects(old(list)@) + process_effects(
            effects(more@),
        ),
{
    let ghost was = server_effects(list@);
    let ghost given = more@;
    let ghost all = effects(given);
    let mut rest = more;
    assert(was + process_effects(all.take(0)) =~= was);
    while rest.len() > 0
        invariant
            rest@.len() <= given.len(),
            rest@ == given.skip(given.len() - rest@.len()),
            all == effects(given),
            server_effects(list@) == was + process_effects(all.take(given.len() - rest@.len())),
        decreases rest@.len(),
    {
        let ghost k = given.len() - rest@.len();
        let e = rest.remove(0);
        let ghost v = e@;
        add_effect(list, ServerEffect::Process(e));
        proof {
            assert(all[k] == v);
            assert(all.take(k + 1) =~= all.take(k).push(v));
            assert(process_effects(all.take(k + 1)) =~= process_effects(all.take(k)).push(
                ServerEffectView::Process(v),
            ));
            assert(server_effects(list@) =~= was + process_effects(all.take(k + 1)));
            assert(rest@ =~= given.skip(k + 1));
        }
    }
    assert(all.take(given.len() as int) =~= all);
}

/// What was done outside for a request. Each request looks at what concerns it alone.
#[derive(Debug, PartialEq, Eq)]
pub struct RequestIo {
    pub now: Timestamp,
    /// What creating the directory of the logs gave.
    pub dirs: Result<(), String>,
    /// What starting the process gave.
    pub start: StartOutcome,
    /// Whether the path is a directory.
    pub is_dir: bool,
    /// The true path of the directory.
    pub canonical: Option<String>,
    /// What the file of the certificate holds.
    pub cert_file: Result<Vec<u8>, String>,
    /// What the file of the key holds.
    pub key_file: Result<Vec<u8>, String>,
    /// What pulling the new image gave.
    pub pulled: Result<Pulled, String>,
    /// What the file of the environment holds.
    pub env: Result<String, String>,
    /// What the log of the output holds.
    pub stdout: Option<String>,
    /// What the log of the error output holds.
    pub stderr: Option<String>,
    /// What writing to the store gave.
    pub stored: Result<(), String>,
}

/// The contents of a `RequestIo`.
#[verifier::ext_equal]
pub struct RequestIoView {
    pub now: Timestamp,
    pub dirs: Result<(), Seq<char>>,
    pub start: StartOutcomeView,
    pub is_dir: bool,
    pub canonical: Option<Seq<char>>,
    pub cert_file: Result<Seq<u8>, Seq<char>>,
    pub key_file: Result<Seq<u8>, Seq<char>>,
    pub pulled: Result<PulledView, Seq<char>>,
    pub env: Result<Seq<char>, Seq<char>>,
    pub stdout: Option<Seq<char>>,
    pub stderr: Option<Seq<char>>,
    pub stored: Result<(), Seq<char>>,
}

/// The contents of what a pull gave.
pub open spec fn pulled_view(r: Result<Pulled, String>) -> Result<PulledView, Seq<char>> {
    match r {
        Ok(p) => Ok(p@),
        Err(e) => Err(e@),
    }
}

impl View for RequestIo {
    type V = RequestIoView;

    open spec fn view(&self) -> RequestIoView {
        RequestIoView {
            now: self.now,
            dirs: unit_view(self.dirs),
            start: self.start@,
            is_dir: self.is_dir,
            canonical: opt_text(self.canonical),
            cert_file: der_view(self.cert_file),
            key_file: der_view(self.key_file),
            pulled: pulled_view(self.pulled),
            env: read_view(self.env),
            stdout: opt_text(self.stdout),
            stderr: opt_text(self.stderr),
            stored: unit_view(self.stored),
        }
    }
}

// ---------------------------------------------------------------------------
// Running a process behind the proxy
// ---------------------------------------------------------------------------

/// What preparing the certificate that a configuration names may give, from what its files
/// were read as.
pub open spec fn ssl_prepares(
    ssl: Option<SslConfigView>,
    cert_file: Result<Seq<u8>, Seq<char>>,
    key_file: Result<Seq<u8>, Seq<char>>,
    prepared: Prepared,
) -> bool {
    may_prepare(
        match ssl {
            Some(f) => Some(
                CertFilesView {
                    cert_path: f.cert_path,
                    key_path: f.key_path,
                    cert: cert_file,
                    key: key_file,
                },
            ),
            None => None,
        },
        prepared,
    )
}

/// The server that is started.
pub open spec fn server_start(o: Option<(Seq<u16>, Seq<u16>)>) -> Seq<ServerEffectView> {
    match o {
        Some((ports, tls_ports)) => seq![ServerEffectView::StartServer(ports, tls_ports)],
        None => Seq::empty(),
    }
}

/// The host whose certificate is asked for, and whom to write to.
pub open spec fn wanted_cert(c: ProcessConfigView) -> Option<(Seq<char>, Seq<char>)> {
    match (c.acme, c.port_mapping) {
        (Some(email), Some(m)) => match m.host {
            Some(h) => Some((h, email)),
            None => None,
        },
        _ => None,
    }
}

/// The hosts whose certificates are renewed once a process runs.
pub open spec fn hosts_with(v: Seq<(Seq<char>, Seq<char>)>, c: ProcessConfigView) -> Seq<
    (Seq<char>, Seq<char>),
> {
    match wanted_cert(c) {
        Some((h, email)) => with_host(v, h, email),
        None => v,
    }
}

/// The certificate that is asked for once a process runs.
pub open spec fn issue_effects(c: ProcessConfigView) -> Seq<ServerEffectView> {
    match wanted_cert(c) {
        Some((h, email)) => seq![ServerEffectView::IssueCert(h, email)],
        None => Seq::empty(),
    }
}

/// Where a route of a process leads.
pub open spec fn backend_of(c: ProcessConfigView, m: PortMappingView, canonical: Option<Seq<char>>)
    -> BackendView {
    if c.spa {
        BackendView::Spa(
            match canonical {
                Some(p) => p,
                None => c.path,
            },
        )
    } else {
        BackendView::Proxy(m.upstream())
    }
}

/// The route of a process.
pub open spec fn route_for(c: ProcessConfigView, m: PortMappingView, canonical: Option<Seq<char>>)
    -> RouteView {
    RouteView {
        name: c.name,
        port: m.public_port,
        host: m.host,
        backend: backend_of(c, m, canonical),
    }
}

/// How a port mapping is shown.
pub open spec fn shown_ports(m: PortMappingView) -> Seq<char> {
    let h = match m.host {
        Some(h) => h,
        None => Seq::empty(),
    };
    h + ":"@ + decimal(m.public_port as nat) + " -> "@ + decimal(m.upstream() as nat)
}

/// Why a process cannot be run as it is configured.
pub open spec fn run_refusal(c: ProcessConfigView) -> Option<Seq<char>> {
    match c.port_mapping {
        None => Some("run requires --p port mapping"@),
        Some(m) => if c.acme is Some && m.host is None {
            Some("ACME requires host-based port mapping (e.g. --p domain.com:443:8000)"@)
        } else {
            None
        },
    }
}

/// What running a directory behind the proxy leaves.
pub open spec fn spa_answer(
    s: DaemonView,
    c: ProcessConfigView,
    m: PortMappingView,
    io: RequestIoView,
    prepared: Prepared,
) -> Answer {
    if !io.is_dir {
        (s, ResponseView::Error("'"@ + c.path + "' is not a directory"@), Seq::empty())
    } else {
        let (proxy, added) = route_added(s.proxy, route_for(c, m, io.canonical), prepared);
        match added {
            Err(e) => (DaemonView { proxy, ..s }, ResponseView::Error(e), Seq::empty()),
            Ok(start) => {
                let (processes, result, count) = spa_change(s.processes, c, io.now);
                match result {
                    Err(e) => (
                        DaemonView { proxy, ..s },
                        ResponseView::Error(e),
                        server_start(start),
                    ),
                    Ok(_) => (
                        DaemonView { proxy, processes, acme: hosts_with(s.acme, c), ..s },
                        ResponseView::Success(
                            "SPA '"@ + c.name + "' serving on port "@ + decimal(
                                m.public_port as nat,
                            ),
                        ),
                        server_start(start) + process_effects(count) + issue_effects(c),
                    ),
                }
            },
        }
    }
}

/// What running a process behind the proxy leaves: where its route cannot be set up, the
/// process is deleted again.
pub open spec fn program_answer(
    s: DaemonView,
    c: ProcessConfigView,
    m: PortMappingView,
    io: RequestIoView,
    prepared: Prepared,
) -> Answer {
    let (processes, result, first) = spawn_change(s.processes, c, io.dirs, io.start);
    match result {
        Err(e) => (
            DaemonView { processes, ..s },
            ResponseView::Error(e),
            process_effects(first),
        ),
        Ok(message) => {
            let (proxy, added) = route_added(s.proxy, route_for(c, m, io.canonical), prepared);
            match added {
                Err(e) => {
                    let (rest, _, second) = delete_change(processes, c.name);
                    (
                        DaemonView { processes: rest, proxy, ..s },
                        ResponseView::Error("proxy setup failed: "@ + e),
                        process_effects(first) + process_effects(second),
                    )
                },
                Ok(start) => (
                    DaemonView { processes, proxy, acme: hosts_with(s.acme, c), ..s },
                    ResponseView::Success(message + " (proxy "@ + shown_ports(m) + ")"@),
                    process_effects(first) + server_start(start) + issue_effects(c),
                ),
            }
        },
    }
}

/// What running a process or a directory behind the proxy leaves.
pub open spec fn run_answer(
    s: DaemonView,
    c: ProcessConfigView,
    io: RequestIoView,
    prepared: Prepared,
) -> Answer {
    match c.port_mapping {
        None => (s, ResponseView::Error("run requires --p port mapping"@), Seq::empty()),
        Some(m) => match run_refusal(c) {
            Some(e) => (s, ResponseView::Error(e), Seq::empty()),
            None => if c.spa {
                spa_answer(s, c, m, io, prepared)
            } else {
                program_answer(s, c, m, io, prepared)
            },
        },
    }
}

fn copy_file(f: &Result<Vec<u8>, String>) -> (r: Result<Vec<u8>, String>)
    ensures
        der_view(r) == der_view(*f),
{
    match f {
        Ok(b) => Ok(copy_bytes(b)),
        Err(e) => Err(e.clone()),
    }
}

/// Prepares the certificate that a configuration names. `cert_file` and `key_file` are what
/// its two files were read as.
pub fn prepare_ssl(
    ssl: &Option<SslConfig>,
    cert_file: &Result<Vec<u8>, String>,
    key_file: &Result<Vec<u8>, String>,
) -> (r: Result<Option<TlsCertificate>, String>)
    ensures
        ssl_prepares(
            crate::protocol::opt_ssl(*ssl),
            der_view(*cert_file),
            der_view(*key_file),
            prepared_view(r),
        ),
{
    let files = match ssl {
        Some(s) => Some(
            CertFiles {
                cert_path: s.cert_path.clone(),
                key_path: s.key_path.clone(),
                cert: copy_file(cert_file),
                key: copy_file(key_file),
            },
        ),
        None => None,
    };
    prepare(files)
}

/// Sets up the route of a process, given what preparing its certificate gave.
fn open_route(
    proxy: &mut ProxyManager,
    config: &ProcessConfig,
    m: &PortMapping,
    canonical: Option<String>,
    prepared: Result<Option<TlsCertificate>, String>,
) -> (r: Result<Vec<ServerEffect>, String>)
    requires
        old(proxy).valid(),
    ensures
        final(proxy).valid(),
        ({
            let (after, added) = route_added(
                old(proxy)@,
                route_for(config@, m@, opt_text(canonical)),
                prepared_view(prepared),
            );
            &&& final(proxy)@ == after
            &&& match (r, added) {
                (Ok(list), Ok(start)) => server_effects(list@) == server_start(start),
                (Err(e), Err(v)) => e@ == v,
                _ => false,
            }
        }),
{
    let backend = make_backend(config, m, canonical);
    match proxy.add_prepared(
        config.name.as_str(),
        m.public_port,
        copy_opt(&m.host),
        backend,
        prepared,
    ) {
        Ok(start) => {
            let mut list = nothing();
            match start {
                Some(s) => {
                    add_effect(&mut list, ServerEffect::StartServer(s));
                },
                None => {},
            }
            assert(server_effects(list@) =~= server_start(start_view(start)));
            Ok(list)
        },
        Err(e) => Err(e),
    }
}

/// Where a route of a process leads.
fn make_backend(config: &ProcessConfig, m: &PortMapping, canonical: Option<String>) -> (r: Backend)
    ensures
        r@ == backend_of(config@, m@, opt_text(canonical)),
{
    if config.spa {
        match canonical {
            Some(p) => Backend::Spa(p),
            None => Backend::Spa(config.path.clone()),
        }
    } else {
        Backend::Proxy(m.upstream_port())
    }
}

/// Shows a port mapping.
fn show_ports(m: &PortMapping) -> (r: String)
    ensures
        r@ == shown_ports(m@),
{
    let public = number_text(m.public_port as u64);
    let app = number_text(m.upstream_port() as u64);
    let host = match &m.host {
        Some(h) => h.clone(),
        None => String::new(),
    };
    assert(host@ =~= match m@.host {
        Some(h) => h,
        None => Seq::empty(),
    });
    cat5(host.as_str(), ":", public.as_str(), " -> ", app.as_str())
}

/// Why a process cannot be run as it is configured.
pub fn check_run(config: &ProcessConfig) -> (r: Option<String>)
    ensures
        opt_text(r) == run_refusal(config@),
{
    match &config.port_mapping {
        None => Some("run requires --p port mapping".to_string()),
        Some(m) => if config.acme.is_some() && m.host.is_none() {
            Some(
                "ACME requires host-based port mapping (e.g. --p domain.com:443:8000)".to_string(),
            )
        } else {
            None
        },
    }
}

impl DaemonState {
    /// The processes and the proxy are in order.
    pub open spec fn valid(self) -> bool {
        self.process_mgr.valid() && self.proxy_mgr.valid()
    }

    /// A daemon without processes.
    pub fn new() -> (r: DaemonState)
        ensures
            r.valid(),
            r@ == (DaemonView {
                processes: Seq::empty(),
                proxy: ProxyView {
                    routes: Seq::empty(),
                    cache_ttl_secs: crate::proxy::DEFAULT_CACHE_TTL_SECS,
                    ports: Seq::empty(),
                    tls_ports: Seq::empty(),
                    certs: CertStoreView { certs: Map::empty(), default_cert: None },
                    challenges: Map::empty(),
                },
                acme: Seq::empty(),
                metrics_port: None,
            }),
    {
        let r = DaemonState {
            process_mgr: ProcessManager::new(),
            proxy_mgr: ProxyManager::new(crate::acme::ChallengeStore::new()),
            acme_configs: Vec::new(),
            metrics_port: None,
        };
        assert(r@.acme =~= Seq::empty());
        r
    }

    /// Asks for the certificate of a host, and keeps the host for renewal.
    fn want_cert(&mut self, config: &ProcessConfig, list: &mut Vec<ServerEffect>)
        requires
            old(self).valid(),
        ensures
            final(self).valid(),
            final(self)@ == (DaemonView {
                acme: hosts_with(old(self)@.acme, config@),
                ..old(self)@
            }),
            server_effects(final(list)@) == server_effects(old(list)@) + issue_effects(config@),
    {
        let ghost was = server_effects(list@);
        match (&config.acme, &config.port_mapping) {
            (Some(email), Some(m)) => match &m.host {
                Some(h) => {
                    register_acme(&mut self.acme_configs, h.as_str(), email.as_str());
                    add_effect(
                        list,
                        ServerEffect::IssueCert { hostname: h.clone(), email: email.clone() },
                    );
                },
                None => {},
            },
            _ => {},
        }
        assert(server_effects(list@) =~= was + issue_effects(config@));
    }

    /// Serves a directory behind the proxy.
    fn run_spa(
        &mut self,
        config: ProcessConfig,
        m: PortMapping,
        io: RequestIo,
        prepared: Result<Option<TlsCertificate>, String>,
    ) -> (r: (Response, Vec<ServerEffect>))
        requires
            old(self).valid(),
            config@.spa,
            config@.port_mapping == Some(m@),
        ensures
            final(self).valid(),
            (final(self)@, r.0@, server_effects(r.1@)) == spa_answer(
                old(self)@,
                config@,
                m@,
                io@,
                prepared_view(prepared),
            ),
    {
        if !io.is_dir {
            let message = cat3("'", config.path.as_str(), "' is not a directory");
            return (Response::Error(message), nothing());
        }
        let now = io.now;
        match open_route(&mut self.proxy_mgr, &config, &m, io.canonical, prepared) {
            Err(e) => (Response::Error(e), nothing()),
            Ok(start) => {
                let mut list = start;
                let kept = config.clone();
                let (result, count) = self.process_mgr.register_spa(config, now);
                match result {
                    Err(e) => (Response::Error(e), list),
                    Ok(_) => {
                        add_process_effects(&mut list, count);
                        self.want_cert(&kept, &mut list);
                        let message = cat4(
                            "SPA '",
                            kept.name.as_str(),
                            "' serving on port ",
                            number_text(m.public_port as u64).as_str(),
                        );
                        (Response::Success(message), list)
                    },
                }
            },
        }
    }

    /// Runs a process behind the proxy.
    fn run_program(
        &mut self,
        config: ProcessConfig,
        m: PortMapping,
        io: RequestIo,
        prepared: Result<Option<TlsCertificate>, String>,
    ) -> (r: (Response, Vec<ServerEffect>))
        requires
            old(self).valid(),
            !config@.spa,
            config@.port_mapping == Some(m@),
        ensures
            final(self).valid(),
            (final(self)@, r.0@, server_effects(r.1@)) == program_answer(
                old(self)@,
                config@,
                m@,
                io@,
                prepared_view(prepared),
            ),
    {
        let kept = config.clone();
        let (result, first) = self.process_mgr.spawn_process(config, io.dirs, io.start);
        let mut list = nothing();
        let ghost done = effects(first@);
        add_process_effects(&mut list, first);
        assert(server_effects(list@) =~= process_effects(done));
        match result {
            Err(e) => (Response::Error(e), list),
            Ok(message) => {
                match open_route(&mut self.proxy_mgr, &kept, &m, io.canonical, prepared) {
                    Err(e) => {
                        let (_gone, second) = self.process_mgr.delete(kept.name.as_str());
                        add_process_effects(&mut list, second);
                        (Response::Error(cat2("proxy setup failed: ", e.as_str())), list)
                    },
                    Ok(start) => {
                        append_server_effects(&mut list, start);
                        self.want_cert(&kept, &mut list);
                        let ports = show_ports(&m);
                        (
                            Response::Success(
                                cat4(message.as_str(), " (proxy ", ports.as_str(), ")"),
                            ),
                            list,
                        )
                    },
                }
            },
        }
    }

    /// Runs a process or serves a directory behind the proxy, given what preparing its
    /// certificate gave.
    pub fn run_prepared(
        &mut self,
        config: ProcessConfig,
        io: RequestIo,
        prepared: Result<Option<TlsCertificate>, String>,
    ) -> (r: (Response, Vec<ServerEffect>))
        requires
            old(self).valid(),
        ensures
            final(self).valid(),
            (final(self)@, r.0@, server_effects(r.1@)) == run_answer(
                old(self)@,
                config@,
                io@,
                prepared_view(prepared),
            ),
    {
        let m = match &config.port_mapping {
            Some(m) => m.clone(),
            None => {
                return (Response::Error("run requires --p port mapping".to_string()), nothing());
            },
        };
        match check_run(&config) {
            Some(e) => {
                return (Response::Error(e), nothing());
            },
            None => {},
        }
        if config.spa {
            self.run_spa(config, m, io, prepared)
        } else {
            self.run_program(config, m, io, prepared)
        }
    }

    /// Runs a process or serves a directory behind the proxy.
    pub fn handle_run(&mut self, config: ProcessConfig, io: RequestIo) -> (r: (
        Response,
        Vec<ServerEffect>,
    ))
        requires
            old(self).valid(),
        ensures
            final(self).valid(),
            exists|prepared: Prepared| #[trigger]
                ssl_prepares(config@.ssl, io@.cert_file, io@.key_file, prepared) && (
                    final(self)@,
                    r.0@,
                    server_effects(r.1@),
                ) == run_answer(old(self)@, config@, io@, prepared),
    {
        let prepared = prepare_ssl(&config.ssl, &io.cert_file, &io.key_file);
        self.run_prepared(config, io, prepared)
    }
}

/// Adds a list of effects.
fn append_server_effects(list: &mut Vec<ServerEffect>, more: Vec<ServerEffect>)
    ensures
        server_effects(final(list)@) == server_effects(old(list)@) + server_effects(more@),
{
    let ghost was = server_effects(list@);
    let ghost extra = more@;
    let ghost before = list@;
    let mut rest = more;
    list.append(&mut rest);
    assert(list@ =~= before + extra);
    assert(server_effects(list@) =~= was + server_effects(extra));
}

// ---------------------------------------------------------------------------
// Updating a process
// ---------------------------------------------------------------------------

/// What is changed of a process.
#[derive(Debug, PartialEq, Eq)]
pub struct Update {
    pub name: String,
    pub port: Option<String>,
    pub ssl: Option<Vec<String>>,
    pub acme: Option<String>,
    pub env_file: Option<String>,
    pub args: Option<String>,
    pub image: Option<String>,
}

impl View for Update {
    type V = UpdateView;

    open spec fn view(&self) -> UpdateView {
        UpdateView {
            name: self.name@,
            port: opt_text(self.port),
            ssl: opt_texts(self.ssl),
            acme: opt_text(self.acme),
            env_file: opt_text(self.env_file),
            args: opt_text(self.args),
            image: opt_text(self.image),
        }
    }
}

/// The image and its program that a process is changed to, or why it is not.
pub open spec fn new_image(
    image: Option<Seq<char>>,
    pulled: Result<PulledView, Seq<char>>,
) -> Result<Option<(Seq<char>, Seq<char>)>, Seq<char>> {
    match image {
        None => Ok(None),
        Some(img) => if !is_image(img) {
            Err("'"@ + img + "' is not a valid OCI image reference"@)
        } else {
            match pulled {
                Err(e) => Err("OCI pull failed: "@ + e),
                Ok(p) => match p.entry {
                    Err(e) => Err("OCI entrypoint error: "@ + e),
                    Ok((program, _)) => Ok(Some((img, program))),
                },
            }
        },
    }
}

/// The certificate files that a list names; what is missing is empty.
pub open spec fn named_files(ssl: Option<Seq<Seq<char>>>) -> Option<SslConfigView> {
    match ssl {
        Some(v) => Some(
            SslConfigView {
                cert_path: if v.len() > 0 {
                    v[0]
                } else {
                    Seq::empty()
                },
                key_path: if v.len() > 1 {
                    v[1]
                } else {
                    Seq::empty()
                },
            },
        ),
        None => None,
    }
}

/// The configuration of a process after an update.
pub open spec fn updated_config(
    c: ProcessConfigView,
    u: UpdateView,
    mapping: Option<PortMappingView>,
    env: Map<Seq<char>, Seq<char>>,
    image: Option<(Seq<char>, Seq<char>)>,
) -> ProcessConfigView {
    let d = updated(
        c,
        mapping,
        named_files(u.ssl),
        u.acme,
        u.env_file,
        if u.env_file is Some {
            Some(env)
        } else {
            None
        },
        match u.args {
            Some(a) => Some(arguments(Some(a))),
            None => None,
        },
    );
    match image {
        Some((img, program)) => ProcessConfigView {
            oci_reference: Some(img),
            path: program,
            is_oci: true,
            ..d
        },
        None => d,
    }
}

/// Whether an update gives a process a new route: it changes the ports or the certificate of
/// a process that is behind the proxy.
pub open spec fn reroutes(u: UpdateView, c: ProcessConfigView) -> bool {
    (u.port is Some || u.ssl is Some) && c.port_mapping is Some
}

/// Whether an update asks for a certificate: it changes the ports or whom to write to.
pub open spec fn asks_cert(u: UpdateView) -> bool {
    u.port is Some || u.acme is Some
}

/// The daemon after a process was changed, and what is to be done; or why the process is
/// not changed.
pub open spec fn update_applied(
    s: DaemonView,
    u: UpdateView,
    pulled: Result<PulledView, Seq<char>>,
    env: Result<Seq<char>, Seq<char>>,
    canonical: Option<Seq<char>>,
    prepared: Prepared,
) -> (DaemonView, Result<Seq<ServerEffectView>, Seq<char>>) {
    match (new_image(u.image, pulled), chosen_mapping(u.port), chosen_env(u.env_file, env)) {
        (Err(e), _, _) => (s, Err(e)),
        (_, Err(e), _) => (s, Err(e)),
        (_, _, Err(e)) => (s, Err(e)),
        (Ok(image), Ok(mapping), Ok(vars)) => if !exists_process(s.processes, u.name) {
            (s, Err(not_found(u.name)))
        } else {
            let i = position(s.processes, u.name);
            let p = s.processes[i];
            let c = updated_config(p.config, u, mapping, vars, image);
            let processes = s.processes.update(
                i,
                match image {
                    Some((_, program)) => with_path(with_config(p, c), program),
                    None => with_config(p, c),
                },
            );
            let acme = if asks_cert(u) {
                hosts_with(s.acme, c)
            } else {
                s.acme
            };
            let asked = if asks_cert(u) {
                issue_effects(c)
            } else {
                Seq::empty()
            };
            if reroutes(u, c) {
                let (proxy, added) = route_added(
                    s.proxy,
                    route_for(c, c.port_mapping->Some_0, canonical),
                    prepared,
                );
                match added {
                    Err(e) => (
                        DaemonView { proxy, ..s },
                        Err("proxy route update failed: "@ + e),
                    ),
                    Ok(start) => (
                        DaemonView { processes, proxy, acme, ..s },
                        Ok(server_start(start) + asked),
                    ),
                }
            } else {
                (DaemonView { processes, acme, ..s }, Ok(asked))
            }
        },
    }
}

/// What is left once a process was changed: a directory that is served goes on, a process is
/// restarted.
pub open spec fn update_finished(
    t: DaemonView,
    name: Seq<char>,
    applied: Result<bool, Seq<char>>,
    outcome: StartOutcomeView,
) -> Answer {
    match applied {
        Err(e) => (t, ResponseView::Error(e), Seq::empty()),
        Ok(spa) => if spa {
            (t, ResponseView::Success("'"@ + name + "' config updated"@), Seq::empty())
        } else {
            let (processes, result, more) = restart_change(t.processes, name, outcome);
            (
                DaemonView { processes, ..t },
                match result {
                    Ok(m) => ResponseView::Success("updated and restarted: "@ + m),
                    Err(e) => ResponseView::Error("config updated but restart failed: "@ + e),
                },
                process_effects(more),
            )
        },
    }
}

/// What an update leaves.
pub open spec fn update_answer(
    s: DaemonView,
    u: UpdateView,
    io: RequestIoView,
    prepared: Prepared,
) -> Answer {
    let (t, applied) = update_applied(s, u, io.pulled, io.env, io.canonical, prepared);
    match applied {
        Err(e) => update_finished(t, u.name, Err(e), io.start),
        Ok(todo) => {
            let spa = t.processes[position(t.processes, u.name)].config.spa;
            let (after, answer, more) = update_finished(t, u.name, Ok(spa), io.start);
            (after, answer, todo + more)
        },
    }
}

/// The image and its program that a process is changed to, or why it is not.
fn read_image(image: &Option<String>, pulled: Result<Pulled, String>) -> (r: Result<
    Option<(String, String)>,
    String,
>)
    ensures
        match (r, new_image(opt_text(*image), pulled_view(pulled))) {
            (Ok(Some((img, program))), Ok(Some((i, p)))) => img@ == i && program@ == p,
            (Ok(None), Ok(None)) => true,
            (Err(e), Err(v)) => e@ == v,
            _ => false,
        },
{
    match image {
        None => Ok(None),
        Some(img) => {
            if !is_oci_reference(img.as_str()) {
                return Err(cat3("'", img.as_str(), "' is not a valid OCI image reference"));
            }
            match pulled {
                Err(e) => Err(cat2("OCI pull failed: ", e.as_str())),
                Ok(p) => match p.entry {
                    Err(e) => Err(cat2("OCI entrypoint error: ", e.as_str())),
                    Ok((program, _extra)) => Ok(Some((img.clone(), program))),
                },
            }
        },
    }
}

/// The certificate files that a list names; what is missing is empty.
pub fn read_files(ssl: &Option<Vec<String>>) -> (r: Option<SslConfig>)
    ensures
        crate::protocol::opt_ssl(r) == named_files(opt_texts(*ssl)),
{
    match ssl {
        Some(v) => {
            assert(texts(v@).len() == v@.len());
            let cert_path = if v.len() > 0 {
                v[0].clone()
            } else {
                String::new()
            };
            let key_path = if v.len() > 1 {
                v[1].clone()
            } else {
                String::new()
            };
            proof {
                let w = named_files(opt_texts(*ssl)).unwrap();
                assert(cert_path@ =~= w.cert_path);
                assert(key_path@ =~= w.key_path);
            }
            Some(SslConfig { cert_path, key_path })
        },
        None => None,
    }
}

impl DaemonState {
    /// Changes the configuration of a process and its route, given what preparing its
    /// certificate gave. Tells whether it is a directory that is served, so that nothing has
    /// to be restarted.
    pub fn apply_update(
        &mut self,
        update: &Update,
        pulled: Result<Pulled, String>,
        env: Result<String, String>,
        canonical: Option<String>,
        prepared: Result<Option<TlsCertificate>, String>,
    ) -> (r: (Result<bool, String>, Vec<ServerEffect>))
        requires
            old(self).valid(),
        ensures
            final(self).valid(),
            ({
                let (t, applied) = update_applied(
                    old(self)@,
                    update@,
                    pulled_view(pulled),
                    read_view(env),
                    opt_text(canonical),
                    prepared_view(prepared),
                );
                &&& final(self)@ == t
                &&& match (r.0, applied) {
                    (Ok(spa), Ok(todo)) => {
                        &&& server_effects(r.1@) == todo
                        &&& exists_process(t.processes, update@.name)
                        &&& spa == t.processes[position(t.processes, update@.name)].config.spa
                        &&& restart_fits(old(self)@.processes, update@.name) ==> restart_fits(
                            t.processes,
                            update@.name,
                        )
                    },
                    (Err(e), Err(v)) => {
                        &&& e@ == v
                        &&& server_effects(r.1@) == Seq::<ServerEffectView>::empty()
                    },
                    _ => false,
                }
            }),
    {
        let ghost before = self@;
        let image = match read_image(&update.image, pulled) {
            Ok(i) => i,
            Err(e) => {
                return (Err(e), nothing());
            },
        };
        let mapping = match read_port_option(&update.port) {
            Ok(m) => m,
            Err(e) => {
                return (Err(e), nothing());
            },
        };
        let ghost want = opt_mapping(mapping);
        let vars = match read_env_option(&update.env_file, env) {
            Ok(v) => v,
            Err(e) => {
                return (Err(e), nothing());
            },
        };
        let ghost env_map = crate::protocol::env_of(vars@);
        let env_vars = if update.env_file.is_some() {
            Some(vars)
        } else {
            None
        };
        let args = match &update.args {
            Some(_) => Some(parse_args_string(&update.args)),
            None => None,
        };
        let changed = self.process_mgr.update_config(
            update.name.as_str(),
            mapping,
            read_files(&update.ssl),
            copy_opt(&update.acme),
            copy_opt(&update.env_file),
            env_vars,
            args,
        );
        let old_config = match changed {
            Ok(c) => c,
            Err(e) => {
                return (Err(e), nothing());
            },
        };
        let ghost i = position(before.processes, update@.name);
        let ghost p = before.processes[i];
        let ghost mid = self@.processes;
        proof {
            crate::process::lemma_position(before.processes, update@.name);
            crate::process::lemma_position_kept(before.processes, mid, update@.name);
        }
        let ghost img: Option<(Seq<char>, Seq<char>)> = if image is Some {
            Some((image->Some_0.0@, image->Some_0.1@))
        } else {
            None
        };
        let mut config = match self.process_mgr.config_of(update.name.as_str()) {
            Some(c) => c,
            None => {
                return (Ok(false), nothing());
            },
        };
        match &image {
            Some((img_ref, program)) => {
                config.oci_reference = Some(img_ref.clone());
                config.path = program.clone();
                config.is_oci = true;
            },
            None => {},
        }
        let ghost c = updated_config(p.config, update@, want, env_map, img);
        assert(config@ == c);
        let mut list = nothing();
        if update.port.is_some() || update.ssl.is_some() {
            match &config.port_mapping {
                Some(m) => {
                    match open_route(&mut self.proxy_mgr, &config, m, canonical, prepared) {
                        Ok(start) => {
                            list = start;
                        },
                        Err(e) => {
                            self.process_mgr.set_config(update.name.as_str(), old_config);
                            assert(self@.processes =~= before.processes);
                            return (
                                Err(cat2("proxy route update failed: ", e.as_str())),
                                nothing(),
                            );
                        },
                    }
                },
                None => {},
            }
        }
        match &image {
            Some((img_ref, program)) => {
                self.process_mgr.update_oci_config(
                    update.name.as_str(),
                    img_ref.as_str(),
                    program.as_str(),
                );
            },
            None => {},
        }
        proof {
            let changed = match img {
                Some((_, program)) => with_path(with_config(p, c), program),
                None => with_config(p, c),
            };
            assert(self@.processes =~= before.processes.update(i, changed));
            crate::process::lemma_position_kept(
                before.processes,
                self@.processes,
                update@.name,
            );
        }
        let ghost opened = server_effects(list@);
        if update.port.is_some() || update.acme.is_some() {
            self.want_cert(&config, &mut list);
        }
        proof {
            let asked = if asks_cert(update@) {
                issue_effects(c)
            } else {
                Seq::empty()
            };
            assert(server_effects(list@) =~= opened + asked);
            assert(Seq::<ServerEffectView>::empty() + asked =~= asked);
        }
        (Ok(config.spa), list)
    }

    /// Ends an update: restarts the process that was changed, unless it is a directory that
    /// is served. `applied` is what the change gave, and `outcome` what starting the process
    /// again gave.
    pub fn finish_update(
        &mut self,
        name: &str,
        applied: Result<bool, String>,
        outcome: StartOutcome,
    ) -> (r: (Response, Vec<ServerEffect>))
        requires
            old(self).valid(),
            applied matches Ok(spa) ==> spa || restart_fits(old(self)@.processes, name@),
        ensures
            final(self).valid(),
            (final(self)@, r.0@, server_effects(r.1@)) == update_finished(
                old(self)@,
                name@,
                match applied {
                    Ok(spa) => Ok(spa),
                    Err(e) => Err(e@),
                },
                outcome@,
            ),
    {
        let spa = match applied {
            Ok(spa) => spa,
            Err(e) => {
                return (Response::Error(e), nothing());
            },
        };
        if spa {
            return (Response::Success(cat3("'", name, "' config updated")), nothing());
        }
        let (result, more) = self.process_mgr.restart(name, outcome);
        let list = only_process_effects(more);
        match result {
            Ok(m) => (Response::Success(cat2("updated and restarted: ", m.as_str())), list),
            Err(e) => (
                Response::Error(cat2("config updated but restart failed: ", e.as_str())),
                list,
            ),
        }
    }

    /// Changes a process, and restarts it unless it is a directory that is served.
    pub fn handle_update(&mut self, update: Update, io: RequestIo) -> (r: (
        Response,
        Vec<ServerEffect>,
    ))
        requires
            old(self).valid(),
            restart_fits(old(self)@.processes, update@.name),
        ensures
            final(self).valid(),
            exists|prepared: Prepared| #[trigger]
                ssl_prepares(
                    named_files(update@.ssl),
                    io@.cert_file,
                    io@.key_file,
                    prepared,
                ) && (final(self)@, r.0@, server_effects(r.1@)) == update_answer(
                    old(self)@,
                    update@,
                    io@,
                    prepared,
                ),
    {
        let ssl = read_files(&update.ssl);
        let prepared = prepare_ssl(&ssl, &io.cert_file, &io.key_file);
        let (applied, todo) = self.apply_update(
            &update,
            io.pulled,
            io.env,
            io.canonical,
            prepared,
        );
        let mut list = todo;
        let ghost first = server_effects(list@);
        let (response, more) = self.finish_update(update.name.as_str(), applied, io.start);
        let ghost second = server_effects(more@);
        append_server_effects(&mut list, more);
        assert(applied is Err ==> first + second =~= second);
        (response, list)
    }
}

// ---------------------------------------------------------------------------
// All requests
// ---------------------------------------------------------------------------

/// The answer from what an operation on the processes gave.
pub open spec fn plain_answer(
    s: DaemonView,
    change: (Seq<ManagedView>, Result<Seq<char>, Seq<char>>, Seq<EffectView>),
) -> Answer {
    (
        DaemonView { processes: change.0, ..s },
        match change.1 {
            Ok(m) => ResponseView::Success(m),
            Err(e) => ResponseView::Error(e),
        },
        process_effects(change.2),
    )
}

/// What deleting a process leaves: its routes go first, and a process that is not there
/// is no error.
pub open spec fn del_answer(s: DaemonView, name: Seq<char>) -> Answer {
    let (processes, result, todo) = delete_change(s.processes, name);
    (
        DaemonView {
            processes,
            proxy: ProxyView { routes: without_routes(s.proxy.routes, name), ..s.proxy },
            ..s
        },
        ResponseView::Success(
            match result {
                Ok(m) => m,
                Err(_) => "'"@ + name + "' removed"@,
            },
        ),
        process_effects(todo),
    )
}

/// What changing a setting leaves; the daemon knows one setting.
pub open spec fn set_answer(s: DaemonView, key: Seq<char>, value: Seq<char>) -> Answer {
    if key == "cache-ttl"@ {
        match parsed(value, u64::MAX as nat) {
            Some(secs) => (
                DaemonView {
                    proxy: ProxyView { cache_ttl_secs: secs as u64, ..s.proxy },
                    ..s
                },
                ResponseView::Success("cache-ttl set to "@ + decimal(secs) + "s"@),
                seq![ServerEffectView::NewCache(secs as u64)],
            ),
            None => (
                s,
                ResponseView::Error("invalid value '"@ + value + "': expected seconds"@),
                Seq::empty(),
            ),
        }
    } else {
        (
            s,
            ResponseView::Error(
                "unknown config key '"@ + key + "'. available: cache-ttl"@,
            ),
            Seq::empty(),
        )
    }
}

/// What starting or stopping the metrics server leaves.
pub open spec fn metrics_answer(s: DaemonView, port: Option<u16>) -> Answer {
    let stop = if s.metrics_port is Some {
        seq![ServerEffectView::StopMetrics]
    } else {
        Seq::empty()
    };
    match port {
        Some(p) => (
            DaemonView { metrics_port: Some(p), ..s },
            ResponseView::Success("metrics server listening on port "@ + decimal(p as nat)),
            stop.push(ServerEffectView::StartMetrics(p)),
        ),
        None => (
            DaemonView { metrics_port: None, ..s },
            if s.metrics_port is Some {
                ResponseView::Success("metrics server stopped"@)
            } else {
                ResponseView::Error("metrics server is not running"@)
            },
            stop,
        ),
    }
}

/// What a request leaves, given what was done outside and what preparing a certificate
/// gave.
pub open spec fn answered(
    s: DaemonView,
    q: RequestView,
    io: RequestIoView,
    prepared: Prepared,
) -> Answer {
    match q {
        RequestView::Bin(c) => plain_answer(s, spawn_change(s.processes, c, io.dirs, io.start)),
        RequestView::Run(c) => run_answer(s, c, io, prepared),
        RequestView::Ls => (
            s,
            ResponseView::ProcessList(
                s.processes.map_values(|p: ManagedView| crate::process::info_of(p, io.now)),
            ),
            Seq::empty(),
        ),
        RequestView::Del(name) => del_answer(s, name),
        RequestView::Restart(name) => plain_answer(
            s,
            restart_change(s.processes, name, io.start),
        ),
        RequestView::Reload(name) => plain_answer(s, reload_change(s.processes, name, io.start)),
        RequestView::Update(u) => update_answer(s, u, io, prepared),
        RequestView::Logs(name, n) => (
            s,
            if exists_process(s.processes, name) {
                ResponseView::Logs(logs_text(io.stdout, io.stderr, n as int))
            } else {
                ResponseView::Error(not_found(name))
            },
            Seq::empty(),
        ),
        RequestView::SetKey(key, value) => set_answer(s, key, value),
        RequestView::Export => (
            s,
            ResponseView::ConfigList(s.processes.map_values(|p: ManagedView| p.config)),
            Seq::empty(),
        ),
        RequestView::Save => (
            s,
            match io.stored {
                Ok(_) => ResponseView::Success(
                    "saved "@ + decimal(s.processes.len()) + " processes"@,
                ),
                Err(e) => ResponseView::Error(e),
            },
            Seq::empty(),
        ),
        RequestView::Kill => (
            DaemonView { processes: Seq::empty(), ..s },
            ResponseView::Success("all processes stopped"@),
            process_effects(
                kill_list(s.processes, s.processes.len() as int).push(EffectView::CountNone),
            ) + seq![
                ServerEffectView::SaveNothing,
                ServerEffectView::CloseStore,
                ServerEffectView::StopDaemon,
            ],
        ),
        RequestView::MetricsEnable(port) => metrics_answer(s, Some(port)),
        RequestView::MetricsDisable => metrics_answer(s, None),
        RequestView::Link(api_key) => match io.stored {
            Ok(_) => (
                s,
                ResponseView::Success("linked to cloud"@),
                seq![ServerEffectView::StopAgent, ServerEffectView::StartAgent(api_key)],
            ),
            Err(e) => (s, ResponseView::Error(e), Seq::empty()),
        },
        RequestView::Unlink => match io.stored {
            Ok(_) => (
                s,
                ResponseView::Success("unlinked from cloud"@),
                seq![ServerEffectView::StopAgent],
            ),
            Err(e) => (s, ResponseView::Error(e), Seq::empty()),
        },
    }
}

/// What preparing a certificate for a request may give.
pub open spec fn request_prepares(
    s: DaemonView,
    q: RequestView,
    io: RequestIoView,
    prepared: Prepared,
) -> bool {
    match q {
        RequestView::Run(c) => ssl_prepares(c.ssl, io.cert_file, io.key_file, prepared),
        RequestView::Update(u) => ssl_prepares(
            named_files(u.ssl),
            io.cert_file,
            io.key_file,
            prepared,
        ),
        _ => true,
    }
}

/// Whether the process that a request restarts, where there is one, can be counted one
/// restart more.
pub open spec fn request_fits(s: DaemonView, q: RequestView) -> bool {
    match q {
        RequestView::Restart(name) => restart_fits(s.processes, name),
        RequestView::Reload(name) => restart_fits(s.processes, name),
        RequestView::Update(u) => restart_fits(s.processes, u.name),
        _ => true,
    }
}

fn answer_of(result: Result<String, String>) -> (r: Response)
    ensures
        r@ == match text_result(result) {
            Ok(m) => ResponseView::Success(m),
            Err(e) => ResponseView::Error(e),
        },
{
    match result {
        Ok(m) => Response::Success(m),
        Err(e) => Response::Error(e),
    }
}

fn only_process_effects(more: Vec<Effect>) -> (r: Vec<ServerEffect>)
    ensures
        server_effects(r@) == process_effects(effects(more@)),
{
    let ghost done = effects(more@);
    let mut list = nothing();
    add_process_effects(&mut list, more);
    assert(server_effects(list@) =~= process_effects(done));
    list
}

impl DaemonState {
    /// Changes a setting.
    fn set_key(&mut self, key: &str, value: &str) -> (r: (Response, Vec<ServerEffect>))
        requires
            old(self).valid(),
        ensures
            final(self).valid(),
            (final(self)@, r.0@, server_effects(r.1@)) == set_answer(old(self)@, key@, value@),
    {
        let mut list = nothing();
        if !same(key, "cache-ttl") {
            return (
                Response::Error(
                    cat3("unknown config key '", key, "'. available: cache-ttl"),
                ),
                list,
            );
        }
        match parse_u64(value) {
            Some(secs) => {
                self.proxy_mgr.set_cache_ttl(secs);
                add_effect(&mut list, ServerEffect::NewCache { ttl_secs: secs });
                assert(server_effects(list@) =~= seq![ServerEffectView::NewCache(secs)]);
                (
                    Response::Success(
                        cat3("cache-ttl set to ", number_text(secs).as_str(), "s"),
                    ),
                    list,
                )
            },
            None => (
                Response::Error(cat3("invalid value '", value, "': expected seconds")),
                list,
            ),
        }
    }

    /// Starts or stops the metrics server.
    fn set_metrics(&mut self, port: Option<u16>) -> (r: (Response, Vec<ServerEffect>))
        requires
            old(self).valid(),
        ensures
            final(self).valid(),
            (final(self)@, r.0@, server_effects(r.1@)) == metrics_answer(old(self)@, port),
    {
        let mut list = nothing();
        let running = self.metrics_port.is_some();
        if running {
            add_effect(&mut list, ServerEffect::StopMetrics);
        }
        assert(server_effects(list@) =~= if running {
            seq![ServerEffectView::StopMetrics]
        } else {
            Seq::empty()
        });
        self.metrics_port = port;
        match port {
            Some(p) => {
                add_effect(&mut list, ServerEffect::StartMetrics { port: p });
                (
                    Response::Success(
                        cat2("metrics server listening on port ", number_text(p as u64).as_str()),
                    ),
                    list,
                )
            },
            None => if running {
                (Response::Success("metrics server stopped".to_string()), list)
            } else {
                (Response::Error("metrics server is not running".to_string()), list)
            },
        }
    }

    /// Deletes a process and its routes.
    fn del(&mut self, name: &str) -> (r: (Response, Vec<ServerEffect>))
        requires
            old(self).valid(),
        ensures
            final(self).valid(),
            (final(self)@, r.0@, server_effects(r.1@)) == del_answer(old(self)@, name@),
    {
        self.proxy_mgr.remove_routes(name);
        let (result, todo) = self.process_mgr.delete(name);
        let list = only_process_effects(todo);
        match result {
            Ok(m) => (Response::Success(m), list),
            Err(_) => (Response::Success(cat3("'", name, "' removed")), list),
        }
    }

    /// Kills all processes.
    fn kill(&mut self) -> (r: (Response, Vec<ServerEffect>))
        requires
            old(self).valid(),
        ensures
            final(self).valid(),
            final(self)@ == (DaemonView { processes: Seq::empty(), ..old(self)@ }),
            r.0@ == ResponseView::Success("all processes stopped"@),
            server_effects(r.1@) == process_effects(
                kill_list(old(self)@.processes, old(self)@.processes.len() as int).push(
                    EffectView::CountNone,
                ),
            ) + seq![
                ServerEffectView::SaveNothing,
                ServerEffectView::CloseStore,
                ServerEffectView::StopDaemon,
            ],
    {
        let (message, todo) = self.process_mgr.kill_all();
        let mut list = only_process_effects(todo);
        let ghost was = server_effects(list@);
        add_effect(&mut list, ServerEffect::SaveNothing);
        add_effect(&mut list, ServerEffect::CloseStore);
        add_effect(&mut list, ServerEffect::StopDaemon);
        assert(server_effects(list@) =~= was + seq![
            ServerEffectView::SaveNothing,
            ServerEffectView::CloseStore,
            ServerEffectView::StopDaemon,
        ]);
        (Response::Success(message), list)
    }

    /// Handles a request. `io` is what was done outside for it: starting processes,
    /// reading files and writing to the store.
    pub fn handle_request(&mut self, request: Request, io: RequestIo) -> (r: (
        Response,
        Vec<ServerEffect>,
    ))
        requires
            old(self).valid(),
            request_fits(old(self)@, request@),
        ensures
            final(self).valid(),
            exists|prepared: Prepared| #[trigger]
                request_prepares(old(self)@, request@, io@, prepared) && (
                    final(self)@,
                    r.0@,
                    server_effects(r.1@),
                ) == answered(old(self)@, request@, io@, prepared),
    {
        let ghost before = self@;
        let ghost given = io@;
        let ghost q = request@;
        let ghost unused: Prepared = Ok(None);
        assert(q !is Run && q !is Update ==> request_prepares(before, q, given, unused));
        match request {
            Request::Bin { config } => {
                let (result, todo) = self.process_mgr.spawn_process(config, io.dirs, io.start);
                (answer_of(result), only_process_effects(todo))
            },
            Request::Run { config } => {
                let ghost c = config@;
                let r = self.handle_run(config, io);
                proof {
                    let prepared = choose|prepared: Prepared| #[trigger]
                        ssl_prepares(c.ssl, given.cert_file, given.key_file, prepared) && (
                            self@,
                            r.0@,
                            server_effects(r.1@),
                        ) == run_answer(before, c, given, prepared);
                    assert(request_prepares(before, q, given, prepared));
                }
                r
            },
            Request::Ls => (Response::ProcessList(self.process_mgr.list(io.now)), nothing()),
            Request::Del { name } => self.del(name.as_str()),
            Request::Restart { name } => {
                let (result, todo) = self.process_mgr.restart(name.as_str(), io.start);
                (answer_of(result), only_process_effects(todo))
            },
            Request::Reload { name } => {
                let (result, todo) = self.process_mgr.reload(name.as_str(), io.start);
                (answer_of(result), only_process_effects(todo))
            },
            Request::Update { name, port, ssl, acme, env_file, args, image } => {
                let update = Update { name, port, ssl, acme, env_file, args, image };
                let ghost u = update@;
                let r = self.handle_update(update, io);
                proof {
                    let prepared = choose|prepared: Prepared| #[trigger]
                        ssl_prepares(
                            named_files(u.ssl),
                            given.cert_file,
                            given.key_file,
                            prepared,
                        ) && (self@, r.0@, server_effects(r.1@)) == update_answer(
                            before,
                            u,
                            given,
                            prepared,
                        );
                    assert(request_prepares(before, q, given, prepared));
                }
                r
            },
            Request::Logs { name, lines } => {
                match self.process_mgr.get_logs(name.as_str(), lines, &io.stdout, &io.stderr) {
                    Ok(logs) => (Response::Logs(logs), nothing()),
                    Err(e) => (Response::Error(e), nothing()),
                }
            },
            Request::SetKey { key, value } => self.set_key(key.as_str(), value.as_str()),
            Request::Export => (Response::ConfigList(self.process_mgr.get_configs()), nothing()),
            Request::Save => match io.stored {
                Ok(_) => {
                    let n = self.process_mgr.processes.len();
                    assert(before.processes.len() == n);
                    (
                        Response::Success(
                            cat3("saved ", number_text(n as u64).as_str(), " processes"),
                        ),
                        nothing(),
                    )
                },
                Err(e) => (Response::Error(e), nothing()),
            },
            Request::Kill => self.kill(),
            Request::MetricsEnable { port } => self.set_metrics(Some(port)),
            Request::MetricsDisable => self.set_metrics(None),
            Request::Link { api_key } => match io.stored {
                Ok(_) => {
                    let mut list = nothing();
                    let ghost k = api_key@;
                    add_effect(&mut list, ServerEffect::StopAgent);
                    add_effect(&mut list, ServerEffect::StartAgent { api_key });
                    assert(server_effects(list@) =~= seq![
                        ServerEffectView::StopAgent,
                        ServerEffectView::StartAgent(k),
                    ]);
                    (Response::Success("linked to cloud".to_string()), list)
                },
                Err(e) => (Response::Error(e), nothing()),
            },
            Request::Unlink => match io.stored {
                Ok(_) => {
                    let mut list = nothing();
                    add_effect(&mut list, ServerEffect::StopAgent);
                    assert(server_effects(list@) =~= seq![ServerEffectView::StopAgent]);
                    (Response::Success("unlinked from cloud".to_string()), list)
                },
                Err(e) => (Response::Error(e), nothing()),
            },
        }
    }
}

// ---------------------------------------------------------------------------
// Laws
// ---------------------------------------------------------------------------

/// A process whose certificate is refused, so that its route cannot be set up, does not
/// stay: the processes are as they were, and the answer is an error.
pub proof fn law_run_rollback(
    s: DaemonView,
    c: ProcessConfigView,
    io: RequestIoView,
    e: Seq<char>,
)
    requires
        crate::process::distinct_names(s.processes),
    ensures
        run_answer(s, c, io, Err(e)).0.processes == s.processes,
        run_answer(s, c, io, Err(e)).1 is Error,
{
    let change = spawn_change(s.processes, c, io.dirs, io.start);
    if change.1 is Ok {
        crate::process::law_spawn_then_delete(s.processes, c, io.start);
    }
}

/// A deleted process has no route and is not listed, whether it was there or not.
pub proof fn law_deleted(s: DaemonView, name: Seq<char>)
    requires
        crate::process::distinct_names(s.processes),
    ensures
        ({
            let t = del_answer(s, name).0;
            &&& !exists_process(t.processes, name)
            &&& forall|i: int|
                0 <= i < t.proxy.routes.len() ==> (#[trigger] t.proxy.routes[i]).name != name
            &&& del_answer(s, name).1 is Success
        }),
{
    let t = del_answer(s, name).0;
    crate::process::lemma_position(s.processes, name);
    crate::proxy::law_routes_of_process(
        s.proxy.routes,
        RouteView { name, port: 0, host: None, backend: BackendView::Proxy(0) },
    );
    crate::process::lemma_position(t.processes, name);
    if exists_process(s.processes, name) {
        let i = position(s.processes, name);
        let k = position(t.processes, name);
        if k < t.processes.len() {
            let x = if k < i {
                k
            } else {
                k + 1
            };
            assert(t.processes[k] == s.processes[x]);
            assert(s.processes[x].config.name != s.processes[i].config.name);
        }
    }
}

/// A request that only asks changes nothing, nor does saving.
pub proof fn law_queries_change_nothing(
    s: DaemonView,
    q: RequestView,
    io: RequestIoView,
    prepared: Prepared,
)
    requires
        q is Ls || q is Logs || q is Export || q is Save,
    ensures
        answered(s, q, io, prepared).0 == s,
        answered(s, q, io, prepared).2 == Seq::<ServerEffectView>::empty(),
{
}

/// A process behind the proxy that is given a certificate by an update is served with it: a
/// server listens on its port with TLS, one that is started or one that was there, and whoever
/// asks for its host is shown the new certificate.
pub proof fn law_update_serves_cert(
    s: DaemonView,
    u: UpdateView,
    io: RequestIoView,
    cert: TlsView,
)
    requires
        distinct_names(s.processes),
        s.proxy.in_order(),
        u.ssl is Some,
        update_applied(s, u, io.pulled, io.env, io.canonical, Ok(Some(cert))).1 is Ok,
    ensures
        ({
            let (t, applied) = update_applied(
                s,
                u,
                io.pulled,
                io.env,
                io.canonical,
                Ok(Some(cert)),
            );
            let c = t.processes[position(t.processes, u.name)].config;
            &&& c.ssl == named_files(u.ssl)
            &&& c.port_mapping matches Some(m) ==> {
                &&& t.proxy.tls_ports == with_port(s.proxy.tls_ports, m.public_port)
                &&& t.proxy.tls_ports.contains(m.public_port)
                &&& t.proxy.ports.contains(m.public_port)
                &&& s.proxy.tls_ports.contains(m.public_port) || (applied->Ok_0.contains(
                    ServerEffectView::StartServer(t.proxy.ports, t.proxy.tls_ports),
                ) && listens_tls(Some((t.proxy.ports, t.proxy.tls_ports)), m.public_port))
                &&& t.proxy.certs == s.proxy.certs.with(cert_name(m.host), cert)
                &&& m.host matches Some(h) ==> h != "default"@ ==> t.proxy.certs.chosen(Some(h))
                    == Some(cert)
            }
        }),
{
    let (t, applied) = update_applied(s, u, io.pulled, io.env, io.canonical, Ok(Some(cert)));
    lemma_position(s.processes, u.name);
    lemma_position_kept(s.processes, t.processes, u.name);
    let c = t.processes[position(t.processes, u.name)].config;
    if let Some(m) = c.port_mapping {
        law_route_added(s.proxy, route_for(c, m, io.canonical), Ok(Some(cert)));
        if !s.proxy.tls_ports.contains(m.public_port) {
            assert(applied->Ok_0[0] == ServerEffectView::StartServer(
                t.proxy.ports,
                t.proxy.tls_ports,
            ));
        }
        if let Some(h) = m.host {
            law_certificate_selection(s.proxy.certs, h, cert);
        }
    }
}

/// A process behind the proxy that is given someone to write to by an update has the
/// certificate of its host asked for, and its host on the list of those that are renewed.
pub proof fn law_update_asks_cert(
    s: DaemonView,
    u: UpdateView,
    io: RequestIoView,
    prepared: Prepared,
)
    requires
        distinct_names(s.processes),
        u.acme is Some,
        update_applied(s, u, io.pulled, io.env, io.canonical, prepared).1 is Ok,
    ensures
        ({
            let (t, applied) = update_applied(s, u, io.pulled, io.env, io.canonical, prepared);
            let c = t.processes[position(t.processes, u.name)].config;
            &&& c.acme == u.acme
            &&& c.port_mapping matches Some(m) ==> m.host matches Some(h) ==> {
                &&& crate::acme::listed(t.acme, h)
                &&& applied->Ok_0.contains(ServerEffectView::IssueCert(h, u.acme->Some_0))
            }
        }),
{
    let (t, applied) = update_applied(s, u, io.pulled, io.env, io.canonical, prepared);
    lemma_position(s.processes, u.name);
    lemma_position_kept(s.processes, t.processes, u.name);
    let c = t.processes[position(t.processes, u.name)].config;
    if let Some(m) = c.port_mapping {
        if let Some(h) = m.host {
            crate::acme::law_registered_once(s.acme, h, u.acme->Some_0, u.acme->Some_0);
            let todo = applied->Ok_0;
            assert(todo[todo.len() - 1] == ServerEffectView::IssueCert(h, u.acme->Some_0));
        }
    }
}

/// A new time to live holds for the whole proxy: every answer is kept that long from then on,
/// in one new cache, and nothing else changes.
pub proof fn law_cache_ttl(s: DaemonView, secs: u64)
    ensures
        ({
            let (t, answer, todo) = set_answer(s, "cache-ttl"@, decimal(secs as nat));
            &&& t == (DaemonView {
                proxy: ProxyView { cache_ttl_secs: secs, ..s.proxy },
                ..s
            })
            &&& answer is Success
            &&& todo == seq![ServerEffectView::NewCache(secs)]
        }),
{
    crate::number::law_parse_decimal(secs as nat, u64::MAX as nat);
}

// ---------------------------------------------------------------------------
// Processes that come back
// ---------------------------------------------------------------------------

/// The request that brings a process back: behind the proxy where it was there.
pub open spec fn saved_request(c: ProcessConfigView) -> RequestView {
    match c.mode {
        ProcessMode::Run => RequestView::Run(c),
        ProcessMode::Bin => RequestView::Bin(c),
    }
}

/// The request that brings a process back: behind the proxy where it was there.
pub fn restore_request(config: ProcessConfig) -> (r: Request)
    ensures
        r@ == saved_request(config@),
{
    match config.mode {
        ProcessMode::Run => Request::Run { config },
        ProcessMode::Bin => Request::Bin { config },
    }
}

/// A process that was behind the proxy comes back with its route, and a directory that was
/// served is served again, without a child.
pub proof fn law_comes_back(
    s: DaemonView,
    c: ProcessConfigView,
    io: RequestIoView,
    prepared: Prepared,
)
    requires
        s.proxy.in_order(),
        c.mode == ProcessMode::Run,
        answered(s, saved_request(c), io, prepared).1 is Success,
    ensures
        ({
            let t = answered(s, saved_request(c), io, prepared).0;
            let p = t.processes[s.processes.len() as int];
            &&& t.processes.len() == s.processes.len() + 1 && p.config == c
            &&& c.port_mapping matches Some(m) && t.proxy.routes.contains(
                route_for(c, m, io.canonical),
            ) && t.proxy.ports.contains(m.public_port)
            &&& c.spa ==> !p.child && p.resolved == c
        }),
{
    let m = c.port_mapping->Some_0;
    law_route_added(s.proxy, route_for(c, m, io.canonical), prepared);
}

// ---------------------------------------------------------------------------
// What a request brings about
// ---------------------------------------------------------------------------

/// Whether a process has exactly one route, and that one is under the port and the host of a
/// mapping and leads to where the process is: to the directory it serves, or to the port its
/// program listens on.
pub open spec fn routed_once(
    routes: Seq<RouteView>,
    c: ProcessConfigView,
    m: PortMappingView,
    canonical: Option<Seq<char>>,
) -> bool {
    exists|i: int|
        #![trigger routes[i]]
        0 <= i < routes.len() && {
            &&& routes[i].name == c.name
            &&& routes[i].port == m.public_port
            &&& routes[i].host == m.host
            &&& !c.spa ==> routes[i].backend == BackendView::Proxy(
                match m.app_port {
                    Some(p) => p,
                    None => m.public_port,
                },
            )
            &&& c.spa ==> routes[i].backend == BackendView::Spa(
                match canonical {
                    Some(d) => d,
                    None => c.path,
                },
            )
            &&& forall|j: int|
                0 <= j < routes.len() && (#[trigger] routes[j]).name == c.name ==> j == i
        }
}

/// After a run that succeeds, of a directory or of a program, the process has exactly one route,
/// and its port and host are those of the port mapping. A process that is restored runs anew.
pub proof fn law_run_routes(
    s: DaemonView,
    c: ProcessConfigView,
    io: RequestIoView,
    prepared: Prepared,
)
    requires
        run_answer(s, c, io, prepared).1 is Success,
    ensures
        c.port_mapping matches Some(m) && routed_once(
            run_answer(s, c, io, prepared).0.proxy.routes,
            c,
            m,
            io.canonical,
        ),
        c.mode == ProcessMode::Run ==> answered(s, saved_request(c), io, prepared) == run_answer(
            s,
            c,
            io,
            prepared,
        ),
        c.mode == ProcessMode::Bin ==> saved_request(c) == RequestView::Bin(c),
{
    let m = c.port_mapping->Some_0;
    let r = route_for(c, m, io.canonical);
    law_one_route(s.proxy, r, prepared, r);
    let routes = route_added(s.proxy, r, prepared).0.routes;
    assert(routes[routes.len() - 1] == r) by {
        let i = choose|i: int| 0 <= i < routes.len() && routes[i] == r;
        assert(routes[i].name == r.name);
    }
}

/// After an update that succeeds and names a port or certificate files, the process has exactly
/// one route, under the port and the host of the mapping that it has now; an update that names
/// neither leaves the routes and the mapping as they are.
pub proof fn law_update_routes(
    s: DaemonView,
    u: UpdateView,
    io: RequestIoView,
    prepared: Prepared,
)
    requires
        distinct_names(s.processes),
        update_answer(s, u, io, prepared).1 is Success,
    ensures
        ({
            let t = update_answer(s, u, io, prepared).0;
            let i = position(s.processes, u.name);
            let c = t.processes[i].config;
            &&& 0 <= i < s.processes.len() && t.processes.len() == s.processes.len()
            &&& s.processes[i].config.name == u.name && c.name == u.name
            &&& u.port is Some || u.ssl is Some ==> (c.port_mapping matches Some(m) ==> routed_once(
                t.proxy.routes,
                c,
                m,
                io.canonical,
            ))
            &&& u.port is None && u.ssl is None ==> t.proxy == s.proxy && c.port_mapping
                == s.processes[i].config.port_mapping
            &&& u.port matches Some(p) ==> (crate::config::mapping_of(p) matches Ok(m)
                && c.port_mapping == Some(m))
            &&& c.spa == s.processes[i].config.spa
        }),
{
    let (a, applied) = update_applied(s, u, io.pulled, io.env, io.canonical, prepared);
    let t = update_answer(s, u, io, prepared).0;
    lemma_position(s.processes, u.name);
    lemma_position_kept(s.processes, a.processes, u.name);
    let i = position(s.processes, u.name);
    assert(distinct_names(a.processes)) by {
        assert forall|x: int, y: int|
            #![trigger a.processes[x], a.processes[y]]
            0 <= x < y < a.processes.len() implies a.processes[x].config.name
            != a.processes[y].config.name by {
            assert(s.processes[x].config.name != s.processes[y].config.name);
        }
    }
    let c = a.processes[i].config;
    if let Some(m) = c.port_mapping {
        let r = route_for(c, m, io.canonical);
        law_one_route(s.proxy, r, prepared, r);
        if reroutes(u, c) {
            let routes = a.proxy.routes;
            assert(routes[routes.len() - 1] == r) by {
                let k = choose|k: int| 0 <= k < routes.len() && routes[k] == r;
                assert(routes[k].name == r.name);
            }
            assert(routed_once(routes, c, m, io.canonical));
        }
    }
}

/// Where a process has one route, a request is routed to it only on the port of its mapping, and
/// where the mapping names a host, only under that host; and where no other process has the same
/// port and host, every such request is.
pub proof fn law_routed_requests(
    routes: Seq<RouteView>,
    c: ProcessConfigView,
    m: PortMappingView,
    canonical: Option<Seq<char>>,
    port: u16,
    host: Option<Seq<char>>,
)
    requires
        routed_once(routes, c, m, canonical),
    ensures
        route_of(routes, port, host) matches Some(r) ==> r.name == c.name ==> port == m.public_port
            && (m.host is Some ==> host == m.host),
        port == m.public_port && host == m.host && (forall|i: int|
            0 <= i < routes.len() && (#[trigger] routes[i]).port == port && routes[i].host == m.host
                ==> routes[i].name == c.name) ==> (route_of(routes, port, host) matches Some(r)
            && r.name == c.name),
        port == m.public_port && m.host is None && (forall|i: int|
            0 <= i < routes.len() && (#[trigger] routes[i]).port == port && (routes[i].host is None
                || routes[i].host == host) ==> routes[i].name == c.name) ==> (route_of(
            routes,
            port,
            host,
        ) matches Some(r) && r.name == c.name),
{
    let i = choose|i: int|
        #![trigger routes[i]]
        0 <= i < routes.len() && {
            &&& routes[i].name == c.name
            &&& routes[i].port == m.public_port
            &&& routes[i].host == m.host
            &&& forall|j: int|
                0 <= j < routes.len() && (#[trigger] routes[j]).name == c.name ==> j == i
        };
    law_routing(routes, port, host);
    assert(routes[i].port == m.public_port);
    if let Some(r) = route_of(routes, port, host) {
        let k = choose|k: int| 0 <= k < routes.len() && routes[k] == r;
        assert(routes[k].name == r.name);
    }
}

/// A run needs a port mapping, and a certificate authority needs a host: without, nothing
/// happens but that it is said.
pub proof fn law_run_refused(
    s: DaemonView,
    c: ProcessConfigView,
    io: RequestIoView,
    prepared: Prepared,
)
    ensures
        c.port_mapping is None ==> run_answer(s, c, io, prepared) == (
            s,
            ResponseView::Error("run requires --p port mapping"@),
            Seq::<ServerEffectView>::empty(),
        ),
        c.port_mapping matches Some(m) ==> c.acme is Some && m.host is None ==> run_answer(
            s,
            c,
            io,
            prepared,
        ) == (
            s,
            ResponseView::Error(
                "ACME requires host-based port mapping (e.g. --p domain.com:443:8000)"@,
            ),
            Seq::<ServerEffectView>::empty(),
        ),
        run_refusal(c) is None <==> (c.port_mapping matches Some(m) && (c.acme is Some ==> m.host is Some)),
{
}

/// A program that is run is spawned and routed, or neither: the run succeeds where the name is
/// free, the program starts and its certificate can be read. A directory is served where it is
/// one, under the same conditions.
pub proof fn law_run_succeeds(
    s: DaemonView,
    c: ProcessConfigView,
    io: RequestIoView,
    prepared: Prepared,
)
    requires
        run_refusal(c) is None,
        distinct_names(s.processes),
    ensures
        ({
            let (t, answer, todo) = run_answer(s, c, io, prepared);
            let free = forall|i: int|
                0 <= i < s.processes.len() ==> (#[trigger] s.processes[i]).config.name != c.name;
            &&& !c.spa ==> (answer is Success <==> free && io.dirs is Ok && started(
                c,
                io.start,
            ) is Ok && prepared is Ok)
            &&& c.spa ==> (answer is Success <==> free && io.is_dir && prepared is Ok)
            &&& answer is Success || answer is Error
            &&& answer is Error ==> t.processes == s.processes && t.acme == s.acme
            &&& answer is Success ==> {
                &&& t.processes.len() == s.processes.len() + 1
                &&& t.processes.last().config == c
                &&& forall|i: int|
                    0 <= i < s.processes.len() ==> t.processes[i] == #[trigger] s.processes[i]
            }
            &&& t.metrics_port == s.metrics_port
        }),
{
    lemma_position(s.processes, c.name);
    let free = forall|i: int|
        0 <= i < s.processes.len() ==> (#[trigger] s.processes[i]).config.name != c.name;
    let m = c.port_mapping->Some_0;
    assert(exists_process(s.processes, c.name) <==> !free) by {
        if exists_process(s.processes, c.name) {
            assert(s.processes[position(s.processes, c.name)].config.name == c.name);
        }
    }
    if !c.spa && spawn_change(s.processes, c, io.dirs, io.start).1 is Ok {
        if prepared is Err {
            law_run_rollback(s, c, io, prepared->Err_0);
        }
    }
}

/// What a run that succeeds says: the process and its route.
pub proof fn law_run_text(
    s: DaemonView,
    c: ProcessConfigView,
    m: PortMappingView,
    io: RequestIoView,
    prepared: Prepared,
    pid: u32,
)
    requires
        c.port_mapping == Some(m),
        run_answer(s, c, io, prepared).1 is Success,
    ensures
        c.spa ==> run_answer(s, c, io, prepared).1 == ResponseView::Success(
            "SPA '"@ + c.name + "' serving on port "@ + decimal(m.public_port as nat),
        ),
        !c.spa && io.start.spawned == Ok::<_, Seq<char>>(Some(pid)) ==> run_answer(
            s,
            c,
            io,
            prepared,
        ).1 == ResponseView::Success(
            "process '"@ + c.name + "' started (pid: "@ + decimal(pid as nat) + ")"@ + " (proxy "@
                + ((match m.host {
                Some(h) => h,
                None => Seq::<char>::empty(),
            }) + ":"@ + decimal(m.public_port as nat) + " -> "@ + decimal(
                (match m.app_port {
                    Some(p) => p,
                    None => m.public_port,
                }) as nat,
            )) + ")"@,
        ),
{
}

/// A certificate is asked for, and its host kept for renewal, exactly where a run that succeeds
/// names whom to write to; a host that is kept stays with its first address.
pub proof fn law_run_asks_cert(
    s: DaemonView,
    c: ProcessConfigView,
    io: RequestIoView,
    prepared: Prepared,
)
    requires
        run_answer(s, c, io, prepared).1 is Success,
    ensures
        ({
            let (t, answer, todo) = run_answer(s, c, io, prepared);
            &&& c.acme is None ==> t.acme == s.acme && forall|h: Seq<char>, e: Seq<char>|
                !#[trigger] todo.contains(ServerEffectView::IssueCert(h, e))
            &&& c.acme matches Some(email) ==> (c.port_mapping matches Some(m) && (
            m.host matches Some(h) && {
                &&& todo.last() == ServerEffectView::IssueCert(h, email)
                &&& (forall|i: int| 0 <= i < s.acme.len() ==> (#[trigger] s.acme[i]).0 != h)
                    ==> t.acme == s.acme.push((h, email))
                &&& (exists|i: int| 0 <= i < s.acme.len() && (#[trigger] s.acme[i]).0 == h)
                    ==> t.acme == s.acme
            }))
        }),
{
    let (t, answer, todo) = run_answer(s, c, io, prepared);
    let m = c.port_mapping->Some_0;
    let start = route_added(s.proxy, route_for(c, m, io.canonical), prepared).1->Ok_0;
    if c.acme is None {
        let first = if c.spa {
            server_start(start) + process_effects(spa_change(s.processes, c, io.now).2)
        } else {
            process_effects(spawn_change(s.processes, c, io.dirs, io.start).2) + server_start(start)
        };
        assert(todo =~= first);
        assert forall|h: Seq<char>, e: Seq<char>|
            !#[trigger] todo.contains(ServerEffectView::IssueCert(h, e)) by {
            assert forall|i: int| 0 <= i < todo.len() implies todo[i]
                != ServerEffectView::IssueCert(h, e) by {
                assert(todo[i] == first[i]);
            }
        }
    }
}

/// A program that is started without a route leaves the proxy alone.
pub proof fn law_bin(s: DaemonView, c: ProcessConfigView, io: RequestIoView, prepared: Prepared)
    ensures
        ({
            let (t, answer, todo) = answered(s, RequestView::Bin(c), io, prepared);
            let (processes, result, more) = spawn_change(s.processes, c, io.dirs, io.start);
            &&& t.processes == processes
            &&& t.proxy == s.proxy && t.acme == s.acme && t.metrics_port == s.metrics_port
            &&& result matches Ok(m) ==> answer == ResponseView::Success(m)
            &&& result matches Err(e) ==> answer == ResponseView::Error(e)
            &&& todo.len() == more.len()
            &&& forall|i: int|
                0 <= i < more.len() ==> todo[i] == ServerEffectView::Process(#[trigger] more[i])
        }),
{
}

/// A restart and a reload are of the processes alone, and told as they came out.
pub proof fn law_restart_request(
    s: DaemonView,
    name: Seq<char>,
    io: RequestIoView,
    prepared: Prepared,
)
    ensures
        ({
            let (t, answer, _) = answered(s, RequestView::Restart(name), io, prepared);
            let (processes, result, _) = restart_change(s.processes, name, io.start);
            &&& t == (DaemonView { processes, ..s })
            &&& result matches Ok(m) ==> answer == ResponseView::Success(m)
            &&& result matches Err(e) ==> answer == ResponseView::Error(e)
        }),
        ({
            let (t, answer, _) = answered(s, RequestView::Reload(name), io, prepared);
            let (processes, result, _) = reload_change(s.processes, name, io.start);
            &&& t == (DaemonView { processes, ..s })
            &&& result matches Ok(m) ==> answer == ResponseView::Success(m)
            &&& result matches Err(e) ==> answer == ResponseView::Error(e)
        }),
{
}

/// A deletion takes the routes of the name with it, and no other; it always succeeds, and what
/// the certificates, the ports and the cache are stays.
pub proof fn law_deletion(s: DaemonView, name: Seq<char>, r: RouteView)
    ensures
        ({
            let (t, answer, todo) = del_answer(s, name);
            let (processes, result, more) = delete_change(s.processes, name);
            &&& t.processes == processes
            &&& t.proxy.routes.contains(r) <==> s.proxy.routes.contains(r) && r.name != name
            &&& t.proxy.ports == s.proxy.ports && t.proxy.tls_ports == s.proxy.tls_ports
            &&& t.proxy.certs == s.proxy.certs && t.proxy.challenges == s.proxy.challenges
            &&& t.proxy.cache_ttl_secs == s.proxy.cache_ttl_secs
            &&& t.acme == s.acme && t.metrics_port == s.metrics_port
            &&& result matches Ok(m) ==> answer == ResponseView::Success(m)
            &&& result is Err ==> answer == ResponseView::Success("'"@ + name + "' removed"@)
            &&& todo.len() == more.len()
        }),
{
    law_other_routes_stay(s.proxy.routes, name, r);
}

/// What is asked for is what is there: a listing tells of every process in order, an export gives
/// every configuration, a save says how many there are, and the logs of a process are shown where
/// there is one of that name.
pub proof fn law_questions_answered(
    s: DaemonView,
    io: RequestIoView,
    prepared: Prepared,
    name: Seq<char>,
    n: usize,
)
    ensures
        answered(s, RequestView::Ls, io, prepared).1 matches ResponseView::ProcessList(v)
            && v.len() == s.processes.len() && forall|i: int|
            0 <= i < v.len() ==> #[trigger] v[i] == crate::process::info_of(s.processes[i], io.now),
        answered(s, RequestView::Export, io, prepared).1 matches ResponseView::ConfigList(v)
            && v.len() == s.processes.len() && forall|i: int|
            0 <= i < v.len() ==> #[trigger] v[i] == s.processes[i].config,
        io.stored is Ok ==> answered(s, RequestView::Save, io, prepared).1
            == ResponseView::Success("saved "@ + decimal(s.processes.len()) + " processes"@),
        io.stored matches Err(e) ==> answered(s, RequestView::Save, io, prepared).1
            == ResponseView::Error(e),
        (exists|i: int|
            0 <= i < s.processes.len() && (#[trigger] s.processes[i]).config.name == name)
            ==> answered(s, RequestView::Logs(name, n), io, prepared).1 == ResponseView::Logs(
            logs_text(io.stdout, io.stderr, n as int),
        ),
        (forall|i: int|
            0 <= i < s.processes.len() ==> (#[trigger] s.processes[i]).config.name != name)
            ==> answered(s, RequestView::Logs(name, n), io, prepared).1 == ResponseView::Error(
            "process '"@ + name + "' not found"@,
        ),
{
    lemma_position(s.processes, name);
    if exists|i: int| 0 <= i < s.processes.len() && (#[trigger] s.processes[i]).config.name == name {
        let i = choose|i: int|
            0 <= i < s.processes.len() && (#[trigger] s.processes[i]).config.name == name;
        if position(s.processes, name) == s.processes.len() {
            assert(s.processes[i].config.name != name);
        }
    } else if exists_process(s.processes, name) {
        assert(s.processes[position(s.processes, name)].config.name == name);
    }
}

/// Only the time that the cache holds an answer can be set, and only to a number.
pub proof fn law_set_refused(s: DaemonView, key: Seq<char>, value: Seq<char>)
    ensures
        key != "cache-ttl"@ ==> set_answer(s, key, value) == (
            s,
            ResponseView::Error("unknown config key '"@ + key + "'. available: cache-ttl"@),
            Seq::<ServerEffectView>::empty(),
        ),
        key == "cache-ttl"@ && parsed(value, u64::MAX as nat) is None ==> set_answer(s, key, value)
            == (
            s,
            ResponseView::Error("invalid value '"@ + value + "': expected seconds"@),
            Seq::<ServerEffectView>::empty(),
        ),
{
}

/// Setting the cache's time says which, and a request for it does just that.
pub proof fn law_set_request(
    s: DaemonView,
    secs: u64,
    io: RequestIoView,
    prepared: Prepared,
)
    ensures
        ({
            let (t, answer, todo) = answered(
                s,
                RequestView::SetKey("cache-ttl"@, decimal(secs as nat)),
                io,
                prepared,
            );
            &&& t.proxy.cache_ttl_secs == secs && t.proxy.routes == s.proxy.routes
            &&& t.processes == s.processes
            &&& answer == ResponseView::Success(
                "cache-ttl set to "@ + decimal(secs as nat) + "s"@,
            )
            &&& todo == seq![ServerEffectView::NewCache(secs)]
        }),
{
    law_cache_ttl(s, secs);
    crate::number::law_parse_decimal(secs as nat, u64::MAX as nat);
}

/// The metrics server runs on the port that was asked for last, or not at all: one that ran
/// before is stopped first.
pub proof fn law_metrics_server(
    s: DaemonView,
    port: u16,
    io: RequestIoView,
    prepared: Prepared,
)
    ensures
        ({
            let (t, answer, todo) = answered(s, RequestView::MetricsEnable(port), io, prepared);
            &&& t == (DaemonView { metrics_port: Some(port), ..s })
            &&& answer == ResponseView::Success(
                "metrics server listening on port "@ + decimal(port as nat),
            )
            &&& s.metrics_port is Some ==> todo == seq![
                ServerEffectView::StopMetrics,
                ServerEffectView::StartMetrics(port),
            ]
            &&& s.metrics_port is None ==> todo == seq![ServerEffectView::StartMetrics(port)]
        }),
        ({
            let (t, answer, todo) = answered(s, RequestView::MetricsDisable, io, prepared);
            &&& t == (DaemonView { metrics_port: None, ..s })
            &&& s.metrics_port is Some ==> todo == seq![ServerEffectView::StopMetrics] && answer
                == ResponseView::Success("metrics server stopped"@)
            &&& s.metrics_port is None ==> todo.len() == 0 && answer == ResponseView::Error(
                "metrics server is not running"@,
            )
        }),
{
    let (t, answer, todo) = answered(s, RequestView::MetricsEnable(port), io, prepared);
    assert(s.metrics_port is Some ==> todo =~= seq![
        ServerEffectView::StopMetrics,
        ServerEffectView::StartMetrics(port),
    ]);
    assert(s.metrics_port is None ==> todo =~= seq![ServerEffectView::StartMetrics(port)]);
}

/// A link or an end of one is taken up once it is stored: an agent that ran is stopped, and for a
/// link one with the new key is started. What is not stored changes nothing.
pub proof fn law_link_request(
    s: DaemonView,
    api_key: Seq<char>,
    io: RequestIoView,
    prepared: Prepared,
)
    ensures
        io.stored is Ok ==> answered(s, RequestView::Link(api_key), io, prepared) == (
            s,
            ResponseView::Success("linked to cloud"@),
            seq![ServerEffectView::StopAgent, ServerEffectView::StartAgent(api_key)],
        ),
        io.stored is Ok ==> answered(s, RequestView::Unlink, io, prepared) == (
            s,
            ResponseView::Success("unlinked from cloud"@),
            seq![ServerEffectView::StopAgent],
        ),
        io.stored matches Err(e) ==> answered(s, RequestView::Link(api_key), io, prepared) == (
            s,
            ResponseView::Error(e),
            Seq::<ServerEffectView>::empty(),
        ) && answered(s, RequestView::Unlink, io, prepared) == (
            s,
            ResponseView::Error(e),
            Seq::<ServerEffectView>::empty(),
        ),
{
}

/// An end of the daemon leaves no process: each child is killed, nothing is saved to come back,
/// the store is closed, and the daemon stops last.
pub proof fn law_kill_request(
    s: DaemonView,
    io: RequestIoView,
    prepared: Prepared,
    i: int,
)
    requires
        0 <= i < s.processes.len(),
    ensures
        ({
            let (t, answer, todo) = answered(s, RequestView::Kill, io, prepared);
            let n = todo.len() as int;
            &&& t.processes.len() == 0
            &&& t.proxy == s.proxy && t.acme == s.acme && t.metrics_port == s.metrics_port
            &&& answer == ResponseView::Success("all processes stopped"@)
            &&& n >= 4 && todo[n - 1] == ServerEffectView::StopDaemon
            &&& todo[n - 2] == ServerEffectView::CloseStore
            &&& todo[n - 3] == ServerEffectView::SaveNothing
            &&& todo[n - 4] == ServerEffectView::Process(EffectView::CountNone)
            &&& s.processes[i].child ==> todo.contains(
                ServerEffectView::Process(EffectView::KillChild(s.processes[i].config.name)),
            )
        }),
{
    let (t, answer, todo) = answered(s, RequestView::Kill, io, prepared);
    let kills = kill_list(s.processes, s.processes.len() as int);
    law_all_killed(s.processes, s.processes.len() as int);
    if s.processes[i].child {
        let e = EffectView::KillChild(s.processes[i].config.name);
        assert(kills.contains(e));
        let k = choose|k: int| 0 <= k < kills.len() && kills[k] == e;
        assert(todo[k] == ServerEffectView::Process(e));
    }
}

/// What an update makes of a configuration: what it names is replaced, a new image brings its
/// program with it, and all else stays.
pub proof fn law_updated_config(
    c: ProcessConfigView,
    u: UpdateView,
    mapping: Option<PortMappingView>,
    env: Map<Seq<char>, Seq<char>>,
    image: Option<(Seq<char>, Seq<char>)>,
)
    ensures
        ({
            let d = updated_config(c, u, mapping, env, image);
            &&& mapping is Some ==> d.port_mapping == mapping
            &&& mapping is None ==> d.port_mapping == c.port_mapping
            &&& u.ssl is None ==> d.ssl == c.ssl
            &&& u.ssl matches Some(v) ==> v.len() == 2 ==> d.ssl == Some(
                SslConfigView { cert_path: v[0], key_path: v[1] },
            )
            &&& u.acme is Some ==> d.acme == u.acme
            &&& u.acme is None ==> d.acme == c.acme
            &&& u.env_file is Some ==> d.env_file == u.env_file && d.env_vars == env
            &&& u.env_file is None ==> d.env_file == c.env_file && d.env_vars == c.env_vars
            &&& u.args matches Some(a) ==> d.args == (match crate::config::shell_words(a) {
                Some(w) => w,
                None => Seq::empty(),
            })
            &&& u.args is None ==> d.args == c.args
            &&& image matches Some((reference, program)) ==> d.is_oci && d.path == program
                && d.oci_reference == Some(reference)
            &&& image is None ==> d.is_oci == c.is_oci && d.path == c.path && d.oci_reference
                == c.oci_reference
            &&& d.name == c.name && d.mode == c.mode && d.spa == c.spa && d.deny == c.deny
                && d.allow == c.allow && d.pid_file == c.pid_file
        }),
{
}

/// An update fails before it changes anything where its image is none or cannot be pulled, its
/// port mapping or its environment file cannot be read, or there is no such process, in that
/// order.
pub proof fn law_update_refused(
    s: DaemonView,
    u: UpdateView,
    pulled: Result<PulledView, Seq<char>>,
    env: Result<Seq<char>, Seq<char>>,
    canonical: Option<Seq<char>>,
    prepared: Prepared,
)
    ensures
        ({
            let (t, applied) = update_applied(s, u, pulled, env, canonical, prepared);
            let known = exists|i: int|
                0 <= i < s.processes.len() && (#[trigger] s.processes[i]).config.name == u.name;
            let image_fails = u.image matches Some(img) && (!is_image(img) || pulled is Err || (
            pulled matches Ok(p) && p.entry is Err));
            let port_fails = u.port matches Some(p) && crate::config::mapping_of(p) is Err;
            let env_fails = u.env_file is Some && env is Err;
            &&& image_fails || port_fails || env_fails || !known ==> t == s && applied is Err
            &&& u.image matches Some(img) ==> {
                &&& !is_image(img) ==> applied == Err::<Seq<ServerEffectView>, _>(
                    "'"@ + img + "' is not a valid OCI image reference"@,
                )
                &&& is_image(img) ==> (pulled matches Err(e) ==> applied == Err::<
                    Seq<ServerEffectView>,
                    _,
                >("OCI pull failed: "@ + e))
                &&& is_image(img) ==> (pulled matches Ok(p) ==> (p.entry matches Err(e)
                    ==> applied == Err::<Seq<ServerEffectView>, _>("OCI entrypoint error: "@ + e)))
            }
            &&& !image_fails ==> (u.port matches Some(p) ==> (crate::config::mapping_of(
                p,
            ) matches Err(e) ==> applied == Err::<Seq<ServerEffectView>, _>(e)))
            &&& !image_fails && !port_fails ==> (u.env_file matches Some(f) ==> (env matches Err(e)
                ==> applied == Err::<Seq<ServerEffectView>, _>(
                "failed to read env file '"@ + f + "': "@ + e,
            )))
            &&& !image_fails && !port_fails && !env_fails && !known ==> applied == Err::<
                Seq<ServerEffectView>,
                _,
            >("process '"@ + u.name + "' not found"@)
            &&& !image_fails && !port_fails && !env_fails && known && prepared is Ok ==> applied is Ok
        }),
{
    lemma_position(s.processes, u.name);
    let known = exists|i: int|
        0 <= i < s.processes.len() && (#[trigger] s.processes[i]).config.name == u.name;
    if known {
        let i = choose|i: int|
            0 <= i < s.processes.len() && (#[trigger] s.processes[i]).config.name == u.name;
        if position(s.processes, u.name) == s.processes.len() {
            assert(s.processes[i].config.name != u.name);
        }
    } else if exists_process(s.processes, u.name) {
        assert(s.processes[position(s.processes, u.name)].config.name == u.name);
    }
}

/// An update touches the configuration of its process alone. The process then runs anew where it
/// is a program; a directory is served on.
pub proof fn law_update_one(
    s: DaemonView,
    u: UpdateView,
    io: RequestIoView,
    prepared: Prepared,
    j: int,
)
    requires
        distinct_names(s.processes),
        0 <= j < s.processes.len(),
        update_applied(s, u, io.pulled, io.env, io.canonical, prepared).1 is Ok,
    ensures
        ({
            let (t, answer, todo) = update_answer(s, u, io, prepared);
            let i = position(s.processes, u.name);
            let old_config = s.processes[i].config;
            &&& t.processes.len() == s.processes.len()
            &&& s.processes[j].config.name != u.name ==> t.processes[j] == s.processes[j]
            &&& 0 <= i < s.processes.len() && t.processes[i].config.name == u.name
            &&& old_config.spa ==> {
                &&& answer == ResponseView::Success("'"@ + u.name + "' config updated"@)
                &&& t.processes[i].pid == s.processes[i].pid
                &&& t.processes[i].restart_count == s.processes[i].restart_count
            }
            &&& !old_config.spa && s.processes[i].restart_count < u32::MAX ==> (
            started(t.processes[i].config, io.start) is Ok <==> answer is Success) && (
            answer is Success ==> {
                &&& t.processes[i].pid == io.start.spawned->Ok_0
                &&& t.processes[i].status == crate::protocol::ProcessStatus::Running
                &&& t.processes[i].restart_count == s.processes[i].restart_count + 1
            })
        }),
{
    let (a, applied) = update_applied(s, u, io.pulled, io.env, io.canonical, prepared);
    lemma_position(s.processes, u.name);
    lemma_position_kept(s.processes, a.processes, u.name);
}

/// The files that an update names are the certificate's and the key's, in that order.
pub proof fn law_named_files(cert: Seq<char>, key: Seq<char>, more: Seq<Seq<char>>)
    ensures
        named_files(Some(seq![cert, key] + more)) == Some(
            SslConfigView { cert_path: cert, key_path: key },
        ),
        named_files(Some(seq![cert])) == Some(
            SslConfigView { cert_path: cert, key_path: Seq::empty() },
        ),
        named_files(None) is None,
{
}

/// A run that succeeds starts the listener that its route needs.
pub proof fn law_run_listens(
    s: DaemonView,
    c: ProcessConfigView,
    m: PortMappingView,
    io: RequestIoView,
    cert: Option<TlsView>,
)
    requires
        c.port_mapping == Some(m),
        run_answer(s, c, io, Ok(cert)).1 is Success,
    ensures
        ({
            let (t, answer, todo) = run_answer(s, c, io, Ok(cert));
            &&& t.proxy.ports.contains(m.public_port)
            &&& cert is Some ==> t.proxy.tls_ports.contains(m.public_port)
            &&& !s.proxy.ports.contains(m.public_port) || (cert is Some
                && !s.proxy.tls_ports.contains(m.public_port)) ==> todo.contains(
                ServerEffectView::StartServer(t.proxy.ports, t.proxy.tls_ports),
            )
            &&& todo.contains(ServerEffectView::Process(EffectView::CountProcess))
            &&& t.proxy.cache_ttl_secs == s.proxy.cache_ttl_secs && t.proxy.challenges
                == s.proxy.challenges
        }),
{
    let (t, answer, todo) = run_answer(s, c, io, Ok(cert));
    let r = route_for(c, m, io.canonical);
    law_route_listens(s.proxy, r, Ok(cert), m.public_port);
    let start = route_added(s.proxy, r, Ok(cert)).1->Ok_0;
    let first = server_start(start);
    if c.spa {
        let count = spa_change(s.processes, c, io.now).2;
        assert(todo == first + process_effects(count) + issue_effects(c));
        if first.len() > 0 {
            assert(todo[0] == first[0]);
        }
        assert(todo[first.len() as int] == ServerEffectView::Process(count[0]));
    } else {
        let effects = spawn_change(s.processes, c, io.dirs, io.start).2;
        let more = process_effects(effects);
        assert(todo == more + first + issue_effects(c));
        if first.len() > 0 {
            assert(todo[more.len() as int] == first[0]);
        }
        assert(effects.last() == EffectView::CountProcess);
        assert(todo[more.len() - 1] == ServerEffectView::Process(EffectView::CountProcess));
    }
}

/// A route that fails is told: a program that was started for it is deleted again, and a directory
/// or an update goes no further.
pub proof fn law_route_failures(
    s: DaemonView,
    c: ProcessConfigView,
    io: RequestIoView,
    e: Seq<char>,
)
    requires
        run_refusal(c) is None,
    ensures
        c.spa && io.is_dir ==> run_answer(s, c, io, Err(e)).1 == ResponseView::Error(e),
        c.spa && !io.is_dir ==> run_answer(s, c, io, Err(e)) == (
            s,
            ResponseView::Error("'"@ + c.path + "' is not a directory"@),
            Seq::<ServerEffectView>::empty(),
        ),
        !c.spa && spawn_change(s.processes, c, io.dirs, io.start).1 is Ok ==> run_answer(
            s,
            c,
            io,
            Err(e),
        ).1 == ResponseView::Error("proxy setup failed: "@ + e),
        !c.spa ==> (spawn_change(s.processes, c, io.dirs, io.start).1 matches Err(x) ==> run_answer(
            s,
            c,
            io,
            Err(e),
        ).1 == ResponseView::Error(x)),
{
}

/// What an update says: what stopped it, or how the process runs now.
pub proof fn law_update_text(
    s: DaemonView,
    u: UpdateView,
    io: RequestIoView,
    prepared: Prepared,
)
    ensures
        ({
            let (a, applied) = update_applied(s, u, io.pulled, io.env, io.canonical, prepared);
            let (t, answer, todo) = update_answer(s, u, io, prepared);
            let p = a.processes[position(a.processes, u.name)];
            let (_, result, _) = restart_change(a.processes, u.name, io.start);
            &&& applied matches Err(e) ==> answer == ResponseView::Error(e) && t == a && todo.len()
                == 0
            &&& applied is Ok && p.config.spa ==> answer == ResponseView::Success(
                "'"@ + u.name + "' config updated"@,
            ) && t == a
            &&& applied is Ok && !p.config.spa ==> (result matches Ok(m) ==> answer
                == ResponseView::Success("updated and restarted: "@ + m))
            &&& applied is Ok && !p.config.spa ==> (result matches Err(e) ==> answer
                == ResponseView::Error("config updated but restart failed: "@ + e))
            &&& t.proxy == a.proxy && t.acme == a.acme && t.metrics_port == s.metrics_port
        }),
{
}

/// An update asks for a certificate where it names a port or whom to write to and the process then
/// has both a host and an address; else it asks for none and keeps no new host. A route that
/// cannot be changed keeps the processes as they were.
pub proof fn law_update_certs(
    s: DaemonView,
    u: UpdateView,
    io: RequestIoView,
    prepared: Prepared,
)
    requires
        distinct_names(s.processes),
        exists_process(s.processes, u.name),
    ensures
        ({
            let (t, applied) = update_applied(s, u, io.pulled, io.env, io.canonical, prepared);
            let c = t.processes[position(s.processes, u.name)].config;
            &&& applied is Err ==> t.processes == s.processes && t.acme == s.acme
            &&& applied is Ok && u.port is None && u.acme is None ==> t.acme == s.acme
                && forall|h: Seq<char>, e: Seq<char>|
                !#[trigger] applied->Ok_0.contains(ServerEffectView::IssueCert(h, e))
            &&& applied is Ok && (u.port is Some || u.acme is Some) ==> (c.acme matches Some(e)
                ==> (c.port_mapping matches Some(m) ==> (m.host matches Some(h)
                ==> applied->Ok_0.last() == ServerEffectView::IssueCert(h, e))))
            &&& applied is Ok && (c.acme is None || c.port_mapping is None) ==> t.acme == s.acme
        }),
{
    let (t, applied) = update_applied(s, u, io.pulled, io.env, io.canonical, prepared);
    lemma_position(s.processes, u.name);
    if applied is Ok && u.port is None && u.acme is None {
        let todo = applied->Ok_0;
        assert forall|h: Seq<char>, e: Seq<char>|
            !#[trigger] todo.contains(ServerEffectView::IssueCert(h, e)) by {
            assert forall|i: int| 0 <= i < todo.len() implies todo[i]
                != ServerEffectView::IssueCert(h, e) by {}
        }
    }
}

/// The certificate of a run or an update comes of the files that it names, and where it names none
/// there is none.
pub proof fn law_request_certificate(
    s: DaemonView,
    q: RequestView,
    io: RequestIoView,
    prepared: Prepared,
)
    requires
        request_prepares(s, q, io, prepared),
    ensures
        q matches RequestView::Run(c) ==> {
            &&& c.ssl is None ==> prepared == Ok::<Option<TlsView>, Seq<char>>(None)
            &&& c.ssl is Some ==> prepared != Ok::<Option<TlsView>, Seq<char>>(None)
        },
        q matches RequestView::Update(u) ==> {
            &&& u.ssl is None ==> prepared == Ok::<Option<TlsView>, Seq<char>>(None)
            &&& u.ssl is Some ==> prepared != Ok::<Option<TlsView>, Seq<char>>(None)
        },
        q is Run || q is Update ==> (prepared matches Ok(Some(t)) ==> (io.cert_file matches Ok(c)
            && t.cert == crate::tls::pem_cert(c)) && (io.key_file matches Ok(k) && t.key == k)),
{
}

/// After an update that goes through, the process has the values that it names: its mapping, its
/// certificate files, whom to write to, the variables of its file, its arguments, and the program
/// of its image; what it does not name is as it was.
pub proof fn law_update_takes(
    s: DaemonView,
    u: UpdateView,
    io: RequestIoView,
    prepared: Prepared,
)
    requires
        distinct_names(s.processes),
        update_applied(s, u, io.pulled, io.env, io.canonical, prepared).1 is Ok,
    ensures
        ({
            let t = update_applied(s, u, io.pulled, io.env, io.canonical, prepared).0;
            let i = position(s.processes, u.name);
            let p = s.processes[i];
            let q = t.processes[i];
            let c = q.config;
            &&& 0 <= i < s.processes.len() && t.processes.len() == s.processes.len()
            &&& p.config.name == u.name && c.name == u.name
            &&& u.args matches Some(a) ==> c.args == arguments(Some(a))
            &&& u.args is None ==> c.args == p.config.args
            &&& u.env_file is Some ==> c.env_file == u.env_file && (io.env matches Ok(text)
                && c.env_vars == crate::config::env_of_lines(crate::text::lines(text)))
            &&& u.env_file is None ==> c.env_file == p.config.env_file && c.env_vars
                == p.config.env_vars
            &&& u.acme is Some ==> c.acme == u.acme
            &&& u.acme is None ==> c.acme == p.config.acme
            &&& u.ssl matches Some(v) ==> v.len() == 2 ==> c.ssl == Some(
                SslConfigView { cert_path: v[0], key_path: v[1] },
            )
            &&& u.ssl is None ==> c.ssl == p.config.ssl
            &&& u.port is None ==> c.port_mapping == p.config.port_mapping
            &&& u.image matches Some(img) ==> c.is_oci && c.oci_reference == Some(img) && (
            io.pulled matches Ok(pulled) && (pulled.entry matches Ok((program, _)) && c.path
                == program && q.resolved.path == program))
            &&& u.image is None ==> c.is_oci == p.config.is_oci && c.path == p.config.path
                && c.oci_reference == p.config.oci_reference && q.resolved == p.resolved
            &&& q.pid == p.pid && q.child == p.child && q.status == p.status
            &&& q.restart_count == p.restart_count && q.started_at == p.started_at
        }),
{
    lemma_position(s.processes, u.name);
}

/// Each request is handled as what it is.
pub proof fn law_requests_handled(
    s: DaemonView,
    c: ProcessConfigView,
    u: UpdateView,
    name: Seq<char>,
    io: RequestIoView,
    prepared: Prepared,
)
    ensures
        answered(s, RequestView::Run(c), io, prepared) == run_answer(s, c, io, prepared),
        answered(s, RequestView::Update(u), io, prepared) == update_answer(s, u, io, prepared),
        answered(s, RequestView::Del(name), io, prepared) == del_answer(s, name),
{
}

} // verus!
