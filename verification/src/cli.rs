//! The commands of the command line and what each one does.

use vstd::prelude::*;
use crate::config::{
    arguments, comma_list, derive_name, derived_name, env_of_lines, mapping_of, parse_allow,
    parse_args_string, parse_deny, parse_env_file, parse_port_mapping,
};
use crate::oci::{
    image_name, image_name_from_ref, is_image, is_oci_reference, normalize_reference, normalized,
};
use crate::protocol::{
    distinct_keys, env_of, opt_texts, PortMapping, PortMappingView, ProcessConfig,
    ProcessConfigView, ProcessMode, Request, RequestView, SslConfig, SslConfigView, UpdateView,
};
use crate::text::{lines, opt_text, same, texts};

verus! {

/// The command line.
#[derive(Debug, PartialEq, Eq)]
pub struct Cli {
    pub command: Command,
}

/// A command of the command line.
#[allow(inconsistent_fields)]
#[derive(Debug, PartialEq, Eq)]
pub enum Command {
    /// Run and manage a process, behind the proxy where a port is given.
    Run {
        path: String,
        name: Option<String>,
        port: Option<String>,
        args: Option<String>,
        env_file: Option<String>,
        spa: bool,
        ssl: Option<Vec<String>>,
        acme: Option<String>,
        deny: Option<String>,
        allow: Option<String>,
    },
    /// Start the processes of a file.
    Start { file: String, only: Option<String> },
    /// List all managed processes.
    Ls,
    /// Stop and remove a process.
    Del { name: String },
    /// Restart a process.
    Restart { name: String },
    /// Reload a process.
    Reload { name: String },
    /// Change the configuration of a process.
    Update {
        name: String,
        port: Option<String>,
        ssl: Option<Vec<String>>,
        acme: Option<String>,
        env_file: Option<String>,
        args: Option<String>,
        image: Option<String>,
    },
    /// Show the log of a process.
    Logs { name: String, lines: usize },
    /// Write the configurations of all processes to a file, or print them.
    Export { o: Option<String> },
    /// Change a setting.
    SetKey { key: String, value: String },
    /// Keep the list of processes for the next start of the daemon.
    Save,
    /// Install the system service.
    Startup,
    /// Remove the system service.
    Unstartup,
    /// Stop the daemon and all processes.
    Kill,
    /// Pack the state into an archive.
    Backup { o: String },
    /// Unpack the state from an archive.
    Restore { file: String },
    /// Connect to the cloud.
    Link { api_key: String },
    /// Disconnect from the cloud.
    Unlink,
    /// Start or stop the metrics server.
    Metrics { action: MetricsAction },
    /// Run as the daemon.
    Daemon,
}

/// What is done with the metrics server.
#[derive(Clone, Copy, Debug, PartialEq, Eq, Structural)]
pub enum MetricsAction {
    /// Start it on a port.
    Enable { port: u16 },
    /// Stop it.
    Disable,
}

/// What the command line has to do.
#[derive(Debug, PartialEq, Eq)]
pub enum CliPlan {
    /// Run as the daemon.
    Daemon,
    /// Send a request and print the answer.
    Send(Request),
    /// Send the request to stop, then remove what the daemon left behind.
    Stop,
    /// Report an error and exit with status one.
    Fail(String),
    /// Write the default registry to the settings.
    SaveRegistry(String),
    /// Start the processes of a file, or one of them.
    StartFile { file: String, only: Option<String> },
    /// Write the configurations of all processes.
    Export(Option<String>),
    /// Install the system service.
    Install,
    /// Remove the system service.
    Uninstall,
    /// Pack the state into an archive.
    Backup(String),
    /// Unpack the state from an archive.
    Restore(String),
}

/// The contents of a `CliPlan`.
#[verifier::ext_equal]
pub enum CliPlanView {
    Daemon,
    Send(RequestView),
    Stop,
    Fail(Seq<char>),
    SaveRegistry(Seq<char>),
    StartFile(Seq<char>, Option<Seq<char>>),
    Export(Option<Seq<char>>),
    Install,
    Uninstall,
    Backup(Seq<char>),
    Restore(Seq<char>),
}

impl View for CliPlan {
    type V = CliPlanView;

    open spec fn view(&self) -> CliPlanView {
        match *self {
            CliPlan::Daemon => CliPlanView::Daemon,
            CliPlan::Send(q) => CliPlanView::Send(q@),
            CliPlan::Stop => CliPlanView::Stop,
            CliPlan::Fail(e) => CliPlanView::Fail(e@),
            CliPlan::SaveRegistry(v) => CliPlanView::SaveRegistry(v@),
            CliPlan::StartFile { file, only } => CliPlanView::StartFile(file@, opt_text(only)),
            CliPlan::Export(o) => CliPlanView::Export(opt_text(o)),
            CliPlan::Install => CliPlanView::Install,
            CliPlan::Uninstall => CliPlanView::Uninstall,
            CliPlan::Backup(o) => CliPlanView::Backup(o@),
            CliPlan::Restore(f) => CliPlanView::Restore(f@),
        }
    }
}

// ---------------------------------------------------------------------------
// Running a process
// ---------------------------------------------------------------------------

/// The port mapping that an option asks for.
pub open spec fn chosen_mapping(port: Option<Seq<char>>) -> Result<
    Option<PortMappingView>,
    Seq<char>,
> {
    match port {
        Some(p) => match mapping_of(p) {
            Ok(m) => Ok(Some(m)),
            Err(e) => Err(e),
        },
        None => Ok(None),
    }
}

/// What an environment file was read as; an option that is missing sets nothing.
pub open spec fn chosen_env(
    env_file: Option<Seq<char>>,
    content: Result<Seq<char>, Seq<char>>,
) -> Result<Map<Seq<char>, Seq<char>>, Seq<char>> {
    match env_file {
        Some(path) => match content {
            Ok(text) => Ok(env_of_lines(lines(text))),
            Err(e) => Err("failed to read env file '"@ + path + "': "@ + e),
        },
        None => Ok(Map::empty()),
    }
}

/// The certificate files that an option names.
pub open spec fn chosen_ssl(ssl: Option<Seq<Seq<char>>>) -> Option<SslConfigView> {
    match ssl {
        Some(s) => Some(SslConfigView { cert_path: s[0], key_path: s[1] }),
        None => None,
    }
}

/// The options of the command that runs a process.
#[verifier::ext_equal]
pub struct RunOptions {
    pub path: Seq<char>,
    pub name: Option<Seq<char>>,
    pub port: Option<Seq<char>>,
    pub args: Option<Seq<char>>,
    pub env_file: Option<Seq<char>>,
    pub spa: bool,
    pub ssl: Option<Seq<Seq<char>>>,
    pub acme: Option<Seq<char>>,
    pub deny: Option<Seq<char>>,
    pub allow: Option<Seq<char>>,
}

impl RunOptions {
    /// The process that the options describe.
    pub open spec fn config(
        self,
        mapping: Option<PortMappingView>,
        env_vars: Map<Seq<char>, Seq<char>>,
        registry: Seq<char>,
    ) -> ProcessConfigView {
        let oci = is_image(self.path);
        ProcessConfigView {
            name: match self.name {
                Some(n) => n,
                None => if oci {
                    image_name(self.path)
                } else {
                    derived_name(self.path, None)
                },
            },
            path: self.path,
            args: arguments(self.args),
            env_vars,
            env_file: self.env_file,
            mode: if mapping is Some || self.spa {
                ProcessMode::Run
            } else {
                ProcessMode::Bin
            },
            port_mapping: mapping,
            spa: self.spa,
            ssl: chosen_ssl(self.ssl),
            acme: self.acme,
            deny: comma_list(self.deny),
            allow: comma_list(self.allow),
            is_oci: oci,
            oci_reference: if oci {
                Some(normalized(self.path, registry))
            } else {
                None
            },
            pid_file: None,
        }
    }

    /// What the command does: a process without a port runs on its own, one with a
    /// port or a directory to serve goes behind the proxy.
    pub open spec fn plan(
        self,
        content: Result<Seq<char>, Seq<char>>,
        registry: Seq<char>,
    ) -> CliPlanView {
        match (chosen_mapping(self.port), chosen_env(self.env_file, content)) {
            (Err(e), _) => CliPlanView::Fail(e),
            (_, Err(e)) => CliPlanView::Fail(e),
            (Ok(m), Ok(env)) => {
                let config = self.config(m, env, registry);
                if config.mode == ProcessMode::Bin {
                    CliPlanView::Send(RequestView::Bin(config))
                } else {
                    CliPlanView::Send(RequestView::Run(config))
                }
            },
        }
    }
}

/// The contents of what reading a file gave.
pub open spec fn read_view(content: Result<String, String>) -> Result<Seq<char>, Seq<char>> {
    match content {
        Ok(t) => Ok(t@),
        Err(e) => Err(e@),
    }
}

/// The contents of what an option names.
pub open spec fn env_view(r: Result<Vec<(String, String)>, String>) -> Result<
    Map<Seq<char>, Seq<char>>,
    Seq<char>,
> {
    match r {
        Ok(v) => Ok(env_of(v@)),
        Err(e) => Err(e@),
    }
}

/// The variables of an environment file that an option names. `content` is what
/// reading the file gave, and counts only where the option is there.
pub fn read_env_option(env_file: &Option<String>, content: Result<String, String>) -> (r: Result<
    Vec<(String, String)>,
    String,
>)
    ensures
        env_view(r) == chosen_env(opt_text(*env_file), read_view(content)),
        r matches Ok(v) ==> distinct_keys(v@),
{
    match env_file {
        Some(path) => parse_env_file(path.as_str(), content),
        None => Ok(Vec::new()),
    }
}

/// The port mapping that an option asks for.
pub fn read_port_option(port: &Option<String>) -> (r: Result<Option<PortMapping>, String>)
    ensures
        match r {
            Ok(m) => chosen_mapping(opt_text(*port)) == Ok::<_, Seq<char>>(
                crate::protocol::opt_mapping(m),
            ),
            Err(e) => chosen_mapping(opt_text(*port)) == Err::<Option<PortMappingView>, _>(e@),
        },
{
    match port {
        Some(p) => match parse_port_mapping(p.as_str()) {
            Ok(m) => Ok(Some(m)),
            Err(e) => Err(e),
        },
        None => Ok(None),
    }
}

/// The contents of the options of a run.
pub open spec fn run_options(command: Command) -> RunOptions
    recommends
        command is Run,
{
    match command {
        Command::Run { path, name, port, args, env_file, spa, ssl, acme, deny, allow } => {
            RunOptions {
                path: path@,
                name: opt_text(name),
                port: opt_text(port),
                args: opt_text(args),
                env_file: opt_text(env_file),
                spa,
                ssl: opt_texts(ssl),
                acme: opt_text(acme),
                deny: opt_text(deny),
                allow: opt_text(allow),
            }
        },
        _ => arbitrary(),
    }
}

/// What a command does.
pub open spec fn planned(
    command: Command,
    content: Result<Seq<char>, Seq<char>>,
    registry: Seq<char>,
) -> CliPlanView {
    match command {
        Command::Run { .. } => run_options(command).plan(content, registry),
        Command::Start { file, only } => CliPlanView::StartFile(file@, opt_text(only)),
        Command::Ls => CliPlanView::Send(RequestView::Ls),
        Command::Del { name } => CliPlanView::Send(RequestView::Del(name@)),
        Command::Restart { name } => CliPlanView::Send(RequestView::Restart(name@)),
        Command::Reload { name } => CliPlanView::Send(RequestView::Reload(name@)),
        Command::Update { name, port, ssl, acme, env_file, args, image } => CliPlanView::Send(
            RequestView::Update(
                UpdateView {
                    name: name@,
                    port: opt_text(port),
                    ssl: opt_texts(ssl),
                    acme: opt_text(acme),
                    env_file: opt_text(env_file),
                    args: opt_text(args),
                    image: opt_text(image),
                },
            ),
        ),
        Command::Logs { name, lines } => CliPlanView::Send(RequestView::Logs(name@, lines)),
        Command::Export { o } => CliPlanView::Export(opt_text(o)),
        Command::SetKey { key, value } => if key@ == "default-registry"@ {
            CliPlanView::SaveRegistry(value@)
        } else {
            CliPlanView::Send(RequestView::SetKey(key@, value@))
        },
        Command::Save => CliPlanView::Send(RequestView::Save),
        Command::Startup => CliPlanView::Install,
        Command::Unstartup => CliPlanView::Uninstall,
        Command::Kill => CliPlanView::Stop,
        Command::Backup { o } => CliPlanView::Backup(o@),
        Command::Restore { file } => CliPlanView::Restore(file@),
        Command::Link { api_key } => CliPlanView::Send(RequestView::Link(api_key@)),
        Command::Unlink => CliPlanView::Send(RequestView::Unlink),
        Command::Metrics { action } => match action {
            MetricsAction::Enable { port } => CliPlanView::Send(RequestView::MetricsEnable(port)),
            MetricsAction::Disable => CliPlanView::Send(RequestView::MetricsDisable),
        },
        Command::Daemon => CliPlanView::Daemon,
    }
}

/// What a command does. `content` is what reading the environment file that it names
/// gave, and `registry` the default registry.
pub fn plan_command(command: Command, content: Result<String, String>, registry: &str) -> (r:
    CliPlan)
    requires
        command matches Command::Run { ssl: Some(s), .. } ==> s@.len() >= 2,
    ensures
        r@ == planned(command, read_view(content), registry@),
{
    let ghost given = command;
    match command {
        Command::Run { path, name, port, args, env_file, spa, ssl, acme, deny, allow } => {
            let ghost opts = run_options(given);
            let port_mapping = match read_port_option(&port) {
                Ok(m) => m,
                Err(e) => {
                    return CliPlan::Fail(e);
                },
            };
            let env_vars = match read_env_option(&env_file, content) {
                Ok(v) => v,
                Err(e) => {
                    return CliPlan::Fail(e);
                },
            };
            let ssl_config = match &ssl {
                Some(s) => {
                    assert(texts(s@)[0] == s@[0]@ && texts(s@)[1] == s@[1]@);
                    Some(SslConfig { cert_path: s[0].clone(), key_path: s[1].clone() })
                },
                None => None,
            };
            let is_oci = is_oci_reference(path.as_str());
            let given_name = match name {
                Some(n) => n,
                None => if is_oci {
                    image_name_from_ref(path.as_str())
                } else {
                    derive_name(path.as_str(), &None)
                },
            };
            let oci_reference = if is_oci {
                Some(normalize_reference(path.as_str(), registry))
            } else {
                None
            };
            let mode = if port_mapping.is_some() || spa {
                ProcessMode::Run
            } else {
                ProcessMode::Bin
            };
            let config = ProcessConfig {
                name: given_name,
                path,
                args: parse_args_string(&args),
                env_vars,
                env_file,
                mode,
                port_mapping,
                spa,
                ssl: ssl_config,
                acme,
                deny: parse_deny(&deny),
                allow: parse_allow(&allow),
                is_oci,
                oci_reference,
                pid_file: None,
            };
            proof {
                let m = crate::protocol::opt_mapping(config.port_mapping);
                assert(config@ == opts.config(m, config@.env_vars, registry@));
            }
            match mode {
                ProcessMode::Bin => CliPlan::Send(Request::Bin { config }),
                ProcessMode::Run => CliPlan::Send(Request::Run { config }),
            }
        },
        Command::Start { file, only } => CliPlan::StartFile { file, only },
        Command::Ls => CliPlan::Send(Request::Ls),
        Command::Del { name } => CliPlan::Send(Request::Del { name }),
        Command::Restart { name } => CliPlan::Send(Request::Restart { name }),
        Command::Reload { name } => CliPlan::Send(Request::Reload { name }),
        Command::Update { name, port, ssl, acme, env_file, args, image } => CliPlan::Send(
            Request::Update { name, port, ssl, acme, env_file, args, image },
        ),
        Command::Logs { name, lines } => CliPlan::Send(Request::Logs { name, lines }),
        Command::Export { o } => CliPlan::Export(o),
        Command::SetKey { key, value } => if same(key.as_str(), "default-registry") {
            CliPlan::SaveRegistry(value)
        } else {
            CliPlan::Send(Request::SetKey { key, value })
        },
        Command::Save => CliPlan::Send(Request::Save),
        Command::Startup => CliPlan::Install,
        Command::Unstartup => CliPlan::Uninstall,
        Command::Kill => CliPlan::Stop,
        Command::Backup { o } => CliPlan::Backup(o),
        Command::Restore { file } => CliPlan::Restore(file),
        Command::Link { api_key } => CliPlan::Send(Request::Link { api_key }),
        Command::Unlink => CliPlan::Send(Request::Unlink),
        Command::Metrics { action } => match action {
            MetricsAction::Enable { port } => CliPlan::Send(Request::MetricsEnable { port }),
            MetricsAction::Disable => CliPlan::Send(Request::MetricsDisable),
        },
        Command::Daemon => CliPlan::Daemon,
    }
}

// ---------------------------------------------------------------------------
// Laws of the command line
// ---------------------------------------------------------------------------

/// A port option is a port mapping, and an environment option the variables of the file; what
/// cannot be read fails with the reason, and what is not given is nothing.
pub proof fn law_options_read(
    port: Seq<char>,
    path: Seq<char>,
    text: Seq<char>,
    e: Seq<char>,
    content: Result<Seq<char>, Seq<char>>,
)
    ensures
        mapping_of(port) matches Ok(m) ==> chosen_mapping(Some(port)) == Ok::<_, Seq<char>>(Some(m)),
        mapping_of(port) matches Err(x) ==> chosen_mapping(Some(port)) == Err::<
            Option<PortMappingView>,
            _,
        >(x),
        chosen_mapping(None) == Ok::<Option<PortMappingView>, Seq<char>>(None),
        chosen_env(Some(path), Ok(text)) == Ok::<_, Seq<char>>(env_of_lines(lines(text))),
        chosen_env(Some(path), Err(e)) == Err::<Map<Seq<char>, Seq<char>>, _>(
            "failed to read env file '"@ + path + "': "@ + e,
        ),
        chosen_env(None, content) == Ok::<_, Seq<char>>(Map::<Seq<char>, Seq<char>>::empty()),
{
}

/// What the options of a run make of a process: it is behind the proxy where a port is given or a
/// directory is served, and is sent as what it is; its lists, its arguments, its certificate and
/// its variables are those that were given; an image gets its full reference.
pub proof fn law_run_plan(
    o: RunOptions,
    content: Result<Seq<char>, Seq<char>>,
    registry: Seq<char>,
    mapping: Option<PortMappingView>,
    env: Map<Seq<char>, Seq<char>>,
)
    requires
        chosen_mapping(o.port) == Ok::<_, Seq<char>>(mapping),
        chosen_env(o.env_file, content) == Ok::<_, Seq<char>>(env),
    ensures
        ({
            let proxied = mapping is Some || o.spa;
            let plan = o.plan(content, registry);
            &&& plan == CliPlanView::Send(
                if proxied {
                    RequestView::Run(o.config(mapping, env, registry))
                } else {
                    RequestView::Bin(o.config(mapping, env, registry))
                },
            )
        }),
        ({
            let c = o.config(mapping, env, registry);
            &&& c.mode == ProcessMode::Run <==> mapping is Some || o.spa
            &&& c.path == o.path
            &&& c.env_vars == env && c.env_file == o.env_file
            &&& c.port_mapping == mapping && c.spa == o.spa && c.acme == o.acme
            &&& c.pid_file is None
            &&& c.is_oci <==> is_image(o.path)
            &&& is_image(o.path) ==> c.oci_reference == Some(normalized(o.path, registry))
            &&& !is_image(o.path) ==> c.oci_reference is None
            &&& o.name matches Some(n) ==> c.name == n
            &&& o.name is None && is_image(o.path) ==> c.name == image_name(o.path)
            &&& o.name is None && !is_image(o.path) ==> c.name == derived_name(o.path, None)
            &&& o.args is None ==> c.args.len() == 0
            &&& o.args matches Some(a) ==> c.args == arguments(Some(a))
            &&& o.ssl matches Some(f) ==> c.ssl == Some(
                SslConfigView { cert_path: f[0], key_path: f[1] },
            )
            &&& o.ssl is None ==> c.ssl is None
            &&& c.deny == comma_list(o.deny) && c.allow == comma_list(o.allow)
        }),
{
}

/// A run whose port or environment file cannot be read is not sent: the first reason is told.
pub proof fn law_run_not_sent(
    o: RunOptions,
    content: Result<Seq<char>, Seq<char>>,
    registry: Seq<char>,
)
    ensures
        chosen_mapping(o.port) matches Err(e) ==> o.plan(content, registry) == CliPlanView::Fail(e),
        chosen_mapping(o.port) is Ok ==> (chosen_env(o.env_file, content) matches Err(e) ==> o.plan(
            content,
            registry,
        ) == CliPlanView::Fail(e)),
        o.plan(content, registry) is Fail <==> chosen_mapping(o.port) is Err || chosen_env(
            o.env_file,
            content,
        ) is Err,
{
}

/// Each command on a process is the request of the same kind with the name that was given.
pub proof fn law_process_commands(
    command: Command,
    content: Result<Seq<char>, Seq<char>>,
    registry: Seq<char>,
)
    ensures
        command matches Command::Del { name } ==> planned(command, content, registry)
            == CliPlanView::Send(RequestView::Del(name@)),
        command matches Command::Restart { name } ==> planned(command, content, registry)
            == CliPlanView::Send(RequestView::Restart(name@)),
        command matches Command::Reload { name } ==> planned(command, content, registry)
            == CliPlanView::Send(RequestView::Reload(name@)),
        command matches Command::Logs { name, lines } ==> planned(command, content, registry)
            == CliPlanView::Send(RequestView::Logs(name@, lines)),
        command matches Command::Update { name, port, ssl, acme, env_file, args, image } ==> (
        planned(command, content, registry) matches CliPlanView::Send(RequestView::Update(u)) && {
            &&& u.name == name@ && u.port == opt_text(port) && u.ssl == opt_texts(ssl)
            &&& u.acme == opt_text(acme) && u.env_file == opt_text(env_file)
            &&& u.args == opt_text(args) && u.image == opt_text(image)
        }),
        command is Ls ==> planned(command, content, registry) == CliPlanView::Send(RequestView::Ls),
        command is Save ==> planned(command, content, registry) == CliPlanView::Send(
            RequestView::Save,
        ),
{
}

/// Each other command is what it says: a setting goes to the daemon but for the default registry,
/// which is kept beside it.
pub proof fn law_other_commands(
    command: Command,
    content: Result<Seq<char>, Seq<char>>,
    registry: Seq<char>,
)
    ensures
        ({
            let plan = planned(command, content, registry);
            &&& command matches Command::SetKey { key, value } ==> {
                &&& key@ == "default-registry"@ ==> plan == CliPlanView::SaveRegistry(value@)
                &&& key@ != "default-registry"@ ==> plan == CliPlanView::Send(
                    RequestView::SetKey(key@, value@),
                )
            }
            &&& command matches Command::Start { file, only } ==> plan == CliPlanView::StartFile(
                file@,
                opt_text(only),
            )
            &&& command matches Command::Export { o } ==> plan == CliPlanView::Export(opt_text(o))
            &&& command matches Command::Backup { o } ==> plan == CliPlanView::Backup(o@)
            &&& command matches Command::Restore { file } ==> plan == CliPlanView::Restore(file@)
            &&& command matches Command::Link { api_key } ==> plan == CliPlanView::Send(
                RequestView::Link(api_key@),
            )
            &&& command is Unlink ==> plan == CliPlanView::Send(RequestView::Unlink)
            &&& command is Startup <==> plan is Install
            &&& command is Unstartup <==> plan is Uninstall
            &&& command is Kill <==> plan is Stop
            &&& command is Daemon <==> plan is Daemon
            &&& command matches Command::Metrics { action } ==> {
                &&& action matches MetricsAction::Enable { port } ==> plan == CliPlanView::Send(
                    RequestView::MetricsEnable(port),
                )
                &&& action is Disable ==> plan == CliPlanView::Send(RequestView::MetricsDisable)
            }
        }),
{
}

} // verus!
