use nyrun::cli::{plan_command, CliPlan, Command, MetricsAction};
use nyrun::protocol::{PortMapping, ProcessConfig, ProcessMode, Request, SslConfig};

fn run(path: &str, port: Option<&str>) -> Command {
    Command::Run {
        path: path.to_string(),
        name: None,
        port: port.map(String::from),
        args: None,
        env_file: None,
        spa: false,
        ssl: None,
        acme: None,
        deny: None,
        allow: None,
    }
}

fn plan(command: Command) -> CliPlan {
    plan_command(command, Err("unused".to_string()), "docker.io")
}

#[test]
fn a_process_without_a_port_runs_alone() {
    let want = ProcessConfig {
        name: "my-app".to_string(),
        path: "./my-app".to_string(),
        args: Vec::new(),
        env_vars: Vec::new(),
        env_file: None,
        mode: ProcessMode::Bin,
        port_mapping: None,
        spa: false,
        ssl: None,
        acme: None,
        deny: Vec::new(),
        allow: Vec::new(),
        is_oci: false,
        oci_reference: None,
        pid_file: None,
    };
    assert_eq!(plan(run("./my-app", None)), CliPlan::Send(Request::Bin { config: want }));
}

#[test]
fn a_process_with_all_options() {
    let command = Command::Run {
        path: "./my-app".to_string(),
        name: Some("api".to_string()),
        port: Some("example.com:443:8000".to_string()),
        args: Some("--verbose 'a b'".to_string()),
        env_file: Some(".env".to_string()),
        spa: false,
        ssl: Some(vec!["cert.pem".to_string(), "key.pem".to_string()]),
        acme: Some("user@example.com".to_string()),
        deny: Some("net,io".to_string()),
        allow: Some("/tmp/data".to_string()),
    };
    let got = plan_command(command, Ok("A=1".to_string()), "docker.io");
    let want = ProcessConfig {
        name: "api".to_string(),
        path: "./my-app".to_string(),
        args: vec!["--verbose".to_string(), "a b".to_string()],
        env_vars: vec![("A".to_string(), "1".to_string())],
        env_file: Some(".env".to_string()),
        mode: ProcessMode::Run,
        port_mapping: Some(PortMapping {
            host: Some("example.com".to_string()),
            public_port: 443,
            app_port: Some(8000),
        }),
        spa: false,
        ssl: Some(SslConfig { cert_path: "cert.pem".to_string(), key_path: "key.pem".to_string() }),
        acme: Some("user@example.com".to_string()),
        deny: vec!["net".to_string(), "io".to_string()],
        allow: vec!["/tmp/data".to_string()],
        is_oci: false,
        oci_reference: None,
        pid_file: None,
    };
    assert_eq!(got, CliPlan::Send(Request::Run { config: want }));
}

#[test]
fn an_image_is_named_and_normalized() {
    match plan_command(run("redis:7", None), Err(String::new()), "ghcr.io") {
        CliPlan::Send(Request::Bin { config }) => {
            assert!(config.is_oci);
            assert_eq!(config.name, "redis");
            assert_eq!(config.path, "redis:7");
            assert_eq!(config.oci_reference.as_deref(), Some("ghcr.io/redis:7"));
        }
        other => panic!("{other:?}"),
    }
    match plan(run("ghcr.io/org/app:latest", Some("8081:8081"))) {
        CliPlan::Send(Request::Run { config }) => {
            assert_eq!(config.name, "app");
            assert_eq!(config.oci_reference.as_deref(), Some("ghcr.io/org/app:latest"));
        }
        other => panic!("{other:?}"),
    }
}

#[test]
fn a_directory_without_a_port_goes_to_the_proxy() {
    let mut command = run("./dist", None);
    if let Command::Run { spa, .. } = &mut command {
        *spa = true;
    }
    match plan(command) {
        CliPlan::Send(Request::Run { config }) => assert!(config.spa && config.mode == ProcessMode::Run),
        other => panic!("{other:?}"),
    }
}

#[test]
fn options_that_are_refused() {
    assert_eq!(plan(run("./a", Some("80:x"))), CliPlan::Fail("invalid port: x".to_string()));
    let mut command = run("./a", None);
    if let Command::Run { env_file, .. } = &mut command {
        *env_file = Some("no.env".to_string());
    }
    assert_eq!(
        plan_command(command, Err("missing".to_string()), "docker.io"),
        CliPlan::Fail("failed to read env file 'no.env': missing".to_string())
    );
}

#[test]
fn the_other_commands() {
    let name = || "api".to_string();
    assert_eq!(plan(Command::Ls), CliPlan::Send(Request::Ls));
    assert_eq!(plan(Command::Del { name: name() }), CliPlan::Send(Request::Del { name: name() }));
    assert_eq!(plan(Command::Restart { name: name() }), CliPlan::Send(Request::Restart { name: name() }));
    assert_eq!(plan(Command::Reload { name: name() }), CliPlan::Send(Request::Reload { name: name() }));
    assert_eq!(
        plan(Command::Logs { name: name(), lines: 50 }),
        CliPlan::Send(Request::Logs { name: name(), lines: 50 })
    );
    assert_eq!(plan(Command::Save), CliPlan::Send(Request::Save));
    assert_eq!(plan(Command::Kill), CliPlan::Stop);
    assert_eq!(plan(Command::Startup), CliPlan::Install);
    assert_eq!(plan(Command::Unstartup), CliPlan::Uninstall);
    assert_eq!(plan(Command::Backup { o: name() }), CliPlan::Backup(name()));
    assert_eq!(plan(Command::Restore { file: name() }), CliPlan::Restore(name()));
    assert_eq!(plan(Command::Link { api_key: name() }), CliPlan::Send(Request::Link { api_key: name() }));
    assert_eq!(plan(Command::Unlink), CliPlan::Send(Request::Unlink));
    assert_eq!(plan(Command::Export { o: None }), CliPlan::Export(None));
    assert_eq!(plan(Command::Daemon), CliPlan::Daemon);
    assert_eq!(
        plan(Command::Start { file: "e.json".to_string(), only: Some(name()) }),
        CliPlan::StartFile { file: "e.json".to_string(), only: Some(name()) }
    );
    assert_eq!(
        plan(Command::Metrics { action: MetricsAction::Enable { port: 9100 } }),
        CliPlan::Send(Request::MetricsEnable { port: 9100 })
    );
    assert_eq!(
        plan(Command::Metrics { action: MetricsAction::Disable }),
        CliPlan::Send(Request::MetricsDisable)
    );
}

#[test]
fn settings_of_the_command_line() {
    assert_eq!(
        plan(Command::SetKey { key: "default-registry".to_string(), value: "ghcr.io".to_string() }),
        CliPlan::SaveRegistry("ghcr.io".to_string())
    );
    assert_eq!(
        plan(Command::SetKey { key: "cache-ttl".to_string(), value: "120".to_string() }),
        CliPlan::Send(Request::SetKey { key: "cache-ttl".to_string(), value: "120".to_string() })
    );
}
