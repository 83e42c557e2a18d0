use nyrun::process::{
    capture_line, image_to_pull, launch_plan, logs_dir, needs_rotation, rotate_log_file, stamp_line, Effect, FileOp,
    ProcessManager, Pulled, Restrictions, SpawnOutcome, StartOutcome,
};
use nyrun::protocol::{PortMapping, ProcessConfig, ProcessMode, ProcessStatus, SslConfig, Timestamp};
use std::collections::HashMap;

fn owned(v: &[&str]) -> Vec<String> {
    v.iter().map(|s| s.to_string()).collect()
}

fn config(name: &str) -> ProcessConfig {
    ProcessConfig {
        name: name.to_string(),
        path: format!("/srv/{name}/bin"),
        args: owned(&["--x"]),
        env_vars: Vec::new(),
        env_file: None,
        mode: ProcessMode::Bin,
        port_mapping: None,
        spa: false,
        ssl: None,
        acme: None,
        deny: Vec::new(),
        allow: Vec::new(),
        is_oci: false,
        oci_reference: None,
        pid_file: None,
    }
}

fn at(secs: i64) -> Timestamp {
    Timestamp { secs, nanos: 0 }
}

fn outcome(spawned: Result<Option<u32>, String>) -> StartOutcome {
    StartOutcome { pulled: Err("no pull".to_string()), spawned, at: at(100) }
}

fn image(dir: &str, program: &str, extra: &[&str]) -> StartOutcome {
    StartOutcome {
        pulled: Ok(Pulled { dir: dir.to_string(), entry: Ok((program.to_string(), owned(extra))) }),
        spawned: Ok(Some(9)),
        at: at(100),
    }
}

fn with(names: &[&str]) -> ProcessManager {
    let mut m = ProcessManager::new();
    for (i, n) in names.iter().enumerate() {
        let (r, _) = m.spawn_process(config(n), Ok(()), outcome(Ok(Some(10 + i as u32))));
        assert!(r.is_ok());
    }
    m
}

#[test]
fn a_process_is_started() {
    let mut m = ProcessManager::new();
    let mut c = config("api");
    c.pid_file = Some("/run/api.pid".to_string());
    let (r, effects) = m.spawn_process(c, Ok(()), outcome(Ok(Some(42))));
    assert_eq!(r, Ok("process 'api' started (pid: 42)".to_string()));
    assert_eq!(
        effects,
        vec![
            Effect::WriteFile { path: "/run/api.pid".to_string(), text: "42".to_string() },
            Effect::CountProcess,
        ]
    );
    assert_eq!(m.processes[0].status, ProcessStatus::Running);
    assert!(m.processes[0].child);
}

#[test]
fn a_process_that_is_not_started() {
    let mut m = with(&["api"]);
    let (r, e) = m.spawn_process(config("api"), Ok(()), outcome(Ok(Some(1))));
    assert_eq!((r, e), (Err("process 'api' already exists".to_string()), Vec::new()));
    let (r, e) = m.spawn_process(config("b"), Err("denied".to_string()), outcome(Ok(Some(1))));
    assert_eq!((r, e), (Err("failed to create dirs: denied".to_string()), Vec::new()));
    let (r, e) = m.spawn_process(config("b"), Ok(()), outcome(Err("gone".to_string())));
    assert_eq!((r, e), (Err("failed to spawn '/srv/b/bin': gone".to_string()), Vec::new()));
    assert_eq!(m.check_new("b"), Ok(()));
    assert_eq!(m.check_new("api"), Err("process 'api' already exists".to_string()));
    assert_eq!(m.processes.len(), 1);
}

#[test]
fn a_process_from_an_image_is_isolated() {
    let mut c = config("web");
    c.is_oci = true;
    c.path = "nginx:latest".to_string();
    c.oci_reference = Some("docker.io/library/nginx:latest".to_string());
    assert_eq!(image_to_pull(&c).as_deref(), Some("docker.io/library/nginx:latest"));
    let mut m = ProcessManager::new();
    let (r, effects) = m.spawn_process(c, Ok(()), image("/oci/web", "/oci/web/nginx", &["-g"]));
    assert!(r.is_ok());
    assert_eq!(effects, vec![Effect::CountPull, Effect::CountProcess]);
    assert_eq!(m.processes[0].config.path, "nginx:latest");
    assert_eq!(m.processes[0].config.args, owned(&["--x"]));
    assert!(m.processes[0].config.deny.is_empty() && m.processes[0].config.allow.is_empty());
    assert_eq!(m.list(at(100))[0].path, "/oci/web/nginx");
    let started = &m.processes[0].resolved;
    assert_eq!(started.path, "/oci/web/nginx");
    assert_eq!(started.args, owned(&["-g", "--x"]));
    assert_eq!(started.deny, owned(&["io"]));
    assert_eq!(started.allow, owned(&["/oci/web"]));
}

#[test]
fn an_image_with_its_own_limits() {
    for (deny, allow, d, a) in [
        (vec!["net"], vec!["all"], vec!["net"], vec![]),
        (vec!["io", "net"], vec!["all", "/tmp"], vec!["net"], vec!["/tmp"]),
        (vec!["io"], vec!["/data"], vec!["io"], vec!["/data"]),
        (vec!["net"], vec!["/data"], vec!["net", "io"], vec!["/data", "/oci/x"]),
    ] {
        let mut c = config("x");
        c.is_oci = true;
        c.deny = owned(&deny);
        c.allow = owned(&allow);
        let mut m = ProcessManager::new();
        m.spawn_process(c, Ok(()), image("/oci/x", "/oci/x/p", &[]));
        for _ in 0..3 {
            assert_eq!(m.processes[0].resolved.deny, owned(&d));
            assert_eq!(m.processes[0].resolved.allow, owned(&a));
            assert_eq!(m.processes[0].config.deny, owned(&deny));
            assert_eq!(m.processes[0].config.allow, owned(&allow));
            let (r, _) = m.restart("x", image("/oci/x", "/oci/x/p", &[]));
            assert!(r.is_ok());
        }
    }
}

#[test]
fn a_restart_of_the_same_image_changes_nothing() {
    let mut c = config("web");
    c.is_oci = true;
    c.oci_reference = Some("docker.io/library/nginx:latest".to_string());
    c.deny = owned(&["net", "io"]);
    c.allow = owned(&["all"]);
    let mut m = ProcessManager::new();
    m.spawn_process(c.clone(), Ok(()), image("/oci/web", "/oci/web/nginx", &["-g"]));
    let before = m.processes[0].resolved.clone();
    assert_eq!((before.args.clone(), before.deny.clone()), (owned(&["-g", "--x"]), owned(&["net"])));
    for count in 1..4 {
        let (r, _) = m.restart("web", image("/oci/web", "/oci/web/nginx", &["-g"]));
        assert_eq!(r, Ok(format!("process 'web' restarted (pid: 9, restarts: {count})")));
        assert_eq!(m.processes[0].resolved, before);
        assert_eq!(m.processes[0].config, c);
    }
    assert_eq!(m.get_configs(), vec![c]);
}

#[test]
fn a_configuration_is_put_back() {
    let mut m = with(&["a", "b"]);
    let old = m.update_config("a", None, None, Some("mail".to_string()), None, None, None).unwrap();
    assert_ne!(m, with(&["a", "b"]));
    m.set_config("a", old);
    assert_eq!(m, with(&["a", "b"]));
    m.set_config("x", config("x"));
    assert_eq!(m, with(&["a", "b"]));
}

#[test]
fn an_image_that_cannot_be_pulled() {
    let mut c = config("web");
    c.is_oci = true;
    assert_eq!(image_to_pull(&c).as_deref(), Some("/srv/web/bin"));
    assert_eq!(image_to_pull(&config("web")), None);
    let mut m = ProcessManager::new();
    let (r, e) = m.spawn_process(c.clone(), Ok(()), outcome(Ok(Some(1))));
    assert_eq!((r, e), (Err("no pull".to_string()), vec![Effect::CountPullError]));
    let none = StartOutcome {
        pulled: Ok(Pulled { dir: "/oci/web".to_string(), entry: Err("no entry".to_string()) }),
        spawned: Ok(None),
        at: at(1),
    };
    let (r, e) = m.spawn_process(c, Ok(()), none);
    assert_eq!((r, e), (Err("no entry".to_string()), vec![Effect::CountPull]));
}

#[test]
fn a_directory_that_is_served_has_no_child() {
    let mut m = ProcessManager::new();
    let (r, e) = m.register_spa(config("dist"), at(5));
    assert_eq!((r, e), (Ok("SPA 'dist' registered".to_string()), vec![Effect::CountProcess]));
    assert!(!m.processes[0].child && m.processes[0].pid.is_none());
    let (r, _) = m.register_spa(config("dist"), at(5));
    assert_eq!(r, Err("process 'dist' already exists".to_string()));
    let (_, e) = m.delete("dist");
    assert_eq!(e, vec![Effect::UncountProcess]);
}

#[test]
fn starting_and_deleting_changes_nothing() {
    let mut m = with(&["a", "b"]);
    let mut c = config("c");
    c.pid_file = Some("/run/c.pid".to_string());
    m.spawn_process(c, Ok(()), outcome(Ok(Some(3))));
    let (r, e) = m.delete("c");
    assert_eq!(r, Ok("process 'c' deleted".to_string()));
    assert_eq!(
        e,
        vec![
            Effect::RemoveFile { path: "/run/c.pid".to_string() },
            Effect::KillChild { name: "c".to_string() },
            Effect::UncountProcess,
        ]
    );
    assert_eq!(m, with(&["a", "b"]));
    assert_eq!(m.delete("c"), (Err("process 'c' not found".to_string()), Vec::new()));
}

#[test]
fn a_process_is_restarted() {
    let mut m = with(&["a", "b"]);
    assert!(m.can_restart("b") && m.can_restart("none"));
    let (r, e) = m.restart("b", outcome(Ok(Some(77))));
    assert_eq!(r, Ok("process 'b' restarted (pid: 77, restarts: 1)".to_string()));
    assert_eq!(
        e,
        vec![Effect::KillChild { name: "b".to_string() }, Effect::CountRestart { name: "b".to_string() }]
    );
    assert_eq!(m.processes[1].restart_count, 1);
    assert_eq!(m.processes[1].pid, Some(77));
    assert_eq!(m.processes[0], with(&["a"]).processes[0]);
    let (r, _) = m.reload("b", outcome(Ok(None)));
    assert_eq!(r, Ok("process 'b' restarted (pid: 0, restarts: 2)".to_string()));
    assert_eq!(m.reload("x", outcome(Ok(None))), (Err("process 'x' not found".to_string()), Vec::new()));
    assert_eq!(m.restart("x", outcome(Ok(None))), (Err("process 'x' not found".to_string()), Vec::new()));
}

#[test]
fn a_reload_leaves_no_gap() {
    let mut m = with(&["a", "b"]);
    let (r, e) = m.reload("a", outcome(Err("gone".to_string())));
    assert_eq!((r, e), (Err("failed to spawn '/srv/a/bin': gone".to_string()), Vec::new()));
    assert_eq!(m, with(&["a", "b"]));
    let mut c = config("c");
    c.pid_file = Some("/run/c.pid".to_string());
    c.is_oci = true;
    m.spawn_process(c, Ok(()), image("/oci/c", "/oci/c/p", &[]));
    let (r, e) = m.reload("c", outcome(Ok(Some(1))));
    assert_eq!((r, e), (Err("no pull".to_string()), vec![Effect::CountPullError]));
    assert_eq!((m.processes[2].pid, m.processes[2].status), (Some(9), ProcessStatus::Running));
    let (r, e) = m.reload("c", image("/oci/c", "/oci/c/p", &[]));
    assert_eq!(r, Ok("process 'c' restarted (pid: 9, restarts: 1)".to_string()));
    assert_eq!(
        e,
        vec![
            Effect::CountPull,
            Effect::KillChild { name: "c".to_string() },
            Effect::WriteFile { path: "/run/c.pid".to_string(), text: "9".to_string() },
            Effect::CountRestart { name: "c".to_string() },
        ]
    );
    m.register_spa(config("s"), at(1));
    let (_, e) = m.reload("s", outcome(Err("no program".to_string())));
    assert!(e.is_empty() && m.processes[3].status == ProcessStatus::Running);
}

#[test]
fn a_restart_that_fails_leaves_the_process_stopped() {
    let mut m = with(&["a"]);
    let (r, e) = m.restart("a", outcome(Err("gone".to_string())));
    assert_eq!(r, Err("failed to spawn '/srv/a/bin': gone".to_string()));
    assert_eq!(e, vec![Effect::KillChild { name: "a".to_string() }]);
    assert_eq!(m.processes[0].status, ProcessStatus::Stopped);
    assert_eq!((m.processes[0].child, m.processes[0].pid), (false, None));
    let (stopped, e) = m.stop_for_restart("a");
    assert_eq!((stopped, e), (Ok(config("a")), Vec::new()));
    assert_eq!(m.stop_for_restart("z").0, Err("process 'z' not found".to_string()));
}

#[test]
fn all_processes_are_killed() {
    let mut m = with(&["a", "b"]);
    m.register_spa(config("s"), at(1));
    let (message, e) = m.kill_all();
    assert_eq!(message, "all processes stopped");
    assert_eq!(
        e,
        vec![
            Effect::KillChild { name: "a".to_string() },
            Effect::KillChild { name: "b".to_string() },
            Effect::CountNone,
        ]
    );
    assert_eq!(m, ProcessManager::new());
}

#[test]
fn a_listing() {
    let mut m = with(&["a"]);
    m.processes[0].started_at = Some(Timestamp { secs: 10, nanos: 900_000_000 });
    let list = m.list(Timestamp { secs: 75, nanos: 0 });
    assert_eq!((list[0].name.as_str(), list[0].pid, list[0].uptime_secs), ("a", Some(10), Some(64)));
    assert_eq!(m.list(at(0))[0].uptime_secs, Some(0));
    m.processes[0].started_at = None;
    assert_eq!(m.list(at(99))[0].uptime_secs, None);
    assert_eq!(m.get_configs(), vec![config("a")]);
    assert_eq!(m.config_of("a"), Some(config("a")));
    assert_eq!(m.config_of("b"), None);
}

#[test]
fn an_update_replaces_what_is_given() {
    let mut m = with(&["a", "b"]);
    let mapping = PortMapping { host: None, public_port: 80, app_port: None };
    let ssl = SslConfig { cert_path: "c".to_string(), key_path: "k".to_string() };
    let old = m.update_config(
        "b",
        Some(mapping.clone()),
        Some(ssl.clone()),
        Some("mail".to_string()),
        Some(".env".to_string()),
        Some(vec![("A".to_string(), "1".to_string())]),
        Some(owned(&["new"])),
    );
    assert_eq!(old, Ok(config("b")));
    let c = &m.processes[1].config;
    assert_eq!((&c.port_mapping, &c.ssl), (&Some(mapping), &Some(ssl)));
    assert_eq!((c.acme.as_deref(), c.env_file.as_deref()), (Some("mail"), Some(".env")));
    assert_eq!((c.args.clone(), c.env_vars.len()), (owned(&["new"]), 1));
    let before = c.clone();
    assert_eq!(m.update_config("b", None, None, None, None, None, None), Ok(before.clone()));
    assert_eq!(m.processes[1].config, before);
    assert_eq!(
        m.update_config("x", None, None, None, None, None, None),
        Err("process 'x' not found".to_string())
    );
    m.update_oci_config("a", "ghcr.io/a:2", "/oci/a/app");
    assert!(m.processes[0].config.is_oci);
    assert_eq!(m.processes[0].config.path, "/oci/a/app");
    assert_eq!(m.list(at(100))[0].path, "/oci/a/app");
    assert_eq!(m.processes[0].config.oci_reference.as_deref(), Some("ghcr.io/a:2"));
    m.update_oci_config("x", "ghcr.io/a:2", "/oci/a/app");
    assert_eq!(m.processes.len(), 2);
}

#[test]
fn saved_processes_are_restored() {
    let mut m = ProcessManager::new();
    let outcomes = vec![
        SpawnOutcome { dirs: Ok(()), start: outcome(Ok(Some(1))) },
        SpawnOutcome { dirs: Ok(()), start: outcome(Err("gone".to_string())) },
        SpawnOutcome { dirs: Ok(()), start: outcome(Ok(Some(3))) },
        SpawnOutcome { dirs: Ok(()), start: outcome(Ok(Some(4))) },
    ];
    let e = m.restore_processes(vec![config("a"), config("b"), config("a"), config("c")], outcomes);
    let names: Vec<&str> = m.processes.iter().map(|p| p.config.name.as_str()).collect();
    assert_eq!(names, ["a", "c"]);
    assert_eq!(e, vec![Effect::CountProcess, Effect::CountProcess]);
}

#[test]
fn a_directory_that_comes_back_has_no_child() {
    let mut m = ProcessManager::new();
    let mut c = config("dist");
    c.spa = true;
    let outcomes = vec![SpawnOutcome { dirs: Ok(()), start: outcome(Err("no program".to_string())) }];
    let e = m.restore_processes(vec![c.clone()], outcomes);
    assert_eq!(e, vec![Effect::CountProcess]);
    assert_eq!((&m.processes[0].config, m.processes[0].child, m.processes[0].pid), (&c, false, None));
}

#[test]
fn crashed_processes_are_restarted() {
    let mut m = with(&["a", "b", "c"]);
    m.register_spa(config("s"), at(1));
    m.processes[2].status = ProcessStatus::Stopped;
    assert_eq!(m.watched(), owned(&["a", "b"]));
    let again = m.check_and_restart(&owned(&["b", "c", "s"]));
    assert_eq!(again, owned(&["b"]));
    assert_eq!(m.processes[1].status, ProcessStatus::Errored);
    assert_eq!(m.processes[0].status, ProcessStatus::Running);
    assert_eq!(m.processes[2].status, ProcessStatus::Stopped);
    assert_eq!(m.watched(), owned(&["a"]));
    let stats = m.collect_process_stats();
    assert_eq!(stats, vec![("a".to_string(), 10), ("b".to_string(), 11), ("c".to_string(), 12)]);
}

#[test]
fn how_a_program_is_launched() {
    let mut c = config("api");
    c.env_vars = vec![("A".to_string(), "1".to_string())];
    let plan = launch_plan(&c);
    assert_eq!(plan.program, "/srv/api/bin");
    assert_eq!(plan.args, owned(&["--x"]));
    assert_eq!(plan.env_vars, c.env_vars);
    assert_eq!(plan.restrictions, None);
    assert_eq!(plan.stdout_log, "/var/run/nyrun/logs/api/stdout.log");
    assert_eq!(plan.stderr_log, "/var/run/nyrun/logs/api/stderr.log");
    c.deny = owned(&["net"]);
    c.allow = owned(&["/tmp"]);
    assert_eq!(
        launch_plan(&c).restrictions,
        Some(Restrictions {
            deny: owned(&["net"]),
            allow: owned(&["/tmp"]),
            working_dir: "/srv/api".to_string(),
        })
    );
    c.path = "/".to_string();
    assert_eq!(launch_plan(&c).restrictions.unwrap().working_dir, "/");
    c.is_oci = true;
    assert_eq!(launch_plan(&c).restrictions.unwrap().working_dir, "/var/run/nyrun/oci/api");
    assert_eq!(logs_dir("api"), "/var/run/nyrun/logs/api");
}

#[test]
fn the_end_of_the_logs() {
    let m = with(&["a"]);
    let out = Some("1\n2\n3\n".to_string());
    let err = Some("x\r\ny".to_string());
    assert_eq!(m.get_logs("a", 2, &out, &err), Ok("2\n3\n--- stderr ---\nx\ny\n".to_string()));
    assert_eq!(m.get_logs("a", 9, &out, &None), Ok("1\n2\n3\n".to_string()));
    assert_eq!(m.get_logs("a", 0, &out, &err), Ok("(no logs yet)\n".to_string()));
    assert_eq!(m.get_logs("a", 5, &None, &Some(String::new())), Ok("(no logs yet)\n".to_string()));
    assert_eq!(m.get_logs("b", 5, &out, &err), Err("process 'b' not found".to_string()));
}

#[test]
fn lines_of_output_are_stamped() {
    assert_eq!(stamp_line("now", "text"), "[now] text\n");
    assert_eq!(capture_line(at(0), "hello").as_deref(), Some("[1970-01-01 00:00:00] hello\n"));
    assert_eq!(capture_line(at(1_700_000_000), "x").as_deref(), Some("[2023-11-14 22:13:20] x\n"));
    assert_eq!(capture_line(at(i64::MAX), "x"), None);
}

fn apply(files: &mut HashMap<String, String>, op: FileOp) {
    match op {
        FileOp::Remove { path } => {
            files.remove(&path);
        }
        FileOp::Rename { from, to } => {
            if let Some(f) = files.remove(&from) {
                files.insert(to, f);
            }
        }
        FileOp::Create { path } => {
            files.insert(path, String::new());
        }
    }
}

#[test]
fn logs_are_rotated() {
    let m = with(&["a"]);
    assert_eq!(
        m.rotate_logs(),
        owned(&["/var/run/nyrun/logs/a/stdout.log", "/var/run/nyrun/logs/a/stderr.log"])
    );
    assert!(!needs_rotation(10 * 1024 * 1024) && needs_rotation(10 * 1024 * 1024 + 1));
    let mut files: HashMap<String, String> = HashMap::new();
    for i in 1..=7 {
        files.insert("log".to_string(), format!("part {i}"));
        for op in rotate_log_file("log") {
            apply(&mut files, op);
        }
    }
    assert_eq!(files["log"], "");
    for i in 1..=5 {
        assert_eq!(files[&format!("log.{i}")], format!("part {}", 8 - i));
    }
    assert_eq!(files.len(), 6);
    assert_eq!(rotate_log_file("log")[0], FileOp::Remove { path: "log.5".to_string() });
}
