use nyrun::client::{format_uptime, print_process_list, print_response, talk_failure, Printed, TalkStep};
use nyrun::protocol::{PortMapping, ProcessInfo, ProcessMode, ProcessStatus, Response};

fn info(name: &str) -> ProcessInfo {
    ProcessInfo {
        name: name.to_string(),
        pid: Some(1234),
        status: ProcessStatus::Running,
        mode: ProcessMode::Run,
        path: "./a".to_string(),
        port_mapping: Some(PortMapping {
            host: Some("example.com".to_string()),
            public_port: 443,
            app_port: Some(8000),
        }),
        started_at: None,
        restart_count: 0,
        uptime_secs: Some(3725),
    }
}

#[test]
fn uptimes() {
    for (n, s) in [
        (0, "0s"), (59, "59s"), (60, "1m 0s"), (61, "1m 1s"), (3599, "59m 59s"), (3600, "1h 0m"), (3725, "1h 2m"),
        (86399, "23h 59m"), (86400, "1d 0h"), (90000, "1d 1h"), (u64::MAX, "213503982334601d 7h"),
    ] {
        assert_eq!(format_uptime(n), s);
    }
}

#[test]
fn an_empty_list() {
    assert_eq!(print_process_list(&Vec::new()), "no processes running\n");
}

#[test]
fn the_list_agrees_with_std() {
    let row = |a: &str, b: &str, c: &str, d: &str, e: &str, f: &str| {
        format!("{a:<20} {b:<8} {c:<10} {d:<8} {e:<15} {f:<10}\n")
    };
    let mut bare = info("größe-und-ein-sehr-langer-name");
    bare.pid = None;
    bare.status = ProcessStatus::Errored;
    bare.mode = ProcessMode::Bin;
    bare.port_mapping = None;
    bare.uptime_secs = None;
    let mut short = info("s");
    short.status = ProcessStatus::Stopped;
    short.port_mapping = Some(PortMapping { host: None, public_port: 80, app_port: Some(8000) });
    let mut single = info("t");
    single.status = ProcessStatus::Starting;
    single.port_mapping = Some(PortMapping { host: None, public_port: 80, app_port: None });
    let got = print_process_list(&vec![info("api"), bare, short, single]);
    let want = row("NAME", "PID", "STATUS", "MODE", "PORT", "UPTIME")
        + &"-".repeat(75)
        + "\n"
        + &row("api", "1234", "Running", "Run", "example.com:443:8000", "1h 2m")
        + &row("größe-und-ein-sehr-langer-name", "-", "Errored", "Bin", "-", "-")
        + &row("s", "1234", "Stopped", "Run", "80:8000", "1h 2m")
        + &row("t", "1234", "Starting", "Run", "80", "1h 2m");
    assert_eq!(got, want);
}

#[test]
fn answers_are_printed() {
    assert_eq!(print_response(&Response::Success("ok".to_string())), Printed::Stdout("ok\n".to_string()));
    assert_eq!(print_response(&Response::Logs("a\nb\n".to_string())), Printed::Stdout("a\nb\n".to_string()));
    assert_eq!(print_response(&Response::Error("no".to_string())), Printed::Stderr("error: no\n".to_string()));
    assert_eq!(print_response(&Response::ConfigList(Vec::new())), Printed::Nothing);
    assert_eq!(
        print_response(&Response::ProcessList(Vec::new())),
        Printed::Stdout("no processes running\n".to_string())
    );
}

#[test]
fn talking_to_the_daemon_fails() {
    assert_eq!(talk_failure(TalkStep::Connect, "e"), "failed to connect to daemon: e");
    assert_eq!(talk_failure(TalkStep::Send, "e"), "failed to send request: e");
    assert_eq!(talk_failure(TalkStep::Receive, "e"), "failed to read response: e");
}
