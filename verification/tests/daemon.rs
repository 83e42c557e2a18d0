use nyrun::daemon::{
    backup_entry, child_path, cleanup, create_backup, ensure_dirs, generate_systemd_unit, next_tick, restore_backup,
    restore_parent, select_configs, BackupEntry,
};
use nyrun::protocol::{ProcessConfig, ProcessMode};

fn config(name: &str) -> ProcessConfig {
    ProcessConfig {
        name: name.to_string(),
        path: "./a".to_string(),
        args: Vec::new(),
        env_vars: Vec::new(),
        env_file: None,
        mode: ProcessMode::Bin,
        port_mapping: None,
        spa: false,
        ssl: None,
        acme: None,
        deny: Vec::new(),
        allow: Vec::new(),
        is_oci: false,
        oci_reference: None,
        pid_file: None,
    }
}

#[test]
fn directories_and_files_of_the_daemon() {
    assert_eq!(
        ensure_dirs(),
        [
            "/var/run/nyrun",
            "/var/run/nyrun/logs",
            "/var/run/nyrun/certs",
            "/var/run/nyrun/oci",
            "/var/run/nyrun/state",
        ]
    );
    assert_eq!(cleanup(), ["/var/run/nyrun/nyrun.sock", "/var/run/nyrun/nyrun.pid"]);
}

#[test]
fn logs_are_looked_at_each_minute() {
    let mut tick = 0;
    let mut rotated = Vec::new();
    for _ in 0..90 {
        let (next, rotate) = next_tick(tick);
        tick = next;
        if rotate {
            rotated.push(tick);
        }
    }
    assert_eq!(rotated, [30, 60, 90]);
}

#[test]
fn the_unit_of_the_service() {
    let unit = "[Unit]\nDescription=nyrun process manager\nAfter=network.target\n\n[Service]\nType=forking\n\
        ExecStart=/usr/bin/nyrun daemon\nPIDFile=/var/run/nyrun/nyrun.pid\nExecReload=/bin/kill -HUP $MAINPID\n\
        Restart=on-failure\nRestartSec=5\n\n[Install]\nWantedBy=multi-user.target\n";
    assert_eq!(generate_systemd_unit("/usr/bin/nyrun"), unit);
}

#[test]
fn names_of_backups() {
    assert_eq!(create_backup("backup"), "backup.zip");
    assert_eq!(create_backup("backup.zip"), "backup.zip");
    assert_eq!(create_backup(""), ".zip");
}

#[test]
fn entries_of_a_backup() {
    assert_eq!(backup_entry("", "logs", true), BackupEntry::Directory("logs/".to_string()));
    assert_eq!(backup_entry("logs", "api", true), BackupEntry::Directory("logs/api/".to_string()));
    assert_eq!(backup_entry("logs/api", "stdout.log", false), BackupEntry::File("logs/api/stdout.log".to_string()));
    assert_eq!(backup_entry("", "nyrun.sock", false), BackupEntry::Skip);
    assert_eq!(backup_entry("", "nyrun.pid", false), BackupEntry::Skip);
    assert_eq!(backup_entry("", "x.sock", true), BackupEntry::Directory("x.sock/".to_string()));
    assert_eq!(child_path("a", "b"), "a/b");
}

#[test]
fn what_is_backed_up_is_restored() {
    for (dir, name) in [("", "settings.json"), ("logs/api", "stdout.log"), ("certs/x.com", "key.pem")] {
        match backup_entry(dir, name, false) {
            BackupEntry::File(entry) => {
                assert_eq!(restore_backup(&entry), Ok(format!("/var/run/nyrun/{}", child_path(dir, name))));
            }
            other => panic!("{other:?}"),
        }
    }
    assert_eq!(
        restore_backup("/etc/passwd"),
        Err("path traversal detected in zip: /etc/passwd".to_string())
    );
    for entry in ["../evil", "logs/../../evil", ".."] {
        assert_eq!(restore_backup(entry), Err(format!("path traversal detected in zip: {entry}")));
    }
    assert_eq!(restore_backup("a/../b"), Ok("/var/run/nyrun/a/../b".to_string()));
    assert_eq!(restore_backup("logs/api/"), Ok("/var/run/nyrun/logs/api/".to_string()));
    assert_eq!(restore_backup("/var/run/nyrun/x"), Ok("/var/run/nyrun/x".to_string()));
    assert_eq!(restore_parent("/var/run/nyrun/x").as_deref(), Some("/var/run/nyrun"));
}

#[test]
fn one_process_of_a_file() {
    let all = || vec![config("a"), config("b"), config("a")];
    assert_eq!(select_configs(all(), &None), all());
    assert_eq!(select_configs(all(), &Some("a".to_string())), vec![config("a"), config("a")]);
    assert_eq!(select_configs(all(), &Some("x".to_string())), Vec::new());
}
