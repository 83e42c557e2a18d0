use flate2::write::GzEncoder;
use nyrun::oci::{
    binary_candidates, choose_command, choose_entrypoint, config_path, dest_dir, entry_action, extract_layer,
    extract_tar_entries, find_entrypoint, format_size, image_command, image_name_from_ref, is_executable,
    is_oci_reference, layer_format, load_default_registry, normalize_reference, pull_and_extract, pull_step,
    registry_or_default, resolve_binary, save_default_registry, search_dirs, ArchiveStage, EntryAction, FoundFile,
    LayerFormat, PullNext, PullStage,
};
use nyrun::text::text_bytes;
use std::io::Write;

fn owned(v: &[&str]) -> Vec<String> {
    v.iter().map(|s| s.to_string()).collect()
}

#[test]
fn references_to_images() {
    for s in [
        "ghcr.io/org/app:latest", "docker.io/library/alpine", "localhost:5000/app", "traefik:v3.6", "nginx:latest",
        "redis:7", "nginx", "my-app_2", "größe:1",
    ] {
        assert!(is_oci_reference(s), "{s}");
    }
    for s in [
        "/usr/bin/app", "./app", "../app", "./nginx:latest", "dir/app", "org/app:latest", "", ":tag", "a.out",
        "a b:1", ".", "..",
    ] {
        assert!(!is_oci_reference(s), "{s}");
    }
}

#[test]
fn references_with_a_registry() {
    assert_eq!(normalize_reference("traefik:v3.6", "docker.io"), "docker.io/library/traefik:v3.6");
    assert_eq!(normalize_reference("traefik:v3.6", "ghcr.io"), "ghcr.io/traefik:v3.6");
    assert_eq!(normalize_reference("ghcr.io/org/app:v1", "docker.io"), "ghcr.io/org/app:v1");
    assert_eq!(normalize_reference("localhost:5000/app", "ghcr.io"), "localhost:5000/app");
    assert_eq!(normalize_reference("org/app:v1", "ghcr.io"), "ghcr.io/org/app:v1");
}

#[test]
fn names_of_images() {
    assert_eq!(image_name_from_ref("ghcr.io/org/myapp:v1.2"), "myapp");
    assert_eq!(image_name_from_ref("nginx:latest"), "nginx");
    assert_eq!(image_name_from_ref("ghcr.io/org/app@sha256:abc"), "app");
    assert_eq!(image_name_from_ref("nginx"), "nginx");
    assert_eq!(image_name_from_ref("localhost:5000/app:v1"), "app");
    assert_eq!(image_name_from_ref("localhost:5000/app"), "app");
    assert_eq!(image_name_from_ref("localhost:5000/org/app@sha256:abc"), "app");
}

#[test]
fn the_default_registry() {
    assert_eq!(load_default_registry(&None), "docker.io");
    assert_eq!(load_default_registry(&Some("no json".to_string())), "docker.io");
    assert_eq!(load_default_registry(&Some("{\"default-registry\": 7}".to_string())), "docker.io");
    assert_eq!(load_default_registry(&Some("{\"default-registry\": \"ghcr.io\"}".to_string())), "ghcr.io");
    assert_eq!(registry_or_default(Some("quay.io".to_string())), "quay.io");
    assert_eq!(registry_or_default(None), "docker.io");
}

#[test]
fn a_registry_that_is_saved_is_loaded() {
    for before in [None, Some("{}"), Some("null"), Some("broken"), Some("{\"other\": \"kept\", \"default-registry\": \"x\"}")] {
        let before = before.map(String::from);
        let after = save_default_registry(&before, "ghcr.io").unwrap();
        assert_eq!(load_default_registry(&Some(after.clone())), "ghcr.io");
        let value: serde_json::Value = serde_json::from_str(&after).unwrap();
        assert_eq!(value.get("other").is_some(), before.is_some_and(|b| b.contains("other")));
    }
    assert_eq!(
        save_default_registry(&None, "ghcr.io").as_deref(),
        Some("{\n  \"default-registry\": \"ghcr.io\"\n}")
    );
    assert_eq!(save_default_registry(&Some("[1]".to_string()), "ghcr.io"), None);
    assert_eq!(save_default_registry(&Some("3".to_string()), "ghcr.io"), None);
}

fn size_by_floats(bytes: u64) -> String {
    if bytes >= 1_000_000_000 {
        format!("{:.1} GB", bytes as f64 / 1_073_741_824.0)
    } else if bytes >= 1_000_000 {
        format!("{:.1} MB", bytes as f64 / 1_048_576.0)
    } else if bytes >= 1_000 {
        format!("{:.0} KB", bytes as f64 / 1_024.0)
    } else {
        format!("{bytes} B")
    }
}

#[test]
fn sizes_of_layers() {
    for (n, s) in [
        (0, "0 B"), (999, "999 B"), (1_000, "1 KB"), (1_536, "2 KB"), (2_560, "2 KB"), (1_000_000, "1.0 MB"),
        (1_048_576, "1.0 MB"), (1_572_864, "1.5 MB"), (1_000_000_000, "0.9 GB"), (1_073_741_824, "1.0 GB"),
    ] {
        assert_eq!(format_size(n), s);
    }
    let mut n: u64 = 1;
    for i in 0..200_000u64 {
        n = n.wrapping_mul(6364136223846793005).wrapping_add(1442695040888963407);
        let bytes = n >> (i % 60);
        assert_eq!(format_size(bytes), size_by_floats(bytes), "{bytes}");
    }
    for bytes in [u64::MAX, u64::MAX - 1023, 1 << 53, (1 << 53) + 1, (1 << 54) + 2, (1 << 63) + 1025] {
        assert_eq!(format_size(bytes), size_by_floats(bytes), "{bytes}");
    }
}

#[test]
fn pulling_an_image() {
    let mut pull = pull_and_extract("docker.io/library/redis:7", "cache").unwrap();
    let mut stages = Vec::new();
    loop {
        stages.push((pull.stage, pull.next));
        let result = if pull.stage == PullStage::Manifest { owned(&["sha256:a", "sha256:b"]) } else { Vec::new() };
        match pull_step(pull, Ok(result)) {
            PullNext::Continue(p) => pull = p,
            PullNext::Finished(dir) => {
                assert_eq!(dir, "/var/run/nyrun/oci/cache");
                break;
            }
            PullNext::Failed(e) => panic!("{e}"),
        }
    }
    assert_eq!(
        stages,
        vec![
            (PullStage::Manifest, 0),
            (PullStage::Directory, 0),
            (PullStage::Config, 0),
            (PullStage::Save, 0),
            (PullStage::Layer, 0),
            (PullStage::Extract, 0),
            (PullStage::Layer, 1),
            (PullStage::Extract, 1),
        ]
    );
    assert_eq!(config_path(&dest_dir("cache")), "/var/run/nyrun/oci/cache/.oci-config.json");
}

#[test]
fn a_pull_that_fails() {
    for (steps, message) in [
        (0, "failed to pull manifest: gone"),
        (1, "failed to create dir /var/run/nyrun/oci/app: gone"),
        (2, "failed to pull config: gone"),
        (3, "failed to write config: gone"),
        (4, "failed to pull layer sha256:a: gone"),
        (5, "gone"),
    ] {
        let mut pull = pull_and_extract("nginx:latest", "app").unwrap();
        for _ in 0..steps {
            pull = match pull_step(pull, Ok(owned(&["sha256:a"]))) {
                PullNext::Continue(p) => p,
                other => panic!("{other:?}"),
            };
        }
        assert_eq!(pull_step(pull, Err("gone".to_string())), PullNext::Failed(message.to_string()));
    }
}

#[test]
fn an_image_without_layers() {
    let mut pull = pull_and_extract("scratch:1", "empty").unwrap();
    for _ in 0..3 {
        pull = match pull_step(pull, Ok(Vec::new())) {
            PullNext::Continue(p) => p,
            other => panic!("{other:?}"),
        };
    }
    assert_eq!(pull_step(pull, Ok(Vec::new())), PullNext::Finished("/var/run/nyrun/oci/empty".to_string()));
}

#[test]
fn a_reference_that_cannot_be_parsed() {
    let e = pull_and_extract("Not A Reference", "x").unwrap_err();
    let problem = "Not A Reference".parse::<oci_distribution::Reference>().unwrap_err();
    assert_eq!(e, format!("invalid OCI reference 'Not A Reference': {problem}"));
    assert!(pull_and_extract("", "x").is_err());
}

#[test]
fn entries_of_a_layer() {
    let dest = "/var/run/nyrun/oci/app";
    let act = |p: &str| entry_action(&p.as_bytes().to_vec(), dest);
    assert_eq!(act("usr/bin/app"), EntryAction::Unpack);
    assert_eq!(act("./"), EntryAction::Unpack);
    assert_eq!(act("etc/.wh.passwd"), EntryAction::Remove(format!("{dest}/etc/passwd")));
    assert_eq!(act(".wh.top"), EntryAction::Remove(format!("{dest}/top")));
    assert_eq!(act("/etc/passwd"), EntryAction::Skip);
    assert_eq!(act("/var/run/nyrun/oci/app/x"), EntryAction::Unpack);
}

#[test]
fn entries_that_lead_out_of_a_layer() {
    let dest = "/var/run/nyrun/oci/app";
    for p in ["../x", "a/../../x", "../.wh.y", "/etc/.wh.passwd", "../../../etc/.wh.passwd", ".wh...", "a/../../.wh.b"] {
        assert_eq!(entry_action(&p.as_bytes().to_vec(), dest), EntryAction::Skip, "{p}");
    }
    assert_eq!(entry_action(&b"a/../b".to_vec(), dest), EntryAction::Unpack);
    assert_eq!(entry_action(&b"a/../.wh.b".to_vec(), dest), EntryAction::Remove(format!("{dest}/a/../b")));
}

/// A block that heads a sparse file with this size, and whose map goes on in the next block.
fn sparse_block(size: u64) -> Vec<u8> {
    let mut block = vec![0u8; 512];
    block[..4].copy_from_slice(b"file");
    block[124] = 0x80;
    block[128..136].copy_from_slice(&size.to_be_bytes());
    block[156] = b'S';
    block[257..265].copy_from_slice(b"ustar  \0");
    block[482] = 1;
    let sum: u32 = block.iter().map(|b| *b as u32).sum::<u32>() + 8 * 32;
    block[148..156].copy_from_slice(format!("{sum:06o}\0 ").as_bytes());
    block
}

fn packed(data: &[u8]) -> Vec<u8> {
    let mut encoder = GzEncoder::new(Vec::new(), flate2::Compression::default());
    encoder.write_all(data).unwrap();
    encoder.finish().unwrap()
}

#[test]
fn sparse_files_that_are_too_large() {
    let refused = Err("tar entry error: a sparse file is too large".to_string());
    let mut huge = archive(&["a"]);
    huge.truncate(1024);
    huge.extend(sparse_block(u64::MAX - 1023));
    huge.extend(vec![0u8; 512]);
    for plan in [extract_layer(&huge, "tar", "/oci/app"), extract_layer(&packed(&huge), "gzip", "/oci/app")] {
        assert_eq!((plan.actions, plan.outcome), (Vec::new(), refused.clone()));
    }
    let mut small = archive(&["a"]);
    small.truncate(1024);
    small.extend(sparse_block(1 << 62));
    small.extend(vec![0u8; 512]);
    for plan in [extract_layer(&small, "tar", "/oci/app"), extract_layer(&packed(&small), "gzip", "/oci/app")] {
        assert_eq!(plan.actions, vec![EntryAction::Unpack]);
        let e = plan.outcome.unwrap_err();
        assert!(e.starts_with("tar entry error: ") && Err(e) != refused);
    }
    small.extend(b"30 size=18446744073709550592\n");
    assert_eq!(extract_layer(&small, "tar", "/oci/app").outcome, refused);
    assert_eq!(extract_layer(&archive(&["size=9999999999999999999"]), "tar", "/oci/app").outcome, Ok(()));
}

#[test]
fn compressed_layers_that_break_off() {
    let data = archive(&["bin/app", "README"]);
    let mut cut = packed(&data);
    let n = cut.len();
    cut[n - 8] ^= 0xff;
    let whole = extract_layer(&cut, "gzip", "/oci/app");
    assert_eq!((whole.actions.len(), whole.outcome), (2, Ok(())));
    cut.truncate(20);
    let broken = extract_layer(&cut, "gzip", "/oci/app");
    assert!(broken.outcome.unwrap_err().starts_with("tar entry error: "));
}

#[test]
fn entries_with_other_bytes() {
    let dest = "/oci/é";
    let target = match entry_action(&"ü/.wh.ö".as_bytes().to_vec(), dest) {
        EntryAction::Remove(t) => text_bytes(&t).unwrap(),
        other => panic!("{other:?}"),
    };
    assert_eq!(target, "/oci/é/ü/ö".as_bytes());
    let mut odd = b"dir\xff/.wh.name".to_vec();
    let target = match entry_action(&odd, dest) {
        EntryAction::Remove(t) => text_bytes(&t).unwrap(),
        other => panic!("{other:?}"),
    };
    assert_eq!(target, ["/oci/é/dir".as_bytes(), b"\xff/name"].concat());
    odd.push(0xff);
    assert_eq!(entry_action(&odd, dest), EntryAction::Unpack);
}

#[test]
fn formats_of_layers() {
    assert_eq!(layer_format("application/vnd.oci.image.layer.v1.tar+gzip"), LayerFormat::Gzip);
    assert_eq!(layer_format("application/vnd.docker.image.rootfs.diff.tar.gzip"), LayerFormat::Gzip);
    assert_eq!(layer_format("application/vnd.oci.image.layer.v1.tar"), LayerFormat::Tar);
    assert_eq!(layer_format("text/plain"), LayerFormat::Unknown);
}

fn archive(names: &[&str]) -> Vec<u8> {
    let mut builder = tar::Builder::new(Vec::new());
    for name in names {
        let mut header = tar::Header::new_gnu();
        header.set_size(3);
        header.set_mode(0o644);
        header.set_cksum();
        builder.append_data(&mut header, name, &b"abc"[..]).unwrap();
    }
    builder.into_inner().unwrap()
}

#[test]
fn layers_are_listed() {
    let data = archive(&["bin/app", "etc/.wh.old", "README"]);
    let want = vec![
        EntryAction::Unpack,
        EntryAction::Remove("/oci/app/etc/old".to_string()),
        EntryAction::Unpack,
    ];
    let plain = extract_layer(&data, "application/vnd.oci.image.layer.v1.tar", "/oci/app");
    assert_eq!(plain.actions, want);
    assert_eq!(plain.outcome, Ok(()));
    let mut encoder = GzEncoder::new(Vec::new(), flate2::Compression::default());
    encoder.write_all(&data).unwrap();
    let packed = encoder.finish().unwrap();
    let zipped = extract_layer(&packed, "application/vnd.oci.image.layer.v1.tar+gzip", "/oci/app");
    assert_eq!(zipped.actions, want);
    assert_eq!(zipped.outcome, Ok(()));
    let other = extract_layer(&data, "text/plain", "/oci/app");
    assert_eq!(other.actions, Vec::new());
    assert_eq!(other.outcome, Ok(()));
}

#[test]
fn layers_that_cannot_be_read() {
    let mut data = archive(&["bin/app", "README"]);
    data.truncate(1024 + 100);
    let cut = extract_layer(&data, "tar", "/oci/app");
    assert_eq!(cut.actions, vec![EntryAction::Unpack]);
    assert!(cut.outcome.unwrap_err().starts_with("tar entry error: "));
    let junk = extract_layer(&vec![1, 2, 3], "gzip", "/oci/app");
    assert_eq!(junk.actions, Vec::new());
    assert!(junk.outcome.unwrap_err().starts_with("tar entry error: "));
    for (stage, message) in [
        (ArchiveStage::Entries, "tar entries error: e"),
        (ArchiveStage::Entry, "tar entry error: e"),
        (ArchiveStage::Path, "tar path error: e"),
    ] {
        let plan = extract_tar_entries((vec![b"/x".to_vec()], Some((stage, "e".to_string()))), "/oci/app");
        assert_eq!(plan.actions, vec![EntryAction::Skip]);
        assert_eq!(plan.outcome, Err(message.to_string()));
    }
}

#[test]
fn commands_of_images() {
    let both = "{\"config\": {\"Entrypoint\": [\"/bin/app\", 3, \"--x\"], \"Cmd\": [\"sh\"]}}";
    assert_eq!(image_command(both), Some(owned(&["/bin/app", "--x"])));
    let cmd = "{\"config\": {\"Entrypoint\": [], \"Cmd\": [\"sh\", \"-c\"]}}";
    assert_eq!(image_command(cmd), Some(owned(&["sh", "-c"])));
    assert_eq!(image_command("{\"config\": {\"Entrypoint\": null}}"), None);
    assert_eq!(image_command("{\"Cmd\": [\"sh\"]}"), None);
    assert_eq!(image_command("broken"), None);
    assert_eq!(choose_command(&Some(vec![None]), &Some(vec![Some("a".to_string())])), Some(owned(&["a"])));
    assert_eq!(choose_command(&None, &None), None);
}

#[test]
fn programs_of_images() {
    assert_eq!(binary_candidates("/oci/a", "/bin/app"), owned(&["/oci/a/bin/app", "/bin/app"]));
    assert_eq!(binary_candidates("/oci/a", "app"), owned(&["/oci/a/app"]));
    assert_eq!(resolve_binary("/oci/a", "/bin/app", &owned(&["/oci/a/bin/app", "/bin/app"])), "/oci/a/bin/app");
    assert_eq!(resolve_binary("/oci/a", "/bin/sh", &owned(&["/bin/sh"])), "/bin/sh");
    assert_eq!(resolve_binary("/oci/a", "app", &owned(&["/oci/a/app"])), "/oci/a/app");
    assert_eq!(resolve_binary("/oci/a", "app", &owned(&[])), "app");
    assert!(is_executable(0o755) && is_executable(0o100) && is_executable(0o001));
    assert!(!is_executable(0o644) && !is_executable(0));
}

#[test]
fn entry_points_of_images() {
    let config = Some("{\"config\": {\"Entrypoint\": [\"/app\", \"run\"]}}".to_string());
    assert_eq!(
        find_entrypoint("/oci/a", &config, &owned(&["/oci/a/app"]), &Vec::new()),
        Ok(("/oci/a/app".to_string(), owned(&["run"])))
    );
    let found = vec![
        FoundFile { path: "/oci/a/bin".to_string(), is_file: false, mode: 0o755 },
        FoundFile { path: "/oci/a/notes".to_string(), is_file: true, mode: 0o644 },
        FoundFile { path: "/oci/a/app/server".to_string(), is_file: true, mode: 0o755 },
    ];
    assert_eq!(
        find_entrypoint("/oci/a", &None, &Vec::new(), &found),
        Ok(("/oci/a/app/server".to_string(), Vec::new()))
    );
    assert_eq!(
        choose_entrypoint("/oci/a", &None, &Vec::new(), &Vec::new()),
        Err("no entrypoint found in OCI image at /oci/a".to_string())
    );
    assert_eq!(
        search_dirs("/oci/a"),
        owned(&["/oci/a/usr/local/bin", "/oci/a/usr/bin", "/oci/a/bin", "/oci/a/app", "/oci/a/."])
    );
}
