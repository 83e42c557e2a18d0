use nyrun::protocol::{ProcessConfig, ProcessMode};
use nyrun::state::{load, migrate, remove_old_file, save, store_failure, Migration, StoreOp};
use std::collections::BTreeMap;

fn config(name: &str) -> ProcessConfig {
    ProcessConfig {
        name: name.to_string(),
        path: "./a".to_string(),
        args: Vec::new(),
        env_vars: Vec::new(),
        env_file: None,
        mode: ProcessMode::Bin,
        port_mapping: None,
        spa: false,
        ssl: None,
        acme: None,
        deny: Vec::new(),
        allow: Vec::new(),
        is_oci: false,
        oci_reference: None,
        pid_file: None,
    }
}

#[test]
fn what_is_saved_is_what_is_there() {
    let mut store: BTreeMap<String, Vec<u8>> = BTreeMap::new();
    for k in ["config:old", "config:b", "cloud:api_key"] {
        store.insert(k.to_string(), vec![0]);
    }
    let old_keys: Vec<String> = store.keys().filter(|k| k.starts_with("config:")).cloned().collect();
    let ops = save(old_keys, vec![("a".to_string(), vec![1]), ("b".to_string(), vec![2])]);
    assert_eq!(ops.last(), Some(&StoreOp::Flush));
    for op in ops {
        match op {
            StoreOp::Delete { key } => {
                store.remove(&key);
            }
            StoreOp::Put { key, value } => {
                store.insert(key, value);
            }
            StoreOp::Flush => {}
        }
    }
    let got: Vec<(&str, &[u8])> = store.iter().map(|(k, v)| (k.as_str(), v.as_slice())).collect();
    assert_eq!(got, [("cloud:api_key", &[0u8][..]), ("config:a", &[1u8][..]), ("config:b", &[2u8][..])]);
}

#[test]
fn what_is_saved_is_loaded() {
    let mut store: BTreeMap<String, Vec<u8>> = BTreeMap::new();
    store.insert("config:gone".to_string(), b"gone".to_vec());
    store.insert("cloud:api_key".to_string(), b"key".to_vec());
    let names = ["b", "a", "c"];
    let items = names.iter().map(|n| (n.to_string(), n.as_bytes().to_vec())).collect();
    for op in save(vec!["config:gone".to_string()], items) {
        match op {
            StoreOp::Delete { key } => {
                store.remove(&key);
            }
            StoreOp::Put { key, value } => {
                store.insert(key, value);
            }
            StoreOp::Flush => {}
        }
    }
    let entries = store
        .iter()
        .filter(|(k, _)| k.starts_with("config:"))
        .map(|(_, v)| Ok(config(std::str::from_utf8(v).unwrap())))
        .collect();
    assert_eq!(load(&entries), vec![config("a"), config("b"), config("c")]);
}

#[test]
fn store_failures() {
    assert_eq!(store_failure(&StoreOp::Delete { key: "k".to_string() }, "e"), "delete error: e");
    assert_eq!(store_failure(&StoreOp::Put { key: "k".to_string(), value: vec![] }, "e"), "put error: e");
    assert_eq!(store_failure(&StoreOp::Flush, "e"), "flush error: e");
}

#[test]
fn unreadable_entries_are_passed_over() {
    let entries = vec![Ok(config("a")), Err("broken".to_string()), Ok(config("b"))];
    assert_eq!(load(&entries), vec![config("a"), config("b")]);
    assert_eq!(load(&Vec::new()), Vec::new());
    assert_eq!(load(&vec![Ok(config("b")), Ok(config("a"))]), vec![config("b"), config("a")]);
}

#[test]
fn an_old_state_is_moved() {
    assert_eq!(migrate(None), Migration::Leave);
    assert_eq!(migrate(Some(Err("broken".to_string()))), Migration::Leave);
    assert_eq!(migrate(Some(Ok(Vec::new()))), Migration::RemoveFile);
    assert_eq!(migrate(Some(Ok(vec![config("a")]))), Migration::Save(vec![config("a")]));
    assert!(remove_old_file(&Ok(())));
    assert!(!remove_old_file(&Err("full".to_string())));
}
