use nyrun::config::{
    derive_name, env_file_vars, parse_allow, parse_args_string, parse_deny, parse_env_file, parse_port_mapping,
    port_text, split_words,
};
use nyrun::protocol::PortMapping;

fn owned(v: &[&str]) -> Vec<String> {
    v.iter().map(|s| s.to_string()).collect()
}

fn mapping(host: Option<&str>, public_port: u16, app_port: Option<u16>) -> PortMapping {
    PortMapping { host: host.map(String::from), public_port, app_port }
}

#[test]
fn environment_file() {
    let text = "# comment\n\nA=1\nB = two words \r\n  C=\"quoted\"\nD='single'\nE=\"'both'\"\nno assignment\nF=a=b\nA=2\n=x\nG=\n";
    let mut vars = env_file_vars(text);
    vars.sort();
    let want: Vec<(String, String)> = [
        ("", "x"), ("A", "2"), ("B", "two words"), ("C", "quoted"), ("D", "single"), ("E", "both"), ("F", "a=b"),
        ("G", ""),
    ]
    .iter()
    .map(|(k, v)| (k.to_string(), v.to_string()))
    .collect();
    assert_eq!(vars, want);
}

#[test]
fn environment_file_that_cannot_be_read() {
    assert_eq!(
        parse_env_file(".env", Err("No such file".to_string())),
        Err("failed to read env file '.env': No such file".to_string())
    );
    assert_eq!(
        parse_env_file(".env", Ok("X=1".to_string())),
        Ok(vec![("X".to_string(), "1".to_string())])
    );
}

#[test]
fn argument_strings() {
    assert_eq!(parse_args_string(&None), owned(&[]));
    assert_eq!(parse_args_string(&Some("--port 8000 --verbose".to_string())), owned(&["--port", "8000", "--verbose"]));
    assert_eq!(parse_args_string(&Some("a 'b c' \"d e\" f\\ g".to_string())), owned(&["a", "b c", "d e", "f g"]));
    assert_eq!(parse_args_string(&Some("".to_string())), owned(&[]));
    assert_eq!(parse_args_string(&Some("open 'quote".to_string())), owned(&[]));
    assert_eq!(split_words(Some(owned(&["x"]))), owned(&["x"]));
    assert_eq!(split_words(None), owned(&[]));
}

#[test]
fn deny_and_allow_lists() {
    assert_eq!(parse_deny(&None), owned(&[]));
    assert_eq!(parse_deny(&Some("net, io".to_string())), owned(&["net", "io"]));
    assert_eq!(parse_deny(&Some("".to_string())), owned(&[""]));
    assert_eq!(parse_allow(&Some("/tmp/data,/var/log".to_string())), owned(&["/tmp/data", "/var/log"]));
    assert_eq!(parse_allow(&Some(" a ,, b".to_string())), owned(&["a", "", "b"]));
}

#[test]
fn port_mappings() {
    assert_eq!(parse_port_mapping("8080"), Ok(mapping(None, 8080, None)));
    assert_eq!(parse_port_mapping("80:8000"), Ok(mapping(None, 80, Some(8000))));
    assert_eq!(parse_port_mapping("example.com:443:8000"), Ok(mapping(Some("example.com"), 443, Some(8000))));
    assert_eq!(parse_port_mapping(":1:2"), Ok(mapping(Some(""), 1, Some(2))));
}

#[test]
fn port_mappings_that_are_refused() {
    for (s, e) in [
        ("", "invalid port: "),
        ("x", "invalid port: x"),
        ("65536", "invalid port: 65536"),
        ("a:b", "invalid port: a"),
        ("80:b", "invalid port: b"),
        ("h:p:8000", "invalid port: p"),
        ("h:80:q", "invalid port: q"),
        ("a:b:c:d", "invalid port mapping: a:b:c:d"),
    ] {
        assert_eq!(parse_port_mapping(s), Err(e.to_string()));
    }
}

#[test]
fn a_mapping_is_read_as_it_is_written() {
    for m in [
        mapping(None, 80, None),
        mapping(None, 0, Some(65535)),
        mapping(Some("example.com"), 443, Some(8000)),
        mapping(Some(""), 1, Some(1)),
    ] {
        assert_eq!(parse_port_mapping(&port_text(&m)), Ok(m));
    }
    assert_eq!(port_text(&mapping(Some("h"), 443, None)), "h:443:443");
}

#[test]
fn derived_names() {
    assert_eq!(derive_name("./my-app", &None), "my-app");
    assert_eq!(derive_name("/usr/bin/env/", &None), "env");
    assert_eq!(derive_name("..", &None), "unknown");
    assert_eq!(derive_name("/", &None), "unknown");
    assert_eq!(derive_name("./my-app", &Some("api".to_string())), "api");
}
