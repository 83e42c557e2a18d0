use nyrun::path::{components_of, extension, file_name, inside, join, parent, under};
use std::path::Path;

const PATHS: [&str; 25] = [
    "", "/", "//", "a", "./a", "a/", "a/b", "a//b", "a/./b", "a/../b", "..", "../a", ".", "./", "/a", "/a/b.c",
    "/a/b.c.d", ".hidden", "/x/.hidden", "dir/.conf.json", "a/b/..", "/..", "name.", "é/ü.txt", "./../x",
];

#[test]
fn joining_agrees_with_std() {
    for a in PATHS {
        for b in PATHS {
            let want = Path::new(a).join(b);
            assert_eq!(join(a, b), want.to_str().unwrap(), "{a:?} {b:?}");
        }
    }
}

#[test]
fn names_agree_with_std() {
    for p in PATHS {
        let path = Path::new(p);
        assert_eq!(file_name(p).as_deref(), path.file_name().and_then(|f| f.to_str()), "{p:?}");
        assert_eq!(extension(p).as_deref(), path.extension().and_then(|f| f.to_str()), "{p:?}");
        assert_eq!(parent(p).as_deref(), path.parent().map(|f| f.to_str().unwrap()), "{p:?}");
    }
}

#[test]
fn a_joined_name_is_the_name() {
    for a in PATHS {
        for name in ["index.html", "...", ".x", "a"] {
            assert_eq!(file_name(&join(a, name)).as_deref(), Some(name), "{a:?}");
        }
    }
}

#[test]
fn prefixes_agree_with_std() {
    for a in PATHS {
        for b in PATHS {
            assert_eq!(under(a, b), Path::new(a).starts_with(b), "{a:?} {b:?}");
        }
    }
}

#[test]
fn components_agree_with_std() {
    for p in PATHS {
        let want: Vec<String> = Path::new(p)
            .components()
            .filter(|c| c.as_os_str() != "/")
            .map(|c| c.as_os_str().to_str().unwrap().to_string())
            .collect();
        assert_eq!(components_of(p), want, "{p:?}");
    }
}

#[test]
fn a_relative_path_stays_under() {
    for b in PATHS {
        if !b.starts_with('/') {
            let joined = join("/var/run/nyrun", b);
            assert!(under(&joined, "/var/run/nyrun"), "{b:?}");
            let mut level = 0i32;
            let mut stays = true;
            for part in b.split('/') {
                level += match part {
                    "" | "." => 0,
                    ".." => -1,
                    _ => 1,
                };
                stays &= level >= 0;
            }
            assert_eq!(inside(&joined, "/var/run/nyrun"), stays, "{b:?}");
        }
    }
    assert!(!inside("/etc", "/var") && inside("/../var/x", "/../var"));
}
