use nyrun::text::{
    after_last_char, before_char, contains_text, ends_with, has_text, lines_of, split_on, starts_with,
    trim_both, trim_front, without_text, CharClass,
};

const SAMPLES: [&str; 14] = [
    "", "a", ":", "a:b", "a:b:c", "::", " a b ", "\t x \r\n", "\u{a0}\u{3000}é\u{2003}", "ab\r\ncd\n\nef",
    "x\r", "line\n", "\"quoted\"", "'it''s'",
];

#[test]
fn splitting_agrees_with_std() {
    for s in SAMPLES {
        for c in [':', ',', '\n', 'a'] {
            let want: Vec<&str> = s.split(c).collect();
            assert_eq!(split_on(s, c), want, "{s:?}");
            assert_eq!(before_char(s, c), s.split(c).next().unwrap_or(s), "{s:?}");
            assert_eq!(after_last_char(s, c), s.rsplit(c).next().unwrap_or(s), "{s:?}");
        }
    }
}

#[test]
fn trimming_agrees_with_std() {
    for s in SAMPLES {
        assert_eq!(trim_both(s, CharClass::White), s.trim(), "{s:?}");
        assert_eq!(trim_both(s, CharClass::Is('"')), s.trim_matches('"'), "{s:?}");
        assert_eq!(trim_both(s, CharClass::Is('\'')), s.trim_matches('\''), "{s:?}");
        assert_eq!(trim_front(s, CharClass::Is(':')), s.trim_start_matches(':'), "{s:?}");
    }
}

#[test]
fn white_space_agrees_with_std() {
    for n in 0..0x11_0000u32 {
        if let Some(c) = char::from_u32(n) {
            assert_eq!(CharClass::White.has(c), c.is_whitespace(), "{n:x}");
        }
    }
}

#[test]
fn lines_agree_with_std() {
    for s in SAMPLES.iter().chain(["\n", "\r\n", "\r", "a\r\r\nb", "a\n\r", "no end"].iter()) {
        let want: Vec<&str> = s.lines().collect();
        assert_eq!(lines_of(s), want, "{s:?}");
    }
}

#[test]
fn searching_agrees_with_std() {
    for s in SAMPLES {
        for p in ["", "a", "b", ":", "a:b", "cd", "xyz", " ", "ab\r\ncd\n\nef"] {
            assert_eq!(contains_text(s, p), s.contains(p), "{s:?} {p:?}");
            assert_eq!(starts_with(s, p), s.starts_with(p), "{s:?} {p:?}");
            assert_eq!(ends_with(s, p), s.ends_with(p), "{s:?} {p:?}");
        }
    }
}

#[test]
fn lists_of_texts() {
    let v = vec!["io".to_string(), "net".to_string(), "io".to_string()];
    assert!(has_text(&v, "net"));
    assert!(!has_text(&v, "all"));
    assert_eq!(without_text(&v, "io"), vec!["net".to_string()]);
    assert_eq!(without_text(&v, "all"), v);
}
