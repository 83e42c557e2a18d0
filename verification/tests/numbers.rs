use nyrun::number::{number_text, parse_u16, parse_u64};

#[test]
fn numbers_round_trip() {
    for n in [0u64, 1, 9, 10, 80, 65535, 1_000_000, u64::MAX] {
        assert_eq!(number_text(n), n.to_string());
        assert_eq!(parse_u64(&n.to_string()), Some(n));
    }
}

#[test]
fn numbers_agree_with_std() {
    for s in [
        "", "+", "+5", "++5", "-5", "0", "00012", "65535", "65536", "99999999999999999999", "1a", " 1", "٣",
        "18446744073709551615", "18446744073709551616", "+65535",
    ] {
        assert_eq!(parse_u16(s), s.parse::<u16>().ok(), "{s}");
        assert_eq!(parse_u64(s), s.parse::<u64>().ok(), "{s}");
    }
}
