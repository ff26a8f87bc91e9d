use ghostnet::text::{
    blank, eq_ignore_ascii_case, pad_end, split_lines, strip_prefix, trim, white_space,
};

#[test]
fn white_space_matches_std() {
    for u in 0u32..=0x10FFFF {
        if let Some(c) = char::from_u32(u) {
            assert_eq!(white_space(c), c.is_whitespace(), "U+{u:04X}");
        }
    }
}

#[test]
fn trim_matches_std() {
    let samples = [
        "", " ", "  a  ", "\u{feff} x", "\u{3000}héllo\u{a0}", "a b", "\t\n\r", "x\u{2028}",
        "\u{85}mid dle\u{85}",
    ];
    for s in samples {
        assert_eq!(trim(s), s.trim(), "{s:?}");
        assert_eq!(blank(s), s.trim().is_empty(), "{s:?}");
    }
}

#[test]
fn lines_match_std() {
    let samples = [
        "", "\n", "a", "a\n", "a\nb", "a\r\nb\r\n", "a\r", "\r\n", "\n\n", "x\ry\nz", "é\n\n\u{1F47B}",
    ];
    for s in samples {
        let want: Vec<String> = s.lines().map(String::from).collect();
        assert_eq!(split_lines(s), want, "{s:?}");
    }
}

#[test]
fn ascii_case_matches_std() {
    let pairs = [("GhostNet", "ghostnet"), ("ghostnet", "ghostnet"), ("ghost", "ghostnet"), ("É", "é"), ("[", "{")];
    for (a, b) in pairs {
        assert_eq!(eq_ignore_ascii_case(a, b), a.eq_ignore_ascii_case(b), "{a:?} {b:?}");
    }
}

#[test]
fn padding_matches_format() {
    for s in ["", "Node ID:", "a-rather-long-label:", "ünï:"] {
        assert_eq!(pad_end(s, 13), format!("{:<13}", s));
        assert_eq!(pad_end(s, 16), format!("{:<16}", s));
    }
}

#[test]
fn prefix_stripping_matches_std() {
    for (s, p) in [("wss://x", "wss://"), ("ws://x", "wss://"), ("", ""), ("ab", "abc"), ("é1", "é")] {
        assert_eq!(strip_prefix(s, p), s.strip_prefix(p).map(String::from));
    }
}
