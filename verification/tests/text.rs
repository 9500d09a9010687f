use differ::config::{AiTarget, Config};
use differ::names::{NameMap, NameSet};
use differ::number::{
    decimal, padded_decimal, parse_i64, parse_u32, signed_decimal, wide_decimal,
};
use differ::text::{
    byte_length, char_bytes, contains, contains_name, cut_to_bytes, join, lines, repeat_char,
    replace_char, split_lines, strip_prefix, tail_of_bytes, text_less, trim, trim_prefixes, white,
};
use differ::watch::{is_ignored_fs_path, should_ignore_fs_event, ChangeKind};

fn list(v: &[&str]) -> Vec<String> {
    v.iter().map(|s| s.to_string()).collect()
}

const SAMPLES: [&str; 9] =
    ["", "\n", "a", "a\n", "a\nb", "a\r\nb\r", "\n\n", "é\n日本", "x\n\ny\n"];

#[test]
fn lines_are_those_of_std() {
    for s in SAMPLES {
        assert_eq!(lines(s), s.lines().map(|l| l.to_string()).collect::<Vec<_>>());
        let split: Vec<String> = s.split('\n').map(|l| l.to_string()).collect();
        assert_eq!(split_lines(s), split);
        assert_eq!(join(&split, "\n"), s);
    }
}

#[test]
fn trimming_is_that_of_std() {
    for s in ["", "  ", " a ", "\t\u{a0}x\u{3000}\n", "a b", "\u{200b}z", "\u{85}q\u{2028}"] {
        assert_eq!(trim(s), s.trim());
    }
    for c in ['\u{9}', '\u{b}', '\u{1c}', '\u{20}', '\u{85}', '\u{a0}', '\u{1680}', '\u{180e}',
        '\u{2000}', '\u{200a}', '\u{200b}', '\u{202f}', '\u{205f}', '\u{3000}', 'a'] {
        assert_eq!(white(c), c.is_whitespace());
    }
}

#[test]
fn texts_are_searched() {
    assert!(contains("hello", "ell"));
    assert!(contains("hello", ""));
    assert!(!contains("hello", "elo"));
    assert!(contains_name(&list(&["a", "b"]), "b"));
    assert!(!contains_name(&list(&["a", "b"]), "c"));
    assert_eq!(strip_prefix("data: x", "data:"), Some(" x".to_string()));
    assert_eq!(strip_prefix("dat", "data:"), None);
    assert_eq!(trim_prefixes("@@@@x", "@@"), "x");
    assert_eq!(trim_prefixes("@x", "@@"), "@x");
}

#[test]
fn texts_are_ordered_as_by_std() {
    let all = ["", "a", "B", "ab", "b", "é", "日", "\u{ffff}", "\u{10000}"];
    for x in all {
        for y in all {
            assert_eq!(text_less(x, y), x < y);
        }
    }
}

#[test]
fn bytes_are_counted() {
    for s in ["", "abc", "é", "日本", "😀a"] {
        assert_eq!(byte_length(s), s.len());
    }
    assert_eq!(char_bytes('a'), 1);
    assert_eq!(char_bytes('é'), 2);
    assert_eq!(char_bytes('日'), 3);
    assert_eq!(char_bytes('😀'), 4);
    assert_eq!(cut_to_bytes("0123456789", 7), "0123456");
    assert_eq!(cut_to_bytes("ab", 7), "ab");
    assert_eq!(cut_to_bytes("aaé", 3), "aa");
    assert_eq!(tail_of_bytes("0123456789", 4), "6789");
    assert_eq!(tail_of_bytes("éaa", 3), "aa");
    assert_eq!(repeat_char('─', 3), "───");
    assert_eq!(replace_char("a\nb\n", '\n', ' '), "a b ");
}

#[test]
fn numbers_are_written_and_read() {
    assert_eq!(decimal(0), "0");
    assert_eq!(decimal(u64::MAX), u64::MAX.to_string());
    assert_eq!(wide_decimal(u128::MAX), u128::MAX.to_string());
    assert_eq!(padded_decimal(7, 4), format!("{:>4}", 7));
    assert_eq!(padded_decimal(12345, 4), "12345");
    for n in [0, 1, -1, i64::MIN, i64::MAX, 4207] {
        assert_eq!(signed_decimal(n), n.to_string());
        assert_eq!(parse_i64(&signed_decimal(n)), Some(n));
    }
    for s in ["", "+", "-", "+5", "-0", "12a", "0042", "4294967295", "4294967296", " 1",
        "9223372036854775807", "9223372036854775808", "-9223372036854775808",
        "-9223372036854775809", "٣"] {
        assert_eq!(parse_u32(s), s.parse::<u32>().ok());
        assert_eq!(parse_i64(s), s.parse::<i64>().ok());
    }
}

#[test]
fn names_are_kept() {
    let mut set = NameSet::new();
    assert!(set.insert("a"));
    assert!(!set.insert("a"));
    assert!(set.contains("a") && !set.contains("b"));
    set.remove("a");
    assert!(!set.contains("a"));

    let mut map: NameMap<usize> = NameMap::new();
    map.insert("a", 0);
    map.insert("b", 1);
    map.insert("c", 2);
    map.insert("b", 1);
    assert_eq!(map.get("b"), Some(&1));
    map.close_up(1);
    assert_eq!(map.get("a"), Some(&0));
    assert_eq!(map.get("b"), None);
    assert_eq!(map.get("c"), Some(&1));
    map.remove("a");
    assert!(!map.contains_key("a"));
    map.clear();
    assert!(!map.contains_key("c"));
}

#[test]
fn settings_have_defaults() {
    let c = Config::default();
    assert!(!c.side_by_side);
    assert_eq!(c.context_lines, 3);
    assert!(c.show_annotations);
    assert!(c.syntax_highlighting);
    assert_eq!(c.syntax_theme, None);
    assert_eq!(c.ai_target, AiTarget::Claude);
    assert_eq!(c.watch_ignore_paths, list(&[".git", "target", "_build", "deps"]));
    let c = c.with_overrides(Some(true), None);
    assert!(c.side_by_side);
    assert_eq!(c.context_lines, 3);
    let c = c.with_overrides(None, Some(8));
    assert!(c.side_by_side);
    assert_eq!(c.context_lines, 8);
    assert_eq!(Config::default_path(Some("/home/me")), "/home/me/.config/differ/config.toml");
}

#[test]
fn ignored_changes() {
    let ignore = list(&[".git", "target"]);
    assert!(is_ignored_fs_path(&list(&["/", "repo", ".git", "HEAD"]), &ignore));
    assert!(!is_ignored_fs_path(&list(&["/", "repo", ".gitignore"]), &ignore));
    assert!(!is_ignored_fs_path(&list(&[]), &ignore));

    let inside = list(&["repo", "target", "x"]);
    let outside = list(&["repo", "src", "x"]);
    let both = [inside.clone(), outside.clone()];
    assert!(should_ignore_fs_event(ChangeKind::Access, &both, &ignore));
    assert!(should_ignore_fs_event(ChangeKind::Metadata, &both, &ignore));
    assert!(!should_ignore_fs_event(ChangeKind::Other, &both, &ignore));
    assert!(should_ignore_fs_event(ChangeKind::Other, &[inside], &ignore));
    assert!(!should_ignore_fs_event(ChangeKind::Other, &[outside], &ignore));
    assert!(should_ignore_fs_event(ChangeKind::Other, &[], &ignore));
}
