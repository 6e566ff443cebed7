use markdownfs::pattern::{compile, glob_match, glob_to_regex};
use markdownfs::repl::format_long_time;
use markdownfs::text::{strip_prefix, utf8_lossy_string};

#[test]
fn globs_and_regexes() {
    assert!(glob_match("*.md", "notes.md"));
    assert!(!glob_match("*.md", "notes.txt"));
    assert!(glob_match("a?c.md", "abc.md"));
    assert_eq!(glob_to_regex("*.md"), "^.*\\.md$");
    let p = compile("TO+DO").unwrap();
    assert!(p.is_match("a TOODO b"));
    assert!(!p.is_match("todo"));
    assert!(compile("(").is_err());
}

#[test]
fn times_and_text() {
    assert_eq!(format_long_time(0), "1970-01-01 00:00:00");
    assert_eq!(format_long_time(86_400 + 3_661), "1970-01-02 01:01:01");
    assert_eq!(utf8_lossy_string(&[0x68, 0x69]), "hi");
    assert_eq!(utf8_lossy_string(&[0xff]), "\u{fffd}");
    assert_eq!(strip_prefix("Bearer abc", "Bearer "), Some("abc".to_string()));
    assert_eq!(strip_prefix("User x", "Bearer "), None);
}
