use flatai::basename_of;
use flatai::extension_of;
use flatai::matches_rule;
use flatai::split_lines;
use flatai::uses_buffered_read;
use flatai::SelectionRule;

#[test]
fn buffered_read_boundary() {
    assert!(!uses_buffered_read(999999));
    assert!(uses_buffered_read(1000000));
    assert!(!uses_buffered_read(0));
    assert!(uses_buffered_read(u64::MAX));
}

#[test]
fn split_lines_single_line_no_terminator() {
    assert_eq!(split_lines("fn main() {}"), vec!["fn main() {}".to_string()]);
}

#[test]
fn split_lines_trailing_terminator_adds_no_line() {
    assert_eq!(split_lines("a\nb\n"), vec!["a".to_string(), "b".to_string()]);
    assert_eq!(split_lines("a\nb"), vec!["a".to_string(), "b".to_string()]);
}

#[test]
fn split_lines_empty_and_blank() {
    assert_eq!(split_lines(""), Vec::<String>::new());
    assert_eq!(split_lines("\n"), vec!["".to_string()]);
    assert_eq!(split_lines("\n\n"), vec!["".to_string(), "".to_string()]);
}

#[test]
fn split_lines_strips_carriage_return_before_line_feed() {
    assert_eq!(split_lines("a\r\nb"), vec!["a".to_string(), "b".to_string()]);
    assert_eq!(split_lines("\r\n"), vec!["".to_string()]);
}

#[test]
fn split_lines_keeps_lone_carriage_return() {
    assert_eq!(split_lines("a\rb"), vec!["a\rb".to_string()]);
    assert_eq!(split_lines("a\r"), vec!["a\r".to_string()]);
}

#[test]
fn basename_takes_last_component() {
    assert_eq!(basename_of("src/main.rs"), "main.rs".to_string());
    assert_eq!(basename_of("a/b/c.txt"), "c.txt".to_string());
    assert_eq!(basename_of("plain"), "plain".to_string());
    assert_eq!(basename_of("dir/"), "".to_string());
}

#[test]
fn extension_takes_last_dot_of_basename() {
    assert_eq!(extension_of("src/main.rs"), Some("rs".to_string()));
    assert_eq!(extension_of("a/b.tar.gz"), Some("gz".to_string()));
    assert_eq!(extension_of("Makefile"), None);
    assert_eq!(extension_of(".gitignore"), None);
    assert_eq!(extension_of("dir.d/plain"), None);
}

#[test]
fn matching_uses_extension_or_basename() {
    let rule = SelectionRule {
        extensions: vec!["rs".to_string()],
        names: vec!["Cargo.toml".to_string()],
    };
    assert!(matches_rule("src/main.rs", &rule));
    assert!(matches_rule("proj/Cargo.toml", &rule));
    assert!(!matches_rule("src/main.js", &rule));
    assert!(!matches_rule("other.toml", &rule));
}

#[test]
fn file_without_extension_never_matches_extension_branch() {
    let rule = SelectionRule { extensions: vec!["".to_string()], names: vec![] };
    assert!(!matches_rule("src/noext", &rule));
}
