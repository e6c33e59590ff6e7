use sitegen::frontmatter::{lines_of, split_frontmatter, FrontmatterError};
use sitegen::text::{join_strings, replace_char_in, trim_text};

#[test]
fn trim_removes_unicode_white_space() {
    assert_eq!(trim_text("  \t\n abc \u{3000}\r\n"), "abc");
    assert_eq!(trim_text("\u{00a0}x y\u{2003}"), "x y");
    assert_eq!(trim_text("   "), "");
}

#[test]
fn lines_split_like_str_lines() {
    let input = "a\r\nb\n\nc\r";
    let expected: Vec<String> = input.lines().map(|l| l.to_string()).collect();
    assert_eq!(lines_of(input), expected);
    assert_eq!(lines_of("x\n"), vec!["x".to_string()]);
    assert!(lines_of("").is_empty());
}

#[test]
fn join_puts_separator_between_parts() {
    let parts = vec!["a".to_string(), "b".to_string(), "c".to_string()];
    assert_eq!(join_strings(&parts, "/"), "a/b/c");
    assert_eq!(join_strings(&Vec::new(), "/"), "");
}

#[test]
fn replace_backslashes() {
    assert_eq!(replace_char_in("a\\b\\c.md", '\\', '/'), "a/b/c.md");
}

#[test]
fn source_without_frontmatter_is_all_body() {
    let raw = "# Title\n\nText\n";
    let split = split_frontmatter(raw).unwrap();
    assert!(split.yaml.is_none());
    assert_eq!(split.body, raw);
}

#[test]
fn frontmatter_and_body_are_split() {
    let raw = "---\ntitle: Hello\ntags: [a, b]\n---\n# Body\n\nmore\n";
    let split = split_frontmatter(raw).unwrap();
    assert_eq!(split.yaml.as_deref(), Some("title: Hello\ntags: [a, b]"));
    assert_eq!(split.body, "# Body\n\nmore");
}

#[test]
fn frontmatter_delimiters_may_end_with_cr() {
    let raw = "---\r\ntitle: X\r\n---\r\nbody\r\n";
    let split = split_frontmatter(raw).unwrap();
    assert_eq!(split.yaml.as_deref(), Some("title: X"));
    assert_eq!(split.body, "body");
}

#[test]
fn frontmatter_without_body() {
    let split = split_frontmatter("---\ntitle: X\n---").unwrap();
    assert_eq!(split.yaml.as_deref(), Some("title: X"));
    assert_eq!(split.body, "");
}

#[test]
fn unclosed_frontmatter_is_an_error() {
    assert!(matches!(
        split_frontmatter("---\ntitle: X\nbody"),
        Err(FrontmatterError::Unclosed)
    ));
}

#[test]
fn empty_source_has_no_frontmatter() {
    let split = split_frontmatter("").unwrap();
    assert!(split.yaml.is_none());
    assert_eq!(split.body, "");
}
