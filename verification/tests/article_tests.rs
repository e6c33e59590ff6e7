use sitegen::article::{build_article, prepare_article};
use sitegen::frontmatter::Frontmatter;
use sitegen::git::{
    check_git_history, created_at_command, git_command_output, resolve_git_dates,
    updated_at_command, GitDates, GitError,
};
use sitegen::slug::UrlRegistry;

fn strs(v: &[&str]) -> Vec<String> {
    v.iter().map(|s| s.to_string()).collect()
}

fn fm(title: Option<&str>, slug: Option<&str>, draft: Option<bool>) -> Frontmatter {
    Frontmatter {
        title: title.map(|s| s.to_string()),
        tags: Some(strs(&["rust"])),
        draft,
        slug: slug.map(|s| s.to_string()),
        summary: Some("S".to_string()),
    }
}

#[test]
fn drafts_are_skipped() {
    let mut used = UrlRegistry::new();
    let plan = prepare_article(
        fm(Some("T"), None, Some(true)),
        strs(&["blog"]),
        Some("t.md"),
        "blog/t.md",
        &mut used,
    );
    assert!(plan.is_none());
    assert_eq!(used.len(), 0);
}

#[test]
fn sources_outside_sections_are_skipped() {
    let mut used = UrlRegistry::new();
    let plan = prepare_article(fm(Some("T"), None, None), Vec::new(), Some("t.md"), "t.md", &mut used);
    assert!(plan.is_none());
    assert_eq!(used.len(), 0);
}

#[test]
fn slug_comes_from_title_then_file_stem() {
    let mut used = UrlRegistry::new();
    let p = prepare_article(fm(Some("Hello World"), None, Some(false)), strs(&["研究ログ", "2026"]), Some("x.md"), "研究ログ\\2026\\x.md", &mut used).unwrap();
    assert_eq!(p.slug(), "hello-world");
    assert_eq!(p.source(), "研究ログ/2026/x.md");
    let q = prepare_article(Frontmatter::default(), strs(&["blog"]), Some("My Post.md"), "blog/My Post.md", &mut used).unwrap();
    assert_eq!(q.slug(), "my-post");
    let r = prepare_article(Frontmatter::default(), strs(&["blog"]), None, "blog", &mut used).unwrap();
    assert_eq!(r.slug(), "untitled");
}

#[test]
fn frontmatter_slug_wins_over_title() {
    let mut used = UrlRegistry::new();
    let p = prepare_article(fm(Some("Hello"), Some("Custom Slug"), None), strs(&["a"]), Some("x.md"), "a/x.md", &mut used).unwrap();
    assert_eq!(p.slug(), "custom-slug");
}

#[test]
fn repeated_titles_get_numbered_slugs() {
    let mut used = UrlRegistry::new();
    let a = prepare_article(fm(Some("Same"), None, None), strs(&["a"]), Some("1.md"), "a/1.md", &mut used).unwrap();
    let b = prepare_article(fm(Some("Same"), None, None), strs(&["a"]), Some("2.md"), "a/2.md", &mut used).unwrap();
    let c = prepare_article(fm(Some("Same"), None, None), strs(&["b"]), Some("3.md"), "b/3.md", &mut used).unwrap();
    assert_eq!(a.slug(), "same");
    assert_eq!(b.slug(), "same-2");
    assert_eq!(c.slug(), "same");
    assert_eq!(used.len(), 3);
}

fn dates(created: &str, updated: &str) -> GitDates {
    GitDates { created_at: created.to_string(), updated_at: updated.to_string() }
}

#[test]
fn built_article_has_url_dir_and_manifest_entry() {
    let mut used = UrlRegistry::new();
    let plan = prepare_article(fm(Some("Hello World"), None, None), strs(&["研究ログ", "2026"]), Some("x.md"), "研究ログ/2026/x.md", &mut used).unwrap();
    let built = build_article(plan, dates("2024-01-01T00:00:00+09:00", "2024-03-01T00:00:00+09:00"), "# Hi");
    assert_eq!(built.output_dir, strs(&["p-e5509974", "2026", "hello-world"]));
    let a = &built.article;
    assert_eq!(a.url, "/p-e5509974/2026/hello-world/");
    assert_eq!(a.title, "Hello World");
    assert_eq!(a.category, "研究ログ");
    assert_eq!(a.subcategory, strs(&["2026"]));
    assert_eq!(a.slug, "hello-world");
    assert_eq!(a.source, "研究ログ/2026/x.md");
    assert_eq!(a.tags, strs(&["rust"]));
    assert_eq!(a.summary.as_deref(), Some("S"));
    assert_eq!(a.created_at, "2024-01-01T00:00:00+09:00");
    assert_eq!(a.updated_at, "2024-03-01T00:00:00+09:00");
    assert!(built.html.contains("<div class=\"article-body\"><h1>Hi</h1>\n</div>"));
    assert!(built.html.contains("更新: 2024/03/01"));
    assert!(built.html.contains("<a href=\"/p-e5509974/2026/\">2026</a>"));
    assert!(built.html.contains("<a href=\"/p-e5509974/\">研究ログ</a>"));
}

#[test]
fn markdown_extensions_are_rendered() {
    let mut used = UrlRegistry::new();
    let plan = prepare_article(fm(Some("T"), None, None), strs(&["a"]), Some("x.md"), "a/x.md", &mut used).unwrap();
    let built = build_article(plan, dates("d", "d"), "~~gone~~\n\n- [x] done\n\n| a |\n|---|\n| 1 |\n");
    assert!(built.html.contains("<del>gone</del>"));
    assert!(built.html.contains("checkbox"));
    assert!(built.html.contains("<table>"));
    assert!(!built.html.contains("更新"));
}

#[test]
fn git_output_is_decoded_and_trimmed() {
    let out = git_command_output(true, b"  2024-01-02T03:04:05+09:00\n", b"");
    assert_eq!(out.unwrap(), "2024-01-02T03:04:05+09:00");
    let lossy = git_command_output(true, &[0x61, 0xff, 0x62], b"");
    assert_eq!(lossy.unwrap(), "a\u{fffd}b");
}

#[test]
fn failed_git_command_reports_stderr() {
    match git_command_output(false, b"ignored", b"fatal: bad\n") {
        Err(GitError::CommandFailed(msg)) => assert_eq!(msg, "fatal: bad"),
        _ => panic!("expected a failure"),
    }
}

#[test]
fn git_commands_have_the_expected_arguments() {
    assert_eq!(updated_at_command("a/b.md"), strs(&["log", "-1", "--format=%cI", "--", "a/b.md"]));
    assert_eq!(
        created_at_command("a/b.md"),
        strs(&["log", "--diff-filter=A", "--follow", "--format=%cI", "--", "a/b.md"])
    );
}

#[test]
fn source_without_history_is_refused() {
    assert!(matches!(check_git_history("a.md", ""), Err(GitError::NoHistory(s)) if s == "a.md"));
    assert!(check_git_history("a.md", "2024").is_ok());
}

#[test]
fn creation_date_is_oldest_entry_or_update() {
    let d = resolve_git_dates("2024-03-01".to_string(), "2024-02-01\n2024-01-01");
    assert_eq!(d.created_at, "2024-01-01");
    assert_eq!(d.updated_at, "2024-03-01");
    let e = resolve_git_dates("2024-03-01".to_string(), "");
    assert_eq!(e.created_at, "2024-03-01");
}
