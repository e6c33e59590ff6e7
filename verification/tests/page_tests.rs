use sitegen::html::render_document_html;
use sitegen::page::{render_article_html, render_breadcrumbs};

fn strs(v: &[&str]) -> Vec<String> {
    v.iter().map(|s| s.to_string()).collect()
}

#[test]
fn breadcrumbs_link_each_section() {
    let html = render_breadcrumbs(&strs(&["研究ログ", "2026"]), &strs(&["research", "2026"]), "T&C");
    assert_eq!(
        html,
        "<nav class=\"breadcrumbs\" aria-label=\"breadcrumb\"><a href=\"/\">Home</a> &gt; <a href=\"/research/\">研究ログ</a> &gt; <a href=\"/research/2026/\">2026</a> &gt; <span class=\"breadcrumb-current\">T&amp;C</span></nav>"
    );
}

#[test]
fn breadcrumbs_without_sections() {
    let html = render_breadcrumbs(&Vec::new(), &Vec::new(), "Title");
    assert_eq!(
        html,
        "<nav class=\"breadcrumbs\" aria-label=\"breadcrumb\"><a href=\"/\">Home</a> &gt; <span class=\"breadcrumb-current\">Title</span></nav>"
    );
}

#[test]
fn breadcrumbs_stop_at_the_shorter_list() {
    let html = render_breadcrumbs(&strs(&["A", "B"]), &strs(&["a"]), "t");
    assert_eq!(
        html,
        "<nav class=\"breadcrumbs\" aria-label=\"breadcrumb\"><a href=\"/\">Home</a> &gt; <a href=\"/a/\">A</a> &gt; <span class=\"breadcrumb-current\">t</span></nav>"
    );
}

#[test]
fn article_page_with_everything() {
    let html = render_article_html(
        "Hello",
        Some("Sum"),
        &strs(&["a", "b<"]),
        "2024-01-02T03:04:05+09:00",
        Some("2024-02-03T00:00:00+09:00"),
        "<nav/>",
        "<p>b</p>",
    );
    let content = "<main><article class=\"article-card\"><nav/><h1 class=\"article-title\">Hello</h1><div class=\"article-meta\"><p class=\"article-dates\"><time datetime=\"2024-01-02T03:04:05+09:00\">作成: 2024/01/02</time> / <time datetime=\"2024-02-03T00:00:00+09:00\">更新: 2024/02/03</time></p><div class=\"article-tags\"><span class=\"tag-chip\">a</span><span class=\"tag-chip\">b&lt;</span></div></div><p class=\"article-summary\">Sum</p><div class=\"article-body\"><p>b</p></div></article></main>";
    assert_eq!(html, render_document_html("Hello", content));
}

#[test]
fn article_page_without_optional_parts() {
    let html = render_article_html("T", None, &Vec::new(), "2024-01-02", None, "", "");
    let content = "<main><article class=\"article-card\"><h1 class=\"article-title\">T</h1><div class=\"article-meta\"><p class=\"article-dates\"><time datetime=\"2024-01-02\">作成: 2024/01/02</time></p></div><div class=\"article-body\"></div></article></main>";
    assert_eq!(html, render_document_html("T", content));
}
