use sitegen::archive::render_archive_html;
use sitegen::article::ManifestArticle;
use sitegen::html::render_document_html;

fn article(title: &str, url: &str, created: &str, updated: &str, tags: &[&str]) -> ManifestArticle {
    ManifestArticle {
        title: title.to_string(),
        tags: tags.iter().map(|s| s.to_string()).collect(),
        summary: None,
        source: String::new(),
        url: url.to_string(),
        category: String::new(),
        subcategory: Vec::new(),
        slug: String::new(),
        created_at: created.to_string(),
        updated_at: updated.to_string(),
    }
}

fn archive(list: &str) -> String {
    render_document_html(
        "Archive",
        &format!("<main><section class=\"archive-section\"><h1 class=\"archive-title\">Archive</h1>{list}</section></main>"),
    )
}

#[test]
fn empty_archive_says_so() {
    assert_eq!(
        render_archive_html(&Vec::new()),
        archive("<p class=\"archive-empty\">No articles yet.</p>")
    );
}

#[test]
fn archive_lists_newest_first() {
    let articles = vec![
        article("Old", "/a/old/", "2023-01-01", "2023-01-01", &[]),
        article("New", "/a/new/", "2024-06-01", "2024-07-01", &["t"]),
        article("Mid", "/a/mid/", "2023-09-01", "2023-09-01", &[]),
    ];
    let html = render_archive_html(&articles);
    let new = html.find("New").unwrap();
    let mid = html.find("Mid").unwrap();
    let old = html.find("Old").unwrap();
    assert!(new < mid && mid < old);
}

#[test]
fn archive_item_markup() {
    let articles = vec![article("A&B", "/x/a/", "2024-06-01T00:00:00Z", "2024-07-01T00:00:00Z", &["t"])];
    let item = "<li class=\"archive-item\"><div><a class=\"archive-link\" href=\"/x/a/\">A&amp;B</a><div class=\"article-tags\"><span class=\"tag-chip\">t</span></div></div><div class=\"archive-date\"><time datetime=\"2024-06-01T00:00:00Z\">作成: 2024/06/01</time> / <time datetime=\"2024-07-01T00:00:00Z\">更新: 2024/07/01</time></div></li>";
    assert_eq!(
        render_archive_html(&articles),
        archive(&format!("<ul class=\"archive-list\">{item}</ul>"))
    );
}

#[test]
fn archive_keeps_build_order_for_equal_dates() {
    let articles = vec![
        article("First", "/1/", "2024-01-01", "2024-01-01", &[]),
        article("Second", "/2/", "2024-01-01", "2024-01-01", &[]),
        article("Newer", "/3/", "2024-02-01", "2024-02-01", &[]),
    ];
    let html = render_archive_html(&articles);
    let first = html.find("First").unwrap();
    let second = html.find("Second").unwrap();
    let newer = html.find("Newer").unwrap();
    assert!(newer < first && first < second);
}
