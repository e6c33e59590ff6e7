use sitegen::html::{escape_html, is_full_html_document, render_document_html, to_display_date};

fn page(title: &str, body: &str) -> String {
    format!(
        "<!doctype html><html lang=\"ja\"><head><meta charset=\"utf-8\"><meta name=\"viewport\" content=\"width=device-width, initial-scale=1\"><title>{title}</title><link rel=\"stylesheet\" href=\"/base.css\"></head><body><header class=\"site-header\"><a class=\"site-brand\" href=\"/\">Blog</a><nav class=\"site-nav\"><a class=\"site-nav-link\" href=\"/\">Home</a><a class=\"site-nav-link\" href=\"/archive/\">Archive</a></nav></header><div class=\"content-container\">{body}</div><footer class=\"site-footer\"><small>&copy; Blog</small></footer></body></html>"
    )
}

#[test]
fn escape_html_escapes_each_special_character() {
    assert_eq!(
        escape_html("a & b < c > d \" e ' f"),
        "a &amp; b &lt; c &gt; d &quot; e &#39; f"
    );
}

#[test]
fn escape_html_does_not_escape_twice_over() {
    assert_eq!(escape_html("&lt;"), "&amp;lt;");
    assert_eq!(escape_html("日本語"), "日本語");
    assert_eq!(escape_html(""), "");
}

#[test]
fn escaped_text_has_no_markup_characters() {
    let escaped = escape_html("<script>alert('x')</script>");
    assert!(!escaped.contains('<'));
    assert!(!escaped.contains('>'));
    assert!(!escaped.contains('\''));
    assert_eq!(escaped, "&lt;script&gt;alert(&#39;x&#39;)&lt;/script&gt;");
}

#[test]
fn escape_html_is_injective_on_examples() {
    assert_ne!(escape_html("&amp;"), escape_html("&"));
    assert_ne!(escape_html("<"), escape_html("&lt;"));
}

#[test]
fn display_date_of_iso_timestamp() {
    assert_eq!(to_display_date("2024-05-01T10:00:00+09:00"), "2024/05/01");
}

#[test]
fn display_date_without_time_part() {
    assert_eq!(to_display_date("2024-05-01"), "2024/05/01");
    assert_eq!(to_display_date(""), "");
    assert_eq!(to_display_date("T12:00"), "");
}

#[test]
fn display_date_has_no_dash() {
    let d = to_display_date("1999-12-31T23:59:59-05:00");
    assert_eq!(d, "1999/12/31");
    assert!(!d.contains('-'));
    assert!(!d.contains('T'));
}

#[test]
fn full_html_documents_are_recognized_in_any_case() {
    assert!(is_full_html_document("<!DOCTYPE html><p>x</p>"));
    assert!(is_full_html_document("  <HTML lang=\"en\">"));
    assert!(is_full_html_document("<!doctype html>"));
}

#[test]
fn fragments_are_not_full_documents() {
    assert!(!is_full_html_document("<main><p>hi</p></main>"));
    assert!(!is_full_html_document("<htm"));
    assert!(!is_full_html_document(""));
}

#[test]
fn document_wraps_content_and_escapes_title() {
    assert_eq!(
        render_document_html("A<B", "<p>x</p>"),
        page("A&lt;B", "<p>x</p>")
    );
}

#[test]
fn document_keeps_content_verbatim() {
    let body = "<b>&amp; '</b>";
    let html = render_document_html("t", body);
    assert!(html.contains(body));
    assert!(html.starts_with("<!doctype html>"));
    assert!(html.ends_with("</body></html>"));
}
