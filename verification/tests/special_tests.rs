use sitegen::html::render_document_html;
use sitegen::special::{is_special_page, render_special_page, SpecialPageError, SpecialTarget};

#[test]
fn home_page_becomes_site_index() {
    let page = render_special_page("home.html", Some("home.html"), "<main>hi</main>").unwrap();
    assert_eq!(page.target, SpecialTarget::SiteIndex);
    assert_eq!(page.title, "Home");
    assert_eq!(page.html, render_document_html("Home", "<main>hi</main>"));
}

#[test]
fn home_page_name_ignores_ascii_case() {
    let page = render_special_page("HOME.html", Some("HOME.html"), "x").unwrap();
    assert_eq!(page.target, SpecialTarget::SiteIndex);
    assert_eq!(page.title, "Home");
}

#[test]
fn other_pages_keep_their_path_and_stem_title() {
    let page = render_special_page("sub\\404.html", Some("404.html"), "<p>Not Found</p>").unwrap();
    assert_eq!(page.target, SpecialTarget::SamePath);
    assert_eq!(page.title, "404");
    assert_eq!(page.html, render_document_html("404", "<p>Not Found</p>"));
}

#[test]
fn full_documents_are_refused() {
    match render_special_page("sub\\x.html", Some("x.html"), "<!DOCTYPE html><html></html>") {
        Err(SpecialPageError::FullDocument(p)) => assert_eq!(p, "sub/x.html"),
        _ => panic!("expected a refusal"),
    }
}

#[test]
fn only_html_files_are_pages() {
    assert!(is_special_page(Some("home.html")));
    assert!(is_special_page(Some("a.HTML")));
    assert!(!is_special_page(Some("style.css")));
    assert!(!is_special_page(Some(".html")));
    assert!(!is_special_page(None));
}
