use sitegen::slug::{ensure_unique_article_slug, short_hash_of, slugify, UrlRegistry};

fn strs(v: &[&str]) -> Vec<String> {
    v.iter().map(|s| s.to_string()).collect()
}

fn url_safe(s: &str) -> bool {
    !s.is_empty()
        && s.chars().all(|c| c.is_ascii_lowercase() || c.is_ascii_digit() || c == '-')
        && !s.starts_with('-')
        && !s.ends_with('-')
        && !s.contains("--")
}

#[test]
fn slugify_lowercases_and_joins_words() {
    assert_eq!(slugify("Hello World"), "hello-world");
    assert_eq!(slugify("  Rust -- Verus\tproofs  "), "rust-verus-proofs");
}

#[test]
fn slugify_normalizes_full_width_characters() {
    assert_eq!(slugify("Ｈｅｌｌｏ　Ｗｏｒｌｄ"), "hello-world");
}

#[test]
fn slugify_drops_other_characters() {
    assert_eq!(slugify("AIの指示に100%従うチャレンジ"), "ai100");
    assert_eq!(slugify("C++ & Rust!"), "c-rust");
}

#[test]
fn slugify_falls_back_to_hash() {
    assert_eq!(slugify("日本語"), "p-c12140a0");
    assert_eq!(slugify("研究ログ"), "p-e5509974");
    assert_eq!(slugify("---"), "p-58b63e27");
    assert_eq!(slugify(""), "p-da39a3ee");
}

#[test]
fn short_hash_is_sha1_prefix() {
    assert_eq!(short_hash_of("!!!"), "9a7b006d");
}

#[test]
fn slugs_are_url_safe() {
    for input in ["Hello World", " -a- ", "日本語", "x  y", "A--B", "2026", "ＡＢＣ－１２３", "-"] {
        let s = slugify(input);
        assert!(url_safe(&s), "{input:?} gave {s:?}");
    }
}

#[test]
fn registry_records_urls_once() {
    let mut r = UrlRegistry::new();
    assert_eq!(r.len(), 0);
    assert!(r.insert("a/b".to_string()));
    assert!(!r.insert("a/b".to_string()));
    assert!(r.contains(&"a/b".to_string()));
    assert!(!r.contains(&"a".to_string()));
    assert_eq!(r.len(), 1);
}

#[test]
fn unique_slug_counts_up() {
    let mut used = UrlRegistry::new();
    let sections = strs(&["research", "2026"]);
    assert_eq!(ensure_unique_article_slug("post", &sections, &mut used), "post");
    assert_eq!(ensure_unique_article_slug("post", &sections, &mut used), "post-2");
    assert_eq!(ensure_unique_article_slug("post", &sections, &mut used), "post-3");
    assert!(used.contains(&"research/2026/post".to_string()));
    assert!(used.contains(&"research/2026/post-2".to_string()));
    assert!(used.contains(&"research/2026/post-3".to_string()));
    assert_eq!(used.len(), 3);
}

#[test]
fn unique_slug_depends_on_sections() {
    let mut used = UrlRegistry::new();
    assert_eq!(ensure_unique_article_slug("post", &strs(&["a"]), &mut used), "post");
    assert_eq!(ensure_unique_article_slug("post", &strs(&["b"]), &mut used), "post");
    assert_eq!(ensure_unique_article_slug("post", &strs(&[]), &mut used), "post");
    assert!(used.contains(&"post".to_string()));
}

#[test]
fn unique_slug_skips_taken_numbers() {
    let mut used = UrlRegistry::new();
    used.insert("s/x".to_string());
    used.insert("s/x-2".to_string());
    used.insert("s/x-3".to_string());
    assert_eq!(ensure_unique_article_slug("x", &strs(&["s"]), &mut used), "x-4");
}

#[test]
fn unique_slug_uses_decimal_numbers() {
    let mut used = UrlRegistry::new();
    for _ in 0..11 {
        ensure_unique_article_slug("n", &strs(&["s"]), &mut used);
    }
    assert_eq!(ensure_unique_article_slug("n", &strs(&["s"]), &mut used), "n-12");
}
