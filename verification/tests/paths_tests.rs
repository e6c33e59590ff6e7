use sitegen::paths::{is_markdown_source, order_sources, split_file_name, stem_of};

fn path(v: &[&str]) -> Vec<String> {
    v.iter().map(|s| s.to_string()).collect()
}

#[test]
fn file_names_split_like_path() {
    assert_eq!(split_file_name("a.b.md"), ("a.b".to_string(), Some("md".to_string())));
    assert_eq!(split_file_name("README"), ("README".to_string(), None));
    assert_eq!(split_file_name(".hidden"), (".hidden".to_string(), None));
    assert_eq!(split_file_name("x."), ("x".to_string(), Some(String::new())));
    assert_eq!(split_file_name(".."), ("..".to_string(), None));
    assert_eq!(stem_of(Some("post.md")), Some("post".to_string()));
    assert_eq!(stem_of(None), None);
}

#[test]
fn stems_agree_with_std_path() {
    for name in ["a.b.md", "README", ".hidden", "x.", "..a", "a..b"] {
        let p = std::path::Path::new(name);
        let (stem, ext) = split_file_name(name);
        assert_eq!(Some(stem.as_str()), p.file_stem().and_then(|s| s.to_str()), "{name}");
        assert_eq!(ext.as_deref(), p.extension().and_then(|s| s.to_str()), "{name}");
    }
}

#[test]
fn markdown_sources_by_extension() {
    assert!(is_markdown_source(Some("post.md")));
    assert!(is_markdown_source(Some("POST.MD")));
    assert!(!is_markdown_source(Some("post.markdown")));
    assert!(!is_markdown_source(Some(".md")));
    assert!(!is_markdown_source(None));
}

#[test]
fn sources_are_ordered_like_paths() {
    let paths = vec![
        path(&["Pages", "b", "x.md"]),
        path(&["Pages", "a-c", "x.md"]),
        path(&["Pages", "a", "z.md"]),
        path(&["Pages", "a", "b", "y.md"]),
    ];
    let order = order_sources(&paths);
    assert_eq!(order, vec![3, 2, 1, 0]);
    let mut std_sorted: Vec<std::path::PathBuf> =
        paths.iter().map(|p| p.iter().collect()).collect();
    std_sorted.sort();
    let ours: Vec<std::path::PathBuf> = order.iter().map(|&i| paths[i].iter().collect()).collect();
    assert_eq!(ours, std_sorted);
}
