use mdsite::walk::is_markdown_extension;

#[test]
fn markdown_extension_ignores_ascii_case() {
    assert!(is_markdown_extension(Some("md")));
    assert!(is_markdown_extension(Some("MD")));
    assert!(!is_markdown_extension(Some("markdown")));
    assert!(!is_markdown_extension(None));
}
