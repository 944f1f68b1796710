use mdsite::html::{render_page, title_from_path, title_from_stem};

#[test]
fn page_contains_source_link_and_css() {
    let html = render_page("Hello", "<p>Hi</p>", "../style.css", "hello.md");
    assert!(html.contains("href=\"../style.css\""));
    assert!(html.contains("Markdown source"));
    assert!(html.contains("href=\"hello.md\""));
    assert!(html.contains("<main>"));
    assert!(html.contains("<p>Hi</p>"));
}

#[test]
fn title_from_nested_path() {
    assert_eq!(title_from_path("docs/my-page.md"), "my page");
}

#[test]
fn page_title_is_escaped() {
    let html = render_page("A <b> & \"c\"", "", "style.css", "a.md");
    assert!(html.contains("<title>A &lt;b&gt; &amp; &quot;c&quot;</title>"));
    assert!(html.starts_with("<!DOCTYPE html>\n<html lang=\"en\">\n"));
    assert!(html.ends_with("\n</main>\n</body>\n</html>\n"));
}

#[test]
fn title_defaults_and_underscores() {
    assert_eq!(title_from_stem(None), "page");
    assert_eq!(title_from_stem(Some("project_notes-v2")), "project notes v2");
    assert_eq!(title_from_path("/"), "page");
}

#[test]
fn title_uses_the_file_stem() {
    assert_eq!(title_from_path("x/archive.tar.gz"), "archive.tar");
    assert_eq!(title_from_path("notes/.hidden"), ".hidden");
    assert_eq!(title_from_path("a/.."), "page");
}

#[test]
fn title_skips_trailing_components() {
    assert_eq!(title_from_path("docs/"), "docs");
    assert_eq!(title_from_path("notes/a_b/."), "a b");
    assert_eq!(title_from_path("."), "page");
}
