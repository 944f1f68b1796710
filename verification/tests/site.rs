use chrono::TimeZone;
use mdsite::frontmatter::parse;
use mdsite::site::{
    config_from_values, directory_pages, footer_html, llms_full_txt, llms_txt, markdown_pages,
    directory_page_html, missing_config, page_metadata, page_output, sorted_paths, page_source, page_url, read_config, relative_asset_href,
    relative_css_href, robots_txt, rss_xml, sitemap_xml, SourcePage,
};
use mdsite::time::Timestamp;
use mdsite::Error;
use std::path::PathBuf;

fn at(y: i32, mo: u32, d: u32, h: u32, mi: u32, s: u32) -> Timestamp {
    let t = chrono::Utc.with_ymd_and_hms(y, mo, d, h, mi, s).unwrap();
    Timestamp {
        secs: t.timestamp(),
        nanos: 0,
    }
}

fn message(e: Error) -> String {
    match e {
        Error::Other(m) => m,
        other => panic!("unexpected {other:?}"),
    }
}

fn source(path: &str, markdown: &str) -> SourcePage {
    SourcePage {
        path: path.to_string(),
        metadata: page_metadata(markdown),
    }
}

fn strings(v: &[&str]) -> Vec<String> {
    v.iter().map(|s| s.to_string()).collect()
}

#[test]
fn config_domain_is_normalized_and_flags_default_on() {
    let c = read_config("in/mdsite.toml", "[default]\ndomain = \"example.com/\"\n\n[llms]\nprefix = \"# Documentation\"\n").unwrap();
    assert_eq!(c.domain, "https://example.com");
    assert_eq!(c.llms_prefix.as_deref(), Some("# Documentation"));
    assert!(c.generate_sitemap && c.generate_llms && c.generate_rss && c.generate_robots);

    let c = read_config(
        "in/mdsite.toml",
        "[default]\ndomain = \" http://example.org// \"\ngenerate_sitemap = false\ngenerate_llms = false\ngenerate_rss = false\n",
    )
    .unwrap();
    assert_eq!(c.domain, "http://example.org");
    assert!(!c.generate_sitemap && !c.generate_llms && !c.generate_rss && c.generate_robots);
    assert_eq!(c.llms_prefix, None);
}

#[test]
fn config_errors_name_the_file() {
    let e = read_config("in/mdsite.toml", "[default]\ndomain = \"  \"\n").unwrap_err();
    assert_eq!(message(e), "in/mdsite.toml must define a non-empty [default].domain");
    let e = read_config("in/mdsite.toml", "[llms]\nprefix = \"x\"\n").unwrap_err();
    assert_eq!(message(e), "in/mdsite.toml must define a non-empty [default].domain");
    let e = read_config("in/mdsite.toml", "[default\n").unwrap_err();
    assert!(message(e).starts_with("parse in/mdsite.toml: "));
    let e = missing_config("in/mdsite.toml");
    assert!(message(e).contains("missing required site configuration"));
    let e = config_from_values("c.toml", Some("a.b"), None, Some(false), None, None, None).unwrap();
    assert_eq!(e.domain, "https://a.b");
    assert!(!e.generate_sitemap);
}

#[test]
fn robots_follows_configuration() {
    let c = read_config("c", "[default]\ndomain = \"example.com\"\n").unwrap();
    assert_eq!(
        robots_txt(&c, false).unwrap(),
        "User-agent: *\nAllow: /\n\nSitemap: https://example.com/sitemap.xml\n"
    );
    assert_eq!(robots_txt(&c, true), None);
    let c = read_config("c", "[default]\ndomain = \"example.com\"\ngenerate_sitemap = false\n").unwrap();
    assert_eq!(robots_txt(&c, false).unwrap(), "User-agent: *\nAllow: /\n");
    let c = read_config("c", "[default]\ndomain = \"example.com\"\ngenerate_robots = false\n").unwrap();
    assert_eq!(robots_txt(&c, false), None);
}

#[test]
fn page_addresses_and_sources() {
    assert_eq!(page_url("https://example.com", "index.html"), "https://example.com");
    assert_eq!(page_url("https://example.com", "guides/a.html"), "https://example.com/guides/a.html");
    assert_eq!(relative_css_href("index.html"), "style.css");
    assert_eq!(relative_css_href("nested/page.html"), "../style.css");
    assert_eq!(relative_asset_href("a/b/c.html", "rss.xml"), "../../rss.xml");
    let parsed = parse("---\ntitle: Getting started\n---\nThis is the guide.\n");
    assert_eq!(
        page_source(parsed.title.as_deref(), parsed.markdown),
        "# Getting started\n\nThis is the guide.\n"
    );
    assert_eq!(page_source(None, "Questions.\n"), "Questions.\n");
}

#[test]
fn footer_is_inline_html() {
    assert_eq!(footer_html("Made with *care*.").as_deref(), Some("Made with <em>care</em>."));
    assert_eq!(footer_html("# Heading"), None);
    assert_eq!(footer_html(""), None);
}

#[test]
fn folders_get_listing_pages() {
    let files = strings(&["custom.md", "custom/item.md", "project_notes/faq.md", "project_notes/guide.md"]);
    let pages = directory_pages(&files);
    assert_eq!(pages.len(), 1);
    let p = &pages[0];
    assert_eq!(p.directory, "project_notes");
    assert_eq!(p.title, "project notes");
    assert_eq!(
        p.markdown,
        "# project notes\n\n- [faq](project_notes/faq.html)\n\n- [guide](project_notes/guide.html)\n"
    );
    assert_eq!(p.html_path, "project_notes.html");
    assert_eq!(p.md_path, "project_notes.md");
    assert!(p.remove_legacy_index);

    let files = strings(&["a/b/c.md", "a/d.md", "a/index.md", "index.md"]);
    let pages = directory_pages(&files);
    let dirs: Vec<&str> = pages.iter().map(|p| p.directory.as_str()).collect();
    assert_eq!(dirs, vec!["a", "a/b"]);
    assert!(!pages[0].remove_legacy_index);
    assert_eq!(pages[1].markdown, "# b\n\n- [c](a/b/c.html)\n");
    assert_eq!(pages[1].html_path, "a/b.html");
}

#[test]
fn pages_are_sorted_like_paths() {
    let sources = vec![source("a.md", ""), source("a-b.md", ""), source("a/b.md", "")];
    let pages = markdown_pages(&sources, &strings(&["a.md", "z.md"]));
    let mut expected: Vec<PathBuf> = ["a.md", "a-b.md", "a/b.md", "z.md"].iter().map(PathBuf::from).collect();
    expected.sort();
    let expected: Vec<String> = expected.iter().map(|p| p.to_string_lossy().into_owned()).collect();
    assert_eq!(pages, expected);
    assert_eq!(pages, vec!["a/b.md", "a-b.md", "a.md", "z.md"]);
}

fn site_sources() -> Vec<SourcePage> {
    vec![
        source("guides/hidden.md", "---\ntitle: Hidden\npublish_date: 2026-02-03\ninclude_in_rss: false\n---\nHidden page.\n"),
        source("guides/start.md", "---\ntitle: Start\ndescription: Get started\nlanguage: nl\nlast_updated_at: 2026-03-04T20:31:00+02:00\ninclude_in_sitemap: false\n---\nGet started.\n"),
        source("index.md", "---\ntitle: Home\ndescription: Home page\nlanguage: en\npublish_date: 2026-01-02T20:31\n---\nWelcome home.\n"),
    ]
}

#[test]
fn sitemap_lists_pages_with_dates() {
    let sources = site_sources();
    let pages = markdown_pages(&sources, &strings(&["guides.md"]));
    let date = at(2026, 9, 4, 20, 31, 0);
    let sitemap = sitemap_xml("https://example.com", &pages, &sources, date);
    assert!(sitemap.starts_with("<?xml version=\"1.0\" encoding=\"UTF-8\"?>\n<urlset xmlns=\"http://sitemaps.org\">\n"));
    assert!(sitemap.contains("<loc>https://example.com</loc>"));
    assert!(sitemap.contains("<loc>https://example.com/guides.html</loc>"));
    assert!(sitemap.contains("<loc>https://example.com/guides/hidden.html</loc>"));
    assert!(!sitemap.contains("https://example.com/guides/start.html"));
    assert!(sitemap.contains("<lastmod>2026-01-02T20:31:00Z</lastmod>"));
    assert!(sitemap.contains("<lastmod>2026-02-03T00:00:00Z</lastmod>"));
    assert!(sitemap.contains("<lastmod>2026-09-04T20:31:00Z</lastmod>"));
    assert!(sitemap.ends_with("</urlset>\n"));
}

#[test]
fn llms_files_list_every_page() {
    let sources = site_sources();
    let pages = markdown_pages(&sources, &strings(&["guides.md"]));
    let llms = llms_txt(Some("# Documentation"), &pages);
    assert!(llms.starts_with("[Full site content](llms-full.txt):"));
    assert!(llms.contains("# Documentation\n\n- [guides/hidden.md](guides/hidden.md)\n"));
    assert!(llms.contains("- [guides/start.md](guides/start.md)\n- [guides.md](guides.md)\n"));
    assert!(llms.ends_with("- [index.md](index.md)\n"));
    assert_eq!(llms_txt(Some("p\n"), &[]), "[Full site content](llms-full.txt): A full dump of every page on this site in one file.\n\np\n\n");
    let full = llms_full_txt(&strings(&["# Home\n\nWelcome home.\n", "no newline"]));
    assert_eq!(full, "# Home\n\nWelcome home.\n\nno newline\n\n");
}

#[test]
fn rss_uses_home_metadata_and_included_pages() {
    let sources = site_sources();
    let rss = rss_xml("https://example.com", &sources, at(2026, 9, 4, 20, 31, 0));
    assert!(rss.contains("<title>Home</title>"));
    assert!(rss.contains("<description>Home page</description>"));
    assert!(rss.contains("https://example.com/guides/start.html"));
    assert!(rss.contains("<pubDate>Wed, 04 Mar 2026 18:31:00 GMT</pubDate>"));
    assert!(!rss.contains("https://example.com/guides/hidden.html"));
    let bare = rss_xml("https://example.com", &[source("notes/a_b.md", "x")], at(2026, 9, 4, 20, 31, 0));
    assert!(bare.contains("<title>https://example.com</title>"));
    assert!(bare.contains("<description>RSS feed</description>"));
    assert!(bare.contains("<language>en</language>"));
    assert!(bare.contains("<title>a_b</title>"));
}

#[test]
fn pages_are_converted_with_their_links() {
    let page = page_output("docs/my-page.md", "Some *text*.\n", false);
    assert_eq!(page.html_path, "docs/my-page.html");
    assert_eq!(page.markdown, "Some *text*.\n");
    assert!(page.html.contains("<title>my page</title>"));
    assert!(page.html.contains("href=\"../style.css\""));
    assert!(page.html.contains("href=\"my-page.md\""));
    assert!(page.html.contains("<em>text</em>"));
    assert!(page.diagrams.is_empty());

    let page = page_output(
        "guide.md",
        "---\ntitle: Getting started\n---\nIntro\n\n```mermaid\ngraph TD\n```\n",
        false,
    );
    assert_eq!(page.markdown, "# Getting started\n\nIntro\n\n```mermaid\ngraph TD\n```\n");
    assert!(page.html.contains("<title>Getting started</title>"));
    assert!(page.html.contains("<h1>Getting started</h1>"));
    assert_eq!(page.diagram_stem, "guide");
    assert_eq!(page.diagrams.len(), 1);
    assert_eq!(page.diagrams[0].index, 1);
    assert!(page.html.contains("<img class=\"mermaid\" src=\"guide-mermaid-1.svg\""));
    assert!(page.html.contains("href=\"style.css\""));
}

#[test]
fn config_values_must_have_their_types() {
    let e = read_config("c", "[default]\ndomain = 5\n").unwrap_err();
    assert_eq!(message(e), "c must define a non-empty [default].domain");
    let c = read_config("c", "domain = \"x\"\n[default]\ndomain = \"a.org\"\ngenerate_rss = \"no\"\n").unwrap();
    assert_eq!(c.domain, "https://a.org");
    assert!(c.generate_rss);
}

#[test]
fn pages_carry_links_breadcrumbs_and_metadata() {
    let page = page_output("index.md", "# Hello\n\nA *site* with **bold** and `code`.\n\n- one\n- two\n", false);
    assert!(page.html.contains("href=\"style.css\""));
    assert!(page.html.contains("rel=\"alternate\" type=\"text/markdown\" href=\"index.md\""));
    assert!(page.html.contains("href=\"index.md\""));
    assert!(page.html.contains("<em>site</em>"));
    assert!(!page.html.contains("application/rss+xml"));

    let page = page_output("nested/page.md", "## Nested\n\n[home](../index.md)\n", true);
    assert!(page.html.contains("href=\"../style.css\""));
    assert!(page.html.contains("href=\"page.md\""));
    assert!(page.html.contains("href=\"../index.html\">home</a>"));
    assert!(page.html.contains("href=\"../nested.html\">nested</a>"));
    assert!(page.html.contains("<link rel=\"alternate\" type=\"application/rss+xml\" title=\"RSS\" href=\"../rss.xml\">"));

    let page = page_output(
        "project_notes/guide.md",
        "---\ntitle: Getting started\ndescription: Home page\nlanguage: nl\npublish_date: 2026-01-02T20:31\nfooter: Made with *care*.\n---\nThis is the guide.\n",
        false,
    );
    assert!(page.html.contains("<html lang=\"nl\">"));
    assert!(page.html.contains("<title>Getting started</title>"));
    assert!(page.html.contains("<h1>Getting started</h1>"));
    assert!(page.html.contains("<meta name=\"description\" content=\"Home page\">"));
    assert!(page.html.contains("published <time datetime=\"2026-01-02T20:31:00Z\">02-01-2026</time>"));
    assert!(page.html.contains("<div class=\"page-footer\">Made with <em>care</em>.</div>"));
    assert!(page.html.contains("rel=\"alternate\" type=\"text/markdown\" href=\"../project_notes/guide.md\""));
    assert!(page.html.contains("href=\"../project_notes.html\">project notes</a>"));
}

#[test]
fn code_blocks_are_highlighted_with_stylesheets() {
    let page = page_output(
        "index.md",
        "# Code\n\n```rust\nfn main() {}\n```\n\n```python\nprint('hello')\n```\n",
        false,
    );
    assert!(page.html.contains("<pre class=\"code\">"));
    assert!(page.html.contains("fn"));
    assert!(page.html.contains("href=\"syntax-rust.css\""));
    assert!(page.html.contains("href=\"syntax-python.css\""));
    assert_eq!(page.stylesheets, vec!["syntax-python.css", "syntax-rust.css"]);

    let page = page_output("a/b.md", "```C++\nint x;\n```\n\n```c++\nint y;\n```\n\n```\nplain\n```\n", false);
    assert_eq!(page.stylesheets, vec!["syntax-c.css", "syntax-plain.css"]);
    assert!(page.html.contains("href=\"../syntax-c.css\""));

    let page = page_output("u.md", "```rust\nnot closed\n", false);
    assert!(page.stylesheets.is_empty());
    assert!(!page.html.contains("<pre class=\"code\">"));
}

#[test]
fn folder_pages_are_site_pages() {
    let files = strings(&["project_notes/faq.md", "project_notes/guide.md"]);
    let pages = directory_pages(&files);
    let html = directory_page_html(&pages[0], false);
    assert!(html.contains("<title>project notes</title>"));
    assert!(html.contains("<h1>project notes</h1>"));
    assert!(html.contains("href=\"project_notes/guide.html\""));
    assert!(html.contains("href=\"project_notes/faq.html\""));
    assert!(html.contains("href=\"index.html\">home</a>"));
    assert!(html.contains("<span aria-current=\"page\">project notes</span>"));
}

#[test]
fn walked_paths_are_sorted_by_components() {
    let sorted = sorted_paths(&strings(&["nested/b.md", "a.md", "a-b.md", "a/c.md"]));
    assert_eq!(sorted, vec!["a/c.md", "a-b.md", "a.md", "nested/b.md"]);
}
