use mdsite::frontmatter::{parse, parse_datetime, Frontmatter};
use mdsite::time::Timestamp;

fn rfc3339(t: Timestamp) -> String {
    chrono::DateTime::from_timestamp(t.secs, t.nanos)
        .unwrap()
        .to_rfc3339()
}

#[test]
fn parses_and_strips_title_frontmatter() {
    let parsed = parse("---\ntitle: \"Hello site\"\ndraft: false\n---\nText\n");
    assert_eq!(parsed.title.as_deref(), Some("Hello site"));
    assert!(parsed.include_in_rss);
    assert!(parsed.include_in_sitemap);
    assert_eq!(parsed.markdown, "Text\n");
}

#[test]
fn parses_page_metadata_and_inclusion_flags() {
    let parsed = parse(
        "---\ntitle: Page\ndescription: \"Summary\"\nlanguage: nl\npublish_date: 2026-01-02\nlast_updated_at: 2026-03-04\nfooter: \"Made with *care*.\"\ninclude_in_rss: false\ninclude_in_sitemap: false\n---\nText\n",
    );
    assert_eq!(parsed.description.as_deref(), Some("Summary"));
    assert_eq!(parsed.language.as_deref(), Some("nl"));
    assert_eq!(
        rfc3339(parsed.publish_date.unwrap()),
        "2026-01-02T00:00:00+00:00"
    );
    assert_eq!(
        rfc3339(parsed.last_updated_at.unwrap()),
        "2026-03-04T00:00:00+00:00"
    );
    assert_eq!(parsed.footer.as_deref(), Some("Made with *care*."));
    assert!(!parsed.include_in_rss);
    assert!(!parsed.include_in_sitemap);
}

#[test]
fn preserves_markdown_without_a_complete_frontmatter_block() {
    let markdown = "---\ntitle: Unclosed\n\nText\n";
    assert_eq!(
        parse(markdown),
        Frontmatter {
            title: None,
            description: None,
            language: None,
            publish_date: None,
            last_updated_at: None,
            footer: None,
            include_in_rss: true,
            include_in_sitemap: true,
            markdown
        }
    );
}

#[test]
fn parses_partial_iso8601_dates_as_utc() {
    let parsed = parse(
        "---\npublish_date: 2026-09-04T20:31\nlast_updated_at: 2026-09-04T22:31:00+02:00\n---\nText\n",
    );
    assert_eq!(
        rfc3339(parsed.publish_date.unwrap()),
        "2026-09-04T20:31:00+00:00"
    );
    assert_eq!(
        rfc3339(parsed.last_updated_at.unwrap()),
        "2026-09-04T20:31:00+00:00"
    );
}

#[test]
fn frontmatter_first_nonempty_value_wins_and_quotes_are_stripped() {
    let parsed = parse("---\ntitle:\ntitle: 'Second'\n  description : \"'Quoted'\" \n---\nBody");
    assert_eq!(parsed.title.as_deref(), Some("Second"));
    assert_eq!(parsed.description.as_deref(), Some("Quoted"));
    assert_eq!(parsed.markdown, "Body");
}

#[test]
fn frontmatter_invalid_boolean_and_date_fall_back() {
    let parsed = parse("---\ninclude_in_rss: yes\npublish_date: someday\n---\n");
    assert!(parsed.include_in_rss);
    assert_eq!(parsed.publish_date, None);
    assert_eq!(parsed.markdown, "");
}

#[test]
fn frontmatter_requires_opening_at_start() {
    let markdown = "\n---\ntitle: Late\n---\nText";
    let parsed = parse(markdown);
    assert_eq!(parsed.title, None);
    assert_eq!(parsed.markdown, markdown);
}

#[test]
fn datetime_formats_in_order() {
    let with_seconds = parse_datetime("2026-09-04T20:31:05.250").unwrap();
    assert_eq!(rfc3339(with_seconds), "2026-09-04T20:31:05.250+00:00");
    let date = parse_datetime("2026-09-04").unwrap();
    assert_eq!(rfc3339(date), "2026-09-04T00:00:00+00:00");
    assert_eq!(parse_datetime("04/09/2026"), None);
}
