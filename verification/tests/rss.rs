use chrono::TimeZone;
use mdsite::rss::{generate, Feed, Item};
use mdsite::time::Timestamp;

fn at(y: i32, mo: u32, d: u32, h: u32, mi: u32, s: u32) -> Timestamp {
    let t = chrono::Utc.with_ymd_and_hms(y, mo, d, h, mi, s).unwrap();
    Timestamp {
        secs: t.timestamp(),
        nanos: t.timestamp_subsec_nanos(),
    }
}

#[test]
fn generates_an_rss_feed_from_item_metadata() {
    let xml = generate(Feed {
        title: "Site",
        description: "Site description",
        language: "en",
        link: "https://example.com",
        build_date: &at(2026, 9, 4, 20, 31, 0),
        items: vec![Item {
            title: "First post",
            description: Some("Post description"),
            language: Some("nl"),
            link: "https://example.com/first.html".to_owned(),
            publish_date: Some(&at(2026, 1, 2, 0, 0, 0)),
            last_updated_at: Some(&at(2026, 3, 4, 20, 31, 0)),
        }],
    });
    assert!(xml.contains("<rss version=\"2.0\">"));
    assert!(xml.contains("<description>Post description</description>"));
    assert!(xml.contains("<language>nl</language>"));
    assert!(xml.contains("<pubDate>Wed, 04 Mar 2026 20:31:00 GMT</pubDate>"));
}

#[test]
fn rss_item_falls_back_to_title_and_build_date() {
    let build = at(2026, 9, 4, 20, 31, 0);
    let xml = generate(Feed {
        title: "A & B",
        description: "d",
        language: "en",
        link: "https://example.com",
        build_date: &build,
        items: vec![Item {
            title: "<Post>",
            description: None,
            language: None,
            link: "https://example.com/p.html".to_owned(),
            publish_date: None,
            last_updated_at: None,
        }],
    });
    assert!(xml.contains("<title>A &amp; B</title>"));
    assert!(xml.contains("<description>&lt;Post&gt;</description>"));
    assert!(xml.contains("<lastBuildDate>Fri, 04 Sep 2026 20:31:00 GMT</lastBuildDate>"));
    assert!(xml.contains("<pubDate>Fri, 04 Sep 2026 20:31:00 GMT</pubDate>"));
    assert!(!xml.contains("<language>en</language>\n    </item>"));
    assert!(xml.ends_with("    </item>\n  </channel>\n</rss>\n"));
}
