//! RSS 2.0 feed generation.
use vstd::prelude::*;
use crate::text::{chars_of, escape, push_chars, push_escaped, push_str, string_of};
use crate::time::{or_empty, rfc822_date, utc_formatted, Timestamp, RFC822_PATTERN};

verus! {

/// The channel of a feed and its items.
pub struct Feed<'a> {
    pub title: &'a str,
    pub description: &'a str,
    pub language: &'a str,
    pub link: &'a str,
    pub build_date: &'a Timestamp,
    pub items: Vec<Item<'a>>,
}

/// One page of a feed.
pub struct Item<'a> {
    pub title: &'a str,
    pub description: Option<&'a str>,
    pub language: Option<&'a str>,
    pub link: String,
    pub publish_date: Option<&'a Timestamp>,
    pub last_updated_at: Option<&'a Timestamp>,
}

/// Text escaped for XML: `&`, `<`, `>` and `"` as entities.
pub open spec fn xml_escape(s: Seq<char>) -> Seq<char> {
    escape(s, true)
}

/// A date as RSS writes it (RFC 822 in GMT).
pub open spec fn rss_date(t: Timestamp) -> Seq<char> {
    or_empty(utc_formatted(t, RFC822_PATTERN@))
}

/// The date of an item: last update, else publication, else the feed's build date.
pub open spec fn item_date(item: Item, build: Timestamp) -> Timestamp {
    match item.last_updated_at {
        Some(t) => *t,
        None => match item.publish_date {
            Some(t) => *t,
            None => build,
        },
    }
}

/// The view of an optional string slice.
pub open spec fn opt_str(s: Option<&str>) -> Option<Seq<char>> {
    match s {
        Some(t) => Some(t@),
        None => None,
    }
}

/// The channel header of a feed.
pub open spec fn channel_text(
    title: Seq<char>,
    description: Seq<char>,
    link: Seq<char>,
    language: Seq<char>,
    build: Timestamp,
) -> Seq<char> {
    "<?xml version=\"1.0\" encoding=\"UTF-8\"?>\n<rss version=\"2.0\">\n  <channel>\n    <title>"@
        + xml_escape(title) + "</title>\n    <description>"@ + xml_escape(description)
        + "</description>\n    <link>"@ + xml_escape(link) + "</link>\n    <language>"@
        + xml_escape(language) + "</language>\n    <lastBuildDate>"@ + rss_date(build)
        + "</lastBuildDate>\n"@
}

pub open spec fn channel_xml(feed: Feed) -> Seq<char> {
    channel_text(feed.title@, feed.description@, feed.link@, feed.language@, *feed.build_date)
}

/// An item up to its publication date; without a description the title stands in.
pub open spec fn item_head_text(
    title: Seq<char>,
    description: Option<Seq<char>>,
    link: Seq<char>,
    date: Timestamp,
) -> Seq<char> {
    "    <item>\n      <title>"@ + xml_escape(title) + "</title>\n      <description>"@
        + xml_escape(
        match description {
            Some(d) => d,
            None => title,
        },
    ) + "</description>\n      <link>"@ + xml_escape(link) + "</link>\n      <guid>"@
        + xml_escape(link) + "</guid>\n      <pubDate>"@ + rss_date(date) + "</pubDate>\n"@
}

/// The language line of an item, when it has a language.
pub open spec fn item_language_text(language: Option<Seq<char>>) -> Seq<char> {
    match language {
        Some(l) => "      <language>"@ + xml_escape(l) + "</language>\n"@,
        None => seq![],
    }
}

/// One item of a feed.
pub open spec fn item_text(
    title: Seq<char>,
    description: Option<Seq<char>>,
    language: Option<Seq<char>>,
    link: Seq<char>,
    date: Timestamp,
) -> Seq<char> {
    item_head_text(title, description, link, date) + item_language_text(language)
        + "    </item>\n"@
}

pub open spec fn item_xml(item: Item, build: Timestamp) -> Seq<char> {
    item_text(
        item.title@,
        opt_str(item.description),
        opt_str(item.language),
        item.link@,
        item_date(item, build),
    )
}

pub open spec fn items_xml(items: Seq<Item>, build: Timestamp) -> Seq<char>
    decreases items.len(),
{
    if items.len() == 0 {
        seq![]
    } else {
        items_xml(items.drop_last(), build) + item_xml(items.last(), build)
    }
}

/// The feed document: the channel, its items in order, and the closing tags.
pub open spec fn feed_xml(feed: Feed) -> Seq<char> {
    channel_xml(feed) + items_xml(feed.items@, *feed.build_date) + FEED_END@
}

fn push_xml(out: &mut Vec<char>, t: &str)
    ensures
        final(out)@ == old(out)@ + xml_escape(t@),
{
    let cs = chars_of(t);
    push_escaped(out, cs.as_slice(), true);
}

/// Appends `item_text` of the given values.
pub(crate) fn push_item_text(
    out: &mut Vec<char>,
    title: &str,
    description: Option<&str>,
    language: Option<&str>,
    link: &str,
    date: Timestamp,
)
    ensures
        final(out)@ == old(out)@ + item_text(
            title@,
            opt_str(description),
            opt_str(language),
            link@,
            date,
        ),
{
    push_str(out, "    <item>\n      <title>");
    push_xml(out, title);
    push_str(out, "</title>\n      <description>");
    match description {
        Some(d) => push_xml(out, d),
        None => push_xml(out, title),
    }
    push_str(out, "</description>\n      <link>");
    push_xml(out, link);
    push_str(out, "</link>\n      <guid>");
    push_xml(out, link);
    push_str(out, "</guid>\n      <pubDate>");
    let d = rfc822_date(date);
    push_str(out, d.as_str());
    push_str(out, "</pubDate>\n");
    assert(out@ =~= old(out)@ + item_head_text(title@, opt_str(description), link@, date));
    let ghost mid = out@;
    match language {
        Some(l) => {
            push_str(out, "      <language>");
            push_xml(out, l);
            push_str(out, "</language>\n");
        },
        None => {},
    }
    assert(out@ =~= mid + item_language_text(opt_str(language)));
    push_str(out, "    </item>\n");
    assert(out@ =~= old(out)@ + item_text(
        title@,
        opt_str(description),
        opt_str(language),
        link@,
        date,
    ));
}

/// Appends `channel_text` of the given values.
pub(crate) fn push_channel_text(
    out: &mut Vec<char>,
    title: &str,
    description: &str,
    link: &str,
    language: &str,
    build: Timestamp,
)
    ensures
        final(out)@ == old(out)@ + channel_text(title@, description@, link@, language@, build),
{
    push_str(out, "<?xml version=\"1.0\" encoding=\"UTF-8\"?>\n<rss version=\"2.0\">\n  <channel>\n    <title>");
    push_xml(out, title);
    push_str(out, "</title>\n    <description>");
    push_xml(out, description);
    push_str(out, "</description>\n    <link>");
    push_xml(out, link);
    push_str(out, "</link>\n    <language>");
    push_xml(out, language);
    push_str(out, "</language>\n    <lastBuildDate>");
    let d = rfc822_date(build);
    push_str(out, d.as_str());
    push_str(out, "</lastBuildDate>\n");
    assert(out@ =~= old(out)@ + channel_text(title@, description@, link@, language@, build));
}

/// The closing tags of a feed.
pub const FEED_END: &'static str = "  </channel>\n</rss>\n";

/// The RSS 2.0 document of a feed.
pub fn generate(feed: Feed<'_>) -> (xml: String)
    ensures
        xml@ == feed_xml(feed),
{
    let mut out: Vec<char> = Vec::new();
    push_channel_text(
        &mut out,
        feed.title,
        feed.description,
        feed.link,
        feed.language,
        *feed.build_date,
    );
    let build = *feed.build_date;
    let mut i: usize = 0;
    while i < feed.items.len()
        invariant
            i <= feed.items.len(),
            build == *feed.build_date,
            out@ == channel_xml(feed) + items_xml(feed.items@.take(i as int), build),
        decreases feed.items.len() - i,
    {
        let item = &feed.items[i];
        let date = match item.last_updated_at {
            Some(t) => *t,
            None => match item.publish_date {
                Some(t) => *t,
                None => build,
            },
        };
        push_item_text(
            &mut out,
            item.title,
            item.description,
            item.language,
            item.link.as_str(),
            date,
        );
        assert(feed.items@.take(i + 1).drop_last() =~= feed.items@.take(i as int));
        assert(out@ =~= channel_xml(feed) + items_xml(feed.items@.take(i + 1), build));
        i = i + 1;
    }
    assert(feed.items@.take(feed.items.len() as int) =~= feed.items@);
    push_str(&mut out, FEED_END);
    string_of(out.as_slice())
}

} // verus!
