//! Frontmatter parsing for Markdown source files.
use vstd::prelude::*;
use vstd::string::StrSliceExecFns;
use crate::text::{
    chars_eq, chars_of, copy_range, find_char, find_seq, find_seq_exec, lemma_find_char,
    lemma_find_seq, lines, split_lines, string_of, trim, trim_exec, trim_set, trim_set_exec,
};
use crate::time::{
    naive_date_at, naive_datetime_instant, parse_naive_date_at, parse_naive_datetime,
    parse_rfc3339, rfc3339_instant, Timestamp,
};

verus! {

/// Markdown content and metadata after parsing optional frontmatter.
#[derive(Debug, PartialEq, Eq, Clone)]
pub struct Frontmatter<'a> {
    pub title: Option<String>,
    pub description: Option<String>,
    pub language: Option<String>,
    pub publish_date: Option<Timestamp>,
    pub last_updated_at: Option<Timestamp>,
    pub footer: Option<String>,
    pub include_in_rss: bool,
    pub include_in_sitemap: bool,
    pub markdown: &'a str,
}

/// The view of an optional string.
pub open spec fn opt_view(s: Option<String>) -> Option<Seq<char>> {
    match s {
        Some(t) => Some(t@),
        None => None,
    }
}

/// The line that opens a frontmatter block, with its newline.
pub open spec fn opening() -> Seq<char> {
    "---\n"@
}

/// The line that closes a frontmatter block, with the newlines around it.
pub open spec fn closing() -> Seq<char> {
    "\n---\n"@
}

/// The quote characters stripped from both ends of a value.
pub open spec fn quote_chars() -> Seq<char> {
    seq!['\'', '"']
}

/// The value that `line` gives to `key`: the line is `candidate: value`
/// (split at the first colon), the trimmed candidate is `key`, and the value,
/// trimmed and stripped of quotes at both ends, is not empty.
pub open spec fn line_value(line: Seq<char>, key: Seq<char>) -> Option<Seq<char>> {
    let c = find_char(line, ':', 0);
    if c >= line.len() {
        None
    } else if trim(line.take(c)) == key {
        let v = trim_set(trim(line.skip(c + 1)), quote_chars());
        if v.len() > 0 {
            Some(v)
        } else {
            None
        }
    } else {
        None
    }
}

/// The first value given to `key` by the lines from `i` on.
pub open spec fn value_from(ls: Seq<Seq<char>>, i: int, key: Seq<char>) -> Option<Seq<char>>
    decreases ls.len() - i,
{
    if i < 0 || i >= ls.len() {
        None
    } else {
        match line_value(ls[i], key) {
            Some(v) => Some(v),
            None => value_from(ls, i + 1, key),
        }
    }
}

/// The value of `key` in a metadata block: from the first line that gives one.
pub open spec fn metadata_value(metadata: Seq<char>, key: Seq<char>) -> Option<Seq<char>> {
    value_from(lines(metadata), 0, key)
}

/// The boolean value of `key`: `true` or `false`, else none.
pub open spec fn metadata_boolean(metadata: Seq<char>, key: Seq<char>) -> Option<bool> {
    match metadata_value(metadata, key) {
        Some(v) => if v == "true"@ {
            Some(true)
        } else if v == "false"@ {
            Some(false)
        } else {
            None
        },
        None => None,
    }
}

pub open spec fn datetime_format_seconds() -> Seq<char> {
    "%Y-%m-%dT%H:%M:%S%.f"@
}

pub open spec fn datetime_format_minutes() -> Seq<char> {
    "%Y-%m-%dT%H:%M"@
}

pub open spec fn date_format() -> Seq<char> {
    "%Y-%m-%d"@
}

/// The instant a date value stands for: RFC 3339 first, then a date and
/// time without zone (with seconds, then with minutes only), then a bare
/// date at midnight; the last three are taken as UTC.
pub open spec fn datetime_value(text: Seq<char>) -> Option<Timestamp> {
    match rfc3339_instant(text) {
        Some(t) => Some(t),
        None => match naive_datetime_instant(text, datetime_format_seconds()) {
            Some(t) => Some(t),
            None => match naive_datetime_instant(text, datetime_format_minutes()) {
                Some(t) => Some(t),
                None => naive_date_at(text, date_format(), 0, 0, 0),
            },
        },
    }
}

/// The instant given to `key`, when its value reads as one.
pub open spec fn metadata_datetime(metadata: Seq<char>, key: Seq<char>) -> Option<Timestamp> {
    match metadata_value(metadata, key) {
        Some(v) => datetime_value(v),
        None => None,
    }
}

/// Where the closing line starts in the text after the opening line.
pub open spec fn closing_at(markdown: Seq<char>) -> int {
    find_seq(markdown.skip(4), closing(), 0)
}

/// The text holds a complete frontmatter block: it starts with the opening
/// line and a closing line follows.
pub open spec fn has_frontmatter(markdown: Seq<char>) -> bool {
    &&& markdown.len() >= 4
    &&& markdown.take(4) == opening()
    &&& closing_at(markdown) < markdown.len() - 4
}

/// The metadata lines of a complete block.
pub open spec fn metadata_of(markdown: Seq<char>) -> Seq<char> {
    markdown.skip(4).take(closing_at(markdown))
}

/// What follows the closing line of a complete block.
pub open spec fn body_of(markdown: Seq<char>) -> Seq<char> {
    markdown.skip(4 + closing_at(markdown) + 5)
}

/// The text value that `parse` reads for `key` from `markdown`.
pub open spec fn fm_text(markdown: Seq<char>, key: Seq<char>) -> Option<Seq<char>> {
    if has_frontmatter(markdown) {
        metadata_value(metadata_of(markdown), key)
    } else {
        None
    }
}

/// The instant that `parse` reads for `key` from `markdown`.
pub open spec fn fm_date(markdown: Seq<char>, key: Seq<char>) -> Option<Timestamp> {
    if has_frontmatter(markdown) {
        metadata_datetime(metadata_of(markdown), key)
    } else {
        None
    }
}

/// The flag that `parse` reads for `key` from `markdown`: on unless set to `false`.
pub open spec fn fm_flag(markdown: Seq<char>, key: Seq<char>) -> bool {
    if has_frontmatter(markdown) {
        match metadata_boolean(metadata_of(markdown), key) {
            Some(b) => b,
            None => true,
        }
    } else {
        true
    }
}

/// `fm` holds what `parse` reads from `markdown`.
pub open spec fn parsed(fm: Frontmatter, markdown: Seq<char>) -> bool {
    if has_frontmatter(markdown) {
        let m = metadata_of(markdown);
        &&& opt_view(fm.title) == metadata_value(m, "title"@)
        &&& opt_view(fm.description) == metadata_value(m, "description"@)
        &&& opt_view(fm.language) == metadata_value(m, "language"@)
        &&& fm.publish_date == metadata_datetime(m, "publish_date"@)
        &&& fm.last_updated_at == metadata_datetime(m, "last_updated_at"@)
        &&& opt_view(fm.footer) == metadata_value(m, "footer"@)
        &&& fm.include_in_rss == match metadata_boolean(m, "include_in_rss"@) {
            Some(b) => b,
            None => true,
        }
        &&& fm.include_in_sitemap == match metadata_boolean(m, "include_in_sitemap"@) {
            Some(b) => b,
            None => true,
        }
        &&& fm.markdown@ == body_of(markdown)
    } else {
        &&& fm.title is None
        &&& fm.description is None
        &&& fm.language is None
        &&& fm.publish_date is None
        &&& fm.last_updated_at is None
        &&& fm.footer is None
        &&& fm.include_in_rss
        &&& fm.include_in_sitemap
        &&& fm.markdown@ == markdown
    }
}

fn line_value_exec(line: &[char], key: &[char]) -> (r: Option<Vec<char>>)
    ensures
        match r {
            Some(v) => line_value(line@, key@) == Some(v@),
            None => line_value(line@, key@) is None,
        },
{
    proof {
        lemma_find_char(line@, ':', 0);
    }
    let mut c: usize = 0;
    while c < line.len() && line[c] != ':'
        invariant
            c <= line.len(),
            find_char(line@, ':', 0) == find_char(line@, ':', c as int),
        decreases line.len() - c,
    {
        c = c + 1;
    }
    if c >= line.len() {
        return None;
    }
    let candidate = copy_range(line, 0, c);
    assert(candidate@ =~= line@.take(c as int));
    let cand = trim_exec(candidate.as_slice());
    if !chars_eq(cand.as_slice(), key) {
        return None;
    }
    let rest = copy_range(line, c + 1, line.len());
    assert(rest@ =~= line@.skip(c + 1));
    let trimmed = trim_exec(rest.as_slice());
    let quotes = vec!['\'', '"'];
    assert(quotes@ =~= quote_chars());
    let v = trim_set_exec(trimmed.as_slice(), quotes.as_slice());
    if v.len() > 0 {
        Some(v)
    } else {
        None
    }
}

fn value_exec(ls: &Vec<Vec<char>>, key: &[char]) -> (r: Option<Vec<char>>)
    ensures
        match r {
            Some(v) => value_from(ls@.map_values(|l: Vec<char>| l@), 0, key@) == Some(v@),
            None => value_from(ls@.map_values(|l: Vec<char>| l@), 0, key@) is None,
        },
{
    let ghost lv = ls@.map_values(|l: Vec<char>| l@);
    let mut i: usize = 0;
    while i < ls.len()
        invariant
            i <= ls.len(),
            lv == ls@.map_values(|l: Vec<char>| l@),
            value_from(lv, 0, key@) == value_from(lv, i as int, key@),
        decreases ls.len() - i,
    {
        assert(ls[i as int]@ == lv[i as int]);
        match line_value_exec(ls[i].as_slice(), key) {
            Some(v) => {
                return Some(v);
            },
            None => {},
        }
        i = i + 1;
    }
    None
}

/// The value of `key` in the metadata lines.
fn value(metadata: &Vec<Vec<char>>, key: &str) -> (r: Option<Vec<char>>)
    ensures
        match r {
            Some(v) => value_from(metadata@.map_values(|l: Vec<char>| l@), 0, key@) == Some(v@),
            None => value_from(metadata@.map_values(|l: Vec<char>| l@), 0, key@) is None,
        },
{
    let k = chars_of(key);
    value_exec(metadata, k.as_slice())
}

fn value_string(metadata: &Vec<Vec<char>>, key: &str) -> (r: Option<String>)
    ensures
        opt_view(r) == value_from(metadata@.map_values(|l: Vec<char>| l@), 0, key@),
{
    match value(metadata, key) {
        Some(v) => Some(string_of(v.as_slice())),
        None => None,
    }
}

/// The boolean value of `key` in the metadata lines.
fn boolean(metadata: &Vec<Vec<char>>, key: &str) -> (r: Option<bool>)
    ensures
        r == match value_from(metadata@.map_values(|l: Vec<char>| l@), 0, key@) {
            Some(v) => if v == "true"@ {
                Some(true)
            } else if v == "false"@ {
                Some(false)
            } else {
                None
            },
            None => None,
        },
{
    match value(metadata, key) {
        Some(v) => {
            let t = chars_of("true");
            let f = chars_of("false");
            if chars_eq(v.as_slice(), t.as_slice()) {
                Some(true)
            } else if chars_eq(v.as_slice(), f.as_slice()) {
                Some(false)
            } else {
                None
            }
        },
        None => None,
    }
}

/// The instant a date value stands for (see `datetime_value`).
pub fn parse_datetime(value: &str) -> (t: Option<Timestamp>)
    ensures
        t == datetime_value(value@),
{
    match parse_rfc3339(value) {
        Some(t) => Some(t),
        None => match parse_naive_datetime(value, "%Y-%m-%dT%H:%M:%S%.f") {
            Some(t) => Some(t),
            None => match parse_naive_datetime(value, "%Y-%m-%dT%H:%M") {
                Some(t) => Some(t),
                None => parse_naive_date_at(value, "%Y-%m-%d", 0, 0, 0),
            },
        },
    }
}

fn datetime(metadata: &Vec<Vec<char>>, key: &str) -> (r: Option<Timestamp>)
    ensures
        r == match value_from(metadata@.map_values(|l: Vec<char>| l@), 0, key@) {
            Some(v) => datetime_value(v),
            None => None,
        },
{
    match value(metadata, key) {
        Some(v) => {
            let s = string_of(v.as_slice());
            parse_datetime(s.as_str())
        },
        None => None,
    }
}

impl<'a> Frontmatter<'a> {
    /// The whole text as Markdown, with no metadata.
    fn without_metadata(markdown: &'a str) -> (fm: Self)
        ensures
            fm.title is None && fm.description is None && fm.language is None,
            fm.publish_date is None && fm.last_updated_at is None && fm.footer is None,
            fm.include_in_rss && fm.include_in_sitemap,
            fm.markdown == markdown,
    {
        Frontmatter {
            title: None,
            description: None,
            language: None,
            publish_date: None,
            last_updated_at: None,
            footer: None,
            include_in_rss: true,
            include_in_sitemap: true,
            markdown,
        }
    }
}

/// Parse a leading `---` frontmatter block: the text must start with a
/// `---` line, and the block ends at the next `---` line. Without a complete
/// block the whole text is Markdown and no metadata is set.
pub fn parse(markdown: &str) -> (fm: Frontmatter<'_>)
    ensures
        parsed(fm, markdown@),
{
    let text = chars_of(markdown);
    let open = chars_of("---\n");
    proof {
        reveal_strlit("---\n");
    }
    if !crate::text::starts_with_exec(text.as_slice(), open.as_slice()) {
        return Frontmatter::without_metadata(markdown);
    }
    let after = copy_range(text.as_slice(), 4, text.len());
    assert(after@ =~= markdown@.skip(4));
    let close = chars_of("\n---\n");
    let j = find_seq_exec(after.as_slice(), close.as_slice());
    proof {
        lemma_find_seq(after@, close@, 0);
    }
    if j >= after.len() {
        return Frontmatter::without_metadata(markdown);
    }
    proof {
        reveal_strlit("\n---\n");
    }
    assert(close@.len() == 5);
    let metadata = copy_range(after.as_slice(), 0, j);
    assert(metadata@ =~= metadata_of(markdown@));
    let ls = split_lines(metadata.as_slice());
    let n = markdown.unicode_len();
    let start = 4 + j + 5;
    let body = markdown.substring_char(start, n);
    assert(body@ =~= body_of(markdown@));
    let rss = match boolean(&ls, "include_in_rss") {
        Some(b) => b,
        None => true,
    };
    let sitemap = match boolean(&ls, "include_in_sitemap") {
        Some(b) => b,
        None => true,
    };
    Frontmatter {
        title: value_string(&ls, "title"),
        description: value_string(&ls, "description"),
        language: value_string(&ls, "language"),
        publish_date: datetime(&ls, "publish_date"),
        last_updated_at: datetime(&ls, "last_updated_at"),
        footer: value_string(&ls, "footer"),
        include_in_rss: rss,
        include_in_sitemap: sitemap,
        markdown: body,
    }
}

} // verus!
