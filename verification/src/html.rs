//! HTML document assembly.
use vstd::prelude::*;
use crate::text::{
    chars_of, escape, lemma_occurs_in_prefix, lemma_occurs_in_suffix, occurs_at, push_chars,
    push_escaped, push_str, string_of,
};
use crate::path::{
    file_name, last_index, lemma_last_index, parent, parent_exec, path_file_name, path_file_name_exec, path_stem,
    path_stem_exec,
};
use crate::rss::opt_str;
use crate::site::{depth, folder_title, folder_title_exec, relative_asset_href, texts, ups};
use crate::time::{
    display_date, or_empty, rfc3339_seconds, rfc3339_secs, utc_formatted, Timestamp, DATE_PATTERN,
};

verus! {

/// The document up to the page title.
pub const PAGE_START: &'static str = "<!DOCTYPE html>\n<html lang=\"en\">\n<head>\n<meta charset=\"utf-8\">\n<meta name=\"viewport\" content=\"width=device-width, initial-scale=1\">\n<title>";

/// Between the title and the stylesheet address.
pub const PAGE_CSS: &'static str = "</title>\n<link rel=\"stylesheet\" href=\"";

/// Between the stylesheet address and the Markdown source address.
pub const PAGE_SOURCE: &'static str = "\">\n</head>\n<body>\n<header>\n<p><a href=\"";

/// Between the Markdown source address and the body.
pub const PAGE_MAIN: &'static str = "\">Markdown source</a></p>\n</header>\n<main>\n";

/// After the body.
pub const PAGE_END: &'static str = "\n</main>\n</body>\n</html>\n";

/// The page that `render_page` builds.
pub open spec fn page(title: Seq<char>, body: Seq<char>, css: Seq<char>, md: Seq<char>) -> Seq<
    char,
> {
    PAGE_START@ + escape(title, true) + PAGE_CSS@ + css + PAGE_SOURCE@ + md + PAGE_MAIN@ + body
        + PAGE_END@
}

/// Build a minimal semantic HTML document: the escaped title, a stylesheet
/// link to `css_href`, a "Markdown source" link to `md_href` and the body.
pub fn render_page(title: &str, body_html: &str, css_href: &str, md_href: &str) -> (html: String)
    ensures
        html@ == page(title@, body_html@, css_href@, md_href@),
{
    let mut out: Vec<char> = Vec::new();
    push_str(&mut out, PAGE_START);
    let t = chars_of(title);
    push_escaped(&mut out, t.as_slice(), true);
    push_str(&mut out, PAGE_CSS);
    push_str(&mut out, css_href);
    push_str(&mut out, PAGE_SOURCE);
    push_str(&mut out, md_href);
    push_str(&mut out, PAGE_MAIN);
    push_str(&mut out, body_html);
    push_str(&mut out, PAGE_END);
    assert(out@ =~= page(title@, body_html@, css_href@, md_href@));
    string_of(out.as_slice())
}

/// Every page links its Markdown source and the shared stylesheet: the
/// header holds `<a href="{md}">Markdown source</a>` and the head a
/// stylesheet link to `css`, whatever the title and body.
pub proof fn lemma_page_links_source_and_css(
    title: Seq<char>,
    body: Seq<char>,
    css: Seq<char>,
    md: Seq<char>,
)
    ensures
        exists|j: int|
            occurs_at(
                page(title, body, css, md),
                "<a href=\""@ + md + "\">Markdown source</a>"@,
                j,
            ),
        exists|j: int|
            occurs_at(page(title, body, css, md), "<link rel=\"stylesheet\" href=\""@ + css + "\">"@, j),
{
    reveal_strlit("<!DOCTYPE html>\n<html lang=\"en\">\n<head>\n<meta charset=\"utf-8\">\n<meta name=\"viewport\" content=\"width=device-width, initial-scale=1\">\n<title>");
    reveal_strlit("</title>\n<link rel=\"stylesheet\" href=\"");
    reveal_strlit("\">\n</head>\n<body>\n<header>\n<p><a href=\"");
    reveal_strlit("\">Markdown source</a></p>\n</header>\n<main>\n");
    reveal_strlit("<a href=\"");
    reveal_strlit("\">Markdown source</a>");
    reveal_strlit("<link rel=\"stylesheet\" href=\"");
    reveal_strlit("\">");
    let p = page(title, body, css, md);
    let head = PAGE_START@ + escape(title, true);
    let a = head + PAGE_CSS@ + css;
    let link = "<link rel=\"stylesheet\" href=\""@ + css + "\">"@;
    let j1 = head.len() + PAGE_CSS@.len() - 29;
    assert(p.subrange(j1, j1 + link.len()) =~= link);
    assert(occurs_at(p, link, j1));
    let src = "<a href=\""@ + md + "\">Markdown source</a>"@;
    let j2 = a.len() + PAGE_SOURCE@.len() - 9;
    assert(p.subrange(j2, j2 + src.len()) =~= src);
    assert(occurs_at(p, src, j2));
}

/// `c` with `-` and `_` read as spaces.
pub open spec fn title_char(c: char) -> char {
    if c == '-' || c == '_' {
        ' '
    } else {
        c
    }
}

/// The title made of a file stem: dashes and underscores become spaces.
pub open spec fn title_of_stem(stem: Seq<char>) -> Seq<char> {
    stem.map_values(|c: char| title_char(c))
}

/// The stem used when a path has none.
pub open spec fn default_stem() -> Seq<char> {
    "page"@
}

/// The title of a page whose file stem is `stem`, `page` when there is none.
pub open spec fn title_from_stem_spec(stem: Option<Seq<char>>) -> Seq<char> {
    match stem {
        Some(s) => title_of_stem(s),
        None => title_of_stem(default_stem()),
    }
}

/// Derive a page title from a file stem (`None`: the path has no UTF-8 stem).
pub fn title_from_stem(stem: Option<&str>) -> (title: String)
    ensures
        title@ == title_from_stem_spec(
            match stem {
                Some(s) => Some(s@),
                None => None,
            },
        ),
{
    let cs = match stem {
        Some(s) => chars_of(s),
        None => chars_of("page"),
    };
    let mut out: Vec<char> = Vec::new();
    let mut i: usize = 0;
    while i < cs.len()
        invariant
            i <= cs.len(),
            out@ == cs@.take(i as int).map_values(|c: char| title_char(c)),
        decreases cs.len() - i,
    {
        let c = cs[i];
        if c == '-' || c == '_' {
            out.push(' ');
        } else {
            out.push(c);
        }
        assert(out@ =~= cs@.take(i + 1).map_values(|c: char| title_char(c)));
        i = i + 1;
    }
    assert(cs@.take(cs.len() as int) =~= cs@);
    string_of(out.as_slice())
}

/// Derive a page title from the relative markdown path: its file stem with
/// dashes and underscores read as spaces, `page` when it has no stem.
pub fn title_from_path(rel: &str) -> (title: String)
    ensures
        title@ == title_from_stem_spec(path_stem(rel@)),
{
    let p = chars_of(rel);
    match path_stem_exec(p.as_slice()) {
        Some(s) => title_from_stem(Some(string_of(s.as_slice()).as_str())),
        None => title_from_stem(None),
    }
}

/// The stylesheet links of a page whose way up to the root is `up`.
pub open spec fn style_links(up: Seq<char>, names: Seq<Seq<char>>) -> Seq<char>
    decreases names.len(),
{
    if names.len() == 0 {
        seq![]
    } else {
        style_links(up, names.drop_last()) + "<link rel=\"stylesheet\" href=\""@ + up + names.last()
            + "\">\n"@
    }
}

/// The breadcrumb links to the folders of `dir` and their parents, outermost
/// first: each goes to the folder's page `{folder}.html`.
pub open spec fn crumbs(dir: Seq<char>, up: Seq<char>) -> Seq<char>
    decreases dir.len(),
{
    if dir.len() == 0 {
        seq![]
    } else {
        proof {
            lemma_last_index(dir, '/');
        }
        crumbs(parent(dir), up) + " / <a href=\""@ + up + dir + ".html\">"@ + escape(
            folder_title(dir),
            true,
        ) + "</a>"@
    }
}

/// A date line of a page: `{word} <time datetime="{RFC 3339}">{dd-mm-yyyy}</time>`.
pub open spec fn date_line(word: Seq<char>, t: Option<Timestamp>) -> Seq<char> {
    match t {
        Some(t) => "<p class=\"page-date\">"@ + word + " <time datetime=\""@ + or_empty(
            rfc3339_seconds(t),
        ) + "\">"@ + or_empty(utc_formatted(t, DATE_PATTERN@)) + "</time></p>\n"@,
        None => seq![],
    }
}

/// The name the Markdown source link of the page at `path` uses: its file
/// name, `source.md` when it has none.
pub open spec fn source_name(path: Seq<char>) -> Seq<char> {
    match path_file_name(path) {
        Some(n) => n,
        None => "source.md"@,
    }
}

/// The start of a site page's head: language, title and description.
pub open spec fn head_meta(
    title: Seq<char>,
    description: Option<Seq<char>>,
    language: Option<Seq<char>>,
) -> Seq<char> {
    "<!DOCTYPE html>\n<html lang=\""@ + escape(
        match language {
            Some(l) => l,
            None => "en"@,
        },
        true,
    ) + "\">\n<head>\n<meta charset=\"utf-8\">\n<meta name=\"viewport\" content=\"width=device-width, initial-scale=1\">\n<title>"@
        + escape(title, true) + "</title>\n"@ + match description {
        Some(d) => "<meta name=\"description\" content=\""@ + escape(d, true) + "\">\n"@,
        None => seq![],
    }
}

/// The alternate links of a page at `path`: its Markdown and, when the site
/// has a feed, the feed.
pub open spec fn head_alternates(path: Seq<char>, rss: bool) -> Seq<char> {
    let up = ups(depth(path));
    "<link rel=\"alternate\" type=\"text/markdown\" href=\""@ + up + path + "\">\n"@ + (if rss {
        "<link rel=\"alternate\" type=\"application/rss+xml\" title=\"RSS\" href=\""@ + up
            + "rss.xml\">\n"@
    } else {
        seq![]
    })
}

/// The head of a site page: language, title, description, stylesheets,
/// the Markdown alternate and, when the site has a feed, the RSS alternate.
pub open spec fn site_head(
    title: Seq<char>,
    path: Seq<char>,
    sheets: Seq<Seq<char>>,
    description: Option<Seq<char>>,
    language: Option<Seq<char>>,
    rss: bool,
) -> Seq<char> {
    head_meta(title, description, language) + style_links(
        ups(depth(path)),
        seq!["style.css"@] + sheets,
    ) + head_alternates(path, rss) + "</head>\n"@
}

/// A page of the site for the Markdown source at `path`: the head, a header
/// with breadcrumbs (home, the folders, the page) and the Markdown source
/// link, the body, the publication dates and the footer.
pub open spec fn site_page(
    title: Seq<char>,
    body: Seq<char>,
    path: Seq<char>,
    sheets: Seq<Seq<char>>,
    description: Option<Seq<char>>,
    language: Option<Seq<char>>,
    published: Option<Timestamp>,
    updated: Option<Timestamp>,
    footer: Option<Seq<char>>,
    rss: bool,
) -> Seq<char> {
    let up = ups(depth(path));
    site_head(title, path, sheets, description, language, rss)
        + "<body>\n<header>\n<nav class=\"breadcrumbs\"><a href=\""@ + up + "index.html\">home</a>"@
        + crumbs(parent(path), up) + " / <span aria-current=\"page\">"@ + escape(title, true)
        + "</span></nav>\n<p><a href=\""@ + source_name(path)
        + "\">Markdown source</a></p>\n</header>\n<main>\n"@ + body + "\n</main>\n"@ + date_line(
        "published"@,
        published,
    ) + date_line("updated"@, updated) + match footer {
        Some(f) => "<div class=\"page-footer\">"@ + f + "</div>\n"@,
        None => seq![],
    } + "</body>\n</html>\n"@
}

/// Every page of the site links its Markdown source twice: as the
/// `text/markdown` alternate of its head, from the page's folder back to the
/// source's path, and as the "Markdown source" link of its header.
pub proof fn lemma_site_page_links_source(
    title: Seq<char>,
    body: Seq<char>,
    path: Seq<char>,
    sheets: Seq<Seq<char>>,
    description: Option<Seq<char>>,
    language: Option<Seq<char>>,
    published: Option<Timestamp>,
    updated: Option<Timestamp>,
    footer: Option<Seq<char>>,
    rss: bool,
)
    ensures
        exists|j: int|
            occurs_at(
                site_page(title, body, path, sheets, description, language, published, updated, footer, rss),
                "<link rel=\"alternate\" type=\"text/markdown\" href=\""@ + ups(depth(path)) + path
                    + "\">"@,
                j,
            ),
        exists|j: int|
            occurs_at(
                site_page(title, body, path, sheets, description, language, published, updated, footer, rss),
                "<a href=\""@ + source_name(path) + "\">Markdown source</a>"@,
                j,
            ),
{
    reveal_strlit("<link rel=\"alternate\" type=\"text/markdown\" href=\"");
    reveal_strlit("\">\n");
    reveal_strlit("\">");
    reveal_strlit("</span></nav>\n<p><a href=\"");
    reveal_strlit("<a href=\"");
    reveal_strlit("\">Markdown source</a></p>\n</header>\n<main>\n");
    reveal_strlit("\">Markdown source</a>");
    let page = site_page(title, body, path, sheets, description, language, published, updated, footer, rss);
    let up = ups(depth(path));
    let before_alt = head_meta(title, description, language) + style_links(up, seq!["style.css"@] + sheets);
    let alt = "<link rel=\"alternate\" type=\"text/markdown\" href=\""@ + up + path + "\">"@;
    let j1 = before_alt.len() as int;
    assert(page.subrange(j1, j1 + alt.len()) =~= alt);
    assert(occurs_at(page, alt, j1));
    let pre = site_head(title, path, sheets, description, language, rss)
        + "<body>\n<header>\n<nav class=\"breadcrumbs\"><a href=\""@ + up + "index.html\">home</a>"@
        + crumbs(parent(path), up) + " / <span aria-current=\"page\">"@ + escape(title, true)
        + "</span></nav>\n<p><a href=\""@;
    let link = "<a href=\""@ + source_name(path) + "\">Markdown source</a>"@;
    let j2 = pre.len() - 9;
    assert(page.subrange(j2, j2 + link.len()) =~= link);
    assert(occurs_at(page, link, j2));
}

proof fn lemma_crumbs_hold(dir: Seq<char>, up: Seq<char>, i: int)
    requires
        0 < i <= dir.len(),
        i == dir.len() || dir[i] == '/',
    ensures
        exists|j: int| occurs_at(crumbs(dir, up), " / <a href=\""@ + up + dir.take(i) + ".html\">"@, j),
    decreases dir.len(),
{
    lemma_last_index(dir, '/');
    let pat = " / <a href=\""@ + up + dir.take(i) + ".html\">"@;
    let pd = parent(dir);
    let tail = " / <a href=\""@ + up + dir + ".html\">"@ + escape(folder_title(dir), true) + "</a>"@;
    assert(crumbs(dir, up) == crumbs(pd, up) + tail);
    if i == dir.len() {
        assert(dir.take(i) =~= dir);
        assert(crumbs(dir, up).subrange(
            crumbs(pd, up).len() as int,
            crumbs(pd, up).len() + pat.len() as int,
        ) =~= pat);
        assert(occurs_at(crumbs(dir, up), pat, crumbs(pd, up).len() as int));
    } else {
        let k = last_index(dir, '/');
        assert(i <= k);
        assert(pd == dir.take(k));
        assert(pd.take(i) =~= dir.take(i));
        if i < k {
            assert(pd[i] == '/');
        }
        lemma_crumbs_hold(pd, up, i);
        let j = choose|j: int| occurs_at(crumbs(pd, up), " / <a href=\""@ + up + pd.take(i) + ".html\">"@, j);
        lemma_occurs_in_prefix(crumbs(pd, up), tail, pat, j);
        assert(occurs_at(crumbs(dir, up), pat, j));
    }
}

/// The breadcrumbs of a page reach every folder the page lies in: for each
/// folder `d` on the page's path (the path up to one of its `/`), the page
/// links `d.html`, the folder's own page, from the page's folder.
pub proof fn lemma_site_page_crumbs(
    title: Seq<char>,
    body: Seq<char>,
    path: Seq<char>,
    sheets: Seq<Seq<char>>,
    description: Option<Seq<char>>,
    language: Option<Seq<char>>,
    published: Option<Timestamp>,
    updated: Option<Timestamp>,
    footer: Option<Seq<char>>,
    rss: bool,
    i: int,
)
    requires
        0 < i < path.len(),
        path[i] == '/',
    ensures
        exists|j: int|
            occurs_at(
                site_page(title, body, path, sheets, description, language, published, updated, footer, rss),
                " / <a href=\""@ + ups(depth(path)) + path.take(i) + ".html\">"@,
                j,
            ),
{
    lemma_last_index(path, '/');
    let up = ups(depth(path));
    let k = last_index(path, '/');
    assert(i <= k);
    let dir = parent(path);
    assert(dir == path.take(k));
    assert(dir.take(i) =~= path.take(i));
    if i < k {
        assert(dir[i] == '/');
    }
    lemma_crumbs_hold(dir, up, i);
    let pat = " / <a href=\""@ + up + path.take(i) + ".html\">"@;
    let j = choose|j: int| occurs_at(crumbs(dir, up), pat, j);
    let a = site_head(title, path, sheets, description, language, rss)
        + "<body>\n<header>\n<nav class=\"breadcrumbs\"><a href=\""@ + up + "index.html\">home</a>"@;
    let b = " / <span aria-current=\"page\">"@ + escape(title, true)
        + "</span></nav>\n<p><a href=\""@ + source_name(path)
        + "\">Markdown source</a></p>\n</header>\n<main>\n"@ + body + "\n</main>\n"@ + date_line(
        "published"@,
        published,
    ) + date_line("updated"@, updated) + match footer {
        Some(f) => "<div class=\"page-footer\">"@ + f + "</div>\n"@,
        None => seq![],
    } + "</body>\n</html>\n"@;
    let page = site_page(title, body, path, sheets, description, language, published, updated, footer, rss);
    assert(page =~= a + crumbs(dir, up) + b);
    lemma_occurs_in_suffix(a, crumbs(dir, up), pat, j);
    lemma_occurs_in_prefix(a + crumbs(dir, up), b, pat, a.len() + j);
    assert(occurs_at(page, pat, a.len() + j));
}

fn push_crumbs(out: &mut Vec<char>, dir: &[char], up: &[char])
    ensures
        final(out)@ == old(out)@ + crumbs(dir@, up@),
    decreases dir.len(),
{
    if dir.len() == 0 {
        assert(old(out)@ + crumbs(dir@, up@) =~= old(out)@);
        return ;
    }
    proof {
        lemma_last_index(dir@, '/');
    }
    let p = parent_exec(dir);
    push_crumbs(out, p.as_slice(), up);
    let ghost mid = out@;
    push_str(out, " / <a href=\"");
    push_chars(out, up);
    push_chars(out, dir);
    push_str(out, ".html\">");
    let t = folder_title_exec(dir);
    push_escaped(out, t.as_slice(), true);
    push_str(out, "</a>");
    assert(out@ =~= old(out)@ + crumbs(dir@, up@));
}

fn push_date_line(out: &mut Vec<char>, word: &str, t: Option<Timestamp>)
    ensures
        final(out)@ == old(out)@ + date_line(word@, t),
{
    match t {
        Some(t) => {
            push_str(out, "<p class=\"page-date\">");
            push_str(out, word);
            push_str(out, " <time datetime=\"");
            let iso = rfc3339_secs(t);
            push_str(out, iso.as_str());
            push_str(out, "\">");
            let shown = display_date(t);
            push_str(out, shown.as_str());
            push_str(out, "</time></p>\n");
            assert(out@ =~= old(out)@ + date_line(word@, Some(t)));
        },
        None => {
            assert(old(out)@ + date_line(word@, t) =~= old(out)@);
        },
    }
}

fn push_style_links(out: &mut Vec<char>, up: &[char], sheets: &[String])
    ensures
        final(out)@ == old(out)@ + style_links(up@, seq!["style.css"@] + texts(sheets@)),
{
    let ghost before_links = out@;
    let ghost names = seq!["style.css"@] + texts(sheets@);
    push_str(out, "<link rel=\"stylesheet\" href=\"");
    push_chars(out, up);
    push_str(out, "style.css");
    push_str(out, "\">\n");
    assert(names.take(1).drop_last() =~= Seq::<Seq<char>>::empty());
    assert(names.take(1).last() == "style.css"@);
    assert(style_links(up@, names.take(1).drop_last()) =~= Seq::<char>::empty());
    assert(out@ =~= before_links + style_links(up@, names.take(1)));
    let mut i: usize = 0;
    while i < sheets.len()
        invariant
            i <= sheets.len(),
            names == seq!["style.css"@] + texts(sheets@),
            out@ == before_links + style_links(up@, names.take(i + 1)),
        decreases sheets.len() - i,
    {
        assert(names.take(i + 2).drop_last() =~= names.take(i + 1));
        assert(names.take(i + 2).last() == sheets@[i as int]@);
        push_str(out, "<link rel=\"stylesheet\" href=\"");
        push_chars(out, up);
        push_str(out, sheets[i].as_str());
        push_str(out, "\">\n");
        assert(out@ =~= before_links + style_links(up@, names.take(i + 2)));
        i = i + 1;
    }
    assert(names.take(sheets.len() + 1) =~= names);
}

fn push_head_meta(
    out: &mut Vec<char>,
    title: &str,
    description: Option<&str>,
    language: Option<&str>,
)
    ensures
        final(out)@ == old(out)@ + head_meta(title@, opt_str(description), opt_str(language)),
{
    proof {
        reveal_strlit("en");
    }
    push_str(out, "<!DOCTYPE html>\n<html lang=\"");
    match language {
        Some(l) => push_escaped(out, chars_of(l).as_slice(), true),
        None => push_escaped(out, chars_of("en").as_slice(), true),
    }
    push_str(
        out,
        "\">\n<head>\n<meta charset=\"utf-8\">\n<meta name=\"viewport\" content=\"width=device-width, initial-scale=1\">\n<title>",
    );
    push_escaped(out, chars_of(title).as_slice(), true);
    push_str(out, "</title>\n");
    match description {
        Some(d) => {
            push_str(out, "<meta name=\"description\" content=\"");
            push_escaped(out, chars_of(d).as_slice(), true);
            push_str(out, "\">\n");
        },
        None => {},
    }
    assert(out@ =~= old(out)@ + head_meta(title@, opt_str(description), opt_str(language)));
}

fn push_alternates(out: &mut Vec<char>, up: &[char], path: &str, rss: bool)
    requires
        up@ == ups(depth(path@)),
    ensures
        final(out)@ == old(out)@ + head_alternates(path@, rss),
{
    push_str(out, "<link rel=\"alternate\" type=\"text/markdown\" href=\"");
    push_chars(out, up);
    push_str(out, path);
    push_str(out, "\">\n");
    if rss {
        push_str(out, "<link rel=\"alternate\" type=\"application/rss+xml\" title=\"RSS\" href=\"");
        push_chars(out, up);
        push_str(out, "rss.xml\">\n");
    }
    assert(out@ =~= old(out)@ + head_alternates(path@, rss));
}

fn push_head(
    out: &mut Vec<char>,
    up: &[char],
    title: &str,
    path: &str,
    sheets: &[String],
    description: Option<&str>,
    language: Option<&str>,
    rss: bool,
)
    requires
        up@ == ups(depth(path@)),
    ensures
        final(out)@ == old(out)@ + site_head(
            title@,
            path@,
            texts(sheets@),
            opt_str(description),
            opt_str(language),
            rss,
        ),
{
    let ghost start = out@;
    push_head_meta(out, title, description, language);
    let ghost a = out@;
    push_style_links(out, up, sheets);
    let ghost b = out@;
    push_alternates(out, up, path, rss);
    let ghost c = out@;
    push_str(out, "</head>\n");
    assert(out@ =~= start + site_head(
        title@,
        path@,
        texts(sheets@),
        opt_str(description),
        opt_str(language),
        rss,
    ));
}

/// Build a page of the site for the Markdown source at `path` (relative to
/// the root): the escaped title, the page's language (`en` when none), its
/// description, links to `style.css` and the other root-level `sheets`, to
/// its Markdown source and, when `rss`, to the feed; breadcrumbs from the
/// home page through its folders; the body; the publication dates; the
/// footer HTML.
pub fn render_site_page(
    title: &str,
    body: &str,
    path: &str,
    sheets: &[String],
    description: Option<&str>,
    language: Option<&str>,
    published: Option<Timestamp>,
    updated: Option<Timestamp>,
    footer: Option<&str>,
    rss: bool,
) -> (html: String)
    ensures
        html@ == site_page(
            title@,
            body@,
            path@,
            texts(sheets@),
            opt_str(description),
            opt_str(language),
            published,
            updated,
            opt_str(footer),
            rss,
        ),
{
    proof {
        reveal_strlit("");
        reveal_strlit("source.md");
    }
    let up_s = relative_asset_href(path, "");
    let up = chars_of(up_s.as_str());
    assert(up@ =~= ups(depth(path@)));
    let mut out: Vec<char> = Vec::new();
    push_head(&mut out, up.as_slice(), title, path, sheets, description, language, rss);
    push_str(&mut out, "<body>\n<header>\n<nav class=\"breadcrumbs\"><a href=\"");
    push_chars(&mut out, up.as_slice());
    push_str(&mut out, "index.html\">home</a>");
    let pc = chars_of(path);
    let dir = parent_exec(pc.as_slice());
    push_crumbs(&mut out, dir.as_slice(), up.as_slice());
    push_str(&mut out, " / <span aria-current=\"page\">");
    push_escaped(&mut out, chars_of(title).as_slice(), true);
    push_str(&mut out, "</span></nav>\n<p><a href=\"");
    match path_file_name_exec(pc.as_slice()) {
        Some(n) => push_chars(&mut out, n.as_slice()),
        None => push_str(&mut out, "source.md"),
    }
    push_str(&mut out, "\">Markdown source</a></p>\n</header>\n<main>\n");
    push_str(&mut out, body);
    push_str(&mut out, "\n</main>\n");
    push_date_line(&mut out, "published", published);
    push_date_line(&mut out, "updated", updated);
    match footer {
        Some(f) => {
            push_str(&mut out, "<div class=\"page-footer\">");
            push_str(&mut out, f);
            push_str(&mut out, "</div>\n");
        },
        None => {},
    }
    push_str(&mut out, "</body>\n</html>\n");
    assert(out@ =~= site_page(
        title@,
        body@,
        path@,
        texts(sheets@),
        opt_str(description),
        opt_str(language),
        published,
        updated,
        opt_str(footer),
        rss,
    ));
    string_of(out.as_slice())
}

} // verus!
