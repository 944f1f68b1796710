//! The site as a whole: configuration, page sources, directory pages and the
//! metadata files (robots.txt, sitemap.xml, llms.txt, llms-full.txt, rss.xml).
//! The text of every generated file is computed here; reading and writing
//! the files is left to the caller.
use vstd::prelude::*;
use crate::error::Error;
use crate::frontmatter::{
    body_of, fm_date, fm_flag, fm_text, has_frontmatter, opt_view, parse, parsed,
};
use crate::html::{render_site_page, site_page, title_from_path, title_from_stem_spec};
use crate::syntax::{stylesheet_filename, stylesheet_name};
use crate::markdown::{
    code_languages, extract_mermaid, extracted, page_body, render_body, MermaidBlock,
};
use crate::path::{path_stem, path_stem_exec};
use crate::path::path_lt;
use crate::rss::{
    channel_text, item_language_text, item_text, push_channel_text, push_item_text, rss_date,
    xml_escape, FEED_END,
};
use crate::time::{or_empty, rfc3339_seconds, rfc3339_secs, Timestamp};
use crate::markdown::{markdown_html, markdown_to_html};
use crate::path::{
    last_index, lemma_last_index, file_name, file_name_exec, insert_sorted, lemma_sorted_unique, parent, parent_exec, stem,
    stem_exec, strictly_sorted, views, with_extension, with_extension_exec,
};
use crate::text::{
    chars_of, ends_with, ends_with_exec, push_chars, push_str, starts_with, starts_with_exec,
    string_of, trim, trim_end, trim_end_set, occurs_at, lemma_occurs_in_prefix,
    lemma_occurs_in_suffix, trim_exec, trim_start, is_white,
};

verus! {

/// The message of the error that `toml::from_str` gives for `text` read as a
/// `toml::Value`; `None` when the text parses.
pub uninterp spec fn toml_parse_error(text: Seq<char>) -> Option<Seq<char>>;

/// The string that the TOML document `text` holds at `key` of its table
/// `table`; `None` when the text does not parse, there is no such table or
/// key, or the value is not a string.
pub uninterp spec fn toml_text_at(text: Seq<char>, table: Seq<char>, key: Seq<char>) -> Option<
    Seq<char>,
>;

/// The boolean that the TOML document `text` holds at `key` of its table
/// `table`; `None` when the text does not parse, there is no such table or
/// key, or the value is not a boolean.
pub uninterp spec fn toml_bool_at(text: Seq<char>, table: Seq<char>, key: Seq<char>) -> Option<bool>;

/// `toml::from_str` into a `toml::Value`: whether it fails, and with which
/// message (the error's `Display`), is `toml_parse_error` of the text.
#[verifier::external_body]
fn toml_parse(text: &str) -> (r: Result<(), String>)
    ensures
        match r {
            Ok(_) => toml_parse_error(text@) is None,
            Err(m) => toml_parse_error(text@) == Some(m@),
        },
{
    match toml::from_str::<toml::Value>(text) {
        Ok(_) => Ok(()),
        Err(e) => Err(e.to_string()),
    }
}

/// `toml::from_str` into a `toml::Value`, then `Value::get` of the table,
/// `Value::get` of the key and `Value::as_str`: `toml_text_at` of the
/// arguments.
#[verifier::external_body]
fn toml_str_at(text: &str, table: &str, key: &str) -> (r: Option<String>)
    ensures
        crate::frontmatter::opt_view(r) == toml_text_at(text@, table@, key@),
{
    let value = toml::from_str::<toml::Value>(text).ok()?;
    value.get(table)?.get(key)?.as_str().map(String::from)
}

/// `toml::from_str` into a `toml::Value`, then `Value::get` of the table,
/// `Value::get` of the key and `Value::as_bool`: `toml_bool_at` of the
/// arguments.
#[verifier::external_body]
fn toml_flag_at(text: &str, table: &str, key: &str) -> (r: Option<bool>)
    ensures
        r == toml_bool_at(text@, table@, key@),
{
    let value = toml::from_str::<toml::Value>(text).ok()?;
    value.get(table)?.get(key)?.as_bool()
}

/// Site settings read from `mdsite.toml`.
#[derive(Debug, Clone)]
pub struct SiteConfig {
    /// Base address of the site, with a scheme and no trailing slash.
    pub domain: String,
    /// Text placed at the top of llms.txt.
    pub llms_prefix: Option<String>,
    pub generate_sitemap: bool,
    pub generate_llms: bool,
    pub generate_rss: bool,
    pub generate_robots: bool,
}

/// The message of an `Error::Other`, none for the other variants.
pub open spec fn other_message(e: Error) -> Option<Seq<char>> {
    match e {
        Error::Other(m) => Some(m@),
        _ => None,
    }
}

pub open spec fn missing_config_message(path: Seq<char>) -> Seq<char> {
    "missing required site configuration: "@ + path
}

/// The error for a site without `mdsite.toml`.
pub fn missing_config(path: &str) -> (e: Error)
    ensures
        other_message(e) == Some(missing_config_message(path@)),
{
    let mut m: Vec<char> = Vec::new();
    push_str(&mut m, "missing required site configuration: ");
    push_str(&mut m, path);
    Error::Other(string_of(m.as_slice()))
}

/// The error for a configuration file that could not be read, with the reason.
pub fn unreadable_config(path: &str, reason: &str) -> (e: Error)
    ensures
        other_message(e) == Some("read "@ + path@ + ": "@ + reason@),
{
    let mut m: Vec<char> = Vec::new();
    push_str(&mut m, "read ");
    push_str(&mut m, path);
    push_str(&mut m, ": ");
    push_str(&mut m, reason);
    assert(m@ =~= "read "@ + path@ + ": "@ + reason@);
    Error::Other(string_of(m.as_slice()))
}

pub open spec fn domain_message(path: Seq<char>) -> Seq<char> {
    path + " must define a non-empty [default].domain"@
}

/// The configured domain made a base address: trimmed, trailing slashes
/// removed, and `https://` put in front unless it names `http://` or `https://`.
pub open spec fn normalized_domain(domain: Seq<char>) -> Seq<char> {
    let d = trim_end_set(trim(domain), seq!['/']);
    if starts_with(d, "http://"@) || starts_with(d, "https://"@) {
        d
    } else {
        "https://"@ + d
    }
}

/// `c` holds the settings read from the given values; an absent flag is on.
pub open spec fn config_is(
    c: SiteConfig,
    domain: Seq<char>,
    llms_prefix: Option<Seq<char>>,
    sitemap: Option<bool>,
    llms: Option<bool>,
    rss: Option<bool>,
    robots: Option<bool>,
) -> bool {
    &&& c.domain@ == normalized_domain(domain)
    &&& crate::frontmatter::opt_view(c.llms_prefix) == llms_prefix
    &&& c.generate_sitemap == flag(sitemap)
    &&& c.generate_llms == flag(llms)
    &&& c.generate_rss == flag(rss)
    &&& c.generate_robots == flag(robots)
}

/// A setting that is on unless it is set to `false`.
pub open spec fn flag(b: Option<bool>) -> bool {
    match b {
        Some(v) => v,
        None => true,
    }
}

/// The values read from a configuration file at `path`, made settings: a
/// domain that is missing or blank is an error.
pub open spec fn config_outcome(
    r: Result<SiteConfig, Error>,
    path: Seq<char>,
    domain: Option<Seq<char>>,
    llms_prefix: Option<Seq<char>>,
    sitemap: Option<bool>,
    llms: Option<bool>,
    rss: Option<bool>,
    robots: Option<bool>,
) -> bool {
    match domain {
        Some(d) if trim(d).len() > 0 => match r {
            Ok(c) => config_is(c, d, llms_prefix, sitemap, llms, rss, robots),
            Err(_) => false,
        },
        _ => match r {
            Ok(_) => false,
            Err(e) => other_message(e) == Some(domain_message(path)),
        },
    }
}

fn opt_string(s: Option<&str>) -> (r: Option<String>)
    ensures
        crate::frontmatter::opt_view(r) == match s {
            Some(t) => Some(t@),
            None => None,
        },
{
    match s {
        Some(t) => Some(string_of(chars_of(t).as_slice())),
        None => None,
    }
}

/// Make settings of the values read from the configuration file at `path`.
pub fn config_from_values(
    path: &str,
    domain: Option<&str>,
    llms_prefix: Option<&str>,
    sitemap: Option<bool>,
    llms: Option<bool>,
    rss: Option<bool>,
    robots: Option<bool>,
) -> (r: Result<SiteConfig, Error>)
    ensures
        config_outcome(
            r,
            path@,
            match domain {
                Some(d) => Some(d@),
                None => None,
            },
            match llms_prefix {
                Some(p) => Some(p@),
                None => None,
            },
            sitemap,
            llms,
            rss,
            robots,
        ),
{
    let trimmed = match domain {
        Some(d) => {
            let t = trim_exec(chars_of(d).as_slice());
            if t.len() > 0 {
                Some(t)
            } else {
                None
            }
        },
        None => None,
    };
    let t = match trimmed {
        Some(t) => t,
        None => {
            let mut m: Vec<char> = Vec::new();
            push_str(&mut m, path);
            push_str(&mut m, " must define a non-empty [default].domain");
            return Err(Error::Other(string_of(m.as_slice())));
        },
    };
    let slash = vec!['/'];
    assert(slash@ =~= seq!['/']);
    let mut end = t.len();
    assert(t@.take(end as int) =~= t@);
    while end > 0 && t[end - 1] == '/'
        invariant
            end <= t.len(),
            trim_end_set(t@, seq!['/']) == trim_end_set(t@.take(end as int), seq!['/']),
        decreases end,
    {
        assert(t@.take(end as int).drop_last() =~= t@.take(end - 1));
        assert(seq!['/'].contains('/')) by {
            assert(seq!['/'][0] == '/');
        }
        end = end - 1;
    }
    proof {
        if end > 0 {
            assert(!seq!['/'].contains(t@.take(end as int).last()));
        }
    }
    let d = crate::text::copy_range(t.as_slice(), 0, end);
    assert(d@ =~= t@.take(end as int));
    let http = chars_of("http://");
    let https = chars_of("https://");
    let base = if starts_with_exec(d.as_slice(), http.as_slice()) || starts_with_exec(
        d.as_slice(),
        https.as_slice(),
    ) {
        string_of(d.as_slice())
    } else {
        let mut m: Vec<char> = Vec::new();
        push_str(&mut m, "https://");
        push_chars(&mut m, d.as_slice());
        string_of(m.as_slice())
    };
    Ok(
        SiteConfig {
            domain: base,
            llms_prefix: opt_string(llms_prefix),
            generate_sitemap: match sitemap {
                Some(b) => b,
                None => true,
            },
            generate_llms: match llms {
                Some(b) => b,
                None => true,
            },
            generate_rss: match rss {
                Some(b) => b,
                None => true,
            },
            generate_robots: match robots {
                Some(b) => b,
                None => true,
            },
        },
    )
}

/// Read the settings from the text of the configuration file at `path`: the
/// `[default]` table gives `domain` and the `generate_*` flags, the `[llms]`
/// table gives `prefix`. TOML that does not parse is an error with the
/// parser's message.
pub fn read_config(path: &str, text: &str) -> (r: Result<SiteConfig, Error>)
    ensures
        toml_parse_error(text@) matches Some(m) ==> r is Err && other_message(r->Err_0) == Some(
            "parse "@ + path@ + ": "@ + m,
        ),
        toml_parse_error(text@) is None ==> config_outcome(
            r,
            path@,
            toml_text_at(text@, "default"@, "domain"@),
            toml_text_at(text@, "llms"@, "prefix"@),
            toml_bool_at(text@, "default"@, "generate_sitemap"@),
            toml_bool_at(text@, "default"@, "generate_llms"@),
            toml_bool_at(text@, "default"@, "generate_rss"@),
            toml_bool_at(text@, "default"@, "generate_robots"@),
        ),
{
    match toml_parse(text) {
        Ok(_) => {},
        Err(message) => {
            let mut m: Vec<char> = Vec::new();
            push_str(&mut m, "parse ");
            push_str(&mut m, path);
            push_str(&mut m, ": ");
            push_str(&mut m, message.as_str());
            let e = Error::Other(string_of(m.as_slice()));
            assert(other_message(e) == Some("parse "@ + path@ + ": "@ + message@));
            return Err(e);
        },
    }
    let domain = toml_str_at(text, "default", "domain");
    let prefix = toml_str_at(text, "llms", "prefix");
    let sitemap = toml_flag_at(text, "default", "generate_sitemap");
    let llms = toml_flag_at(text, "default", "generate_llms");
    let rss = toml_flag_at(text, "default", "generate_rss");
    let robots = toml_flag_at(text, "default", "generate_robots");
    let domain_text = match &domain {
        Some(d) => Some(d.as_str()),
        None => None,
    };
    let prefix_text = match &prefix {
        Some(p) => Some(p.as_str()),
        None => None,
    };
    config_from_values(path, domain_text, prefix_text, sitemap, llms, rss, robots)
}

pub open spec fn robots_text(domain: Seq<char>, with_sitemap: bool) -> Seq<char> {
    "User-agent: *\nAllow: /\n"@ + if with_sitemap {
        "\nSitemap: "@ + domain + "/sitemap.xml\n"@
    } else {
        seq![]
    }
}

/// The robots.txt to write: none when its generation is off or the input
/// has its own robots.txt; else one that allows everything and, when the
/// sitemap is generated, points to it.
pub fn robots_txt(config: &SiteConfig, input_has_robots: bool) -> (r: Option<String>)
    ensures
        !config.generate_robots || input_has_robots ==> r is None,
        config.generate_robots && !input_has_robots ==> r is Some && r->0@ == robots_text(
            config.domain@,
            config.generate_sitemap,
        ),
{
    if !config.generate_robots || input_has_robots {
        return None;
    }
    let mut m: Vec<char> = Vec::new();
    push_str(&mut m, "User-agent: *\nAllow: /\n");
    if config.generate_sitemap {
        push_str(&mut m, "\nSitemap: ");
        push_str(&mut m, config.domain.as_str());
        push_str(&mut m, "/sitemap.xml\n");
    }
    assert(m@ =~= robots_text(config.domain@, config.generate_sitemap));
    Some(string_of(m.as_slice()))
}

pub open spec fn url_of(domain: Seq<char>, path: Seq<char>) -> Seq<char> {
    if path == "index.html"@ {
        domain
    } else {
        domain + "/"@ + path
    }
}

/// The address of the page at `path`: the home page is the domain itself.
pub fn page_url(domain: &str, path: &str) -> (url: String)
    ensures
        url@ == url_of(domain@, path@),
{
    let p = chars_of(path);
    let home = chars_of("index.html");
    let mut m: Vec<char> = Vec::new();
    push_str(&mut m, domain);
    if !crate::text::chars_eq(p.as_slice(), home.as_slice()) {
        push_str(&mut m, "/");
        push_chars(&mut m, p.as_slice());
    }
    assert(m@ =~= url_of(domain@, path@));
    string_of(m.as_slice())
}

/// The footer's inline HTML: the rendering of its Markdown when that is a
/// single paragraph (`<p>` ... `</p>` and a newline), without the paragraph tags.
pub open spec fn footer_of(markdown: Seq<char>) -> Option<Seq<char>> {
    let h = markdown_html(markdown);
    if starts_with(h, "<p>"@) && ends_with(h.skip(3), "</p>\n"@) {
        Some(h.subrange(3, h.len() - 5))
    } else {
        None
    }
}

/// Render a footer's Markdown as inline HTML (see `footer_of`).
pub fn footer_html(markdown: &str) -> (r: Option<String>)
    ensures
        crate::frontmatter::opt_view(r) == footer_of(markdown@),
{
    proof {
        reveal_strlit("<p>");
        reveal_strlit("</p>\n");
    }
    let html = markdown_to_html(markdown);
    let h = chars_of(html.as_str());
    let open = chars_of("<p>");
    let close = chars_of("</p>\n");
    if !starts_with_exec(h.as_slice(), open.as_slice()) {
        return None;
    }
    let rest = crate::text::copy_range(h.as_slice(), 3, h.len());
    assert(rest@ =~= h@.skip(3));
    if !ends_with_exec(rest.as_slice(), close.as_slice()) {
        return None;
    }
    let inner = crate::text::copy_range(h.as_slice(), 3, h.len() - 5);
    Some(string_of(inner.as_slice()))
}

pub open spec fn page_markdown(title: Option<Seq<char>>, body: Seq<char>) -> Seq<char> {
    match title {
        Some(t) => "# "@ + t + "\n\n"@ + body,
        None => body,
    }
}

/// The Markdown of a page: a frontmatter title becomes its first heading.
pub fn page_source(title: Option<&str>, body: &str) -> (md: String)
    ensures
        md@ == page_markdown(
            match title {
                Some(t) => Some(t@),
                None => None,
            },
            body@,
        ),
{
    let mut m: Vec<char> = Vec::new();
    match title {
        Some(t) => {
            push_str(&mut m, "# ");
            push_str(&mut m, t);
            push_str(&mut m, "\n\n");
        },
        None => {},
    }
    push_str(&mut m, body);
    assert(m@ =~= page_markdown(
        match title {
            Some(t) => Some(t@),
            None => None,
        },
        body@,
    ));
    string_of(m.as_slice())
}

/// How many `/` separate the components of `p`: the depth of a page below the site root.
pub open spec fn depth(p: Seq<char>) -> nat
    decreases p.len(),
{
    if p.len() == 0 {
        0
    } else {
        depth(p.drop_last()) + if p.last() == '/' {
            1nat
        } else {
            0nat
        }
    }
}

/// `n` steps up: `../` repeated.
pub open spec fn ups(n: nat) -> Seq<char>
    decreases n,
{
    if n == 0 {
        seq![]
    } else {
        ups((n - 1) as nat) + "../"@
    }
}

/// The address of the root-level file `target` as seen from the page at `page`.
pub open spec fn relative_href(page: Seq<char>, target: Seq<char>) -> Seq<char> {
    ups(depth(page)) + target
}

/// The address, from the page at `page`, of a file at the output root.
pub fn relative_asset_href(page: &str, target: &str) -> (href: String)
    ensures
        href@ == relative_href(page@, target@),
{
    let p = chars_of(page);
    let mut n: usize = 0;
    let mut i: usize = 0;
    while i < p.len()
        invariant
            i <= p.len(),
            n == depth(p@.take(i as int)),
            n <= i,
        decreases p.len() - i,
    {
        assert(p@.take(i + 1).drop_last() =~= p@.take(i as int));
        if p[i] == '/' {
            n = n + 1;
        }
        i = i + 1;
    }
    assert(p@.take(p.len() as int) =~= p@);
    let mut m: Vec<char> = Vec::new();
    let mut k: usize = 0;
    while k < n
        invariant
            k <= n,
            m@ == ups(k as nat),
        decreases n - k,
    {
        push_str(&mut m, "../");
        k = k + 1;
    }
    push_str(&mut m, target);
    string_of(m.as_slice())
}

/// The address of the shared stylesheet from the page at `page`.
pub fn relative_css_href(page: &str) -> (href: String)
    ensures
        href@ == relative_href(page@, "style.css"@),
{
    relative_asset_href(page, "style.css")
}

/// The Markdown of `text` after its frontmatter block (all of it when there is none).
pub open spec fn fm_body(text: Seq<char>) -> Seq<char> {
    if has_frontmatter(text) {
        body_of(text)
    } else {
        text
    }
}

/// The stem that names a page's diagrams: the file stem, `page` when there is none.
pub open spec fn diagram_stem(relative: Seq<char>) -> Seq<char> {
    match path_stem(relative) {
        Some(s) => s,
        None => "page"@,
    }
}

/// The title of a page: its frontmatter title, else the title made of its file stem.
pub open spec fn page_title(relative: Seq<char>, text: Seq<char>) -> Seq<char> {
    match fm_text(text, "title"@) {
        Some(t) => t,
        None => title_from_stem_spec(path_stem(relative)),
    }
}

/// The footer HTML of a page: its frontmatter footer as inline HTML.
pub open spec fn page_footer(text: Seq<char>) -> Option<Seq<char>> {
    match fm_text(text, "footer"@) {
        Some(f) => footer_of(f),
        None => None,
    }
}

/// `names` lists, sorted and each once, the stylesheets of the languages `langs`.
pub open spec fn sheets_of(names: Seq<Seq<char>>, langs: Seq<Seq<char>>) -> bool {
    &&& strictly_sorted(names)
    &&& forall|y: Seq<char>|
        names.contains(y) <==> exists|k: int| 0 <= k < langs.len() && y == stylesheet_name(
            #[trigger] langs[k],
        )
}

/// The stylesheet names of the languages, sorted and each once.
pub fn stylesheet_list(langs: &[String]) -> (names: Vec<String>)
    ensures
        sheets_of(texts(names@), texts(langs@)),
{
    let ghost lv = texts(langs@);
    let mut v: Vec<Vec<char>> = Vec::new();
    let mut i: usize = 0;
    while i < langs.len()
        invariant
            i <= langs.len(),
            lv == texts(langs@),
            strictly_sorted(views(v@)),
            forall|y: Seq<char>|
                #[trigger] views(v@).contains(y) <==> exists|k: int|
                    0 <= k < i && y == stylesheet_name(#[trigger] lv[k]),
        decreases langs.len() - i,
    {
        let name = stylesheet_filename(langs[i].as_str());
        let x = chars_of(name.as_str());
        let ghost xv = x@;
        assert(xv == stylesheet_name(lv[i as int]));
        let ghost old_v = views(v@);
        insert_sorted(&mut v, x);
        assert forall|y: Seq<char>|
            #[trigger] views(v@).contains(y) <==> exists|k: int|
                0 <= k < i + 1 && y == stylesheet_name(#[trigger] lv[k]) by {
            assert(views(v@).contains(y) <==> (old_v.contains(y) || y == xv));
            if exists|k: int| 0 <= k < i + 1 && y == stylesheet_name(#[trigger] lv[k]) {
                let k = choose|k: int| 0 <= k < i + 1 && y == stylesheet_name(#[trigger] lv[k]);
                if k < i {
                    assert(old_v.contains(y));
                }
            }
        }
        i = i + 1;
    }
    let mut out: Vec<String> = Vec::new();
    let mut k: usize = 0;
    while k < v.len()
        invariant
            k <= v.len(),
            texts(out@) == views(v@).take(k as int),
        decreases v.len() - k,
    {
        let s = string_of(v[k].as_slice());
        let ghost before = out@;
        out.push(s);
        assert(texts(out@) =~= texts(before).push(s@));
        assert(views(v@).take(k + 1) =~= views(v@).take(k as int).push(v@[k as int]@));
        k = k + 1;
    }
    assert(views(v@).take(v.len() as int) =~= views(v@));
    out
}

/// A Markdown source converted to a page.
#[derive(Debug, Clone)]
pub struct PageOutput {
    /// Where the HTML page goes: the source path with `.html`.
    pub html_path: String,
    /// The HTML page.
    pub html: String,
    /// The page's Markdown, written beside the page under the source's file
    /// name; its Mermaid fences are kept.
    pub markdown: String,
    /// The stem of the diagram files.
    pub diagram_stem: String,
    /// The Mermaid diagrams, numbered from 1, to be drawn as
    /// `{diagram_stem}-mermaid-{n}.svg` beside the page.
    pub diagrams: Vec<MermaidBlock>,
    /// The root-level syntax stylesheets the page links, one per language of
    /// its highlighted code blocks, sorted.
    pub stylesheets: Vec<String>,
}

/// `o` is the page made of the Markdown source `text` at `relative`, with a
/// link to the feed when `rss`.
pub open spec fn page_output_is(o: PageOutput, relative: Seq<char>, text: Seq<char>, rss: bool) -> bool {
    let markdown = page_markdown(fm_text(text, "title"@), fm_body(text));
    let prepared = extracted(markdown, diagram_stem(relative));
    &&& o.html_path@ == with_extension(relative, "html"@)
    &&& o.markdown@ == markdown
    &&& o.diagram_stem@ == diagram_stem(relative)
    &&& o.diagrams@.map_values(|b: MermaidBlock| b.view_pair()) == prepared.1
    &&& sheets_of(texts(o.stylesheets@), code_languages(prepared.0))
    &&& o.html@ == site_page(
        page_title(relative, text),
        page_body(prepared.0),
        relative,
        texts(o.stylesheets@),
        fm_text(text, "description"@),
        fm_text(text, "language"@),
        fm_date(text, "publish_date"@),
        fm_date(text, "last_updated_at"@),
        page_footer(text),
        rss,
    )
}

/// Convert the Markdown source `text` of the file at `relative` into its
/// page: the frontmatter title (or the file stem) becomes the title and the
/// first heading, Mermaid fences become image references to their diagram
/// files, other closed fences are highlighted with syntect and their
/// languages' stylesheets linked, and the page carries the frontmatter's
/// description, language, dates and footer, links the shared stylesheet,
/// its Markdown source and, when `include_rss_link`, the feed.
pub fn page_output(relative: &str, text: &str, include_rss_link: bool) -> (o: PageOutput)
    ensures
        page_output_is(o, relative@, text@, include_rss_link),
{
    proof {
        reveal_strlit("page");
    }
    let fm = parse(text);
    assert(parsed(fm, text@));
    let markdown = page_source(
        match &fm.title {
            Some(t) => Some(t.as_str()),
            None => None,
        },
        fm.markdown,
    );
    let title = match &fm.title {
        Some(t) => string_of(chars_of(t.as_str()).as_slice()),
        None => title_from_path(relative),
    };
    let rel = chars_of(relative);
    let stem = match path_stem_exec(rel.as_slice()) {
        Some(s) => string_of(s.as_slice()),
        None => string_of(chars_of("page").as_slice()),
    };
    let prepared = extract_mermaid(markdown.as_str(), stem.as_str());
    let (body, langs) = render_body(prepared.markdown.as_str());
    let stylesheets = stylesheet_list(langs.as_slice());
    let footer = match &fm.footer {
        Some(f) => footer_html(f.as_str()),
        None => None,
    };
    let html_path = string_of(with_extension_exec(rel.as_slice(), "html").as_slice());
    let html = render_site_page(
        title.as_str(),
        body.as_str(),
        relative,
        stylesheets.as_slice(),
        match &fm.description {
            Some(d) => Some(d.as_str()),
            None => None,
        },
        match &fm.language {
            Some(l) => Some(l.as_str()),
            None => None,
        },
        fm.publish_date,
        fm.last_updated_at,
        match &footer {
            Some(f) => Some(f.as_str()),
            None => None,
        },
        include_rss_link,
    );
    PageOutput { html_path, html, markdown, diagram_stem: stem, diagrams: prepared.mermaid, stylesheets }
}

/// The relative paths in the order of their components (`Path`'s order),
/// each once.
pub fn sorted_paths(paths: &[String]) -> (sorted: Vec<String>)
    ensures
        strictly_sorted(texts(sorted@)),
        forall|y: Seq<char>| texts(sorted@).contains(y) <==> texts(paths@).contains(y),
{
    let ghost pv = texts(paths@);
    let mut v: Vec<Vec<char>> = Vec::new();
    let mut i: usize = 0;
    while i < paths.len()
        invariant
            i <= paths.len(),
            pv == texts(paths@),
            strictly_sorted(views(v@)),
            forall|y: Seq<char>| #[trigger] views(v@).contains(y) <==> pv.take(i as int).contains(y),
        decreases paths.len() - i,
    {
        let x = chars_of(paths[i].as_str());
        let ghost xv = x@;
        assert(xv == pv[i as int]);
        let ghost old_v = views(v@);
        insert_sorted(&mut v, x);
        assert forall|y: Seq<char>| #[trigger] views(v@).contains(y) <==> pv.take(i + 1).contains(y) by {
            assert(old_v.contains(y) <==> pv.take(i as int).contains(y));
            if pv.take(i + 1).contains(y) {
                let k = choose|k: int| 0 <= k < i + 1 && #[trigger] pv.take(i + 1)[k] == y;
                if k < i {
                    assert(pv.take(i as int)[k] == y);
                }
            }
            if pv.take(i as int).contains(y) {
                let k = choose|k: int| 0 <= k < i && #[trigger] pv.take(i as int)[k] == y;
                assert(pv.take(i + 1)[k] == y);
            }
            if y == xv {
                assert(pv.take(i + 1)[i as int] == y);
            }
        }
        i = i + 1;
    }
    assert(pv.take(paths.len() as int) =~= pv);
    let mut out: Vec<String> = Vec::new();
    let mut k: usize = 0;
    while k < v.len()
        invariant
            k <= v.len(),
            texts(out@) == views(v@).take(k as int),
        decreases v.len() - k,
    {
        let s = string_of(v[k].as_slice());
        let ghost before = out@;
        out.push(s);
        assert(texts(out@) =~= texts(before).push(s@));
        assert(views(v@).take(k + 1) =~= views(v@).take(k as int).push(v@[k as int]@));
        k = k + 1;
    }
    assert(views(v@).take(v.len() as int) =~= views(v@));
    out
}

/// The text views of a list of strings.
pub open spec fn texts(v: Seq<String>) -> Seq<Seq<char>> {
    v.map_values(|s: String| s@)
}

fn to_chars(v: &[String]) -> (r: Vec<Vec<char>>)
    ensures
        views(r@) == texts(v@),
{
    let mut r: Vec<Vec<char>> = Vec::new();
    let mut i: usize = 0;
    while i < v.len()
        invariant
            i <= v.len(),
            views(r@) == texts(v@).take(i as int),
        decreases v.len() - i,
    {
        let c = chars_of(v[i].as_str());
        assert(c@ == texts(v@)[i as int]);
        let ghost before = r@;
        r.push(c);
        assert(views(r@) =~= views(before).push(c@));
        assert(views(r@) =~= texts(v@).take(i + 1));
        i = i + 1;
    }
    assert(texts(v@).take(v.len() as int) =~= texts(v@));
    r
}

fn contains_path(v: &Vec<Vec<char>>, x: &[char]) -> (b: bool)
    ensures
        b == views(v@).contains(x@),
{
    let mut i: usize = 0;
    while i < v.len()
        invariant
            i <= v.len(),
            forall|k: int| 0 <= k < i ==> views(v@)[k] != x@,
        decreases v.len() - i,
    {
        if crate::text::chars_eq(v[i].as_slice(), x) {
            assert(views(v@)[i as int] == x@);
            return true;
        }
        i = i + 1;
    }
    false
}

/// `d` is the folder of one of the files (the site root is none).
pub open spec fn is_directory_of(files: Seq<Seq<char>>, d: Seq<char>) -> bool {
    d.len() > 0 && exists|i: int| 0 <= i < files.len() && #[trigger] parent(files[i]) == d
}

/// The folders of the files, each once, in the order of paths.
pub open spec fn sorted_directories(files: Seq<Seq<char>>) -> Seq<Seq<char>> {
    choose|ds: Seq<Seq<char>>|
        strictly_sorted(ds) && forall|y: Seq<char>| ds.contains(y) <==> is_directory_of(files, y)
}

/// The files directly in folder `d`, in their order.
pub open spec fn files_in(files: Seq<Seq<char>>, d: Seq<char>) -> Seq<Seq<char>>
    decreases files.len(),
{
    if files.len() == 0 {
        seq![]
    } else if parent(files.last()) == d {
        files_in(files.drop_last(), d).push(files.last())
    } else {
        files_in(files.drop_last(), d)
    }
}

/// The list entry of the file `f` in folder `d`: a link to its page.
pub open spec fn listing_entry(d: Seq<char>, f: Seq<char>) -> Seq<char> {
    "\n- ["@ + stem(file_name(f)) + "]("@ + d + "/"@ + stem(file_name(f)) + ".html)\n"@
}

pub open spec fn listing(d: Seq<char>, fs: Seq<Seq<char>>) -> Seq<char>
    decreases fs.len(),
{
    if fs.len() == 0 {
        seq![]
    } else {
        listing(d, fs.drop_last()) + listing_entry(d, fs.last())
    }
}

/// The title of a folder's page: its name with underscores read as spaces.
pub open spec fn folder_title(d: Seq<char>) -> Seq<char> {
    file_name(d).map_values(|c: char| if c == '_' { ' ' } else { c })
}

/// The Markdown of a folder's page: its title as heading and a link to each
/// of its files.
pub open spec fn directory_markdown(files: Seq<Seq<char>>, d: Seq<char>) -> Seq<char> {
    "# "@ + folder_title(d) + "\n"@ + listing(d, files_in(files, d))
}

/// The folder `d` has a page of its own among the sources (`d.md`).
pub open spec fn has_custom_page(files: Seq<Seq<char>>, d: Seq<char>) -> bool {
    files.contains(d + ".md"@)
}

/// The folders of `ds` that need a generated page, in their order.
pub open spec fn kept_directories(files: Seq<Seq<char>>, ds: Seq<Seq<char>>) -> Seq<Seq<char>>
    decreases ds.len(),
{
    if ds.len() == 0 {
        seq![]
    } else if has_custom_page(files, ds.last()) {
        kept_directories(files, ds.drop_last())
    } else {
        kept_directories(files, ds.drop_last()).push(ds.last())
    }
}

/// A generated page that lists the files of a folder.
#[derive(Debug, Clone)]
pub struct DirectoryPage {
    /// The folder, relative to the site root.
    pub directory: String,
    pub title: String,
    pub markdown: String,
    /// Where the page's HTML goes (`folder.html`).
    pub html_path: String,
    /// Where the page's Markdown goes (`folder.md`).
    pub md_path: String,
    /// The folder has no `index.md` source, so an `index.html` left in it is stale.
    pub remove_legacy_index: bool,
}

/// `p` is the generated page of folder `d` among the `files`.
pub open spec fn page_is(p: DirectoryPage, files: Seq<Seq<char>>, d: Seq<char>) -> bool {
    &&& p.directory@ == d
    &&& p.title@ == folder_title(d)
    &&& p.markdown@ == directory_markdown(files, d)
    &&& p.html_path@ == with_extension(d, "html"@)
    &&& p.md_path@ == with_extension(d, "md"@)
    &&& p.remove_legacy_index == !files.contains(d + "/index.md"@)
}

pub(crate) fn folder_title_exec(d: &[char]) -> (r: Vec<char>)
    ensures
        r@ == folder_title(d@),
{
    let name = file_name_exec(d);
    let mut r: Vec<char> = Vec::new();
    let mut i: usize = 0;
    while i < name.len()
        invariant
            i <= name.len(),
            r@ == name@.take(i as int).map_values(|c: char| if c == '_' { ' ' } else { c }),
        decreases name.len() - i,
    {
        if name[i] == '_' {
            r.push(' ');
        } else {
            r.push(name[i]);
        }
        assert(r@ =~= name@.take(i + 1).map_values(|c: char| if c == '_' { ' ' } else { c }));
        i = i + 1;
    }
    assert(name@.take(name.len() as int) =~= name@);
    r
}

fn directory_markdown_exec(files: &Vec<Vec<char>>, d: &[char], title: &[char]) -> (r: Vec<char>)
    requires
        title@ == folder_title(d@),
    ensures
        r@ == directory_markdown(views(files@), d@),
{
    let ghost fv = views(files@);
    let mut r: Vec<char> = Vec::new();
    push_str(&mut r, "# ");
    push_chars(&mut r, title);
    push_str(&mut r, "\n");
    let ghost head = r@;
    let mut i: usize = 0;
    while i < files.len()
        invariant
            i <= files.len(),
            fv == views(files@),
            r@ == head + listing(d@, files_in(fv.take(i as int), d@)),
        decreases files.len() - i,
    {
        let f = &files[i];
        assert(fv.take(i + 1).drop_last() =~= fv.take(i as int));
        assert(fv.take(i + 1).last() == f@);
        let p = parent_exec(f.as_slice());
        if crate::text::chars_eq(p.as_slice(), d) {
            let name = file_name_exec(f.as_slice());
            let s = stem_exec(name.as_slice());
            let ghost before = r@;
            push_str(&mut r, "\n- [");
            push_chars(&mut r, s.as_slice());
            push_str(&mut r, "](");
            push_chars(&mut r, d);
            push_str(&mut r, "/");
            push_chars(&mut r, s.as_slice());
            push_str(&mut r, ".html)\n");
            assert(r@ =~= before + listing_entry(d@, f@));
            let ghost fs = files_in(fv.take(i as int), d@);
            assert(fs.push(f@).drop_last() =~= fs);
        }
        i = i + 1;
    }
    assert(fv.take(files.len() as int) =~= fv);
    r
}

/// The pages of the folders that hold source files: one per folder, in the
/// order of paths, except for folders with a source page of their own
/// (`folder.md`). Each lists the folder's files in the order given.
pub fn directory_pages(files: &[String]) -> (pages: Vec<DirectoryPage>)
    ensures
        pages.len() == kept_directories(texts(files@), sorted_directories(texts(files@))).len(),
        forall|i: int|
            0 <= i < pages.len() ==> page_is(
                #[trigger] pages@[i],
                texts(files@),
                kept_directories(texts(files@), sorted_directories(texts(files@)))[i],
            ),
{
    let fs = to_chars(files);
    let ghost fv = views(fs@);
    let mut dirs: Vec<Vec<char>> = Vec::new();
    let mut i: usize = 0;
    while i < fs.len()
        invariant
            i <= fs.len(),
            fv == views(fs@),
            strictly_sorted(views(dirs@)),
            forall|y: Seq<char>|
                views(dirs@).contains(y) <==> is_directory_of(fv.take(i as int), y),
        decreases fs.len() - i,
    {
        let p = parent_exec(fs[i].as_slice());
        let ghost pv = p@;
        assert(fv[i as int] == fs@[i as int]@);
        if p.len() > 0 {
            insert_sorted(&mut dirs, p);
        }
        assert forall|y: Seq<char>|
            views(dirs@).contains(y) <==> is_directory_of(fv.take(i + 1), y) by {
            if is_directory_of(fv.take(i + 1), y) {
                let k = choose|k: int| 0 <= k < i + 1 && #[trigger] parent(fv.take(i + 1)[k]) == y;
                if k < i {
                    assert(fv.take(i as int)[k] == fv.take(i + 1)[k]);
                }
            }
            if is_directory_of(fv.take(i as int), y) {
                let k = choose|k: int| 0 <= k < i && #[trigger] parent(fv.take(i as int)[k]) == y;
                assert(fv.take(i + 1)[k] == fv.take(i as int)[k]);
            }
            if y == pv && pv.len() > 0 {
                assert(fv.take(i + 1)[i as int] == fv[i as int]);
            }
        }
        i = i + 1;
    }
    assert(fv.take(fs.len() as int) =~= fv);
    assert(fv == texts(files@));
    proof {
        let ds = sorted_directories(fv);
        assert(strictly_sorted(views(dirs@)) && forall|y: Seq<char>|
            views(dirs@).contains(y) <==> is_directory_of(fv, y));
        lemma_sorted_unique(views(dirs@), ds);
    }
    let ghost ds = views(dirs@);
    let mut pages: Vec<DirectoryPage> = Vec::new();
    let mut j: usize = 0;
    while j < dirs.len()
        invariant
            j <= dirs.len(),
            fv == views(fs@),
            ds == views(dirs@),
            pages.len() == kept_directories(fv, ds.take(j as int)).len(),
            forall|k: int|
                0 <= k < pages.len() ==> page_is(
                    #[trigger] pages@[k],
                    fv,
                    kept_directories(fv, ds.take(j as int))[k],
                ),
        decreases dirs.len() - j,
    {
        let d = &dirs[j];
        assert(ds.take(j + 1).drop_last() =~= ds.take(j as int));
        assert(ds.take(j + 1).last() == d@);
        let mut custom = d.clone();
        push_str(&mut custom, ".md");
        if !contains_path(&fs, custom.as_slice()) {
            let title = folder_title_exec(d.as_slice());
            let markdown = directory_markdown_exec(&fs, d.as_slice(), title.as_slice());
            let html_path = with_extension_exec(d.as_slice(), "html");
            let md_path = with_extension_exec(d.as_slice(), "md");
            let mut index = d.clone();
            push_str(&mut index, "/index.md");
            let has_index = contains_path(&fs, index.as_slice());
            let page = DirectoryPage {
                directory: string_of(d.as_slice()),
                title: string_of(title.as_slice()),
                markdown: string_of(markdown.as_slice()),
                html_path: string_of(html_path.as_slice()),
                md_path: string_of(md_path.as_slice()),
                remove_legacy_index: !has_index,
            };
            let ghost before = pages@;
            pages.push(page);
            assert forall|k: int|
                0 <= k < pages.len() implies page_is(
                #[trigger] pages@[k],
                fv,
                kept_directories(fv, ds.take(j + 1))[k],
            ) by {
                if k < before.len() {
                    assert(pages@[k] == before[k]);
                }
            }
        }
        j = j + 1;
    }
    assert(ds.take(dirs.len() as int) =~= ds);
    pages
}

/// What the site files need to know of a page's frontmatter.
#[derive(Debug, Clone)]
pub struct PageMetadata {
    pub title: Option<String>,
    pub description: Option<String>,
    pub language: Option<String>,
    pub publish_date: Option<Timestamp>,
    pub last_updated_at: Option<Timestamp>,
    pub include_in_rss: bool,
    pub include_in_sitemap: bool,
}

/// `m` is the frontmatter of `markdown`.
pub open spec fn metadata_is(m: PageMetadata, markdown: Seq<char>) -> bool {
    &&& opt_view(m.title) == fm_text(markdown, "title"@)
    &&& opt_view(m.description) == fm_text(markdown, "description"@)
    &&& opt_view(m.language) == fm_text(markdown, "language"@)
    &&& m.publish_date == fm_date(markdown, "publish_date"@)
    &&& m.last_updated_at == fm_date(markdown, "last_updated_at"@)
    &&& m.include_in_rss == fm_flag(markdown, "include_in_rss"@)
    &&& m.include_in_sitemap == fm_flag(markdown, "include_in_sitemap"@)
}

/// The HTML page of a folder's listing: its Markdown rendered, under the
/// folder's title, at the place of its Markdown page, with a link to the
/// feed when `rss`.
pub fn directory_page_html(page: &DirectoryPage, rss: bool) -> (html: String)
    ensures
        html@ == site_page(
            page.title@,
            markdown_html(page.markdown@),
            page.md_path@,
            seq![],
            None,
            None,
            None,
            None,
            None,
            rss,
        ),
{
    let body = markdown_to_html(page.markdown.as_str());
    let none: Vec<String> = Vec::new();
    assert(texts(none@) =~= Seq::<Seq<char>>::empty());
    render_site_page(
        page.title.as_str(),
        body.as_str(),
        page.md_path.as_str(),
        none.as_slice(),
        None,
        None,
        None,
        None,
        None,
        rss,
    )
}

/// The metadata of a page source, read from its frontmatter.
pub fn page_metadata(markdown: &str) -> (m: PageMetadata)
    ensures
        metadata_is(m, markdown@),
{
    let fm = parse(markdown);
    assert(parsed(fm, markdown@));
    PageMetadata {
        title: fm.title,
        description: fm.description,
        language: fm.language,
        publish_date: fm.publish_date,
        last_updated_at: fm.last_updated_at,
        include_in_rss: fm.include_in_rss,
        include_in_sitemap: fm.include_in_sitemap,
    }
}

/// A Markdown source of the site: its path relative to the root and its metadata.
#[derive(Debug, Clone)]
pub struct SourcePage {
    pub path: String,
    pub metadata: PageMetadata,
}

/// The paths of the sources.
pub open spec fn source_paths(sources: Seq<SourcePage>) -> Seq<Seq<char>> {
    sources.map_values(|s: SourcePage| s.path@)
}

/// The last source at path `p` (as a map from paths that later entries overwrite).
pub open spec fn source_at(sources: Seq<SourcePage>, p: Seq<char>) -> Option<SourcePage>
    decreases sources.len(),
{
    if sources.len() == 0 {
        None
    } else if sources.last().path@ == p {
        Some(sources.last())
    } else {
        source_at(sources.drop_last(), p)
    }
}

fn source_index(sources: &[SourcePage], p: &[char]) -> (r: Option<usize>)
    ensures
        match r {
            Some(i) => i < sources.len() && source_at(sources@, p@) == Some(sources@[i as int]),
            None => source_at(sources@, p@) is None,
        },
{
    let mut j = sources.len();
    assert(sources@.take(j as int) =~= sources@);
    while j > 0
        invariant
            j <= sources.len(),
            source_at(sources@, p@) == source_at(sources@.take(j as int), p@),
        decreases j,
    {
        let sp = chars_of(sources[j - 1].path.as_str());
        if crate::text::chars_eq(sp.as_slice(), p) {
            return Some(j - 1);
        }
        assert(sources@.take(j as int).drop_last() =~= sources@.take(j - 1));
        j = j - 1;
    }
    None
}

/// All pages of the site, sources and generated folder pages, each once, in
/// the order of paths.
pub fn markdown_pages(sources: &[SourcePage], generated: &[String]) -> (pages: Vec<String>)
    ensures
        strictly_sorted(texts(pages@)),
        forall|y: Seq<char>|
            texts(pages@).contains(y) <==> (source_paths(sources@).contains(y) || texts(
                generated@,
            ).contains(y)),
{
    let ghost sp = source_paths(sources@);
    let ghost gp = texts(generated@);
    let mut v: Vec<Vec<char>> = Vec::new();
    let mut i: usize = 0;
    while i < sources.len()
        invariant
            i <= sources.len(),
            sp == source_paths(sources@),
            strictly_sorted(views(v@)),
            forall|y: Seq<char>| views(v@).contains(y) <==> sp.take(i as int).contains(y),
        decreases sources.len() - i,
    {
        let x = chars_of(sources[i].path.as_str());
        let ghost xv = x@;
        insert_sorted(&mut v, x);
        assert forall|y: Seq<char>| views(v@).contains(y) <==> sp.take(i + 1).contains(y) by {
            if sp.take(i + 1).contains(y) {
                let k = choose|k: int| 0 <= k < i + 1 && #[trigger] sp.take(i + 1)[k] == y;
                if k < i {
                    assert(sp.take(i as int)[k] == y);
                }
            }
            if sp.take(i as int).contains(y) {
                let k = choose|k: int| 0 <= k < i && #[trigger] sp.take(i as int)[k] == y;
                assert(sp.take(i + 1)[k] == y);
            }
            if y == xv {
                assert(sp.take(i + 1)[i as int] == y);
            }
        }
        i = i + 1;
    }
    assert(sp.take(sources.len() as int) =~= sp);
    let mut j: usize = 0;
    while j < generated.len()
        invariant
            j <= generated.len(),
            gp == texts(generated@),
            strictly_sorted(views(v@)),
            forall|y: Seq<char>|
                #[trigger] views(v@).contains(y) <==> (sp.contains(y) || gp.take(j as int).contains(
                    y,
                )),
        decreases generated.len() - j,
    {
        let x = chars_of(generated[j].as_str());
        let ghost xv = x@;
        assert(xv == gp[j as int]);
        let ghost old_v = views(v@);
        insert_sorted(&mut v, x);
        assert forall|y: Seq<char>|
            #[trigger] views(v@).contains(y) <==> (sp.contains(y) || gp.take(j + 1).contains(y)) by {
            assert(old_v.contains(y) <==> (sp.contains(y) || gp.take(j as int).contains(y)));
            assert(views(v@).contains(y) <==> (old_v.contains(y) || y == xv));
            if gp.take(j + 1).contains(y) {
                let k = choose|k: int| 0 <= k < j + 1 && #[trigger] gp.take(j + 1)[k] == y;
                if k < j {
                    assert(gp.take(j as int)[k] == y);
                }
            }
            if gp.take(j as int).contains(y) {
                let k = choose|k: int| 0 <= k < j && #[trigger] gp.take(j as int)[k] == y;
                assert(gp.take(j + 1)[k] == y);
            }
            if y == xv {
                assert(gp.take(j + 1)[j as int] == y);
            }
        }
        j = j + 1;
    }
    assert(gp.take(generated.len() as int) =~= gp);
    let mut out: Vec<String> = Vec::new();
    let mut k: usize = 0;
    while k < v.len()
        invariant
            k <= v.len(),
            texts(out@) == views(v@).take(k as int),
        decreases v.len() - k,
    {
        let s = string_of(v[k].as_slice());
        let ghost before = out@;
        out.push(s);
        assert(texts(out@) =~= texts(before).push(s@));
        assert(texts(out@) =~= views(v@).take(k + 1));
        k = k + 1;
    }
    assert(views(v@).take(v.len() as int) =~= views(v@));
    out
}

/// The date a page was last changed: its last update, else its publication,
/// else `date`.
pub open spec fn changed_at(m: PageMetadata, date: Timestamp) -> Timestamp {
    match m.last_updated_at {
        Some(t) => t,
        None => match m.publish_date {
            Some(t) => t,
            None => date,
        },
    }
}

fn changed_at_exec(m: &PageMetadata, date: Timestamp) -> (t: Timestamp)
    ensures
        t == changed_at(*m, date),
{
    match m.last_updated_at {
        Some(t) => t,
        None => match m.publish_date {
            Some(t) => t,
            None => date,
        },
    }
}

/// The sitemap entry of a page; none for a source that leaves the sitemap.
pub open spec fn sitemap_entry(
    domain: Seq<char>,
    page: Seq<char>,
    source: Option<SourcePage>,
    date: Timestamp,
) -> Seq<char> {
    match source {
        Some(s) if !s.metadata.include_in_sitemap => seq![],
        _ => {
            let lastmod = match source {
                Some(s) => changed_at(s.metadata, date),
                None => date,
            };
            "  <url>\n    <loc>"@ + url_of(domain, with_extension(page, "html"@))
                + "</loc>\n    <lastmod>"@ + or_empty(rfc3339_seconds(lastmod))
                + "</lastmod>\n  </url>\n"@
        },
    }
}

pub open spec fn sitemap_entries(
    domain: Seq<char>,
    pages: Seq<Seq<char>>,
    sources: Seq<SourcePage>,
    date: Timestamp,
) -> Seq<char>
    decreases pages.len(),
{
    if pages.len() == 0 {
        seq![]
    } else {
        sitemap_entries(domain, pages.drop_last(), sources, date) + sitemap_entry(
            domain,
            pages.last(),
            source_at(sources, pages.last()),
            date,
        )
    }
}

pub const SITEMAP_START: &'static str = "<?xml version=\"1.0\" encoding=\"UTF-8\"?>\n<urlset xmlns=\"http://sitemaps.org\">\n";

pub open spec fn sitemap_text(
    domain: Seq<char>,
    pages: Seq<Seq<char>>,
    sources: Seq<SourcePage>,
    date: Timestamp,
) -> Seq<char> {
    SITEMAP_START@ + sitemap_entries(domain, pages, sources, date) + "</urlset>\n"@
}

/// The sitemap: one entry per page in the given order, except sources that
/// leave it, with the page's address and the date it last changed (`date`
/// for pages without one).
pub fn sitemap_xml(domain: &str, pages: &[String], sources: &[SourcePage], date: Timestamp) -> (xml:
    String)
    ensures
        xml@ == sitemap_text(domain@, texts(pages@), sources@, date),
{
    let ghost pv = texts(pages@);
    let mut out: Vec<char> = Vec::new();
    push_str(&mut out, SITEMAP_START);
    let mut i: usize = 0;
    while i < pages.len()
        invariant
            i <= pages.len(),
            pv == texts(pages@),
            out@ == SITEMAP_START@ + sitemap_entries(domain@, pv.take(i as int), sources@, date),
        decreases pages.len() - i,
    {
        let page = chars_of(pages[i].as_str());
        assert(page@ == pv[i as int]);
        assert(pv.take(i + 1).drop_last() =~= pv.take(i as int));
        let ghost before = out@;
        let found = source_index(sources, page.as_slice());
        let skip = match found {
            Some(k) => !sources[k].metadata.include_in_sitemap,
            None => false,
        };
        if !skip {
            let lastmod = match found {
                Some(k) => changed_at_exec(&sources[k].metadata, date),
                None => date,
            };
            let html = with_extension_exec(page.as_slice(), "html");
            let html_s = string_of(html.as_slice());
            let loc = page_url(domain, html_s.as_str());
            let stamp = rfc3339_secs(lastmod);
            push_str(&mut out, "  <url>\n    <loc>");
            push_str(&mut out, loc.as_str());
            push_str(&mut out, "</loc>\n    <lastmod>");
            push_str(&mut out, stamp.as_str());
            push_str(&mut out, "</lastmod>\n  </url>\n");
        }
        assert(out@ =~= before + sitemap_entry(
            domain@,
            pv[i as int],
            source_at(sources@, pv[i as int]),
            date,
        ));
        i = i + 1;
    }
    assert(pv.take(pages.len() as int) =~= pv);
    push_str(&mut out, "</urlset>\n");
    string_of(out.as_slice())
}

pub const LLMS_START: &'static str = "[Full site content](llms-full.txt): A full dump of every page on this site in one file.\n\n";

/// Text that ends with a newline, then a blank line.
pub open spec fn paragraph(t: Seq<char>) -> Seq<char> {
    t + (if ends_with(t, "\n"@) {
        seq![]
    } else {
        "\n"@
    }) + "\n"@
}

pub open spec fn llms_entries(pages: Seq<Seq<char>>) -> Seq<char>
    decreases pages.len(),
{
    if pages.len() == 0 {
        seq![]
    } else {
        llms_entries(pages.drop_last()) + "- ["@ + pages.last() + "]("@ + pages.last() + ")\n"@
    }
}

pub open spec fn llms_text(prefix: Option<Seq<char>>, pages: Seq<Seq<char>>) -> Seq<char> {
    LLMS_START@ + match prefix {
        Some(p) => paragraph(p),
        None => seq![],
    } + llms_entries(pages)
}

fn push_paragraph(out: &mut Vec<char>, t: &str)
    ensures
        final(out)@ == old(out)@ + paragraph(t@),
{
    proof {
        reveal_strlit("\n");
    }
    let tc = chars_of(t);
    push_chars(out, tc.as_slice());
    let nl = vec!['\n'];
    assert(nl@ =~= "\n"@);
    if !ends_with_exec(tc.as_slice(), nl.as_slice()) {
        push_str(out, "\n");
    }
    push_str(out, "\n");
    assert(out@ =~= old(out)@ + paragraph(t@));
}

/// llms.txt: a link to the full dump, the configured prefix as its own
/// paragraph, then a link to the Markdown of each page.
pub fn llms_txt(prefix: Option<&str>, pages: &[String]) -> (txt: String)
    ensures
        txt@ == llms_text(
            match prefix {
                Some(p) => Some(p@),
                None => None,
            },
            texts(pages@),
        ),
{
    let ghost pv = texts(pages@);
    let mut out: Vec<char> = Vec::new();
    push_str(&mut out, LLMS_START);
    match prefix {
        Some(p) => push_paragraph(&mut out, p),
        None => {},
    }
    let ghost head = out@;
    let mut i: usize = 0;
    while i < pages.len()
        invariant
            i <= pages.len(),
            pv == texts(pages@),
            out@ == head + llms_entries(pv.take(i as int)),
        decreases pages.len() - i,
    {
        assert(pv.take(i + 1).drop_last() =~= pv.take(i as int));
        let ghost before = out@;
        push_str(&mut out, "- [");
        push_str(&mut out, pages[i].as_str());
        push_str(&mut out, "](");
        push_str(&mut out, pages[i].as_str());
        push_str(&mut out, ")\n");
        assert(out@ =~= before + "- ["@ + pv[i as int] + "]("@ + pv[i as int] + ")\n"@);
        i = i + 1;
    }
    assert(pv.take(pages.len() as int) =~= pv);
    assert(out@ =~= llms_text(
        match prefix {
            Some(p) => Some(p@),
            None => None,
        },
        pv,
    ));
    string_of(out.as_slice())
}

pub open spec fn dump_text(contents: Seq<Seq<char>>) -> Seq<char>
    decreases contents.len(),
{
    if contents.len() == 0 {
        seq![]
    } else {
        dump_text(contents.drop_last()) + paragraph(contents.last())
    }
}

/// llms-full.txt: the Markdown of every page, in order, each as its own paragraph.
pub fn llms_full_txt(contents: &[String]) -> (txt: String)
    ensures
        txt@ == dump_text(texts(contents@)),
{
    let ghost cv = texts(contents@);
    let mut out: Vec<char> = Vec::new();
    let mut i: usize = 0;
    while i < contents.len()
        invariant
            i <= contents.len(),
            cv == texts(contents@),
            out@ == dump_text(cv.take(i as int)),
        decreases contents.len() - i,
    {
        assert(cv.take(i + 1).drop_last() =~= cv.take(i as int));
        push_paragraph(&mut out, contents[i].as_str());
        i = i + 1;
    }
    assert(cv.take(contents.len() as int) =~= cv);
    string_of(out.as_slice())
}

/// The value of an optional text, or `d`.
pub open spec fn text_or(t: Option<String>, d: Seq<char>) -> Seq<char> {
    match t {
        Some(s) => s@,
        None => d,
    }
}

/// The feed item of the source `s` (looked up by its path), when that page is in the feed.
pub open spec fn feed_item(
    domain: Seq<char>,
    s: SourcePage,
    sources: Seq<SourcePage>,
    date: Timestamp,
) -> Seq<char> {
    match source_at(sources, s.path@) {
        Some(src) if src.metadata.include_in_rss => item_text(
            text_or(src.metadata.title, stem(file_name(s.path@))),
            opt_view(src.metadata.description),
            opt_view(src.metadata.language),
            url_of(domain, with_extension(s.path@, "html"@)),
            changed_at(src.metadata, date),
        ),
        _ => seq![],
    }
}

pub open spec fn feed_items(
    domain: Seq<char>,
    pages: Seq<SourcePage>,
    sources: Seq<SourcePage>,
    date: Timestamp,
) -> Seq<char>
    decreases pages.len(),
{
    if pages.len() == 0 {
        seq![]
    } else {
        feed_items(domain, pages.drop_last(), sources, date) + feed_item(
            domain,
            pages.last(),
            sources,
            date,
        )
    }
}

/// The feed of the site: titled, described and in the language of the home
/// page (`index.md`), else the domain, `RSS feed` and `en`; one item per
/// source that is in the feed, in the order of the sources.
pub open spec fn feed_text(domain: Seq<char>, sources: Seq<SourcePage>, date: Timestamp) -> Seq<
    char,
> {
    let home = source_at(sources, "index.md"@);
    let title = match home {
        Some(h) => text_or(h.metadata.title, domain),
        None => domain,
    };
    let description = match home {
        Some(h) => text_or(h.metadata.description, "RSS feed"@),
        None => "RSS feed"@,
    };
    let language = match home {
        Some(h) => text_or(h.metadata.language, "en"@),
        None => "en"@,
    };
    channel_text(title, description, domain, language, date) + feed_items(
        domain,
        sources,
        sources,
        date,
    ) + FEED_END@
}

fn str_or<'a>(t: &'a Option<String>, d: &'a str) -> (r: &'a str)
    ensures
        r@ == text_or(*t, d@),
{
    match t {
        Some(s) => s.as_str(),
        None => d,
    }
}

fn opt_str<'a>(t: &'a Option<String>) -> (r: Option<&'a str>)
    ensures
        crate::rss::opt_str(r) == opt_view(*t),
{
    match t {
        Some(s) => Some(s.as_str()),
        None => None,
    }
}

/// rss.xml of the site (see `feed_text`).
pub fn rss_xml(domain: &str, sources: &[SourcePage], date: Timestamp) -> (xml: String)
    ensures
        xml@ == feed_text(domain@, sources@, date),
{
    let home_path = chars_of("index.md");
    let home = source_index(sources, home_path.as_slice());
    let (title, description, language) = match home {
        Some(h) => (
            str_or(&sources[h].metadata.title, domain),
            str_or(&sources[h].metadata.description, "RSS feed"),
            str_or(&sources[h].metadata.language, "en"),
        ),
        None => (domain, "RSS feed", "en"),
    };
    let mut out: Vec<char> = Vec::new();
    push_channel_text(&mut out, title, description, domain, language, date);
    let ghost head = out@;
    let mut i: usize = 0;
    while i < sources.len()
        invariant
            i <= sources.len(),
            out@ == head + feed_items(domain@, sources@.take(i as int), sources@, date),
        decreases sources.len() - i,
    {
        assert(sources@.take(i + 1).drop_last() =~= sources@.take(i as int));
        let ghost before = out@;
        let s = &sources[i];
        let sp = chars_of(s.path.as_str());
        match source_index(sources, sp.as_slice()) {
            Some(k) => {
                let m = &sources[k].metadata;
                if m.include_in_rss {
                    let name = file_name_exec(sp.as_slice());
                    let st = stem_exec(name.as_slice());
                    let st_s = string_of(st.as_slice());
                    let item_title = str_or(&m.title, st_s.as_str());
                    let html = with_extension_exec(sp.as_slice(), "html");
                    let html_s = string_of(html.as_slice());
                    let link = page_url(domain, html_s.as_str());
                    let changed = changed_at_exec(m, date);
                    push_item_text(
                        &mut out,
                        item_title,
                        opt_str(&m.description),
                        opt_str(&m.language),
                        link.as_str(),
                        changed,
                    );
                }
            },
            None => {},
        }
        assert(out@ =~= before + feed_item(domain@, sources@[i as int], sources@, date));
        i = i + 1;
    }
    assert(sources@.take(sources.len() as int) =~= sources@);
    push_str(&mut out, FEED_END);
    string_of(out.as_slice())
}

/// The folders that get a generated page are the folders without a source
/// page of their own, in the order of the folders.
pub proof fn lemma_kept_directories(files: Seq<Seq<char>>, ds: Seq<Seq<char>>)
    ensures
        forall|d: Seq<char>|
            kept_directories(files, ds).contains(d) <==> (ds.contains(d) && !has_custom_page(
                files,
                d,
            )),
        strictly_sorted(ds) ==> strictly_sorted(kept_directories(files, ds)),
    decreases ds.len(),
{
    if ds.len() > 0 {
        let prev = ds.drop_last();
        lemma_kept_directories(files, prev);
        let kp = kept_directories(files, prev);
        let k = kept_directories(files, ds);
        assert forall|d: Seq<char>|
            k.contains(d) <==> (ds.contains(d) && !has_custom_page(files, d)) by {
            if ds.contains(d) {
                let i = choose|i: int| 0 <= i < ds.len() && ds[i] == d;
                if i < ds.len() - 1 {
                    assert(prev[i] == d);
                }
            }
            if prev.contains(d) {
                let i = choose|i: int| 0 <= i < prev.len() && prev[i] == d;
                assert(ds[i] == d);
            }
            if !has_custom_page(files, ds.last()) {
                assert(k == kp.push(ds.last()));
                if kp.contains(d) {
                    let i = choose|i: int| 0 <= i < kp.len() && kp[i] == d;
                    assert(k[i] == d);
                }
                if k.contains(d) {
                    let i = choose|i: int| 0 <= i < k.len() && k[i] == d;
                    if i < kp.len() {
                        assert(kp[i] == d);
                    }
                }
                assert(k[k.len() - 1] == ds.last());
            }
        }
        if strictly_sorted(ds) {
            assert forall|a: int, b: int| 0 <= a < b < prev.len() implies path_lt(
                #[trigger] prev[a],
                #[trigger] prev[b],
            ) by {
                assert(prev[a] == ds[a] && prev[b] == ds[b]);
            }
            if !has_custom_page(files, ds.last()) {
                assert(k == kp.push(ds.last()));
                assert forall|a: int, b: int| 0 <= a < b < k.len() implies path_lt(
                    #[trigger] k[a],
                    #[trigger] k[b],
                ) by {
                    if b == k.len() - 1 {
                        assert(kp.contains(k[a])) by {
                            assert(kp[a] == k[a]);
                        }
                        assert(prev.contains(k[a]));
                        let i = choose|i: int| 0 <= i < prev.len() && prev[i] == k[a];
                        assert(ds[i] == k[a]);
                        assert(ds[ds.len() - 1] == ds.last());
                    } else {
                        assert(k[a] == kp[a] && k[b] == kp[b]);
                    }
                }
            }
        }
    }
}

/// A configured domain always becomes an address with a scheme.
pub proof fn lemma_domain_has_scheme(domain: Seq<char>)
    ensures
        starts_with(normalized_domain(domain), "http://"@) || starts_with(
            normalized_domain(domain),
            "https://"@,
        ),
{
    reveal_strlit("https://");
    let d = trim_end_set(trim(domain), seq!['/']);
    if !(starts_with(d, "http://"@) || starts_with(d, "https://"@)) {
        let n = "https://"@ + d;
        assert(n.take(8) =~= "https://"@);
    }
}


/// A relative path whose components are all non-empty: no `/` at either
/// end and none doubled, as the paths of files under the input directory are.
pub open spec fn clean_path(p: Seq<char>) -> bool {
    forall|i: int| 0 <= i < p.len() && #[trigger] p[i] == '/' ==> 0 < i && i + 1 < p.len() && p[i + 1] != '/'
}

/// The file that `href`, written in a page of the folder `dir`, points to:
/// each leading `../` leaves one folder while there is one to leave, and
/// the rest is read inside the folder reached.
pub open spec fn resolve(dir: Seq<char>, href: Seq<char>) -> Seq<char>
    decreases href.len(),
{
    if dir.len() > 0 && starts_with(href, "../"@) {
        proof {
            reveal_strlit("../");
        }
        resolve(parent(dir), href.skip(3))
    } else if dir.len() == 0 {
        href
    } else {
        dir + "/"@ + href
    }
}

/// How many folders `dir` names.
pub open spec fn folder_count(dir: Seq<char>) -> nat {
    if dir.len() == 0 {
        0
    } else {
        depth(dir) + 1
    }
}

proof fn lemma_ups_front(n: nat)
    ensures
        ups(n + 1) == "../"@ + ups(n),
    decreases n,
{
    if n > 0 {
        lemma_ups_front((n - 1) as nat);
        assert(ups(n + 1) =~= "../"@ + ups(n));
    } else {
        assert(ups(0) =~= seq![]);
        assert(ups(1) =~= "../"@);
    }
}

/// No `/` from `j` on leaves the depth of the text before `j`.
proof fn lemma_depth_before(s: Seq<char>, j: int)
    requires
        0 <= j <= s.len(),
        forall|i: int| j <= i < s.len() ==> s[i] != '/',
    ensures
        depth(s) == depth(s.take(j)),
    decreases s.len(),
{
    if s.len() > j {
        lemma_depth_before(s.drop_last(), j);
        assert(s.drop_last().take(j) =~= s.take(j));
    } else {
        assert(s.take(j) =~= s);
    }
}

/// The folder of a clean path: clean, and as many folders as the path has `/`.
proof fn lemma_parent_folders(p: Seq<char>)
    requires
        clean_path(p),
    ensures
        clean_path(parent(p)),
        folder_count(parent(p)) == depth(p),
{
    lemma_last_index(p, '/');
    let k = last_index(p, '/');
    if k < 0 {
        lemma_depth_before(p, 0);
        assert(p.take(0) =~= seq![]);
    } else {
        let d = p.take(k);
        assert(k > 0);
        lemma_depth_before(p, k + 1);
        assert(p.take(k + 1).drop_last() =~= d);
        assert forall|i: int| 0 <= i < d.len() && #[trigger] d[i] == '/' implies 0 < i && i + 1 < d.len()
            && d[i + 1] != '/' by {
            assert(p[i] == '/');
            assert(p[i + 1] != '/');
        }
    }
}

proof fn lemma_resolve_ups(dir: Seq<char>, t: Seq<char>)
    requires
        clean_path(dir),
    ensures
        resolve(dir, ups(folder_count(dir)) + t) == t,
    decreases dir.len(),
{
    reveal_strlit("../");
    let c = folder_count(dir);
    if c > 0 {
        lemma_ups_front((c - 1) as nat);
        let rest = ups((c - 1) as nat) + t;
        let h = ups(c) + t;
        assert(h =~= "../"@ + rest);
        assert(h.take(3) =~= "../"@);
        assert(h.skip(3) =~= rest);
        lemma_parent_folders(dir);
        lemma_last_index(dir, '/');
        lemma_resolve_ups(parent(dir), t);
    } else {
        assert(ups(0) + t =~= t);
    }
}

/// Shared files are reached from every page: written in a page at the clean
/// path `page`, the address `relative_asset_href` gives for a root-level
/// file `target` leads from the page's folder back to `target` at the root.
pub proof fn lemma_asset_href_reaches_root(page: Seq<char>, target: Seq<char>)
    requires
        clean_path(page),
    ensures
        resolve(parent(page), relative_href(page, target)) == target,
{
    lemma_parent_folders(page);
    lemma_resolve_ups(parent(page), target);
}


/// A folder's listing holds exactly the sources directly in that folder, in
/// the order of the sources: a file of a subfolder is listed only on the
/// subfolder's own page.
pub proof fn lemma_listing_holds_direct_files(files: Seq<Seq<char>>, d: Seq<char>)
    ensures
        forall|f: Seq<char>|
            #[trigger] files_in(files, d).contains(f) <==> (files.contains(f) && parent(f) == d),
        forall|i: int|
            0 <= i < files_in(files, d).len() ==> parent(#[trigger] files_in(files, d)[i]) == d,
    decreases files.len(),
{
    if files.len() > 0 {
        let rest = files.drop_last();
        lemma_listing_holds_direct_files(rest, d);
        assert forall|f: Seq<char>|
            #[trigger] files_in(files, d).contains(f) <==> (files.contains(f) && parent(f) == d) by {
            if files.contains(f) && parent(f) == d {
                let k = choose|k: int| 0 <= k < files.len() && files[k] == f;
                let fi = files_in(files, d);
                if k < files.len() - 1 {
                    assert(rest[k] == f);
                    assert(rest.contains(f));
                    assert(files_in(rest, d).contains(f));
                    let m = choose|m: int| 0 <= m < files_in(rest, d).len() && files_in(rest, d)[m]
                        == f;
                    assert(fi[m] == f);
                } else {
                    assert(fi[fi.len() - 1] == f);
                }
            }
            if files_in(files, d).contains(f) {
                let k = choose|k: int| 0 <= k < files_in(files, d).len() && files_in(files, d)[k] == f;
                if parent(files.last()) == d && k == files_in(files, d).len() - 1 {
                    assert(files[files.len() - 1] == f);
                } else {
                    assert(files_in(rest, d)[k] == f);
                    assert(files_in(rest, d).contains(f));
                    let m = choose|m: int| 0 <= m < rest.len() && rest[m] == f;
                    assert(files[m] == f);
                }
            }
        }
        assert forall|i: int| 0 <= i < files_in(files, d).len() implies parent(
            #[trigger] files_in(files, d)[i],
        ) == d by {
            if parent(files.last()) == d && i == files_in(files, d).len() - 1 {
            } else {
                assert(files_in(files, d)[i] == files_in(rest, d)[i]);
            }
        }
    }
}

/// What is cut off a trimmed text's end leaves no cut character last.
proof fn lemma_trim_end_set_last(s: Seq<char>, set: Seq<char>)
    ensures
        trim_end_set(s, set).len() > 0 ==> !set.contains(trim_end_set(s, set).last()),
        trim_end_set(s, set).len() <= s.len(),
        trim_end_set(s, set) == s.take(trim_end_set(s, set).len() as int),
    decreases s.len(),
{
    if s.len() > 0 && set.contains(s.last()) {
        lemma_trim_end_set_last(s.drop_last(), set);
        assert(s.drop_last().take(trim_end_set(s, set).len() as int) =~= s.take(
            trim_end_set(s, set).len() as int,
        ));
    } else {
        assert(s.take(s.len() as int) =~= s);
    }
}

/// A text with no whitespace at either end is its own trim.
proof fn lemma_trim_of_clean(s: Seq<char>)
    requires
        s.len() > 0,
        !is_white(s[0]),
        !is_white(s.last()),
    ensures
        trim(s) == s,
{
}

/// A domain that already names its scheme keeps it: once trimmed and rid of
/// trailing slashes, a domain starting with `http://` or `https://` is the
/// base address as it stands; no second scheme is put in front.
pub proof fn lemma_domain_scheme_kept(domain: Seq<char>)
    requires
        starts_with(trim_end_set(trim(domain), seq!['/']), "http://"@) || starts_with(
            trim_end_set(trim(domain), seq!['/']),
            "https://"@,
        ),
    ensures
        normalized_domain(domain) == trim_end_set(trim(domain), seq!['/']),
{
}

/// Normalizing a base address again changes nothing: the address of a
/// domain whose cleaned text (trimmed, trailing slashes removed) is not
/// empty and does not end in whitespace is its own normalized form.
pub proof fn lemma_domain_normalized_once(domain: Seq<char>)
    requires
        trim_end_set(trim(domain), seq!['/']).len() > 0,
        !is_white(trim_end_set(trim(domain), seq!['/']).last()),
    ensures
        normalized_domain(normalized_domain(domain)) == normalized_domain(domain),
{
    reveal_strlit("https://");
    reveal_strlit("http://");
    let e = trim_end_set(trim(domain), seq!['/']);
    let n = normalized_domain(domain);
    lemma_trim_end_set_last(trim(domain), seq!['/']);
    assert(!seq!['/'].contains(e.last()));
    assert(e.last() != '/') by {
        if e.last() == '/' {
            assert(seq!['/'][0] == '/');
        }
    }
    if starts_with(e, "http://"@) || starts_with(e, "https://"@) {
        assert(n == e);
        assert(e[0] == 'h') by {
            if starts_with(e, "http://"@) {
                assert(e.take(7)[0] == 'h');
            } else {
                assert(e.take(8)[0] == 'h');
            }
        }
    } else {
        assert(n == "https://"@ + e);
        assert(n[0] == 'h');
        assert(n.last() == e.last());
        assert(n.take(8) =~= "https://"@);
    }
    assert(!is_white(n[0]));
    lemma_trim_of_clean(n);
    assert(trim_end_set(n, seq!['/']) == n) by {
        assert(!seq!['/'].contains(n.last())) by {
            if seq!['/'].contains(n.last()) {
                let k = choose|k: int| 0 <= k < 1 && seq!['/'][k] == n.last();
                assert(seq!['/'][k] == '/');
            }
        }
    }
}


/// `b` occurs in `a + b + c` right after `a`.
proof fn lemma_occurs_between(a: Seq<char>, b: Seq<char>, c: Seq<char>)
    ensures
        occurs_at(a + b + c, b, a.len() as int),
{
    assert((a + b + c).subrange(a.len() as int, a.len() + b.len() as int) =~= b);
}

/// The entry of every listed page stands in the sitemap's entries.
proof fn lemma_sitemap_has_entry(
    domain: Seq<char>,
    pages: Seq<Seq<char>>,
    sources: Seq<SourcePage>,
    date: Timestamp,
    k: int,
)
    requires
        0 <= k < pages.len(),
    ensures
        exists|j: int|
            occurs_at(
                sitemap_entries(domain, pages, sources, date),
                sitemap_entry(domain, pages[k], source_at(sources, pages[k]), date),
                j,
            ),
    decreases pages.len(),
{
    let rest = pages.drop_last();
    let e = sitemap_entry(domain, pages[k], source_at(sources, pages[k]), date);
    if k < pages.len() - 1 {
        lemma_sitemap_has_entry(domain, rest, sources, date, k);
        assert(rest[k] == pages[k]);
        let j = choose|j: int| occurs_at(sitemap_entries(domain, rest, sources, date), e, j);
        lemma_occurs_in_prefix(
            sitemap_entries(domain, rest, sources, date),
            sitemap_entry(domain, pages.last(), source_at(sources, pages.last()), date),
            e,
            j,
        );
        assert(occurs_at(sitemap_entries(domain, pages, sources, date), e, j));
    } else {
        lemma_occurs_between(sitemap_entries(domain, rest, sources, date), e, seq![]);
        assert(sitemap_entries(domain, rest, sources, date) + e + seq![] =~= sitemap_entries(
            domain,
            pages,
            sources,
            date,
        ));
        assert(occurs_at(
            sitemap_entries(domain, pages, sources, date),
            e,
            sitemap_entries(domain, rest, sources, date).len() as int,
        ));
    }
}

/// The address and last-modified date of a page as the sitemap writes them.
pub open spec fn lastmod_line(domain: Seq<char>, page: Seq<char>, t: Timestamp) -> Seq<char> {
    "<loc>"@ + url_of(domain, with_extension(page, "html"@)) + "</loc>\n    <lastmod>"@ + or_empty(
        rfc3339_seconds(t),
    ) + "</lastmod>"@
}

proof fn lemma_sitemap_writes(
    domain: Seq<char>,
    pages: Seq<Seq<char>>,
    sources: Seq<SourcePage>,
    date: Timestamp,
    k: int,
    t: Timestamp,
)
    requires
        0 <= k < pages.len(),
        source_at(sources, pages[k]) matches Some(s) ==> s.metadata.include_in_sitemap,
        t == match source_at(sources, pages[k]) {
            Some(s) => changed_at(s.metadata, date),
            None => date,
        },
    ensures
        exists|j: int|
            occurs_at(sitemap_text(domain, pages, sources, date), lastmod_line(domain, pages[k], t), j),
{
    reveal_strlit("  <url>\n    ");
    reveal_strlit("\n  </url>\n");
    reveal_strlit("  <url>\n    <loc>");
    reveal_strlit("<loc>");
    reveal_strlit("</lastmod>\n  </url>\n");
    reveal_strlit("</lastmod>");
    lemma_sitemap_has_entry(domain, pages, sources, date, k);
    let es = sitemap_entries(domain, pages, sources, date);
    let e = sitemap_entry(domain, pages[k], source_at(sources, pages[k]), date);
    let line = lastmod_line(domain, pages[k], t);
    assert(e =~= "  <url>\n    "@ + line + "\n  </url>\n"@);
    lemma_occurs_between("  <url>\n    "@, line, "\n  </url>\n"@);
    let j = choose|j: int| occurs_at(es, e, j);
    assert(occurs_at(es, line, j + 12)) by {
        assert(es.subrange(j + 12, j + 12 + line.len() as int) =~= e.subrange(12, 12 + line.len() as int));
    }
    lemma_occurs_in_suffix(SITEMAP_START@, es, line, j + 12);
    lemma_occurs_in_prefix(SITEMAP_START@ + es, "</urlset>\n"@, line, SITEMAP_START@.len() + j + 12);
    assert(occurs_at(
        sitemap_text(domain, pages, sources, date),
        line,
        SITEMAP_START@.len() + j + 12,
    ));
}

/// The sitemap dates a page by its last update whenever it has one; by its
/// publication date only when it was never updated; by the generation date
/// only when it has neither.
pub proof fn lemma_sitemap_lastmod(
    domain: Seq<char>,
    pages: Seq<Seq<char>>,
    sources: Seq<SourcePage>,
    date: Timestamp,
    k: int,
    s: SourcePage,
)
    requires
        0 <= k < pages.len(),
        source_at(sources, pages[k]) == Some(s),
        s.metadata.include_in_sitemap,
    ensures
        forall|t: Timestamp|
            s.metadata.last_updated_at == Some(t) ==> exists|j: int|
                occurs_at(
                    sitemap_text(domain, pages, sources, date),
                    lastmod_line(domain, pages[k], t),
                    j,
                ),
        forall|t: Timestamp|
            s.metadata.last_updated_at is None && s.metadata.publish_date == Some(t) ==> exists|j: int|
                occurs_at(
                    sitemap_text(domain, pages, sources, date),
                    lastmod_line(domain, pages[k], t),
                    j,
                ),
        s.metadata.last_updated_at is None && s.metadata.publish_date is None ==> exists|j: int|
            occurs_at(
                sitemap_text(domain, pages, sources, date),
                lastmod_line(domain, pages[k], date),
                j,
            ),
{
    lemma_sitemap_writes(domain, pages, sources, date, k, changed_at(s.metadata, date));
}


proof fn lemma_feed_has_item(
    domain: Seq<char>,
    pages: Seq<SourcePage>,
    sources: Seq<SourcePage>,
    date: Timestamp,
    k: int,
)
    requires
        0 <= k < pages.len(),
    ensures
        exists|j: int|
            occurs_at(
                feed_items(domain, pages, sources, date),
                feed_item(domain, pages[k], sources, date),
                j,
            ),
    decreases pages.len(),
{
    let rest = pages.drop_last();
    let e = feed_item(domain, pages[k], sources, date);
    if k < pages.len() - 1 {
        lemma_feed_has_item(domain, rest, sources, date, k);
        assert(rest[k] == pages[k]);
        let j = choose|j: int| occurs_at(feed_items(domain, rest, sources, date), e, j);
        lemma_occurs_in_prefix(
            feed_items(domain, rest, sources, date),
            feed_item(domain, pages.last(), sources, date),
            e,
            j,
        );
        assert(occurs_at(feed_items(domain, pages, sources, date), e, j));
    } else {
        lemma_occurs_between(feed_items(domain, rest, sources, date), e, seq![]);
        assert(feed_items(domain, rest, sources, date) + e + seq![] =~= feed_items(
            domain,
            pages,
            sources,
            date,
        ));
        assert(occurs_at(
            feed_items(domain, pages, sources, date),
            e,
            feed_items(domain, rest, sources, date).len() as int,
        ));
    }
}

/// The address and publication date of a feed item as the feed writes them.
pub open spec fn pub_date_line(domain: Seq<char>, path: Seq<char>, t: Timestamp) -> Seq<char> {
    "<guid>"@ + xml_escape(url_of(domain, with_extension(path, "html"@)))
        + "</guid>\n      <pubDate>"@ + rss_date(t) + "</pubDate>"@
}

proof fn lemma_feed_writes(
    domain: Seq<char>,
    sources: Seq<SourcePage>,
    date: Timestamp,
    k: int,
    src: SourcePage,
)
    requires
        0 <= k < sources.len(),
        source_at(sources, sources[k].path@) == Some(src),
        src.metadata.include_in_rss,
    ensures
        exists|j: int|
            occurs_at(
                feed_text(domain, sources, date),
                pub_date_line(domain, sources[k].path@, changed_at(src.metadata, date)),
                j,
            ),
{
    reveal_strlit("    <item>\n      <title>");
    reveal_strlit("</title>\n      <description>");
    reveal_strlit("</description>\n      <link>");
    reveal_strlit("</link>\n      <guid>");
    reveal_strlit("</guid>\n      <pubDate>");
    reveal_strlit("</pubDate>\n");
    reveal_strlit("<guid>");
    reveal_strlit("</pubDate>");
    reveal_strlit("</link>\n      ");
    reveal_strlit("\n");
    let path = sources[k].path@;
    let link = url_of(domain, with_extension(path, "html"@));
    let title = text_or(src.metadata.title, stem(file_name(path)));
    let desc = opt_view(src.metadata.description);
    let t = changed_at(src.metadata, date);
    lemma_feed_has_item(domain, sources, sources, date, k);
    let items = feed_items(domain, sources, sources, date);
    let e = feed_item(domain, sources[k], sources, date);
    let line = pub_date_line(domain, path, t);
    let pre = "    <item>\n      <title>"@ + xml_escape(title) + "</title>\n      <description>"@
        + xml_escape(
        match desc {
            Some(d) => d,
            None => title,
        },
    ) + "</description>\n      <link>"@ + xml_escape(link) + "</link>\n      "@;
    let post = "\n"@ + item_language_text(opt_view(src.metadata.language)) + "    </item>\n"@;
    assert(e == item_text(title, desc, opt_view(src.metadata.language), link, t));
    assert(item_text(title, desc, opt_view(src.metadata.language), link, t) == crate::rss::item_head_text(title, desc, link, t)
        + item_language_text(opt_view(src.metadata.language)) + "    </item>\n"@);
    assert(crate::rss::item_head_text(title, desc, link, t) =~= pre + line + "\n"@);
    assert(e =~= pre + line + post);
    lemma_occurs_between(pre, line, post);
    let j = choose|j: int| occurs_at(items, e, j);
    let o = j + pre.len();
    assert(occurs_at(items, line, o)) by {
        assert(items.subrange(o, o + line.len() as int) =~= e.subrange(
            pre.len() as int,
            pre.len() + line.len() as int,
        ));
    }
    let home = source_at(sources, "index.md"@);
    let ch = channel_text(
        match home {
            Some(h) => text_or(h.metadata.title, domain),
            None => domain,
        },
        match home {
            Some(h) => text_or(h.metadata.description, "RSS feed"@),
            None => "RSS feed"@,
        },
        domain,
        match home {
            Some(h) => text_or(h.metadata.language, "en"@),
            None => "en"@,
        },
        date,
    );
    lemma_occurs_in_suffix(ch, items, line, o);
    lemma_occurs_in_prefix(ch + items, FEED_END@, line, ch.len() + o);
    assert(occurs_at(feed_text(domain, sources, date), line, ch.len() + o));
}

/// The feed dates an item by the page's last update whenever it has one;
/// by its publication date only when it was never updated; by the build
/// date only when it has neither.
pub proof fn lemma_feed_pub_date(
    domain: Seq<char>,
    sources: Seq<SourcePage>,
    date: Timestamp,
    k: int,
    src: SourcePage,
)
    requires
        0 <= k < sources.len(),
        source_at(sources, sources[k].path@) == Some(src),
        src.metadata.include_in_rss,
    ensures
        forall|t: Timestamp|
            src.metadata.last_updated_at == Some(t) ==> exists|j: int|
                occurs_at(feed_text(domain, sources, date), pub_date_line(domain, sources[k].path@, t), j),
        forall|t: Timestamp|
            src.metadata.last_updated_at is None && src.metadata.publish_date == Some(t) ==> exists|
                j: int,
            | occurs_at(feed_text(domain, sources, date), pub_date_line(domain, sources[k].path@, t), j),
        src.metadata.last_updated_at is None && src.metadata.publish_date is None ==> exists|j: int|
            occurs_at(
                feed_text(domain, sources, date),
                pub_date_line(domain, sources[k].path@, date),
                j,
            ),
{
    lemma_feed_writes(domain, sources, date, k, src);
}

/// The channel of the feed is in the home page's language: when `index.md`
/// names a language, that language follows the channel's link; `en` stands
/// there only when the home page names none or there is no home page.
pub proof fn lemma_feed_language(domain: Seq<char>, sources: Seq<SourcePage>, date: Timestamp)
    ensures
        forall|h: SourcePage, l: String|
            source_at(sources, "index.md"@) == Some(h) && h.metadata.language == Some(l) ==> exists|
                j: int,
            |
                occurs_at(
                    feed_text(domain, sources, date),
                    "</link>\n    <language>"@ + xml_escape(l@) + "</language>\n    <lastBuildDate>"@,
                    j,
                ),
        (match source_at(sources, "index.md"@) {
            Some(h) => h.metadata.language is None,
            None => true,
        }) ==> exists|j: int|
            occurs_at(
                feed_text(domain, sources, date),
                "</link>\n    <language>"@ + xml_escape("en"@) + "</language>\n    <lastBuildDate>"@,
                j,
            ),
{
    reveal_strlit("<?xml version=\"1.0\" encoding=\"UTF-8\"?>\n<rss version=\"2.0\">\n  <channel>\n    <title>");
    reveal_strlit("</title>\n    <description>");
    reveal_strlit("</description>\n    <link>");
    reveal_strlit("</link>\n    <language>");
    reveal_strlit("</language>\n    <lastBuildDate>");
    reveal_strlit("</lastBuildDate>\n");
    let home = source_at(sources, "index.md"@);
    let title = match home {
        Some(h) => text_or(h.metadata.title, domain),
        None => domain,
    };
    let desc = match home {
        Some(h) => text_or(h.metadata.description, "RSS feed"@),
        None => "RSS feed"@,
    };
    let lang = match home {
        Some(h) => text_or(h.metadata.language, "en"@),
        None => "en"@,
    };
    let pre = "<?xml version=\"1.0\" encoding=\"UTF-8\"?>\n<rss version=\"2.0\">\n  <channel>\n    <title>"@
        + xml_escape(title) + "</title>\n    <description>"@ + xml_escape(desc)
        + "</description>\n    <link>"@ + xml_escape(domain);
    let pat = "</link>\n    <language>"@ + xml_escape(lang) + "</language>\n    <lastBuildDate>"@;
    let rest = rss_date(date) + "</lastBuildDate>\n"@ + feed_items(domain, sources, sources, date)
        + FEED_END@;
    assert(feed_text(domain, sources, date) =~= pre + pat + rest);
    lemma_occurs_between(pre, pat, rest);
    assert(occurs_at(feed_text(domain, sources, date), pat, pre.len() as int));
}

} // verus!
