//! Syntax-highlighted HTML rendering for fenced code blocks.
use vstd::prelude::*;
use crate::text::{
    ascii_lower, ascii_lower_exec, chars_of, escape, is_ascii_alnum, push_chars, push_escaped,
    push_str, string_of, trim_set, trim_set_exec, eq_ignore_ascii_case, starts_with, ends_with,
    lemma_trim_set_within, is_ascii_upper,
};
use crate::time::or_empty;
use syntect::highlighting::ThemeSet;
use syntect::html::{ClassStyle, ClassedHTMLGenerator};
use syntect::parsing::SyntaxSet;
use syntect::util::LinesWithEndings;

verus! {

/// How syntect names the CSS classes of scopes (`syntect::html::ClassStyle`).
#[derive(Debug, Clone, Copy, PartialEq, Eq)]
pub enum ClassNames {
    /// One space-separated class per scope atom.
    Spaced,
    /// The same, each class with the prefix in front.
    SpacedPrefixed(&'static str),
}

/// The HTML that syntect's `ClassedHTMLGenerator`, with class names in
/// `style`, writes for `source` fed line by line (newlines kept), in the
/// bundled syntax (`SyntaxSet::load_defaults_newlines`) that `language`
/// names as a token, or Plain Text when it names none; `None` when syntect
/// fails on a line.
pub uninterp spec fn highlighted(source: Seq<char>, language: Seq<char>, style: ClassNames) -> Option<
    Seq<char>,
>;

/// The CSS that syntect writes (`css_for_theme_with_class_style`, class
/// names in `style`) for the bundled theme (`ThemeSet::load_defaults`) called
/// `name`; `None` when there is no such theme or the CSS cannot be written.
pub uninterp spec fn bundled_theme_css(name: Seq<char>, style: ClassNames) -> Option<Seq<char>>;

/// Highlight `source` with syntect: the bundled syntax set, the syntax found
/// by `find_syntax_by_token` (or `find_syntax_plain_text`, which the bundled
/// set has), a `ClassedHTMLGenerator` fed each of syntect's
/// `LinesWithEndings`, then `finalize`. This is `highlighted` of the arguments.
#[verifier::external_body]
fn highlight(source: &str, language: &str, style: ClassNames) -> (r: Option<String>)
    ensures
        crate::frontmatter::opt_view(r) == highlighted(source@, language@, style),
{
    let class_style = match style {
        ClassNames::Spaced => ClassStyle::Spaced,
        ClassNames::SpacedPrefixed(prefix) => ClassStyle::SpacedPrefixed { prefix },
    };
    let set = SyntaxSet::load_defaults_newlines();
    let syntax = set.find_syntax_by_token(language).unwrap_or_else(|| set.find_syntax_plain_text());
    let mut generator = ClassedHTMLGenerator::new_with_class_style(syntax, &set, class_style);
    for line in LinesWithEndings::from(source) {
        generator.parse_html_for_line_which_includes_newline(line).ok()?;
    }
    Some(generator.finalize())
}

/// The CSS of the bundled theme called `name`: `ThemeSet::load_defaults`, a
/// lookup in its `themes`, then `css_for_theme_with_class_style`. This is
/// `bundled_theme_css` of the arguments.
#[verifier::external_body]
fn theme_css_of(name: &str, style: ClassNames) -> (r: Option<String>)
    ensures
        crate::frontmatter::opt_view(r) == bundled_theme_css(name@, style),
{
    let class_style = match style {
        ClassNames::Spaced => ClassStyle::Spaced,
        ClassNames::SpacedPrefixed(prefix) => ClassStyle::SpacedPrefixed { prefix },
    };
    let themes = ThemeSet::load_defaults();
    let theme = themes.themes.get(name)?;
    syntect::html::css_for_theme_with_class_style(theme, class_style).ok()
}

/// The HTML that is returned when highlighting fails: the escaped source.
pub open spec fn plain_block(source: Seq<char>) -> Seq<char> {
    "<pre><code>"@ + escape(source, false) + "</code></pre>"@
}

/// A highlighted block around the generator's output `h`.
pub open spec fn code_block(h: Seq<char>) -> Seq<char> {
    "<pre class=\"code\"><code>"@ + h + "</code></pre>"@
}

/// What `render_html` makes of a block: the highlighted code block, or the
/// escaped source in a plain block when syntect fails.
pub open spec fn highlighted_html(source: Seq<char>, language: Seq<char>) -> Seq<char> {
    match highlighted(source, language, ClassNames::Spaced) {
        Some(h) => code_block(h),
        None => plain_block(source),
    }
}

/// Render source as syntax-highlighted HTML using CSS classes: the syntax is
/// the one named by `language` (plain text when there is none); when syntect
/// fails on a line, the escaped source in a plain block is returned instead.
pub fn render_html(source: &str, language: &str) -> (html: String)
    ensures
        html@ == highlighted_html(source@, language@),
{
    let mut out: Vec<char> = Vec::new();
    match highlight(source, language, ClassNames::Spaced) {
        Some(h) => {
            push_str(&mut out, "<pre class=\"code\"><code>");
            push_str(&mut out, h.as_str());
            push_str(&mut out, "</code></pre>");
            assert(out@ =~= code_block(h@));
        },
        None => {
            push_str(&mut out, "<pre><code>");
            let text = chars_of(source);
            push_escaped(&mut out, text.as_slice(), false);
            push_str(&mut out, "</code></pre>");
            assert(out@ =~= plain_block(source@));
        },
    }
    string_of(out.as_slice())
}

/// The closing rules added after the theme colours.
pub const STYLESHEET_TAIL: &'static str = "\n/* Keep highlighted blocks consistent with mdsite's code and Mermaid surfaces. */\nmain pre.code {\n  background-color: var(--code-bg);\n}\n";

/// The stylesheet made of the light theme's CSS and, for dark color schemes, the dark theme's.
pub open spec fn stylesheet_of(light: Seq<char>, dark: Seq<char>) -> Seq<char> {
    light + "\n@media (prefers-color-scheme: dark) {\n"@ + dark + "\n}\n"@ + STYLESHEET_TAIL@
}

/// Assemble the responsive stylesheet from the light and dark theme CSS.
pub fn stylesheet_from(light_css: &str, dark_css: &str) -> (css: String)
    ensures
        css@ == stylesheet_of(light_css@, dark_css@),
{
    let mut out: Vec<char> = Vec::new();
    push_str(&mut out, light_css);
    push_str(&mut out, "\n@media (prefers-color-scheme: dark) {\n");
    push_str(&mut out, dark_css);
    push_str(&mut out, "\n}\n");
    push_str(&mut out, STYLESHEET_TAIL);
    assert(out@ =~= stylesheet_of(light_css@, dark_css@));
    string_of(out.as_slice())
}

/// The CSS of the bundled theme called `name`, spaced class names; empty
/// when there is no such theme or its CSS cannot be written.
fn theme_css(name: &str) -> (css: String)
    ensures
        css@ == or_empty(bundled_theme_css(name@, ClassNames::Spaced)),
{
    match theme_css_of(name, ClassNames::Spaced) {
        Some(css) => css,
        None => String::new(),
    }
}

/// Build a responsive stylesheet matching `render_html`'s scope classes,
/// using the bundled Solarized light and dark themes.
pub fn stylesheet() -> (css: String)
    ensures
        css@ == stylesheet_of(
            or_empty(bundled_theme_css("Solarized (light)"@, ClassNames::Spaced)),
            or_empty(bundled_theme_css("Solarized (dark)"@, ClassNames::Spaced)),
        ),
{
    let light = theme_css("Solarized (light)");
    let dark = theme_css("Solarized (dark)");
    stylesheet_from(light.as_str(), dark.as_str())
}

/// What one character of a language name becomes in a stylesheet name: its
/// lowercase form with every character that is not an ASCII letter or digit
/// read as `-`. Of the characters outside ASCII only U+0130 (lowercase
/// "i" and a combining dot) and U+212A (Kelvin sign, lowercase "k") have a
/// lowercase form with ASCII in it.
pub open spec fn safe_chars(c: char) -> Seq<char> {
    if c == '\u{130}' {
        seq!['i', '-']
    } else if c == '\u{212a}' {
        seq!['k']
    } else if (c as u32) < 128 && is_ascii_alnum(ascii_lower(c)) {
        seq![ascii_lower(c)]
    } else {
        seq!['-']
    }
}

pub open spec fn safe_name(s: Seq<char>) -> Seq<char>
    decreases s.len(),
{
    if s.len() == 0 {
        seq![]
    } else {
        safe_name(s.drop_last()) + safe_chars(s.last())
    }
}

/// `syntax-{suffix}.css`, the suffix being the safe form of the language
/// without leading or trailing dashes, or `plain` when nothing is left.
pub open spec fn stylesheet_name(language: Seq<char>) -> Seq<char> {
    let suffix = trim_set(safe_name(language), seq!['-']);
    "syntax-"@ + (if suffix.len() == 0 {
        "plain"@
    } else {
        suffix
    }) + ".css"@
}

/// Return a stable, filesystem-safe stylesheet name for a fenced language.
pub fn stylesheet_filename(language: &str) -> (name: String)
    ensures
        name@ == stylesheet_name(language@),
{
    let cs = chars_of(language);
    let mut mapped: Vec<char> = Vec::new();
    let mut i: usize = 0;
    while i < cs.len()
        invariant
            i <= cs.len(),
            mapped@ == safe_name(cs@.take(i as int)),
        decreases cs.len() - i,
    {
        let c = cs[i];
        let ghost before = mapped@;
        if c == '\u{130}' {
            mapped.push('i');
            mapped.push('-');
        } else if c == '\u{212a}' {
            mapped.push('k');
        } else {
            let l = ascii_lower_exec(c);
            if (c as u32) < 128 && (('0' <= l && l <= '9') || ('a' <= l && l <= 'z') || ('A' <= l
                && l <= 'Z')) {
                mapped.push(l);
            } else {
                mapped.push('-');
            }
        }
        assert(mapped@ =~= before + safe_chars(c));
        assert(cs@.take(i + 1).drop_last() =~= cs@.take(i as int));
        i = i + 1;
    }
    assert(cs@.take(cs.len() as int) =~= cs@);
    let dash = vec!['-'];
    assert(dash@ =~= seq!['-']);
    let suffix = trim_set_exec(mapped.as_slice(), dash.as_slice());
    let mut out: Vec<char> = Vec::new();
    push_str(&mut out, "syntax-");
    if suffix.len() == 0 {
        push_str(&mut out, "plain");
    } else {
        push_chars(&mut out, suffix.as_slice());
    }
    push_str(&mut out, ".css");
    assert(out@ =~= stylesheet_name(language@));
    string_of(out.as_slice())
}

/// A character that may stand in a stylesheet name.
pub open spec fn name_char(c: char) -> bool {
    is_lower_alnum(c) || c == '-' || c == '.'
}

/// An ASCII digit or lowercase ASCII letter.
pub open spec fn is_lower_alnum(c: char) -> bool {
    ('0' <= c && c <= '9') || ('a' <= c && c <= 'z')
}

proof fn lemma_safe_name_chars(s: Seq<char>)
    ensures
        forall|i: int|
            0 <= i < safe_name(s).len() ==> is_lower_alnum(#[trigger] safe_name(s)[i])
                || safe_name(s)[i] == '-',
    decreases s.len(),
{
    if s.len() > 0 {
        lemma_safe_name_chars(s.drop_last());
        let p = safe_name(s.drop_last());
        let c = safe_chars(s.last());
        assert(safe_name(s) == p + c);
        assert forall|i: int| 0 <= i < safe_name(s).len() implies is_lower_alnum(
            #[trigger] safe_name(s)[i],
        ) || safe_name(s)[i] == '-' by {
            if i < p.len() {
                assert(safe_name(s)[i] == p[i]);
            } else {
                assert(safe_name(s)[i] == c[i - p.len()]);
            }
        }
    }
}

/// Stylesheet names are safe file names: `syntax-`, lowercase ASCII
/// letters, digits and dashes, then `.css`.
pub proof fn lemma_stylesheet_name_safe(language: Seq<char>)
    ensures
        starts_with(stylesheet_name(language), "syntax-"@),
        ends_with(stylesheet_name(language), ".css"@),
        forall|i: int|
            0 <= i < stylesheet_name(language).len() ==> name_char(
                #[trigger] stylesheet_name(language)[i],
            ),
{
    reveal_strlit("syntax-");
    reveal_strlit(".css");
    reveal_strlit("plain");
    let n = stylesheet_name(language);
    let raw = safe_name(language);
    let suffix = trim_set(raw, seq!['-']);
    let mid = if suffix.len() == 0 {
        "plain"@
    } else {
        suffix
    };
    assert(n == "syntax-"@ + mid + ".css"@);
    lemma_safe_name_chars(language);
    lemma_trim_set_within(raw, seq!['-']);
    assert(n.take(7) =~= "syntax-"@);
    assert(n.skip(n.len() - 4) =~= ".css"@);
    assert forall|i: int| 0 <= i < n.len() implies name_char(#[trigger] n[i]) by {
        if i < 7 {
            assert(n[i] == "syntax-"@[i]);
        } else if i < 7 + mid.len() {
            assert(n[i] == mid[i - 7]);
            if suffix.len() > 0 {
                let j = choose|j: int| 0 <= j < raw.len() && raw[j] == suffix[i - 7];
                assert(is_ascii_alnum(raw[j]) || raw[j] == '-');
            }
        } else {
            assert(n[i] == ".css"@[i - 7 - mid.len()]);
        }
    }
}

proof fn lemma_safe_chars_ascii_case(x: char, y: char)
    requires
        ascii_lower(x) == ascii_lower(y),
    ensures
        safe_chars(x) == safe_chars(y),
{
    if x != y {
        if is_ascii_upper(x) {
            assert(!is_ascii_upper(y));
            assert((y as u32) < 128);
        } else if is_ascii_upper(y) {
            assert((x as u32) < 128);
        }
    }
}

proof fn lemma_safe_name_ascii_case(a: Seq<char>, b: Seq<char>)
    requires
        eq_ignore_ascii_case(a, b),
    ensures
        safe_name(a) == safe_name(b),
    decreases a.len(),
{
    if a.len() > 0 {
        assert(ascii_lower(a[a.len() - 1]) == ascii_lower(b[b.len() - 1]));
        lemma_safe_chars_ascii_case(a.last(), b.last());
        assert forall|i: int| 0 <= i < a.drop_last().len() implies ascii_lower(
            #[trigger] a.drop_last()[i],
        ) == ascii_lower(b.drop_last()[i]) by {
            assert(ascii_lower(a[i]) == ascii_lower(b[i]));
        }
        lemma_safe_name_ascii_case(a.drop_last(), b.drop_last());
    }
}

/// Languages that differ only in ASCII case share a stylesheet.
pub proof fn lemma_stylesheet_name_ignores_ascii_case(a: Seq<char>, b: Seq<char>)
    requires
        eq_ignore_ascii_case(a, b),
    ensures
        stylesheet_name(a) == stylesheet_name(b),
{
    lemma_safe_name_ascii_case(a, b);
}

} // verus!
