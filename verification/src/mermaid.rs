//! Mermaid diagrams drawn as Unicode box-drawing art, turned into text or HTML.
//!
//! A laid-out diagram (`MermaidArt`) holds the same picture twice: as plain
//! lines, and as lines of styled runs. The HTML flavour wraps each styled run
//! in `<span class="...">` using the class names `b` (border), `n` (node
//! text), `e` (edge), `el` (edge label), `t` (title), plus `i` for italic, so
//! a page can colour the art.
use vstd::prelude::*;
use crate::text::{chars_of, escape, push_chars, push_escaped, push_str, string_of};

verus! {

/// How a run of diagram text is drawn: a CSS class (none for unstyled text)
/// and whether it is italic.
#[derive(Debug, Clone, Copy)]
pub struct Style {
    pub class: Option<&'static str>,
    pub italic: bool,
}

impl Style {
    /// The upright style with CSS class `name`.
    pub fn class(name: &'static str) -> (s: Style)
        ensures
            s.class == Some(name),
            !s.italic,
    {
        Style { class: Some(name), italic: false }
    }

    pub fn is_italic(&self) -> (b: bool)
        ensures
            b == self.italic,
    {
        self.italic
    }
}

/// A run of text drawn in one style.
#[derive(Debug, Clone)]
pub struct Span {
    pub content: String,
    pub style: Style,
}

/// One row of the diagram as styled runs.
#[derive(Debug, Clone)]
pub struct StyledLine {
    pub spans: Vec<Span>,
}

/// A laid-out diagram: plain rows and the same rows as styled runs.
#[derive(Debug, Clone)]
pub struct MermaidArt {
    pub plain_lines: Vec<String>,
    pub styled_lines: Vec<StyledLine>,
}

/// The styles that the parts of a diagram are drawn in.
#[derive(Debug, Clone, Copy)]
pub struct MermaidStyles {
    pub border: Style,
    pub node_text: Style,
    pub edge: Style,
    pub edge_label: Style,
    pub title: Style,
}

/// The class names of the diagram parts: `b`, `n`, `e`, `el` and `t`.
pub fn styles() -> (s: MermaidStyles)
    ensures
        s.border.class == Some("b"),
        s.node_text.class == Some("n"),
        s.edge.class == Some("e"),
        s.edge_label.class == Some("el"),
        s.title.class == Some("t"),
        !s.border.italic && !s.node_text.italic && !s.edge.italic && !s.edge_label.italic
            && !s.title.italic,
{
    MermaidStyles {
        border: Style::class("b"),
        node_text: Style::class("n"),
        edge: Style::class("e"),
        edge_label: Style::class("el"),
        title: Style::class("t"),
    }
}

/// The HTML of one run: nothing when it is empty, its escaped text when it
/// has no class, else the escaped text in a `<span>` of its class (and `i`
/// when italic).
pub open spec fn span_html(span: Span) -> Seq<char> {
    if span.content@.len() == 0 {
        seq![]
    } else {
        match span.style.class {
            None => escape(span.content@, false),
            Some(c) => "<span class=\""@ + c@ + (if span.style.italic {
                " i"@
            } else {
                seq![]
            }) + "\">"@ + escape(span.content@, false) + "</span>"@,
        }
    }
}

/// The runs of a row, in order.
pub open spec fn spans_html(spans: Seq<Span>) -> Seq<char>
    decreases spans.len(),
{
    if spans.len() == 0 {
        seq![]
    } else {
        spans_html(spans.drop_last()) + span_html(spans.last())
    }
}

/// Each row's runs followed by `'\n'`.
pub open spec fn art_html(rows: Seq<StyledLine>) -> Seq<char>
    decreases rows.len(),
{
    if rows.len() == 0 {
        seq![]
    } else {
        art_html(rows.drop_last()) + spans_html(rows.last().spans@) + seq!['\n']
    }
}

/// The rows joined by `'\n'` (`[String]::join`).
pub open spec fn join_rows(rows: Seq<Seq<char>>) -> Seq<char>
    decreases rows.len(),
{
    if rows.len() == 0 {
        seq![]
    } else if rows.len() == 1 {
        rows[0]
    } else {
        join_rows(rows.drop_last()) + seq!['\n'] + rows.last()
    }
}

fn push_span_html(out: &mut Vec<char>, span: &Span)
    ensures
        final(out)@ == old(out)@ + span_html(*span),
{
    let content = chars_of(span.content.as_str());
    if content.len() == 0 {
        assert(old(out)@ + span_html(*span) =~= old(out)@);
        return ;
    }
    match span.style.class {
        None => {
            push_escaped(out, content.as_slice(), false);
        },
        Some(class) => {
            push_str(out, "<span class=\"");
            push_str(out, class);
            if span.style.is_italic() {
                push_str(out, " i");
            }
            push_str(out, "\">");
            push_escaped(out, content.as_slice(), false);
            push_str(out, "</span>");
        },
    }
    assert(out@ =~= old(out)@ + span_html(*span));
}

/// The diagram as plain box-drawing text: its rows joined by newlines.
/// `None` (no diagram, as for blank source) gives `None`.
pub fn render_plain(art: Option<&MermaidArt>) -> (text: Option<String>)
    ensures
        match art {
            None => text is None,
            Some(a) => text is Some && text.unwrap()@ == join_rows(
                a.plain_lines@.map_values(|l: String| l@),
            ),
        },
{
    let a = match art {
        None => return None,
        Some(a) => a,
    };
    let ghost rows = a.plain_lines@.map_values(|l: String| l@);
    let mut out: Vec<char> = Vec::new();
    let mut i: usize = 0;
    while i < a.plain_lines.len()
        invariant
            i <= a.plain_lines.len(),
            rows == a.plain_lines@.map_values(|l: String| l@),
            out@ == join_rows(rows.take(i as int)),
        decreases a.plain_lines.len() - i,
    {
        let ghost before = out@;
        if i > 0 {
            out.push('\n');
        }
        push_str(&mut out, a.plain_lines[i].as_str());
        assert(rows.take(i + 1).drop_last() =~= rows.take(i as int));
        assert(out@ =~= join_rows(rows.take(i + 1)));
        i = i + 1;
    }
    assert(rows.take(a.plain_lines.len() as int) =~= rows);
    Some(string_of(out.as_slice()))
}

/// The diagram as HTML: box-drawing text with each styled run wrapped in a
/// classed `<span>`, a newline after each row. `None` gives `None`.
pub fn render_html(art: Option<&MermaidArt>) -> (html: Option<String>)
    ensures
        match art {
            None => html is None,
            Some(a) => html is Some && html.unwrap()@ == art_html(a.styled_lines@),
        },
{
    let a = match art {
        None => return None,
        Some(a) => a,
    };
    let mut out: Vec<char> = Vec::new();
    let mut i: usize = 0;
    while i < a.styled_lines.len()
        invariant
            i <= a.styled_lines.len(),
            out@ == art_html(a.styled_lines@.take(i as int)),
        decreases a.styled_lines.len() - i,
    {
        let row = &a.styled_lines[i];
        let ghost row_start = out@;
        let mut j: usize = 0;
        while j < row.spans.len()
            invariant
                j <= row.spans.len(),
                out@ == row_start + spans_html(row.spans@.take(j as int)),
            decreases row.spans.len() - j,
        {
            push_span_html(&mut out, &row.spans[j]);
            assert(row.spans@.take(j + 1).drop_last() =~= row.spans@.take(j as int));
            j = j + 1;
        }
        assert(row.spans@.take(row.spans.len() as int) =~= row.spans@);
        out.push('\n');
        assert(a.styled_lines@.take(i + 1).drop_last() =~= a.styled_lines@.take(i as int));
        assert(out@ =~= art_html(a.styled_lines@.take(i + 1)));
        i = i + 1;
    }
    assert(a.styled_lines@.take(a.styled_lines.len() as int) =~= a.styled_lines@);
    Some(string_of(out.as_slice()))
}

/// The escaped diagram text (`&`, `<` and `>` as entities).
pub fn escape_html(s: &str) -> (r: String)
    ensures
        r@ == escape(s@, false),
{
    crate::text::escape_str(s, false)
}

} // verus!
