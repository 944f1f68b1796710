//! Markdown helpers: Mermaid fence extraction and HTML conversion.
use vstd::prelude::*;
use crate::syntax::highlighted_html;
use crate::text::{
    chars_of, decimal, decimal_exec, eq_ignore_ascii_case, eq_ignore_ascii_case_exec, lines,
    push_chars, push_str, split_lines, starts_with, starts_with_exec, string_of, strip_all_prefix,
    strip_all_prefix_exec, trim, trim_exec, unlines, ends_with, ends_with_exec, lemma_unlines_cons,
    occurs_at, lemma_occurs_in_prefix, lemma_occurs_in_suffix, trim_start, trim_end, is_white,
};

verus! {

/// A fenced Mermaid diagram extracted from Markdown.
#[derive(Debug, Clone)]
pub struct MermaidBlock {
    pub index: usize,
    pub source: String,
}

/// Markdown with its Mermaid fences replaced by image references, and the
/// diagrams that were taken out.
#[derive(Debug, Clone)]
pub struct PreparedMarkdown {
    pub markdown: String,
    pub mermaid: Vec<MermaidBlock>,
}

impl MermaidBlock {
    pub open spec fn view_pair(self) -> (nat, Seq<char>) {
        (self.index as nat, self.source@)
    }
}

impl PreparedMarkdown {
    /// The diagrams as (index, source) pairs.
    pub open spec fn blocks(self) -> Seq<(nat, Seq<char>)> {
        self.mermaid@.map_values(|b: MermaidBlock| b.view_pair())
    }
}

pub open spec fn fence_marker() -> Seq<char> {
    seq!['`', '`', '`']
}

pub open spec fn mermaid_word() -> Seq<char> {
    seq!['m', 'e', 'r', 'm', 'a', 'i', 'd']
}

/// A line that opens or closes a fence: after trimming it starts with three backticks.
pub open spec fn is_fence(line: Seq<char>) -> bool {
    starts_with(trim(line), fence_marker())
}

/// The info string of a fence line: backtick runs and surrounding whitespace removed.
pub open spec fn fence_lang(line: Seq<char>) -> Seq<char> {
    trim(strip_all_prefix(trim(line), fence_marker()))
}

/// A fence line whose language is `mermaid`, in any ASCII case.
pub open spec fn opens_mermaid(line: Seq<char>) -> bool {
    is_fence(line) && eq_ignore_ascii_case(fence_lang(line), mermaid_word())
}

/// Index of the first fence line at or after `i`, or `ls.len()`.
pub open spec fn next_fence(ls: Seq<Seq<char>>, i: int) -> int
    decreases ls.len() - i,
{
    if i < 0 || i >= ls.len() {
        ls.len() as int
    } else if is_fence(ls[i]) {
        i
    } else {
        next_fence(ls, i + 1)
    }
}

pub proof fn lemma_next_fence(ls: Seq<Seq<char>>, i: int)
    requires
        0 <= i <= ls.len(),
    ensures
        i <= next_fence(ls, i) <= ls.len(),
        next_fence(ls, i) < ls.len() ==> is_fence(ls[next_fence(ls, i)]),
        forall|j: int| i <= j < next_fence(ls, i) ==> !is_fence(#[trigger] ls[j]),
    decreases ls.len() - i,
{
    if i < ls.len() && !is_fence(ls[i]) {
        lemma_next_fence(ls, i + 1);
    }
}

/// Diagram body: lines joined by `'\n'`, where lines that come while the body
/// is still empty add nothing but their own text.
pub open spec fn join_body(ls: Seq<Seq<char>>) -> Seq<char>
    decreases ls.len(),
{
    if ls.len() == 0 {
        seq![]
    } else {
        let b = join_body(ls.drop_last());
        if b.len() == 0 {
            ls.last()
        } else {
            b + seq!['\n'] + ls.last()
        }
    }
}

/// `{stem}-mermaid-{index}.svg`
pub open spec fn diagram_file(stem: Seq<char>, index: nat) -> Seq<char> {
    stem + "-mermaid-"@ + decimal(index) + ".svg"@
}

/// The image reference that stands in place of diagram `index`.
pub open spec fn diagram_img(stem: Seq<char>, index: nat) -> Seq<char> {
    "\n"@ + diagram_tag(stem, index) + "\n\n"@
}

/// The `<img>` tag of diagram `index`.
pub open spec fn diagram_tag(stem: Seq<char>, index: nat) -> Seq<char> {
    IMG_START@ + diagram_file(stem, index) + IMG_ALT@ + decimal(index) + IMG_END@
}

/// The start of a diagram's `<img>` tag, up to its address.
pub const IMG_START: &'static str = "<img class=\"mermaid\" src=\"";

/// Between a diagram's address and its number.
pub const IMG_ALT: &'static str = "\" alt=\"Mermaid diagram ";

/// The end of a diagram's `<img>` tag.
pub const IMG_END: &'static str = "\" />";

/// Output text and diagrams of the lines from `i` on, `count` diagrams having come before.
pub open spec fn extract_at(ls: Seq<Seq<char>>, i: int, stem: Seq<char>, count: nat) -> (Seq<
    char,
>, Seq<(nat, Seq<char>)>)
    decreases ls.len() - i,
{
    if i < 0 || i >= ls.len() {
        (seq![], seq![])
    } else {
        proof {
            lemma_next_fence(ls, i + 1);
        }
        let line = ls[i];
        let k = next_fence(ls, i + 1);
        let stop = if k < ls.len() {
            k + 1
        } else {
            ls.len() as int
        };
        if opens_mermaid(line) {
            let index = count + 1;
            let rest = extract_at(ls, stop, stem, index);
            (
                diagram_img(stem, index) + rest.0,
                seq![(index, join_body(ls.subrange(i + 1, k)))] + rest.1,
            )
        } else if is_fence(line) {
            let rest = extract_at(ls, stop, stem, count);
            (unlines(ls.subrange(i, stop)) + rest.0, rest.1)
        } else {
            let rest = extract_at(ls, i + 1, stem, count);
            (line + seq!['\n'] + rest.0, rest.1)
        }
    }
}

/// What `extract_mermaid` makes of `markdown`: the rewritten text and the diagrams.
pub open spec fn extracted(markdown: Seq<char>, stem: Seq<char>) -> (Seq<char>, Seq<
    (nat, Seq<char>),
>) {
    extract_at(lines(markdown), 0, stem, 0)
}

fn is_fence_exec(line: &[char]) -> (b: bool)
    ensures
        b == is_fence(line@),
{
    let t = trim_exec(line);
    let marker = vec!['`', '`', '`'];
    starts_with_exec(t.as_slice(), marker.as_slice())
}

fn opens_mermaid_exec(line: &[char]) -> (b: bool)
    ensures
        b == opens_mermaid(line@),
{
    let t = trim_exec(line);
    let marker = vec!['`', '`', '`'];
    if !starts_with_exec(t.as_slice(), marker.as_slice()) {
        return false;
    }
    let stripped = strip_all_prefix_exec(t.as_slice(), marker.as_slice());
    let lang = trim_exec(stripped.as_slice());
    let word = vec!['m', 'e', 'r', 'm', 'a', 'i', 'd'];
    eq_ignore_ascii_case_exec(lang.as_slice(), word.as_slice())
}

fn push_diagram_img(out: &mut Vec<char>, stem: &[char], index: usize)
    ensures
        final(out)@ == old(out)@ + diagram_img(stem@, index as nat),
{
    let digits = decimal_exec(index);
    push_str(out, "\n");
    push_str(out, IMG_START);
    push_chars(out, stem);
    push_str(out, "-mermaid-");
    push_chars(out, digits.as_slice());
    push_str(out, ".svg");
    push_str(out, IMG_ALT);
    push_chars(out, digits.as_slice());
    push_str(out, IMG_END);
    push_str(out, "\n\n");
    assert(out@ =~= old(out)@ + diagram_img(stem@, index as nat));
}

/// The file name of diagram `index` of the page `stem`, which its image
/// reference points to.
pub fn diagram_file_name(stem: &str, index: usize) -> (name: String)
    ensures
        name@ == diagram_file(stem@, index as nat),
{
    let digits = decimal_exec(index);
    let mut out: Vec<char> = Vec::new();
    push_str(&mut out, stem);
    push_str(&mut out, "-mermaid-");
    push_chars(&mut out, digits.as_slice());
    push_str(&mut out, ".svg");
    assert(out@ =~= diagram_file(stem@, index as nat));
    string_of(out.as_slice())
}

/// Replace each fenced Mermaid block by an image reference
/// `{stem}-mermaid-{n}.svg` and collect the diagram sources, numbered from 1.
/// Other fenced blocks are copied unchanged; every line ends with `'\n'`.
pub fn extract_mermaid(markdown: &str, stem: &str) -> (prep: PreparedMarkdown)
    ensures
        prep.markdown@ == extracted(markdown@, stem@).0,
        prep.blocks() == extracted(markdown@, stem@).1,
{
    let text = chars_of(markdown);
    let stem_chars = chars_of(stem);
    let lines_v = split_lines(text.as_slice());
    let ghost ls = lines_v@.map_values(|l: Vec<char>| l@);
    let ghost total = extract_at(ls, 0, stem@, 0);
    let n = lines_v.len();
    let mut out: Vec<char> = Vec::new();
    let mut mermaid: Vec<MermaidBlock> = Vec::new();
    let mut count: usize = 0;
    let mut i: usize = 0;
    while i < n
        invariant
            n == lines_v.len() == ls.len(),
            ls == lines_v@.map_values(|l: Vec<char>| l@),
            stem_chars@ == stem@,
            total == extract_at(ls, 0, stem@, 0),
            i <= n,
            count <= i,
            out@ + extract_at(ls, i as int, stem@, count as nat).0 == total.0,
            mermaid@.map_values(|b: MermaidBlock| b.view_pair()) + extract_at(
                ls,
                i as int,
                stem@,
                count as nat,
            ).1 == total.1,
        decreases n - i,
    {
        let ghost old_out = out@;
        let ghost old_blocks = mermaid@.map_values(|b: MermaidBlock| b.view_pair());
        proof {
            lemma_next_fence(ls, i + 1);
        }
        let line = &lines_v[i];
        assert(line@ == ls[i as int]);
        if opens_mermaid_exec(line.as_slice()) {
            count = count + 1;
            let mut body: Vec<char> = Vec::new();
            let mut j = i + 1;
            assert(ls.subrange(i + 1, j as int) =~= Seq::<Seq<char>>::empty());
            while j < n && !is_fence_exec(lines_v[j].as_slice())
                invariant
                    n == lines_v.len() == ls.len(),
                    ls == lines_v@.map_values(|l: Vec<char>| l@),
                    i < j <= n,
                    next_fence(ls, i + 1) == next_fence(ls, j as int),
                    body@ == join_body(ls.subrange(i + 1, j as int)),
                decreases n - j,
            {
                let inner = &lines_v[j];
                assert(inner@ == ls[j as int]);
                assert(ls.subrange(i + 1, j + 1).drop_last() =~= ls.subrange(i + 1, j as int));
                if body.len() > 0 {
                    body.push('\n');
                }
                push_chars(&mut body, inner.as_slice());
                assert(body@ =~= join_body(ls.subrange(i + 1, j + 1)));
                j = j + 1;
            }
            assert(j as int == next_fence(ls, i + 1));
            push_diagram_img(&mut out, stem_chars.as_slice(), count);
            let source = string_of(body.as_slice());
            mermaid.push(MermaidBlock { index: count, source });
            assert(mermaid@.map_values(|b: MermaidBlock| b.view_pair()) =~= old_blocks.push(
                (count as nat, body@),
            ));
            i = if j < n {
                j + 1
            } else {
                n
            };
            assert(out@ + extract_at(ls, i as int, stem@, count as nat).0 =~= old_out + (
            diagram_img(stem@, count as nat) + extract_at(ls, i as int, stem@, count as nat).0));
            assert(mermaid@.map_values(|b: MermaidBlock| b.view_pair()) + extract_at(
                ls,
                i as int,
                stem@,
                count as nat,
            ).1 =~= old_blocks + (seq![(count as nat, body@)] + extract_at(
                ls,
                i as int,
                stem@,
                count as nat,
            ).1));
        } else if is_fence_exec(line.as_slice()) {
            let mut chunk: Vec<char> = Vec::new();
            push_chars(&mut chunk, line.as_slice());
            chunk.push('\n');
            let mut j = i + 1;
            assert(ls.subrange(i as int, j as int).drop_last() =~= ls.subrange(
                i as int,
                i as int,
            ));
            assert(unlines(ls.subrange(i as int, i as int)) =~= Seq::<char>::empty());
            assert(ls.subrange(i as int, j as int).last() == line@);
            assert(chunk@ =~= unlines(ls.subrange(i as int, j as int)));
            let mut closed = false;
            while j < n && !closed
                invariant
                    n == lines_v.len() == ls.len(),
                    ls == lines_v@.map_values(|l: Vec<char>| l@),
                    i < j <= n,
                    !closed ==> next_fence(ls, i + 1) == next_fence(ls, j as int),
                    closed ==> next_fence(ls, i + 1) == j - 1 && j - 1 < n,
                    chunk@ == unlines(ls.subrange(i as int, j as int)),
                decreases n - j,
            {
                let inner = &lines_v[j];
                assert(inner@ == ls[j as int]);
                assert(ls.subrange(i as int, j + 1).drop_last() =~= ls.subrange(
                    i as int,
                    j as int,
                ));
                push_chars(&mut chunk, inner.as_slice());
                chunk.push('\n');
                assert(chunk@ =~= unlines(ls.subrange(i as int, j + 1)));
                if is_fence_exec(inner.as_slice()) {
                    closed = true;
                }
                j = j + 1;
            }
            assert(extract_at(ls, i as int, stem@, count as nat) == (unlines(
                ls.subrange(i as int, j as int),
            ) + extract_at(ls, j as int, stem@, count as nat).0, extract_at(
                ls,
                j as int,
                stem@,
                count as nat,
            ).1));
            push_chars(&mut out, chunk.as_slice());
            assert(out@ + extract_at(ls, j as int, stem@, count as nat).0 =~= old_out + (
            chunk@ + extract_at(ls, j as int, stem@, count as nat).0));
            i = j;
        } else {
            push_chars(&mut out, line.as_slice());
            out.push('\n');
            assert(out@ + extract_at(ls, i + 1, stem@, count as nat).0 =~= old_out + (line@
                + seq!['\n'] + extract_at(ls, i + 1, stem@, count as nat).0));
            i = i + 1;
        }
    }
    assert(out@ + extract_at(ls, i as int, stem@, count as nat).0 =~= out@);
    assert(mermaid@.map_values(|b: MermaidBlock| b.view_pair()) + extract_at(
        ls,
        i as int,
        stem@,
        count as nat,
    ).1 =~= mermaid@.map_values(|b: MermaidBlock| b.view_pair()));
    let markdown_out = string_of(out.as_slice());
    PreparedMarkdown { markdown: markdown_out, mermaid }
}

proof fn lemma_extract_numbering(ls: Seq<Seq<char>>, i: int, stem: Seq<char>, count: nat)
    ensures
        forall|k: int|
            0 <= k < extract_at(ls, i, stem, count).1.len() ==> (#[trigger] extract_at(
                ls,
                i,
                stem,
                count,
            ).1[k]).0 == count + k + 1,
    decreases ls.len() - i,
{
    if 0 <= i < ls.len() {
        lemma_next_fence(ls, i + 1);
        let k = next_fence(ls, i + 1);
        let stop = if k < ls.len() {
            k + 1
        } else {
            ls.len() as int
        };
        let r = extract_at(ls, i, stem, count);
        if opens_mermaid(ls[i]) {
            let rest = extract_at(ls, stop, stem, count + 1);
            lemma_extract_numbering(ls, stop, stem, count + 1);
            let b = seq![((count + 1) as nat, join_body(ls.subrange(i + 1, k)))];
            assert(r.1 == b + rest.1);
            assert forall|j: int| 0 <= j < r.1.len() implies (#[trigger] r.1[j]).0 == count + j
                + 1 by {
                if j > 0 {
                    assert(r.1[j] == rest.1[j - 1]);
                }
            }
        } else if is_fence(ls[i]) {
            lemma_extract_numbering(ls, stop, stem, count);
            assert(r.1 == extract_at(ls, stop, stem, count).1);
        } else {
            lemma_extract_numbering(ls, i + 1, stem, count);
            assert(r.1 == extract_at(ls, i + 1, stem, count).1);
        }
    }
}

/// The diagrams taken out of a document are numbered 1, 2, ... in the order
/// of their fences, which names their images `{stem}-mermaid-1.svg`, ...
pub proof fn lemma_diagrams_numbered_from_one(markdown: Seq<char>, stem: Seq<char>)
    ensures
        forall|k: int|
            0 <= k < extracted(markdown, stem).1.len() ==> (#[trigger] extracted(
                markdown,
                stem,
            ).1[k]).0 == k + 1,
{
    lemma_extract_numbering(lines(markdown), 0, stem, 0);
}

proof fn lemma_extract_reference(
    ls: Seq<Seq<char>>,
    i: int,
    stem: Seq<char>,
    count: nat,
    j: int,
) -> (p: int)
    requires
        0 <= j < extract_at(ls, i, stem, count).1.len(),
    ensures
        occurs_at(
            extract_at(ls, i, stem, count).0,
            diagram_img(stem, extract_at(ls, i, stem, count).1[j].0),
            p,
        ),
    decreases ls.len() - i,
{
    lemma_next_fence(ls, i + 1);
    let k = next_fence(ls, i + 1);
    let stop = if k < ls.len() {
        k + 1
    } else {
        ls.len() as int
    };
    let r = extract_at(ls, i, stem, count);
    if opens_mermaid(ls[i]) {
        let rest = extract_at(ls, stop, stem, count + 1);
        let img = diagram_img(stem, count + 1);
        let b = seq![((count + 1) as nat, join_body(ls.subrange(i + 1, k)))];
        assert(r.0 == img + rest.0);
        assert(r.1 == b + rest.1);
        if j == 0 {
            assert(img.subrange(0, img.len() as int) =~= img);
            lemma_occurs_in_prefix(img, rest.0, img, 0);
            0
        } else {
            assert(r.1[j] == rest.1[j - 1]);
            let q = lemma_extract_reference(ls, stop, stem, count + 1, j - 1);
            lemma_occurs_in_suffix(img, rest.0, diagram_img(stem, r.1[j].0), q);
            img.len() + q
        }
    } else if is_fence(ls[i]) {
        let rest = extract_at(ls, stop, stem, count);
        let pre = unlines(ls.subrange(i, stop));
        assert(r.0 == pre + rest.0);
        assert(r.1 == rest.1);
        let q = lemma_extract_reference(ls, stop, stem, count, j);
        lemma_occurs_in_suffix(pre, rest.0, diagram_img(stem, r.1[j].0), q);
        pre.len() + q
    } else {
        let rest = extract_at(ls, i + 1, stem, count);
        let pre = ls[i] + seq!['\n'];
        assert(r.0 == pre + rest.0);
        assert(r.1 == rest.1);
        let q = lemma_extract_reference(ls, i + 1, stem, count, j);
        lemma_occurs_in_suffix(pre, rest.0, diagram_img(stem, r.1[j].0), q);
        pre.len() + q
    }
}

/// The image reference of diagram `index` occurs in `text`.
pub open spec fn has_reference(text: Seq<char>, stem: Seq<char>, index: nat) -> bool {
    exists|p: int| occurs_at(text, diagram_img(stem, index), p)
}

/// Each diagram taken out leaves its image reference in the text.
pub proof fn lemma_diagrams_leave_references(markdown: Seq<char>, stem: Seq<char>)
    ensures
        forall|k: int|
            0 <= k < extracted(markdown, stem).1.len() ==> has_reference(
                extracted(markdown, stem).0,
                stem,
                (#[trigger] extracted(markdown, stem).1[k]).0,
            ),
{
    assert forall|k: int| 0 <= k < extracted(markdown, stem).1.len() implies has_reference(
        extracted(markdown, stem).0,
        stem,
        (#[trigger] extracted(markdown, stem).1[k]).0,
    ) by {
        let p = lemma_extract_reference(lines(markdown), 0, stem, 0, k);
    }
}

proof fn lemma_extract_plain(ls: Seq<Seq<char>>, i: int, stem: Seq<char>, count: nat)
    requires
        0 <= i <= ls.len(),
        forall|j: int| 0 <= j < ls.len() ==> !is_fence(#[trigger] ls[j]),
    ensures
        extract_at(ls, i, stem, count) == (unlines(ls.subrange(i, ls.len() as int)), Seq::<
            (nat, Seq<char>),
        >::empty()),
    decreases ls.len() - i,
{
    if i == ls.len() {
        assert(ls.subrange(i, i) =~= Seq::<Seq<char>>::empty());
    } else {
        lemma_extract_plain(ls, i + 1, stem, count);
        assert(!is_fence(ls[i]));
        lemma_unlines_cons(ls[i], ls.subrange(i + 1, ls.len() as int));
        assert(seq![ls[i]] + ls.subrange(i + 1, ls.len() as int) =~= ls.subrange(
            i,
            ls.len() as int,
        ));
    }
}

/// A document without fences keeps its text, each line ending with a
/// newline, and has no diagrams.
pub proof fn lemma_no_fences_no_change(markdown: Seq<char>, stem: Seq<char>)
    requires
        forall|j: int| 0 <= j < lines(markdown).len() ==> !is_fence(#[trigger] lines(markdown)[j]),
    ensures
        extracted(markdown, stem).0 == unlines(lines(markdown)),
        extracted(markdown, stem).1.len() == 0,
{
    let ls = lines(markdown);
    lemma_extract_plain(ls, 0, stem, 0);
    assert(ls.subrange(0, ls.len() as int) =~= ls);
}

/// `Options::ENABLE_TABLES` of pulldown-cmark.
pub const ENABLE_TABLES: u32 = 2;

/// `Options::ENABLE_STRIKETHROUGH` of pulldown-cmark.
pub const ENABLE_STRIKETHROUGH: u32 = 8;

/// The CommonMark options pages are rendered with: tables and strikethrough.
pub const MARKDOWN_OPTIONS: u32 = ENABLE_TABLES | ENABLE_STRIKETHROUGH;

/// The HTML that pulldown-cmark renders for `markdown` with the option bits `options`.
pub uninterp spec fn commonmark_html(markdown: Seq<char>, options: u32) -> Seq<char>;

/// Renders `markdown` with pulldown-cmark (`Parser::new_ext` fed to
/// `html::push_html`, the option bits taken by `Options::from_bits_truncate`).
/// Claimed: the HTML is a function of the text and the options alone.
#[verifier::external_body]
fn commonmark(markdown: &str, options: u32) -> (html: String)
    ensures
        html@ == commonmark_html(markdown@, options),
{
    let mut html = String::new();
    pulldown_cmark::html::push_html(
        &mut html,
        pulldown_cmark::Parser::new_ext(markdown, pulldown_cmark::Options::from_bits_truncate(options)),
    );
    html
}

/// The opening of the image references that `extract_mermaid` writes.
pub open spec fn img_tag_start() -> Seq<char> {
    "<img class=\"mermaid\""@
}

/// A line that, trimmed, is a Mermaid image reference: passed through as raw HTML.
pub open spec fn is_diagram_line(line: Seq<char>) -> bool {
    starts_with(trim(line), img_tag_start()) && ends_with(trim(line), "/>"@)
}

/// The rendering of a pending Markdown buffer: nothing when it is empty.
pub open spec fn flush(buf: Seq<char>) -> Seq<char> {
    if buf.len() == 0 {
        seq![]
    } else {
        commonmark_html(buf, MARKDOWN_OPTIONS)
    }
}

/// HTML of the lines from `i` on, with `buf` the Markdown gathered since the last image line.
pub open spec fn html_at(ls: Seq<Seq<char>>, i: int, buf: Seq<char>) -> Seq<char>
    decreases ls.len() - i,
{
    if i < 0 || i >= ls.len() {
        flush(buf)
    } else if is_diagram_line(ls[i]) {
        flush(buf) + trim(ls[i]) + seq!['\n'] + html_at(ls, i + 1, seq![])
    } else {
        html_at(ls, i + 1, buf + ls[i] + seq!['\n'])
    }
}

/// What `markdown_to_html` makes of `markdown`.
pub open spec fn markdown_html(markdown: Seq<char>) -> Seq<char> {
    html_at(lines(markdown), 0, seq![])
}

fn push_rendered(out: &mut Vec<char>, buf: &[char])
    ensures
        final(out)@ == old(out)@ + flush(buf@),
{
    if buf.len() > 0 {
        let md = string_of(buf);
        let html = commonmark(md.as_str(), MARKDOWN_OPTIONS);
        let hc = chars_of(html.as_str());
        push_chars(out, hc.as_slice());
    } else {
        assert(old(out)@ + flush(buf@) =~= old(out)@);
    }
}

/// Convert Markdown to an HTML fragment (no surrounding document).
/// Lines that are Mermaid image references are passed through as raw HTML;
/// the Markdown between them is rendered with pulldown-cmark.
pub fn markdown_to_html(markdown: &str) -> (html: String)
    ensures
        html@ == markdown_html(markdown@),
{
    let text = chars_of(markdown);
    let lines_v = split_lines(text.as_slice());
    let ghost ls = lines_v@.map_values(|l: Vec<char>| l@);
    let tag = chars_of("<img class=\"mermaid\"");
    let close = chars_of("/>");
    let n = lines_v.len();
    let mut out: Vec<char> = Vec::new();
    let mut buf: Vec<char> = Vec::new();
    let mut i: usize = 0;
    while i < n
        invariant
            n == lines_v.len() == ls.len(),
            ls == lines_v@.map_values(|l: Vec<char>| l@),
            tag@ == img_tag_start(),
            close@ == "/>"@,
            i <= n,
            out@ + html_at(ls, i as int, buf@) == html_at(ls, 0, seq![]),
        decreases n - i,
    {
        let line = &lines_v[i];
        assert(line@ == ls[i as int]);
        let t = trim_exec(line.as_slice());
        if starts_with_exec(t.as_slice(), tag.as_slice()) && ends_with_exec(
            t.as_slice(),
            close.as_slice(),
        ) {
            let ghost before = out@;
            push_rendered(&mut out, buf.as_slice());
            push_chars(&mut out, t.as_slice());
            out.push('\n');
            assert(out@ + html_at(ls, i + 1, seq![]) =~= before + html_at(ls, i as int, buf@));
            buf = Vec::new();
            assert(buf@ =~= Seq::<char>::empty());
        } else {
            let ghost old_buf = buf@;
            push_chars(&mut buf, line.as_slice());
            buf.push('\n');
            assert(buf@ =~= old_buf + ls[i as int] + seq!['\n']);
            assert(!is_diagram_line(ls[i as int]));
        }
        i = i + 1;
    }
    let ghost before = out@;
    push_rendered(&mut out, buf.as_slice());
    assert(out@ =~= before + html_at(ls, i as int, buf@));
    string_of(out.as_slice())
}

/// The HTML of a page body from the lines from `i` on, with `buf` the
/// Markdown gathered since the last block taken out. A fenced code block
/// that is closed becomes its highlighted HTML (`render_html` of its lines
/// and its language), a Mermaid image line passes through trimmed, and the
/// Markdown between them is rendered with pulldown-cmark. A fence that is
/// never closed leaves the rest of the text to pulldown-cmark.
pub open spec fn body_at(ls: Seq<Seq<char>>, i: int, buf: Seq<char>) -> Seq<char>
    decreases ls.len() - i,
{
    if i < 0 || i >= ls.len() {
        flush(buf)
    } else if is_fence(ls[i]) {
        proof {
            lemma_next_fence(ls, i + 1);
        }
        let k = next_fence(ls, i + 1);
        if k < ls.len() {
            flush(buf) + highlighted_html(unlines(ls.subrange(i + 1, k)), fence_lang(ls[i]))
                + seq!['\n'] + body_at(ls, k + 1, seq![])
        } else {
            flush(buf + unlines(ls.subrange(i, ls.len() as int)))
        }
    } else if is_diagram_line(ls[i]) {
        flush(buf) + trim(ls[i]) + seq!['\n'] + body_at(ls, i + 1, seq![])
    } else {
        body_at(ls, i + 1, buf + ls[i] + seq!['\n'])
    }
}

/// The languages of the closed fenced code blocks from line `i` on, in order.
pub open spec fn code_langs_at(ls: Seq<Seq<char>>, i: int) -> Seq<Seq<char>>
    decreases ls.len() - i,
{
    if i < 0 || i >= ls.len() {
        seq![]
    } else if is_fence(ls[i]) {
        proof {
            lemma_next_fence(ls, i + 1);
        }
        let k = next_fence(ls, i + 1);
        if k < ls.len() {
            seq![fence_lang(ls[i])] + code_langs_at(ls, k + 1)
        } else {
            seq![]
        }
    } else {
        code_langs_at(ls, i + 1)
    }
}

/// The HTML body of a page whose Markdown is `markdown`.
pub open spec fn page_body(markdown: Seq<char>) -> Seq<char> {
    body_at(lines(markdown), 0, seq![])
}

/// The languages of the fenced code blocks of `markdown` that `page_body` highlights.
pub open spec fn code_languages(markdown: Seq<char>) -> Seq<Seq<char>> {
    code_langs_at(lines(markdown), 0)
}

fn fence_lang_exec(line: &[char]) -> (r: Vec<char>)
    requires
        is_fence(line@),
    ensures
        r@ == fence_lang(line@),
{
    let t = trim_exec(line);
    let marker = vec!['`', '`', '`'];
    let stripped = strip_all_prefix_exec(t.as_slice(), marker.as_slice());
    trim_exec(stripped.as_slice())
}

/// Render a page body: each closed fenced code block highlighted with
/// syntect (`render_html`), Mermaid image lines passed through, the rest
/// rendered with pulldown-cmark. Also gives the languages of the
/// highlighted blocks, in order.
pub fn render_body(markdown: &str) -> (r: (String, Vec<String>))
    ensures
        r.0@ == page_body(markdown@),
        r.1@.map_values(|l: String| l@) == code_languages(markdown@),
{
    let text = chars_of(markdown);
    let lines_v = split_lines(text.as_slice());
    let ghost ls = lines_v@.map_values(|l: Vec<char>| l@);
    let tag = chars_of("<img class=\"mermaid\"");
    let close = chars_of("/>");
    let n = lines_v.len();
    let mut out: Vec<char> = Vec::new();
    let mut buf: Vec<char> = Vec::new();
    let mut langs: Vec<String> = Vec::new();
    let mut i: usize = 0;
    while i < n
        invariant
            n == lines_v.len() == ls.len(),
            ls == lines_v@.map_values(|l: Vec<char>| l@),
            tag@ == img_tag_start(),
            close@ == "/>"@,
            i <= n,
            out@ + body_at(ls, i as int, buf@) == body_at(ls, 0, seq![]),
            langs@.map_values(|l: String| l@) + code_langs_at(ls, i as int) == code_langs_at(ls, 0),
        decreases n - i,
    {
        let ghost old_langs = langs@.map_values(|l: String| l@);
        proof {
            lemma_next_fence(ls, i + 1);
        }
        let line = &lines_v[i];
        assert(line@ == ls[i as int]);
        if is_fence_exec(line.as_slice()) {
            let lang = fence_lang_exec(line.as_slice());
            let mut code: Vec<char> = Vec::new();
            let mut chunk: Vec<char> = Vec::new();
            push_chars(&mut chunk, line.as_slice());
            chunk.push('\n');
            let mut j = i + 1;
            assert(ls.subrange(i + 1, j as int) =~= Seq::<Seq<char>>::empty());
            assert(ls.subrange(i as int, j as int).drop_last() =~= ls.subrange(i as int, i as int));
            assert(unlines(ls.subrange(i as int, i as int)) =~= Seq::<char>::empty());
            assert(ls.subrange(i as int, j as int).last() == line@);
            assert(chunk@ =~= unlines(ls.subrange(i as int, j as int)));
            while j < n && !is_fence_exec(lines_v[j].as_slice())
                invariant
                    n == lines_v.len() == ls.len(),
                    ls == lines_v@.map_values(|l: Vec<char>| l@),
                    i < j <= n,
                    next_fence(ls, i + 1) == next_fence(ls, j as int),
                    code@ == unlines(ls.subrange(i + 1, j as int)),
                    chunk@ == unlines(ls.subrange(i as int, j as int)),
                decreases n - j,
            {
                let inner = &lines_v[j];
                assert(inner@ == ls[j as int]);
                assert(ls.subrange(i + 1, j + 1).drop_last() =~= ls.subrange(i + 1, j as int));
                assert(ls.subrange(i as int, j + 1).drop_last() =~= ls.subrange(i as int, j as int));
                push_chars(&mut code, inner.as_slice());
                code.push('\n');
                push_chars(&mut chunk, inner.as_slice());
                chunk.push('\n');
                assert(code@ =~= unlines(ls.subrange(i + 1, j + 1)));
                assert(chunk@ =~= unlines(ls.subrange(i as int, j + 1)));
                j = j + 1;
            }
            assert(j as int == next_fence(ls, i + 1));
            if j < n {
                let ghost before = out@;
                let ghost old_buf = buf@;
                push_rendered(&mut out, buf.as_slice());
                let source = string_of(code.as_slice());
                let language = string_of(lang.as_slice());
                let html = crate::syntax::render_html(source.as_str(), language.as_str());
                push_str(&mut out, html.as_str());
                out.push('\n');
                buf = Vec::new();
                assert(buf@ =~= Seq::<char>::empty());
                assert(out@ + body_at(ls, j + 1, buf@) =~= before + body_at(ls, i as int, old_buf))
                    by {
                    assert(out@ =~= before + flush(old_buf) + highlighted_html(
                        unlines(ls.subrange(i + 1, j as int)),
                        fence_lang(ls[i as int]),
                    ) + seq!['\n']);
                };
                langs.push(language);
                assert(langs@.map_values(|l: String| l@) =~= old_langs.push(lang@));
                assert(langs@.map_values(|l: String| l@) + code_langs_at(ls, j + 1) =~= old_langs
                    + code_langs_at(ls, i as int));
                i = j + 1;
            } else {
                let ghost old_buf = buf@;
                push_chars(&mut buf, chunk.as_slice());
                assert(ls.subrange(i as int, n as int) == ls.subrange(i as int, j as int));
                assert(body_at(ls, n as int, buf@) == body_at(ls, i as int, old_buf));
                assert(code_langs_at(ls, i as int) =~= Seq::<Seq<char>>::empty());
                assert(code_langs_at(ls, n as int) =~= Seq::<Seq<char>>::empty());
                i = n;
            }
        } else {
            let t = trim_exec(line.as_slice());
            if starts_with_exec(t.as_slice(), tag.as_slice()) && ends_with_exec(
                t.as_slice(),
                close.as_slice(),
            ) {
                let ghost before = out@;
                push_rendered(&mut out, buf.as_slice());
                push_chars(&mut out, t.as_slice());
                out.push('\n');
                assert(out@ + body_at(ls, i + 1, seq![]) =~= before + body_at(ls, i as int, buf@));
                buf = Vec::new();
                assert(buf@ =~= Seq::<char>::empty());
            } else {
                let ghost old_buf = buf@;
                push_chars(&mut buf, line.as_slice());
                buf.push('\n');
                assert(buf@ =~= old_buf + ls[i as int] + seq!['\n']);
                assert(!is_diagram_line(ls[i as int]));
            }
            i = i + 1;
        }
    }
    let ghost before = out@;
    push_rendered(&mut out, buf.as_slice());
    assert(out@ =~= before + body_at(ls, i as int, buf@));
    assert(langs@.map_values(|l: String| l@) =~= langs@.map_values(|l: String| l@)
        + code_langs_at(ls, i as int));
    (string_of(out.as_slice()), langs)
}

proof fn lemma_html_plain(ls: Seq<Seq<char>>, i: int, buf: Seq<char>)
    requires
        0 <= i <= ls.len(),
        forall|j: int| 0 <= j < ls.len() ==> !is_diagram_line(#[trigger] ls[j]),
    ensures
        html_at(ls, i, buf) == flush(buf + unlines(ls.subrange(i, ls.len() as int))),
    decreases ls.len() - i,
{
    if i == ls.len() {
        assert(ls.subrange(i, i) =~= Seq::<Seq<char>>::empty());
        assert(buf + unlines(ls.subrange(i, i)) =~= buf);
    } else {
        lemma_html_plain(ls, i + 1, buf + ls[i] + seq!['\n']);
        assert(!is_diagram_line(ls[i]));
        lemma_unlines_cons(ls[i], ls.subrange(i + 1, ls.len() as int));
        assert(seq![ls[i]] + ls.subrange(i + 1, ls.len() as int) =~= ls.subrange(
            i,
            ls.len() as int,
        ));
        assert(buf + ls[i] + seq!['\n'] + unlines(ls.subrange(i + 1, ls.len() as int)) =~= buf
            + unlines(ls.subrange(i, ls.len() as int)));
    }
}

/// Markdown without diagram references is rendered by pulldown-cmark in one
/// piece: its lines, each ending with a newline.
pub proof fn lemma_plain_markdown_rendered_whole(markdown: Seq<char>)
    requires
        forall|j: int|
            0 <= j < lines(markdown).len() ==> !is_diagram_line(#[trigger] lines(markdown)[j]),
    ensures
        markdown_html(markdown) == flush(unlines(lines(markdown))),
{
    let ls = lines(markdown);
    lemma_html_plain(ls, 0, seq![]);
    assert(ls.subrange(0, ls.len() as int) =~= ls);
    assert(Seq::<char>::empty() + unlines(ls) =~= unlines(ls));
}

proof fn lemma_html_keeps_line(ls: Seq<Seq<char>>, i: int, buf: Seq<char>, k: int) -> (p: int)
    requires
        0 <= i <= k < ls.len(),
        is_diagram_line(ls[k]),
    ensures
        occurs_at(html_at(ls, i, buf), trim(ls[k]) + seq!['\n'], p),
        i == k ==> p == flush(buf).len(),
    decreases k - i,
{
    let pat = trim(ls[k]) + seq!['\n'];
    if i == k {
        let h = flush(buf) + trim(ls[i]) + seq!['\n'] + html_at(ls, i + 1, seq![]);
        assert(h.subrange(flush(buf).len() as int, flush(buf).len() + pat.len() as int) =~= pat);
        flush(buf).len() as int
    } else if is_diagram_line(ls[i]) {
        let q = lemma_html_keeps_line(ls, i + 1, seq![], k);
        let a = flush(buf) + trim(ls[i]) + seq!['\n'];
        lemma_occurs_in_suffix(a, html_at(ls, i + 1, seq![]), pat, q);
        a.len() + q
    } else {
        lemma_html_keeps_line(ls, i + 1, buf + ls[i] + seq!['\n'], k)
    }
}

/// Mermaid image lines pass through `markdown_to_html` verbatim: every line
/// of the Markdown that, trimmed, is an image reference occurs in the HTML
/// trimmed and followed by a newline, neither escaped nor wrapped; before it
/// stands only what pulldown-cmark made of the Markdown before it.
pub proof fn lemma_diagram_lines_kept(markdown: Seq<char>, k: int)
    requires
        0 <= k < lines(markdown).len(),
        is_diagram_line(lines(markdown)[k]),
    ensures
        exists|p: int| occurs_at(markdown_html(markdown), trim(lines(markdown)[k]) + seq!['\n'], p),
{
    let p = lemma_html_keeps_line(lines(markdown), 0, seq![], k);
    assert(occurs_at(markdown_html(markdown), trim(lines(markdown)[k]) + seq!['\n'], p));
}

/// The image tags that `extract_mermaid` writes are the lines that
/// `markdown_to_html` passes through as raw HTML.
pub proof fn lemma_diagram_tags_pass_through(stem: Seq<char>, index: nat)
    ensures
        is_diagram_line(diagram_tag(stem, index)),
        diagram_img(stem, index) == "\n"@ + diagram_tag(stem, index) + "\n\n"@,
{
    reveal_strlit("<img class=\"mermaid\" src=\"");
    reveal_strlit("\" />");
    reveal_strlit("<img class=\"mermaid\"");
    reveal_strlit("/>");
    let t = diagram_tag(stem, index);
    let head = IMG_START@;
    assert(t[0] == head[0]);
    assert(t[0] == '<');
    assert(!is_white(t[0]));
    assert(trim_start(t) == t);
    assert(t.last() == '>');
    assert(trim_end(t) == t);
    assert(trim(t) == t);
    assert(t.take(img_tag_start().len() as int) =~= img_tag_start());
    let tail = IMG_END@;
    let a = IMG_START@ + diagram_file(stem, index) + IMG_ALT@ + decimal(index);
    assert(t == a + tail);
    assert(t.skip(t.len() - 2) =~= tail.skip(2));
    assert(t.skip(t.len() - 2) =~= "/>"@);
}

} // verus!
