# mdsite

A minimal static site generator: Markdown in, clean HTML out.

`mdsite build --input ./content --output ./site` turns every `.md` file of the
input tree into an HTML page with its Markdown beside it, copies the other
files, writes a listing page for each folder, and, as `mdsite.toml` asks,
`robots.txt`, `sitemap.xml`, `llms.txt`, `llms-full.txt` and `rss.xml`.
Mermaid fences become SVG images drawn by mermaid-cli (`mmdc`).

## Layout

- `src/` is the library, verified with Verus: the pages and site files are
  computed there from plain values, under contracts that state them; what an
  outside crate computes (CommonMark, highlighting, theme CSS, TOML, dates)
  is named in those contracts. The laws the generator keeps are proved as
  public proof functions.
  - `text.rs`, `path.rs`: characters, lines, escaping, relative paths and
    their ordering by components.
  - `frontmatter.rs`, `time.rs`: the `---` metadata block and its dates.
  - `markdown.rs`: Mermaid fence extraction and Markdown to HTML
    (pulldown-cmark).
  - `site.rs` also converts one Markdown source into its page
    (`page_output`: highlighted code blocks, breadcrumbs, frontmatter
    metadata and footer) and renders the folder pages.
  - `html.rs`, `syntax.rs`, `mermaid.rs`: page assembly, syntect
    highlighting and stylesheet names, box-drawing diagrams as HTML.
  - `rss.rs`, `site.rs`: the configuration, directory pages, sitemap, llms
    files and the feed.
- `app/` is the command line around it: it walks the input directory, reads
  and writes files, runs `mmdc`, and hands the library plain values. The
  whole build (`build`) lives there, as it is file system work; the library
  computes every page and site file it writes.
- `tests/` runs the library on concrete values.
