use mdsite::markdown::{diagram_file_name, extract_mermaid, markdown_to_html};

#[test]
fn extracts_mermaid_and_keeps_code() {
    let md = "# Hi\n\n```mermaid\ngraph TD; A-->B;\n```\n\n```rust\nfn main() {}\n```\n";
    let prep = extract_mermaid(md, "page");
    assert_eq!(prep.mermaid.len(), 1);
    assert!(prep.mermaid[0].source.contains("graph TD"));
    assert!(prep.markdown.contains("page-mermaid-1.svg"));
    assert!(prep.markdown.contains("```rust"));
    assert!(!prep.markdown.contains("```mermaid"));
}

#[test]
fn converts_basic_markdown() {
    let html = markdown_to_html(
        "# Title\n\nA *em* and **strong** and `code`.\n\n- a\n- b\n\n1. one\n2. two\n\n[link](https://example.com)\n",
    );
    assert!(html.contains("<h1>"));
    assert!(html.contains("<em>em</em>"));
    assert!(html.contains("<strong>strong</strong>"));
    assert!(html.contains("<code>code</code>"));
    assert!(html.contains("<ul>"));
    assert!(html.contains("<ol>"));
    assert!(html.contains("href=\"https://example.com\""));
}

#[test]
fn fenced_code_block() {
    let html = markdown_to_html("```\nplain\n```\n");
    assert!(html.contains("<pre>"));
    assert!(html.contains("<code>"));
    assert!(html.contains("plain"));
}

#[test]
fn mermaid_blocks_are_numbered_from_one() {
    let md = "```Mermaid\na\n\nb\n```\ntext\n``````mermaid  \n\n\nc\n";
    let prep = extract_mermaid(md, "doc");
    assert_eq!(prep.mermaid.len(), 2);
    assert_eq!(prep.mermaid[0].index, 1);
    assert_eq!(prep.mermaid[0].source, "a\n\nb");
    assert_eq!(prep.mermaid[1].index, 2);
    assert_eq!(prep.mermaid[1].source, "c");
    assert_eq!(
        prep.markdown,
        "\n<img class=\"mermaid\" src=\"doc-mermaid-1.svg\" alt=\"Mermaid diagram 1\" />\n\ntext\n\n<img class=\"mermaid\" src=\"doc-mermaid-2.svg\" alt=\"Mermaid diagram 2\" />\n\n"
    );
}

#[test]
fn plain_text_is_kept_line_by_line() {
    let prep = extract_mermaid("a\r\nb\n\nc", "x");
    assert!(prep.mermaid.is_empty());
    assert_eq!(prep.markdown, "a\nb\n\nc\n");
    let prep = extract_mermaid("```text\n```mermaid\n```\n", "x");
    assert!(prep.mermaid.is_empty());
    assert_eq!(prep.markdown, "```text\n```mermaid\n```\n");
}

#[test]
fn diagram_lines_pass_through_markdown_rendering() {
    let html = markdown_to_html(
        "para\n  <img class=\"mermaid\" src=\"p-mermaid-1.svg\" alt=\"Mermaid diagram 1\" />  \nafter\n",
    );
    assert_eq!(
        html,
        "<p>para</p>\n<img class=\"mermaid\" src=\"p-mermaid-1.svg\" alt=\"Mermaid diagram 1\" />\n<p>after</p>\n"
    );
    assert_eq!(markdown_to_html(""), "");
    assert_eq!(markdown_to_html("~~gone~~"), "<p><del>gone</del></p>\n");
}

#[test]
fn diagram_file_names_match_image_references() {
    assert_eq!(diagram_file_name("page", 1), "page-mermaid-1.svg");
    assert_eq!(diagram_file_name("a b", 12), "a b-mermaid-12.svg");
    let prepared = extract_mermaid("```mermaid\ngraph TD\n```\n", "guide");
    assert!(prepared.markdown.contains(&diagram_file_name("guide", 1)));
}
