use mdsite::mermaid::{escape_html, render_html, render_plain, styles, MermaidArt, Span, Style, StyledLine};

fn art() -> MermaidArt {
    let s = styles();
    MermaidArt {
        plain_lines: vec!["┌─┐".to_string(), "│a│".to_string()],
        styled_lines: vec![
            StyledLine {
                spans: vec![Span {
                    content: "┌─┐".to_string(),
                    style: s.edge,
                }],
            },
            StyledLine {
                spans: vec![
                    Span {
                        content: String::new(),
                        style: s.border,
                    },
                    Span {
                        content: "a & b".to_string(),
                        style: Style {
                            class: Some("n"),
                            italic: true,
                        },
                    },
                    Span {
                        content: "<x>".to_string(),
                        style: Style {
                            class: None,
                            italic: false,
                        },
                    },
                ],
            },
        ],
    }
}

#[test]
fn art_renders_as_classed_html() {
    let html = render_html(Some(&art())).unwrap();
    assert_eq!(
        html,
        "<span class=\"e\">┌─┐</span>\n<span class=\"n i\">a &amp; b</span>&lt;x&gt;\n"
    );
    assert!(render_html(None).is_none());
}

#[test]
fn art_renders_as_plain_text() {
    assert_eq!(render_plain(Some(&art())).unwrap(), "┌─┐\n│a│");
    assert!(render_plain(None).is_none());
}

#[test]
fn style_classes_and_escaping() {
    let s = styles();
    assert_eq!(s.border.class, Some("b"));
    assert_eq!(s.edge_label.class, Some("el"));
    assert_eq!(escape_html("a<b>&\"c\""), "a&lt;b&gt;&amp;\"c\"");
}
