use mdsite::syntax::{render_html, stylesheet, stylesheet_filename};

#[test]
fn renders_highlighted_rust() {
    let html = render_html("fn main() {}", "rust");
    assert!(html.contains("<pre class=\"code\">"));
    assert!(html.contains("fn"));
    assert!(html.contains("span"));
}

#[test]
fn handles_unknown_languages() {
    let html = render_html("some text", "unknown-language");
    assert!(html.contains("some text"));
}

#[test]
fn generates_matching_stylesheet() {
    let css = stylesheet();
    assert!(css.contains("theme \"Solarized (light)\""));
    assert!(css.contains("@media (prefers-color-scheme: dark)"));
    assert!(css.contains("theme \"Solarized (dark)\""));
    assert!(css.contains("main pre.code {\n  background-color: var(--code-bg);"));
}

#[test]
fn stylesheet_filename_is_safe() {
    assert_eq!(stylesheet_filename("C++"), "syntax-c.css");
    assert_eq!(stylesheet_filename(""), "syntax-plain.css");
}

#[test]
fn stylesheet_filename_maps_case_and_symbols() {
    assert_eq!(stylesheet_filename("Objective-C"), "syntax-objective-c.css");
    assert_eq!(stylesheet_filename("  shell script "), "syntax-shell-script.css");
    assert_eq!(stylesheet_filename("\u{130}x"), "syntax-i-x.css");
    assert_eq!(stylesheet_filename("\u{212a}\u{e9}"), "syntax-k.css");
    assert_eq!(stylesheet_filename("---"), "syntax-plain.css");
}
