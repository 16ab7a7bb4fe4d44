#![allow(unused_imports)]

use vl::diagnostic::Diagnostic;
use vl::span::Span;

#[test]
fn error_renders_with_ariadne_graphics() {
    let d = Diagnostic::error("unexpected character `@`")
        .with_label(Span::new(4, 5), "here")
        .with_note("identifiers use letters, digits and `_`");
    let out = d.render("demo.vl", "val x = @;\n");
    assert!(out.contains("unexpected character"));
    // Ariadne draws box graphics; guard against silent fallback.
    assert!(out.contains("─") || out.contains("│") || out.contains('|'));
}
