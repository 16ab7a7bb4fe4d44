#![allow(unused_imports)]

use vl::lex::lex;
use vl::span::Span;
use vl::token::TokenKind;

#[test]
fn lexes_let_binding() {
    let (toks, diags) = lex("let x = 1 + 2;");
    assert!(diags.is_empty());
    assert!(matches!(toks[0].kind, TokenKind::Let));
    assert!(matches!(toks[1].kind, TokenKind::Ident(_)));
}

#[test]
fn lexes_function_keyword() {
    let (toks, diags) = lex("function main() {}");
    assert!(diags.is_empty());
    assert!(matches!(toks[0].kind, TokenKind::Function));
}

#[test]
fn bad_char_is_a_diagnostic_not_a_panic() {
    let (toks, diags) = lex("let x = @;");
    assert_eq!(diags.len(), 1);
    assert!(toks.iter().any(|t| matches!(t.kind, TokenKind::Eof)));
}

#[test]
fn lexes_byte_string_and_common_escapes() {
    let (toks, diags) = lex("\"a\\n\\t\\\\\\\"\\0\"");
    assert!(diags.is_empty());
    assert!(matches!(
        &toks[0].kind,
        TokenKind::String(value) if value == b"a\n\t\\\"\0"
    ));
}

#[test]
fn unterminated_string_stops_at_newline() {
    let (toks, diags) = lex("\"not closed\nlet x = 1;");
    assert!(diags.iter().any(|d| d.message.contains("unterminated")));
    assert!(toks.iter().any(|t| matches!(t.kind, TokenKind::Let)));
}

#[test]
fn unknown_escape_is_a_diagnostic() {
    let (toks, diags) = lex(r#""bad\q""#);
    assert!(diags
        .iter()
        .any(|d| d.message.contains("unknown string escape")));
    assert!(!toks.iter().any(|t| matches!(t.kind, TokenKind::String(_))));
}

#[test]
fn non_ascii_input_is_an_error_not_a_panic() {
    let (_toks, diags) = lex("let café = 1;");
    assert!(!diags.is_empty());
}

#[test]
fn non_ascii_character_has_one_scalar_span() {
    let (toks, diags) = lex("é");
    assert_eq!(diags.len(), 1);
    assert_eq!(diags[0].labels[0].span, Span::new(0, 2));
    assert!(matches!(toks[0].kind, TokenKind::Invalid));
}

#[test]
fn invalid_numeric_literal_is_poisoned_for_parser_recovery() {
    let (toks, diags) = lex("let x = 999999999999999999999999; let y = 2;");
    assert_eq!(diags.len(), 1);
    assert!(toks.iter().any(|t| matches!(t.kind, TokenKind::Invalid)));
}

#[test]
fn unknown_unicode_escape_has_a_character_aligned_span() {
    let (_toks, diags) = lex("\"\\é\"");
    assert_eq!(diags.len(), 1);
    assert_eq!(diags[0].labels[0].span, Span::new(1, 4));
}

#[test]
fn lexes_loop_keywords_and_operators() {
    let (toks, diags) =
        lex("while (a == 1 && b != 2 || !c) { a = a + 1; break; continue; return a; }");
    assert!(diags.is_empty(), "{diags:?}");
    let kinds: Vec<&TokenKind> = toks.iter().map(|t| &t.kind).collect();
    assert!(matches!(kinds[0], TokenKind::While));
    assert!(kinds.iter().any(|k| matches!(k, TokenKind::EqEq)));
    assert!(kinds.iter().any(|k| matches!(k, TokenKind::AmpAmp)));
    assert!(kinds.iter().any(|k| matches!(k, TokenKind::BangEq)));
    assert!(kinds.iter().any(|k| matches!(k, TokenKind::PipePipe)));
    assert!(kinds.iter().any(|k| matches!(k, TokenKind::Bang)));
    assert!(kinds.iter().any(|k| matches!(k, TokenKind::Break)));
    assert!(kinds.iter().any(|k| matches!(k, TokenKind::Continue)));
    assert!(kinds.iter().any(|k| matches!(k, TokenKind::Return)));
}

#[test]
fn lexes_ordering_operators() {
    let (toks, diags) = lex("a < b <= c > d >= e");
    assert!(diags.is_empty(), "{diags:?}");
    assert!(toks.iter().any(|t| matches!(t.kind, TokenKind::Lt)));
    assert!(toks.iter().any(|t| matches!(t.kind, TokenKind::LtEq)));
    assert!(toks.iter().any(|t| matches!(t.kind, TokenKind::Gt)));
    assert!(toks.iter().any(|t| matches!(t.kind, TokenKind::GtEq)));
}

#[test]
fn single_ampersand_is_an_error() {
    let (_toks, diags) = lex("a & b");
    assert!(diags.iter().any(|d| d.message.contains('`')));
    assert_eq!(diags.len(), 1);
}

#[test]
fn lexes_scalar_suffixes_and_bools() {
    let (toks, diags) = lex("1u64 -1i64 1.5f64 255u8 true false");
    assert!(diags.is_empty(), "{diags:?}");
    assert!(matches!(toks[0].kind, TokenKind::U64(1)));
    assert!(matches!(toks[1].kind, TokenKind::Minus));
    assert!(matches!(toks[2].kind, TokenKind::I64(1)));
    assert!(matches!(toks[3].kind, TokenKind::F64(_)));
    assert!(matches!(toks[4].kind, TokenKind::U8(255)));
    assert!(matches!(toks[5].kind, TokenKind::Bool(true)));
    assert!(matches!(toks[6].kind, TokenKind::Bool(false)));
}
