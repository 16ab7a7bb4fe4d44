#![allow(unused_imports)]

use vl::ast::{BinOp, Expr, Item, Param, Program, Stmt, UnOp};
use vl::diagnostic::Diagnostic;
use vl::lex::lex;
use vl::parser::parse;
use vl::ty::{GenericBound, VlType};

fn parse_src(src: &str) -> (Program, Vec<Diagnostic>) {
    let (toks, lex_diags) = lex(src);
    assert!(lex_diags.is_empty());
    parse(&toks, src)
}

/// Search message, labels, and note for a substring.
fn mentions(diags: &[Diagnostic], s: &str) -> bool {
    diags.iter().any(|d| {
        d.message.contains(s)
            || d.labels
                .iter()
                .any(|l| l.message.as_deref().is_some_and(|m| m.contains(s)))
            || d.note.as_deref().is_some_and(|n| n.contains(s))
    })
}

#[test]
fn parses_arithmetic_with_precedence() {
    let (prog, diags) = parse_src("let x = 1 + 2 * 3;");
    assert!(diags.is_empty());
    assert_eq!(prog.items.len(), 1);
}

#[test]
fn missing_semi_is_an_error() {
    let (_prog, diags) = parse_src("let x = 1");
    assert!(!diags.is_empty());
}

#[test]
fn expression_statement_requires_semi() {
    let (_prog, diags) = parse_src("function main() { d }");
    assert!(!diags.is_empty());
}

#[test]
fn function_keyword_parses_with_semi_body() {
    let (prog, diags) = parse_src("function main() { d; }");
    assert!(diags.is_empty());
    assert_eq!(prog.items.len(), 1);
}

#[test]
fn typed_params_and_void_return_parse() {
    let (prog, diags) = parse_src("function add(a: i64, b: i64): i64 { return a + b; }");
    assert!(diags.is_empty(), "{diags:?}");
    match &prog.items[0] {
        Item::Function { params, ret, .. } => {
            assert_eq!(params.len(), 2);
            assert_eq!(params[0].ty, Some(VlType::I64));
            assert_eq!(*ret, Some(VlType::I64));
        }
        other => panic!("expected fn, got {other:?}"),
    }
}

#[test]
fn parses_object_declaration_literal_and_field_assign() {
    let (prog, diags) = parse_src(
        "type Counter = object { value: u64, label: String, }; function main() { let c = Counter { label: \"x\", value: 1 }; c.value = 2; }",
    );
    assert!(diags.is_empty(), "{diags:?}");
    assert!(matches!(prog.items[0], Item::Object { ref fields, .. } if fields.len() == 2));
    match &prog.items[1] {
        Item::Function { body, .. } => {
            assert!(matches!(
                &body[0],
                Stmt::Let {
                    value: Expr::ObjectLiteral { name, fields, .. },
                    ..
                } if name == "Counter" && fields.len() == 2
            ));
            assert!(matches!(&body[1], Stmt::FieldAssign { field, .. } if field == "value"));
        }
        other => panic!("expected function, got {other:?}"),
    }
}

#[test]
fn generic_type_parameter_shadows_object_name() {
    let (prog, diags) =
        parse_src("type T = object { value: u64, }; function id[T](x: T): T { return x; }");
    assert!(diags.is_empty(), "{diags:?}");
    match &prog.items[1] {
        Item::Function { params, ret, .. } => {
            assert_eq!(params[0].ty, Some(VlType::Param("T".into())));
            assert_eq!(*ret, Some(VlType::Param("T".into())));
        }
        other => panic!("expected function, got {other:?}"),
    }
}

#[test]
fn rejects_object_names_reserved_for_builtins() {
    let (_prog, diags) = parse_src("type String = object { value: u64, };");
    assert_eq!(diags.iter().filter(|d| d.is_error()).count(), 1);
    assert!(diags[0].message.contains("reserved"));
}

#[test]
fn missing_param_type_is_an_error() {
    let (_prog, diags) = parse_src("function add(a): i64 { return a; }");
    assert!(diags.iter().any(|d| d.code.as_deref() == Some("E104")));
}

#[test]
fn omitted_return_type_defaults_to_void() {
    let (prog, diags) = parse_src("function main() { 1; }");
    assert!(diags.is_empty(), "{diags:?}");
    match &prog.items[0] {
        Item::Function { ret, .. } => assert_eq!(*ret, Some(VlType::Void)),
        other => panic!("expected fn, got {other:?}"),
    }
}

#[test]
fn void_param_is_an_error() {
    let (_prog, diags) = parse_src("function f(x: void): void { return; }");
    assert!(diags.iter().any(|d| d.message.contains("cannot be `void`")));
}

#[test]
fn unknown_type_is_an_error() {
    let (_prog, diags) = parse_src("function f(x: bogus): void { return; }");
    assert!(diags.iter().any(|d| d.code.as_deref() == Some("E105")));
}

#[test]
fn call_with_no_args_parses() {
    let (prog, diags) = parse_src("function main() { foo(); }");
    assert!(diags.is_empty());
    match &prog.items[0] {
        Item::Function { body, .. } => match &body[0] {
            Stmt::Expr(Expr::Call { callee, args, .. }) => {
                assert_eq!(callee, &vec!["foo".to_string()]);
                assert!(args.is_empty());
            }
            other => panic!("expected call, got {other:?}"),
        },
        other => panic!("expected fn, got {other:?}"),
    }
}

#[test]
fn call_with_args_and_nesting_parses() {
    let (prog, diags) = parse_src("function main() { add(1, mul(2, 3)); }");
    assert!(diags.is_empty());
    match &prog.items[0] {
        Item::Function { body, .. } => match &body[0] {
            Stmt::Expr(Expr::Call { callee, args, .. }) => {
                assert_eq!(callee, &vec!["add".to_string()]);
                assert_eq!(args.len(), 2);
                assert!(matches!(args[1], Expr::Call { .. }));
            }
            other => panic!("expected call, got {other:?}"),
        },
        other => panic!("expected fn, got {other:?}"),
    }
}

#[test]
fn call_binds_tighter_than_add() {
    let (prog, diags) = parse_src("let x = f(1) + 2;");
    assert!(diags.is_empty());
    match &prog.items[0] {
        Item::Let { value, .. } => assert!(matches!(value, Expr::Binary { .. })),
        other => panic!("expected let, got {other:?}"),
    }
}

#[test]
fn parses_string_literal() {
    let (prog, diags) = parse_src(r#"let s = "hello";"#);
    assert!(diags.is_empty());
    assert!(matches!(
        &prog.items[0],
        Item::Let { value: Expr::String(value, _), .. } if value == b"hello"
    ));
}

#[test]
fn parses_module_use_and_qualified_call() {
    let (prog, diags) =
        parse_src("use std.string.{len}; function main() { string.len(\"s\"); }");
    assert!(diags.is_empty(), "{diags:?}");
    assert!(
        matches!(&prog.items[0], Item::Use { path, names: Some(names), .. } if path == &vec![String::from("std"), String::from("string")] && names.len() == 1)
    );
}

#[test]
fn parses_while_break_continue_and_assign() {
    let (prog, diags) = parse_src(
        "function main() { let i = 0; while (i < 10) { i = i + 1; if (i == 2) { continue; } break; } }",
    );
    assert!(diags.is_empty(), "{diags:?}");
    match &prog.items[0] {
        Item::Function { body, .. } => {
            assert!(matches!(body[1], Stmt::While { .. }));
            match &body[1] {
                Stmt::While { body, .. } => {
                    assert!(matches!(body[0], Stmt::Assign { .. }));
                    match &body[1] {
                        Stmt::If { then_body, .. } => {
                            assert!(matches!(then_body[0], Stmt::Continue { .. }))
                        }
                        other => panic!("expected if, got {other:?}"),
                    }
                    assert!(matches!(body[2], Stmt::Break { .. }));
                }
                other => panic!("expected while, got {other:?}"),
            }
        }
        other => panic!("expected function, got {other:?}"),
    }
}

#[test]
fn logical_operators_bind_looser_than_comparison() {
    let (prog, diags) = parse_src("function main() { let x = 1; x + 1 == 2 && !x; }");
    assert!(diags.is_empty(), "{diags:?}");
    match &prog.items[0] {
        Item::Function { body, .. } => match &body[1] {
            Stmt::Expr(Expr::Binary {
                op: BinOp::And,
                lhs,
                rhs,
                ..
            }) => {
                assert!(matches!(**lhs, Expr::Binary { op: BinOp::Eq, .. }));
                assert!(matches!(**rhs, Expr::Unary { op: UnOp::Not, .. }));
            }
            other => panic!("expected &&, got {other:?}"),
        },
        other => panic!("expected function, got {other:?}"),
    }
}

#[test]
fn parses_unbraced_conditional_branches() {
    let (prog, diags) = parse_src("function main() { if (true) 1; else 2; }");
    assert!(diags.is_empty(), "{diags:?}");
    match &prog.items[0] {
        Item::Function { body, .. } => assert!(matches!(body[0], Stmt::If { .. })),
        other => panic!("expected function, got {other:?}"),
    }
}

#[test]
fn nested_function_recovery_makes_progress() {
    let (toks, _) = lex("function main() { function nested() {} } function tail() {}");
    let (prog, diags) = parse(&toks, "");
    assert!(!diags.is_empty());
    assert!(prog
        .items
        .iter()
        .any(|item| matches!(item, Item::Function { name, .. } if name == "tail")));
}

#[test]
fn shadowing_is_a_warning_only_placeholder() {
    // (resolver test covers shadowing; parser just needs a valid body)
    let (prog, diags) = parse_src("function f(x: i64): i64 { return x; }");
    assert!(diags.is_empty(), "{diags:?}");
    assert_eq!(prog.items.len(), 1);
}

#[test]
fn parses_array_literal_index_and_index_assign() {
    let (prog, diags) = parse_src(
        "function get(a: Array[u64]): u64 { a[0u64] = 1u64; return a[0u64]; } function main() { let b = [1u64, 2u64,]; let e = []; }",
    );
    assert!(diags.is_empty(), "{diags:?}");
    match &prog.items[0] {
        Item::Function { params, body, .. } => {
            assert_eq!(params[0].ty, Some(VlType::Array(Box::new(VlType::U64))));
            assert!(matches!(body[0], Stmt::IndexAssign { .. }));
            assert!(matches!(
                body[1],
                Stmt::Return {
                    value: Some(Expr::Index { .. }),
                    ..
                }
            ));
        }
        other => panic!("expected fn, got {other:?}"),
    }
    match &prog.items[1] {
        Item::Function { body, .. } => {
            assert!(matches!(
                &body[0],
                Stmt::Let {
                    value: Expr::ArrayLiteral { elems, .. },
                    ..
                } if elems.len() == 2
            ));
            assert!(matches!(
                &body[1],
                Stmt::Let {
                    value: Expr::ArrayLiteral { elems, .. },
                    ..
                } if elems.is_empty()
            ));
        }
        other => panic!("expected fn, got {other:?}"),
    }
}

#[test]
fn parses_nested_array_types() {
    let (prog, diags) =
        parse_src("function f(a: Array[Array[u64]]): Array[String] { return [\"s\"]; }");
    assert!(diags.is_empty(), "{diags:?}");
    match &prog.items[0] {
        Item::Function { params, ret, .. } => {
            assert_eq!(
                params[0].ty,
                Some(VlType::Array(Box::new(VlType::Array(Box::new(
                    VlType::U64
                )))))
            );
            assert_eq!(*ret, Some(VlType::Array(Box::new(VlType::String))));
        }
        other => panic!("expected fn, got {other:?}"),
    }
}

#[test]
fn bare_array_without_element_is_an_error() {
    let (_prog, diags) = parse_src("function f(a: Array): void { return; }");
    assert!(diags.iter().any(|d| d.code.as_deref() == Some("E104")));
}

#[test]
fn u64array_is_removed_with_a_hint() {
    let (_prog, diags) = parse_src("function f(a: U64Array): void { return; }");
    assert!(mentions(&diags, "Array[u64]"), "{diags:?}");
}

#[test]
fn parses_generic_function_and_turbofish_call() {
    let (prog, diags) = parse_src(
        "function first[T](a: Array[T]): T { return a[0u64]; } function main() { first([1u64]); first::[u64]([1u64]); }",
    );
    assert!(diags.is_empty(), "{diags:?}");
    match &prog.items[0] {
        Item::Function {
            type_params,
            params,
            ret,
            ..
        } => {
            assert_eq!(type_params.len(), 1);
            assert_eq!(type_params[0].name, "T");
            assert_eq!(
                params[0].ty,
                Some(VlType::Array(Box::new(VlType::Param("T".into()))))
            );
            assert_eq!(*ret, Some(VlType::Param("T".into())));
        }
        other => panic!("expected fn, got {other:?}"),
    }
    match &prog.items[1] {
        Item::Function { body, .. } => {
            match &body[0] {
                Stmt::Expr(Expr::Call {
                    type_args, args, ..
                }) => {
                    assert!(type_args.is_empty());
                    assert_eq!(args.len(), 1);
                }
                other => panic!("expected inferred call, got {other:?}"),
            }
            match &body[1] {
                Stmt::Expr(Expr::Call {
                    type_args, args, ..
                }) => {
                    assert_eq!(*type_args, vec![VlType::U64]);
                    assert_eq!(args.len(), 1);
                }
                other => panic!("expected turbofish call, got {other:?}"),
            }
        }
        other => panic!("expected fn, got {other:?}"),
    }
}

#[test]
fn duplicate_type_params_are_an_error() {
    let (_prog, diags) = parse_src("function f[T, T](x: T): T { return x; }");
    assert!(diags.iter().any(|d| d.code.as_deref() == Some("E200")));
}

#[test]
fn type_param_shadowing_primitive_is_an_error() {
    let (_prog, diags) = parse_src("function f[u64](x: u64): u64 { return x; }");
    assert!(diags
        .iter()
        .any(|d| d.message.contains("shadows a primitive")));
}

#[test]
fn unknown_type_param_in_signature_is_an_error() {
    let (_prog, diags) = parse_src("function f[T](x: U): U { return x; }");
    assert!(diags.iter().any(|d| d.code.as_deref() == Some("E105")));
}

#[test]
fn bracket_call_without_turbofish_is_an_index_error() {
    let (_prog, diags) = parse_src("function main() { f[T](1u64); }");
    assert!(mentions(&diags, "f::[T]"), "{diags:?}");
}

#[test]
fn turbofish_without_call_is_an_error() {
    let (_prog, diags) = parse_src("function main() { f::[u64]; }");
    assert!(diags.iter().any(|d| d.code.as_deref() == Some("E103")));
}

#[test]
fn annotated_lets_parse() {
    let (prog, diags) = parse_src(
        "let scores: Array[u64] = Array.new::[u64](3); function main() { let n: u64 = 1; n; }",
    );
    assert!(diags.is_empty(), "{diags:?}");
    match &prog.items[0] {
        Item::Let { ty, ty_span, .. } => {
            assert_eq!(*ty, Some(VlType::Array(Box::new(VlType::U64))));
            assert!(ty_span.is_some());
        }
        other => panic!("expected let, got {other:?}"),
    }
    match &prog.items[1] {
        Item::Function { body, .. } => match &body[0] {
            Stmt::Let { ty, .. } => assert_eq!(*ty, Some(VlType::U64)),
            other => panic!("expected let, got {other:?}"),
        },
        other => panic!("expected fn, got {other:?}"),
    }
}

#[test]
fn unannotated_lets_stay_untyped() {
    let (prog, diags) = parse_src("let x = 1; function main() { let y = 2; y; }");
    assert!(diags.is_empty(), "{diags:?}");
    match &prog.items[0] {
        Item::Let { ty, ty_span, .. } => {
            assert_eq!(*ty, None);
            assert_eq!(*ty_span, None);
        }
        other => panic!("expected let, got {other:?}"),
    }
}

#[test]
fn void_let_is_an_error() {
    let (_prog, diags) = parse_src("let x: void = 1;");
    assert!(diags.iter().any(|d| d.code.as_deref() == Some("E104")));
    let (_prog, diags) = parse_src("function main() { let x: void = 1; }");
    assert!(diags.iter().any(|d| d.code.as_deref() == Some("E104")));
}

#[test]
fn unknown_let_type_is_an_error() {
    let (_prog, diags) = parse_src("let x: Bogus = 1;");
    assert!(diags.iter().any(|d| d.code.as_deref() == Some("E105")));
}

#[test]
fn let_annotation_sees_type_params() {
    let (prog, diags) =
        parse_src("function f[T](x: T): T { let y: T = x; let z: Array[T] = [x]; return y; }");
    assert!(diags.is_empty(), "{diags:?}");
    match &prog.items[0] {
        Item::Function { body, .. } => {
            match &body[0] {
                Stmt::Let { ty, .. } => assert_eq!(*ty, Some(VlType::Param("T".into()))),
                other => panic!("expected let, got {other:?}"),
            }
            match &body[1] {
                Stmt::Let { ty, .. } => assert_eq!(
                    *ty,
                    Some(VlType::Array(Box::new(VlType::Param("T".into()))))
                ),
                other => panic!("expected let, got {other:?}"),
            }
        }
        other => panic!("expected fn, got {other:?}"),
    }
}

#[test]
fn unclosed_index_is_an_error() {
    let (_prog, diags) = parse_src("function main() { a[0u64; }");
    assert!(!diags.is_empty());
}

#[test]
fn return_with_value_and_bare_return_parse() {
    let (prog, diags) = parse_src("function f(): i64 { return 1; } function g() { return; }");
    assert!(diags.is_empty(), "{diags:?}");
    match &prog.items[0] {
        Item::Function { body, .. } => {
            assert!(matches!(body[0], Stmt::Return { value: Some(_), .. }))
        }
        other => panic!("expected fn, got {other:?}"),
    }
    match &prog.items[1] {
        Item::Function { body, .. } => {
            assert!(matches!(body[0], Stmt::Return { value: None, .. }))
        }
        other => panic!("expected fn, got {other:?}"),
    }
}

#[test]
fn return_requires_semi() {
    let (_prog, diags) = parse_src("function f(): i64 { return 1 }");
    assert!(!diags.is_empty());
}

#[test]
fn lexical_poison_does_not_hide_later_function() {
    let (toks, lex_diags) = lex("let broken = @; function tail() {} ");
    assert_eq!(lex_diags.len(), 1);
    let (prog, parse_diags) = parse(&toks, "");
    assert!(parse_diags.is_empty(), "{parse_diags:?}");
    assert!(prog
        .items
        .iter()
        .any(|item| matches!(item, Item::Function { name, .. } if name == "tail")));
}

#[test]
fn parses_as_cast_with_precedence() {
    // `a + b as u8` is `(a + b) as u8`; `a == b as u8` is `a == (b as u8)`.
    let (prog, diags) = parse_src("function main() { let x = 1u64 + 2u64 as u8; x; }");
    assert!(diags.is_empty(), "{diags:?}");
    match &prog.items[0] {
        Item::Function { body, .. } => match &body[0] {
            Stmt::Let { value, .. } => assert!(matches!(value, Expr::Cast { .. })),
            other => panic!("expected cast let, got {other:?}"),
        },
        other => panic!("expected fn, got {other:?}"),
    }
}

#[test]
fn parses_bounded_type_params() {
    let (prog, diags) =
        parse_src("function add[T extends Numeric](a: T, b: T): T { return a + b; }");
    assert!(diags.is_empty(), "{diags:?}");
    match &prog.items[0] {
        Item::Function { type_params, .. } => {
            assert_eq!(type_params.len(), 1);
            assert_eq!(type_params[0].name, "T");
            assert_eq!(type_params[0].bound, Some(GenericBound::Numeric));
        }
        other => panic!("expected fn, got {other:?}"),
    }
}

#[test]
fn unknown_bound_is_an_error() {
    let (_prog, diags) = parse_src("function f[T extends Bogus](x: T): T { return x; }");
    assert!(diags.iter().any(|d| d.code.as_deref() == Some("E105")));
}
