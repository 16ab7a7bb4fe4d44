#![allow(unused_imports)]

use vl::hir::{HirExpr, HirItem, HirStmt};
use vl::hir_lowering::lower;
use vl::lex::lex;
use vl::parser::parse;
use vl::resolution::DefKind;
use vl::resolver::{resolve, resolve_with_modules};
use vl::ty::{GenericBound, VlType};
use vl::module::{Export, ExportKind, FuncSig, ModuleSpec, ParamSig, TypeParamSig};

#[test]
fn tuples_lower_with_index_assign_and_destructure() {
    let src = "fun main() { val t = #(1u64, \"a\"); val a = t.`0; var m = #(1u64, 2u64); m.`0 = 3u64; val #(p, q) = t; }";
    let (toks, _) = lex(src);
    let (prog, pdiags) = parse(&toks, src);
    assert!(pdiags.is_empty(), "{pdiags:?}");
    let (res, rdiags) = resolve(&prog);
    assert!(rdiags.iter().all(|d| !d.is_error()), "{rdiags:?}");
    let hir = lower(&prog, &res);
    match &hir.items[0] {
        HirItem::Fn { body, .. } => {
            assert!(
                matches!(&body[0], HirStmt::Let { value: HirExpr::TupleLiteral { elems, .. }, .. } if elems.len() == 2)
            );
            assert!(matches!(
                &body[1],
                HirStmt::Let {
                    value: HirExpr::TupleIndex { index: 0, .. },
                    ..
                }
            ));
            assert!(matches!(&body[3], HirStmt::TupleAssign { index: 0, .. }));
            assert!(
                matches!(&body[4], HirStmt::Destructure { bindings, .. } if bindings.len() == 2)
            );
        }
        other => panic!("expected fn, got {other:?}"),
    }
}

#[test]
fn not_lowers_to_explicit_unary() {
    let (toks, _) = lex("fun main() { !true; }");
    let (prog, _) = parse(&toks, "");
    let (res, _) = resolve(&prog);
    let hir = lower(&prog, &res);
    match &hir.items[0] {
        HirItem::Fn { body, .. } => {
            assert!(matches!(&body[0], HirStmt::Expr(HirExpr::Unary { .. })))
        }
        other => panic!("expected fn, got {other:?}"),
    }
}

#[test]
fn arrays_lower() {
    let src = "fun main() { var a = [1u64, 2u64]; a[0u64] = 3u64; val x = a[1u64]; }";
    let (toks, _) = lex(src);
    let (prog, pdiags) = parse(&toks, src);
    assert!(pdiags.is_empty(), "{pdiags:?}");
    let (res, rdiags) = resolve(&prog);
    assert!(rdiags.iter().all(|d| !d.is_error()), "{rdiags:?}");
    let hir = lower(&prog, &res);
    match &hir.items[0] {
        HirItem::Fn { body, .. } => {
            assert!(matches!(&body[0], HirStmt::Let { .. }));
            assert!(matches!(&body[1], HirStmt::IndexAssign { .. }));
            assert!(matches!(&body[2], HirStmt::Let { .. }));
        }
        other => panic!("expected fn, got {other:?}"),
    }
}

#[test]
fn generics_plumb_type_params_and_args() {
    let src = "fun first[T](a: Array[T]): T { return a[0u64]; } fun main() { first([1u64]); first::[u64]([2u64]); }";
    let (toks, _) = lex(src);
    let (prog, pdiags) = parse(&toks, src);
    assert!(pdiags.is_empty(), "{pdiags:?}");
    let (res, rdiags) = resolve(&prog);
    assert!(rdiags.iter().all(|d| !d.is_error()), "{rdiags:?}");
    let hir = lower(&prog, &res);
    match &hir.items[0] {
        HirItem::Fn {
            type_params,
            params,
            ret,
            ..
        } => {
            assert_eq!(
                type_params
                    .iter()
                    .map(|p| p.name.clone())
                    .collect::<Vec<_>>(),
                vec!["T".to_string()]
            );
            assert!(type_params[0].bound.is_none());
            assert!(matches!(params[0].2, Some(VlType::Array(_))));
            assert!(matches!(ret, Some(VlType::Param(_))));
        }
        other => panic!("expected fn, got {other:?}"),
    }
    match &hir.items[1] {
        HirItem::Fn { body, .. } => {
            match &body[0] {
                HirStmt::Expr(HirExpr::Call { type_args, .. }) => {
                    assert!(type_args.is_empty());
                }
                other => panic!("expected inferred call, got {other:?}"),
            }
            match &body[1] {
                HirStmt::Expr(HirExpr::Call { type_args, .. }) => {
                    assert_eq!(type_args.len(), 1);
                }
                other => panic!("expected turbofish call, got {other:?}"),
            }
        }
        other => panic!("expected fn, got {other:?}"),
    }
}

#[test]
fn annotated_lets_carry_their_types() {
    let src = "val scores: Array[u64] = Array.new::[u64](3); fun main() { val n: u64 = 1; n; }";
    let (toks, _) = lex(src);
    let (prog, pdiags) = parse(&toks, src);
    assert!(pdiags.is_empty(), "{pdiags:?}");
    let (res, rdiags) = resolve(&prog);
    assert!(rdiags.iter().all(|d| !d.is_error()), "{rdiags:?}");
    let hir = lower(&prog, &res);
    match &hir.items[0] {
        HirItem::Let { ty, ty_span, .. } => {
            assert!(matches!(ty, Some(VlType::Array(_))));
            assert!(ty_span.is_some());
        }
        other => panic!("expected val, got {other:?}"),
    }
    match &hir.items[1] {
        HirItem::Fn { body, .. } => match &body[0] {
            HirStmt::Let { ty, .. } => assert_eq!(*ty, Some(VlType::U64)),
            other => panic!("expected val, got {other:?}"),
        },
        other => panic!("expected fn, got {other:?}"),
    }
}

#[test]
fn assign_links_the_resolved_binding() {
    let src = "fun main() { var x = 1; x = 2; }";
    let (toks, _) = lex(src);
    let (prog, _) = parse(&toks, src);
    let (res, rdiags) = resolve(&prog);
    assert!(rdiags.iter().all(|d| !d.is_error()), "{rdiags:?}");
    let hir = lower(&prog, &res);
    match &hir.items[0] {
        HirItem::Fn { body, .. } => {
            assert!(matches!(&body[1], HirStmt::Assign { def: Some(_), .. }))
        }
        other => panic!("expected fn, got {other:?}"),
    }
}

#[test]
fn while_and_break_lower() {
    let src = "fun main() { while (true) { break; } }";
    let (toks, _) = lex(src);
    let (prog, _) = parse(&toks, src);
    let (res, rdiags) = resolve(&prog);
    assert!(rdiags.iter().all(|d| !d.is_error()), "{rdiags:?}");
    let hir = lower(&prog, &res);
    match &hir.items[0] {
        HirItem::Fn { body, .. } => match &body[0] {
            HirStmt::While { body, .. } => {
                assert!(matches!(body[0], HirStmt::Break { .. }))
            }
            other => panic!("expected while, got {other:?}"),
        },
        other => panic!("expected fn, got {other:?}"),
    }
}

#[test]
fn neg_desugars_to_sub() {
    let (toks, _) = lex("val x = -1;");
    let (prog, _) = parse(&toks, "val x = -1;");
    let (res, _) = resolve(&prog);
    let hir = lower(&prog, &res);
    assert_eq!(hir.items.len(), 1);
    assert!(matches!(hir.items[0], HirItem::Let { .. }));
}

#[test]
fn call_links_callee_def() {
    let src = "fun add(a: i64, b: i64): i64 { return a + b; } fun main() { add(1, 2); }";
    let (toks, _) = lex(src);
    let (prog, _) = parse(&toks, src);
    let (res, _) = resolve(&prog);
    let hir = lower(&prog, &res);
    assert_eq!(hir.items.len(), 2);
    match &hir.items[1] {
        HirItem::Fn { body, .. } => match &body[0] {
            HirStmt::Expr(HirExpr::Call {
                name, args, def, ..
            }) => {
                assert_eq!(name, "add");
                assert_eq!(args.len(), 2);
                assert!(def.is_some());
            }
            other => panic!("expected call, got {other:?}"),
        },
        other => panic!("expected fn, got {other:?}"),
    }
}

#[test]
fn objects_lower_with_field_reads_and_writes() {
    let src = "type Counter = object { value: u64, }; fun main() { var c = Counter { value = 1 }; c.value = c.value + 1; }";
    let (toks, _) = lex(src);
    let (prog, pdiags) = parse(&toks, src);
    assert!(pdiags.is_empty(), "{pdiags:?}");
    let (res, rdiags) = resolve(&prog);
    assert!(rdiags.is_empty(), "{rdiags:?}");
    let hir = lower(&prog, &res);
    assert!(matches!(hir.items[0], HirItem::Object { .. }));
    assert!(matches!(
        hir.items[1],
        HirItem::Fn { ref body, .. }
            if body.iter().any(|stmt| matches!(stmt, HirStmt::FieldAssign { .. }))
    ));
}

#[test]
fn unions_lower_with_variant_and_payload_spans_intact() {
    let src = "type U[T] = union { Some(T, u64), };";
    let (toks, _) = lex(src);
    let (prog, pdiags) = parse(&toks, src);
    assert!(pdiags.is_empty(), "{pdiags:?}");
    let (res, rdiags) = resolve(&prog);
    assert!(rdiags.is_empty(), "{rdiags:?}");
    let hir = lower(&prog, &res);
    let ast_variant = match &prog.items[0] {
        vl::ast::Item::Union { variants, .. } => &variants[0],
        other => panic!("expected AST union, got {other:?}"),
    };
    match &hir.items[0] {
        HirItem::Union { variants, .. } => {
            assert_eq!(variants[0].name, ast_variant.name);
            assert_eq!(variants[0].name_span, ast_variant.name_span);
            assert_eq!(variants[0].payload, ast_variant.payload);
        }
        other => panic!("expected HIR union, got {other:?}"),
    }
}

#[test]
fn variant_construction_lowers_to_variant_nodes() {
    let src = "type Option[T] = union { None, Some(T), }; fun main() { val a = Option.Some(1u64); val n = Option.None; a; n; }";
    let (toks, _) = lex(src);
    let (prog, pdiags) = parse(&toks, src);
    assert!(pdiags.is_empty(), "{pdiags:?}");
    let (res, rdiags) = resolve(&prog);
    assert!(rdiags.iter().all(|d| !d.is_error()), "{rdiags:?}");
    let hir = lower(&prog, &res);
    match &hir.items[1] {
        HirItem::Fn { body, .. } => {
            match &body[0] {
                HirStmt::Let { value, .. } => match value {
                    HirExpr::Variant {
                        union,
                        variant,
                        args,
                        ..
                    } => {
                        assert_eq!(union, "Option");
                        assert_eq!(variant, "Some");
                        assert_eq!(args.len(), 1);
                    }
                    other => panic!("expected variant, got {other:?}"),
                },
                other => panic!("expected let, got {other:?}"),
            }
            match &body[1] {
                HirStmt::Let { value, .. } => {
                    assert!(
                        matches!(
                            value,
                            HirExpr::Variant { args, .. } if args.is_empty()
                        ),
                        "expected nullary variant, got {value:?}"
                    );
                }
                other => panic!("expected let, got {other:?}"),
            }
        }
        other => panic!("expected fn, got {other:?}"),
    }
}

#[test]
fn match_lowers_with_arm_bindings() {
    let src = "type U = union { A(u64), B, }; fun main() { val u = U.B; match (u) { U.A(v) { v; } else { 0u64; } } }";
    let (toks, _) = lex(src);
    let (prog, pdiags) = parse(&toks, src);
    assert!(pdiags.is_empty(), "{pdiags:?}");
    let (res, rdiags) = resolve(&prog);
    assert!(rdiags.iter().all(|d| !d.is_error()), "{rdiags:?}");
    let hir = lower(&prog, &res);
    match &hir.items[1] {
        HirItem::Fn { body, .. } => match &body[1] {
            HirStmt::Match {
                arms, else_body, ..
            } => {
                assert_eq!(arms.len(), 1);
                assert_eq!(arms[0].union, "U");
                assert_eq!(arms[0].variant, "A");
                assert_eq!(arms[0].bindings.len(), 1);
                assert_eq!(arms[0].bindings[0].binding, "v");
                assert!(arms[0].bindings[0].def.is_some());
                assert!(else_body.is_some());
            }
            other => panic!("expected match, got {other:?}"),
        },
        other => panic!("expected fn, got {other:?}"),
    }
}

#[test]
fn null_lowers_to_a_null_node() {
    let src = "fun main() { val x: ?u64 = null; x; }";
    let (toks, _) = lex(src);
    let (prog, pdiags) = parse(&toks, src);
    assert!(pdiags.is_empty(), "{pdiags:?}");
    let (res, rdiags) = resolve(&prog);
    assert!(rdiags.iter().all(|d| !d.is_error()), "{rdiags:?}");
    let hir = lower(&prog, &res);
    match &hir.items[0] {
        HirItem::Fn { body, .. } => match &body[0] {
            HirStmt::Let { value, ty, .. } => {
                assert!(matches!(value, HirExpr::Null { .. }));
                assert!(matches!(ty, Some(VlType::Nullable(_))));
            }
            other => panic!("expected let, got {other:?}"),
        },
        other => panic!("expected fn, got {other:?}"),
    }
}

#[test]
fn null_match_arm_desugars_to_option_none() {
    let src =
        "fun main() { val x: ?u64 = null; match (x) { Option.Some(v) { v; } null { 0u64; } } }";
    let (toks, _) = lex(src);
    let (prog, pdiags) = parse(&toks, src);
    assert!(pdiags.is_empty(), "{pdiags:?}");
    let (res, rdiags) = resolve(&prog);
    assert!(rdiags.iter().all(|d| !d.is_error()), "{rdiags:?}");
    let hir = lower(&prog, &res);
    match &hir.items[0] {
        HirItem::Fn { body, .. } => match &body[1] {
            HirStmt::Match { arms, .. } => {
                assert_eq!(arms.len(), 2);
                assert_eq!(arms[0].union, "Option");
                assert_eq!(arms[0].variant, "Some");
                assert_eq!(arms[1].union, "Option");
                assert_eq!(arms[1].variant, "None");
                assert!(arms[1].bindings.is_empty());
            }
            other => panic!("expected match, got {other:?}"),
        },
        other => panic!("expected fn, got {other:?}"),
    }
}

#[test]
fn return_lowers_with_value() {
    let src = "fun f(): i64 { return 1; } fun m() { return; }";
    let (toks, _) = lex(src);
    let (prog, pdiags) = parse(&toks, src);
    assert!(pdiags.is_empty(), "{pdiags:?}");
    let (res, rdiags) = resolve(&prog);
    assert!(rdiags.iter().all(|d| !d.is_error()), "{rdiags:?}");
    let hir = lower(&prog, &res);
    match &hir.items[0] {
        HirItem::Fn { body, .. } => {
            assert!(matches!(&body[0], HirStmt::Return { value: Some(_), .. }))
        }
        other => panic!("expected fn, got {other:?}"),
    }
    match &hir.items[1] {
        HirItem::Fn { body, .. } => {
            assert!(matches!(&body[0], HirStmt::Return { value: None, .. }))
        }
        other => panic!("expected fn, got {other:?}"),
    }
}

#[test]
fn associated_functions_lower_to_namespaced_fns() {
    let src = "type Counter = object { value: u64, fun bump(self: *Counter): *Counter { return self; }, }; fun main() { var c: *Counter = Counter { value = 1 }; }";
    let (toks, _) = lex(src);
    let (prog, pdiags) = parse(&toks, src);
    assert!(pdiags.is_empty(), "{pdiags:?}");
    let (res, rdiags) = resolve(&prog);
    assert!(rdiags.iter().all(|d| !d.is_error()), "{rdiags:?}");
    let hir = lower(&prog, &res);
    assert_eq!(hir.items.len(), 3);
    assert!(matches!(hir.items[0], HirItem::Object { .. }));
    match &hir.items[1] {
        HirItem::Fn {
            name, def, params, ..
        } => {
            assert_eq!(name, "Counter.bump");
            assert!(def.is_some());
            assert_eq!(params.len(), 1);
        }
        other => panic!("expected method fn, got {other:?}"),
    }
    assert!(matches!(&hir.items[2], HirItem::Fn { name, .. } if name == "main"));
}

#[test]
fn sugar_call_lowers_to_method_call_with_receiver() {
    let src = "type C = object { value: u64, fun f(self: C): u64 { return self.value; }, }; fun main() { var c: *C = C { value = 1 }; c.f(); }";
    let (toks, _) = lex(src);
    let (prog, pdiags) = parse(&toks, src);
    assert!(pdiags.is_empty(), "{pdiags:?}");
    let (res, rdiags) = resolve(&prog);
    assert!(rdiags.iter().all(|d| !d.is_error()), "{rdiags:?}");
    let hir = lower(&prog, &res);
    match hir.items.last().expect("main") {
        HirItem::Fn { body, .. } => match body.last().expect("call") {
            HirStmt::Expr(HirExpr::MethodCall {
                receiver,
                method,
                args,
                ..
            }) => {
                assert_eq!(method, "f");
                assert!(args.is_empty());
                assert!(
                    matches!(&**receiver, HirExpr::Var { def: Some(_), name, .. } if name == "c")
                );
            }
            other => panic!("expected method call, got {other:?}"),
        },
        other => panic!("expected fn, got {other:?}"),
    }
}

#[test]
fn unresolved_call_poisoned_not_panic() {
    let src = "fun main() { nope(1); }";
    let (toks, _) = lex(src);
    let (prog, _) = parse(&toks, src);
    let (res, _) = resolve(&prog);
    let hir = lower(&prog, &res);
    match &hir.items[0] {
        HirItem::Fn { body, .. } => assert!(matches!(
            &body[0],
            HirStmt::Expr(HirExpr::Call { def: None, .. })
        )),
        other => panic!("expected fn, got {other:?}"),
    }
}

#[test]
fn casts_and_bounds_lower() {
    let src = "fun add[T extends Numeric](a: T, b: T): T { val c = a as u64; return a + b; } fun main() { add(1u64, 2u64); }";
    let (toks, _) = lex(src);
    let (prog, pdiags) = parse(&toks, src);
    assert!(pdiags.is_empty(), "{pdiags:?}");
    let (res, rdiags) = resolve(&prog);
    assert!(rdiags.iter().all(|d| !d.is_error()), "{rdiags:?}");
    let hir = lower(&prog, &res);
    match &hir.items[0] {
        HirItem::Fn {
            type_params, body, ..
        } => {
            assert_eq!(type_params.len(), 1);
            assert_eq!(type_params[0].bound, Some(GenericBound::Numeric));
            assert!(matches!(
                &body[0],
                HirStmt::Let {
                    value: HirExpr::Cast { .. },
                    ..
                }
            ));
        }
        other => panic!("expected fn, got {other:?}"),
    }
}

#[test]
fn mutable_types_survive_lowering() {
    let src = "type Child = object { value: u64, }; type Parent = object { child: *Child, children: *Array[*Child], }; fun edit(parent: *Parent): *Parent { val x: *Child = parent.child; x; return parent; }";
    let (toks, _) = lex(src);
    let (prog, pdiags) = parse(&toks, src);
    assert!(pdiags.is_empty(), "{pdiags:?}");
    let (res, rdiags) = resolve(&prog);
    assert!(rdiags.iter().all(|d| !d.is_error()), "{rdiags:?}");
    let hir = lower(&prog, &res);
    match &hir.items[1] {
        HirItem::Object { fields, .. } => {
            assert_eq!(
                fields[0].1,
                Some(VlType::Mutable(Box::new(VlType::Object("Child".into()))))
            );
            assert_eq!(
                fields[1].1,
                Some(VlType::Mutable(Box::new(VlType::Array(Box::new(
                    VlType::Mutable(Box::new(VlType::Object("Child".into())))
                )))))
            );
        }
        other => panic!("expected object, got {other:?}"),
    }
    match &hir.items[2] {
        HirItem::Fn {
            params, ret, body, ..
        } => {
            assert_eq!(
                params[0].2,
                Some(VlType::Mutable(Box::new(VlType::Object("Parent".into()))))
            );
            assert_eq!(
                *ret,
                Some(VlType::Mutable(Box::new(VlType::Object("Parent".into()))))
            );
            // A binding introduces a fresh local; its initializer reads `parent`.
            let param_def = params[0].1.clone().expect("param def");
            let param = res.defs.iter().find(|d| d.id == param_def).expect("param");
            assert_eq!(param.kind, DefKind::Parameter);
            assert_eq!(param.name, "parent");
            match &body[0] {
                HirStmt::Let { ty, def, value, .. } => {
                    assert_eq!(
                        *ty,
                        Some(VlType::Mutable(Box::new(VlType::Object("Child".into()))))
                    );
                    let local_def = def.clone().expect("val def must survive");
                    let local = res
                        .defs
                        .iter()
                        .find(|d| d.id == local_def)
                        .expect("local def");
                    assert_eq!(local.kind, DefKind::Local);
                    assert_eq!(local.name, "x");
                    // Initializer `parent.child` reads through the param.
                    match value {
                        HirExpr::Field { base, name, .. } => {
                            assert_eq!(name, "child");
                            match &**base {
                                HirExpr::Var { def, name, .. } => {
                                    assert_eq!(name, "parent");
                                    assert_eq!(*def, Some(param_def));
                                }
                                other => panic!("expected parent var, got {other:?}"),
                            }
                        }
                        other => panic!("expected field read, got {other:?}"),
                    }
                }
                other => panic!("expected val, got {other:?}"),
            }
            // `x;` reads the local, `return parent;` reads the parameter.
            match &body[1] {
                HirStmt::Expr(HirExpr::Var { def, name, .. }) => {
                    assert_eq!(name, "x");
                    assert!(def.is_some());
                }
                other => panic!("expected x read, got {other:?}"),
            }
        }
        other => panic!("expected fn, got {other:?}"),
    }
}

#[test]
fn mutable_call_type_args_and_assign_kinds_survive() {
    let src = "type Foo = object { value: u64, }; fun id[T](x: T): T { return x; } fun main() { val base = Foo { value = 1u64 }; var e = id::[*Foo](base); var arr = [1u64]; val c = base as Foo; e = base; e.value = 1u64; arr[0u64] = 2u64; }";
    let (toks, _) = lex(src);
    let (prog, pdiags) = parse(&toks, src);
    assert!(pdiags.is_empty(), "{pdiags:?}");
    let (res, rdiags) = resolve(&prog);
    assert!(rdiags.iter().all(|d| !d.is_error()), "{rdiags:?}");
    let hir = lower(&prog, &res);
    match &hir.items[2] {
        HirItem::Fn { body, .. } => {
            // `var e = id::[*Foo](base)`: mutable turbofish survives.
            match &body[1] {
                HirStmt::Let { def, value, .. } => {
                    let let_def = def.clone().expect("e def");
                    match value {
                        HirExpr::Call {
                            type_args,
                            args,
                            def: callee,
                            ..
                        } => {
                            assert_eq!(
                                *type_args,
                                vec![VlType::Mutable(Box::new(VlType::Object("Foo".into())))]
                            );
                            assert!(callee.is_some());
                            match &args[0] {
                                HirExpr::Var { def, name, .. } => {
                                    assert_eq!(name, "base");
                                    assert!(def.is_some());
                                    // Argument refers to the earlier `base` local.
                                    match &body[0] {
                                        HirStmt::Let { def: base_def, .. } => {
                                            assert_eq!(*def, *base_def);
                                        }
                                        other => {
                                            panic!("expected base val, got {other:?}")
                                        }
                                    }
                                }
                                other => panic!("expected base var, got {other:?}"),
                            }
                        }
                        other => panic!("expected call, got {other:?}"),
                    }
                    // `e = base` targets the `e` local exactly.
                    match &body[4] {
                        HirStmt::Assign { def: target, .. } => {
                            assert_eq!(*target, Some(let_def));
                        }
                        other => panic!("expected assign, got {other:?}"),
                    }
                }
                other => panic!("expected val e, got {other:?}"),
            }
            // `val c = base as Foo` preserves the cast target exactly.
            match &body[3] {
                HirStmt::Let { value, .. } => match value {
                    HirExpr::Cast { target, .. } => {
                        assert_eq!(*target, VlType::Object("Foo".into()));
                    }
                    other => panic!("expected cast, got {other:?}"),
                },
                other => panic!("expected val c, got {other:?}"),
            }
            assert!(matches!(&body[4], HirStmt::Assign { .. }));
            assert!(matches!(&body[5], HirStmt::FieldAssign { .. }));
            assert!(matches!(&body[6], HirStmt::IndexAssign { .. }));
        }
        other => panic!("expected fn, got {other:?}"),
    }
}

#[test]
fn mutable_cast_and_top_let_targets_survive() {
    let src = "type Foo = object { value: u64, }; val g: *Foo = Foo { value = 1u64 }; fun main() { val c = g as Foo; c; }";
    let (toks, _) = lex(src);
    let (prog, pdiags) = parse(&toks, src);
    assert!(pdiags.is_empty(), "{pdiags:?}");
    let (res, rdiags) = resolve(&prog);
    assert!(rdiags.iter().all(|d| !d.is_error()), "{rdiags:?}");
    let hir = lower(&prog, &res);
    match &hir.items[1] {
        HirItem::Let { ty, def, .. } => {
            assert_eq!(
                *ty,
                Some(VlType::Mutable(Box::new(VlType::Object("Foo".into()))))
            );
            assert!(def.is_some());
        }
        other => panic!("expected top val, got {other:?}"),
    }
}

#[test]
fn imported_generic_preserves_sig_linkage_and_symbol() {
    let sig = FuncSig::generic(
        vec![TypeParamSig {
            name: "T".into(),
            bound: None,
        }],
        vec![ParamSig {
            name: "value".into(),
            ty: VlType::Param("T".into()),
        }],
        VlType::Param("T".into()),
    );
    let module = ModuleSpec::new_source(
        &["demo", "lib"],
        vec![Export::source("id".into(), sig.clone())],
    );
    let (toks, _) = lex("use demo.lib.id; fun main() { id(1u64); }");
    let (prog, pdiags) = parse(&toks, "");
    assert!(pdiags.is_empty(), "{pdiags:?}");
    let (res, rdiags) = resolve_with_modules(&prog, &[module]);
    assert!(rdiags.iter().all(|d| !d.is_error()), "{rdiags:?}");
    let hir = lower(&prog, &res);
    match &hir.items[0] {
        HirItem::Fn { body, .. } => match &body[0] {
            HirStmt::Expr(value) => match value {
                HirExpr::Call {
                    extern_sig,
                    extern_kind,
                    symbol,
                    ..
                } => {
                    let sig = extern_sig.as_ref().expect("generic sig");
                    assert_eq!(sig.type_params.len(), 1);
                    assert_eq!(*extern_kind, Some(ExportKind::Source));
                    let sym = symbol.as_ref().expect("symbol");
                    assert_eq!(sym.module.as_string(), "demo.lib");
                    assert_eq!(sym.name, "id");
                }
                other => panic!("expected call, got {other:?}"),
            },
            other => panic!("expected expr, got {other:?}"),
        },
        other => panic!("expected fn, got {other:?}"),
    }
}

#[test]
fn unresolved_generic_provider_stays_poisoned() {
    let (toks, _) = lex("use demo.missing.id; fun main() { id(1u64); }");
    let (prog, _) = parse(&toks, "");
    let (res, _) = resolve_with_modules(&prog, &[]);
    let hir = lower(&prog, &res);
    match &hir.items[0] {
        HirItem::Fn { body, .. } => match &body[0] {
            HirStmt::Expr(value) => match value {
                HirExpr::Call { def, .. } => {
                    // Poisoned import resolves to a def without sig/symbol.
                    assert!(def.is_some());
                }
                other => panic!("expected call, got {other:?}"),
            },
            other => panic!("expected expr, got {other:?}"),
        },
        other => panic!("expected fn, got {other:?}"),
    }
}
