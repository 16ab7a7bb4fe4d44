#![allow(unused_imports)]

use std::str::FromStr;

use vl::ast::Expr;
use vl::diagnostic::{any_error, render_all, Diagnostic};
use vl::float::{nearest_double, show_double, Natural, Relation};
use vl::hir::{HirBinOp, HirExpr, HirId, HirItem, HirStmt};
use vl::interface::{collect_interface, collect_interface_quiet};
use vl::lex::lex;
use vl::module::{ModulePath, TemplateKey};
use vl::order::{order_of, text_before};
use vl::parser::{parse, parse_with_module};
use vl::resolver::resolve;
use vl::source::Sources;
use vl::span::Span;
use vl::table::{NameSet, Place, Table};
use vl::token::TokenKind;
use vl::ty::{GenericBound, VlType};
use vl::typed::Ty;

fn bits_of(text: &str) -> u64 {
    let (toks, diags) = lex(text);
    assert!(diags.is_empty(), "{diags:?}");
    match toks[0].kind {
        TokenKind::F64(bits) => bits,
        _ => panic!("{toks:?}"),
    }
}

#[test]
fn decimal_literals_become_the_nearest_double() {
    for text in [
        "0.0", "0.1", "0.2", "0.3", "1.0", "1.5", "2.5", "3.14159", "100.0", "123456789.125",
        "0.000001", "9007199254740993.0", "9007199254740992.5", "1.7976931348623157", "4.9",
        "179769313486231570000000000000000000000.0", "0.00000000000000000000000000000000000001",
    ] {
        let want: f64 = text.parse().unwrap();
        assert_eq!(bits_of(&format!("{text}f64")), want.to_bits(), "{text}");
    }
}

#[test]
fn doubles_are_written_as_the_shortest_decimal() {
    let values = [
        0.0, -0.0, 1.0, -1.0, 1.5, 0.1, 0.2, 0.3, 100.0, 1e21, 1e22, 1e23, 1e-7, 123456789.125,
        5e-324, f64::MAX, f64::MIN_POSITIVE, f64::EPSILON, 2.5e-10, 9007199254740993.0,
        1152921504606846976.0, 0.1 + 0.2, 1.0 / 3.0, f64::INFINITY, f64::NEG_INFINITY, f64::NAN,
        4503599627370497.5, 299792458.0, 6.02214076e23, 1e300, 2.2250738585072014e-308,
        562949953421312.25, 562949953421312.125, 1125899906842624.25,
    ];
    for v in values {
        assert_eq!(show_double(v.to_bits()), format!("{v}"), "{v:e}");
    }
    assert_eq!(show_double(1.5f64.to_bits()), "1.5");
    assert_eq!(show_double(1e21f64.to_bits()), "1000000000000000000000");
    assert_eq!(show_double(1e-7f64.to_bits()), "0.0000001");
}

#[test]
fn naturals_compare_by_value() {
    let a = Natural::zero().mul_add(0, 7).shifted(100);
    let b = Natural::zero().mul_add(0, 14).shifted(99);
    assert_eq!(a.compare(&b), Relation::Equal);
    assert_eq!(a.compare(&b.mul_add(1, 1)), Relation::Less);
    assert_eq!(a.compare(&Natural::zero()), Relation::Greater);
    assert_eq!(nearest_double(&Natural::zero().mul_add(0, 15), 1), 1.5f64.to_bits());
}

#[test]
fn tokens_end_with_one_end_of_file() {
    for src in ["", "let x = 1;", "@ \"open", "é + 3", "// only a remark"] {
        let (toks, _) = lex(src);
        let ends = toks.iter().filter(|t| matches!(t.kind, TokenKind::Eof)).count();
        assert_eq!(ends, 1, "{src}");
        assert!(matches!(toks[toks.len() - 1].kind, TokenKind::Eof));
        assert_eq!(toks[toks.len() - 1].span, Span::new(src.len(), src.len()));
        let mut last = 0;
        for t in &toks {
            assert!(last <= t.span.start && t.span.start <= t.span.end, "{src}");
            assert!(t.span.end <= src.len());
            last = t.span.end;
        }
    }
}

#[test]
fn tokens_are_described() {
    let (toks, _) = lex("x 1.5f64 let + 7u8 \"s\" true");
    let texts: Vec<String> = toks.iter().map(|t| t.kind.describe()).collect();
    assert_eq!(texts[1], "f64 literal `1.5`");
    assert!(texts[0].contains("x"), "{texts:?}");
    assert!(texts.iter().all(|t| !t.is_empty()));
}

#[test]
fn reports_are_rendered_over_their_source() {
    let d = Diagnostic::error("unexpected character `@`")
        .with_label(Span::new(8, 9), "here")
        .with_note("a remark")
        .with_code("E001");
    let text = d.render("demo.vl", "val x = @;\n");
    assert!(text.contains("unexpected character"), "{text}");
    assert!(text.contains("demo.vl"), "{text}");
    assert!(text.contains("E001"), "{text}");
    assert!(text.contains("a remark"), "{text}");
    assert!(text.contains("here"), "{text}");
    let w = Diagnostic::warning("only a warning");
    assert_ne!(text, w.render("demo.vl", "val x = @;\n"));
    assert!(!any_error(&[w]));
}

#[test]
fn errors_are_told_from_warnings() {
    let e = Diagnostic::error("bad").with_bare_label(Span::new(0, 1));
    let w = Diagnostic::warning("careful");
    assert!(e.is_error());
    assert!(!w.is_error());
    assert_eq!(e.labels.len(), 1);
    assert_eq!(e.labels[0].message, None);
    let both = [
        Diagnostic::warning("careful"),
        Diagnostic::error("bad").with_label(Span::new(0, 1), "this"),
    ];
    assert!(any_error(&both));
    assert!(!any_error(&both[..1]));
    let text = render_all(&both, "a.vl", "x\n");
    assert_eq!(text, format!("{}\n{}", both[0].render("a.vl", "x\n"), both[1].render("a.vl", "x\n")));
    assert_eq!(render_all(&[], "a.vl", "x\n"), "");
}

#[test]
fn spans_join_and_measure() {
    let a = Span::new(3, 5);
    let b = Span::new(8, 9);
    assert_eq!(a.merge(b), Span::new(3, 9));
    assert_eq!(b.merge(a), Span::new(3, 9));
    assert_eq!(a.merge(a), a);
    assert_eq!(a.len(), 2);
    assert!(Span::empty(4).is_empty());
    assert!(!a.is_empty());
    assert_eq!(a.range(), 3..5);
    let r: std::ops::Range<usize> = b.into();
    assert_eq!(r, 8..9);
}

#[test]
fn sources_keep_names_and_texts() {
    let mut s = Sources::new();
    let a = s.add("a.vl", "let a = 1;");
    let b = s.add("b.vl", "");
    assert_eq!(s.name(a), Some("a.vl"));
    assert_eq!(s.text(a), Some("let a = 1;"));
    assert_eq!(s.name(b), Some("b.vl"));
    assert_eq!(s.text(b), Some(""));
    assert!(s.get(a).is_some());
    assert!(Sources::new().get(b).is_none());
}

#[test]
fn tables_keep_the_latest_value() {
    let mut t: Table<Place, usize> = Table::new();
    assert_eq!(t.len(), 0);
    assert!(t.latest().is_none());
    t.insert(Place(1, 2), 10);
    t.insert(Place(3, 4), 20);
    t.insert(Place(1, 2), 30);
    assert_eq!(t.len(), 2);
    assert_eq!(t.get(&Place(1, 2)), Some(&30));
    assert_eq!(t.get(&Place(3, 4)), Some(&20));
    assert_eq!(t.get(&Place(9, 9)), None);
    assert_eq!(t.latest(), Some(&30));
    let copy = t.duplicate();
    t.remove(&Place(1, 2));
    assert!(!t.contains(&Place(1, 2)));
    assert!(copy.contains(&Place(1, 2)));
    let mut kept = copy.duplicate();
    kept.keep(&t);
    assert!(!kept.contains(&Place(1, 2)));
    assert!(kept.contains(&Place(3, 4)));
    assert_eq!(copy.keys().len(), 3);
    let mut bytes: Table<Place, u8> = Table::new();
    bytes.insert(Place(0, 0), 5);
    bytes.insert(Place(0, 0), 6);
    assert!(bytes.has_value(6));
    assert!(!bytes.has_value(5));
    let mut names = NameSet::new();
    assert!(names.is_empty());
    names.insert("a".into());
    assert!(names.contains("a"));
    assert!(!names.contains("b"));
    assert!(names.duplicate().contains("a"));
}

#[test]
fn texts_are_ordered_by_their_first_difference() {
    for (a, b) in [("", "a"), ("a", "b"), ("a", "ab"), ("Z", "a"), ("abc", "abd"), ("z", "é")] {
        assert!(text_before(a, b), "{a} {b}");
        assert!(!text_before(b, a), "{b} {a}");
        assert_eq!(text_before(a, b), a <= b);
    }
    assert!(text_before("same", "same"));
    let key = |m: &str, f: &str| vec![m.to_string(), f.to_string()];
    let keys = vec![key("b", "a"), key("a", "z"), key("a", "b"), key("b", "a")];
    assert_eq!(order_of(&keys), [2, 1, 0, 3]);
}

#[test]
fn paths_round_trip_through_their_dotted_form() {
    for text in ["std", "std.math", "a.b.c"] {
        assert_eq!(ModulePath::from_dotted(text).as_string(), text);
    }
    let p = ModulePath::new(vec!["a".into(), "b".into()]);
    assert_eq!(p.segments().len(), 2);
    assert_eq!(p.leaf(), Some("b"));
    assert_eq!(ModulePath::new(vec![]).leaf(), None);
    assert_eq!(TemplateKey::new("m", "f").to_string(), "m::f");
}

#[test]
fn builtin_types_are_named() {
    for name in ["u64", "i64", "f64", "bool", "u8", "String", "File", "void"] {
        assert_eq!(VlType::named(name).unwrap().to_string(), name);
        assert_eq!(VlType::from_str(name).unwrap().to_string(), name);
    }
    let e = VlType::named("nope").unwrap_err();
    assert!(e.to_string().starts_with("unknown type `nope`"));
    assert_eq!(GenericBound::named("Numeric").unwrap(), GenericBound::Numeric);
    assert!(GenericBound::named("Nope").is_err());
    for name in ["string", "file", "Array", "", "U64"] {
        let e = VlType::from_str(name).unwrap_err();
        assert_eq!(e.0, name);
    }
    assert_eq!(GenericBound::from_str("Comparable").unwrap(), GenericBound::Comparable);
    assert_eq!(GenericBound::from_str("numeric").unwrap_err().0, "numeric");
}

#[test]
fn checked_types_are_spelled_and_erased() {
    let t = Ty::Mutable(Box::new(Ty::Array(Box::new(Ty::Mutable(Box::new(Ty::String))))));
    assert_eq!(t.to_string(), "*Array[*String]");
    assert_eq!(t.erase_capability().to_string(), "Array[String]");
    assert!(t.is_concrete());
    assert_eq!(t.array_elem().unwrap().to_string(), "*String");
    let p = Ty::Array(Box::new(Ty::Param("T".into())));
    assert!(!p.is_concrete());
    let mut env: Table<String, Ty> = Table::new();
    env.insert("T".into(), Ty::U8);
    assert_eq!(p.substitute(&env).to_string(), "Array[u8]");
    assert_eq!(Ty::from_vl(&VlType::Nullable(Box::new(VlType::U64))).to_string(), "?u64");
}

fn program(src: &str) -> vl::ast::Program {
    let (toks, diags) = lex(src);
    assert!(diags.is_empty(), "{diags:?}");
    let (prog, diags) = parse_with_module(&toks, src, "demo");
    assert!(diags.is_empty(), "{diags:?}");
    prog
}

#[test]
fn dependence_on_globals_spreads_through_calls() {
    let (face, diags) = collect_interface(&program(
        "val g = 1u64; fun a(): u64 { return g; } fun b(): u64 { return a(); } fun c(g: u64): u64 { return g; } fun d(): u64 { val g = 2u64; return g; } fun e(): u64 { return b(); }",
    ));
    assert!(diags.is_empty(), "{diags:?}");
    assert_eq!(face.global_dependent_exports, ["a", "b", "e"]);
    let names: Vec<&str> = face.functions.iter().map(|f| f.name.as_str()).collect();
    assert_eq!(names, ["a", "b", "c", "d", "e"]);
    assert_eq!(face.path.as_string(), "demo");
}

#[test]
fn exported_types_are_named_with_their_module() {
    let (face, diags) = collect_interface_quiet(&program(
        "type P = object { x: u64, }; fun f(p: *P, q: Array[P]): P { return p; }",
    ));
    assert!(diags.is_empty(), "{diags:?}");
    assert_eq!(face.objects[0].qualified, "demo.P");
    let sig = &face.functions[0].sig;
    assert_eq!(sig.params[0].ty.to_string(), "*demo.P");
    assert_eq!(sig.params[1].ty.to_string(), "Array[demo.P]");
    assert_eq!(sig.ret.to_string(), "demo.P");
}

#[test]
fn duplicate_exports_are_reported_and_poisoned() {
    let src = "fun f(): u64 { return 1u64; } fun f(): u64 { return 2u64; }";
    let (face, diags) = collect_interface(&program(src));
    assert_eq!(diags.len(), 1);
    assert_eq!(diags[0].code.as_deref(), Some("E200"));
    assert_eq!(diags[0].message, "duplicate export `f`");
    assert!(face.functions.is_empty());
    assert_eq!(face.poisoned_exports, ["f"]);
}

#[test]
fn nodes_are_numbered_once_each() {
    let prog = program("fun main() { 1 + -2; }");
    let (res, _) = resolve(&prog);
    let hir = vl::hir_lowering::try_lower(&prog, &res).unwrap();
    let HirItem::Fn { id, body, .. } = &hir.items[0] else { panic!() };
    assert_eq!(*id, HirId(0));
    let HirStmt::Expr(HirExpr::Binary { id, lhs, rhs, op, .. }) = &body[0] else { panic!() };
    assert_eq!(*id, HirId(1));
    assert_eq!(*op, HirBinOp::Add);
    assert_eq!(lhs.id(), HirId(2));
    let HirExpr::Binary { id, lhs, rhs, op, .. } = &**rhs else { panic!() };
    assert_eq!(rhs.id(), HirId(3));
    assert_eq!(*id, HirId(4));
    assert_eq!(lhs.id(), HirId(5));
    assert_eq!(*op, HirBinOp::Sub);
}

#[test]
fn bad_input_is_reported_and_never_lost() {
    for src in ["fun", "fun f(", "fun f() { if ( }", "type = ;", "use ;", "val = 3;", "} } }", "fun f() { a.b.; }"] {
        let (toks, _) = lex(src);
        let (_, diags) = parse(&toks, src);
        assert!(any_error(&diags), "{src}");
        for d in &diags {
            for l in &d.labels {
                assert!(l.span.start <= l.span.end, "{src}");
            }
        }
    }
}

#[test]
fn uses_refer_to_definitions() {
    let prog = program("val g = 1u64; fun f(a: u64): u64 { val b = a + g; return b; }");
    let (res, diags) = resolve(&prog);
    assert!(diags.is_empty(), "{diags:?}");
    for id in res.uses.keys() {
        let def = res.uses.get(id).unwrap();
        assert!(res.defs.iter().any(|d| d.id == *def));
    }
    assert_eq!(res.uses.len(), 3);
    let names: Vec<&str> = res.defs.iter().map(|d| d.name.as_str()).collect();
    assert!(names.contains(&"g") && names.contains(&"a") && names.contains(&"b"), "{names:?}");
}

#[test]
fn exports_have_distinct_names() {
    let (face, _) = collect_interface(&program(
        "type A = object { x: u64, }; type A = object { y: u64, }; fun f(): u64 { return 1u64; }",
    ));
    assert_eq!(face.objects.len(), 1);
    assert_eq!(face.objects[0].fields[0].name, "x");
    assert_eq!(face.functions.len(), 1);
}

#[test]
fn every_report_about_a_text_can_be_drawn() {
    let mut seen = 0;
    for src in [
        "use nowhere.at.all; use nowhere.{a, a}; use std; use std;",
        "fun f(a: u64, a: u64): u64 { a = 1u64; break; continue; return missing(b.c.d); }",
        "type A = object { fun m(x): u64 { return y; } }; type A = union { B, }; val std = 1; val std = 2;",
        "fun f(x) { val (p, q: r) = #(1, 2); p = q; U.V; match (x) { U.V(a, a) { } null { } } }",
        "fun g() { Array.new::[u64, u64](3); U64Array.new(1); fun { \"open",
    ] {
        let (toks, mut all) = lex(src);
        let (prog, diags) = parse_with_module(&toks, src, "demo");
        all.extend(diags);
        all.extend(resolve(&prog).1);
        all.extend(collect_interface(&prog).1);
        all.extend(collect_interface_quiet(&prog).1);
        assert!(!all.is_empty(), "{src}");
        for d in &all {
            assert!(d.labels.iter().all(|l| l.span.start <= l.span.end), "{src}: {d:?}");
            assert!(d.render("demo.vl", src).contains("demo.vl") || d.labels.is_empty());
            seen += 1;
        }
    }
    assert!(seen > 15, "{seen}");
}

#[test]
fn written_doubles_read_back() {
    let mut bits: u64 = 1;
    for step in 0..60u64 {
        let text = show_double(bits);
        let back: f64 = text.parse().unwrap();
        assert_eq!(back.to_bits(), bits, "{text}");
        bits = (bits.wrapping_mul(6364136223846793005).wrapping_add(step)) % 0x7ff0_0000_0000_0000;
    }
}

#[test]
fn only_unions_take_type_parameters() {
    let src = "type P[T] = object { x: u64, }; fun f() { }";
    let (toks, _) = lex(src);
    let (prog, diags) = parse(&toks, src);
    assert_eq!(diags[0].code.as_deref(), Some("E100"));
    assert!(diags[0].message.contains("`=` after object name"), "{diags:?}");
    assert!(prog.items.iter().all(|i| !matches!(i, vl::ast::Item::Object { .. })));
    let src = "type O[T] = union { Some(T), None, };";
    let (toks, _) = lex(src);
    let (prog, diags) = parse(&toks, src);
    assert!(diags.is_empty(), "{diags:?}");
    assert_eq!(prog.items.len(), 1);
}

#[test]
fn texts_are_lexed_line_by_line() {
    let a = "val x = \"open \\";
    let b = "é 12u8 // rest @ \"";
    let (whole, reports) = lex(&format!("{a}\n{b}"));
    let (first, mut want) = lex(a);
    let (second, more) = lex(b);
    let shift = a.len() + 1;
    let mut toks: Vec<(TokenKind, Span)> = Vec::new();
    for t in &first[..first.len() - 1] {
        toks.push((t.kind.clone(), t.span));
    }
    for t in &second {
        toks.push((t.kind.clone(), Span::new(t.span.start + shift, t.span.end + shift)));
    }
    let got: Vec<(TokenKind, Span)> = whole.iter().map(|t| (t.kind.clone(), t.span)).collect();
    assert_eq!(format!("{got:?}"), format!("{toks:?}"));
    let at = want.len();
    want.extend(more);
    assert_eq!(reports.len(), want.len());
    for (i, (r, w)) in reports.iter().zip(&want).enumerate() {
        assert_eq!(r.message, w.message);
        let k = if i < at { 0 } else { shift };
        assert_eq!(r.labels[0].span, Span::new(w.labels[0].span.start + k, w.labels[0].span.end + k));
    }
}

#[test]
fn identifiers_are_positions() {
    let prog = program("val g = 1u64; fun f(a: u64): u64 { val b = a + g; return b; } fun h(): u64 { return f(g); }");
    let (res, _) = resolve(&prog);
    for (i, d) in res.defs.iter().enumerate() {
        assert_eq!(d.id.0 as usize, i);
    }
    for p in res.uses.keys() {
        let id = res.uses.get(p).unwrap();
        let found = res.def_of(Span::new(p.0, p.1)).unwrap();
        assert_eq!(found.span, res.defs[id.0 as usize].span);
    }
    let only_defined = res.defs[0].span;
    assert!(res.def_at(only_defined).is_some());
    assert!(res.def_of(only_defined).is_none());
}

fn parts(e: &Expr) -> Vec<&Expr> {
    match e {
        Expr::ArrayLiteral { elems, .. } => elems.iter().collect(),
        Expr::ObjectLiteral { fields, .. } => fields.iter().map(|f| &f.2).collect(),
        Expr::TupleLiteral { elems, .. } => elems.iter().map(|f| &f.2).collect(),
        Expr::Index { base, index, .. } => vec![base, index],
        Expr::Field { base, .. } => vec![base],
        Expr::TupleIndex { base, .. } => vec![base],
        Expr::Call { args, .. } => args.iter().collect(),
        Expr::Unary { rhs, .. } => vec![rhs],
        Expr::Binary { lhs, rhs, .. } => vec![lhs, rhs],
        Expr::Cast { inner, .. } => vec![inner],
        _ => vec![],
    }
}

fn check_nesting(e: &Expr, end: usize) -> usize {
    let sp = e.span();
    assert!(sp.start <= sp.end && sp.end <= end);
    let mut n = 1;
    for p in parts(e) {
        assert!(sp.start <= p.span().start && p.span().end <= sp.end, "{e:?}");
        n += check_nesting(p, end);
    }
    if let Expr::Binary { lhs, rhs, .. } = e {
        assert_eq!(sp, lhs.span().merge(rhs.span()));
    }
    n
}

#[test]
fn expressions_lie_inside_those_around_them() {
    let src = "val x = -(a.b.c + f::[u64](1, (2 * y)[3])) as u64 == P { q: [4, 5], r: #(6, 7) }.q[0];";
    let (toks, _) = lex(src);
    let (prog, diags) = parse(&toks, src);
    assert!(diags.is_empty(), "{diags:?}");
    let vl::ast::Item::Let { value, .. } = &prog.items[0] else { panic!() };
    assert!(check_nesting(value, src.len()) > 15);
}

#[test]
fn a_bracket_alone_declares_no_type() {
    let src = "type Foo[T] = object { x: u64, }; function f(x: Foo): void {}";
    let (toks, _) = lex(src);
    let (_, diags) = parse(&toks, src);
    let codes: Vec<&str> = diags.iter().map(|d| d.code.as_deref().unwrap()).collect();
    assert_eq!(codes, ["E100", "E101", "E105"]);
    let src = "type Foo[T] = union { A(T), }; function f(x: Foo): void {}";
    let (toks, _) = lex(src);
    let (_, diags) = parse(&toks, src);
    assert!(diags.is_empty(), "{diags:?}");
}

#[test]
fn batches_are_rendered_one_after_the_other() {
    let d = |m: &str| Diagnostic::error(m).with_label(Span::new(0, 1), "here");
    let (a, b) = (vec![d("one"), d("two")], vec![d("three")]);
    let all = vec![d("one"), d("two"), d("three")];
    let show = |ds: &[Diagnostic]| render_all(ds, "a.vl", "x\n");
    assert_eq!(show(&all), format!("{}\n{}", show(&a), show(&b)));
    assert_eq!(show(&b), b[0].render("a.vl", "x\n"));
    assert_eq!(show(&[]), "");
}

#[test]
fn quiet_collection_keeps_all_but_incomplete_signatures() {
    let src = "fun f(a): u64 { return 1u64; } fun g(): u64 { return 1u64; } \
        fun g(): u64 { return 2u64; } type T = object { x: u64, fun m(a) { } };";
    let (toks, _) = lex(src);
    let (prog, _) = parse(&toks, src);
    let (loud, said) = collect_interface(&prog);
    let (quiet, left) = collect_interface_quiet(&prog);
    assert_eq!(format!("{loud:?}"), format!("{quiet:?}"));
    let kept: Vec<String> = said
        .iter()
        .filter(|d| d.code.as_deref() != Some("E208"))
        .map(|d| format!("{d:?}"))
        .collect();
    assert!(kept.len() < said.len() && !kept.is_empty());
    assert_eq!(kept, left.iter().map(|d| format!("{d:?}")).collect::<Vec<String>>());
}
