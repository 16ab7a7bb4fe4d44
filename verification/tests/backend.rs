#![allow(unused_imports, dead_code)]

use std::collections::HashMap;

use vl::ast::Scalar;
use vl::catalog::merge_all;
use vl::codegen::{
    all_targets, lookup, modules, modules_for_target, reg_oob, DummyTarget, StackVmTarget, Target,
};
use vl::hir::{HirBinOp, HirExpr, HirItem, HirProgram, HirStmt};
use vl::lex::lex;
use vl::linker::{MonomorphizationPlan, PlannedCalls, PlannedInstance};
use vl::lir::{FuncSymbol, Function, FunctionImport, Global, Instr, LirOp, LirProgram, ObjectDef, Reg};
use vl::loading::{library_catalog, read_module, LoadError, LoweredModule};
use vl::module::{ModuleSpec, UnionExport, UnionVariantSig};
use vl::nara::NaraVmTarget;
use vl::parser::parse;
use vl::resolver::{resolve, resolve_with_modules};
use vl::span::Span;
use vl::stdlib::{mangle, CheckedModule, Stdlib};
use vl::table::Table;
use vl::ty::VlType;
use vl::typed::{FnSig, Instance, InstanceCall, ObjectSig, Ty, TypedProgram};

/// A call of a generic function: the node, the owner module if it is another
/// one, the function, the type arguments and the signature.
struct Request {
    node: u32,
    owner: Option<String>,
    name: String,
    def: Option<u32>,
    args: Vec<Ty>,
    params: Vec<Ty>,
    ret: Ty,
}

/// A small type checker for test programs: every expression gets its type, and
/// integer literals follow what is expected of them, or are `u64`.
struct Checker {
    typed: TypedProgram,
    sigs: HashMap<u32, (Vec<String>, Vec<Ty>, Ty)>,
    defs: HashMap<u32, Ty>,
    objects: HashMap<String, Vec<(String, Ty)>>,
    requests: Vec<Request>,
    ret: Ty,
}

fn ty_of(t: &Option<VlType>) -> Ty {
    match t {
        Some(t) => Ty::from_vl(t),
        None => Ty::Void,
    }
}

fn bind(pattern: &Ty, actual: &Ty, env: &mut HashMap<String, Ty>) {
    match pattern {
        Ty::Param(n) => {
            env.entry(n.clone()).or_insert(actual.clone());
        }
        _ => {}
    }
}

fn apply(t: &Ty, env: &HashMap<String, Ty>) -> Ty {
    match t {
        Ty::Param(n) => env.get(n).cloned().unwrap_or(t.clone()),
        _ => t.clone(),
    }
}

impl Checker {
    fn set(&mut self, e: &HirExpr, t: Ty) -> Ty {
        self.typed.types.insert(e.id().0, t.clone());
        t
    }

    fn expr(&mut self, e: &HirExpr, want: Option<&Ty>) -> Ty {
        let t = match e {
            HirExpr::Literal { value, .. } => match value {
                Scalar::Int(_) => match want {
                    Some(Ty::I64) => Ty::I64,
                    Some(Ty::U8) => Ty::U8,
                    _ => Ty::U64,
                },
                Scalar::U64(_) => Ty::U64,
                Scalar::I64(_) => Ty::I64,
                Scalar::F64(_) => Ty::F64,
                Scalar::Bool(_) => Ty::Bool,
                Scalar::U8(_) => Ty::U8,
            },
            HirExpr::String { .. } => Ty::String,
            HirExpr::Var { def, .. } => match def {
                Some(d) => self.defs.get(&d.0).cloned().unwrap_or(Ty::Error),
                None => Ty::Error,
            },
            HirExpr::ArrayLiteral { elems, .. } => {
                let mut elem = Ty::U64;
                for x in elems {
                    elem = self.expr(x, None);
                }
                Ty::Array(Box::new(elem))
            }
            HirExpr::ObjectLiteral { name, fields, .. } => {
                for (_, x) in fields {
                    self.expr(x, None);
                }
                Ty::Object(name.clone())
            }
            HirExpr::Index { base, index, .. } => {
                let b = self.expr(base, None);
                self.expr(index, None);
                b.array_elem().cloned().unwrap_or(Ty::Error)
            }
            HirExpr::Field { base, name, .. } => {
                let b = self.expr(base, None).erase_capability();
                match b {
                    Ty::Object(o) => self
                        .objects
                        .get(&o)
                        .and_then(|fs| fs.iter().find(|(n, _)| n == name))
                        .map(|(_, t)| t.clone())
                        .unwrap_or(Ty::Error),
                    _ => Ty::Error,
                }
            }
            HirExpr::Call { .. } => self.call(e),
            HirExpr::Binary { op, lhs, rhs, .. } => {
                let hint = match op {
                    HirBinOp::Add | HirBinOp::Sub | HirBinOp::Mul | HirBinOp::Div => want.cloned(),
                    _ => None,
                };
                let l = self.expr(lhs, hint.as_ref());
                self.expr(rhs, Some(&l));
                match op {
                    HirBinOp::Add | HirBinOp::Sub | HirBinOp::Mul | HirBinOp::Div => l,
                    _ => Ty::Bool,
                }
            }
            HirExpr::Unary { inner, .. } => {
                self.expr(inner, None);
                Ty::Bool
            }
            HirExpr::Cast { inner, target, .. } => {
                self.expr(inner, None);
                Ty::from_vl(target)
            }
            _ => Ty::Error,
        };
        self.set(e, t)
    }

    fn call(&mut self, e: &HirExpr) -> Ty {
        let HirExpr::Call { id, def, extern_sig, symbol, name, type_args, args, .. } = e else {
            unreachable!()
        };
        if name == "Array.new" {
            for a in args {
                self.expr(a, None);
            }
            return Ty::Array(Box::new(Ty::from_vl(&type_args[0])));
        }
        let own = def.and_then(|d| self.sigs.get(&d.0).cloned());
        let (type_params, params, ret) = match (own, extern_sig) {
            (Some(s), _) => s,
            (None, Some(s)) => (
                s.type_params.iter().map(|p| p.name.clone()).collect(),
                s.params.iter().map(|p| Ty::from_vl(&p.ty)).collect(),
                Ty::from_vl(&s.ret),
            ),
            (None, None) => (Vec::new(), Vec::new(), Ty::Void),
        };
        let mut env: HashMap<String, Ty> = HashMap::new();
        for (p, t) in type_params.iter().zip(type_args) {
            env.insert(p.clone(), Ty::from_vl(t));
        }
        for (i, a) in args.iter().enumerate() {
            let want = params.get(i).map(|p| apply(p, &env));
            let got = self.expr(a, want.as_ref());
            if let Some(p) = params.get(i) {
                bind(p, &got, &mut env);
            }
        }
        let ret = apply(&ret, &env);
        if !type_params.is_empty() {
            let given: Vec<Ty> = type_params.iter().map(|p| env[p].clone()).collect();
            let base = match symbol {
                Some(s) => s.name.clone(),
                None => name.clone(),
            };
            let text: Vec<String> = given.iter().map(|t| t.to_string()).collect();
            let mangled = format!("{}${}", base, text.join("$"));
            self.typed.root_calls.insert(id.0, mangled.clone());
            self.requests.push(Request {
                node: id.0,
                owner: symbol.as_ref().map(|s| s.module.as_string()),
                name: mangled,
                def: def.map(|d| d.0),
                args: given,
                params: params.iter().map(|p| apply(p, &env)).collect(),
                ret: ret.clone(),
            });
        }
        ret
    }

    fn stmts(&mut self, body: &[HirStmt]) {
        for s in body {
            match s {
                HirStmt::Let { def, ty, value, .. } => {
                    let want = ty.as_ref().map(Ty::from_vl);
                    let got = self.expr(value, want.as_ref());
                    if let Some(d) = def {
                        self.defs.insert(d.0, want.unwrap_or(got));
                    }
                }
                HirStmt::Assign { def, value, .. } => {
                    let want = def.and_then(|d| self.defs.get(&d.0).cloned());
                    self.expr(value, want.as_ref());
                }
                HirStmt::IndexAssign { array, index, value, .. } => {
                    self.expr(array, None);
                    self.expr(index, None);
                    self.expr(value, None);
                }
                HirStmt::FieldAssign { base, value, .. } => {
                    self.expr(base, None);
                    self.expr(value, None);
                }
                HirStmt::If { condition, then_body, else_body, .. } => {
                    self.expr(condition, None);
                    self.stmts(then_body);
                    if let Some(b) = else_body {
                        self.stmts(b);
                    }
                }
                HirStmt::While { condition, body, .. } => {
                    self.expr(condition, None);
                    self.stmts(body);
                }
                HirStmt::Return { value, .. } => {
                    if let Some(v) = value {
                        let want = self.ret.clone();
                        self.expr(v, Some(&want));
                    }
                }
                HirStmt::Expr(e) => {
                    self.expr(e, None);
                }
                _ => {}
            }
        }
    }

    fn run(hir: &HirProgram) -> Checker {
        let mut c = Checker {
            typed: TypedProgram::new(),
            sigs: HashMap::new(),
            defs: HashMap::new(),
            objects: HashMap::new(),
            requests: Vec::new(),
            ret: Ty::Void,
        };
        for item in &hir.items {
            match item {
                HirItem::Object { name, fields, .. } => {
                    let fs: Vec<(String, Ty)> =
                        fields.iter().map(|(n, t, _)| (n.clone(), ty_of(t))).collect();
                    c.objects.insert(name.clone(), fs.clone());
                    c.typed.objects.push(ObjectSig { name: name.clone(), fields: fs });
                }
                HirItem::Fn { def: Some(d), type_params, params, ret, .. } => {
                    let names: Vec<String> = type_params.iter().map(|p| p.name.clone()).collect();
                    let ps: Vec<Ty> = params.iter().map(|(_, _, t, _)| ty_of(t)).collect();
                    c.sigs.insert(d.0, (names.clone(), ps.clone(), ty_of(ret)));
                    let sig = FnSig { type_params: names, param_tys: ps, ret: ty_of(ret) };
                    c.typed.func_sigs.insert(d.0, sig);
                }
                _ => {}
            }
        }
        for item in &hir.items {
            if let HirItem::Let { id, def, ty, value, .. } = item {
                let want = ty.as_ref().map(Ty::from_vl);
                let got = c.expr(value, want.as_ref());
                c.typed.types.insert(id.0, want.clone().unwrap_or(got.clone()));
                if let Some(d) = def {
                    c.defs.insert(d.0, want.unwrap_or(got));
                }
            }
        }
        for item in &hir.items {
            if let HirItem::Fn { params, ret, body, .. } = item {
                for (_, def, t, _) in params {
                    if let Some(d) = def {
                        c.defs.insert(d.0, ty_of(t));
                    }
                }
                c.ret = ty_of(ret);
                c.stmts(body);
            }
        }
        let mut done: Vec<String> = Vec::new();
        for r in &c.requests {
            if r.owner.is_none() && !done.contains(&r.name) {
                done.push(r.name.clone());
                c.typed.instances.push(Instance {
                    name: r.name.clone(),
                    orig: r.def.unwrap(),
                    args: r.args.clone(),
                    sig: FnSig {
                        type_params: Vec::new(),
                        param_tys: r.params.clone(),
                        ret: r.ret.clone(),
                    },
                });
            }
        }
        c
    }
}

fn lir_and_typed(src: &str) -> LirProgram {
    let (toks, _) = lex(src);
    let (prog, pdiags) = parse(&toks, src);
    assert!(pdiags.is_empty(), "{pdiags:?}");
    let (res, _) = resolve(&prog);
    let hir = vl::hir_lowering::lower(&prog, &res);
    let typed = Checker::run(&hir).typed;
    vl::lir_lowering::lower(&hir, &typed)
}

fn lir_of(src: &str) -> LirProgram {
    lir_and_typed(src)
}

#[test]
fn arrays_lower_to_dedicated_instrs() {
    let src = "function get(a: *Array[u64]): u64 { a[0u64] = 1u64; return a[1u64]; } function main() { let a: *Array[u64] = Array.new::[u64](2u64); let b = [1u64, 2u64]; }";
    let dump = lir_of(src).dump();
    assert!(dump.contains("new_array"), "{dump}");
    assert!(dump.contains("array_lit"), "{dump}");
    assert!(dump.contains("array_get"), "{dump}");
    assert!(dump.contains("array_set"), "{dump}");
    assert!(!dump.contains("Array.new"), "{dump}");
}

#[test]
fn objects_lower_to_dedicated_instrs() {
    let src = "type Counter = object { value: u64, }; function main() { let c: *Counter = Counter { value = 1u64 }; c.value = c.value + 1u64; }";
    let dump = lir_of(src).dump();
    assert!(dump.contains("new_object Counter"), "{dump}");
    assert!(dump.contains("object_get"), "{dump}");
    assert!(dump.contains("object_set"), "{dump}");
}

#[test]
fn object_let_alias_gets_an_independent_rebinding_home() {
    let src = "type Counter = object { value: u64, }; function main() { let a: *Counter = Counter { value = 1u64 }; let b = a; b = Counter { value = 2u64 }; a.value = 3u64; }";
    let dump = lir_of(src).dump();
    assert!(
        dump.contains("copy"),
        "object aliases need separate homes: {dump}"
    );
}

#[test]
fn generic_templates_emit_only_instances() {
    let src = "function id[T](x: T): T { return x; } function main() { let a = id(1u64); a; }";
    let lir = lir_of(src);
    let names: Vec<&str> = lir.functions.iter().map(|f| f.name.as_str()).collect();
    assert!(names.contains(&"id$u64"), "{names:?}");
    assert!(!names.contains(&"id"), "{names:?}");
    let dump = lir.dump();
    assert!(dump.contains("call id$u64"), "{dump}");
}

#[test]
fn while_emits_labels_and_back_edge() {
    let src = "function main() { let i = 0; while (i < 10) { i = i + 1; } }";
    let dump = lir_of(src).dump();
    assert!(dump.contains("branch_if_false"), "{dump}");
    assert!(dump.contains("jump"), "{dump}");
    assert!(dump.contains("copy"), "{dump}");
    assert!(dump.contains("lt"), "{dump}");
}

#[test]
fn logical_and_short_circuits_without_an_and_instr() {
    let src = "function main() { let x = true && false; x; }";
    let dump = lir_of(src).dump();
    assert!(!dump.contains("= and"), "{dump}");
    assert!(dump.contains("branch_if_false"), "{dump}");
    assert!(!dump.contains("not"), "{dump}");
}

#[test]
fn not_emits_a_not_instr() {
    let src = "function main() { !true; }";
    let dump = lir_of(src).dump();
    assert!(dump.contains("not"), "{dump}");
}

#[test]
fn lowers_add_chain() {
    let src = "let x = 1 + 2;";
    let lir = lir_of(src);
    let dump = lir.dump();
    assert!(dump.contains("add"));
    assert!(dump.contains("global"), "{dump}");
}

#[test]
fn lowers_call_and_parameter_registers() {
    let src =
        "function add(a: i64, b: i64): i64 { return a + b; } function main() { add(1, 2); }";
    let lir = lir_of(src);
    let dump = lir.dump();
    assert!(dump.contains("%0 = param 0"), "{dump}");
    assert!(dump.contains("%1 = param 1"), "{dump}");
    assert!(dump.contains("call add(%0, %1)"), "{dump}");
}

#[test]
fn function_signatures_carry_param_and_return_types() {
    let src = r#"function greet(name: String, n: u64): String { return name; } function main() { greet("hi", 1u64); }"#;
    let lir = lir_of(src);
    let greet = lir.functions.iter().find(|f| f.name == "greet").unwrap();
    assert_eq!(greet.param_tys, vec![Ty::String, Ty::U64]);
    assert_eq!(greet.ret, Ty::String);
    let main = lir.functions.iter().find(|f| f.name == "main").unwrap();
    assert!(main.param_tys.is_empty());
    assert_eq!(main.ret, Ty::Void);
}

#[test]
fn globals_record_their_value_type() {
    let src = r#"let x = 1u64;"#;
    let lir = lir_of(src);
    assert_eq!(lir.functions.len(), 0);
    assert_eq!(lir.globals.len(), 1);
    assert_eq!(lir.globals[0].ty, Ty::U64);
}

#[test]
fn local_reads_use_the_declared_value() {
    let src = "function f(): u64 { let x = 7; return x + 1; }";
    let dump = lir_of(src).dump();
    assert!(dump.contains("const 7u64"), "{dump}");
    // Explicit `return` is the tail: no default-zero fallthrough.
    assert!(!dump.contains("const 0u64"), "{dump}");
}

#[test]
fn bare_tail_values_are_discarded_without_implicit_return() {
    let src = "function main() { let x = 7; x + 1; }";
    let dump = lir_of(src).dump();
    // Discarded tail still lowers, but the function epilogue is the
    // default zero (void fallthrough), not the tail value.
    assert!(dump.contains("const 7u64"), "{dump}");
    assert!(dump.contains("const 0u64"), "{dump}");
}

#[test]
fn explicit_return_emits_ret_and_skips_default() {
    let src = "function f(): i64 { return 1; } function m() { return; }";
    let lir = lir_of(src);
    let dump = lir.dump();
    assert!(dump.contains("ret"), "{dump}");
    // `f` ends with its explicit return: exactly one `ret`.
    let f = lir.functions.iter().find(|f| f.name == "f").unwrap();
    assert_eq!(
        f.instrs
            .iter()
            .filter(|i| matches!(i, Instr::Ret { .. }))
            .count(),
        1
    );
}

#[test]
fn casts_lower_to_cast_instr_with_target_type() {
    let src = "function main() { let v = 200u64; let x = v as u8; x; }";
    let dump = lir_of(src).dump();
    assert!(dump.contains("cast"), "{dump}");
    assert!(dump.contains(": u8"), "{dump}");
}

#[test]
fn emitted_types_are_normalized() {
    // No `int`/`Param` survives to LIR in monomorphic code: `1 + 2`
    // defaults to `u64` and validates clean.
    let src = "function main() { 1 + 2; }";
    let dump = lir_of(src).dump();
    assert!(!dump.contains("int"), "{dump}");
    assert!(dump.contains("u64"), "{dump}");
}

#[test]
fn capabilities_erase_to_identical_runtime_layouts() {
    let src = "type Foo = object { value: u64, }; function read(v: Foo): u64 { return v.value; } function edit(m: *Foo): u64 { return m.value; } function main() { let e: *Foo = Foo { value = 1u64 }; read(e); }";
    let lir = lir_of(src);
    assert!(
        lir.validate_runtime().is_none(),
        "{:?}",
        lir.validate_runtime()
    );
    let dump = lir.dump();
    assert!(!dump.contains('*'), "{dump}");
    // Both functions read via `object_get`; no `*` in types.
    assert!(dump.contains("object_get"), "{dump}");
}

#[test]
fn globals_use_stable_ids_and_explicit_ops() {
    let src = "let a = 1u64; let b = 2u64; function main() { let x = a + b; a = 3u64; x; }";
    let lir = lir_of(src);
    assert_eq!(lir.globals.len(), 2);
    assert_eq!(lir.globals[0].id, 0);
    assert_eq!(lir.globals[1].id, 1);
    let dump = lir.dump();
    assert!(dump.contains("global %0"), "{dump}");
    assert!(dump.contains("global_load"), "{dump}");
    assert!(dump.contains("global_store"), "{dump}");
    // No rematerialized `<global>` pseudo-functions.
    assert!(!dump.contains("<global>"), "{dump}");
    assert!(lir.validate_runtime().is_none());
}

#[test]
fn no_capability_survives_lir() {
    let src = "type Foo = object { value: u64, }; function main() { let e: *Foo = Foo { value = 1u64 }; let v: Foo = e; e.value = 2u64; v.value; }";
    let lir = lir_of(src);
    assert!(lir.validate_runtime().is_none());
    let dump = lir.dump();
    assert!(!dump.contains('*'), "{dump}");
    assert!(dump.contains("object_set"), "{dump}");
}

#[test]
fn countdown_while_emits_runnable_naravm() {
    let lir = lir_of(
        "use std; function main() { let i = 3u64; while (i > 0u64) { std.print_u64(i); i = i - 1u64; } }",
    );
    let (artifact, diags) = NaraVmTarget.emit(&lir);
    assert!(diags.is_empty(), "{diags:?}");
    let bytes = artifact.unwrap().bytes.unwrap();
    assert_eq!(&bytes[..4], b"nara");
    // A loop back-edge plus at least one conditional jump must be present.
    // jmp = 0x22, jz = 0x24.
    assert!(bytes.contains(&0x22), "no jmp in {bytes:?}");
    assert!(bytes.contains(&0x24), "no jz in {bytes:?}");
}

#[test]
fn naravm_supports_signed_ordering_and_logic() {
    for src in [
        "function main() { let a = 0 - 5; if (a < 3) { a; } }",
        "function main() { if (true && !false) { 1; } }",
        "function main() { let i = 0; while (i < 3) { i = i + 1; if (i == 2) { continue; } } }",
    ] {
        let lir = lir_of(src);
        let (artifact, diags) = NaraVmTarget.emit(&lir);
        assert!(diags.is_empty(), "{src}: {diags:?}");
        assert!(artifact.is_some());
    }
}

#[test]
fn naravm_rejects_float_ordering_with_e404() {
    let lir = lir_of("function main() { if (1.5f64 < 2.5f64) { 1; } }");
    let (artifact, diags) = NaraVmTarget.emit(&lir);
    assert!(artifact.is_none());
    assert!(
        diags.iter().any(|d| d.code.as_deref() == Some("E404")),
        "{diags:?}"
    );
}

#[test]
fn naravm_rejects_unknown_callee_with_e404() {
    let lir = LirProgram {
        module: "t".into(),
        imports: vec![],
        objects: vec![],
        globals: vec![],
        functions: vec![Function {
            name: "main".into(),
            param_tys: vec![],
            ret: Ty::Void,
            instrs: vec![
                Instr::Const {
                    dst: Reg(0),
                    value: Scalar::U64(1),
                    span: Span::empty(0),
                },
                Instr::Call {
                    dst: Reg(1),
                    callee: "nope".into(),
                    symbol: FuncSymbol { module: "t".into(), function: "nope".into() },
                    args: vec![Reg(0)],
                    span: Span::empty(0),
                },
                Instr::Ret {
                    src: Reg(1),
                    span: Span::empty(0),
                },
            ],
        }],
    };
    let (artifact, diags) = NaraVmTarget.emit(&lir);
    assert!(artifact.is_none());
    assert!(
        diags.iter().any(|d| d.code.as_deref() == Some("E404")),
        "{diags:?}"
    );
}

#[test]
fn dummy_emits_control_flow() {
    let lir = lir_of("function main() { let i = 0; while (i < 1) { i = i + 1; } }");
    let (art, diags) = DummyTarget.emit(&lir);
    assert!(diags.is_empty());
    let text = art.unwrap().text;
    assert!(text.contains("jump") && text.contains("L0:"), "{text}");
}

#[test]
fn dummy_emits_text() {
    let lir = lir_of("function main() { 1 + 2; }");
    let (art, diags) = DummyTarget.emit(&lir);
    assert!(diags.is_empty());
    assert!(art.unwrap().text.contains("add"));
}

#[test]
fn unknown_target_is_none() {
    assert!(lookup("x86-64").is_none());
}

#[test]
fn backends_emit_calls_and_parameters() {
    let lir =
        lir_of("function add(a: i64, b: i64): i64 { a + b; } function main() { add(1, 2); }");
    let (art, diags) = DummyTarget.emit(&lir);
    assert!(diags.is_empty());
    let text = art.unwrap().text;
    assert!(text.contains("param %0, 0"), "{text}");
    assert!(text.contains("call %2, add(%0, %1)"), "{text}");

    let (art, diags) = StackVmTarget.emit(&lir);
    assert_eq!(diags.len(), 1);
    assert!(art.unwrap().text.contains("call add(%0, %1)"));
}

#[test]
fn naravm_rejects_constant_pool_indices_that_do_not_fit() {
    let mut src = String::from("function main() {");
    for i in 0..252 {
        src.push_str(&format!("let s{i} = \"s{i}\";"));
    }
    src.push_str("std.print(\"target\");}");
    let lir = lir_of(&src);
    let (artifact, diags) = NaraVmTarget.emit(&lir);
    assert!(artifact.is_none());
    assert!(
        diags.iter().any(|d| d.code.as_deref() == Some("E405")),
        "{diags:?}"
    );
}

#[test]
fn naravm_accepts_bare_print_from_single_export_use() {
    let src = "use std.print; function main() { print(\"hi\\n\"); }";
    let (toks, _) = lex(src);
    let (prog, _) = parse(&toks, src);
    let (res, rdiags) = resolve_with_modules(&prog, &modules());
    assert!(rdiags.iter().all(|d| !d.is_error()), "{rdiags:?}");
    let hir = vl::hir_lowering::lower(&prog, &res);
    let typed = Checker::run(&hir).typed;
    let lir = vl::lir_lowering::lower(&hir, &typed);
    assert!(lir.dump().contains("call print"), "{}", lir.dump());
    let (artifact, diags) = NaraVmTarget.emit(&lir);
    assert!(diags.is_empty(), "{diags:?}");
    assert_eq!(&artifact.unwrap().bytes.unwrap()[..4], b"nara");
}

#[test]
fn target_module_catalogs_are_specific() {
    assert!(modules_for_target("naravm")
        .iter()
        .any(|m| m.path.as_string() == "std"));
    assert!(!modules_for_target("naravm")
        .iter()
        .any(|m| m.path.as_string() == "std.fs"));
    assert!(modules_for_target("dummy")
        .iter()
        .any(|m| m.path.as_string() == "std.fs"));
}

// ---------------------------------------------------------------------------
// The standard library
// ---------------------------------------------------------------------------

const MATH: &str = "
fun max_u64(a: u64, b: u64): u64 { if (a > b) { return a; } return b; }
fun min_u64(a: u64, b: u64): u64 { if (a < b) { return a; } return b; }
fun clamp_u64(v: u64, lo: u64, hi: u64): u64 { return max_u64(lo, min_u64(v, hi)); }
fun is_even(v: u64): bool { return v == (v / 2u64) * 2u64; }
fun max[T extends Numeric](a: T, b: T): T { if (a > b) { return a; } return b; }
fun max_three(a: u64, b: u64, c: u64): u64 { return max(max(a, b), c); }
";

const STRING: &str = "
fun is_empty(s: String): bool { return false; }
";

fn load() -> Stdlib {
    let mut progs = Vec::new();
    let mut faces = Vec::new();
    for (path, src) in [("std.math", MATH), ("std.string", STRING)] {
        let (prog, face) = read_module(path, src).unwrap();
        progs.push(prog);
        faces.push(face);
    }
    let catalog = library_catalog(&modules(), &faces).unwrap();
    let mut out = Vec::new();
    for (prog, face) in progs.iter().zip(&faces) {
        let (res, diags) = resolve_with_modules(prog, &catalog);
        assert!(diags.is_empty(), "{diags:?}");
        let hir = vl::hir_lowering::try_lower(prog, &res).unwrap();
        let typed = Checker::run(&hir).typed;
        let lir = vl::lir_lowering::try_lower(&hir, &typed).unwrap();
        out.push(LoweredModule {
            checked: CheckedModule { hir, typed },
            lir,
            spec: face.as_spec(),
        });
    }
    Stdlib::assemble(out).unwrap()
}

fn template_of(stdlib: &Stdlib, module: &str, name: &str) -> u32 {
    for c in stdlib.checked_modules() {
        if c.hir.module == module {
            for item in &c.hir.items {
                if let HirItem::Fn { def: Some(d), name: own, .. } = item {
                    if own == name {
                        return d.0;
                    }
                }
            }
        }
    }
    panic!("no template {name}");
}

fn planned(owner: &str, orig: u32, r: &Request) -> PlannedInstance {
    PlannedInstance {
        owner: owner.into(),
        instance: Instance {
            name: r.name.clone(),
            orig,
            args: r.args.clone(),
            sig: FnSig {
                type_params: Vec::new(),
                param_tys: r.params.clone(),
                ret: r.ret.clone(),
            },
        },
    }
}

fn planned_lir(stdlib: &Stdlib, src: &str, nested: Vec<PlannedCalls>) -> LirProgram {
    let (toks, diags) = lex(src);
    assert!(diags.is_empty(), "{diags:?}");
    let (prog, diags) = parse(&toks, src);
    assert!(diags.is_empty(), "{diags:?}");
    let mut catalog = modules();
    assert!(!stdlib.collides_with(&catalog));
    stdlib.extend_catalog(&mut catalog);
    let (res, diags) = resolve_with_modules(&prog, &catalog);
    assert!(diags.is_empty(), "{diags:?}");
    let hir = vl::hir_lowering::lower(&prog, &res);
    let checked = Checker::run(&hir);
    let mut plan = MonomorphizationPlan { instances: Vec::new(), calls: nested };
    for r in &checked.requests {
        if let Some(owner) = &r.owner {
            let base = r.name.split('$').next().unwrap();
            plan.instances.push(planned(owner, template_of(stdlib, owner, base), r));
        }
    }
    // What the helpers that are not generic call, with what the calls refer to.
    for c in stdlib.checked_modules() {
        let own = Checker::run(&c.hir);
        for r in &own.requests {
            if let (Some(d), true) = (r.def, r.args.iter().all(|t| t.is_concrete())) {
                plan.instances.push(planned(&c.hir.module, d, r));
            }
        }
        plan.calls.push(PlannedCalls {
            owner: c.hir.module.clone(),
            root_calls: own.typed.root_calls,
            inst_calls: Table::new(),
        });
    }
    let mut lir = vl::lir_lowering::lower(&hir, &checked.typed);
    stdlib.link_with_plan(&mut lir, &plan);
    lir
}

fn user_lir(stdlib: &Stdlib, src: &str) -> LirProgram {
    planned_lir(stdlib, src, Vec::new())
}

#[test]
fn no_helper_collides_with_an_extern_export() {
    let stdlib = load();
    for spec in modules() {
        for export in &spec.exports {
            assert!(
                !stdlib.is_helper(&spec.path.as_string(), &export.name),
                "helper `{}` collides with an extern export",
                export.name
            );
        }
    }
}

#[test]
fn extend_catalog_preserves_union_metadata() {
    let mut helper = ModuleSpec::new(&["demo"], &[]);
    helper.unions.push(UnionExport {
        name: "U".into(),
        qualified: "demo.U".into(),
        type_params: Vec::new(),
        variants: vec![UnionVariantSig {
            name: "A".into(),
            payload: Vec::new(),
        }],
    });
    let stdlib = Stdlib {
        bodies: Table::new(),
        module_imports: Table::new(),
        specs: vec![helper],
        checked: Vec::new(),
    };
    let mut catalog = vec![ModuleSpec::new(&["demo"], &[])];
    stdlib.extend_catalog(&mut catalog);
    assert_eq!(catalog[0].unions.len(), 1);
    assert_eq!(catalog[0].unions[0].qualified, "demo.U");
}

#[test]
fn qualified_helper_calls_resolve_to_their_module() {
    let stdlib = load();
    let (toks, _) = lex("use std.math; fun main() { math.max_u64(1u64, 2u64); }");
    let (prog, _) = parse(&toks, "");
    let mut catalog = modules();
    stdlib.extend_catalog(&mut catalog);
    let (res, diags) = resolve_with_modules(&prog, &catalog);
    assert!(diags.is_empty(), "{diags:?}");
    let def = res
        .defs
        .iter()
        .find(|d| d.name == "math.max_u64")
        .expect("def");
    let symbol = def.symbol.as_ref().expect("symbol");
    assert_eq!(symbol.module.as_string(), "std.math");
    assert_eq!(symbol.name, "max_u64");
}

#[test]
fn unknown_helper_export_is_a_single_error() {
    let stdlib = load();
    let (toks, _) = lex("use std.math; fun main() { math.bogus(1u64); }");
    let (prog, _) = parse(&toks, "");
    let mut catalog = modules();
    stdlib.extend_catalog(&mut catalog);
    let (_, diags) = resolve_with_modules(&prog, &catalog);
    assert_eq!(
        diags.iter().filter(|d| d.is_error()).count(),
        1,
        "{diags:?}"
    );
}

#[test]
fn link_with_explicit_use_inlines_helpers_as_locals() {
    let stdlib = load();
    let lir = user_lir(
        &stdlib,
        "use std.math; use std.string; fun main() { val c = math.clamp_u64(100u64, 0u64, 10u64); val e = string.is_empty(\"s\"); c; e; }",
    );
    let dump = lir.dump();
    for name in [
        "fn std$math$clamp_u64:",
        "fn std$math$min_u64:",
        "fn std$math$max_u64:",
        "fn std$string$is_empty:",
    ] {
        assert!(dump.contains(name), "{name} missing in {dump}");
    }
    assert!(!dump.contains("fn std$math$is_even:"), "{dump}");
    assert!(!dump.contains("std.math::"), "{dump}");
    let (artifact, diags) = NaraVmTarget.emit(&lir);
    assert!(diags.is_empty(), "{diags:?}");
    assert_eq!(&artifact.unwrap().bytes.unwrap()[..4], b"nara");
}

#[test]
fn user_bare_name_does_not_capture_qualified_helper() {
    let stdlib = load();
    let lir = user_lir(
        &stdlib,
        "use std.math; fun max_u64(a: u64, b: u64): u64 { return a; } fun main() { val a = max_u64(1u64, 2u64); val b = math.max_u64(1u64, 2u64); a; b; }",
    );
    let dump = lir.dump();
    assert!(dump.contains("fn max_u64:"), "{dump}");
    assert!(dump.contains("fn std$math$max_u64:"), "{dump}");
    let (artifact, diags) = NaraVmTarget.emit(&lir);
    assert!(diags.is_empty(), "{diags:?}");
    assert_eq!(&artifact.unwrap().bytes.unwrap()[..4], b"nara");
}

#[test]
fn generic_helper_infers_and_selects_explicitly() {
    let stdlib = load();
    let lir = user_lir(
        &stdlib,
        "use std.math; fun main() { val a = math.max(3u64, 9u64); val b = math.max::[i64](-1i64, 5i64); a; b; }",
    );
    let dump = lir.dump();
    assert!(dump.contains("fn std$math$max$u64:"), "{dump}");
    assert!(dump.contains("fn std$math$max$i64:"), "{dump}");
    assert!(!dump.contains("std.math::max("), "{dump}");
    let (artifact, diags) = NaraVmTarget.emit(&lir);
    assert!(diags.is_empty(), "{diags:?}");
    assert_eq!(&artifact.unwrap().bytes.unwrap()[..4], b"nara");
}

#[test]
fn generic_helper_links_only_requested_and_reuses() {
    let stdlib = load();
    let lir = user_lir(
        &stdlib,
        "use std.math; fun main() { val a = math.max(1u64, 2u64); val b = math.max(3u64, 4u64); val c = math.max_u64(5u64, 6u64); a; b; c; }",
    );
    let dump = lir.dump();
    assert_eq!(dump.matches("fn std$math$max$u64:").count(), 1, "{dump}");
    assert!(dump.contains("fn std$math$max_u64:"), "{dump}");
    assert!(!dump.contains("fn std$math$max$i64:"), "{dump}");
    assert!(!dump.contains("fn std$math$is_even:"), "{dump}");
}

#[test]
fn generic_helper_carries_no_unemittable_imports() {
    let stdlib = load();
    let lir = user_lir(
        &stdlib,
        "use std.math; fun main() { val m = math.max(1u64, 2u64); m; }",
    );
    let (artifact, diags) = NaraVmTarget.emit(&lir);
    assert!(diags.is_empty(), "{diags:?}");
    assert_eq!(&artifact.unwrap().bytes.unwrap()[..4], b"nara");
}

#[test]
fn helper_names_are_sorted_and_complete() {
    let stdlib = load();
    assert_eq!(
        stdlib.helper_names("std.math"),
        vec!["clamp_u64", "is_even", "max", "max_u64", "min_u64"]
    );
    assert_eq!(stdlib.helper_names("std.string"), vec!["is_empty"]);
    assert!(stdlib.helper_names("std.none").is_empty());
}

#[test]
fn helpers_are_told_apart() {
    let stdlib = load();
    assert!(stdlib.is_helper("std.math", "max_u64"));
    assert!(stdlib.is_generic_template("std.math", "max"));
    assert!(!stdlib.is_generic_template("std.math", "max_u64"));
    assert!(stdlib.is_concrete_generic_instance("std.math", "max$u64"));
    assert!(!stdlib.is_concrete_generic_instance("std.math", "max_u64$u64"));
    assert!(stdlib.is_plan_mono("std.math", "max_three"));
    assert!(!stdlib.is_plan_mono("std.math", "max_u64"));
    assert!(!stdlib.is_helper("std.math", "max_three"));
    assert!(!stdlib.is_helper("std.fs", "max_u64"));
}

#[test]
fn plain_linking_copies_helpers_and_drops_their_imports() {
    let stdlib = load();
    let symbol = |m: &str, f: &str| FuncSymbol { module: m.into(), function: f.into() };
    let mut prog = LirProgram::new("app");
    prog.imports.push(FunctionImport { symbol: symbol("std.math", "clamp_u64") });
    prog.imports.push(FunctionImport { symbol: symbol("std", "print") });
    prog.functions.push(Function {
        name: "main".into(),
        param_tys: vec![],
        ret: Ty::Void,
        instrs: vec![Instr::Call {
            dst: Reg(0),
            callee: "math.clamp_u64".into(),
            symbol: symbol("std.math", "clamp_u64"),
            args: vec![],
            span: Span::empty(0),
        }],
    });
    stdlib.link(&mut prog);
    let names: Vec<&str> = prog.functions.iter().map(|f| f.name.as_str()).collect();
    assert_eq!(
        names,
        ["main", "std$math$clamp_u64", "std$math$max_u64", "std$math$min_u64"]
    );
    assert_eq!(prog.imports.len(), 1);
    assert_eq!(prog.imports[0].symbol.function, "print");
    match &prog.functions[0].instrs[0] {
        Instr::Call { callee, symbol, .. } => {
            assert_eq!(callee, "std$math$clamp_u64");
            assert_eq!(symbol.module, "app");
            assert_eq!(symbol.function, "std$math$clamp_u64");
        }
        other => panic!("{other:?}"),
    }
}

#[test]
fn planned_functions_are_lowered_by_themselves() {
    let stdlib = load();
    let lir = user_lir(
        &stdlib,
        "use std.math; fun main() { val a = math.max_three(1u64, 2u64, 3u64); a; }",
    );
    assert!(lir.dump().contains("fn std$math$max_three:"), "{}", lir.dump());
}

#[test]
fn mangling_replaces_dots() {
    assert_eq!(mangle("std.math", "max_u64"), "std$math$max_u64");
    assert_eq!(mangle("a", "b"), "a$b");
    assert_ne!(mangle("std.math", "f"), mangle("std.math", "g"));
}

#[test]
fn merging_catalogs_reports_collisions_and_keeps_exports() {
    let mut catalog = modules();
    let before = catalog[0].exports.len();
    let extra = vec![ModuleSpec::new(
        &["std"],
        &[("shout", &[("value", VlType::String)], VlType::Void)],
    )];
    assert!(!merge_all(&mut catalog, &extra, false));
    assert_eq!(catalog.len(), modules().len());
    assert_eq!(catalog[0].exports.len(), before + 1);
    assert_eq!(catalog[0].exports[0].name, "print");
    assert_eq!(catalog[0].exports[before].name, "shout");
    assert!(merge_all(&mut catalog, &extra, false));
    let other = vec![ModuleSpec::new(&["net"], &[])];
    assert!(!merge_all(&mut catalog, &other, true));
    assert_eq!(catalog.last().unwrap().path.as_string(), "net");
}

#[test]
fn library_modules_are_checked_when_read() {
    assert!(matches!(read_module("m", "fun f() { @ }"), Err(LoadError::Reported(_))));
    assert!(matches!(read_module("m", "fun f( {"), Err(LoadError::Reported(_))));
    assert!(matches!(read_module("m", "fun main() { }"), Err(LoadError::DefinesMain)));
    assert!(matches!(
        read_module("m", "val g = 1u64; fun f(): u64 { return g; }"),
        Err(LoadError::UncleanExports)
    ));
    assert!(matches!(
        read_module("m", "fun f(): u64 { return 1u64; } fun f(): u64 { return 2u64; }"),
        Err(LoadError::Reported(_))
    ));
    let (prog, face) = read_module("m", "fun f(): u64 { return 1u64; }").unwrap();
    assert_eq!(prog.module, "m");
    assert_eq!(face.functions[0].name, "f");
    let twice = vec![
        read_module("std", "fun print(): u64 { return 1u64; }").unwrap().1,
    ];
    assert!(library_catalog(&modules(), &twice).is_none());
}

fn lowered_module(module: &str, src: &str) -> LoweredModule {
    let (prog, face) = read_module(module, src).unwrap();
    let (res, _) = resolve_with_modules(&prog, &modules());
    let hir = vl::hir_lowering::lower(&prog, &res);
    let typed = Checker::run(&hir).typed;
    let lir = vl::lir_lowering::lower(&hir, &typed);
    LoweredModule { checked: CheckedModule { hir, typed }, lir, spec: face.as_spec() }
}

#[test]
fn assembly_refuses_globals_and_unknown_imports() {
    let with_global = lowered_module("m", "val g = 1u64; fun f(): u64 { return 1u64; }");
    assert!(matches!(Stdlib::assemble(vec![with_global]), Err(LoadError::HasGlobals)));
    let mut importing = lowered_module("m", "fun f(): u64 { return 1u64; }");
    importing.lir.imports.push(FunctionImport {
        symbol: FuncSymbol { module: "net".into(), function: "get".into() },
    });
    assert!(matches!(Stdlib::assemble(vec![importing]), Err(LoadError::UnknownImport)));
    for (module, function, known) in [
        ("std.fs", "open", false),
        ("std.fs", "read", false),
        ("std.math", "sqrt", false),
        ("std.math", "mod_u64", true),
        ("std.string", "concat", true),
        ("std", "print_u64", true),
    ] {
        let mut importing = lowered_module("m", "fun f(): u64 { return 1u64; }");
        importing.lir.imports.push(FunctionImport {
            symbol: FuncSymbol { module: module.into(), function: function.into() },
        });
        assert_eq!(Stdlib::assemble(vec![importing]).is_ok(), known, "{module}.{function}");
    }
    let mut fine = lowered_module("m", "fun f(): u64 { return 1u64; }");
    fine.lir.imports.push(FunctionImport {
        symbol: FuncSymbol { module: "std".into(), function: "print".into() },
    });
    let lib = Stdlib::assemble(vec![fine]).unwrap();
    assert!(lib.imports_resolve());
    assert!(lib.is_helper("m", "f"));
}

// ---------------------------------------------------------------------------
// More of the backends
// ---------------------------------------------------------------------------

#[test]
fn naravm_emits_user_calls_with_mixed_params_string_return_and_recursion() {
    let lir = lir_of(
        r#"
use std;
function add(a: u64, b: u64): u64 { return a + b; }
function greet(name: String, n: u64): String { return name; }
function fact(n: u64): u64 {
    let r = 1u64;
    if (n == 0u64) { r; } else { r = n * fact(n - 1u64); }
    return r;
}
function main() {
    std.print(greet("hi\n", 1u64));
    std.print_u64(add(fact(3u64), 1u64));
}
"#,
    );
    let (artifact, diags) = NaraVmTarget.emit(&lir);
    assert!(diags.is_empty(), "{diags:?}");
    let bytes = artifact.unwrap().bytes.unwrap();
    assert_eq!(&bytes[..4], b"nara");
    // calli = 0x20: main -> greet/add/fact plus the recursive fact call.
    assert!(bytes.contains(&0x20), "no calli in {bytes:?}");
    assert_eq!(&bytes[..8], b"nara\x00\x00\x00\x02");
    assert_eq!(bytes.len() % 4, 0);
    assert_eq!(run(&bytes), [7]);
}

/// A small machine that runs a file and collects the numbers it prints.
struct Machine {
    strings: Vec<Option<Vec<u8>>>,
    functions: Vec<(usize, Vec<u8>)>,
    words: Vec<Option<u64>>,
    targets: Vec<Option<(usize, usize)>>,
    rv: [u64; 256],
    rf: [usize; 256],
    values: Vec<u64>,
    references: Vec<usize>,
    printed: Vec<u64>,
    steps: usize,
}

fn be(bytes: &[u8], at: &mut usize, n: usize) -> u64 {
    let mut v = 0u64;
    for b in &bytes[*at..*at + n] {
        v = v * 256 + u64::from(*b);
    }
    *at += n;
    v
}

impl Machine {
    fn load(bytes: &[u8]) -> Machine {
        let mut at = 12;
        let n = be(bytes, &mut at, 4);
        let pool: Vec<u64> = (0..n).map(|_| be(bytes, &mut at, 8)).collect();
        let len = be(bytes, &mut at, 4) as usize;
        let blob = bytes[at..at + len].to_vec();
        at = (at + len + 3) / 4 * 4;
        let count = be(bytes, &mut at, 4) as usize;
        let tags = bytes[at..at + count].to_vec();
        at = (at + count + 3) / 4 * 4;
        let mut m = Machine {
            strings: Vec::new(),
            functions: Vec::new(),
            words: Vec::new(),
            targets: Vec::new(),
            rv: [0; 256],
            rf: [0; 256],
            values: Vec::new(),
            references: Vec::new(),
            printed: Vec::new(),
            steps: 0,
        };
        for tag in tags {
            let a = be(bytes, &mut at, 4) as usize;
            let b = if tag == 1 { 0 } else { be(bytes, &mut at, 4) as usize };
            m.words.push(if tag == 1 { Some(pool[a]) } else { None });
            m.strings.push(if tag == 2 { Some(blob[a..a + b].to_vec()) } else { None });
            m.targets.push(if tag == 3 { Some((a, b)) } else { None });
        }
        for _ in 0..be(bytes, &mut at, 4) {
            let name = be(bytes, &mut at, 4) as usize;
            let len = be(bytes, &mut at, 4) as usize;
            m.functions.push((name, bytes[at..at + len].to_vec()));
            at = (at + len + 3) / 4 * 4;
        }
        m
    }

    fn text(&self, i: usize) -> &[u8] {
        self.strings[i].as_deref().unwrap()
    }

    fn call(&mut self, name: usize) {
        let code = self.functions.iter().find(|f| f.0 == name).unwrap().1.clone();
        let mut pc = 0usize;
        loop {
            self.steps += 1;
            assert!(self.steps < 10_000, "the program does not end");
            let arg = |i: usize| code[pc + i] as usize;
            let jump = |end: usize| {
                let offset = i16::from_be_bytes([code[end - 2], code[end - 1]]);
                (end as i64 + i64::from(offset)) as usize
            };
            match code[pc] {
                0x00 => return,
                0x02 => {
                    self.rv[arg(1)] = self.words[arg(2)].unwrap();
                    pc += 3;
                },
                0x03 => {
                    self.rf[arg(1)] = arg(2);
                    pc += 3;
                },
                0x04 => {
                    self.rv[arg(1)] = self.rv[arg(2)];
                    pc += 3;
                },
                0x05 => {
                    self.rf[arg(1)] = self.rf[arg(2)];
                    pc += 3;
                },
                0x06 => {
                    self.values.push(self.rv[arg(1)]);
                    pc += 2;
                },
                0x07 => {
                    self.rv[arg(1)] = self.values.pop().unwrap();
                    pc += 2;
                },
                0x08 => {
                    self.references.push(self.rf[arg(1)]);
                    pc += 2;
                },
                0x09 => {
                    self.rf[arg(1)] = self.references.pop().unwrap();
                    pc += 2;
                },
                0x0a => {
                    self.rv[arg(1)] = u64::from(self.rv[arg(2)] == self.rv[arg(3)]);
                    pc += 4;
                },
                0x10 => {
                    self.rv[arg(1)] = u64::from(self.rv[arg(2)] < self.rv[arg(3)]);
                    pc += 4;
                },
                0x12 => {
                    self.rv[arg(1)] = self.rv[arg(2)] ^ self.rv[arg(3)];
                    pc += 4;
                },
                0x20 => {
                    let (module, function) = self.targets[arg(1) * 256 + arg(2)].unwrap();
                    pc += 3;
                    match (self.text(module), self.text(function)) {
                        (b"std", b"print_u64") => self.printed.push(self.rv[0x11]),
                        (b"std", _) => {},
                        (b"std::math", b"mod_u64") => self.rv[0x11] %= self.rv[0x12],
                        (b"std::string", b"len") => {
                            self.rv[0x11] = self.text(self.rf[0x31]).len() as u64;
                        },
                        _ => self.call(function),
                    }
                },
                0x22 => pc = jump(pc + 3),
                0x24 => {
                    if self.rv[arg(1)] == 0 {
                        pc = jump(pc + 4);
                    } else {
                        pc += 4;
                    }
                },
                0x30 | 0x31 => {
                    self.rv[arg(1)] = self.rv[arg(2)].wrapping_add(self.rv[arg(3)]);
                    pc += 4;
                },
                0x33 | 0x34 => {
                    self.rv[arg(1)] = self.rv[arg(2)].wrapping_sub(self.rv[arg(3)]);
                    pc += 4;
                },
                0x36 | 0x37 => {
                    self.rv[arg(1)] = self.rv[arg(2)].wrapping_mul(self.rv[arg(3)]);
                    pc += 4;
                },
                op => panic!("operation {op:#x}"),
            }
        }
    }
}

fn run(bytes: &[u8]) -> Vec<u64> {
    let mut m = Machine::load(bytes);
    let entry = (0..m.strings.len())
        .find(|i| m.strings[*i].as_deref() == Some(b"<entrypoint>".as_slice()))
        .unwrap();
    m.call(entry);
    assert!(m.values.is_empty() && m.references.is_empty());
    m.printed
}

fn printed(src: &str) -> Vec<u64> {
    let (artifact, diags) = NaraVmTarget.emit(&lir_of(src));
    assert!(diags.is_empty(), "{diags:?}");
    run(&artifact.unwrap().bytes.unwrap())
}

#[test]
fn variables_keep_their_homes_in_loops() {
    assert_eq!(
        printed("use std; function main() { let i = 3u64; while (i > 0u64) { std.print_u64(i); i = i - 1u64; } }"),
        [3, 2, 1]
    );
    assert_eq!(
        printed("use std; function main() { let n = 4u64; let i = 0u64; let s = 0u64; while (i < n) { i = i + 1u64; if (i == 2u64) { continue; } s = s + i; std.print_u64(s); } std.print_u64(n); }"),
        [1, 4, 8, 4]
    );
    assert_eq!(
        printed("use std; function main() { let a = 0u64; while (a < 2u64) { let b = 0u64; while (b < 2u64) { std.print_u64(a * 10u64 + b); b = b + 1u64; } a = a + 1u64; } }"),
        [0, 1, 10, 11]
    );
}

#[test]
fn arguments_arrive_whatever_registers_they_live_in() {
    let at = Span::empty(0);
    let mut instrs = Vec::new();
    for r in 0..25u32 {
        instrs.push(Instr::Const { dst: Reg(r), value: Scalar::U64(u64::from(r) + 100), span: at });
    }
    // Both arguments live in registers of parameters, in the opposite order.
    let call = |dst: u32, callee: &str, args: Vec<Reg>| Instr::Call {
        dst: Reg(dst),
        callee: callee.into(),
        symbol: FuncSymbol { module: "m".into(), function: callee.into() },
        args,
        span: at,
    };
    instrs.push(call(30, "pick", vec![Reg(17), Reg(16), Reg(18)]));
    instrs.push(call(31, "std.print_u64", vec![Reg(30)]));
    for r in 0..25u32 {
        instrs.push(call(40 + r, "std.print_u64", vec![Reg(r)]));
    }
    instrs.push(Instr::Ret { src: Reg(30), span: at });
    let mut prog = main_with(instrs);
    prog.functions.push(Function {
        name: "pick".into(),
        param_tys: vec![Ty::U64, Ty::U64, Ty::U64],
        ret: Ty::U64,
        instrs: vec![
            Instr::Param { dst: Reg(0), index: 0, span: at },
            Instr::Param { dst: Reg(1), index: 1, span: at },
            Instr::Param { dst: Reg(2), index: 2, span: at },
            Instr::BinOp { dst: Reg(3), op: LirOp::Sub, lhs: Reg(0), rhs: Reg(1), span: at },
            Instr::BinOp { dst: Reg(4), op: LirOp::Mul, lhs: Reg(3), rhs: Reg(2), span: at },
            Instr::Ret { src: Reg(4), span: at },
        ],
    });
    let (artifact, diags) = NaraVmTarget.emit(&prog);
    assert!(diags.is_empty(), "{diags:?}");
    let mut want = vec![118u64];
    want.extend(100..125u64);
    assert_eq!(run(&artifact.unwrap().bytes.unwrap()), want);
}

#[test]
fn a_library_compiles_without_an_entry_point() {
    let (artifact, diags) = NaraVmTarget.emit(&LirProgram::new("t"));
    assert!(diags.is_empty(), "{diags:?}");
    assert_eq!(&artifact.unwrap().bytes.unwrap()[..4], b"nara");
    let lir = lir_of("function twice(a: u64): u64 { return a + a; }");
    let (artifact, diags) = NaraVmTarget.emit(&lir);
    assert!(diags.is_empty(), "{diags:?}");
    assert_eq!(artifact.unwrap().target, "naravm");
}

#[test]
fn there_is_one_catalog() {
    let (a, b) = (modules(), vl::resolver::default_modules());
    assert_eq!(format!("{a:?}"), format!("{b:?}"));
    let paths: Vec<String> = a.iter().map(|m| m.path.as_string()).collect();
    assert_eq!(paths, ["std", "std.fs", "std.string", "std.math", "std.fmt"]);
}

#[test]
fn link_leaves_extern_calls_on_the_native_path() {
    let stdlib = load();
    let lir = user_lir(
        &stdlib,
        "use std.string; fun main() { val s = string.concat(\"a\", \"b\"); s; }",
    );
    let dump = lir.dump();
    assert!(dump.contains("call std.string::concat"), "{dump}");
    assert!(!dump.contains("std$string$"), "extern must not be inlined: {dump}");
    let (artifact, diags) = NaraVmTarget.emit(&lir);
    assert!(diags.is_empty(), "{diags:?}");
    let bytes = artifact.unwrap().bytes.unwrap();
    assert!(
        bytes.windows(b"std::string".len()).any(|w| w == b"std::string"),
        "native module spelling missing"
    );
    let imports: Vec<(&str, &str)> =
        lir.imports.iter().map(|i| (i.symbol.module.as_str(), i.symbol.function.as_str())).collect();
    assert_eq!(imports, [("std.string", "concat")]);
}

#[test]
fn native_functions_take_arguments_and_give_results() {
    let src = "use std; use std.math; use std.string; fun main() { \
        val a = 17u64; val b = math.mod_u64(a, 5u64); \
        std.print_u64(b); std.print_u64(a); \
        std.print_u64(string.len(\"four\")); \
        std.print_u64(math.mod_u64(a + 1u64, 4u64)); }";
    let lir = user_lir(&load(), src);
    let (artifact, diags) = NaraVmTarget.emit(&lir);
    assert!(diags.is_empty(), "{diags:?}");
    assert_eq!(run(&artifact.unwrap().bytes.unwrap()), [2, 17, 4, 2]);
}

#[test]
fn files_are_not_native() {
    let lir = user_lir(&load(), "use std.fs; fun main() { val f = fs.open(\"a\"); f; }");
    assert!(lir.dump().contains("call std.fs::open"), "{}", lir.dump());
    let (artifact, diags) = NaraVmTarget.emit(&lir);
    assert!(artifact.is_none());
    assert_eq!(diags[0].code.as_deref(), Some("E404"));
    assert!(diags[0].message.contains("`fs.open`"), "{diags:?}");
}

#[test]
fn nested_calls_come_from_the_plan() {
    let math = "
fun max[T extends Numeric](a: T, b: T): T { if (a > b) { return a; } return b; }
fun top[T extends Numeric](a: T, b: T, c: T): T { return max(max(a, b), c); }
fun top_u64(a: u64, b: u64, c: u64): u64 { return max(max(a, b), c); }
";
    let module = lowered_module("std.math", math);
    let mut nodes: Vec<u32> = Vec::new();
    for item in &module.checked.hir.items {
        if let HirItem::Fn { name, body, .. } = item {
            if name == "top" {
                let HirStmt::Return { value: Some(e), .. } = &body[0] else { panic!() };
                let HirExpr::Call { id, args, .. } = e else { panic!() };
                let HirExpr::Call { id: inner, .. } = &args[0] else { panic!() };
                nodes = vec![id.0, inner.0];
            }
        }
    }
    let stdlib = Stdlib::assemble(vec![module]).unwrap();
    let mut inst_calls = Table::new();
    let mut root_calls = Table::new();
    for n in nodes {
        inst_calls.insert(InstanceCall("top$u64".into(), n), "max$u64".into());
    }
    for c in stdlib.checked_modules() {
        root_calls = Checker::run(&c.hir).typed.root_calls;
    }
    let calls = PlannedCalls { owner: "std.math".into(), root_calls, inst_calls };
    let lir = planned_lir(
        &stdlib,
        "use std; use std.math; fun main() { std.print_u64(math.top(4u64, 9u64, 2u64)); \
         std.print_u64(math.top_u64(1u64, 5u64, 6u64)); }",
        vec![calls],
    );
    let dump = lir.dump();
    for f in ["fn std$math$top$u64:", "fn std$math$top_u64:", "fn std$math$max$u64:"] {
        assert!(dump.contains(f), "{dump}");
    }
    assert_eq!(dump.matches("fn std$math$max$u64:").count(), 1);
    assert_eq!(dump.matches("call std$math$max$u64(").count(), 4, "{dump}");
    assert!(!dump.contains("call max("), "{dump}");
    let (artifact, diags) = NaraVmTarget.emit(&lir);
    assert!(diags.is_empty(), "{diags:?}");
    assert_eq!(run(&artifact.unwrap().bytes.unwrap()), [9, 6]);
}

#[test]
fn what_has_no_code_is_not_lowered() {
    for src in [
        "fun main() { val t = #(1u64, 2u64); }",
        "fun main() { val #(a, b) = #(1u64, 2u64); }",
        "val #(a, b) = #(1u64, 2u64);",
        "type O = union { A, B, }; fun main() { val o = O.A; match (o) { O.A { } else { } } }",
    ] {
        let (toks, _) = lex(src);
        let (prog, diags) = parse(&toks, src);
        assert!(diags.is_empty(), "{src}: {diags:?}");
        let (res, _) = resolve_with_modules(&prog, &modules());
        let hir = vl::hir_lowering::lower(&prog, &res);
        let mut typed = TypedProgram::new();
        for id in 0..200u32 {
            typed.types.insert(id, Ty::U64);
        }
        assert!(vl::lir_lowering::try_lower(&hir, &typed).is_none(), "{src}");
    }
}

#[test]
fn linked_programs_name_no_helper() {
    let stdlib = load();
    let lir = user_lir(
        &stdlib,
        "use std.math; fun main() { val a = math.clamp_u64(1u64, 2u64, 3u64); val b = math.max(1u64, 2u64); a; b; }",
    );
    let mut names: Vec<&str> = lir.functions.iter().map(|f| f.name.as_str()).collect();
    names.sort();
    let before = names.len();
    names.dedup();
    assert_eq!(names.len(), before, "{names:?}");
    for f in &lir.functions {
        for ins in &f.instrs {
            if let Instr::Call { symbol, .. } = ins {
                assert!(!stdlib.is_helper(&symbol.module, &symbol.function), "{symbol:?}");
            }
        }
    }
    assert!(lir.imports.iter().all(|i| !stdlib.is_helper(&i.symbol.module, &i.symbol.function)));
}

#[test]
fn the_smallest_program_has_an_exact_file() {
    let mut prog = LirProgram::new("m");
    prog.functions.push(Function {
        name: "main".into(),
        param_tys: vec![],
        ret: Ty::Void,
        instrs: vec![
            Instr::Const { dst: Reg(0), value: Scalar::U64(7), span: Span::empty(0) },
            Instr::Ret { src: Reg(0), span: Span::empty(0) },
        ],
    });
    let (artifact, diags) = NaraVmTarget.emit(&prog);
    assert!(diags.is_empty(), "{diags:?}");
    let bytes = artifact.unwrap().bytes.unwrap();
    let mut want: Vec<u8> = Vec::new();
    want.extend_from_slice(b"nara\x00\x00\x00\x02");
    want.extend_from_slice(&[0, 0, 0, 0]);
    want.extend_from_slice(&[0, 0, 0, 1]);
    want.extend_from_slice(&[0, 0, 0, 0, 0, 0, 0, 7]);
    want.extend_from_slice(&[0, 0, 0, 30]);
    want.extend_from_slice(b"m<entrypoint>stdprintprint_u64");
    want.extend_from_slice(&[0xff, 0xff]);
    want.extend_from_slice(&[0, 0, 0, 9]);
    want.extend_from_slice(&[2, 2, 2, 2, 2, 3, 3, 3, 1, 0xff, 0xff, 0xff]);
    for (offset, len) in [(0u8, 1u8), (1, 12), (13, 3), (16, 5), (21, 9)] {
        want.extend_from_slice(&[0, 0, 0, offset, 0, 0, 0, len]);
    }
    for (module, function) in [(2u8, 3u8), (2, 4), (0, 1)] {
        want.extend_from_slice(&[0, 0, 0, module, 0, 0, 0, function]);
    }
    want.extend_from_slice(&[0, 0, 0, 0]);
    want.extend_from_slice(&[0, 0, 0, 1]);
    want.extend_from_slice(&[0, 0, 0, 1, 0, 0, 0, 4]);
    want.extend_from_slice(&[0x02, 0, 8, 0x00]);
    assert_eq!(bytes, want);
}

fn main_with(instrs: Vec<Instr>) -> LirProgram {
    let mut prog = LirProgram::new("m");
    prog.functions.push(Function { name: "main".into(), param_tys: vec![], ret: Ty::Void, instrs });
    prog
}

fn codes(prog: &LirProgram) -> Vec<String> {
    let (artifact, diags) = NaraVmTarget.emit(prog);
    assert!(artifact.is_none());
    diags.iter().map(|d| d.code.clone().unwrap()).collect()
}

#[test]
fn naravm_errors_have_their_codes() {
    let at = Span::empty(0);
    let word = |r: u32| Instr::Const { dst: Reg(r), value: Scalar::U64(1), span: at };
    let call = |callee: &str, args: Vec<Reg>| Instr::Call {
        dst: Reg(9),
        callee: callee.into(),
        symbol: FuncSymbol { module: "std".into(), function: callee.into() },
        args,
        span: at,
    };
    assert_eq!(codes(&main_with(vec![call("std.print", vec![])])), ["E401"]);
    assert_eq!(codes(&main_with(vec![call("std.print_u64", vec![])])), ["E401"]);
    assert_eq!(codes(&main_with(vec![word(0), call("std.print", vec![Reg(0)])])), ["E402"]);
    assert_eq!(codes(&main_with(vec![Instr::Param { dst: Reg(0), index: 0, span: at }])), ["E403"]);
    assert_eq!(codes(&main_with(vec![Instr::Jump { target: 5, span: at }])), ["E500"]);
    assert_eq!(
        codes(&main_with(vec![Instr::Not { dst: Reg(1), src: Reg(0), span: at }])),
        ["E500"]
    );
    assert_eq!(
        codes(&main_with(vec![Instr::NewArray {
            dst: Reg(1),
            len: Reg(0),
            elem: Ty::U64,
            span: at
        }])),
        ["E404"]
    );
    let float = |r: u32| Instr::Const { dst: Reg(r), value: Scalar::F64(0), span: at };
    assert_eq!(
        codes(&main_with(vec![
            float(0),
            float(1),
            Instr::BinOp { dst: Reg(2), op: LirOp::Lt, lhs: Reg(0), rhs: Reg(1), span: at },
        ])),
        ["E404"]
    );
    assert_eq!(
        codes(&main_with(vec![
            word(0),
            float(1),
            Instr::BinOp { dst: Reg(2), op: LirOp::Add, lhs: Reg(0), rhs: Reg(1), span: at },
        ])),
        ["E500"]
    );
}

#[test]
fn too_many_live_registers_are_reported() {
    let at = Span::empty(0);
    let mut instrs = Vec::new();
    for r in 0..40u32 {
        instrs.push(Instr::Const { dst: Reg(r), value: Scalar::U64(1), span: at });
    }
    for r in 0..40u32 {
        instrs.push(Instr::Ret { src: Reg(r), span: at });
    }
    assert_eq!(codes(&main_with(instrs)), ["E500"]);
}

#[test]
fn registers_are_given_back_after_their_last_use() {
    let at = Span::empty(0);
    let mut instrs = Vec::new();
    for r in 0..100u32 {
        instrs.push(Instr::Const { dst: Reg(r), value: Scalar::U64(r as u64), span: at });
        instrs.push(Instr::Ret { src: Reg(r), span: at });
    }
    let (artifact, diags) = NaraVmTarget.emit(&main_with(instrs));
    assert!(diags.is_empty(), "{diags:?}");
    assert!(artifact.is_some());
}

#[test]
fn targets_are_found_by_name() {
    assert_eq!(all_targets(), ["naravm", "dummy", "stackvm"]);
    for name in all_targets() {
        assert_eq!(lookup(name).unwrap().name(), name);
    }
    assert_eq!(reg_oob(Span::empty(3), 40).message, "codegen: register %40 out of range (compiler bug)");
}

#[test]
fn text_backends_spell_instructions() {
    let at = Span::empty(0);
    let prog = main_with(vec![
        Instr::Const { dst: Reg(0), value: Scalar::F64(1.5f64.to_bits()), span: at },
        Instr::StringConst { dst: Reg(1), value: b"hi".to_vec(), span: at },
        Instr::GlobalLoad { dst: Reg(2), global: 0, span: at },
        Instr::BranchIfFalse { cond: Reg(0), target: 1, span: at },
        Instr::Ret { src: Reg(0), span: at },
    ]);
    let text = DummyTarget.emit(&prog).0.unwrap().text;
    assert_eq!(
        text,
        "; vl dummy target — module m\nmain:\n  mov %0, 1.5f64\n  string %1 (unsupported)\n  global_load %2 (unsupported)\n  branch_if_false %0, L1\n  ret %0\n"
    );
    let (artifact, diags) = StackVmTarget.emit(&prog);
    assert_eq!(
        artifact.unwrap().text,
        "# vl stackvm sketch — module m\n.fn main\n  push 1.5f64\n  string %1 (unsupported)\n  global_load %2 (unsupported)\n  branch_if_false %0 -> L1\n  ret\n"
    );
    assert_eq!(diags.len(), 1);
    assert!(!diags[0].is_error());
    assert_eq!(
        prog.dump(),
        "fn main:\n    0: %0 = const 1.5f64\n    1: %1 = string [104, 105]\n    2: %2 = global_load %0\n    3: branch_if_false %0 -> L1\n    4: ret %0\n"
    );
}

#[test]
fn runtime_types_are_validated_in_order() {
    let mut prog = LirProgram::new("m");
    assert_eq!(prog.validate_runtime(), None);
    prog.functions.push(Function {
        name: "f".into(),
        param_tys: vec![Ty::Array(Box::new(Ty::Int))],
        ret: Ty::Void,
        instrs: vec![],
    });
    assert_eq!(
        prog.validate_runtime().unwrap(),
        "function f has non-runtime type `Array[int]`"
    );
    prog.globals.push(Global {
        id: 0,
        name: "g0".into(),
        ty: Ty::Error,
        init: vec![],
        result: Reg(0),
        span: Span::empty(0),
    });
    assert_eq!(prog.validate_runtime().unwrap(), "global g0 has non-runtime type `<error>`");
    prog.objects.push(ObjectDef {
        name: "O".into(),
        fields: vec![("x".into(), Ty::Mutable(Box::new(Ty::String)))],
    });
    assert_eq!(
        prog.validate_runtime().unwrap(),
        "object O field has non-runtime type `*String`"
    );
}

#[test]
fn every_jump_of_a_lowered_function_lands() {
    let lir = lir_of(
        "function f(n: u64): u64 { let i = 0u64; while (i < n) { if (i == 3u64 && true || false) { break; } else { i = i + 1u64; continue; } } return i; }",
    );
    for f in &lir.functions {
        for x in &f.instrs {
            let target = match x {
                Instr::Jump { target, .. } => *target,
                Instr::BranchIfFalse { target, .. } => *target,
                _ => continue,
            };
            let labels = f
                .instrs
                .iter()
                .filter(|y| matches!(y, Instr::Label { id, .. } if *id == target))
                .count();
            assert_eq!(labels, 1);
        }
    }
}

#[test]
fn objects_and_instances_are_sorted_by_name() {
    let lir = lir_of(
        "type Zed = object { a: u64, }; type Abc = object { b: u64, }; function id[T](x: T): T { return x; } function main() { let a = id(\"s\"); let b = id(1i64); a; b; }",
    );
    let objects: Vec<&str> = lir.objects.iter().map(|o| o.name.as_str()).collect();
    assert_eq!(objects, ["Abc", "Zed"]);
    let names: Vec<&str> = lir.functions.iter().map(|f| f.name.as_str()).collect();
    assert_eq!(names, ["main", "id$String", "id$i64"]);
}

#[test]
fn negative_literals_wrap_into_words() {
    let mut typed = TypedProgram::new();
    let src = "let x: u64 = 0 - 5;";
    let (toks, _) = lex(src);
    let (prog, _) = parse(&toks, src);
    let (res, _) = resolve(&prog);
    let mut hir = vl::hir_lowering::lower(&prog, &res);
    for id in 0..10u32 {
        typed.types.insert(id, Ty::U64);
    }
    if let HirItem::Let { value, .. } = &mut hir.items[0] {
        *value = HirExpr::Literal {
            id: value.id(),
            value: Scalar::Int(-5),
            span: Span::empty(0),
        };
    }
    let lir = vl::lir_lowering::lower(&hir, &typed);
    assert!(lir.dump().contains("const 18446744073709551611u64"), "{}", lir.dump());
}

fn code_of(prog: &LirProgram) -> Vec<u8> {
    let (artifact, diags) = NaraVmTarget.emit(prog);
    assert!(diags.is_empty(), "{diags:?}");
    artifact.unwrap().bytes.unwrap()
}

fn holds(bytes: &[u8], part: &[u8]) -> bool {
    bytes.windows(part.len()).any(|w| w == part)
}

#[test]
fn jumps_say_how_far_they_go() {
    let at = Span::empty(0);
    let forward = main_with(vec![
        Instr::Jump { target: 0, span: at },
        Instr::Jump { target: 0, span: at },
        Instr::Label { id: 0, span: at },
    ]);
    assert!(holds(&code_of(&forward), &[0x22, 0, 3, 0x22, 0, 0]));
    let backward = main_with(vec![
        Instr::Label { id: 0, span: at },
        Instr::Jump { target: 0, span: at },
    ]);
    assert!(holds(&code_of(&backward), &[0x22, 0xff, 0xfd]));
}

#[test]
fn calls_save_what_lives() {
    let at = Span::empty(0);
    let mut prog = main_with(vec![
        Instr::Const { dst: Reg(0), value: Scalar::U64(1), span: at },
        Instr::Call {
            dst: Reg(1),
            callee: "f".into(),
            symbol: FuncSymbol { module: "m".into(), function: "f".into() },
            args: vec![],
            span: at,
        },
        Instr::Ret { src: Reg(0), span: at },
    ]);
    prog.functions.push(Function {
        name: "f".into(),
        param_tys: vec![],
        ret: Ty::Void,
        instrs: vec![Instr::Ret { src: Reg(0), span: at }],
    });
    let code = code_of(&prog);
    assert!(holds(&code, &[0x02, 0, 10, 0x06, 0, 0x20, 0, 9, 0x07, 0, 0x00]), "{code:?}");
}
