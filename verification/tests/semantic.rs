#![allow(unused_imports)]

use vl::diagnostic::Diagnostic;
use vl::interface::{collect_interface, collect_interface_quiet};
use vl::lex::lex;
use vl::module::{Export, ExportKind, FuncSig, ModuleSpec, ParamSig, TypeParamSig};
use vl::parser::{parse, parse_with_module};
use vl::resolution::{DefKind, Resolution};
use vl::resolver::{resolve, resolve_with_modules};
use vl::ty::VlType;

fn resolve_src(src: &str) -> (Resolution, Vec<Diagnostic>) {
    let (toks, _) = lex(src);
    let (prog, _) = parse(&toks, src);
    resolve(&prog)
}

#[test]
fn destructure_bindings_resolve_as_locals() {
    let (toks, _) = lex("fun main() { val t = #(1u64, 2u64); val #(a, b) = t; a; b; }");
    let (prog, pdiags) = parse(&toks, "");
    assert!(pdiags.is_empty(), "{pdiags:?}");
    let (res, diags) = resolve(&prog);
    assert!(diags.iter().all(|d| !d.is_error()), "{diags:?}");
    let names: Vec<&str> = res.defs.iter().map(|d| d.name.as_str()).collect();
    assert!(names.contains(&"a") && names.contains(&"b"), "{names:?}");
}

#[test]
fn destructure_of_unresolved_base_poisons_quietly() {
    // `missing` is one E201; the pattern bindings still intern so later
    // stages stay quiet downstream (no cascade).
    let (_, diags) = resolve_src("fun main() { val #(a, b) = missing; }");
    let errors: Vec<_> = diags.iter().filter(|d| d.is_error()).collect();
    assert_eq!(errors.len(), 1, "{diags:?}");
    assert_eq!(errors[0].code.as_deref(), Some("E201"));
}

#[test]
fn break_outside_a_loop_is_an_error() {
    let (_, diags) = resolve_src("fun main() { break; }");
    assert_eq!(diags.iter().filter(|d| d.is_error()).count(), 1);
    assert!(diags[0].message.contains("outside of a loop"));
}

#[test]
fn break_inside_while_resolves() {
    let (_, diags) = resolve_src("fun main() { while (true) { break; } }");
    assert!(diags.iter().all(|d| !d.is_error()), "{diags:?}");
}

#[test]
fn assignment_to_an_undefined_name_errors() {
    let (_, diags) = resolve_src("fun main() { x = 1; }");
    assert!(diags.iter().any(|d| d.code.as_deref() == Some("E201")));
}

#[test]
fn assignment_to_a_bound_local_resolves() {
    let (_, diags) = resolve_src("fun main() { var x = 1; x = 2; }");
    assert!(diags.iter().all(|d| !d.is_error()), "{diags:?}");
}

#[test]
fn unknown_object_literal_is_deferred_to_typechecking() {
    let (_, diags) = resolve_src("fun main() { val x = Missing {}; }");
    assert!(diags.iter().all(|d| !d.is_error()), "{diags:?}");
}

#[test]
fn undefined_variable_errors() {
    let (_, diags) = resolve_src("val x = y;");
    assert_eq!(diags.len(), 1);
    assert!(diags[0].message.contains('y'));
}

#[test]
fn shadowing_is_a_warning_only() {
    let (toks, _) = lex("fun f(x: i64): i64 { val x = 1; x; }");
    let (prog, _) = parse(&toks, "");
    let (_, diags) = resolve(&prog);
    assert!(diags.iter().all(|d| !d.is_error()));
}

#[test]
fn call_callee_and_args_resolve() {
    let (_, diags) =
        resolve_src("fun add(a: i64, b: i64): i64 { a + b; } fun main() { add(1, 2); }");
    assert!(diags.iter().all(|d| !d.is_error()));
}

#[test]
fn undefined_callee_errors() {
    let (_, diags) = resolve_src("fun main() { nope(1); }");
    assert_eq!(diags.len(), 1);
    assert!(diags[0].message.contains("nope"));
}

#[test]
fn forward_call_resolves_via_global_prepass() {
    let (_, diags) = resolve_src("fun main() { helper(); } fun helper(): i64 { 1; }");
    assert!(diags.iter().all(|d| !d.is_error()));
}

#[test]
fn duplicate_parameters_are_an_error() {
    let (_, diags) = resolve_src("fun f(x: i64, x: i64): i64 { x; }");
    assert_eq!(diags.iter().filter(|d| d.is_error()).count(), 1);
    assert!(diags[0].message.contains("duplicate parameter"));
}

#[test]
fn poisoned_module_alias_suppresses_qualified_use_cascade() {
    let (_, diags) = resolve_src("use missing.module; fun main() { module.foo(); }");
    assert_eq!(diags.iter().filter(|d| d.is_error()).count(), 1);
    assert!(diags[0].message.contains("cannot find module"));
}

#[test]
fn poisoned_grouped_import_alias_stays_quiet_and_reserved() {
    let module = ModuleSpec::new(&["other"], &[("f", &[], VlType::Void)]);
    let (toks, _) = lex("use missing.{f}; use other.{f}; fun main() { f(); }");
    let (program, parse_diags) = parse(&toks, "");
    assert!(parse_diags.is_empty(), "{parse_diags:?}");
    let (resolution, diags) = resolve_with_modules(&program, &[module]);
    let errors = diags.iter().filter(|d| d.is_error()).collect::<Vec<_>>();
    assert_eq!(errors.len(), 2, "{diags:?}");
    assert_eq!(errors[0].code.as_deref(), Some("E202"), "{diags:?}");
    assert_eq!(errors[1].code.as_deref(), Some("E206"), "{diags:?}");
    assert_eq!(errors[1].labels.len(), 2, "{diags:?}");
    assert!(resolution.poisoned_imports);
}

#[test]
fn exact_module_alias_wins_over_single_export_fallback() {
    let parent = ModuleSpec::new(&["demo", "a"], &[("b", &[], VlType::Void)]);
    let exact = ModuleSpec::new(
        &["demo", "a", "b"],
        &[("helper", &[], VlType::Void)],
    );
    let (tokens, _) = lex("use demo.a.b; fun main() { b(); b.helper(); }");
    let (program, parse_diags) = parse(&tokens, "");
    assert!(parse_diags.is_empty(), "{parse_diags:?}");
    let (resolution, diags) = resolve_with_modules(&program, &[parent, exact]);
    assert!(diags.iter().all(|d| !d.is_error()), "{diags:?}");
    let alias = resolution
        .defs
        .iter()
        .find(|def| def.name == "b")
        .expect("module alias");
    assert_eq!(alias.kind, DefKind::ModuleAlias);
    assert!(alias.sig.is_none());
    assert!(resolution
        .defs
        .iter()
        .any(|def| { def.name == "b.helper" && def.kind == DefKind::ImportedFunction }));
}

#[test]
fn empty_exact_module_alias_has_no_parent_export_signature() {
    let parent = ModuleSpec::new(&["demo", "a"], &[("b", &[], VlType::Void)]);
    let exact = ModuleSpec::new(&["demo", "a", "b"], &[]);
    let (tokens, _) = lex("use demo.a.b; fun main() { b(); }");
    let (program, parse_diags) = parse(&tokens, "");
    assert!(parse_diags.is_empty(), "{parse_diags:?}");
    let (resolution, diags) = resolve_with_modules(&program, &[parent, exact]);
    assert!(diags.iter().all(|d| !d.is_error()), "{diags:?}");
    let alias = resolution
        .defs
        .iter()
        .find(|def| def.name == "b")
        .expect("module alias");
    assert_eq!(alias.kind, DefKind::ModuleAlias);
    assert!(alias.sig.is_none());
}

#[test]
fn missing_grouped_import_reserves_each_alias() {
    let (tokens, _) =
        lex("use missing.one.{f, g}; use missing.two.{f, g}; fun main() { f(); g(); }");
    let (program, parse_diags) = parse(&tokens, "");
    assert!(parse_diags.is_empty(), "{parse_diags:?}");
    let (_, diags) = resolve_with_modules(&program, &[]);
    let errors = diags.iter().filter(|d| d.is_error()).collect::<Vec<_>>();
    assert_eq!(errors.len(), 4, "{diags:?}");
    assert_eq!(errors[0].code.as_deref(), Some("E202"), "{diags:?}");
    assert_eq!(errors[1].code.as_deref(), Some("E206"), "{diags:?}");
    assert_eq!(errors[2].code.as_deref(), Some("E206"), "{diags:?}");
    assert_eq!(errors[3].code.as_deref(), Some("E202"), "{diags:?}");
    assert_eq!(errors[1].labels.len(), 2, "{diags:?}");
    assert_eq!(errors[2].labels.len(), 2, "{diags:?}");
}

#[test]
fn poisoned_import_alias_stays_reserved_across_import_forms() {
    let mut poisoned_alias = ModuleSpec::new(&["demo", "bad"], &[]);
    poisoned_alias.parse_poisoned = true;
    let valid_alias = ModuleSpec::new(&["other", "bad"], &[]);

    let mut poisoned_export = ModuleSpec::new(&["demo"], &[]);
    poisoned_export.poisoned_exports.push("bad".into());
    let valid_export = ModuleSpec::new(&["other"], &[("bad", &[], VlType::Void)]);

    let cases = [
        (
            "use demo.bad; use other.bad; fun main() { bad.missing(); }",
            vec![poisoned_alias, valid_alias],
        ),
        (
            "use demo.bad; use other.bad; fun main() { bad(); }",
            vec![poisoned_export.clone(), valid_export.clone()],
        ),
        (
            "use demo.{bad}; use other.{bad}; fun main() { bad(); }",
            vec![poisoned_export, valid_export],
        ),
    ];

    for (source, modules) in cases {
        let (tokens, _) = lex(source);
        let (program, parse_diags) = parse(&tokens, "");
        assert!(parse_diags.is_empty(), "{source}: {parse_diags:?}");
        let (resolution, diags) = resolve_with_modules(&program, &modules);
        let errors = diags.iter().filter(|d| d.is_error()).collect::<Vec<_>>();
        assert_eq!(errors.len(), 1, "{source}: {diags:?}");
        assert_eq!(
            errors[0].code.as_deref(),
            Some("E206"),
            "{source}: {diags:?}"
        );
        assert!(resolution.poisoned_imports);
        assert!(resolution
            .defs
            .iter()
            .filter(|def| def.kind == DefKind::ImportedFunction)
            .all(|def| def.sig.is_none()));
    }
}

#[test]
fn object_types_are_exported_qualified_without_e208() {
    let (toks, _) = lex(
        "type Person = object { name: String, age: u64, }; fun new(name: String, age: u64): *Person { return Person { name = name, age = age, }; } fun print_name(person: Person) { person.name; }",
    );
    let (provider, _) = parse_with_module(&toks, "", "vl.person");
    let (interface, diags) = collect_interface(&provider);
    assert!(diags.is_empty(), "{diags:?}");
    let person = interface
        .objects
        .iter()
        .find(|o| o.name == "Person")
        .expect("Person export");
    assert_eq!(person.qualified, "vl.person.Person");
    assert_eq!(person.fields.len(), 2);
    let new = interface
        .functions
        .iter()
        .find(|e| e.name == "new")
        .expect("new export");
    assert_eq!(
        new.sig.ret,
        VlType::Mutable(Box::new(VlType::Object(
            "vl.person.Person".into()
        )))
    );
    let print = interface
        .functions
        .iter()
        .find(|e| e.name == "print_name")
        .expect("print_name export");
    assert_eq!(
        print.sig.params[0].ty,
        VlType::Object("vl.person.Person".into())
    );
}

#[test]
fn associated_functions_are_exported_qualified() {
    let (toks, _) = lex(
        "type Counter = object { value: u64, fun init(v: u64): *Counter { return Counter { value = v }; }, fun get(self: Counter): u64 { return self.value; }, };",
    );
    let (provider, _) = parse_with_module(&toks, "", "demo.count");
    let (interface, diags) = collect_interface(&provider);
    assert!(diags.is_empty(), "{diags:?}");
    let counter = interface
        .objects
        .iter()
        .find(|o| o.name == "Counter")
        .expect("Counter export");
    assert_eq!(counter.methods.len(), 2);
    let init = counter.lookup_method("init").expect("init export");
    assert_eq!(
        init.sig.ret,
        VlType::Mutable(Box::new(VlType::Object(
            "demo.count.Counter".into()
        )))
    );
    let get = counter.lookup_method("get").expect("get export");
    assert_eq!(
        get.sig.params[0].ty,
        VlType::Object("demo.count.Counter".into())
    );
}

#[test]
fn associated_type_func_resolves_to_its_def() {
    let (res, diags) = resolve_src(
        "type C = object { value: u64, fun f(self: C): u64 { return self.value; }, }; fun main() { var c: *C = C { value = 1 }; C.f(c); }",
    );
    assert!(diags.iter().all(|d| !d.is_error()), "{diags:?}");
    let def = res.defs.iter().find(|d| d.name == "C.f").expect("C.f def");
    assert_eq!(def.kind, DefKind::Local);
}

#[test]
fn sugar_receiver_is_recorded_without_e201() {
    let (res, diags) = resolve_src(
        "type C = object { value: u64, fun f(self: C): u64 { return self.value; }, }; fun main() { var c: *C = C { value = 1 }; c.f(); }",
    );
    assert!(diags.iter().all(|d| !d.is_error()), "{diags:?}");
    assert_eq!(res.sugar_receivers.len(), 1);
    let head = res.sugar_receivers.latest().expect("receiver");
    let def = res.defs.iter().find(|d| d.id == *head).expect("head def");
    assert_eq!(def.name, "c");
}

#[test]
fn missing_associated_function_is_one_e302() {
    let (_, diags) = resolve_src(
        "type C = object { value: u64, }; fun main() { var c: *C = C { value = 1 }; C.bogus(c); }",
    );
    let errors = diags.iter().filter(|d| d.is_error()).collect::<Vec<_>>();
    assert_eq!(errors.len(), 1, "{diags:?}");
    assert_eq!(errors[0].code.as_deref(), Some("E302"));
}

#[test]
fn sugar_receiver_shadows_module_alias() {
    // A value-headed `foo.m()` prefers the bound value (like bare
    // names), even when `foo` is also a module alias. Typechecking
    // validates loudly; no silent module call happens here.
    let module = ModuleSpec::new(&["foo"], &[("m", &[], VlType::Void)]);
    let (toks, _) = lex(
        "use foo; type L = object { v: u64, fun m(self: L): u64 { return self.v; }, }; fun f(foo: *L) { foo.m(); }",
    );
    let (prog, pdiags) = parse(&toks, "");
    assert!(pdiags.is_empty(), "{pdiags:?}");
    let (res, diags) = resolve_with_modules(&prog, &[module]);
    assert!(diags.iter().all(|d| !d.is_error()), "{diags:?}");
    assert_eq!(res.sugar_receivers.len(), 1);
}

#[test]
fn sugar_receiver_on_global_marks_dependence() {
    let (toks, _) = lex(
        "type C = object { v: u64, fun bump(self: *C): *C { return self; }, fun use_it(self: C): u64 { g.bump(); return self.v; }, }; val g: *C = C { v = 1 };",
    );
    let (prog, _) = parse_with_module(&toks, "", "demo");
    let (interface, diags) = collect_interface(&prog);
    assert!(diags.is_empty(), "{diags:?}");
    assert!(
        interface
            .global_dependent_exports
            .iter()
            .any(|e| e == "C.use_it"),
        "sugar on a global must mark the method: {:?}",
        interface.global_dependent_exports
    );
}

#[test]
fn assoc_call_edge_marks_transitive_dependence() {
    let (toks, _) = lex(
        "val shared: u64 = 1; type C = object { v: u64, fun inner(self: C): u64 { return shared; }, fun outer(self: C): u64 { return C.inner(self); }, };",
    );
    let (prog, _) = parse_with_module(&toks, "", "demo");
    let (interface, diags) = collect_interface(&prog);
    assert!(diags.is_empty(), "{diags:?}");
    for want in ["C.inner", "C.outer"] {
        assert!(
            interface.global_dependent_exports.iter().any(|e| e == want),
            "{want} missing in {:?}",
            interface.global_dependent_exports
        );
    }
}

#[test]
fn single_export_use_brings_bare_name_into_scope() {
    let (_, diags) = resolve_src("use std.string.len; fun main() { len(\"s\"); }");
    assert!(diags.iter().all(|d| !d.is_error()), "{diags:?}");
}

#[test]
fn bare_import_carries_its_signature() {
    let (res, diags) = resolve_src("use std.string.len; fun main() { len(\"s\"); }");
    assert!(diags.iter().all(|d| !d.is_error()), "{diags:?}");
    let def = res.defs.iter().find(|d| d.name == "len").expect("len def");
    let sig = def.sig.as_ref().expect("extern sig");
    assert_eq!(sig.ret, VlType::U64);
    assert_eq!(sig.params.len(), 1);
}

#[test]
fn single_export_use_of_std_print_resolves() {
    let (toks, _) = lex("use std.print; fun main() { print(\"hi\"); }");
    let (prog, _) = parse(&toks, "");
    let (_, diags) = resolve_with_modules(&prog, &vl_codegen_modules());
    assert!(diags.iter().all(|d| !d.is_error()), "{diags:?}");
}

#[test]
fn single_export_use_with_unknown_export_is_one_error() {
    let (_, diags) = resolve_src("use std.string.bogus; fun main() { bogus(); }");
    assert_eq!(diags.iter().filter(|d| d.is_error()).count(), 1);
    assert!(diags[0].message.contains("no export `bogus`"));
}

#[test]
fn array_literal_index_and_index_assign_resolve() {
    let (_, diags) =
        resolve_src("fun main() { val a = [1u64, 2u64]; a[0u64] = 3u64; val x = a[1u64]; }");
    assert!(diags.iter().all(|d| !d.is_error()), "{diags:?}");
}

#[test]
fn array_new_needs_no_import_and_carries_its_signature() {
    let (res, diags) = resolve_src("fun main() { val a = Array.new::[u64](3u64); a; }");
    assert!(diags.iter().all(|d| !d.is_error()), "{diags:?}");
    let def = res
        .defs
        .iter()
        .find(|d| d.name == "Array.new")
        .expect("Array.new def");
    let sig = def.sig.as_ref().expect("extern sig");
    assert_eq!(
        sig.ret,
        VlType::Array(Box::new(VlType::U64))
    );
    assert_eq!(sig.params.len(), 1);
    assert_eq!(sig.params[0].ty, VlType::U64);
}

#[test]
fn array_new_without_type_arg_defers_to_typechecking() {
    // No turbofish: resolution succeeds with no signature; typechecking
    // either infers `T` from an annotated binding or reports E303.
    let (res, diags) = resolve_src("fun main() { val a = Array.new(3); a; }");
    assert!(diags.iter().all(|d| !d.is_error()), "{diags:?}");
    let def = res
        .defs
        .iter()
        .find(|d| d.name == "Array.new")
        .expect("Array.new def");
    assert!(def.sig.is_none());
}

#[test]
fn array_new_with_two_type_args_is_one_error() {
    let (_, diags) = resolve_src("fun main() { val a = Array.new::[u64, u64](3); a; }");
    assert_eq!(diags.iter().filter(|d| d.is_error()).count(), 1);
    assert!(diags[0].message.contains("exactly one type argument"));
}

#[test]
fn u64array_callee_points_at_the_replacement() {
    let (_, diags) = resolve_src("fun main() { val a = U64Array.new(3u64); a; }");
    assert_eq!(diags.iter().filter(|d| d.is_error()).count(), 1);
    assert!(diags[0].message.contains("U64Array"));
}

#[test]
fn index_into_undefined_array_errors() {
    let (_, diags) = resolve_src("fun main() { val x = missing[0u64]; x; }");
    assert!(diags.iter().any(|d| d.code.as_deref() == Some("E201")));
}

#[test]
fn direct_parameter_rebinding_is_one_e205() {
    for src in [
        "fun f(x: u64) { x = 1u64; }",
        "type Foo = object { value: u64, }; fun f(x: Foo, y: Foo) { x = y; }",
        "type Foo = object { value: u64, }; fun f(x: *Foo, y: *Foo) { x = y; }",
    ] {
        let (_, diags) = resolve_src(src);
        let errors = diags.iter().filter(|d| d.is_error()).collect::<Vec<_>>();
        assert_eq!(errors.len(), 1, "{src}: {diags:?}");
        assert_eq!(errors[0].code.as_deref(), Some("E205"), "{src}: {diags:?}");
        assert!(
            errors[0].message.contains("cannot rebind parameter"),
            "{diags:?}"
        );
    }
}

#[test]
fn val_rebinding_is_one_e205() {
    let (_, diags) = resolve_src("fun main() { val answer = 1u64; answer = 2u64; }");
    let errors = diags.iter().filter(|d| d.is_error()).collect::<Vec<_>>();
    assert_eq!(errors.len(), 1, "{diags:?}");
    assert_eq!(errors[0].code.as_deref(), Some("E205"), "{diags:?}");
    assert!(errors[0].message.contains("cannot rebind `val`"));
}

#[test]
fn parameter_field_and_index_mutation_still_resolve() {
    let (_, diags) = resolve_src(
        "type Foo = object { value: u64, }; fun f(x: *Foo, a: *Array[u64]) { x.value = 1u64; a[0u64] = 1u64; }",
    );
    assert!(diags.iter().all(|d| !d.is_error()), "{diags:?}");
}

#[test]
fn local_rebinding_and_shadowing_still_allowed() {
    let (_, diags) = resolve_src(
        "fun f(x: u64) { var x = 1u64; x = 2u64; } fun g() { var y = 1u64; y = 2u64; }",
    );
    // Shadowing is a warning; rebinding the local is fine.
    assert!(diags.iter().all(|d| !d.is_error()), "{diags:?}");
}

#[test]
fn unresolved_assign_target_is_one_e201() {
    let (_, diags) = resolve_src("fun main() { missing = 1u64; }");
    let errors = diags.iter().filter(|d| d.is_error()).collect::<Vec<_>>();
    assert_eq!(errors.len(), 1);
    assert_eq!(errors[0].code.as_deref(), Some("E201"));
}

#[test]
fn malformed_exports_are_poisoned_for_importers() {
    let (toks, _) = lex("fun broken(x: u64): Nope { return; }");
    let (provider, _) = parse_with_module(&toks, "", "demo");
    let (interface, _) = collect_interface(&provider);
    assert!(interface.poisoned_exports.contains(&"broken".to_string()));

    let (toks, _) = lex("use demo.broken; fun main() { broken(1u64); }");
    let (importer, _) = parse(&toks, "");
    let (_, diags) = resolve_with_modules(&importer, &[interface.as_spec()]);
    assert!(
        diags.is_empty(),
        "poisoned provider imports must stay silent: {diags:?}"
    );
    assert!(!diags.iter().any(|d| d.code.as_deref() == Some("E203")));
}

#[test]
fn malformed_generic_exports_are_poisoned() {
    for source in [
        "fun broken[T](value:): u64 { return 1u64; }",
        "fun broken[T](value: u64): Nope { return 1u64; }",
    ] {
        let (toks, _) = lex(source);
        let (provider, parse_diags) = parse_with_module(&toks, "", "demo");
        assert!(
            !parse_diags.is_empty(),
            "source should be malformed: {source}"
        );
        let (interface, _) = collect_interface_quiet(&provider);
        assert!(interface.functions.is_empty(), "{source}");
        assert!(
            interface
                .poisoned_exports
                .iter()
                .any(|name| name == "broken"),
            "{source}"
        );
    }
}

#[test]
fn generic_export_collects_complete_signature() {
    let (toks, _) = lex("fun id[T](value: T): T { return value; }");
    let (provider, _) = parse_with_module(&toks, "", "demo.lib");
    let (interface, diags) = collect_interface(&provider);
    assert!(diags.is_empty(), "{diags:?}");
    let export = interface
        .functions
        .iter()
        .find(|e| e.name == "id")
        .expect("id export");
    assert_eq!(export.sig.type_params.len(), 1);
    assert_eq!(export.sig.type_params[0].name, "T");
    assert_eq!(export.kind, ExportKind::Source);
}

#[test]
fn generic_imports_resolve_through_all_forms() {
    let sig = FuncSig::generic(
        vec![TypeParamSig {
            name: "T".into(),
            bound: None,
        }],
        vec![ParamSig {
            name: "value".into(),
            ty: VlType::Param("T".into()),
        }],
        VlType::Param("T".into()),
    );
    let module =
        ModuleSpec::new_source(&["demo", "lib"], vec![Export::source("id".into(), sig)]);
    for src in [
        "use demo.lib; fun main() { lib.id(1u64); }",
        "use demo.lib.id; fun main() { id(1u64); }",
        "use demo.lib.{id}; fun main() { id(1u64); }",
    ] {
        let (toks, _) = lex(src);
        let (program, parse_diags) = parse(&toks, "");
        assert!(parse_diags.is_empty(), "{src}: {parse_diags:?}");
        let (resolution, diags) = resolve_with_modules(&program, std::slice::from_ref(&module));
        assert!(diags.iter().all(|d| !d.is_error()), "{src}: {diags:?}");
        let def = resolution
            .defs
            .iter()
            .find(|d| d.kind == DefKind::ImportedFunction)
            .expect("imported def");
        let sig = def.sig.as_ref().expect("generic sig");
        assert_eq!(sig.type_params.len(), 1, "{src}");
        assert!(def.symbol.is_some(), "{src}");
    }
}

#[test]
fn global_dependent_generic_import_is_one_e208() {
    let sig = FuncSig::generic(
        vec![TypeParamSig {
            name: "T".into(),
            bound: None,
        }],
        vec![ParamSig {
            name: "value".into(),
            ty: VlType::Param("T".into()),
        }],
        VlType::Param("T".into()),
    );
    let mut module =
        ModuleSpec::new_source(&["demo", "lib"], vec![Export::source("id".into(), sig)]);
    module.global_dependent_exports.push("id".into());
    let (toks, _) = lex("use demo.lib.id; fun main() { id(1u64); }");
    let (program, _) = parse(&toks, "");
    let (_, diags) = resolve_with_modules(&program, &[module]);
    let errors = diags.iter().filter(|d| d.is_error()).collect::<Vec<_>>();
    assert_eq!(errors.len(), 1, "{diags:?}");
    assert_eq!(errors[0].code.as_deref(), Some("E208"), "{diags:?}");
}

#[test]
fn only_exports_that_reference_globals_are_poisoned() {
    let (toks, _) = lex(
        "val shared: u64 = 1u64; fun uses(): u64 { return shared; } fun unrelated(): u64 { return 2u64; }",
    );
    let (program, _) = parse_with_module(&toks, "", "demo");
    let (interface, diags) = collect_interface(&program);
    assert!(diags.is_empty(), "provider must remain valid: {diags:?}");
    assert!(interface.functions.iter().any(|e| e.name == "uses"));
    assert!(interface
        .global_dependent_exports
        .iter()
        .any(|e| e == "uses"));
    assert!(interface.functions.iter().any(|e| e.name == "unrelated"));
}

#[test]
fn global_dependent_export_is_diagnosed_only_when_imported() {
    let (toks, _) = lex("val shared: u64 = 1u64; fun uses(): u64 { return shared; }");
    let (provider, _) = parse_with_module(&toks, "", "demo.lib");
    let (interface, provider_diags) = collect_interface(&provider);
    assert!(provider_diags.is_empty());

    let (toks, _) = lex("use demo.lib.uses; fun main() { uses(); }");
    let (importer, _) = parse(&toks, "");
    let (_, diags) = resolve_with_modules(&importer, &[interface.as_spec()]);
    assert!(diags.iter().any(|d| d.code.as_deref() == Some("E208")));
}

#[test]
fn duplicate_exports_are_not_usable_from_importers() {
    let (toks, _) = lex(
        "fun f(value: u64): u64 { return value; } fun f(value: String): String { return value; }",
    );
    let (program, _) = parse_with_module(&toks, "", "demo");
    let (interface, _) = collect_interface(&program);
    assert!(interface.functions.is_empty());
    assert!(interface.poisoned_exports.iter().any(|name| name == "f"));
}

#[test]
fn qualified_generic_import_resolves() {
    let sig = FuncSig::generic(
        vec![TypeParamSig {
            name: "T".into(),
            bound: None,
        }],
        vec![ParamSig {
            name: "value".into(),
            ty: VlType::Param("T".into()),
        }],
        VlType::Param("T".into()),
    );
    let module =
        ModuleSpec::new_source(&["demo", "lib"], vec![Export::source("id".into(), sig)]);
    let (toks, _) = lex("use demo.lib; fun main() { lib.id(1u64); }");
    let (program, _) = parse(&toks, "");
    let (_, diags) = resolve_with_modules(&program, &[module]);
    assert!(diags.iter().all(|d| !d.is_error()), "{diags:?}");
    assert!(!diags.iter().any(|d| d.code.as_deref() == Some("E201")));
}

#[test]
fn exported_main_can_be_imported() {
    let module = ModuleSpec::new(&["demo", "lib"], &[("main", &[], VlType::Void)]);
    let (toks, _) = lex("use demo.lib.main; fun caller() { main(); }");
    let (program, _) = parse(&toks, "");
    let (_, diags) = resolve_with_modules(&program, &[module]);
    assert!(
        diags.is_empty(),
        "main imports should be ordinary calls: {diags:?}"
    );
}

#[test]
fn parameter_assign_keeps_target_mapping_for_hir() {
    let (res, diags) = resolve_src("fun f(x: u64) { x = 1u64; }");
    assert_eq!(diags.iter().filter(|d| d.is_error()).count(), 1);
    // Target mapping retained so HIR stays structurally complete.
    let uses = res.uses.len();
    assert!(uses >= 1, "assign target must remain mapped");
    let param_def = res.defs.iter().find(|d| d.name == "x").expect("param def");
    assert_eq!(param_def.kind, DefKind::Parameter);
}

#[test]
fn duplicate_parameter_suppresses_e205() {
    let (_, diags) = resolve_src("fun f(x: u64, x: u64) { x = 1u64; }");
    let errors = diags.iter().filter(|d| d.is_error()).collect::<Vec<_>>();
    assert_eq!(errors.len(), 1, "{diags:?}");
    assert_eq!(errors[0].code.as_deref(), Some("E200"), "{diags:?}");
}

fn vl_codegen_modules() -> Vec<ModuleSpec> {
    vec![
        ModuleSpec::new(
            &["std"],
            &[
                ("print", &[("value", VlType::String)], VlType::Void),
                ("println", &[("value", VlType::String)], VlType::Void),
                ("print_u64", &[("value", VlType::U64)], VlType::Void),
            ],
        ),
        ModuleSpec::new(
            &["std", "fs"],
            &[
                ("open", &[("path", VlType::String)], VlType::File),
                ("read", &[("file", VlType::File)], VlType::String),
            ],
        ),
        ModuleSpec::new(
            &["std", "string"],
            &[("len", &[("value", VlType::String)], VlType::U64)],
        ),
    ]
}
