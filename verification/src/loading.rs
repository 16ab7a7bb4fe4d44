//! Loading the standard library from its sources.

use vstd::prelude::*;

use crate::ast::{Item, ItemView, Program, ProgramView};
use crate::catalog::merge_all;
use crate::codegen::modules;
use crate::diagnostic::{any_error, Diagnostic, DiagnosticView};
use crate::hir::{
    HirExpr, HirExprView, HirItem, HirItemView, HirMatchArm, HirMatchArmView, HirStmt, HirStmtView,
};
use crate::interface::collect_interface_quiet;
use crate::lex::lex;
use crate::lir::{
    FuncSymbolView, Function, FunctionImport, FunctionView, LirProgram, LirProgramView,
};
use crate::module::{ModuleInterface, ModuleInterfaceView, ModuleSpec, ModuleSpecView};
use crate::nara::native_sig;
use crate::parser::parse_with_module;
use crate::stdlib::{split_dollar, CheckedModule, CheckedView, ImportList, LibraryView, Name, Stdlib};
use crate::table::{Member, Table};
use crate::text::{clone_vec, str_eq};
use crate::typed::{TypedProgram, TypedView};
use crate::{catalog, codegen, diagnostic, grammar, hir, interface, model, module, nara_plan, stdlib};

verus! {

broadcast use {crate::model::group_model, crate::hir::group_hir};

// ---------------------------------------------------------------------------
// Calls of generic functions
// ---------------------------------------------------------------------------

/// Whether a definition is that of a generic function.
pub open spec fn is_generic_def(t: TypedView, def: u32) -> bool {
    t.func_sigs.dom().contains(def) && t.func_sigs[def].type_params.len() > 0
}

/// Whether an expression holds a call of a generic function.
pub open spec fn expr_is_generic(x: HirExprView, t: TypedView) -> bool
    decreases x,
{
    match x {
        HirExprView::Call { extern_sig, def, args, .. } => (extern_sig matches Some(sig)
            && sig.type_params.len() > 0) || (def matches Some(d) && is_generic_def(t, d.0))
            || exprs_are_generic(args, t),
        HirExprView::ArrayLiteral { elems, .. } => exprs_are_generic(elems, t),
        HirExprView::ObjectLiteral { fields, .. } => named_are_generic(fields, t),
        HirExprView::Variant { args, .. } => exprs_are_generic(args, t),
        HirExprView::TupleLiteral { elems, .. } => elems_are_generic(elems, t),
        HirExprView::TupleIndex { base, .. } => expr_is_generic(*base, t),
        HirExprView::Index { base, index, .. } => expr_is_generic(*base, t) || expr_is_generic(
            *index,
            t,
        ),
        HirExprView::Field { base, .. } => expr_is_generic(*base, t),
        HirExprView::Unary { inner, .. } => expr_is_generic(*inner, t),
        HirExprView::Cast { inner, .. } => expr_is_generic(*inner, t),
        HirExprView::Binary { lhs, rhs, .. } => expr_is_generic(*lhs, t) || expr_is_generic(
            *rhs,
            t,
        ),
        HirExprView::MethodCall { id, receiver, args, .. } => (t.method_defs.dom().contains(id.0)
            && is_generic_def(t, t.method_defs[id.0])) || expr_is_generic(*receiver, t)
            || exprs_are_generic(args, t),
        HirExprView::Literal { .. } | HirExprView::String { .. } => false,
        HirExprView::Null { .. } | HirExprView::Var { .. } => false,
    }
}

/// Whether one of the expressions holds a call of a generic function.
pub open spec fn exprs_are_generic(xs: Seq<HirExprView>, t: TypedView) -> bool
    decreases xs,
{
    xs.len() > 0 && (exprs_are_generic(xs.drop_last(), t) || expr_is_generic(xs.last(), t))
}

/// Whether the value of one of the fields holds a call of a generic function.
pub open spec fn named_are_generic(xs: Seq<(Seq<char>, HirExprView)>, t: TypedView) -> bool
    decreases xs,
{
    xs.len() > 0 && (named_are_generic(xs.drop_last(), t) || expr_is_generic(xs.last().1, t))
}

/// Whether one of the elements of a tuple holds a call of a generic function.
pub open spec fn elems_are_generic(xs: Seq<(Option<Seq<char>>, HirExprView)>, t: TypedView) -> bool
    decreases xs,
{
    xs.len() > 0 && (elems_are_generic(xs.drop_last(), t) || expr_is_generic(xs.last().1, t))
}

/// Whether a statement holds a call of a generic function.
pub open spec fn stmt_is_generic(x: HirStmtView, t: TypedView) -> bool
    decreases x,
{
    match x {
        HirStmtView::Let { value, .. } => expr_is_generic(value, t),
        HirStmtView::Assign { value, .. } => expr_is_generic(value, t),
        HirStmtView::Expr(value) => expr_is_generic(value, t),
        HirStmtView::Return { value, .. } => match value {
            Some(v) => expr_is_generic(v, t),
            None => false,
        },
        HirStmtView::IndexAssign { array, index, value, .. } => expr_is_generic(*array, t)
            || expr_is_generic(*index, t) || expr_is_generic(*value, t),
        HirStmtView::FieldAssign { base, value, .. } => expr_is_generic(*base, t)
            || expr_is_generic(*value, t),
        HirStmtView::TupleAssign { base, value, .. } => expr_is_generic(*base, t)
            || expr_is_generic(*value, t),
        HirStmtView::Destructure { value, .. } => expr_is_generic(value, t),
        HirStmtView::Match { scrutinee, arms, else_body, .. } => expr_is_generic(scrutinee, t)
            || arms_are_generic(arms, t) || (match else_body {
            Some(b) => stmts_are_generic(b, t),
            None => false,
        }),
        HirStmtView::If { condition, then_body, else_body, .. } => expr_is_generic(condition, t)
            || stmts_are_generic(then_body, t) || (match else_body {
            Some(b) => stmts_are_generic(b, t),
            None => false,
        }),
        HirStmtView::While { condition, body, .. } => expr_is_generic(condition, t)
            || stmts_are_generic(body, t),
        HirStmtView::Break { .. } | HirStmtView::Continue { .. } => false,
    }
}

/// Whether one of the statements holds a call of a generic function.
pub open spec fn stmts_are_generic(xs: Seq<HirStmtView>, t: TypedView) -> bool
    decreases xs,
{
    xs.len() > 0 && (stmts_are_generic(xs.drop_last(), t) || stmt_is_generic(xs.last(), t))
}

/// Whether the body of one of the match arms holds a call of a generic function.
pub open spec fn arms_are_generic(xs: Seq<HirMatchArmView>, t: TypedView) -> bool
    decreases xs,
{
    xs.len() > 0 && (arms_are_generic(xs.drop_last(), t) || stmts_are_generic(xs.last().body, t))
}

fn generic_def(t: &TypedProgram, def: u32) -> (r: bool)
    ensures
        r == is_generic_def(t@, def),
{
    match t.func_sigs.get(&def) {
        Some(sig) => {
            assert(sig@.type_params.len() == sig.type_params@.len());
            sig.type_params.len() > 0
        },
        None => false,
    }
}

fn hir_expr_has_generic_call(x: &HirExpr, t: &TypedProgram) -> (r: bool)
    ensures
        r == expr_is_generic(x@, t@),
    decreases x,
{
    match x {
        HirExpr::Call { extern_sig, def, args, .. } => {
            let by_sig = match extern_sig {
                Some(sig) => sig.is_generic(),
                None => false,
            };
            let by_def = match def {
                Some(d) => generic_def(t, d.0),
                None => false,
            };
            by_sig || by_def || exprs_have_generic_call(args, t)
        },
        HirExpr::ArrayLiteral { elems, .. } => exprs_have_generic_call(elems, t),
        HirExpr::ObjectLiteral { fields, .. } => named_have_generic_call(fields, t),
        HirExpr::Variant { args, .. } => exprs_have_generic_call(args, t),
        HirExpr::TupleLiteral { elems, .. } => elems_have_generic_call(elems, t),
        HirExpr::TupleIndex { base, .. } => hir_expr_has_generic_call(base, t),
        HirExpr::Index { base, index, .. } => hir_expr_has_generic_call(base, t)
            || hir_expr_has_generic_call(index, t),
        HirExpr::Field { base, .. } => hir_expr_has_generic_call(base, t),
        HirExpr::Unary { inner, .. } => hir_expr_has_generic_call(inner, t),
        HirExpr::Cast { inner, .. } => hir_expr_has_generic_call(inner, t),
        HirExpr::Binary { lhs, rhs, .. } => hir_expr_has_generic_call(lhs, t)
            || hir_expr_has_generic_call(rhs, t),
        HirExpr::MethodCall { id, receiver, args, .. } => {
            let by_def = match t.method_defs.get(&id.0) {
                Some(d) => generic_def(t, *d),
                None => false,
            };
            by_def || hir_expr_has_generic_call(receiver, t) || exprs_have_generic_call(args, t)
        },
        HirExpr::Literal { .. } => false,
        HirExpr::String { .. } => false,
        HirExpr::Null { .. } => false,
        HirExpr::Var { .. } => false,
    }
}

fn exprs_have_generic_call(xs: &Vec<HirExpr>, t: &TypedProgram) -> (r: bool)
    ensures
        r == exprs_are_generic(hir::exprs_view(xs@), t@),
    decreases xs,
{
    let ghost all = hir::exprs_view(xs@);
    let mut r = false;
    let mut i: usize = 0;
    assert(all.take(0).len() == 0);
    while i < xs.len()
        invariant
            i <= xs@.len(),
            all == hir::exprs_view(xs@),
            r == exprs_are_generic(all.take(i as int), t@),
        decreases xs@.len() - i,
    {
        assert(all.take(i + 1).drop_last() =~= all.take(i as int));
        assert(all.take(i + 1).last() == all[i as int]);
        let next = hir_expr_has_generic_call(&xs[i], t);
        r = r || next;
        i += 1;
    }
    assert(all.take(all.len() as int) =~= all);
    r
}

fn named_have_generic_call(xs: &Vec<(String, HirExpr)>, t: &TypedProgram) -> (r: bool)
    ensures
        r == named_are_generic(hir::named_view(xs@), t@),
    decreases xs,
{
    let ghost all = hir::named_view(xs@);
    let mut r = false;
    let mut i: usize = 0;
    assert(all.take(0).len() == 0);
    while i < xs.len()
        invariant
            i <= xs@.len(),
            all == hir::named_view(xs@),
            r == named_are_generic(all.take(i as int), t@),
        decreases xs@.len() - i,
    {
        assert(all.take(i + 1).drop_last() =~= all.take(i as int));
        assert(all.take(i + 1).last() == all[i as int]);
        let next = hir_expr_has_generic_call(&xs[i].1, t);
        r = r || next;
        i += 1;
    }
    assert(all.take(all.len() as int) =~= all);
    r
}

fn elems_have_generic_call(xs: &Vec<(Option<String>, HirExpr)>, t: &TypedProgram) -> (r: bool)
    ensures
        r == elems_are_generic(hir::elems_view(xs@), t@),
    decreases xs,
{
    let ghost all = hir::elems_view(xs@);
    let mut r = false;
    let mut i: usize = 0;
    assert(all.take(0).len() == 0);
    while i < xs.len()
        invariant
            i <= xs@.len(),
            all == hir::elems_view(xs@),
            r == elems_are_generic(all.take(i as int), t@),
        decreases xs@.len() - i,
    {
        assert(all.take(i + 1).drop_last() =~= all.take(i as int));
        assert(all.take(i + 1).last() == all[i as int]);
        let next = hir_expr_has_generic_call(&xs[i].1, t);
        r = r || next;
        i += 1;
    }
    assert(all.take(all.len() as int) =~= all);
    r
}

fn hir_stmt_has_generic_call(x: &HirStmt, t: &TypedProgram) -> (r: bool)
    ensures
        r == stmt_is_generic(x@, t@),
    decreases x,
{
    match x {
        HirStmt::Let { value, .. } => hir_expr_has_generic_call(value, t),
        HirStmt::Assign { value, .. } => hir_expr_has_generic_call(value, t),
        HirStmt::Expr(value) => hir_expr_has_generic_call(value, t),
        HirStmt::Return { value, .. } => match value {
            Some(v) => hir_expr_has_generic_call(v, t),
            None => false,
        },
        HirStmt::IndexAssign { array, index, value, .. } => hir_expr_has_generic_call(array, t)
            || hir_expr_has_generic_call(index, t) || hir_expr_has_generic_call(value, t),
        HirStmt::FieldAssign { base, value, .. } => hir_expr_has_generic_call(base, t)
            || hir_expr_has_generic_call(value, t),
        HirStmt::TupleAssign { base, value, .. } => hir_expr_has_generic_call(base, t)
            || hir_expr_has_generic_call(value, t),
        HirStmt::Destructure { value, .. } => hir_expr_has_generic_call(value, t),
        HirStmt::Match { scrutinee, arms, else_body, .. } => hir_expr_has_generic_call(
            scrutinee,
            t,
        ) || arms_have_generic_call(arms, t) || (match else_body {
            Some(b) => stmts_have_generic_call(b, t),
            None => false,
        }),
        HirStmt::If { condition, then_body, else_body, .. } => hir_expr_has_generic_call(
            condition,
            t,
        ) || stmts_have_generic_call(then_body, t) || (match else_body {
            Some(b) => stmts_have_generic_call(b, t),
            None => false,
        }),
        HirStmt::While { condition, body, .. } => hir_expr_has_generic_call(condition, t)
            || stmts_have_generic_call(body, t),
        HirStmt::Break { .. } => false,
        HirStmt::Continue { .. } => false,
    }
}

fn stmts_have_generic_call(xs: &Vec<HirStmt>, t: &TypedProgram) -> (r: bool)
    ensures
        r == stmts_are_generic(hir::stmts_view(xs@), t@),
    decreases xs,
{
    let ghost all = hir::stmts_view(xs@);
    let mut r = false;
    let mut i: usize = 0;
    assert(all.take(0).len() == 0);
    while i < xs.len()
        invariant
            i <= xs@.len(),
            all == hir::stmts_view(xs@),
            r == stmts_are_generic(all.take(i as int), t@),
        decreases xs@.len() - i,
    {
        assert(all.take(i + 1).drop_last() =~= all.take(i as int));
        assert(all.take(i + 1).last() == all[i as int]);
        let next = hir_stmt_has_generic_call(&xs[i], t);
        r = r || next;
        i += 1;
    }
    assert(all.take(all.len() as int) =~= all);
    r
}

fn arms_have_generic_call(xs: &Vec<HirMatchArm>, t: &TypedProgram) -> (r: bool)
    ensures
        r == arms_are_generic(hir::arms_view(xs@), t@),
    decreases xs,
{
    let ghost all = hir::arms_view(xs@);
    let mut r = false;
    let mut i: usize = 0;
    assert(all.take(0).len() == 0);
    while i < xs.len()
        invariant
            i <= xs@.len(),
            all == hir::arms_view(xs@),
            r == arms_are_generic(all.take(i as int), t@),
        decreases xs@.len() - i,
    {
        assert(all.take(i + 1).drop_last() =~= all.take(i as int));
        assert(all.take(i + 1).last() == all[i as int]);
        let next = stmts_have_generic_call(&xs[i].body, t);
        r = r || next;
        i += 1;
    }
    assert(all.take(all.len() as int) =~= all);
    r
}

// ---------------------------------------------------------------------------
// Sources
// ---------------------------------------------------------------------------

/// Why the library cannot be loaded.
#[derive(Debug)]
pub enum LoadError {
    /// Errors were reported for a module.
    Reported(Vec<Diagnostic>),
    /// A module of the library has an entry.
    DefinesMain,
    /// A module has exports that cannot be used.
    UncleanExports,
    /// An export has a name that is taken.
    Collision,
    /// A module has globals.
    HasGlobals,
    /// A module imports what is neither a helper nor provided by the target.
    UnknownImport,
}

/// The content of a [`LoadError`].
pub enum LoadErrorView {
    Reported(Seq<DiagnosticView>),
    DefinesMain,
    UncleanExports,
    Collision,
    HasGlobals,
    UnknownImport,
}

impl View for LoadError {
    type V = LoadErrorView;

    open spec fn view(&self) -> LoadErrorView {
        match self {
            LoadError::Reported(diags) => LoadErrorView::Reported(model::all(diags@)),
            LoadError::DefinesMain => LoadErrorView::DefinesMain,
            LoadError::UncleanExports => LoadErrorView::UncleanExports,
            LoadError::Collision => LoadErrorView::Collision,
            LoadError::HasGlobals => LoadErrorView::HasGlobals,
            LoadError::UnknownImport => LoadErrorView::UnknownImport,
        }
    }
}

/// Whether items declare a function `main`.
pub open spec fn declares_main(items: Seq<ItemView>) -> bool {
    exists|i: int|
        0 <= i < items.len() && (#[trigger] items[i] matches ItemView::Function { name, .. }
            && name == "main"@)
}

/// A module of the library as it is read: its syntax tree and its interface, or
/// why it cannot be used.
pub open spec fn module_read(path: Seq<char>, src: Seq<char>) -> Result<
    (ProgramView, ModuleInterfaceView),
    LoadErrorView,
> {
    let (toks, ldiags) = crate::lex::lexed(src);
    let (prog, pdiags) = grammar::parsed(toks, path);
    let (face, idiags) = interface::collected(prog, false);
    if diagnostic::has_error(ldiags) {
        Err(LoadErrorView::Reported(ldiags))
    } else if diagnostic::has_error(pdiags) {
        Err(LoadErrorView::Reported(pdiags))
    } else if declares_main(prog.items) {
        Err(LoadErrorView::DefinesMain)
    } else if diagnostic::has_error(idiags) {
        Err(LoadErrorView::Reported(idiags))
    } else if face.poisoned_exports.len() > 0 || face.global_dependent_exports.len() > 0 {
        Err(LoadErrorView::UncleanExports)
    } else {
        Ok((prog, face))
    }
}

/// Reads a module of the library.
pub fn read_module(path: &str, src: &str) -> (r: Result<(Program, ModuleInterface), LoadError>)
    ensures
        match r {
            Ok((p, i)) => module_read(path@, src@) == Ok::<
                (ProgramView, ModuleInterfaceView),
                LoadErrorView,
            >((p@, i@)),
            Err(e) => module_read(path@, src@) == Err::<
                (ProgramView, ModuleInterfaceView),
                LoadErrorView,
            >(e@),
        },
{
    let (toks, ldiags) = lex(src);
    if any_error(ldiags.as_slice()) {
        return Err(LoadError::Reported(ldiags));
    }
    proof {
        let all = model::all(toks@);
        assert(all[all.len() - 1] == toks@[toks@.len() - 1]@);
    }
    let (prog, pdiags) = parse_with_module(toks.as_slice(), src, path);
    if any_error(pdiags.as_slice()) {
        return Err(LoadError::Reported(pdiags));
    }
    let ghost items = prog@.items;
    let mut i: usize = 0;
    while i < prog.items.len()
        invariant
            i <= prog.items@.len(),
            items == model::all(prog.items@),
            items == prog@.items,
            prog@ == grammar::parsed(crate::lex::lexed(src@).0, path@).0,
            !diagnostic::has_error(crate::lex::lexed(src@).1),
            !diagnostic::has_error(grammar::parsed(crate::lex::lexed(src@).0, path@).1),
            forall|k: int|
                0 <= k < i ==> !(#[trigger] items[k] matches ItemView::Function { name, .. } && name
                    == "main"@),
        decreases prog.items@.len() - i,
    {
        assert(items[i as int] == prog.items@[i as int]@);
        let main = match &prog.items[i] {
            Item::Function { name, .. } => str_eq(name.as_str(), "main"),
            _ => false,
        };
        if main {
            return Err(LoadError::DefinesMain);
        }
        i += 1;
    }
    let (face, idiags) = collect_interface_quiet(&prog);
    if any_error(idiags.as_slice()) {
        return Err(LoadError::Reported(idiags));
    }
    assert(face@.poisoned_exports.len() == face.poisoned_exports@.len());
    assert(face@.global_dependent_exports.len() == face.global_dependent_exports@.len());
    if face.poisoned_exports.len() > 0 || face.global_dependent_exports.len() > 0 {
        return Err(LoadError::UncleanExports);
    }
    Ok((prog, face))
}

/// The interfaces as modules of a catalog.
pub open spec fn interface_specs(faces: Seq<ModuleInterfaceView>) -> Seq<ModuleSpecView> {
    Seq::new(faces.len(), |i: int| module::interface_spec(faces[i]))
}

fn as_specs(faces: &Vec<ModuleInterface>) -> (r: Vec<ModuleSpec>)
    ensures
        model::all(r@) == interface_specs(model::all(faces@)),
{
    let mut out: Vec<ModuleSpec> = Vec::new();
    let mut i: usize = 0;
    while i < faces.len()
        invariant
            i <= faces@.len(),
            out@.len() == i,
            forall|k: int|
                0 <= k < i ==> (#[trigger] out@[k])@ == interface_specs(model::all(faces@))[k],
        decreases faces@.len() - i,
    {
        out.push(faces[i].as_spec());
        i += 1;
    }
    assert(model::all(out@) =~= interface_specs(model::all(faces@)));
    out
}

/// The catalog against which the modules of the library are resolved: that of
/// the targets with the modules added. `None` where an export has a name that is
/// taken.
pub fn library_catalog(externs: &Vec<ModuleSpec>, faces: &Vec<ModuleInterface>) -> (r: Option<
    Vec<ModuleSpec>,
>)
    ensures
        match r {
            Some(cat) => !catalog::some_collide(
                model::all(externs@),
                interface_specs(model::all(faces@)),
                true,
            ) && model::all(cat@) == catalog::merged_all(
                model::all(externs@),
                interface_specs(model::all(faces@)),
                true,
            ),
            None => catalog::some_collide(
                model::all(externs@),
                interface_specs(model::all(faces@)),
                true,
            ),
        },
{
    let specs = as_specs(faces);
    let mut cat = clone_vec(externs);
    if merge_all(&mut cat, &specs, true) {
        None
    } else {
        Some(cat)
    }
}

// ---------------------------------------------------------------------------
// Assembly
// ---------------------------------------------------------------------------

/// A module of the library that was checked and lowered.
#[derive(Debug)]
pub struct LoweredModule {
    pub checked: CheckedModule,
    pub lir: LirProgram,
    pub spec: ModuleSpec,
}

/// The content of a [`LoweredModule`].
pub struct LoweredView {
    pub checked: CheckedView,
    pub lir: LirProgramView,
    pub spec: ModuleSpecView,
}

impl View for LoweredModule {
    type V = LoweredView;

    open spec fn view(&self) -> LoweredView {
        LoweredView { checked: self.checked@, lir: self.lir@, spec: self.spec@ }
    }
}

/// Whether a function of a module calls generic functions.
pub open spec fn calls_generic(items: Seq<HirItemView>, t: TypedView, name: Seq<char>) -> bool {
    exists|i: int|
        0 <= i < items.len() && (#[trigger] items[i] matches HirItemView::Fn { name: own, body, .. }
            && own == name && stmts_are_generic(body, t))
}

/// Whether the code of a function is kept: it is not an instance, and calls no
/// generic function.
pub open spec fn is_kept(c: CheckedView, f: FunctionView) -> bool {
    !f.name.contains('$') && !calls_generic(c.hir.items, c.typed, f.name)
}

/// The code that is kept, with that of functions of a module.
pub open spec fn with_bodies(
    m: Map<Name, FunctionView>,
    c: CheckedView,
    fs: Seq<FunctionView>,
) -> Map<Name, FunctionView>
    decreases fs.len(),
{
    if fs.len() == 0 {
        m
    } else {
        let front = with_bodies(m, c, fs.drop_last());
        if is_kept(c, fs.last()) {
            front.insert((c.hir.module, fs.last().name), fs.last())
        } else {
            front
        }
    }
}

/// What modules import, with what a module imports.
pub open spec fn with_module_imports(
    m: Map<Seq<char>, Seq<FuncSymbolView>>,
    module: Seq<char>,
    more: Seq<FuncSymbolView>,
) -> Map<Seq<char>, Seq<FuncSymbolView>> {
    m.insert(
        module,
        (if m.dom().contains(module) {
            m[module]
        } else {
            Seq::empty()
        }) + more,
    )
}

/// The library made of modules.
pub open spec fn assembled(ms: Seq<LoweredView>) -> LibraryView
    decreases ms.len(),
{
    if ms.len() == 0 {
        LibraryView {
            bodies: Map::empty(),
            module_imports: Map::empty(),
            specs: Seq::empty(),
            checked: Seq::empty(),
        }
    } else {
        let l = assembled(ms.drop_last());
        let m = ms.last();
        LibraryView {
            bodies: with_bodies(l.bodies, m.checked, m.lir.functions),
            module_imports: with_module_imports(
                l.module_imports,
                m.checked.hir.module,
                m.lir.imports,
            ),
            specs: l.specs.push(m.spec),
            checked: l.checked.push(m.checked),
        }
    }
}

/// Whether one of the modules has globals.
pub open spec fn some_globals(ms: Seq<LoweredView>) -> bool {
    exists|i: int| 0 <= i < ms.len() && (#[trigger] ms[i]).lir.globals.len() > 0
}

/// Whether everything that the modules of the library import is a helper or a
/// function that NaraVM provides, so that what is linked can be emitted.
pub open spec fn imports_resolve(l: LibraryView) -> bool {
    forall|m: Seq<char>, i: int|
        l.module_imports.dom().contains(m) && 0 <= i < l.module_imports[m].len() ==> {
            let f = #[trigger] l.module_imports[m][i];
            stdlib::is_helper(l, f.module, f.function) || nara_plan::native_sig(f) is Some
        }
}

fn has_generic_call_in(items: &Vec<HirItem>, t: &TypedProgram, name: &str) -> (r: bool)
    ensures
        r == calls_generic(model::all(items@), t@, name@),
{
    let ghost all = model::all(items@);
    let mut i: usize = 0;
    while i < items.len()
        invariant
            i <= items@.len(),
            all == model::all(items@),
            forall|k: int|
                0 <= k < i ==> !(#[trigger] all[k] matches HirItemView::Fn { name: own, body, .. }
                    && own == name@ && stmts_are_generic(body, t@)),
        decreases items@.len() - i,
    {
        assert(all[i as int] == items@[i as int]@);
        let hit = match &items[i] {
            HirItem::Fn { name: own, body, .. } => str_eq(own.as_str(), name)
                && stmts_have_generic_call(body, t),
            _ => false,
        };
        if hit {
            return true;
        }
        i += 1;
    }
    false
}

fn add_bodies(m: &mut Table<Member, Function>, c: &CheckedModule, fs: &Vec<Function>)
    ensures
        final(m)@ == with_bodies(old(m)@, c@, model::all(fs@)),
{
    let ghost all = model::all(fs@);
    let mut i: usize = 0;
    assert(all.take(0).len() == 0);
    while i < fs.len()
        invariant
            i <= fs@.len(),
            all == model::all(fs@),
            m@ == with_bodies(old(m)@, c@, all.take(i as int)),
        decreases fs@.len() - i,
    {
        assert(all.take(i + 1).drop_last() =~= all.take(i as int));
        assert(all.take(i + 1).last() == all[i as int]);
        let name = fs[i].name.as_str();
        if split_dollar(name).is_none() && !has_generic_call_in(&c.hir.items, &c.typed, name) {
            m.insert(Member(c.hir.module.clone(), fs[i].name.clone()), fs[i].clone());
        }
        i += 1;
    }
    assert(all.take(all.len() as int) =~= all);
}

fn add_module_imports(
    m: &mut Table<String, ImportList>,
    module: &String,
    more: &Vec<FunctionImport>,
)
    ensures
        final(m)@ == with_module_imports(old(m)@, module@, model::all(more@)),
{
    let mut list: Vec<FunctionImport> = match m.get(module) {
        Some(have) => clone_vec(&have.0),
        None => Vec::new(),
    };
    let ghost start = model::all(list@);
    let mut tail = clone_vec(more);
    let ghost added = model::all(tail@);
    list.append(&mut tail);
    assert(model::all(list@) =~= start + added);
    m.insert(module.clone(), ImportList(list));
}

impl Stdlib {
    /// Whether everything that the modules of the library import is a helper or a
    /// function that NaraVM provides, so that what is linked can be emitted.
    pub fn imports_resolve(&self) -> (r: bool)
        ensures
            r == imports_resolve(self@),
    {
        let cat = modules();
        let keys = self.module_imports.keys();
        let ghost l = self@;
        let mut i: usize = 0;
        while i < keys.len()
            invariant
                i <= keys@.len(),
                l == self@,
                model::all(cat@) == codegen::target_catalog(),
                forall|k: Seq<char>|
                    self.module_imports@.dom().contains(k) <==> exists|i: int|
                        0 <= i < keys@.len() && (#[trigger] keys@[i])@ == k,
                forall|a: int, b: int|
                    0 <= a < i && 0 <= b < l.module_imports[(#[trigger] keys@[a])@].len() ==> ({
                        let f = #[trigger] l.module_imports[keys@[a]@][b];
                        stdlib::is_helper(l, f.module, f.function) || nara_plan::native_sig(f) is Some
                    }),
            decreases keys@.len() - i,
        {
            match self.module_imports.get(keys[i]) {
                Some(list) => {
                    let ghost all = l.module_imports[keys@[i as int]@];
                    let mut j: usize = 0;
                    while j < list.0.len()
                        invariant
                            i < keys@.len(),
                            j <= list.0@.len(),
                            l == self@,
                            model::all(cat@) == codegen::target_catalog(),
                            all == l.module_imports[keys@[i as int]@],
                            all == model::all(list.0@),
                            l.module_imports.dom().contains(keys@[i as int]@),
                            forall|b: int|
                                0 <= b < j ==> ({
                                    let f = #[trigger] all[b];
                                    stdlib::is_helper(l, f.module, f.function) || nara_plan::native_sig(f) is Some
                                }),
                        decreases list.0@.len() - j,
                    {
                        let f = &list.0[j].symbol;
                        assert(all[j as int] == f@);
                        if !self.is_helper(f.module.as_str(), f.function.as_str()) && native_sig(
                            &cat,
                            f,
                        ).is_none() {
                            assert(l.module_imports[keys@[i as int]@][j as int] == f@);
                            return false;
                        }
                        j += 1;
                    }
                },
                None => {},
            }
            i += 1;
        }
        proof {
            assert forall|m: Seq<char>, i: int|
                l.module_imports.dom().contains(m) && 0 <= i < l.module_imports[m].len() implies ({
                let f = #[trigger] l.module_imports[m][i];
                stdlib::is_helper(l, f.module, f.function) || nara_plan::native_sig(f) is Some
            }) by {
                assert(exists|a: int| 0 <= a < keys@.len() && (#[trigger] keys@[a])@ == m);
                let a = choose|a: int| 0 <= a < keys@.len() && (#[trigger] keys@[a])@ == m;
                assert(l.module_imports[keys@[a]@][i] == l.module_imports[m][i]);
            }
        }
        true
    }

    /// The library made of modules that were checked and lowered: the code of
    /// their functions, their imports and their exports.
    pub fn assemble(modules: Vec<LoweredModule>) -> (r: Result<Stdlib, LoadError>)
        ensures
            match r {
                Ok(l) => !some_globals(model::all(modules@)) && l@ == assembled(
                    model::all(modules@),
                ) && imports_resolve(l@),
                Err(e) => (e@ == LoadErrorView::HasGlobals && some_globals(model::all(modules@)))
                    || (e@ == LoadErrorView::UnknownImport && !some_globals(model::all(modules@))
                    && !imports_resolve(assembled(model::all(modules@)))),
            },
    {
        let ghost all = model::all(modules@);
        let mut i: usize = 0;
        while i < modules.len()
            invariant
                i <= modules@.len(),
                all == model::all(modules@),
                forall|k: int| 0 <= k < i ==> (#[trigger] all[k]).lir.globals.len() == 0,
            decreases modules@.len() - i,
        {
            assert(all[i as int] == modules@[i as int]@);
            assert(all[i as int].lir.globals.len() == modules@[i as int].lir.globals@.len());
            if modules[i].lir.globals.len() > 0 {
                return Err(LoadError::HasGlobals);
            }
            i += 1;
        }
        let mut out = Stdlib {
            bodies: Table::new(),
            module_imports: Table::new(),
            specs: Vec::new(),
            checked: Vec::new(),
        };
        assert(all.take(0).len() == 0);
        let mut rest = modules;
        let mut taken: usize = 0;
        let n: usize = rest.len();
        let mut queue: Vec<LoweredModule> = Vec::new();
        while rest.len() > 0
            invariant
                n == all.len(),
                rest@.len() <= n,
                model::all(rest@) =~= all.take(rest@.len() as int),
                queue@.len() == n - rest@.len(),
                forall|k: int|
                    0 <= k < queue@.len() ==> (#[trigger] queue@[k])@ == all[n - 1 - k],
            decreases rest@.len(),
        {
            let ghost before = rest@;
            match rest.pop() {
                Some(m) => {
                    assert(m@ == model::all(before)[before.len() - 1]);
                    queue.push(m);
                },
                None => {},
            }
            assert(model::all(rest@) =~= model::all(before).drop_last());
        }
        while queue.len() > 0
            invariant
                n == all.len(),
                taken + queue@.len() == n,
                forall|k: int|
                    0 <= k < queue@.len() ==> (#[trigger] queue@[k])@ == all[n - 1 - k],
                out@ == assembled(all.take(taken as int)),
            decreases queue@.len(),
        {
            let ghost before = queue@;
            match queue.pop() {
                Some(m) => {
                    assert(m@ == all[taken as int]);
                    assert(all.take(taken + 1).drop_last() =~= all.take(taken as int));
                    assert(all.take(taken + 1).last() == all[taken as int]);
                    add_bodies(&mut out.bodies, &m.checked, &m.lir.functions);
                    add_module_imports(
                        &mut out.module_imports,
                        &m.checked.hir.module,
                        &m.lir.imports,
                    );
                    out.specs.push(m.spec);
                    out.checked.push(m.checked);
                    taken += 1;
                },
                None => {},
            }
        }
        assert(all.take(all.len() as int) =~= all);
        if out.imports_resolve() {
            Ok(out)
        } else {
            Err(LoadError::UnknownImport)
        }
    }
}

} // verus!
