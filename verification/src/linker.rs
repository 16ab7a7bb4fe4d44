//! Linking: copying the helpers of the standard library into the programs that
//! call them.

use vstd::prelude::*;

use crate::hir::{HirItem, HirItemView};
use crate::lir::{
    FuncSymbol, FuncSymbolView, Function, FunctionImport, FunctionView, Global, GlobalView, Instr,
    InstrView, LirProgram, LirProgramView,
};
use crate::lir_lowering::{annotated_types, erase_all, find_function, lower_library_body, make_env};
use crate::order::order_of;
use crate::stdlib::{mangle, CheckedModule, CheckedView, LibraryView, Name, Stdlib};
use crate::table::{Member, Table};
use crate::text::{clone_vec, owned, str_eq};
use crate::typed::{Instance, InstanceCall, InstanceView, Ty, TyView, TypedView};
use crate::{hir, lir, lir_lowering, model, order, stdlib, typed};

verus! {

broadcast use {crate::model::group_model, crate::hir::group_hir};

// ---------------------------------------------------------------------------
// What is needed
// ---------------------------------------------------------------------------

/// An instance of a generic function, with the module of the function.
#[derive(Debug)]
pub struct PlannedInstance {
    pub owner: String,
    pub instance: Instance,
}

/// The content of a [`PlannedInstance`].
pub struct PlannedView {
    pub owner: Seq<char>,
    pub instance: InstanceView,
}

impl View for PlannedInstance {
    type V = PlannedView;

    open spec fn view(&self) -> PlannedView {
        PlannedView { owner: self.owner@, instance: self.instance@ }
    }
}

/// The instances that calls in a module of the library refer to.
#[derive(Debug)]
pub struct PlannedCalls {
    pub owner: String,
    /// The instances that calls outside of instances refer to, by their nodes.
    pub root_calls: Table<u32, String>,
    /// The instances that calls inside of instances refer to.
    pub inst_calls: Table<InstanceCall, String>,
}

/// The content of a [`PlannedCalls`].
pub struct PlannedCallsView {
    pub owner: Seq<char>,
    pub root_calls: Map<u32, Seq<char>>,
    pub inst_calls: Map<(Seq<char>, u32), Seq<char>>,
}

impl View for PlannedCalls {
    type V = PlannedCallsView;

    open spec fn view(&self) -> PlannedCallsView {
        PlannedCallsView {
            owner: self.owner@,
            root_calls: self.root_calls@,
            inst_calls: self.inst_calls@,
        }
    }
}

/// The instances of generic functions that a program uses, and the calls of them
/// in modules of the library. A module of the library is checked once, before
/// any program is known, so what its calls refer to is part of the plan.
#[derive(Debug)]
pub struct MonomorphizationPlan {
    pub instances: Vec<PlannedInstance>,
    pub calls: Vec<PlannedCalls>,
}

/// The content of a [`MonomorphizationPlan`].
pub struct PlanView {
    pub instances: Seq<PlannedView>,
    pub calls: Seq<PlannedCallsView>,
}

impl View for MonomorphizationPlan {
    type V = PlanView;

    open spec fn view(&self) -> PlanView {
        PlanView { instances: model::all(self.instances@), calls: model::all(self.calls@) }
    }
}

/// A program under linking, with the names of the helpers that were copied:
/// those kept as code, those lowered by themselves, and instances of generic
/// functions.
pub struct LinkState {
    pub prog: LirProgramView,
    pub mono: Map<Name, Seq<char>>,
    pub planned: Map<Name, Seq<char>>,
    pub generic: Map<Name, Seq<char>>,
}

/// The helpers that calls need and that were not copied.
pub struct Need {
    pub mono: Seq<Name>,
    pub planned: Seq<Name>,
    pub generic: Seq<Name>,
}

/// The name of a symbol.
pub open spec fn name_of(s: FuncSymbolView) -> Name {
    (s.module, s.function)
}

/// Nothing is needed.
pub open spec fn no_need() -> Need {
    Need { mono: Seq::empty(), planned: Seq::empty(), generic: Seq::empty() }
}

/// What is needed, with what a call of a function needs. Generic functions and
/// functions that are not kept as code count only where there is a plan.
pub open spec fn with_call(l: LibraryView, plan: bool, s: LinkState, need: Need, f: Name) -> Need {
    if l.bodies.dom().contains(f) && !s.mono.dom().contains(f) && !need.mono.contains(f) {
        Need { mono: need.mono.push(f), ..need }
    } else if plan && stdlib::is_generic_instance(l, f.0, f.1) && !s.generic.dom().contains(f)
        && !need.generic.contains(f) {
        Need { generic: need.generic.push(f), ..need }
    } else if plan && !f.1.contains('$') && stdlib::is_plan_mono(l, f.0, f.1)
        && !s.mono.dom().contains(f) && !s.planned.dom().contains(f) && !need.mono.contains(f)
        && !need.planned.contains(f) {
        Need { planned: need.planned.push(f), ..need }
    } else {
        need
    }
}

/// What is needed, with what instructions need.
pub open spec fn with_instrs(l: LibraryView, plan: bool, s: LinkState, need: Need, xs: Seq<InstrView>) -> Need
    decreases xs.len(),
{
    if xs.len() == 0 {
        need
    } else {
        let need = with_instrs(l, plan, s, need, xs.drop_last());
        match xs.last() {
            InstrView::Call { symbol, .. } => with_call(l, plan, s, need, name_of(symbol)),
            _ => need,
        }
    }
}

/// What is needed, with what functions need.
pub open spec fn with_functions(
    l: LibraryView,
    plan: bool,
    s: LinkState,
    need: Need,
    fs: Seq<FunctionView>,
) -> Need
    decreases fs.len(),
{
    if fs.len() == 0 {
        need
    } else {
        with_instrs(
            l,
            plan,
            s,
            with_functions(l, plan, s, need, fs.drop_last()),
            fs.last().instrs,
        )
    }
}

/// What is needed, with what globals need.
pub open spec fn with_globals(
    l: LibraryView,
    plan: bool,
    s: LinkState,
    need: Need,
    gs: Seq<GlobalView>,
) -> Need
    decreases gs.len(),
{
    if gs.len() == 0 {
        need
    } else {
        with_instrs(
            l,
            plan,
            s,
            with_globals(l, plan, s, need, gs.drop_last()),
            gs.last().init,
        )
    }
}

/// What a program needs.
pub open spec fn needs(l: LibraryView, plan: bool, s: LinkState) -> Need {
    with_globals(
        l,
        plan,
        s,
        with_functions(l, plan, s, no_need(), s.prog.functions),
        s.prog.globals,
    )
}

/// Names as sorting keys.
pub open spec fn pair_keys(ns: Seq<Name>) -> Seq<Seq<Seq<char>>> {
    Seq::new(ns.len(), |i: int| seq![ns[i].0, ns[i].1])
}

/// Names in order, by the module and then by the function.
pub open spec fn sorted_names(ns: Seq<Name>) -> Seq<Name> {
    let o = order::sorted_order(pair_keys(ns), ns.len());
    Seq::new(o.len(), |i: int| ns[o[i]])
}

// ---------------------------------------------------------------------------
// Copying
// ---------------------------------------------------------------------------

/// The imports with those of others that are not there yet.
pub open spec fn with_imports(have: Seq<FuncSymbolView>, more: Seq<FuncSymbolView>) -> Seq<
    FuncSymbolView,
>
    decreases more.len(),
{
    if more.len() == 0 {
        have
    } else {
        let front = with_imports(have, more.drop_last());
        if front.contains(more.last()) {
            front
        } else {
            front.push(more.last())
        }
    }
}

/// The program with a copied helper and what the helper's module imports.
pub open spec fn with_helper(l: LibraryView, p: LirProgramView, module: Seq<char>, f: FunctionView) -> LirProgramView {
    LirProgramView {
        functions: p.functions.push(f),
        imports: if l.module_imports.dom().contains(module) {
            with_imports(p.imports, l.module_imports[module])
        } else {
            p.imports
        },
        ..p
    }
}

/// The local name of a helper.
pub open spec fn local_name(f: Name) -> Seq<char> {
    stdlib::mangled(f.0, f.1)
}

/// Copies a helper that is kept as code.
pub open spec fn copy_mono(l: LibraryView, s: LinkState, f: Name) -> LinkState {
    LinkState {
        prog: with_helper(
            l,
            s.prog,
            f.0,
            FunctionView { name: local_name(f), ..l.bodies[f] },
        ),
        mono: s.mono.insert(f, local_name(f)),
        ..s
    }
}

/// Copies helpers that are kept as code, in order.
pub open spec fn copy_monos(l: LibraryView, s: LinkState, fs: Seq<Name>) -> LinkState
    decreases fs.len(),
{
    if fs.len() == 0 {
        s
    } else {
        copy_mono(l, copy_monos(l, s, fs.drop_last()), fs.last())
    }
}

/// The first checked module with a name, from a position on.
pub open spec fn checked_from(cs: Seq<CheckedView>, module: Seq<char>, i: int) -> Option<CheckedView>
    decreases cs.len() - i,
{
    if i < 0 || i >= cs.len() {
        None
    } else if cs[i].hir.module == module {
        Some(cs[i])
    } else {
        checked_from(cs, module, i + 1)
    }
}

/// Whether an item is a function with a name that is not generic.
pub open spec fn is_plain_fn(item: HirItemView, function: Seq<char>) -> bool {
    item matches HirItemView::Fn { name, type_params, .. } && name == function
        && type_params.len() == 0
}

/// The first function with a name that is not generic, from a position on.
pub open spec fn plain_fn_from(items: Seq<HirItemView>, function: Seq<char>, i: int) -> Option<
    HirItemView,
>
    decreases items.len() - i,
{
    if i < 0 || i >= items.len() {
        None
    } else if is_plain_fn(items[i], function) {
        Some(items[i])
    } else {
        plain_fn_from(items, function, i + 1)
    }
}

/// The first planned calls in a module, from a position on.
pub open spec fn calls_from(cs: Seq<PlannedCallsView>, owner: Seq<char>, i: int) -> Option<
    PlannedCallsView,
>
    decreases cs.len() - i,
{
    if i < 0 || i >= cs.len() {
        None
    } else if cs[i].owner == owner {
        Some(cs[i])
    } else {
        calls_from(cs, owner, i + 1)
    }
}

/// What is known of a module of the library, with its calls as planned.
pub open spec fn with_calls(t: TypedView, plan: PlanView, owner: Seq<char>) -> TypedView {
    match calls_from(plan.calls, owner, 0) {
        Some(c) => TypedView { root_calls: c.root_calls, inst_calls: c.inst_calls, ..t },
        None => TypedView { root_calls: Map::empty(), inst_calls: Map::empty(), ..t },
    }
}

/// A function of the library, lowered by itself.
pub open spec fn planned_function(l: LibraryView, plan: PlanView, f: Name) -> Option<FunctionView> {
    match checked_from(l.checked, f.0, 0) {
        None => None,
        Some(c) => match plain_fn_from(c.hir.items, f.1, 0) {
            Some(HirItemView::Fn { def, params, body, .. }) => {
                let code = lir_lowering::lowered_body(
                    lir_lowering::library_context(
                        c.hir,
                        with_calls(c.typed, plan, f.0),
                        Map::empty(),
                        None,
                    ),
                    params,
                    body,
                );
                if code.full {
                    None
                } else {
                    Some(
                        match def {
                            Some(d) if c.typed.func_sigs.dom().contains(d.0) => FunctionView {
                                name: local_name(f),
                                param_tys: lir_lowering::all_erased(
                                    c.typed.func_sigs[d.0].param_tys,
                                ),
                                ret: typed::erased(c.typed.func_sigs[d.0].ret),
                                instrs: code.instrs,
                            },
                            _ => FunctionView {
                                name: local_name(f),
                                param_tys: lir_lowering::param_types(params),
                                ret: TyView::Error,
                                instrs: code.instrs,
                            },
                        },
                    )
                }
            },
            _ => None,
        },
    }
}

/// Copies a function of the library that is lowered by itself.
pub open spec fn copy_planned(l: LibraryView, plan: PlanView, s: LinkState, f: Name) -> LinkState {
    match planned_function(l, plan, f) {
        Some(code) => LinkState {
            prog: with_helper(l, s.prog, f.0, code),
            planned: s.planned.insert(f, local_name(f)),
            ..s
        },
        None => s,
    }
}

/// Copies functions of the library that are lowered by themselves, in order.
pub open spec fn copy_planneds(l: LibraryView, plan: PlanView, s: LinkState, fs: Seq<Name>) -> LinkState
    decreases fs.len(),
{
    if fs.len() == 0 {
        s
    } else {
        copy_planned(l, plan, copy_planneds(l, plan, s, fs.drop_last()), fs.last())
    }
}

/// The first planned instance with a module and a name, from a position on.
pub open spec fn planned_from(ps: Seq<PlannedView>, f: Name, i: int) -> Option<InstanceView>
    decreases ps.len() - i,
{
    if i < 0 || i >= ps.len() {
        None
    } else if ps[i].owner == f.0 && ps[i].instance.name == f.1 {
        Some(ps[i].instance)
    } else {
        planned_from(ps, f, i + 1)
    }
}

/// The code of an instance of a generic function of the library.
pub open spec fn instance_function(l: LibraryView, plan: PlanView, f: Name) -> Option<FunctionView> {
    match planned_from(plan.instances, f, 0) {
        None => None,
        Some(n) => match checked_from(l.checked, f.0, 0) {
            None => None,
            Some(c) => match lir_lowering::function_with_def(c.hir.items, n.orig) {
                Some(HirItemView::Fn { type_params, params, body, .. }) => {
                    let code = lir_lowering::lowered_body(
                        lir_lowering::library_context(
                            c.hir,
                            with_calls(c.typed, plan, f.0),
                            lir_lowering::instance_env(type_params, n.args),
                            Some(n.name),
                        ),
                        params,
                        body,
                    );
                    if code.full {
                        None
                    } else {
                        Some(
                            FunctionView {
                                name: local_name(f),
                                param_tys: lir_lowering::all_erased(n.sig.param_tys),
                                ret: typed::erased(n.sig.ret),
                                instrs: code.instrs,
                            },
                        )
                    }
                },
                _ => None,
            },
        },
    }
}

/// Copies an instance of a generic function.
pub open spec fn copy_generic(l: LibraryView, plan: PlanView, s: LinkState, f: Name) -> LinkState {
    match instance_function(l, plan, f) {
        Some(code) => LinkState {
            prog: with_helper(l, s.prog, f.0, code),
            generic: s.generic.insert(f, local_name(f)),
            ..s
        },
        None => s,
    }
}

/// Copies instances of generic functions in order.
pub open spec fn copy_generics(l: LibraryView, plan: PlanView, s: LinkState, fs: Seq<Name>) -> LinkState
    decreases fs.len(),
{
    if fs.len() == 0 {
        s
    } else {
        copy_generic(l, plan, copy_generics(l, plan, s, fs.drop_last()), fs.last())
    }
}

// ---------------------------------------------------------------------------
// Rewriting
// ---------------------------------------------------------------------------

/// The local name of a function that was copied.
pub open spec fn copied_as(s: LinkState, f: Name) -> Option<Seq<char>> {
    if s.mono.dom().contains(f) {
        Some(s.mono[f])
    } else if s.planned.dom().contains(f) {
        Some(s.planned[f])
    } else if s.generic.dom().contains(f) {
        Some(s.generic[f])
    } else {
        None
    }
}

/// An instruction with a call of a copied helper as a call of the copy.
pub open spec fn rewritten_instr(s: LinkState, x: InstrView) -> InstrView {
    match x {
        InstrView::Call { dst, symbol, args, span, .. } => match copied_as(s, name_of(symbol)) {
            Some(local) => InstrView::Call {
                dst,
                callee: local,
                symbol: FuncSymbolView { module: s.prog.module, function: local },
                args,
                span,
            },
            None => x,
        },
        _ => x,
    }
}

/// Instructions with calls of copied helpers as calls of the copies.
pub open spec fn rewritten_instrs(s: LinkState, xs: Seq<InstrView>) -> Seq<InstrView> {
    Seq::new(xs.len(), |i: int| rewritten_instr(s, xs[i]))
}

/// A program with calls of copied helpers as calls of the copies.
pub open spec fn rewritten(s: LinkState) -> LinkState {
    LinkState {
        prog: LirProgramView {
            functions: Seq::new(
                s.prog.functions.len(),
                |i: int|
                    FunctionView {
                        instrs: rewritten_instrs(s, s.prog.functions[i].instrs),
                        ..s.prog.functions[i]
                    },
            ),
            globals: Seq::new(
                s.prog.globals.len(),
                |i: int|
                    GlobalView {
                        init: rewritten_instrs(s, s.prog.globals[i].init),
                        ..s.prog.globals[i]
                    },
            ),
            ..s.prog
        },
        ..s
    }
}

// ---------------------------------------------------------------------------
// Rounds
// ---------------------------------------------------------------------------

/// A plan, or one of nothing.
pub open spec fn plan_of(plan: Option<PlanView>) -> PlanView {
    match plan {
        Some(p) => p,
        None => PlanView { instances: Seq::empty(), calls: Seq::empty() },
    }
}

/// Whether something that is needed can be copied.
pub open spec fn productive(l: LibraryView, plan: Option<PlanView>, s: LinkState) -> bool {
    let need = needs(l, plan is Some, s);
    ||| sorted_names(need.mono).len() > 0
    ||| exists|i: int|
        0 <= i < sorted_names(need.planned).len() && planned_function(
            l,
            plan_of(plan),
            #[trigger] sorted_names(need.planned)[i],
        ) is Some
    ||| exists|i: int|
        0 <= i < sorted_names(need.generic).len() && instance_function(
            l,
            plan_of(plan),
            #[trigger] sorted_names(need.generic)[i],
        ) is Some
}

/// Copies what is needed.
pub open spec fn copied(l: LibraryView, plan: Option<PlanView>, s: LinkState) -> LinkState {
    let need = needs(l, plan is Some, s);
    copy_generics(
        l,
        plan_of(plan),
        copy_planneds(
            l,
            plan_of(plan),
            copy_monos(l, s, sorted_names(need.mono)),
            sorted_names(need.planned),
        ),
        sorted_names(need.generic),
    )
}

/// One round of linking: what is needed is copied, and calls are rewritten.
pub open spec fn round(l: LibraryView, plan: Option<PlanView>, s: LinkState) -> LinkState {
    rewritten(copied(l, plan, s))
}

/// A number of rounds.
pub open spec fn rounds(l: LibraryView, plan: Option<PlanView>, s: LinkState, k: nat) -> LinkState
    decreases k,
{
    if k == 0 {
        s
    } else {
        round(l, plan, rounds(l, plan, s, (k - 1) as nat))
    }
}

/// Whether a number of rounds is the first after which nothing more can be
/// copied.
pub open spec fn settles_after(l: LibraryView, plan: Option<PlanView>, s: LinkState, k: nat) -> bool {
    &&& !productive(l, plan, rounds(l, plan, s, k))
    &&& forall|j: nat| j < k ==> productive(l, plan, #[trigger] rounds(l, plan, s, j))
}

/// A program before linking.
pub open spec fn unlinked(p: LirProgramView) -> LinkState {
    LinkState { prog: p, mono: Map::empty(), planned: Map::empty(), generic: Map::empty() }
}

/// Whether instructions hold a call of a function.
pub open spec fn calls(xs: Seq<InstrView>, f: FuncSymbolView) -> bool {
    exists|i: int|
        0 <= i < xs.len() && (#[trigger] xs[i] matches InstrView::Call { symbol, .. } && symbol == f)
}

/// Whether a program holds a call of a function.
pub open spec fn program_calls(p: LirProgramView, f: FuncSymbolView) -> bool {
    (exists|i: int| 0 <= i < p.functions.len() && calls((#[trigger] p.functions[i]).instrs, f))
        || (exists|i: int| 0 <= i < p.globals.len() && calls((#[trigger] p.globals[i]).init, f))
}

/// Whether an import stays after linking. With a plan, an import that is not
/// called any more goes, where something was lowered.
pub open spec fn import_stays(l: LibraryView, plan: bool, s: LinkState, f: FuncSymbolView) -> bool {
    if !plan {
        !l.bodies.dom().contains(name_of(f))
    } else {
        !stdlib::is_helper(l, f.module, f.function) && !stdlib::is_generic_instance(
            l,
            f.module,
            f.function,
        ) && (!lowered_some(s) || program_calls(s.prog, f))
    }
}

/// The imports that stay after linking.
pub open spec fn staying_imports(l: LibraryView, plan: bool, s: LinkState, fs: Seq<FuncSymbolView>) -> Seq<FuncSymbolView>
    decreases fs.len(),
{
    if fs.len() == 0 {
        Seq::empty()
    } else {
        let front = staying_imports(l, plan, s, fs.drop_last());
        if import_stays(l, plan, s, fs.last()) {
            front.push(fs.last())
        } else {
            front
        }
    }
}

/// The linked program.
pub open spec fn linked(l: LibraryView, plan: bool, s: LinkState) -> LirProgramView {
    LirProgramView { imports: staying_imports(l, plan, s, s.prog.imports), ..s.prog }
}

// ---------------------------------------------------------------------------
// Linking ends
// ---------------------------------------------------------------------------

/// Whether something was lowered for the program.
pub open spec fn lowered_some(s: LinkState) -> bool {
    exists|f: Name|
        #![trigger s.generic.dom().contains(f)]
        #![trigger s.planned.dom().contains(f)]
        s.generic.dom().contains(f) || s.planned.dom().contains(f)
}

proof fn nothing_lowered(s: LinkState)
    requires
        s == unlinked(s.prog),
    ensures
        !lowered_some(s),
{
}

proof fn lowering_is_kept(s: LinkState)
    ensures
        lowered_some(rewritten(s)) == lowered_some(s),
{
    let t = rewritten(s);
    if lowered_some(s) {
        let f = choose|f: Name|
            #![trigger s.generic.dom().contains(f)]
            #![trigger s.planned.dom().contains(f)]
            s.generic.dom().contains(f) || s.planned.dom().contains(f);
        assert(t.generic.dom().contains(f) || t.planned.dom().contains(f));
    }
    if lowered_some(t) {
        let f = choose|f: Name|
            #![trigger t.generic.dom().contains(f)]
            #![trigger t.planned.dom().contains(f)]
            t.generic.dom().contains(f) || t.planned.dom().contains(f);
        assert(s.generic.dom().contains(f) || s.planned.dom().contains(f));
    }
}

/// Whether what is needed was not copied before, and what is needed as code is
/// there.
spec fn need_is_fresh(l: LibraryView, s: LinkState, need: Need) -> bool {
    &&& forall|f: Name| #[trigger]
        need.mono.contains(f) ==> l.bodies.dom().contains(f) && !s.mono.dom().contains(f)
    &&& forall|f: Name| #[trigger] need.planned.contains(f) ==> !s.planned.dom().contains(f)
    &&& forall|f: Name| #[trigger] need.generic.contains(f) ==> !s.generic.dom().contains(f)
}

proof fn pushed_member(ns: Seq<Name>, f: Name)
    ensures
        forall|g: Name| #[trigger] ns.push(f).contains(g) <==> ns.contains(g) || g == f,
{
    assert forall|g: Name| #[trigger] ns.push(f).contains(g) <==> ns.contains(g) || g == f by {
        if ns.push(f).contains(g) {
            let i = choose|i: int| 0 <= i < ns.push(f).len() && ns.push(f)[i] == g;
            if i < ns.len() {
                assert(ns[i] == g);
            }
        }
        if ns.contains(g) {
            let i = choose|i: int| 0 <= i < ns.len() && ns[i] == g;
            assert(ns.push(f)[i] == g);
        }
        assert(ns.push(f)[ns.len() as int] == f);
    }
}

proof fn call_is_fresh(l: LibraryView, plan: bool, s: LinkState, need: Need, f: Name)
    requires
        need_is_fresh(l, s, need),
    ensures
        need_is_fresh(l, s, with_call(l, plan, s, need, f)),
{
    pushed_member(need.mono, f);
    pushed_member(need.planned, f);
    pushed_member(need.generic, f);
}

proof fn instrs_are_fresh(l: LibraryView, plan: bool, s: LinkState, need: Need, xs: Seq<InstrView>)
    requires
        need_is_fresh(l, s, need),
    ensures
        need_is_fresh(l, s, with_instrs(l, plan, s, need, xs)),
    decreases xs.len(),
{
    if xs.len() > 0 {
        instrs_are_fresh(l, plan, s, need, xs.drop_last());
        let mid = with_instrs(l, plan, s, need, xs.drop_last());
        match xs.last() {
            InstrView::Call { symbol, .. } => call_is_fresh(l, plan, s, mid, name_of(symbol)),
            _ => {},
        }
    }
}

proof fn functions_are_fresh(
    l: LibraryView,
    plan: bool,
    s: LinkState,
    need: Need,
    fs: Seq<FunctionView>,
)
    requires
        need_is_fresh(l, s, need),
    ensures
        need_is_fresh(l, s, with_functions(l, plan, s, need, fs)),
    decreases fs.len(),
{
    if fs.len() > 0 {
        functions_are_fresh(l, plan, s, need, fs.drop_last());
        let mid = with_functions(l, plan, s, need, fs.drop_last());
        instrs_are_fresh(l, plan, s, mid, fs.last().instrs);
    }
}

proof fn globals_are_fresh(
    l: LibraryView,
    plan: bool,
    s: LinkState,
    need: Need,
    gs: Seq<GlobalView>,
)
    requires
        need_is_fresh(l, s, need),
    ensures
        need_is_fresh(l, s, with_globals(l, plan, s, need, gs)),
    decreases gs.len(),
{
    if gs.len() > 0 {
        globals_are_fresh(l, plan, s, need, gs.drop_last());
        let mid = with_globals(l, plan, s, need, gs.drop_last());
        instrs_are_fresh(l, plan, s, mid, gs.last().init);
    }
}

proof fn needs_are_fresh(l: LibraryView, plan: bool, s: LinkState)
    ensures
        need_is_fresh(l, s, needs(l, plan, s)),
{
    functions_are_fresh(l, plan, s, no_need(), s.prog.functions);
    let mid = with_functions(l, plan, s, no_need(), s.prog.functions);
    globals_are_fresh(l, plan, s, mid, s.prog.globals);
}

proof fn sorted_are_members(ns: Seq<Name>)
    ensures
        sorted_names(ns).len() == ns.len(),
        forall|i: int| 0 <= i < ns.len() ==> ns.contains(#[trigger] sorted_names(ns)[i]),
{
    order::sorting_sorts(pair_keys(ns), ns.len());
    let o = order::sorted_order(pair_keys(ns), ns.len());
    assert forall|i: int| 0 <= i < ns.len() implies ns.contains(#[trigger] sorted_names(ns)[i]) by {
        assert(o.contains(o[i]));
        assert(ns[o[i]] == sorted_names(ns)[i]);
    }
}

proof fn monos_keep(l: LibraryView, s: LinkState, fs: Seq<Name>)
    ensures
        copy_monos(l, s, fs).planned == s.planned,
        copy_monos(l, s, fs).generic == s.generic,
        s.mono.dom().subset_of(copy_monos(l, s, fs).mono.dom()),
        forall|i: int|
            0 <= i < fs.len() ==> copy_monos(l, s, fs).mono.dom().contains(#[trigger] fs[i]),
    decreases fs.len(),
{
    if fs.len() > 0 {
        monos_keep(l, s, fs.drop_last());
        assert forall|i: int| 0 <= i < fs.len() implies copy_monos(l, s, fs).mono.dom().contains(
            #[trigger] fs[i],
        ) by {
            if i < fs.len() - 1 {
                assert(fs.drop_last()[i] == fs[i]);
            }
        }
    }
}

proof fn planneds_keep(l: LibraryView, ps: PlanView, s: LinkState, fs: Seq<Name>)
    ensures
        copy_planneds(l, ps, s, fs).mono == s.mono,
        copy_planneds(l, ps, s, fs).generic == s.generic,
        s.planned.dom().subset_of(copy_planneds(l, ps, s, fs).planned.dom()),
        forall|i: int|
            0 <= i < fs.len() && planned_function(l, ps, #[trigger] fs[i]) is Some ==> copy_planneds(
                l,
                ps,
                s,
                fs,
            ).planned.dom().contains(fs[i]),
        (forall|i: int| 0 <= i < fs.len() ==> planned_function(l, ps, #[trigger] fs[i]) is None)
            ==> copy_planneds(l, ps, s, fs) == s,
    decreases fs.len(),
{
    if fs.len() > 0 {
        planneds_keep(l, ps, s, fs.drop_last());
        assert(forall|i: int| 0 <= i < fs.len() - 1 ==> fs.drop_last()[i] == #[trigger] fs[i]);
        if forall|i: int| 0 <= i < fs.len() ==> planned_function(l, ps, #[trigger] fs[i]) is None {
            assert forall|i: int| 0 <= i < fs.drop_last().len() implies planned_function(
                l,
                ps,
                #[trigger] fs.drop_last()[i],
            ) is None by {
                assert(planned_function(l, ps, fs[i]) is None);
            }
            assert(planned_function(l, ps, fs[fs.len() - 1]) is None);
        }
        assert forall|i: int|
            0 <= i < fs.len() && planned_function(l, ps, #[trigger] fs[i]) is Some implies copy_planneds(
            l,
            ps,
            s,
            fs,
        ).planned.dom().contains(fs[i]) by {
            if i < fs.len() - 1 {
                assert(fs.drop_last()[i] == fs[i]);
            }
        }
    }
}

proof fn generics_keep(l: LibraryView, ps: PlanView, s: LinkState, fs: Seq<Name>)
    ensures
        copy_generics(l, ps, s, fs).mono == s.mono,
        copy_generics(l, ps, s, fs).planned == s.planned,
        s.generic.dom().subset_of(copy_generics(l, ps, s, fs).generic.dom()),
        forall|i: int|
            0 <= i < fs.len() && instance_function(l, ps, #[trigger] fs[i]) is Some
                ==> copy_generics(l, ps, s, fs).generic.dom().contains(fs[i]),
        (forall|i: int| 0 <= i < fs.len() ==> instance_function(l, ps, #[trigger] fs[i]) is None)
            ==> copy_generics(l, ps, s, fs) == s,
    decreases fs.len(),
{
    if fs.len() > 0 {
        generics_keep(l, ps, s, fs.drop_last());
        if forall|i: int| 0 <= i < fs.len() ==> instance_function(l, ps, #[trigger] fs[i]) is None {
            assert forall|i: int| 0 <= i < fs.drop_last().len() implies instance_function(
                l,
                ps,
                #[trigger] fs.drop_last()[i],
            ) is None by {
                assert(instance_function(l, ps, fs[i]) is None);
            }
            assert(instance_function(l, ps, fs[fs.len() - 1]) is None);
        }
        assert forall|i: int|
            0 <= i < fs.len() && instance_function(l, ps, #[trigger] fs[i]) is Some implies copy_generics(
            l,
            ps,
            s,
            fs,
        ).generic.dom().contains(fs[i]) by {
            if i < fs.len() - 1 {
                assert(fs.drop_last()[i] == fs[i]);
            }
        }
    }
}

/// The functions of a plan.
pub open spec fn plan_names(ps: Seq<PlannedView>) -> Set<Name>
    decreases ps.len(),
{
    if ps.len() == 0 {
        Set::empty()
    } else {
        plan_names(ps.drop_last()).insert((ps.last().owner, ps.last().instance.name))
    }
}

/// The functions of items.
pub open spec fn item_names(module: Seq<char>, items: Seq<HirItemView>) -> Set<Name>
    decreases items.len(),
{
    if items.len() == 0 {
        Set::empty()
    } else {
        match items.last() {
            HirItemView::Fn { name, .. } => item_names(module, items.drop_last()).insert(
                (module, name),
            ),
            _ => item_names(module, items.drop_last()),
        }
    }
}

/// The functions of checked modules.
pub open spec fn checked_names(cs: Seq<CheckedView>) -> Set<Name>
    decreases cs.len(),
{
    if cs.len() == 0 {
        Set::empty()
    } else {
        checked_names(cs.drop_last()).union(
            item_names(cs.last().hir.module, cs.last().hir.items),
        )
    }
}

/// All functions that can be copied.
pub open spec fn universe(l: LibraryView, ps: PlanView) -> Set<Name> {
    l.bodies.dom().union(plan_names(ps.instances)).union(checked_names(l.checked))
}

proof fn plan_names_are_finite(ps: Seq<PlannedView>)
    ensures
        plan_names(ps).finite(),
    decreases ps.len(),
{
    if ps.len() > 0 {
        plan_names_are_finite(ps.drop_last());
    }
}

proof fn item_names_are_finite(module: Seq<char>, items: Seq<HirItemView>)
    ensures
        item_names(module, items).finite(),
    decreases items.len(),
{
    if items.len() > 0 {
        item_names_are_finite(module, items.drop_last());
    }
}

proof fn checked_names_are_finite(cs: Seq<CheckedView>)
    ensures
        checked_names(cs).finite(),
    decreases cs.len(),
{
    if cs.len() > 0 {
        checked_names_are_finite(cs.drop_last());
        item_names_are_finite(cs.last().hir.module, cs.last().hir.items);
    }
}

proof fn universe_is_finite(l: LibraryView, ps: PlanView)
    requires
        l.bodies.dom().finite(),
    ensures
        universe(l, ps).finite(),
{
    plan_names_are_finite(ps.instances);
    checked_names_are_finite(l.checked);
}

proof fn plan_has(ps: Seq<PlannedView>, i: int)
    requires
        0 <= i < ps.len(),
    ensures
        plan_names(ps).contains((ps[i].owner, ps[i].instance.name)),
    decreases ps.len(),
{
    if i < ps.len() - 1 {
        plan_has(ps.drop_last(), i);
    }
}

proof fn items_have(module: Seq<char>, items: Seq<HirItemView>, i: int, name: Seq<char>)
    requires
        0 <= i < items.len(),
        items[i] matches HirItemView::Fn { name: own, .. } && own == name,
    ensures
        item_names(module, items).contains((module, name)),
    decreases items.len(),
{
    if i < items.len() - 1 {
        items_have(module, items.drop_last(), i, name);
    }
}

proof fn checked_have(cs: Seq<CheckedView>, i: int, f: Name)
    requires
        0 <= i < cs.len(),
        item_names(cs[i].hir.module, cs[i].hir.items).contains(f),
    ensures
        checked_names(cs).contains(f),
    decreases cs.len(),
{
    if i < cs.len() - 1 {
        checked_have(cs.drop_last(), i, f);
    }
}

proof fn found_in_plan(ps: Seq<PlannedView>, f: Name, i: int)
    requires
        0 <= i,
        planned_from(ps, f, i) is Some,
    ensures
        plan_names(ps).contains(f),
    decreases ps.len() - i,
{
    if ps[i].owner == f.0 && ps[i].instance.name == f.1 {
        plan_has(ps, i);
    } else {
        found_in_plan(ps, f, i + 1);
    }
}

proof fn found_checked(cs: Seq<CheckedView>, module: Seq<char>, i: int) -> (k: int)
    requires
        0 <= i,
        checked_from(cs, module, i) is Some,
    ensures
        0 <= k < cs.len(),
        cs[k] == checked_from(cs, module, i)->0,
        cs[k].hir.module == module,
    decreases cs.len() - i,
{
    if cs[i].hir.module == module {
        i
    } else {
        found_checked(cs, module, i + 1)
    }
}

proof fn found_plain(items: Seq<HirItemView>, function: Seq<char>, i: int) -> (k: int)
    requires
        0 <= i,
        plain_fn_from(items, function, i) is Some,
    ensures
        0 <= k < items.len(),
        is_plain_fn(items[k], function),
    decreases items.len() - i,
{
    if is_plain_fn(items[i], function) {
        i
    } else {
        found_plain(items, function, i + 1)
    }
}

proof fn copies_are_known(l: LibraryView, ps: PlanView, f: Name)
    ensures
        planned_function(l, ps, f) is Some ==> universe(l, ps).contains(f),
        instance_function(l, ps, f) is Some ==> universe(l, ps).contains(f),
{
    if planned_function(l, ps, f) is Some {
        let k = found_checked(l.checked, f.0, 0);
        let items = l.checked[k].hir.items;
        let j = found_plain(items, f.1, 0);
        items_have(f.0, items, j, f.1);
        checked_have(l.checked, k, f);
    }
    if instance_function(l, ps, f) is Some {
        found_in_plan(ps.instances, f, 0);
    }
}

/// How many functions are not in a set.
pub open spec fn outside(u: Set<Name>, d: Set<Name>) -> nat {
    u.difference(d).len()
}

/// How much can be copied at most.
pub open spec fn work_left(l: LibraryView, ps: PlanView, s: LinkState) -> nat {
    outside(universe(l, ps), s.mono.dom()) + outside(universe(l, ps), s.planned.dom()) + outside(
        universe(l, ps),
        s.generic.dom(),
    )
}

proof fn outside_shrinks(u: Set<Name>, d: Set<Name>, e: Set<Name>)
    requires
        u.finite(),
        d.subset_of(e),
    ensures
        outside(u, e) <= outside(u, d),
        (exists|f: Name| #[trigger] e.contains(f) && u.contains(f) && !d.contains(f)) ==> outside(
            u,
            e,
        ) < outside(u, d),
{
    let a = u.difference(d);
    let b = u.difference(e);
    assert(b.subset_of(a));
    vstd::set_lib::lemma_len_subset(b, a);
    if exists|f: Name| #[trigger] e.contains(f) && u.contains(f) && !d.contains(f) {
        let f = choose|f: Name| #[trigger] e.contains(f) && u.contains(f) && !d.contains(f);
        assert(b.subset_of(a.remove(f)));
        vstd::set_lib::lemma_len_subset(b, a.remove(f));
    }
}

proof fn productive_rounds_end(l: LibraryView, plan: Option<PlanView>, s: LinkState)
    requires
        universe(l, plan_of(plan)).finite(),
        productive(l, plan, s),
    ensures
        work_left(l, plan_of(plan), round(l, plan, s)) < work_left(l, plan_of(plan), s),
{
    let ps = plan_of(plan);
    let u = universe(l, ps);
    let need = needs(l, plan is Some, s);
    let m = sorted_names(need.mono);
    let p = sorted_names(need.planned);
    let g = sorted_names(need.generic);
    needs_are_fresh(l, plan is Some, s);
    sorted_are_members(need.mono);
    sorted_are_members(need.planned);
    sorted_are_members(need.generic);
    let s1 = copy_monos(l, s, m);
    let s2 = copy_planneds(l, ps, s1, p);
    let s3 = copy_generics(l, ps, s2, g);
    monos_keep(l, s, m);
    planneds_keep(l, ps, s1, p);
    generics_keep(l, ps, s2, g);
    outside_shrinks(u, s.mono.dom(), s3.mono.dom());
    outside_shrinks(u, s.planned.dom(), s3.planned.dom());
    outside_shrinks(u, s.generic.dom(), s3.generic.dom());
    if m.len() > 0 {
        assert(need.mono.contains(m[0]));
        assert(s3.mono.dom().contains(m[0]));
        assert(u.contains(m[0]));
    } else if exists|i: int| 0 <= i < p.len() && planned_function(l, ps, #[trigger] p[i]) is Some {
        let i = choose|i: int| 0 <= i < p.len() && planned_function(l, ps, #[trigger] p[i]) is Some;
        copies_are_known(l, ps, p[i]);
        assert(need.planned.contains(p[i]));
        assert(s3.planned.dom().contains(p[i]));
    } else {
        let i = choose|i: int|
            0 <= i < g.len() && instance_function(l, ps, #[trigger] g[i]) is Some;
        copies_are_known(l, ps, g[i]);
        assert(need.generic.contains(g[i]));
        assert(s3.generic.dom().contains(g[i]));
    }
}

// ---------------------------------------------------------------------------
// The linker
// ---------------------------------------------------------------------------

impl Clone for Global {
    fn clone(&self) -> (r: Self)
        ensures
            r@ == self@,
    {
        Global {
            id: self.id,
            name: self.name.clone(),
            ty: self.ty.clone(),
            init: clone_vec(&self.init),
            result: self.result,
            span: self.span,
        }
    }
}

impl Clone for Member {
    fn clone(&self) -> (r: Self)
        ensures
            r@ == self@,
    {
        Member(self.0.clone(), self.1.clone())
    }
}

fn has_member(ns: &Vec<Member>, f: &Member) -> (r: bool)
    ensures
        r == model::all(ns@).contains(f@),
{
    let mut i: usize = 0;
    while i < ns.len()
        invariant
            i <= ns@.len(),
            forall|k: int| 0 <= k < i ==> model::all(ns@)[k] != f@,
        decreases ns@.len() - i,
    {
        if str_eq(ns[i].0.as_str(), f.0.as_str()) && str_eq(ns[i].1.as_str(), f.1.as_str()) {
            assert(model::all(ns@)[i as int] == f@);
            return true;
        }
        i += 1;
    }
    false
}

/// What is needed, as lists.
struct NeedLists {
    mono: Vec<Member>,
    planned: Vec<Member>,
    generic: Vec<Member>,
}

impl NeedLists {
    spec fn st(&self) -> Need {
        Need {
            mono: model::all(self.mono@),
            planned: model::all(self.planned@),
            generic: model::all(self.generic@),
        }
    }
}

fn sort_members(ns: &Vec<Member>) -> (r: Vec<Member>)
    ensures
        model::all(r@) == sorted_names(model::all(ns@)),
{
    let ghost all = model::all(ns@);
    let mut keys: Vec<Vec<String>> = Vec::new();
    let mut i: usize = 0;
    while i < ns.len()
        invariant
            i <= ns@.len(),
            keys@.len() == i,
            forall|k: int|
                0 <= k < i ==> model::all((#[trigger] keys@[k])@) == seq![ns@[k]@.0, ns@[k]@.1],
        decreases ns@.len() - i,
    {
        let mut key: Vec<String> = Vec::new();
        key.push(ns[i].0.clone());
        key.push(ns[i].1.clone());
        assert(model::all(key@) =~= seq![ns@[i as int]@.0, ns@[i as int]@.1]);
        keys.push(key);
        i += 1;
    }
    assert(order::lists_view(keys@) =~= pair_keys(all));
    let order = order_of(&keys);
    proof {
        assert(order::indices(order@).len() == order@.len());
    }
    let mut out: Vec<Member> = Vec::new();
    let mut j: usize = 0;
    while j < order.len()
        invariant
            j <= order@.len(),
            all == model::all(ns@),
            order::indices(order@) == order::sorted_order(pair_keys(all), all.len()),
            sorted_names(all).len() == order@.len(),
            forall|k: int| 0 <= k < order@.len() ==> (#[trigger] order@[k]) < ns@.len(),
            out@.len() == j,
            forall|k: int| 0 <= k < j ==> (#[trigger] out@[k])@ == sorted_names(all)[k],
        decreases order@.len() - j,
    {
        assert(order::indices(order@)[j as int] == order@[j as int]);
        out.push(ns[order[j]].clone());
        j += 1;
    }
    assert(model::all(out@) =~= sorted_names(all));
    out
}

/// The linker at work.
struct Linker<'a> {
    lib: &'a Stdlib,
    plan: Option<&'a MonomorphizationPlan>,
    mono: Table<Member, String>,
    planned: Table<Member, String>,
    generic: Table<Member, String>,
    lowered: bool,
}

spec fn plan_view(p: Option<&MonomorphizationPlan>) -> Option<PlanView> {
    match p {
        Some(p) => Some(p@),
        None => None,
    }
}

impl<'a> Linker<'a> {
    spec fn st(&self, p: LirProgramView) -> LinkState {
        LinkState { prog: p, mono: self.mono@, planned: self.planned@, generic: self.generic@ }
    }

    fn need_call(&self, prog: &LirProgram, need: &mut NeedLists, symbol: &FuncSymbol)
        ensures
            final(need).st() == with_call(
                self.lib@,
                self.plan is Some,
                self.st(prog@),
                old(need).st(),
                name_of(symbol@),
            ),
    {
        let f = Member(symbol.module.clone(), symbol.function.clone());
        if self.lib.bodies.contains(&f) && !self.mono.contains(&f) && !has_member(
            &need.mono,
            &f,
        ) {
            need.mono.push(f);
            return ;
        }
        if self.plan.is_none() {
            return ;
        }
        if self.lib.is_concrete_generic_instance(f.0.as_str(), f.1.as_str())
            && !self.generic.contains(&f) && !has_member(&need.generic, &f) {
            need.generic.push(f);
        } else if stdlib::split_dollar(f.1.as_str()).is_none() && self.lib.is_plan_mono(
            f.0.as_str(),
            f.1.as_str(),
        ) && !self.mono.contains(&f) && !self.planned.contains(&f) && !has_member(
            &need.mono,
            &f,
        ) && !has_member(&need.planned, &f) {
            need.planned.push(f);
        }
    }

    fn need_instrs(&self, prog: &LirProgram, need: &mut NeedLists, xs: &Vec<Instr>)
        ensures
            final(need).st() == with_instrs(
                self.lib@,
                self.plan is Some,
                self.st(prog@),
                old(need).st(),
                model::all(xs@),
            ),
    {
        let ghost all = model::all(xs@);
        let mut i: usize = 0;
        assert(all.take(0).len() == 0);
        while i < xs.len()
            invariant
                i <= xs@.len(),
                all == model::all(xs@),
                need.st() == with_instrs(
                    self.lib@,
                    self.plan is Some,
                    self.st(prog@),
                    old(need).st(),
                    all.take(i as int),
                ),
            decreases xs@.len() - i,
        {
            assert(all.take(i + 1).drop_last() =~= all.take(i as int));
            assert(all.take(i + 1).last() == all[i as int]);
            match &xs[i] {
                Instr::Call { symbol, .. } => self.need_call(prog, need, symbol),
                _ => {},
            }
            i += 1;
        }
        assert(all.take(all.len() as int) =~= all);
    }

    fn needs(&self, prog: &LirProgram) -> (r: NeedLists)
        ensures
            r.st() == needs(self.lib@, self.plan is Some, self.st(prog@)),
    {
        let mut need = NeedLists { mono: Vec::new(), planned: Vec::new(), generic: Vec::new() };
        let ghost fs = model::all(prog.functions@);
        let ghost gs = model::all(prog.globals@);
        let ghost plan = self.plan is Some;
        let mut i: usize = 0;
        assert(fs.take(0).len() == 0);
        while i < prog.functions.len()
            invariant
                i <= prog.functions@.len(),
                fs == model::all(prog.functions@),
                plan == self.plan is Some,
                need.st() == with_functions(
                    self.lib@,
                    plan,
                    self.st(prog@),
                    no_need(),
                    fs.take(i as int),
                ),
            decreases prog.functions@.len() - i,
        {
            assert(fs.take(i + 1).drop_last() =~= fs.take(i as int));
            assert(fs.take(i + 1).last() == fs[i as int]);
            self.need_instrs(prog, &mut need, &prog.functions[i].instrs);
            i += 1;
        }
        assert(fs.take(fs.len() as int) =~= fs);
        let ghost half = need.st();
        let mut j: usize = 0;
        assert(gs.take(0).len() == 0);
        while j < prog.globals.len()
            invariant
                j <= prog.globals@.len(),
                gs == model::all(prog.globals@),
                plan == self.plan is Some,
                need.st() == with_globals(
                    self.lib@,
                    plan,
                    self.st(prog@),
                    half,
                    gs.take(j as int),
                ),
            decreases prog.globals@.len() - j,
        {
            assert(gs.take(j + 1).drop_last() =~= gs.take(j as int));
            assert(gs.take(j + 1).last() == gs[j as int]);
            self.need_instrs(prog, &mut need, &prog.globals[j].init);
            j += 1;
        }
        assert(gs.take(gs.len() as int) =~= gs);
        need
    }
}

fn add_imports(have: &mut Vec<FunctionImport>, more: &Vec<FunctionImport>)
    ensures
        model::all(final(have)@) == with_imports(model::all(old(have)@), model::all(more@)),
{
    let ghost all = model::all(more@);
    let mut i: usize = 0;
    assert(all.take(0).len() == 0);
    while i < more.len()
        invariant
            i <= more@.len(),
            all == model::all(more@),
            model::all(have@) == with_imports(model::all(old(have)@), all.take(i as int)),
        decreases more@.len() - i,
    {
        assert(all.take(i + 1).drop_last() =~= all.take(i as int));
        assert(all.take(i + 1).last() == all[i as int]);
        let mut known = false;
        let mut j: usize = 0;
        while j < have.len()
            invariant
                j <= have@.len(),
                i < more@.len(),
                known == exists|k: int|
                    0 <= k < j && #[trigger] model::all(have@)[k] == more@[i as int]@,
            decreases have@.len() - j,
        {
            if lir::same_symbol(&have[j].symbol, &more[i].symbol) {
                assert(model::all(have@)[j as int] == more@[i as int]@);
                known = true;
            }
            j += 1;
        }
        if !known {
            have.push(more[i].clone());
        }
        i += 1;
    }
    assert(all.take(all.len() as int) =~= all);
}

fn add_helper(lib: &Stdlib, prog: &mut LirProgram, module: &String, f: Function)
    ensures
        final(prog)@ == with_helper(lib@, old(prog)@, module@, f@),
{
    prog.functions.push(f);
    match lib.module_imports.get(module) {
        Some(more) => add_imports(&mut prog.imports, &more.0),
        None => {},
    }
}

fn find_checked<'a>(cs: &'a Vec<CheckedModule>, module: &str) -> (r: Option<&'a CheckedModule>)
    ensures
        match r {
            Some(c) => checked_from(model::all(cs@), module@, 0) == Some(c@),
            None => checked_from(model::all(cs@), module@, 0) is None,
        },
{
    let ghost all = model::all(cs@);
    let mut i: usize = 0;
    while i < cs.len()
        invariant
            i <= cs@.len(),
            all == model::all(cs@),
            checked_from(all, module@, 0) == checked_from(all, module@, i as int),
        decreases cs@.len() - i,
    {
        assert(all[i as int] == cs@[i as int]@);
        if str_eq(cs[i].hir.module.as_str(), module) {
            return Some(&cs[i]);
        }
        i += 1;
    }
    None
}

fn find_plain_fn<'a>(items: &'a Vec<HirItem>, function: &str) -> (r: Option<&'a HirItem>)
    ensures
        match r {
            Some(f) => plain_fn_from(model::all(items@), function@, 0) == Some(f@),
            None => plain_fn_from(model::all(items@), function@, 0) is None,
        },
{
    let ghost all = model::all(items@);
    let mut i: usize = 0;
    while i < items.len()
        invariant
            i <= items@.len(),
            all == model::all(items@),
            plain_fn_from(all, function@, 0) == plain_fn_from(all, function@, i as int),
        decreases items@.len() - i,
    {
        assert(all[i as int] == items@[i as int]@);
        let hit = match &items[i] {
            HirItem::Fn { name, type_params, .. } => type_params.len() == 0 && str_eq(
                name.as_str(),
                function,
            ),
            _ => false,
        };
        if hit {
            return Some(&items[i]);
        }
        i += 1;
    }
    None
}

fn find_planned<'a>(ps: &'a Vec<PlannedInstance>, f: &Member) -> (r: Option<&'a Instance>)
    ensures
        match r {
            Some(n) => planned_from(model::all(ps@), f@, 0) == Some(n@),
            None => planned_from(model::all(ps@), f@, 0) is None,
        },
{
    let ghost all = model::all(ps@);
    let mut i: usize = 0;
    while i < ps.len()
        invariant
            i <= ps@.len(),
            all == model::all(ps@),
            planned_from(all, f@, 0) == planned_from(all, f@, i as int),
        decreases ps@.len() - i,
    {
        assert(all[i as int] == ps@[i as int]@);
        if str_eq(ps[i].owner.as_str(), f.0.as_str()) && str_eq(
            ps[i].instance.name.as_str(),
            f.1.as_str(),
        ) {
            return Some(&ps[i].instance);
        }
        i += 1;
    }
    None
}

fn find_calls<'a>(cs: &'a Vec<PlannedCalls>, owner: &str) -> (r: Option<&'a PlannedCalls>)
    ensures
        match r {
            Some(c) => calls_from(model::all(cs@), owner@, 0) == Some(c@),
            None => calls_from(model::all(cs@), owner@, 0) is None,
        },
{
    let ghost all = model::all(cs@);
    let mut i: usize = 0;
    while i < cs.len()
        invariant
            i <= cs@.len(),
            all == model::all(cs@),
            calls_from(all, owner@, 0) == calls_from(all, owner@, i as int),
        decreases cs@.len() - i,
    {
        assert(all[i as int] == cs@[i as int]@);
        if str_eq(cs[i].owner.as_str(), owner) {
            return Some(&cs[i]);
        }
        i += 1;
    }
    None
}

fn no_calls(owner: &str) -> (r: PlannedCalls)
    ensures
        r@.root_calls == Map::<u32, Seq<char>>::empty(),
        r@.inst_calls == Map::<(Seq<char>, u32), Seq<char>>::empty(),
{
    PlannedCalls { owner: owned(owner), root_calls: Table::new(), inst_calls: Table::new() }
}

fn lower_planned(lib: &Stdlib, plan: &MonomorphizationPlan, f: &Member) -> (r: Option<Function>)
    ensures
        model::opt(r) == planned_function(lib@, plan@, f@),
{
    let none = no_calls(f.0.as_str());
    let calls = match find_calls(&plan.calls, f.0.as_str()) {
        Some(calls) => calls,
        None => &none,
    };
    let c = match find_checked(&lib.checked, f.0.as_str()) {
        Some(c) => c,
        None => {
            return None;
        },
    };
    match find_plain_fn(&c.hir.items, f.1.as_str()) {
        Some(HirItem::Fn { def, params, body, .. }) => {
            let env: Table<String, Ty> = Table::new();
            let instrs = match lower_library_body(
                &c.hir,
                &c.typed,
                &calls.root_calls,
                &calls.inst_calls,
                &env,
                None,
                params,
                body,
            ) {
                Some(xs) => xs,
                None => {
                    return None;
                },
            };
            let name = mangle(f.0.as_str(), f.1.as_str());
            let sig = match def {
                Some(d) => c.typed.func_sigs.get(&d.0),
                None => None,
            };
            match sig {
                Some(sig) => Some(
                    Function {
                        name,
                        param_tys: erase_all(&sig.param_tys),
                        ret: sig.ret.erase_capability(),
                        instrs,
                    },
                ),
                None => Some(
                    Function { name, param_tys: annotated_types(params), ret: Ty::Error, instrs },
                ),
            }
        },
        _ => None,
    }
}

fn lower_instance(lib: &Stdlib, plan: &MonomorphizationPlan, f: &Member) -> (r: Option<Function>)
    ensures
        model::opt(r) == instance_function(lib@, plan@, f@),
{
    let none = no_calls(f.0.as_str());
    let calls = match find_calls(&plan.calls, f.0.as_str()) {
        Some(calls) => calls,
        None => &none,
    };
    let n = match find_planned(&plan.instances, f) {
        Some(n) => n,
        None => {
            return None;
        },
    };
    let c = match find_checked(&lib.checked, f.0.as_str()) {
        Some(c) => c,
        None => {
            return None;
        },
    };
    match find_function(&c.hir.items, n.orig) {
        Some(HirItem::Fn { type_params, params, body, .. }) => {
            let env = make_env(type_params, &n.args);
            match lower_library_body(
                &c.hir,
                &c.typed,
                &calls.root_calls,
                &calls.inst_calls,
                &env,
                Some(n.name.as_str()),
                params,
                body,
            ) {
                Some(instrs) => Some(
                    Function {
                        name: mangle(f.0.as_str(), f.1.as_str()),
                        param_tys: erase_all(&n.sig.param_tys),
                        ret: n.sig.ret.erase_capability(),
                        instrs,
                    },
                ),
                None => None,
            }
        },
        _ => None,
    }
}

impl<'a> Linker<'a> {
    fn copy_monos(&mut self, prog: &mut LirProgram, fs: &Vec<Member>)
        requires
            forall|i: int|
                0 <= i < fs@.len() ==> old(self).lib@.bodies.dom().contains(
                    #[trigger] model::all(fs@)[i],
                ),
        ensures
            final(self).lib == old(self).lib,
            final(self).plan == old(self).plan,
            final(self).lowered == old(self).lowered,
            final(self).st(final(prog)@) == copy_monos(
                old(self).lib@,
                old(self).st(old(prog)@),
                model::all(fs@),
            ),
    {
        let ghost all = model::all(fs@);
        let ghost start = self.st(prog@);
        let mut i: usize = 0;
        assert(all.take(0).len() == 0);
        while i < fs.len()
            invariant
                i <= fs@.len(),
                all == model::all(fs@),
                self.lib == old(self).lib,
                self.plan == old(self).plan,
                self.lowered == old(self).lowered,
                forall|i: int|
                    0 <= i < fs@.len() ==> old(self).lib@.bodies.dom().contains(#[trigger] all[i]),
                self.st(prog@) == copy_monos(old(self).lib@, start, all.take(i as int)),
            decreases fs@.len() - i,
        {
            assert(all.take(i + 1).drop_last() =~= all.take(i as int));
            assert(all.take(i + 1).last() == all[i as int]);
            assert(old(self).lib@.bodies.dom().contains(all[i as int]));
            let local = mangle(fs[i].0.as_str(), fs[i].1.as_str());
            match self.lib.bodies.get(&fs[i]) {
                Some(body) => {
                    let mut copy = body.clone();
                    copy.name = local.clone();
                    add_helper(self.lib, prog, &fs[i].0, copy);
                },
                None => {},
            }
            self.mono.insert(fs[i].clone(), local);
            i += 1;
        }
        assert(all.take(all.len() as int) =~= all);
    }

    fn copy_planneds(&mut self, prog: &mut LirProgram, fs: &Vec<Member>) -> (r: bool)
        ensures
            final(self).lib == old(self).lib,
            final(self).plan == old(self).plan,
            final(self).lowered == (old(self).lowered || r),
            final(self).st(final(prog)@) == copy_planneds(
                old(self).lib@,
                plan_of(plan_view(old(self).plan)),
                old(self).st(old(prog)@),
                model::all(fs@),
            ),
            r == exists|i: int|
                0 <= i < fs@.len() && planned_function(
                    old(self).lib@,
                    plan_of(plan_view(old(self).plan)),
                    #[trigger] model::all(fs@)[i],
                ) is Some,
    {
        let ghost all = model::all(fs@);
        let ghost start = self.st(prog@);
        let ghost ps = plan_of(plan_view(self.plan));
        let none = MonomorphizationPlan { instances: Vec::new(), calls: Vec::new() };
        let plan = match self.plan {
            Some(plan) => plan,
            None => &none,
        };
        assert(plan@.instances =~= ps.instances && plan@.calls =~= ps.calls);
        let mut some = false;
        let mut i: usize = 0;
        assert(all.take(0).len() == 0);
        while i < fs.len()
            invariant
                i <= fs@.len(),
                all == model::all(fs@),
                self.lib == old(self).lib,
                self.plan == old(self).plan,
                plan@ == ps,
                self.lowered == (old(self).lowered || some),
                self.st(prog@) == copy_planneds(old(self).lib@, ps, start, all.take(i as int)),
                some == exists|k: int|
                    0 <= k < i && planned_function(old(self).lib@, ps, #[trigger] all[k]) is Some,
            decreases fs@.len() - i,
        {
            assert(all.take(i + 1).drop_last() =~= all.take(i as int));
            assert(all.take(i + 1).last() == all[i as int]);
            match lower_planned(self.lib, plan, &fs[i]) {
                Some(f) => {
                    assert(planned_function(old(self).lib@, ps, all[i as int]) is Some);
                    add_helper(self.lib, prog, &fs[i].0, f);
                    self.planned.insert(
                        fs[i].clone(),
                        mangle(fs[i].0.as_str(), fs[i].1.as_str()),
                    );
                    self.lowered = true;
                    some = true;
                },
                None => {},
            }
            i += 1;
        }
        assert(all.take(all.len() as int) =~= all);
        some
    }

    fn copy_generics(&mut self, prog: &mut LirProgram, fs: &Vec<Member>) -> (r: bool)
        ensures
            final(self).lib == old(self).lib,
            final(self).plan == old(self).plan,
            final(self).lowered == (old(self).lowered || r),
            final(self).st(final(prog)@) == copy_generics(
                old(self).lib@,
                plan_of(plan_view(old(self).plan)),
                old(self).st(old(prog)@),
                model::all(fs@),
            ),
            r == exists|i: int|
                0 <= i < fs@.len() && instance_function(
                    old(self).lib@,
                    plan_of(plan_view(old(self).plan)),
                    #[trigger] model::all(fs@)[i],
                ) is Some,
    {
        let ghost all = model::all(fs@);
        let ghost start = self.st(prog@);
        let ghost ps = plan_of(plan_view(self.plan));
        let mut some = false;
        let mut i: usize = 0;
        assert(all.take(0).len() == 0);
        while i < fs.len()
            invariant
                i <= fs@.len(),
                all == model::all(fs@),
                self.lib == old(self).lib,
                self.plan == old(self).plan,
                ps == plan_of(plan_view(self.plan)),
                self.lowered == (old(self).lowered || some),
                self.st(prog@) == copy_generics(old(self).lib@, ps, start, all.take(i as int)),
                some == exists|k: int|
                    0 <= k < i && instance_function(old(self).lib@, ps, #[trigger] all[k]) is Some,
            decreases fs@.len() - i,
        {
            assert(all.take(i + 1).drop_last() =~= all.take(i as int));
            assert(all.take(i + 1).last() == all[i as int]);
            let code = match self.plan {
                Some(plan) => lower_instance(self.lib, plan, &fs[i]),
                None => None,
            };
            match code {
                Some(f) => {
                    assert(instance_function(old(self).lib@, ps, all[i as int]) is Some);
                    add_helper(self.lib, prog, &fs[i].0, f);
                    self.generic.insert(
                        fs[i].clone(),
                        mangle(fs[i].0.as_str(), fs[i].1.as_str()),
                    );
                    self.lowered = true;
                    some = true;
                },
                None => {},
            }
            i += 1;
        }
        assert(all.take(all.len() as int) =~= all);
        some
    }

    fn copied_as(&self, symbol: &FuncSymbol, p: Ghost<LirProgramView>) -> (r: Option<String>)
        ensures
            model::opt(r) == copied_as(self.st(p@), name_of(symbol@)),
    {
        let f = Member(symbol.module.clone(), symbol.function.clone());
        match self.mono.get(&f) {
            Some(s) => Some(s.clone()),
            None => match self.planned.get(&f) {
                Some(s) => Some(s.clone()),
                None => match self.generic.get(&f) {
                    Some(s) => Some(s.clone()),
                    None => None,
                },
            },
        }
    }

    fn rewrite_instrs(&self, xs: &mut Vec<Instr>, owner: &String, p: Ghost<LirProgramView>)
        requires
            p@.module == owner@,
        ensures
            model::all(final(xs)@) == rewritten_instrs(self.st(p@), model::all(old(xs)@)),
    {
        let ghost all = model::all(xs@);
        let mut i: usize = 0;
        while i < xs.len()
            invariant
                i <= xs@.len(),
                xs@.len() == all.len(),
                p@.module == owner@,
                forall|k: int|
                    0 <= k < i ==> (#[trigger] xs@[k])@ == rewritten_instrs(self.st(p@), all)[k],
                forall|k: int| i <= k < all.len() ==> (#[trigger] xs@[k])@ == all[k],
            decreases xs@.len() - i,
        {
            let fresh = match &xs[i] {
                Instr::Call { dst, symbol, args, span, .. } => match self.copied_as(symbol, p) {
                    Some(local) => Some(
                        Instr::Call {
                            dst: *dst,
                            callee: local.clone(),
                            symbol: FuncSymbol { module: owner.clone(), function: local },
                            args: lir::clone_regs(args),
                            span: *span,
                        },
                    ),
                    None => None,
                },
                _ => None,
            };
            assert(xs@[i as int]@ == all[i as int]);
            match fresh {
                Some(x) => xs.set(i, x),
                None => {},
            }
            i += 1;
        }
        assert(model::all(xs@) =~= rewritten_instrs(self.st(p@), all));
    }

    fn rewrite(&self, prog: &mut LirProgram)
        ensures
            self.st(final(prog)@) == rewritten(self.st(old(prog)@)),
    {
        let ghost p = prog@;
        let ghost s = self.st(p);
        let owner = prog.module.clone();
        let mut functions: Vec<Function> = Vec::new();
        let mut i: usize = 0;
        while i < prog.functions.len()
            invariant
                i <= prog.functions@.len(),
                p == prog@,
                p.module == owner@,
                s == self.st(p),
                functions@.len() == i,
                forall|k: int|
                    0 <= k < i ==> (#[trigger] functions@[k])@ == rewritten(s).prog.functions[k],
            decreases prog.functions@.len() - i,
        {
            let mut f = prog.functions[i].clone();
            self.rewrite_instrs(&mut f.instrs, &owner, Ghost(p));
            functions.push(f);
            i += 1;
        }
        let mut globals: Vec<Global> = Vec::new();
        let mut j: usize = 0;
        while j < prog.globals.len()
            invariant
                j <= prog.globals@.len(),
                p == prog@,
                p.module == owner@,
                s == self.st(p),
                globals@.len() == j,
                forall|k: int|
                    0 <= k < j ==> (#[trigger] globals@[k])@ == rewritten(s).prog.globals[k],
            decreases prog.globals@.len() - j,
        {
            let mut g = prog.globals[j].clone();
            self.rewrite_instrs(&mut g.init, &owner, Ghost(p));
            globals.push(g);
            j += 1;
        }
        assert(model::all(functions@) =~= rewritten(s).prog.functions);
        assert(model::all(globals@) =~= rewritten(s).prog.globals);
        prog.functions = functions;
        prog.globals = globals;
    }

    /// One round, unless nothing can be copied.
    fn round(&mut self, prog: &mut LirProgram) -> (r: bool)
        ensures
            final(self).lib == old(self).lib,
            final(self).plan == old(self).plan,
            r == productive(old(self).lib@, plan_view(old(self).plan), old(self).st(old(prog)@)),
            r ==> final(self).st(final(prog)@) == round(
                old(self).lib@,
                plan_view(old(self).plan),
                old(self).st(old(prog)@),
            ),
            !r ==> final(self).st(final(prog)@) == old(self).st(old(prog)@),
            old(self).lowered == lowered_some(old(self).st(old(prog)@)) ==> final(self).lowered
                == lowered_some(final(self).st(final(prog)@)),
    {
        let ghost l = self.lib@;
        let ghost plan = plan_view(self.plan);
        let ghost s = self.st(prog@);
        let need = self.needs(prog);
        let mono = sort_members(&need.mono);
        let planned = sort_members(&need.planned);
        let generic = sort_members(&need.generic);
        proof {
            needs_are_fresh(l, plan is Some, s);
            let n = needs(l, plan is Some, s);
            sorted_are_members(n.mono);
            sorted_are_members(n.planned);
            sorted_are_members(n.generic);
        }
        let n: usize = mono.len();
        self.copy_monos(prog, &mono);
        let a = self.copy_planneds(prog, &planned);
        let b = self.copy_generics(prog, &generic);
        proof {
            let nd = needs(l, plan is Some, s);
            let s1 = copy_monos(l, s, sorted_names(nd.mono));
            let s2 = copy_planneds(l, plan_of(plan), s1, sorted_names(nd.planned));
            monos_keep(l, s, sorted_names(nd.mono));
            planneds_keep(l, plan_of(plan), s1, sorted_names(nd.planned));
            generics_keep(l, plan_of(plan), s2, sorted_names(nd.generic));
        }
        if n == 0 && !a && !b {
            proof {
                let nd = needs(l, plan is Some, s);
                let s1 = copy_monos(l, s, sorted_names(nd.mono));
                assert(s1 == s);
                assert(copy_planneds(l, plan_of(plan), s1, sorted_names(nd.planned)) == s1);
                assert(copied(l, plan, s) == s);
            }
            return false;
        }
        proof {
            let nd = needs(l, plan is Some, s);
            let ps = sorted_names(nd.planned);
            let gs = sorted_names(nd.generic);
            let s1 = copy_monos(l, s, sorted_names(nd.mono));
            let s2 = copy_planneds(l, plan_of(plan), s1, ps);
            let s3 = copied(l, plan, s);
            if a {
                let i = choose|i: int|
                    0 <= i < ps.len() && planned_function(l, plan_of(plan), #[trigger] ps[i]) is Some;
                assert(s3.planned.dom().contains(ps[i]));
            } else {
                assert(s2 == s1);
            }
            if b {
                let i = choose|i: int|
                    0 <= i < gs.len() && instance_function(
                        l,
                        plan_of(plan),
                        #[trigger] gs[i],
                    ) is Some;
                assert(s3.generic.dom().contains(gs[i]));
            } else {
                assert(s3 == s2);
            }
            if lowered_some(s) {
                let f = choose|f: Name|
                    #![trigger s.generic.dom().contains(f)]
                    #![trigger s.planned.dom().contains(f)]
                    s.generic.dom().contains(f) || s.planned.dom().contains(f);
                assert(s3.generic.dom().contains(f) || s3.planned.dom().contains(f));
            }
            if lowered_some(s3) && !a && !b {
                let f = choose|f: Name|
                    #![trigger s3.generic.dom().contains(f)]
                    #![trigger s3.planned.dom().contains(f)]
                    s3.generic.dom().contains(f) || s3.planned.dom().contains(f);
                assert(s.generic.dom().contains(f) || s.planned.dom().contains(f));
            }
            if old(self).lowered == lowered_some(s) {
                assert(self.lowered == lowered_some(s3));
            }
            lowering_is_kept(s3);
        }
        self.rewrite(prog);
        true
    }

    fn import_stays(&self, prog: &LirProgram, f: &FuncSymbol) -> (r: bool)
        requires
            self.lowered == lowered_some(self.st(prog@)),
        ensures
            r == import_stays(self.lib@, self.plan is Some, self.st(prog@), f@),
    {
        if self.plan.is_none() {
            return !self.lib.bodies.contains(&Member(f.module.clone(), f.function.clone()));
        }
        !self.lib.is_helper(f.module.as_str(), f.function.as_str())
            && !self.lib.is_concrete_generic_instance(f.module.as_str(), f.function.as_str()) && (
        !self.lowered || program_has_call(prog, f))
    }

    fn finish(&self, prog: &mut LirProgram)
        requires
            self.lowered == lowered_some(self.st(old(prog)@)),
        ensures
            final(prog)@ == linked(self.lib@, self.plan is Some, self.st(old(prog)@)),
    {
        let ghost all = model::all(prog.imports@);
        let ghost s = self.st(prog@);
        let mut kept: Vec<FunctionImport> = Vec::new();
        let mut i: usize = 0;
        assert(all.take(0).len() == 0);
        while i < prog.imports.len()
            invariant
                i <= prog.imports@.len(),
                *prog == *old(prog),
                all == model::all(prog.imports@),
                s == self.st(prog@),
                self.lowered == lowered_some(self.st(prog@)),
                model::all(kept@) == staying_imports(
                    self.lib@,
                    self.plan is Some,
                    s,
                    all.take(i as int),
                ),
            decreases prog.imports@.len() - i,
        {
            assert(all.take(i + 1).drop_last() =~= all.take(i as int));
            assert(all.take(i + 1).last() == all[i as int]);
            if self.import_stays(prog, &prog.imports[i].symbol) {
                kept.push(prog.imports[i].clone());
            }
            i += 1;
        }
        assert(all.take(all.len() as int) =~= all);
        prog.imports = kept;
    }

    fn run(&mut self, prog: &mut LirProgram)
        requires
            old(self).st(old(prog)@) == unlinked(old(prog)@),
            !old(self).lowered,
        ensures
            exists|k: nat|
                settles_after(
                    old(self).lib@,
                    plan_view(old(self).plan),
                    unlinked(old(prog)@),
                    k,
                ) && final(prog)@ == linked(
                    old(self).lib@,
                    old(self).plan is Some,
                    #[trigger] rounds(
                        old(self).lib@,
                        plan_view(old(self).plan),
                        unlinked(old(prog)@),
                        k,
                    ),
                ),
    {
        let ghost l = self.lib@;
        let ghost plan = plan_view(self.plan);
        let ghost start = unlinked(prog@);
        let ghost mut k: nat = 0;
        proof {
            nothing_lowered(start);
            self.lib.bodies.finite();
            universe_is_finite(l, plan_of(plan));
        }
        loop
            invariant
                l == old(self).lib@,
                plan == plan_view(old(self).plan),
                start == unlinked(old(prog)@),
                self.lib == old(self).lib,
                self.plan == old(self).plan,
                self.st(prog@) == rounds(l, plan, start, k),
                self.lowered == lowered_some(self.st(prog@)),
                forall|j: nat| j < k ==> productive(l, plan, #[trigger] rounds(l, plan, start, j)),
                universe(l, plan_of(plan)).finite(),
            decreases work_left(l, plan_of(plan), self.st(prog@)),
        {
            let ghost s = self.st(prog@);
            let more = self.round(prog);
            if !more {
                assert(settles_after(l, plan, start, k));
                self.finish(prog);
                return ;
            }
            proof {
                assert(self.st(prog@) == rounds(l, plan, start, k + 1));
                productive_rounds_end(l, plan, s);
                k = k + 1;
            }
        }
    }
}

fn has_call(xs: &Vec<Instr>, f: &FuncSymbol) -> (r: bool)
    ensures
        r == calls(model::all(xs@), f@),
{
    let ghost all = model::all(xs@);
    let mut i: usize = 0;
    while i < xs.len()
        invariant
            i <= xs@.len(),
            all == model::all(xs@),
            forall|k: int|
                0 <= k < i ==> !(#[trigger] all[k] matches InstrView::Call { symbol, .. } && symbol
                    == f@),
        decreases xs@.len() - i,
    {
        assert(all[i as int] == xs@[i as int]@);
        let hit = match &xs[i] {
            Instr::Call { symbol, .. } => lir::same_symbol(symbol, f),
            _ => false,
        };
        if hit {
            return true;
        }
        i += 1;
    }
    false
}

fn program_has_call(prog: &LirProgram, f: &FuncSymbol) -> (r: bool)
    ensures
        r == program_calls(prog@, f@),
{
    let ghost fs = prog@.functions;
    let ghost gs = prog@.globals;
    let mut i: usize = 0;
    while i < prog.functions.len()
        invariant
            i <= prog.functions@.len(),
            fs == model::all(prog.functions@),
            forall|k: int| 0 <= k < i ==> !calls((#[trigger] fs[k]).instrs, f@),
        decreases prog.functions@.len() - i,
    {
        assert(fs[i as int] == prog.functions@[i as int]@);
        if has_call(&prog.functions[i].instrs, f) {
            return true;
        }
        i += 1;
    }
    let mut j: usize = 0;
    while j < prog.globals.len()
        invariant
            j <= prog.globals@.len(),
            gs == model::all(prog.globals@),
            gs == prog@.globals,
            forall|k: int| 0 <= k < j ==> !calls((#[trigger] gs[k]).init, f@),
        decreases prog.globals@.len() - j,
    {
        assert(gs[j as int] == prog.globals@[j as int]@);
        if has_call(&prog.globals[j].init, f) {
            return true;
        }
        j += 1;
    }
    false
}

impl Stdlib {
    /// Copies the helpers that a program calls into it, under their local names,
    /// until no call needs another, and drops the imports of helpers.
    pub fn link(&self, prog: &mut LirProgram)
        ensures
            exists|k: nat|
                settles_after(self@, None, unlinked(old(prog)@), k) && final(prog)@ == linked(
                    self@,
                    false,
                    #[trigger] rounds(self@, None, unlinked(old(prog)@), k),
                ),
    {
        let mut l = Linker {
            lib: self,
            plan: None,
            mono: Table::new(),
            planned: Table::new(),
            generic: Table::new(),
            lowered: false,
        };
        l.run(prog);
    }

    /// Copies the helpers that a program calls into it, also instances of generic
    /// helpers and helpers that use them, until nothing more can be copied, and
    /// drops the imports of helpers and those that are not called any more.
    pub fn link_with_plan(&self, prog: &mut LirProgram, plan: &MonomorphizationPlan)
        ensures
            exists|k: nat|
                settles_after(self@, Some(plan@), unlinked(old(prog)@), k) && final(prog)@
                    == linked(
                    self@,
                    true,
                    #[trigger] rounds(self@, Some(plan@), unlinked(old(prog)@), k),
                ),
    {
        let mut l = Linker {
            lib: self,
            plan: Some(plan),
            mono: Table::new(),
            planned: Table::new(),
            generic: Table::new(),
            lowered: false,
        };
        l.run(prog);
    }
}

} // verus!
