//! What holds of every linked program: nothing in it names a helper that can be
//! copied, and each helper was copied once.

use vstd::prelude::*;

use crate::lir::{FuncSymbolView, FunctionView, GlobalView, InstrView, LirProgramView};
use crate::linker::{LinkState, Need, PlanView};
use crate::stdlib::{LibraryView, Name};
use crate::{linker, order, stdlib};

verus! {

// ---------------------------------------------------------------------------
// What is needed
// ---------------------------------------------------------------------------

/// Whether what is needed is listed once, and was not copied before.
spec fn need_is_sound(l: LibraryView, s: LinkState, need: Need) -> bool {
    &&& need.mono.no_duplicates()
    &&& need.planned.no_duplicates()
    &&& need.generic.no_duplicates()
    &&& forall|f: Name| #[trigger]
        need.mono.contains(f) ==> l.bodies.dom().contains(f) && !s.mono.dom().contains(f)
    &&& forall|f: Name| #[trigger] need.planned.contains(f) ==> !s.planned.dom().contains(f)
    &&& forall|f: Name| #[trigger] need.generic.contains(f) ==> !s.generic.dom().contains(f)
}

/// Whether what is needed includes all that was needed before.
spec fn need_grows(a: Need, b: Need) -> bool {
    &&& forall|f: Name| #[trigger] a.mono.contains(f) ==> b.mono.contains(f)
    &&& forall|f: Name| #[trigger] a.planned.contains(f) ==> b.planned.contains(f)
    &&& forall|f: Name| #[trigger] a.generic.contains(f) ==> b.generic.contains(f)
}

/// Whether a function that is called was copied or is needed, where it is one
/// that linking copies.
spec fn is_met(l: LibraryView, plan: bool, s: LinkState, need: Need, f: Name) -> bool {
    &&& l.bodies.dom().contains(f) ==> s.mono.dom().contains(f) || need.mono.contains(f)
    &&& plan && !l.bodies.dom().contains(f) && stdlib::is_generic_instance(l, f.0, f.1)
        ==> s.generic.dom().contains(f) || need.generic.contains(f)
    &&& plan && stdlib::is_plan_mono(l, f.0, f.1) ==> s.mono.dom().contains(f)
        || s.planned.dom().contains(f) || need.planned.contains(f)
}

/// Whether all calls of instructions are met.
spec fn are_met(l: LibraryView, plan: bool, s: LinkState, need: Need, xs: Seq<InstrView>) -> bool {
    forall|i: int|
        0 <= i < xs.len() ==> (#[trigger] xs[i] matches InstrView::Call { symbol, .. } ==> is_met(
            l,
            plan,
            s,
            need,
            linker::name_of(symbol),
        ))
}

proof fn one_more(ns: Seq<Name>, f: Name)
    ensures
        forall|g: Name| #[trigger] ns.push(f).contains(g) <==> ns.contains(g) || g == f,
        ns.no_duplicates() && !ns.contains(f) ==> ns.push(f).no_duplicates(),
{
    let all = ns.push(f);
    assert forall|g: Name| #[trigger] all.contains(g) <==> ns.contains(g) || g == f by {
        if ns.contains(g) {
            let i = choose|i: int| 0 <= i < ns.len() && ns[i] == g;
            assert(all[i] == g);
        }
        if g == f {
            assert(all[ns.len() as int] == g);
        }
        if all.contains(g) {
            let i = choose|i: int| 0 <= i < all.len() && all[i] == g;
            if i < ns.len() {
                assert(ns[i] == g);
            }
        }
    }
}

proof fn call_is_met(l: LibraryView, plan: bool, s: LinkState, need: Need, f: Name)
    requires
        need_is_sound(l, s, need),
    ensures
        need_is_sound(l, s, linker::with_call(l, plan, s, need, f)),
        need_grows(need, linker::with_call(l, plan, s, need, f)),
        is_met(l, plan, s, linker::with_call(l, plan, s, need, f), f),
{
    one_more(need.mono, f);
    one_more(need.planned, f);
    one_more(need.generic, f);
}

proof fn instrs_are_met(l: LibraryView, plan: bool, s: LinkState, need: Need, xs: Seq<InstrView>)
    requires
        need_is_sound(l, s, need),
    ensures
        need_is_sound(l, s, linker::with_instrs(l, plan, s, need, xs)),
        need_grows(need, linker::with_instrs(l, plan, s, need, xs)),
        are_met(l, plan, s, linker::with_instrs(l, plan, s, need, xs), xs),
    decreases xs.len(),
{
    if xs.len() > 0 {
        let front = xs.drop_last();
        instrs_are_met(l, plan, s, need, front);
        let mid = linker::with_instrs(l, plan, s, need, front);
        match xs.last() {
            InstrView::Call { symbol, .. } => call_is_met(
                l,
                plan,
                s,
                mid,
                linker::name_of(symbol),
            ),
            _ => {},
        }
        let all = linker::with_instrs(l, plan, s, need, xs);
        assert(need_grows(mid, all));
        assert forall|i: int| 0 <= i < xs.len() implies (#[trigger] xs[i] matches InstrView::Call {
            symbol,
            ..
        } ==> is_met(l, plan, s, all, linker::name_of(symbol))) by {
            if i < front.len() {
                assert(front[i] == xs[i]);
            }
        }
    }
}

proof fn functions_are_met(
    l: LibraryView,
    plan: bool,
    s: LinkState,
    need: Need,
    fs: Seq<FunctionView>,
)
    requires
        need_is_sound(l, s, need),
    ensures
        need_is_sound(l, s, linker::with_functions(l, plan, s, need, fs)),
        need_grows(need, linker::with_functions(l, plan, s, need, fs)),
        forall|i: int|
            0 <= i < fs.len() ==> are_met(
                l,
                plan,
                s,
                linker::with_functions(l, plan, s, need, fs),
                (#[trigger] fs[i]).instrs,
            ),
    decreases fs.len(),
{
    if fs.len() > 0 {
        let front = fs.drop_last();
        functions_are_met(l, plan, s, need, front);
        let mid = linker::with_functions(l, plan, s, need, front);
        instrs_are_met(l, plan, s, mid, fs.last().instrs);
        let all = linker::with_functions(l, plan, s, need, fs);
        assert forall|i: int| 0 <= i < fs.len() implies are_met(
            l,
            plan,
            s,
            all,
            (#[trigger] fs[i]).instrs,
        ) by {
            if i < front.len() {
                assert(front[i] == fs[i]);
                assert(are_met(l, plan, s, mid, front[i].instrs));
            }
        }
    }
}

proof fn globals_are_met(
    l: LibraryView,
    plan: bool,
    s: LinkState,
    need: Need,
    gs: Seq<GlobalView>,
)
    requires
        need_is_sound(l, s, need),
    ensures
        need_is_sound(l, s, linker::with_globals(l, plan, s, need, gs)),
        need_grows(need, linker::with_globals(l, plan, s, need, gs)),
        forall|i: int|
            0 <= i < gs.len() ==> are_met(
                l,
                plan,
                s,
                linker::with_globals(l, plan, s, need, gs),
                (#[trigger] gs[i]).init,
            ),
    decreases gs.len(),
{
    if gs.len() > 0 {
        let front = gs.drop_last();
        globals_are_met(l, plan, s, need, front);
        let mid = linker::with_globals(l, plan, s, need, front);
        instrs_are_met(l, plan, s, mid, gs.last().init);
        let all = linker::with_globals(l, plan, s, need, gs);
        assert forall|i: int| 0 <= i < gs.len() implies are_met(
            l,
            plan,
            s,
            all,
            (#[trigger] gs[i]).init,
        ) by {
            if i < front.len() {
                assert(front[i] == gs[i]);
                assert(are_met(l, plan, s, mid, front[i].init));
            }
        }
    }
}

proof fn needs_are_met(l: LibraryView, plan: bool, s: LinkState)
    ensures
        need_is_sound(l, s, linker::needs(l, plan, s)),
        forall|i: int|
            0 <= i < s.prog.functions.len() ==> are_met(
                l,
                plan,
                s,
                linker::needs(l, plan, s),
                (#[trigger] s.prog.functions[i]).instrs,
            ),
        forall|i: int|
            0 <= i < s.prog.globals.len() ==> are_met(
                l,
                plan,
                s,
                linker::needs(l, plan, s),
                (#[trigger] s.prog.globals[i]).init,
            ),
{
    functions_are_met(l, plan, s, linker::no_need(), s.prog.functions);
    let mid = linker::with_functions(l, plan, s, linker::no_need(), s.prog.functions);
    globals_are_met(l, plan, s, mid, s.prog.globals);
    let all = linker::needs(l, plan, s);
    assert forall|i: int| 0 <= i < s.prog.functions.len() implies are_met(
        l,
        plan,
        s,
        all,
        (#[trigger] s.prog.functions[i]).instrs,
    ) by {
        assert(are_met(l, plan, s, mid, s.prog.functions[i].instrs));
    }
}

proof fn called_is_met(l: LibraryView, plan: bool, s: LinkState, f: FuncSymbolView)
    requires
        linker::program_calls(s.prog, f),
    ensures
        is_met(l, plan, s, linker::needs(l, plan, s), linker::name_of(f)),
{
    needs_are_met(l, plan, s);
    let p = s.prog;
    if exists|i: int|
        0 <= i < p.functions.len() && linker::calls((#[trigger] p.functions[i]).instrs, f) {
        let i = choose|i: int|
            0 <= i < p.functions.len() && linker::calls((#[trigger] p.functions[i]).instrs, f);
        assert(are_met(l, plan, s, linker::needs(l, plan, s), p.functions[i].instrs));
    } else {
        let i = choose|i: int|
            0 <= i < p.globals.len() && linker::calls((#[trigger] p.globals[i]).init, f);
        assert(are_met(l, plan, s, linker::needs(l, plan, s), p.globals[i].init));
    }
}

proof fn sorted_names_are_the_same(ns: Seq<Name>)
    ensures
        linker::sorted_names(ns).len() == ns.len(),
        ns.no_duplicates() ==> linker::sorted_names(ns).no_duplicates(),
        forall|f: Name| #[trigger] linker::sorted_names(ns).contains(f) <==> ns.contains(f),
{
    let keys = linker::pair_keys(ns);
    order::sorting_sorts(keys, ns.len());
    let o = order::sorted_order(keys, ns.len());
    let all = linker::sorted_names(ns);
    assert forall|i: int| 0 <= i < o.len() implies 0 <= #[trigger] o[i] < ns.len() by {
        assert(o.contains(o[i]));
    }
    assert forall|f: Name| #[trigger] all.contains(f) <==> ns.contains(f) by {
        if all.contains(f) {
            let i = choose|i: int| 0 <= i < all.len() && all[i] == f;
            assert(ns[o[i]] == f);
        }
        if ns.contains(f) {
            let k = choose|k: int| 0 <= k < ns.len() && ns[k] == f;
            assert(o.contains(k));
            let i = choose|i: int| 0 <= i < o.len() && o[i] == k;
            assert(all[i] == f);
        }
    }
    if ns.no_duplicates() {
        assert forall|i: int, j: int| 0 <= i < all.len() && 0 <= j < all.len() && i != j implies all[i]
            != all[j] by {
            assert(o[i] != o[j]);
        }
    }
}

// ---------------------------------------------------------------------------
// What is copied
// ---------------------------------------------------------------------------

/// Whether a helper stands among the functions of a program, from a position on,
/// under its local name.
pub open spec fn stands_in(p: LirProgramView, n: nat, f: Name) -> bool {
    exists|i: int|
        n <= i < p.functions.len() && (#[trigger] p.functions[i]).name == linker::local_name(f)
}

/// Whether the functions of a program are those it had, followed by one for each
/// name that was copied.
pub open spec fn is_tally(l: LibraryView, p: LirProgramView, s: LinkState) -> bool {
    &&& s.mono.dom().finite() && s.planned.dom().finite() && s.generic.dom().finite()
    &&& s.prog.functions.len() == p.functions.len() + s.mono.dom().len() + s.planned.dom().len()
        + s.generic.dom().len()
    &&& s.mono.dom().subset_of(l.bodies.dom())
    &&& forall|i: int|
        0 <= i < p.functions.len() ==> (#[trigger] s.prog.functions[i]).name == p.functions[i].name
    &&& forall|f: Name| #[trigger]
        s.mono.dom().contains(f) ==> stands_in(s.prog, p.functions.len(), f)
    &&& forall|f: Name| #[trigger]
        s.planned.dom().contains(f) ==> stands_in(s.prog, p.functions.len(), f)
    &&& forall|f: Name| #[trigger]
        s.generic.dom().contains(f) ==> stands_in(s.prog, p.functions.len(), f)
}

proof fn still_stands(a: LirProgramView, b: LirProgramView, n: nat)
    requires
        a.functions.len() <= b.functions.len(),
        forall|i: int|
            0 <= i < a.functions.len() ==> (#[trigger] b.functions[i]).name == a.functions[i].name,
    ensures
        forall|f: Name| stands_in(a, n, f) ==> #[trigger] stands_in(b, n, f),
{
    assert forall|f: Name| stands_in(a, n, f) implies #[trigger] stands_in(b, n, f) by {
        let i = choose|i: int|
            n <= i < a.functions.len() && (#[trigger] a.functions[i]).name == linker::local_name(f);
        assert(b.functions[i].name == linker::local_name(f));
    }
}

proof fn helper_stands(l: LibraryView, p: LirProgramView, n: nat, module: Seq<char>, f: Name, code: FunctionView)
    requires
        code.name == linker::local_name(f),
        n <= p.functions.len(),
    ensures
        stands_in(linker::with_helper(l, p, module, code), n, f),
        forall|g: Name| stands_in(p, n, g) ==> #[trigger] stands_in(
            linker::with_helper(l, p, module, code),
            n,
            g,
        ),
{
    let q = linker::with_helper(l, p, module, code);
    assert(q.functions[p.functions.len() as int].name == linker::local_name(f));
    still_stands(p, q, n);
}

proof fn monos_tally(l: LibraryView, p: LirProgramView, s: LinkState, fs: Seq<Name>)
    requires
        is_tally(l, p, s),
        fs.no_duplicates(),
        forall|i: int|
            0 <= i < fs.len() ==> l.bodies.dom().contains(#[trigger] fs[i])
                && !s.mono.dom().contains(fs[i]),
    ensures
        is_tally(l, p, linker::copy_monos(l, s, fs)),
        linker::copy_monos(l, s, fs).planned == s.planned,
        linker::copy_monos(l, s, fs).generic == s.generic,
        linker::copy_monos(l, s, fs).prog.module == s.prog.module,
        forall|f: Name| #[trigger]
            linker::copy_monos(l, s, fs).mono.dom().contains(f) <==> s.mono.dom().contains(f)
                || fs.contains(f),
    decreases fs.len(),
{
    if fs.len() > 0 {
        let front = fs.drop_last();
        let f = fs.last();
        assert forall|i: int| 0 <= i < front.len() implies l.bodies.dom().contains(
            #[trigger] front[i],
        ) && !s.mono.dom().contains(front[i]) by {
            assert(front[i] == fs[i]);
        }
        monos_tally(l, p, s, front);
        let t = linker::copy_monos(l, s, front);
        assert(fs[fs.len() - 1] == f);
        assert(!front.contains(f)) by {
            if front.contains(f) {
                let i = choose|i: int| 0 <= i < front.len() && front[i] == f;
                assert(fs[i] == f);
            }
        }
        assert(!t.mono.dom().contains(f));
        let code = FunctionView { name: linker::local_name(f), ..l.bodies[f] };
        helper_stands(l, t.prog, p.functions.len(), f.0, f, code);
        let u = linker::copy_mono(l, t, f);
        assert(u.mono.dom() =~= t.mono.dom().insert(f));
        one_more(front, f);
        assert(front.push(f) =~= fs);
    }
}

proof fn planneds_tally(
    l: LibraryView,
    ps: PlanView,
    p: LirProgramView,
    s: LinkState,
    fs: Seq<Name>,
)
    requires
        is_tally(l, p, s),
        fs.no_duplicates(),
        forall|i: int| 0 <= i < fs.len() ==> !s.planned.dom().contains(#[trigger] fs[i]),
    ensures
        is_tally(l, p, linker::copy_planneds(l, ps, s, fs)),
        linker::copy_planneds(l, ps, s, fs).mono == s.mono,
        linker::copy_planneds(l, ps, s, fs).generic == s.generic,
        linker::copy_planneds(l, ps, s, fs).prog.module == s.prog.module,
        forall|f: Name| #[trigger]
            linker::copy_planneds(l, ps, s, fs).planned.dom().contains(f) ==> s.planned.dom().contains(f)
                || fs.contains(f),
    decreases fs.len(),
{
    if fs.len() > 0 {
        let front = fs.drop_last();
        let f = fs.last();
        assert forall|i: int| 0 <= i < front.len() implies !s.planned.dom().contains(
            #[trigger] front[i],
        ) by {
            assert(front[i] == fs[i]);
        }
        planneds_tally(l, ps, p, s, front);
        let t = linker::copy_planneds(l, ps, s, front);
        assert(fs[fs.len() - 1] == f);
        assert(!front.contains(f)) by {
            if front.contains(f) {
                let i = choose|i: int| 0 <= i < front.len() && front[i] == f;
                assert(fs[i] == f);
            }
        }
        assert(!t.planned.dom().contains(f));
        match linker::planned_function(l, ps, f) {
            Some(code) => {
                helper_stands(l, t.prog, p.functions.len(), f.0, f, code);
                let u = linker::copy_planned(l, ps, t, f);
                assert(u.planned.dom() =~= t.planned.dom().insert(f));
            },
            None => {},
        }
        one_more(front, f);
        assert(front.push(f) =~= fs);
    }
}

proof fn generics_tally(
    l: LibraryView,
    ps: PlanView,
    p: LirProgramView,
    s: LinkState,
    fs: Seq<Name>,
)
    requires
        is_tally(l, p, s),
        fs.no_duplicates(),
        forall|i: int| 0 <= i < fs.len() ==> !s.generic.dom().contains(#[trigger] fs[i]),
    ensures
        is_tally(l, p, linker::copy_generics(l, ps, s, fs)),
        linker::copy_generics(l, ps, s, fs).mono == s.mono,
        linker::copy_generics(l, ps, s, fs).planned == s.planned,
        linker::copy_generics(l, ps, s, fs).prog.module == s.prog.module,
        forall|f: Name| #[trigger]
            linker::copy_generics(l, ps, s, fs).generic.dom().contains(f)
                ==> s.generic.dom().contains(f) || fs.contains(f),
    decreases fs.len(),
{
    if fs.len() > 0 {
        let front = fs.drop_last();
        let f = fs.last();
        assert forall|i: int| 0 <= i < front.len() implies !s.generic.dom().contains(
            #[trigger] front[i],
        ) by {
            assert(front[i] == fs[i]);
        }
        generics_tally(l, ps, p, s, front);
        let t = linker::copy_generics(l, ps, s, front);
        assert(fs[fs.len() - 1] == f);
        assert(!front.contains(f)) by {
            if front.contains(f) {
                let i = choose|i: int| 0 <= i < front.len() && front[i] == f;
                assert(fs[i] == f);
            }
        }
        assert(!t.generic.dom().contains(f));
        match linker::instance_function(l, ps, f) {
            Some(code) => {
                helper_stands(l, t.prog, p.functions.len(), f.0, f, code);
                let u = linker::copy_generic(l, ps, t, f);
                assert(u.generic.dom() =~= t.generic.dom().insert(f));
            },
            None => {},
        }
        one_more(front, f);
        assert(front.push(f) =~= fs);
    }
}

proof fn round_tallies(
    l: LibraryView,
    plan: Option<PlanView>,
    p: LirProgramView,
    s: LinkState,
)
    requires
        is_tally(l, p, s),
    ensures
        is_tally(l, p, linker::copied(l, plan, s)),
        is_tally(l, p, linker::round(l, plan, s)),
        linker::round(l, plan, s).prog.module == s.prog.module,
        linker::copied(l, plan, s).prog.module == s.prog.module,
{
    let need = linker::needs(l, plan is Some, s);
    let (m, q, g) = (
        linker::sorted_names(need.mono),
        linker::sorted_names(need.planned),
        linker::sorted_names(need.generic),
    );
    needs_are_met(l, plan is Some, s);
    sorted_names_are_the_same(need.mono);
    sorted_names_are_the_same(need.planned);
    sorted_names_are_the_same(need.generic);
    assert forall|i: int| 0 <= i < m.len() implies l.bodies.dom().contains(#[trigger] m[i])
        && !s.mono.dom().contains(m[i]) by {
        assert(m.contains(m[i]));
    }
    monos_tally(l, p, s, m);
    let s1 = linker::copy_monos(l, s, m);
    assert forall|i: int| 0 <= i < q.len() implies !s1.planned.dom().contains(#[trigger] q[i]) by {
        assert(q.contains(q[i]));
    }
    planneds_tally(l, linker::plan_of(plan), p, s1, q);
    let s2 = linker::copy_planneds(l, linker::plan_of(plan), s1, q);
    assert forall|i: int| 0 <= i < g.len() implies !s2.generic.dom().contains(#[trigger] g[i]) by {
        assert(g.contains(g[i]));
    }
    generics_tally(l, linker::plan_of(plan), p, s2, g);
    let c = linker::copied(l, plan, s);
    still_stands(c.prog, linker::rewritten(c).prog, p.functions.len());
}

proof fn rounds_tally(l: LibraryView, plan: Option<PlanView>, p: LirProgramView, k: nat)
    ensures
        is_tally(l, p, linker::rounds(l, plan, linker::unlinked(p), k)),
        linker::rounds(l, plan, linker::unlinked(p), k).prog.module == p.module,
    decreases k,
{
    if k > 0 {
        rounds_tally(l, plan, p, (k - 1) as nat);
        round_tallies(l, plan, p, linker::rounds(l, plan, linker::unlinked(p), (k - 1) as nat));
    }
}

/// Each helper that is linked is copied once: a linked program has the functions
/// that it had, and one more for each name that was copied, under the local name.
pub proof fn helpers_are_copied_once(
    l: LibraryView,
    plan: Option<PlanView>,
    p: LirProgramView,
    k: nat,
    f: Name,
)
    ensures
        ({
            let s = linker::rounds(l, plan, linker::unlinked(p), k);
            let t = linker::linked(l, plan is Some, s);
            &&& t.functions.len() == p.functions.len() + s.mono.dom().len() + s.planned.dom().len()
                + s.generic.dom().len()
            &&& forall|i: int|
                0 <= i < p.functions.len() ==> (#[trigger] t.functions[i]).name
                    == p.functions[i].name
            &&& linker::copied_as(s, f) is Some ==> stands_in(t, p.functions.len(), f)
        }),
{
    rounds_tally(l, plan, p, k);
    let s = linker::rounds(l, plan, linker::unlinked(p), k);
    still_stands(s.prog, linker::linked(l, plan is Some, s), p.functions.len());
}

// ---------------------------------------------------------------------------
// What is named afterwards
// ---------------------------------------------------------------------------

proof fn rewritten_call_is_local(s: LinkState, xs: Seq<InstrView>, f: FuncSymbolView)
    requires
        linker::calls(linker::rewritten_instrs(s, xs), f),
        linker::copied_as(s, linker::name_of(f)) is Some,
    ensures
        f.module == s.prog.module,
{
    let ys = linker::rewritten_instrs(s, xs);
    let i = choose|i: int|
        0 <= i < ys.len() && (#[trigger] ys[i] matches InstrView::Call { symbol, .. } && symbol
            == f);
    assert(ys[i] == linker::rewritten_instr(s, xs[i]));
}

proof fn copied_call_is_local(s: LinkState, f: FuncSymbolView)
    requires
        linker::program_calls(linker::rewritten(s).prog, f),
        linker::copied_as(s, linker::name_of(f)) is Some,
    ensures
        f.module == s.prog.module,
{
    let t = linker::rewritten(s).prog;
    if exists|i: int|
        0 <= i < t.functions.len() && linker::calls((#[trigger] t.functions[i]).instrs, f) {
        let i = choose|i: int|
            0 <= i < t.functions.len() && linker::calls((#[trigger] t.functions[i]).instrs, f);
        rewritten_call_is_local(s, s.prog.functions[i].instrs, f);
    } else {
        let i = choose|i: int|
            0 <= i < t.globals.len() && linker::calls((#[trigger] t.globals[i]).init, f);
        rewritten_call_is_local(s, s.prog.globals[i].init, f);
    }
}

/// A call of a linked program, unless it goes to the program's own module, goes to
/// no helper that is kept as code. With a plan it goes to no instance of a generic
/// helper and to no helper that uses one either, as far as these can be lowered.
pub proof fn linked_programs_call_no_helper(
    l: LibraryView,
    plan: Option<PlanView>,
    p: LirProgramView,
    k: nat,
    f: FuncSymbolView,
)
    requires
        linker::settles_after(l, plan, linker::unlinked(p), k),
        linker::program_calls(
            linker::linked(l, plan is Some, linker::rounds(l, plan, linker::unlinked(p), k)),
            f,
        ),
        f.module != p.module,
    ensures
        !l.bodies.dom().contains(linker::name_of(f)),
        plan is Some && stdlib::is_generic_instance(l, f.module, f.function)
            ==> linker::instance_function(l, linker::plan_of(plan), linker::name_of(f)) is None,
        plan is Some && stdlib::is_plan_mono(l, f.module, f.function) ==> linker::planned_function(
            l,
            linker::plan_of(plan),
            linker::name_of(f),
        ) is None,
{
    let s = linker::rounds(l, plan, linker::unlinked(p), k);
    let need = linker::needs(l, plan is Some, s);
    let n = linker::name_of(f);
    rounds_tally(l, plan, p, k);
    assert(linker::program_calls(s.prog, f));
    called_is_met(l, plan is Some, s, f);
    needs_are_met(l, plan is Some, s);
    sorted_names_are_the_same(need.mono);
    sorted_names_are_the_same(need.planned);
    sorted_names_are_the_same(need.generic);
    if k > 0 {
        let before = linker::rounds(l, plan, linker::unlinked(p), (k - 1) as nat);
        rounds_tally(l, plan, p, (k - 1) as nat);
        round_tallies(l, plan, p, before);
        let c = linker::copied(l, plan, before);
        assert(s == linker::rewritten(c));
        if linker::copied_as(c, n) is Some {
            copied_call_is_local(c, f);
        }
    }
    assert(linker::copied_as(s, n) is None);
    assert(!need.mono.contains(n)) by {
        if need.mono.contains(n) {
            assert(linker::sorted_names(need.mono).contains(n));
        }
    }
    if need.generic.contains(n) {
        let all = linker::sorted_names(need.generic);
        assert(all.contains(n));
        let i = choose|i: int| 0 <= i < all.len() && all[i] == n;
        assert(linker::instance_function(l, linker::plan_of(plan), all[i]) is None);
    }
    if need.planned.contains(n) {
        let all = linker::sorted_names(need.planned);
        assert(all.contains(n));
        let i = choose|i: int| 0 <= i < all.len() && all[i] == n;
        assert(linker::planned_function(l, linker::plan_of(plan), all[i]) is None);
    }
}

proof fn staying_imports_stay(
    l: LibraryView,
    plan: bool,
    s: LinkState,
    fs: Seq<FuncSymbolView>,
    f: FuncSymbolView,
)
    requires
        linker::staying_imports(l, plan, s, fs).contains(f),
    ensures
        linker::import_stays(l, plan, s, f),
    decreases fs.len(),
{
    if fs.len() > 0 {
        let front = linker::staying_imports(l, plan, s, fs.drop_last());
        let all = linker::staying_imports(l, plan, s, fs);
        let i = choose|i: int| 0 <= i < all.len() && all[i] == f;
        if i < front.len() {
            assert(front[i] == f);
            staying_imports_stay(l, plan, s, fs.drop_last(), f);
        }
    }
}

/// A linked program imports no helper that is kept as code, and with a plan no
/// helper at all, neither a template nor an instance of one.
pub proof fn linked_programs_import_no_helper(
    l: LibraryView,
    plan: bool,
    s: LinkState,
    f: FuncSymbolView,
)
    requires
        linker::linked(l, plan, s).imports.contains(f),
    ensures
        !l.bodies.dom().contains(linker::name_of(f)),
        plan ==> !stdlib::is_helper(l, f.module, f.function) && !stdlib::is_generic_instance(
            l,
            f.module,
            f.function,
        ),
{
    staying_imports_stay(l, plan, s, s.prog.imports, f);
}

} // verus!
