//! Code generation: the targets, what they provide, and the text backends.

use vstd::prelude::*;

use crate::diagnostic::{error_view, Diagnostic, DiagnosticView, Severity};
use crate::lir::{show_op, show_reg, show_regs, show_scalar};
use crate::lir::{Function, FunctionView, Instr, InstrView, LirProgram, LirProgramView};
use crate::module::{ModuleSpec, ModuleSpecView};
use crate::nara::NaraVmTarget;
use crate::resolver::{native, native_module, param};
use crate::span::Span;
use crate::text::{cat3, dec_u64, owned, str_eq};
use crate::ty::{TypeView, VlType};
use crate::{lir, model, scope, text};

verus! {

broadcast use crate::model::group_model;

/// What a target makes of a module.
#[derive(Debug)]
pub struct Artifact {
    pub target: String,
    pub text: String,
    pub bytes: Option<Vec<u8>>,
}

/// The content of an [`Artifact`].
pub struct ArtifactView {
    pub target: Seq<char>,
    pub text: Seq<char>,
    pub bytes: Option<Seq<u8>>,
}

impl View for Artifact {
    type V = ArtifactView;

    open spec fn view(&self) -> ArtifactView {
        ArtifactView {
            target: self.target@,
            text: self.text@,
            bytes: match self.bytes {
                Some(b) => Some(b@),
                None => None,
            },
        }
    }
}

/// A target of code generation.
pub trait Target {
    /// The name of the target, as a model.
    spec fn title(&self) -> Seq<char>;

    /// What the target makes of a module, and what it reports, as a model.
    spec fn emitted(&self, p: LirProgramView) -> (Option<ArtifactView>, Seq<DiagnosticView>);

    /// The name of the target.
    fn name(&self) -> (r: &'static str)
        ensures
            r@ == self.title(),
    ;

    /// What the target makes of a module, and what it reports.
    fn emit(&self, prog: &LirProgram) -> (r: (Option<Artifact>, Vec<Diagnostic>))
        ensures
            (model::opt(r.0), model::all(r.1@)) == self.emitted(prog@),
    ;
}

/// The modules that the targets know.
pub open spec fn target_catalog() -> Seq<ModuleSpecView> {
    scope::default_catalog()
}

/// What drivers resolve against for NaraVM: printing, of the module `std`.
pub open spec fn print_module() -> ModuleSpecView {
    scope::target_module(
        seq!["std"@],
        seq![
            scope::target_fn(
                "print"@,
                seq![scope::target_param("value"@, TypeView::String)],
                TypeView::Void,
            ),
            scope::target_fn(
                "print_u64"@,
                seq![scope::target_param("value"@, TypeView::U64)],
                TypeView::Void,
            ),
        ],
    )
}

fn make_print_module() -> (r: ModuleSpec)
    ensures
        r@ == print_module(),
{
    let path = vec![owned("std")];
    let p0 = vec![param("value", VlType::String)];
    let p1 = vec![param("value", VlType::U64)];
    assert(model::all(path@) =~= seq!["std"@]);
    assert(model::all(p0@) =~= seq![scope::target_param("value"@, TypeView::String)]);
    assert(model::all(p1@) =~= seq![scope::target_param("value"@, TypeView::U64)]);
    let exports = vec![native("print", p0, VlType::Void), native("print_u64", p1, VlType::Void)];
    assert(model::all(exports@) =~= seq![
        scope::target_fn(
            "print"@,
            seq![scope::target_param("value"@, TypeView::String)],
            TypeView::Void,
        ),
        scope::target_fn(
            "print_u64"@,
            seq![scope::target_param("value"@, TypeView::U64)],
            TypeView::Void,
        ),
    ]);
    native_module(path, exports)
}

/// The modules that the targets know.
#[verifier::rlimit(60)]
pub fn modules() -> (r: Vec<ModuleSpec>)
    ensures
        model::all(r@) == target_catalog(),
{
    let m0 = native_module(
        vec![owned("std")],
        vec![
            native("print", vec![param("value", VlType::String)], VlType::Void),
            native("println", vec![param("value", VlType::String)], VlType::Void),
            native("print_u64", vec![param("value", VlType::U64)], VlType::Void),
        ],
    );
    let m1 = native_module(
        vec![owned("std"), owned("fs")],
        vec![
            native("open", vec![param("path", VlType::String)], VlType::File),
            native("read", vec![param("file", VlType::File)], VlType::String),
        ],
    );
    let m2 = native_module(
        vec![owned("std"), owned("string")],
        vec![
            native("len", vec![param("value", VlType::String)], VlType::U64),
            native("concat", vec![param("a", VlType::String), param("b", VlType::String)], VlType::String),
            native("eq", vec![param("a", VlType::String), param("b", VlType::String)], VlType::Bool),
            native("to_u64", vec![param("value", VlType::String)], VlType::U64),
            native("hex_to_u64", vec![param("value", VlType::String)], VlType::U64),
        ],
    );
    let m3 = native_module(
        vec![owned("std"), owned("math")],
        vec![
            native("mod_u64", vec![param("a", VlType::U64), param("b", VlType::U64)], VlType::U64),
        ],
    );
    let m4 = native_module(
        vec![owned("std"), owned("fmt")],
        vec![
            native("u64_to_s", vec![param("value", VlType::U64)], VlType::String),
        ],
    );
    let r = vec![m0, m1, m2, m3, m4];
    proof {
        let c = target_catalog();
        assert(m0@.path =~= c[0].path);
        assert(m1@.path =~= c[1].path);
        assert(m2@.path =~= c[2].path);
        assert(m3@.path =~= c[3].path);
        assert(m4@.path =~= c[4].path);
        assert(m0@.exports[0].sig.params =~= c[0].exports[0].sig.params);
        assert(m0@.exports[1].sig.params =~= c[0].exports[1].sig.params);
        assert(m0@.exports[2].sig.params =~= c[0].exports[2].sig.params);
        assert(m0@.exports =~= c[0].exports);
        assert(m1@.exports[0].sig.params =~= c[1].exports[0].sig.params);
        assert(m1@.exports[1].sig.params =~= c[1].exports[1].sig.params);
        assert(m1@.exports =~= c[1].exports);
        assert(m2@.exports[0].sig.params =~= c[2].exports[0].sig.params);
        assert(m2@.exports[1].sig.params =~= c[2].exports[1].sig.params);
        assert(m2@.exports[2].sig.params =~= c[2].exports[2].sig.params);
        assert(m2@.exports[3].sig.params =~= c[2].exports[3].sig.params);
        assert(m2@.exports[4].sig.params =~= c[2].exports[4].sig.params);
        assert(m2@.exports =~= c[2].exports);
        assert(m3@.exports[0].sig.params =~= c[3].exports[0].sig.params);
        assert(m3@.exports =~= c[3].exports);
        assert(m4@.exports[0].sig.params =~= c[4].exports[0].sig.params);
        assert(m4@.exports =~= c[4].exports);
        assert(model::all(r@) =~= c);
    }
    r
}

/// The modules that a target provides.
pub open spec fn catalog_for(target: Seq<char>) -> Seq<ModuleSpecView> {
    if target == "naravm"@ {
        seq![print_module()]
    } else {
        target_catalog()
    }
}

/// The modules that a target provides.
pub fn modules_for_target(target: &str) -> (r: Vec<ModuleSpec>)
    ensures
        model::all(r@) == catalog_for(target@),
{
    if str_eq(target, "naravm") {
        let r = vec![make_print_module()];
        assert(model::all(r@) =~= seq![print_module()]);
        r
    } else {
        modules()
    }
}

/// The names of all targets.
pub fn all_targets() -> (r: Vec<&'static str>)
    ensures
        r@.len() == 3,
        r@[0]@ == "naravm"@,
        r@[1]@ == "dummy"@,
        r@[2]@ == "stackvm"@,
{
    vec![NaraVmTarget.name(), DummyTarget.name(), StackVmTarget.name()]
}

/// What the target with a name makes of a module, and what it reports.
pub open spec fn emitted_by(name: Seq<char>, p: LirProgramView) -> (
    Option<ArtifactView>,
    Seq<DiagnosticView>,
) {
    if name == "naravm"@ {
        NaraVmTarget.emitted(p)
    } else if name == "dummy"@ {
        DummyTarget.emitted(p)
    } else {
        StackVmTarget.emitted(p)
    }
}

/// The target with a name.
pub fn lookup(name: &str) -> (r: Option<Box<dyn Target>>)
    ensures
        r is Some == (name@ == "naravm"@ || name@ == "dummy"@ || name@ == "stackvm"@),
        r matches Some(t) ==> t.title() == name@ && forall|p: LirProgramView| #[trigger]
            t.emitted(p) == emitted_by(name@, p),
{
    if str_eq(name, "naravm") {
        Some(Box::new(NaraVmTarget))
    } else if str_eq(name, "dummy") {
        Some(Box::new(DummyTarget))
    } else if str_eq(name, "stackvm") {
        Some(Box::new(StackVmTarget))
    } else {
        None
    }
}

/// The report of a register that no machine register is left for.
pub open spec fn register_report(span: Span, reg: u32) -> DiagnosticView {
    error_view(
        "codegen: register %"@ + text::dec(reg as nat) + " out of range (compiler bug)"@,
    ).label(span, "emitted here"@).coded("E500"@)
}

/// The report of a register that no machine register is left for.
pub fn reg_oob(span: Span, reg: u32) -> (r: Diagnostic)
    ensures
        r@ == register_report(span, reg),
{
    Diagnostic::error(
        cat3("codegen: register %", dec_u64(reg as u64).as_str(), " out of range (compiler bug)").as_str(),
    ).with_label(span, "emitted here").with_code("E500")
}

/// Indented lines.
pub open spec fn lines(ts: Seq<Seq<char>>) -> Seq<char>
    decreases ts.len(),
{
    if ts.len() == 0 {
        Seq::empty()
    } else {
        lines(ts.drop_last()) + "  "@ + ts.last() + "\n"@
    }
}

fn show_lines(ts: &Vec<String>) -> (r: String)
    ensures
        r@ == lines(model::all(ts@)),
{
    let ghost all = model::all(ts@);
    let mut out = String::new();
    let mut i: usize = 0;
    assert(all.take(0).len() == 0);
    while i < ts.len()
        invariant
            i <= ts@.len(),
            all == model::all(ts@),
            out@ == lines(all.take(i as int)),
        decreases ts@.len() - i,
    {
        assert(all.take(i + 1).drop_last() =~= all.take(i as int));
        assert(all.take(i + 1).last() == all[i as int]);
        out.append("  ");
        out.append(ts[i].as_str());
        out.append("\n");
        i += 1;
    }
    assert(all.take(all.len() as int) =~= all);
    out
}

/// A target that lists the instructions.
pub struct DummyTarget;

/// The text of an instruction.
pub open spec fn dummy_instr(x: InstrView) -> Seq<char> {
    match x {
        InstrView::Const { dst, value, .. } => "mov "@ + lir::reg_text(dst) + ", "@ + lir::scalar_text(value),
        InstrView::StringConst { dst, .. } => "string "@ + lir::reg_text(dst) + " (unsupported)"@,
        InstrView::Param { dst, index, .. } => "param "@ + lir::reg_text(dst) + ", "@ + text::dec(index as nat),
        InstrView::Copy { dst, src, .. } => "mov "@ + lir::reg_text(dst) + ", "@ + lir::reg_text(src),
        InstrView::Not { dst, src, .. } => "not "@ + lir::reg_text(dst) + ", "@ + lir::reg_text(src),
        InstrView::BinOp { dst, op, lhs, rhs, .. } => lir::op_text(op) + " "@ + lir::reg_text(dst) + ", "@ + lir::reg_text(lhs) + ", "@ + lir::reg_text(rhs),
        InstrView::Call { dst, callee, args, .. } => "call "@ + lir::reg_text(dst) + ", "@ + callee + "("@ + lir::regs_text(args) + ")"@,
        InstrView::NewArray { dst, .. } => "new_array "@ + lir::reg_text(dst) + " (unsupported)"@,
        InstrView::ArrayLit { dst, .. } => "array_lit "@ + lir::reg_text(dst) + " (unsupported)"@,
        InstrView::ArrayGet { dst, .. } => "array_get "@ + lir::reg_text(dst) + " (unsupported)"@,
        InstrView::ArraySet { .. } => "array_set (unsupported)"@,
        InstrView::NewObject { dst, .. } => "new_object "@ + lir::reg_text(dst) + " (unsupported)"@,
        InstrView::ObjectGet { dst, .. } => "object_get "@ + lir::reg_text(dst) + " (unsupported)"@,
        InstrView::ObjectSet { .. } => "object_set (unsupported)"@,
        InstrView::Cast { dst, .. } => "cast "@ + lir::reg_text(dst) + " (unsupported)"@,
        InstrView::Ret { src, .. } => "ret "@ + lir::reg_text(src),
        InstrView::GlobalLoad { dst, .. } => "global_load "@ + lir::reg_text(dst) + " (unsupported)"@,
        InstrView::GlobalStore { .. } => "global_store (unsupported)"@,
        InstrView::BranchIfFalse { cond, target, .. } => "branch_if_false "@ + lir::reg_text(cond) + ", L"@ + text::dec(target as nat),
        InstrView::Jump { target, .. } => "jump L"@ + text::dec(target as nat),
        InstrView::Label { id, .. } => "L"@ + text::dec(id as nat) + ":"@,
    }
}

/// The texts of instructions.
pub open spec fn dummy_instrs(xs: Seq<InstrView>) -> Seq<Seq<char>> {
    Seq::new(xs.len(), |i: int| dummy_instr(xs[i]))
}

/// The text of functions.
pub open spec fn dummy_functions(fs: Seq<FunctionView>) -> Seq<char>
    decreases fs.len(),
{
    if fs.len() == 0 {
        Seq::empty()
    } else {
        dummy_functions(fs.drop_last()) + fs.last().name + ":\n"@ + lines(
            dummy_instrs(fs.last().instrs),
        )
    }
}

/// The text of a module.
pub open spec fn dummy_text(p: LirProgramView) -> Seq<char> {
    "; vl dummy target — module "@ + p.module + "\n"@ + dummy_functions(p.functions)
}

fn show_dummy_instr(x: &Instr) -> (r: String)
    ensures
        r@ == dummy_instr(x@),
{
    match x {
        Instr::Const { dst, value, .. } => {
            let mut s = owned("mov ");
            s.append(show_reg(*dst).as_str());
            s.append(", ");
            s.append(show_scalar(*value).as_str());
            s
        },
        Instr::StringConst { dst, .. } => {
            let mut s = owned("string ");
            s.append(show_reg(*dst).as_str());
            s.append(" (unsupported)");
            s
        },
        Instr::Param { dst, index, .. } => {
            let mut s = owned("param ");
            s.append(show_reg(*dst).as_str());
            s.append(", ");
            s.append(dec_u64(*index as u64).as_str());
            s
        },
        Instr::Copy { dst, src, .. } => {
            let mut s = owned("mov ");
            s.append(show_reg(*dst).as_str());
            s.append(", ");
            s.append(show_reg(*src).as_str());
            s
        },
        Instr::Not { dst, src, .. } => {
            let mut s = owned("not ");
            s.append(show_reg(*dst).as_str());
            s.append(", ");
            s.append(show_reg(*src).as_str());
            s
        },
        Instr::BinOp { dst, op, lhs, rhs, .. } => {
            let mut s = owned(show_op(*op));
            s.append(" ");
            s.append(show_reg(*dst).as_str());
            s.append(", ");
            s.append(show_reg(*lhs).as_str());
            s.append(", ");
            s.append(show_reg(*rhs).as_str());
            s
        },
        Instr::Call { dst, callee, args, .. } => {
            let mut s = owned("call ");
            s.append(show_reg(*dst).as_str());
            s.append(", ");
            s.append(callee.as_str());
            s.append("(");
            s.append(show_regs(args).as_str());
            s.append(")");
            s
        },
        Instr::NewArray { dst, .. } => {
            let mut s = owned("new_array ");
            s.append(show_reg(*dst).as_str());
            s.append(" (unsupported)");
            s
        },
        Instr::ArrayLit { dst, .. } => {
            let mut s = owned("array_lit ");
            s.append(show_reg(*dst).as_str());
            s.append(" (unsupported)");
            s
        },
        Instr::ArrayGet { dst, .. } => {
            let mut s = owned("array_get ");
            s.append(show_reg(*dst).as_str());
            s.append(" (unsupported)");
            s
        },
        Instr::ArraySet { .. } => {
            let mut s = owned("array_set (unsupported)");
            s
        },
        Instr::NewObject { dst, .. } => {
            let mut s = owned("new_object ");
            s.append(show_reg(*dst).as_str());
            s.append(" (unsupported)");
            s
        },
        Instr::ObjectGet { dst, .. } => {
            let mut s = owned("object_get ");
            s.append(show_reg(*dst).as_str());
            s.append(" (unsupported)");
            s
        },
        Instr::ObjectSet { .. } => {
            let mut s = owned("object_set (unsupported)");
            s
        },
        Instr::Cast { dst, .. } => {
            let mut s = owned("cast ");
            s.append(show_reg(*dst).as_str());
            s.append(" (unsupported)");
            s
        },
        Instr::Ret { src, .. } => {
            let mut s = owned("ret ");
            s.append(show_reg(*src).as_str());
            s
        },
        Instr::GlobalLoad { dst, .. } => {
            let mut s = owned("global_load ");
            s.append(show_reg(*dst).as_str());
            s.append(" (unsupported)");
            s
        },
        Instr::GlobalStore { .. } => {
            let mut s = owned("global_store (unsupported)");
            s
        },
        Instr::BranchIfFalse { cond, target, .. } => {
            let mut s = owned("branch_if_false ");
            s.append(show_reg(*cond).as_str());
            s.append(", L");
            s.append(dec_u64(*target as u64).as_str());
            s
        },
        Instr::Jump { target, .. } => {
            let mut s = owned("jump L");
            s.append(dec_u64(*target as u64).as_str());
            s
        },
        Instr::Label { id, .. } => {
            let mut s = owned("L");
            s.append(dec_u64(*id as u64).as_str());
            s.append(":");
            s
        },
    }
}

fn show_dummy_functions(fs: &Vec<Function>) -> (r: String)
    ensures
        r@ == dummy_functions(model::all(fs@)),
{
    let ghost all = model::all(fs@);
    let mut out = String::new();
    let mut i: usize = 0;
    assert(all.take(0).len() == 0);
    while i < fs.len()
        invariant
            i <= fs@.len(),
            all == model::all(fs@),
            out@ == dummy_functions(all.take(i as int)),
        decreases fs@.len() - i,
    {
        assert(all.take(i + 1).drop_last() =~= all.take(i as int));
        assert(all.take(i + 1).last() == all[i as int]);
        let xs = &fs[i].instrs;
        let mut texts: Vec<String> = Vec::new();
        let mut j: usize = 0;
        while j < xs.len()
            invariant
                j <= xs@.len(),
                texts@.len() == j,
                forall|k: int|
                    0 <= k < j ==> (#[trigger] texts@[k])@ == dummy_instrs(model::all(xs@))[k],
            decreases xs@.len() - j,
        {
            texts.push(show_dummy_instr(&xs[j]));
            j += 1;
        }
        assert(model::all(texts@) =~= dummy_instrs(model::all(xs@)));
        out.append(fs[i].name.as_str());
        out.append(":\n");
        out.append(show_lines(&texts).as_str());
        i += 1;
    }
    assert(all.take(all.len() as int) =~= all);
    out
}

impl Target for DummyTarget {
    open spec fn title(&self) -> Seq<char> {
        "dummy"@
    }

    open spec fn emitted(&self, p: LirProgramView) -> (Option<ArtifactView>, Seq<DiagnosticView>) {
        (
            Some(ArtifactView { target: "dummy"@, text: dummy_text(p), bytes: None }),
            Seq::empty(),
        )
    }

    fn name(&self) -> (r: &'static str) {
        "dummy"
    }

    fn emit(&self, prog: &LirProgram) -> (r: (Option<Artifact>, Vec<Diagnostic>)) {
        let mut text = cat3("; vl dummy target — module ", prog.module.as_str(), "\n");
        text.append(show_dummy_functions(&prog.functions).as_str());
        let artifact = Artifact { target: owned("dummy"), text, bytes: None };
        assert(artifact@.bytes == None::<Seq<u8>>);
        let diags: Vec<Diagnostic> = Vec::new();
        (Some(artifact), diags)
    }
}

/// A target for a stack machine, as a sketch.
pub struct StackVmTarget;

/// The text of an instruction.
pub open spec fn stackvm_instr(x: InstrView) -> Seq<char> {
    match x {
        InstrView::Const { value, .. } => "push "@ + lir::scalar_text(value),
        InstrView::StringConst { dst, .. } => "string "@ + lir::reg_text(dst) + " (unsupported)"@,
        InstrView::Param { index, .. } => "param "@ + text::dec(index as nat),
        InstrView::Copy { .. } => "dup"@,
        InstrView::Not { .. } => "not"@,
        InstrView::BinOp { op, .. } => lir::op_text(op),
        InstrView::Call { callee, args, .. } => "call "@ + callee + "("@ + lir::regs_text(args) + ")"@,
        InstrView::NewArray { dst, .. } => "new_array "@ + lir::reg_text(dst) + " (unsupported)"@,
        InstrView::ArrayLit { dst, .. } => "array_lit "@ + lir::reg_text(dst) + " (unsupported)"@,
        InstrView::ArrayGet { dst, .. } => "array_get "@ + lir::reg_text(dst) + " (unsupported)"@,
        InstrView::ArraySet { .. } => "array_set (unsupported)"@,
        InstrView::NewObject { dst, .. } => "new_object "@ + lir::reg_text(dst) + " (unsupported)"@,
        InstrView::ObjectGet { dst, .. } => "object_get "@ + lir::reg_text(dst) + " (unsupported)"@,
        InstrView::ObjectSet { .. } => "object_set (unsupported)"@,
        InstrView::Cast { dst, .. } => "cast "@ + lir::reg_text(dst) + " (unsupported)"@,
        InstrView::Ret { .. } => "ret"@,
        InstrView::GlobalLoad { dst, .. } => "global_load "@ + lir::reg_text(dst) + " (unsupported)"@,
        InstrView::GlobalStore { .. } => "global_store (unsupported)"@,
        InstrView::BranchIfFalse { cond, target, .. } => "branch_if_false "@ + lir::reg_text(cond) + " -> L"@ + text::dec(target as nat),
        InstrView::Jump { target, .. } => "jump L"@ + text::dec(target as nat),
        InstrView::Label { id, .. } => "L"@ + text::dec(id as nat) + ":"@,
    }
}

/// The texts of instructions.
pub open spec fn stackvm_instrs(xs: Seq<InstrView>) -> Seq<Seq<char>> {
    Seq::new(xs.len(), |i: int| stackvm_instr(xs[i]))
}

/// The text of functions.
pub open spec fn stackvm_functions(fs: Seq<FunctionView>) -> Seq<char>
    decreases fs.len(),
{
    if fs.len() == 0 {
        Seq::empty()
    } else {
        stackvm_functions(fs.drop_last()) + ".fn "@ + fs.last().name + "\n"@ + lines(
            stackvm_instrs(fs.last().instrs),
        )
    }
}

/// The text of a module.
pub open spec fn stackvm_text(p: LirProgramView) -> Seq<char> {
    "# vl stackvm sketch — module "@ + p.module + "\n"@ + stackvm_functions(p.functions)
}

fn show_stackvm_instr(x: &Instr) -> (r: String)
    ensures
        r@ == stackvm_instr(x@),
{
    match x {
        Instr::Const { value, .. } => {
            let mut s = owned("push ");
            s.append(show_scalar(*value).as_str());
            s
        },
        Instr::StringConst { dst, .. } => {
            let mut s = owned("string ");
            s.append(show_reg(*dst).as_str());
            s.append(" (unsupported)");
            s
        },
        Instr::Param { index, .. } => {
            let mut s = owned("param ");
            s.append(dec_u64(*index as u64).as_str());
            s
        },
        Instr::Copy { .. } => {
            let mut s = owned("dup");
            s
        },
        Instr::Not { .. } => {
            let mut s = owned("not");
            s
        },
        Instr::BinOp { op, .. } => {
            let mut s = owned(show_op(*op));
            s
        },
        Instr::Call { callee, args, .. } => {
            let mut s = owned("call ");
            s.append(callee.as_str());
            s.append("(");
            s.append(show_regs(args).as_str());
            s.append(")");
            s
        },
        Instr::NewArray { dst, .. } => {
            let mut s = owned("new_array ");
            s.append(show_reg(*dst).as_str());
            s.append(" (unsupported)");
            s
        },
        Instr::ArrayLit { dst, .. } => {
            let mut s = owned("array_lit ");
            s.append(show_reg(*dst).as_str());
            s.append(" (unsupported)");
            s
        },
        Instr::ArrayGet { dst, .. } => {
            let mut s = owned("array_get ");
            s.append(show_reg(*dst).as_str());
            s.append(" (unsupported)");
            s
        },
        Instr::ArraySet { .. } => {
            let mut s = owned("array_set (unsupported)");
            s
        },
        Instr::NewObject { dst, .. } => {
            let mut s = owned("new_object ");
            s.append(show_reg(*dst).as_str());
            s.append(" (unsupported)");
            s
        },
        Instr::ObjectGet { dst, .. } => {
            let mut s = owned("object_get ");
            s.append(show_reg(*dst).as_str());
            s.append(" (unsupported)");
            s
        },
        Instr::ObjectSet { .. } => {
            let mut s = owned("object_set (unsupported)");
            s
        },
        Instr::Cast { dst, .. } => {
            let mut s = owned("cast ");
            s.append(show_reg(*dst).as_str());
            s.append(" (unsupported)");
            s
        },
        Instr::Ret { .. } => {
            let mut s = owned("ret");
            s
        },
        Instr::GlobalLoad { dst, .. } => {
            let mut s = owned("global_load ");
            s.append(show_reg(*dst).as_str());
            s.append(" (unsupported)");
            s
        },
        Instr::GlobalStore { .. } => {
            let mut s = owned("global_store (unsupported)");
            s
        },
        Instr::BranchIfFalse { cond, target, .. } => {
            let mut s = owned("branch_if_false ");
            s.append(show_reg(*cond).as_str());
            s.append(" -> L");
            s.append(dec_u64(*target as u64).as_str());
            s
        },
        Instr::Jump { target, .. } => {
            let mut s = owned("jump L");
            s.append(dec_u64(*target as u64).as_str());
            s
        },
        Instr::Label { id, .. } => {
            let mut s = owned("L");
            s.append(dec_u64(*id as u64).as_str());
            s.append(":");
            s
        },
    }
}

fn show_stackvm_functions(fs: &Vec<Function>) -> (r: String)
    ensures
        r@ == stackvm_functions(model::all(fs@)),
{
    let ghost all = model::all(fs@);
    let mut out = String::new();
    let mut i: usize = 0;
    assert(all.take(0).len() == 0);
    while i < fs.len()
        invariant
            i <= fs@.len(),
            all == model::all(fs@),
            out@ == stackvm_functions(all.take(i as int)),
        decreases fs@.len() - i,
    {
        assert(all.take(i + 1).drop_last() =~= all.take(i as int));
        assert(all.take(i + 1).last() == all[i as int]);
        let xs = &fs[i].instrs;
        let mut texts: Vec<String> = Vec::new();
        let mut j: usize = 0;
        while j < xs.len()
            invariant
                j <= xs@.len(),
                texts@.len() == j,
                forall|k: int|
                    0 <= k < j ==> (#[trigger] texts@[k])@ == stackvm_instrs(model::all(xs@))[k],
            decreases xs@.len() - j,
        {
            texts.push(show_stackvm_instr(&xs[j]));
            j += 1;
        }
        assert(model::all(texts@) =~= stackvm_instrs(model::all(xs@)));
        out.append(".fn ");
        out.append(fs[i].name.as_str());
        out.append("\n");
        out.append(show_lines(&texts).as_str());
        i += 1;
    }
    assert(all.take(all.len() as int) =~= all);
    out
}

impl Target for StackVmTarget {
    open spec fn title(&self) -> Seq<char> {
        "stackvm"@
    }

    open spec fn emitted(&self, p: LirProgramView) -> (Option<ArtifactView>, Seq<DiagnosticView>) {
        (
            Some(ArtifactView { target: "stackvm"@, text: stackvm_text(p), bytes: None }),
            seq![sketch_warning()],
        )
    }

    fn name(&self) -> (r: &'static str) {
        "stackvm"
    }

    fn emit(&self, prog: &LirProgram) -> (r: (Option<Artifact>, Vec<Diagnostic>)) {
        let mut text = cat3("# vl stackvm sketch — module ", prog.module.as_str(), "\n");
        text.append(show_stackvm_functions(&prog.functions).as_str());
        let artifact = Artifact { target: owned("stackvm"), text, bytes: None };
        assert(artifact@.bytes == None::<Seq<u8>>);
        let warning = Diagnostic::warning(
            "stackvm backend is a sketch; output is not yet executable",
        ).with_note("track the target-platform decision before hardening this");
        let diags = vec![warning];
        assert(model::all(diags@) =~= self.emitted(prog@).1);
        (Some(artifact), diags)
    }
}

/// The warning that the stack machine target is a sketch.
pub open spec fn sketch_warning() -> DiagnosticView {
    DiagnosticView {
        severity: Severity::Warning,
        ..error_view("stackvm backend is a sketch; output is not yet executable"@)
    }.noted("track the target-platform decision before hardening this"@)
}

} // verus!
