//! The parser: tokens to the syntax tree. It recovers at statement and item
//! boundaries, so one error does not hide what follows it.

use vstd::prelude::*;

use crate::ast::{
    BinOp, BindingKind, DestructureBinding, Expr, ExprView, FunctionDecl, Item, MatchArm,
    ObjectField, Param, Program, Scalar, Stmt, StmtView, TypeParam, UnOp, UnionVariant,
};
use crate::diagnostic::Diagnostic;
use crate::grammar::{Source, State};
use crate::span::Span;
use crate::text::{cat, cat3, owned, str_eq};
use crate::token::{Token, TokenKind};
use crate::ty::{GenericBound, TupleField, TypeView, VlType};
use crate::{ast, grammar, model, token, ty};

verus! {

broadcast use {crate::model::group_model, crate::ast::group_ast};

// ---------------------------------------------------------------------------
// Views of intermediate results
// ---------------------------------------------------------------------------

spec fn opt_name(o: Option<(String, Span)>) -> Option<grammar::Name> {
    match o {
        Some(n) => Some((n.0@, n.1)),
        None => None,
    }
}

spec fn opt_typed(o: Option<(VlType, Span)>) -> Option<(TypeView, Span)> {
    match o {
        Some(t) => Some((t.0@, t.1)),
        None => None,
    }
}

spec fn opt_exprs(o: Option<Vec<Expr>>) -> Option<Seq<ExprView>> {
    match o {
        Some(v) => Some(ast::exprs_view(v@)),
        None => None,
    }
}

spec fn opt_stmts(o: Option<Vec<Stmt>>) -> Option<Seq<StmtView>> {
    match o {
        Some(v) => Some(ast::stmts_view(v@)),
        None => None,
    }
}

spec fn opt_names(o: Option<Vec<(String, Span)>>) -> Option<Seq<grammar::Name>> {
    match o {
        Some(v) => Some(ast::names_view(v@)),
        None => None,
    }
}

spec fn opt_tuple_fields(o: Option<Vec<TupleField>>) -> Option<
    Seq<(Option<Seq<char>>, TypeView)>,
> {
    match o {
        Some(v) => Some(ty::tuple_fields_view(v@)),
        None => None,
    }
}

proof fn tuple_fields_push(s: Seq<TupleField>, f: TupleField)
    ensures
        ty::tuple_fields_view(s.push(f)) == ty::tuple_fields_view(s).push(f@),
{
    assert(ty::tuple_fields_view(s.push(f)) =~= ty::tuple_fields_view(s).push(f@));
}

/// What a binding binds.
enum Target {
    Name(String, Span),
    Fields(Vec<DestructureBinding>),
}

impl View for Target {
    type V = grammar::Target;

    closed spec fn view(&self) -> grammar::Target {
        match *self {
            Target::Name(n, s) => grammar::Target::Name(n@, s),
            Target::Fields(v) => grammar::Target::Fields(model::all(v@)),
        }
    }
}

/// A binding of a name or of the fields of a tuple.
struct Binding {
    target: Target,
    kind: BindingKind,
    ty: Option<VlType>,
    ty_span: Option<Span>,
    value: Expr,
    span: Span,
}

impl View for Binding {
    type V = grammar::Binding;

    closed spec fn view(&self) -> grammar::Binding {
        grammar::Binding {
            target: self.target@,
            kind: self.kind,
            ty: model::opt(self.ty),
            ty_span: self.ty_span,
            value: self.value@,
            span: self.span,
        }
    }
}

impl Binding {
    fn into_stmt(self) -> (r: Stmt)
        ensures
            r@ == grammar::binding_stmt(self@),
    {
        match self.target {
            Target::Name(name, name_span) => Stmt::Let {
                name,
                name_span,
                kind: self.kind,
                ty: self.ty,
                ty_span: self.ty_span,
                value: self.value,
                span: self.span,
            },
            Target::Fields(bindings) => Stmt::Destructure {
                bindings,
                kind: self.kind,
                ty: self.ty,
                ty_span: self.ty_span,
                value: self.value,
                span: self.span,
            },
        }
    }

    fn into_item(self) -> (r: Item)
        ensures
            r@ == grammar::binding_item(self@),
    {
        match self.target {
            Target::Name(name, name_span) => Item::Let {
                name,
                name_span,
                kind: self.kind,
                ty: self.ty,
                ty_span: self.ty_span,
                value: self.value,
                span: self.span,
            },
            Target::Fields(bindings) => Item::Destructure {
                bindings,
                kind: self.kind,
                ty: self.ty,
                ty_span: self.ty_span,
                value: self.value,
                span: self.span,
            },
        }
    }
}

/// The body of an object type.
struct ObjectBody {
    fields: Vec<ObjectField>,
    methods: Vec<FunctionDecl>,
}

impl View for ObjectBody {
    type V = grammar::ObjectBody;

    closed spec fn view(&self) -> grammar::ObjectBody {
        grammar::ObjectBody {
            fields: model::all(self.fields@),
            methods: model::all(self.methods@),
        }
    }
}

// ---------------------------------------------------------------------------
// Helpers
// ---------------------------------------------------------------------------

/// Whether the names hold a name.
pub(crate) fn has_name(names: &Vec<String>, name: &str) -> (r: bool)
    ensures
        r == grammar::has_name(model::all(names@), name@),
{
    let mut i: usize = 0;
    while i < names.len()
        invariant
            i <= names@.len(),
            forall|k: int| 0 <= k < i ==> #[trigger] model::all(names@)[k] != name@,
        decreases names@.len() - i,
    {
        if str_eq(names[i].as_str(), name) {
            assert(model::all(names@)[i as int] == name@);
            return true;
        }
        i += 1;
    }
    false
}

fn problem(message: &str, at: Span, remark: &str, code: &str) -> (r: Diagnostic)
    ensures
        r@ == grammar::problem(message@, at, remark@, code@),
{
    Diagnostic::error(message).with_label(at, remark).with_code(code)
}

fn operator(k: &TokenKind, level: u8) -> (r: Option<BinOp>)
    ensures
        r == grammar::operator(k@, level as nat),
{
    match k {
        TokenKind::Star => if level == 0 { Some(BinOp::Mul) } else { None },
        TokenKind::Slash => if level == 0 { Some(BinOp::Div) } else { None },
        TokenKind::Plus => if level == 1 { Some(BinOp::Add) } else { None },
        TokenKind::Minus => if level == 1 { Some(BinOp::Sub) } else { None },
        TokenKind::Lt => if level == 2 { Some(BinOp::Lt) } else { None },
        TokenKind::LtEq => if level == 2 { Some(BinOp::Le) } else { None },
        TokenKind::Gt => if level == 2 { Some(BinOp::Gt) } else { None },
        TokenKind::GtEq => if level == 2 { Some(BinOp::Ge) } else { None },
        TokenKind::EqEq => if level == 3 { Some(BinOp::Eq) } else { None },
        TokenKind::BangEq => if level == 3 { Some(BinOp::Ne) } else { None },
        TokenKind::AmpAmp => if level == 4 { Some(BinOp::And) } else { None },
        TokenKind::PipePipe => if level == 5 { Some(BinOp::Or) } else { None },
        _ => None,
    }
}

fn literal(k: &TokenKind) -> (r: Option<Scalar>)
    ensures
        r == grammar::literal(k@),
{
    match k {
        TokenKind::Int(v) => Some(Scalar::Int(*v)),
        TokenKind::I64(v) => Some(Scalar::I64(*v)),
        TokenKind::U64(v) => Some(Scalar::U64(*v)),
        TokenKind::F64(v) => Some(Scalar::F64(*v)),
        TokenKind::U8(v) => Some(Scalar::U8(*v)),
        TokenKind::Bool(v) => Some(Scalar::Bool(*v)),
        _ => None,
    }
}

fn binder(k: &TokenKind) -> (r: Option<BindingKind>)
    ensures
        r == grammar::binder(k@),
{
    match k {
        TokenKind::Let => Some(BindingKind::Var),
        TokenKind::Var => Some(BindingKind::Var),
        TokenKind::Val => Some(BindingKind::Val),
        _ => None,
    }
}

/// A dotted path as a variable and the fields read of it.
fn field_chain(path: Vec<String>, head: Span, whole: Span) -> (r: Expr)
    requires
        path@.len() >= 1,
    ensures
        r@ == grammar::field_chain(model::all(path@), head, whole),
{
    let ghost names = model::all(path@);
    let mut first: Vec<String> = Vec::new();
    first.push(path[0].clone());
    let mut base = Expr::Var { path: first, span: head };
    let mut i: usize = 1;
    assert(names.take(1) =~= seq![names[0]]);
    assert(model::all(first@) =~= seq![names[0]]);
    while i < path.len()
        invariant
            1 <= i <= path@.len(),
            names == model::all(path@),
            base@ == grammar::field_chain(names.take(i as int), head, whole),
        decreases path@.len() - i,
    {
        assert(names.take(i + 1).drop_last() =~= names.take(i as int));
        assert(names.take(i + 1).last() == path@[i as int]@);
        base = Expr::Field { base: Box::new(base), name: path[i].clone(), span: whole };
        i += 1;
    }
    assert(names.take(names.len() as int) =~= names);
    base
}

fn param_names(params: &Vec<TypeParam>) -> (r: Vec<String>)
    ensures
        model::all(r@) == grammar::param_names(model::all(params@)),
{
    let mut r: Vec<String> = Vec::new();
    let mut i: usize = 0;
    while i < params.len()
        invariant
            i <= params@.len(),
            r@.len() == i,
            forall|k: int| 0 <= k < i ==> (#[trigger] r@[k])@ == params@[k].name@,
        decreases params@.len() - i,
    {
        r.push(params[i].name.clone());
        i += 1;
    }
    assert(model::all(r@) =~= grammar::param_names(model::all(params@)));
    r
}

fn has_field(fields: &Vec<ObjectField>, name: &str) -> (r: bool)
    ensures
        r == grammar::has_name(grammar::field_names(model::all(fields@)), name@),
{
    let mut i: usize = 0;
    while i < fields.len()
        invariant
            i <= fields@.len(),
            forall|k: int|
                0 <= k < i ==> #[trigger] grammar::field_names(model::all(fields@))[k] != name@,
        decreases fields@.len() - i,
    {
        if str_eq(fields[i].name.as_str(), name) {
            assert(grammar::field_names(model::all(fields@))[i as int] == name@);
            return true;
        }
        i += 1;
    }
    false
}

fn has_variant(variants: &Vec<UnionVariant>, name: &str) -> (r: bool)
    ensures
        r == grammar::has_name(grammar::variant_names(model::all(variants@)), name@),
{
    let mut i: usize = 0;
    while i < variants.len()
        invariant
            i <= variants@.len(),
            forall|k: int|
                0 <= k < i ==> #[trigger] grammar::variant_names(model::all(variants@))[k] != name@,
        decreases variants@.len() - i,
    {
        if str_eq(variants[i].name.as_str(), name) {
            assert(grammar::variant_names(model::all(variants@))[i as int] == name@);
            return true;
        }
        i += 1;
    }
    false
}

fn has_type_param(params: &Vec<TypeParam>, name: &str) -> (r: bool)
    ensures
        r == grammar::has_name(grammar::param_names(model::all(params@)), name@),
{
    let mut i: usize = 0;
    while i < params.len()
        invariant
            i <= params@.len(),
            forall|k: int|
                0 <= k < i ==> #[trigger] grammar::param_names(model::all(params@))[k] != name@,
        decreases params@.len() - i,
    {
        if str_eq(params[i].name.as_str(), name) {
            assert(grammar::param_names(model::all(params@))[i as int] == name@);
            return true;
        }
        i += 1;
    }
    false
}

fn reserved_name(name: &str) -> (r: bool)
    ensures
        r == grammar::reserved_name(name@),
{
    str_eq(name, "Array") || str_eq(name, "U64Array") || str_eq(name, "string") || str_eq(
        name,
        "file",
    ) || VlType::named(name).is_ok()
}

fn plain_names(names: Vec<(String, Span)>) -> (r: Vec<String>)
    ensures
        model::all(r@) == grammar::plain_names(ast::names_view(names@)),
{
    let mut r: Vec<String> = Vec::new();
    let mut i: usize = 0;
    while i < names.len()
        invariant
            i <= names@.len(),
            r@.len() == i,
            forall|k: int| 0 <= k < i ==> (#[trigger] r@[k])@ == names@[k].0@,
        decreases names@.len() - i,
    {
        r.push(names[i].0.clone());
        i += 1;
    }
    assert(model::all(r@) =~= grammar::plain_names(ast::names_view(names@)));
    r
}

/// Whether a bracket at a position starts the type parameters of a union.
fn opens_union(toks: &[Token], at: usize) -> (r: bool)
    requires
        at < toks@.len(),
    ensures
        r == grammar::opens_union(model::all(toks@), at as int),
{
    let ghost all = model::all(toks@);
    assert(all[at as int].kind == toks@[at as int].kind@);
    let open = match toks[at].kind {
        TokenKind::LBracket => true,
        _ => false,
    };
    if !open {
        return false;
    }
    let n: usize = toks.len();
    let mut i: usize = at + 1;
    while i < n
        invariant
            n == toks@.len(),
            all == model::all(toks@),
            at < i <= n,
            grammar::close_bracket(all, at + 1) == grammar::close_bracket(all, i as int),
        ensures
            i <= n,
            grammar::close_bracket(all, at + 1) == i,
        decreases n - i,
    {
        assert(all[i as int].kind == toks@[i as int].kind@);
        match toks[i].kind {
            TokenKind::RBracket | TokenKind::Eof => break,
            _ => {},
        }
        i += 1;
    }
    if n < 3 || i >= n - 2 {
        return false;
    }
    assert(all[i + 1].kind == toks@[i + 1].kind@);
    assert(all[i + 2].kind == toks@[i + 2].kind@);
    let eq = match toks[i + 1].kind {
        TokenKind::Eq => true,
        _ => false,
    };
    let union = match toks[i + 2].kind {
        TokenKind::Union => true,
        _ => false,
    };
    eq && union
}

/// The name of the type that a declaration at a position introduces.
fn declared_at(toks: &[Token], i: usize) -> (r: Option<String>)
    requires
        i < toks@.len(),
    ensures
        model::opt(r) == grammar::declared_at(model::all(toks@), i as int),
{
    if toks.len() - i <= 3 {
        return None;
    }
    let object = match &toks[i + 3].kind {
        TokenKind::Object => true,
        TokenKind::Union => true,
        _ => false,
    };
    let declares = match &toks[i + 2].kind {
        TokenKind::LBracket => opens_union(toks, i + 2),
        TokenKind::Eq => object,
        _ => false,
    };
    let starts = match &toks[i].kind {
        TokenKind::Type => true,
        _ => false,
    };
    if starts && declares {
        match &toks[i + 1].kind {
            TokenKind::Ident(name) => Some(name.clone()),
            _ => None,
        }
    } else {
        None
    }
}

/// The names of the types that the tokens declare.
fn known_types(toks: &[Token]) -> (r: Vec<String>)
    ensures
        model::all(r@) == grammar::known_types(model::all(toks@), toks@.len() as int),
{
    let mut r: Vec<String> = Vec::new();
    let mut i: usize = 0;
    while i < toks.len()
        invariant
            i <= toks@.len(),
            model::all(r@) == grammar::known_types(model::all(toks@), i as int),
        decreases toks@.len() - i,
    {
        match declared_at(toks, i) {
            Some(name) => r.push(name),
            None => {},
        }
        i += 1;
    }
    r
}

// ---------------------------------------------------------------------------
// The parser
// ---------------------------------------------------------------------------

/// The parser at work.
struct Parser<'a> {
    toks: &'a [Token],
    pos: usize,
    diags: Vec<Diagnostic>,
    known: Vec<String>,
}

impl<'a> Parser<'a> {
    /// The tokens end with the end of the file, and the parser has not passed it.
    spec fn wf(&self) -> bool {
        &&& self.pos < self.toks@.len()
        &&& self.toks@[self.toks@.len() - 1].kind@ is Eof
    }

    spec fn src(&self) -> Source {
        Source { toks: model::all(self.toks@), known: model::all(self.known@) }
    }

    spec fn st(&self) -> State {
        State { pos: self.pos as int, diags: model::all(self.diags@) }
    }

    /// A later state of the same parser: it never goes back, and never takes a
    /// diagnostic back.
    spec fn after(&self, before: Parser<'a>) -> bool {
        &&& self.wf()
        &&& self.toks == before.toks
        &&& self.known == before.known
        &&& self.pos >= before.pos
        &&& self.diags@.len() >= before.diags@.len()
        &&& forall|i: int|
            0 <= i < before.diags@.len() ==> #[trigger] self.diags@[i] == before.diags@[i]
    }

    fn kind(&self) -> (r: &TokenKind)
        requires
            self.wf(),
        ensures
            r@ == grammar::kind(self.src(), self.st()),
    {
        &self.toks[self.pos].kind
    }

    fn kind_behind(&self) -> (r: &TokenKind)
        requires
            self.wf(),
        ensures
            r@ == grammar::kind_at(self.src(), self.pos + 1),
    {
        if self.toks.len() - self.pos > 1 {
            &self.toks[self.pos + 1].kind
        } else {
            &self.toks[self.pos].kind
        }
    }

    fn span(&self) -> (r: Span)
        requires
            self.wf(),
        ensures
            r == grammar::span(self.src(), self.st()),
    {
        self.toks[self.pos].span
    }

    fn prev_end(&self) -> (r: usize)
        requires
            self.wf(),
            self.pos > 0,
        ensures
            r == grammar::prev_end(self.src(), self.st()),
    {
        self.toks[self.pos - 1].span.end
    }

    fn at_eof(&self) -> (r: bool)
        requires
            self.wf(),
        ensures
            r == (grammar::kind(self.src(), self.st()) is Eof),
    {
        match self.kind() {
            TokenKind::Eof => true,
            _ => false,
        }
    }

    fn bump(&mut self)
        requires
            old(self).wf(),
        ensures
            final(self).after(*old(self)),
            final(self).diags == old(self).diags,
            final(self).st() == grammar::bump(old(self).src(), old(self).st()),
    {
        let n: usize = self.toks.len();
        if !self.at_eof() {
            self.pos = self.pos + 1;
        }
    }

    fn report(&mut self, d: Diagnostic)
        requires
            old(self).wf(),
        ensures
            final(self).after(*old(self)),
            final(self).pos == old(self).pos,
            final(self).st() == grammar::report(old(self).st(), d@),
    {
        self.diags.push(d);
    }

    /// Reports the next token as unexpected.
    fn unexpected(&mut self, head: &str, remark: &str, code: &str)
        requires
            old(self).wf(),
        ensures
            final(self).after(*old(self)),
            final(self).pos == old(self).pos,
            final(self).st() == grammar::report(
                old(self).st(),
                grammar::problem(
                    head@ + token::kind_text(grammar::kind(old(self).src(), old(self).st())),
                    grammar::span(old(self).src(), old(self).st()),
                    remark@,
                    code@,
                ),
            ),
    {
        let message = cat(head, self.kind().describe().as_str());
        let d = problem(message.as_str(), self.span(), remark, code);
        self.report(d);
    }

    fn expect(&mut self, want: TokenKind, what: &str) -> (r: Option<Span>)
        requires
            old(self).wf(),
        ensures
            final(self).after(*old(self)),
            (r, final(self).st()) == grammar::expect(
                old(self).src(),
                old(self).st(),
                want@,
                what@,
            ),
            r is Some && !(want@ is Eof) ==> final(self).pos == old(self).pos + 1,
    {
        if self.kind().tag() == want.tag() {
            let at = self.span();
            self.bump();
            Some(at)
        } else {
            let head = cat3("expected ", what, ", found ");
            self.unexpected(head.as_str(), "unexpected token here", "E100");
            None
        }
    }

    fn parse_ident(&mut self) -> (r: Option<(String, Span)>)
        requires
            old(self).wf(),
        ensures
            final(self).after(*old(self)),
            (opt_name(r), final(self).st()) == grammar::parse_ident(old(self).src(), old(self).st()),
            r is Some ==> final(self).pos == old(self).pos + 1,
    {
        match self.kind() {
            TokenKind::Ident(name) => {
                let n = name.clone();
                let at = self.span();
                self.bump();
                Some((n, at))
            },
            _ => {
                self.unexpected("expected a name, found ", "expected identifier here", "E102");
                None
            },
        }
    }

    fn parse_path(&mut self) -> (r: Option<Vec<String>>)
        requires
            old(self).wf(),
        ensures
            final(self).after(*old(self)),
            (model::opt_all(r), final(self).st()) == grammar::parse_path(
                old(self).src(),
                old(self).st(),
            ),
            r is Some ==> final(self).pos > old(self).pos,
    {
        proof {
            reveal(grammar::parse_path);
        }
        let first = self.parse_ident()?;
        let mut path: Vec<String> = Vec::new();
        path.push(first.0);
        let ghost goal = grammar::parse_path(old(self).src(), old(self).st());
        assert(model::all(path@) =~= seq![first.0@]);
        loop
            invariant
                self.after(*old(self)),
                self.pos > old(self).pos,
                goal == grammar::parse_path(old(self).src(), old(self).st()),
                goal == grammar::path_loop(self.src(), self.st(), model::all(path@)),
            decreases self.toks@.len() - self.pos,
        {
            let more = match self.kind() {
                TokenKind::Dot => match self.kind_behind() {
                    TokenKind::LBrace => false,
                    TokenKind::Backtick => false,
                    _ => true,
                },
                _ => false,
            };
            if !more {
                return Some(path);
            }
            self.bump();
            let name = self.parse_ident()?;
            path.push(name.0);
        }
    }

    fn parse_idents(&mut self) -> (r: Option<Vec<(String, Span)>>)
        requires
            old(self).wf(),
        ensures
            final(self).after(*old(self)),
            (opt_names(r), final(self).st()) == grammar::idents_loop(
                old(self).src(),
                old(self).st(),
                Seq::empty(),
            ),
            r is Some ==> final(self).pos > old(self).pos,
    {
        let mut names: Vec<(String, Span)> = Vec::new();
        let ghost goal = grammar::idents_loop(old(self).src(), old(self).st(), Seq::empty());
        loop
            invariant
                self.after(*old(self)),
                goal == grammar::idents_loop(
                    old(self).src(),
                    old(self).st(),
                    Seq::empty(),
                ),
                goal == grammar::idents_loop(self.src(), self.st(), ast::names_view(names@)),
            decreases self.toks@.len() - self.pos,
        {
            let name = self.parse_ident()?;
            names.push(name);
            match self.kind() {
                TokenKind::Comma => self.bump(),
                _ => return Some(names),
            }
        }
    }

    fn type_of_name(&mut self, name: String, at: Span, allowed: &Vec<String>, strict: bool) -> (r: Option<(VlType, Span)>)
        requires
            old(self).wf(),
        ensures
            final(self).after(*old(self)),
            final(self).pos == old(self).pos,
            (opt_typed(r), final(self).st()) == grammar::type_of_name(
                old(self).src(),
                old(self).st(),
                name@,
                at,
                model::all(allowed@),
                strict,
            ),
    {
        let n = name.as_str();
        if str_eq(n, "Array") && !has_name(allowed, "Array") {
            self.report(
                problem(
                    "`Array` expects an element type",
                    at,
                    "write `Array[T]`, e.g. `Array[u64]`",
                    "E104",
                ),
            );
            return None;
        }
        if str_eq(n, "U64Array") {
            self.report(
                problem(
                    "unknown type `U64Array`",
                    at,
                    "`U64Array` was removed; use `Array[u64]`",
                    "E105",
                ),
            );
            return None;
        }
        if str_eq(n, "string") {
            self.report(
                problem("unknown type `string`", at, "`string` was renamed; use `String`", "E105"),
            );
            return None;
        }
        if str_eq(n, "file") {
            self.report(
                problem(
                    "unknown type `file`",
                    at,
                    "reference types are uppercase; use `File`",
                    "E105",
                ),
            );
            return None;
        }
        match VlType::named(n) {
            Ok(t) => Some((t, at)),
            Err(e) => if has_name(allowed, n) {
                Some((VlType::Param(name), at))
            } else if has_name(&self.known, n) {
                Some((VlType::Object(name), at))
            } else if !strict {
                Some((VlType::Param(name), at))
            } else {
                self.report(problem(e.to_string().as_str(), at, "unknown type here", "E105"));
                None
            },
        }
    }

    fn parse_type(&mut self, allowed: &Vec<String>, strict: bool) -> (r: Option<(VlType, Span)>)
        requires
            old(self).wf(),
        ensures
            final(self).after(*old(self)),
            (opt_typed(r), final(self).st()) == grammar::parse_type(
                old(self).src(),
                old(self).st(),
                model::all(allowed@),
                strict,
            ),
            r is Some ==> final(self).pos > old(self).pos,
        decreases old(self).toks@.len() - old(self).pos, 2nat,
    {
        proof {
            reveal(grammar::parse_type);
            reveal(grammar::parse_array_type);
            reveal(grammar::tuple_type_loop);
        }
        let at = self.span();
        match self.kind() {
            TokenKind::Ident(name) => {
                let name = name.clone();
                let array = match self.kind_behind() {
                    TokenKind::LBracket => str_eq(name.as_str(), "Array") && !has_name(
                        allowed,
                        "Array",
                    ),
                    _ => false,
                };
                if array {
                    return self.parse_array_type(allowed, strict);
                }
                self.bump();
                self.type_of_name(name, at, allowed, strict)
            },
            TokenKind::Star => {
                self.bump();
                let (t, sp) = self.parse_type(allowed, strict)?;
                let whole = VlType::Mutable(Box::new(t));
                let place = Span { start: at.start, end: sp.end };
                match whole.mutable_wellformed_error() {
                    Some(m) => {
                        self.report(
                            problem(
                                m.as_str(),
                                place,
                                "not a mutable view of a reference type",
                                "E104",
                            ),
                        );
                        None
                    },
                    None => Some((whole, place)),
                }
            },
            TokenKind::Question => {
                self.bump();
                let (t, sp) = self.parse_type(allowed, strict)?;
                let place = Span { start: at.start, end: sp.end };
                if t.is_void() {
                    self.report(
                        problem(
                            "`?void` is not a value type",
                            place,
                            "`void` has no values",
                            "E104",
                        ),
                    );
                    return None;
                }
                Some((VlType::Nullable(Box::new(t)), place))
            },
            TokenKind::Hash => {
                self.bump();
                let _open = self.expect(TokenKind::LParen, "`(` after `#` in a tuple type")?;
                let fields = self.parse_tuple_type(allowed, strict)?;
                let close = self.expect(TokenKind::RParen, "`)` after tuple fields")?;
                Some((VlType::Tuple(fields), Span { start: at.start, end: close.end }))
            },
            _ => {
                self.unexpected(
                    "expected a type, found ",
                    "expected a built-in type, an object type, Array[T], or void",
                    "E104",
                );
                None
            },
        }
    }

    fn parse_array_type(&mut self, allowed: &Vec<String>, strict: bool) -> (r: Option<(VlType, Span)>)
        requires
            old(self).wf(),
            !(grammar::kind(old(self).src(), old(self).st()) is Eof),
        ensures
            final(self).after(*old(self)),
            (opt_typed(r), final(self).st()) == grammar::parse_array_type(
                old(self).src(),
                old(self).st(),
                model::all(allowed@),
                strict,
            ),
            r is Some ==> final(self).pos > old(self).pos,
        decreases old(self).toks@.len() - old(self).pos, 1nat,
    {
        proof {
            reveal(grammar::parse_array_type);
            reveal(grammar::parse_type);
        }
        let head = self.span();
        self.bump();
        self.bump();
        let (t, _) = self.parse_type(allowed, strict)?;
        if t.is_void() {
            self.report(
                problem(
                    "`Array[void]` is not a value type",
                    head,
                    "`void` has no values to store",
                    "E104",
                ),
            );
            return None;
        }
        let close = self.expect(TokenKind::RBracket, "`]` after the element type")?;
        Some((VlType::Array(Box::new(t)), Span { start: head.start, end: close.end }))
    }

    fn parse_tuple_type(&mut self, allowed: &Vec<String>, strict: bool) -> (r: Option<Vec<TupleField>>)
        requires
            old(self).wf(),
        ensures
            final(self).after(*old(self)),
            (opt_tuple_fields(r), final(self).st()) == grammar::tuple_type_loop(
                old(self).src(),
                old(self).st(),
                model::all(allowed@),
                strict,
                Seq::empty(),
            ),
            r is Some ==> final(self).pos > old(self).pos,
        decreases old(self).toks@.len() - old(self).pos, 3nat,
    {
        let mut fields: Vec<TupleField> = Vec::new();
        let ghost goal = grammar::tuple_type_loop(
            old(self).src(),
            old(self).st(),
            model::all(allowed@),
            strict,
            Seq::empty(),
        );
        assert(ty::tuple_fields_view(fields@) =~= Seq::empty());
        loop
            invariant
                self.after(*old(self)),
                goal == grammar::tuple_type_loop(
                    old(self).src(),
                    old(self).st(),
                    model::all(allowed@),
                    strict,
                    Seq::empty(),
                ),
                goal == grammar::tuple_type_loop(
                    self.src(),
                    self.st(),
                    model::all(allowed@),
                    strict,
                    ty::tuple_fields_view(fields@),
                ),
            decreases self.toks@.len() - self.pos,
        {
            proof {
                reveal(grammar::tuple_type_loop);
                reveal(grammar::parse_type);
            }
            let name = self.element_name();
            let (t, sp) = self.parse_type(allowed, strict)?;
            if t.is_void() {
                self.report(
                    problem(
                        "a tuple field cannot be `void`",
                        sp,
                        "`void` is not a value type",
                        "E104",
                    ),
                );
                return None;
            }
            let field = TupleField { name, ty: Box::new(t) };
            proof {
                tuple_fields_push(fields@, field);
            }
            fields.push(field);
            match self.kind() {
                TokenKind::Comma => self.bump(),
                _ => return Some(fields),
            }
        }
    }

    /// Passes over the optional name of a tuple element, and its colon.
    fn element_name(&mut self) -> (r: Option<String>)
        requires
            old(self).wf(),
        ensures
            final(self).after(*old(self)),
            ({
                let c = old(self).src();
                let s = old(self).st();
                let named = grammar::kind(c, s) is Ident && grammar::kind_at(c, s.pos + 1) is Colon;
                &&& model::opt(r) == if named {
                    Some(grammar::kind(c, s)->Ident_0)
                } else {
                    None
                }
                &&& final(self).st() == if named {
                    grammar::adv(s, grammar::bump(c, grammar::bump(c, s)))
                } else {
                    s
                }
            }),
    {
        match self.kind() {
            TokenKind::Ident(name) => {
                let n = name.clone();
                match self.kind_behind() {
                    TokenKind::Colon => {
                        self.bump();
                        self.bump();
                        Some(n)
                    },
                    _ => None,
                }
            },
            _ => None,
        }
    }

    fn parse_let_ann(&mut self, allowed: &Vec<String>) -> (r: (Option<VlType>, Option<Span>))
        requires
            old(self).wf(),
        ensures
            final(self).after(*old(self)),
            ((model::opt(r.0), r.1), final(self).st()) == grammar::parse_let_ann(
                old(self).src(),
                old(self).st(),
                model::all(allowed@),
            ),
    {
        proof {
            reveal(grammar::parse_let_ann);
        }
        match self.kind() {
            TokenKind::Colon => {},
            _ => return (None, None),
        }
        self.bump();
        let fallback = self.span();
        match self.parse_type(allowed, true) {
            Some((t, sp)) => if t.is_void() {
                self.report(
                    problem(
                        "a `let` binding cannot be `void`",
                        sp,
                        "`void` is not a value",
                        "E104",
                    ),
                );
                (None, Some(sp))
            } else {
                (Some(t), Some(sp))
            },
            None => (None, Some(fallback)),
        }
    }

    fn parse_type_args(&mut self) -> (r: Option<(Vec<VlType>, Option<Span>)>)
        requires
            old(self).wf(),
        ensures
            final(self).after(*old(self)),
            (
                match r {
                    Some((args, at)) => Some((model::all(args@), at)),
                    None => None,
                },
                final(self).st(),
            ) == grammar::parse_type_args(old(self).src(), old(self).st()),
    {
        proof {
            reveal(grammar::parse_type_args);
        }
        let present = match self.kind() {
            TokenKind::ColonColon => match self.kind_behind() {
                TokenKind::LBracket => true,
                _ => false,
            },
            _ => false,
        };
        if !present {
            return Some((Vec::new(), None));
        }
        self.bump();
        let open = self.span();
        self.bump();
        let args = self.parse_types()?;
        let close = self.expect(TokenKind::RBracket, "`]` after type arguments")?;
        Some((args, Some(Span { start: open.start, end: close.end })))
    }

    fn parse_types(&mut self) -> (r: Option<Vec<VlType>>)
        requires
            old(self).wf(),
        ensures
            final(self).after(*old(self)),
            (model::opt_all(r), final(self).st()) == grammar::types_loop(
                old(self).src(),
                old(self).st(),
                Seq::empty(),
            ),
            r is Some ==> final(self).pos > old(self).pos,
    {
        let mut args: Vec<VlType> = Vec::new();
        let ghost goal = grammar::types_loop(
            old(self).src(),
            old(self).st(),
            Seq::empty(),
        );
        loop
            invariant
                self.after(*old(self)),
                goal == grammar::types_loop(
                    old(self).src(),
                    old(self).st(),
                    Seq::empty(),
                ),
                goal == grammar::types_loop(
                    self.src(),
                    self.st(),
                    model::all(args@),
                ),
            decreases self.toks@.len() - self.pos,
        {
            proof {
                reveal(grammar::types_loop);
            }
            let none: Vec<String> = Vec::new();
            let (t, _) = self.parse_type(&none, false)?;
            args.push(t);
            match self.kind() {
                TokenKind::Comma => self.bump(),
                _ => return Some(args),
            }
        }
    }

    fn parse_expr(&mut self) -> (r: Option<Expr>)
        requires
            old(self).wf(),
        ensures
            final(self).after(*old(self)),
            (model::opt(r), final(self).st()) == grammar::parse_expr(
                old(self).src(),
                old(self).st(),
            ),
            r is Some ==> final(self).pos > old(self).pos,
        decreases old(self).toks@.len() - old(self).pos, 41nat,
    {
        proof {
            reveal(grammar::parse_level);
        }
        self.parse_level(5)
    }

    fn parse_level(&mut self, level: u8) -> (r: Option<Expr>)
        requires
            old(self).wf(),
        ensures
            final(self).after(*old(self)),
            (model::opt(r), final(self).st()) == grammar::parse_level(
                old(self).src(),
                old(self).st(),
                level as nat,
            ),
            r is Some ==> final(self).pos > old(self).pos,
        decreases old(self).toks@.len() - old(self).pos, 20 + 4 * (level as nat),
    {
        proof {
            reveal(grammar::parse_level);
            reveal(grammar::parse_operand);
            reveal(grammar::level_loop);
        }
        let lhs = self.parse_operand(level)?;
        self.level_rest(level, lhs)
    }

    fn level_rest(&mut self, level: u8, lhs: Expr) -> (r: Option<Expr>)
        requires
            old(self).wf(),
        ensures
            final(self).after(*old(self)),
            (model::opt(r), final(self).st()) == grammar::level_loop(
                old(self).src(),
                old(self).st(),
                level as nat,
                lhs@,
            ),
        decreases old(self).toks@.len() - old(self).pos, 1nat,
    {
        proof {
            reveal(grammar::level_loop);
            reveal(grammar::parse_operand);
        }
        match operator(self.kind(), level) {
            None => Some(lhs),
            Some(op) => {
                self.bump();
                let rhs = self.parse_operand(level)?;
                let span = lhs.span().merge(rhs.span());
                let next = Expr::Binary { op, lhs: Box::new(lhs), rhs: Box::new(rhs), span };
                self.level_rest(level, next)
            },
        }
    }

    fn parse_operand(&mut self, level: u8) -> (r: Option<Expr>)
        requires
            old(self).wf(),
        ensures
            final(self).after(*old(self)),
            (model::opt(r), final(self).st()) == grammar::parse_operand(
                old(self).src(),
                old(self).st(),
                level as nat,
            ),
            r is Some ==> final(self).pos > old(self).pos,
        decreases old(self).toks@.len() - old(self).pos, 19 + 4 * (level as nat),
    {
        proof {
            reveal(grammar::parse_operand);
            reveal(grammar::parse_unary);
            reveal(grammar::parse_cast);
            reveal(grammar::parse_level);
        }
        if level == 0 {
            self.parse_unary()
        } else if level == 3 {
            self.parse_cast()
        } else {
            self.parse_level(level - 1)
        }
    }

    fn parse_cast(&mut self) -> (r: Option<Expr>)
        requires
            old(self).wf(),
        ensures
            final(self).after(*old(self)),
            (model::opt(r), final(self).st()) == grammar::parse_cast(
                old(self).src(),
                old(self).st(),
            ),
            r is Some ==> final(self).pos > old(self).pos,
        decreases old(self).toks@.len() - old(self).pos, 29nat,
    {
        proof {
            reveal(grammar::parse_cast);
            reveal(grammar::parse_level);
        }
        let e = self.parse_level(2)?;
        self.cast_rest(e)
    }

    fn cast_rest(&mut self, e: Expr) -> (r: Option<Expr>)
        requires
            old(self).wf(),
        ensures
            final(self).after(*old(self)),
            (model::opt(r), final(self).st()) == grammar::cast_loop(
                old(self).src(),
                old(self).st(),
                e@,
            ),
        decreases old(self).toks@.len() - old(self).pos, 0nat,
    {
        proof {
            reveal(grammar::cast_loop);
        }
        match self.kind() {
            TokenKind::As => {
                self.bump();
                let none: Vec<String> = Vec::new();
                let (target, target_span) = self.parse_type(&none, true)?;
                let span = Span { start: e.span().start, end: target_span.end };
                let next = Expr::Cast { inner: Box::new(e), target, target_span, span };
                self.cast_rest(next)
            },
            _ => Some(e),
        }
    }

    fn parse_unary(&mut self) -> (r: Option<Expr>)
        requires
            old(self).wf(),
        ensures
            final(self).after(*old(self)),
            (model::opt(r), final(self).st()) == grammar::parse_unary(
                old(self).src(),
                old(self).st(),
            ),
            r is Some ==> final(self).pos > old(self).pos,
        decreases old(self).toks@.len() - old(self).pos, 10nat,
    {
        proof {
            reveal(grammar::parse_unary);
            reveal(grammar::parse_postfix);
        }
        let op = match self.kind() {
            TokenKind::Minus => UnOp::Neg,
            TokenKind::Bang => UnOp::Not,
            _ => return self.parse_postfix(),
        };
        let start = self.span().start;
        self.bump();
        let rhs = self.parse_unary()?;
        let span = Span { start, end: rhs.span().end };
        Some(Expr::Unary { op, rhs: Box::new(rhs), span })
    }

    fn parse_postfix(&mut self) -> (r: Option<Expr>)
        requires
            old(self).wf(),
        ensures
            final(self).after(*old(self)),
            (model::opt(r), final(self).st()) == grammar::parse_postfix(
                old(self).src(),
                old(self).st(),
            ),
            r is Some ==> final(self).pos > old(self).pos,
        decreases old(self).toks@.len() - old(self).pos, 9nat,
    {
        proof {
            reveal(grammar::parse_postfix);
            reveal(grammar::parse_primary);
            reveal(grammar::postfix_loop);
        }
        let e = self.parse_primary()?;
        self.postfix_rest(e, false)
    }

    fn postfix_rest(&mut self, base: Expr, indexed: bool) -> (r: Option<Expr>)
        requires
            old(self).wf(),
        ensures
            final(self).after(*old(self)),
            (model::opt(r), final(self).st()) == grammar::postfix_loop(
                old(self).src(),
                old(self).st(),
                base@,
                indexed,
            ),
        decreases old(self).toks@.len() - old(self).pos, 1nat,
    {
        proof {
            reveal(grammar::postfix_loop);
            reveal(grammar::parse_level);
        }
        let start = base.span().start;
        match self.kind() {
            TokenKind::LBracket => {
                self.bump();
                let index = self.parse_expr()?;
                let close = self.expect(TokenKind::RBracket, "`]`")?;
                let next = Expr::Index {
                    base: Box::new(base),
                    index: Box::new(index),
                    span: Span { start, end: close.end },
                };
                self.postfix_rest(next, true)
            },
            TokenKind::Dot => {
                self.bump();
                let position = match self.kind() {
                    TokenKind::Backtick => true,
                    _ => false,
                };
                if position {
                    self.bump();
                    let at = self.span();
                    match self.kind() {
                        TokenKind::Int(v) if *v >= 0 && *v <= 0xffff_ffff => {
                            let index: usize = *v as usize;
                            self.bump();
                            let next = Expr::TupleIndex {
                                base: Box::new(base),
                                index,
                                index_span: at,
                                span: Span { start, end: at.end },
                            };
                            self.postfix_rest(next, indexed)
                        },
                        _ => {
                            self.unexpected(
                                "expected a tuple position, found ",
                                "write the position of a field",
                                "E103",
                            );
                            None
                        },
                    }
                } else {
                    let (name, sp) = self.parse_ident()?;
                    let next = Expr::Field {
                        base: Box::new(base),
                        name,
                        span: Span { start, end: sp.end },
                    };
                    self.postfix_rest(next, indexed)
                }
            },
            TokenKind::LParen => if indexed {
                let d = Diagnostic::error("cannot call an index expression").with_label(
                    base.span(),
                    "this is `path[index]`, not a generic call",
                ).with_label(
                    self.span(),
                    "explicit type arguments use `::`: write `f::[T](...)`",
                ).with_code("E103");
                self.report(d);
                None
            } else {
                Some(base)
            },
            _ => Some(base),
        }
    }

    #[verifier::rlimit(60)]
    fn parse_primary(&mut self) -> (r: Option<Expr>)
        requires
            old(self).wf(),
        ensures
            final(self).after(*old(self)),
            (model::opt(r), final(self).st()) == grammar::parse_primary(
                old(self).src(),
                old(self).st(),
            ),
            r is Some ==> final(self).pos > old(self).pos,
        decreases old(self).toks@.len() - old(self).pos, 8nat,
    {
        proof {
            reveal(grammar::parse_primary);
            reveal(grammar::parse_level);
            reveal(grammar::exprs_loop);
            reveal(grammar::tuple_loop);
            reveal(grammar::parse_named);
        }
        let at = self.span();
        match self.kind() {
            TokenKind::String(v) => {
                let value = crate::text::clone_bytes(v);
                self.bump();
                Some(Expr::String(value, at))
            },
            TokenKind::Null => {
                self.bump();
                Some(Expr::Null(at))
            },
            TokenKind::Ident(_) => self.parse_named(),
            TokenKind::LParen => {
                self.bump();
                let e = self.parse_expr()?;
                let _close = self.expect(TokenKind::RParen, "`)`")?;
                Some(e)
            },
            TokenKind::LBracket => {
                self.bump();
                let elems = match self.kind() {
                    TokenKind::RBracket => Vec::new(),
                    _ => self.parse_exprs(true)?,
                };
                let close = self.expect(TokenKind::RBracket, "`]`")?;
                Some(Expr::ArrayLiteral { elems, span: Span { start: at.start, end: close.end } })
            },
            TokenKind::Hash => {
                self.bump();
                let _open = self.expect(TokenKind::LParen, "`(` after `#` in a tuple")?;
                let elems = self.parse_tuple()?;
                let close = self.expect(TokenKind::RParen, "`)` after tuple elements")?;
                Some(Expr::TupleLiteral { elems, span: Span { start: at.start, end: close.end } })
            },
            TokenKind::Invalid => {
                self.bump();
                None
            },
            k => match literal(k) {
                Some(v) => {
                    self.bump();
                    Some(Expr::Literal(v, at))
                },
                None => {
                    self.unexpected(
                        "expected an expression, found ",
                        "expected value here",
                        "E103",
                    );
                    None
                },
            },
        }
    }

    fn parse_named(&mut self) -> (r: Option<Expr>)
        requires
            old(self).wf(),
            grammar::kind(old(self).src(), old(self).st()) is Ident,
        ensures
            final(self).after(*old(self)),
            (model::opt(r), final(self).st()) == grammar::parse_named(
                old(self).src(),
                old(self).st(),
            ),
            r is Some ==> final(self).pos > old(self).pos,
        decreases old(self).toks@.len() - old(self).pos, 7nat,
    {
        proof {
            reveal(grammar::parse_named);
            reveal(grammar::parse_object_literal);
            reveal(grammar::exprs_loop);
        }
        let at = self.span();
        let path = self.parse_path()?;
        let whole = Span { start: at.start, end: self.prev_end() };
        proof {
            reveal(grammar::parse_path);
            path_is_nonempty(old(self).src(), old(self).st());
        }
        let braced = match self.kind() {
            TokenKind::LBrace => true,
            _ => false,
        };
        if path.len() == 1 && braced {
            let name = path[0].clone();
            return self.parse_object_literal(name, at);
        }
        let (type_args, type_args_span) = self.parse_type_args()?;
        let called = match self.kind() {
            TokenKind::LParen => true,
            _ => false,
        };
        if type_args.len() > 0 && !called {
            let d = Diagnostic::error("expected `(...)` after type arguments").with_label(
                self.span(),
                "explicit type arguments only apply to calls",
            ).with_note("write `f::[T](args)`; `f::[T]` alone is not a value").with_code("E103");
            self.report(d);
            return None;
        }
        if called {
            self.bump();
            let args = match self.kind() {
                TokenKind::RParen => Vec::new(),
                _ => self.parse_exprs(false)?,
            };
            let close = self.expect(TokenKind::RParen, "`)`")?;
            Some(
                Expr::Call {
                    callee: path,
                    callee_span: whole,
                    type_args,
                    type_args_span,
                    args,
                    span: Span { start: at.start, end: close.end },
                },
            )
        } else if path.len() == 1 {
            Some(Expr::Var { path, span: whole })
        } else {
            Some(field_chain(path, at, whole))
        }
    }

    fn parse_exprs(&mut self, trailing: bool) -> (r: Option<Vec<Expr>>)
        requires
            old(self).wf(),
        ensures
            final(self).after(*old(self)),
            (opt_exprs(r), final(self).st()) == grammar::exprs_loop(
                old(self).src(),
                old(self).st(),
                Seq::empty(),
                trailing,
            ),
            r is Some ==> final(self).pos > old(self).pos,
        decreases old(self).toks@.len() - old(self).pos, 50nat,
    {
        let mut elems: Vec<Expr> = Vec::new();
        let ghost goal = grammar::exprs_loop(
            old(self).src(),
            old(self).st(),
            Seq::empty(),
            trailing,
        );
        loop
            invariant
                self.after(*old(self)),
                goal == grammar::exprs_loop(old(self).src(), old(self).st(), Seq::empty(), trailing),
                goal == grammar::exprs_loop(
                    self.src(),
                    self.st(),
                    ast::exprs_view(elems@),
                    trailing,
                ),
            decreases self.toks@.len() - self.pos,
        {
            proof {
                reveal(grammar::exprs_loop);
                reveal(grammar::parse_level);
            }
            let e = self.parse_expr()?;
            elems.push(e);
            match self.kind() {
                TokenKind::Comma => {},
                _ => return Some(elems),
            }
            self.bump();
            let closed = match self.kind() {
                TokenKind::RBracket => true,
                _ => false,
            };
            if trailing && closed {
                return Some(elems);
            }
        }
    }

    fn parse_tuple(&mut self) -> (r: Option<Vec<(Option<String>, Span, Expr)>>)
        requires
            old(self).wf(),
        ensures
            final(self).after(*old(self)),
            (match r { Some(v) => Some(ast::elems_view(v@)), None => None }, final(self).st()) == grammar::tuple_loop(
                old(self).src(),
                old(self).st(),
                Seq::empty(),
            ),
            r is Some ==> final(self).pos > old(self).pos,
        decreases old(self).toks@.len() - old(self).pos, 50nat,
    {
        let mut elems: Vec<(Option<String>, Span, Expr)> = Vec::new();
        let ghost goal = grammar::tuple_loop(
            old(self).src(),
            old(self).st(),
            Seq::empty(),
        );
        loop
            invariant
                self.after(*old(self)),
                goal == grammar::tuple_loop(
                    old(self).src(),
                    old(self).st(),
                    Seq::empty(),
                ),
                goal == grammar::tuple_loop(
                    self.src(),
                    self.st(),
                    ast::elems_view(elems@),
                ),
            decreases self.toks@.len() - self.pos,
        {
            proof {
                reveal(grammar::tuple_loop);
                reveal(grammar::parse_level);
            }
            let at = self.span();
            let name = self.element_name();
            let e = self.parse_expr()?;
            elems.push((name, at, e));
            match self.kind() {
                TokenKind::Comma => self.bump(),
                _ => return Some(elems),
            }
        }
    }

    fn parse_object_literal(&mut self, name: String, at: Span) -> (r: Option<Expr>)
        requires
            old(self).wf(),
            grammar::kind(old(self).src(), old(self).st()) is LBrace,
        ensures
            final(self).after(*old(self)),
            (model::opt(r), final(self).st()) == grammar::parse_object_literal(
                old(self).src(),
                old(self).st(),
                name@,
                at,
            ),
            r is Some ==> final(self).pos > old(self).pos,
        decreases old(self).toks@.len() - old(self).pos, 6nat,
    {
        proof {
            reveal(grammar::parse_object_literal);
            reveal(grammar::fields_loop);
        }
        self.bump();
        let fields = self.parse_fields()?;
        let close = self.expect(TokenKind::RBrace, "`}` after object literal")?;
        Some(
            Expr::ObjectLiteral {
                name,
                name_span: at,
                fields,
                span: Span { start: at.start, end: close.end },
            },
        )
    }

    fn expect_field_separator(&mut self) -> (r: Option<Span>)
        requires
            old(self).wf(),
        ensures
            final(self).after(*old(self)),
            (r, final(self).st()) == grammar::expect_field_separator(
                old(self).src(),
                old(self).st(),
            ),
            r is Some ==> final(self).pos == old(self).pos + 1,
    {
        match self.kind() {
            TokenKind::Eq => {
                let at = self.span();
                self.bump();
                Some(at)
            },
            _ => self.expect(TokenKind::Colon, "`:` after object field"),
        }
    }

    fn parse_fields(&mut self) -> (r: Option<Vec<(String, Span, Expr)>>)
        requires
            old(self).wf(),
        ensures
            final(self).after(*old(self)),
            (match r { Some(v) => Some(ast::named_view(v@)), None => None }, final(self).st()) == grammar::fields_loop(
                old(self).src(),
                old(self).st(),
                Seq::empty(),
            ),
        decreases old(self).toks@.len() - old(self).pos, 50nat,
    {
        let mut fields: Vec<(String, Span, Expr)> = Vec::new();
        let ghost goal = grammar::fields_loop(
            old(self).src(),
            old(self).st(),
            Seq::empty(),
        );
        loop
            invariant
                self.after(*old(self)),
                goal == grammar::fields_loop(
                    old(self).src(),
                    old(self).st(),
                    Seq::empty(),
                ),
                goal == grammar::fields_loop(
                    self.src(),
                    self.st(),
                    ast::named_view(fields@),
                ),
            decreases self.toks@.len() - self.pos,
        {
            proof {
                reveal(grammar::fields_loop);
                reveal(grammar::parse_level);
            }
            match self.kind() {
                TokenKind::Eof => return Some(fields),
                TokenKind::RBrace => return Some(fields),
                _ => {},
            }
            let (field, sp) = self.parse_ident()?;
            let _sep = self.expect_field_separator()?;
            let value = self.parse_expr()?;
            fields.push((field, sp, value));
            match self.kind() {
                TokenKind::Comma => self.bump(),
                TokenKind::RBrace => return Some(fields),
                _ => {
                    self.unexpected(
                        "expected `,` or `}`, found ",
                        "separate object fields with commas",
                        "E100",
                    );
                    return None;
                },
            }
        }
    }

    fn parse_pattern(&mut self) -> (r: Option<Vec<DestructureBinding>>)
        requires
            old(self).wf(),
        ensures
            final(self).after(*old(self)),
            (model::opt_all(r), final(self).st()) == grammar::pattern_loop(
                old(self).src(),
                old(self).st(),
                Seq::empty(),
            ),
            r is Some ==> final(self).pos > old(self).pos,
    {
        let mut names: Vec<DestructureBinding> = Vec::new();
        let ghost goal = grammar::pattern_loop(
            old(self).src(),
            old(self).st(),
            Seq::empty(),
        );
        loop
            invariant
                self.after(*old(self)),
                goal == grammar::pattern_loop(
                    old(self).src(),
                    old(self).st(),
                    Seq::empty(),
                ),
                goal == grammar::pattern_loop(
                    self.src(),
                    self.st(),
                    model::all(names@),
                ),
            decreases self.toks@.len() - self.pos,
        {
            proof {
                reveal(grammar::pattern_loop);
            }
            let (first, sp) = self.parse_ident()?;
            let b = match self.kind() {
                TokenKind::Colon => {
                    self.bump();
                    let (name, at) = self.parse_ident()?;
                    DestructureBinding { field: Some(first), binding: name, binding_span: at }
                },
                _ => DestructureBinding { field: None, binding: first, binding_span: sp },
            };
            names.push(b);
            match self.kind() {
                TokenKind::Comma => self.bump(),
                _ => return Some(names),
            }
        }
    }

    fn parse_target(&mut self) -> (r: Option<Target>)
        requires
            old(self).wf(),
        ensures
            final(self).after(*old(self)),
            (model::opt(r), final(self).st()) == grammar::parse_target(
                old(self).src(),
                old(self).st(),
            ),
            r is Some ==> final(self).pos > old(self).pos,
    {
        proof {
            reveal(grammar::parse_target);
        }
        let pattern = match self.kind() {
            TokenKind::Hash => true,
            _ => false,
        };
        if pattern {
            self.bump();
            let _open = self.expect(TokenKind::LParen, "`(` after `#` in a pattern")?;
            let names = self.parse_pattern()?;
            let _close = self.expect(TokenKind::RParen, "`)` after the pattern")?;
            Some(Target::Fields(names))
        } else {
            let (name, sp) = self.parse_ident()?;
            Some(Target::Name(name, sp))
        }
    }

    fn parse_binding(&mut self, allowed: &Vec<String>, bound: BindingKind) -> (r: Option<Binding>)
        requires
            old(self).wf(),
        ensures
            final(self).after(*old(self)),
            (model::opt(r), final(self).st()) == grammar::parse_binding(
                old(self).src(),
                old(self).st(),
                model::all(allowed@),
                bound,
            ),
            r is Some ==> final(self).pos > old(self).pos,
    {
        proof {
            reveal(grammar::parse_binding);
        }
        let start = self.span().start;
        self.bump();
        let target = self.parse_target()?;
        let (ty, ty_span) = self.parse_let_ann(allowed);
        let _eq = self.expect(TokenKind::Eq, "`=`")?;
        let value = self.parse_expr()?;
        let semi = self.expect(TokenKind::Semi, "`;`")?;
        Some(
            Binding {
                target,
                kind: bound,
                ty,
                ty_span,
                value,
                span: Span { start, end: semi.end },
            },
        )
    }

    fn parse_expr_stmt(&mut self) -> (r: Option<Stmt>)
        requires
            old(self).wf(),
        ensures
            final(self).after(*old(self)),
            (model::opt(r), final(self).st()) == grammar::parse_expr_stmt(
                old(self).src(),
                old(self).st(),
            ),
            r is Some ==> final(self).pos > old(self).pos,
    {
        proof {
            reveal(grammar::parse_expr_stmt);
        }
        let e = self.parse_expr()?;
        let _semi = self.expect(TokenKind::Semi, "`;`")?;
        Some(Stmt::Expr(e))
    }

    fn parse_named_stmt(&mut self) -> (r: Option<Stmt>)
        requires
            old(self).wf(),
        ensures
            final(self).after(*old(self)),
            (model::opt(r), final(self).st()) == grammar::parse_named_stmt(
                old(self).src(),
                old(self).st(),
            ),
            r is Some ==> final(self).pos > old(self).pos,
    {
        proof {
            reveal(grammar::parse_named_stmt);
        }
        let saved: usize = self.pos;
        let reported: usize = self.diags.len();
        let target = self.parse_postfix()?;
        let assigns = match self.kind() {
            TokenKind::Eq => true,
            _ => false,
        };
        if !assigns {
            self.pos = saved;
            self.diags.truncate(reported);
            assert(self.diags@ =~= old(self).diags@);
            return self.parse_expr_stmt();
        }
        self.bump();
        let value = self.parse_expr()?;
        let semi = self.expect(TokenKind::Semi, "`;`")?;
        let end = semi.end;
        let at = target.span();
        match target {
            Expr::Var { path, span } => {
                if path.len() == 1 {
                    return Some(
                        Stmt::Assign {
                            name: path[0].clone(),
                            name_span: span,
                            value,
                            span: Span { start: span.start, end },
                        },
                    );
                }
            },
            Expr::Index { base, index, span } => {
                return Some(
                    Stmt::IndexAssign {
                        array: base,
                        index,
                        value: Box::new(value),
                        span: Span { start: span.start, end },
                    },
                );
            },
            Expr::Field { base, name, span } => {
                return Some(
                    Stmt::FieldAssign {
                        base,
                        field: name,
                        field_span: span,
                        value: Box::new(value),
                        span: Span { start: span.start, end },
                    },
                );
            },
            Expr::TupleIndex { base, index, index_span, span } => {
                return Some(
                    Stmt::TupleAssign {
                        base,
                        index,
                        index_span,
                        value: Box::new(value),
                        span: Span { start: span.start, end },
                    },
                );
            },
            _ => {},
        }
        self.report(
            problem(
                "cannot assign to this expression",
                at,
                "only variables, array elements, and object fields are assignable",
                "E103",
            ),
        );
        None
    }

    fn parse_return(&mut self) -> (r: Option<Stmt>)
        requires
            old(self).wf(),
        ensures
            final(self).after(*old(self)),
            (model::opt(r), final(self).st()) == grammar::parse_return(
                old(self).src(),
                old(self).st(),
            ),
            r is Some ==> final(self).pos > old(self).pos,
    {
        proof {
            reveal(grammar::parse_return);
        }
        let start = self.span().start;
        self.bump();
        let value = match self.kind() {
            TokenKind::Semi => None,
            _ => Some(self.parse_expr()?),
        };
        let semi = self.expect(TokenKind::Semi, "`;`")?;
        Some(Stmt::Return { value, span: Span { start, end: semi.end } })
    }

    fn parse_condition(&mut self, what: &str) -> (r: Option<Expr>)
        requires
            old(self).wf(),
        ensures
            final(self).after(*old(self)),
            (model::opt(r), final(self).st()) == grammar::parse_condition(
                old(self).src(),
                old(self).st(),
                what@,
            ),
            r is Some ==> final(self).pos > old(self).pos,
    {
        proof {
            reveal(grammar::parse_condition);
        }
        let _open = self.expect(TokenKind::LParen, what)?;
        let e = self.parse_expr()?;
        let _close = self.expect(TokenKind::RParen, "`)` after condition")?;
        Some(e)
    }

    fn parse_stmt(&mut self, allowed: &Vec<String>) -> (r: Option<Stmt>)
        requires
            old(self).wf(),
        ensures
            final(self).after(*old(self)),
            (model::opt(r), final(self).st()) == grammar::parse_stmt(
                old(self).src(),
                old(self).st(),
                model::all(allowed@),
            ),
            r is Some ==> final(self).pos > old(self).pos,
        decreases old(self).toks@.len() - old(self).pos, 20nat,
    {
        proof {
            reveal(grammar::parse_stmt);
            reveal(grammar::parse_if);
            reveal(grammar::parse_while);
            reveal(grammar::parse_match);
        }
        let start = self.span().start;
        match self.kind() {
            TokenKind::If => self.parse_if(allowed),
            TokenKind::While => self.parse_while(allowed),
            TokenKind::Match => self.parse_match(allowed),
            TokenKind::Break => {
                self.bump();
                let semi = self.expect(TokenKind::Semi, "`;`")?;
                Some(Stmt::Break { span: Span { start, end: semi.end } })
            },
            TokenKind::Continue => {
                self.bump();
                let semi = self.expect(TokenKind::Semi, "`;`")?;
                Some(Stmt::Continue { span: Span { start, end: semi.end } })
            },
            TokenKind::Return => self.parse_return(),
            TokenKind::Ident(_) => self.parse_named_stmt(),
            k => match binder(k) {
                Some(bound) => {
                    let b = self.parse_binding(allowed, bound)?;
                    Some(b.into_stmt())
                },
                None => self.parse_expr_stmt(),
            },
        }
    }

    fn parse_if(&mut self, allowed: &Vec<String>) -> (r: Option<Stmt>)
        requires
            old(self).wf(),
            grammar::kind(old(self).src(), old(self).st()) is If,
        ensures
            final(self).after(*old(self)),
            (model::opt(r), final(self).st()) == grammar::parse_if(
                old(self).src(),
                old(self).st(),
                model::all(allowed@),
            ),
            r is Some ==> final(self).pos > old(self).pos,
        decreases old(self).toks@.len() - old(self).pos, 19nat,
    {
        proof {
            reveal(grammar::parse_if);
            reveal(grammar::parse_branch);
        }
        let start = self.span().start;
        self.bump();
        let condition = self.parse_condition("`(` after `if`")?;
        let then_body = self.parse_branch(allowed)?;
        let has_else = match self.kind() {
            TokenKind::Else => true,
            _ => false,
        };
        if has_else {
            self.bump();
            let else_body = self.parse_branch(allowed)?;
            let end = self.prev_end();
            Some(
                Stmt::If {
                    condition,
                    then_body,
                    else_body: Some(else_body),
                    span: Span { start, end },
                },
            )
        } else {
            let end = condition.span().end;
            Some(Stmt::If { condition, then_body, else_body: None, span: Span { start, end } })
        }
    }

    fn parse_while(&mut self, allowed: &Vec<String>) -> (r: Option<Stmt>)
        requires
            old(self).wf(),
            grammar::kind(old(self).src(), old(self).st()) is While,
        ensures
            final(self).after(*old(self)),
            (model::opt(r), final(self).st()) == grammar::parse_while(
                old(self).src(),
                old(self).st(),
                model::all(allowed@),
            ),
            r is Some ==> final(self).pos > old(self).pos,
        decreases old(self).toks@.len() - old(self).pos, 19nat,
    {
        proof {
            reveal(grammar::parse_while);
            reveal(grammar::parse_branch);
        }
        let start = self.span().start;
        self.bump();
        let condition = self.parse_condition("`(` after `while`")?;
        let body = self.parse_branch(allowed)?;
        let end = self.prev_end();
        Some(Stmt::While { condition, body, span: Span { start, end } })
    }

    fn parse_match(&mut self, allowed: &Vec<String>) -> (r: Option<Stmt>)
        requires
            old(self).wf(),
            grammar::kind(old(self).src(), old(self).st()) is Match,
        ensures
            final(self).after(*old(self)),
            (model::opt(r), final(self).st()) == grammar::parse_match(
                old(self).src(),
                old(self).st(),
                model::all(allowed@),
            ),
            r is Some ==> final(self).pos > old(self).pos,
        decreases old(self).toks@.len() - old(self).pos, 19nat,
    {
        proof {
            reveal(grammar::parse_match);
            reveal(grammar::arms_loop);
            reveal(grammar::parse_block);
        }
        let start = self.span().start;
        self.bump();
        let scrutinee = self.parse_condition("`(` after `match`")?;
        let _open = self.expect(TokenKind::LBrace, "`{` before the match arms")?;
        let arms = self.parse_arms(allowed)?;
        let has_else = match self.kind() {
            TokenKind::Else => true,
            _ => false,
        };
        let else_body = if has_else {
            self.bump();
            Some(self.parse_block(allowed)?)
        } else {
            None
        };
        let close = self.expect(TokenKind::RBrace, "`}` after the match arms")?;
        Some(Stmt::Match { scrutinee, arms, else_body, span: Span { start, end: close.end } })
    }

    fn parse_arm_pattern(&mut self) -> (r: Option<(Vec<String>, Span, Vec<(String, Span)>)>)
        requires
            old(self).wf(),
        ensures
            final(self).after(*old(self)),
            (
                match r {
                    Some((path, at, names)) => Some(
                        (model::all(path@), at, ast::names_view(names@)),
                    ),
                    None => None,
                },
                final(self).st(),
            ) == grammar::parse_arm_pattern(old(self).src(), old(self).st()),
            r is Some ==> final(self).pos > old(self).pos,
    {
        proof {
            reveal(grammar::parse_arm_pattern);
        }
        let at = self.span();
        let null = match self.kind() {
            TokenKind::Null => true,
            _ => false,
        };
        if null {
            self.bump();
            let mut path: Vec<String> = Vec::new();
            path.push(owned("null"));
            assert(model::all(path@) =~= seq!["null"@]);
            return Some((path, at, Vec::new()));
        }
        let path = self.parse_path()?;
        let whole = Span { start: at.start, end: self.prev_end() };
        if path.len() < 2 {
            self.report(
                problem(
                    "expected a union variant in a match arm",
                    whole,
                    "write `Union.Variant` or `null`",
                    "E103",
                ),
            );
            return None;
        }
        let bound = match self.kind() {
            TokenKind::LParen => true,
            _ => false,
        };
        if bound {
            self.bump();
            let names = self.parse_idents()?;
            let _close = self.expect(TokenKind::RParen, "`)` after the bound names")?;
            Some((path, whole, names))
        } else {
            Some((path, whole, Vec::new()))
        }
    }

    fn parse_arms(&mut self, allowed: &Vec<String>) -> (r: Option<Vec<MatchArm>>)
        requires
            old(self).wf(),
        ensures
            final(self).after(*old(self)),
            (match r { Some(v) => Some(ast::arms_view(v@)), None => None }, final(self).st()) == grammar::arms_loop(
                old(self).src(),
                old(self).st(),
                model::all(allowed@),
                Seq::empty(),
            ),
        decreases old(self).toks@.len() - old(self).pos, 24nat,
    {
        let mut arms: Vec<MatchArm> = Vec::new();
        let ghost goal = grammar::arms_loop(
            old(self).src(),
            old(self).st(),
            model::all(allowed@),
            Seq::empty(),
        );
        loop
            invariant
                self.after(*old(self)),
                goal == grammar::arms_loop(
                    old(self).src(),
                    old(self).st(),
                    model::all(allowed@),
                    Seq::empty(),
                ),
                goal == grammar::arms_loop(
                    self.src(),
                    self.st(),
                    model::all(allowed@),
                    ast::arms_view(arms@),
                ),
            decreases self.toks@.len() - self.pos,
        {
            proof {
                reveal(grammar::arms_loop);
                reveal(grammar::parse_block);
            }
            match self.kind() {
                TokenKind::Eof => return Some(arms),
                TokenKind::RBrace => return Some(arms),
                TokenKind::Else => return Some(arms),
                _ => {},
            }
            let start = self.span().start;
            let (path, path_span, bindings) = self.parse_arm_pattern()?;
            let body = self.parse_block(allowed)?;
            let end = self.prev_end();
            arms.push(MatchArm { path, path_span, bindings, body, span: Span { start, end } });
        }
    }

    fn parse_block(&mut self, allowed: &Vec<String>) -> (r: Option<Vec<Stmt>>)
        requires
            old(self).wf(),
        ensures
            final(self).after(*old(self)),
            (opt_stmts(r), final(self).st()) == grammar::parse_block(
                old(self).src(),
                old(self).st(),
                model::all(allowed@),
            ),
            r is Some ==> final(self).pos > old(self).pos,
        decreases old(self).toks@.len() - old(self).pos, 21nat,
    {
        proof {
            reveal(grammar::parse_block);
            reveal(grammar::block_loop);
        }
        let _open = self.expect(TokenKind::LBrace, "`{`")?;
        let body = self.parse_stmts(allowed);
        let _close = self.expect(TokenKind::RBrace, "`}`")?;
        Some(body)
    }

    fn recover_stmt(&mut self)
        requires
            old(self).wf(),
        ensures
            final(self).after(*old(self)),
            final(self).diags == old(self).diags,
            final(self).st() == grammar::recover_stmt(old(self).src(), old(self).st()),
    {
        let ghost goal = grammar::recover_stmt(self.src(), self.st());
        loop
            invariant
                self.after(*old(self)),
                self.diags == old(self).diags,
                goal == grammar::recover_stmt(old(self).src(), old(self).st()),
                goal == grammar::recover_stmt(self.src(), self.st()),
            decreases self.toks@.len() - self.pos,
        {
            match self.kind() {
                TokenKind::Eof
                | TokenKind::RBrace
                | TokenKind::Let
                | TokenKind::Val
                | TokenKind::Var
                | TokenKind::Function
                | TokenKind::If
                | TokenKind::While
                | TokenKind::Match
                | TokenKind::Break
                | TokenKind::Continue
                | TokenKind::Return
                | TokenKind::Type => return ,
                TokenKind::Semi => {
                    self.bump();
                    return ;
                },
                _ => self.bump(),
            }
        }
    }

    fn recover_item(&mut self)
        requires
            old(self).wf(),
        ensures
            final(self).after(*old(self)),
            final(self).diags == old(self).diags,
            final(self).st() == grammar::recover_item(old(self).src(), old(self).st()),
    {
        let ghost goal = grammar::recover_item(self.src(), self.st());
        loop
            invariant
                self.after(*old(self)),
                self.diags == old(self).diags,
                goal == grammar::recover_item(old(self).src(), old(self).st()),
                goal == grammar::recover_item(self.src(), self.st()),
            decreases self.toks@.len() - self.pos,
        {
            match self.kind() {
                TokenKind::Eof
                | TokenKind::Let
                | TokenKind::Val
                | TokenKind::Var
                | TokenKind::Function
                | TokenKind::Type => return ,
                TokenKind::Semi | TokenKind::RBrace => {
                    self.bump();
                    return ;
                },
                _ => self.bump(),
            }
        }
    }

    /// Reads statements up to a closing brace, skipping those that cannot be read.
    fn parse_stmts(&mut self, allowed: &Vec<String>) -> (r: Vec<Stmt>)
        requires
            old(self).wf(),
        ensures
            final(self).after(*old(self)),
            (ast::stmts_view(r@), final(self).st()) == grammar::block_loop(
                old(self).src(),
                old(self).st(),
                model::all(allowed@),
                Seq::empty(),
            ),
        decreases old(self).toks@.len() - old(self).pos, 23nat,
    {
        let mut body: Vec<Stmt> = Vec::new();
        let ghost goal = grammar::block_loop(
            self.src(),
            self.st(),
            model::all(allowed@),
            Seq::empty(),
        );
        loop
            invariant
                self.after(*old(self)),
                goal == grammar::block_loop(
                    old(self).src(),
                    old(self).st(),
                    model::all(allowed@),
                    Seq::empty(),
                ),
                goal == grammar::block_loop(
                    self.src(),
                    self.st(),
                    model::all(allowed@),
                    ast::stmts_view(body@),
                ),
            decreases self.toks@.len() - self.pos,
        {
            proof {
                reveal(grammar::block_loop);
                reveal(grammar::parse_stmt);
            }
            match self.kind() {
                TokenKind::Eof => return body,
                TokenKind::RBrace => return body,
                _ => {},
            }
            let begun: usize = self.pos;
            match self.parse_stmt(allowed) {
                Some(stmt) => body.push(stmt),
                None => {
                    let before: usize = self.pos;
                    self.recover_stmt();
                    if self.pos == before {
                        self.bump();
                    }
                    if self.pos == begun {
                        return body;
                    }
                },
            }
        }
    }

    fn parse_branch(&mut self, allowed: &Vec<String>) -> (r: Option<Vec<Stmt>>)
        requires
            old(self).wf(),
        ensures
            final(self).after(*old(self)),
            (opt_stmts(r), final(self).st()) == grammar::parse_branch(
                old(self).src(),
                old(self).st(),
                model::all(allowed@),
            ),
            r is Some ==> final(self).pos > old(self).pos,
        decreases old(self).toks@.len() - old(self).pos, 22nat,
    {
        proof {
            reveal(grammar::parse_branch);
            reveal(grammar::parse_block);
            reveal(grammar::parse_stmt);
        }
        let block = match self.kind() {
            TokenKind::LBrace => true,
            _ => false,
        };
        if block {
            self.parse_block(allowed)
        } else {
            let stmt = self.parse_stmt(allowed)?;
            let mut body: Vec<Stmt> = Vec::new();
            body.push(stmt);
            assert(ast::stmts_view(body@) =~= seq![stmt@]);
            Some(body)
        }
    }

    fn parse_use(&mut self) -> (r: Option<Item>)
        requires
            old(self).wf(),
        ensures
            final(self).after(*old(self)),
            (model::opt(r), final(self).st()) == grammar::parse_use(
                old(self).src(),
                old(self).st(),
            ),
            r is Some ==> final(self).pos > old(self).pos,
    {
        proof {
            reveal(grammar::parse_use);
        }
        let start = self.span().start;
        self.bump();
        let path = self.parse_path()?;
        let grouped = match self.kind() {
            TokenKind::Dot => true,
            _ => false,
        };
        let names = if grouped {
            self.bump();
            let _open = self.expect(TokenKind::LBrace, "`{` after module path")?;
            let names = self.parse_idents()?;
            let _close = self.expect(TokenKind::RBrace, "`}` after imported names")?;
            Some(plain_names(names))
        } else {
            None
        };
        let semi = self.expect(TokenKind::Semi, "`;`")?;
        Some(Item::Use { path, names, span: Span { start, end: semi.end } })
    }

    fn parse_param(&mut self, allowed: &Vec<String>) -> (r: Option<Param>)
        requires
            old(self).wf(),
        ensures
            final(self).after(*old(self)),
            (model::opt(r), final(self).st()) == grammar::parse_param(
                old(self).src(),
                old(self).st(),
                model::all(allowed@),
            ),
            r is Some ==> final(self).pos > old(self).pos,
    {
        proof {
            reveal(grammar::parse_param);
        }
        let (name, name_span) = self.parse_ident()?;
        let typed = match self.kind() {
            TokenKind::Colon => true,
            _ => false,
        };
        if !typed {
            let message = cat3("parameter `", name.as_str(), "` is missing a type");
            let d = Diagnostic::error(message.as_str()).with_label(
                name_span,
                "declared here",
            ).with_label(self.span(), "expected `: type` here").with_note(
                "write `name: type`, e.g. `a: i64`",
            ).with_code("E104");
            self.report(d);
            return Some(Param { name, name_span, ty: None, ty_span: None });
        }
        self.bump();
        match self.parse_type(allowed, true) {
            None => Some(Param { name, name_span, ty: None, ty_span: None }),
            Some((t, sp)) => if t.is_void() {
                let message = cat3("parameter `", name.as_str(), "` cannot be `void`");
                self.report(problem(message.as_str(), sp, "`void` is not a value type", "E104"));
                Some(Param { name, name_span, ty: None, ty_span: Some(sp) })
            } else {
                Some(Param { name, name_span, ty: Some(t), ty_span: Some(sp) })
            },
        }
    }

    fn parse_param_list(&mut self, allowed: &Vec<String>) -> (r: Option<Vec<Param>>)
        requires
            old(self).wf(),
        ensures
            final(self).after(*old(self)),
            (model::opt_all(r), final(self).st()) == grammar::params_loop(
                old(self).src(),
                old(self).st(),
                model::all(allowed@),
                Seq::empty(),
            ),
            r is Some ==> final(self).pos > old(self).pos,
    {
        let mut params: Vec<Param> = Vec::new();
        let ghost goal = grammar::params_loop(
            old(self).src(),
            old(self).st(),
            model::all(allowed@),
            Seq::empty(),
        );
        loop
            invariant
                self.after(*old(self)),
                goal == grammar::params_loop(
                    old(self).src(),
                    old(self).st(),
                    model::all(allowed@),
                    Seq::empty(),
                ),
                goal == grammar::params_loop(
                    self.src(),
                    self.st(),
                    model::all(allowed@),
                    model::all(params@),
                ),
            decreases self.toks@.len() - self.pos,
        {
            proof {
                reveal(grammar::params_loop);
            }
            let p = self.parse_param(allowed)?;
            params.push(p);
            match self.kind() {
                TokenKind::Comma => self.bump(),
                _ => return Some(params),
            }
        }
    }

    fn parse_bound(&mut self) -> (r: Option<Option<GenericBound>>)
        requires
            old(self).wf(),
        ensures
            final(self).after(*old(self)),
            (r, final(self).st()) == grammar::parse_bound(
                old(self).src(),
                old(self).st(),
            ),
    {
        proof {
            reveal(grammar::parse_bound);
        }
        match self.kind() {
            TokenKind::Extends => {},
            _ => return Some(None),
        }
        self.bump();
        let at = self.span();
        match self.kind() {
            TokenKind::Ident(name) => {
                let name = name.clone();
                self.bump();
                match GenericBound::named(name.as_str()) {
                    Ok(bound) => {
                        proof {
                            bound_names_differ();
                        }
                        Some(Some(bound))
                    },
                    Err(_) => {
                        let message = cat3("unknown bound `", name.as_str(), "`");
                        let d = Diagnostic::error(message.as_str()).with_label(
                            at,
                            "expected `Numeric` or `Comparable`",
                        ).with_note(
                            "write `T extends Numeric` or `T extends Comparable`",
                        ).with_code("E105");
                        self.report(d);
                        None
                    },
                }
            },
            _ => {
                self.unexpected(
                    "expected a bound, found ",
                    "expected `Numeric` or `Comparable` here",
                    "E104",
                );
                None
            },
        }
    }

    fn parse_type_param_list(&mut self) -> (r: Option<Vec<TypeParam>>)
        requires
            old(self).wf(),
        ensures
            final(self).after(*old(self)),
            (model::opt_all(r), final(self).st()) == grammar::type_params_loop(
                old(self).src(),
                old(self).st(),
                Seq::empty(),
            ),
            r is Some ==> final(self).pos > old(self).pos,
    {
        let mut params: Vec<TypeParam> = Vec::new();
        let ghost goal = grammar::type_params_loop(
            old(self).src(),
            old(self).st(),
            Seq::empty(),
        );
        loop
            invariant
                self.after(*old(self)),
                goal == grammar::type_params_loop(
                    old(self).src(),
                    old(self).st(),
                    Seq::empty(),
                ),
                goal == grammar::type_params_loop(
                    self.src(),
                    self.st(),
                    model::all(params@),
                ),
            decreases self.toks@.len() - self.pos,
        {
            proof {
                reveal(grammar::type_params_loop);
            }
            let (name, sp) = self.parse_ident()?;
            if VlType::named(name.as_str()).is_ok() {
                let message = cat3("type parameter `", name.as_str(), "` shadows a primitive type");
                self.report(problem(message.as_str(), sp, "pick another name, e.g. `T`", "E104"));
            } else if has_type_param(&params, name.as_str()) {
                let message = cat3("duplicate type parameter `", name.as_str(), "`");
                self.report(problem(message.as_str(), sp, "redefined here", "E200"));
            } else {
                let bound = self.parse_bound()?;
                params.push(TypeParam { name, span: sp, bound });
            }
            match self.kind() {
                TokenKind::Comma => self.bump(),
                _ => return Some(params),
            }
        }
    }

    fn parse_type_params(&mut self) -> (r: Option<Vec<TypeParam>>)
        requires
            old(self).wf(),
        ensures
            final(self).after(*old(self)),
            (model::opt_all(r), final(self).st()) == grammar::parse_type_params(
                old(self).src(),
                old(self).st(),
            ),
    {
        proof {
            reveal(grammar::parse_type_params);
        }
        match self.kind() {
            TokenKind::LBracket => {},
            _ => return Some(Vec::new()),
        }
        self.bump();
        let empty = match self.kind() {
            TokenKind::RBracket => true,
            _ => false,
        };
        if empty {
            let at = self.span();
            self.bump();
            let d = Diagnostic::error("expected at least one type parameter").with_label(
                at,
                "empty `[]` here",
            ).with_note("write `function f[T](...)` or drop the brackets").with_code("E104");
            self.report(d);
            return Some(Vec::new());
        }
        let params = self.parse_type_param_list()?;
        let _close = self.expect(TokenKind::RBracket, "`]` after type parameters")?;
        Some(params)
    }

    fn parse_ret(&mut self, allowed: &Vec<String>) -> (r: (Option<VlType>, Option<Span>))
        requires
            old(self).wf(),
        ensures
            final(self).after(*old(self)),
            ((model::opt(r.0), r.1), final(self).st()) == grammar::parse_ret(
                old(self).src(),
                old(self).st(),
                model::all(allowed@),
            ),
    {
        proof {
            reveal(grammar::parse_ret);
        }
        match self.kind() {
            TokenKind::Colon => {},
            _ => return (Some(VlType::Void), None),
        }
        self.bump();
        match self.parse_type(allowed, true) {
            Some((t, sp)) => (Some(t), Some(sp)),
            None => (None, None),
        }
    }

    fn parse_params(&mut self, allowed: &Vec<String>) -> (r: Option<Vec<Param>>)
        requires
            old(self).wf(),
        ensures
            final(self).after(*old(self)),
            (model::opt_all(r), final(self).st()) == grammar::parse_params(
                old(self).src(),
                old(self).st(),
                model::all(allowed@),
            ),
            r is Some ==> final(self).pos > old(self).pos,
    {
        proof {
            reveal(grammar::parse_params);
        }
        let _open = self.expect(TokenKind::LParen, "`(`")?;
        let params = match self.kind() {
            TokenKind::RParen => Vec::new(),
            _ => self.parse_param_list(allowed)?,
        };
        let _close = self.expect(TokenKind::RParen, "`)`")?;
        Some(params)
    }

    fn parse_function(&mut self) -> (r: Option<FunctionDecl>)
        requires
            old(self).wf(),
        ensures
            final(self).after(*old(self)),
            (model::opt(r), final(self).st()) == grammar::parse_function(
                old(self).src(),
                old(self).st(),
            ),
            r is Some ==> final(self).pos > old(self).pos,
    {
        proof {
            reveal(grammar::parse_function);
        }
        let start = self.span().start;
        let reported: usize = self.diags.len();
        self.bump();
        let (name, name_span) = self.parse_ident()?;
        let type_params = self.parse_type_params()?;
        let allowed = param_names(&type_params);
        let params = self.parse_params(&allowed)?;
        let (ret, ret_span) = self.parse_ret(&allowed);
        let signature_poisoned = self.diags.len() != reported;
        let _open = self.expect(TokenKind::LBrace, "`{` for the function body")?;
        let body = self.parse_stmts(&allowed);
        let close = self.expect(TokenKind::RBrace, "`}`")?;
        Some(
            FunctionDecl {
                name,
                name_span,
                type_params,
                params,
                ret,
                ret_span,
                body,
                signature_poisoned,
                span: Span { start, end: close.end },
            },
        )
    }

    fn parse_object_field(&mut self, fields: &Vec<ObjectField>) -> (r: Option<ObjectField>)
        requires
            old(self).wf(),
        ensures
            final(self).after(*old(self)),
            (model::opt(r), final(self).st()) == grammar::parse_object_field(
                old(self).src(),
                old(self).st(),
                model::all(fields@),
            ),
            r is Some ==> final(self).pos > old(self).pos,
    {
        proof {
            reveal(grammar::parse_object_field);
        }
        let (name, name_span) = self.parse_ident()?;
        let _colon = self.expect(TokenKind::Colon, "`:` after field name")?;
        let fallback = self.span();
        let none: Vec<String> = Vec::new();
        let (ty, ty_span) = match self.parse_type(&none, true) {
            Some((t, sp)) => if t.is_void() {
                self.report(
                    problem(
                        "an object field cannot be `void`",
                        sp,
                        "`void` is not a value type",
                        "E104",
                    ),
                );
                (None, Some(sp))
            } else {
                (Some(t), Some(sp))
            },
            None => (None, Some(fallback)),
        };
        if has_field(fields, name.as_str()) {
            let message = cat3("duplicate object field `", name.as_str(), "`");
            self.report(problem(message.as_str(), name_span, "redefined here", "E200"));
        }
        Some(ObjectField { name, name_span, ty, ty_span })
    }

    fn parse_object_members(&mut self) -> (r: Option<ObjectBody>)
        requires
            old(self).wf(),
        ensures
            final(self).after(*old(self)),
            (model::opt(r), final(self).st()) == grammar::object_loop(
                old(self).src(),
                old(self).st(),
                grammar::ObjectBody { fields: Seq::empty(), methods: Seq::empty() },
            ),
    {
        let mut body = ObjectBody { fields: Vec::new(), methods: Vec::new() };
        let ghost goal = grammar::object_loop(self.src(), self.st(), body@);
        loop
            invariant
                self.after(*old(self)),
                goal == grammar::object_loop(
                    old(self).src(),
                    old(self).st(),
                    grammar::ObjectBody { fields: Seq::empty(), methods: Seq::empty() },
                ),
                goal == grammar::object_loop(self.src(), self.st(), body@),
            decreases self.toks@.len() - self.pos,
        {
            proof {
                reveal(grammar::object_loop);
            }
            let function = match self.kind() {
                TokenKind::Eof => return Some(body),
                TokenKind::RBrace => return Some(body),
                TokenKind::Function => true,
                _ => false,
            };
            if function {
                let f = self.parse_function()?;
                body.methods.push(f);
            } else {
                let f = self.parse_object_field(&body.fields)?;
                body.fields.push(f);
            }
            match self.kind() {
                TokenKind::Comma => self.bump(),
                TokenKind::RBrace => return Some(body),
                _ => {
                    self.unexpected(
                        "expected `,` or `}`, found ",
                        "separate object fields with commas",
                        "E100",
                    );
                    return None;
                },
            }
        }
    }

    fn parse_payload(&mut self, allowed: &Vec<String>) -> (r: Option<Vec<(VlType, Span)>>)
        requires
            old(self).wf(),
        ensures
            final(self).after(*old(self)),
            (match r { Some(v) => Some(ast::payload_view(v@)), None => None }, final(self).st()) == grammar::payload_loop(
                old(self).src(),
                old(self).st(),
                model::all(allowed@),
                Seq::empty(),
            ),
            r is Some ==> final(self).pos > old(self).pos,
    {
        let mut payload: Vec<(VlType, Span)> = Vec::new();
        let ghost goal = grammar::payload_loop(
            old(self).src(),
            old(self).st(),
            model::all(allowed@),
            Seq::empty(),
        );
        loop
            invariant
                self.after(*old(self)),
                goal == grammar::payload_loop(
                    old(self).src(),
                    old(self).st(),
                    model::all(allowed@),
                    Seq::empty(),
                ),
                goal == grammar::payload_loop(
                    self.src(),
                    self.st(),
                    model::all(allowed@),
                    ast::payload_view(payload@),
                ),
            decreases self.toks@.len() - self.pos,
        {
            proof {
                reveal(grammar::payload_loop);
            }
            let (t, sp) = self.parse_type(allowed, true)?;
            if t.is_void() {
                self.report(
                    problem(
                        "a variant payload cannot be `void`",
                        sp,
                        "`void` is not a value type",
                        "E104",
                    ),
                );
                return None;
            }
            payload.push((t, sp));
            match self.kind() {
                TokenKind::Comma => self.bump(),
                _ => return Some(payload),
            }
        }
    }

    fn parse_variant(&mut self, allowed: &Vec<String>, variants: &Vec<UnionVariant>) -> (r: Option<UnionVariant>)
        requires
            old(self).wf(),
        ensures
            final(self).after(*old(self)),
            (model::opt(r), final(self).st()) == grammar::parse_variant(
                old(self).src(),
                old(self).st(),
                model::all(allowed@),
                model::all(variants@),
            ),
            r is Some ==> final(self).pos > old(self).pos,
    {
        proof {
            reveal(grammar::parse_variant);
        }
        let (name, name_span) = self.parse_ident()?;
        if has_variant(variants, name.as_str()) {
            let message = cat3("duplicate union variant `", name.as_str(), "`");
            self.report(problem(message.as_str(), name_span, "redefined here", "E200"));
        }
        let loaded = match self.kind() {
            TokenKind::LParen => true,
            _ => false,
        };
        if loaded {
            self.bump();
            let payload = self.parse_payload(allowed)?;
            let _close = self.expect(TokenKind::RParen, "`)` after the variant payload")?;
            Some(UnionVariant { name, name_span, payload })
        } else {
            Some(UnionVariant { name, name_span, payload: Vec::new() })
        }
    }

    fn parse_variants(&mut self, allowed: &Vec<String>) -> (r: Option<Vec<UnionVariant>>)
        requires
            old(self).wf(),
        ensures
            final(self).after(*old(self)),
            (model::opt_all(r), final(self).st()) == grammar::union_loop(
                old(self).src(),
                old(self).st(),
                model::all(allowed@),
                Seq::empty(),
            ),
    {
        let mut variants: Vec<UnionVariant> = Vec::new();
        let ghost goal = grammar::union_loop(
            old(self).src(),
            old(self).st(),
            model::all(allowed@),
            Seq::empty(),
        );
        loop
            invariant
                self.after(*old(self)),
                goal == grammar::union_loop(
                    old(self).src(),
                    old(self).st(),
                    model::all(allowed@),
                    Seq::empty(),
                ),
                goal == grammar::union_loop(
                    self.src(),
                    self.st(),
                    model::all(allowed@),
                    model::all(variants@),
                ),
            decreases self.toks@.len() - self.pos,
        {
            proof {
                reveal(grammar::union_loop);
            }
            match self.kind() {
                TokenKind::Eof => return Some(variants),
                TokenKind::RBrace => return Some(variants),
                _ => {},
            }
            let v = self.parse_variant(allowed, &variants)?;
            variants.push(v);
            match self.kind() {
                TokenKind::Comma => self.bump(),
                TokenKind::RBrace => return Some(variants),
                _ => {
                    self.unexpected(
                        "expected `,` or `}`, found ",
                        "separate union variants with commas",
                        "E100",
                    );
                    return None;
                },
            }
        }
    }

    fn parse_decl_end(&mut self, what: &str, semi_what: &str) -> (r: Option<usize>)
        requires
            old(self).wf(),
        ensures
            final(self).after(*old(self)),
            (r, final(self).st()) == grammar::parse_decl_end(
                old(self).src(),
                old(self).st(),
                what@,
                semi_what@,
            ),
            r is Some ==> final(self).pos > old(self).pos,
    {
        proof {
            reveal(grammar::parse_decl_end);
        }
        let close = self.expect(TokenKind::RBrace, what)?;
        let semi = self.expect(TokenKind::Semi, semi_what)?;
        Some(if close.end > semi.end { close.end } else { semi.end })
    }

    fn parse_type_item(&mut self) -> (r: Option<Item>)
        requires
            old(self).wf(),
        ensures
            final(self).after(*old(self)),
            (model::opt(r), final(self).st()) == grammar::parse_type_item(
                old(self).src(),
                old(self).st(),
            ),
            r is Some ==> final(self).pos > old(self).pos,
    {
        proof {
            reveal(grammar::parse_type_item);
        }
        let start = self.span().start;
        self.bump();
        let (name, name_span) = self.parse_ident()?;
        if reserved_name(name.as_str()) {
            let message = cat3("object type name `", name.as_str(), "` is reserved");
            let d = Diagnostic::error(message.as_str()).with_label(
                name_span,
                "choose a different object type name",
            ).with_note("object names cannot shadow built-in or legacy type names").with_code(
                "E200",
            );
            self.report(d);
        }
        let type_params = if opens_union(self.toks, self.pos) {
            self.parse_type_params()?
        } else {
            let none: Vec<TypeParam> = Vec::new();
            assert(model::all(none@) =~= Seq::<crate::ast::TypeParamView>::empty());
            none
        };
        let _eq = self.expect(TokenKind::Eq, "`=` after object name")?;
        let union = match self.kind() {
            TokenKind::Union => true,
            _ => false,
        };
        if union {
            self.parse_union_body(start, name, name_span, type_params)
        } else {
            self.parse_object_body(start, name, name_span)
        }
    }

    fn parse_union_body(&mut self, start: usize, name: String, name_span: Span, type_params: Vec<TypeParam>) -> (r: Option<Item>)
        requires
            old(self).wf(),
        ensures
            final(self).after(*old(self)),
            (model::opt(r), final(self).st()) == grammar::parse_union_body(
                old(self).src(),
                old(self).st(),
                start,
                name@,
                name_span,
                model::all(type_params@),
            ),
            r is Some ==> final(self).pos > old(self).pos,
    {
        proof {
            reveal(grammar::parse_union_body);
        }
        self.bump();
        let _open = self.expect(TokenKind::LBrace, "`{` after `union`")?;
        let allowed = param_names(&type_params);
        let variants = self.parse_variants(&allowed)?;
        let end = self.parse_decl_end("`}` after union variants", "`;` after union declaration")?;
        Some(Item::Union { name, name_span, type_params, variants, span: Span { start, end } })
    }

    fn parse_object_body(&mut self, start: usize, name: String, name_span: Span) -> (r: Option<Item>)
        requires
            old(self).wf(),
        ensures
            final(self).after(*old(self)),
            (model::opt(r), final(self).st()) == grammar::parse_object_body(
                old(self).src(),
                old(self).st(),
                start,
                name@,
                name_span,
            ),
            r is Some ==> final(self).pos > old(self).pos,
    {
        proof {
            reveal(grammar::parse_object_body);
        }
        let _object = self.expect(TokenKind::Object, "`object` after `=`")?;
        let _open = self.expect(TokenKind::LBrace, "`{` after `object`")?;
        let body = self.parse_object_members()?;
        let end = self.parse_decl_end("`}` after object fields", "`;` after object declaration")?;
        Some(
            Item::Object {
                name,
                name_span,
                fields: body.fields,
                methods: body.methods,
                span: Span { start, end },
            },
        )
    }

    fn parse_item(&mut self) -> (r: Option<Item>)
        requires
            old(self).wf(),
        ensures
            final(self).after(*old(self)),
            (model::opt(r), final(self).st()) == grammar::parse_item(
                old(self).src(),
                old(self).st(),
            ),
            r is Some ==> final(self).pos > old(self).pos,
    {
        proof {
            reveal(grammar::parse_item);
        }
        match self.kind() {
            TokenKind::Function => {
                let f = self.parse_function()?;
                Some(
                    Item::Function {
                        name: f.name,
                        name_span: f.name_span,
                        type_params: f.type_params,
                        params: f.params,
                        ret: f.ret,
                        ret_span: f.ret_span,
                        body: f.body,
                        signature_poisoned: f.signature_poisoned,
                        span: f.span,
                    },
                )
            },
            TokenKind::Type => self.parse_type_item(),
            TokenKind::Eof => None,
            TokenKind::Invalid => {
                self.bump();
                None
            },
            TokenKind::Ident(name) if str_eq(name.as_str(), "use") => self.parse_use(),
            k => match binder(k) {
                Some(bound) => {
                    let none: Vec<String> = Vec::new();
                    let b = self.parse_binding(&none, bound)?;
                    Some(b.into_item())
                },
                None => {
                    self.unexpected(
                        "expected an item (`use`, `let`, `function` or `type`), found ",
                        "items start with `use`, `let`, `function`, or `type`",
                        "E101",
                    );
                    None
                },
            },
        }
    }

    /// Reads items up to the end of the file, skipping those that cannot be read.
    fn parse_items(&mut self) -> (r: Vec<Item>)
        requires
            old(self).wf(),
        ensures
            final(self).after(*old(self)),
            (model::all(r@), final(self).st()) == grammar::items_loop(
                old(self).src(),
                old(self).st(),
                Seq::empty(),
            ),
    {
        let mut items: Vec<Item> = Vec::new();
        let ghost goal = grammar::items_loop(self.src(), self.st(), Seq::empty());
        loop
            invariant
                self.after(*old(self)),
                goal == grammar::items_loop(old(self).src(), old(self).st(), Seq::empty()),
                goal == grammar::items_loop(self.src(), self.st(), model::all(items@)),
            decreases self.toks@.len() - self.pos,
        {
            proof {
                reveal(grammar::items_loop);
            }
            if self.at_eof() {
                return items;
            }
            let begun: usize = self.pos;
            match self.parse_item() {
                Some(item) => items.push(item),
                None => {
                    let before: usize = self.pos;
                    self.recover_item();
                    if self.pos == before {
                        self.bump();
                    }
                    if self.pos == begun {
                        return items;
                    }
                },
            }
        }
    }
}

proof fn path_loop_grows(c: Source, s: State, path: Seq<Seq<char>>)
    ensures
        grammar::path_loop(c, s, path).0 matches Some(p) ==> p.len() >= path.len(),
    decreases grammar::left(c, s),
{
    if grammar::kind(c, s) is Dot && !(grammar::kind_at(c, s.pos + 1) is LBrace) && !(
    grammar::kind_at(c, s.pos + 1) is Backtick) {
        let s1 = grammar::bump(c, s);
        match grammar::parse_ident(c, s1) {
            (None, _) => {},
            (Some(n), s2) => path_loop_grows(c, grammar::adv(s1, s2), path.push(n.0)),
        }
    }
}

proof fn path_is_nonempty(c: Source, s: State)
    ensures
        grammar::parse_path(c, s).0 matches Some(p) ==> p.len() >= 1,
{
    reveal(grammar::parse_path);
    match grammar::parse_ident(c, s) {
        (None, _) => {},
        (Some(n), s1) => path_loop_grows(c, s1, seq![n.0]),
    }
}

proof fn bound_names_differ()
    ensures
        "Numeric"@ != "Comparable"@,
{
    reveal_strlit("Numeric");
    reveal_strlit("Comparable");
    assert("Numeric"@.len() != "Comparable"@.len());
}

/// Parses an anonymous module.
pub fn parse(toks: &[Token], src: &str) -> (r: (Program, Vec<Diagnostic>))
    requires
        toks@.len() > 0,
        toks@[toks@.len() - 1].kind@ is Eof,
    ensures
        (r.0@, model::all(r.1@)) == grammar::parsed(model::all(toks@), "<anonymous>"@),
{
    parse_with_module(toks, src, "<anonymous>")
}

/// Parses a module of the given name. The tokens end with the end of the file.
pub fn parse_with_module(toks: &[Token], _src: &str, module: &str) -> (r: (Program, Vec<Diagnostic>))
    requires
        toks@.len() > 0,
        toks@[toks@.len() - 1].kind@ is Eof,
    ensures
        (r.0@, model::all(r.1@)) == grammar::parsed(model::all(toks@), module@),
{
    let known = known_types(toks);
    let mut p = Parser { toks, pos: 0, diags: Vec::new(), known };
    let items = p.parse_items();
    (Program { module: owned(module), items }, p.diags)
}

} // verus!
