//! What the parser makes of a token sequence.
//!
//! ```text
//! program     := item*
//! item        := `use` path (`.` `{` ident (`,` ident)* `}`)? `;`
//!              | binder (ident | pattern) (`:` type)? `=` expr `;`
//!              | function
//!              | `type` ident type-params? `=` (object | union) `;`
//! binder      := `let` | `val` | `var`
//! pattern     := `#` `(` (ident `:`)? ident (`,` (ident `:`)? ident)* `)`
//! function    := (`function` | `fun`) ident type-params? `(` params? `)` (`:` type)? block
//! object      := `object` `{` ((ident `:` type | function) `,`?)* `}`
//! union       := `union` `{` (ident (`(` type (`,` type)* `)`)? `,`?)* `}`
//! type-params := `[` ident (`extends` bound)? (`,` ident (`extends` bound)?)* `]`
//! type        := name | `Array` `[` type `]` | `*` type | `?` type | `#` `(` fields `)`
//! stmt        := binding | assignment | if | match | while | break | continue | return | expr `;`
//! match       := `match` `(` expr `)` `{` arm* (`else` block)? `}`
//! arm         := (path (`(` ident (`,` ident)* `)`)? | `null`) block
//! expr        := binary operators over casts over postfix expressions
//! ```
//!
//! A piece that cannot be read is reported and skipped up to the next
//! statement or item, so one error does not hide what follows it.

use vstd::prelude::*;

use crate::ast::{
    BinOp, BindingKind, DestructureBindingView, ExprView, FunctionDeclView, ItemView, MatchArmView,
    ParamView, ProgramView, Scalar, StmtView, TypeParamView, UnOp, UnionVariantView,
};
use crate::diagnostic::{error_view, DiagnosticView};
use crate::span::Span;
use crate::token::{TokenKindView, TokenView};
use crate::ty::{GenericBound, TypeView};
use crate::{token, ty};

verus! {

/// What the parser reads: the tokens, and the names of the declared types.
pub struct Source {
    pub toks: Seq<TokenView>,
    pub known: Seq<Seq<char>>,
}

/// How far the parser has come, and what it has reported.
pub struct State {
    pub pos: int,
    pub diags: Seq<DiagnosticView>,
}

/// A name and where it stands.
pub type Name = (Seq<char>, Span);

/// The kind of the token at a position; the end of the file behind the last.
pub open spec fn kind_at(c: Source, i: int) -> TokenKindView {
    if 0 <= i < c.toks.len() {
        c.toks[i].kind
    } else {
        TokenKindView::Eof
    }
}

/// How many tokens are left.
pub open spec fn left(c: Source, s: State) -> nat {
    if s.pos <= c.toks.len() {
        (c.toks.len() - s.pos) as nat
    } else {
        0
    }
}

/// The kind of the next token.
pub open spec fn kind(c: Source, s: State) -> TokenKindView {
    kind_at(c, s.pos)
}

/// The place of the next token.
pub open spec fn span(c: Source, s: State) -> Span {
    c.toks[s.pos].span
}

/// The end of the token before the next one.
pub open spec fn prev_end(c: Source, s: State) -> usize {
    c.toks[s.pos - 1].span.end
}

/// Passing over the next token; the end of the file is never passed.
pub open spec fn bump(c: Source, s: State) -> State {
    if kind(c, s) is Eof {
        s
    } else {
        State { pos: s.pos + 1, ..s }
    }
}

/// `t`, but never before `s`.
pub open spec fn adv(s: State, t: State) -> State {
    if t.pos < s.pos {
        State { pos: s.pos, ..t }
    } else {
        t
    }
}

/// Reporting a problem.
pub open spec fn report(s: State, d: DiagnosticView) -> State {
    State { diags: s.diags.push(d), ..s }
}

/// Whether the names hold a name.
pub open spec fn has_name(names: Seq<Seq<char>>, name: Seq<char>) -> bool {
    exists|i: int| 0 <= i < names.len() && #[trigger] names[i] == name
}

/// The first token at or behind a position that closes a bracket or ends the
/// file.
pub open spec fn close_bracket(toks: Seq<TokenView>, i: int) -> int
    decreases toks.len() - i,
{
    if i < 0 || i >= toks.len() || toks[i].kind is RBracket || toks[i].kind is Eof {
        i
    } else {
        close_bracket(toks, i + 1)
    }
}

/// Whether a bracket at a position starts the type parameters of a union: only
/// unions are generic, so elsewhere `=` is due.
pub open spec fn opens_union(toks: Seq<TokenView>, i: int) -> bool {
    let k = close_bracket(toks, i + 1);
    &&& 0 <= i < toks.len() && toks[i].kind is LBracket
    &&& k + 2 < toks.len() && toks[k + 1].kind is Eq && toks[k + 2].kind is Union
}

/// The name of the type that a declaration at a position introduces.
pub open spec fn declared_at(toks: Seq<TokenView>, i: int) -> Option<Seq<char>> {
    if 0 <= i && i + 3 < toks.len() && toks[i].kind is Type && toks[i + 1].kind is Ident && (
    opens_union(toks, i + 2) || (toks[i + 2].kind is Eq && (toks[i + 3].kind is Object
        || toks[i + 3].kind is Union))) {
        Some(toks[i + 1].kind->Ident_0)
    } else {
        None
    }
}

/// The names of the types declared among the first `n` positions.
pub open spec fn known_types(toks: Seq<TokenView>, n: int) -> Seq<Seq<char>>
    decreases n,
{
    if n <= 0 {
        Seq::empty()
    } else {
        let front = known_types(toks, n - 1);
        match declared_at(toks, n - 1) {
            Some(name) => front.push(name),
            None => front,
        }
    }
}

/// A diagnostic about one place.
pub open spec fn problem(
    message: Seq<char>,
    at: Span,
    remark: Seq<char>,
    code: Seq<char>,
) -> DiagnosticView {
    error_view(message).label(at, remark).coded(code)
}

/// Passing over a token of the given kind, or reporting that it is missing.
pub open spec fn expect(c: Source, s: State, want: TokenKindView, what: Seq<char>) -> (
    Option<Span>,
    State,
) {
    if token::kind_tag(kind(c, s)) == token::kind_tag(want) {
        (Some(span(c, s)), bump(c, s))
    } else {
        (
            None,
            report(
                s,
                problem(
                    "expected "@ + what + ", found "@ + token::kind_text(kind(c, s)),
                    span(c, s),
                    "unexpected token here"@,
                    "E100"@,
                ),
            ),
        )
    }
}

/// Reading a name.
pub open spec fn parse_ident(c: Source, s: State) -> (Option<Name>, State) {
    match kind(c, s) {
        TokenKindView::Ident(n) => (Some((n, span(c, s))), bump(c, s)),
        k => (
            None,
            report(
                s,
                problem(
                    "expected a name, found "@ + token::kind_text(k),
                    span(c, s),
                    "expected identifier here"@,
                    "E102"@,
                ),
            ),
        ),
    }
}

/// Reading the rest of a dotted path.
pub open spec fn path_loop(c: Source, s: State, path: Seq<Seq<char>>) -> (
    Option<Seq<Seq<char>>>,
    State,
)
    decreases left(c, s),
{
    if kind(c, s) is Dot && !(kind_at(c, s.pos + 1) is LBrace) && !(kind_at(c, s.pos + 1)
        is Backtick) {
        let s1 = bump(c, s);
        match parse_ident(c, s1) {
            (None, s2) => (None, s2),
            (Some(n), s2) => path_loop(c, adv(s1, s2), path.push(n.0)),
        }
    } else {
        (Some(path), s)
    }
}

/// Reading a dotted path.
#[verifier::opaque]
pub open spec fn parse_path(c: Source, s: State) -> (Option<Seq<Seq<char>>>, State) {
    match parse_ident(c, s) {
        (None, s1) => (None, s1),
        (Some(n), s1) => path_loop(c, s1, seq![n.0]),
    }
}

/// Reading names up to the first that no comma follows.
pub open spec fn idents_loop(c: Source, s: State, names: Seq<Name>) -> (Option<Seq<Name>>, State)
    decreases left(c, s),
{
    match parse_ident(c, s) {
        (None, s1) => (None, s1),
        (Some(n), s1) => if kind(c, s1) is Comma && s1.pos > s.pos {
            idents_loop(c, bump(c, s1), names.push(n))
        } else {
            (Some(names.push(n)), s1)
        },
    }
}

/// The names without their places.
pub open spec fn plain_names(names: Seq<Name>) -> Seq<Seq<char>> {
    Seq::new(names.len(), |i: int| names[i].0)
}

// ---------------------------------------------------------------------------
// Types
// ---------------------------------------------------------------------------

/// What a name means as a type, behind it.
pub open spec fn type_of_name(
    c: Source,
    s: State,
    name: Seq<char>,
    at: Span,
    allowed: Seq<Seq<char>>,
    strict: bool,
) -> (Option<(TypeView, Span)>, State) {
    if name == "Array"@ && !has_name(allowed, "Array"@) {
        (
            None,
            report(
                s,
                problem(
                    "`Array` expects an element type"@,
                    at,
                    "write `Array[T]`, e.g. `Array[u64]`"@,
                    "E104"@,
                ),
            ),
        )
    } else if name == "U64Array"@ {
        (
            None,
            report(
                s,
                problem(
                    "unknown type `U64Array`"@,
                    at,
                    "`U64Array` was removed; use `Array[u64]`"@,
                    "E105"@,
                ),
            ),
        )
    } else if name == "string"@ {
        (
            None,
            report(
                s,
                problem(
                    "unknown type `string`"@,
                    at,
                    "`string` was renamed; use `String`"@,
                    "E105"@,
                ),
            ),
        )
    } else if name == "file"@ {
        (
            None,
            report(
                s,
                problem(
                    "unknown type `file`"@,
                    at,
                    "reference types are uppercase; use `File`"@,
                    "E105"@,
                ),
            ),
        )
    } else {
        match ty::named_type(name) {
            Some(t) => (Some((t, at)), s),
            None => if has_name(allowed, name) {
                (Some((TypeView::Param(name), at)), s)
            } else if has_name(c.known, name) {
                (Some((TypeView::Object(name), at)), s)
            } else if !strict {
                (Some((TypeView::Param(name), at)), s)
            } else {
                (
                    None,
                    report(
                        s,
                        problem(
                            "unknown type `"@ + name
                                + "` (have: u64, i64, f64, bool, u8, String, File, Array[T], object types, void)"@,
                            at,
                            "unknown type here"@,
                            "E105"@,
                        ),
                    ),
                )
            },
        }
    }
}

/// Reading a type. `allowed` are the type parameters in scope; unknown names
/// are taken for type parameters unless `strict`.
#[verifier::opaque]
pub open spec fn parse_type(c: Source, s: State, allowed: Seq<Seq<char>>, strict: bool) -> (
    Option<(TypeView, Span)>,
    State,
)
    decreases left(c, s), 2nat,
{
    let at = span(c, s);
    let s1 = bump(c, s);
    match kind(c, s) {
        TokenKindView::Ident(name) => if name == "Array"@ && !has_name(allowed, "Array"@)
            && kind_at(c, s.pos + 1) is LBracket {
            parse_array_type(c, s, allowed, strict)
        } else {
            type_of_name(c, s1, name, at, allowed, strict)
        },
        TokenKindView::Star => match parse_type(c, s1, allowed, strict) {
            (None, s2) => (None, s2),
            (Some((t, sp)), s2) => {
                let whole = TypeView::Mutable(Box::new(t));
                let place = Span { start: at.start, end: sp.end };
                match ty::capability_error(whole) {
                    Some(m) => (
                        None,
                        report(s2, problem(m, place, "not a mutable view of a reference type"@, "E104"@)),
                    ),
                    None => (Some((whole, place)), s2),
                }
            },
        },
        TokenKindView::Question => match parse_type(c, s1, allowed, strict) {
            (None, s2) => (None, s2),
            (Some((t, sp)), s2) => {
                let place = Span { start: at.start, end: sp.end };
                if ty::void_like(t) {
                    (
                        None,
                        report(
                            s2,
                            problem(
                                "`?void` is not a value type"@,
                                place,
                                "`void` has no values"@,
                                "E104"@,
                            ),
                        ),
                    )
                } else {
                    (Some((TypeView::Nullable(Box::new(t)), place)), s2)
                }
            },
        },
        TokenKindView::Hash => match expect(
            c,
            s1,
            TokenKindView::LParen,
            "`(` after `#` in a tuple type"@,
        ) {
            (None, s2) => (None, s2),
            (Some(_), s2) => match tuple_type_loop(c, adv(s1, s2), allowed, strict, Seq::empty()) {
                (None, s3) => (None, s3),
                (Some(fields), s3) => match expect(
                    c,
                    s3,
                    TokenKindView::RParen,
                    "`)` after tuple fields"@,
                ) {
                    (None, s4) => (None, s4),
                    (Some(close), s4) => (
                        Some(
                            (TypeView::Tuple(fields), Span { start: at.start, end: close.end }),
                        ),
                        s4,
                    ),
                },
            },
        },
        k => (
            None,
            report(
                s,
                problem(
                    "expected a type, found "@ + token::kind_text(k),
                    at,
                    "expected a built-in type, an object type, Array[T], or void"@,
                    "E104"@,
                ),
            ),
        ),
    }
}

/// Reading `Array[T]`.
#[verifier::opaque]
pub open spec fn parse_array_type(
    c: Source,
    s: State,
    allowed: Seq<Seq<char>>,
    strict: bool,
) -> (Option<(TypeView, Span)>, State)
    decreases left(c, s), 1nat,
    when 0 <= s.pos < c.toks.len() && !(kind(c, s) is Eof)
{
    let head = span(c, s);
    let s1 = bump(c, bump(c, s));
    match parse_type(c, adv(bump(c, s), s1), allowed, strict) {
        (None, s2) => (None, s2),
        (Some((t, _)), s2) => if ty::void_like(t) {
            (
                None,
                report(
                    s2,
                    problem(
                        "`Array[void]` is not a value type"@,
                        head,
                        "`void` has no values to store"@,
                        "E104"@,
                    ),
                ),
            )
        } else {
            match expect(c, s2, TokenKindView::RBracket, "`]` after the element type"@) {
                (None, s3) => (None, s3),
                (Some(close), s3) => (
                    Some(
                        (
                            TypeView::Array(Box::new(t)),
                            Span { start: head.start, end: close.end },
                        ),
                    ),
                    s3,
                ),
            }
        },
    }
}

/// Reading the fields of a tuple type up to the first that no comma follows.
#[verifier::opaque]
pub open spec fn tuple_type_loop(
    c: Source,
    s: State,
    allowed: Seq<Seq<char>>,
    strict: bool,
    fields: Seq<(Option<Seq<char>>, TypeView)>,
) -> (Option<Seq<(Option<Seq<char>>, TypeView)>>, State)
    decreases left(c, s), 3nat,
{
    let named = kind(c, s) is Ident && kind_at(c, s.pos + 1) is Colon;
    let name = if named {
        Some(kind(c, s)->Ident_0)
    } else {
        None
    };
    let s1 = if named {
        adv(s, bump(c, bump(c, s)))
    } else {
        s
    };
    match parse_type(c, s1, allowed, strict) {
        (None, s2) => (None, s2),
        (Some((t, sp)), s2) => if ty::void_like(t) {
            (
                None,
                report(
                    s2,
                    problem(
                        "a tuple field cannot be `void`"@,
                        sp,
                        "`void` is not a value type"@,
                        "E104"@,
                    ),
                ),
            )
        } else if kind(c, s2) is Comma && s2.pos > s.pos {
            tuple_type_loop(c, bump(c, s2), allowed, strict, fields.push((name, t)))
        } else {
            (Some(fields.push((name, t))), s2)
        },
    }
}

/// Reading the optional annotation of a binding.
#[verifier::opaque]
pub open spec fn parse_let_ann(c: Source, s: State, allowed: Seq<Seq<char>>) -> (
    (Option<TypeView>, Option<Span>),
    State,
) {
    if !(kind(c, s) is Colon) {
        ((None, None), s)
    } else {
        let s1 = bump(c, s);
        let fallback = span(c, s1);
        match parse_type(c, s1, allowed, true) {
            (Some((t, sp)), s2) => if ty::void_like(t) {
                (
                    (None, Some(sp)),
                    report(
                        s2,
                        problem(
                            "a `let` binding cannot be `void`"@,
                            sp,
                            "`void` is not a value"@,
                            "E104"@,
                        ),
                    ),
                )
            } else {
                ((Some(t), Some(sp)), s2)
            },
            (None, s2) => ((None, Some(fallback)), s2),
        }
    }
}

/// Reading explicit type arguments, where there are any.
#[verifier::opaque]
pub open spec fn parse_type_args(c: Source, s: State) -> (
    Option<(Seq<TypeView>, Option<Span>)>,
    State,
) {
    if !(kind(c, s) is ColonColon) || !(kind_at(c, s.pos + 1) is LBracket) {
        (Some((Seq::empty(), None)), s)
    } else {
        let s1 = bump(c, s);
        let open = span(c, s1);
        let s2 = bump(c, s1);
        match types_loop(c, s2, Seq::empty()) {
            (None, s3) => (None, s3),
            (Some(args), s3) => match expect(
                c,
                s3,
                TokenKindView::RBracket,
                "`]` after type arguments"@,
            ) {
                (None, s4) => (None, s4),
                (Some(close), s4) => (
                    Some((args, Some(Span { start: open.start, end: close.end }))),
                    s4,
                ),
            },
        }
    }
}

/// Reading type arguments up to the first that no comma follows.
#[verifier::opaque]
pub open spec fn types_loop(c: Source, s: State, args: Seq<TypeView>) -> (
    Option<Seq<TypeView>>,
    State,
)
    decreases left(c, s),
{
    match parse_type(c, s, Seq::empty(), false) {
        (None, s1) => (None, s1),
        (Some((t, _)), s1) => if kind(c, s1) is Comma && s1.pos > s.pos {
            types_loop(c, bump(c, s1), args.push(t))
        } else {
            (Some(args.push(t)), s1)
        },
    }
}

// ---------------------------------------------------------------------------
// Expressions
// ---------------------------------------------------------------------------

/// The binary operator that a token is at a level of precedence: from `*` at
/// level 0 to `||` at level 5.
pub open spec fn operator(k: TokenKindView, level: nat) -> Option<BinOp> {
    match k {
        TokenKindView::Star => if level == 0 {
            Some(BinOp::Mul)
        } else {
            None
        },
        TokenKindView::Slash => if level == 0 {
            Some(BinOp::Div)
        } else {
            None
        },
        TokenKindView::Plus => if level == 1 {
            Some(BinOp::Add)
        } else {
            None
        },
        TokenKindView::Minus => if level == 1 {
            Some(BinOp::Sub)
        } else {
            None
        },
        TokenKindView::Lt => if level == 2 {
            Some(BinOp::Lt)
        } else {
            None
        },
        TokenKindView::LtEq => if level == 2 {
            Some(BinOp::Le)
        } else {
            None
        },
        TokenKindView::Gt => if level == 2 {
            Some(BinOp::Gt)
        } else {
            None
        },
        TokenKindView::GtEq => if level == 2 {
            Some(BinOp::Ge)
        } else {
            None
        },
        TokenKindView::EqEq => if level == 3 {
            Some(BinOp::Eq)
        } else {
            None
        },
        TokenKindView::BangEq => if level == 3 {
            Some(BinOp::Ne)
        } else {
            None
        },
        TokenKindView::AmpAmp => if level == 4 {
            Some(BinOp::And)
        } else {
            None
        },
        TokenKindView::PipePipe => if level == 5 {
            Some(BinOp::Or)
        } else {
            None
        },
        _ => None,
    }
}

/// A binary operation over two operands.
pub open spec fn binary(op: BinOp, lhs: ExprView, rhs: ExprView) -> ExprView {
    ExprView::Binary {
        op,
        lhs: Box::new(lhs),
        rhs: Box::new(rhs),
        span: lhs.span().joined(rhs.span()),
    }
}

/// Reading an expression.
pub open spec fn parse_expr(c: Source, s: State) -> (Option<ExprView>, State)
    decreases left(c, s), 41nat,
{
    parse_level(c, s, 5)
}

/// Reading an expression of binary operators of a level, left to right.
#[verifier::opaque]
pub open spec fn parse_level(c: Source, s: State, level: nat) -> (Option<ExprView>, State)
    decreases left(c, s), 20 + 4 * level,
{
    match parse_operand(c, s, level) {
        (None, s1) => (None, s1),
        (Some(lhs), s1) => level_loop(c, adv(s, s1), level, lhs),
    }
}

/// Reading further operators of a level and their right operands.
#[verifier::opaque]
pub open spec fn level_loop(c: Source, s: State, level: nat, lhs: ExprView) -> (
    Option<ExprView>,
    State,
)
    decreases left(c, s), 1nat,
{
    match operator(kind(c, s), level) {
        None => (Some(lhs), s),
        Some(op) => {
            let s1 = bump(c, s);
            match parse_operand(c, s1, level) {
                (None, s2) => (None, s2),
                (Some(rhs), s2) => level_loop(c, adv(s1, s2), level, binary(op, lhs, rhs)),
            }
        },
    }
}

/// Reading an operand of a level: an expression of the level below, where casts
/// stand between comparison and equality.
#[verifier::opaque]
pub open spec fn parse_operand(c: Source, s: State, level: nat) -> (Option<ExprView>, State)
    decreases left(c, s), 19 + 4 * level,
{
    if level == 0 {
        parse_unary(c, s)
    } else if level == 3 {
        parse_cast(c, s)
    } else {
        parse_level(c, s, (level - 1) as nat)
    }
}

/// Reading a comparison and the casts behind it.
#[verifier::opaque]
pub open spec fn parse_cast(c: Source, s: State) -> (Option<ExprView>, State)
    decreases left(c, s), 29nat,
{
    match parse_level(c, s, 2) {
        (None, s1) => (None, s1),
        (Some(e), s1) => cast_loop(c, s1, e),
    }
}

/// Reading casts behind an expression.
#[verifier::opaque]
pub open spec fn cast_loop(c: Source, s: State, e: ExprView) -> (Option<ExprView>, State)
    decreases left(c, s),
{
    if kind(c, s) is As {
        let s1 = bump(c, s);
        match parse_type(c, s1, Seq::empty(), true) {
            (None, s2) => (None, s2),
            (Some((t, sp)), s2) => cast_loop(
                c,
                adv(s1, s2),
                ExprView::Cast {
                    inner: Box::new(e),
                    target: t,
                    target_span: sp,
                    span: Span { start: e.span().start, end: sp.end },
                },
            ),
        }
    } else {
        (Some(e), s)
    }
}

/// Reading a unary operation or a postfix expression.
#[verifier::opaque]
pub open spec fn parse_unary(c: Source, s: State) -> (Option<ExprView>, State)
    decreases left(c, s), 10nat,
{
    if kind(c, s) is Minus || kind(c, s) is Bang {
        let op = if kind(c, s) is Minus {
            UnOp::Neg
        } else {
            UnOp::Not
        };
        match parse_unary(c, bump(c, s)) {
            (None, s1) => (None, s1),
            (Some(rhs), s1) => (
                Some(
                    ExprView::Unary {
                        op,
                        rhs: Box::new(rhs),
                        span: Span { start: span(c, s).start, end: rhs.span().end },
                    },
                ),
                s1,
            ),
        }
    } else {
        parse_postfix(c, s)
    }
}

/// Reading a primary expression and the indices and fields behind it.
#[verifier::opaque]
pub open spec fn parse_postfix(c: Source, s: State) -> (Option<ExprView>, State)
    decreases left(c, s), 9nat,
{
    match parse_primary(c, s) {
        (None, s1) => (None, s1),
        (Some(e), s1) => postfix_loop(c, adv(s, s1), e, false),
    }
}

/// Reading indices and fields behind an expression.
#[verifier::opaque]
pub open spec fn postfix_loop(c: Source, s: State, base: ExprView, indexed: bool) -> (
    Option<ExprView>,
    State,
)
    decreases left(c, s), 1nat,
{
    let s1 = bump(c, s);
    let start = base.span().start;
    if kind(c, s) is LBracket {
        match parse_expr(c, s1) {
            (None, s2) => (None, s2),
            (Some(index), s2) => match expect(c, s2, TokenKindView::RBracket, "`]`"@) {
                (None, s3) => (None, s3),
                (Some(close), s3) => postfix_loop(
                    c,
                    adv(s1, s3),
                    ExprView::Index {
                        base: Box::new(base),
                        index: Box::new(index),
                        span: Span { start, end: close.end },
                    },
                    true,
                ),
            },
        }
    } else if kind(c, s) is Dot && kind(c, s1) is Backtick {
        let s2 = bump(c, s1);
        match kind(c, s2) {
            TokenKindView::Int(v) if v >= 0 && v <= u32::MAX => postfix_loop(
                c,
                adv(s1, bump(c, s2)),
                ExprView::TupleIndex {
                    base: Box::new(base),
                    index: v as usize,
                    index_span: span(c, s2),
                    span: Span { start, end: span(c, s2).end },
                },
                indexed,
            ),
            k => (
                None,
                report(
                    s2,
                    problem(
                        "expected a tuple position, found "@ + token::kind_text(k),
                        span(c, s2),
                        "write the position of a field"@,
                        "E103"@,
                    ),
                ),
            ),
        }
    } else if kind(c, s) is Dot {
        match parse_ident(c, s1) {
            (None, s2) => (None, s2),
            (Some((name, sp)), s2) => postfix_loop(
                c,
                adv(s1, s2),
                ExprView::Field {
                    base: Box::new(base),
                    name,
                    span: Span { start, end: sp.end },
                },
                indexed,
            ),
        }
    } else if indexed && kind(c, s) is LParen {
        (
            None,
            report(
                s,
                error_view("cannot call an index expression"@).label(
                    base.span(),
                    "this is `path[index]`, not a generic call"@,
                ).label(
                    span(c, s),
                    "explicit type arguments use `::`: write `f::[T](...)`"@,
                ).coded("E103"@),
            ),
        )
    } else {
        (Some(base), s)
    }
}

/// The scalar that a literal token holds.
pub open spec fn literal(k: TokenKindView) -> Option<Scalar> {
    match k {
        TokenKindView::Int(v) => Some(Scalar::Int(v)),
        TokenKindView::I64(v) => Some(Scalar::I64(v)),
        TokenKindView::U64(v) => Some(Scalar::U64(v)),
        TokenKindView::F64(v) => Some(Scalar::F64(v)),
        TokenKindView::U8(v) => Some(Scalar::U8(v)),
        TokenKindView::Bool(v) => Some(Scalar::Bool(v)),
        _ => None,
    }
}

/// A dotted path as a variable and the fields read of it.
pub open spec fn field_chain(path: Seq<Seq<char>>, head: Span, whole: Span) -> ExprView
    decreases path.len(),
{
    if path.len() <= 1 {
        ExprView::Var { path, span: head }
    } else {
        ExprView::Field {
            base: Box::new(field_chain(path.drop_last(), head, whole)),
            name: path.last(),
            span: whole,
        }
    }
}

/// Reading a primary expression.
#[verifier::opaque]
pub open spec fn parse_primary(c: Source, s: State) -> (Option<ExprView>, State)
    decreases left(c, s), 8nat,
{
    let at = span(c, s);
    let s1 = bump(c, s);
    match kind(c, s) {
        TokenKindView::String(v) => (Some(ExprView::String(v, at)), s1),
        TokenKindView::Null => (Some(ExprView::Null(at)), s1),
        TokenKindView::Ident(_) => parse_named(c, s),
        TokenKindView::LParen => match parse_expr(c, s1) {
            (None, s2) => (None, s2),
            (Some(e), s2) => match expect(c, s2, TokenKindView::RParen, "`)`"@) {
                (None, s3) => (None, s3),
                (Some(_), s3) => (Some(e), s3),
            },
        },
        TokenKindView::LBracket => match (if kind(c, s1) is RBracket {
            (Some(Seq::<ExprView>::empty()), s1)
        } else {
            exprs_loop(c, s1, Seq::empty(), true)
        }) {
            (None, s2) => (None, s2),
            (Some(elems), s2) => match expect(c, s2, TokenKindView::RBracket, "`]`"@) {
                (None, s3) => (None, s3),
                (Some(close), s3) => (
                    Some(
                        ExprView::ArrayLiteral {
                            elems,
                            span: Span { start: at.start, end: close.end },
                        },
                    ),
                    s3,
                ),
            },
        },
        TokenKindView::Hash => match expect(
            c,
            s1,
            TokenKindView::LParen,
            "`(` after `#` in a tuple"@,
        ) {
            (None, s2) => (None, s2),
            (Some(_), s2) => match tuple_loop(c, adv(s1, s2), Seq::empty()) {
                (None, s3) => (None, s3),
                (Some(elems), s3) => match expect(
                    c,
                    s3,
                    TokenKindView::RParen,
                    "`)` after tuple elements"@,
                ) {
                    (None, s4) => (None, s4),
                    (Some(close), s4) => (
                        Some(
                            ExprView::TupleLiteral {
                                elems,
                                span: Span { start: at.start, end: close.end },
                            },
                        ),
                        s4,
                    ),
                },
            },
        },
        TokenKindView::Invalid => (None, s1),
        k => match literal(k) {
            Some(v) => (Some(ExprView::Literal(v, at)), s1),
            None => (
                None,
                report(
                    s,
                    problem(
                        "expected an expression, found "@ + token::kind_text(k),
                        at,
                        "expected value here"@,
                        "E103"@,
                    ),
                ),
            ),
        },
    }
}

/// Reading what starts with a name: an object literal, a call, or a variable
/// with fields.
#[verifier::opaque]
pub open spec fn parse_named(c: Source, s: State) -> (Option<ExprView>, State)
    decreases left(c, s), 7nat,
    when 0 <= s.pos < c.toks.len() && kind(c, s) is Ident
{
    let at = span(c, s);
    match parse_path(c, s) {
        (None, s1) => (None, s1),
        (Some(path), s1) => {
            let s1 = adv(bump(c, s), s1);
            let whole = Span { start: at.start, end: prev_end(c, s1) };
            if path.len() == 1 && kind(c, s1) is LBrace {
                parse_object_literal(c, s1, path[0], at)
            } else {
                match parse_type_args(c, s1) {
                    (None, s2) => (None, s2),
                    (Some((type_args, type_args_span)), s2) => {
                        let s2 = adv(s1, s2);
                        if type_args.len() > 0 && !(kind(c, s2) is LParen) {
                            (
                                None,
                                report(
                                    s2,
                                    error_view("expected `(...)` after type arguments"@).label(
                                        span(c, s2),
                                        "explicit type arguments only apply to calls"@,
                                    ).noted(
                                        "write `f::[T](args)`; `f::[T]` alone is not a value"@,
                                    ).coded("E103"@),
                                ),
                            )
                        } else if kind(c, s2) is LParen {
                            let s3 = bump(c, s2);
                            match (if kind(c, s3) is RParen {
                                (Some(Seq::<ExprView>::empty()), s3)
                            } else {
                                exprs_loop(c, s3, Seq::empty(), false)
                            }) {
                                (None, s4) => (None, s4),
                                (Some(args), s4) => match expect(
                                    c,
                                    s4,
                                    TokenKindView::RParen,
                                    "`)`"@,
                                ) {
                                    (None, s5) => (None, s5),
                                    (Some(close), s5) => (
                                        Some(
                                            ExprView::Call {
                                                callee: path,
                                                callee_span: whole,
                                                type_args,
                                                type_args_span,
                                                args,
                                                span: Span { start: at.start, end: close.end },
                                            },
                                        ),
                                        s5,
                                    ),
                                },
                            }
                        } else if path.len() == 1 {
                            (Some(ExprView::Var { path, span: whole }), s2)
                        } else {
                            (Some(field_chain(path, at, whole)), s2)
                        }
                    },
                }
            }
        },
    }
}

/// Reading expressions up to the first that no comma follows; a list may also
/// end behind a comma where `trailing`.
#[verifier::opaque]
pub open spec fn exprs_loop(c: Source, s: State, elems: Seq<ExprView>, trailing: bool) -> (
    Option<Seq<ExprView>>,
    State,
)
    decreases left(c, s), 50nat,
{
    match parse_expr(c, s) {
        (None, s1) => (None, s1),
        (Some(e), s1) => if kind(c, s1) is Comma && s1.pos > s.pos {
            let s2 = bump(c, s1);
            if trailing && kind(c, s2) is RBracket {
                (Some(elems.push(e)), s2)
            } else {
                exprs_loop(c, s2, elems.push(e), trailing)
            }
        } else {
            (Some(elems.push(e)), s1)
        },
    }
}

/// Reading the elements of a tuple, each with an optional name.
#[verifier::opaque]
pub open spec fn tuple_loop(
    c: Source,
    s: State,
    elems: Seq<(Option<Seq<char>>, Span, ExprView)>,
) -> (Option<Seq<(Option<Seq<char>>, Span, ExprView)>>, State)
    decreases left(c, s), 50nat,
{
    let at = span(c, s);
    let named = kind(c, s) is Ident && kind_at(c, s.pos + 1) is Colon;
    let name = if named {
        Some(kind(c, s)->Ident_0)
    } else {
        None
    };
    let s1 = if named {
        adv(s, bump(c, bump(c, s)))
    } else {
        s
    };
    match parse_expr(c, s1) {
        (None, s2) => (None, s2),
        (Some(e), s2) => if kind(c, s2) is Comma && s2.pos > s.pos {
            tuple_loop(c, bump(c, s2), elems.push((name, at, e)))
        } else {
            (Some(elems.push((name, at, e))), s2)
        },
    }
}

/// Reading the body of an object literal.
#[verifier::opaque]
pub open spec fn parse_object_literal(c: Source, s: State, name: Seq<char>, at: Span) -> (
    Option<ExprView>,
    State,
)
    decreases left(c, s), 6nat,
    when 0 <= s.pos < c.toks.len() && kind(c, s) is LBrace
{
    match fields_loop(c, bump(c, s), Seq::empty()) {
        (None, s1) => (None, s1),
        (Some(fields), s1) => match expect(
            c,
            s1,
            TokenKindView::RBrace,
            "`}` after object literal"@,
        ) {
            (None, s2) => (None, s2),
            (Some(close), s2) => (
                Some(
                    ExprView::ObjectLiteral {
                        name,
                        name_span: at,
                        fields,
                        span: Span { start: at.start, end: close.end },
                    },
                ),
                s2,
            ),
        },
    }
}

/// The separator between a field and its value: `=` or `:`.
pub open spec fn expect_field_separator(c: Source, s: State) -> (Option<Span>, State) {
    if kind(c, s) is Eq {
        (Some(span(c, s)), bump(c, s))
    } else {
        expect(c, s, TokenKindView::Colon, "`:` after object field"@)
    }
}

/// The report of a missing comma between fields.
pub open spec fn missing_comma(c: Source, s: State) -> State {
    report(
        s,
        problem(
            "expected `,` or `}`, found "@ + token::kind_text(kind(c, s)),
            span(c, s),
            "separate object fields with commas"@,
            "E100"@,
        ),
    )
}

/// Reading the fields of an object literal.
#[verifier::opaque]
pub open spec fn fields_loop(c: Source, s: State, fields: Seq<(Seq<char>, Span, ExprView)>) -> (
    Option<Seq<(Seq<char>, Span, ExprView)>>,
    State,
)
    decreases left(c, s), 50nat,
{
    if kind(c, s) is Eof || kind(c, s) is RBrace {
        (Some(fields), s)
    } else {
        match parse_ident(c, s) {
            (None, s1) => (None, s1),
            (Some((field, sp)), s1) => match expect_field_separator(c, s1) {
                (None, s2) => (None, s2),
                (Some(_), s2) => {
                    let s2 = adv(s, s2);
                    match parse_expr(c, s2) {
                        (None, s3) => (None, s3),
                        (Some(value), s3) => {
                            let next = fields.push((field, sp, value));
                            if kind(c, s3) is Comma && s3.pos > s.pos {
                                fields_loop(c, bump(c, s3), next)
                            } else if kind(c, s3) is RBrace {
                                (Some(next), s3)
                            } else {
                                (None, missing_comma(c, s3))
                            }
                        },
                    }
                },
            },
        }
    }
}

// ---------------------------------------------------------------------------
// Statements
// ---------------------------------------------------------------------------

/// The kind of binding that a token introduces.
pub open spec fn binder(k: TokenKindView) -> Option<BindingKind> {
    match k {
        TokenKindView::Let => Some(BindingKind::Var),
        TokenKindView::Var => Some(BindingKind::Var),
        TokenKindView::Val => Some(BindingKind::Val),
        _ => None,
    }
}

/// What a binding binds: a name, or the fields of a tuple.
pub enum Target {
    Name(Seq<char>, Span),
    Fields(Seq<DestructureBindingView>),
}

/// A binding, of a name or of the fields of a tuple.
pub struct Binding {
    pub target: Target,
    pub kind: BindingKind,
    pub ty: Option<TypeView>,
    pub ty_span: Option<Span>,
    pub value: ExprView,
    pub span: Span,
}

/// Reading the names of a destructuring pattern.
#[verifier::opaque]
pub open spec fn pattern_loop(c: Source, s: State, names: Seq<DestructureBindingView>) -> (
    Option<Seq<DestructureBindingView>>,
    State,
)
    decreases left(c, s),
{
    match parse_ident(c, s) {
        (None, s1) => (None, s1),
        (Some((first, sp)), s1) => match (if kind(c, s1) is Colon {
            match parse_ident(c, bump(c, s1)) {
                (None, s2) => (None, s2),
                (Some((name, at)), s2) => (
                    Some(
                        DestructureBindingView {
                            field: Some(first),
                            binding: name,
                            binding_span: at,
                        },
                    ),
                    s2,
                ),
            }
        } else {
            (
                Some(
                    DestructureBindingView { field: None, binding: first, binding_span: sp },
                ),
                s1,
            )
        }) {
            (None, s2) => (None, s2),
            (Some(b), s2) => if kind(c, s2) is Comma && s2.pos > s.pos {
                pattern_loop(c, bump(c, s2), names.push(b))
            } else {
                (Some(names.push(b)), s2)
            },
        },
    }
}

/// Reading what a binding binds.
#[verifier::opaque]
pub open spec fn parse_target(c: Source, s: State) -> (Option<Target>, State) {
    if kind(c, s) is Hash {
        match expect(c, bump(c, s), TokenKindView::LParen, "`(` after `#` in a pattern"@) {
            (None, s1) => (None, s1),
            (Some(_), s1) => match pattern_loop(c, s1, Seq::empty()) {
                (None, s2) => (None, s2),
                (Some(names), s2) => match expect(
                    c,
                    s2,
                    TokenKindView::RParen,
                    "`)` after the pattern"@,
                ) {
                    (None, s3) => (None, s3),
                    (Some(_), s3) => (Some(Target::Fields(names)), s3),
                },
            },
        }
    } else {
        match parse_ident(c, s) {
            (None, s1) => (None, s1),
            (Some((name, sp)), s1) => (Some(Target::Name(name, sp)), s1),
        }
    }
}

/// Reading a binding, of which the next token is the binder.
#[verifier::opaque]
pub open spec fn parse_binding(
    c: Source,
    s: State,
    allowed: Seq<Seq<char>>,
    bound: BindingKind,
) -> (Option<Binding>, State) {
    let start = span(c, s).start;
    match parse_target(c, bump(c, s)) {
        (None, s1) => (None, s1),
        (Some(target), s1) => {
            let ((ty, ty_span), s2) = parse_let_ann(c, s1, allowed);
            match expect(c, s2, TokenKindView::Eq, "`=`"@) {
                (None, s3) => (None, s3),
                (Some(_), s3) => match parse_expr(c, s3) {
                    (None, s4) => (None, s4),
                    (Some(value), s4) => match expect(c, s4, TokenKindView::Semi, "`;`"@) {
                        (None, s5) => (None, s5),
                        (Some(semi), s5) => (
                            Some(
                                Binding {
                                    target,
                                    kind: bound,
                                    ty,
                                    ty_span,
                                    value,
                                    span: Span { start, end: semi.end },
                                },
                            ),
                            s5,
                        ),
                    },
                },
            }
        },
    }
}

/// A binding as a statement.
pub open spec fn binding_stmt(b: Binding) -> StmtView {
    match b.target {
        Target::Name(name, name_span) => StmtView::Let {
            name,
            name_span,
            kind: b.kind,
            ty: b.ty,
            ty_span: b.ty_span,
            value: b.value,
            span: b.span,
        },
        Target::Fields(bindings) => StmtView::Destructure {
            bindings,
            kind: b.kind,
            ty: b.ty,
            ty_span: b.ty_span,
            value: b.value,
            span: b.span,
        },
    }
}

/// A binding as an item.
pub open spec fn binding_item(b: Binding) -> ItemView {
    match b.target {
        Target::Name(name, name_span) => ItemView::Let {
            name,
            name_span,
            kind: b.kind,
            ty: b.ty,
            ty_span: b.ty_span,
            value: b.value,
            span: b.span,
        },
        Target::Fields(bindings) => ItemView::Destructure {
            bindings,
            kind: b.kind,
            ty: b.ty,
            ty_span: b.ty_span,
            value: b.value,
            span: b.span,
        },
    }
}

/// Reading an expression statement.
#[verifier::opaque]
pub open spec fn parse_expr_stmt(c: Source, s: State) -> (Option<StmtView>, State) {
    match parse_expr(c, s) {
        (None, s1) => (None, s1),
        (Some(e), s1) => match expect(c, s1, TokenKindView::Semi, "`;`"@) {
            (None, s2) => (None, s2),
            (Some(_), s2) => (Some(StmtView::Expr(e)), s2),
        },
    }
}

/// The assignment of a value to what an expression denotes.
pub open spec fn assignment(target: ExprView, value: ExprView, end: usize) -> Option<StmtView> {
    match target {
        ExprView::Var { path, span } => if path.len() == 1 {
            Some(
                StmtView::Assign {
                    name: path[0],
                    name_span: span,
                    value,
                    span: Span { start: span.start, end },
                },
            )
        } else {
            None
        },
        ExprView::Index { base, index, span } => Some(
            StmtView::IndexAssign {
                array: base,
                index,
                value: Box::new(value),
                span: Span { start: span.start, end },
            },
        ),
        ExprView::Field { base, name, span } => Some(
            StmtView::FieldAssign {
                base,
                field: name,
                field_span: span,
                value: Box::new(value),
                span: Span { start: span.start, end },
            },
        ),
        ExprView::TupleIndex { base, index, index_span, span } => Some(
            StmtView::TupleAssign {
                base,
                index,
                index_span,
                value: Box::new(value),
                span: Span { start: span.start, end },
            },
        ),
        _ => None,
    }
}

/// Reading a statement that starts with a name: an assignment, or an
/// expression.
#[verifier::opaque]
pub open spec fn parse_named_stmt(c: Source, s: State) -> (Option<StmtView>, State) {
    match parse_postfix(c, s) {
        (None, s1) => (None, s1),
        (Some(target), s1) => if !(kind(c, s1) is Eq) {
            parse_expr_stmt(c, s)
        } else {
            match parse_expr(c, bump(c, s1)) {
                (None, s2) => (None, s2),
                (Some(value), s2) => match expect(c, s2, TokenKindView::Semi, "`;`"@) {
                    (None, s3) => (None, s3),
                    (Some(semi), s3) => match assignment(target, value, semi.end) {
                        Some(stmt) => (Some(stmt), s3),
                        None => (
                            None,
                            report(
                                s3,
                                problem(
                                    "cannot assign to this expression"@,
                                    target.span(),
                                    "only variables, array elements, and object fields are assignable"@,
                                    "E103"@,
                                ),
                            ),
                        ),
                    },
                },
            }
        },
    }
}

/// Reading `return`.
#[verifier::opaque]
pub open spec fn parse_return(c: Source, s: State) -> (Option<StmtView>, State) {
    let start = span(c, s).start;
    let s1 = bump(c, s);
    match (if kind(c, s1) is Semi {
        (Some(None::<ExprView>), s1)
    } else {
        match parse_expr(c, s1) {
            (None, s2) => (None, s2),
            (Some(e), s2) => (Some(Some(e)), s2),
        }
    }) {
        (None, s2) => (None, s2),
        (Some(value), s2) => match expect(c, s2, TokenKindView::Semi, "`;`"@) {
            (None, s3) => (None, s3),
            (Some(semi), s3) => (
                Some(StmtView::Return { value, span: Span { start, end: semi.end } }),
                s3,
            ),
        },
    }
}

/// Reading a parenthesised condition behind a keyword.
#[verifier::opaque]
pub open spec fn parse_condition(c: Source, s: State, what: Seq<char>) -> (Option<ExprView>, State) {
    match expect(c, s, TokenKindView::LParen, what) {
        (None, s1) => (None, s1),
        (Some(_), s1) => match parse_expr(c, s1) {
            (None, s2) => (None, s2),
            (Some(e), s2) => match expect(c, s2, TokenKindView::RParen, "`)` after condition"@) {
                (None, s3) => (None, s3),
                (Some(_), s3) => (Some(e), s3),
            },
        },
    }
}

/// Reading a statement.
#[verifier::opaque]
pub open spec fn parse_stmt(c: Source, s: State, allowed: Seq<Seq<char>>) -> (
    Option<StmtView>,
    State,
)
    decreases left(c, s), 20nat,
{
    let start = span(c, s).start;
    match kind(c, s) {
        TokenKindView::If => parse_if(c, s, allowed),
        TokenKindView::While => parse_while(c, s, allowed),
        TokenKindView::Match => parse_match(c, s, allowed),
        TokenKindView::Break => match expect(c, bump(c, s), TokenKindView::Semi, "`;`"@) {
            (None, s1) => (None, s1),
            (Some(semi), s1) => (
                Some(StmtView::Break { span: Span { start, end: semi.end } }),
                s1,
            ),
        },
        TokenKindView::Continue => match expect(c, bump(c, s), TokenKindView::Semi, "`;`"@) {
            (None, s1) => (None, s1),
            (Some(semi), s1) => (
                Some(StmtView::Continue { span: Span { start, end: semi.end } }),
                s1,
            ),
        },
        TokenKindView::Return => parse_return(c, s),
        TokenKindView::Ident(_) => parse_named_stmt(c, s),
        k => match binder(k) {
            Some(bound) => match parse_binding(c, s, allowed, bound) {
                (None, s1) => (None, s1),
                (Some(b), s1) => (Some(binding_stmt(b)), s1),
            },
            None => parse_expr_stmt(c, s),
        },
    }
}

/// Reading `if`.
#[verifier::opaque]
pub open spec fn parse_if(c: Source, s: State, allowed: Seq<Seq<char>>) -> (
    Option<StmtView>,
    State,
)
    decreases left(c, s), 19nat,
    when 0 <= s.pos < c.toks.len() && kind(c, s) is If
{
    let start = span(c, s).start;
    let s0 = bump(c, s);
    match parse_condition(c, s0, "`(` after `if`"@) {
        (None, s1) => (None, s1),
        (Some(condition), s1) => {
            let s1 = adv(s0, s1);
            match parse_branch(c, s1, allowed) {
                (None, s2) => (None, s2),
                (Some(then_body), s2) => {
                    let s2 = adv(s1, s2);
                    if kind(c, s2) is Else {
                        match parse_branch(c, bump(c, s2), allowed) {
                            (None, s3) => (None, s3),
                            (Some(else_body), s3) => (
                                Some(
                                    StmtView::If {
                                        condition,
                                        then_body,
                                        else_body: Some(else_body),
                                        span: Span { start, end: prev_end(c, s3) },
                                    },
                                ),
                                s3,
                            ),
                        }
                    } else {
                        (
                            Some(
                                StmtView::If {
                                    condition,
                                    then_body,
                                    else_body: None,
                                    span: Span { start, end: condition.span().end },
                                },
                            ),
                            s2,
                        )
                    }
                },
            }
        },
    }
}

/// Reading `while`.
#[verifier::opaque]
pub open spec fn parse_while(c: Source, s: State, allowed: Seq<Seq<char>>) -> (
    Option<StmtView>,
    State,
)
    decreases left(c, s), 19nat,
    when 0 <= s.pos < c.toks.len() && kind(c, s) is While
{
    let start = span(c, s).start;
    let s0 = bump(c, s);
    match parse_condition(c, s0, "`(` after `while`"@) {
        (None, s1) => (None, s1),
        (Some(condition), s1) => match parse_branch(c, adv(s0, s1), allowed) {
            (None, s2) => (None, s2),
            (Some(body), s2) => (
                Some(
                    StmtView::While {
                        condition,
                        body,
                        span: Span { start, end: prev_end(c, s2) },
                    },
                ),
                s2,
            ),
        },
    }
}

/// Reading `match`.
#[verifier::opaque]
pub open spec fn parse_match(c: Source, s: State, allowed: Seq<Seq<char>>) -> (
    Option<StmtView>,
    State,
)
    decreases left(c, s), 19nat,
    when 0 <= s.pos < c.toks.len() && kind(c, s) is Match
{
    let start = span(c, s).start;
    let s0 = bump(c, s);
    match parse_condition(c, s0, "`(` after `match`"@) {
        (None, s1) => (None, s1),
        (Some(scrutinee), s1) => match expect(
            c,
            s1,
            TokenKindView::LBrace,
            "`{` before the match arms"@,
        ) {
            (None, s2) => (None, s2),
            (Some(_), s2) => {
                let s2 = adv(s0, s2);
                match arms_loop(c, s2, allowed, Seq::empty()) {
                    (None, s3) => (None, s3),
                    (Some(arms), s3) => {
                        let s3 = adv(s2, s3);
                        match (if kind(c, s3) is Else {
                            match parse_block(c, bump(c, s3), allowed) {
                                (None, s4) => (None, s4),
                                (Some(body), s4) => (Some(Some(body)), s4),
                            }
                        } else {
                            (Some(None::<Seq<StmtView>>), s3)
                        }) {
                            (None, s4) => (None, s4),
                            (Some(else_body), s4) => match expect(
                                c,
                                s4,
                                TokenKindView::RBrace,
                                "`}` after the match arms"@,
                            ) {
                                (None, s5) => (None, s5),
                                (Some(close), s5) => (
                                    Some(
                                        StmtView::Match {
                                            scrutinee,
                                            arms,
                                            else_body,
                                            span: Span { start, end: close.end },
                                        },
                                    ),
                                    s5,
                                ),
                            },
                        }
                    },
                }
            },
        },
    }
}

/// Reading the pattern of a match arm: the path, its place, and the names.
#[verifier::opaque]
pub open spec fn parse_arm_pattern(c: Source, s: State) -> (
    Option<(Seq<Seq<char>>, Span, Seq<Name>)>,
    State,
) {
    let at = span(c, s);
    if kind(c, s) is Null {
        (Some((seq!["null"@], at, Seq::empty())), bump(c, s))
    } else {
        match parse_path(c, s) {
            (None, s1) => (None, s1),
            (Some(path), s1) => {
                let whole = Span { start: at.start, end: prev_end(c, s1) };
                if path.len() < 2 {
                    (
                        None,
                        report(
                            s1,
                            problem(
                                "expected a union variant in a match arm"@,
                                whole,
                                "write `Union.Variant` or `null`"@,
                                "E103"@,
                            ),
                        ),
                    )
                } else if kind(c, s1) is LParen {
                    match idents_loop(c, bump(c, s1), Seq::empty()) {
                        (None, s2) => (None, s2),
                        (Some(names), s2) => match expect(
                            c,
                            s2,
                            TokenKindView::RParen,
                            "`)` after the bound names"@,
                        ) {
                            (None, s3) => (None, s3),
                            (Some(_), s3) => (Some((path, whole, names)), s3),
                        },
                    }
                } else {
                    (Some((path, whole, Seq::empty())), s1)
                }
            },
        }
    }
}

/// Reading match arms up to `else` or the closing brace.
#[verifier::opaque]
pub open spec fn arms_loop(
    c: Source,
    s: State,
    allowed: Seq<Seq<char>>,
    arms: Seq<MatchArmView>,
) -> (Option<Seq<MatchArmView>>, State)
    decreases left(c, s), 24nat,
{
    if kind(c, s) is Eof || kind(c, s) is RBrace || kind(c, s) is Else {
        (Some(arms), s)
    } else {
        let start = span(c, s).start;
        match parse_arm_pattern(c, s) {
            (None, s1) => (None, s1),
            (Some((path, path_span, bindings)), s1) => {
                let s1 = adv(s, s1);
                match parse_block(c, s1, allowed) {
                    (None, s2) => (None, s2),
                    (Some(body), s2) => {
                        let next = arms.push(
                            MatchArmView {
                                path,
                                path_span,
                                bindings,
                                body,
                                span: Span { start, end: prev_end(c, s2) },
                            },
                        );
                        if s2.pos > s.pos {
                            arms_loop(c, s2, allowed, next)
                        } else {
                            (Some(next), s2)
                        }
                    },
                }
            },
        }
    }
}

/// Reading a block.
#[verifier::opaque]
pub open spec fn parse_block(c: Source, s: State, allowed: Seq<Seq<char>>) -> (
    Option<Seq<StmtView>>,
    State,
)
    decreases left(c, s), 21nat,
{
    match expect(c, s, TokenKindView::LBrace, "`{`"@) {
        (None, s1) => (None, s1),
        (Some(_), s1) => if s1.pos > s.pos {
            let (body, s2) = block_loop(c, s1, allowed, Seq::empty());
            match expect(c, s2, TokenKindView::RBrace, "`}`"@) {
                (None, s3) => (None, s3),
                (Some(_), s3) => (Some(body), s3),
            }
        } else {
            (None, s1)
        },
    }
}

/// Skipping to where a statement may start.
pub open spec fn recover_stmt(c: Source, s: State) -> State
    decreases left(c, s),
{
    match kind(c, s) {
        TokenKindView::Eof
        | TokenKindView::RBrace
        | TokenKindView::Let
        | TokenKindView::Val
        | TokenKindView::Var
        | TokenKindView::Function
        | TokenKindView::If
        | TokenKindView::While
        | TokenKindView::Match
        | TokenKindView::Break
        | TokenKindView::Continue
        | TokenKindView::Return
        | TokenKindView::Type => s,
        TokenKindView::Semi => bump(c, s),
        _ => recover_stmt(c, bump(c, s)),
    }
}

/// Skipping to where an item may start.
pub open spec fn recover_item(c: Source, s: State) -> State
    decreases left(c, s),
{
    match kind(c, s) {
        TokenKindView::Eof
        | TokenKindView::Let
        | TokenKindView::Val
        | TokenKindView::Var
        | TokenKindView::Function
        | TokenKindView::Type => s,
        TokenKindView::Semi | TokenKindView::RBrace => bump(c, s),
        _ => recover_item(c, bump(c, s)),
    }
}

/// `after`, or the token behind `before` where nothing was skipped.
pub open spec fn force(c: Source, before: State, after: State) -> State {
    if after.pos == before.pos {
        bump(c, after)
    } else {
        after
    }
}

/// Reading statements up to a closing brace. A statement that cannot be read is
/// skipped.
#[verifier::opaque]
pub open spec fn block_loop(
    c: Source,
    s: State,
    allowed: Seq<Seq<char>>,
    body: Seq<StmtView>,
) -> (Seq<StmtView>, State)
    decreases left(c, s), 23nat,
{
    if kind(c, s) is Eof || kind(c, s) is RBrace {
        (body, s)
    } else {
        let (next, s1) = match parse_stmt(c, s, allowed) {
            (Some(stmt), s1) => (body.push(stmt), s1),
            (None, s1) => (body, force(c, s1, recover_stmt(c, s1))),
        };
        if s1.pos > s.pos {
            block_loop(c, s1, allowed, next)
        } else {
            (next, s1)
        }
    }
}

/// Reading a block or a single statement.
#[verifier::opaque]
pub open spec fn parse_branch(c: Source, s: State, allowed: Seq<Seq<char>>) -> (
    Option<Seq<StmtView>>,
    State,
)
    decreases left(c, s), 22nat,
{
    if kind(c, s) is LBrace {
        parse_block(c, s, allowed)
    } else {
        match parse_stmt(c, s, allowed) {
            (None, s1) => (None, s1),
            (Some(stmt), s1) => (Some(seq![stmt]), s1),
        }
    }
}

// ---------------------------------------------------------------------------
// Items
// ---------------------------------------------------------------------------

/// Reading `use`.
#[verifier::opaque]
pub open spec fn parse_use(c: Source, s: State) -> (Option<ItemView>, State) {
    let start = span(c, s).start;
    match parse_path(c, bump(c, s)) {
        (None, s1) => (None, s1),
        (Some(path), s1) => match (if kind(c, s1) is Dot {
            match expect(c, bump(c, s1), TokenKindView::LBrace, "`{` after module path"@) {
                (None, s2) => (None, s2),
                (Some(_), s2) => match idents_loop(c, s2, Seq::empty()) {
                    (None, s3) => (None, s3),
                    (Some(names), s3) => match expect(
                        c,
                        s3,
                        TokenKindView::RBrace,
                        "`}` after imported names"@,
                    ) {
                        (None, s4) => (None, s4),
                        (Some(_), s4) => (Some(Some(plain_names(names))), s4),
                    },
                },
            }
        } else {
            (Some(None::<Seq<Seq<char>>>), s1)
        }) {
            (None, s2) => (None, s2),
            (Some(names), s2) => match expect(c, s2, TokenKindView::Semi, "`;`"@) {
                (None, s3) => (None, s3),
                (Some(semi), s3) => (
                    Some(ItemView::Use { path, names, span: Span { start, end: semi.end } }),
                    s3,
                ),
            },
        },
    }
}

/// Reading a parameter.
#[verifier::opaque]
pub open spec fn parse_param(c: Source, s: State, allowed: Seq<Seq<char>>) -> (
    Option<ParamView>,
    State,
) {
    match parse_ident(c, s) {
        (None, s1) => (None, s1),
        (Some((name, name_span)), s1) => {
            let untyped = ParamView { name, name_span, ty: None, ty_span: None };
            if !(kind(c, s1) is Colon) {
                (
                    Some(untyped),
                    report(
                        s1,
                        error_view("parameter `"@ + name + "` is missing a type"@).label(
                            name_span,
                            "declared here"@,
                        ).label(span(c, s1), "expected `: type` here"@).noted(
                            "write `name: type`, e.g. `a: i64`"@,
                        ).coded("E104"@),
                    ),
                )
            } else {
                match parse_type(c, bump(c, s1), allowed, true) {
                    (None, s2) => (Some(untyped), s2),
                    (Some((t, sp)), s2) => if ty::void_like(t) {
                        (
                            Some(ParamView { ty_span: Some(sp), ..untyped }),
                            report(
                                s2,
                                problem(
                                    "parameter `"@ + name + "` cannot be `void`"@,
                                    sp,
                                    "`void` is not a value type"@,
                                    "E104"@,
                                ),
                            ),
                        )
                    } else {
                        (Some(ParamView { ty: Some(t), ty_span: Some(sp), ..untyped }), s2)
                    },
                }
            }
        },
    }
}

/// Reading parameters up to the first that no comma follows.
#[verifier::opaque]
pub open spec fn params_loop(
    c: Source,
    s: State,
    allowed: Seq<Seq<char>>,
    params: Seq<ParamView>,
) -> (Option<Seq<ParamView>>, State)
    decreases left(c, s),
{
    match parse_param(c, s, allowed) {
        (None, s1) => (None, s1),
        (Some(p), s1) => if kind(c, s1) is Comma && s1.pos > s.pos {
            params_loop(c, bump(c, s1), allowed, params.push(p))
        } else {
            (Some(params.push(p)), s1)
        },
    }
}

/// Reading the optional bound of a type parameter.
#[verifier::opaque]
pub open spec fn parse_bound(c: Source, s: State) -> (Option<Option<GenericBound>>, State) {
    if !(kind(c, s) is Extends) {
        (Some(None), s)
    } else {
        let s1 = bump(c, s);
        match kind(c, s1) {
            TokenKindView::Ident(name) => if name == "Numeric"@ {
                (Some(Some(GenericBound::Numeric)), bump(c, s1))
            } else if name == "Comparable"@ {
                (Some(Some(GenericBound::Comparable)), bump(c, s1))
            } else {
                (
                    None,
                    report(
                        bump(c, s1),
                        error_view("unknown bound `"@ + name + "`"@).label(
                            span(c, s1),
                            "expected `Numeric` or `Comparable`"@,
                        ).noted("write `T extends Numeric` or `T extends Comparable`"@).coded(
                            "E105"@,
                        ),
                    ),
                )
            },
            k => (
                None,
                report(
                    s1,
                    problem(
                        "expected a bound, found "@ + token::kind_text(k),
                        span(c, s1),
                        "expected `Numeric` or `Comparable` here"@,
                        "E104"@,
                    ),
                ),
            ),
        }
    }
}

/// The names of type parameters.
pub open spec fn param_names(params: Seq<TypeParamView>) -> Seq<Seq<char>> {
    Seq::new(params.len(), |i: int| params[i].name)
}

/// Reading type parameters up to the first that no comma follows.
#[verifier::opaque]
pub open spec fn type_params_loop(c: Source, s: State, params: Seq<TypeParamView>) -> (
    Option<Seq<TypeParamView>>,
    State,
)
    decreases left(c, s),
{
    match parse_ident(c, s) {
        (None, s1) => (None, s1),
        (Some((name, sp)), s1) => match (if ty::named_type(name) is Some {
            (
                Some(params),
                report(
                    s1,
                    problem(
                        "type parameter `"@ + name + "` shadows a primitive type"@,
                        sp,
                        "pick another name, e.g. `T`"@,
                        "E104"@,
                    ),
                ),
            )
        } else if has_name(param_names(params), name) {
            (
                Some(params),
                report(
                    s1,
                    problem(
                        "duplicate type parameter `"@ + name + "`"@,
                        sp,
                        "redefined here"@,
                        "E200"@,
                    ),
                ),
            )
        } else {
            match parse_bound(c, s1) {
                (None, s2) => (None, s2),
                (Some(bound), s2) => (
                    Some(params.push(TypeParamView { name, span: sp, bound })),
                    s2,
                ),
            }
        }) {
            (None, s2) => (None, s2),
            (Some(next), s2) => if kind(c, s2) is Comma && s2.pos > s.pos {
                type_params_loop(c, bump(c, s2), next)
            } else {
                (Some(next), s2)
            },
        },
    }
}

/// Reading optional type parameters.
#[verifier::opaque]
pub open spec fn parse_type_params(c: Source, s: State) -> (Option<Seq<TypeParamView>>, State) {
    if !(kind(c, s) is LBracket) {
        (Some(Seq::empty()), s)
    } else {
        let s1 = bump(c, s);
        if kind(c, s1) is RBracket {
            (
                Some(Seq::empty()),
                report(
                    bump(c, s1),
                    error_view("expected at least one type parameter"@).label(
                        span(c, s1),
                        "empty `[]` here"@,
                    ).noted("write `function f[T](...)` or drop the brackets"@).coded("E104"@),
                ),
            )
        } else {
            match type_params_loop(c, s1, Seq::empty()) {
                (None, s2) => (None, s2),
                (Some(params), s2) => match expect(
                    c,
                    s2,
                    TokenKindView::RBracket,
                    "`]` after type parameters"@,
                ) {
                    (None, s3) => (None, s3),
                    (Some(_), s3) => (Some(params), s3),
                },
            }
        }
    }
}

/// Reading the optional result type of a function.
#[verifier::opaque]
pub open spec fn parse_ret(c: Source, s: State, allowed: Seq<Seq<char>>) -> (
    (Option<TypeView>, Option<Span>),
    State,
) {
    if kind(c, s) is Colon {
        match parse_type(c, bump(c, s), allowed, true) {
            (Some((t, sp)), s1) => ((Some(t), Some(sp)), s1),
            (None, s1) => ((None, None), s1),
        }
    } else {
        ((Some(TypeView::Void), None), s)
    }
}

/// Reading the parameters of a function in their parentheses.
#[verifier::opaque]
pub open spec fn parse_params(c: Source, s: State, allowed: Seq<Seq<char>>) -> (
    Option<Seq<ParamView>>,
    State,
) {
    match expect(c, s, TokenKindView::LParen, "`(`"@) {
        (None, s1) => (None, s1),
        (Some(_), s1) => match (if kind(c, s1) is RParen {
            (Some(Seq::<ParamView>::empty()), s1)
        } else {
            params_loop(c, s1, allowed, Seq::empty())
        }) {
            (None, s2) => (None, s2),
            (Some(params), s2) => match expect(c, s2, TokenKindView::RParen, "`)`"@) {
                (None, s3) => (None, s3),
                (Some(_), s3) => (Some(params), s3),
            },
        },
    }
}

/// Reading a function, of which the next token is the keyword. A signature in
/// which something was reported is poisoned.
#[verifier::opaque]
pub open spec fn parse_function(c: Source, s: State) -> (Option<FunctionDeclView>, State) {
    let start = span(c, s).start;
    match parse_ident(c, bump(c, s)) {
        (None, s1) => (None, s1),
        (Some((name, name_span)), s1) => match parse_type_params(c, s1) {
            (None, s2) => (None, s2),
            (Some(type_params), s2) => {
                let allowed = param_names(type_params);
                match parse_params(c, s2, allowed) {
                    (None, s3) => (None, s3),
                    (Some(params), s3) => {
                        let ((ret, ret_span), s4) = parse_ret(c, s3, allowed);
                        match expect(
                            c,
                            s4,
                            TokenKindView::LBrace,
                            "`{` for the function body"@,
                        ) {
                            (None, s5) => (None, s5),
                            (Some(_), s5) => {
                                let (body, s6) = block_loop(c, s5, allowed, Seq::empty());
                                match expect(c, s6, TokenKindView::RBrace, "`}`"@) {
                                    (None, s7) => (None, s7),
                                    (Some(close), s7) => (
                                        Some(
                                            FunctionDeclView {
                                                name,
                                                name_span,
                                                type_params,
                                                params,
                                                ret,
                                                ret_span,
                                                body,
                                                signature_poisoned: s4.diags.len() != s.diags.len(),
                                                span: Span { start, end: close.end },
                                            },
                                        ),
                                        s7,
                                    ),
                                }
                            },
                        }
                    },
                }
            },
        },
    }
}

/// A function as an item.
pub open spec fn function_item(f: FunctionDeclView) -> ItemView {
    ItemView::Function {
        name: f.name,
        name_span: f.name_span,
        type_params: f.type_params,
        params: f.params,
        ret: f.ret,
        ret_span: f.ret_span,
        body: f.body,
        signature_poisoned: f.signature_poisoned,
        span: f.span,
    }
}

/// Whether a type cannot be declared under a name.
pub open spec fn reserved_name(name: Seq<char>) -> bool {
    name == "Array"@ || name == "U64Array"@ || name == "string"@ || name == "file"@
        || ty::named_type(name) is Some
}

/// What the body of an object type declares.
pub struct ObjectBody {
    pub fields: Seq<ParamView>,
    pub methods: Seq<FunctionDeclView>,
}

/// The names of fields.
pub open spec fn field_names(fields: Seq<ParamView>) -> Seq<Seq<char>> {
    Seq::new(fields.len(), |i: int| fields[i].name)
}

/// Reading a field of an object type.
#[verifier::opaque]
pub open spec fn parse_object_field(c: Source, s: State, fields: Seq<ParamView>) -> (
    Option<ParamView>,
    State,
) {
    match parse_ident(c, s) {
        (None, s1) => (None, s1),
        (Some((name, name_span)), s1) => match expect(
            c,
            s1,
            TokenKindView::Colon,
            "`:` after field name"@,
        ) {
            (None, s2) => (None, s2),
            (Some(_), s2) => {
                let fallback = span(c, s2);
                let ((ty, ty_span), s3) = match parse_type(c, s2, Seq::empty(), true) {
                    (Some((t, sp)), s3) => if ty::void_like(t) {
                        (
                            (None, Some(sp)),
                            report(
                                s3,
                                problem(
                                    "an object field cannot be `void`"@,
                                    sp,
                                    "`void` is not a value type"@,
                                    "E104"@,
                                ),
                            ),
                        )
                    } else {
                        ((Some(t), Some(sp)), s3)
                    },
                    (None, s3) => ((None, Some(fallback)), s3),
                };
                let s4 = if has_name(field_names(fields), name) {
                    report(
                        s3,
                        problem(
                            "duplicate object field `"@ + name + "`"@,
                            name_span,
                            "redefined here"@,
                            "E200"@,
                        ),
                    )
                } else {
                    s3
                };
                (Some(ParamView { name, name_span, ty, ty_span }), s4)
            },
        },
    }
}

/// Reading the fields and associated functions of an object type.
#[verifier::opaque]
pub open spec fn object_loop(c: Source, s: State, body: ObjectBody) -> (Option<ObjectBody>, State)
    decreases left(c, s),
{
    if kind(c, s) is Eof || kind(c, s) is RBrace {
        (Some(body), s)
    } else {
        match (if kind(c, s) is Function {
            match parse_function(c, s) {
                (None, s1) => (None, s1),
                (Some(f), s1) => (
                    Some(ObjectBody { methods: body.methods.push(f), ..body }),
                    s1,
                ),
            }
        } else {
            match parse_object_field(c, s, body.fields) {
                (None, s1) => (None, s1),
                (Some(f), s1) => (Some(ObjectBody { fields: body.fields.push(f), ..body }), s1),
            }
        }) {
            (None, s1) => (None, s1),
            (Some(next), s1) => if kind(c, s1) is Comma && s1.pos > s.pos {
                object_loop(c, bump(c, s1), next)
            } else if kind(c, s1) is RBrace {
                (Some(next), s1)
            } else {
                (None, missing_comma(c, s1))
            },
        }
    }
}

/// Reading the payload types of a union variant.
#[verifier::opaque]
pub open spec fn payload_loop(
    c: Source,
    s: State,
    allowed: Seq<Seq<char>>,
    payload: Seq<(TypeView, Span)>,
) -> (Option<Seq<(TypeView, Span)>>, State)
    decreases left(c, s),
{
    match parse_type(c, s, allowed, true) {
        (None, s1) => (None, s1),
        (Some((t, sp)), s1) => if ty::void_like(t) {
            (
                None,
                report(
                    s1,
                    problem(
                        "a variant payload cannot be `void`"@,
                        sp,
                        "`void` is not a value type"@,
                        "E104"@,
                    ),
                ),
            )
        } else if kind(c, s1) is Comma && s1.pos > s.pos {
            payload_loop(c, bump(c, s1), allowed, payload.push((t, sp)))
        } else {
            (Some(payload.push((t, sp))), s1)
        },
    }
}

/// The names of union variants.
pub open spec fn variant_names(variants: Seq<UnionVariantView>) -> Seq<Seq<char>> {
    Seq::new(variants.len(), |i: int| variants[i].name)
}

/// Reading a variant of a union type.
#[verifier::opaque]
pub open spec fn parse_variant(
    c: Source,
    s: State,
    allowed: Seq<Seq<char>>,
    variants: Seq<UnionVariantView>,
) -> (Option<UnionVariantView>, State) {
    match parse_ident(c, s) {
        (None, s1) => (None, s1),
        (Some((name, name_span)), s1) => {
            let s2 = if has_name(variant_names(variants), name) {
                report(
                    s1,
                    problem(
                        "duplicate union variant `"@ + name + "`"@,
                        name_span,
                        "redefined here"@,
                        "E200"@,
                    ),
                )
            } else {
                s1
            };
            if kind(c, s2) is LParen {
                match payload_loop(c, bump(c, s2), allowed, Seq::empty()) {
                    (None, s3) => (None, s3),
                    (Some(payload), s3) => match expect(
                        c,
                        s3,
                        TokenKindView::RParen,
                        "`)` after the variant payload"@,
                    ) {
                        (None, s4) => (None, s4),
                        (Some(_), s4) => (
                            Some(UnionVariantView { name, name_span, payload }),
                            s4,
                        ),
                    },
                }
            } else {
                (Some(UnionVariantView { name, name_span, payload: Seq::empty() }), s2)
            }
        },
    }
}

/// Reading the variants of a union type.
#[verifier::opaque]
pub open spec fn union_loop(
    c: Source,
    s: State,
    allowed: Seq<Seq<char>>,
    variants: Seq<UnionVariantView>,
) -> (Option<Seq<UnionVariantView>>, State)
    decreases left(c, s),
{
    if kind(c, s) is Eof || kind(c, s) is RBrace {
        (Some(variants), s)
    } else {
        match parse_variant(c, s, allowed, variants) {
            (None, s1) => (None, s1),
            (Some(v), s1) => if kind(c, s1) is Comma && s1.pos > s.pos {
                union_loop(c, bump(c, s1), allowed, variants.push(v))
            } else if kind(c, s1) is RBrace {
                (Some(variants.push(v)), s1)
            } else {
                (
                    None,
                    report(
                        s1,
                        problem(
                            "expected `,` or `}`, found "@ + token::kind_text(kind(c, s1)),
                            span(c, s1),
                            "separate union variants with commas"@,
                            "E100"@,
                        ),
                    ),
                )
            },
        }
    }
}

/// The ends of a type declaration: the brace and the semicolon, and where the
/// declaration ends.
#[verifier::opaque]
pub open spec fn parse_decl_end(c: Source, s: State, what: Seq<char>, semi_what: Seq<char>) -> (
    Option<usize>,
    State,
) {
    match expect(c, s, TokenKindView::RBrace, what) {
        (None, s1) => (None, s1),
        (Some(close), s1) => match expect(c, s1, TokenKindView::Semi, semi_what) {
            (None, s2) => (None, s2),
            (Some(semi), s2) => (
                Some(
                    if close.end > semi.end {
                        close.end
                    } else {
                        semi.end
                    },
                ),
                s2,
            ),
        },
    }
}

/// Reading a type declaration.
#[verifier::opaque]
pub open spec fn parse_type_item(c: Source, s: State) -> (Option<ItemView>, State) {
    let start = span(c, s).start;
    match parse_ident(c, bump(c, s)) {
        (None, s1) => (None, s1),
        (Some((name, name_span)), s1) => {
            let s2 = if reserved_name(name) {
                report(
                    s1,
                    error_view("object type name `"@ + name + "` is reserved"@).label(
                        name_span,
                        "choose a different object type name"@,
                    ).noted("object names cannot shadow built-in or legacy type names"@).coded(
                        "E200"@,
                    ),
                )
            } else {
                s1
            };
            match (if opens_union(c.toks, s2.pos) {
                parse_type_params(c, s2)
            } else {
                (Some(Seq::<TypeParamView>::empty()), s2)
            }) {
                (None, s3) => (None, s3),
                (Some(type_params), s3) => match expect(
                    c,
                    s3,
                    TokenKindView::Eq,
                    "`=` after object name"@,
                ) {
                    (None, s4) => (None, s4),
                    (Some(_), s4) => if kind(c, s4) is Union {
                        parse_union_body(c, s4, start, name, name_span, type_params)
                    } else {
                        parse_object_body(c, s4, start, name, name_span)
                    },
                },
            }
        },
    }
}

/// Reading the rest of a union declaration.
#[verifier::opaque]
pub open spec fn parse_union_body(
    c: Source,
    s: State,
    start: usize,
    name: Seq<char>,
    name_span: Span,
    type_params: Seq<TypeParamView>,
) -> (Option<ItemView>, State) {
    match expect(c, bump(c, s), TokenKindView::LBrace, "`{` after `union`"@) {
        (None, s1) => (None, s1),
        (Some(_), s1) => match union_loop(c, s1, param_names(type_params), Seq::empty()) {
            (None, s2) => (None, s2),
            (Some(variants), s2) => match parse_decl_end(
                c,
                s2,
                "`}` after union variants"@,
                "`;` after union declaration"@,
            ) {
                (None, s3) => (None, s3),
                (Some(end), s3) => (
                    Some(
                        ItemView::Union {
                            name,
                            name_span,
                            type_params,
                            variants,
                            span: Span { start, end },
                        },
                    ),
                    s3,
                ),
            },
        },
    }
}

/// Reading the rest of an object declaration.
#[verifier::opaque]
pub open spec fn parse_object_body(
    c: Source,
    s: State,
    start: usize,
    name: Seq<char>,
    name_span: Span,
) -> (Option<ItemView>, State) {
    match expect(c, s, TokenKindView::Object, "`object` after `=`"@) {
        (None, s1) => (None, s1),
        (Some(_), s1) => match expect(c, s1, TokenKindView::LBrace, "`{` after `object`"@) {
            (None, s2) => (None, s2),
            (Some(_), s2) => match object_loop(
                c,
                s2,
                ObjectBody { fields: Seq::empty(), methods: Seq::empty() },
            ) {
                (None, s3) => (None, s3),
                (Some(body), s3) => match parse_decl_end(
                    c,
                    s3,
                    "`}` after object fields"@,
                    "`;` after object declaration"@,
                ) {
                    (None, s4) => (None, s4),
                    (Some(end), s4) => (
                        Some(
                            ItemView::Object {
                                name,
                                name_span,
                                fields: body.fields,
                                methods: body.methods,
                                span: Span { start, end },
                            },
                        ),
                        s4,
                    ),
                },
            },
        },
    }
}

/// Reading an item.
#[verifier::opaque]
pub open spec fn parse_item(c: Source, s: State) -> (Option<ItemView>, State) {
    match kind(c, s) {
        TokenKindView::Function => match parse_function(c, s) {
            (None, s1) => (None, s1),
            (Some(f), s1) => (Some(function_item(f)), s1),
        },
        TokenKindView::Type => parse_type_item(c, s),
        TokenKindView::Eof => (None, s),
        TokenKindView::Invalid => (None, bump(c, s)),
        k => if k == TokenKindView::Ident("use"@) {
            parse_use(c, s)
        } else {
            match binder(k) {
                Some(bound) => match parse_binding(c, s, Seq::empty(), bound) {
                    (None, s1) => (None, s1),
                    (Some(b), s1) => (Some(binding_item(b)), s1),
                },
                None => (
                    None,
                    report(
                        s,
                        problem(
                            "expected an item (`use`, `let`, `function` or `type`), found "@
                                + token::kind_text(k),
                            span(c, s),
                            "items start with `use`, `let`, `function`, or `type`"@,
                            "E101"@,
                        ),
                    ),
                ),
            }
        },
    }
}

/// Reading items up to the end of the file. An item that cannot be read is
/// skipped.
#[verifier::opaque]
pub open spec fn items_loop(c: Source, s: State, items: Seq<ItemView>) -> (Seq<ItemView>, State)
    decreases left(c, s),
{
    if kind(c, s) is Eof {
        (items, s)
    } else {
        let (next, s1) = match parse_item(c, s) {
            (Some(item), s1) => (items.push(item), s1),
            (None, s1) => (items, force(c, s1, recover_item(c, s1))),
        };
        if s1.pos > s.pos {
            items_loop(c, s1, next)
        } else {
            (next, s1)
        }
    }
}

/// The tree and the diagnostics of a token sequence.
pub open spec fn parsed(toks: Seq<TokenView>, module: Seq<char>) -> (
    ProgramView,
    Seq<DiagnosticView>,
) {
    let c = Source { toks, known: known_types(toks, toks.len() as int) };
    let (items, s) = items_loop(c, State { pos: 0, diags: Seq::empty() }, Seq::empty());
    (ProgramView { module, items }, s.diags)
}

} // verus!
