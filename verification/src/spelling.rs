//! Trees spell what they were read from: the words of an expression, a statement or
//! a body are those of the tokens between where its reading starts and where it ends.

use vstd::prelude::*;

use crate::ast::{
    BinOp, BindingKind, DestructureBindingView, ExprView, FunctionDeclView, ItemView, MatchArmView,
    ParamView, Scalar, StmtView, TypeParamView, UnOp, UnionVariantView,
};
use crate::grammar::{Name, ObjectBody, Source, State, Target};
use crate::span::Span;
use crate::token::{TokenKindView, TokenView};
use crate::ty::{GenericBound, TypeView};
use crate::{grammar, grammar_laws, lex, token, ty};

verus! {

// ---------------------------------------------------------------------------
// Words
// ---------------------------------------------------------------------------

/// The word that a token is. Brackets that only group, and commas, are none. `let`
/// is `var`, and `:` is `=`.
pub open spec fn word(k: TokenKindView) -> Seq<TokenKindView> {
    match k {
        TokenKindView::LParen
        | TokenKindView::RParen
        | TokenKindView::LBrace
        | TokenKindView::RBrace
        | TokenKindView::Comma => Seq::empty(),
        TokenKindView::Let => seq![TokenKindView::Var],
        TokenKindView::Colon => seq![TokenKindView::Eq],
        _ => seq![k],
    }
}

/// The words of the tokens from a position up to another.
pub open spec fn words(toks: Seq<TokenView>, i: int, j: int) -> Seq<TokenKindView>
    decreases j - i,
{
    if j <= i {
        Seq::empty()
    } else {
        words(toks, i, j - 1) + word(toks[j - 1].kind)
    }
}

/// The words of a dotted path.
pub open spec fn path_words(path: Seq<Seq<char>>) -> Seq<TokenKindView>
    decreases path.len(),
{
    if path.len() == 0 {
        Seq::empty()
    } else if path.len() == 1 {
        seq![TokenKindView::Ident(path[0])]
    } else {
        path_words(path.drop_last()) + seq![TokenKindView::Dot, TokenKindView::Ident(path.last())]
    }
}

/// A name and `=`, where there is a name.
pub open spec fn label_words(name: Option<Seq<char>>) -> Seq<TokenKindView> {
    match name {
        Some(n) => seq![TokenKindView::Ident(n), TokenKindView::Eq],
        None => Seq::empty(),
    }
}

/// The words of a type.
pub open spec fn type_words(t: TypeView) -> Seq<TokenKindView>
    decreases t,
{
    match t {
        TypeView::U64 => seq![TokenKindView::Ident("u64"@)],
        TypeView::I64 => seq![TokenKindView::Ident("i64"@)],
        TypeView::F64 => seq![TokenKindView::Ident("f64"@)],
        TypeView::Bool => seq![TokenKindView::Ident("bool"@)],
        TypeView::U8 => seq![TokenKindView::Ident("u8"@)],
        TypeView::String => seq![TokenKindView::Ident("String"@)],
        TypeView::File => seq![TokenKindView::Ident("File"@)],
        TypeView::Void => seq![TokenKindView::Ident("void"@)],
        TypeView::Object(n) => seq![TokenKindView::Ident(n)],
        TypeView::Param(n) => seq![TokenKindView::Ident(n)],
        TypeView::Array(e) => seq![TokenKindView::Ident("Array"@), TokenKindView::LBracket]
            + type_words(*e) + seq![TokenKindView::RBracket],
        TypeView::Mutable(e) => seq![TokenKindView::Star] + type_words(*e),
        TypeView::Nullable(e) => seq![TokenKindView::Question] + type_words(*e),
        TypeView::Tuple(fields) => seq![TokenKindView::Hash] + fields_words(fields),
    }
}

/// The words of the fields of a tuple type.
pub open spec fn fields_words(xs: Seq<(Option<Seq<char>>, TypeView)>) -> Seq<TokenKindView>
    decreases xs,
{
    if xs.len() == 0 {
        Seq::empty()
    } else {
        fields_words(xs.drop_last()) + label_words(xs.last().0) + type_words(xs.last().1)
    }
}

/// The words of types.
pub open spec fn types_words(xs: Seq<TypeView>) -> Seq<TokenKindView>
    decreases xs.len(),
{
    if xs.len() == 0 {
        Seq::empty()
    } else {
        types_words(xs.drop_last()) + type_words(xs.last())
    }
}

/// The words of explicit type arguments, where there are any.
pub open spec fn type_args_words(xs: Seq<TypeView>) -> Seq<TokenKindView> {
    if xs.len() == 0 {
        Seq::empty()
    } else {
        seq![TokenKindView::ColonColon, TokenKindView::LBracket] + types_words(xs)
            + seq![TokenKindView::RBracket]
    }
}

/// The word of a scalar.
pub open spec fn scalar_word(v: Scalar) -> TokenKindView {
    match v {
        Scalar::Int(n) => TokenKindView::Int(n),
        Scalar::I64(n) => TokenKindView::I64(n),
        Scalar::U64(n) => TokenKindView::U64(n),
        Scalar::F64(n) => TokenKindView::F64(n),
        Scalar::U8(n) => TokenKindView::U8(n),
        Scalar::Bool(b) => TokenKindView::Bool(b),
    }
}

/// The word of an operator.
pub open spec fn op_word(op: BinOp) -> TokenKindView {
    match op {
        BinOp::Add => TokenKindView::Plus,
        BinOp::Sub => TokenKindView::Minus,
        BinOp::Mul => TokenKindView::Star,
        BinOp::Div => TokenKindView::Slash,
        BinOp::Eq => TokenKindView::EqEq,
        BinOp::Ne => TokenKindView::BangEq,
        BinOp::Lt => TokenKindView::Lt,
        BinOp::Le => TokenKindView::LtEq,
        BinOp::Gt => TokenKindView::Gt,
        BinOp::Ge => TokenKindView::GtEq,
        BinOp::And => TokenKindView::AmpAmp,
        BinOp::Or => TokenKindView::PipePipe,
    }
}

/// The words of an expression.
pub open spec fn expr_words(x: ExprView) -> Seq<TokenKindView>
    decreases x,
{
    match x {
        ExprView::Literal(v, _) => seq![scalar_word(v)],
        ExprView::String(v, _) => seq![TokenKindView::String(v)],
        ExprView::Null(_) => seq![TokenKindView::Null],
        ExprView::Var { path, .. } => path_words(path),
        ExprView::ArrayLiteral { elems, .. } => seq![TokenKindView::LBracket] + exprs_words(elems)
            + seq![TokenKindView::RBracket],
        ExprView::ObjectLiteral { name, fields, .. } => seq![TokenKindView::Ident(name)]
            + named_words(fields),
        ExprView::TupleLiteral { elems, .. } => seq![TokenKindView::Hash] + elems_words(elems),
        ExprView::Index { base, index, .. } => expr_words(*base) + seq![TokenKindView::LBracket]
            + expr_words(*index) + seq![TokenKindView::RBracket],
        ExprView::Field { base, name, .. } => expr_words(*base) + seq![
            TokenKindView::Dot,
            TokenKindView::Ident(name),
        ],
        ExprView::TupleIndex { base, index, .. } => expr_words(*base) + seq![
            TokenKindView::Dot,
            TokenKindView::Backtick,
            TokenKindView::Int(index as i64),
        ],
        ExprView::Call { callee, type_args, args, .. } => path_words(callee) + type_args_words(
            type_args,
        ) + exprs_words(args),
        ExprView::Unary { op, rhs, .. } => seq![
            match op {
                UnOp::Neg => TokenKindView::Minus,
                UnOp::Not => TokenKindView::Bang,
            },
        ] + expr_words(*rhs),
        ExprView::Binary { op, lhs, rhs, .. } => expr_words(*lhs) + seq![op_word(op)] + expr_words(
            *rhs,
        ),
        ExprView::Cast { inner, target, .. } => expr_words(*inner) + seq![TokenKindView::As]
            + type_words(target),
    }
}

/// The words of expressions.
pub open spec fn exprs_words(xs: Seq<ExprView>) -> Seq<TokenKindView>
    decreases xs,
{
    if xs.len() == 0 {
        Seq::empty()
    } else {
        exprs_words(xs.drop_last()) + expr_words(xs.last())
    }
}

/// The words of the fields of an object literal.
pub open spec fn named_words(xs: Seq<(Seq<char>, Span, ExprView)>) -> Seq<TokenKindView>
    decreases xs,
{
    if xs.len() == 0 {
        Seq::empty()
    } else {
        named_words(xs.drop_last()) + label_words(Some(xs.last().0)) + expr_words(xs.last().2)
    }
}

/// The words of the elements of a tuple.
pub open spec fn elems_words(xs: Seq<(Option<Seq<char>>, Span, ExprView)>) -> Seq<TokenKindView>
    decreases xs,
{
    if xs.len() == 0 {
        Seq::empty()
    } else {
        elems_words(xs.drop_last()) + label_words(xs.last().0) + expr_words(xs.last().2)
    }
}

// ---------------------------------------------------------------------------
// Steps
// ---------------------------------------------------------------------------

/// Whether a state stands at a token, of tokens that end with the end of the file.
pub open spec fn stands(c: Source, s: State) -> bool {
    0 <= s.pos < c.toks.len() && c.toks.last().kind is Eof
}

/// Whether the tokens from a position to a state spell words, and the state is not
/// before another.
pub open spec fn spelled(c: Source, from: int, s: State, t: State, ws: Seq<TokenKindView>) -> bool {
    &&& from <= s.pos <= t.pos
    &&& stands(c, t)
    &&& words(c.toks, from, t.pos) == ws
}

proof fn words_join(toks: Seq<TokenView>, i: int, j: int, k: int)
    requires
        i <= j <= k,
    ensures
        words(toks, i, k) == words(toks, i, j) + words(toks, j, k),
    decreases k - j,
{
    if j < k {
        words_join(toks, i, j, k - 1);
        assert(words(toks, i, k) =~= words(toks, i, j) + words(toks, j, k));
    } else {
        assert(words(toks, i, k) =~= words(toks, i, j) + words(toks, j, k));
    }
}

/// Passing over a token spells one word more.
proof fn passing(c: Source, from: int, s: State, ws: Seq<TokenKindView>)
    requires
        stands(c, s),
        from <= s.pos,
        !(grammar::kind(c, s) is Eof),
        words(c.toks, from, s.pos) == ws,
    ensures
        grammar::bump(c, s) == (State { pos: s.pos + 1, ..s }),
        spelled(c, from, s, grammar::bump(c, s), ws + word(grammar::kind(c, s))),
        spelled(c, s.pos, s, grammar::bump(c, s), word(grammar::kind(c, s))),
        words(c.toks, s.pos + 1, s.pos + 1) == Seq::<TokenKindView>::empty(),
{
    assert(words(c.toks, s.pos, s.pos) == Seq::<TokenKindView>::empty());
    assert(words(c.toks, s.pos, s.pos + 1) =~= word(grammar::kind(c, s)));
}

/// What is read behind other words spells words behind them.
proof fn behind(c: Source, from: int, s: State, t: State, a: Seq<TokenKindView>, b: Seq<TokenKindView>)
    requires
        from <= s.pos,
        words(c.toks, from, s.pos) == a,
        spelled(c, s.pos, s, t, b),
    ensures
        spelled(c, from, s, t, a + b),
{
    words_join(c.toks, from, s.pos, t.pos);
}

/// A token that is expected and found.
pub(crate) proof fn found(c: Source, from: int, s: State, want: TokenKindView, what: Seq<char>, ws: Seq<TokenKindView>)
    requires
        stands(c, s),
        from <= s.pos,
        words(c.toks, from, s.pos) == ws,
        want is Semi || want is LParen || want is RParen || want is LBrace || want is RBrace
            || want is RBracket || want is Eq || want is Colon,
        grammar::expect(c, s, want, what).0 is Some,
    ensures
        grammar::kind(c, s) == want,
        grammar::expect(c, s, want, what).1 == (State { pos: s.pos + 1, ..s }),
        spelled(c, from, s, grammar::expect(c, s, want, what).1, ws + word(want)),
{
    same_tag(grammar::kind(c, s), want);
    passing(c, from, s, ws);
}

proof fn same_tag(k: TokenKindView, want: TokenKindView)
    requires
        token::kind_tag(k) == token::kind_tag(want),
        want is Semi || want is LParen || want is RParen || want is LBrace || want is RBrace
            || want is RBracket || want is Eq || want is Colon,
    ensures
        k == want,
{
}

proof fn nothing_read(c: Source, s: State)
    ensures
        words(c.toks, s.pos, s.pos) == Seq::<TokenKindView>::empty(),
{
}

// ---------------------------------------------------------------------------
// Paths and types
// ---------------------------------------------------------------------------

proof fn path_loop_spells(c: Source, from: int, s: State, path: Seq<Seq<char>>)
    requires
        stands(c, s),
        from <= s.pos,
        path.len() > 0,
        words(c.toks, from, s.pos) == path_words(path),
    ensures
        grammar::path_loop(c, s, path).0 matches Some(p) ==> p.len() >= path.len() && spelled(
            c,
            from,
            s,
            grammar::path_loop(c, s, path).1,
            path_words(p),
        ),
    decreases c.toks.len() - s.pos,
{
    if grammar::kind(c, s) is Dot && !(grammar::kind_at(c, s.pos + 1) is LBrace) && !(
    grammar::kind_at(c, s.pos + 1) is Backtick) {
        passing(c, from, s, path_words(path));
        let s1 = grammar::bump(c, s);
        match grammar::parse_ident(c, s1) {
            (Some(n), s2) => {
                passing(c, from, s1, words(c.toks, from, s1.pos));
                let next = path.push(n.0);
                assert(next.drop_last() =~= path);
                assert(words(c.toks, from, s2.pos) =~= path_words(next));
                path_loop_spells(c, from, s2, next);
            },
            _ => {},
        }
    }
}

pub(crate) proof fn path_spells(c: Source, s: State)
    requires
        stands(c, s),
    ensures
        grammar::parse_path(c, s).0 matches Some(p) ==> p.len() > 0 && s.pos < grammar::parse_path(
            c,
            s,
        ).1.pos && spelled(c, s.pos, s, grammar::parse_path(c, s).1, path_words(p)),
{
    reveal(grammar::parse_path);
    nothing_read(c, s);
    match grammar::parse_ident(c, s) {
        (Some(n), s1) => {
            passing(c, s.pos, s, Seq::empty());
            assert(words(c.toks, s.pos, s1.pos) =~= path_words(seq![n.0]));
            path_loop_spells(c, s.pos, s1, seq![n.0]);
        },
        _ => {},
    }
}

pub(crate) proof fn type_spells(c: Source, s: State, allowed: Seq<Seq<char>>, strict: bool)
    requires
        stands(c, s),
    ensures
        grammar::parse_type(c, s, allowed, strict).0 matches Some(x) ==> s.pos
            < grammar::parse_type(c, s, allowed, strict).1.pos && spelled(
            c,
            s.pos,
            s,
            grammar::parse_type(c, s, allowed, strict).1,
            type_words(x.0),
        ),
    decreases c.toks.len() - s.pos, 2nat,
{
    reveal(grammar::parse_type);
    reveal(grammar::parse_array_type);
    reveal(grammar::tuple_type_loop);
    nothing_read(c, s);
    let s1 = grammar::bump(c, s);
    let from = s.pos;
    match grammar::kind(c, s) {
        TokenKindView::Ident(name) => {
            passing(c, from, s, Seq::empty());
            if name == "Array"@ && !grammar::has_name(allowed, "Array"@) && grammar::kind_at(
                c,
                s.pos + 1,
            ) is LBracket {
                array_type_spells(c, s, allowed, strict);
            } else {
                assert(words(c.toks, from, s1.pos) =~= seq![TokenKindView::Ident(name)]);
            }
        },
        TokenKindView::Star => {
            passing(c, from, s, Seq::empty());
            type_spells(c, s1, allowed, strict);
            match grammar::parse_type(c, s1, allowed, strict) {
                (Some((t, sp)), s2) => {
                    behind(c, from, s1, s2, words(c.toks, from, s1.pos), type_words(t));
                    assert(words(c.toks, from, s2.pos) =~= type_words(
                        TypeView::Mutable(Box::new(t)),
                    ));
                },
                _ => {},
            }
        },
        TokenKindView::Question => {
            passing(c, from, s, Seq::empty());
            type_spells(c, s1, allowed, strict);
            match grammar::parse_type(c, s1, allowed, strict) {
                (Some((t, sp)), s2) => {
                    behind(c, from, s1, s2, words(c.toks, from, s1.pos), type_words(t));
                    assert(words(c.toks, from, s2.pos) =~= type_words(
                        TypeView::Nullable(Box::new(t)),
                    ));
                },
                _ => {},
            }
        },
        TokenKindView::Hash => {
            passing(c, from, s, Seq::empty());
            let what = "`(` after `#` in a tuple type"@;
            match grammar::expect(c, s1, TokenKindView::LParen, what) {
                (Some(_), s2) => {
                    found(c, from, s1, TokenKindView::LParen, what, words(c.toks, from, s1.pos));
                    assert(words(c.toks, from, s2.pos) =~= seq![TokenKindView::Hash]);
                    nothing_read(c, s2);
                    assert(fields_words(Seq::empty()) == Seq::<TokenKindView>::empty());
                    tuple_type_spells(c, s2.pos, s2, allowed, strict, Seq::empty());
                    match grammar::tuple_type_loop(c, s2, allowed, strict, Seq::empty()) {
                        (Some(fields), s3) => {
                            behind(
                                c,
                                from,
                                s2,
                                s3,
                                seq![TokenKindView::Hash],
                                fields_words(fields),
                            );
                            let what = "`)` after tuple fields"@;
                            match grammar::expect(c, s3, TokenKindView::RParen, what) {
                                (Some(_), s4) => {
                                    found(
                                        c,
                                        from,
                                        s3,
                                        TokenKindView::RParen,
                                        what,
                                        words(c.toks, from, s3.pos),
                                    );
                                    assert(words(c.toks, from, s4.pos) =~= type_words(
                                        TypeView::Tuple(fields),
                                    ));
                                },
                                _ => {},
                            }
                        },
                        _ => {},
                    }
                },
                _ => {},
            }
        },
        _ => {},
    }
}

proof fn array_type_spells(c: Source, s: State, allowed: Seq<Seq<char>>, strict: bool)
    requires
        stands(c, s),
        grammar::kind(c, s) == TokenKindView::Ident("Array"@),
        grammar::kind_at(c, s.pos + 1) is LBracket,
    ensures
        grammar::parse_array_type(c, s, allowed, strict).0 matches Some(x) ==> s.pos
            < grammar::parse_array_type(c, s, allowed, strict).1.pos && spelled(
            c,
            s.pos,
            s,
            grammar::parse_array_type(c, s, allowed, strict).1,
            type_words(x.0),
        ),
    decreases c.toks.len() - s.pos, 1nat,
{
    reveal(grammar::parse_type);
    reveal(grammar::parse_array_type);
    nothing_read(c, s);
    let from = s.pos;
    passing(c, from, s, Seq::empty());
    let s0 = grammar::bump(c, s);
    passing(c, from, s0, words(c.toks, from, s0.pos));
    let s1 = grammar::bump(c, s0);
    type_spells(c, s1, allowed, strict);
    match grammar::parse_type(c, s1, allowed, strict) {
        (Some((t, _)), s2) => {
            behind(c, from, s1, s2, words(c.toks, from, s1.pos), type_words(t));
            let what = "`]` after the element type"@;
            match grammar::expect(c, s2, TokenKindView::RBracket, what) {
                (Some(_), s3) => {
                    found(
                        c,
                        from,
                        s2,
                        TokenKindView::RBracket,
                        what,
                        words(c.toks, from, s2.pos),
                    );
                    assert(words(c.toks, from, s3.pos) =~= type_words(
                        TypeView::Array(Box::new(t)),
                    ));
                },
                _ => {},
            }
        },
        _ => {},
    }
}

/// Passing over a name and a colon, where they stand there.
pub(crate) proof fn label_spells(c: Source, from: int, s: State, ws: Seq<TokenKindView>) -> (s1: State)
    requires
        stands(c, s),
        from <= s.pos,
        words(c.toks, from, s.pos) == ws,
    ensures
        ({
            let named = grammar::kind(c, s) is Ident && grammar::kind_at(c, s.pos + 1) is Colon;
            let name = if named {
                Some(grammar::kind(c, s)->Ident_0)
            } else {
                None
            };
            &&& s1 == if named {
                grammar::adv(s, grammar::bump(c, grammar::bump(c, s)))
            } else {
                s
            }
            &&& spelled(c, from, s, s1, ws + label_words(name))
        }),
{
    if grammar::kind(c, s) is Ident && grammar::kind_at(c, s.pos + 1) is Colon {
        passing(c, from, s, ws);
        let s0 = grammar::bump(c, s);
        passing(c, from, s0, words(c.toks, from, s0.pos));
        let s1 = grammar::bump(c, s0);
        assert(words(c.toks, from, s1.pos) =~= ws + label_words(
            Some(grammar::kind(c, s)->Ident_0),
        ));
        s1
    } else {
        assert(ws =~= ws + label_words(None));
        s
    }
}

proof fn tuple_type_spells(
    c: Source,
    from: int,
    s: State,
    allowed: Seq<Seq<char>>,
    strict: bool,
    fields: Seq<(Option<Seq<char>>, TypeView)>,
)
    requires
        stands(c, s),
        from <= s.pos,
        words(c.toks, from, s.pos) == fields_words(fields),
    ensures
        grammar::tuple_type_loop(c, s, allowed, strict, fields).0 matches Some(all) ==> spelled(
            c,
            from,
            s,
            grammar::tuple_type_loop(c, s, allowed, strict, fields).1,
            fields_words(all),
        ),
    decreases c.toks.len() - s.pos, 3nat,
{
    reveal(grammar::tuple_type_loop);
    reveal(grammar::parse_type);
    let named = grammar::kind(c, s) is Ident && grammar::kind_at(c, s.pos + 1) is Colon;
    let name = if named {
        Some(grammar::kind(c, s)->Ident_0)
    } else {
        None
    };
    let s1 = label_spells(c, from, s, fields_words(fields));
    type_spells(c, s1, allowed, strict);
    match grammar::parse_type(c, s1, allowed, strict) {
        (Some((t, sp)), s2) => {
            behind(c, from, s1, s2, words(c.toks, from, s1.pos), type_words(t));
            let next = fields.push((name, t));
            assert(next.drop_last() =~= fields);
            assert(words(c.toks, from, s2.pos) =~= fields_words(next));
            if grammar::kind(c, s2) is Comma {
                passing(c, from, s2, fields_words(next));
                let s3 = grammar::bump(c, s2);
                assert(words(c.toks, from, s3.pos) =~= fields_words(next));
                tuple_type_spells(c, from, s3, allowed, strict, next);
            }
        },
        _ => {},
    }
}

proof fn types_loop_spells(c: Source, from: int, s: State, args: Seq<TypeView>)
    requires
        stands(c, s),
        from <= s.pos,
        words(c.toks, from, s.pos) == types_words(args),
    ensures
        grammar::types_loop(c, s, args).0 matches Some(all) ==> all.len() > 0 && spelled(
            c,
            from,
            s,
            grammar::types_loop(c, s, args).1,
            types_words(all),
        ),
    decreases c.toks.len() - s.pos,
{
    reveal(grammar::types_loop);
    type_spells(c, s, Seq::empty(), false);
    match grammar::parse_type(c, s, Seq::empty(), false) {
        (Some((t, _)), s1) => {
            behind(c, from, s, s1, types_words(args), type_words(t));
            let next = args.push(t);
            assert(next.drop_last() =~= args);
            assert(words(c.toks, from, s1.pos) =~= types_words(next));
            if grammar::kind(c, s1) is Comma {
                passing(c, from, s1, types_words(next));
                let s2 = grammar::bump(c, s1);
                assert(words(c.toks, from, s2.pos) =~= types_words(next));
                types_loop_spells(c, from, s2, next);
            }
        },
        _ => {},
    }
}

pub(crate) proof fn type_args_spell(c: Source, s: State)
    requires
        stands(c, s),
    ensures
        grammar::parse_type_args(c, s).0 matches Some(x) ==> spelled(
            c,
            s.pos,
            s,
            grammar::parse_type_args(c, s).1,
            type_args_words(x.0),
        ),
{
    reveal(grammar::parse_type_args);
    nothing_read(c, s);
    if grammar::kind(c, s) is ColonColon && grammar::kind_at(c, s.pos + 1) is LBracket {
        let from = s.pos;
        passing(c, from, s, Seq::empty());
        let s1 = grammar::bump(c, s);
        passing(c, from, s1, words(c.toks, from, s1.pos));
        let s2 = grammar::bump(c, s1);
        nothing_read(c, s2);
        types_loop_spells(c, s2.pos, s2, Seq::empty());
        match grammar::types_loop(c, s2, Seq::empty()) {
            (Some(args), s3) => {
                behind(c, from, s2, s3, words(c.toks, from, s2.pos), types_words(args));
                let what = "`]` after type arguments"@;
                match grammar::expect(c, s3, TokenKindView::RBracket, what) {
                    (Some(_), s4) => {
                        found(
                            c,
                            from,
                            s3,
                            TokenKindView::RBracket,
                            what,
                            words(c.toks, from, s3.pos),
                        );
                        assert(words(c.toks, from, s4.pos) =~= type_args_words(args));
                    },
                    _ => {},
                }
            },
            _ => {},
        }
    }
}

// ---------------------------------------------------------------------------
// Expressions
// ---------------------------------------------------------------------------

/// Whether an expression that was read spells the tokens from a position on.
pub open spec fn reads(c: Source, from: int, s: State, r: (Option<ExprView>, State)) -> bool {
    r.0 matches Some(e) ==> spelled(c, from, s, r.1, expr_words(e))
}

/// An expression spells the tokens that it was read from.
pub proof fn expressions_spell_their_tokens(c: Source, s: State)
    requires
        stands(c, s),
    ensures
        grammar::parse_expr(c, s).0 matches Some(e) ==> words(
            c.toks,
            s.pos,
            grammar::parse_expr(c, s).1.pos,
        ) == expr_words(e),
        reads(c, s.pos, s, grammar::parse_expr(c, s)),
    decreases c.toks.len() - s.pos, 41nat,
{
    reveal(grammar::parse_level);
    level_spells(c, s, 5);
}

proof fn level_spells(c: Source, s: State, level: nat)
    requires
        stands(c, s),
    ensures
        reads(c, s.pos, s, grammar::parse_level(c, s, level)),
    decreases c.toks.len() - s.pos, 20 + 4 * level,
{
    reveal(grammar::parse_level);
    reveal(grammar::parse_operand);
    reveal(grammar::level_loop);
    operand_spells(c, s, level);
    match grammar::parse_operand(c, s, level) {
        (Some(lhs), s1) => level_loop_spells(c, s.pos, s1, level, lhs),
        _ => {},
    }
}

proof fn level_loop_spells(c: Source, from: int, s: State, level: nat, lhs: ExprView)
    requires
        stands(c, s),
        from <= s.pos,
        words(c.toks, from, s.pos) == expr_words(lhs),
    ensures
        reads(c, from, s, grammar::level_loop(c, s, level, lhs)),
    decreases c.toks.len() - s.pos, 1nat,
{
    reveal(grammar::parse_operand);
    reveal(grammar::level_loop);
    match grammar::operator(grammar::kind(c, s), level) {
        None => {},
        Some(op) => {
            passing(c, from, s, expr_words(lhs));
            let s1 = grammar::bump(c, s);
            operand_spells(c, s1, level);
            match grammar::parse_operand(c, s1, level) {
                (Some(rhs), s2) => {
                    behind(c, from, s1, s2, words(c.toks, from, s1.pos), expr_words(rhs));
                    let both = grammar::binary(op, lhs, rhs);
                    assert(word(grammar::kind(c, s)) =~= seq![op_word(op)]);
                    assert(words(c.toks, from, s2.pos) =~= expr_words(both));
                    level_loop_spells(c, from, s2, level, both);
                },
                _ => {},
            }
        },
    }
}

proof fn operand_spells(c: Source, s: State, level: nat)
    requires
        stands(c, s),
    ensures
        reads(c, s.pos, s, grammar::parse_operand(c, s, level)),
    decreases c.toks.len() - s.pos, 19 + 4 * level,
{
    reveal(grammar::parse_operand);
    reveal(grammar::parse_unary);
    reveal(grammar::parse_cast);
    reveal(grammar::parse_level);
    if level == 0 {
        unary_spells(c, s);
    } else if level == 3 {
        cast_spells(c, s);
    } else {
        level_spells(c, s, (level - 1) as nat);
    }
}

proof fn cast_spells(c: Source, s: State)
    requires
        stands(c, s),
    ensures
        reads(c, s.pos, s, grammar::parse_cast(c, s)),
    decreases c.toks.len() - s.pos, 29nat,
{
    reveal(grammar::parse_cast);
    reveal(grammar::parse_level);
    level_spells(c, s, 2);
    match grammar::parse_level(c, s, 2) {
        (Some(e), s1) => cast_loop_spells(c, s.pos, s1, e),
        _ => {},
    }
}

proof fn cast_loop_spells(c: Source, from: int, s: State, e: ExprView)
    requires
        stands(c, s),
        from <= s.pos,
        words(c.toks, from, s.pos) == expr_words(e),
    ensures
        reads(c, from, s, grammar::cast_loop(c, s, e)),
    decreases c.toks.len() - s.pos,
{
    reveal(grammar::cast_loop);
    if grammar::kind(c, s) is As {
        passing(c, from, s, expr_words(e));
        let s1 = grammar::bump(c, s);
        type_spells(c, s1, Seq::empty(), true);
        match grammar::parse_type(c, s1, Seq::empty(), true) {
            (Some((t, sp)), s2) => {
                behind(c, from, s1, s2, words(c.toks, from, s1.pos), type_words(t));
                let next = ExprView::Cast {
                    inner: Box::new(e),
                    target: t,
                    target_span: sp,
                    span: Span { start: e.span().start, end: sp.end },
                };
                assert(words(c.toks, from, s2.pos) =~= expr_words(next));
                cast_loop_spells(c, from, s2, next);
            },
            _ => {},
        }
    }
}

proof fn unary_spells(c: Source, s: State)
    requires
        stands(c, s),
    ensures
        reads(c, s.pos, s, grammar::parse_unary(c, s)),
    decreases c.toks.len() - s.pos, 10nat,
{
    reveal(grammar::parse_unary);
    reveal(grammar::parse_postfix);
    if grammar::kind(c, s) is Minus || grammar::kind(c, s) is Bang {
        nothing_read(c, s);
        passing(c, s.pos, s, Seq::empty());
        let s1 = grammar::bump(c, s);
        unary_spells(c, s1);
        match grammar::parse_unary(c, s1) {
            (Some(rhs), s2) => {
                behind(c, s.pos, s1, s2, words(c.toks, s.pos, s1.pos), expr_words(rhs));
                let whole = grammar::parse_unary(c, s).0->0;
                assert(words(c.toks, s.pos, s2.pos) =~= expr_words(whole));
            },
            _ => {},
        }
    } else {
        postfix_spells(c, s);
    }
}

proof fn postfix_spells(c: Source, s: State)
    requires
        stands(c, s),
    ensures
        reads(c, s.pos, s, grammar::parse_postfix(c, s)),
    decreases c.toks.len() - s.pos, 9nat,
{
    reveal(grammar::parse_postfix);
    reveal(grammar::parse_primary);
    reveal(grammar::postfix_loop);
    primary_spells(c, s);
    match grammar::parse_primary(c, s) {
        (Some(e), s1) => postfix_loop_spells(c, s.pos, s1, e, false),
        _ => {},
    }
}

proof fn postfix_loop_spells(c: Source, from: int, s: State, base: ExprView, indexed: bool)
    requires
        stands(c, s),
        from <= s.pos,
        words(c.toks, from, s.pos) == expr_words(base),
    ensures
        reads(c, from, s, grammar::postfix_loop(c, s, base, indexed)),
    decreases c.toks.len() - s.pos, 1nat,
{
    reveal(grammar::postfix_loop);
    reveal(grammar::parse_level);
    let s1 = grammar::bump(c, s);
    let start = base.span().start;
    if grammar::kind(c, s) is LBracket {
        passing(c, from, s, expr_words(base));
        expressions_spell_their_tokens(c, s1);
        match grammar::parse_expr(c, s1) {
            (Some(index), s2) => {
                behind(c, from, s1, s2, words(c.toks, from, s1.pos), expr_words(index));
                match grammar::expect(c, s2, TokenKindView::RBracket, "`]`"@) {
                    (Some(close), s3) => {
                        found(
                            c,
                            from,
                            s2,
                            TokenKindView::RBracket,
                            "`]`"@,
                            words(c.toks, from, s2.pos),
                        );
                        let next = ExprView::Index {
                            base: Box::new(base),
                            index: Box::new(index),
                            span: Span { start, end: close.end },
                        };
                        assert(words(c.toks, from, s3.pos) =~= expr_words(next));
                        postfix_loop_spells(c, from, s3, next, true);
                    },
                    _ => {},
                }
            },
            _ => {},
        }
    } else if grammar::kind(c, s) is Dot && grammar::kind(c, s1) is Backtick {
        passing(c, from, s, expr_words(base));
        passing(c, from, s1, words(c.toks, from, s1.pos));
        let s2 = grammar::bump(c, s1);
        match grammar::kind(c, s2) {
            TokenKindView::Int(v) if v >= 0 && v <= u32::MAX => {
                passing(c, from, s2, words(c.toks, from, s2.pos));
                let s3 = grammar::bump(c, s2);
                let next = ExprView::TupleIndex {
                    base: Box::new(base),
                    index: v as usize,
                    index_span: grammar::span(c, s2),
                    span: Span { start, end: grammar::span(c, s2).end },
                };
                assert((v as usize) as i64 == v);
                assert(words(c.toks, from, s3.pos) =~= expr_words(next));
                postfix_loop_spells(c, from, s3, next, indexed);
            },
            _ => {},
        }
    } else if grammar::kind(c, s) is Dot {
        passing(c, from, s, expr_words(base));
        match grammar::parse_ident(c, s1) {
            (Some((name, sp)), s2) => {
                passing(c, from, s1, words(c.toks, from, s1.pos));
                let next = ExprView::Field {
                    base: Box::new(base),
                    name,
                    span: Span { start, end: sp.end },
                };
                assert(words(c.toks, from, s2.pos) =~= expr_words(next));
                postfix_loop_spells(c, from, s2, next, indexed);
            },
            _ => {},
        }
    }
}

proof fn chain_spells(path: Seq<Seq<char>>, head: Span, whole: Span)
    ensures
        expr_words(grammar::field_chain(path, head, whole)) == path_words(path),
    decreases path.len(),
{
    if path.len() > 1 {
        chain_spells(path.drop_last(), head, whole);
    }
}

proof fn no_words()
    ensures
        exprs_words(Seq::empty()) == Seq::<TokenKindView>::empty(),
        elems_words(Seq::empty()) == Seq::<TokenKindView>::empty(),
        named_words(Seq::empty()) == Seq::<TokenKindView>::empty(),
{
}

#[verifier::rlimit(40)]
proof fn primary_spells(c: Source, s: State)
    requires
        stands(c, s),
    ensures
        reads(c, s.pos, s, grammar::parse_primary(c, s)),
    decreases c.toks.len() - s.pos, 8nat,
{
    reveal(grammar::parse_primary);
    reveal(grammar::parse_named);
    reveal(grammar::exprs_loop);
    reveal(grammar::tuple_loop);
    reveal(grammar::parse_level);
    no_words();
    nothing_read(c, s);
    let s1 = grammar::bump(c, s);
    let from = s.pos;
    let whole = grammar::parse_primary(c, s).0;
    match grammar::kind(c, s) {
        TokenKindView::Ident(_) => named_spells(c, s),
        TokenKindView::LParen => {
            passing(c, from, s, Seq::empty());
            expressions_spell_their_tokens(c, s1);
            match grammar::parse_expr(c, s1) {
                (Some(e), s2) => {
                    behind(c, from, s1, s2, words(c.toks, from, s1.pos), expr_words(e));
                    match grammar::expect(c, s2, TokenKindView::RParen, "`)`"@) {
                        (Some(_), s3) => {
                            found(
                                c,
                                from,
                                s2,
                                TokenKindView::RParen,
                                "`)`"@,
                                words(c.toks, from, s2.pos),
                            );
                            assert(words(c.toks, from, s3.pos) =~= expr_words(e));
                        },
                        _ => {},
                    }
                },
                _ => {},
            }
        },
        TokenKindView::LBracket => {
            passing(c, from, s, Seq::empty());
            nothing_read(c, s1);
            if !(grammar::kind(c, s1) is RBracket) {
                exprs_loop_spells(c, s1.pos, s1, Seq::empty(), true);
            }
            let (elems, s2) = if grammar::kind(c, s1) is RBracket {
                (Some(Seq::<ExprView>::empty()), s1)
            } else {
                grammar::exprs_loop(c, s1, Seq::empty(), true)
            };
            if elems is Some {
                behind(c, from, s1, s2, words(c.toks, from, s1.pos), exprs_words(elems->0));
                match grammar::expect(c, s2, TokenKindView::RBracket, "`]`"@) {
                    (Some(_), s3) => {
                        found(
                            c,
                            from,
                            s2,
                            TokenKindView::RBracket,
                            "`]`"@,
                            words(c.toks, from, s2.pos),
                        );
                        assert(words(c.toks, from, s3.pos) =~= expr_words(whole->0));
                    },
                    _ => {},
                }
            }
        },
        TokenKindView::Hash => {
            passing(c, from, s, Seq::empty());
            let what = "`(` after `#` in a tuple"@;
            match grammar::expect(c, s1, TokenKindView::LParen, what) {
                (Some(_), s2) => {
                    found(c, from, s1, TokenKindView::LParen, what, words(c.toks, from, s1.pos));
                    nothing_read(c, s2);
                    tuple_loop_spells(c, s2.pos, s2, Seq::empty());
                    match grammar::tuple_loop(c, s2, Seq::empty()) {
                        (Some(elems), s3) => {
                            behind(
                                c,
                                from,
                                s2,
                                s3,
                                words(c.toks, from, s2.pos),
                                elems_words(elems),
                            );
                            let what = "`)` after tuple elements"@;
                            match grammar::expect(c, s3, TokenKindView::RParen, what) {
                                (Some(_), s4) => {
                                    found(
                                        c,
                                        from,
                                        s3,
                                        TokenKindView::RParen,
                                        what,
                                        words(c.toks, from, s3.pos),
                                    );
                                    assert(words(c.toks, from, s4.pos) =~= expr_words(whole->0));
                                },
                                _ => {},
                            }
                        },
                        _ => {},
                    }
                },
                _ => {},
            }
        },
        TokenKindView::Invalid => {},
        _ => {
            if whole is Some {
                passing(c, from, s, Seq::empty());
                assert(words(c.toks, from, s1.pos) =~= expr_words(whole->0));
            }
        },
    }
}

#[verifier::rlimit(40)]
proof fn named_spells(c: Source, s: State)
    requires
        stands(c, s),
        grammar::kind(c, s) is Ident,
    ensures
        reads(c, s.pos, s, grammar::parse_named(c, s)),
    decreases c.toks.len() - s.pos, 7nat,
{
    reveal(grammar::parse_named);
    reveal(grammar::parse_object_literal);
    reveal(grammar::exprs_loop);
    no_words();
    let at = grammar::span(c, s);
    let from = s.pos;
    path_spells(c, s);
    match grammar::parse_path(c, s) {
        (Some(path), s1) => {
            let place = Span { start: at.start, end: grammar::prev_end(c, s1) };
            if path.len() == 1 && grammar::kind(c, s1) is LBrace {
                object_spells(c, from, s1, path[0], at);
            } else {
                type_args_spell(c, s1);
                match grammar::parse_type_args(c, s1) {
                    (Some((type_args, type_args_span)), s2) => {
                        behind(c, from, s1, s2, path_words(path), type_args_words(type_args));
                        if type_args.len() > 0 && !(grammar::kind(c, s2) is LParen) {
                        } else if grammar::kind(c, s2) is LParen {
                            passing(c, from, s2, words(c.toks, from, s2.pos));
                            let s3 = grammar::bump(c, s2);
                            nothing_read(c, s3);
                            if !(grammar::kind(c, s3) is RParen) {
                                exprs_loop_spells(c, s3.pos, s3, Seq::empty(), false);
                            }
                            let (args, s4) = if grammar::kind(c, s3) is RParen {
                                (Some(Seq::<ExprView>::empty()), s3)
                            } else {
                                grammar::exprs_loop(c, s3, Seq::empty(), false)
                            };
                            if args is Some {
                                behind(
                                    c,
                                    from,
                                    s3,
                                    s4,
                                    words(c.toks, from, s3.pos),
                                    exprs_words(args->0),
                                );
                                match grammar::expect(c, s4, TokenKindView::RParen, "`)`"@) {
                                    (Some(_), s5) => {
                                        found(
                                            c,
                                            from,
                                            s4,
                                            TokenKindView::RParen,
                                            "`)`"@,
                                            words(c.toks, from, s4.pos),
                                        );
                                        assert(words(c.toks, from, s5.pos) =~= expr_words(
                                            grammar::parse_named(c, s).0->0,
                                        ));
                                    },
                                    _ => {},
                                }
                            }
                        } else {
                            chain_spells(path, at, place);
                            assert(words(c.toks, from, s2.pos) =~= path_words(path));
                        }
                    },
                    _ => {},
                }
            }
        },
        _ => {},
    }
}

proof fn object_spells(c: Source, from: int, s: State, name: Seq<char>, at: Span)
    requires
        stands(c, s),
        from < s.pos,
        grammar::kind(c, s) is LBrace,
        words(c.toks, from, s.pos) == seq![TokenKindView::Ident(name)],
    ensures
        reads(c, from, s, grammar::parse_object_literal(c, s, name, at)),
    decreases c.toks.len() - s.pos, 6nat,
{
    reveal(grammar::parse_object_literal);
    reveal(grammar::fields_loop);
    no_words();
    passing(c, from, s, words(c.toks, from, s.pos));
    let s0 = grammar::bump(c, s);
    nothing_read(c, s0);
    fields_loop_spells(c, s0.pos, s0, Seq::empty());
    match grammar::fields_loop(c, s0, Seq::empty()) {
        (Some(fields), s1) => {
            behind(c, from, s0, s1, words(c.toks, from, s0.pos), named_words(fields));
            let what = "`}` after object literal"@;
            match grammar::expect(c, s1, TokenKindView::RBrace, what) {
                (Some(_), s2) => {
                    found(c, from, s1, TokenKindView::RBrace, what, words(c.toks, from, s1.pos));
                    assert(words(c.toks, from, s2.pos) =~= expr_words(
                        grammar::parse_object_literal(c, s, name, at).0->0,
                    ));
                },
                _ => {},
            }
        },
        _ => {},
    }
}

proof fn exprs_loop_spells(c: Source, from: int, s: State, elems: Seq<ExprView>, trailing: bool)
    requires
        stands(c, s),
        from <= s.pos,
        words(c.toks, from, s.pos) == exprs_words(elems),
    ensures
        grammar::exprs_loop(c, s, elems, trailing).0 matches Some(all) ==> spelled(
            c,
            from,
            s,
            grammar::exprs_loop(c, s, elems, trailing).1,
            exprs_words(all),
        ),
    decreases c.toks.len() - s.pos, 50nat,
{
    reveal(grammar::exprs_loop);
    reveal(grammar::parse_level);
    expressions_spell_their_tokens(c, s);
    match grammar::parse_expr(c, s) {
        (Some(e), s1) => {
            behind(c, from, s, s1, exprs_words(elems), expr_words(e));
            let next = elems.push(e);
            assert(next.drop_last() =~= elems);
            assert(words(c.toks, from, s1.pos) =~= exprs_words(next));
            if grammar::kind(c, s1) is Comma && s1.pos > s.pos {
                passing(c, from, s1, exprs_words(next));
                let s2 = grammar::bump(c, s1);
                assert(words(c.toks, from, s2.pos) =~= exprs_words(next));
                if !(trailing && grammar::kind(c, s2) is RBracket) {
                    exprs_loop_spells(c, from, s2, next, trailing);
                }
            }
        },
        _ => {},
    }
}

proof fn tuple_loop_spells(c: Source, from: int, s: State, elems: Seq<(Option<Seq<char>>, Span, ExprView)>)
    requires
        stands(c, s),
        from <= s.pos,
        words(c.toks, from, s.pos) == elems_words(elems),
    ensures
        grammar::tuple_loop(c, s, elems).0 matches Some(all) ==> spelled(
            c,
            from,
            s,
            grammar::tuple_loop(c, s, elems).1,
            elems_words(all),
        ),
    decreases c.toks.len() - s.pos, 50nat,
{
    reveal(grammar::tuple_loop);
    reveal(grammar::parse_level);
    let named = grammar::kind(c, s) is Ident && grammar::kind_at(c, s.pos + 1) is Colon;
    let name = if named {
        Some(grammar::kind(c, s)->Ident_0)
    } else {
        None
    };
    let s1 = label_spells(c, from, s, elems_words(elems));
    expressions_spell_their_tokens(c, s1);
    match grammar::parse_expr(c, s1) {
        (Some(e), s2) => {
            behind(c, from, s1, s2, words(c.toks, from, s1.pos), expr_words(e));
            let next = elems.push((name, grammar::span(c, s), e));
            assert(next.drop_last() =~= elems);
            assert(words(c.toks, from, s2.pos) =~= elems_words(next));
            if grammar::kind(c, s2) is Comma && s2.pos > s.pos {
                passing(c, from, s2, elems_words(next));
                let s3 = grammar::bump(c, s2);
                assert(words(c.toks, from, s3.pos) =~= elems_words(next));
                tuple_loop_spells(c, from, s3, next);
            }
        },
        _ => {},
    }
}

proof fn fields_loop_spells(c: Source, from: int, s: State, fields: Seq<(Seq<char>, Span, ExprView)>)
    requires
        stands(c, s),
        from <= s.pos,
        words(c.toks, from, s.pos) == named_words(fields),
    ensures
        grammar::fields_loop(c, s, fields).0 matches Some(all) ==> spelled(
            c,
            from,
            s,
            grammar::fields_loop(c, s, fields).1,
            named_words(all),
        ),
    decreases c.toks.len() - s.pos, 50nat,
{
    reveal(grammar::fields_loop);
    reveal(grammar::parse_level);
    if !(grammar::kind(c, s) is Eof || grammar::kind(c, s) is RBrace) {
        match grammar::parse_ident(c, s) {
            (Some((field, sp)), s1) => {
                passing(c, from, s, named_words(fields));
                match grammar::expect_field_separator(c, s1) {
                    (Some(_), s2) => {
                        if grammar::kind(c, s1) is Eq {
                            passing(c, from, s1, words(c.toks, from, s1.pos));
                        } else {
                            found(
                                c,
                                from,
                                s1,
                                TokenKindView::Colon,
                                "`:` after object field"@,
                                words(c.toks, from, s1.pos),
                            );
                        }
                        assert(words(c.toks, from, s2.pos) =~= named_words(fields) + label_words(
                            Some(field),
                        ));
                        expressions_spell_their_tokens(c, s2);
                        match grammar::parse_expr(c, s2) {
                            (Some(value), s3) => {
                                behind(
                                    c,
                                    from,
                                    s2,
                                    s3,
                                    words(c.toks, from, s2.pos),
                                    expr_words(value),
                                );
                                let next = fields.push((field, sp, value));
                                assert(next.drop_last() =~= fields);
                                assert(words(c.toks, from, s3.pos) =~= named_words(next));
                                if grammar::kind(c, s3) is Comma && s3.pos > s.pos {
                                    passing(c, from, s3, named_words(next));
                                    let s4 = grammar::bump(c, s3);
                                    assert(words(c.toks, from, s4.pos) =~= named_words(next));
                                    fields_loop_spells(c, from, s4, next);
                                }
                            },
                            _ => {},
                        }
                    },
                    _ => {},
                }
            },
            _ => {},
        }
    }
}

// ---------------------------------------------------------------------------
// Statements
// ---------------------------------------------------------------------------

/// The word of a binder.
pub open spec fn binder_word(k: BindingKind) -> TokenKindView {
    match k {
        BindingKind::Var => TokenKindView::Var,
        BindingKind::Val => TokenKindView::Val,
    }
}

/// The words of an annotation, where there is one.
pub open spec fn ann_words(t: Option<TypeView>) -> Seq<TokenKindView> {
    match t {
        Some(t) => seq![TokenKindView::Eq] + type_words(t),
        None => Seq::empty(),
    }
}

/// The words of the names of a pattern.
pub open spec fn pattern_words(xs: Seq<DestructureBindingView>) -> Seq<TokenKindView>
    decreases xs.len(),
{
    if xs.len() == 0 {
        Seq::empty()
    } else {
        pattern_words(xs.drop_last()) + label_words(xs.last().field) + seq![
            TokenKindView::Ident(xs.last().binding),
        ]
    }
}

/// The words of names.
pub open spec fn names_words(xs: Seq<Name>) -> Seq<TokenKindView>
    decreases xs.len(),
{
    if xs.len() == 0 {
        Seq::empty()
    } else {
        names_words(xs.drop_last()) + seq![TokenKindView::Ident(xs.last().0)]
    }
}

/// The words of the variant that a match arm is for.
pub open spec fn arm_words(path: Seq<Seq<char>>) -> Seq<TokenKindView> {
    if path == seq!["null"@] {
        seq![TokenKindView::Null]
    } else {
        path_words(path)
    }
}

/// The words of a statement.
pub open spec fn stmt_words(x: StmtView) -> Seq<TokenKindView>
    decreases x,
{
    match x {
        StmtView::Let { name, kind, ty, value, .. } => seq![
            binder_word(kind),
            TokenKindView::Ident(name),
        ] + ann_words(ty) + seq![TokenKindView::Eq] + expr_words(value) + seq![TokenKindView::Semi],
        StmtView::Destructure { bindings, kind, ty, value, .. } => seq![
            binder_word(kind),
            TokenKindView::Hash,
        ] + pattern_words(bindings) + ann_words(ty) + seq![TokenKindView::Eq] + expr_words(value)
            + seq![TokenKindView::Semi],
        StmtView::Assign { name, value, .. } => seq![TokenKindView::Ident(name), TokenKindView::Eq]
            + expr_words(value) + seq![TokenKindView::Semi],
        StmtView::IndexAssign { array, index, value, .. } => expr_words(*array) + seq![
            TokenKindView::LBracket,
        ] + expr_words(*index) + seq![TokenKindView::RBracket, TokenKindView::Eq] + expr_words(
            *value,
        ) + seq![TokenKindView::Semi],
        StmtView::FieldAssign { base, field, value, .. } => expr_words(*base) + seq![
            TokenKindView::Dot,
            TokenKindView::Ident(field),
            TokenKindView::Eq,
        ] + expr_words(*value) + seq![TokenKindView::Semi],
        StmtView::TupleAssign { base, index, value, .. } => expr_words(*base) + seq![
            TokenKindView::Dot,
            TokenKindView::Backtick,
            TokenKindView::Int(index as i64),
            TokenKindView::Eq,
        ] + expr_words(*value) + seq![TokenKindView::Semi],
        StmtView::If { condition, then_body, else_body, .. } => seq![TokenKindView::If]
            + expr_words(condition) + stmts_words(then_body) + (match else_body {
            Some(b) => seq![TokenKindView::Else] + stmts_words(b),
            None => Seq::empty(),
        }),
        StmtView::Match { scrutinee, arms, else_body, .. } => seq![TokenKindView::Match]
            + expr_words(scrutinee) + arms_words(arms) + (match else_body {
            Some(b) => seq![TokenKindView::Else] + stmts_words(b),
            None => Seq::empty(),
        }),
        StmtView::While { condition, body, .. } => seq![TokenKindView::While] + expr_words(
            condition,
        ) + stmts_words(body),
        StmtView::Break { .. } => seq![TokenKindView::Break, TokenKindView::Semi],
        StmtView::Continue { .. } => seq![TokenKindView::Continue, TokenKindView::Semi],
        StmtView::Return { value, .. } => seq![TokenKindView::Return] + (match value {
            Some(e) => expr_words(e),
            None => Seq::empty(),
        }) + seq![TokenKindView::Semi],
        StmtView::Expr(e) => expr_words(e) + seq![TokenKindView::Semi],
    }
}

/// The words of statements.
pub open spec fn stmts_words(xs: Seq<StmtView>) -> Seq<TokenKindView>
    decreases xs,
{
    if xs.len() == 0 {
        Seq::empty()
    } else {
        stmts_words(xs.drop_last()) + stmt_words(xs.last())
    }
}

/// The words of match arms.
pub open spec fn arms_words(xs: Seq<MatchArmView>) -> Seq<TokenKindView>
    decreases xs,
{
    if xs.len() == 0 {
        Seq::empty()
    } else {
        arms_words(xs.drop_last()) + arm_words(xs.last().path) + names_words(xs.last().bindings)
            + stmts_words(xs.last().body)
    }
}

/// Whether nothing is reported between two states, by the parser or by the lexer.
pub open spec fn quiet(c: Source, s: State, t: State) -> bool {
    t.diags.len() == s.diags.len() && !lex::some_invalid(c.toks)
}

proof fn ann_spells(c: Source, s: State, allowed: Seq<Seq<char>>)
    requires
        grammar_laws::good(c, s),
        quiet(c, s, grammar::parse_let_ann(c, s, allowed).1),
    ensures
        spelled(
            c,
            s.pos,
            s,
            grammar::parse_let_ann(c, s, allowed).1,
            ann_words((grammar::parse_let_ann(c, s, allowed).0).0),
        ),
{
    broadcast use {grammar_laws::group_steps, grammar_laws::types_go};

    reveal(grammar::parse_let_ann);
    nothing_read(c, s);
    if grammar::kind(c, s) is Colon {
        passing(c, s.pos, s, Seq::empty());
        let s1 = grammar::bump(c, s);
        type_spells(c, s1, allowed, true);
        match grammar::parse_type(c, s1, allowed, true) {
            (Some((t, _)), s2) => {
                behind(c, s.pos, s1, s2, words(c.toks, s.pos, s1.pos), type_words(t));
                assert(words(c.toks, s.pos, s2.pos) =~= ann_words(Some(t)));
            },
            _ => {},
        }
    }
}

proof fn pattern_spells(c: Source, from: int, s: State, names: Seq<DestructureBindingView>)
    requires
        stands(c, s),
        from <= s.pos,
        words(c.toks, from, s.pos) == pattern_words(names),
    ensures
        grammar::pattern_loop(c, s, names).0 matches Some(all) ==> spelled(
            c,
            from,
            s,
            grammar::pattern_loop(c, s, names).1,
            pattern_words(all),
        ),
    decreases c.toks.len() - s.pos,
{
    reveal(grammar::pattern_loop);
    let ws = pattern_words(names);
    match grammar::parse_ident(c, s) {
        (Some((first, sp)), s1) => {
            passing(c, from, s, ws);
            let (b, s2) = if grammar::kind(c, s1) is Colon {
                match grammar::parse_ident(c, grammar::bump(c, s1)) {
                    (None, s2) => (None, s2),
                    (Some((name, at)), s2) => (
                        Some(
                            DestructureBindingView {
                                field: Some(first),
                                binding: name,
                                binding_span: at,
                            },
                        ),
                        s2,
                    ),
                }
            } else {
                (
                    Some(
                        DestructureBindingView { field: None, binding: first, binding_span: sp },
                    ),
                    s1,
                )
            };
            if b is Some {
                let next = names.push(b->0);
                assert(next.drop_last() =~= names);
                if grammar::kind(c, s1) is Colon {
                    passing(c, from, s1, words(c.toks, from, s1.pos));
                    let s0 = grammar::bump(c, s1);
                    passing(c, from, s0, words(c.toks, from, s0.pos));
                }
                assert(words(c.toks, from, s2.pos) =~= pattern_words(next));
                if grammar::kind(c, s2) is Comma && s2.pos > s.pos {
                    passing(c, from, s2, pattern_words(next));
                    let s3 = grammar::bump(c, s2);
                    assert(words(c.toks, from, s3.pos) =~= pattern_words(next));
                    pattern_spells(c, from, s3, next);
                }
            }
        },
        _ => {},
    }
}

/// The words of what a binding gives names to.
pub open spec fn target_words(t: Target) -> Seq<TokenKindView> {
    match t {
        Target::Name(name, _) => seq![TokenKindView::Ident(name)],
        Target::Fields(bs) => seq![TokenKindView::Hash] + pattern_words(bs),
    }
}

proof fn target_spells(c: Source, s: State)
    requires
        stands(c, s),
    ensures
        grammar::parse_target(c, s).0 matches Some(t) ==> spelled(
            c,
            s.pos,
            s,
            grammar::parse_target(c, s).1,
            target_words(t),
        ),
{
    reveal(grammar::parse_target);
    nothing_read(c, s);
    let from = s.pos;
    if grammar::kind(c, s) is Hash {
        passing(c, from, s, Seq::empty());
        let s0 = grammar::bump(c, s);
        let what = "`(` after `#` in a pattern"@;
        match grammar::expect(c, s0, TokenKindView::LParen, what) {
            (Some(_), s1) => {
                found(c, from, s0, TokenKindView::LParen, what, words(c.toks, from, s0.pos));
                nothing_read(c, s1);
                assert(pattern_words(Seq::empty()) == Seq::<TokenKindView>::empty());
                pattern_spells(c, s1.pos, s1, Seq::empty());
                match grammar::pattern_loop(c, s1, Seq::empty()) {
                    (Some(names), s2) => {
                        behind(c, from, s1, s2, words(c.toks, from, s1.pos), pattern_words(names));
                        let what = "`)` after the pattern"@;
                        match grammar::expect(c, s2, TokenKindView::RParen, what) {
                            (Some(_), s3) => {
                                found(
                                    c,
                                    from,
                                    s2,
                                    TokenKindView::RParen,
                                    what,
                                    words(c.toks, from, s2.pos),
                                );
                                assert(words(c.toks, from, s3.pos) =~= target_words(
                                    Target::Fields(names),
                                ));
                            },
                            _ => {},
                        }
                    },
                    _ => {},
                }
            },
            _ => {},
        }
    } else if grammar::parse_target(c, s).0 is Some {
        passing(c, from, s, Seq::empty());
        assert(words(c.toks, from, s.pos + 1) =~= word(grammar::kind(c, s)));
    }
}

proof fn binding_spells(c: Source, s: State, allowed: Seq<Seq<char>>, bound: BindingKind)
    requires
        grammar_laws::good(c, s),
        grammar::binder(grammar::kind(c, s)) == Some(bound),
        quiet(c, s, grammar::parse_binding(c, s, allowed, bound).1),
    ensures
        grammar::parse_binding(c, s, allowed, bound).0 matches Some(b) ==> spelled(
            c,
            s.pos,
            s,
            grammar::parse_binding(c, s, allowed, bound).1,
            stmt_words(grammar::binding_stmt(b)),
        ),
{
    broadcast use {
        grammar_laws::group_steps,
        grammar_laws::target_goes,
        grammar_laws::let_ann_goes,
        grammar_laws::exprs_go,
    };

    reveal(grammar::parse_binding);
    nothing_read(c, s);
    let from = s.pos;
    passing(c, from, s, Seq::empty());
    let s0 = grammar::bump(c, s);
    target_spells(c, s0);
    match grammar::parse_target(c, s0) {
        (Some(target), s1) => {
            behind(c, from, s0, s1, words(c.toks, from, s0.pos), target_words(target));
            let ((ty, ty_span), s2) = grammar::parse_let_ann(c, s1, allowed);
            match grammar::expect(c, s2, TokenKindView::Eq, "`=`"@) {
                (Some(_), s3) => {
                    match grammar::parse_expr(c, s3) {
                        (Some(value), s4) => {
                            match grammar::expect(c, s4, TokenKindView::Semi, "`;`"@) {
                                (Some(_), s5) => {
                                    ann_spells(c, s1, allowed);
                                    behind(
                                        c,
                                        from,
                                        s1,
                                        s2,
                                        words(c.toks, from, s1.pos),
                                        ann_words(ty),
                                    );
                                    found(
                                        c,
                                        from,
                                        s2,
                                        TokenKindView::Eq,
                                        "`=`"@,
                                        words(c.toks, from, s2.pos),
                                    );
                                    expressions_spell_their_tokens(c, s3);
                                    behind(
                                        c,
                                        from,
                                        s3,
                                        s4,
                                        words(c.toks, from, s3.pos),
                                        expr_words(value),
                                    );
                                    found(
                                        c,
                                        from,
                                        s4,
                                        TokenKindView::Semi,
                                        "`;`"@,
                                        words(c.toks, from, s4.pos),
                                    );
                                    let b = grammar::parse_binding(c, s, allowed, bound).0->0;
                                    assert(words(c.toks, from, s5.pos) =~= stmt_words(
                                        grammar::binding_stmt(b),
                                    ));
                                },
                                _ => {},
                            }
                        },
                        _ => {},
                    }
                },
                _ => {},
            }
        },
        _ => {},
    }
}

proof fn expr_stmt_spells(c: Source, s: State)
    requires
        stands(c, s),
    ensures
        grammar::parse_expr_stmt(c, s).0 matches Some(x) ==> spelled(
            c,
            s.pos,
            s,
            grammar::parse_expr_stmt(c, s).1,
            stmt_words(x),
        ),
{
    reveal(grammar::parse_expr_stmt);
    expressions_spell_their_tokens(c, s);
    match grammar::parse_expr(c, s) {
        (Some(e), s1) => {
            match grammar::expect(c, s1, TokenKindView::Semi, "`;`"@) {
                (Some(_), s2) => found(
                    c,
                    s.pos,
                    s1,
                    TokenKindView::Semi,
                    "`;`"@,
                    words(c.toks, s.pos, s1.pos),
                ),
                _ => {},
            }
        },
        _ => {},
    }
}

proof fn assignment_spells(target: ExprView, value: ExprView, end: usize)
    ensures
        grammar::assignment(target, value, end) matches Some(x) ==> stmt_words(x) == expr_words(
            target,
        ) + seq![TokenKindView::Eq] + expr_words(value) + seq![TokenKindView::Semi],
{
    match grammar::assignment(target, value, end) {
        Some(x) => {
            assert(stmt_words(x) =~= expr_words(target) + seq![TokenKindView::Eq] + expr_words(
                value,
            ) + seq![TokenKindView::Semi]);
        },
        None => {},
    }
}

proof fn named_stmt_spells(c: Source, s: State)
    requires
        stands(c, s),
    ensures
        grammar::parse_named_stmt(c, s).0 matches Some(x) ==> spelled(
            c,
            s.pos,
            s,
            grammar::parse_named_stmt(c, s).1,
            stmt_words(x),
        ),
{
    reveal(grammar::parse_named_stmt);
    let from = s.pos;
    expr_stmt_spells(c, s);
    postfix_spells(c, s);
    match grammar::parse_postfix(c, s) {
        (Some(target), s1) => {
            if grammar::kind(c, s1) is Eq {
                passing(c, from, s1, words(c.toks, from, s1.pos));
                let s0 = grammar::bump(c, s1);
                expressions_spell_their_tokens(c, s0);
                match grammar::parse_expr(c, s0) {
                    (Some(value), s2) => {
                        behind(c, from, s0, s2, words(c.toks, from, s0.pos), expr_words(value));
                        match grammar::expect(c, s2, TokenKindView::Semi, "`;`"@) {
                            (Some(semi), s3) => {
                                found(
                                    c,
                                    from,
                                    s2,
                                    TokenKindView::Semi,
                                    "`;`"@,
                                    words(c.toks, from, s2.pos),
                                );
                                assignment_spells(target, value, semi.end);
                            },
                            _ => {},
                        }
                    },
                    _ => {},
                }
            }
        },
        _ => {},
    }
}

proof fn return_spells(c: Source, s: State)
    requires
        stands(c, s),
        grammar::kind(c, s) is Return,
    ensures
        grammar::parse_return(c, s).0 matches Some(x) ==> spelled(
            c,
            s.pos,
            s,
            grammar::parse_return(c, s).1,
            stmt_words(x),
        ),
{
    reveal(grammar::parse_return);
    nothing_read(c, s);
    let from = s.pos;
    passing(c, from, s, Seq::empty());
    let s1 = grammar::bump(c, s);
    let s2 = if grammar::kind(c, s1) is Semi {
        s1
    } else {
        expressions_spell_their_tokens(c, s1);
        grammar::parse_expr(c, s1).1
    };
    if grammar::parse_return(c, s).0 is Some {
        if !(grammar::kind(c, s1) is Semi) {
            behind(
                c,
                from,
                s1,
                s2,
                words(c.toks, from, s1.pos),
                expr_words(grammar::parse_expr(c, s1).0->0),
            );
        }
        found(c, from, s2, TokenKindView::Semi, "`;`"@, words(c.toks, from, s2.pos));
        assert(words(c.toks, from, grammar::parse_return(c, s).1.pos) =~= stmt_words(
            grammar::parse_return(c, s).0->0,
        ));
    }
}

proof fn condition_spells(c: Source, s: State, what: Seq<char>)
    requires
        stands(c, s),
    ensures
        reads(c, s.pos, s, grammar::parse_condition(c, s, what)),
{
    reveal(grammar::parse_condition);
    nothing_read(c, s);
    let from = s.pos;
    match grammar::expect(c, s, TokenKindView::LParen, what) {
        (Some(_), s1) => {
            found(c, from, s, TokenKindView::LParen, what, Seq::empty());
            expressions_spell_their_tokens(c, s1);
            match grammar::parse_expr(c, s1) {
                (Some(e), s2) => {
                    behind(c, from, s1, s2, words(c.toks, from, s1.pos), expr_words(e));
                    let close = "`)` after condition"@;
                    match grammar::expect(c, s2, TokenKindView::RParen, close) {
                        (Some(_), s3) => {
                            found(
                                c,
                                from,
                                s2,
                                TokenKindView::RParen,
                                close,
                                words(c.toks, from, s2.pos),
                            );
                            assert(words(c.toks, from, s3.pos) =~= expr_words(e));
                        },
                        _ => {},
                    }
                },
                _ => {},
            }
        },
        _ => {},
    }
}

proof fn idents_spell(c: Source, from: int, s: State, names: Seq<Name>)
    requires
        stands(c, s),
        from <= s.pos,
        words(c.toks, from, s.pos) == names_words(names),
    ensures
        grammar::idents_loop(c, s, names).0 matches Some(all) ==> spelled(
            c,
            from,
            s,
            grammar::idents_loop(c, s, names).1,
            names_words(all),
        ),
    decreases c.toks.len() - s.pos,
{
    match grammar::parse_ident(c, s) {
        (Some(n), s1) => {
            passing(c, from, s, names_words(names));
            let next = names.push(n);
            assert(next.drop_last() =~= names);
            assert(words(c.toks, from, s1.pos) =~= names_words(next));
            if grammar::kind(c, s1) is Comma && s1.pos > s.pos {
                passing(c, from, s1, names_words(next));
                let s2 = grammar::bump(c, s1);
                assert(words(c.toks, from, s2.pos) =~= names_words(next));
                idents_spell(c, from, s2, next);
            }
        },
        _ => {},
    }
}

proof fn arm_pattern_spells(c: Source, s: State)
    requires
        stands(c, s),
    ensures
        grammar::parse_arm_pattern(c, s).0 matches Some(p) ==> spelled(
            c,
            s.pos,
            s,
            grammar::parse_arm_pattern(c, s).1,
            arm_words(p.0) + names_words(p.2),
        ),
{
    reveal(grammar::parse_arm_pattern);
    nothing_read(c, s);
    let from = s.pos;
    assert(names_words(Seq::empty()) == Seq::<TokenKindView>::empty());
    if grammar::kind(c, s) is Null {
        passing(c, from, s, Seq::empty());
        assert(words(c.toks, from, s.pos + 1) =~= arm_words(seq!["null"@]) + names_words(
            Seq::empty(),
        ));
    } else {
        path_spells(c, s);
        match grammar::parse_path(c, s) {
            (Some(path), s1) => {
                if path.len() >= 2 {
                    assert(path != seq!["null"@]) by {
                        assert(seq!["null"@].len() == 1);
                    }
                    if grammar::kind(c, s1) is LParen {
                        passing(c, from, s1, path_words(path));
                        let s0 = grammar::bump(c, s1);
                        nothing_read(c, s0);
                        idents_spell(c, s0.pos, s0, Seq::empty());
                        match grammar::idents_loop(c, s0, Seq::empty()) {
                            (Some(names), s2) => {
                                behind(
                                    c,
                                    from,
                                    s0,
                                    s2,
                                    words(c.toks, from, s0.pos),
                                    names_words(names),
                                );
                                let what = "`)` after the bound names"@;
                                match grammar::expect(c, s2, TokenKindView::RParen, what) {
                                    (Some(_), s3) => {
                                        found(
                                            c,
                                            from,
                                            s2,
                                            TokenKindView::RParen,
                                            what,
                                            words(c.toks, from, s2.pos),
                                        );
                                        assert(words(c.toks, from, s3.pos) =~= arm_words(path)
                                            + names_words(names));
                                    },
                                    _ => {},
                                }
                            },
                            _ => {},
                        }
                    } else {
                        assert(words(c.toks, from, s1.pos) =~= arm_words(path) + names_words(
                            Seq::empty(),
                        ));
                    }
                }
            },
            _ => {},
        }
    }
}

/// A statement spells the tokens that it was read from, where nothing is reported
/// in it.
#[verifier::rlimit(40)]
pub proof fn statements_spell_their_tokens(c: Source, s: State, allowed: Seq<Seq<char>>)
    requires
        grammar_laws::good(c, s),
        quiet(c, s, grammar::parse_stmt(c, s, allowed).1),
    ensures
        grammar::parse_stmt(c, s, allowed).0 matches Some(x) ==> words(
            c.toks,
            s.pos,
            grammar::parse_stmt(c, s, allowed).1.pos,
        ) == stmt_words(x),
        grammar::parse_stmt(c, s, allowed).0 matches Some(x) ==> spelled(
            c,
            s.pos,
            s,
            grammar::parse_stmt(c, s, allowed).1,
            stmt_words(x),
        ),
    decreases c.toks.len() - s.pos, 20nat,
{
    reveal(grammar::parse_stmt);
    reveal(grammar::parse_if);
    reveal(grammar::parse_while);
    reveal(grammar::parse_match);
    nothing_read(c, s);
    let from = s.pos;
    let s0 = grammar::bump(c, s);
    match grammar::kind(c, s) {
        TokenKindView::If => if_spells(c, s, allowed),
        TokenKindView::While => while_spells(c, s, allowed),
        TokenKindView::Match => match_spells(c, s, allowed),
        TokenKindView::Break | TokenKindView::Continue => {
            passing(c, from, s, Seq::empty());
            if grammar::parse_stmt(c, s, allowed).0 is Some {
                found(c, from, s0, TokenKindView::Semi, "`;`"@, words(c.toks, from, s0.pos));
                assert(words(c.toks, from, s0.pos + 1) =~= stmt_words(
                    grammar::parse_stmt(c, s, allowed).0->0,
                ));
            }
        },
        TokenKindView::Return => return_spells(c, s),
        TokenKindView::Ident(_) => named_stmt_spells(c, s),
        k => {
            match grammar::binder(k) {
                Some(bound) => binding_spells(c, s, allowed, bound),
                None => expr_stmt_spells(c, s),
            }
        },
    }
}

proof fn if_spells(c: Source, s: State, allowed: Seq<Seq<char>>)
    requires
        grammar_laws::good(c, s),
        grammar::kind(c, s) is If,
        quiet(c, s, grammar::parse_if(c, s, allowed).1),
    ensures
        grammar::parse_if(c, s, allowed).0 matches Some(x) ==> spelled(
            c,
            s.pos,
            s,
            grammar::parse_if(c, s, allowed).1,
            stmt_words(x),
        ),
    decreases c.toks.len() - s.pos, 19nat,
{
    broadcast use {grammar_laws::group_steps, grammar_laws::condition_goes};

    reveal(grammar::parse_if);
    reveal(grammar::parse_branch);
    nothing_read(c, s);
    let from = s.pos;
    passing(c, from, s, Seq::empty());
    let s0 = grammar::bump(c, s);
    condition_spells(c, s0, "`(` after `if`"@);
    match grammar::parse_condition(c, s0, "`(` after `if`"@) {
        (Some(condition), s1) => {
            behind(c, from, s0, s1, words(c.toks, from, s0.pos), expr_words(condition));
            grammar_laws::branch_goes(c, s1, allowed);
            match grammar::parse_branch(c, s1, allowed) {
                (Some(then_body), s2) => {
                    if grammar::kind(c, s2) is Else {
                        let s3 = grammar::bump(c, s2);
                        grammar_laws::branch_goes(c, s3, allowed);
                        if grammar::parse_branch(c, s3, allowed).0 is Some {
                            let (else_body, s4) = grammar::parse_branch(c, s3, allowed);
                            branch_spells(c, s1, allowed);
                            behind(
                                c,
                                from,
                                s1,
                                s2,
                                words(c.toks, from, s1.pos),
                                stmts_words(then_body),
                            );
                            passing(c, from, s2, words(c.toks, from, s2.pos));
                            branch_spells(c, s3, allowed);
                            behind(
                                c,
                                from,
                                s3,
                                s4,
                                words(c.toks, from, s3.pos),
                                stmts_words(else_body->0),
                            );
                            assert(words(c.toks, from, s4.pos) =~= stmt_words(
                                grammar::parse_if(c, s, allowed).0->0,
                            ));
                        }
                    } else {
                        branch_spells(c, s1, allowed);
                        behind(
                            c,
                            from,
                            s1,
                            s2,
                            words(c.toks, from, s1.pos),
                            stmts_words(then_body),
                        );
                        assert(words(c.toks, from, s2.pos) =~= stmt_words(
                            grammar::parse_if(c, s, allowed).0->0,
                        ));
                    }
                },
                _ => {},
            }
        },
        _ => {},
    }
}

proof fn while_spells(c: Source, s: State, allowed: Seq<Seq<char>>)
    requires
        grammar_laws::good(c, s),
        grammar::kind(c, s) is While,
        quiet(c, s, grammar::parse_while(c, s, allowed).1),
    ensures
        grammar::parse_while(c, s, allowed).0 matches Some(x) ==> spelled(
            c,
            s.pos,
            s,
            grammar::parse_while(c, s, allowed).1,
            stmt_words(x),
        ),
    decreases c.toks.len() - s.pos, 19nat,
{
    broadcast use {grammar_laws::group_steps, grammar_laws::condition_goes};

    reveal(grammar::parse_while);
    reveal(grammar::parse_branch);
    nothing_read(c, s);
    let from = s.pos;
    passing(c, from, s, Seq::empty());
    let s0 = grammar::bump(c, s);
    condition_spells(c, s0, "`(` after `while`"@);
    match grammar::parse_condition(c, s0, "`(` after `while`"@) {
        (Some(condition), s1) => {
            behind(c, from, s0, s1, words(c.toks, from, s0.pos), expr_words(condition));
            match grammar::parse_branch(c, s1, allowed) {
                (Some(body), s2) => {
                    grammar_laws::branch_goes(c, s1, allowed);
                    branch_spells(c, s1, allowed);
                    behind(c, from, s1, s2, words(c.toks, from, s1.pos), stmts_words(body));
                    assert(words(c.toks, from, s2.pos) =~= stmt_words(
                        grammar::parse_while(c, s, allowed).0->0,
                    ));
                },
                _ => {},
            }
        },
        _ => {},
    }
}

#[verifier::rlimit(40)]
proof fn match_spells(c: Source, s: State, allowed: Seq<Seq<char>>)
    requires
        grammar_laws::good(c, s),
        grammar::kind(c, s) is Match,
        quiet(c, s, grammar::parse_match(c, s, allowed).1),
    ensures
        grammar::parse_match(c, s, allowed).0 matches Some(x) ==> spelled(
            c,
            s.pos,
            s,
            grammar::parse_match(c, s, allowed).1,
            stmt_words(x),
        ),
    decreases c.toks.len() - s.pos, 19nat,
{
    broadcast use {grammar_laws::group_steps, grammar_laws::condition_goes};

    reveal(grammar::parse_match);
    reveal(grammar::arms_loop);
    reveal(grammar::parse_block);
    nothing_read(c, s);
    let from = s.pos;
    passing(c, from, s, Seq::empty());
    let s0 = grammar::bump(c, s);
    condition_spells(c, s0, "`(` after `match`"@);
    match grammar::parse_condition(c, s0, "`(` after `match`"@) {
        (Some(scrutinee), s1) => {
            behind(c, from, s0, s1, words(c.toks, from, s0.pos), expr_words(scrutinee));
            let what = "`{` before the match arms"@;
            match grammar::expect(c, s1, TokenKindView::LBrace, what) {
                (Some(_), s2) => {
                    found(c, from, s1, TokenKindView::LBrace, what, words(c.toks, from, s1.pos));
                    grammar_laws::arms_go(c, s2, allowed, Seq::empty());
                    match grammar::arms_loop(c, s2, allowed, Seq::empty()) {
                        (Some(arms), s3) => {
                            let s4 = if grammar::kind(c, s3) is Else {
                                grammar_laws::block_goes(c, grammar::bump(c, s3), allowed);
                                grammar::parse_block(c, grammar::bump(c, s3), allowed).1
                            } else {
                                s3
                            };
                            if grammar::parse_match(c, s, allowed).0 is Some {
                                let close = "`}` after the match arms"@;
                                let s5 = grammar::expect(c, s4, TokenKindView::RBrace, close).1;
                                assert(s5.diags.len() == s4.diags.len());
                                nothing_read(c, s2);
                                assert(arms_words(Seq::empty()) == Seq::<TokenKindView>::empty());
                                arms_spell(c, s2.pos, s2, allowed, Seq::empty());
                                behind(
                                    c,
                                    from,
                                    s2,
                                    s3,
                                    words(c.toks, from, s2.pos),
                                    arms_words(arms),
                                );
                                if grammar::kind(c, s3) is Else {
                                    passing(c, from, s3, words(c.toks, from, s3.pos));
                                    let sb = grammar::bump(c, s3);
                                    block_spells(c, sb, allowed);
                                    behind(
                                        c,
                                        from,
                                        sb,
                                        s4,
                                        words(c.toks, from, sb.pos),
                                        stmts_words(grammar::parse_block(c, sb, allowed).0->0),
                                    );
                                }
                                found(
                                    c,
                                    from,
                                    s4,
                                    TokenKindView::RBrace,
                                    close,
                                    words(c.toks, from, s4.pos),
                                );
                                assert(words(c.toks, from, s5.pos) =~= stmt_words(
                                    grammar::parse_match(c, s, allowed).0->0,
                                ));
                            }
                        },
                        _ => {},
                    }
                },
                _ => {},
            }
        },
        _ => {},
    }
}

proof fn arms_spell(c: Source, from: int, s: State, allowed: Seq<Seq<char>>, arms: Seq<MatchArmView>)
    requires
        grammar_laws::good(c, s),
        from <= s.pos,
        words(c.toks, from, s.pos) == arms_words(arms),
        quiet(c, s, grammar::arms_loop(c, s, allowed, arms).1),
    ensures
        grammar::arms_loop(c, s, allowed, arms).0 matches Some(all) ==> spelled(
            c,
            from,
            s,
            grammar::arms_loop(c, s, allowed, arms).1,
            arms_words(all),
        ),
    decreases c.toks.len() - s.pos, 24nat,
{
    broadcast use {grammar_laws::group_steps, grammar_laws::arm_pattern_goes};

    reveal(grammar::arms_loop);
    reveal(grammar::parse_block);
    if !(grammar::kind(c, s) is Eof || grammar::kind(c, s) is RBrace || grammar::kind(c, s)
        is Else) {
        let start = grammar::span(c, s).start;
        arm_pattern_spells(c, s);
        match grammar::parse_arm_pattern(c, s) {
            (Some((path, path_span, bindings)), s1) => {
                behind(
                    c,
                    from,
                    s,
                    s1,
                    arms_words(arms),
                    arm_words(path) + names_words(bindings),
                );
                grammar_laws::block_goes(c, s1, allowed);
                match grammar::parse_block(c, s1, allowed) {
                    (Some(body), s2) => {
                        let next = arms.push(
                            MatchArmView {
                                path,
                                path_span,
                                bindings,
                                body,
                                span: Span { start, end: grammar::prev_end(c, s2) },
                            },
                        );
                        if s2.pos > s.pos {
                            grammar_laws::arms_go(c, s2, allowed, next);
                        }
                        block_spells(c, s1, allowed);
                        behind(c, from, s1, s2, words(c.toks, from, s1.pos), stmts_words(body));
                        assert(next.drop_last() =~= arms);
                        assert(words(c.toks, from, s2.pos) =~= arms_words(next));
                        if s2.pos > s.pos {
                            arms_spell(c, from, s2, allowed, next);
                        }
                    },
                    _ => {},
                }
            },
            _ => {},
        }
    }
}

proof fn block_spells(c: Source, s: State, allowed: Seq<Seq<char>>)
    requires
        grammar_laws::good(c, s),
        quiet(c, s, grammar::parse_block(c, s, allowed).1),
    ensures
        grammar::parse_block(c, s, allowed).0 matches Some(b) ==> spelled(
            c,
            s.pos,
            s,
            grammar::parse_block(c, s, allowed).1,
            stmts_words(b),
        ),
    decreases c.toks.len() - s.pos, 21nat,
{
    broadcast use grammar_laws::group_steps;

    reveal(grammar::parse_block);
    reveal(grammar::block_loop);
    nothing_read(c, s);
    let from = s.pos;
    match grammar::expect(c, s, TokenKindView::LBrace, "`{`"@) {
        (Some(_), s1) => {
            found(c, from, s, TokenKindView::LBrace, "`{`"@, Seq::empty());
            grammar_laws::block_loop_goes(c, s1, allowed, Seq::empty());
            let (body, s2) = grammar::block_loop(c, s1, allowed, Seq::empty());
            match grammar::expect(c, s2, TokenKindView::RBrace, "`}`"@) {
                (Some(_), s3) => {
                    nothing_read(c, s1);
                    assert(stmts_words(Seq::empty()) == Seq::<TokenKindView>::empty());
                    bodies_spell_their_tokens(c, s1.pos, s1, allowed, Seq::empty());
                    behind(c, from, s1, s2, words(c.toks, from, s1.pos), stmts_words(body));
                    found(
                        c,
                        from,
                        s2,
                        TokenKindView::RBrace,
                        "`}`"@,
                        words(c.toks, from, s2.pos),
                    );
                    assert(words(c.toks, from, s3.pos) =~= stmts_words(body));
                },
                _ => {},
            }
        },
        _ => {},
    }
}

/// The statements of a body spell the tokens that they were read from, behind those
/// that were read before, where nothing is reported in them.
pub proof fn bodies_spell_their_tokens(
    c: Source,
    from: int,
    s: State,
    allowed: Seq<Seq<char>>,
    body: Seq<StmtView>,
)
    requires
        grammar_laws::good(c, s),
        from <= s.pos,
        words(c.toks, from, s.pos) == stmts_words(body),
        quiet(c, s, grammar::block_loop(c, s, allowed, body).1),
    ensures
        spelled(
            c,
            from,
            s,
            grammar::block_loop(c, s, allowed, body).1,
            stmts_words(grammar::block_loop(c, s, allowed, body).0),
        ),
    decreases c.toks.len() - s.pos, 23nat,
{
    broadcast use {grammar_laws::group_steps, grammar_laws::recover_stmt_goes};

    reveal(grammar::block_loop);
    reveal(grammar::parse_stmt);
    if !(grammar::kind(c, s) is Eof || grammar::kind(c, s) is RBrace) {
        grammar_laws::unread_statements_are_reported(c, s, allowed);
        let (next, s1) = match grammar::parse_stmt(c, s, allowed) {
            (Some(stmt), s1) => (body.push(stmt), s1),
            (None, s1) => (body, grammar::force(c, s1, grammar::recover_stmt(c, s1))),
        };
        if s1.pos > s.pos {
            grammar_laws::block_loop_goes(c, s1, allowed, next);
        }
        match grammar::parse_stmt(c, s, allowed) {
            (Some(stmt), s1) => {
                statements_spell_their_tokens(c, s, allowed);
                behind(c, from, s, s1, stmts_words(body), stmt_words(stmt));
                assert(next.drop_last() =~= body);
                assert(words(c.toks, from, s1.pos) =~= stmts_words(next));
                if s1.pos > s.pos {
                    bodies_spell_their_tokens(c, from, s1, allowed, next);
                }
            },
            (None, s2) => {
                assert(false);
            },
        }
    }
}

proof fn branch_spells(c: Source, s: State, allowed: Seq<Seq<char>>)
    requires
        grammar_laws::good(c, s),
        quiet(c, s, grammar::parse_branch(c, s, allowed).1),
    ensures
        grammar::parse_branch(c, s, allowed).0 matches Some(b) ==> spelled(
            c,
            s.pos,
            s,
            grammar::parse_branch(c, s, allowed).1,
            stmts_words(b),
        ),
    decreases c.toks.len() - s.pos, 22nat,
{
    reveal(grammar::parse_branch);
    reveal(grammar::parse_block);
    reveal(grammar::parse_stmt);
    if grammar::kind(c, s) is LBrace {
        block_spells(c, s, allowed);
    } else {
        statements_spell_their_tokens(c, s, allowed);
        match grammar::parse_stmt(c, s, allowed) {
            (Some(stmt), s1) => one_stmt_words(stmt),
            _ => {},
        }
    }
}

proof fn one_stmt_words(x: StmtView)
    ensures
        stmts_words(seq![x]) == stmt_words(x),
{
    assert(seq![x].drop_last() =~= Seq::<StmtView>::empty());
    assert(stmts_words(Seq::empty()) == Seq::<TokenKindView>::empty());
    assert(stmts_words(seq![x]) =~= stmt_words(x));
}

// ---------------------------------------------------------------------------
// Items
// ---------------------------------------------------------------------------

/// The words of parameters, or of the fields of an object type.
pub open spec fn params_words(xs: Seq<ParamView>) -> Seq<TokenKindView>
    decreases xs.len(),
{
    if xs.len() == 0 {
        Seq::empty()
    } else {
        params_words(xs.drop_last()) + param_words(xs.last())
    }
}

/// The words of a parameter, or of a field of an object type.
pub open spec fn param_words(x: ParamView) -> Seq<TokenKindView> {
    seq![TokenKindView::Ident(x.name)] + ann_words(x.ty)
}

/// The words of a bound, where there is one.
pub open spec fn bound_words(b: Option<GenericBound>) -> Seq<TokenKindView> {
    match b {
        Some(GenericBound::Numeric) => seq![
            TokenKindView::Extends,
            TokenKindView::Ident("Numeric"@),
        ],
        Some(GenericBound::Comparable) => seq![
            TokenKindView::Extends,
            TokenKindView::Ident("Comparable"@),
        ],
        None => Seq::empty(),
    }
}

/// The words of type parameters without their brackets.
pub open spec fn type_params_words(xs: Seq<TypeParamView>) -> Seq<TokenKindView>
    decreases xs.len(),
{
    if xs.len() == 0 {
        Seq::empty()
    } else {
        type_params_words(xs.drop_last()) + seq![TokenKindView::Ident(xs.last().name)]
            + bound_words(xs.last().bound)
    }
}

/// The words of type parameters in their brackets, where there are any.
pub open spec fn generics_words(xs: Seq<TypeParamView>) -> Seq<TokenKindView> {
    if xs.len() == 0 {
        Seq::empty()
    } else {
        seq![TokenKindView::LBracket] + type_params_words(xs) + seq![TokenKindView::RBracket]
    }
}

/// The words of the result type of a function. One that is not written is `void`.
pub open spec fn ret_words(ret: Option<TypeView>, at: Option<Span>) -> Seq<TokenKindView> {
    if at is None {
        Seq::empty()
    } else {
        ann_words(ret)
    }
}

/// The words of a function.
pub open spec fn function_words(f: FunctionDeclView) -> Seq<TokenKindView> {
    seq![TokenKindView::Function, TokenKindView::Ident(f.name)] + generics_words(f.type_params)
        + params_words(f.params) + ret_words(f.ret, f.ret_span) + stmts_words(f.body)
}

/// The words of payload types.
pub open spec fn payload_words(xs: Seq<(TypeView, Span)>) -> Seq<TokenKindView>
    decreases xs.len(),
{
    if xs.len() == 0 {
        Seq::empty()
    } else {
        payload_words(xs.drop_last()) + type_words(xs.last().0)
    }
}

/// The words of the variants of a union.
pub open spec fn variants_words(xs: Seq<UnionVariantView>) -> Seq<TokenKindView>
    decreases xs.len(),
{
    if xs.len() == 0 {
        Seq::empty()
    } else {
        variants_words(xs.drop_last()) + seq![TokenKindView::Ident(xs.last().name)]
            + payload_words(xs.last().payload)
    }
}

/// Whether words are those of fields and associated functions, each in order, in
/// any mixture.
pub open spec fn mixed(ws: Seq<TokenKindView>, fields: Seq<ParamView>, methods: Seq<FunctionDeclView>) -> bool
    decreases fields.len() + methods.len(),
{
    ||| fields.len() == 0 && methods.len() == 0 && ws.len() == 0
    ||| fields.len() > 0 && exists|rest: Seq<TokenKindView>|
        ws == #[trigger] (rest + param_words(fields.last())) && mixed(
            rest,
            fields.drop_last(),
            methods,
        )
    ||| methods.len() > 0 && exists|rest: Seq<TokenKindView>|
        ws == #[trigger] (rest + function_words(methods.last())) && mixed(
            rest,
            fields,
            methods.drop_last(),
        )
}

/// Whether words are those of an item.
pub open spec fn item_spelled(ws: Seq<TokenKindView>, x: ItemView) -> bool {
    match x {
        ItemView::Use { path, names, .. } => ws == seq![TokenKindView::Ident("use"@)] + path_words(
            path,
        ) + (match names {
            Some(ns) => seq![TokenKindView::Dot] + idents_words(ns),
            None => Seq::empty(),
        }) + seq![TokenKindView::Semi],
        ItemView::Object { name, fields, methods, .. } => exists|rest: Seq<TokenKindView>|
            ws == seq![
                TokenKindView::Type,
                TokenKindView::Ident(name),
                TokenKindView::Eq,
                TokenKindView::Object,
            ] + rest + seq![TokenKindView::Semi] && #[trigger] mixed(rest, fields, methods),
        ItemView::Union { name, type_params, variants, .. } => ws == seq![
            TokenKindView::Type,
            TokenKindView::Ident(name),
        ] + generics_words(type_params) + seq![TokenKindView::Eq, TokenKindView::Union]
            + variants_words(variants) + seq![TokenKindView::Semi],
        ItemView::Let { name, name_span, kind, ty, ty_span, value, span } => ws == stmt_words(
            StmtView::Let { name, name_span, kind, ty, ty_span, value, span },
        ),
        ItemView::Destructure { bindings, kind, ty, ty_span, value, span } => ws == stmt_words(
            StmtView::Destructure { bindings, kind, ty, ty_span, value, span },
        ),
        ItemView::Function {
            name,
            name_span,
            type_params,
            params,
            ret,
            ret_span,
            body,
            signature_poisoned,
            span,
        } => ws == function_words(
            FunctionDeclView {
                name,
                name_span,
                type_params,
                params,
                ret,
                ret_span,
                body,
                signature_poisoned,
                span,
            },
        ),
    }
}

/// The words of names without their places.
pub open spec fn idents_words(xs: Seq<Seq<char>>) -> Seq<TokenKindView> {
    Seq::new(xs.len(), |i: int| TokenKindView::Ident(xs[i]))
}

/// Whether words are those of items, one behind the other.
pub open spec fn items_spelled(ws: Seq<TokenKindView>, xs: Seq<ItemView>) -> bool
    decreases xs.len(),
{
    if xs.len() == 0 {
        ws.len() == 0
    } else {
        exists|front: Seq<TokenKindView>, last: Seq<TokenKindView>|
            ws == #[trigger] (front + last) && items_spelled(front, xs.drop_last())
                && item_spelled(last, xs.last())
    }
}

proof fn names_are_idents(xs: Seq<Name>)
    ensures
        names_words(xs) == idents_words(grammar::plain_names(xs)),
    decreases xs.len(),
{
    if xs.len() > 0 {
        names_are_idents(xs.drop_last());
    }
    assert(names_words(xs) =~= idents_words(grammar::plain_names(xs)));
}

proof fn use_spells(c: Source, s: State)
    requires
        stands(c, s),
        grammar::kind(c, s) == TokenKindView::Ident("use"@),
    ensures
        grammar::parse_use(c, s).0 matches Some(x) ==> s.pos <= grammar::parse_use(c, s).1.pos
            && stands(c, grammar::parse_use(c, s).1) && item_spelled(
            words(c.toks, s.pos, grammar::parse_use(c, s).1.pos),
            x,
        ),
{
    reveal(grammar::parse_use);
    nothing_read(c, s);
    let from = s.pos;
    passing(c, from, s, Seq::empty());
    let s0 = grammar::bump(c, s);
    path_spells(c, s0);
    match grammar::parse_path(c, s0) {
        (Some(path), s1) => {
            behind(c, from, s0, s1, words(c.toks, from, s0.pos), path_words(path));
            if grammar::parse_use(c, s).0 is Some {
                if grammar::kind(c, s1) is Dot {
                    passing(c, from, s1, words(c.toks, from, s1.pos));
                    let s2 = grammar::bump(c, s1);
                    let open = "`{` after module path"@;
                    found(c, from, s2, TokenKindView::LBrace, open, words(c.toks, from, s2.pos));
                    let s3 = grammar::expect(c, s2, TokenKindView::LBrace, open).1;
                    nothing_read(c, s3);
                    assert(names_words(Seq::empty()) == Seq::<TokenKindView>::empty());
                    idents_spell(c, s3.pos, s3, Seq::empty());
                    let (names, s4) = grammar::idents_loop(c, s3, Seq::empty());
                    behind(c, from, s3, s4, words(c.toks, from, s3.pos), names_words(names->0));
                    names_are_idents(names->0);
                    let close = "`}` after imported names"@;
                    found(c, from, s4, TokenKindView::RBrace, close, words(c.toks, from, s4.pos));
                    let s5 = grammar::expect(c, s4, TokenKindView::RBrace, close).1;
                    found(c, from, s5, TokenKindView::Semi, "`;`"@, words(c.toks, from, s5.pos));
                    assert(words(c.toks, from, s5.pos + 1) =~= seq![
                        TokenKindView::Ident("use"@),
                    ] + path_words(path) + (seq![TokenKindView::Dot] + idents_words(
                        grammar::plain_names(names->0),
                    )) + seq![TokenKindView::Semi]);
                } else {
                    found(c, from, s1, TokenKindView::Semi, "`;`"@, words(c.toks, from, s1.pos));
                    assert(words(c.toks, from, s1.pos + 1) =~= seq![
                        TokenKindView::Ident("use"@),
                    ] + path_words(path) + Seq::empty() + seq![TokenKindView::Semi]);
                }
            }
        },
        _ => {},
    }
}

proof fn param_spells(c: Source, s: State, allowed: Seq<Seq<char>>)
    requires
        grammar_laws::good(c, s),
        quiet(c, s, grammar::parse_param(c, s, allowed).1),
    ensures
        grammar::parse_param(c, s, allowed).0 matches Some(p) ==> spelled(
            c,
            s.pos,
            s,
            grammar::parse_param(c, s, allowed).1,
            param_words(p),
        ),
{
    broadcast use {grammar_laws::group_steps, grammar_laws::types_go};

    reveal(grammar::parse_param);
    nothing_read(c, s);
    let from = s.pos;
    match grammar::parse_ident(c, s) {
        (Some((name, name_span)), s1) => {
            passing(c, from, s, Seq::empty());
            if grammar::kind(c, s1) is Colon {
                passing(c, from, s1, words(c.toks, from, s1.pos));
                let s2 = grammar::bump(c, s1);
                type_spells(c, s2, allowed, true);
                match grammar::parse_type(c, s2, allowed, true) {
                    (Some((t, _)), s3) => {
                        behind(c, from, s2, s3, words(c.toks, from, s2.pos), type_words(t));
                        assert(words(c.toks, from, s3.pos) =~= seq![TokenKindView::Ident(name)]
                            + ann_words(Some(t)));
                    },
                    _ => {},
                }
            }
        },
        _ => {},
    }
}

proof fn params_spell(
    c: Source,
    from: int,
    s: State,
    allowed: Seq<Seq<char>>,
    params: Seq<ParamView>,
)
    requires
        grammar_laws::good(c, s),
        from <= s.pos,
        words(c.toks, from, s.pos) == params_words(params),
        quiet(c, s, grammar::params_loop(c, s, allowed, params).1),
    ensures
        grammar::params_loop(c, s, allowed, params).0 matches Some(all) ==> spelled(
            c,
            from,
            s,
            grammar::params_loop(c, s, allowed, params).1,
            params_words(all),
        ),
    decreases c.toks.len() - s.pos,
{
    broadcast use {
        grammar_laws::group_steps,
        grammar_laws::param_goes,
        grammar_laws::params_loop_goes,
    };

    reveal(grammar::params_loop);
    match grammar::parse_param(c, s, allowed) {
        (Some(p), s1) => {
            let next = params.push(p);
            let more = grammar::kind(c, s1) is Comma && s1.pos > s.pos;
            let s2 = grammar::bump(c, s1);
            assert(more ==> grammar_laws::went(
                c,
                s2,
                grammar::params_loop(c, s2, allowed, next).1,
            ));
            param_spells(c, s, allowed);
            behind(c, from, s, s1, params_words(params), param_words(p));
            assert(next.drop_last() =~= params);
            assert(words(c.toks, from, s1.pos) =~= params_words(next));
            if more {
                passing(c, from, s1, params_words(next));
                assert(words(c.toks, from, s2.pos) =~= params_words(next));
                params_spell(c, from, s2, allowed, next);
            }
        },
        _ => {},
    }
}

/// The state behind a type parameter that is reported.
spec fn type_param_again(
    c: Source,
    s: State,
    params: Seq<TypeParamView>,
    name: Seq<char>,
    at: Span,
) -> (Seq<TypeParamView>, State) {
    if ty::named_type(name) is Some {
        (
            params,
            grammar::report(
                s,
                grammar::problem(
                    "type parameter `"@ + name + "` shadows a primitive type"@,
                    at,
                    "pick another name, e.g. `T`"@,
                    "E104"@,
                ),
            ),
        )
    } else {
        (
            params,
            grammar::report(
                s,
                grammar::problem(
                    "duplicate type parameter `"@ + name + "`"@,
                    at,
                    "redefined here"@,
                    "E200"@,
                ),
            ),
        )
    }
}

proof fn type_params_spell(c: Source, from: int, s: State, params: Seq<TypeParamView>)
    requires
        grammar_laws::good(c, s),
        from <= s.pos,
        words(c.toks, from, s.pos) == type_params_words(params),
        quiet(c, s, grammar::type_params_loop(c, s, params).1),
    ensures
        grammar::type_params_loop(c, s, params).0 matches Some(all) ==> all.len() > 0 && spelled(
            c,
            from,
            s,
            grammar::type_params_loop(c, s, params).1,
            type_params_words(all),
        ),
    decreases c.toks.len() - s.pos,
{
    broadcast use {
        grammar_laws::group_steps,
        grammar_laws::bound_goes,
        grammar_laws::type_params_loop_goes,
    };

    reveal(grammar::type_params_loop);
    match grammar::parse_ident(c, s) {
        (Some((name, sp)), s1) => {
            passing(c, from, s, type_params_words(params));
            let bad = ty::named_type(name) is Some || grammar::has_name(
                grammar::param_names(params),
                name,
            );
            if bad {
                let (again, s2) = type_param_again(c, s1, params, name, sp);
                let more = grammar::kind(c, s2) is Comma && s2.pos > s.pos;
                let s3 = grammar::bump(c, s2);
                assert(grammar::span(c, s).ordered());
                assert(grammar_laws::good(c, s2));
                assert(more ==> grammar_laws::went(
                    c,
                    s3,
                    grammar::type_params_loop(c, s3, params).1,
                ));
                assert(false);
            }
            reveal(grammar::parse_bound);
            match grammar::parse_bound(c, s1) {
                (Some(bound), s2) => {
                    let next = params.push(TypeParamView { name, span: sp, bound });
                    assert(next.drop_last() =~= params);
                    let more = grammar::kind(c, s2) is Comma && s2.pos > s.pos;
                    let s3 = grammar::bump(c, s2);
                    assert(more ==> grammar_laws::went(
                        c,
                        s3,
                        grammar::type_params_loop(c, s3, next).1,
                    ));
                    if grammar::kind(c, s1) is Extends {
                        passing(c, from, s1, words(c.toks, from, s1.pos));
                        let s0 = grammar::bump(c, s1);
                        passing(c, from, s0, words(c.toks, from, s0.pos));
                    }
                    assert(words(c.toks, from, s2.pos) =~= type_params_words(next));
                    if more {
                        passing(c, from, s2, type_params_words(next));
                        assert(words(c.toks, from, s3.pos) =~= type_params_words(next));
                        type_params_spell(c, from, s3, next);
                    }
                },
                _ => {},
            }
        },
        _ => {},
    }
}

proof fn generics_spell(c: Source, s: State)
    requires
        grammar_laws::good(c, s),
        quiet(c, s, grammar::parse_type_params(c, s).1),
    ensures
        grammar::parse_type_params(c, s).0 matches Some(ps) ==> spelled(
            c,
            s.pos,
            s,
            grammar::parse_type_params(c, s).1,
            generics_words(ps),
        ),
{
    broadcast use {grammar_laws::group_steps, grammar_laws::type_params_loop_goes};

    reveal(grammar::parse_type_params);
    nothing_read(c, s);
    let from = s.pos;
    if grammar::kind(c, s) is LBracket {
        passing(c, from, s, Seq::empty());
        let s1 = grammar::bump(c, s);
        if !(grammar::kind(c, s1) is RBracket) && grammar::parse_type_params(c, s).0 is Some {
            nothing_read(c, s1);
            let (ps, s2) = grammar::type_params_loop(c, s1, Seq::empty());
            assert(type_params_words(Seq::empty()) == Seq::<TokenKindView>::empty());
            type_params_spell(c, s1.pos, s1, Seq::empty());
            behind(c, from, s1, s2, words(c.toks, from, s1.pos), type_params_words(ps->0));
            let what = "`]` after type parameters"@;
            found(c, from, s2, TokenKindView::RBracket, what, words(c.toks, from, s2.pos));
            assert(words(c.toks, from, s2.pos + 1) =~= generics_words(ps->0));
        }
    }
}

proof fn parameters_spell(c: Source, s: State, allowed: Seq<Seq<char>>)
    requires
        grammar_laws::good(c, s),
        quiet(c, s, grammar::parse_params(c, s, allowed).1),
    ensures
        grammar::parse_params(c, s, allowed).0 matches Some(ps) ==> spelled(
            c,
            s.pos,
            s,
            grammar::parse_params(c, s, allowed).1,
            params_words(ps),
        ),
{
    broadcast use {grammar_laws::group_steps, grammar_laws::params_loop_goes};

    reveal(grammar::parse_params);
    nothing_read(c, s);
    let from = s.pos;
    if grammar::parse_params(c, s, allowed).0 is Some {
        found(c, from, s, TokenKindView::LParen, "`(`"@, Seq::empty());
        let s1 = grammar::expect(c, s, TokenKindView::LParen, "`(`"@).1;
        nothing_read(c, s1);
        assert(params_words(Seq::empty()) == Seq::<TokenKindView>::empty());
        let (ps, s2) = if grammar::kind(c, s1) is RParen {
            (Some(Seq::<ParamView>::empty()), s1)
        } else {
            grammar::params_loop(c, s1, allowed, Seq::empty())
        };
        if !(grammar::kind(c, s1) is RParen) {
            params_spell(c, s1.pos, s1, allowed, Seq::empty());
        }
        behind(c, from, s1, s2, words(c.toks, from, s1.pos), params_words(ps->0));
        found(c, from, s2, TokenKindView::RParen, "`)`"@, words(c.toks, from, s2.pos));
        assert(words(c.toks, from, s2.pos + 1) =~= params_words(ps->0));
    }
}

proof fn ret_spells(c: Source, s: State, allowed: Seq<Seq<char>>)
    requires
        grammar_laws::good(c, s),
        quiet(c, s, grammar::parse_ret(c, s, allowed).1),
    ensures
        spelled(
            c,
            s.pos,
            s,
            grammar::parse_ret(c, s, allowed).1,
            ret_words(
                (grammar::parse_ret(c, s, allowed).0).0,
                (grammar::parse_ret(c, s, allowed).0).1,
            ),
        ),
{
    broadcast use {grammar_laws::group_steps, grammar_laws::types_go};

    reveal(grammar::parse_ret);
    nothing_read(c, s);
    let from = s.pos;
    if grammar::kind(c, s) is Colon {
        passing(c, from, s, Seq::empty());
        let s1 = grammar::bump(c, s);
        type_spells(c, s1, allowed, true);
        match grammar::parse_type(c, s1, allowed, true) {
            (Some((t, _)), s2) => {
                behind(c, from, s1, s2, words(c.toks, from, s1.pos), type_words(t));
                assert(words(c.toks, from, s2.pos) =~= ann_words(Some(t)));
            },
            _ => {},
        }
    }
}

/// A function spells the tokens that it was read from, where nothing is reported in
/// it.
#[verifier::rlimit(40)]
pub proof fn functions_spell_their_tokens(c: Source, s: State)
    requires
        grammar_laws::good(c, s),
        grammar::kind(c, s) is Function,
        quiet(c, s, grammar::parse_function(c, s).1),
    ensures
        grammar::parse_function(c, s).0 matches Some(f) ==> spelled(
            c,
            s.pos,
            s,
            grammar::parse_function(c, s).1,
            function_words(f),
        ),
{
    broadcast use {
        grammar_laws::group_steps,
        grammar_laws::type_params_go,
        grammar_laws::params_go,
        grammar_laws::ret_goes,
        grammar_laws::blocks_go,
    };

    reveal(grammar::parse_function);
    nothing_read(c, s);
    let from = s.pos;
    passing(c, from, s, Seq::empty());
    let s0 = grammar::bump(c, s);
    if grammar::parse_function(c, s).0 is Some {
        let f = grammar::parse_function(c, s).0->0;
        passing(c, from, s0, words(c.toks, from, s0.pos));
        let s1 = grammar::parse_ident(c, s0).1;
        let (type_params, s2) = grammar::parse_type_params(c, s1);
        let allowed = grammar::param_names(type_params->0);
        let (params, s3) = grammar::parse_params(c, s2, allowed);
        let ((ret, ret_span), s4) = grammar::parse_ret(c, s3, allowed);
        let open = "`{` for the function body"@;
        let s5 = grammar::expect(c, s4, TokenKindView::LBrace, open).1;
        let (body, s6) = grammar::block_loop(c, s5, allowed, Seq::empty());
        let s7 = grammar::expect(c, s6, TokenKindView::RBrace, "`}`"@).1;
        assert(s7.diags.len() == s.diags.len());
        generics_spell(c, s1);
        behind(c, from, s1, s2, words(c.toks, from, s1.pos), generics_words(type_params->0));
        parameters_spell(c, s2, allowed);
        behind(c, from, s2, s3, words(c.toks, from, s2.pos), params_words(params->0));
        ret_spells(c, s3, allowed);
        behind(c, from, s3, s4, words(c.toks, from, s3.pos), ret_words(ret, ret_span));
        found(c, from, s4, TokenKindView::LBrace, open, words(c.toks, from, s4.pos));
        nothing_read(c, s5);
        assert(stmts_words(Seq::empty()) == Seq::<TokenKindView>::empty());
        bodies_spell_their_tokens(c, s5.pos, s5, allowed, Seq::empty());
        behind(c, from, s5, s6, words(c.toks, from, s5.pos), stmts_words(body));
        found(c, from, s6, TokenKindView::RBrace, "`}`"@, words(c.toks, from, s6.pos));
        assert(words(c.toks, from, s7.pos) =~= function_words(f));
    }
}

proof fn object_field_spells(c: Source, s: State, fields: Seq<ParamView>)
    requires
        grammar_laws::good(c, s),
        quiet(c, s, grammar::parse_object_field(c, s, fields).1),
    ensures
        grammar::parse_object_field(c, s, fields).0 matches Some(p) ==> spelled(
            c,
            s.pos,
            s,
            grammar::parse_object_field(c, s, fields).1,
            param_words(p),
        ),
{
    broadcast use {grammar_laws::group_steps, grammar_laws::types_go};

    reveal(grammar::parse_object_field);
    nothing_read(c, s);
    let from = s.pos;
    assert(grammar::span(c, s).ordered());
    if grammar::parse_object_field(c, s, fields).0 is Some {
        let ((name, _), s1) = (grammar::parse_ident(c, s).0->0, grammar::parse_ident(c, s).1);
        passing(c, from, s, Seq::empty());
        let what = "`:` after field name"@;
        found(c, from, s1, TokenKindView::Colon, what, words(c.toks, from, s1.pos));
        let s2 = grammar::expect(c, s1, TokenKindView::Colon, what).1;
        type_spells(c, s2, Seq::empty(), true);
        match grammar::parse_type(c, s2, Seq::empty(), true) {
            (Some((t, _)), s3) => {
                behind(c, from, s2, s3, words(c.toks, from, s2.pos), type_words(t));
                assert(words(c.toks, from, s3.pos) =~= seq![TokenKindView::Ident(name)]
                    + ann_words(Some(t)));
            },
            _ => {},
        }
    }
}

#[verifier::rlimit(40)]
proof fn object_loop_spells(c: Source, from: int, s: State, body: ObjectBody)
    requires
        grammar_laws::good(c, s),
        from <= s.pos,
        mixed(words(c.toks, from, s.pos), body.fields, body.methods),
        quiet(c, s, grammar::object_loop(c, s, body).1),
    ensures
        grammar::object_loop(c, s, body).0 matches Some(all) ==> s.pos <= grammar::object_loop(
            c,
            s,
            body,
        ).1.pos && mixed(
            words(c.toks, from, grammar::object_loop(c, s, body).1.pos),
            all.fields,
            all.methods,
        ),
    decreases c.toks.len() - s.pos,
{
    broadcast use {
        grammar_laws::group_steps,
        grammar_laws::function_goes,
        grammar_laws::object_field_goes,
        grammar_laws::object_loop_goes,
    };

    reveal(grammar::object_loop);
    if !(grammar::kind(c, s) is Eof || grammar::kind(c, s) is RBrace) {
        let (next, s1) = if grammar::kind(c, s) is Function {
            match grammar::parse_function(c, s) {
                (None, s1) => (None, s1),
                (Some(f), s1) => (
                    Some(ObjectBody { methods: body.methods.push(f), ..body }),
                    s1,
                ),
            }
        } else {
            match grammar::parse_object_field(c, s, body.fields) {
                (None, s1) => (None, s1),
                (Some(f), s1) => (Some(ObjectBody { fields: body.fields.push(f), ..body }), s1),
            }
        };
        if next is Some {
            let next = next->0;
            let more = grammar::kind(c, s1) is Comma && s1.pos > s.pos;
            let s2 = grammar::bump(c, s1);
            assert(more ==> grammar_laws::went(c, s2, grammar::object_loop(c, s2, next).1));
            let ws = words(c.toks, from, s.pos);
            if grammar::object_loop(c, s, body).0 is Some {
                if grammar::kind(c, s) is Function {
                    functions_spell_their_tokens(c, s);
                    let f = grammar::parse_function(c, s).0->0;
                    behind(c, from, s, s1, ws, function_words(f));
                    assert(next.methods.drop_last() =~= body.methods);
                    assert(mixed(ws, next.fields, next.methods.drop_last()));
                    assert(words(c.toks, from, s1.pos) == ws + function_words(
                        next.methods.last(),
                    ));
                } else {
                    object_field_spells(c, s, body.fields);
                    let f = grammar::parse_object_field(c, s, body.fields).0->0;
                    behind(c, from, s, s1, ws, param_words(f));
                    assert(next.fields.drop_last() =~= body.fields);
                    assert(mixed(ws, next.fields.drop_last(), next.methods));
                    assert(words(c.toks, from, s1.pos) == ws + param_words(next.fields.last()));
                }
                assert(mixed(words(c.toks, from, s1.pos), next.fields, next.methods));
                if more {
                    passing(c, from, s1, words(c.toks, from, s1.pos));
                    assert(words(c.toks, from, s2.pos) =~= words(c.toks, from, s1.pos));
                    object_loop_spells(c, from, s2, next);
                }
            }
        }
    }
}

proof fn payload_spells(
    c: Source,
    from: int,
    s: State,
    allowed: Seq<Seq<char>>,
    payload: Seq<(TypeView, Span)>,
)
    requires
        stands(c, s),
        from <= s.pos,
        words(c.toks, from, s.pos) == payload_words(payload),
    ensures
        grammar::payload_loop(c, s, allowed, payload).0 matches Some(all) ==> spelled(
            c,
            from,
            s,
            grammar::payload_loop(c, s, allowed, payload).1,
            payload_words(all),
        ),
    decreases c.toks.len() - s.pos,
{
    reveal(grammar::payload_loop);
    type_spells(c, s, allowed, true);
    match grammar::parse_type(c, s, allowed, true) {
        (Some((t, sp)), s1) => {
            behind(c, from, s, s1, payload_words(payload), type_words(t));
            let next = payload.push((t, sp));
            assert(next.drop_last() =~= payload);
            assert(words(c.toks, from, s1.pos) =~= payload_words(next));
            if grammar::kind(c, s1) is Comma {
                passing(c, from, s1, payload_words(next));
                let s2 = grammar::bump(c, s1);
                assert(words(c.toks, from, s2.pos) =~= payload_words(next));
                payload_spells(c, from, s2, allowed, next);
            }
        },
        _ => {},
    }
}

proof fn variant_spells(
    c: Source,
    s: State,
    allowed: Seq<Seq<char>>,
    variants: Seq<UnionVariantView>,
)
    requires
        stands(c, s),
    ensures
        grammar::parse_variant(c, s, allowed, variants).0 matches Some(v) ==> spelled(
            c,
            s.pos,
            s,
            grammar::parse_variant(c, s, allowed, variants).1,
            seq![TokenKindView::Ident(v.name)] + payload_words(v.payload),
        ),
{
    reveal(grammar::parse_variant);
    nothing_read(c, s);
    let from = s.pos;
    assert(payload_words(Seq::empty()) == Seq::<TokenKindView>::empty());
    match grammar::parse_ident(c, s) {
        (Some((name, name_span)), s1) => {
            passing(c, from, s, Seq::empty());
            let s2 = if grammar::has_name(grammar::variant_names(variants), name) {
                grammar::report(
                    s1,
                    grammar::problem(
                        "duplicate union variant `"@ + name + "`"@,
                        name_span,
                        "redefined here"@,
                        "E200"@,
                    ),
                )
            } else {
                s1
            };
            if grammar::kind(c, s2) is LParen {
                passing(c, from, s2, words(c.toks, from, s2.pos));
                let s3 = grammar::bump(c, s2);
                nothing_read(c, s3);
                payload_spells(c, s3.pos, s3, allowed, Seq::empty());
                match grammar::payload_loop(c, s3, allowed, Seq::empty()) {
                    (Some(payload), s4) => {
                        behind(
                            c,
                            from,
                            s3,
                            s4,
                            words(c.toks, from, s3.pos),
                            payload_words(payload),
                        );
                        let what = "`)` after the variant payload"@;
                        match grammar::expect(c, s4, TokenKindView::RParen, what) {
                            (Some(_), s5) => {
                                found(
                                    c,
                                    from,
                                    s4,
                                    TokenKindView::RParen,
                                    what,
                                    words(c.toks, from, s4.pos),
                                );
                                assert(words(c.toks, from, s5.pos) =~= seq![
                                    TokenKindView::Ident(name),
                                ] + payload_words(payload));
                            },
                            _ => {},
                        }
                    },
                    _ => {},
                }
            } else {
                assert(words(c.toks, from, s2.pos) =~= seq![TokenKindView::Ident(name)]
                    + payload_words(Seq::empty()));
            }
        },
        _ => {},
    }
}

proof fn union_loop_spells(
    c: Source,
    from: int,
    s: State,
    allowed: Seq<Seq<char>>,
    variants: Seq<UnionVariantView>,
)
    requires
        stands(c, s),
        from <= s.pos,
        words(c.toks, from, s.pos) == variants_words(variants),
    ensures
        grammar::union_loop(c, s, allowed, variants).0 matches Some(all) ==> spelled(
            c,
            from,
            s,
            grammar::union_loop(c, s, allowed, variants).1,
            variants_words(all),
        ),
    decreases c.toks.len() - s.pos,
{
    reveal(grammar::union_loop);
    if !(grammar::kind(c, s) is Eof || grammar::kind(c, s) is RBrace) {
        variant_spells(c, s, allowed, variants);
        match grammar::parse_variant(c, s, allowed, variants) {
            (Some(v), s1) => {
                behind(
                    c,
                    from,
                    s,
                    s1,
                    variants_words(variants),
                    seq![TokenKindView::Ident(v.name)] + payload_words(v.payload),
                );
                let next = variants.push(v);
                assert(next.drop_last() =~= variants);
                assert(words(c.toks, from, s1.pos) =~= variants_words(next));
                if grammar::kind(c, s1) is Comma && s1.pos > s.pos {
                    passing(c, from, s1, variants_words(next));
                    let s2 = grammar::bump(c, s1);
                    assert(words(c.toks, from, s2.pos) =~= variants_words(next));
                    union_loop_spells(c, from, s2, allowed, next);
                }
            },
            _ => {},
        }
    }
}

proof fn decl_end_spells(
    c: Source,
    from: int,
    s: State,
    what: Seq<char>,
    semi_what: Seq<char>,
    ws: Seq<TokenKindView>,
)
    requires
        stands(c, s),
        from <= s.pos,
        words(c.toks, from, s.pos) == ws,
        grammar::parse_decl_end(c, s, what, semi_what).0 is Some,
    ensures
        spelled(
            c,
            from,
            s,
            grammar::parse_decl_end(c, s, what, semi_what).1,
            ws + seq![TokenKindView::Semi],
        ),
{
    reveal(grammar::parse_decl_end);
    found(c, from, s, TokenKindView::RBrace, what, ws);
    let s1 = grammar::expect(c, s, TokenKindView::RBrace, what).1;
    found(c, from, s1, TokenKindView::Semi, semi_what, words(c.toks, from, s1.pos));
    assert(words(c.toks, from, s1.pos + 1) =~= ws + seq![TokenKindView::Semi]);
}

proof fn object_keyword(c: Source, s: State, what: Seq<char>)
    requires
        grammar::expect(c, s, TokenKindView::Object, what).0 is Some,
    ensures
        grammar::kind(c, s) is Object,
{
}

#[verifier::rlimit(40)]
proof fn type_item_spells(c: Source, s: State)
    requires
        grammar_laws::good(c, s),
        grammar::kind(c, s) is Type,
        quiet(c, s, grammar::parse_type_item(c, s).1),
    ensures
        grammar::parse_type_item(c, s).0 matches Some(x) ==> s.pos <= grammar::parse_type_item(
            c,
            s,
        ).1.pos && item_spelled(words(c.toks, s.pos, grammar::parse_type_item(c, s).1.pos), x),
{
    broadcast use {
        grammar_laws::group_steps,
        grammar_laws::type_params_go,
        grammar_laws::object_loop_goes,
        grammar_laws::union_loop_goes,
        grammar_laws::decl_end_goes,
    };

    reveal(grammar::parse_type_item);
    reveal(grammar::parse_union_body);
    reveal(grammar::parse_object_body);
    nothing_read(c, s);
    let from = s.pos;
    passing(c, from, s, Seq::empty());
    let s0 = grammar::bump(c, s);
    if grammar::parse_type_item(c, s).0 is Some {
        let x = grammar::parse_type_item(c, s).0->0;
        passing(c, from, s0, words(c.toks, from, s0.pos));
        let (name, at) = grammar::parse_ident(c, s0).0->0;
        let s1 = grammar::parse_ident(c, s0).1;
        assert(at.ordered());
        let d = crate::diagnostic::error_view(
            "object type name `"@ + name + "` is reserved"@,
        ).label(at, "choose a different object type name"@).noted(
            "object names cannot shadow built-in or legacy type names"@,
        ).coded("E200"@);
        assert(d.ordered());
        grammar_laws::reporting_goes(c, s1, d);
        let s2 = if grammar::reserved_name(name) {
            grammar::report(s1, d)
        } else {
            s1
        };
        let generic = grammar::opens_union(c.toks, s2.pos);
        let (type_params, s3) = if generic {
            grammar::parse_type_params(c, s2)
        } else {
            (Some(Seq::<TypeParamView>::empty()), s2)
        };
        let what = "`=` after object name"@;
        let s4 = grammar::expect(c, s3, TokenKindView::Eq, what).1;
        if grammar::kind(c, s4) is Union {
            let s5 = grammar::bump(c, s4);
            let open = "`{` after `union`"@;
            let s6 = grammar::expect(c, s5, TokenKindView::LBrace, open).1;
            let allowed = grammar::param_names(type_params->0);
            let (variants, s7) = grammar::union_loop(c, s6, allowed, Seq::empty());
            let (close, semi) = ("`}` after union variants"@, "`;` after union declaration"@);
            let s8 = grammar::parse_decl_end(c, s7, close, semi).1;
            assert(s8.diags.len() == s.diags.len());
            if generic {
                generics_spell(c, s2);
            } else {
                nothing_read(c, s2);
            }
            behind(c, from, s2, s3, words(c.toks, from, s2.pos), generics_words(type_params->0));
            found(c, from, s3, TokenKindView::Eq, what, words(c.toks, from, s3.pos));
            passing(c, from, s4, words(c.toks, from, s4.pos));
            found(c, from, s5, TokenKindView::LBrace, open, words(c.toks, from, s5.pos));
            nothing_read(c, s6);
            assert(variants_words(Seq::empty()) == Seq::<TokenKindView>::empty());
            union_loop_spells(c, s6.pos, s6, allowed, Seq::empty());
            behind(c, from, s6, s7, words(c.toks, from, s6.pos), variants_words(variants->0));
            decl_end_spells(c, from, s7, close, semi, words(c.toks, from, s7.pos));
            assert(words(c.toks, from, s8.pos) =~= seq![
                TokenKindView::Type,
                TokenKindView::Ident(name),
            ] + generics_words(type_params->0) + seq![TokenKindView::Eq, TokenKindView::Union]
                + variants_words(variants->0) + seq![TokenKindView::Semi]);
            assert(x is Union && x->Union_name == name && x->Union_type_params == type_params->0
                && x->variants == variants->0);
            assert(item_spelled(words(c.toks, from, s8.pos), x));
            assert(grammar::parse_type_item(c, s).1 == s8);
        } else {
            let kw = "`object` after `=`"@;
            let s5 = grammar::expect(c, s4, TokenKindView::Object, kw).1;
            let open = "`{` after `object`"@;
            let s6 = grammar::expect(c, s5, TokenKindView::LBrace, open).1;
            let nothing = ObjectBody { fields: Seq::empty(), methods: Seq::empty() };
            let (body, s7) = grammar::object_loop(c, s6, nothing);
            let (close, semi) = ("`}` after object fields"@, "`;` after object declaration"@);
            let s8 = grammar::parse_decl_end(c, s7, close, semi).1;
            assert(s8.diags.len() == s.diags.len());
            object_keyword(c, s4, kw);
            if generic {
                generic_is_union(c, s2, s3, s4, what);
            }
            found(c, from, s3, TokenKindView::Eq, what, words(c.toks, from, s3.pos));
            passing(c, from, s4, words(c.toks, from, s4.pos));
            found(c, from, s5, TokenKindView::LBrace, open, words(c.toks, from, s5.pos));
            nothing_read(c, s6);
            assert(mixed(Seq::empty(), nothing.fields, nothing.methods));
            object_loop_spells(c, s6.pos, s6, nothing);
            let rest = words(c.toks, s6.pos, s7.pos);
            assert(spelled(c, s6.pos, s6, s7, rest));
            behind(c, from, s6, s7, words(c.toks, from, s6.pos), rest);
            decl_end_spells(c, from, s7, close, semi, words(c.toks, from, s7.pos));
            assert(words(c.toks, from, s8.pos) =~= seq![
                TokenKindView::Type,
                TokenKindView::Ident(name),
                TokenKindView::Eq,
                TokenKindView::Object,
            ] + rest + seq![TokenKindView::Semi]);
            assert(x is Object && x->Object_name == name && x->fields == (body->0).fields
                && x->methods == (body->0).methods);
            assert(mixed(rest, (body->0).fields, (body->0).methods));
            assert(item_spelled(words(c.toks, from, s8.pos), x));
            assert(grammar::parse_type_item(c, s).1 == s8);
        }
    }
}

/// Only a union has type parameters.
proof fn generic_is_union(c: Source, s: State, t: State, u: State, what: Seq<char>)
    requires
        stands(c, s),
        grammar::opens_union(c.toks, s.pos),
        t == grammar::parse_type_params(c, s).1,
        grammar::parse_type_params(c, s).0 is Some,
        u == grammar::expect(c, t, TokenKindView::Eq, what).1,
        grammar::expect(c, t, TokenKindView::Eq, what).0 is Some,
    ensures
        grammar::kind(c, u) is Union,
{
    reveal(grammar::parse_type_params);
    nothing_read(c, s);
    passing(c, s.pos, s, Seq::empty());
    let s1 = grammar::bump(c, s);
    nothing_read(c, s1);
    if grammar::kind(c, s1) is RBracket {
        bracket_closes(c.toks, s1.pos, s1.pos);
        passing(c, s1.pos, s1, Seq::empty());
        nothing_read(c, t);
        found(c, t.pos, t, TokenKindView::Eq, what, Seq::empty());
    } else {
        type_params_hold_no_bracket(c, s1, Seq::empty());
        let s2 = grammar::type_params_loop(c, s1, Seq::empty()).1;
        nothing_read(c, s2);
        found(
            c,
            s2.pos,
            s2,
            TokenKindView::RBracket,
            "`]` after type parameters"@,
            Seq::empty(),
        );
        bracket_closes(c.toks, s1.pos, s2.pos);
        nothing_read(c, t);
        found(c, t.pos, t, TokenKindView::Eq, what, Seq::empty());
    }
}

proof fn bracket_closes(toks: Seq<TokenView>, i: int, k: int)
    requires
        0 <= i <= k < toks.len(),
        toks[k].kind is RBracket,
        forall|j: int| i <= j < k ==> !((#[trigger] toks[j]).kind is RBracket) && !(
        toks[j].kind is Eof),
    ensures
        grammar::close_bracket(toks, i) == k,
    decreases k - i,
{
    if i < k {
        bracket_closes(toks, i + 1, k);
    }
}

proof fn type_params_hold_no_bracket(c: Source, s: State, params: Seq<TypeParamView>)
    requires
        stands(c, s),
    ensures
        grammar::type_params_loop(c, s, params).0 is Some ==> s.pos <= grammar::type_params_loop(
            c,
            s,
            params,
        ).1.pos && stands(c, grammar::type_params_loop(c, s, params).1),
        grammar::type_params_loop(c, s, params).0 is Some ==> forall|j: int|
            s.pos <= j < grammar::type_params_loop(c, s, params).1.pos ==> !((
            #[trigger] c.toks[j]).kind is RBracket) && !(c.toks[j].kind is Eof),
    decreases c.toks.len() - s.pos,
{
    reveal(grammar::type_params_loop);
    reveal(grammar::parse_bound);
    match grammar::parse_ident(c, s) {
        (Some((name, sp)), s1) => {
            let bad = ty::named_type(name) is Some || grammar::has_name(
                grammar::param_names(params),
                name,
            );
            if bad {
                let s2 = type_param_again(c, s1, params, name, sp).1;
                if grammar::kind(c, s2) is Comma {
                    type_params_hold_no_bracket(c, grammar::bump(c, s2), params);
                }
            } else {
                match grammar::parse_bound(c, s1) {
                    (Some(bound), s2) => {
                        if grammar::kind(c, s2) is Comma && s2.pos > s.pos {
                            type_params_hold_no_bracket(
                                c,
                                grammar::bump(c, s2),
                                params.push(TypeParamView { name, span: sp, bound }),
                            );
                        }
                    },
                    _ => {},
                }
            }
        },
        _ => {},
    }
}

/// An item spells the tokens that it was read from, where nothing is reported in it.
pub proof fn items_spell_their_tokens(c: Source, s: State)
    requires
        grammar_laws::good(c, s),
        quiet(c, s, grammar::parse_item(c, s).1),
    ensures
        grammar::parse_item(c, s).0 matches Some(x) ==> s.pos <= grammar::parse_item(c, s).1.pos
            && item_spelled(words(c.toks, s.pos, grammar::parse_item(c, s).1.pos), x),
{
    reveal(grammar::parse_item);
    match grammar::kind(c, s) {
        TokenKindView::Function => functions_spell_their_tokens(c, s),
        TokenKindView::Type => type_item_spells(c, s),
        TokenKindView::Eof => {},
        TokenKindView::Invalid => {},
        k => {
            if k == TokenKindView::Ident("use"@) {
                use_spells(c, s);
            } else {
                match grammar::binder(k) {
                    Some(bound) => binding_spells(c, s, Seq::empty(), bound),
                    None => {},
                }
            }
        },
    }
}

proof fn items_loop_spells(c: Source, s: State, items: Seq<ItemView>)
    requires
        grammar_laws::good(c, s),
        items_spelled(words(c.toks, 0, s.pos), items),
        quiet(c, s, grammar::items_loop(c, s, items).1),
    ensures
        ({
            let (all, t) = grammar::items_loop(c, s, items);
            &&& s.pos <= t.pos
            &&& items_spelled(words(c.toks, 0, t.pos), all)
            &&& grammar::kind(c, t) is Eof
        }),
    decreases c.toks.len() - s.pos,
{
    broadcast use {grammar_laws::group_steps, grammar_laws::recover_item_goes};

    reveal(grammar::items_loop);
    if !(grammar::kind(c, s) is Eof) {
        grammar_laws::unread_items_are_reported(c, s);
        let (next, s1) = match grammar::parse_item(c, s) {
            (Some(item), s1) => (items.push(item), s1),
            (None, s1) => (items, grammar::force(c, s1, grammar::recover_item(c, s1))),
        };
        if s1.pos > s.pos {
            grammar_laws::items_go(c, s1, next);
        }
        match grammar::parse_item(c, s) {
            (Some(item), s1) => {
                items_spell_their_tokens(c, s);
                words_join(c.toks, 0, s.pos, s1.pos);
                assert(next.drop_last() =~= items);
                let (front, last) = (words(c.toks, 0, s.pos), words(c.toks, s.pos, s1.pos));
                assert(items_spelled(front, next.drop_last()) && item_spelled(last, next.last()));
                assert(words(c.toks, 0, s1.pos) == front + last);
                assert(items_spelled(words(c.toks, 0, s1.pos), next));
                if s1.pos > s.pos {
                    items_loop_spells(c, s1, next);
                } else {
                    assert(last.len() == 0);
                    items_have_words(item);
                }
            },
            (None, _) => {
                assert(false);
            },
        }
    }
}

proof fn items_have_words(x: ItemView)
    ensures
        !item_spelled(Seq::empty(), x),
{
    let none = Seq::<TokenKindView>::empty();
    match x {
        ItemView::Object { name, fields, methods, .. } => {
            assert forall|rest: Seq<TokenKindView>| #[trigger] mixed(
                rest,
                fields,
                methods,
            ) implies none != seq![
                TokenKindView::Type,
                TokenKindView::Ident(name),
                TokenKindView::Eq,
                TokenKindView::Object,
            ] + rest + seq![TokenKindView::Semi] by {
                assert((seq![
                    TokenKindView::Type,
                    TokenKindView::Ident(name),
                    TokenKindView::Eq,
                    TokenKindView::Object,
                ] + rest + seq![TokenKindView::Semi]).len() > 0);
            }
        },
        _ => {},
    }
}

/// The tree of a text in which nothing is reported spells its tokens, from the first
/// to the end of the file.
pub proof fn programs_spell_their_tokens(toks: Seq<TokenView>, module: Seq<char>)
    requires
        grammar_laws::tokens_in_order(toks),
        !lex::some_invalid(toks),
        grammar::parsed(toks, module).1.len() == 0,
    ensures
        exists|end: int|
            0 <= end < toks.len() && toks[end].kind is Eof && items_spelled(
                #[trigger] words(toks, 0, end),
                grammar::parsed(toks, module).0.items,
            ),
{
    let c = Source { toks, known: grammar::known_types(toks, toks.len() as int) };
    let s = State { pos: 0, diags: Seq::empty() };
    nothing_read(c, s);
    assert(grammar_laws::good(c, s));
    grammar_laws::items_go(c, s, Seq::empty());
    items_loop_spells(c, s, Seq::empty());
    let end = grammar::items_loop(c, s, Seq::empty()).1.pos;
    assert(items_spelled(words(toks, 0, end), grammar::parsed(toks, module).0.items));
}

} // verus!
