//! How tightly operators bind: in an expression without parentheses an operator
//! takes no operand that binds more loosely than it, and chains lean to the left.

use vstd::prelude::*;

use crate::ast::{BinOp, ExprView};
use crate::grammar::{Source, State};
use crate::span::Span;
use crate::spelling::stands;
use crate::token::TokenKindView;
use crate::{grammar, spelling};

verus! {

/// How loosely an operator binds.
pub open spec fn op_rank(op: BinOp) -> nat {
    match op {
        BinOp::Mul | BinOp::Div => 2,
        BinOp::Add | BinOp::Sub => 3,
        BinOp::Lt | BinOp::Le | BinOp::Gt | BinOp::Ge => 4,
        BinOp::Eq | BinOp::Ne => 6,
        BinOp::And => 7,
        BinOp::Or => 8,
    }
}

/// How loosely an expression binds: prefix operators more tightly than `*`, and
/// `as` between `<` and `==`.
pub open spec fn rank(x: ExprView) -> nat {
    match x {
        ExprView::Binary { op, .. } => op_rank(op),
        ExprView::Cast { .. } => 5,
        ExprView::Unary { .. } => 1,
        _ => 0,
    }
}

/// Whether every operator in an expression has operands that bind more tightly, the
/// left one of a binary operator at least as tightly.
pub open spec fn binds_right(x: ExprView) -> bool
    decreases x,
{
    match x {
        ExprView::Literal(..)
        | ExprView::String(..)
        | ExprView::Null(..)
        | ExprView::Var { .. } => true,
        ExprView::ArrayLiteral { elems, .. } => all_bind(elems),
        ExprView::ObjectLiteral { fields, .. } => named_bind(fields),
        ExprView::TupleLiteral { .. } | ExprView::Call { .. } => true,
        ExprView::Index { base, index, .. } => rank(*base) == 0 && binds_right(*base)
            && binds_right(*index),
        ExprView::Field { base, .. } => rank(*base) == 0 && binds_right(*base),
        ExprView::TupleIndex { base, .. } => rank(*base) == 0 && binds_right(*base),
        ExprView::Unary { rhs, .. } => rank(*rhs) <= 1 && binds_right(*rhs),
        ExprView::Binary { op, lhs, rhs, .. } => rank(*lhs) <= op_rank(op) && rank(*rhs) < op_rank(
            op,
        ) && binds_right(*lhs) && binds_right(*rhs),
        ExprView::Cast { inner, .. } => rank(*inner) <= 5 && binds_right(*inner),
    }
}

/// The same of the elements of an array.
pub open spec fn all_bind(xs: Seq<ExprView>) -> bool
    decreases xs,
{
    xs.len() == 0 || (all_bind(xs.drop_last()) && binds_right(xs.last()))
}

/// The same of the fields of an object.
pub open spec fn named_bind(xs: Seq<(Seq<char>, Span, ExprView)>) -> bool
    decreases xs,
{
    xs.len() == 0 || (named_bind(xs.drop_last()) && binds_right(xs.last().2))
}

/// Whether no parenthesis opens among the tokens from a position to another.
pub open spec fn open_air(c: Source, i: int, j: int) -> bool {
    forall|k: int| i <= k < j ==> !((#[trigger] c.toks[k]).kind is LParen)
}

/// Whether an expression that was read binds as it should, and no more loosely than
/// a rank.
pub open spec fn bound(c: Source, from: int, s: State, r: (Option<ExprView>, State), most: nat) -> bool {
    r.0 matches Some(e) ==> {
        &&& s.pos <= r.1.pos
        &&& stands(c, r.1)
        &&& open_air(c, from, r.1.pos) ==> binds_right(e) && rank(e) <= most
    }
}

/// The rank of the operators of a level of the grammar.
spec fn level_rank(level: nat) -> nat {
    if level <= 2 {
        level + 2
    } else {
        level + 3
    }
}

proof fn narrower(c: Source, a: int, b: int, i: int, j: int)
    requires
        open_air(c, a, b),
        a <= i,
        j <= b,
    ensures
        open_air(c, i, j),
{
}

/// In an expression that is read without a parenthesis, operators take their
/// operands by rank: `*` and `/` first, then `+` and `-`, comparisons, casts,
/// equality, `&&` and `||`, each from left to right.
pub proof fn operators_bind_by_rank(c: Source, s: State)
    requires
        stands(c, s),
    ensures
        grammar::parse_expr(c, s).0 matches Some(e) ==> (open_air(
            c,
            s.pos,
            grammar::parse_expr(c, s).1.pos,
        ) ==> binds_right(e)),
        bound(c, s.pos, s, grammar::parse_expr(c, s), 8),
    decreases c.toks.len() - s.pos, 41nat,
{
    reveal(grammar::parse_level);
    level_binds(c, s, 5);
}

proof fn level_binds(c: Source, s: State, level: nat)
    requires
        stands(c, s),
        level <= 5,
    ensures
        bound(c, s.pos, s, grammar::parse_level(c, s, level), level_rank(level)),
    decreases c.toks.len() - s.pos, 20 + 4 * level,
{
    reveal(grammar::parse_level);
    reveal(grammar::parse_operand);
    reveal(grammar::level_loop);
    operand_binds(c, s, level);
    match grammar::parse_operand(c, s, level) {
        (Some(lhs), s1) => level_loop_binds(c, s.pos, s1, level, lhs),
        _ => {},
    }
}

proof fn level_loop_binds(c: Source, from: int, s: State, level: nat, lhs: ExprView)
    requires
        stands(c, s),
        level <= 5,
        from <= s.pos,
        open_air(c, from, s.pos) ==> binds_right(lhs) && rank(lhs) <= level_rank(level),
    ensures
        bound(c, from, s, grammar::level_loop(c, s, level, lhs), level_rank(level)),
    decreases c.toks.len() - s.pos, 1nat,
{
    reveal(grammar::parse_operand);
    reveal(grammar::level_loop);
    match grammar::operator(grammar::kind(c, s), level) {
        None => {},
        Some(op) => {
            let s1 = grammar::bump(c, s);
            operand_binds(c, s1, level);
            match grammar::parse_operand(c, s1, level) {
                (Some(rhs), s2) => {
                    let both = grammar::binary(op, lhs, rhs);
                    assert(op_rank(op) == level_rank(level));
                    if open_air(c, from, s2.pos) {
                        narrower(c, from, s2.pos, from, s.pos);
                        narrower(c, from, s2.pos, s1.pos, s2.pos);
                    }
                    level_loop_binds(c, from, s2, level, both);
                },
                _ => {},
            }
        },
    }
}

proof fn operand_binds(c: Source, s: State, level: nat)
    requires
        stands(c, s),
        level <= 5,
    ensures
        bound(c, s.pos, s, grammar::parse_operand(c, s, level), (level_rank(level) - 1) as nat),
    decreases c.toks.len() - s.pos, 19 + 4 * level,
{
    reveal(grammar::parse_operand);
    reveal(grammar::parse_unary);
    reveal(grammar::parse_cast);
    reveal(grammar::parse_level);
    if level == 0 {
        unary_binds(c, s);
    } else if level == 3 {
        cast_binds(c, s);
    } else {
        level_binds(c, s, (level - 1) as nat);
    }
}

proof fn cast_binds(c: Source, s: State)
    requires
        stands(c, s),
    ensures
        bound(c, s.pos, s, grammar::parse_cast(c, s), 5),
    decreases c.toks.len() - s.pos, 29nat,
{
    reveal(grammar::parse_cast);
    reveal(grammar::parse_level);
    level_binds(c, s, 2);
    match grammar::parse_level(c, s, 2) {
        (Some(e), s1) => cast_loop_binds(c, s.pos, s1, e),
        _ => {},
    }
}

proof fn cast_loop_binds(c: Source, from: int, s: State, e: ExprView)
    requires
        stands(c, s),
        from <= s.pos,
        open_air(c, from, s.pos) ==> binds_right(e) && rank(e) <= 5,
    ensures
        bound(c, from, s, grammar::cast_loop(c, s, e), 5),
    decreases c.toks.len() - s.pos,
{
    reveal(grammar::cast_loop);
    if grammar::kind(c, s) is As {
        let s1 = grammar::bump(c, s);
        spelling::type_spells(c, s1, Seq::empty(), true);
        match grammar::parse_type(c, s1, Seq::empty(), true) {
            (Some((t, sp)), s2) => {
                let next = ExprView::Cast {
                    inner: Box::new(e),
                    target: t,
                    target_span: sp,
                    span: Span { start: e.span().start, end: sp.end },
                };
                if open_air(c, from, s2.pos) {
                    narrower(c, from, s2.pos, from, s.pos);
                }
                cast_loop_binds(c, from, s2, next);
            },
            _ => {},
        }
    }
}

proof fn unary_binds(c: Source, s: State)
    requires
        stands(c, s),
    ensures
        bound(c, s.pos, s, grammar::parse_unary(c, s), 1),
    decreases c.toks.len() - s.pos, 10nat,
{
    reveal(grammar::parse_unary);
    reveal(grammar::parse_postfix);
    if grammar::kind(c, s) is Minus || grammar::kind(c, s) is Bang {
        let s1 = grammar::bump(c, s);
        unary_binds(c, s1);
        match grammar::parse_unary(c, s1) {
            (Some(rhs), s2) => {
                if open_air(c, s.pos, s2.pos) {
                    narrower(c, s.pos, s2.pos, s1.pos, s2.pos);
                }
            },
            _ => {},
        }
    } else {
        postfix_binds(c, s);
    }
}

proof fn postfix_binds(c: Source, s: State)
    requires
        stands(c, s),
    ensures
        bound(c, s.pos, s, grammar::parse_postfix(c, s), 0),
    decreases c.toks.len() - s.pos, 9nat,
{
    reveal(grammar::parse_postfix);
    reveal(grammar::parse_primary);
    reveal(grammar::postfix_loop);
    primary_binds(c, s);
    match grammar::parse_primary(c, s) {
        (Some(e), s1) => postfix_loop_binds(c, s.pos, s1, e, false),
        _ => {},
    }
}

proof fn postfix_loop_binds(c: Source, from: int, s: State, base: ExprView, indexed: bool)
    requires
        stands(c, s),
        from <= s.pos,
        open_air(c, from, s.pos) ==> binds_right(base) && rank(base) == 0,
    ensures
        bound(c, from, s, grammar::postfix_loop(c, s, base, indexed), 0),
    decreases c.toks.len() - s.pos, 1nat,
{
    reveal(grammar::postfix_loop);
    reveal(grammar::parse_level);
    let s1 = grammar::bump(c, s);
    let start = base.span().start;
    if grammar::kind(c, s) is LBracket {
        operators_bind_by_rank(c, s1);
        match grammar::parse_expr(c, s1) {
            (Some(index), s2) => {
                match grammar::expect(c, s2, TokenKindView::RBracket, "`]`"@) {
                    (Some(close), s3) => {
                        spelling::found(
                            c,
                            s2.pos,
                            s2,
                            TokenKindView::RBracket,
                            "`]`"@,
                            spelling::words(c.toks, s2.pos, s2.pos),
                        );
                        let next = ExprView::Index {
                            base: Box::new(base),
                            index: Box::new(index),
                            span: Span { start, end: close.end },
                        };
                        if open_air(c, from, s3.pos) {
                            narrower(c, from, s3.pos, from, s.pos);
                            narrower(c, from, s3.pos, s1.pos, s2.pos);
                        }
                        postfix_loop_binds(c, from, s3, next, true);
                    },
                    _ => {},
                }
            },
            _ => {},
        }
    } else if grammar::kind(c, s) is Dot && grammar::kind(c, s1) is Backtick {
        let s2 = grammar::bump(c, s1);
        match grammar::kind(c, s2) {
            TokenKindView::Int(v) if v >= 0 && v <= u32::MAX => {
                let s3 = grammar::bump(c, s2);
                let next = ExprView::TupleIndex {
                    base: Box::new(base),
                    index: v as usize,
                    index_span: grammar::span(c, s2),
                    span: Span { start, end: grammar::span(c, s2).end },
                };
                if open_air(c, from, s3.pos) {
                    narrower(c, from, s3.pos, from, s.pos);
                }
                postfix_loop_binds(c, from, s3, next, indexed);
            },
            _ => {},
        }
    } else if grammar::kind(c, s) is Dot {
        match grammar::parse_ident(c, s1) {
            (Some((name, sp)), s2) => {
                let next = ExprView::Field {
                    base: Box::new(base),
                    name,
                    span: Span { start, end: sp.end },
                };
                if open_air(c, from, s2.pos) {
                    narrower(c, from, s2.pos, from, s.pos);
                }
                postfix_loop_binds(c, from, s2, next, indexed);
            },
            _ => {},
        }
    }
}

proof fn chain_binds(path: Seq<Seq<char>>, head: Span, whole: Span)
    ensures
        binds_right(grammar::field_chain(path, head, whole)),
        rank(grammar::field_chain(path, head, whole)) == 0,
    decreases path.len(),
{
    if path.len() > 1 {
        chain_binds(path.drop_last(), head, whole);
    }
}

/// A token that is expected and found.
proof fn expected(c: Source, s: State, want: TokenKindView, what: Seq<char>)
    requires
        stands(c, s),
        want is LParen || want is RParen || want is RBrace || want is RBracket || want is Colon,
        grammar::expect(c, s, want, what).0 is Some,
    ensures
        grammar::kind(c, s) == want,
        grammar::expect(c, s, want, what).1.pos == s.pos + 1,
        stands(c, grammar::expect(c, s, want, what).1),
{
    spelling::found(c, s.pos, s, want, what, spelling::words(c.toks, s.pos, s.pos));
}

#[verifier::rlimit(40)]
proof fn primary_binds(c: Source, s: State)
    requires
        stands(c, s),
    ensures
        bound(c, s.pos, s, grammar::parse_primary(c, s), 0),
    decreases c.toks.len() - s.pos, 8nat,
{
    reveal(grammar::parse_primary);
    reveal(grammar::parse_named);
    reveal(grammar::exprs_loop);
    reveal(grammar::tuple_loop);
    reveal(grammar::parse_level);
    let s1 = grammar::bump(c, s);
    match grammar::kind(c, s) {
        TokenKindView::Ident(_) => named_binds(c, s),
        TokenKindView::LParen => {
            operators_bind_by_rank(c, s1);
            match grammar::parse_expr(c, s1) {
                (Some(e), s2) => {
                    if grammar::parse_primary(c, s).0 is Some {
                        expected(c, s2, TokenKindView::RParen, "`)`"@);
                        assert(c.toks[s.pos].kind is LParen);
                        assert(!open_air(c, s.pos, s2.pos + 1));
                    }
                },
                _ => {},
            }
        },
        TokenKindView::LBracket => {
            if !(grammar::kind(c, s1) is RBracket) {
                exprs_loop_binds(c, s1.pos, s1, Seq::empty(), true);
            }
            if grammar::parse_primary(c, s).0 is Some {
                let (elems, s2) = if grammar::kind(c, s1) is RBracket {
                    (Some(Seq::<ExprView>::empty()), s1)
                } else {
                    grammar::exprs_loop(c, s1, Seq::empty(), true)
                };
                expected(c, s2, TokenKindView::RBracket, "`]`"@);
                assert(all_bind(Seq::empty()));
                if open_air(c, s.pos, s2.pos + 1) {
                    narrower(c, s.pos, s2.pos + 1, s1.pos, s2.pos);
                    assert(all_bind(elems->0));
                    assert(binds_right(grammar::parse_primary(c, s).0->0));
                }
            }
        },
        TokenKindView::Hash => {
            let what = "`(` after `#` in a tuple"@;
            match grammar::expect(c, s1, TokenKindView::LParen, what) {
                (Some(_), s2) => {
                    expected(c, s1, TokenKindView::LParen, what);
                    tuple_loop_binds(c, s2, Seq::empty());
                    match grammar::tuple_loop(c, s2, Seq::empty()) {
                        (Some(elems), s3) => {
                            if grammar::parse_primary(c, s).0 is Some {
                                expected(
                                    c,
                                    s3,
                                    TokenKindView::RParen,
                                    "`)` after tuple elements"@,
                                );
                            }
                        },
                        _ => {},
                    }
                },
                _ => {},
            }
        },
        _ => {},
    }
}

#[verifier::rlimit(40)]
proof fn named_binds(c: Source, s: State)
    requires
        stands(c, s),
        grammar::kind(c, s) is Ident,
    ensures
        bound(c, s.pos, s, grammar::parse_named(c, s), 0),
    decreases c.toks.len() - s.pos, 7nat,
{
    reveal(grammar::parse_named);
    reveal(grammar::parse_object_literal);
    reveal(grammar::exprs_loop);
    let at = grammar::span(c, s);
    spelling::path_spells(c, s);
    match grammar::parse_path(c, s) {
        (Some(path), s1) => {
            let place = Span { start: at.start, end: grammar::prev_end(c, s1) };
            chain_binds(path, at, place);
            if path.len() == 1 && grammar::kind(c, s1) is LBrace {
                object_binds(c, s.pos, s1, path[0], at);
            } else {
                spelling::type_args_spell(c, s1);
                match grammar::parse_type_args(c, s1) {
                    (Some((type_args, type_args_span)), s2) => {
                        if grammar::kind(c, s2) is LParen {
                            let s3 = grammar::bump(c, s2);
                            if !(grammar::kind(c, s3) is RParen) {
                                exprs_loop_binds(c, s3.pos, s3, Seq::empty(), false);
                            }
                            let (args, s4) = if grammar::kind(c, s3) is RParen {
                                (Some(Seq::<ExprView>::empty()), s3)
                            } else {
                                grammar::exprs_loop(c, s3, Seq::empty(), false)
                            };
                            if args is Some && grammar::parse_named(c, s).0 is Some {
                                expected(c, s4, TokenKindView::RParen, "`)`"@);
                            }
                        }
                    },
                    _ => {},
                }
            }
        },
        _ => {},
    }
}

proof fn object_binds(c: Source, from: int, s: State, name: Seq<char>, at: Span)
    requires
        stands(c, s),
        from < s.pos,
        grammar::kind(c, s) is LBrace,
    ensures
        bound(c, from, s, grammar::parse_object_literal(c, s, name, at), 0),
    decreases c.toks.len() - s.pos, 6nat,
{
    reveal(grammar::parse_object_literal);
    reveal(grammar::fields_loop);
    let s0 = grammar::bump(c, s);
    fields_loop_binds(c, s0.pos, s0, Seq::empty());
    if grammar::parse_object_literal(c, s, name, at).0 is Some {
        let s1 = grammar::fields_loop(c, s0, Seq::empty()).1;
        expected(c, s1, TokenKindView::RBrace, "`}` after object literal"@);
        if open_air(c, from, s1.pos + 1) {
            narrower(c, from, s1.pos + 1, s0.pos, s1.pos);
        }
    }
}

proof fn exprs_loop_binds(c: Source, from: int, s: State, elems: Seq<ExprView>, trailing: bool)
    requires
        stands(c, s),
        from <= s.pos,
        open_air(c, from, s.pos) ==> all_bind(elems),
    ensures
        grammar::exprs_loop(c, s, elems, trailing).0 matches Some(all) ==> {
            let t = grammar::exprs_loop(c, s, elems, trailing).1;
            s.pos <= t.pos && stands(c, t) && (open_air(c, from, t.pos) ==> all_bind(all))
        },
    decreases c.toks.len() - s.pos, 50nat,
{
    reveal(grammar::exprs_loop);
    reveal(grammar::parse_level);
    operators_bind_by_rank(c, s);
    match grammar::parse_expr(c, s) {
        (Some(e), s1) => {
            let next = elems.push(e);
            assert(next.drop_last() =~= elems);
            if open_air(c, from, s1.pos) {
                narrower(c, from, s1.pos, from, s.pos);
                narrower(c, from, s1.pos, s.pos, s1.pos);
                assert(all_bind(next));
            }
            if grammar::kind(c, s1) is Comma && s1.pos > s.pos {
                let s2 = grammar::bump(c, s1);
                if open_air(c, from, s2.pos) {
                    narrower(c, from, s2.pos, from, s1.pos);
                }
                if !(trailing && grammar::kind(c, s2) is RBracket) {
                    exprs_loop_binds(c, from, s2, next, trailing);
                }
            }
        },
        _ => {},
    }
}

proof fn tuple_loop_binds(c: Source, s: State, elems: Seq<(Option<Seq<char>>, Span, ExprView)>)
    requires
        stands(c, s),
    ensures
        grammar::tuple_loop(c, s, elems).0 is Some ==> s.pos <= grammar::tuple_loop(
            c,
            s,
            elems,
        ).1.pos && stands(c, grammar::tuple_loop(c, s, elems).1),
    decreases c.toks.len() - s.pos, 50nat,
{
    reveal(grammar::tuple_loop);
    reveal(grammar::parse_level);
    let named = grammar::kind(c, s) is Ident && grammar::kind_at(c, s.pos + 1) is Colon;
    let name = if named {
        Some(grammar::kind(c, s)->Ident_0)
    } else {
        None
    };
    let s1 = spelling::label_spells(c, s.pos, s, spelling::words(c.toks, s.pos, s.pos));
    operators_bind_by_rank(c, s1);
    match grammar::parse_expr(c, s1) {
        (Some(e), s2) => {
            if grammar::kind(c, s2) is Comma && s2.pos > s.pos {
                tuple_loop_binds(
                    c,
                    grammar::bump(c, s2),
                    elems.push((name, grammar::span(c, s), e)),
                );
            }
        },
        _ => {},
    }
}

proof fn fields_loop_binds(c: Source, from: int, s: State, fields: Seq<(Seq<char>, Span, ExprView)>)
    requires
        stands(c, s),
        from <= s.pos,
        open_air(c, from, s.pos) ==> named_bind(fields),
    ensures
        grammar::fields_loop(c, s, fields).0 matches Some(all) ==> {
            let t = grammar::fields_loop(c, s, fields).1;
            s.pos <= t.pos && stands(c, t) && (open_air(c, from, t.pos) ==> named_bind(all))
        },
    decreases c.toks.len() - s.pos, 50nat,
{
    reveal(grammar::fields_loop);
    reveal(grammar::parse_level);
    if !(grammar::kind(c, s) is Eof || grammar::kind(c, s) is RBrace) {
        match grammar::parse_ident(c, s) {
            (Some((field, sp)), s1) => {
                match grammar::expect_field_separator(c, s1) {
                    (Some(_), s2) => {
                        if !(grammar::kind(c, s1) is Eq) {
                            expected(c, s1, TokenKindView::Colon, "`:` after object field"@);
                        }
                        operators_bind_by_rank(c, s2);
                        match grammar::parse_expr(c, s2) {
                            (Some(value), s3) => {
                                let next = fields.push((field, sp, value));
                                assert(next.drop_last() =~= fields);
                                if open_air(c, from, s3.pos) {
                                    narrower(c, from, s3.pos, from, s.pos);
                                    narrower(c, from, s3.pos, s2.pos, s3.pos);
                                    assert(named_bind(next));
                                }
                                if grammar::kind(c, s3) is Comma && s3.pos > s.pos {
                                    let s4 = grammar::bump(c, s3);
                                    if open_air(c, from, s4.pos) {
                                        narrower(c, from, s4.pos, from, s3.pos);
                                    }
                                    fields_loop_binds(c, from, s4, next);
                                }
                            },
                            _ => {},
                        }
                    },
                    _ => {},
                }
            },
            _ => {},
        }
    }
}

} // verus!
