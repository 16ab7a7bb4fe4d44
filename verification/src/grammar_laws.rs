//! What holds of every parse: reports are only added and can be rendered, what
//! cannot be read is reported, and places lie where the tokens stand.

use vstd::prelude::*;

use crate::ast::{
    BindingKind, DestructureBindingView, ExprView, ItemView, MatchArmView, ParamView, StmtView,
    TypeParamView, UnionVariantView,
};
use crate::grammar::{Name, ObjectBody, Source, State, Target};
use crate::span::Span;
use crate::token::{TokenKindView, TokenView};
use crate::ty::TypeView;
use crate::{grammar, lex, places, token, ty};

verus! {

/// Whether tokens stand in order, one behind the other, and end with the end of
/// the file.
pub open spec fn tokens_in_order(toks: Seq<TokenView>) -> bool {
    &&& toks.len() > 0
    &&& toks.last().kind is Eof
    &&& forall|i: int| 0 <= i < toks.len() ==> (#[trigger] toks[i]).span.ordered()
    &&& forall|i: int, j: int|
        0 <= i < j < toks.len() ==> (#[trigger] toks[i]).span.end <= (#[trigger] toks[j]).span.start
}

/// Whether a state of the parser is sound: it stands at a token, and its reports
/// can be rendered.
pub open spec fn good(c: Source, s: State) -> bool {
    &&& tokens_in_order(c.toks)
    &&& 0 <= s.pos < c.toks.len()
    &&& lex::all_ordered(s.diags)
}

/// Whether a state follows from another: no token is taken back, and no report.
pub open spec fn went(c: Source, s: State, t: State) -> bool {
    &&& good(c, t)
    &&& s.pos <= t.pos
    &&& s.diags.len() <= t.diags.len()
}

/// Whether something is reported, or was by the lexer.
pub open spec fn told(c: Source, s: State, t: State) -> bool {
    s.diags.len() < t.diags.len() || lex::some_invalid(c.toks)
}

/// Whether a place lies on the tokens between two states.
pub open spec fn within(c: Source, s: State, t: State, sp: Span) -> bool {
    &&& s.pos < t.pos
    &&& c.toks[s.pos].span.start <= sp.start <= sp.end <= c.toks[t.pos - 1].span.end
}

/// Where the last token ends.
pub open spec fn limit(toks: Seq<TokenView>) -> nat {
    toks.last().span.end as nat
}

/// Whether expressions lie on the tokens between two states.
spec fn exprs_within(c: Source, s: State, t: State, xs: Seq<ExprView>) -> bool {
    forall|i: int| 0 <= i < xs.len() ==> within(c, s, t, (#[trigger] xs[i]).span())
}

/// Whether the values of fields lie on the tokens between two states.
spec fn named_within(c: Source, s: State, t: State, xs: Seq<(Seq<char>, Span, ExprView)>) -> bool {
    forall|i: int| 0 <= i < xs.len() ==> within(c, s, t, (#[trigger] xs[i]).2.span())
}

/// Whether the elements of a tuple lie on the tokens between two states.
spec fn elems_within(
    c: Source,
    s: State,
    t: State,
    xs: Seq<(Option<Seq<char>>, Span, ExprView)>,
) -> bool {
    forall|i: int| 0 <= i < xs.len() ==> within(c, s, t, (#[trigger] xs[i]).2.span())
}

proof fn ends_increase(c: Source, i: int, j: int)
    requires
        tokens_in_order(c.toks),
        0 <= i <= j < c.toks.len(),
    ensures
        c.toks[i].span.end <= c.toks[j].span.end,
        c.toks[i].span.start <= c.toks[j].span.start,
        c.toks[i].span.ordered(),
{
    assert(c.toks[j].span.ordered());
    if i < j {
        assert(c.toks[i].span.end <= c.toks[j].span.start);
    }
}

proof fn under_limit(c: Source, s: State, t: State, sp: Span)
    requires
        good(c, s),
        good(c, t),
        within(c, s, t, sp),
    ensures
        sp.ordered(),
        sp.end <= limit(c.toks),
{
    ends_increase(c, t.pos - 1, c.toks.len() - 1);
}

proof fn within_widens(c: Source, a: State, s: State, t: State, b: State, sp: Span)
    requires
        good(c, a),
        good(c, b),
        a.pos <= s.pos,
        t.pos <= b.pos,
        within(c, s, t, sp),
    ensures
        within(c, a, b, sp),
{
    ends_increase(c, a.pos, s.pos);
    ends_increase(c, t.pos - 1, b.pos - 1);
}

/// The tokens of a text stand in order, and the last ends where the text does.
pub proof fn lexed_tokens_are_in_order(s: Seq<char>)
    requires
        vstd::utf8::encode_utf8(s).len() <= usize::MAX,
    ensures
        tokens_in_order(lex::lexed(s).0),
        limit(lex::lexed(s).0) == vstd::utf8::encode_utf8(s).len(),
{
    lex::tokens_are_sound(s);
    let toks = lex::lexed(s).0;
    let front = toks.drop_last();
    assert forall|i: int| 0 <= i < toks.len() implies (#[trigger] toks[i]).span.ordered() by {
        if i < front.len() {
            assert(front[i] == toks[i]);
        }
    }
    assert forall|i: int, j: int| 0 <= i < j < toks.len() implies (#[trigger] toks[i]).span.end <= (
    #[trigger] toks[j]).span.start by {
        assert(front[i] == toks[i]);
        if j < front.len() {
            assert(front[j] == toks[j]);
        }
    }
}

pub(crate) broadcast proof fn reporting_goes(c: Source, s: State, d: crate::diagnostic::DiagnosticView)
    requires
        good(c, s),
        d.ordered(),
    ensures
        #![trigger went(c, s, grammar::report(s, d))]
        #![trigger good(c, grammar::report(s, d))]
        went(c, s, grammar::report(s, d)),
{
    let t = grammar::report(s, d);
    assert forall|i: int| 0 <= i < t.diags.len() implies (#[trigger] t.diags[i]).ordered() by {
        if i < s.diags.len() {
            assert(t.diags[i] == s.diags[i]);
        }
    }
}

proof fn problem_is_ordered(message: Seq<char>, at: Span, remark: Seq<char>, code: Seq<char>)
    requires
        at.ordered(),
    ensures
        grammar::problem(message, at, remark, code).ordered(),
{
}

/// A report about one place.
pub(crate) broadcast proof fn problem_goes(
    c: Source,
    s: State,
    message: Seq<char>,
    at: Span,
    remark: Seq<char>,
    code: Seq<char>,
)
    requires
        good(c, s),
        at.ordered(),
    ensures
        #![trigger grammar::report(s, grammar::problem(message, at, remark, code)), good(c, s)]
        went(c, s, grammar::report(s, grammar::problem(message, at, remark, code))),
        told(c, s, grammar::report(s, grammar::problem(message, at, remark, code))),
{
    problem_is_ordered(message, at, remark, code);
    reporting_goes(c, s, grammar::problem(message, at, remark, code));
}

pub(crate) broadcast proof fn bump_goes(c: Source, s: State)
    requires
        good(c, s),
    ensures
        #![trigger grammar::bump(c, s)]
        went(c, s, grammar::bump(c, s)),
        !(grammar::kind(c, s) is Eof) ==> grammar::bump(c, s).pos == s.pos + 1,
        grammar::bump(c, s).diags == s.diags,
{
}

pub(crate) broadcast proof fn expect_goes(c: Source, s: State, want: TokenKindView, what: Seq<char>)
    requires
        good(c, s),
        !(want is Eof),
    ensures
        #![trigger grammar::expect(c, s, want, what)]
        went(c, s, grammar::expect(c, s, want, what).1),
        match grammar::expect(c, s, want, what).0 {
            Some(sp) => sp == c.toks[s.pos].span && grammar::expect(c, s, want, what).1.pos
                == s.pos + 1,
            None => told(c, s, grammar::expect(c, s, want, what).1),
        },
{
    assert(!(grammar::kind(c, s) is Eof) || token::kind_tag(grammar::kind(c, s))
        != token::kind_tag(want)) by {
        if grammar::kind(c, s) is Eof {
            only_eof(want);
        }
    }
    assert(grammar::span(c, s).ordered());
    bump_goes(c, s);
    problem_goes(
        c,
        s,
        "expected "@ + what + ", found "@ + token::kind_text(grammar::kind(c, s)),
        grammar::span(c, s),
        "unexpected token here"@,
        "E100"@,
    );
}

proof fn only_eof(k: TokenKindView)
    requires
        !(k is Eof),
    ensures
        token::kind_tag(k) != token::kind_tag(TokenKindView::Eof),
{
}

pub(crate) broadcast proof fn ident_goes(c: Source, s: State)
    requires
        good(c, s),
    ensures
        #![trigger grammar::parse_ident(c, s)]
        went(c, s, grammar::parse_ident(c, s).1),
        match grammar::parse_ident(c, s).0 {
            Some(n) => n.1 == c.toks[s.pos].span && grammar::parse_ident(c, s).1.pos == s.pos + 1,
            None => told(c, s, grammar::parse_ident(c, s).1),
        },
{
    assert(grammar::span(c, s).ordered());
    bump_goes(c, s);
    problem_goes(
        c,
        s,
        "expected a name, found "@ + token::kind_text(grammar::kind(c, s)),
        grammar::span(c, s),
        "expected identifier here"@,
        "E102"@,
    );
}

/// One step of the parser.
pub(crate) broadcast group group_steps {
    reporting_goes,
    problem_goes,
    bump_goes,
    expect_goes,
    ident_goes,
}

proof fn path_loop_goes(c: Source, s: State, path: Seq<Seq<char>>)
    requires
        good(c, s),
    ensures
        went(c, s, grammar::path_loop(c, s, path).1),
        grammar::path_loop(c, s, path).0 is None ==> told(c, s, grammar::path_loop(c, s, path).1),
    decreases c.toks.len() - s.pos,
{
    broadcast use group_steps;

    if grammar::kind(c, s) is Dot && !(grammar::kind_at(c, s.pos + 1) is LBrace) && !(
    grammar::kind_at(c, s.pos + 1) is Backtick) {
        let s1 = grammar::bump(c, s);
        match grammar::parse_ident(c, s1) {
            (Some(n), s2) => path_loop_goes(c, grammar::adv(s1, s2), path.push(n.0)),
            _ => {},
        }
    }
}

pub(crate) broadcast proof fn path_goes(c: Source, s: State)
    requires
        good(c, s),
    ensures
        #![trigger grammar::parse_path(c, s)]
        went(c, s, grammar::parse_path(c, s).1),
        grammar::parse_path(c, s).0 is None ==> told(c, s, grammar::parse_path(c, s).1),
        grammar::parse_path(c, s).0 is Some ==> s.pos < grammar::parse_path(c, s).1.pos,
{
    reveal(grammar::parse_path);
    ident_goes(c, s);
    match grammar::parse_ident(c, s) {
        (Some(n), s1) => path_loop_goes(c, s1, seq![n.0]),
        _ => {},
    }
}

pub(crate) broadcast proof fn idents_loop_goes(c: Source, s: State, names: Seq<Name>)
    requires
        good(c, s),
    ensures
        #![trigger grammar::idents_loop(c, s, names)]
        went(c, s, grammar::idents_loop(c, s, names).1),
        match grammar::idents_loop(c, s, names).0 {
            Some(all) => places::names_placed(names) ==> places::names_placed(all),
            None => told(c, s, grammar::idents_loop(c, s, names).1),
        },
    decreases c.toks.len() - s.pos,
{
    broadcast use group_steps;

    match grammar::parse_ident(c, s) {
        (Some(n), s1) => {
            if grammar::kind(c, s1) is Comma && s1.pos > s.pos {
                idents_loop_goes(c, grammar::bump(c, s1), names.push(n));
            }
        },
        _ => {},
    }
}

// ---------------------------------------------------------------------------
// Types
// ---------------------------------------------------------------------------

/// What is shown of reading a type.
spec fn type_goes(c: Source, s: State, r: (Option<(TypeView, Span)>, State)) -> bool {
    &&& went(c, s, r.1)
    &&& match r.0 {
        Some(x) => within(c, s, r.1, x.1),
        None => told(c, s, r.1),
    }
}

proof fn type_of_name_goes(
    c: Source,
    s: State,
    name: Seq<char>,
    at: Span,
    allowed: Seq<Seq<char>>,
    strict: bool,
)
    requires
        good(c, s),
        at.ordered(),
    ensures
        went(c, s, grammar::type_of_name(c, s, name, at, allowed, strict).1),
        match grammar::type_of_name(c, s, name, at, allowed, strict).0 {
            Some(x) => x.1 == at && grammar::type_of_name(c, s, name, at, allowed, strict).1 == s,
            None => told(c, s, grammar::type_of_name(c, s, name, at, allowed, strict).1),
        },
{
    broadcast use group_steps;

}

proof fn parse_type_goes(c: Source, s: State, allowed: Seq<Seq<char>>, strict: bool)
    requires
        good(c, s),
    ensures
        type_goes(c, s, grammar::parse_type(c, s, allowed, strict)),
    decreases c.toks.len() - s.pos, 2nat,
{
    broadcast use group_steps;

    reveal(grammar::parse_type);
    reveal(grammar::parse_array_type);
    reveal(grammar::tuple_type_loop);
    let at = grammar::span(c, s);
    let s1 = grammar::bump(c, s);
    match grammar::kind(c, s) {
        TokenKindView::Ident(name) => {
            if name == "Array"@ && !grammar::has_name(allowed, "Array"@) && grammar::kind_at(
                c,
                s.pos + 1,
            ) is LBracket {
                array_type_goes(c, s, allowed, strict);
            } else {
                type_of_name_goes(c, s1, name, at, allowed, strict);
            }
        },
        TokenKindView::Star => {
            parse_type_goes(c, s1, allowed, strict);
            match grammar::parse_type(c, s1, allowed, strict) {
                (Some((t, sp)), s2) => {
                    assert(c.toks[s.pos].span.end <= c.toks[s1.pos].span.start);
                    assert(Span { start: at.start, end: sp.end }.ordered());
                },
                _ => {},
            }
        },
        TokenKindView::Question => {
            parse_type_goes(c, s1, allowed, strict);
            match grammar::parse_type(c, s1, allowed, strict) {
                (Some((t, sp)), s2) => {
                    assert(c.toks[s.pos].span.end <= c.toks[s1.pos].span.start);
                    assert(Span { start: at.start, end: sp.end }.ordered());
                },
                _ => {},
            }
        },
        TokenKindView::Hash => {
            match grammar::expect(c, s1, TokenKindView::LParen, "`(` after `#` in a tuple type"@) {
                (Some(_), s2) => {
                    tuple_type_goes(c, grammar::adv(s1, s2), allowed, strict, Seq::empty());
                    match grammar::tuple_type_loop(
                        c,
                        grammar::adv(s1, s2),
                        allowed,
                        strict,
                        Seq::empty(),
                    ) {
                        (Some(fields), s3) => {
                            assert(c.toks[s.pos].span.end <= c.toks[s3.pos].span.start);
                        },
                        _ => {},
                    }
                },
                _ => {},
            }
        },
        _ => {},
    }
}

proof fn array_type_goes(c: Source, s: State, allowed: Seq<Seq<char>>, strict: bool)
    requires
        good(c, s),
        !(grammar::kind(c, s) is Eof),
    ensures
        type_goes(c, s, grammar::parse_array_type(c, s, allowed, strict)),
    decreases c.toks.len() - s.pos, 1nat,
{
    broadcast use group_steps;

    reveal(grammar::parse_type);
    reveal(grammar::parse_array_type);
    let s1 = grammar::bump(c, grammar::bump(c, s));
    let s2 = grammar::adv(grammar::bump(c, s), s1);
    parse_type_goes(c, s2, allowed, strict);
    match grammar::parse_type(c, s2, allowed, strict) {
        (Some((t, _)), s3) => {
            assert(c.toks[s.pos].span.end <= c.toks[s3.pos].span.start);
        },
        _ => {},
    }
}

proof fn tuple_type_goes(
    c: Source,
    s: State,
    allowed: Seq<Seq<char>>,
    strict: bool,
    fields: Seq<(Option<Seq<char>>, TypeView)>,
)
    requires
        good(c, s),
    ensures
        went(c, s, grammar::tuple_type_loop(c, s, allowed, strict, fields).1),
        match grammar::tuple_type_loop(c, s, allowed, strict, fields).0 {
            Some(_) => s.pos < grammar::tuple_type_loop(c, s, allowed, strict, fields).1.pos,
            None => told(c, s, grammar::tuple_type_loop(c, s, allowed, strict, fields).1),
        },
    decreases c.toks.len() - s.pos, 3nat,
{
    broadcast use group_steps;

    reveal(grammar::parse_type);
    reveal(grammar::tuple_type_loop);
    let named = grammar::kind(c, s) is Ident && grammar::kind_at(c, s.pos + 1) is Colon;
    let s1 = if named {
        grammar::adv(s, grammar::bump(c, grammar::bump(c, s)))
    } else {
        s
    };
    let name = if named {
        Some(grammar::kind(c, s)->Ident_0)
    } else {
        None
    };
    parse_type_goes(c, s1, allowed, strict);
    match grammar::parse_type(c, s1, allowed, strict) {
        (Some((t, sp)), s2) => {
            if !ty::void_like(t) && grammar::kind(c, s2) is Comma && s2.pos > s.pos {
                tuple_type_goes(
                    c,
                    grammar::bump(c, s2),
                    allowed,
                    strict,
                    fields.push((name, t)),
                );
            }
        },
        _ => {},
    }
}

pub(crate) broadcast proof fn types_go(c: Source, s: State, allowed: Seq<Seq<char>>, strict: bool)
    requires
        good(c, s),
    ensures
        #![trigger grammar::parse_type(c, s, allowed, strict)]
        went(c, s, grammar::parse_type(c, s, allowed, strict).1),
        match grammar::parse_type(c, s, allowed, strict).0 {
            Some(x) => within(c, s, grammar::parse_type(c, s, allowed, strict).1, x.1),
            None => told(c, s, grammar::parse_type(c, s, allowed, strict).1),
        },
{
    parse_type_goes(c, s, allowed, strict);
}

pub(crate) broadcast proof fn let_ann_goes(c: Source, s: State, allowed: Seq<Seq<char>>)
    requires
        good(c, s),
    ensures
        #![trigger grammar::parse_let_ann(c, s, allowed)]
        went(c, s, grammar::parse_let_ann(c, s, allowed).1),
{
    broadcast use {group_steps, types_go};

    reveal(grammar::parse_let_ann);
}

pub(crate) broadcast proof fn types_loop_goes(c: Source, s: State, args: Seq<TypeView>)
    requires
        good(c, s),
    ensures
        #![trigger grammar::types_loop(c, s, args)]
        went(c, s, grammar::types_loop(c, s, args).1),
        match grammar::types_loop(c, s, args).0 {
            Some(_) => s.pos < grammar::types_loop(c, s, args).1.pos,
            None => told(c, s, grammar::types_loop(c, s, args).1),
        },
    decreases c.toks.len() - s.pos,
{
    broadcast use {group_steps, types_go};

    reveal(grammar::types_loop);
    match grammar::parse_type(c, s, Seq::empty(), false) {
        (Some((t, _)), s1) => {
            if grammar::kind(c, s1) is Comma && s1.pos > s.pos {
                types_loop_goes(c, grammar::bump(c, s1), args.push(t));
            }
        },
        _ => {},
    }
}

pub(crate) broadcast proof fn type_args_go(c: Source, s: State)
    requires
        good(c, s),
    ensures
        #![trigger grammar::parse_type_args(c, s)]
        went(c, s, grammar::parse_type_args(c, s).1),
        match grammar::parse_type_args(c, s).0 {
            Some(x) => places::maybe_ordered(x.1),
            None => told(c, s, grammar::parse_type_args(c, s).1),
        },
{
    broadcast use {group_steps, types_loop_goes};

    reveal(grammar::parse_type_args);
    if grammar::kind(c, s) is ColonColon && grammar::kind_at(c, s.pos + 1) is LBracket {
        let s1 = grammar::bump(c, s);
        let s2 = grammar::bump(c, s1);
        let s3 = grammar::types_loop(c, s2, Seq::empty()).1;
        assert(c.toks[s1.pos].span.ordered() && c.toks[s3.pos].span.ordered());
        assert(c.toks[s1.pos].span.end <= c.toks[s3.pos].span.start);
    }
}

// ---------------------------------------------------------------------------
// Expressions
// ---------------------------------------------------------------------------

/// What is shown of reading an expression that starts at a state.
spec fn expr_goes(c: Source, from: State, s: State, r: (Option<ExprView>, State)) -> bool {
    &&& went(c, s, r.1)
    &&& match r.0 {
        Some(e) => within(c, from, r.1, e.span()) && places::expr_placed(limit(c.toks), e),
        None => told(c, s, r.1),
    }
}

/// What is shown of reading a list.
pub open spec fn list_goes<A>(c: Source, s: State, r: (Option<A>, State)) -> bool {
    &&& went(c, s, r.1)
    &&& r.0 is None ==> told(c, s, r.1)
}

proof fn parse_expr_goes(c: Source, s: State)
    requires
        good(c, s),
    ensures
        expr_goes(c, s, s, grammar::parse_expr(c, s)),
    decreases c.toks.len() - s.pos, 41nat,
{
    reveal(grammar::parse_level);
    level_goes(c, s, 5);
}

proof fn level_goes(c: Source, s: State, level: nat)
    requires
        good(c, s),
    ensures
        expr_goes(c, s, s, grammar::parse_level(c, s, level)),
    decreases c.toks.len() - s.pos, 20 + 4 * level,
{
    reveal(grammar::parse_level);
    reveal(grammar::parse_operand);
    reveal(grammar::level_loop);
    operand_goes(c, s, level);
    match grammar::parse_operand(c, s, level) {
        (Some(lhs), s1) => level_loop_goes(c, s, grammar::adv(s, s1), level, lhs),
        _ => {},
    }
}

proof fn level_loop_goes(c: Source, from: State, s: State, level: nat, lhs: ExprView)
    requires
        good(c, s),
        good(c, from),
        within(c, from, s, lhs.span()),
        places::expr_placed(limit(c.toks), lhs),
    ensures
        expr_goes(c, from, s, grammar::level_loop(c, s, level, lhs)),
    decreases c.toks.len() - s.pos, 1nat,
{
    broadcast use {group_steps, places::binary_placed};

    reveal(grammar::parse_operand);
    reveal(grammar::level_loop);
    match grammar::operator(grammar::kind(c, s), level) {
        None => {},
        Some(op) => {
            let s1 = grammar::bump(c, s);
            operand_goes(c, s1, level);
            match grammar::parse_operand(c, s1, level) {
                (Some(rhs), s2) => {
                    assert(c.toks[s.pos].span.end <= c.toks[s1.pos].span.start);
                    assert(c.toks[from.pos].span.end <= c.toks[s1.pos].span.start);
                    let both = grammar::binary(op, lhs, rhs);
                    assert(c.toks[s.pos - 1].span.end <= c.toks[s2.pos - 1].span.end);
                    assert(within(c, from, s2, both.span()));
                    under_limit(c, from, s2, both.span());
                    assert(places::expr_placed(limit(c.toks), both));
                    level_loop_goes(c, from, grammar::adv(s1, s2), level, both);
                },
                _ => {},
            }
        },
    }
}

proof fn operand_goes(c: Source, s: State, level: nat)
    requires
        good(c, s),
    ensures
        expr_goes(c, s, s, grammar::parse_operand(c, s, level)),
    decreases c.toks.len() - s.pos, 19 + 4 * level,
{
    reveal(grammar::parse_operand);
    reveal(grammar::parse_unary);
    reveal(grammar::parse_cast);
    reveal(grammar::parse_level);
    if level == 0 {
        unary_goes(c, s);
    } else if level == 3 {
        cast_goes(c, s);
    } else {
        level_goes(c, s, (level - 1) as nat);
    }
}

proof fn cast_goes(c: Source, s: State)
    requires
        good(c, s),
    ensures
        expr_goes(c, s, s, grammar::parse_cast(c, s)),
    decreases c.toks.len() - s.pos, 29nat,
{
    reveal(grammar::parse_cast);
    reveal(grammar::parse_level);
    level_goes(c, s, 2);
    match grammar::parse_level(c, s, 2) {
        (Some(e), s1) => cast_loop_goes(c, s, s1, e),
        _ => {},
    }
}

proof fn cast_loop_goes(c: Source, from: State, s: State, e: ExprView)
    requires
        good(c, s),
        good(c, from),
        within(c, from, s, e.span()),
        places::expr_placed(limit(c.toks), e),
    ensures
        expr_goes(c, from, s, grammar::cast_loop(c, s, e)),
    decreases c.toks.len() - s.pos,
{
    broadcast use {group_steps, types_go, places::cast_placed};

    reveal(grammar::cast_loop);
    if grammar::kind(c, s) is As {
        let s1 = grammar::bump(c, s);
        match grammar::parse_type(c, s1, Seq::empty(), true) {
            (Some((t, sp)), s2) => {
                assert(c.toks[s.pos - 1].span.end <= c.toks[s1.pos].span.start);
                let next = ExprView::Cast {
                    inner: Box::new(e),
                    target: t,
                    target_span: sp,
                    span: Span { start: e.span().start, end: sp.end },
                };
                assert(within(c, from, s2, next.span()));
                under_limit(c, from, s2, next.span());
                assert(places::expr_placed(limit(c.toks), next));
                cast_loop_goes(c, from, grammar::adv(s1, s2), next);
            },
            _ => {},
        }
    }
}

proof fn unary_goes(c: Source, s: State)
    requires
        good(c, s),
    ensures
        expr_goes(c, s, s, grammar::parse_unary(c, s)),
    decreases c.toks.len() - s.pos, 10nat,
{
    broadcast use {group_steps, places::unary_placed, places::literal_placed};

    reveal(grammar::parse_unary);
    reveal(grammar::parse_postfix);
    if grammar::kind(c, s) is Minus || grammar::kind(c, s) is Bang {
        let s1 = grammar::bump(c, s);
        unary_goes(c, s1);
        assert(c.toks[s.pos].span.end <= c.toks[s1.pos].span.start);
        assert(grammar::span(c, s).ordered());
        match grammar::parse_unary(c, s1) {
            (Some(rhs), s2) => {
                let sp = Span { start: grammar::span(c, s).start, end: rhs.span().end };
                assert(within(c, s, s2, sp));
                under_limit(c, s, s2, sp);
            },
            _ => {},
        }
    } else {
        postfix_goes(c, s);
    }
}

proof fn postfix_goes(c: Source, s: State)
    requires
        good(c, s),
    ensures
        expr_goes(c, s, s, grammar::parse_postfix(c, s)),
    decreases c.toks.len() - s.pos, 9nat,
{
    reveal(grammar::parse_postfix);
    reveal(grammar::parse_primary);
    reveal(grammar::postfix_loop);
    primary_goes(c, s);
    match grammar::parse_primary(c, s) {
        (Some(e), s1) => postfix_loop_goes(c, s, grammar::adv(s, s1), e, false),
        _ => {},
    }
}

proof fn postfix_loop_goes(c: Source, from: State, s: State, base: ExprView, indexed: bool)
    requires
        good(c, s),
        good(c, from),
        within(c, from, s, base.span()),
        places::expr_placed(limit(c.toks), base),
    ensures
        expr_goes(c, from, s, grammar::postfix_loop(c, s, base, indexed)),
    decreases c.toks.len() - s.pos, 1nat,
{
    broadcast use {
        group_steps,
        places::index_placed,
        places::field_placed,
        places::tuple_index_placed,
    };

    reveal(grammar::postfix_loop);
    reveal(grammar::parse_level);
    let s1 = grammar::bump(c, s);
    let start = base.span().start;
    if grammar::kind(c, s) is LBracket {
        parse_expr_goes(c, s1);
        match grammar::parse_expr(c, s1) {
            (Some(index), s2) => {
                match grammar::expect(c, s2, TokenKindView::RBracket, "`]`"@) {
                    (Some(close), s3) => {
                        assert(c.toks[s.pos - 1].span.end <= c.toks[s2.pos].span.start);
                        let next = ExprView::Index {
                            base: Box::new(base),
                            index: Box::new(index),
                            span: Span { start, end: close.end },
                        };
                        assert(within(c, from, s3, next.span()));
                        under_limit(c, from, s3, next.span());
                        assert(base.span().end <= index.span().start) by {
                            ends_increase(c, s.pos - 1, s1.pos);
                            assert(c.toks[s.pos - 1].span.end <= c.toks[s1.pos].span.start);
                        }
                        assert(index.span().end <= close.end) by {
                            ends_increase(c, s2.pos - 1, s2.pos);
                        }
                        assert(places::expr_placed(limit(c.toks), next));
                        postfix_loop_goes(c, from, grammar::adv(s1, s3), next, true);
                    },
                    _ => {},
                }
            },
            _ => {},
        }
    } else if grammar::kind(c, s) is Dot && grammar::kind(c, s1) is Backtick {
        let s2 = grammar::bump(c, s1);
        assert(grammar::span(c, s2).ordered());
        match grammar::kind(c, s2) {
            TokenKindView::Int(v) if v >= 0 && v <= u32::MAX => {
                let s3 = grammar::bump(c, s2);
                assert(c.toks[s.pos - 1].span.end <= c.toks[s2.pos].span.start);
                let next = ExprView::TupleIndex {
                    base: Box::new(base),
                    index: v as usize,
                    index_span: grammar::span(c, s2),
                    span: Span { start, end: grammar::span(c, s2).end },
                };
                assert(within(c, from, s3, next.span()));
                under_limit(c, from, s3, next.span());
                assert(places::expr_placed(limit(c.toks), next));
                postfix_loop_goes(c, from, grammar::adv(s1, s3), next, indexed);
            },
            _ => {},
        }
    } else if grammar::kind(c, s) is Dot {
        match grammar::parse_ident(c, s1) {
            (Some((name, sp)), s2) => {
                assert(c.toks[s.pos - 1].span.end <= c.toks[s1.pos].span.start);
                let next = ExprView::Field {
                    base: Box::new(base),
                    name,
                    span: Span { start, end: sp.end },
                };
                assert(within(c, from, s2, next.span()));
                under_limit(c, from, s2, next.span());
                assert(places::expr_placed(limit(c.toks), next));
                postfix_loop_goes(c, from, grammar::adv(s1, s2), next, indexed);
            },
            _ => {},
        }
    } else if indexed && grammar::kind(c, s) is LParen {
        let d = crate::diagnostic::error_view("cannot call an index expression"@).label(
            base.span(),
            "this is `path[index]`, not a generic call"@,
        ).label(
            grammar::span(c, s),
            "explicit type arguments use `::`: write `f::[T](...)`"@,
        ).coded("E103"@);
        assert(d.ordered()) by {
            assert(grammar::span(c, s).ordered());
        }
        reporting_goes(c, s, d);
    }
}

proof fn chain_span(end: nat, path: Seq<Seq<char>>, head: Span, whole: Span)
    requires
        head.ordered(),
        whole.start == head.start,
        head.end <= whole.end <= end,
    ensures
        grammar::field_chain(path, head, whole).span() == head || grammar::field_chain(
            path,
            head,
            whole,
        ).span() == whole,
        places::expr_placed(end, grammar::field_chain(path, head, whole)),
    decreases path.len(),
{
    broadcast use {places::field_placed, places::var_placed};

    if path.len() > 1 {
        chain_span(end, path.drop_last(), head, whole);
    }
}

proof fn exprs_lie_inside(c: Source, s: State, t: State, xs: Seq<ExprView>, sp: Span)
    requires
        good(c, s),
        good(c, t),
        s.pos > 0,
        sp.start <= c.toks[s.pos - 1].span.start,
        c.toks[t.pos].span.end <= sp.end,
        exprs_within(c, s, t, xs),
    ensures
        places::exprs_inside(sp, xs),
{
    ends_increase(c, s.pos - 1, s.pos);
    assert forall|i: int| 0 <= i < xs.len() implies places::expr_inside(
        sp,
        #[trigger] xs[i],
    ) by {
        assert(within(c, s, t, xs[i].span()));
        ends_increase(c, t.pos - 1, t.pos);
    }
}

proof fn named_lie_inside(c: Source, s: State, t: State, xs: Seq<(Seq<char>, Span, ExprView)>, sp: Span)
    requires
        good(c, s),
        good(c, t),
        s.pos > 0,
        sp.start <= c.toks[s.pos - 1].span.start,
        c.toks[t.pos].span.end <= sp.end,
        named_within(c, s, t, xs),
    ensures
        places::named_inside(sp, xs),
{
    ends_increase(c, s.pos - 1, s.pos);
    assert forall|i: int| 0 <= i < xs.len() implies places::expr_inside(
        sp,
        (#[trigger] xs[i]).2,
    ) by {
        assert(within(c, s, t, xs[i].2.span()));
        ends_increase(c, t.pos - 1, t.pos);
    }
}

proof fn elems_lie_inside(c: Source, s: State, t: State, xs: Seq<(Option<Seq<char>>, Span, ExprView)>, sp: Span)
    requires
        good(c, s),
        good(c, t),
        s.pos > 0,
        sp.start <= c.toks[s.pos - 1].span.start,
        c.toks[t.pos].span.end <= sp.end,
        elems_within(c, s, t, xs),
    ensures
        places::elems_inside(sp, xs),
{
    ends_increase(c, s.pos - 1, s.pos);
    assert forall|i: int| 0 <= i < xs.len() implies places::expr_inside(
        sp,
        (#[trigger] xs[i]).2,
    ) by {
        assert(within(c, s, t, xs[i].2.span()));
        ends_increase(c, t.pos - 1, t.pos);
    }
}

#[verifier::rlimit(60)]
proof fn primary_goes(c: Source, s: State)
    requires
        good(c, s),
    ensures
        expr_goes(c, s, s, grammar::parse_primary(c, s)),
    decreases c.toks.len() - s.pos, 8nat,
{
    broadcast use {
        group_steps,
        places::literal_placed,
        places::text_placed,
        places::null_placed,
        places::array_placed,
        places::tuple_placed,
    };

    places::nothing_placed(limit(c.toks));
    reveal(grammar::parse_primary);
    reveal(grammar::parse_named);
    reveal(grammar::exprs_loop);
    reveal(grammar::tuple_loop);
    reveal(grammar::parse_level);
    let s1 = grammar::bump(c, s);
    assert(grammar::span(c, s).ordered());
    ends_increase(c, s.pos, c.toks.len() - 1);
    match grammar::kind(c, s) {
        TokenKindView::Ident(_) => named_goes(c, s),
        TokenKindView::LParen => {
            parse_expr_goes(c, s1);
            assert(c.toks[s.pos].span.end <= c.toks[s1.pos].span.start);
            match grammar::parse_expr(c, s1) {
                (Some(e), s2) => {
                    assert(c.toks[s2.pos - 1].span.end <= c.toks[s2.pos].span.start);
                },
                _ => {},
            }
        },
        TokenKindView::LBracket => {
            if !(grammar::kind(c, s1) is RBracket) {
                exprs_loop_goes(c, s1, s1, Seq::empty(), true);
                let (elems, s2) = grammar::exprs_loop(c, s1, Seq::empty(), true);
                assert(c.toks[s.pos].span.end <= c.toks[s2.pos].span.start);
                ends_increase(c, s2.pos, c.toks.len() - 1);
                let sp = Span { start: grammar::span(c, s).start, end: c.toks[s2.pos].span.end };
                if elems is Some {
                    exprs_lie_inside(c, s1, s2, elems->0, sp);
                }
            } else {
                assert(c.toks[s.pos].span.end <= c.toks[s1.pos].span.start);
                ends_increase(c, s1.pos, c.toks.len() - 1);
            }
        },
        TokenKindView::Hash => {
            match grammar::expect(c, s1, TokenKindView::LParen, "`(` after `#` in a tuple"@) {
                (Some(_), s2) => {
                    let s2 = grammar::adv(s1, s2);
                    tuple_loop_goes(c, s2, s2, Seq::empty());
                    let (elems, s3) = grammar::tuple_loop(c, s2, Seq::empty());
                    assert(c.toks[s.pos].span.end <= c.toks[s3.pos].span.start);
                    ends_increase(c, s3.pos, c.toks.len() - 1);
                    let sp = Span { start: grammar::span(c, s).start, end: c.toks[s3.pos].span.end };
                    if elems is Some {
                        elems_lie_inside(c, s2, s3, elems->0, sp);
                    }
                },
                _ => {},
            }
        },
        TokenKindView::Invalid => {
            assert(c.toks[s.pos].kind is Invalid);
            assert(lex::some_invalid(c.toks));
        },
        _ => {},
    }
}

#[verifier::rlimit(60)]
proof fn named_goes(c: Source, s: State)
    requires
        good(c, s),
        grammar::kind(c, s) is Ident,
    ensures
        expr_goes(c, s, s, grammar::parse_named(c, s)),
    decreases c.toks.len() - s.pos, 7nat,
{
    broadcast use {
        group_steps,
        path_goes,
        type_args_go,
        places::call_placed,
        places::var_placed,
    };

    places::nothing_placed(limit(c.toks));
    reveal(grammar::parse_named);
    reveal(grammar::parse_object_literal);
    reveal(grammar::exprs_loop);
    let at = grammar::span(c, s);
    assert(at.ordered());
    match grammar::parse_path(c, s) {
        (Some(path), s1) => {
            let s1 = grammar::adv(grammar::bump(c, s), s1);
            let whole = Span { start: at.start, end: grammar::prev_end(c, s1) };
            assert(c.toks[s.pos].span.end <= c.toks[s1.pos - 1].span.end) by {
                if s.pos < s1.pos - 1 {
                    assert(c.toks[s1.pos - 1].span.ordered());
                }
            }
            if path.len() == 1 && grammar::kind(c, s1) is LBrace {
                object_literal_goes(c, s, s1, path[0], at);
            } else {
                match grammar::parse_type_args(c, s1) {
                    (Some((type_args, type_args_span)), s2) => {
                        let s2 = grammar::adv(s1, s2);
                        assert(grammar::span(c, s2).ordered());
                        if type_args.len() > 0 && !(grammar::kind(c, s2) is LParen) {
                            let d = crate::diagnostic::error_view(
                                "expected `(...)` after type arguments"@,
                            ).label(
                                grammar::span(c, s2),
                                "explicit type arguments only apply to calls"@,
                            ).noted(
                                "write `f::[T](args)`; `f::[T]` alone is not a value"@,
                            ).coded("E103"@);
                            assert(d.ordered());
                            reporting_goes(c, s2, d);
                        } else if grammar::kind(c, s2) is LParen {
                            let s3 = grammar::bump(c, s2);
                            if !(grammar::kind(c, s3) is RParen) {
                                exprs_loop_goes(c, s3, s3, Seq::empty(), false);
                                let (args, s4) = grammar::exprs_loop(c, s3, Seq::empty(), false);
                                assert(c.toks[s.pos].span.end <= c.toks[s4.pos].span.start);
                                ends_increase(c, s4.pos, c.toks.len() - 1);
                                ends_increase(c, s.pos, s2.pos);
                                let sp = Span { start: at.start, end: c.toks[s4.pos].span.end };
                                if args is Some {
                                    exprs_lie_inside(c, s3, s4, args->0, sp);
                                }
                            } else {
                                assert(c.toks[s.pos].span.end <= c.toks[s3.pos].span.start);
                                ends_increase(c, s3.pos, c.toks.len() - 1);
                            }
                        } else {
                            ends_increase(c, s1.pos - 1, c.toks.len() - 1);
                            chain_span(limit(c.toks), path, at, whole);
                            assert(c.toks[s1.pos - 1].span.end <= c.toks[s2.pos - 1].span.end) by {
                                if s1.pos < s2.pos {
                                    assert(c.toks[s2.pos - 1].span.ordered());
                                }
                            }
                        }
                    },
                    _ => {},
                }
            }
        },
        _ => {},
    }
}

proof fn exprs_go_on(c: Source, from: State, s: State, t: State, xs: Seq<ExprView>)
    requires
        good(c, from),
        good(c, t),
        s.pos <= t.pos,
        exprs_within(c, from, s, xs),
    ensures
        exprs_within(c, from, t, xs),
{
    assert forall|i: int| 0 <= i < xs.len() implies within(c, from, t, (#[trigger] xs[i]).span()) by {
        within_widens(c, from, from, s, t, xs[i].span());
    }
}

proof fn exprs_grow(
    c: Source,
    from: State,
    s: State,
    t: State,
    xs: Seq<ExprView>,
    x: ExprView,
)
    requires
        good(c, from),
        good(c, t),
        from.pos <= s.pos <= t.pos,
        exprs_within(c, from, s, xs),
        within(c, s, t, x.span()),
    ensures
        exprs_within(c, from, t, xs.push(x)),
{
    let all = xs.push(x);
    exprs_go_on(c, from, s, t, xs);
    within_widens(c, from, s, t, t, x.span());
    assert forall|i: int| 0 <= i < all.len() implies within(c, from, t, (#[trigger] all[i]).span()) by {
        if i < xs.len() {
            assert(all[i] == xs[i]);
        }
    }
}

proof fn elems_go_on(c: Source, from: State, s: State, t: State, xs: Seq<(Option<Seq<char>>, Span, ExprView)>)
    requires
        good(c, from),
        good(c, t),
        s.pos <= t.pos,
        elems_within(c, from, s, xs),
    ensures
        elems_within(c, from, t, xs),
{
    assert forall|i: int| 0 <= i < xs.len() implies within(c, from, t, (#[trigger] xs[i]).2.span()) by {
        within_widens(c, from, from, s, t, xs[i].2.span());
    }
}

proof fn elems_grow(
    c: Source,
    from: State,
    s: State,
    m: State,
    t: State,
    xs: Seq<(Option<Seq<char>>, Span, ExprView)>,
    x: (Option<Seq<char>>, Span, ExprView),
)
    requires
        good(c, from),
        good(c, t),
        from.pos <= s.pos <= m.pos <= t.pos,
        elems_within(c, from, s, xs),
        within(c, m, t, x.2.span()),
    ensures
        elems_within(c, from, t, xs.push(x)),
{
    let all = xs.push(x);
    elems_go_on(c, from, s, t, xs);
    within_widens(c, from, m, t, t, x.2.span());
    assert forall|i: int| 0 <= i < all.len() implies within(c, from, t, (#[trigger] all[i]).2.span()) by {
        if i < xs.len() {
            assert(all[i] == xs[i]);
        }
    }
}

proof fn named_go_on(c: Source, from: State, s: State, t: State, xs: Seq<(Seq<char>, Span, ExprView)>)
    requires
        good(c, from),
        good(c, t),
        s.pos <= t.pos,
        named_within(c, from, s, xs),
    ensures
        named_within(c, from, t, xs),
{
    assert forall|i: int| 0 <= i < xs.len() implies within(c, from, t, (#[trigger] xs[i]).2.span()) by {
        within_widens(c, from, from, s, t, xs[i].2.span());
    }
}

proof fn named_grow(
    c: Source,
    from: State,
    s: State,
    m: State,
    t: State,
    xs: Seq<(Seq<char>, Span, ExprView)>,
    x: (Seq<char>, Span, ExprView),
)
    requires
        good(c, from),
        good(c, t),
        from.pos <= s.pos <= m.pos <= t.pos,
        named_within(c, from, s, xs),
        within(c, m, t, x.2.span()),
    ensures
        named_within(c, from, t, xs.push(x)),
{
    let all = xs.push(x);
    named_go_on(c, from, s, t, xs);
    within_widens(c, from, m, t, t, x.2.span());
    assert forall|i: int| 0 <= i < all.len() implies within(c, from, t, (#[trigger] all[i]).2.span()) by {
        if i < xs.len() {
            assert(all[i] == xs[i]);
        }
    }
}

proof fn exprs_loop_goes(c: Source, from: State, s: State, elems: Seq<ExprView>, trailing: bool)
    requires
        good(c, s),
        good(c, from),
        from.pos <= s.pos,
        exprs_within(c, from, s, elems),
    ensures
        list_goes(c, s, grammar::exprs_loop(c, s, elems, trailing)),
        places::exprs_placed(limit(c.toks), elems) && grammar::exprs_loop(c, s, elems, trailing).0 is Some ==> places::exprs_placed(limit(c.toks), grammar::exprs_loop(c, s, elems, trailing).0->0,
        ),
        grammar::exprs_loop(c, s, elems, trailing).0 matches Some(all) ==> exprs_within(
            c,
            from,
            grammar::exprs_loop(c, s, elems, trailing).1,
            all,
        ),
    decreases c.toks.len() - s.pos, 50nat,
{
    broadcast use {group_steps, places::exprs_placed_push};

    reveal(grammar::exprs_loop);
    reveal(grammar::parse_level);
    parse_expr_goes(c, s);
    match grammar::parse_expr(c, s) {
        (Some(e), s1) => {
            exprs_grow(c, from, s, s1, elems, e);
            if grammar::kind(c, s1) is Comma && s1.pos > s.pos {
                let s2 = grammar::bump(c, s1);
                exprs_go_on(c, from, s1, s2, elems.push(e));
                if !(trailing && grammar::kind(c, s2) is RBracket) {
                    exprs_loop_goes(c, from, s2, elems.push(e), trailing);
                }
            }
        },
        _ => {},
    }
}

proof fn tuple_loop_goes(c: Source, from: State, s: State, elems: Seq<(Option<Seq<char>>, Span, ExprView)>)
    requires
        good(c, s),
        good(c, from),
        from.pos <= s.pos,
        elems_within(c, from, s, elems),
    ensures
        list_goes(c, s, grammar::tuple_loop(c, s, elems)),
        places::elems_placed(limit(c.toks), elems) && grammar::tuple_loop(c, s, elems).0 is Some ==> places::elems_placed(limit(c.toks), grammar::tuple_loop(c, s, elems).0->0,
        ),
        grammar::tuple_loop(c, s, elems).0 matches Some(all) ==> elems_within(
            c,
            from,
            grammar::tuple_loop(c, s, elems).1,
            all,
        ),
    decreases c.toks.len() - s.pos, 50nat,
{
    broadcast use {group_steps, places::elems_placed_push};

    reveal(grammar::tuple_loop);
    reveal(grammar::parse_level);
    let at = grammar::span(c, s);
    let named = grammar::kind(c, s) is Ident && grammar::kind_at(c, s.pos + 1) is Colon;
    let name = if named {
        Some(grammar::kind(c, s)->Ident_0)
    } else {
        None
    };
    let s1 = if named {
        grammar::adv(s, grammar::bump(c, grammar::bump(c, s)))
    } else {
        s
    };
    parse_expr_goes(c, s1);
    match grammar::parse_expr(c, s1) {
        (Some(e), s2) => {
            elems_grow(c, from, s, s1, s2, elems, (name, at, e));
            if grammar::kind(c, s2) is Comma && s2.pos > s.pos {
                elems_go_on(c, from, s2, grammar::bump(c, s2), elems.push((name, at, e)));
                tuple_loop_goes(c, from, grammar::bump(c, s2), elems.push((name, at, e)));
            }
        },
        _ => {},
    }
}

proof fn object_literal_is(c: Source, s: State, name: Seq<char>, at: Span)
    requires
        0 <= s.pos < c.toks.len(),
        grammar::kind(c, s) is LBrace,
    ensures
        grammar::parse_object_literal(c, s, name, at) == match grammar::fields_loop(
            c,
            grammar::bump(c, s),
            Seq::empty(),
        ) {
            (None, s1) => (None, s1),
            (Some(fields), s1) => match grammar::expect(
                c,
                s1,
                TokenKindView::RBrace,
                "`}` after object literal"@,
            ) {
                (None, s2) => (None, s2),
                (Some(close), s2) => (
                    Some(
                        ExprView::ObjectLiteral {
                            name,
                            name_span: at,
                            fields,
                            span: Span { start: at.start, end: close.end },
                        },
                    ),
                    s2,
                ),
            },
        },
{
    reveal(grammar::parse_object_literal);
    reveal(grammar::fields_loop);
}

proof fn object_literal_goes(c: Source, from: State, s: State, name: Seq<char>, at: Span)
    requires
        good(c, s),
        good(c, from),
        from.pos < s.pos,
        at == c.toks[from.pos].span,
        grammar::kind(c, s) is LBrace,
    ensures
        expr_goes(c, from, s, grammar::parse_object_literal(c, s, name, at)),
    decreases c.toks.len() - s.pos, 6nat,
{
    broadcast use places::object_placed;

    places::nothing_placed(limit(c.toks));
    object_literal_is(c, s, name, at);
    let s1 = grammar::bump(c, s);
    bump_goes(c, s);
    fields_loop_goes(c, s1, s1, Seq::empty());
    let (fields, s2) = grammar::fields_loop(c, s1, Seq::empty());
    expect_goes(c, s2, TokenKindView::RBrace, "`}` after object literal"@);
    assert(at.ordered());
    assert(c.toks[from.pos].span.end <= c.toks[s2.pos].span.start);
    ends_increase(c, s2.pos, c.toks.len() - 1);
    ends_increase(c, from.pos, s.pos);
    let sp = Span { start: at.start, end: c.toks[s2.pos].span.end };
    if fields is Some {
        named_lie_inside(c, s1, s2, fields->0, sp);
    }
}

proof fn fields_loop_goes(c: Source, from: State, s: State, fields: Seq<(Seq<char>, Span, ExprView)>)
    requires
        good(c, s),
        good(c, from),
        from.pos <= s.pos,
        named_within(c, from, s, fields),
    ensures
        list_goes(c, s, grammar::fields_loop(c, s, fields)),
        places::named_placed(limit(c.toks), fields) && grammar::fields_loop(c, s, fields).0 is Some ==> places::named_placed(limit(c.toks), grammar::fields_loop(c, s, fields).0->0,
        ),
        grammar::fields_loop(c, s, fields).0 matches Some(all) ==> named_within(
            c,
            from,
            grammar::fields_loop(c, s, fields).1,
            all,
        ),
    decreases c.toks.len() - s.pos, 50nat,
{
    broadcast use {group_steps, places::named_placed_push};

    reveal(grammar::fields_loop);
    reveal(grammar::parse_level);
    if !(grammar::kind(c, s) is Eof || grammar::kind(c, s) is RBrace) {
        match grammar::parse_ident(c, s) {
            (Some((field, sp)), s1) => {
                match grammar::expect_field_separator(c, s1) {
                    (Some(_), s2) => {
                        let s2 = grammar::adv(s, s2);
                        parse_expr_goes(c, s2);
                        match grammar::parse_expr(c, s2) {
                            (Some(value), s3) => {
                                let next = fields.push((field, sp, value));
                                named_grow(c, from, s, s2, s3, fields, (field, sp, value));
                                assert(grammar::span(c, s3).ordered());
                                if grammar::kind(c, s3) is Comma && s3.pos > s.pos {
                                    named_go_on(c, from, s3, grammar::bump(c, s3), next);
                                    fields_loop_goes(c, from, grammar::bump(c, s3), next);
                                }
                            },
                            _ => {},
                        }
                    },
                    _ => {},
                }
            },
            _ => {},
        }
    }
}

pub(crate) broadcast proof fn exprs_go(c: Source, s: State)
    requires
        good(c, s),
    ensures
        #![trigger grammar::parse_expr(c, s)]
        went(c, s, grammar::parse_expr(c, s).1),
        match grammar::parse_expr(c, s).0 {
            Some(e) => within(c, s, grammar::parse_expr(c, s).1, e.span()) && places::expr_placed(limit(c.toks), e),
            None => told(c, s, grammar::parse_expr(c, s).1),
        },
{
    parse_expr_goes(c, s);
}

pub(crate) broadcast proof fn postfixes_go(c: Source, s: State)
    requires
        good(c, s),
    ensures
        #![trigger grammar::parse_postfix(c, s)]
        went(c, s, grammar::parse_postfix(c, s).1),
        match grammar::parse_postfix(c, s).0 {
            Some(e) => within(c, s, grammar::parse_postfix(c, s).1, e.span()) && places::expr_placed(limit(c.toks), e),
            None => told(c, s, grammar::parse_postfix(c, s).1),
        },
{
    postfix_goes(c, s);
}

// ---------------------------------------------------------------------------
// Statements
// ---------------------------------------------------------------------------

pub(crate) broadcast proof fn pattern_goes(c: Source, s: State, names: Seq<DestructureBindingView>)
    requires
        good(c, s),
    ensures
        #![trigger grammar::pattern_loop(c, s, names)]
        went(c, s, grammar::pattern_loop(c, s, names).1),
        match grammar::pattern_loop(c, s, names).0 {
            Some(all) => places::bindings_placed(names) ==> places::bindings_placed(all),
            None => told(c, s, grammar::pattern_loop(c, s, names).1),
        },
    decreases c.toks.len() - s.pos,
{
    broadcast use group_steps;

    reveal(grammar::pattern_loop);
    assert(grammar::span(c, s).ordered());
    match grammar::parse_ident(c, s) {
        (Some((first, sp)), s1) => {
            assert(grammar::kind(c, s1) is Colon ==> grammar::span(
                c,
                grammar::bump(c, s1),
            ).ordered());
            let (b, s2) = if grammar::kind(c, s1) is Colon {
                match grammar::parse_ident(c, grammar::bump(c, s1)) {
                    (None, s2) => (None, s2),
                    (Some((name, at)), s2) => (
                        Some(
                            DestructureBindingView {
                                field: Some(first),
                                binding: name,
                                binding_span: at,
                            },
                        ),
                        s2,
                    ),
                }
            } else {
                (
                    Some(
                        DestructureBindingView { field: None, binding: first, binding_span: sp },
                    ),
                    s1,
                )
            };
            if b is Some && grammar::kind(c, s2) is Comma && s2.pos > s.pos {
                pattern_goes(c, grammar::bump(c, s2), names.push(b->0));
            }
        },
        _ => {},
    }
}

/// Whether the places of what a binding gives names to start no later than they
/// end.
pub open spec fn target_placed(t: Target) -> bool {
    match t {
        Target::Name(_, at) => at.ordered(),
        Target::Fields(bs) => places::bindings_placed(bs),
    }
}

pub(crate) broadcast proof fn target_goes(c: Source, s: State)
    requires
        good(c, s),
    ensures
        #![trigger grammar::parse_target(c, s)]
        went(c, s, grammar::parse_target(c, s).1),
        match grammar::parse_target(c, s).0 {
            Some(t) => target_placed(t),
            None => told(c, s, grammar::parse_target(c, s).1),
        },
{
    broadcast use {group_steps, pattern_goes};

    reveal(grammar::parse_target);
    assert(grammar::span(c, s).ordered());
}

pub(crate) broadcast proof fn binding_goes(
    c: Source,
    s: State,
    allowed: Seq<Seq<char>>,
    bound: BindingKind,
)
    requires
        good(c, s),
    ensures
        #![trigger grammar::parse_binding(c, s, allowed, bound)]
        went(c, s, grammar::parse_binding(c, s, allowed, bound).1),
        match grammar::parse_binding(c, s, allowed, bound).0 {
            Some(b) => target_placed(b.target) && places::expr_placed(limit(c.toks), b.value),
            None => told(c, s, grammar::parse_binding(c, s, allowed, bound).1),
        },
{
    broadcast use {group_steps, target_goes, let_ann_goes, exprs_go};

    reveal(grammar::parse_binding);
}

pub(crate) broadcast proof fn expr_stmt_goes(c: Source, s: State)
    requires
        good(c, s),
    ensures
        #![trigger grammar::parse_expr_stmt(c, s)]
        went(c, s, grammar::parse_expr_stmt(c, s).1),
        match grammar::parse_expr_stmt(c, s).0 {
            Some(x) => places::stmt_placed(limit(c.toks), x),
            None => told(c, s, grammar::parse_expr_stmt(c, s).1),
        },
{
    broadcast use {group_steps, exprs_go, places::expr_stmt_placed};

    reveal(grammar::parse_expr_stmt);
}

proof fn assignment_placed(most: nat, target: ExprView, value: ExprView, end: usize)
    requires
        places::expr_placed(most, target),
        places::expr_placed(most, value),
    ensures
        grammar::assignment(target, value, end) matches Some(x) ==> places::stmt_placed(most, x),
{
    broadcast use {places::group_exprs_placed, places::group_stmts_placed};

}

pub(crate) broadcast proof fn named_stmt_goes(c: Source, s: State)
    requires
        good(c, s),
    ensures
        #![trigger grammar::parse_named_stmt(c, s)]
        went(c, s, grammar::parse_named_stmt(c, s).1),
        match grammar::parse_named_stmt(c, s).0 {
            Some(x) => places::stmt_placed(limit(c.toks), x),
            None => told(c, s, grammar::parse_named_stmt(c, s).1),
        },
{
    broadcast use {group_steps, exprs_go, postfixes_go, expr_stmt_goes};

    reveal(grammar::parse_named_stmt);
    match grammar::parse_postfix(c, s) {
        (Some(target), s1) => {
            match grammar::parse_expr(c, grammar::bump(c, s1)) {
                (Some(value), s2) => {
                    match grammar::expect(c, s2, TokenKindView::Semi, "`;`"@) {
                        (Some(semi), _) => assignment_placed(limit(c.toks), target, value, semi.end),
                        _ => {},
                    }
                },
                _ => {},
            }
        },
        _ => {},
    }
}

pub(crate) broadcast proof fn return_goes(c: Source, s: State)
    requires
        good(c, s),
    ensures
        #![trigger grammar::parse_return(c, s)]
        went(c, s, grammar::parse_return(c, s).1),
        match grammar::parse_return(c, s).0 {
            Some(x) => places::stmt_placed(limit(c.toks), x),
            None => told(c, s, grammar::parse_return(c, s).1),
        },
{
    broadcast use {group_steps, exprs_go, places::return_placed};

    reveal(grammar::parse_return);
}

pub(crate) broadcast proof fn condition_goes(c: Source, s: State, what: Seq<char>)
    requires
        good(c, s),
    ensures
        #![trigger grammar::parse_condition(c, s, what)]
        went(c, s, grammar::parse_condition(c, s, what).1),
        match grammar::parse_condition(c, s, what).0 {
            Some(e) => s.pos < grammar::parse_condition(c, s, what).1.pos && places::expr_placed(limit(c.toks), e),
            None => told(c, s, grammar::parse_condition(c, s, what).1),
        },
{
    broadcast use {group_steps, exprs_go};

    reveal(grammar::parse_condition);
}

pub(crate) broadcast proof fn arm_pattern_goes(c: Source, s: State)
    requires
        good(c, s),
    ensures
        #![trigger grammar::parse_arm_pattern(c, s)]
        went(c, s, grammar::parse_arm_pattern(c, s).1),
        match grammar::parse_arm_pattern(c, s).0 {
            Some(p) => s.pos < grammar::parse_arm_pattern(c, s).1.pos && p.1.ordered()
                && places::names_placed(p.2),
            None => told(c, s, grammar::parse_arm_pattern(c, s).1),
        },
{
    broadcast use {group_steps, path_goes, idents_loop_goes};

    reveal(grammar::parse_arm_pattern);
    let at = grammar::span(c, s);
    assert(at.ordered());
    match grammar::parse_path(c, s) {
        (Some(path), s1) => {
            assert(c.toks[s.pos].span.end <= c.toks[s1.pos - 1].span.end) by {
                if s.pos < s1.pos - 1 {
                    assert(c.toks[s1.pos - 1].span.ordered());
                }
            }
            assert(Span { start: at.start, end: grammar::prev_end(c, s1) }.ordered());
        },
        _ => {},
    }
}

pub(crate) broadcast proof fn recover_stmt_goes(c: Source, s: State)
    requires
        good(c, s),
    ensures
        #![trigger grammar::recover_stmt(c, s)]
        went(c, s, grammar::recover_stmt(c, s)),
        grammar::recover_stmt(c, s).diags == s.diags,
    decreases c.toks.len() - s.pos,
{
    broadcast use group_steps;

    match grammar::kind(c, s) {
        TokenKindView::Eof
        | TokenKindView::RBrace
        | TokenKindView::Let
        | TokenKindView::Val
        | TokenKindView::Var
        | TokenKindView::Function
        | TokenKindView::If
        | TokenKindView::While
        | TokenKindView::Match
        | TokenKindView::Break
        | TokenKindView::Continue
        | TokenKindView::Return
        | TokenKindView::Type
        | TokenKindView::Semi => {},
        _ => recover_stmt_goes(c, grammar::bump(c, s)),
    }
}

pub(crate) broadcast proof fn recover_item_goes(c: Source, s: State)
    requires
        good(c, s),
    ensures
        #![trigger grammar::recover_item(c, s)]
        went(c, s, grammar::recover_item(c, s)),
        grammar::recover_item(c, s).diags == s.diags,
    decreases c.toks.len() - s.pos,
{
    broadcast use group_steps;

    match grammar::kind(c, s) {
        TokenKindView::Eof
        | TokenKindView::Let
        | TokenKindView::Val
        | TokenKindView::Var
        | TokenKindView::Function
        | TokenKindView::Type
        | TokenKindView::Semi
        | TokenKindView::RBrace => {},
        _ => recover_item_goes(c, grammar::bump(c, s)),
    }
}

/// Reading a statement takes no token and no report back, its reports can be
/// rendered, the places in it start no later than they end, and a statement that
/// cannot be read is reported, by the parser or by the lexer.
pub proof fn unread_statements_are_reported(c: Source, s: State, allowed: Seq<Seq<char>>)
    requires
        good(c, s),
    ensures
        went(c, s, grammar::parse_stmt(c, s, allowed).1),
        match grammar::parse_stmt(c, s, allowed).0 {
            Some(x) => places::stmt_placed(limit(c.toks), x),
            None => told(c, s, grammar::parse_stmt(c, s, allowed).1),
        },
    decreases c.toks.len() - s.pos, 20nat,
{
    broadcast use {
        group_steps,
        binding_goes,
        expr_stmt_goes,
        named_stmt_goes,
        return_goes,
        places::let_placed,
        places::destructure_placed,
        places::break_placed,
        places::continue_placed,
    };

    reveal(grammar::parse_stmt);
    reveal(grammar::parse_if);
    reveal(grammar::parse_while);
    reveal(grammar::parse_match);
    assert(grammar::span(c, s).ordered());
    assert(grammar::span(c, grammar::bump(c, s)).ordered());
    match grammar::kind(c, s) {
        TokenKindView::If => if_goes(c, s, allowed),
        TokenKindView::While => while_goes(c, s, allowed),
        TokenKindView::Match => match_goes(c, s, allowed),
        _ => {},
    }
}

proof fn if_goes(c: Source, s: State, allowed: Seq<Seq<char>>)
    requires
        good(c, s),
        grammar::kind(c, s) is If,
    ensures
        list_goes(c, s, grammar::parse_if(c, s, allowed)),
        grammar::parse_if(c, s, allowed).0 matches Some(x) ==> places::stmt_placed(limit(c.toks), x),
    decreases c.toks.len() - s.pos, 19nat,
{
    broadcast use {group_steps, condition_goes, places::if_placed};

    reveal(grammar::parse_if);
    reveal(grammar::parse_branch);
    let s0 = grammar::bump(c, s);
    match grammar::parse_condition(c, s0, "`(` after `if`"@) {
        (Some(condition), s1) => {
            let s1 = grammar::adv(s0, s1);
            branch_goes(c, s1, allowed);
            match grammar::parse_branch(c, s1, allowed) {
                (Some(then_body), s2) => {
                    let s2 = grammar::adv(s1, s2);
                    if grammar::kind(c, s2) is Else {
                        branch_goes(c, grammar::bump(c, s2), allowed);
                    }
                },
                _ => {},
            }
        },
        _ => {},
    }
}

proof fn while_goes(c: Source, s: State, allowed: Seq<Seq<char>>)
    requires
        good(c, s),
        grammar::kind(c, s) is While,
    ensures
        list_goes(c, s, grammar::parse_while(c, s, allowed)),
        grammar::parse_while(c, s, allowed).0 matches Some(x) ==> places::stmt_placed(limit(c.toks), x),
    decreases c.toks.len() - s.pos, 19nat,
{
    broadcast use {group_steps, condition_goes, places::while_placed};

    reveal(grammar::parse_while);
    reveal(grammar::parse_branch);
    let s0 = grammar::bump(c, s);
    match grammar::parse_condition(c, s0, "`(` after `while`"@) {
        (Some(condition), s1) => branch_goes(c, grammar::adv(s0, s1), allowed),
        _ => {},
    }
}

proof fn match_goes(c: Source, s: State, allowed: Seq<Seq<char>>)
    requires
        good(c, s),
        grammar::kind(c, s) is Match,
    ensures
        list_goes(c, s, grammar::parse_match(c, s, allowed)),
        grammar::parse_match(c, s, allowed).0 matches Some(x) ==> places::stmt_placed(limit(c.toks), x),
    decreases c.toks.len() - s.pos, 19nat,
{
    broadcast use {group_steps, condition_goes, places::match_placed};

    reveal(grammar::parse_match);
    places::nothing_placed(limit(c.toks));
    reveal(grammar::arms_loop);
    reveal(grammar::parse_block);
    let s0 = grammar::bump(c, s);
    match grammar::parse_condition(c, s0, "`(` after `match`"@) {
        (Some(scrutinee), s1) => {
            match grammar::expect(c, s1, TokenKindView::LBrace, "`{` before the match arms"@) {
                (Some(_), s2) => {
                    let s2 = grammar::adv(s0, s2);
                    arms_go(c, s2, allowed, Seq::empty());
                    match grammar::arms_loop(c, s2, allowed, Seq::empty()) {
                        (Some(arms), s3) => {
                            let s3 = grammar::adv(s2, s3);
                            if grammar::kind(c, s3) is Else {
                                block_goes(c, grammar::bump(c, s3), allowed);
                            }
                        },
                        _ => {},
                    }
                },
                _ => {},
            }
        },
        _ => {},
    }
}

pub(crate) proof fn arms_go(c: Source, s: State, allowed: Seq<Seq<char>>, arms: Seq<MatchArmView>)
    requires
        good(c, s),
    ensures
        list_goes(c, s, grammar::arms_loop(c, s, allowed, arms)),
        places::arms_placed(limit(c.toks), arms) ==> (grammar::arms_loop(c, s, allowed, arms).0 matches Some(
            all,
        ) ==> places::arms_placed(limit(c.toks), all)),
    decreases c.toks.len() - s.pos, 24nat,
{
    broadcast use {group_steps, arm_pattern_goes, places::arms_placed_push};

    reveal(grammar::arms_loop);
    reveal(grammar::parse_block);
    if !(grammar::kind(c, s) is Eof || grammar::kind(c, s) is RBrace || grammar::kind(c, s)
        is Else) {
        let start = grammar::span(c, s).start;
        match grammar::parse_arm_pattern(c, s) {
            (Some((path, path_span, bindings)), s1) => {
                let s1 = grammar::adv(s, s1);
                block_goes(c, s1, allowed);
                match grammar::parse_block(c, s1, allowed) {
                    (Some(body), s2) => {
                        let next = arms.push(
                            MatchArmView {
                                path,
                                path_span,
                                bindings,
                                body,
                                span: Span { start, end: grammar::prev_end(c, s2) },
                            },
                        );
                        if s2.pos > s.pos {
                            arms_go(c, s2, allowed, next);
                        }
                    },
                    _ => {},
                }
            },
            _ => {},
        }
    }
}

pub(crate) proof fn block_goes(c: Source, s: State, allowed: Seq<Seq<char>>)
    requires
        good(c, s),
    ensures
        list_goes(c, s, grammar::parse_block(c, s, allowed)),
        grammar::parse_block(c, s, allowed).0 matches Some(b) ==> places::stmts_placed(limit(c.toks), b),
    decreases c.toks.len() - s.pos, 21nat,
{
    broadcast use group_steps;

    reveal(grammar::parse_block);
    places::nothing_placed(limit(c.toks));
    reveal(grammar::block_loop);
    match grammar::expect(c, s, TokenKindView::LBrace, "`{`"@) {
        (Some(_), s1) => block_loop_goes(c, s1, allowed, Seq::empty()),
        _ => {},
    }
}

pub(crate) proof fn block_loop_goes(c: Source, s: State, allowed: Seq<Seq<char>>, body: Seq<StmtView>)
    requires
        good(c, s),
    ensures
        went(c, s, grammar::block_loop(c, s, allowed, body).1),
        places::stmts_placed(limit(c.toks), body) ==> places::stmts_placed(limit(c.toks), grammar::block_loop(c, s, allowed, body).0,
        ),
    decreases c.toks.len() - s.pos, 23nat,
{
    broadcast use {group_steps, recover_stmt_goes, places::stmts_placed_push};

    reveal(grammar::block_loop);
    reveal(grammar::parse_stmt);
    if !(grammar::kind(c, s) is Eof || grammar::kind(c, s) is RBrace) {
        unread_statements_are_reported(c, s, allowed);
        let (next, s1) = match grammar::parse_stmt(c, s, allowed) {
            (Some(stmt), s1) => (body.push(stmt), s1),
            (None, s1) => (body, grammar::force(c, s1, grammar::recover_stmt(c, s1))),
        };
        if s1.pos > s.pos {
            block_loop_goes(c, s1, allowed, next);
        }
    }
}

pub(crate) proof fn branch_goes(c: Source, s: State, allowed: Seq<Seq<char>>)
    requires
        good(c, s),
    ensures
        list_goes(c, s, grammar::parse_branch(c, s, allowed)),
        grammar::parse_branch(c, s, allowed).0 matches Some(b) ==> places::stmts_placed(limit(c.toks), b),
    decreases c.toks.len() - s.pos, 22nat,
{
    broadcast use places::stmts_placed_push;

    reveal(grammar::parse_branch);
    places::nothing_placed(limit(c.toks));
    reveal(grammar::parse_block);
    reveal(grammar::parse_stmt);
    if grammar::kind(c, s) is LBrace {
        block_goes(c, s, allowed);
    } else {
        unread_statements_are_reported(c, s, allowed);
    }
}

pub(crate) broadcast proof fn blocks_go(c: Source, s: State, allowed: Seq<Seq<char>>, body: Seq<StmtView>)
    requires
        good(c, s),
    ensures
        #![trigger grammar::block_loop(c, s, allowed, body)]
        went(c, s, grammar::block_loop(c, s, allowed, body).1),
        places::stmts_placed(limit(c.toks), body) ==> places::stmts_placed(limit(c.toks), grammar::block_loop(c, s, allowed, body).0,
        ),
{
    block_loop_goes(c, s, allowed, body);
}

// ---------------------------------------------------------------------------
// Items
// ---------------------------------------------------------------------------

pub(crate) broadcast proof fn use_goes(c: Source, s: State)
    requires
        good(c, s),
    ensures
        #![trigger grammar::parse_use(c, s)]
        went(c, s, grammar::parse_use(c, s).1),
        match grammar::parse_use(c, s).0 {
            Some(x) => places::item_placed(limit(c.toks), x),
            None => told(c, s, grammar::parse_use(c, s).1),
        },
{
    broadcast use {group_steps, path_goes, idents_loop_goes};

    reveal(grammar::parse_use);
    assert(grammar::span(c, s).ordered());
}

pub(crate) broadcast proof fn param_goes(c: Source, s: State, allowed: Seq<Seq<char>>)
    requires
        good(c, s),
    ensures
        #![trigger grammar::parse_param(c, s, allowed)]
        went(c, s, grammar::parse_param(c, s, allowed).1),
        match grammar::parse_param(c, s, allowed).0 {
            Some(p) => p.name_span.ordered(),
            None => told(c, s, grammar::parse_param(c, s, allowed).1),
        },
{
    broadcast use {group_steps, types_go};

    reveal(grammar::parse_param);
    assert(grammar::span(c, s).ordered());
    match grammar::parse_ident(c, s) {
        (Some((name, name_span)), s1) => {
            let d = crate::diagnostic::error_view(
                "parameter `"@ + name + "` is missing a type"@,
            ).label(name_span, "declared here"@).label(
                grammar::span(c, s1),
                "expected `: type` here"@,
            ).noted("write `name: type`, e.g. `a: i64`"@).coded("E104"@);
            assert(d.ordered()) by {
                assert(grammar::span(c, s1).ordered());
                assert(name_span.ordered());
            }
            reporting_goes(c, s1, d);
        },
        _ => {},
    }
}

pub(crate) broadcast proof fn params_loop_goes(
    c: Source,
    s: State,
    allowed: Seq<Seq<char>>,
    params: Seq<ParamView>,
)
    requires
        good(c, s),
    ensures
        #![trigger grammar::params_loop(c, s, allowed, params)]
        went(c, s, grammar::params_loop(c, s, allowed, params).1),
        match grammar::params_loop(c, s, allowed, params).0 {
            Some(all) => places::params_placed(params) ==> places::params_placed(all),
            None => told(c, s, grammar::params_loop(c, s, allowed, params).1),
        },
    decreases c.toks.len() - s.pos,
{
    broadcast use {group_steps, param_goes};

    reveal(grammar::params_loop);
    match grammar::parse_param(c, s, allowed) {
        (Some(p), s1) => {
            if grammar::kind(c, s1) is Comma && s1.pos > s.pos {
                params_loop_goes(c, grammar::bump(c, s1), allowed, params.push(p));
            }
        },
        _ => {},
    }
}

pub(crate) broadcast proof fn bound_goes(c: Source, s: State)
    requires
        good(c, s),
    ensures
        #![trigger grammar::parse_bound(c, s)]
        went(c, s, grammar::parse_bound(c, s).1),
        grammar::parse_bound(c, s).0 is None ==> told(c, s, grammar::parse_bound(c, s).1),
{
    broadcast use group_steps;

    reveal(grammar::parse_bound);
    if grammar::kind(c, s) is Extends {
        let s1 = grammar::bump(c, s);
        assert(grammar::span(c, s1).ordered());
        match grammar::kind(c, s1) {
            TokenKindView::Ident(name) => {
                let d = crate::diagnostic::error_view("unknown bound `"@ + name + "`"@).label(
                    grammar::span(c, s1),
                    "expected `Numeric` or `Comparable`"@,
                ).noted("write `T extends Numeric` or `T extends Comparable`"@).coded("E105"@);
                assert(d.ordered());
                reporting_goes(c, grammar::bump(c, s1), d);
            },
            _ => {},
        }
    }
}

pub(crate) broadcast proof fn type_params_loop_goes(c: Source, s: State, params: Seq<TypeParamView>)
    requires
        good(c, s),
    ensures
        #![trigger grammar::type_params_loop(c, s, params)]
        went(c, s, grammar::type_params_loop(c, s, params).1),
        grammar::type_params_loop(c, s, params).0 is None ==> told(
            c,
            s,
            grammar::type_params_loop(c, s, params).1,
        ),
    decreases c.toks.len() - s.pos,
{
    broadcast use {group_steps, bound_goes};

    reveal(grammar::type_params_loop);
    match grammar::parse_ident(c, s) {
        (Some((name, sp)), s1) => {
            assert(sp.ordered());
            let shadow = grammar::report(
                s1,
                grammar::problem(
                    "type parameter `"@ + name + "` shadows a primitive type"@,
                    sp,
                    "pick another name, e.g. `T`"@,
                    "E104"@,
                ),
            );
            let again = grammar::report(
                s1,
                grammar::problem(
                    "duplicate type parameter `"@ + name + "`"@,
                    sp,
                    "redefined here"@,
                    "E200"@,
                ),
            );
            if ty::named_type(name) is Some {
                if grammar::kind(c, shadow) is Comma && shadow.pos > s.pos {
                    type_params_loop_goes(c, grammar::bump(c, shadow), params);
                }
            } else if grammar::has_name(grammar::param_names(params), name) {
                if grammar::kind(c, again) is Comma && again.pos > s.pos {
                    type_params_loop_goes(c, grammar::bump(c, again), params);
                }
            } else {
                match grammar::parse_bound(c, s1) {
                    (Some(bound), s2) => {
                        if grammar::kind(c, s2) is Comma && s2.pos > s.pos {
                            type_params_loop_goes(
                                c,
                                grammar::bump(c, s2),
                                params.push(TypeParamView { name, span: sp, bound }),
                            );
                        }
                    },
                    _ => {},
                }
            }
        },
        _ => {},
    }
}

pub(crate) broadcast proof fn type_params_go(c: Source, s: State)
    requires
        good(c, s),
    ensures
        #![trigger grammar::parse_type_params(c, s)]
        went(c, s, grammar::parse_type_params(c, s).1),
        grammar::parse_type_params(c, s).0 is None ==> told(
            c,
            s,
            grammar::parse_type_params(c, s).1,
        ),
{
    broadcast use {group_steps, type_params_loop_goes};

    reveal(grammar::parse_type_params);
    if grammar::kind(c, s) is LBracket {
        let s1 = grammar::bump(c, s);
        let d = crate::diagnostic::error_view("expected at least one type parameter"@).label(
            grammar::span(c, s1),
            "empty `[]` here"@,
        ).noted("write `function f[T](...)` or drop the brackets"@).coded("E104"@);
        assert(d.ordered()) by {
            assert(grammar::span(c, s1).ordered());
        }
        reporting_goes(c, grammar::bump(c, s1), d);
    }
}

pub(crate) broadcast proof fn ret_goes(c: Source, s: State, allowed: Seq<Seq<char>>)
    requires
        good(c, s),
    ensures
        #![trigger grammar::parse_ret(c, s, allowed)]
        went(c, s, grammar::parse_ret(c, s, allowed).1),
        grammar::parse_ret(c, s, allowed).0.0 is None ==> told(
            c,
            s,
            grammar::parse_ret(c, s, allowed).1,
        ),
{
    broadcast use {group_steps, types_go};

    reveal(grammar::parse_ret);
}

pub(crate) broadcast proof fn params_go(c: Source, s: State, allowed: Seq<Seq<char>>)
    requires
        good(c, s),
    ensures
        #![trigger grammar::parse_params(c, s, allowed)]
        went(c, s, grammar::parse_params(c, s, allowed).1),
        match grammar::parse_params(c, s, allowed).0 {
            Some(all) => places::params_placed(all),
            None => told(c, s, grammar::parse_params(c, s, allowed).1),
        },
{
    broadcast use {group_steps, params_loop_goes};

    reveal(grammar::parse_params);
}

pub(crate) broadcast proof fn function_goes(c: Source, s: State)
    requires
        good(c, s),
    ensures
        #![trigger grammar::parse_function(c, s)]
        went(c, s, grammar::parse_function(c, s).1),
        match grammar::parse_function(c, s).0 {
            Some(f) => places::function_placed(limit(c.toks), f) && (f.signature_poisoned ==> s.diags.len()
                < grammar::parse_function(c, s).1.diags.len()),
            None => told(c, s, grammar::parse_function(c, s).1),
        },
{
    broadcast use {group_steps, type_params_go, params_go, ret_goes, blocks_go};

    reveal(grammar::parse_function);
    places::nothing_placed(limit(c.toks));
    assert(grammar::span(c, s).ordered());
    assert(grammar::span(c, grammar::bump(c, s)).ordered());
}

pub(crate) broadcast proof fn object_field_goes(c: Source, s: State, fields: Seq<ParamView>)
    requires
        good(c, s),
    ensures
        #![trigger grammar::parse_object_field(c, s, fields)]
        went(c, s, grammar::parse_object_field(c, s, fields).1),
        grammar::parse_object_field(c, s, fields).0 is None ==> told(
            c,
            s,
            grammar::parse_object_field(c, s, fields).1,
        ),
{
    broadcast use {group_steps, types_go};

    reveal(grammar::parse_object_field);
    assert(grammar::span(c, s).ordered());
}

pub(crate) broadcast proof fn object_loop_goes(c: Source, s: State, body: ObjectBody)
    requires
        good(c, s),
    ensures
        #![trigger grammar::object_loop(c, s, body)]
        went(c, s, grammar::object_loop(c, s, body).1),
        match grammar::object_loop(c, s, body).0 {
            Some(all) => places::functions_placed(limit(c.toks), body.methods) ==> places::functions_placed(limit(c.toks), all.methods,
            ),
            None => told(c, s, grammar::object_loop(c, s, body).1),
        },
    decreases c.toks.len() - s.pos,
{
    broadcast use {group_steps, function_goes, object_field_goes};

    reveal(grammar::object_loop);
    if !(grammar::kind(c, s) is Eof || grammar::kind(c, s) is RBrace) {
        let (next, s1) = if grammar::kind(c, s) is Function {
            match grammar::parse_function(c, s) {
                (None, s1) => (None, s1),
                (Some(f), s1) => (
                    Some(ObjectBody { methods: body.methods.push(f), ..body }),
                    s1,
                ),
            }
        } else {
            match grammar::parse_object_field(c, s, body.fields) {
                (None, s1) => (None, s1),
                (Some(f), s1) => (Some(ObjectBody { fields: body.fields.push(f), ..body }), s1),
            }
        };
        assert(grammar::span(c, s1).ordered());
        if next is Some && grammar::kind(c, s1) is Comma && s1.pos > s.pos {
            object_loop_goes(c, grammar::bump(c, s1), next->0);
        }
    }
}

pub(crate) broadcast proof fn payload_goes(
    c: Source,
    s: State,
    allowed: Seq<Seq<char>>,
    payload: Seq<(TypeView, Span)>,
)
    requires
        good(c, s),
    ensures
        #![trigger grammar::payload_loop(c, s, allowed, payload)]
        went(c, s, grammar::payload_loop(c, s, allowed, payload).1),
        grammar::payload_loop(c, s, allowed, payload).0 is None ==> told(
            c,
            s,
            grammar::payload_loop(c, s, allowed, payload).1,
        ),
    decreases c.toks.len() - s.pos,
{
    broadcast use {group_steps, types_go};

    reveal(grammar::payload_loop);
    match grammar::parse_type(c, s, allowed, true) {
        (Some((t, sp)), s1) => {
            if !ty::void_like(t) && grammar::kind(c, s1) is Comma && s1.pos > s.pos {
                payload_goes(c, grammar::bump(c, s1), allowed, payload.push((t, sp)));
            }
        },
        _ => {},
    }
}

pub(crate) broadcast proof fn variant_goes(
    c: Source,
    s: State,
    allowed: Seq<Seq<char>>,
    variants: Seq<UnionVariantView>,
)
    requires
        good(c, s),
    ensures
        #![trigger grammar::parse_variant(c, s, allowed, variants)]
        went(c, s, grammar::parse_variant(c, s, allowed, variants).1),
        grammar::parse_variant(c, s, allowed, variants).0 is None ==> told(
            c,
            s,
            grammar::parse_variant(c, s, allowed, variants).1,
        ),
{
    broadcast use {group_steps, payload_goes};

    reveal(grammar::parse_variant);
    assert(grammar::span(c, s).ordered());
}

pub(crate) broadcast proof fn union_loop_goes(
    c: Source,
    s: State,
    allowed: Seq<Seq<char>>,
    variants: Seq<UnionVariantView>,
)
    requires
        good(c, s),
    ensures
        #![trigger grammar::union_loop(c, s, allowed, variants)]
        went(c, s, grammar::union_loop(c, s, allowed, variants).1),
        grammar::union_loop(c, s, allowed, variants).0 is None ==> told(
            c,
            s,
            grammar::union_loop(c, s, allowed, variants).1,
        ),
    decreases c.toks.len() - s.pos,
{
    broadcast use {group_steps, variant_goes};

    reveal(grammar::union_loop);
    if !(grammar::kind(c, s) is Eof || grammar::kind(c, s) is RBrace) {
        match grammar::parse_variant(c, s, allowed, variants) {
            (Some(v), s1) => {
                assert(grammar::span(c, s1).ordered());
                if grammar::kind(c, s1) is Comma && s1.pos > s.pos {
                    union_loop_goes(c, grammar::bump(c, s1), allowed, variants.push(v));
                }
            },
            _ => {},
        }
    }
}

pub(crate) broadcast proof fn decl_end_goes(c: Source, s: State, what: Seq<char>, semi_what: Seq<char>)
    requires
        good(c, s),
    ensures
        #![trigger grammar::parse_decl_end(c, s, what, semi_what)]
        went(c, s, grammar::parse_decl_end(c, s, what, semi_what).1),
        grammar::parse_decl_end(c, s, what, semi_what).0 is None ==> told(
            c,
            s,
            grammar::parse_decl_end(c, s, what, semi_what).1,
        ),
{
    broadcast use group_steps;

    reveal(grammar::parse_decl_end);
}

pub(crate) broadcast proof fn union_body_goes(
    c: Source,
    s: State,
    start: usize,
    name: Seq<char>,
    name_span: Span,
    type_params: Seq<TypeParamView>,
)
    requires
        good(c, s),
    ensures
        #![trigger grammar::parse_union_body(c, s, start, name, name_span, type_params)]
        went(c, s, grammar::parse_union_body(c, s, start, name, name_span, type_params).1),
        match grammar::parse_union_body(c, s, start, name, name_span, type_params).0 {
            Some(x) => name_span.ordered() ==> places::item_placed(limit(c.toks), x),
            None => told(c, s, grammar::parse_union_body(c, s, start, name, name_span, type_params).1),
        },
{
    broadcast use {group_steps, union_loop_goes, decl_end_goes};

    reveal(grammar::parse_union_body);
}

pub(crate) broadcast proof fn object_body_goes(
    c: Source,
    s: State,
    start: usize,
    name: Seq<char>,
    name_span: Span,
)
    requires
        good(c, s),
        name_span.ordered(),
    ensures
        #![trigger grammar::parse_object_body(c, s, start, name, name_span)]
        went(c, s, grammar::parse_object_body(c, s, start, name, name_span).1),
        match grammar::parse_object_body(c, s, start, name, name_span).0 {
            Some(x) => places::item_placed(limit(c.toks), x),
            None => told(c, s, grammar::parse_object_body(c, s, start, name, name_span).1),
        },
{
    broadcast use {group_steps, object_loop_goes, decl_end_goes};

    reveal(grammar::parse_object_body);
}

pub(crate) broadcast proof fn type_item_goes(c: Source, s: State)
    requires
        good(c, s),
    ensures
        #![trigger grammar::parse_type_item(c, s)]
        went(c, s, grammar::parse_type_item(c, s).1),
        match grammar::parse_type_item(c, s).0 {
            Some(x) => places::item_placed(limit(c.toks), x),
            None => told(c, s, grammar::parse_type_item(c, s).1),
        },
{
    broadcast use {group_steps, type_params_go, union_body_goes, object_body_goes};

    reveal(grammar::parse_type_item);
    match grammar::parse_ident(c, grammar::bump(c, s)) {
        (Some((name, name_span)), s1) => {
            assert(name_span.ordered());
            let d = crate::diagnostic::error_view(
                "object type name `"@ + name + "` is reserved"@,
            ).label(name_span, "choose a different object type name"@).noted(
                "object names cannot shadow built-in or legacy type names"@,
            ).coded("E200"@);
            assert(d.ordered());
            reporting_goes(c, s1, d);
        },
        _ => {},
    }
}

/// Reading an item takes no token and no report back, its reports can be
/// rendered, the places in it start no later than they end, and an item that
/// cannot be read is reported, by the parser or by the lexer.
pub proof fn unread_items_are_reported(c: Source, s: State)
    requires
        good(c, s),
        !(grammar::kind(c, s) is Eof),
    ensures
        went(c, s, grammar::parse_item(c, s).1),
        match grammar::parse_item(c, s).0 {
            Some(x) => places::item_placed(limit(c.toks), x),
            None => told(c, s, grammar::parse_item(c, s).1),
        },
{
    broadcast use {group_steps, function_goes, type_item_goes, use_goes, binding_goes};

    reveal(grammar::parse_item);
    assert(grammar::span(c, s).ordered());
    if grammar::kind(c, s) is Invalid {
        assert(c.toks[s.pos].kind is Invalid);
        assert(lex::some_invalid(c.toks));
    }
}

pub(crate) proof fn items_go(c: Source, s: State, items: Seq<ItemView>)
    requires
        good(c, s),
    ensures
        went(c, s, grammar::items_loop(c, s, items).1),
        places::items_placed(limit(c.toks), items) ==> places::items_placed(limit(c.toks), grammar::items_loop(c, s, items).0),
    decreases c.toks.len() - s.pos,
{
    broadcast use {group_steps, recover_item_goes};

    reveal(grammar::items_loop);
    if !(grammar::kind(c, s) is Eof) {
        unread_items_are_reported(c, s);
        let (next, s1) = match grammar::parse_item(c, s) {
            (Some(item), s1) => (items.push(item), s1),
            (None, s1) => (items, grammar::force(c, s1, grammar::recover_item(c, s1))),
        };
        if s1.pos > s.pos {
            items_go(c, s1, next);
        }
    }
}

/// Everything that is reported about the tokens of a text can be rendered, and so
/// can everything that is reported later about a place in its tree.
pub proof fn parse_reports_are_ordered(toks: Seq<TokenView>, module: Seq<char>)
    requires
        tokens_in_order(toks),
    ensures
        lex::all_ordered(grammar::parsed(toks, module).1),
        places::items_placed(limit(toks), grammar::parsed(toks, module).0.items),
{
    let c = Source { toks, known: grammar::known_types(toks, toks.len() as int) };
    items_go(c, State { pos: 0, diags: Seq::empty() }, Seq::empty());
}

/// Every expression in the tree of a text lies in the text and around each of its
/// direct parts. A binary expression reaches exactly from one operand to the other.
pub proof fn parsed_expressions_nest(text: Seq<char>, module: Seq<char>, x: ExprView, y: ExprView)
    requires
        vstd::utf8::encode_utf8(text).len() <= usize::MAX,
        places::items_hold(grammar::parsed(lex::lexed(text).0, module).0.items, x),
    ensures
        x.span().start <= x.span().end <= vstd::utf8::encode_utf8(text).len(),
        places::is_part(x, y) ==> x.span().start <= y.span().start && y.span().end <= x.span().end,
        x matches ExprView::Binary { lhs, rhs, .. } ==> x.span() == lhs.span().joined(rhs.span()),
{
    let end = vstd::utf8::encode_utf8(text).len();
    lexed_tokens_are_in_order(text);
    parse_reports_are_ordered(lex::lexed(text).0, module);
    places::items_held(end, grammar::parsed(lex::lexed(text).0, module).0.items, x);
    places::placed_expressions_nest(end, x, y);
}

} // verus!
