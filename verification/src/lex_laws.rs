//! What holds of the lexer across lines: no token, escape or remark crosses a
//! line break, so a text can be lexed line by line.

use vstd::prelude::*;
use vstd::utf8::{encode_scalar, encode_utf8};

use crate::diagnostic::{DiagnosticView, LabelView};
use crate::lex;
use crate::lex::{LexState, StringScan};
use crate::span::Span;
use crate::token::TokenView;

verus! {

/// Two texts with a line break between them.
pub open spec fn lines(a: Seq<char>, b: Seq<char>) -> Seq<char> {
    a + seq!['\n'] + b
}

/// How many bytes stand before the second of two lines.
pub open spec fn behind(a: Seq<char>) -> nat {
    encode_utf8(a).len() + 1
}

/// A span a number of bytes further on.
pub open spec fn shift_span(sp: Span, k: nat) -> Span {
    Span { start: (sp.start + k) as usize, end: (sp.end + k) as usize }
}

/// Tokens a number of bytes further on.
pub open spec fn shift_tokens(toks: Seq<TokenView>, k: nat) -> Seq<TokenView> {
    Seq::new(
        toks.len(),
        |i: int| TokenView { kind: toks[i].kind, span: shift_span(toks[i].span, k) },
    )
}

/// A diagnostic whose labels stand a number of bytes further on.
pub open spec fn shift_diag(d: DiagnosticView, k: nat) -> DiagnosticView {
    DiagnosticView {
        labels: Seq::new(
            d.labels.len(),
            |i: int|
                LabelView { span: shift_span(d.labels[i].span, k), message: d.labels[i].message },
        ),
        ..d
    }
}

/// Diagnostics whose labels stand a number of bytes further on.
pub open spec fn shift_diags(ds: Seq<DiagnosticView>, k: nat) -> Seq<DiagnosticView> {
    Seq::new(ds.len(), |i: int| shift_diag(ds[i], k))
}

// ---------------------------------------------------------------------------
// The first line
// ---------------------------------------------------------------------------

proof fn first_offsets(a: Seq<char>, b: Seq<char>, i: int)
    requires
        0 <= i <= a.len(),
    ensures
        lex::offset(lines(a, b), i) == lex::offset(a, i),
{
    assert(lines(a, b).take(i) =~= a.take(i));
}

proof fn first_runs(a: Seq<char>, b: Seq<char>, i: int)
    requires
        0 <= i <= a.len(),
    ensures
        lex::digits_end(lines(a, b), i) == lex::digits_end(a, i),
        lex::suffix_end(lines(a, b), i) == lex::suffix_end(a, i),
        lex::word_end(lines(a, b), i) == lex::word_end(a, i),
        lex::line_end(lines(a, b), i) == lex::line_end(a, i),
    decreases a.len() - i,
{
    if i < a.len() {
        first_runs(a, b, i + 1);
        assert(lines(a, b)[i] == a[i]);
    } else {
        assert(lines(a, b)[i] == '\n');
    }
}

proof fn first_string(a: Seq<char>, b: Seq<char>, sc: StringScan)
    requires
        0 <= sc.pos <= a.len(),
    ensures
        lex::scan_string(lines(a, b), sc) == lex::scan_string(a, sc),
    decreases a.len() - sc.pos,
{
    let s = lines(a, b);
    let i = sc.pos;
    if i < a.len() {
        assert(s[i] == a[i]);
        if i + 1 < a.len() {
            assert(s[i + 1] == a[i + 1]);
        } else {
            assert(s[i + 1] == '\n');
        }
        if a[i] != '"' && a[i] != '\n' && a[i] != '\r' {
            if a[i] == '\\' {
                if i + 1 < a.len() && a[i + 1] != '\n' && a[i + 1] != '\r' {
                    first_offsets(a, b, i);
                    first_offsets(a, b, i + 2);
                    assert(lex::escape_error(s, i) == lex::escape_error(a, i));
                    match lex::escape_byte(a[i + 1]) {
                        Some(x) => first_string(
                            a,
                            b,
                            StringScan { pos: i + 2, value: sc.value.push(x), ..sc },
                        ),
                        None => first_string(
                            a,
                            b,
                            StringScan {
                                pos: i + 2,
                                valid: false,
                                diags: sc.diags.push(lex::escape_error(a, i)),
                                ..sc
                            },
                        ),
                    }
                }
            } else {
                first_string(
                    a,
                    b,
                    StringScan { pos: i + 1, value: sc.value + encode_scalar(a[i] as u32), ..sc },
                );
            }
        }
    } else {
        assert(s[i] == '\n');
    }
}

proof fn first_number(a: Seq<char>, b: Seq<char>, st: LexState)
    requires
        0 <= st.pos < a.len(),
    ensures
        lex::number_step(lines(a, b), st) == lex::number_step(a, st),
{
    let s = lines(a, b);
    let i = st.pos;
    lex::run_ends(a, i);
    first_runs(a, b, i);
    let j = lex::digits_end(a, i);
    if j < a.len() {
        assert(s[j] == a[j]);
        lex::run_ends(a, j + 1);
        first_runs(a, b, j + 1);
        if j + 1 < a.len() {
            assert(s[j + 1] == a[j + 1]);
        } else {
            assert(s[j + 1] == '\n');
        }
    } else {
        assert(s[j] == '\n');
    }
    let float = j + 1 < a.len() && a[j] == '.' && lex::is_digit(a[j + 1]);
    let k = if float {
        lex::digits_end(a, j + 1)
    } else {
        j
    };
    lex::run_ends(a, k);
    first_runs(a, b, k);
    let e = lex::suffix_end(a, k);
    assert(s.subrange(k, e) =~= a.subrange(k, e));
    assert(s.subrange(i, j) =~= a.subrange(i, j));
    if float {
        assert(s.subrange(j + 1, k) =~= a.subrange(j + 1, k));
    }
    assert(lex::number_kind(s, i, j, k, e) == lex::number_kind(a, i, j, k, e));
    first_offsets(a, b, i);
    first_offsets(a, b, e);
}

proof fn first_step(a: Seq<char>, b: Seq<char>, st: LexState)
    requires
        0 <= st.pos < a.len(),
    ensures
        lex::lex_step(lines(a, b), st) == lex::lex_step(a, st),
{
    let s = lines(a, b);
    let i = st.pos;
    assert(s[i] == a[i]);
    if i + 1 < a.len() {
        assert(s[i + 1] == a[i + 1]);
    } else {
        assert(s[i + 1] == '\n');
    }
    first_offsets(a, b, i);
    first_offsets(a, b, i + 1);
    if i + 2 <= a.len() {
        first_offsets(a, b, i + 2);
    }
    first_runs(a, b, i);
    lex::run_ends(a, i);
    let e = lex::word_end(a, i);
    first_offsets(a, b, e);
    assert(s.subrange(i, e) =~= a.subrange(i, e));
    first_number(a, b, st);
    let sc = StringScan {
        pos: i + 1,
        value: Seq::empty(),
        valid: true,
        closed: false,
        diags: st.diags,
    };
    first_string(a, b, sc);
    lex::scan_string_moves(a, sc);
    first_offsets(a, b, lex::scan_string(a, sc).pos);
}

proof fn first_line(a: Seq<char>, b: Seq<char>, st: LexState)
    requires
        0 <= st.pos <= a.len(),
    ensures
        lex::lex_from(a, st).pos == a.len(),
        lex::lex_from(lines(a, b), st) == lex::lex_from(lines(a, b), lex::lex_from(a, st)),
    decreases a.len() - st.pos,
{
    if st.pos < a.len() {
        lex::lex_step_moves(a, st);
        first_step(a, b, st);
        first_line(a, b, lex::lex_step(a, st));
    }
}

// ---------------------------------------------------------------------------
// The second line
// ---------------------------------------------------------------------------

proof fn encode_joined(a: Seq<char>, b: Seq<char>)
    ensures
        encode_utf8(a + b) == encode_utf8(a) + encode_utf8(b),
    decreases a.len(),
{
    if a.len() == 0 {
        assert(a + b =~= b);
        assert(encode_utf8(a) + encode_utf8(b) =~= encode_utf8(b));
    } else {
        assert((a + b).drop_first() =~= a.drop_first() + b);
        encode_joined(a.drop_first(), b);
        assert(encode_utf8(a + b) =~= encode_utf8(a) + encode_utf8(b));
    }
}

proof fn second_offsets(a: Seq<char>, b: Seq<char>, i: int)
    requires
        0 <= i <= b.len(),
    ensures
        lex::offset(lines(a, b), a.len() + 1 + i) == behind(a) + lex::offset(b, i),
        lex::offset(b, i) <= encode_utf8(b).len(),
        encode_utf8(lines(a, b)).len() == behind(a) + encode_utf8(b).len(),
{
    let s = lines(a, b);
    let nl = seq!['\n'];
    assert(nl.drop_first() =~= Seq::<char>::empty());
    assert(encode_utf8(nl).len() == 1) by {
        assert(encode_utf8(Seq::<char>::empty()).len() == 0);
        assert(encode_scalar('\n' as u32).len() == 1);
    }
    assert(s.take(a.len() + 1 + i) =~= a + nl + b.take(i));
    encode_joined(a, nl);
    encode_joined(a + nl, b.take(i));
    encode_joined(a + nl, b);
    lex::offsets_increase(b, i, b.len() as int);
}

proof fn second_spans(a: Seq<char>, b: Seq<char>, i: int, j: int)
    requires
        0 <= i <= b.len(),
        0 <= j <= b.len(),
        encode_utf8(lines(a, b)).len() <= usize::MAX,
    ensures
        lex::span_of(lines(a, b), a.len() + 1 + i, a.len() + 1 + j) == shift_span(
            lex::span_of(b, i, j),
            behind(a),
        ),
{
    second_offsets(a, b, i);
    second_offsets(a, b, j);
}

proof fn second_runs(a: Seq<char>, b: Seq<char>, i: int)
    requires
        0 <= i <= b.len(),
    ensures
        lex::digits_end(lines(a, b), a.len() + 1 + i) == a.len() + 1 + lex::digits_end(b, i),
        lex::suffix_end(lines(a, b), a.len() + 1 + i) == a.len() + 1 + lex::suffix_end(b, i),
        lex::word_end(lines(a, b), a.len() + 1 + i) == a.len() + 1 + lex::word_end(b, i),
        lex::line_end(lines(a, b), a.len() + 1 + i) == a.len() + 1 + lex::line_end(b, i),
    decreases b.len() - i,
{
    if i < b.len() {
        second_runs(a, b, i + 1);
        assert(lines(a, b)[a.len() + 1 + i] == b[i]);
    }
}

/// What was found in the first line, followed by what was found in the second.
spec fn moved(a: Seq<char>, front: LexState, st: LexState) -> LexState {
    LexState {
        pos: a.len() + 1 + st.pos,
        toks: front.toks + shift_tokens(st.toks, behind(a)),
        diags: front.diags + shift_diags(st.diags, behind(a)),
    }
}

spec fn moved_scan(a: Seq<char>, front: LexState, sc: StringScan) -> StringScan {
    StringScan {
        pos: a.len() + 1 + sc.pos,
        diags: front.diags + shift_diags(sc.diags, behind(a)),
        ..sc
    }
}

proof fn reporting_moves(front: Seq<DiagnosticView>, ds: Seq<DiagnosticView>, d: DiagnosticView, k: nat)
    ensures
        front + shift_diags(ds.push(d), k) == (front + shift_diags(ds, k)).push(shift_diag(d, k)),
{
    assert(front + shift_diags(ds.push(d), k) =~= (front + shift_diags(ds, k)).push(
        shift_diag(d, k),
    ));
}

proof fn emitting_moves(
    a: Seq<char>,
    b: Seq<char>,
    front: LexState,
    st: LexState,
    to: int,
    kind: crate::token::TokenKindView,
)
    requires
        0 <= st.pos <= b.len(),
        0 <= to <= b.len(),
        encode_utf8(lines(a, b)).len() <= usize::MAX,
    ensures
        lex::emit(lines(a, b), moved(a, front, st), a.len() + 1 + to, kind) == moved(
            a,
            front,
            lex::emit(b, st, to, kind),
        ),
{
    second_spans(a, b, st.pos, to);
    let k = behind(a);
    let t = TokenView { kind, span: lex::span_of(b, st.pos, to) };
    assert(front.toks + shift_tokens(st.toks.push(t), k) =~= (front.toks + shift_tokens(
        st.toks,
        k,
    )).push(TokenView { kind, span: shift_span(t.span, k) }));
}

proof fn rejecting_moves(
    a: Seq<char>,
    b: Seq<char>,
    front: LexState,
    st: LexState,
    to: int,
    d: DiagnosticView,
)
    requires
        0 <= st.pos <= b.len(),
        0 <= to <= b.len(),
        encode_utf8(lines(a, b)).len() <= usize::MAX,
    ensures
        lex::reject(
            lines(a, b),
            moved(a, front, st),
            a.len() + 1 + to,
            shift_diag(d, behind(a)),
        ) == moved(a, front, lex::reject(b, st, to, d)),
{
    emitting_moves(a, b, front, st, to, crate::token::TokenKindView::Invalid);
    reporting_moves(front.diags, st.diags, d, behind(a));
}

/// A report with one label moves with it.
proof fn one_label_moves(d: DiagnosticView, sp: Span, remark: Seq<char>, k: nat)
    requires
        d.labels.len() == 0,
    ensures
        shift_diag(d.label(sp, remark), k) == d.label(shift_span(sp, k), remark),
{
    assert(shift_diag(d.label(sp, remark), k).labels =~= d.label(shift_span(sp, k), remark).labels);
}

proof fn second_string(a: Seq<char>, b: Seq<char>, front: LexState, sc: StringScan)
    requires
        0 <= sc.pos <= b.len(),
        encode_utf8(lines(a, b)).len() <= usize::MAX,
    ensures
        lex::scan_string(lines(a, b), moved_scan(a, front, sc)) == moved_scan(
            a,
            front,
            lex::scan_string(b, sc),
        ),
    decreases b.len() - sc.pos,
{
    let s = lines(a, b);
    let n = a.len() + 1;
    let i = sc.pos;
    if i < b.len() {
        assert(s[n + i] == b[i]);
        if i + 1 < b.len() {
            assert(s[n + i + 1] == b[i + 1]);
        }
        if b[i] != '"' && b[i] != '\n' && b[i] != '\r' {
            if b[i] == '\\' {
                if i + 1 < b.len() && b[i + 1] != '\n' && b[i + 1] != '\r' {
                    match lex::escape_byte(b[i + 1]) {
                        Some(x) => second_string(
                            a,
                            b,
                            front,
                            StringScan { pos: i + 2, value: sc.value.push(x), ..sc },
                        ),
                        None => {
                            second_spans(a, b, i, i + 2);
                            one_label_moves(
                                crate::diagnostic::error_view("unknown string escape"@),
                                lex::span_of(b, i, i + 2),
                                "unknown escape"@,
                                behind(a),
                            );
                            let d = lex::escape_error(b, i);
                            assert(lex::escape_error(s, n + i) == shift_diag(d, behind(a)));
                            reporting_moves(front.diags, sc.diags, d, behind(a));
                            second_string(
                                a,
                                b,
                                front,
                                StringScan {
                                    pos: i + 2,
                                    valid: false,
                                    diags: sc.diags.push(d),
                                    ..sc
                                },
                            );
                        },
                    }
                }
            } else {
                second_string(
                    a,
                    b,
                    front,
                    StringScan { pos: i + 1, value: sc.value + encode_scalar(b[i] as u32), ..sc },
                );
            }
        }
    }
}

proof fn second_number(a: Seq<char>, b: Seq<char>, front: LexState, st: LexState)
    requires
        0 <= st.pos < b.len(),
        encode_utf8(lines(a, b)).len() <= usize::MAX,
    ensures
        lex::number_step(lines(a, b), moved(a, front, st)) == moved(
            a,
            front,
            lex::number_step(b, st),
        ),
{
    let s = lines(a, b);
    let n = a.len() + 1;
    let i = st.pos;
    lex::run_ends(b, i);
    second_runs(a, b, i);
    let j = lex::digits_end(b, i);
    if j < b.len() {
        assert(s[n + j] == b[j]);
        lex::run_ends(b, j + 1);
        second_runs(a, b, j + 1);
        if j + 1 < b.len() {
            assert(s[n + j + 1] == b[j + 1]);
        }
    }
    let float = j + 1 < b.len() && b[j] == '.' && lex::is_digit(b[j + 1]);
    let k = if float {
        lex::digits_end(b, j + 1)
    } else {
        j
    };
    lex::run_ends(b, k);
    second_runs(a, b, k);
    let e = lex::suffix_end(b, k);
    assert(s.subrange(n + k, n + e) =~= b.subrange(k, e));
    assert(s.subrange(n + i, n + j) =~= b.subrange(i, j));
    if float {
        assert(s.subrange(n + j + 1, n + k) =~= b.subrange(j + 1, k));
    }
    let kind = lex::number_kind(b, i, j, k, e);
    assert(lex::number_kind(s, n + i, n + j, n + k, n + e) == kind);
    match kind {
        Ok(t) => emitting_moves(a, b, front, st, e, t),
        Err(message) => {
            let d = crate::diagnostic::error_view(message);
            second_spans(a, b, i, e);
            one_label_moves(d, lex::span_of(b, i, e), "invalid numeric literal"@, behind(a));
            rejecting_moves(
                a,
                b,
                front,
                st,
                e,
                d.label(lex::span_of(b, i, e), "invalid numeric literal"@).coded("E001"@),
            );
        },
    }
}

proof fn second_literal(a: Seq<char>, b: Seq<char>, front: LexState, st: LexState)
    requires
        0 <= st.pos < b.len(),
        encode_utf8(lines(a, b)).len() <= usize::MAX,
    ensures
        lex::string_step(lines(a, b), moved(a, front, st)) == moved(
            a,
            front,
            lex::string_step(b, st),
        ),
{
    let sc = StringScan {
        pos: st.pos + 1,
        value: Seq::empty(),
        valid: true,
        closed: false,
        diags: st.diags,
    };
    second_string(a, b, front, sc);
    lex::scan_string_moves(b, sc);
    let r = lex::scan_string(b, sc);
    let after = LexState { diags: r.diags, ..st };
    if !r.closed {
        let d = crate::diagnostic::error_view("unterminated string literal"@);
        let sp = lex::span_of(b, st.pos, r.pos);
        second_spans(a, b, st.pos, r.pos);
        one_label_moves(d, sp, "string must close before the line ends"@, behind(a));
        rejecting_moves(
            a,
            b,
            front,
            after,
            r.pos,
            d.label(sp, "string must close before the line ends"@).coded("E002"@),
        );
    } else {
        emitting_moves(a, b, front, after, r.pos, crate::token::TokenKindView::String(r.value));
        emitting_moves(a, b, front, after, r.pos, crate::token::TokenKindView::Invalid);
    }
}

proof fn second_unexpected(a: Seq<char>, b: Seq<char>, i: int)
    requires
        0 <= i < b.len(),
        encode_utf8(lines(a, b)).len() <= usize::MAX,
    ensures
        lex::unexpected_error(lines(a, b), a.len() + 1 + i) == shift_diag(
            lex::unexpected_error(b, i),
            behind(a),
        ),
{
    let s = lines(a, b);
    assert(s[a.len() + 1 + i] == b[i]);
    second_spans(a, b, i, i + 1);
    let sp = lex::span_of(b, i, i + 1);
    let k = behind(a);
    one_label_moves(
        crate::diagnostic::error_view("unexpected character `&`"@),
        sp,
        "did you mean `&&`?"@,
        k,
    );
    one_label_moves(
        crate::diagnostic::error_view("unexpected character `|`"@),
        sp,
        "did you mean `||`?"@,
        k,
    );
    one_label_moves(
        crate::diagnostic::error_view("unexpected character `"@ + seq![b[i]] + "`"@),
        sp,
        "unexpected here"@,
        k,
    );
}

proof fn second_step(a: Seq<char>, b: Seq<char>, front: LexState, st: LexState)
    requires
        0 <= st.pos < b.len(),
        encode_utf8(lines(a, b)).len() <= usize::MAX,
    ensures
        lex::lex_step(lines(a, b), moved(a, front, st)) == moved(a, front, lex::lex_step(b, st)),
{
    let s = lines(a, b);
    let n = a.len() + 1;
    let i = st.pos;
    let c = b[i];
    assert(s[n + i] == c);
    let next = if i + 1 < b.len() {
        assert(s[n + i + 1] == b[i + 1]);
        Some(b[i + 1])
    } else {
        None
    };
    second_runs(a, b, i);
    lex::run_ends(b, i);
    if c == ' ' || c == '\t' || c == '\r' || c == '\n' {
    } else if c == '/' && next == Some('/') {
    } else if lex::pair_kind(c, next) is Some {
        emitting_moves(a, b, front, st, i + 2, lex::pair_kind(c, next)->0);
    } else if lex::single_kind(c) is Some {
        emitting_moves(a, b, front, st, i + 1, lex::single_kind(c)->0);
    } else if lex::is_digit(c) {
        second_number(a, b, front, st);
    } else if c == '"' {
        second_literal(a, b, front, st);
    } else if lex::is_letter(c) || c == '_' {
        let e = lex::word_end(b, i);
        assert(s.subrange(n + i, n + e) =~= b.subrange(i, e));
        emitting_moves(a, b, front, st, e, lex::word_kind(b.subrange(i, e)));
    } else {
        second_unexpected(a, b, i);
        rejecting_moves(a, b, front, st, i + 1, lex::unexpected_error(b, i));
    }
}

proof fn second_line(a: Seq<char>, b: Seq<char>, front: LexState, st: LexState)
    requires
        0 <= st.pos <= b.len(),
        encode_utf8(lines(a, b)).len() <= usize::MAX,
    ensures
        lex::lex_from(lines(a, b), moved(a, front, st)) == moved(a, front, lex::lex_from(b, st)),
    decreases b.len() - st.pos,
{
    if st.pos < b.len() {
        lex::lex_step_moves(b, st);
        second_step(a, b, front, st);
        second_line(a, b, front, lex::lex_step(b, st));
    }
}

/// A text with a line break is lexed as the text before it, followed by the text
/// behind it: no token, string, escape or remark crosses the line break.
pub proof fn lexing_splits_at_line_breaks(a: Seq<char>, b: Seq<char>)
    requires
        encode_utf8(lines(a, b)).len() <= usize::MAX,
    ensures
        lex::lexed(lines(a, b)).0 == lex::lexed(a).0.drop_last() + shift_tokens(
            lex::lexed(b).0,
            behind(a),
        ),
        lex::lexed(lines(a, b)).1 == lex::lexed(a).1 + shift_diags(lex::lexed(b).1, behind(a)),
{
    let s = lines(a, b);
    let start = LexState { pos: 0, toks: Seq::empty(), diags: Seq::empty() };
    let front = lex::lex_from(a, start);
    let st = lex::lex_from(b, start);
    first_line(a, b, start);
    assert(s[a.len() as int] == '\n');
    let turned = lex::skip_to(front, a.len() as int + 1);
    assert(lex::lex_step(s, front) == turned);
    assert(turned.toks =~= moved(a, front, start).toks);
    assert(turned.diags =~= moved(a, front, start).diags);
    second_line(a, b, front, start);
    assert(lex::lex_from(s, start) == moved(a, front, st));
    second_offsets(a, b, b.len() as int);
    assert(lex::lexed(a).0.drop_last() =~= front.toks);
    assert(lex::lexed(s).0 =~= lex::lexed(a).0.drop_last() + shift_tokens(
        lex::lexed(b).0,
        behind(a),
    ));
}

} // verus!
