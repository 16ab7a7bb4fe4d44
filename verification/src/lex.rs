//! The lexer: source text to tokens. A bad character or literal becomes a
//! diagnostic and an invalid token, and lexing goes on behind it.

use vstd::prelude::*;
use vstd::utf8::{encode_scalar, encode_utf8};

use crate::diagnostic::{error_view, Diagnostic, DiagnosticView};
use crate::float::{nearest_double, Natural};
use crate::span::Span;
use crate::text::{cat3, chars_of, str_eq, string_of};
use crate::token::{Token, TokenKind, TokenKindView, TokenView};
use crate::{float, model};

verus! {

broadcast use crate::model::group_model;

// ---------------------------------------------------------------------------
// Offsets
// ---------------------------------------------------------------------------

/// The byte offset of the character at position `i`.
pub open spec fn offset(s: Seq<char>, i: int) -> nat {
    encode_utf8(s.take(i)).len()
}

/// The span of the characters from `i` up to `j`.
pub open spec fn span_of(s: Seq<char>, i: int, j: int) -> Span {
    Span { start: offset(s, i) as usize, end: offset(s, j) as usize }
}

proof fn encode_push(s: Seq<char>, c: char)
    ensures
        encode_utf8(s.push(c)) == encode_utf8(s) + encode_scalar(c as u32),
    decreases s.len(),
{
    if s.len() == 0 {
        assert(s.push(c).drop_first() =~= Seq::<char>::empty());
        assert(encode_utf8(Seq::<char>::empty()) =~= Seq::<u8>::empty());
        assert(encode_utf8(s.push(c)) =~= encode_scalar(c as u32));
        assert(encode_utf8(s) + encode_scalar(c as u32) =~= encode_scalar(c as u32));
    } else {
        encode_push(s.drop_first(), c);
        assert(s.push(c).drop_first() =~= s.drop_first().push(c));
        assert(encode_utf8(s.push(c)) =~= encode_utf8(s) + encode_scalar(c as u32));
    }
}

/// The encoding of a prefix is a prefix of the encoding, and the bytes of the
/// character behind it follow.
proof fn encode_prefix(s: Seq<char>, i: int)
    requires
        0 <= i < s.len(),
    ensures
        offset(s, i + 1) == offset(s, i) + encode_scalar(s[i] as u32).len(),
        offset(s, i + 1) <= encode_utf8(s).len(),
        encode_utf8(s).subrange(offset(s, i) as int, offset(s, i + 1) as int) == encode_scalar(
            s[i] as u32,
        ),
{
    assert(s.take(i + 1) =~= s.take(i).push(s[i]));
    encode_push(s.take(i), s[i]);
    encode_take(s, i + 1);
    let e = encode_utf8(s);
    let p = encode_utf8(s.take(i + 1));
    assert(e.take(p.len() as int) == p);
    assert forall|j: int| 0 <= j < p.len() implies e[j] == p[j] by {
        assert(e.take(p.len() as int)[j] == e[j]);
    }
    assert(e.subrange(offset(s, i) as int, offset(s, i + 1) as int) =~= encode_scalar(
        s[i] as u32,
    ));
}

proof fn encode_take(s: Seq<char>, i: int)
    requires
        0 <= i <= s.len(),
    ensures
        encode_utf8(s.take(i)).len() <= encode_utf8(s).len(),
        encode_utf8(s).take(encode_utf8(s.take(i)).len() as int) == encode_utf8(s.take(i)),
    decreases s.len() - i,
{
    if i == s.len() {
        assert(s.take(i) =~= s);
        assert(encode_utf8(s).take(encode_utf8(s).len() as int) =~= encode_utf8(s));
    } else {
        encode_take(s, i + 1);
        assert(s.take(i + 1) =~= s.take(i).push(s[i]));
        encode_push(s.take(i), s[i]);
        let e = encode_utf8(s);
        let p = encode_utf8(s.take(i + 1));
        let q = encode_utf8(s.take(i));
        assert(e.take(q.len() as int) =~= p.take(q.len() as int));
        assert(p.take(q.len() as int) =~= q);
    }
}

/// Offsets grow with the position.
pub proof fn offsets_increase(s: Seq<char>, i: int, j: int)
    requires
        0 <= i <= j <= s.len(),
    ensures
        offset(s, i) + (j - i) <= offset(s, j) <= encode_utf8(s).len(),
    decreases j - i,
{
    if i == j {
        encode_take(s, i);
    } else {
        offsets_increase(s, i, j - 1);
        encode_prefix(s, j - 1);
        assert(encode_scalar(s[j - 1] as u32).len() >= 1);
    }
}

// ---------------------------------------------------------------------------
// Characters
// ---------------------------------------------------------------------------

/// Whether a character is an ASCII digit.
pub open spec fn is_digit(c: char) -> bool {
    '0' <= c && c <= '9'
}

/// Whether a character is an ASCII letter.
pub open spec fn is_letter(c: char) -> bool {
    ('a' <= c && c <= 'z') || ('A' <= c && c <= 'Z')
}

/// The end of the run of digits that starts at `i`.
pub open spec fn digits_end(s: Seq<char>, i: int) -> int
    decreases s.len() - i,
{
    if 0 <= i < s.len() && is_digit(s[i]) {
        digits_end(s, i + 1)
    } else {
        i
    }
}

/// The end of the run of letters and digits that starts at `i`.
pub open spec fn suffix_end(s: Seq<char>, i: int) -> int
    decreases s.len() - i,
{
    if 0 <= i < s.len() && (is_digit(s[i]) || is_letter(s[i])) {
        suffix_end(s, i + 1)
    } else {
        i
    }
}

/// The end of the run of letters, digits and underscores that starts at `i`.
pub open spec fn word_end(s: Seq<char>, i: int) -> int
    decreases s.len() - i,
{
    if 0 <= i < s.len() && (is_digit(s[i]) || is_letter(s[i]) || s[i] == '_') {
        word_end(s, i + 1)
    } else {
        i
    }
}

/// The position of the line break at or behind `i`, or the end of the text.
pub open spec fn line_end(s: Seq<char>, i: int) -> int
    decreases s.len() - i,
{
    if 0 <= i < s.len() && s[i] != '\n' {
        line_end(s, i + 1)
    } else {
        i
    }
}

/// The number that a run of digits spells.
pub open spec fn digits_value(s: Seq<char>) -> nat
    decreases s.len(),
{
    if s.len() == 0 {
        0
    } else {
        10 * digits_value(s.drop_last()) + (s.last() as nat - '0' as nat) as nat
    }
}

/// The token that two characters form together.
pub open spec fn pair_kind(c: char, next: Option<char>) -> Option<TokenKindView> {
    match next {
        None => None,
        Some(d) => if c == '=' && d == '=' {
            Some(TokenKindView::EqEq)
        } else if c == '!' && d == '=' {
            Some(TokenKindView::BangEq)
        } else if c == '<' && d == '=' {
            Some(TokenKindView::LtEq)
        } else if c == '>' && d == '=' {
            Some(TokenKindView::GtEq)
        } else if c == '&' && d == '&' {
            Some(TokenKindView::AmpAmp)
        } else if c == '|' && d == '|' {
            Some(TokenKindView::PipePipe)
        } else if c == ':' && d == ':' {
            Some(TokenKindView::ColonColon)
        } else {
            None
        },
    }
}

/// The token that a character forms by itself.
pub open spec fn single_kind(c: char) -> Option<TokenKindView> {
    if c == '+' {
        Some(TokenKindView::Plus)
    } else if c == '-' {
        Some(TokenKindView::Minus)
    } else if c == '*' {
        Some(TokenKindView::Star)
    } else if c == '/' {
        Some(TokenKindView::Slash)
    } else if c == '=' {
        Some(TokenKindView::Eq)
    } else if c == '!' {
        Some(TokenKindView::Bang)
    } else if c == '<' {
        Some(TokenKindView::Lt)
    } else if c == '>' {
        Some(TokenKindView::Gt)
    } else if c == ';' {
        Some(TokenKindView::Semi)
    } else if c == '(' {
        Some(TokenKindView::LParen)
    } else if c == ')' {
        Some(TokenKindView::RParen)
    } else if c == '{' {
        Some(TokenKindView::LBrace)
    } else if c == '}' {
        Some(TokenKindView::RBrace)
    } else if c == '[' {
        Some(TokenKindView::LBracket)
    } else if c == ']' {
        Some(TokenKindView::RBracket)
    } else if c == ',' {
        Some(TokenKindView::Comma)
    } else if c == ':' {
        Some(TokenKindView::Colon)
    } else if c == '.' {
        Some(TokenKindView::Dot)
    } else if c == '#' {
        Some(TokenKindView::Hash)
    } else if c == '`' {
        Some(TokenKindView::Backtick)
    } else if c == '?' {
        Some(TokenKindView::Question)
    } else {
        None
    }
}

/// The token that a word is: a keyword, a boolean, or a name.
pub open spec fn word_kind(w: Seq<char>) -> TokenKindView {
    if w == "let"@ {
        TokenKindView::Let
    } else if w == "val"@ {
        TokenKindView::Val
    } else if w == "var"@ {
        TokenKindView::Var
    } else if w == "function"@ || w == "fun"@ {
        TokenKindView::Function
    } else if w == "type"@ {
        TokenKindView::Type
    } else if w == "object"@ {
        TokenKindView::Object
    } else if w == "union"@ {
        TokenKindView::Union
    } else if w == "match"@ {
        TokenKindView::Match
    } else if w == "null"@ {
        TokenKindView::Null
    } else if w == "if"@ {
        TokenKindView::If
    } else if w == "else"@ {
        TokenKindView::Else
    } else if w == "while"@ {
        TokenKindView::While
    } else if w == "break"@ {
        TokenKindView::Break
    } else if w == "continue"@ {
        TokenKindView::Continue
    } else if w == "return"@ {
        TokenKindView::Return
    } else if w == "as"@ {
        TokenKindView::As
    } else if w == "extends"@ {
        TokenKindView::Extends
    } else if w == "true"@ {
        TokenKindView::Bool(true)
    } else if w == "false"@ {
        TokenKindView::Bool(false)
    } else {
        TokenKindView::Ident(w)
    }
}

// ---------------------------------------------------------------------------
// The lexer's behaviour
// ---------------------------------------------------------------------------

/// The lexer's state: the position and what has been found before it.
pub struct LexState {
    pub pos: int,
    pub toks: Seq<TokenView>,
    pub diags: Seq<DiagnosticView>,
}

/// Going on at `to` without a token.
pub open spec fn skip_to(st: LexState, to: int) -> LexState {
    LexState { pos: to, ..st }
}

/// A token from the current position up to `to`.
pub open spec fn emit(s: Seq<char>, st: LexState, to: int, kind: TokenKindView) -> LexState {
    LexState {
        pos: to,
        toks: st.toks.push(TokenView { kind, span: span_of(s, st.pos, to) }),
        diags: st.diags,
    }
}

/// A diagnostic and an invalid token from the current position up to `to`.
pub open spec fn reject(s: Seq<char>, st: LexState, to: int, d: DiagnosticView) -> LexState {
    LexState { diags: st.diags.push(d), ..emit(s, st, to, TokenKindView::Invalid) }
}

/// A numeric literal's token, or why it is none: digits from `i` to `j`, with a
/// fraction up to `k` when `k > j`, and a suffix up to `e`.
pub open spec fn number_kind(s: Seq<char>, i: int, j: int, k: int, e: int) -> Result<
    TokenKindView,
    Seq<char>,
> {
    let suffix = s.subrange(k, e);
    let value = digits_value(s.subrange(i, j));
    if k > j {
        if suffix != "f64"@ {
            Err("floating literals require the `f64` suffix"@)
        } else {
            Ok(
                TokenKindView::F64(
                    float::nearest_bits(
                        digits_value(s.subrange(i, j) + s.subrange(j + 1, k)),
                        (k - j - 1) as nat,
                    ),
                ),
            )
        }
    } else if suffix == ""@ {
        if value <= i64::MAX {
            Ok(TokenKindView::Int(value as i64))
        } else {
            Err("integer literal out of range"@)
        }
    } else if suffix == "i64"@ {
        if value <= i64::MAX {
            Ok(TokenKindView::I64(value as i64))
        } else {
            Err("i64 literal out of range"@)
        }
    } else if suffix == "u64"@ {
        if value <= u64::MAX {
            Ok(TokenKindView::U64(value as u64))
        } else {
            Err("u64 literal out of range"@)
        }
    } else if suffix == "u8"@ {
        if value <= u8::MAX {
            Ok(TokenKindView::U8(value as u8))
        } else {
            Err("u8 literal out of range"@)
        }
    } else {
        Err("unknown numeric literal suffix"@)
    }
}

/// Lexing a numeric literal.
pub open spec fn number_step(s: Seq<char>, st: LexState) -> LexState {
    let i = st.pos;
    let j = digits_end(s, i);
    let float = j + 1 < s.len() && s[j] == '.' && is_digit(s[j + 1]);
    let k = if float {
        digits_end(s, j + 1)
    } else {
        j
    };
    let e = suffix_end(s, k);
    match number_kind(s, i, j, k, e) {
        Ok(kind) => emit(s, st, e, kind),
        Err(message) => reject(
            s,
            st,
            e,
            error_view(message).label(span_of(s, i, e), "invalid numeric literal"@).coded("E001"@),
        ),
    }
}

/// The byte that an escape stands for.
pub open spec fn escape_byte(c: char) -> Option<u8> {
    if c == '0' {
        Some(0)
    } else if c == 'n' {
        Some(10)
    } else if c == 'r' {
        Some(13)
    } else if c == 't' {
        Some(9)
    } else if c == '\\' {
        Some(92)
    } else if c == '"' {
        Some(34)
    } else {
        None
    }
}

/// What has been read of a string literal.
pub struct StringScan {
    pub pos: int,
    pub value: Seq<u8>,
    pub valid: bool,
    pub closed: bool,
    pub diags: Seq<DiagnosticView>,
}

/// The diagnostic for an unknown escape whose backslash stands at `i`.
pub open spec fn escape_error(s: Seq<char>, i: int) -> DiagnosticView {
    error_view("unknown string escape"@).label(span_of(s, i, i + 2), "unknown escape"@).noted(
        "supported escapes are `\\0`, `\\n`, `\\r`, `\\t`, `\\\\`, and `\\\"`"@,
    ).coded("E003"@)
}

/// Reading the rest of a string literal.
pub open spec fn scan_string(s: Seq<char>, sc: StringScan) -> StringScan
    decreases s.len() - sc.pos,
{
    let i = sc.pos;
    if !(0 <= i < s.len()) {
        sc
    } else if s[i] == '"' {
        StringScan { pos: i + 1, closed: true, ..sc }
    } else if s[i] == '\n' || s[i] == '\r' {
        sc
    } else if s[i] == '\\' {
        if i + 1 >= s.len() || s[i + 1] == '\n' || s[i + 1] == '\r' {
            StringScan { pos: i + 1, ..sc }
        } else {
            match escape_byte(s[i + 1]) {
                Some(b) => scan_string(
                    s,
                    StringScan { pos: i + 2, value: sc.value.push(b), ..sc },
                ),
                None => scan_string(
                    s,
                    StringScan {
                        pos: i + 2,
                        valid: false,
                        diags: sc.diags.push(escape_error(s, i)),
                        ..sc
                    },
                ),
            }
        }
    } else {
        scan_string(
            s,
            StringScan { pos: i + 1, value: sc.value + encode_scalar(s[i] as u32), ..sc },
        )
    }
}

/// Lexing a string literal.
pub open spec fn string_step(s: Seq<char>, st: LexState) -> LexState {
    let sc = scan_string(
        s,
        StringScan {
            pos: st.pos + 1,
            value: Seq::empty(),
            valid: true,
            closed: false,
            diags: st.diags,
        },
    );
    let after = LexState { diags: sc.diags, ..st };
    if !sc.closed {
        reject(
            s,
            after,
            sc.pos,
            error_view("unterminated string literal"@).label(
                span_of(s, st.pos, sc.pos),
                "string must close before the line ends"@,
            ).coded("E002"@),
        )
    } else if sc.valid {
        emit(s, after, sc.pos, TokenKindView::String(sc.value))
    } else {
        emit(s, after, sc.pos, TokenKindView::Invalid)
    }
}

/// The diagnostic for a character that starts no token.
pub open spec fn unexpected_error(s: Seq<char>, i: int) -> DiagnosticView {
    if s[i] == '&' {
        error_view("unexpected character `&`"@).label(
            span_of(s, i, i + 1),
            "did you mean `&&`?"@,
        ).coded("E000"@)
    } else if s[i] == '|' {
        error_view("unexpected character `|`"@).label(
            span_of(s, i, i + 1),
            "did you mean `||`?"@,
        ).coded("E000"@)
    } else {
        error_view("unexpected character `"@ + seq![s[i]] + "`"@).label(
            span_of(s, i, i + 1),
            "unexpected here"@,
        ).noted("identifiers use letters, digits and `_`; see `let`, `function`"@).coded("E000"@)
    }
}

/// Lexing at the current position.
pub open spec fn lex_step(s: Seq<char>, st: LexState) -> LexState {
    let i = st.pos;
    let c = s[i];
    let next = if i + 1 < s.len() {
        Some(s[i + 1])
    } else {
        None
    };
    if c == ' ' || c == '\t' || c == '\r' || c == '\n' {
        skip_to(st, i + 1)
    } else if c == '/' && next == Some('/') {
        skip_to(st, line_end(s, i))
    } else if pair_kind(c, next) is Some {
        emit(s, st, i + 2, pair_kind(c, next)->0)
    } else if single_kind(c) is Some {
        emit(s, st, i + 1, single_kind(c)->0)
    } else if is_digit(c) {
        number_step(s, st)
    } else if c == '"' {
        string_step(s, st)
    } else if is_letter(c) || c == '_' {
        let e = word_end(s, i);
        emit(s, st, e, word_kind(s.subrange(i, e)))
    } else {
        reject(s, st, i + 1, unexpected_error(s, i))
    }
}

/// Lexing from the current position to the end.
pub open spec fn lex_from(s: Seq<char>, st: LexState) -> LexState
    decreases s.len() - st.pos,
{
    if 0 <= st.pos < s.len() {
        let next = lex_step(s, st);
        if st.pos < next.pos <= s.len() {
            lex_from(s, next)
        } else {
            next
        }
    } else {
        st
    }
}

/// The tokens and diagnostics of a text: what is found from its start on, and
/// an end-of-file token behind the last byte.
pub open spec fn lexed(s: Seq<char>) -> (Seq<TokenView>, Seq<DiagnosticView>) {
    let st = lex_from(s, LexState { pos: 0, toks: Seq::empty(), diags: Seq::empty() });
    (
        st.toks.push(
            TokenView {
                kind: TokenKindView::Eof,
                span: Span {
                    start: offset(s, s.len() as int) as usize,
                    end: offset(s, s.len() as int) as usize,
                },
            },
        ),
        st.diags,
    )
}

// ---------------------------------------------------------------------------
// The lexer
// ---------------------------------------------------------------------------

/// Every run ends at or behind its start, and not beyond the text.
pub proof fn run_ends(s: Seq<char>, i: int)
    requires
        0 <= i <= s.len(),
    ensures
        i <= digits_end(s, i) <= s.len(),
        i <= suffix_end(s, i) <= s.len(),
        i <= word_end(s, i) <= s.len(),
        i <= line_end(s, i) <= s.len(),
    decreases s.len() - i,
{
    if i < s.len() {
        run_ends(s, i + 1);
    }
}

/// Reading a string literal never goes back, nor beyond the text.
pub proof fn scan_string_moves(s: Seq<char>, sc: StringScan)
    requires
        0 <= sc.pos <= s.len(),
    ensures
        sc.pos <= scan_string(s, sc).pos <= s.len(),
    decreases s.len() - sc.pos,
{
    let i = sc.pos;
    if i < s.len() && s[i] != '"' && s[i] != '\n' && s[i] != '\r' {
        if s[i] == '\\' {
            if !(i + 1 >= s.len() || s[i + 1] == '\n' || s[i + 1] == '\r') {
                match escape_byte(s[i + 1]) {
                    Some(b) => scan_string_moves(
                        s,
                        StringScan { pos: i + 2, value: sc.value.push(b), ..sc },
                    ),
                    None => scan_string_moves(
                        s,
                        StringScan {
                            pos: i + 2,
                            valid: false,
                            diags: sc.diags.push(escape_error(s, i)),
                            ..sc
                        },
                    ),
                }
            }
        } else {
            scan_string_moves(
                s,
                StringScan { pos: i + 1, value: sc.value + encode_scalar(s[i] as u32), ..sc },
            );
        }
    }
}

/// Every step moves on, and not beyond the end.
pub proof fn lex_step_moves(s: Seq<char>, st: LexState)
    requires
        0 <= st.pos < s.len(),
    ensures
        st.pos < lex_step(s, st).pos <= s.len(),
{
    let i = st.pos;
    run_ends(s, i);
    run_ends(s, i + 1);
    let j = digits_end(s, i);
    if j + 1 <= s.len() {
        run_ends(s, j + 1);
    }
    run_ends(s, j);
    let k = if j + 1 < s.len() && s[j] == '.' && is_digit(s[j + 1]) {
        digits_end(s, j + 1)
    } else {
        j
    };
    run_ends(s, k);
    scan_string_moves(
        s,
        StringScan {
            pos: i + 1,
            value: Seq::empty(),
            valid: true,
            closed: false,
            diags: st.diags,
        },
    );
}

// ---------------------------------------------------------------------------
// Laws
// ---------------------------------------------------------------------------

/// Whether every label of the diagnostics starts no later than it ends.
pub open spec fn all_ordered(diags: Seq<DiagnosticView>) -> bool {
    forall|i: int| 0 <= i < diags.len() ==> (#[trigger] diags[i]).ordered()
}

/// Whether one of the tokens is invalid.
pub open spec fn some_invalid(toks: Seq<TokenView>) -> bool {
    exists|i: int| 0 <= i < toks.len() && (#[trigger] toks[i]).kind is Invalid
}

/// Whether tokens stand in order, one behind the other, up to an offset, each
/// with at least one byte, and none of them is the end of the file.
pub open spec fn in_order(toks: Seq<TokenView>, end: nat) -> bool {
    &&& forall|i: int|
        0 <= i < toks.len() ==> (#[trigger] toks[i]).span.start < toks[i].span.end
            && toks[i].span.end <= end && !(toks[i].kind is Eof)
    &&& forall|i: int, j: int|
        0 <= i < j < toks.len() ==> (#[trigger] toks[i]).span.end <= (#[trigger] toks[j]).span.start
}

spec fn state_is_sound(s: Seq<char>, st: LexState) -> bool {
    &&& 0 <= st.pos <= s.len()
    &&& in_order(st.toks, offset(s, st.pos))
    &&& all_ordered(st.diags)
    &&& some_invalid(st.toks) == (st.diags.len() > 0)
}

proof fn span_is_ordered(s: Seq<char>, i: int, j: int)
    requires
        0 <= i <= j <= s.len(),
        encode_utf8(s).len() <= usize::MAX,
    ensures
        span_of(s, i, j).ordered(),
        span_of(s, i, j).start == offset(s, i),
        span_of(s, i, j).end == offset(s, j),
        i < j ==> span_of(s, i, j).start < span_of(s, i, j).end,
{
    offsets_increase(s, i, j);
}

proof fn scan_reports(s: Seq<char>, sc: StringScan)
    requires
        0 <= sc.pos <= s.len(),
        encode_utf8(s).len() <= usize::MAX,
        all_ordered(sc.diags),
    ensures
        all_ordered(scan_string(s, sc).diags),
        scan_string(s, sc).valid ==> sc.valid && scan_string(s, sc).diags == sc.diags,
        !scan_string(s, sc).valid && sc.valid ==> scan_string(s, sc).diags.len() > sc.diags.len(),
        scan_string(s, sc).diags.len() >= sc.diags.len(),
    decreases s.len() - sc.pos,
{
    let i = sc.pos;
    if i < s.len() && s[i] != '"' && s[i] != '\n' && s[i] != '\r' {
        if s[i] == '\\' {
            if !(i + 1 >= s.len() || s[i + 1] == '\n' || s[i + 1] == '\r') {
                match escape_byte(s[i + 1]) {
                    Some(b) => scan_reports(
                        s,
                        StringScan { pos: i + 2, value: sc.value.push(b), ..sc },
                    ),
                    None => {
                        span_is_ordered(s, i, i + 2);
                        scan_reports(
                            s,
                            StringScan {
                                pos: i + 2,
                                valid: false,
                                diags: sc.diags.push(escape_error(s, i)),
                                ..sc
                            },
                        );
                    },
                }
            }
        } else {
            scan_reports(
                s,
                StringScan { pos: i + 1, value: sc.value + encode_scalar(s[i] as u32), ..sc },
            );
        }
    }
}

proof fn emitting_is_sound(s: Seq<char>, st: LexState, to: int, kind: TokenKindView)
    requires
        encode_utf8(s).len() <= usize::MAX,
        state_is_sound(s, st),
        st.pos < to <= s.len(),
        !(kind is Eof),
        !(kind is Invalid),
    ensures
        state_is_sound(s, emit(s, st, to, kind)),
{
    let after = emit(s, st, to, kind);
    span_is_ordered(s, st.pos, to);
    assert(forall|i: int| 0 <= i < st.toks.len() ==> after.toks[i] == #[trigger] st.toks[i]);
    if some_invalid(st.toks) {
        let i = choose|i: int| 0 <= i < st.toks.len() && (#[trigger] st.toks[i]).kind is Invalid;
        assert(after.toks[i].kind is Invalid);
    }
}

proof fn rejecting_is_sound(s: Seq<char>, st: LexState, to: int, diags: Seq<DiagnosticView>)
    requires
        encode_utf8(s).len() <= usize::MAX,
        0 <= st.pos <= s.len(),
        in_order(st.toks, offset(s, st.pos)),
        st.pos < to <= s.len(),
        all_ordered(diags),
        diags.len() > 0,
    ensures
        state_is_sound(
            s,
            LexState { diags, ..emit(s, st, to, TokenKindView::Invalid) },
        ),
{
    let after = emit(s, st, to, TokenKindView::Invalid);
    span_is_ordered(s, st.pos, to);
    assert(forall|i: int| 0 <= i < st.toks.len() ==> after.toks[i] == #[trigger] st.toks[i]);
    assert(after.toks[st.toks.len() as int].kind is Invalid);
}

proof fn skipping_is_sound(s: Seq<char>, st: LexState, to: int)
    requires
        encode_utf8(s).len() <= usize::MAX,
        state_is_sound(s, st),
        st.pos <= to <= s.len(),
    ensures
        state_is_sound(s, skip_to(st, to)),
{
    offsets_increase(s, st.pos, to);
}

proof fn step_is_sound(s: Seq<char>, st: LexState)
    requires
        encode_utf8(s).len() <= usize::MAX,
        state_is_sound(s, st),
        st.pos < s.len(),
    ensures
        state_is_sound(s, lex_step(s, st)),
{
    lex_step_moves(s, st);
    let i = st.pos;
    let c = s[i];
    let next = if i + 1 < s.len() {
        Some(s[i + 1])
    } else {
        None
    };
    let after = lex_step(s, st);
    if c == ' ' || c == '\t' || c == '\r' || c == '\n' {
        skipping_is_sound(s, st, i + 1);
    } else if c == '/' && next == Some('/') {
        skipping_is_sound(s, st, after.pos);
    } else if pair_kind(c, next) is Some {
        emitting_is_sound(s, st, i + 2, pair_kind(c, next)->0);
    } else if single_kind(c) is Some {
        emitting_is_sound(s, st, i + 1, single_kind(c)->0);
    } else if is_digit(c) {
        span_is_ordered(s, i, after.pos);
        let j = digits_end(s, i);
        let k = if j + 1 < s.len() && s[j] == '.' && is_digit(s[j + 1]) {
            digits_end(s, j + 1)
        } else {
            j
        };
        match number_kind(s, i, j, k, after.pos) {
            Ok(kind) => emitting_is_sound(s, st, after.pos, kind),
            Err(_) => rejecting_is_sound(s, st, after.pos, after.diags),
        }
    } else if c == '"' {
        let start = StringScan {
            pos: i + 1,
            value: Seq::empty(),
            valid: true,
            closed: false,
            diags: st.diags,
        };
        scan_reports(s, start);
        let sc = scan_string(s, start);
        span_is_ordered(s, i, sc.pos);
        if sc.closed && sc.valid {
            emitting_is_sound(s, st, sc.pos, TokenKindView::String(sc.value));
        } else {
            rejecting_is_sound(s, st, sc.pos, after.diags);
        }
    } else if is_letter(c) || c == '_' {
        emitting_is_sound(s, st, after.pos, word_kind(s.subrange(i, after.pos)));
    } else {
        span_is_ordered(s, i, i + 1);
        rejecting_is_sound(s, st, i + 1, after.diags);
    }
}

proof fn run_is_sound(s: Seq<char>, st: LexState)
    requires
        encode_utf8(s).len() <= usize::MAX,
        state_is_sound(s, st),
    ensures
        state_is_sound(s, lex_from(s, st)),
        lex_from(s, st).pos == s.len(),
    decreases s.len() - st.pos,
{
    if st.pos < s.len() {
        step_is_sound(s, st);
        lex_step_moves(s, st);
        run_is_sound(s, lex_step(s, st));
    }
}

/// The tokens of a text stand in order, one behind the other, inside the text;
/// the last of them, and no other, is the end of the file. There is an invalid
/// token exactly where something is reported, and every report can be rendered.
/// A text that a string can hold has no more bytes than a machine word counts.
pub proof fn tokens_are_sound(s: Seq<char>)
    requires
        encode_utf8(s).len() <= usize::MAX,
    ensures
        lexed(s).0.len() > 0,
        lexed(s).0.last().kind is Eof,
        lexed(s).0.last().span == (Span {
            start: encode_utf8(s).len() as usize,
            end: encode_utf8(s).len() as usize,
        }),
        in_order(lexed(s).0.drop_last(), encode_utf8(s).len()),
        some_invalid(lexed(s).0) == (lexed(s).1.len() > 0),
        all_ordered(lexed(s).1),
{
    let start = LexState { pos: 0, toks: Seq::empty(), diags: Seq::empty() };
    assert(s.take(0) =~= Seq::<char>::empty());
    run_is_sound(s, start);
    let st = lex_from(s, start);
    assert(s.take(s.len() as int) =~= s);
    assert(lexed(s).0.drop_last() =~= st.toks);
    if some_invalid(st.toks) {
        let i = choose|i: int| 0 <= i < st.toks.len() && (#[trigger] st.toks[i]).kind is Invalid;
        assert(lexed(s).0[i].kind is Invalid);
    }
    if some_invalid(lexed(s).0) {
        let i = choose|i: int|
            0 <= i < lexed(s).0.len() && (#[trigger] lexed(s).0[i]).kind is Invalid;
        assert(st.toks[i].kind is Invalid);
    }
}

/// The text under the lexer: its characters, their byte offsets, its bytes.
struct Input<'a> {
    chars: Vec<char>,
    offsets: Vec<usize>,
    bytes: &'a [u8],
}

impl<'a> Input<'a> {
    spec fn wf(&self) -> bool {
        &&& self.offsets@.len() == self.chars@.len() + 1
        &&& forall|i: int|
            0 <= i <= self.chars@.len() ==> #[trigger] self.offsets@[i] == offset(self.chars@, i)
        &&& self.bytes@ == encode_utf8(self.chars@)
    }

    fn of(src: &'a str) -> (r: Self)
        ensures
            r.wf(),
            r.chars@ == src@,
    {
        let chars = chars_of(src);
        let bytes = src.as_bytes();
        let mut offsets: Vec<usize> = Vec::new();
        offsets.push(0);
        let mut i: usize = 0;
        let mut at: usize = 0;
        let ghost s = chars@;
        assert(s.take(0) =~= Seq::<char>::empty());
        assert(offset(s, 0) == 0);
        while i < chars.len()
            invariant
                i <= s.len(),
                s == chars@,
                bytes@ == encode_utf8(s),
                at == offset(s, i as int),
                offsets@.len() == i + 1,
                forall|k: int| 0 <= k <= i ==> #[trigger] offsets@[k] == offset(s, k),
            decreases s.len() - i,
        {
            let c = chars[i];
            proof {
                encode_prefix(s, i as int);
            }
            let w: usize = width(c);
            let _limit: usize = bytes.len();
            at = at + w;
            offsets.push(at);
            i += 1;
        }
        Input { chars, offsets, bytes }
    }

    /// The span of the characters from `i` up to `j`.
    fn span(&self, i: usize, j: usize) -> (r: Span)
        requires
            self.wf(),
            i <= j <= self.chars@.len(),
        ensures
            r == span_of(self.chars@, i as int, j as int),
            r.ordered(),
    {
        proof {
            offsets_increase(self.chars@, i as int, j as int);
        }
        Span { start: self.offsets[i], end: self.offsets[j] }
    }

    /// The end of the digits from `i` on.
    fn digits_end(&self, i: usize) -> (r: usize)
        requires
            i <= self.chars@.len(),
        ensures
            r == digits_end(self.chars@, i as int),
            i <= r <= self.chars@.len(),
    {
        let mut j: usize = i;
        while j < self.chars.len() && digit(self.chars[j])
            invariant
                i <= j <= self.chars@.len(),
                digits_end(self.chars@, j as int) == digits_end(self.chars@, i as int),
            decreases self.chars@.len() - j,
        {
            j += 1;
        }
        j
    }

    /// The end of the letters and digits from `i` on.
    fn suffix_end(&self, i: usize) -> (r: usize)
        requires
            i <= self.chars@.len(),
        ensures
            r == suffix_end(self.chars@, i as int),
            i <= r <= self.chars@.len(),
    {
        let mut j: usize = i;
        while j < self.chars.len() && (digit(self.chars[j]) || letter(self.chars[j]))
            invariant
                i <= j <= self.chars@.len(),
                suffix_end(self.chars@, j as int) == suffix_end(self.chars@, i as int),
            decreases self.chars@.len() - j,
        {
            j += 1;
        }
        j
    }

    /// The end of the word from `i` on.
    fn word_end(&self, i: usize) -> (r: usize)
        requires
            i <= self.chars@.len(),
        ensures
            r == word_end(self.chars@, i as int),
            i <= r <= self.chars@.len(),
    {
        let mut j: usize = i;
        while j < self.chars.len() && (digit(self.chars[j]) || letter(self.chars[j])
            || self.chars[j] == '_')
            invariant
                i <= j <= self.chars@.len(),
                word_end(self.chars@, j as int) == word_end(self.chars@, i as int),
            decreases self.chars@.len() - j,
        {
            j += 1;
        }
        j
    }

    /// The line break at or behind `i`.
    fn line_end(&self, i: usize) -> (r: usize)
        requires
            i <= self.chars@.len(),
        ensures
            r == line_end(self.chars@, i as int),
            i <= r <= self.chars@.len(),
    {
        let mut j: usize = i;
        while j < self.chars.len() && self.chars[j] != '\n'
            invariant
                i <= j <= self.chars@.len(),
                line_end(self.chars@, j as int) == line_end(self.chars@, i as int),
            decreases self.chars@.len() - j,
        {
            j += 1;
        }
        j
    }
}

/// The number of bytes of a character.
fn width(c: char) -> (r: usize)
    ensures
        r == encode_scalar(c as u32).len(),
{
    let u: u32 = c as u32;
    if u <= 0x7f {
        1
    } else if u <= 0x7ff {
        2
    } else if u <= 0xffff {
        3
    } else {
        4
    }
}

fn digit(c: char) -> (r: bool)
    ensures
        r == is_digit(c),
{
    '0' <= c && c <= '9'
}

fn letter(c: char) -> (r: bool)
    ensures
        r == is_letter(c),
{
    ('a' <= c && c <= 'z') || ('A' <= c && c <= 'Z')
}

fn pair(c: char, next: Option<char>) -> (r: Option<TokenKind>)
    ensures
        model::opt(r) == pair_kind(c, next),
{
    match next {
        None => None,
        Some(d) => if c == '=' && d == '=' {
            Some(TokenKind::EqEq)
        } else if c == '!' && d == '=' {
            Some(TokenKind::BangEq)
        } else if c == '<' && d == '=' {
            Some(TokenKind::LtEq)
        } else if c == '>' && d == '=' {
            Some(TokenKind::GtEq)
        } else if c == '&' && d == '&' {
            Some(TokenKind::AmpAmp)
        } else if c == '|' && d == '|' {
            Some(TokenKind::PipePipe)
        } else if c == ':' && d == ':' {
            Some(TokenKind::ColonColon)
        } else {
            None
        },
    }
}

fn single(c: char) -> (r: Option<TokenKind>)
    ensures
        model::opt(r) == single_kind(c),
{
    match c {
        '+' => Some(TokenKind::Plus),
        '-' => Some(TokenKind::Minus),
        '*' => Some(TokenKind::Star),
        '/' => Some(TokenKind::Slash),
        '=' => Some(TokenKind::Eq),
        '!' => Some(TokenKind::Bang),
        '<' => Some(TokenKind::Lt),
        '>' => Some(TokenKind::Gt),
        ';' => Some(TokenKind::Semi),
        '(' => Some(TokenKind::LParen),
        ')' => Some(TokenKind::RParen),
        '{' => Some(TokenKind::LBrace),
        '}' => Some(TokenKind::RBrace),
        '[' => Some(TokenKind::LBracket),
        ']' => Some(TokenKind::RBracket),
        ',' => Some(TokenKind::Comma),
        ':' => Some(TokenKind::Colon),
        '.' => Some(TokenKind::Dot),
        '#' => Some(TokenKind::Hash),
        '`' => Some(TokenKind::Backtick),
        '?' => Some(TokenKind::Question),
        _ => None,
    }
}

fn word(w: String) -> (r: TokenKind)
    ensures
        r@ == word_kind(w@),
{
    let s = w.as_str();
    if str_eq(s, "let") {
        TokenKind::Let
    } else if str_eq(s, "val") {
        TokenKind::Val
    } else if str_eq(s, "var") {
        TokenKind::Var
    } else if str_eq(s, "function") || str_eq(s, "fun") {
        TokenKind::Function
    } else if str_eq(s, "type") {
        TokenKind::Type
    } else if str_eq(s, "object") {
        TokenKind::Object
    } else if str_eq(s, "union") {
        TokenKind::Union
    } else if str_eq(s, "match") {
        TokenKind::Match
    } else if str_eq(s, "null") {
        TokenKind::Null
    } else if str_eq(s, "if") {
        TokenKind::If
    } else if str_eq(s, "else") {
        TokenKind::Else
    } else if str_eq(s, "while") {
        TokenKind::While
    } else if str_eq(s, "break") {
        TokenKind::Break
    } else if str_eq(s, "continue") {
        TokenKind::Continue
    } else if str_eq(s, "return") {
        TokenKind::Return
    } else if str_eq(s, "as") {
        TokenKind::As
    } else if str_eq(s, "extends") {
        TokenKind::Extends
    } else if str_eq(s, "true") {
        TokenKind::Bool(true)
    } else if str_eq(s, "false") {
        TokenKind::Bool(false)
    } else {
        TokenKind::Ident(w)
    }
}

proof fn digits_value_grows(s: Seq<char>, n: int)
    requires
        0 <= n <= s.len(),
    ensures
        digits_value(s.take(n)) <= digits_value(s),
    decreases s.len() - n,
{
    if n < s.len() {
        digits_value_grows(s, n + 1);
        assert(s.take(n + 1).drop_last() =~= s.take(n));
    } else {
        assert(s.take(n) =~= s);
    }
}

proof fn all_digits(s: Seq<char>, i: int)
    requires
        0 <= i <= s.len(),
    ensures
        forall|k: int| i <= k < digits_end(s, i) ==> is_digit(#[trigger] s[k]),
    decreases s.len() - i,
{
    if i < s.len() && is_digit(s[i]) {
        all_digits(s, i + 1);
    }
}

/// The value of the digits from `i` to `j`, where it fits a machine word.
fn word_value(chars: &Vec<char>, i: usize, j: usize) -> (r: Option<u64>)
    requires
        i <= j <= chars@.len(),
        forall|k: int| i <= k < j ==> is_digit(#[trigger] chars@[k]),
    ensures
        match r {
            Some(v) => v == digits_value(chars@.subrange(i as int, j as int)),
            None => digits_value(chars@.subrange(i as int, j as int)) > u64::MAX,
        },
{
    let ghost d = chars@.subrange(i as int, j as int);
    let mut v: u64 = 0;
    let mut n: usize = i;
    assert(d.take(0) =~= Seq::<char>::empty());
    while n < j
        invariant
            i <= n <= j <= chars@.len(),
            d == chars@.subrange(i as int, j as int),
            forall|k: int| i <= k < j ==> is_digit(#[trigger] chars@[k]),
            v == digits_value(d.take(n - i)),
        decreases j - n,
    {
        let c = chars[n];
        let x: u64 = ((c as u32) - 48) as u64;
        proof {
            assert(d.take(n - i + 1).drop_last() =~= d.take(n - i));
            assert(d.take(n - i + 1).last() == c);
            digits_value_grows(d, n - i + 1);
        }
        if v > u64::MAX / 10 {
            return None;
        }
        let t: u64 = v * 10;
        if t > u64::MAX - x {
            return None;
        }
        v = t + x;
        n += 1;
    }
    assert(d.take(d.len() as int) =~= d);
    Some(v)
}

/// The value of the digits from `i` to `j` behind a number read so far.
fn natural_value(
    start: Natural,
    chars: &Vec<char>,
    i: usize,
    j: usize,
    before: Ghost<Seq<char>>,
) -> (r: Natural)
    requires
        i <= j <= chars@.len(),
        forall|k: int| i <= k < j ==> is_digit(#[trigger] chars@[k]),
        start@ == digits_value(before@),
    ensures
        r@ == digits_value(before@ + chars@.subrange(i as int, j as int)),
{
    let mut v = start;
    let mut n: usize = i;
    assert(before@ + chars@.subrange(i as int, i as int) =~= before@);
    while n < j
        invariant
            i <= n <= j <= chars@.len(),
            forall|k: int| i <= k < j ==> is_digit(#[trigger] chars@[k]),
            v@ == digits_value(before@ + chars@.subrange(i as int, n as int)),
        decreases j - n,
    {
        let c = chars[n];
        let x: u64 = ((c as u32) - 48) as u64;
        proof {
            let next = before@ + chars@.subrange(i as int, n + 1);
            assert(next.drop_last() =~= before@ + chars@.subrange(i as int, n as int));
            assert(next.last() == c);
        }
        v = v.mul_add(10, x);
        n += 1;
    }
    v
}

/// The token of a numeric literal, or why it is none.
fn number(input: &Input<'_>, i: usize, j: usize, k: usize, e: usize) -> (r: Result<
    TokenKind,
    &'static str,
>)
    requires
        i <= j <= k <= e <= input.chars@.len(),
        k > j ==> j + 1 < k,
        j == digits_end(input.chars@, i as int),
        k > j ==> k == digits_end(input.chars@, j + 1),
    ensures
        match (r, number_kind(input.chars@, i as int, j as int, k as int, e as int)) {
            (Ok(a), Ok(b)) => a@ == b,
            (Err(a), Err(b)) => a@ == b,
            _ => false,
        },
{
    let suffix = string_of(&input.chars, k, e);
    let s = suffix.as_str();
    proof {
        all_digits(input.chars@, i as int);
    }
    if k > j {
        if !str_eq(s, "f64") {
            return Err("floating literals require the `f64` suffix");
        }
        proof {
            all_digits(input.chars@, j + 1);
            assert(Seq::<char>::empty() + input.chars@.subrange(i as int, j as int)
                =~= input.chars@.subrange(i as int, j as int));
        }
        let whole = natural_value(Natural::zero(), &input.chars, i, j, Ghost(Seq::empty()));
        let n = natural_value(
            whole,
            &input.chars,
            j + 1,
            k,
            Ghost(input.chars@.subrange(i as int, j as int)),
        );
        return Ok(TokenKind::F64(nearest_double(&n, k - j - 1)));
    }
    let value = word_value(&input.chars, i, j);
    if str_eq(s, "") {
        match value {
            Some(v) if v <= 0x7fff_ffff_ffff_ffff => Ok(TokenKind::Int(v as i64)),
            _ => Err("integer literal out of range"),
        }
    } else if str_eq(s, "i64") {
        match value {
            Some(v) if v <= 0x7fff_ffff_ffff_ffff => Ok(TokenKind::I64(v as i64)),
            _ => Err("i64 literal out of range"),
        }
    } else if str_eq(s, "u64") {
        match value {
            Some(v) => Ok(TokenKind::U64(v)),
            None => Err("u64 literal out of range"),
        }
    } else if str_eq(s, "u8") {
        match value {
            Some(v) if v <= 255 => Ok(TokenKind::U8(v as u8)),
            _ => Err("u8 literal out of range"),
        }
    } else {
        Err("unknown numeric literal suffix")
    }
}

fn escape(c: char) -> (r: Option<u8>)
    ensures
        r == escape_byte(c),
{
    match c {
        '0' => Some(0),
        'n' => Some(10),
        'r' => Some(13),
        't' => Some(9),
        '\\' => Some(92),
        '"' => Some(34),
        _ => None,
    }
}

/// The lexer at work.
struct Lexer<'a> {
    input: Input<'a>,
    pos: usize,
    toks: Vec<Token>,
    diags: Vec<Diagnostic>,
}

impl<'a> Lexer<'a> {
    spec fn wf(&self) -> bool {
        self.input.wf() && self.pos <= self.input.chars@.len()
    }

    spec fn text(&self) -> Seq<char> {
        self.input.chars@
    }

    spec fn state(&self) -> LexState {
        LexState {
            pos: self.pos as int,
            toks: model::all(self.toks@),
            diags: model::all(self.diags@),
        }
    }

    /// A token from the current position up to `to`.
    fn emit(&mut self, to: usize, kind: TokenKind)
        requires
            old(self).wf(),
            old(self).pos <= to <= old(self).text().len(),
        ensures
            final(self).wf(),
            final(self).text() == old(self).text(),
            final(self).state() == emit(old(self).text(), old(self).state(), to as int, kind@),
    {
        let span = self.input.span(self.pos, to);
        self.toks.push(Token::new(kind, span));
        self.pos = to;
    }

    /// A diagnostic and an invalid token from the current position up to `to`.
    fn reject(&mut self, to: usize, d: Diagnostic)
        requires
            old(self).wf(),
            old(self).pos <= to <= old(self).text().len(),
        ensures
            final(self).wf(),
            final(self).text() == old(self).text(),
            final(self).state() == reject(old(self).text(), old(self).state(), to as int, d@),
    {
        self.diags.push(d);
        self.emit(to, TokenKind::Invalid);
    }

    fn number_step(&mut self)
        requires
            old(self).wf(),
            old(self).pos < old(self).text().len(),
        ensures
            final(self).wf(),
            final(self).text() == old(self).text(),
            final(self).state() == number_step(old(self).text(), old(self).state()),
    {
        let i: usize = self.pos;
        let j: usize = self.input.digits_end(i);
        let n: usize = self.input.chars.len();
        let float = j < n && j + 1 < n && self.input.chars[j] == '.' && digit(
            self.input.chars[j + 1],
        );
        let k: usize = if float { self.input.digits_end(j + 1) } else { j };
        proof {
            if float {
                run_ends(self.input.chars@, j + 2);
                assert(digits_end(self.input.chars@, j + 1) == digits_end(
                    self.input.chars@,
                    j + 2,
                ));
            }
        }
        let e: usize = self.input.suffix_end(k);
        match number(&self.input, i, j, k, e) {
            Ok(kind) => self.emit(e, kind),
            Err(message) => {
                let span = self.input.span(i, e);
                let d = Diagnostic::error(message).with_label(
                    span,
                    "invalid numeric literal",
                ).with_code("E001");
                self.reject(e, d);
            },
        }
    }

    fn string_step(&mut self)
        requires
            old(self).wf(),
            old(self).pos < old(self).text().len(),
        ensures
            final(self).wf(),
            final(self).text() == old(self).text(),
            final(self).state() == string_step(old(self).text(), old(self).state()),
    {
        let ghost s = self.input.chars@;
        let ghost goal = scan_string(
            s,
            StringScan {
                pos: self.pos + 1,
                value: Seq::empty(),
                valid: true,
                closed: false,
                diags: model::all(self.diags@),
            },
        );
        let n: usize = self.input.chars.len();
        let start: usize = self.pos;
        let mut i: usize = start + 1;
        let mut value: Vec<u8> = Vec::new();
        let mut valid = true;
        let mut closed = false;
        let mut going = true;
        while going
            invariant
                self.input.wf(),
                self.pos == start,
                self.toks == old(self).toks,
                s == self.input.chars@,
                s == old(self).input.chars@,
                start < i <= s.len(),
                goal == if going {
                    scan_string(
                        s,
                        StringScan {
                            pos: i as int,
                            value: value@,
                            valid,
                            closed,
                            diags: model::all(self.diags@),
                        },
                    )
                } else {
                    StringScan {
                        pos: i as int,
                        value: value@,
                        valid,
                        closed,
                        diags: model::all(self.diags@),
                    }
                },
            decreases s.len() - i, (if going { 1int } else { 0 }),
        {
            if i >= self.input.chars.len() {
                going = false;
            } else {
                let c = self.input.chars[i];
                if c == '"' {
                    i += 1;
                    closed = true;
                    going = false;
                } else if c == '\n' || c == '\r' {
                    going = false;
                } else if c == '\\' {
                    if i + 1 >= self.input.chars.len() || self.input.chars[i + 1] == '\n'
                        || self.input.chars[i + 1] == '\r' {
                        i += 1;
                        going = false;
                    } else {
                        match escape(self.input.chars[i + 1]) {
                            Some(b) => value.push(b),
                            None => {
                                valid = false;
                                let span = self.input.span(i, i + 2);
                                let d = Diagnostic::error("unknown string escape").with_label(
                                    span,
                                    "unknown escape",
                                ).with_note(
                                    "supported escapes are `\\0`, `\\n`, `\\r`, `\\t`, `\\\\`, and `\\\"`",
                                ).with_code("E003");
                                self.diags.push(d);
                            },
                        }
                        i += 2;
                    }
                } else {
                    self.push_char(&mut value, i);
                    i += 1;
                }
            }
        }
        if !closed {
            let span = self.input.span(start, i);
            let d = Diagnostic::error("unterminated string literal").with_label(
                span,
                "string must close before the line ends",
            ).with_code("E002");
            self.reject(i, d);
        } else if valid {
            self.emit(i, TokenKind::String(value));
        } else {
            self.emit(i, TokenKind::Invalid);
        }
    }

    /// Appends the bytes of the character at `i`.
    fn push_char(&self, value: &mut Vec<u8>, i: usize)
        requires
            self.input.wf(),
            i < self.input.chars@.len(),
        ensures
            final(value)@ == old(value)@ + encode_scalar(self.input.chars@[i as int] as u32),
    {
        let ghost s = self.input.chars@;
        proof {
            encode_prefix(s, i as int);
        }
        let n: usize = self.input.offsets.len();
        let from: usize = self.input.offsets[i];
        let to: usize = self.input.offsets[i + 1];
        let mut j: usize = from;
        assert(self.input.bytes@.subrange(from as int, from as int) =~= Seq::<u8>::empty());
        while j < to
            invariant
                from <= j <= to <= self.input.bytes@.len(),
                value@ == old(value)@ + self.input.bytes@.subrange(from as int, j as int),
            decreases to - j,
        {
            value.push(self.input.bytes[j]);
            assert(self.input.bytes@.subrange(from as int, j + 1) =~= self.input.bytes@.subrange(
                from as int,
                j as int,
            ).push(self.input.bytes@[j as int]));
            j += 1;
        }
    }

    fn step(&mut self)
        requires
            old(self).wf(),
            old(self).pos < old(self).text().len(),
        ensures
            final(self).wf(),
            final(self).text() == old(self).text(),
            final(self).state() == lex_step(old(self).text(), old(self).state()),
    {
        let i: usize = self.pos;
        let c = self.input.chars[i];
        let n: usize = self.input.chars.len();
        let next: Option<char> = if i + 1 < n {
            Some(self.input.chars[i + 1])
        } else {
            None
        };
        proof {
            run_ends(self.input.chars@, i as int);
            run_ends(self.input.chars@, i + 1);
        }
        if c == ' ' || c == '\t' || c == '\r' || c == '\n' {
            self.pos = i + 1;
            return ;
        }
        let comment = match next {
            Some(d) => c == '/' && d == '/',
            None => false,
        };
        if comment {
            self.pos = self.input.line_end(i);
            return ;
        }
        match pair(c, next) {
            Some(kind) => {
                self.emit(i + 2, kind);
                return ;
            },
            None => {},
        }
        match single(c) {
            Some(kind) => {
                self.emit(i + 1, kind);
                return ;
            },
            None => {},
        }
        if digit(c) {
            self.number_step();
        } else if c == '"' {
            self.string_step();
        } else if letter(c) || c == '_' {
            let e: usize = self.input.word_end(i);
            let w = string_of(&self.input.chars, i, e);
            self.emit(e, word(w));
        } else {
            let span = self.input.span(i, i + 1);
            let d = if c == '&' {
                Diagnostic::error("unexpected character `&`").with_label(
                    span,
                    "did you mean `&&`?",
                ).with_code("E000")
            } else if c == '|' {
                Diagnostic::error("unexpected character `|`").with_label(
                    span,
                    "did you mean `||`?",
                ).with_code("E000")
            } else {
                let mut shown = String::new();
                shown.push(c);
                assert(shown@ =~= seq![c]);
                Diagnostic::error(
                    cat3("unexpected character `", shown.as_str(), "`").as_str(),
                ).with_label(span, "unexpected here").with_note(
                    "identifiers use letters, digits and `_`; see `let`, `function`",
                ).with_code("E000")
            };
            self.reject(i + 1, d);
        }
    }
}

/// Splits a source text into tokens. The last token is the end-of-file token.
pub fn lex(src: &str) -> (r: (Vec<Token>, Vec<Diagnostic>))
    ensures
        (model::all(r.0@), model::all(r.1@)) == lexed(src@),
{
    let input = Input::of(src);
    let n: usize = input.chars.len();
    let mut l = Lexer { input, pos: 0, toks: Vec::new(), diags: Vec::new() };
    let ghost goal = lex_from(src@, l.state());
    while l.pos < n
        invariant
            l.wf(),
            l.text() == src@,
            n == src@.len(),
            goal == lex_from(src@, l.state()),
        decreases n - l.pos,
    {
        proof {
            lex_step_moves(src@, l.state());
        }
        l.step();
    }
    let end: usize = l.input.offsets[n];
    l.toks.push(Token::new(TokenKind::Eof, Span::empty(end)));
    (l.toks, l.diags)
}

} // verus!
