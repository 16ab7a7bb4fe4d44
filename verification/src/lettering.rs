//! Tokens say what the text says: the characters of each token spell it, what
//! stands between tokens is blank or a comment, and no token could be longer.

use vstd::prelude::*;
use vstd::utf8::encode_scalar;

use crate::lex::{LexState, StringScan};
use crate::token::{TokenKindView, TokenView};
use crate::{float, lex, text};

verus! {

// ---------------------------------------------------------------------------
// What characters say
// ---------------------------------------------------------------------------

/// Whether a character is one of a name.
pub open spec fn in_name(c: char) -> bool {
    ('a' <= c <= 'z') || ('A' <= c <= 'Z') || ('0' <= c <= '9') || c == '_'
}

/// Whether characters are those of a name: letters, digits and underscores, the
/// first no digit.
pub open spec fn is_name(cs: Seq<char>) -> bool {
    &&& cs.len() > 0
    &&& !('0' <= cs[0] <= '9')
    &&& forall|i: int| 0 <= i < cs.len() ==> in_name(#[trigger] cs[i])
}

/// Whether characters are digits, at least one.
pub open spec fn all_digits(cs: Seq<char>) -> bool {
    cs.len() > 0 && forall|i: int| 0 <= i < cs.len() ==> '0' <= #[trigger] cs[i] <= '9'
}

/// The number that digits are in base ten.
pub open spec fn decimal(cs: Seq<char>) -> nat
    decreases cs.len(),
{
    if cs.len() == 0 {
        0
    } else {
        10 * decimal(cs.drop_last()) + (cs.last() as int - '0' as int) as nat
    }
}

/// Whether characters are a number and a suffix behind it.
pub open spec fn is_numeral(cs: Seq<char>, suffix: Seq<char>, v: int) -> bool {
    exists|digits: Seq<char>| #[trigger]
        all_digits(digits) && cs == digits + suffix && decimal(digits) == v
}

/// Whether characters are a fraction, of which a double with some bits is the
/// nearest.
pub open spec fn is_fraction(cs: Seq<char>, bits: u64) -> bool {
    exists|a: Seq<char>, b: Seq<char>| #[trigger]
        all_digits(a) && #[trigger] all_digits(b) && cs == a + seq!['.'] + b + "f64"@ && bits
            == float::nearest_bits(decimal(a + b), b.len())
}

/// The byte that a character behind a backslash means.
pub open spec fn escaped(c: char) -> Option<u8> {
    match c {
        '0' => Some(0u8),
        't' => Some(9u8),
        'n' => Some(10u8),
        'r' => Some(13u8),
        '"' => Some(34u8),
        '\\' => Some(92u8),
        _ => None,
    }
}

/// The bytes that characters between quotes mean.
pub open spec fn meant(cs: Seq<char>) -> Option<Seq<u8>>
    decreases cs.len(),
{
    if cs.len() == 0 {
        Some(Seq::empty())
    } else if cs[0] == '\\' {
        if cs.len() < 2 {
            None
        } else {
            match (escaped(cs[1]), meant(cs.skip(2))) {
                (Some(b), Some(rest)) => Some(seq![b] + rest),
                _ => None,
            }
        }
    } else if cs[0] == '"' {
        None
    } else {
        match meant(cs.skip(1)) {
            Some(rest) => Some(encode_scalar(cs[0] as u32) + rest),
            None => None,
        }
    }
}

/// Whether characters are a string in quotes that means some bytes.
pub open spec fn is_quoted(cs: Seq<char>, bytes: Seq<u8>) -> bool {
    &&& cs.len() >= 2
    &&& cs[0] == '"'
    &&& cs.last() == '"'
    &&& meant(cs.subrange(1, cs.len() - 1)) == Some(bytes)
}

/// The keyword that a word is.
pub open spec fn keyword(cs: Seq<char>) -> Option<TokenKindView> {
    if cs == "let"@ {
        Some(TokenKindView::Let)
    } else if cs == "val"@ {
        Some(TokenKindView::Val)
    } else if cs == "var"@ {
        Some(TokenKindView::Var)
    } else if cs == "function"@ || cs == "fun"@ {
        Some(TokenKindView::Function)
    } else if cs == "type"@ {
        Some(TokenKindView::Type)
    } else if cs == "object"@ {
        Some(TokenKindView::Object)
    } else if cs == "union"@ {
        Some(TokenKindView::Union)
    } else if cs == "match"@ {
        Some(TokenKindView::Match)
    } else if cs == "null"@ {
        Some(TokenKindView::Null)
    } else if cs == "if"@ {
        Some(TokenKindView::If)
    } else if cs == "else"@ {
        Some(TokenKindView::Else)
    } else if cs == "while"@ {
        Some(TokenKindView::While)
    } else if cs == "break"@ {
        Some(TokenKindView::Break)
    } else if cs == "continue"@ {
        Some(TokenKindView::Continue)
    } else if cs == "return"@ {
        Some(TokenKindView::Return)
    } else if cs == "as"@ {
        Some(TokenKindView::As)
    } else if cs == "extends"@ {
        Some(TokenKindView::Extends)
    } else if cs == "true"@ {
        Some(TokenKindView::Bool(true))
    } else if cs == "false"@ {
        Some(TokenKindView::Bool(false))
    } else {
        None
    }
}

/// Whether a character follows that a name or a number would go on with.
pub open spec fn goes_on(next: Option<char>, name: bool) -> bool {
    match next {
        Some(c) => in_name(c) && (name || c != '_'),
        None => false,
    }
}

/// Whether characters, with another one behind them, say a token.
pub open spec fn says(kind: TokenKindView, cs: Seq<char>, next: Option<char>) -> bool {
    match kind {
        TokenKindView::Ident(n) => cs == n && is_name(cs) && keyword(cs) is None && !goes_on(
            next,
            true,
        ),
        TokenKindView::Int(v) => is_numeral(cs, Seq::empty(), v as int) && !goes_on(next, false),
        TokenKindView::I64(v) => is_numeral(cs, "i64"@, v as int) && !goes_on(next, false),
        TokenKindView::U64(v) => is_numeral(cs, "u64"@, v as int) && !goes_on(next, false),
        TokenKindView::U8(v) => is_numeral(cs, "u8"@, v as int) && !goes_on(next, false),
        TokenKindView::F64(bits) => is_fraction(cs, bits) && !goes_on(next, false),
        TokenKindView::String(bytes) => is_quoted(cs, bytes),
        TokenKindView::Plus => cs == seq!['+'],
        TokenKindView::Minus => cs == seq!['-'],
        TokenKindView::Star => cs == seq!['*'],
        TokenKindView::Slash => cs == seq!['/'] && next != Some('/'),
        TokenKindView::Eq => cs == seq!['='] && next != Some('='),
        TokenKindView::EqEq => cs == seq!['=', '='],
        TokenKindView::Bang => cs == seq!['!'] && next != Some('='),
        TokenKindView::BangEq => cs == seq!['!', '='],
        TokenKindView::Lt => cs == seq!['<'] && next != Some('='),
        TokenKindView::LtEq => cs == seq!['<', '='],
        TokenKindView::Gt => cs == seq!['>'] && next != Some('='),
        TokenKindView::GtEq => cs == seq!['>', '='],
        TokenKindView::AmpAmp => cs == seq!['&', '&'],
        TokenKindView::PipePipe => cs == seq!['|', '|'],
        TokenKindView::Semi => cs == seq![';'],
        TokenKindView::LParen => cs == seq!['('],
        TokenKindView::RParen => cs == seq![')'],
        TokenKindView::LBrace => cs == seq!['{'],
        TokenKindView::RBrace => cs == seq!['}'],
        TokenKindView::LBracket => cs == seq!['['],
        TokenKindView::RBracket => cs == seq![']'],
        TokenKindView::Comma => cs == seq![','],
        TokenKindView::Dot => cs == seq!['.'],
        TokenKindView::Colon => cs == seq![':'] && next != Some(':'),
        TokenKindView::ColonColon => cs == seq![':', ':'],
        TokenKindView::Hash => cs == seq!['#'],
        TokenKindView::Backtick => cs == seq!['`'],
        TokenKindView::Question => cs == seq!['?'],
        TokenKindView::Invalid => cs.len() > 0,
        TokenKindView::Eof => false,
        k => keyword(cs) == Some(k) && !goes_on(next, true),
    }
}

/// The character at a position, if there is one.
pub open spec fn char_at(s: Seq<char>, i: int) -> Option<char> {
    if 0 <= i < s.len() {
        Some(s[i])
    } else {
        None
    }
}

/// Whether the characters from a position to another are one blank, or one comment
/// up to the end of its line.
pub open spec fn is_gap(s: Seq<char>, k: int, i: int) -> bool {
    ||| i == k + 1 && (s[k] == ' ' || s[k] == '\t' || s[k] == '\r' || s[k] == '\n')
    ||| {
        &&& k + 2 <= i
        &&& s[k] == '/'
        &&& s[k + 1] == '/'
        &&& forall|j: int| k <= j < i ==> #[trigger] s[j] != '\n'
        &&& i == s.len() || s[i] == '\n'
    }
}

/// Whether the characters from a position to another are blanks and comments.
pub open spec fn is_blank(s: Seq<char>, b: int, i: int) -> bool
    decreases i - b,
{
    b == i || exists|k: int| b <= k < i && #[trigger] is_gap(s, k, i) && is_blank(s, b, k)
}

/// Whether tokens cover the characters up to a position, each saying what its
/// characters say, with blanks and comments between them.
pub open spec fn covers(s: Seq<char>, i: int, toks: Seq<TokenView>) -> bool
    decreases toks.len(),
{
    if toks.len() == 0 {
        is_blank(s, 0, i)
    } else {
        exists|a: int, b: int|
            0 <= a < b <= i && toks.last().span == #[trigger] lex::span_of(s, a, b) && says(
                toks.last().kind,
                s.subrange(a, b),
                char_at(s, b),
            ) && is_blank(s, b, i) && covers(s, a, toks.drop_last())
    }
}

// ---------------------------------------------------------------------------
// Runs
// ---------------------------------------------------------------------------

proof fn digits_run(s: Seq<char>, i: int)
    requires
        0 <= i <= s.len(),
    ensures
        ({
            let e = lex::digits_end(s, i);
            &&& i <= e <= s.len()
            &&& forall|j: int| i <= j < e ==> '0' <= #[trigger] s[j] <= '9'
            &&& e < s.len() ==> !('0' <= s[e] <= '9')
        }),
    decreases s.len() - i,
{
    if i < s.len() && lex::is_digit(s[i]) {
        digits_run(s, i + 1);
    }
}

proof fn suffix_run(s: Seq<char>, i: int)
    requires
        0 <= i <= s.len(),
    ensures
        i <= lex::suffix_end(s, i) <= s.len(),
        !goes_on(char_at(s, lex::suffix_end(s, i)), false),
    decreases s.len() - i,
{
    if i < s.len() && (lex::is_digit(s[i]) || lex::is_letter(s[i])) {
        suffix_run(s, i + 1);
    }
}

proof fn word_run(s: Seq<char>, i: int)
    requires
        0 <= i <= s.len(),
    ensures
        ({
            let e = lex::word_end(s, i);
            &&& i <= e <= s.len()
            &&& forall|j: int| i <= j < e ==> in_name(#[trigger] s[j])
            &&& !goes_on(char_at(s, e), true)
        }),
    decreases s.len() - i,
{
    if i < s.len() && (lex::is_digit(s[i]) || lex::is_letter(s[i]) || s[i] == '_') {
        word_run(s, i + 1);
    }
}

proof fn line_run(s: Seq<char>, i: int)
    requires
        0 <= i <= s.len(),
    ensures
        ({
            let e = lex::line_end(s, i);
            &&& i <= e <= s.len()
            &&& forall|j: int| i <= j < e ==> #[trigger] s[j] != '\n'
            &&& e == s.len() || s[e] == '\n'
        }),
    decreases s.len() - i,
{
    if i < s.len() && s[i] != '\n' {
        line_run(s, i + 1);
    }
}

proof fn values_agree(cs: Seq<char>)
    requires
        forall|i: int| 0 <= i < cs.len() ==> '0' <= #[trigger] cs[i] <= '9',
    ensures
        lex::digits_value(cs) == decimal(cs),
    decreases cs.len(),
{
    if cs.len() > 0 {
        let front = cs.drop_last();
        assert forall|i: int| 0 <= i < front.len() implies '0' <= #[trigger] front[i] <= '9' by {
            assert(front[i] == cs[i]);
        }
        values_agree(front);
    }
}

proof fn numbers_say(s: Seq<char>, i: int)
    requires
        0 <= i < s.len(),
        lex::is_digit(s[i]),
    ensures
        ({
            let j = lex::digits_end(s, i);
            let float = j + 1 < s.len() && s[j] == '.' && lex::is_digit(s[j + 1]);
            let k = if float {
                lex::digits_end(s, j + 1)
            } else {
                j
            };
            let e = lex::suffix_end(s, k);
            &&& i < e <= s.len()
            &&& lex::number_kind(s, i, j, k, e) matches Ok(kind) ==> says(
                kind,
                s.subrange(i, e),
                char_at(s, e),
            )
        }),
{
    let j = lex::digits_end(s, i);
    digits_run(s, i);
    let float = j + 1 < s.len() && s[j] == '.' && lex::is_digit(s[j + 1]);
    let k = if float {
        lex::digits_end(s, j + 1)
    } else {
        j
    };
    if float {
        digits_run(s, j + 1);
    }
    suffix_run(s, k);
    let e = lex::suffix_end(s, k);
    let a = s.subrange(i, j);
    assert(j > i) by {
        assert(lex::digits_end(s, i) == lex::digits_end(s, i + 1));
        digits_run(s, i + 1);
    }
    assert(all_digits(a)) by {
        assert forall|n: int| 0 <= n < a.len() implies '0' <= #[trigger] a[n] <= '9' by {
            assert(a[n] == s[i + n]);
        }
    }
    values_agree(a);
    let suffix = s.subrange(k, e);
    if float {
        let b = s.subrange(j + 1, k);
        assert(k > j + 1) by {
            assert(lex::digits_end(s, j + 1) == lex::digits_end(s, j + 2));
            digits_run(s, j + 2);
        }
        assert(all_digits(b)) by {
            assert forall|n: int| 0 <= n < b.len() implies '0' <= #[trigger] b[n] <= '9' by {
                assert(b[n] == s[j + 1 + n]);
            }
        }
        values_agree(a + b);
        assert(s.subrange(i, e) =~= a + seq!['.'] + b + suffix);
        assert(b.len() == k - j - 1);
        if suffix == "f64"@ {
            assert(is_fraction(
                s.subrange(i, e),
                float::nearest_bits(decimal(a + b), b.len()),
            ));
        }
    } else {
        reveal_strlit("");
        assert(s.subrange(i, e) =~= a + suffix);
        assert(""@ =~= Seq::<char>::empty());
        assert(all_digits(a) && s.subrange(i, e) == a + suffix && decimal(a) == lex::digits_value(
            a,
        ));
    }
}

proof fn strings_say(s: Seq<char>, sc: StringScan)
    requires
        0 <= sc.pos <= s.len(),
        sc.valid,
        !sc.closed,
    ensures
        ({
            let t = lex::scan_string(s, sc);
            &&& sc.pos <= t.pos <= s.len()
            &&& t.closed && t.valid ==> {
                &&& sc.pos < t.pos
                &&& s[t.pos - 1] == '"'
                &&& meant(s.subrange(sc.pos, t.pos - 1)) matches Some(bs) && t.value == sc.value
                    + bs
            }
        }),
    decreases s.len() - sc.pos,
{
    let i = sc.pos;
    let t = lex::scan_string(s, sc);
    if i < s.len() {
        if s[i] == '"' {
            assert(s.subrange(i, i).len() == 0);
            assert(sc.value =~= sc.value + Seq::<u8>::empty());
        } else if s[i] == '\n' || s[i] == '\r' {
        } else if s[i] == '\\' {
            if !(i + 1 >= s.len() || s[i + 1] == '\n' || s[i + 1] == '\r') {
                match lex::escape_byte(s[i + 1]) {
                    Some(b) => {
                        let next = StringScan { pos: i + 2, value: sc.value.push(b), ..sc };
                        strings_say(s, next);
                        if t.closed && t.valid {
                            let cs = s.subrange(i, t.pos - 1);
                            assert(cs.skip(2) =~= s.subrange(i + 2, t.pos - 1));
                            assert(cs[0] == s[i] && cs[1] == s[i + 1]);
                            let rest = meant(cs.skip(2))->0;
                            assert(meant(cs) == Some(seq![b] + rest));
                            assert(t.value =~= sc.value + (seq![b] + rest));
                        }
                    },
                    None => {
                        bad_strings_stay_bad(
                            s,
                            StringScan {
                                pos: i + 2,
                                valid: false,
                                diags: sc.diags.push(lex::escape_error(s, i)),
                                ..sc
                            },
                        );
                    },
                }
            }
        } else {
            let next = StringScan {
                pos: i + 1,
                value: sc.value + encode_scalar(s[i] as u32),
                ..sc
            };
            strings_say(s, next);
            if t.closed && t.valid {
                let cs = s.subrange(i, t.pos - 1);
                assert(cs.skip(1) =~= s.subrange(i + 1, t.pos - 1));
                assert(cs[0] == s[i]);
                let rest = meant(cs.skip(1))->0;
                assert(t.value =~= sc.value + (encode_scalar(s[i] as u32) + rest));
            }
        }
    }
}

proof fn bad_strings_stay_bad(s: Seq<char>, sc: StringScan)
    requires
        0 <= sc.pos <= s.len(),
        !sc.valid,
    ensures
        !lex::scan_string(s, sc).valid,
        sc.pos <= lex::scan_string(s, sc).pos <= s.len(),
    decreases s.len() - sc.pos,
{
    let i = sc.pos;
    if i < s.len() && s[i] != '"' && s[i] != '\n' && s[i] != '\r' {
        if s[i] == '\\' {
            if !(i + 1 >= s.len() || s[i + 1] == '\n' || s[i + 1] == '\r') {
                match lex::escape_byte(s[i + 1]) {
                    Some(b) => bad_strings_stay_bad(
                        s,
                        StringScan { pos: i + 2, value: sc.value.push(b), ..sc },
                    ),
                    None => bad_strings_stay_bad(
                        s,
                        StringScan {
                            pos: i + 2,
                            valid: false,
                            diags: sc.diags.push(lex::escape_error(s, i)),
                            ..sc
                        },
                    ),
                }
            }
        } else {
            bad_strings_stay_bad(
                s,
                StringScan { pos: i + 1, value: sc.value + encode_scalar(s[i] as u32), ..sc },
            );
        }
    }
}

// ---------------------------------------------------------------------------
// Steps
// ---------------------------------------------------------------------------

proof fn gap_grows(s: Seq<char>, b: int, k: int, i: int)
    requires
        b <= k < i,
        is_blank(s, b, k),
        is_gap(s, k, i),
    ensures
        is_blank(s, b, i),
{
}

proof fn skipping_covers(s: Seq<char>, k: int, i: int, toks: Seq<TokenView>)
    requires
        0 <= k < i <= s.len(),
        covers(s, k, toks),
        is_gap(s, k, i),
    ensures
        covers(s, i, toks),
{
    if toks.len() == 0 {
        gap_grows(s, 0, k, i);
    } else {
        let (a, b) = choose|a: int, b: int|
            0 <= a < b <= k && toks.last().span == #[trigger] lex::span_of(s, a, b) && says(
                toks.last().kind,
                s.subrange(a, b),
                char_at(s, b),
            ) && is_blank(s, b, k) && covers(s, a, toks.drop_last());
        gap_grows(s, b, k, i);
        assert(toks.last().span == lex::span_of(s, a, b));
    }
}

proof fn emitting_covers(s: Seq<char>, st: LexState, to: int, kind: TokenKindView)
    requires
        0 <= st.pos < to <= s.len(),
        covers(s, st.pos, st.toks),
        says(kind, s.subrange(st.pos, to), char_at(s, to)),
    ensures
        covers(s, to, lex::emit(s, st, to, kind).toks),
{
    let toks = lex::emit(s, st, to, kind).toks;
    assert(toks.drop_last() =~= st.toks);
    assert(is_blank(s, to, to));
    assert(toks.last().span == lex::span_of(s, st.pos, to));
}

#[verifier::rlimit(60)]
proof fn step_covers(s: Seq<char>, st: LexState)
    requires
        0 <= st.pos < s.len(),
        covers(s, st.pos, st.toks),
    ensures
        covers(s, lex::lex_step(s, st).pos, lex::lex_step(s, st).toks),
{
    lex::lex_step_moves(s, st);
    let i = st.pos;
    let c = s[i];
    let next = if i + 1 < s.len() {
        Some(s[i + 1])
    } else {
        None
    };
    let after = lex::lex_step(s, st);
    if c == ' ' || c == '\t' || c == '\r' || c == '\n' {
        skipping_covers(s, i, i + 1, st.toks);
    } else if c == '/' && next == Some('/') {
        line_run(s, i);
        assert(lex::line_end(s, i) == lex::line_end(s, i + 1));
        assert(lex::line_end(s, i + 1) == lex::line_end(s, i + 2));
        if i + 2 <= s.len() {
            line_run(s, i + 2);
        }
        skipping_covers(s, i, after.pos, st.toks);
    } else if lex::pair_kind(c, next) is Some {
        let kind = lex::pair_kind(c, next)->0;
        assert(s.subrange(i, i + 2) =~= seq![c, s[i + 1]]);
        emitting_covers(s, st, i + 2, kind);
    } else if lex::single_kind(c) is Some {
        assert(s.subrange(i, i + 1) =~= seq![c]);
        assert(char_at(s, i + 1) == next);
        emitting_covers(s, st, i + 1, lex::single_kind(c)->0);
    } else if lex::is_digit(c) {
        numbers_say(s, i);
        let j = lex::digits_end(s, i);
        let k = if j + 1 < s.len() && s[j] == '.' && lex::is_digit(s[j + 1]) {
            lex::digits_end(s, j + 1)
        } else {
            j
        };
        match lex::number_kind(s, i, j, k, after.pos) {
            Ok(kind) => emitting_covers(s, st, after.pos, kind),
            Err(_) => emitting_covers(s, st, after.pos, TokenKindView::Invalid),
        }
    } else if c == '"' {
        let start = StringScan {
            pos: i + 1,
            value: Seq::empty(),
            valid: true,
            closed: false,
            diags: st.diags,
        };
        strings_say(s, start);
        let sc = lex::scan_string(s, start);
        if sc.closed && sc.valid {
            let cs = s.subrange(i, sc.pos);
            assert(cs.subrange(1, cs.len() - 1) =~= s.subrange(i + 1, sc.pos - 1));
            assert(sc.value =~= meant(s.subrange(i + 1, sc.pos - 1))->0);
            emitting_covers(s, st, sc.pos, TokenKindView::String(sc.value));
        } else {
            emitting_covers(s, st, sc.pos, TokenKindView::Invalid);
        }
    } else if lex::is_letter(c) || c == '_' {
        word_run(s, i);
        let e = lex::word_end(s, i);
        let cs = s.subrange(i, e);
        assert forall|j: int| 0 <= j < cs.len() implies in_name(#[trigger] cs[j]) by {
            assert(cs[j] == s[i + j]);
        }
        assert(cs[0] == c);
        words_are_told_apart(cs);
        emitting_covers(s, st, e, lex::word_kind(cs));
    } else {
        emitting_covers(s, st, i + 1, TokenKindView::Invalid);
    }
}

proof fn words_are_told_apart(cs: Seq<char>)
    ensures
        match keyword(cs) {
            Some(k) => lex::word_kind(cs) == k,
            None => lex::word_kind(cs) == TokenKindView::Ident(cs),
        },
{
}

proof fn run_covers(s: Seq<char>, st: LexState)
    requires
        0 <= st.pos <= s.len(),
        covers(s, st.pos, st.toks),
    ensures
        covers(s, s.len() as int, lex::lex_from(s, st).toks),
    decreases s.len() - st.pos,
{
    if st.pos < s.len() {
        lex::lex_step_moves(s, st);
        step_covers(s, st);
        run_covers(s, lex::lex_step(s, st));
    }
}

/// The tokens of a text, but for the end of the file, cover it: each says what its
/// characters say and could not be longer, and between them there is nothing but
/// blanks and comments.
pub proof fn tokens_cover_the_text(s: Seq<char>)
    ensures
        covers(s, s.len() as int, lex::lexed(s).0.drop_last()),
{
    let start = LexState { pos: 0, toks: Seq::empty(), diags: Seq::empty() };
    assert(is_blank(s, 0, 0));
    run_covers(s, start);
    assert(lex::lexed(s).0.drop_last() =~= lex::lex_from(s, start).toks);
}

/// The numeral of a number is made of digits, starts with a zero only where it is
/// zero, and means the number.
pub proof fn numerals_read_back(n: nat)
    ensures
        all_digits(text::dec(n)),
        decimal(text::dec(n)) == n,
        n > 0 ==> text::dec(n)[0] != '0',
    decreases n,
{
    let c = text::digit_char(n % 10);
    assert(c as int == '0' as int + n % 10);
    if n < 10 {
        assert(seq![c].drop_last() =~= Seq::<char>::empty());
        assert(decimal(Seq::<char>::empty()) == 0);
    } else {
        numerals_read_back(n / 10);
        let front = text::dec(n / 10);
        assert(front.push(c).drop_last() =~= front);
        assert forall|i: int| 0 <= i < front.push(c).len() implies '0' <= #[trigger] front.push(
            c,
        )[i] <= '9' by {
            if i < front.len() {
                assert(front.push(c)[i] == front[i]);
            }
        }
    }
}

} // verus!
