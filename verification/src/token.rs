//! Tokens.

use vstd::prelude::*;

use crate::span::Span;
use crate::text::{cat3, dec_i64, dec_u64, owned};
use crate::{float, text};

verus! {

/// What a token is.
#[derive(Debug, PartialEq, Eq)]
pub enum TokenKind {
    /// A name.
    Ident(std::string::String),
    /// An integer literal without a suffix.
    Int(i64),
    /// An `i64` literal.
    I64(i64),
    /// A `u64` literal.
    U64(u64),
    /// An `f64` literal, by its bit pattern.
    F64(u64),
    /// A `u8` literal.
    U8(u8),
    /// `true` or `false`.
    Bool(bool),
    /// A string literal, by its bytes.
    String(Vec<u8>),
    Let,
    Val,
    Var,
    Function,
    Type,
    Object,
    Union,
    Match,
    Null,
    If,
    Else,
    While,
    Break,
    Continue,
    Return,
    As,
    Extends,
    Plus,
    Minus,
    Star,
    Slash,
    Eq,
    EqEq,
    Bang,
    BangEq,
    Lt,
    LtEq,
    Gt,
    GtEq,
    AmpAmp,
    PipePipe,
    Semi,
    LParen,
    RParen,
    LBrace,
    RBrace,
    LBracket,
    RBracket,
    Comma,
    Dot,
    Colon,
    ColonColon,
    Hash,
    Backtick,
    Question,
    Invalid,
    Eof,
}

/// The content of a [`TokenKind`].
pub enum TokenKindView {
    Ident(Seq<char>),
    Int(i64),
    I64(i64),
    U64(u64),
    F64(u64),
    U8(u8),
    Bool(bool),
    String(Seq<u8>),
    Let,
    Val,
    Var,
    Function,
    Type,
    Object,
    Union,
    Match,
    Null,
    If,
    Else,
    While,
    Break,
    Continue,
    Return,
    As,
    Extends,
    Plus,
    Minus,
    Star,
    Slash,
    Eq,
    EqEq,
    Bang,
    BangEq,
    Lt,
    LtEq,
    Gt,
    GtEq,
    AmpAmp,
    PipePipe,
    Semi,
    LParen,
    RParen,
    LBrace,
    RBrace,
    LBracket,
    RBracket,
    Comma,
    Dot,
    Colon,
    ColonColon,
    Hash,
    Backtick,
    Question,
    Invalid,
    Eof,
}

impl View for TokenKind {
    type V = TokenKindView;

    open spec fn view(&self) -> TokenKindView {
        match *self {
            TokenKind::Ident(v) => TokenKindView::Ident(v@),
            TokenKind::Int(v) => TokenKindView::Int(v),
            TokenKind::I64(v) => TokenKindView::I64(v),
            TokenKind::U64(v) => TokenKindView::U64(v),
            TokenKind::F64(v) => TokenKindView::F64(v),
            TokenKind::U8(v) => TokenKindView::U8(v),
            TokenKind::Bool(v) => TokenKindView::Bool(v),
            TokenKind::String(v) => TokenKindView::String(v@),
            TokenKind::Let => TokenKindView::Let,
            TokenKind::Val => TokenKindView::Val,
            TokenKind::Var => TokenKindView::Var,
            TokenKind::Function => TokenKindView::Function,
            TokenKind::Type => TokenKindView::Type,
            TokenKind::Object => TokenKindView::Object,
            TokenKind::Union => TokenKindView::Union,
            TokenKind::Match => TokenKindView::Match,
            TokenKind::Null => TokenKindView::Null,
            TokenKind::If => TokenKindView::If,
            TokenKind::Else => TokenKindView::Else,
            TokenKind::While => TokenKindView::While,
            TokenKind::Break => TokenKindView::Break,
            TokenKind::Continue => TokenKindView::Continue,
            TokenKind::Return => TokenKindView::Return,
            TokenKind::As => TokenKindView::As,
            TokenKind::Extends => TokenKindView::Extends,
            TokenKind::Plus => TokenKindView::Plus,
            TokenKind::Minus => TokenKindView::Minus,
            TokenKind::Star => TokenKindView::Star,
            TokenKind::Slash => TokenKindView::Slash,
            TokenKind::Eq => TokenKindView::Eq,
            TokenKind::EqEq => TokenKindView::EqEq,
            TokenKind::Bang => TokenKindView::Bang,
            TokenKind::BangEq => TokenKindView::BangEq,
            TokenKind::Lt => TokenKindView::Lt,
            TokenKind::LtEq => TokenKindView::LtEq,
            TokenKind::Gt => TokenKindView::Gt,
            TokenKind::GtEq => TokenKindView::GtEq,
            TokenKind::AmpAmp => TokenKindView::AmpAmp,
            TokenKind::PipePipe => TokenKindView::PipePipe,
            TokenKind::Semi => TokenKindView::Semi,
            TokenKind::LParen => TokenKindView::LParen,
            TokenKind::RParen => TokenKindView::RParen,
            TokenKind::LBrace => TokenKindView::LBrace,
            TokenKind::RBrace => TokenKindView::RBrace,
            TokenKind::LBracket => TokenKindView::LBracket,
            TokenKind::RBracket => TokenKindView::RBracket,
            TokenKind::Comma => TokenKindView::Comma,
            TokenKind::Dot => TokenKindView::Dot,
            TokenKind::Colon => TokenKindView::Colon,
            TokenKind::ColonColon => TokenKindView::ColonColon,
            TokenKind::Hash => TokenKindView::Hash,
            TokenKind::Backtick => TokenKindView::Backtick,
            TokenKind::Question => TokenKindView::Question,
            TokenKind::Invalid => TokenKindView::Invalid,
            TokenKind::Eof => TokenKindView::Eof,
        }
    }
}

impl Clone for TokenKind {
    fn clone(&self) -> (r: Self)
        ensures
            r@ == self@,
    {
        match self {
            TokenKind::Ident(v) => TokenKind::Ident(v.clone()),
            TokenKind::Int(v) => TokenKind::Int(*v),
            TokenKind::I64(v) => TokenKind::I64(*v),
            TokenKind::U64(v) => TokenKind::U64(*v),
            TokenKind::F64(v) => TokenKind::F64(*v),
            TokenKind::U8(v) => TokenKind::U8(*v),
            TokenKind::Bool(v) => TokenKind::Bool(*v),
            TokenKind::String(v) => TokenKind::String(text::clone_bytes(v)),
            TokenKind::Let => TokenKind::Let,
            TokenKind::Val => TokenKind::Val,
            TokenKind::Var => TokenKind::Var,
            TokenKind::Function => TokenKind::Function,
            TokenKind::Type => TokenKind::Type,
            TokenKind::Object => TokenKind::Object,
            TokenKind::Union => TokenKind::Union,
            TokenKind::Match => TokenKind::Match,
            TokenKind::Null => TokenKind::Null,
            TokenKind::If => TokenKind::If,
            TokenKind::Else => TokenKind::Else,
            TokenKind::While => TokenKind::While,
            TokenKind::Break => TokenKind::Break,
            TokenKind::Continue => TokenKind::Continue,
            TokenKind::Return => TokenKind::Return,
            TokenKind::As => TokenKind::As,
            TokenKind::Extends => TokenKind::Extends,
            TokenKind::Plus => TokenKind::Plus,
            TokenKind::Minus => TokenKind::Minus,
            TokenKind::Star => TokenKind::Star,
            TokenKind::Slash => TokenKind::Slash,
            TokenKind::Eq => TokenKind::Eq,
            TokenKind::EqEq => TokenKind::EqEq,
            TokenKind::Bang => TokenKind::Bang,
            TokenKind::BangEq => TokenKind::BangEq,
            TokenKind::Lt => TokenKind::Lt,
            TokenKind::LtEq => TokenKind::LtEq,
            TokenKind::Gt => TokenKind::Gt,
            TokenKind::GtEq => TokenKind::GtEq,
            TokenKind::AmpAmp => TokenKind::AmpAmp,
            TokenKind::PipePipe => TokenKind::PipePipe,
            TokenKind::Semi => TokenKind::Semi,
            TokenKind::LParen => TokenKind::LParen,
            TokenKind::RParen => TokenKind::RParen,
            TokenKind::LBrace => TokenKind::LBrace,
            TokenKind::RBrace => TokenKind::RBrace,
            TokenKind::LBracket => TokenKind::LBracket,
            TokenKind::RBracket => TokenKind::RBracket,
            TokenKind::Comma => TokenKind::Comma,
            TokenKind::Dot => TokenKind::Dot,
            TokenKind::Colon => TokenKind::Colon,
            TokenKind::ColonColon => TokenKind::ColonColon,
            TokenKind::Hash => TokenKind::Hash,
            TokenKind::Backtick => TokenKind::Backtick,
            TokenKind::Question => TokenKind::Question,
            TokenKind::Invalid => TokenKind::Invalid,
            TokenKind::Eof => TokenKind::Eof,
        }
    }
}

/// A token and where it stands.
#[derive(Debug, PartialEq, Eq)]
pub struct Token {
    pub kind: TokenKind,
    pub span: Span,
}

/// The content of a [`Token`].
pub struct TokenView {
    pub kind: TokenKindView,
    pub span: Span,
}

impl View for Token {
    type V = TokenView;

    open spec fn view(&self) -> TokenView {
        TokenView { kind: self.kind@, span: self.span }
    }
}

impl Clone for Token {
    fn clone(&self) -> (r: Self)
        ensures
            r@ == self@,
    {
        Token { kind: self.kind.clone(), span: self.span }
    }
}

impl Token {
    /// A token of the given kind at the given place.
    pub fn new(kind: TokenKind, span: Span) -> (r: Self)
        ensures
            r@ == (TokenView { kind: kind@, span }),
    {
        Self { kind, span }
    }
}

/// A number for each kind of token, whatever the token holds.
pub open spec fn kind_tag(k: TokenKindView) -> u8 {
    match k {
        TokenKindView::Ident(_) => 0,
        TokenKindView::Int(_) => 1,
        TokenKindView::I64(_) => 2,
        TokenKindView::U64(_) => 3,
        TokenKindView::F64(_) => 4,
        TokenKindView::U8(_) => 5,
        TokenKindView::Bool(_) => 6,
        TokenKindView::String(_) => 7,
        TokenKindView::Let => 8,
        TokenKindView::Val => 9,
        TokenKindView::Var => 10,
        TokenKindView::Function => 11,
        TokenKindView::Type => 12,
        TokenKindView::Object => 13,
        TokenKindView::Union => 14,
        TokenKindView::Match => 15,
        TokenKindView::Null => 16,
        TokenKindView::If => 17,
        TokenKindView::Else => 18,
        TokenKindView::While => 19,
        TokenKindView::Break => 20,
        TokenKindView::Continue => 21,
        TokenKindView::Return => 22,
        TokenKindView::As => 23,
        TokenKindView::Extends => 24,
        TokenKindView::Plus => 25,
        TokenKindView::Minus => 26,
        TokenKindView::Star => 27,
        TokenKindView::Slash => 28,
        TokenKindView::Eq => 29,
        TokenKindView::EqEq => 30,
        TokenKindView::Bang => 31,
        TokenKindView::BangEq => 32,
        TokenKindView::Lt => 33,
        TokenKindView::LtEq => 34,
        TokenKindView::Gt => 35,
        TokenKindView::GtEq => 36,
        TokenKindView::AmpAmp => 37,
        TokenKindView::PipePipe => 38,
        TokenKindView::Semi => 39,
        TokenKindView::LParen => 40,
        TokenKindView::RParen => 41,
        TokenKindView::LBrace => 42,
        TokenKindView::RBrace => 43,
        TokenKindView::LBracket => 44,
        TokenKindView::RBracket => 45,
        TokenKindView::Comma => 46,
        TokenKindView::Dot => 47,
        TokenKindView::Colon => 48,
        TokenKindView::ColonColon => 49,
        TokenKindView::Hash => 50,
        TokenKindView::Backtick => 51,
        TokenKindView::Question => 52,
        TokenKindView::Invalid => 53,
        TokenKindView::Eof => 54,
    }
}

/// How a token is named in a message.
pub open spec fn kind_text(k: TokenKindView) -> Seq<char> {
    match k {
        TokenKindView::Ident(n) => "identifier `"@ + n + "`"@,
        TokenKindView::Int(v) => "integer `"@ + text::dec_int(v as int) + "`"@,
        TokenKindView::I64(v) => "i64 literal `"@ + text::dec_int(v as int) + "`"@,
        TokenKindView::U64(v) => "u64 literal `"@ + text::dec(v as nat) + "`"@,
        TokenKindView::F64(v) => "f64 literal `"@ + float::double_text(v) + "`"@,
        TokenKindView::U8(v) => "u8 literal `"@ + text::dec(v as nat) + "`"@,
        TokenKindView::Bool(v) => if v {
            "boolean `true`"@
        } else {
            "boolean `false`"@
        },
        TokenKindView::String(_) => "string literal"@,
        TokenKindView::Let => "`let`"@,
        TokenKindView::Val => "`val`"@,
        TokenKindView::Var => "`var`"@,
        TokenKindView::Function => "`function`"@,
        TokenKindView::Type => "`type`"@,
        TokenKindView::Object => "`object`"@,
        TokenKindView::Union => "`union`"@,
        TokenKindView::Match => "`match`"@,
        TokenKindView::Null => "`null`"@,
        TokenKindView::If => "`if`"@,
        TokenKindView::Else => "`else`"@,
        TokenKindView::While => "`while`"@,
        TokenKindView::Break => "`break`"@,
        TokenKindView::Continue => "`continue`"@,
        TokenKindView::Return => "`return`"@,
        TokenKindView::As => "`as`"@,
        TokenKindView::Extends => "`extends`"@,
        TokenKindView::Plus => "`+`"@,
        TokenKindView::Minus => "`-`"@,
        TokenKindView::Star => "`*`"@,
        TokenKindView::Slash => "`/`"@,
        TokenKindView::Eq => "`=`"@,
        TokenKindView::EqEq => "`==`"@,
        TokenKindView::Bang => "`!`"@,
        TokenKindView::BangEq => "`!=`"@,
        TokenKindView::Lt => "`<`"@,
        TokenKindView::LtEq => "`<=`"@,
        TokenKindView::Gt => "`>`"@,
        TokenKindView::GtEq => "`>=`"@,
        TokenKindView::AmpAmp => "`&&`"@,
        TokenKindView::PipePipe => "`||`"@,
        TokenKindView::Semi => "`;`"@,
        TokenKindView::LParen => "`(`"@,
        TokenKindView::RParen => "`)`"@,
        TokenKindView::LBrace => "`{`"@,
        TokenKindView::RBrace => "`}`"@,
        TokenKindView::LBracket => "`[`"@,
        TokenKindView::RBracket => "`]`"@,
        TokenKindView::Comma => "`,`"@,
        TokenKindView::Dot => "`.`"@,
        TokenKindView::Colon => "`:`"@,
        TokenKindView::ColonColon => "`::`"@,
        TokenKindView::Hash => "`#`"@,
        TokenKindView::Backtick => "backtick"@,
        TokenKindView::Question => "`?`"@,
        TokenKindView::Invalid => "invalid token"@,
        TokenKindView::Eof => "end of file"@,
    }
}

impl TokenKind {
    /// The number of this kind of token.
    pub fn tag(&self) -> (r: u8)
        ensures
            r == kind_tag(self@),
    {
        match self {
            TokenKind::Ident(_) => 0,
            TokenKind::Int(_) => 1,
            TokenKind::I64(_) => 2,
            TokenKind::U64(_) => 3,
            TokenKind::F64(_) => 4,
            TokenKind::U8(_) => 5,
            TokenKind::Bool(_) => 6,
            TokenKind::String(_) => 7,
            TokenKind::Let => 8,
            TokenKind::Val => 9,
            TokenKind::Var => 10,
            TokenKind::Function => 11,
            TokenKind::Type => 12,
            TokenKind::Object => 13,
            TokenKind::Union => 14,
            TokenKind::Match => 15,
            TokenKind::Null => 16,
            TokenKind::If => 17,
            TokenKind::Else => 18,
            TokenKind::While => 19,
            TokenKind::Break => 20,
            TokenKind::Continue => 21,
            TokenKind::Return => 22,
            TokenKind::As => 23,
            TokenKind::Extends => 24,
            TokenKind::Plus => 25,
            TokenKind::Minus => 26,
            TokenKind::Star => 27,
            TokenKind::Slash => 28,
            TokenKind::Eq => 29,
            TokenKind::EqEq => 30,
            TokenKind::Bang => 31,
            TokenKind::BangEq => 32,
            TokenKind::Lt => 33,
            TokenKind::LtEq => 34,
            TokenKind::Gt => 35,
            TokenKind::GtEq => 36,
            TokenKind::AmpAmp => 37,
            TokenKind::PipePipe => 38,
            TokenKind::Semi => 39,
            TokenKind::LParen => 40,
            TokenKind::RParen => 41,
            TokenKind::LBrace => 42,
            TokenKind::RBrace => 43,
            TokenKind::LBracket => 44,
            TokenKind::RBracket => 45,
            TokenKind::Comma => 46,
            TokenKind::Dot => 47,
            TokenKind::Colon => 48,
            TokenKind::ColonColon => 49,
            TokenKind::Hash => 50,
            TokenKind::Backtick => 51,
            TokenKind::Question => 52,
            TokenKind::Invalid => 53,
            TokenKind::Eof => 54,
        }
    }

    /// How the token is named in a message.
    pub fn describe(&self) -> (r: std::string::String)
        ensures
            r@ == kind_text(self@),
    {
        match self {
            TokenKind::Ident(n) => cat3("identifier `", n.as_str(), "`"),
            TokenKind::Int(v) => cat3("integer `", dec_i64(*v).as_str(), "`"),
            TokenKind::I64(v) => cat3("i64 literal `", dec_i64(*v).as_str(), "`"),
            TokenKind::U64(v) => cat3("u64 literal `", dec_u64(*v).as_str(), "`"),
            TokenKind::F64(v) => cat3("f64 literal `", float::show_double(*v).as_str(), "`"),
            TokenKind::U8(v) => cat3("u8 literal `", dec_u64(*v as u64).as_str(), "`"),
            TokenKind::Bool(v) => if *v {
                owned("boolean `true`")
            } else {
                owned("boolean `false`")
            },
            TokenKind::String(_) => owned("string literal"),
            TokenKind::Let => owned("`let`"),
            TokenKind::Val => owned("`val`"),
            TokenKind::Var => owned("`var`"),
            TokenKind::Function => owned("`function`"),
            TokenKind::Type => owned("`type`"),
            TokenKind::Object => owned("`object`"),
            TokenKind::Union => owned("`union`"),
            TokenKind::Match => owned("`match`"),
            TokenKind::Null => owned("`null`"),
            TokenKind::If => owned("`if`"),
            TokenKind::Else => owned("`else`"),
            TokenKind::While => owned("`while`"),
            TokenKind::Break => owned("`break`"),
            TokenKind::Continue => owned("`continue`"),
            TokenKind::Return => owned("`return`"),
            TokenKind::As => owned("`as`"),
            TokenKind::Extends => owned("`extends`"),
            TokenKind::Plus => owned("`+`"),
            TokenKind::Minus => owned("`-`"),
            TokenKind::Star => owned("`*`"),
            TokenKind::Slash => owned("`/`"),
            TokenKind::Eq => owned("`=`"),
            TokenKind::EqEq => owned("`==`"),
            TokenKind::Bang => owned("`!`"),
            TokenKind::BangEq => owned("`!=`"),
            TokenKind::Lt => owned("`<`"),
            TokenKind::LtEq => owned("`<=`"),
            TokenKind::Gt => owned("`>`"),
            TokenKind::GtEq => owned("`>=`"),
            TokenKind::AmpAmp => owned("`&&`"),
            TokenKind::PipePipe => owned("`||`"),
            TokenKind::Semi => owned("`;`"),
            TokenKind::LParen => owned("`(`"),
            TokenKind::RParen => owned("`)`"),
            TokenKind::LBrace => owned("`{`"),
            TokenKind::RBrace => owned("`}`"),
            TokenKind::LBracket => owned("`[`"),
            TokenKind::RBracket => owned("`]`"),
            TokenKind::Comma => owned("`,`"),
            TokenKind::Dot => owned("`.`"),
            TokenKind::Colon => owned("`:`"),
            TokenKind::ColonColon => owned("`::`"),
            TokenKind::Hash => owned("`#`"),
            TokenKind::Backtick => owned("backtick"),
            TokenKind::Question => owned("`?`"),
            TokenKind::Invalid => owned("invalid token"),
            TokenKind::Eof => owned("end of file"),
        }
    }
}

} // verus!
