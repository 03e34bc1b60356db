//! Tokens: what the lexer hands to the parser, each with the part of the
//! source it came from.
use vstd::prelude::*;

verus! {

#[derive(Clone, Debug, PartialEq)]
pub enum TokenKind {
    Eof,
    Identifier(String),
    Number(i64),
    String(String),
    Newline,
    /// The start of a more deeply indented block, with its column width.
    Indent(usize),
    /// The end of an indented block, with the column width it had.
    Dedent(usize),
    Plus,
    Minus,
    Asterisk,
    Slash,
    Equals,
    DoubleEquals,
    GreaterThan,
    LessThan,
    LessThanEquals,
    GreaterThanEquals,
    And,
    Or,
    Not,
    LeftParen,
    RightParen,
    LeftBracket,
    RightBracket,
    LeftCurlyBracket,
    RightCurlyBracket,
    Semicolon,
    Colon,
    Comma,
}

/// A half-open range of character positions in the source.
#[derive(Clone, Copy, Debug, PartialEq, Eq, Structural)]
pub struct Span {
    pub start: usize,
    pub end: usize,
}

/// A token kind as a mathematical value: identifiers and string literals
/// carry character sequences; every other kind is itself.
pub ghost enum Tok {
    Identifier(Seq<char>),
    String(Seq<char>),
    Other(TokenKind),
}

pub open spec fn kind_view(k: TokenKind) -> Tok {
    match k {
        TokenKind::Identifier(s) => Tok::Identifier(s@),
        TokenKind::String(s) => Tok::String(s@),
        _ => Tok::Other(k),
    }
}

/// A token as a mathematical value.
pub ghost struct Lexeme {
    pub kind: Tok,
    pub span: Span,
}

#[derive(Clone, Debug, PartialEq)]
pub struct Token {
    kind: TokenKind,
    span: Span,
}

impl View for Token {
    type V = Lexeme;

    closed spec fn view(&self) -> Lexeme {
        Lexeme { kind: kind_view(self.kind), span: self.span }
    }
}

impl Token {
    pub fn new(kind: TokenKind, start: usize, end: usize) -> (r: Token)
        ensures
            r@ == (Lexeme { kind: kind_view(kind), span: Span { start, end } }),
    {
        Token { kind, span: Span { start, end } }
    }

    pub fn kind(&self) -> (r: &TokenKind)
        ensures
            kind_view(*r) == self@.kind,
    {
        &self.kind
    }

    pub fn span(&self) -> (r: Span)
        ensures
            r == self@.span,
    {
        self.span
    }
}

impl Token {
    /// The name of an identifier token or the text of a string literal.
    pub fn into_text(self) -> (r: String)
        requires
            self@.kind is Identifier || self@.kind is String,
        ensures
            self@.kind is Identifier ==> self@.kind == Tok::Identifier(r@),
            self@.kind is String ==> self@.kind == Tok::String(r@),
    {
        match self.kind {
            TokenKind::Identifier(s) => s,
            TokenKind::String(s) => s,
            _ => vstd::pervasive::unreached(),
        }
    }

    /// The kind of the token, taken out of it.
    pub fn into_kind(self) -> (r: TokenKind)
        ensures
            kind_view(r) == self@.kind,
    {
        self.kind
    }
}

} // verus!
