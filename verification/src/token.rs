//! Tokens: the classified, position-tagged atomic units of source text.

use vstd::prelude::*;

verus! {

/// A place in the source text: a line and a column, both counted from one.
///
/// Every token carries the place of its first character.
#[derive(Debug, PartialEq, Eq, Clone, Copy, Structural)]
pub struct BufferPosition {
    pub line: usize,
    pub column: usize,
}

impl BufferPosition {
    pub fn new(line: usize, column: usize) -> (position: BufferPosition)
        ensures
            position.line == line,
            position.column == column,
    {
        BufferPosition { line, column }
    }
}

/// The reserved words of the language.
#[derive(Debug, PartialEq, Eq, Clone, Copy, Structural)]
pub enum KeywordKind {
    Fn,
    If,
    Else,
    For,
    While,
    Enum,
    Struct,
    Break,
    Continue,
    Let,
    True,
    False,
    Match,
    Return,
}

/// Punctuation and operators.
#[derive(Debug, PartialEq, Eq, Clone, Copy, Structural)]
pub enum SymbolKind {
    Plus,
    Minus,
    Slash,
    Mod,
    Asterisk,
    Semicolon,
    Colon,
    Assign,
    Comma,
    LeftParen,
    RightParen,
    LeftBrace,
    RightBrace,
    Bang,
    Eq,
    NotEq,
    Lt,
    Gt,
    LtEq,
    GtEq,
}

/// What a token is. Exactly one variant is active per token.
#[derive(Debug)]
pub enum TokenKind {
    Identifier(String),
    Keyword(KeywordKind),
    IntegerLiteral(i64),
    /// Reserved: no scan yields it. The payload is the IEEE 754 binary64 bit
    /// pattern of the value.
    FloatLiteral(u64),
    StringLiteral(String),
    CharLiteral(char),
    Symbol(SymbolKind),
    Newline,
    Illegal,
    EndOfInput,
}

/// The mathematical value of a [`TokenKind`]: texts are sequences of characters.
pub enum TokenKindView {
    Identifier(Seq<char>),
    Keyword(KeywordKind),
    IntegerLiteral(i64),
    FloatLiteral(u64),
    StringLiteral(Seq<char>),
    CharLiteral(char),
    Symbol(SymbolKind),
    Newline,
    Illegal,
    EndOfInput,
}

impl View for TokenKind {
    type V = TokenKindView;

    open spec fn view(&self) -> TokenKindView {
        match *self {
            TokenKind::Identifier(name) => TokenKindView::Identifier(name@),
            TokenKind::Keyword(keyword) => TokenKindView::Keyword(keyword),
            TokenKind::IntegerLiteral(value) => TokenKindView::IntegerLiteral(value),
            TokenKind::FloatLiteral(bits) => TokenKindView::FloatLiteral(bits),
            TokenKind::StringLiteral(text) => TokenKindView::StringLiteral(text@),
            TokenKind::CharLiteral(c) => TokenKindView::CharLiteral(c),
            TokenKind::Symbol(symbol) => TokenKindView::Symbol(symbol),
            TokenKind::Newline => TokenKindView::Newline,
            TokenKind::Illegal => TokenKindView::Illegal,
            TokenKind::EndOfInput => TokenKindView::EndOfInput,
        }
    }
}

impl PartialEq for TokenKind {
    fn eq(&self, other: &TokenKind) -> (equal: bool) {
        match (self, other) {
            (TokenKind::Identifier(a), TokenKind::Identifier(b)) => *a == *b,
            (TokenKind::Keyword(a), TokenKind::Keyword(b)) => *a == *b,
            (TokenKind::IntegerLiteral(a), TokenKind::IntegerLiteral(b)) => *a == *b,
            (TokenKind::FloatLiteral(a), TokenKind::FloatLiteral(b)) => *a == *b,
            (TokenKind::StringLiteral(a), TokenKind::StringLiteral(b)) => *a == *b,
            (TokenKind::CharLiteral(a), TokenKind::CharLiteral(b)) => *a == *b,
            (TokenKind::Symbol(a), TokenKind::Symbol(b)) => *a == *b,
            (TokenKind::Newline, TokenKind::Newline) => true,
            (TokenKind::Illegal, TokenKind::Illegal) => true,
            (TokenKind::EndOfInput, TokenKind::EndOfInput) => true,
            _ => false,
        }
    }
}

/// Two kinds are equal when their values are.
impl vstd::std_specs::cmp::PartialEqSpecImpl for TokenKind {
    open spec fn obeys_eq_spec() -> bool {
        true
    }

    open spec fn eq_spec(&self, other: &TokenKind) -> bool {
        self@ == other@
    }
}

impl Clone for TokenKind {
    fn clone(&self) -> (copy: TokenKind)
        ensures
            copy@ == self@,
    {
        match self {
            TokenKind::Identifier(name) => TokenKind::Identifier(name.clone()),
            TokenKind::Keyword(keyword) => TokenKind::Keyword(*keyword),
            TokenKind::IntegerLiteral(value) => TokenKind::IntegerLiteral(*value),
            TokenKind::FloatLiteral(bits) => TokenKind::FloatLiteral(*bits),
            TokenKind::StringLiteral(text) => TokenKind::StringLiteral(text.clone()),
            TokenKind::CharLiteral(c) => TokenKind::CharLiteral(*c),
            TokenKind::Symbol(symbol) => TokenKind::Symbol(*symbol),
            TokenKind::Newline => TokenKind::Newline,
            TokenKind::Illegal => TokenKind::Illegal,
            TokenKind::EndOfInput => TokenKind::EndOfInput,
        }
    }
}

/// A classified unit of source text together with the place where it begins.
#[derive(Debug)]
pub struct Token {
    pub kind: TokenKind,
    pub position: BufferPosition,
}

/// The mathematical value of a [`Token`].
pub struct TokenView {
    pub kind: TokenKindView,
    pub line: nat,
    pub column: nat,
}

impl View for Token {
    type V = TokenView;

    open spec fn view(&self) -> TokenView {
        TokenView {
            kind: self.kind@,
            line: self.position.line as nat,
            column: self.position.column as nat,
        }
    }
}

impl PartialEq for Token {
    fn eq(&self, other: &Token) -> (equal: bool) {
        self.kind == other.kind && self.position == other.position
    }
}

/// Two tokens are equal when their values are.
impl vstd::std_specs::cmp::PartialEqSpecImpl for Token {
    open spec fn obeys_eq_spec() -> bool {
        true
    }

    open spec fn eq_spec(&self, other: &Token) -> bool {
        self@ == other@
    }
}

impl Clone for Token {
    fn clone(&self) -> (copy: Token)
        ensures
            copy@ == self@,
    {
        Token { kind: self.kind.clone(), position: self.position }
    }
}

impl Token {
    pub fn new(kind: TokenKind, position: BufferPosition) -> (token: Token)
        ensures
            token.kind == kind,
            token.position == position,
    {
        Token { kind, position }
    }

    /// The sentinel that stands for the end of the text, placed at `position`.
    pub fn end_of_input(position: BufferPosition) -> (token: Token)
        ensures
            token.kind == TokenKind::EndOfInput,
            token.position == position,
    {
        Token { kind: TokenKind::EndOfInput, position }
    }
}

} // verus!
