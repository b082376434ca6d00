use vstd::prelude::*;

verus! {

/// The kinds of token. A number carries the bit pattern of the double that
/// its literal denotes.
#[derive(Clone, Copy, Debug, PartialEq, Eq, Structural)]
pub enum TokenType {
    LeftParen,
    RightParen,
    Dot,
    Minus,
    Plus,
    Slash,
    Star,
    Semicolon,
    Eof,
    LeftBrace,
    RightBrace,
    Comma,
    Bang,
    BangEqual,
    Equal,
    EqualEqual,
    Greater,
    GreaterEqual,
    Less,
    LessEqual,
    Number(u64),
    True,
    False,
    Identifier,
    StrLit,
    Print,
    Var,
    Nil,
    If,
    Else,
    While,
    For,
    Fun,
    Return,
    And,
    Or,
    Class,
    Super,
    This,
}

/// A token: its kind, its text in the source (for a string literal, the text
/// between the quotes) and the line it ends on.
#[derive(Clone, Copy, Debug)]
pub struct Token<'a> {
    pub kind: TokenType,
    pub lexeme: &'a [u8],
    pub line: u16,
}

/// The mathematical value of a [`Token`].
pub struct TokenView {
    pub kind: TokenType,
    pub lexeme: Seq<u8>,
    pub line: u16,
}

impl<'a> View for Token<'a> {
    type V = TokenView;

    open spec fn view(&self) -> TokenView {
        TokenView { kind: self.kind, lexeme: self.lexeme@, line: self.line }
    }
}

impl TokenView {
    /// The token with the double that its literal denotes, if it is a
    /// number; any other token as it is.
    pub open spec fn with_number(self, bits: u64) -> TokenView {
        if self.kind is Number {
            TokenView { kind: TokenType::Number(bits), ..self }
        } else {
            self
        }
    }

    /// The token that stands before the first token of a source.
    pub open spec fn start() -> TokenView {
        TokenView { kind: TokenType::Eof, lexeme: Seq::empty(), line: 0 }
    }
}

impl<'a> Token<'a> {
    /// A token of these parts.
    pub fn new(kind: TokenType, lexeme: &'a [u8], line: u16) -> (token: Token<'a>)
        ensures
            token@ == (TokenView { kind, lexeme: lexeme@, line }),
    {
        Token { kind, lexeme, line }
    }

    /// The same number token, carrying the double that the host has read
    /// from its lexeme; any other token unchanged.
    pub fn with_number(self, bits: u64) -> (token: Token<'a>)
        ensures
            token@ == self@.with_number(bits),
    {
        match self.kind {
            TokenType::Number(_) => Token {
                kind: TokenType::Number(bits),
                lexeme: self.lexeme,
                line: self.line,
            },
            _ => self,
        }
    }
}

} // verus!
