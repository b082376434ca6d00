use vstd::prelude::*;
use crate::error::{bytes_of, text, BessyError, Diagnostic};
use crate::scanner::{
    is_digit, is_word, lemma_run_end_bounds, lemma_skip_blank, line_breaks, run_end, ByteClass,
    Scanner, ScannerView,
};
use crate::strings::same_bytes;
use crate::token::{Token, TokenType, TokenView};

verus! {

/// The kind of the word: one of the keywords, or an identifier.
pub open spec fn keyword(word: Seq<u8>) -> TokenType {
    if word == text("and") {
        TokenType::And
    } else if word == text("class") {
        TokenType::Class
    } else if word == text("else") {
        TokenType::Else
    } else if word == text("false") {
        TokenType::False
    } else if word == text("for") {
        TokenType::For
    } else if word == text("fun") {
        TokenType::Fun
    } else if word == text("if") {
        TokenType::If
    } else if word == text("nil") {
        TokenType::Nil
    } else if word == text("or") {
        TokenType::Or
    } else if word == text("print") {
        TokenType::Print
    } else if word == text("return") {
        TokenType::Return
    } else if word == text("super") {
        TokenType::Super
    } else if word == text("this") {
        TokenType::This
    } else if word == text("true") {
        TokenType::True
    } else if word == text("var") {
        TokenType::Var
    } else if word == text("while") {
        TokenType::While
    } else {
        TokenType::Identifier
    }
}

/// The kind of a token that is this one byte.
pub open spec fn single(byte: u8) -> Option<TokenType> {
    if byte == 40 {
        Some(TokenType::LeftParen)
    } else if byte == 41 {
        Some(TokenType::RightParen)
    } else if byte == 123 {
        Some(TokenType::LeftBrace)
    } else if byte == 125 {
        Some(TokenType::RightBrace)
    } else if byte == 59 {
        Some(TokenType::Semicolon)
    } else if byte == 44 {
        Some(TokenType::Comma)
    } else if byte == 46 {
        Some(TokenType::Dot)
    } else if byte == 45 {
        Some(TokenType::Minus)
    } else if byte == 43 {
        Some(TokenType::Plus)
    } else if byte == 47 {
        Some(TokenType::Slash)
    } else if byte == 42 {
        Some(TokenType::Star)
    } else {
        None
    }
}

/// The kind of the token that is this byte, where the byte may also have
/// `=` behind it.
pub open spec fn double(byte: u8) -> Option<TokenType> {
    if byte == 33 {
        Some(TokenType::Bang)
    } else if byte == 61 {
        Some(TokenType::Equal)
    } else if byte == 60 {
        Some(TokenType::Less)
    } else if byte == 62 {
        Some(TokenType::Greater)
    } else {
        None
    }
}

/// The kind of the token that is this token with `=` behind it.
pub open spec fn with_equal(kind: TokenType) -> TokenType {
    match kind {
        TokenType::Bang => TokenType::BangEqual,
        TokenType::Equal => TokenType::EqualEqual,
        TokenType::Less => TokenType::LessEqual,
        _ => TokenType::GreaterEqual,
    }
}

/// Where the number literal that starts at `pos` ends: after its digits,
/// and after a point and more digits where a digit follows the point.
pub open spec fn number_end(source: Seq<u8>, pos: int) -> int {
    let whole = run_end(source, pos, ByteClass::Digit);
    if whole + 1 < source.len() && source[whole] == 46 && is_digit(source[whole + 1]) {
        run_end(source, whole + 1, ByteClass::Digit)
    } else {
        whole
    }
}

/// The token that starts at `pos`, which is no blank, and the position
/// behind it. A number comes with the pattern 0: its value is for the host
/// to read from the lexeme.
#[verifier::opaque]
pub open spec fn token_at(source: Seq<u8>, pos: int, line: u16) -> (
    Result<TokenView, Diagnostic>,
    int,
) {
    if pos >= source.len() {
        (Ok(TokenView { kind: TokenType::Eof, lexeme: source.subrange(pos, pos), line }), pos)
    } else {
        let byte = source[pos];
        if single(byte) is Some {
            (
                Ok(
                    TokenView {
                        kind: single(byte)->0,
                        lexeme: source.subrange(pos, pos + 1),
                        line,
                    },
                ),
                pos + 1,
            )
        } else if double(byte) is Some {
            if pos + 1 < source.len() && source[pos + 1] == 61 {
                (
                    Ok(
                        TokenView {
                            kind: with_equal(double(byte)->0),
                            lexeme: source.subrange(pos, pos + 2),
                            line,
                        },
                    ),
                    pos + 2,
                )
            } else {
                (
                    Ok(
                        TokenView {
                            kind: double(byte)->0,
                            lexeme: source.subrange(pos, pos + 1),
                            line,
                        },
                    ),
                    pos + 1,
                )
            }
        } else if byte == 34 {
            let close = run_end(source, pos + 1, ByteClass::Quoted);
            if close >= source.len() {
                (Err(Diagnostic::Lexer(text("Unterminated string."), line)), close)
            } else {
                (
                    Ok(
                        TokenView {
                            kind: TokenType::StrLit,
                            lexeme: source.subrange(pos + 1, close),
                            line,
                        },
                    ),
                    close + 1,
                )
            }
        } else if is_digit(byte) {
            let end = number_end(source, pos + 1);
            (
                Ok(
                    TokenView {
                        kind: TokenType::Number(0),
                        lexeme: source.subrange(pos, end),
                        line,
                    },
                ),
                end,
            )
        } else if is_word(byte) {
            let end = run_end(source, pos + 1, ByteClass::Word);
            (
                Ok(
                    TokenView {
                        kind: keyword(source.subrange(pos, end)),
                        lexeme: source.subrange(pos, end),
                        line,
                    },
                ),
                end,
            )
        } else {
            (Err(Diagnostic::Lexer(text("Unknown character."), line)), pos + 1)
        }
    }
}

impl ScannerView {
    /// The next token: the one behind the blanks and comments at the cursor.
    pub open spec fn next_token(self) -> Result<TokenView, Diagnostic> {
        token_at(self.source, self.skipped().current, self.skipped().line as u16).0
    }

    /// The cursor behind the next token, with the start mark on the token.
    pub open spec fn after_token(self) -> ScannerView {
        ScannerView {
            start: self.skipped().current,
            current: token_at(self.source, self.skipped().current, self.skipped().line as u16).1,
            ..self.skipped()
        }
    }
}

/// A token takes at least one byte, unless the source is at its end.
pub proof fn lemma_token_progress(lexer: ScannerView)
    requires
        0 <= lexer.current <= lexer.source.len(),
    ensures
        lexer.current <= lexer.after_token().current <= lexer.source.len(),
        lexer.next_token() matches Ok(token) && token.kind != TokenType::Eof
            ==> lexer.current < lexer.after_token().current,
{
    reveal(token_at);
    let source = lexer.source;
    lemma_skip_blank(source, lexer.current, lexer.line);
    let pos = lexer.skipped().current;
    if pos < source.len() {
        lemma_run_end_bounds(source, pos + 1, ByteClass::Quoted);
        lemma_run_end_bounds(source, pos + 1, ByteClass::Digit);
        lemma_run_end_bounds(source, pos + 1, ByteClass::Word);
        let whole = run_end(source, pos + 1, ByteClass::Digit);
        if whole + 1 <= source.len() {
            lemma_run_end_bounds(source, whole + 1, ByteClass::Digit);
        }
    }
}

/// The view of what `next_token` returns.
pub open spec fn lexed_view(r: Result<Token<'_>, BessyError>) -> Result<TokenView, Diagnostic> {
    match r {
        Ok(token) => Ok(token@),
        Err(e) => Err(e@),
    }
}

/// Turns a source into tokens, one at a time.
pub struct Lexer<'a> {
    scanner: Scanner<'a>,
}

impl<'a> View for Lexer<'a> {
    type V = ScannerView;

    closed spec fn view(&self) -> ScannerView {
        self.scanner@
    }
}

impl<'a> Lexer<'a> {
    /// A lexer at the start of `source`.
    pub fn new(source: &'a [u8]) -> (lexer: Lexer<'a>)
        requires
            line_breaks(source@, source@.len() as int) < u16::MAX,
        ensures
            lexer@ == (ScannerView { source: source@, start: 0, current: 0, line: 1 }),
            lexer@.wf(),
    {
        Lexer { scanner: Scanner::new(source) }
    }

    /// Whether the whole source has been read.
    pub fn is_at_end(&self) -> (r: bool)
        ensures
            r == self@.at_end(),
    {
        self.scanner.is_at_end()
    }

    fn make_token(&self, kind: TokenType) -> (token: Token<'a>)
        requires
            self@.wf(),
        ensures
            token@ == (TokenView { kind, lexeme: self@.lexeme(), line: self@.line as u16 }),
    {
        Token::new(kind, self.scanner.slice(0, 0), self.scanner.line())
    }

    // Whether the byte after the one under the cursor is a digit.
    fn dnext_is_number(&self) -> (r: bool)
        requires
            self@.wf(),
        ensures
            r == (self@.current + 1 < self@.source.len() && is_digit(
                self@.source[self@.current + 1],
            )),
    {
        match self.scanner.double_peek() {
            Some(c) => ByteClass::Digit.contains(c),
            None => false,
        }
    }

    fn eat_string(&mut self) -> (r: Result<Token<'a>, BessyError>)
        requires
            old(self)@.wf(),
            old(self)@.current == old(self)@.start + 1,
        ensures
            final(self)@.wf(),
            final(self)@.source == old(self)@.source,
            final(self)@.start == old(self)@.start,
            final(self)@.line == old(self)@.line,
            ({
                let close = run_end(old(self)@.source, old(self)@.current, ByteClass::Quoted);
                if close >= old(self)@.source.len() {
                    &&& final(self)@.current == close
                    &&& lexed_view(r) == Err::<TokenView, Diagnostic>(
                        Diagnostic::Lexer(text("Unterminated string."), old(self)@.line as u16),
                    )
                } else {
                    &&& final(self)@.current == close + 1
                    &&& lexed_view(r) == Ok::<TokenView, Diagnostic>(
                        TokenView {
                            kind: TokenType::StrLit,
                            lexeme: old(self)@.source.subrange(old(self)@.current, close),
                            line: old(self)@.line as u16,
                        },
                    )
                }
            }),
    {
        self.scanner.eat_while(ByteClass::Quoted);
        if self.scanner.is_at_end() {
            return Err(BessyError::Lexer(bytes_of("Unterminated string."), self.scanner.line()));
        }
        self.scanner.advance();
        Ok(Token::new(TokenType::StrLit, self.scanner.slice(1, 1), self.scanner.line()))
    }

    fn eat_number(&mut self) -> (token: Token<'a>)
        requires
            old(self)@.wf(),
        ensures
            final(self)@.wf(),
            final(self)@ == (ScannerView {
                current: number_end(old(self)@.source, old(self)@.current),
                ..old(self)@
            }),
            token@ == (TokenView {
                kind: TokenType::Number(0),
                lexeme: final(self)@.lexeme(),
                line: old(self)@.line as u16,
            }),
    {
        self.scanner.eat_while(ByteClass::Digit);
        if self.scanner.peek() == Some(46) && self.dnext_is_number() {
            self.scanner.advance();
            self.scanner.eat_while(ByteClass::Digit);
        }
        self.make_token(TokenType::Number(0))
    }

    fn eat_identifier(&mut self) -> (token: Token<'a>)
        requires
            old(self)@.wf(),
        ensures
            final(self)@.wf(),
            final(self)@ == (ScannerView {
                current: run_end(old(self)@.source, old(self)@.current, ByteClass::Word),
                ..old(self)@
            }),
            token@ == (TokenView {
                kind: keyword(final(self)@.lexeme()),
                lexeme: final(self)@.lexeme(),
                line: old(self)@.line as u16,
            }),
    {
        self.scanner.eat_while(ByteClass::Word);
        let lexeme = self.scanner.slice(0, 0);
        let kind = if same_bytes(lexeme, "and".as_bytes()) {
            TokenType::And
        } else if same_bytes(lexeme, "class".as_bytes()) {
            TokenType::Class
        } else if same_bytes(lexeme, "else".as_bytes()) {
            TokenType::Else
        } else if same_bytes(lexeme, "false".as_bytes()) {
            TokenType::False
        } else if same_bytes(lexeme, "for".as_bytes()) {
            TokenType::For
        } else if same_bytes(lexeme, "fun".as_bytes()) {
            TokenType::Fun
        } else if same_bytes(lexeme, "if".as_bytes()) {
            TokenType::If
        } else if same_bytes(lexeme, "nil".as_bytes()) {
            TokenType::Nil
        } else if same_bytes(lexeme, "or".as_bytes()) {
            TokenType::Or
        } else if same_bytes(lexeme, "print".as_bytes()) {
            TokenType::Print
        } else if same_bytes(lexeme, "return".as_bytes()) {
            TokenType::Return
        } else if same_bytes(lexeme, "super".as_bytes()) {
            TokenType::Super
        } else if same_bytes(lexeme, "this".as_bytes()) {
            TokenType::This
        } else if same_bytes(lexeme, "true".as_bytes()) {
            TokenType::True
        } else if same_bytes(lexeme, "var".as_bytes()) {
            TokenType::Var
        } else if same_bytes(lexeme, "while".as_bytes()) {
            TokenType::While
        } else {
            TokenType::Identifier
        };
        self.make_token(kind)
    }

    /// Reads the next token. At the end of the source every call returns
    /// `Eof`.
    pub fn next_token(&mut self) -> (r: Result<Token<'a>, BessyError>)
        requires
            old(self)@.wf(),
        ensures
            final(self)@.wf(),
            final(self)@ == old(self)@.after_token(),
            lexed_view(r) == old(self)@.next_token(),
    {
        reveal(token_at);
        self.scanner.skip_needless();
        self.scanner.mark();
        match self.scanner.advance() {
            None => Ok(self.make_token(TokenType::Eof)),
            Some(c) => {
                if c == 40 {
                    Ok(self.make_token(TokenType::LeftParen))
                } else if c == 41 {
                    Ok(self.make_token(TokenType::RightParen))
                } else if c == 123 {
                    Ok(self.make_token(TokenType::LeftBrace))
                } else if c == 125 {
                    Ok(self.make_token(TokenType::RightBrace))
                } else if c == 59 {
                    Ok(self.make_token(TokenType::Semicolon))
                } else if c == 44 {
                    Ok(self.make_token(TokenType::Comma))
                } else if c == 46 {
                    Ok(self.make_token(TokenType::Dot))
                } else if c == 45 {
                    Ok(self.make_token(TokenType::Minus))
                } else if c == 43 {
                    Ok(self.make_token(TokenType::Plus))
                } else if c == 47 {
                    Ok(self.make_token(TokenType::Slash))
                } else if c == 42 {
                    Ok(self.make_token(TokenType::Star))
                } else if c == 33 {
                    if self.scanner.next_eq(61) {
                        Ok(self.make_token(TokenType::BangEqual))
                    } else {
                        Ok(self.make_token(TokenType::Bang))
                    }
                } else if c == 61 {
                    if self.scanner.next_eq(61) {
                        Ok(self.make_token(TokenType::EqualEqual))
                    } else {
                        Ok(self.make_token(TokenType::Equal))
                    }
                } else if c == 60 {
                    if self.scanner.next_eq(61) {
                        Ok(self.make_token(TokenType::LessEqual))
                    } else {
                        Ok(self.make_token(TokenType::Less))
                    }
                } else if c == 62 {
                    if self.scanner.next_eq(61) {
                        Ok(self.make_token(TokenType::GreaterEqual))
                    } else {
                        Ok(self.make_token(TokenType::Greater))
                    }
                } else if c == 34 {
                    self.eat_string()
                } else if ByteClass::Digit.contains(c) {
                    Ok(self.eat_number())
                } else if ByteClass::Word.contains(c) {
                    Ok(self.eat_identifier())
                } else {
                    Err(BessyError::Lexer(bytes_of("Unknown character."), self.scanner.line()))
                }
            },
        }
    }
}

} // verus!
