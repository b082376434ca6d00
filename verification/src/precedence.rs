use vstd::prelude::*;
use crate::token::TokenType;

verus! {

/// How tightly an operator binds, loosest first.
#[derive(Clone, Copy, Debug, PartialEq, Eq, Structural)]
pub enum Precedence {
    Lowest,
    Assignment,
    Or,
    And,
    Equality,
    Comparison,
    Term,
    Factor,
    Unary,
    Call,
    Primary,
}

impl Precedence {
    /// The place of the level in the order.
    pub open spec fn rank(self) -> int {
        match self {
            Precedence::Lowest => 0,
            Precedence::Assignment => 1,
            Precedence::Or => 2,
            Precedence::And => 3,
            Precedence::Equality => 4,
            Precedence::Comparison => 5,
            Precedence::Term => 6,
            Precedence::Factor => 7,
            Precedence::Unary => 8,
            Precedence::Call => 9,
            Precedence::Primary => 10,
        }
    }

    /// The next tighter level; after the tightest comes `Lowest`.
    pub open spec fn successor(self) -> Precedence {
        match self {
            Precedence::Lowest => Precedence::Assignment,
            Precedence::Assignment => Precedence::Or,
            Precedence::Or => Precedence::And,
            Precedence::And => Precedence::Equality,
            Precedence::Equality => Precedence::Comparison,
            Precedence::Comparison => Precedence::Term,
            Precedence::Term => Precedence::Factor,
            Precedence::Factor => Precedence::Unary,
            Precedence::Unary => Precedence::Call,
            Precedence::Call => Precedence::Primary,
            Precedence::Primary => Precedence::Lowest,
        }
    }

    /// The place of the level in the order, as a number.
    pub fn level(&self) -> (r: u8)
        ensures
            r == self.rank(),
    {
        match self {
            Precedence::Lowest => 0,
            Precedence::Assignment => 1,
            Precedence::Or => 2,
            Precedence::And => 3,
            Precedence::Equality => 4,
            Precedence::Comparison => 5,
            Precedence::Term => 6,
            Precedence::Factor => 7,
            Precedence::Unary => 8,
            Precedence::Call => 9,
            Precedence::Primary => 10,
        }
    }

    /// The next tighter level.
    pub fn next(&self) -> (r: Precedence)
        ensures
            r == self.successor(),
    {
        match self {
            Precedence::Lowest => Precedence::Assignment,
            Precedence::Assignment => Precedence::Or,
            Precedence::Or => Precedence::And,
            Precedence::And => Precedence::Equality,
            Precedence::Equality => Precedence::Comparison,
            Precedence::Comparison => Precedence::Term,
            Precedence::Term => Precedence::Factor,
            Precedence::Factor => Precedence::Unary,
            Precedence::Unary => Precedence::Call,
            Precedence::Call => Precedence::Primary,
            Precedence::Primary => Precedence::Lowest,
        }
    }
}

/// What a token may begin.
#[derive(Clone, Copy, Debug, PartialEq, Eq, Structural)]
pub enum Prefix {
    Grouping,
    Unary,
    Number,
    Literal,
    String,
    Variable,
}

/// What a token may continue.
#[derive(Clone, Copy, Debug, PartialEq, Eq, Structural)]
pub enum Infix {
    Binary,
    And,
    Or,
}

/// The row of the parse table for one kind of token.
#[derive(Clone, Copy, Debug, PartialEq, Eq, Structural)]
pub struct ParseRule {
    pub prefix: Option<Prefix>,
    pub infix: Option<Infix>,
    pub precedence: Precedence,
}

/// The parse table.
pub open spec fn rule_of(kind: TokenType) -> ParseRule {
    match kind {
        TokenType::LeftParen => ParseRule {
            prefix: Some(Prefix::Grouping),
            infix: None,
            precedence: Precedence::Lowest,
        },
        TokenType::Minus => ParseRule {
            prefix: Some(Prefix::Unary),
            infix: Some(Infix::Binary),
            precedence: Precedence::Term,
        },
        TokenType::Plus => ParseRule {
            prefix: None,
            infix: Some(Infix::Binary),
            precedence: Precedence::Term,
        },
        TokenType::Slash | TokenType::Star => ParseRule {
            prefix: None,
            infix: Some(Infix::Binary),
            precedence: Precedence::Factor,
        },
        TokenType::Bang => ParseRule {
            prefix: Some(Prefix::Unary),
            infix: None,
            precedence: Precedence::Lowest,
        },
        TokenType::BangEqual | TokenType::EqualEqual => ParseRule {
            prefix: None,
            infix: Some(Infix::Binary),
            precedence: Precedence::Equality,
        },
        TokenType::Greater | TokenType::GreaterEqual | TokenType::Less | TokenType::LessEqual => {
            ParseRule {
                prefix: None,
                infix: Some(Infix::Binary),
                precedence: Precedence::Comparison,
            }
        },
        TokenType::Number(_) => ParseRule {
            prefix: Some(Prefix::Number),
            infix: None,
            precedence: Precedence::Lowest,
        },
        TokenType::True | TokenType::False | TokenType::Nil => ParseRule {
            prefix: Some(Prefix::Literal),
            infix: None,
            precedence: Precedence::Lowest,
        },
        TokenType::Identifier => ParseRule {
            prefix: Some(Prefix::Variable),
            infix: None,
            precedence: Precedence::Lowest,
        },
        TokenType::StrLit => ParseRule {
            prefix: Some(Prefix::String),
            infix: None,
            precedence: Precedence::Lowest,
        },
        TokenType::And => ParseRule {
            prefix: None,
            infix: Some(Infix::And),
            precedence: Precedence::And,
        },
        TokenType::Or => ParseRule {
            prefix: None,
            infix: Some(Infix::Or),
            precedence: Precedence::Or,
        },
        _ => ParseRule { prefix: None, infix: None, precedence: Precedence::Lowest },
    }
}

/// Looks a kind of token up in the parse table.
pub fn get_rule(kind: TokenType) -> (rule: ParseRule)
    ensures
        rule == rule_of(kind),
{
    match kind {
        TokenType::LeftParen => ParseRule {
            prefix: Some(Prefix::Grouping),
            infix: None,
            precedence: Precedence::Lowest,
        },
        TokenType::RightParen => ParseRule {
            prefix: None,
            infix: None,
            precedence: Precedence::Lowest,
        },
        TokenType::Dot => ParseRule { prefix: None, infix: None, precedence: Precedence::Lowest },
        TokenType::Minus => ParseRule {
            prefix: Some(Prefix::Unary),
            infix: Some(Infix::Binary),
            precedence: Precedence::Term,
        },
        TokenType::Plus => ParseRule {
            prefix: None,
            infix: Some(Infix::Binary),
            precedence: Precedence::Term,
        },
        TokenType::Slash => ParseRule {
            prefix: None,
            infix: Some(Infix::Binary),
            precedence: Precedence::Factor,
        },
        TokenType::Star => ParseRule {
            prefix: None,
            infix: Some(Infix::Binary),
            precedence: Precedence::Factor,
        },
        TokenType::Semicolon => ParseRule {
            prefix: None,
            infix: None,
            precedence: Precedence::Lowest,
        },
        TokenType::Eof => ParseRule { prefix: None, infix: None, precedence: Precedence::Lowest },
        TokenType::LeftBrace => ParseRule {
            prefix: None,
            infix: None,
            precedence: Precedence::Lowest,
        },
        TokenType::RightBrace => ParseRule {
            prefix: None,
            infix: None,
            precedence: Precedence::Lowest,
        },
        TokenType::Comma => ParseRule { prefix: None, infix: None, precedence: Precedence::Lowest },
        TokenType::Bang => ParseRule {
            prefix: Some(Prefix::Unary),
            infix: None,
            precedence: Precedence::Lowest,
        },
        TokenType::BangEqual => ParseRule {
            prefix: None,
            infix: Some(Infix::Binary),
            precedence: Precedence::Equality,
        },
        TokenType::Equal => ParseRule { prefix: None, infix: None, precedence: Precedence::Lowest },
        TokenType::EqualEqual => ParseRule {
            prefix: None,
            infix: Some(Infix::Binary),
            precedence: Precedence::Equality,
        },
        TokenType::Greater => ParseRule {
            prefix: None,
            infix: Some(Infix::Binary),
            precedence: Precedence::Comparison,
        },
        TokenType::GreaterEqual => ParseRule {
            prefix: None,
            infix: Some(Infix::Binary),
            precedence: Precedence::Comparison,
        },
        TokenType::Less => ParseRule {
            prefix: None,
            infix: Some(Infix::Binary),
            precedence: Precedence::Comparison,
        },
        TokenType::LessEqual => ParseRule {
            prefix: None,
            infix: Some(Infix::Binary),
            precedence: Precedence::Comparison,
        },
        TokenType::Number(_) => ParseRule {
            prefix: Some(Prefix::Number),
            infix: None,
            precedence: Precedence::Lowest,
        },
        TokenType::True => ParseRule {
            prefix: Some(Prefix::Literal),
            infix: None,
            precedence: Precedence::Lowest,
        },
        TokenType::False => ParseRule {
            prefix: Some(Prefix::Literal),
            infix: None,
            precedence: Precedence::Lowest,
        },
        TokenType::Identifier => ParseRule {
            prefix: Some(Prefix::Variable),
            infix: None,
            precedence: Precedence::Lowest,
        },
        TokenType::StrLit => ParseRule {
            prefix: Some(Prefix::String),
            infix: None,
            precedence: Precedence::Lowest,
        },
        TokenType::Print => ParseRule { prefix: None, infix: None, precedence: Precedence::Lowest },
        TokenType::Var => ParseRule { prefix: None, infix: None, precedence: Precedence::Lowest },
        TokenType::Nil => ParseRule {
            prefix: Some(Prefix::Literal),
            infix: None,
            precedence: Precedence::Lowest,
        },
        TokenType::If => ParseRule { prefix: None, infix: None, precedence: Precedence::Lowest },
        TokenType::Else => ParseRule { prefix: None, infix: None, precedence: Precedence::Lowest },
        TokenType::While => ParseRule { prefix: None, infix: None, precedence: Precedence::Lowest },
        TokenType::For => ParseRule { prefix: None, infix: None, precedence: Precedence::Lowest },
        TokenType::Fun => ParseRule { prefix: None, infix: None, precedence: Precedence::Lowest },
        TokenType::Return => ParseRule {
            prefix: None,
            infix: None,
            precedence: Precedence::Lowest,
        },
        TokenType::And => ParseRule {
            prefix: None,
            infix: Some(Infix::And),
            precedence: Precedence::And,
        },
        TokenType::Or => ParseRule {
            prefix: None,
            infix: Some(Infix::Or),
            precedence: Precedence::Or,
        },
        TokenType::Class => ParseRule { prefix: None, infix: None, precedence: Precedence::Lowest },
        TokenType::Super => ParseRule { prefix: None, infix: None, precedence: Precedence::Lowest },
        TokenType::This => ParseRule { prefix: None, infix: None, precedence: Precedence::Lowest },
    }
}

} // verus!
