//! What the compiler emits, as a function of the tokens: each of its steps
//! takes a state of the compilation to the next state, or to the first
//! error. The compiler itself is proved to end in exactly these states.
//!
//! The steps call each other as the grammar is nested, so their recursion
//! is bounded by the tokens that are left (`measure`). Where one step goes
//! on from the result of another, the model tests that the other left
//! fewer tokens; the test never fails (module `progress`).

use vstd::prelude::*;
use crate::chunk::{ChunkView, OpCode};
use crate::error::{text, Diagnostic};
use crate::precedence::{rule_of, Infix, Precedence, Prefix};
use crate::strings::interned;
use crate::token::{TokenType, TokenView};
use crate::value::Value;

verus! {

/// A local variable: its name and the depth of the scope that declared it,
/// or no depth while its initializer is being compiled.
pub struct LocalView {
    pub name: Seq<u8>,
    pub depth: Option<usize>,
}

/// What a name resolves to.
pub enum Resolved {
    /// The local in this stack slot.
    Local(usize),
    /// No local has the name.
    Global,
    /// The local of that name is still being initialized.
    Nope,
}

/// The state of a compilation: the tokens with the lexer's failure behind
/// them, if it had one; how many tokens have been taken; the token under
/// inspection and the one before it; the chunk so far; the locals in scope,
/// in stack order; the depth of the current scope; and where in the code
/// each statement compiled so far begins and ends.
pub struct CompilerView {
    pub tokens: Seq<TokenView>,
    pub failure: Option<Diagnostic>,
    pub pos: int,
    pub current: TokenView,
    pub previous: TokenView,
    pub chunk: ChunkView,
    pub locals: Seq<LocalView>,
    pub scope_depth: int,
    pub spans: Seq<(int, int)>,
}

/// A compilation step either goes on from a new state or fails.
pub type Parsed = Result<CompilerView, Diagnostic>;

/// The most locals that may be in scope at once.
pub const MAX_LOCALS: usize = 256;

/// The slot of the innermost local called `name` among the first `upto`.
pub open spec fn resolve(locals: Seq<LocalView>, name: Seq<u8>, upto: int) -> Resolved
    decreases upto,
{
    if upto <= 0 {
        Resolved::Global
    } else if locals[upto - 1].name == name {
        if locals[upto - 1].depth is None {
            Resolved::Nope
        } else {
            Resolved::Local((upto - 1) as usize)
        }
    } else {
        resolve(locals, name, upto - 1)
    }
}

/// Whether a scope at `depth` or deeper has already declared `name`.
pub open spec fn declared_in_scope(locals: Seq<LocalView>, name: Seq<u8>, depth: int) -> bool {
    exists|i: int|
        0 <= i < locals.len() && (#[trigger] locals[i]).name == name && locals[i].depth is Some
            && locals[i].depth->0 >= depth
}

/// The jump instruction with its distance filled in.
pub open spec fn patched(op: OpCode, distance: u16) -> OpCode {
    match op {
        OpCode::Jump(_) => OpCode::Jump(distance),
        OpCode::JumpIfFalse(_) => OpCode::JumpIfFalse(distance),
        other => other,
    }
}

impl CompilerView {
    /// The state before the first token is taken.
    pub open spec fn start(tokens: Seq<TokenView>, failure: Option<Diagnostic>) -> CompilerView {
        CompilerView {
            tokens,
            failure,
            pos: 0,
            current: TokenView::start(),
            previous: TokenView::start(),
            chunk: ChunkView::empty(),
            locals: Seq::empty(),
            scope_depth: 0,
            spans: Seq::empty(),
        }
    }

    /// How many tokens are still to be consumed: those not yet taken, and
    /// the current one unless it is `Eof`. Every recursion of the compiler
    /// is bounded by it.
    pub open spec fn measure(self) -> int {
        (if 0 <= self.pos <= self.tokens.len() {
            self.tokens.len() - self.pos
        } else {
            0
        }) + if self.current.kind != TokenType::Eof {
            1int
        } else {
            0int
        }
    }

    /// A compile error at the line of the previous token.
    pub open spec fn error(self, message: Seq<u8>) -> Diagnostic {
        Diagnostic::Parser(message, self.previous.line)
    }

    /// Takes the next token. Behind the last token comes the lexer's
    /// failure, or `Eof` for ever.
    pub open spec fn advance(self) -> Parsed {
        if 0 <= self.pos < self.tokens.len() {
            Ok(
                CompilerView {
                    previous: self.current,
                    current: self.tokens[self.pos],
                    pos: self.pos + 1,
                    ..self
                },
            )
        } else {
            match self.failure {
                Some(e) => Err(e),
                None => Ok(
                    CompilerView {
                        previous: self.current,
                        current: TokenView {
                            kind: TokenType::Eof,
                            lexeme: Seq::empty(),
                            line: self.current.line,
                        },
                        ..self
                    },
                ),
            }
        }
    }

    /// Appends an instruction, on the line of the previous token.
    pub open spec fn emit(self, op: OpCode) -> CompilerView {
        CompilerView { chunk: self.chunk.with_op(op, self.previous.line), ..self }
    }

    /// Takes the current token if it is of this kind.
    pub open spec fn next_eq(self, kind: TokenType) -> Parsed {
        if self.current.kind == kind {
            self.advance()
        } else {
            Ok(self)
        }
    }

    /// Takes the current token, which has to be of this kind.
    pub open spec fn consume(self, kind: TokenType, message: Seq<u8>) -> Parsed {
        if self.current.kind == kind {
            self.advance()
        } else {
            Err(self.error(message))
        }
    }

    /// Interns the text and adds it to the constants; the new constant has
    /// the index `self.chunk.constants.len()`.
    pub open spec fn create_string(self, lexeme: Seq<u8>) -> CompilerView {
        let (strings, id) = interned(self.chunk.strings, lexeme);
        CompilerView {
            chunk: ChunkView {
                strings,
                constants: self.chunk.constants.push(Value::String(id as usize)),
                ..self.chunk
            },
            ..self
        }
    }

    /// Fills in the distance of the jump at `at`: to the end of the code.
    pub open spec fn patch_jump(self, at: int) -> Parsed {
        let distance = self.chunk.code.len() - 1 - at;
        if distance > u16::MAX {
            Err(self.error(text("Too much code to skip over.")))
        } else {
            Ok(
                CompilerView {
                    chunk: ChunkView {
                        code: self.chunk.code.update(
                            at,
                            patched(self.chunk.code[at], distance as u16),
                        ),
                        ..self.chunk
                    },
                    ..self
                },
            )
        }
    }

    /// Appends the jump back to the instruction at `start`.
    pub open spec fn emit_loop(self, start: int) -> Parsed {
        let distance = self.chunk.code.len() - start + 1;
        if distance > u16::MAX {
            Err(self.error(text("Loop body too large.")))
        } else {
            Ok(self.emit(OpCode::Loop(distance as u16)))
        }
    }

    /// Enters a scope.
    pub open spec fn begin_scope(self) -> CompilerView {
        CompilerView { scope_depth: self.scope_depth + 1, ..self }
    }

    /// Removes the locals that are deeper than the current scope, the last
    /// first, with a `Pop` for each.
    pub open spec fn pop_scope(self) -> CompilerView
        decreases self.locals.len(),
    {
        if self.locals.len() > 0 && self.locals.last().depth is Some && self.locals.last().depth->0
            > self.scope_depth {
            (CompilerView { locals: self.locals.drop_last(), ..self.emit(OpCode::Pop) }).pop_scope()
        } else {
            self
        }
    }

    /// Leaves the current scope.
    pub open spec fn end_scope(self) -> CompilerView {
        (CompilerView { scope_depth: self.scope_depth - 1, ..self }).pop_scope()
    }

    /// Gives the newest local the depth of the current scope.
    pub open spec fn mark_initialized(self) -> CompilerView {
        if self.locals.len() > 0 {
            CompilerView {
                locals: self.locals.update(
                    self.locals.len() - 1,
                    LocalView { depth: Some(self.scope_depth as usize), ..self.locals.last() },
                ),
                ..self
            }
        } else {
            self
        }
    }

    /// The instructions of a binary operator.
    pub open spec fn emit_operator(self, operator: TokenType) -> CompilerView {
        match operator {
            TokenType::Plus => self.emit(OpCode::Add),
            TokenType::Minus => self.emit(OpCode::Subtract),
            TokenType::Star => self.emit(OpCode::Multiply),
            TokenType::Slash => self.emit(OpCode::Divide),
            TokenType::BangEqual => self.emit(OpCode::Equal).emit(OpCode::Not),
            TokenType::EqualEqual => self.emit(OpCode::Equal),
            TokenType::Greater => self.emit(OpCode::Greater),
            TokenType::GreaterEqual => self.emit(OpCode::Less).emit(OpCode::Not),
            TokenType::Less => self.emit(OpCode::Less),
            TokenType::LessEqual => self.emit(OpCode::Greater).emit(OpCode::Not),
            _ => self,
        }
    }

    /// A number literal, which is the previous token.
    pub open spec fn number(self) -> Parsed {
        match self.previous.kind {
            TokenType::Number(bits) => Ok(
                (CompilerView {
                    chunk: self.chunk.with_constant(Value::Number(bits)),
                    ..self
                }).emit(OpCode::Constant(self.chunk.constants.len() as usize)),
            ),
            _ => Err(self.error(text("Expected Number!"))),
        }
    }

    /// A string literal, which is the previous token.
    pub open spec fn string(self) -> Parsed {
        if self.previous.kind == TokenType::StrLit {
            Ok(
                self.create_string(self.previous.lexeme).emit(
                    OpCode::Constant(self.chunk.constants.len() as usize),
                ),
            )
        } else {
            Err(self.error(text("Expected String literal.")))
        }
    }

    /// `true`, `false` or `nil`, which is the previous token.
    pub open spec fn literal(self) -> CompilerView {
        match self.previous.kind {
            TokenType::False => self.emit(OpCode::False),
            TokenType::True => self.emit(OpCode::True),
            TokenType::Nil => self.emit(OpCode::Nil),
            _ => self,
        }
    }

    /// An expression of at least the binding power `bp`: a prefix form, then
    /// every infix operator that binds at least as tightly.
    pub open spec fn parse_precedence(self, bp: Precedence) -> Parsed
        decreases self.measure(), 0int,
    {
        let can_assign = bp.rank() <= Precedence::Assignment.rank();
        match self.advance() {
            Err(e) => Err(e),
            Ok(p) => match rule_of(p.previous.kind).prefix {
                None => Err(p.error(text("Expect expression"))),
                Some(rule) => match p.prefix(rule, can_assign) {
                    Err(e) => Err(e),
                    Ok(q) => if q.measure() < self.measure() {
                        match q.infixes(bp, can_assign) {
                            Err(e) => Err(e),
                            Ok(r) => if can_assign && r.current.kind == TokenType::Equal {
                                match r.advance() {
                                    Err(e) => Err(e),
                                    Ok(s) => Err(s.error(text("Invalid assignment target"))),
                                }
                            } else {
                                Ok(r)
                            },
                        }
                    } else {
                        Ok(q)
                    },
                },
            },
        }
    }

    /// The prefix form that the previous token begins.
    pub open spec fn prefix(self, rule: Prefix, can_assign: bool) -> Parsed
        decreases self.measure(), 3int,
    {
        match rule {
            Prefix::Grouping => self.grouping(),
            Prefix::Unary => self.unary(),
            Prefix::Number => self.number(),
            Prefix::Literal => Ok(self.literal()),
            Prefix::String => self.string(),
            Prefix::Variable => self.named_variable(self.previous, can_assign),
        }
    }

    /// The infix operators that follow, as long as they bind at least as
    /// tightly as `bp`, each with its right operand.
    pub open spec fn infixes(self, bp: Precedence, can_assign: bool) -> Parsed
        decreases self.measure(), 0int,
    {
        if bp.rank() <= rule_of(self.current.kind).precedence.rank() {
            match rule_of(self.current.kind).infix {
                None => Ok(self),
                Some(rule) => match self.advance() {
                    Err(e) => Err(e),
                    Ok(p) => match p.infix(rule) {
                        Err(e) => Err(e),
                        Ok(q) => if q.measure() < self.measure() {
                            q.infixes(bp, can_assign)
                        } else {
                            Ok(q)
                        },
                    },
                },
            }
        } else {
            Ok(self)
        }
    }

    /// The right side of the infix operator that is the previous token.
    pub open spec fn infix(self, rule: Infix) -> Parsed
        decreases self.measure(), 3int,
    {
        match rule {
            Infix::Binary => self.binary(),
            Infix::And => self.and(),
            Infix::Or => self.or(),
        }
    }

    /// A whole expression.
    pub open spec fn expression(self) -> Parsed
        decreases self.measure(), 1int,
    {
        self.parse_precedence(Precedence::Assignment)
    }

    /// The rest of a parenthesized expression.
    pub open spec fn grouping(self) -> Parsed
        decreases self.measure(), 2int,
    {
        match self.expression() {
            Err(e) => Err(e),
            Ok(p) => p.consume(TokenType::RightParen, text("Expect ')' after expression")),
        }
    }

    /// The operand of the unary operator that is the previous token, then
    /// the operator.
    pub open spec fn unary(self) -> Parsed
        decreases self.measure(), 2int,
    {
        match self.parse_precedence(Precedence::Unary) {
            Err(e) => Err(e),
            Ok(p) => Ok(
                match self.previous.kind {
                    TokenType::Minus => p.emit(OpCode::Negate),
                    TokenType::Bang => p.emit(OpCode::Not),
                    _ => p,
                },
            ),
        }
    }

    /// The right operand of the binary operator that is the previous token,
    /// one level tighter than the operator, then the operator.
    pub open spec fn binary(self) -> Parsed
        decreases self.measure(), 2int,
    {
        match self.parse_precedence(rule_of(self.previous.kind).precedence.successor()) {
            Err(e) => Err(e),
            Ok(p) => Ok(p.emit_operator(self.previous.kind)),
        }
    }

    /// The right operand of `and`, skipped when the left one is false.
    pub open spec fn and(self) -> Parsed
        decreases self.measure(), 2int,
    {
        let end_jump = self.chunk.code.len() as int;
        match self.emit(OpCode::JumpIfFalse(0)).emit(OpCode::Pop).parse_precedence(
            Precedence::And,
        ) {
            Err(e) => Err(e),
            Ok(p) => p.patch_jump(end_jump),
        }
    }

    /// The right operand of `or`, skipped when the left one is true.
    pub open spec fn or(self) -> Parsed
        decreases self.measure(), 2int,
    {
        let else_jump = self.chunk.code.len() as int;
        let end_jump = else_jump + 1;
        match self.emit(OpCode::JumpIfFalse(0)).emit(OpCode::Jump(0)).patch_jump(else_jump) {
            Err(e) => Err(e),
            Ok(p) => match p.emit(OpCode::Pop).parse_precedence(Precedence::Or) {
                Err(e) => Err(e),
                Ok(q) => q.patch_jump(end_jump),
            },
        }
    }

    /// A variable that is read, or assigned to where that is allowed and
    /// `=` follows.
    pub open spec fn named_variable(self, name: TokenView, can_assign: bool) -> Parsed
        decreases self.measure(), 2int,
    {
        if name.kind == TokenType::Identifier {
            let index = self.chunk.constants.len() as usize;
            match resolve(self.locals, name.lexeme, self.locals.len() as int) {
                Resolved::Nope => Err(
                    self.error(text("Can't read local variable in its own initializer.")),
                ),
                Resolved::Global => self.create_string(name.lexeme).access(
                    OpCode::GetGlobal(index),
                    OpCode::SetGlobal(index),
                    can_assign,
                    self.measure(),
                ),
                Resolved::Local(slot) => self.access(
                    OpCode::GetLocal(slot),
                    OpCode::SetLocal(slot),
                    can_assign,
                    self.measure(),
                ),
            }
        } else {
            Err(self.error(text("Expected variable name.")))
        }
    }

    /// The read of a variable, or the assigned expression and the write.
    /// `bound` is the measure of the caller.
    pub open spec fn access(self, get: OpCode, set: OpCode, can_assign: bool, bound: int) -> Parsed
        decreases bound, 1int,
        when self.measure() == bound
    {
        if can_assign && self.current.kind == TokenType::Equal {
            match self.advance() {
                Err(e) => Err(e),
                Ok(p) => match p.expression() {
                    Err(e) => Err(e),
                    Ok(q) => Ok(q.emit(set)),
                },
            }
        } else {
            Ok(self.emit(get))
        }
    }

    /// An expression as a statement: its value is dropped.
    pub open spec fn expression_stmt(self) -> Parsed
        decreases self.measure(), 2int,
    {
        match self.expression() {
            Err(e) => Err(e),
            Ok(p) => match p.consume(TokenType::Semicolon, text("Expect ';' after value.")) {
                Err(e) => Err(e),
                Ok(q) => Ok(q.emit(OpCode::Pop)),
            },
        }
    }

    /// The rest of a `print` statement.
    pub open spec fn print_stmt(self) -> Parsed
        decreases self.measure(), 2int,
    {
        match self.expression() {
            Err(e) => Err(e),
            Ok(p) => match p.consume(TokenType::Semicolon, text("Expect ';' after value.")) {
                Err(e) => Err(e),
                Ok(q) => Ok(q.emit(OpCode::Print)),
            },
        }
    }

    /// The initializer of a variable, or `nil`, and the semicolon.
    pub open spec fn init_variable(self) -> Parsed
        decreases self.measure(), 2int,
    {
        if self.current.kind == TokenType::Equal {
            match self.advance() {
                Err(e) => Err(e),
                Ok(p) => match p.expression() {
                    Err(e) => Err(e),
                    Ok(q) => q.consume(
                        TokenType::Semicolon,
                        text("Expect ';' after variable declaration."),
                    ),
                },
            }
        } else {
            self.emit(OpCode::Nil).consume(
                TokenType::Semicolon,
                text("Expect ';' after variable declaration."),
            )
        }
    }

    /// The rest of the declaration of a local variable. Its value stays on
    /// the stack: the slot is the variable.
    pub open spec fn local_var(self) -> Parsed
        decreases self.measure(), 3int,
    {
        if self.current.kind == TokenType::Identifier {
            match self.advance() {
                Err(e) => Err(e),
                Ok(p) => if p.locals.len() >= MAX_LOCALS {
                    Err(p.error(text("Too many local variables.")))
                } else if declared_in_scope(p.locals, p.previous.lexeme, p.scope_depth) {
                    Err(p.error(text("Already a variable with this name in this scope.")))
                } else {
                    match (CompilerView {
                        locals: p.locals.push(LocalView { name: p.previous.lexeme, depth: None }),
                        ..p
                    }).init_variable() {
                        Err(e) => Err(e),
                        Ok(q) => Ok(q.mark_initialized()),
                    }
                },
            }
        } else {
            Err(self.error(text("Expected variable identifier.")))
        }
    }

    /// The rest of the declaration of a global variable.
    pub open spec fn global_var(self) -> Parsed
        decreases self.measure(), 3int,
    {
        if self.current.kind == TokenType::Identifier {
            match self.advance() {
                Err(e) => Err(e),
                Ok(p) => match p.create_string(p.previous.lexeme).init_variable() {
                    Err(e) => Err(e),
                    Ok(q) => Ok(
                        q.emit(OpCode::DefineGlobal(p.chunk.constants.len() as usize)),
                    ),
                },
            }
        } else {
            Err(self.error(text("Expect variable name.")))
        }
    }

    /// A variable declaration or a statement.
    pub open spec fn declaration(self) -> Parsed
        decreases self.measure(), 5int,
    {
        if self.current.kind == TokenType::Var {
            match self.advance() {
                Err(e) => Err(e),
                Ok(p) => if p.scope_depth == 0 {
                    p.global_var()
                } else {
                    p.local_var()
                },
            }
        } else {
            self.statement()
        }
    }

    /// A statement, with the record of where its code stands.
    pub open spec fn statement(self) -> Parsed
        decreases self.measure(), 4int,
    {
        match self.plain_statement() {
            Err(e) => Err(e),
            Ok(p) => Ok(
                CompilerView {
                    spans: p.spans.push(
                        (self.chunk.code.len() as int, p.chunk.code.len() as int),
                    ),
                    ..p
                },
            ),
        }
    }

    /// A statement: `print`, a block, `if`, `while`, `for`, or an expression.
    pub open spec fn plain_statement(self) -> Parsed
        decreases self.measure(), 3int,
    {
        if self.current.kind == TokenType::Print || self.current.kind == TokenType::LeftBrace
            || self.current.kind == TokenType::If || self.current.kind == TokenType::While
            || self.current.kind == TokenType::For {
            match self.advance() {
                Err(e) => Err(e),
                Ok(p) => match self.current.kind {
                    TokenType::Print => p.print_stmt(),
                    TokenType::LeftBrace => p.block_stmt(),
                    TokenType::If => p.if_stmt(),
                    TokenType::While => p.while_stmt(),
                    _ => p.for_stmt(),
                },
            }
        } else {
            self.expression_stmt()
        }
    }

    /// The rest of a block statement: a scope of its own around the block.
    pub open spec fn block_stmt(self) -> Parsed
        decreases self.measure(), 7int,
    {
        match self.begin_scope().block() {
            Err(e) => Err(e),
            Ok(q) => Ok(q.end_scope()),
        }
    }

    /// The declarations of a block and its closing brace.
    pub open spec fn block(self) -> Parsed
        decreases self.measure(), 6int,
    {
        if self.current.kind != TokenType::RightBrace && self.current.kind != TokenType::Eof {
            match self.declaration() {
                Err(e) => Err(e),
                Ok(p) => if p.measure() < self.measure() {
                    p.block()
                } else {
                    Ok(p)
                },
            }
        } else {
            self.consume(TokenType::RightBrace, text("Expect '}' after block."))
        }
    }

    /// The rest of an `if` statement.
    pub open spec fn if_stmt(self) -> Parsed
        decreases self.measure(), 3int,
    {
        match self.consume(TokenType::LeftParen, text("Expect '(' after 'if'.")) {
            Err(e) => Err(e),
            Ok(p) => match p.expression() {
                Err(e) => Err(e),
                Ok(q) => match q.consume(
                    TokenType::RightParen,
                    text("Expect ')' after condition."),
                ) {
                    Err(e) => Err(e),
                    Ok(r) => if r.measure() < self.measure() {
                        r.if_branches(self.measure())
                    } else {
                        Ok(r)
                    },
                },
            },
        }
    }

    /// The branches of an `if` statement, behind its condition.
    pub open spec fn if_branches(self, bound: int) -> Parsed
        decreases bound, 2int,
        when self.measure() < bound
    {
        let then_jump = self.chunk.code.len() as int;
        match self.emit(OpCode::JumpIfFalse(0)).emit(OpCode::Pop).statement() {
            Err(e) => Err(e),
            Ok(p) => {
                let else_jump = p.chunk.code.len() as int;
                match p.emit(OpCode::Jump(0)).patch_jump(then_jump) {
                    Err(e) => Err(e),
                    Ok(q) => if q.current.kind == TokenType::Else {
                        match q.emit(OpCode::Pop).advance() {
                            Err(e) => Err(e),
                            Ok(r) => if r.measure() < bound {
                                match r.statement() {
                                    Err(e) => Err(e),
                                    Ok(s) => s.patch_jump(else_jump),
                                }
                            } else {
                                Ok(r)
                            },
                        }
                    } else {
                        q.emit(OpCode::Pop).patch_jump(else_jump)
                    },
                }
            },
        }
    }

    /// The rest of a `while` statement.
    pub open spec fn while_stmt(self) -> Parsed
        decreases self.measure(), 3int,
    {
        let loop_start = self.chunk.code.len() as int;
        match self.consume(TokenType::LeftParen, text("Expect '(' after 'while'.")) {
            Err(e) => Err(e),
            Ok(p) => match p.expression() {
                Err(e) => Err(e),
                Ok(q) => match q.consume(
                    TokenType::RightParen,
                    text("Expect ')' after condition."),
                ) {
                    Err(e) => Err(e),
                    Ok(r) => if r.measure() < self.measure() {
                        let body_jump = r.chunk.code.len() as int;
                        match r.emit(OpCode::JumpIfFalse(0)).emit(OpCode::Pop).statement() {
                            Err(e) => Err(e),
                            Ok(s) => match s.emit_loop(loop_start) {
                                Err(e) => Err(e),
                                Ok(t) => match t.patch_jump(body_jump) {
                                    Err(e) => Err(e),
                                    Ok(u) => Ok(u.emit(OpCode::Pop)),
                                },
                            },
                        }
                    } else {
                        Ok(r)
                    },
                },
            },
        }
    }

    /// The rest of a `for` statement: a scope of its own around the three
    /// clauses and the body.
    pub open spec fn for_stmt(self) -> Parsed
        decreases self.measure(), 4int,
    {
        match self.begin_scope().consume(TokenType::LeftParen, text("Expect '(' after 'for'.")) {
            Err(e) => Err(e),
            Ok(p) => match p.for_initializer(self.measure()) {
                Err(e) => Err(e),
                Ok(q) => if q.measure() < self.measure() {
                    q.for_clauses(self.measure())
                } else {
                    Ok(q)
                },
            },
        }
    }

    /// The `for` statement from its second clause on. The loop begins where
    /// the code stands now.
    pub open spec fn for_clauses(self, bound: int) -> Parsed
        decreases bound, 3int,
        when self.measure() < bound
    {
        match self.for_condition(bound) {
            Err(e) => Err(e),
            Ok(r) => if r.measure() < bound {
                r.for_rest(
                    self.chunk.code.len() as int,
                    if self.current.kind == TokenType::Semicolon {
                        None
                    } else {
                        Some(r.chunk.code.len() - 2)
                    },
                    bound,
                )
            } else {
                Ok(r)
            },
        }
    }

    /// The first clause of `for`: nothing, a variable or an expression.
    pub open spec fn for_initializer(self, bound: int) -> Parsed
        decreases bound, 2int,
        when self.measure() < bound
    {
        if self.current.kind == TokenType::Semicolon {
            self.advance()
        } else if self.current.kind == TokenType::Var {
            match self.advance() {
                Err(e) => Err(e),
                Ok(p) => p.local_var(),
            }
        } else {
            self.expression_stmt()
        }
    }

    /// The second clause of `for`: nothing, or the condition with the jump
    /// that leaves the loop, which is then the last instruction but one.
    pub open spec fn for_condition(self, bound: int) -> Parsed
        decreases bound, 2int,
        when self.measure() < bound
    {
        if self.current.kind == TokenType::Semicolon {
            self.advance()
        } else {
            match self.expression() {
                Err(e) => Err(e),
                Ok(p) => match p.consume(
                    TokenType::Semicolon,
                    text("Expect ';' after loop condition."),
                ) {
                    Err(e) => Err(e),
                    Ok(q) => Ok(q.emit(OpCode::JumpIfFalse(0)).emit(OpCode::Pop)),
                },
            }
        }
    }

    /// The third clause of `for`, the body, the jump back and the end of the
    /// scope. The body runs before the increment, so the increment is
    /// jumped over on the way in, and the body jumps back to it.
    pub open spec fn for_rest(self, loop_start: int, exit_jump: Option<int>, bound: int) -> Parsed
        decreases bound, 2int,
        when self.measure() < bound
    {
        if self.current.kind == TokenType::RightParen {
            match self.advance() {
                Err(e) => Err(e),
                Ok(p) => p.for_body(loop_start, exit_jump, bound),
            }
        } else {
            let body_jump = self.chunk.code.len() as int;
            match self.emit(OpCode::Jump(0)).expression() {
                Err(e) => Err(e),
                Ok(p) => match p.emit(OpCode::Pop).consume(
                    TokenType::RightParen,
                    text("Expect ')' after for clauses."),
                ) {
                    Err(e) => Err(e),
                    Ok(q) => match q.emit_loop(loop_start) {
                        Err(e) => Err(e),
                        Ok(r) => match r.patch_jump(body_jump) {
                            Err(e) => Err(e),
                            Ok(s) => if s.measure() < bound {
                                s.for_body(body_jump + 1, exit_jump, bound)
                            } else {
                                Ok(s)
                            },
                        },
                    },
                },
            }
        }
    }

    /// The body of `for`, the jump back, the landing of the exit jump and
    /// the end of the scope.
    pub open spec fn for_body(self, loop_start: int, exit_jump: Option<int>, bound: int) -> Parsed
        decreases bound, 1int,
        when self.measure() < bound
    {
        match self.statement() {
            Err(e) => Err(e),
            Ok(p) => match p.emit_loop(loop_start) {
                Err(e) => Err(e),
                Ok(q) => q.for_exit(exit_jump),
            },
        }
    }

    /// The landing of the exit jump of `for`, where the condition is
    /// dropped, and the end of the scope.
    pub open spec fn for_exit(self, exit_jump: Option<int>) -> Parsed {
        match exit_jump {
            Some(at) => match self.patch_jump(at) {
                Err(e) => Err(e),
                Ok(r) => Ok(r.emit(OpCode::Pop).end_scope()),
            },
            None => Ok(self.end_scope()),
        }
    }

    /// The declarations up to the end of the source.
    pub open spec fn program(self) -> Parsed
        decreases self.measure(), 6int,
    {
        if self.current.kind == TokenType::Eof {
            self.advance()
        } else {
            match self.declaration() {
                Err(e) => Err(e),
                Ok(p) => if p.measure() < self.measure() {
                    p.program()
                } else {
                    Ok(p)
                },
            }
        }
    }

    /// Where in the code the declarations of the rest of the program begin,
    /// and where the last of them ends.
    pub open spec fn marks(self) -> Seq<int>
        decreases self.measure(), 6int,
    {
        if self.current.kind == TokenType::Eof {
            seq![self.chunk.code.len() as int]
        } else {
            match self.declaration() {
                Err(e) => seq![self.chunk.code.len() as int],
                Ok(p) => if p.measure() < self.measure() {
                    seq![self.chunk.code.len() as int] + p.marks()
                } else {
                    seq![self.chunk.code.len() as int]
                },
            }
        }
    }

    /// The marks of the whole program, for a state in which no token has
    /// been taken yet.
    pub open spec fn program_marks(self) -> Seq<int> {
        match self.advance() {
            Ok(p) => p.marks(),
            Err(e) => Seq::empty(),
        }
    }

    /// The whole compilation: every declaration, then `Return`.
    pub open spec fn compile(self) -> Parsed {
        match self.advance() {
            Err(e) => Err(e),
            Ok(p) => match p.program() {
                Err(e) => Err(e),
                Ok(q) => match q.consume(TokenType::Eof, text("Expect end of expression.")) {
                    Err(e) => Err(e),
                    Ok(r) => Ok(r.emit(OpCode::Return)),
                },
            },
        }
    }
}

/// What compiling these tokens gives: the chunk, or the first error.
pub open spec fn compiled(tokens: Seq<TokenView>, failure: Option<Diagnostic>) -> Result<
    ChunkView,
    Diagnostic,
> {
    match CompilerView::start(tokens, failure).compile() {
        Ok(p) => Ok(p.chunk),
        Err(e) => Err(e),
    }
}

} // verus!
