//! No step of the compiler leaves more tokens than it found, and a whole
//! expression, statement or declaration leaves fewer. The model tests this
//! where one step follows another, to bound its recursion; by the lemmas
//! here those tests never fail.

use vstd::prelude::*;
use crate::chunk::OpCode;
use crate::model::{resolve, CompilerView, Parsed, Resolved};
use crate::precedence::{rule_of, Infix, Precedence, Prefix};
use crate::token::{TokenType, TokenView};

verus! {

/// The step, where it succeeded, left no more tokens than `p` had; fewer
/// where `strict`.
pub open spec fn bounded(r: Parsed, p: CompilerView, strict: bool) -> bool {
    r matches Ok(q) ==> if strict {
        q.measure() < p.measure()
    } else {
        q.measure() <= p.measure()
    }
}

/// Leaving a scope takes no token.
pub proof fn lemma_pop_scope_takes_nothing(p: CompilerView)
    ensures
        p.pop_scope().measure() == p.measure(),
    decreases p.locals.len(),
{
    if p.locals.len() > 0 && p.locals.last().depth is Some && p.locals.last().depth->0
        > p.scope_depth {
        lemma_pop_scope_takes_nothing(
            CompilerView { locals: p.locals.drop_last(), ..p.emit(OpCode::Pop) },
        );
    }
}

/// An expression takes at least one token.
pub proof fn lemma_parse_precedence_bounded(p: CompilerView, bp: Precedence)
    ensures
        bounded(p.parse_precedence(bp), p, true),
    decreases p.measure(), 0int,
{
    let can_assign = bp.rank() <= Precedence::Assignment.rank();
    if let Ok(p1) = p.advance() {
        if let Some(rule) = rule_of(p1.previous.kind).prefix {
            lemma_prefix_bounded(p1, rule, can_assign);
            if let Ok(p2) = p1.prefix(rule, can_assign) {
                lemma_infixes_bounded(p2, bp, can_assign);
            }
        }
    }
}

/// A prefix form gives no token back.
pub proof fn lemma_prefix_bounded(p: CompilerView, rule: Prefix, can_assign: bool)
    ensures
        bounded(p.prefix(rule, can_assign), p, false),
    decreases p.measure(), 5int,
{
    match rule {
        Prefix::Grouping => {
            lemma_parse_precedence_bounded(p, Precedence::Assignment);
        },
        Prefix::Unary => {
            lemma_parse_precedence_bounded(p, Precedence::Unary);
        },
        Prefix::Variable => {
            lemma_named_variable_bounded(p, p.previous, can_assign);
        },
        _ => {},
    }
}

/// A variable, read or assigned to, gives no token back.
pub proof fn lemma_named_variable_bounded(p: CompilerView, name: TokenView, can_assign: bool)
    ensures
        bounded(p.named_variable(name, can_assign), p, false),
    decreases p.measure(), 2int,
{
    if name.kind == TokenType::Identifier {
        let index = p.chunk.constants.len() as usize;
        match resolve(p.locals, name.lexeme, p.locals.len() as int) {
            Resolved::Nope => {},
            Resolved::Global => {
                lemma_access_bounded(
                    p.create_string(name.lexeme),
                    OpCode::GetGlobal(index),
                    OpCode::SetGlobal(index),
                    can_assign,
                    p.measure(),
                );
            },
            Resolved::Local(slot) => {
                lemma_access_bounded(
                    p,
                    OpCode::GetLocal(slot),
                    OpCode::SetLocal(slot),
                    can_assign,
                    p.measure(),
                );
            },
        }
    }
}

/// The read or the write of a variable gives no token back.
pub proof fn lemma_access_bounded(
    p: CompilerView,
    get: OpCode,
    set: OpCode,
    can_assign: bool,
    bound: int,
)
    requires
        p.measure() == bound,
    ensures
        bounded(p.access(get, set, can_assign, bound), p, false),
    decreases bound, 1int,
{
    if can_assign && p.current.kind == TokenType::Equal {
        if let Ok(p1) = p.advance() {
            lemma_parse_precedence_bounded(p1, Precedence::Assignment);
        }
    }
}

/// The infix operators with their right operands give no token back.
pub proof fn lemma_infixes_bounded(p: CompilerView, bp: Precedence, can_assign: bool)
    ensures
        bounded(p.infixes(bp, can_assign), p, false),
    decreases p.measure(), 0int,
{
    if bp.rank() <= rule_of(p.current.kind).precedence.rank() {
        if let Some(rule) = rule_of(p.current.kind).infix {
            if let Ok(p1) = p.advance() {
                lemma_infix_bounded(p1, rule);
                if let Ok(p2) = p1.infix(rule) {
                    lemma_infixes_bounded(p2, bp, can_assign);
                }
            }
        }
    }
}

/// The right side of an infix operator gives no token back.
pub proof fn lemma_infix_bounded(p: CompilerView, rule: Infix)
    ensures
        bounded(p.infix(rule), p, false),
    decreases p.measure(), 5int,
{
    match rule {
        Infix::Binary => {
            lemma_parse_precedence_bounded(
                p,
                rule_of(p.previous.kind).precedence.successor(),
            );
        },
        Infix::And => {
            lemma_parse_precedence_bounded(
                p.emit(OpCode::JumpIfFalse(0)).emit(OpCode::Pop),
                Precedence::And,
            );
        },
        Infix::Or => {
            if let Ok(landed) = p.emit(OpCode::JumpIfFalse(0)).emit(OpCode::Jump(0)).patch_jump(
                p.chunk.code.len() as int,
            ) {
                lemma_parse_precedence_bounded(landed.emit(OpCode::Pop), Precedence::Or);
            }
        },
    }
}

/// An expression statement, and the rest of a `print` statement, take at
/// least one token.
pub proof fn lemma_expression_stmt_bounded(p: CompilerView)
    ensures
        bounded(p.expression_stmt(), p, true),
        bounded(p.print_stmt(), p, true),
    decreases p.measure(), 2int,
{
    lemma_parse_precedence_bounded(p, Precedence::Assignment);
}

/// An initializer gives no token back.
pub proof fn lemma_init_variable_bounded(p: CompilerView)
    ensures
        bounded(p.init_variable(), p, false),
    decreases p.measure(), 2int,
{
    if p.current.kind == TokenType::Equal {
        if let Ok(p1) = p.advance() {
            lemma_parse_precedence_bounded(p1, Precedence::Assignment);
        }
    }
}

/// The rest of a variable declaration takes at least one token.
pub proof fn lemma_variable_bounded(p: CompilerView)
    ensures
        bounded(p.local_var(), p, true),
        bounded(p.global_var(), p, true),
    decreases p.measure(), 3int,
{
    if p.current.kind == TokenType::Identifier {
        if let Ok(p1) = p.advance() {
            lemma_init_variable_bounded(
                CompilerView {
                    locals: p1.locals.push(
                        crate::model::LocalView { name: p1.previous.lexeme, depth: None },
                    ),
                    ..p1
                },
            );
            lemma_init_variable_bounded(p1.create_string(p1.previous.lexeme));
        }
    }
}

/// A declaration takes at least one token.
pub proof fn lemma_declaration_bounded(p: CompilerView)
    ensures
        bounded(p.declaration(), p, true),
    decreases p.measure(), 5int,
{
    if p.current.kind == TokenType::Var {
        if let Ok(p1) = p.advance() {
            lemma_variable_bounded(p1);
        }
    } else {
        lemma_statement_bounded(p);
    }
}

/// A statement takes at least one token.
pub proof fn lemma_statement_bounded(p: CompilerView)
    ensures
        bounded(p.statement(), p, true),
        bounded(p.plain_statement(), p, true),
    decreases p.measure(), 3int,
{
    if p.current.kind == TokenType::Print || p.current.kind == TokenType::LeftBrace
        || p.current.kind == TokenType::If || p.current.kind == TokenType::While
        || p.current.kind == TokenType::For {
        if let Ok(p1) = p.advance() {
            match p.current.kind {
                TokenType::Print => {
                    lemma_expression_stmt_bounded(p1);
                },
                TokenType::LeftBrace => {
                    lemma_block_stmt_bounded(p1);
                },
                TokenType::If => {
                    lemma_if_stmt_bounded(p1);
                },
                TokenType::While => {
                    lemma_while_stmt_bounded(p1);
                },
                _ => {
                    lemma_for_stmt_bounded(p1);
                },
            }
        }
    } else {
        lemma_expression_stmt_bounded(p);
    }
}

/// The rest of a block statement gives no token back.
pub proof fn lemma_block_stmt_bounded(p: CompilerView)
    ensures
        bounded(p.block_stmt(), p, false),
    decreases p.measure(), 7int,
{
    lemma_block_bounded(p.begin_scope());
    if let Ok(q) = p.begin_scope().block() {
        lemma_pop_scope_takes_nothing(CompilerView { scope_depth: q.scope_depth - 1, ..q });
    }
}

/// The declarations of a block give no token back.
pub proof fn lemma_block_bounded(p: CompilerView)
    ensures
        bounded(p.block(), p, false),
    decreases p.measure(), 6int,
{
    if p.current.kind != TokenType::RightBrace && p.current.kind != TokenType::Eof {
        lemma_declaration_bounded(p);
        if let Ok(q) = p.declaration() {
            lemma_block_bounded(q);
        }
    }
}

/// The rest of an `if` statement gives no token back.
pub proof fn lemma_if_stmt_bounded(p: CompilerView)
    ensures
        bounded(p.if_stmt(), p, false),
    decreases p.measure(), 3int,
{
    if let Ok(p1) = p.consume(TokenType::LeftParen, crate::error::text("Expect '(' after 'if'.")) {
        lemma_parse_precedence_bounded(p1, Precedence::Assignment);
        if let Ok(p2) = p1.expression() {
            if let Ok(p3) = p2.consume(
                TokenType::RightParen,
                crate::error::text("Expect ')' after condition."),
            ) {
                lemma_if_branches_bounded(p3, p.measure());
            }
        }
    }
}

/// The branches of an `if` statement give no token back.
pub proof fn lemma_if_branches_bounded(p: CompilerView, bound: int)
    requires
        p.measure() < bound,
    ensures
        bounded(p.if_branches(bound), p, false),
    decreases bound, 2int,
{
    let entered = p.emit(OpCode::JumpIfFalse(0)).emit(OpCode::Pop);
    lemma_statement_bounded(entered);
    if let Ok(p1) = entered.statement() {
        if let Ok(p2) = p1.emit(OpCode::Jump(0)).patch_jump(p.chunk.code.len() as int) {
            if p2.current.kind == TokenType::Else {
                if let Ok(p3) = p2.emit(OpCode::Pop).advance() {
                    lemma_statement_bounded(p3);
                }
            }
        }
    }
}

/// The rest of a `while` statement gives no token back.
pub proof fn lemma_while_stmt_bounded(p: CompilerView)
    ensures
        bounded(p.while_stmt(), p, false),
    decreases p.measure(), 3int,
{
    if let Ok(p1) = p.consume(
        TokenType::LeftParen,
        crate::error::text("Expect '(' after 'while'."),
    ) {
        lemma_parse_precedence_bounded(p1, Precedence::Assignment);
        if let Ok(p2) = p1.expression() {
            if let Ok(p3) = p2.consume(
                TokenType::RightParen,
                crate::error::text("Expect ')' after condition."),
            ) {
                lemma_statement_bounded(p3.emit(OpCode::JumpIfFalse(0)).emit(OpCode::Pop));
            }
        }
    }
}

/// The rest of a `for` statement gives no token back.
pub proof fn lemma_for_stmt_bounded(p: CompilerView)
    ensures
        bounded(p.for_stmt(), p, false),
    decreases p.measure(), 4int,
{
    if let Ok(p1) = p.begin_scope().consume(
        TokenType::LeftParen,
        crate::error::text("Expect '(' after 'for'."),
    ) {
        lemma_for_initializer_bounded(p1, p.measure());
        if let Ok(p2) = p1.for_initializer(p.measure()) {
            lemma_for_clauses_bounded(p2, p.measure());
        }
    }
}

/// The `for` statement from its second clause on gives no token back.
pub proof fn lemma_for_clauses_bounded(p: CompilerView, bound: int)
    requires
        p.measure() < bound,
    ensures
        bounded(p.for_clauses(bound), p, false),
    decreases bound, 3int,
{
    lemma_for_condition_bounded(p, bound);
    if let Ok(p1) = p.for_condition(bound) {
        lemma_for_rest_bounded(
            p1,
            p.chunk.code.len() as int,
            if p.current.kind == TokenType::Semicolon {
                None
            } else {
                Some(p1.chunk.code.len() - 2)
            },
            bound,
        );
    }
}

/// The first clause of `for` takes at least one token.
pub proof fn lemma_for_initializer_bounded(p: CompilerView, bound: int)
    requires
        p.measure() < bound,
    ensures
        bounded(p.for_initializer(bound), p, true),
    decreases bound, 2int,
{
    if p.current.kind == TokenType::Semicolon {
    } else if p.current.kind == TokenType::Var {
        if let Ok(p1) = p.advance() {
            lemma_variable_bounded(p1);
        }
    } else {
        lemma_expression_stmt_bounded(p);
    }
}

/// The second clause of `for` takes at least one token.
pub proof fn lemma_for_condition_bounded(p: CompilerView, bound: int)
    requires
        p.measure() < bound,
    ensures
        bounded(p.for_condition(bound), p, true),
    decreases bound, 2int,
{
    if p.current.kind != TokenType::Semicolon {
        lemma_parse_precedence_bounded(p, Precedence::Assignment);
    }
}

/// The third clause of `for` and the body give no token back.
pub proof fn lemma_for_rest_bounded(
    p: CompilerView,
    loop_start: int,
    exit_jump: Option<int>,
    bound: int,
)
    requires
        p.measure() < bound,
    ensures
        bounded(p.for_rest(loop_start, exit_jump, bound), p, false),
    decreases bound, 2int,
{
    if p.current.kind == TokenType::RightParen {
        if let Ok(p1) = p.advance() {
            lemma_for_body_bounded(p1, loop_start, exit_jump, bound);
        }
    } else {
        let body_jump = p.chunk.code.len() as int;
        lemma_parse_precedence_bounded(p.emit(OpCode::Jump(0)), Precedence::Assignment);
        if let Ok(p1) = p.emit(OpCode::Jump(0)).expression() {
            if let Ok(p2) = p1.emit(OpCode::Pop).consume(
                TokenType::RightParen,
                crate::error::text("Expect ')' after for clauses."),
            ) {
                if let Ok(p3) = p2.emit_loop(loop_start) {
                    if let Ok(p4) = p3.patch_jump(body_jump) {
                        lemma_for_body_bounded(p4, body_jump + 1, exit_jump, bound);
                    }
                }
            }
        }
    }
}

/// The body of `for` gives no token back.
pub proof fn lemma_for_body_bounded(
    p: CompilerView,
    loop_start: int,
    exit_jump: Option<int>,
    bound: int,
)
    requires
        p.measure() < bound,
    ensures
        bounded(p.for_body(loop_start, exit_jump, bound), p, false),
    decreases bound, 1int,
{
    lemma_statement_bounded(p);
    if let Ok(p1) = p.statement() {
        if let Ok(p2) = p1.emit_loop(loop_start) {
            match exit_jump {
                Some(at) => {
                    if let Ok(p3) = p2.patch_jump(at) {
                        let p4 = p3.emit(OpCode::Pop);
                        lemma_pop_scope_takes_nothing(
                            CompilerView { scope_depth: p4.scope_depth - 1, ..p4 },
                        );
                    }
                },
                None => {
                    lemma_pop_scope_takes_nothing(
                        CompilerView { scope_depth: p2.scope_depth - 1, ..p2 },
                    );
                },
            }
        }
    }
}

} // verus!
