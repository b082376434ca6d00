//! `and` and `or` evaluate their right operand only where it decides the
//! result: the code of the operand is jumped over, in one step that changes
//! nothing but the position.

use vstd::prelude::*;
use crate::chunk::OpCode;
use crate::model::{CompilerView, Resolved, resolve};
use crate::precedence::{rule_of, Infix, Precedence, Prefix};
use crate::token::{TokenType, TokenView};
use crate::vm::{Machine, ReplyView};

verus! {

impl CompilerView {
    /// The code is the code of `before` with more instructions behind it.
    pub open spec fn appends_to(self, before: CompilerView) -> bool {
        &&& before.chunk.code.len() <= self.chunk.code.len()
        &&& forall|k: int|
            0 <= k < before.chunk.code.len() ==> #[trigger] self.chunk.code[k]
                == before.chunk.code[k]
    }
}

/// An expression leaves the code before it as it is.
pub proof fn lemma_parse_precedence_appends(p: CompilerView, bp: Precedence)
    ensures
        p.parse_precedence(bp) matches Ok(q) ==> q.appends_to(p),
    decreases p.measure(), 0int,
{
    let can_assign = bp.rank() <= Precedence::Assignment.rank();
    if let Ok(p1) = p.advance() {
        if let Some(rule) = rule_of(p1.previous.kind).prefix {
            if p1.measure() < p.measure() {
                lemma_prefix_appends(p1, rule, can_assign);
                if let Ok(p2) = p1.prefix(rule, can_assign) {
                    if p2.measure() < p.measure() {
                        lemma_infixes_appends(p2, bp, can_assign);
                    }
                }
            }
        }
    }
}

/// A prefix form leaves the code before it as it is.
pub proof fn lemma_prefix_appends(p: CompilerView, rule: Prefix, can_assign: bool)
    ensures
        p.prefix(rule, can_assign) matches Ok(q) ==> q.appends_to(p),
    decreases p.measure(), 5int,
{
    match rule {
        Prefix::Grouping => {
            lemma_parse_precedence_appends(p, Precedence::Assignment);
        },
        Prefix::Unary => {
            lemma_parse_precedence_appends(p, Precedence::Unary);
        },
        Prefix::Variable => {
            lemma_named_variable_appends(p, p.previous, can_assign);
        },
        _ => {},
    }
}

/// A variable, read or assigned to, leaves the code before it as it is.
pub proof fn lemma_named_variable_appends(p: CompilerView, name: TokenView, can_assign: bool)
    ensures
        p.named_variable(name, can_assign) matches Ok(q) ==> q.appends_to(p),
    decreases p.measure(), 2int,
{
    if name.kind == TokenType::Identifier {
        let index = p.chunk.constants.len() as usize;
        match resolve(p.locals, name.lexeme, p.locals.len() as int) {
            Resolved::Nope => {},
            Resolved::Global => {
                lemma_access_appends(
                    p.create_string(name.lexeme),
                    OpCode::GetGlobal(index),
                    OpCode::SetGlobal(index),
                    can_assign,
                    p.measure(),
                );
            },
            Resolved::Local(slot) => {
                lemma_access_appends(
                    p,
                    OpCode::GetLocal(slot),
                    OpCode::SetLocal(slot),
                    can_assign,
                    p.measure(),
                );
            },
        }
    }
}

/// The read or the write of a variable leaves the code before it as it is.
pub proof fn lemma_access_appends(
    p: CompilerView,
    get: OpCode,
    set: OpCode,
    can_assign: bool,
    bound: int,
)
    requires
        p.measure() == bound,
    ensures
        p.access(get, set, can_assign, bound) matches Ok(q) ==> q.appends_to(p),
    decreases bound, 1int,
{
    if can_assign && p.current.kind == TokenType::Equal {
        if let Ok(p1) = p.advance() {
            if p1.measure() < p.measure() {
                lemma_parse_precedence_appends(p1, Precedence::Assignment);
            }
        }
    }
}

/// The infix operators with their right operands leave the code before
/// them as it is.
pub proof fn lemma_infixes_appends(p: CompilerView, bp: Precedence, can_assign: bool)
    ensures
        p.infixes(bp, can_assign) matches Ok(q) ==> q.appends_to(p),
    decreases p.measure(), 0int,
{
    if bp.rank() <= rule_of(p.current.kind).precedence.rank() {
        if let Some(rule) = rule_of(p.current.kind).infix {
            if let Ok(p1) = p.advance() {
                if p1.measure() < p.measure() {
                    lemma_infix_appends(p1, rule);
                    if let Ok(p2) = p1.infix(rule) {
                        if p2.measure() < p.measure() {
                            lemma_infixes_appends(p2, bp, can_assign);
                        }
                    }
                }
            }
        }
    }
}

/// The right side of an infix operator leaves the code before it as it is.
pub proof fn lemma_infix_appends(p: CompilerView, rule: Infix)
    ensures
        p.infix(rule) matches Ok(q) ==> q.appends_to(p),
    decreases p.measure(), 5int,
{
    match rule {
        Infix::Binary => {
            lemma_parse_precedence_appends(
                p,
                rule_of(p.previous.kind).precedence.successor(),
            );
        },
        Infix::And => {
            lemma_and_shape(p);
        },
        Infix::Or => {
            lemma_or_shape(p);
        },
    }
}

/// What `and` emits: behind the code that was there, a `JumpIfFalse` over
/// all the rest, a `Pop`, and the right operand.
pub proof fn lemma_and_shape(p: CompilerView)
    ensures
        p.and() matches Ok(q) ==> {
            let at = p.chunk.code.len() as int;
            &&& q.appends_to(p)
            &&& at + 2 <= q.chunk.code.len()
            &&& q.chunk.code[at] == OpCode::JumpIfFalse((q.chunk.code.len() - 1 - at) as u16)
            &&& q.chunk.code.len() - 1 - at <= u16::MAX
            &&& q.chunk.code[at + 1] == OpCode::Pop
        },
    decreases p.measure(), 2int,
{
    let entered = p.emit(OpCode::JumpIfFalse(0)).emit(OpCode::Pop);
    lemma_parse_precedence_appends(entered, Precedence::And);
    if let Ok(operand) = entered.parse_precedence(Precedence::And) {
        let at = p.chunk.code.len() as int;
        assert(operand.chunk.code[at] == entered.chunk.code[at]);
        assert(operand.chunk.code[at + 1] == entered.chunk.code[at + 1]);
        if let Ok(q) = operand.patch_jump(at) {
            assert forall|k: int| 0 <= k < p.chunk.code.len() implies #[trigger] q.chunk.code[k]
                == p.chunk.code[k] by {
                assert(operand.chunk.code[k] == entered.chunk.code[k]);
            }
        }
    }
}

/// What `or` emits: behind the code that was there, a `JumpIfFalse` over
/// the next instruction, a `Jump` over all the rest, a `Pop`, and the right
/// operand.
pub proof fn lemma_or_shape(p: CompilerView)
    ensures
        p.or() matches Ok(q) ==> {
            let at = p.chunk.code.len() as int;
            &&& q.appends_to(p)
            &&& at + 3 <= q.chunk.code.len()
            &&& q.chunk.code[at] == OpCode::JumpIfFalse(1)
            &&& q.chunk.code[at + 1] == OpCode::Jump((q.chunk.code.len() - 2 - at) as u16)
            &&& q.chunk.code.len() - 2 - at <= u16::MAX
            &&& q.chunk.code[at + 2] == OpCode::Pop
        },
    decreases p.measure(), 2int,
{
    let at = p.chunk.code.len() as int;
    let jumps = p.emit(OpCode::JumpIfFalse(0)).emit(OpCode::Jump(0));
    if let Ok(landed) = jumps.patch_jump(at) {
        let entered = landed.emit(OpCode::Pop);
        {
            lemma_parse_precedence_appends(entered, Precedence::Or);
            if let Ok(operand) = entered.parse_precedence(Precedence::Or) {
                assert(operand.chunk.code[at] == entered.chunk.code[at]);
                assert(operand.chunk.code[at + 1] == entered.chunk.code[at + 1]);
                assert(operand.chunk.code[at + 2] == entered.chunk.code[at + 2]);
                if let Ok(q) = operand.patch_jump(at + 1) {
                    assert forall|k: int| 0 <= k < p.chunk.code.len() implies (
                    #[trigger] q.chunk.code[k]) == p.chunk.code[k] by {
                        assert(operand.chunk.code[k] == entered.chunk.code[k]);
                    }
                }
            }
        }
    }
}

/// Where the left operand of `and` is false, the machine goes from the
/// jump to the end of all that `and` has emitted in one step, which
/// changes nothing else and asks nothing of the host: the right operand
/// does not run, and the left one stays on the stack as the result.
pub proof fn lemma_and_skips_right_operand(p: CompilerView, m: Machine, reply: ReplyView)
    requires
        p.and() is Ok,
        m.chunk.code[m.ip] == p.and()->Ok_0.chunk.code[p.chunk.code.len() as int],
        m.peek(0).falsey(),
    ensures
        m.step(reply) == (
            m.jumped(m.ip + (p.and()->Ok_0.chunk.code.len() - p.chunk.code.len())),
            None::<crate::vm::RequestView>,
        ),
{
    lemma_and_shape(p);
}

/// Where the left operand of `or` is true, the machine goes from the first
/// jump to the end of all that `or` has emitted in two steps, which change
/// nothing else and ask nothing of the host: the right operand does not
/// run, and the left one stays on the stack as the result.
pub proof fn lemma_or_skips_right_operand(p: CompilerView, m: Machine, reply: ReplyView)
    requires
        p.or() is Ok,
        m.chunk.code[m.ip] == p.or()->Ok_0.chunk.code[p.chunk.code.len() as int],
        m.chunk.code[m.ip + 1] == p.or()->Ok_0.chunk.code[p.chunk.code.len() as int + 1],
        !m.peek(0).falsey(),
    ensures
        m.step(reply) == (m.next(), None::<crate::vm::RequestView>),
        m.next().step(ReplyView::Nothing) == (
            m.jumped(m.ip + (p.or()->Ok_0.chunk.code.len() - p.chunk.code.len())),
            None::<crate::vm::RequestView>,
        ),
{
    lemma_or_shape(p);
}

} // verus!
