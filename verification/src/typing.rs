use vstd::prelude::*;
use crate::chunk::{ChunkView, OpCode};

verus! {

/// How deep the stack has to be for the instruction to run.
pub open spec fn needs(op: OpCode) -> int {
    match op {
        OpCode::Pop | OpCode::Print | OpCode::DefineGlobal(_) | OpCode::SetGlobal(_)
        | OpCode::Negate | OpCode::Not | OpCode::JumpIfFalse(_) => 1,
        OpCode::Equal | OpCode::Greater | OpCode::Less | OpCode::Add | OpCode::Subtract
        | OpCode::Multiply | OpCode::Divide => 2,
        OpCode::GetLocal(slot) | OpCode::SetLocal(slot) => slot + 1,
        _ => 0,
    }
}

/// By how much the instruction changes the depth of the stack.
pub open spec fn delta(op: OpCode) -> int {
    match op {
        OpCode::Nil | OpCode::True | OpCode::False | OpCode::Constant(_) | OpCode::GetGlobal(_)
        | OpCode::GetLocal(_) => 1,
        OpCode::Pop | OpCode::Print | OpCode::DefineGlobal(_) | OpCode::Equal | OpCode::Greater
        | OpCode::Less | OpCode::Add | OpCode::Subtract | OpCode::Multiply | OpCode::Divide => -1,
        _ => 0,
    }
}

/// Whether the instruction behind this one may run next.
pub open spec fn falls_through(op: OpCode) -> bool {
    !(op is Jump || op is Loop || op is Return)
}

/// The instruction at `at` agrees with the depths: the stack is deep enough
/// for it, and wherever it goes next the depth is the one it leaves. A jump
/// in `pending` has no target yet.
pub open spec fn fits(code: Seq<OpCode>, depths: Seq<int>, pending: Set<int>, at: int) -> bool {
    &&& depths[at] >= needs(code[at])
    &&& falls_through(code[at]) ==> depths[at + 1] == depths[at] + delta(code[at])
    &&& match code[at] {
        OpCode::Jump(offset) | OpCode::JumpIfFalse(offset) => pending.contains(at) || (at + 1
            + offset <= code.len() && depths[at + 1 + offset] == depths[at]),
        OpCode::Loop(offset) => 1 <= offset <= at + 1 && depths[at + 1 - offset] == depths[at],
        OpCode::Return => depths[at] == 0,
        _ => true,
    }
}

/// `depths` gives every instruction the depth that the stack has whenever
/// the instruction is about to run, and one more depth for the end of the
/// code. The program starts on an empty stack.
pub open spec fn typed(code: Seq<OpCode>, depths: Seq<int>, pending: Set<int>) -> bool {
    &&& depths.len() == code.len() + 1
    &&& depths[0] == 0
    &&& forall|at: int| 0 <= at < code.len() ==> #[trigger] fits(code, depths, pending, at)
}

/// `after` is `before` with more depths behind it.
pub open spec fn grown(before: Seq<int>, after: Seq<int>) -> bool {
    &&& before.len() <= after.len()
    &&& forall|i: int| 0 <= i < before.len() ==> #[trigger] after[i] == before[i]
}

/// The depth at the end of each span is the depth at its start.
#[verifier::opaque]
pub open spec fn even(depths: Seq<int>, spans: Seq<(int, int)>) -> bool {
    forall|k: int|
        0 <= k < spans.len() ==> {
            let (from, to) = #[trigger] spans[k];
            0 <= from <= to < depths.len() && depths[from] == depths[to]
        }
}

/// More depths behind the others leave the spans even.
pub proof fn lemma_even_grown(before: Seq<int>, after: Seq<int>, spans: Seq<(int, int)>)
    requires
        even(before, spans),
        grown(before, after),
    ensures
        even(after, spans),
{
    reveal(even);
    assert forall|k: int| 0 <= k < spans.len() implies ({
        let (from, to) = #[trigger] spans[k];
        0 <= from <= to < after.len() && after[from] == after[to]
    }) by {
        let (from, to) = spans[k];
        assert(0 <= from <= to < before.len() && before[from] == before[to]);
    }
}

/// One more even span leaves the spans even.
pub proof fn lemma_even_push(depths: Seq<int>, spans: Seq<(int, int)>, from: int, to: int)
    requires
        even(depths, spans),
        0 <= from <= to < depths.len(),
        depths[from] == depths[to],
    ensures
        even(depths, spans.push((from, to))),
{
    reveal(even);
    let more = spans.push((from, to));
    assert forall|k: int| 0 <= k < more.len() implies ({
        let (a, b) = #[trigger] more[k];
        0 <= a <= b < depths.len() && depths[a] == depths[b]
    }) by {
        if k < spans.len() {
            let (a, b) = spans[k];
            assert(0 <= a <= b < depths.len() && depths[a] == depths[b]);
        }
    }
}

/// No span is uneven.
pub proof fn lemma_even_none(depths: Seq<int>)
    ensures
        even(depths, Seq::empty()),
{
    reveal(even);
}

/// The depth is 0 at each of the marks.
pub open spec fn empty_at(depths: Seq<int>, marks: Seq<int>) -> bool {
    forall|k: int|
        0 <= k < marks.len() ==> 0 <= #[trigger] marks[k] < depths.len() && depths[marks[k]] == 0
}

impl ChunkView {
    /// The stack discipline with the stack empty at the marks: whenever the
    /// program is about to run an instruction at one of them, nothing is on
    /// the stack.
    pub open spec fn rests_at(self, marks: Seq<int>) -> bool {
        exists|depths: Seq<int>|
            typed(self.code, depths, Set::empty()) && empty_at(depths, marks)
    }

    /// The stack discipline with the stack as deep at the end of each span
    /// as at its start.
    pub open spec fn evens_out(self, spans: Seq<(int, int)>) -> bool {
        exists|depths: Seq<int>| typed(self.code, depths, Set::empty()) && even(depths, spans)
    }

    /// The stack discipline: some assignment of depths fits every
    /// instruction, so that the depth of the stack at an instruction does
    /// not depend on the way that led there, no instruction finds the stack
    /// too shallow, and `Return` finds it empty.
    pub open spec fn balanced(self) -> bool {
        exists|depths: Seq<int>| typed(self.code, depths, Set::empty())
    }
}

/// Appending an instruction that fits keeps the code typed. `after` is the
/// depth behind the instruction; where the instruction does not fall
/// through, any depth will do.
pub proof fn lemma_append_typed(
    code: Seq<OpCode>,
    depths: Seq<int>,
    pending: Set<int>,
    op: OpCode,
    after: int,
    waits: bool,
)
    requires
        typed(code, depths, pending),
        depths.last() >= needs(op),
        falls_through(op) ==> after == depths.last() + delta(op),
        op matches OpCode::Loop(offset) ==> 1 <= offset <= code.len() + 1 && depths[code.len() + 1
            - offset] == depths.last(),
        op is Return ==> depths.last() == 0,
        (op is Jump || op is JumpIfFalse) ==> waits,
        !pending.contains(code.len() as int),
    ensures
        typed(
            code.push(op),
            depths.push(after),
            if waits {
                pending.insert(code.len() as int)
            } else {
                pending
            },
        ),
{
    let code2 = code.push(op);
    let depths2 = depths.push(after);
    let pending2 = if waits {
        pending.insert(code.len() as int)
    } else {
        pending
    };
    assert forall|at: int| 0 <= at < code2.len() implies #[trigger] fits(
        code2,
        depths2,
        pending2,
        at,
    ) by {
        if at < code.len() {
            assert(fits(code, depths, pending, at));
        }
    }
}

/// A waiting jump may be sent to the end of the code, if the depth there is
/// the one it leaves.
pub proof fn lemma_patch_typed(
    code: Seq<OpCode>,
    depths: Seq<int>,
    pending: Set<int>,
    at: int,
    patched: OpCode,
)
    requires
        typed(code, depths, pending),
        0 <= at < code.len(),
        depths[at] == depths.last(),
        match code[at] {
            OpCode::Jump(_) => patched == OpCode::Jump((code.len() - 1 - at) as u16),
            OpCode::JumpIfFalse(_) => patched == OpCode::JumpIfFalse((code.len() - 1 - at) as u16),
            other => patched == other,
        },
        code.len() - 1 - at <= u16::MAX,
    ensures
        typed(code.update(at, patched), depths, pending.remove(at)),
{
    let code2 = code.update(at, patched);
    assert forall|k: int| 0 <= k < code2.len() implies #[trigger] fits(
        code2,
        depths,
        pending.remove(at),
        k,
    ) by {
        assert(fits(code, depths, pending, k));
    }
}

} // verus!
