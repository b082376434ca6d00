use vstd::prelude::*;
use crate::error::{append_bytes, append_decimal, bytes_of, decimal, text};
use crate::strings::{distinct, IStrings};
use crate::value::Value;

verus! {

/// One instruction. Operands are indices into the constant pool, stack slots
/// counted from the bottom, or distances in instructions.
#[derive(Clone, Copy, Debug, PartialEq, Eq, Structural)]
pub enum OpCode {
    Add,
    Negate,
    Subtract,
    Multiply,
    Divide,
    Return,
    Nil,
    True,
    False,
    Constant(usize),
    Not,
    Equal,
    Greater,
    Less,
    Print,
    Pop,
    DefineGlobal(usize),
    GetGlobal(usize),
    SetGlobal(usize),
    GetLocal(usize),
    SetLocal(usize),
    Jump(u16),
    JumpIfFalse(u16),
    Loop(u16),
}

impl OpCode {
    /// The operand of the instruction, if it has one.
    pub open spec fn operand(self) -> Option<nat> {
        match self {
            OpCode::Constant(ix) | OpCode::DefineGlobal(ix) | OpCode::GetGlobal(ix)
            | OpCode::SetGlobal(ix) | OpCode::GetLocal(ix) | OpCode::SetLocal(ix) => Some(
                ix as nat,
            ),
            OpCode::Jump(offset) | OpCode::JumpIfFalse(offset) | OpCode::Loop(offset) => Some(
                offset as nat,
            ),
            _ => None,
        }
    }

    /// The name of the instruction in a listing, without its operand.
    pub open spec fn mnemonic(self) -> Seq<u8> {
        match self {
            OpCode::Add => text("ADD"),
            OpCode::Negate => text("NEGATE"),
            OpCode::Subtract => text("SUBTRACT"),
            OpCode::Multiply => text("MULTIPLY"),
            OpCode::Divide => text("DIVIDE"),
            OpCode::Return => text("RETURN"),
            OpCode::Nil => text("NIL"),
            OpCode::True => text("TRUE"),
            OpCode::False => text("FALSE"),
            OpCode::Constant(_) => text("CONSTANT"),
            OpCode::Not => text("NOT"),
            OpCode::Equal => text("EQUAL"),
            OpCode::Greater => text("GREATER"),
            OpCode::Less => text("LESS"),
            OpCode::Print => text("PRINT"),
            OpCode::Pop => text("POP"),
            OpCode::DefineGlobal(_) => text("DEFINE_GLOBAL"),
            OpCode::GetGlobal(_) => text("GET_GLOBAL"),
            OpCode::SetGlobal(_) => text("SET_GLOBAL"),
            OpCode::GetLocal(_) => text("GET_LOCAL"),
            OpCode::SetLocal(_) => text("SET_LOCAL"),
            OpCode::Jump(_) => text("JUMP"),
            OpCode::JumpIfFalse(_) => text("JUMP_IF_FALSE"),
            OpCode::Loop(_) => text("LOOP"),
        }
    }

    /// The instruction as a listing shows it: `ADD`, `CONSTANT(3)`.
    pub open spec fn listed(self) -> Seq<u8> {
        match self.operand() {
            Some(n) => self.mnemonic() + text("(") + decimal(n) + text(")"),
            None => self.mnemonic(),
        }
    }

    /// The instruction as a message shows it: the sign of an operator, a
    /// lower-case word, or the operand alone.
    pub open spec fn shown(self) -> Seq<u8> {
        match self {
            OpCode::Add => text("+"),
            OpCode::Negate => text("-"),
            OpCode::Subtract => text("-"),
            OpCode::Multiply => text("*"),
            OpCode::Divide => text("/"),
            OpCode::Return => text("return"),
            OpCode::Nil => text("nil"),
            OpCode::True => text("true"),
            OpCode::False => text("false"),
            OpCode::Not => text("not"),
            OpCode::Equal => text("equal"),
            OpCode::Greater => text("greater"),
            OpCode::Less => text("less"),
            OpCode::Print => text("print"),
            OpCode::Pop => text("pop"),
            other => decimal(other.operand()->0),
        }
    }

    fn number(&self) -> (n: Option<usize>)
        ensures
            n is Some == self.operand() is Some,
            n matches Some(v) ==> v == self.operand()->0,
    {
        match self {
            OpCode::Constant(ix) | OpCode::DefineGlobal(ix) | OpCode::GetGlobal(ix)
            | OpCode::SetGlobal(ix) | OpCode::GetLocal(ix) | OpCode::SetLocal(ix) => Some(*ix),
            OpCode::Jump(offset) | OpCode::JumpIfFalse(offset) | OpCode::Loop(offset) => Some(
                *offset as usize,
            ),
            _ => None,
        }
    }

    /// The text of the instruction in a listing.
    pub fn name(&self) -> (out: Vec<u8>)
        ensures
            out@ == self.listed(),
    {
        let mut out = match self {
            OpCode::Add => bytes_of("ADD"),
            OpCode::Negate => bytes_of("NEGATE"),
            OpCode::Subtract => bytes_of("SUBTRACT"),
            OpCode::Multiply => bytes_of("MULTIPLY"),
            OpCode::Divide => bytes_of("DIVIDE"),
            OpCode::Return => bytes_of("RETURN"),
            OpCode::Nil => bytes_of("NIL"),
            OpCode::True => bytes_of("TRUE"),
            OpCode::False => bytes_of("FALSE"),
            OpCode::Constant(_) => bytes_of("CONSTANT"),
            OpCode::Not => bytes_of("NOT"),
            OpCode::Equal => bytes_of("EQUAL"),
            OpCode::Greater => bytes_of("GREATER"),
            OpCode::Less => bytes_of("LESS"),
            OpCode::Print => bytes_of("PRINT"),
            OpCode::Pop => bytes_of("POP"),
            OpCode::DefineGlobal(_) => bytes_of("DEFINE_GLOBAL"),
            OpCode::GetGlobal(_) => bytes_of("GET_GLOBAL"),
            OpCode::SetGlobal(_) => bytes_of("SET_GLOBAL"),
            OpCode::GetLocal(_) => bytes_of("GET_LOCAL"),
            OpCode::SetLocal(_) => bytes_of("SET_LOCAL"),
            OpCode::Jump(_) => bytes_of("JUMP"),
            OpCode::JumpIfFalse(_) => bytes_of("JUMP_IF_FALSE"),
            OpCode::Loop(_) => bytes_of("LOOP"),
        };
        match self.number() {
            Some(n) => {
                let open = bytes_of("(");
                let close = bytes_of(")");
                append_bytes(&mut out, open.as_slice());
                append_decimal(&mut out, n);
                append_bytes(&mut out, close.as_slice());
            },
            None => {},
        }
        out
    }

    /// The text of the instruction in a message.
    pub fn symbol(&self) -> (out: Vec<u8>)
        ensures
            out@ == self.shown(),
    {
        match self {
            OpCode::Add => bytes_of("+"),
            OpCode::Negate => bytes_of("-"),
            OpCode::Subtract => bytes_of("-"),
            OpCode::Multiply => bytes_of("*"),
            OpCode::Divide => bytes_of("/"),
            OpCode::Return => bytes_of("return"),
            OpCode::Nil => bytes_of("nil"),
            OpCode::True => bytes_of("true"),
            OpCode::False => bytes_of("false"),
            OpCode::Not => bytes_of("not"),
            OpCode::Equal => bytes_of("equal"),
            OpCode::Greater => bytes_of("greater"),
            OpCode::Less => bytes_of("less"),
            OpCode::Print => bytes_of("print"),
            OpCode::Pop => bytes_of("pop"),
            _ => {
                let mut out: Vec<u8> = Vec::new();
                match self.number() {
                    Some(n) => {
                        append_decimal(&mut out, n);
                    },
                    None => {},
                }
                assert(out@ =~= decimal(self.operand()->0));
                out
            },
        }
    }
}

/// A compiled program: instructions, the source line of each, the constant
/// pool and the interner.
pub struct Chunk {
    pub code: Vec<OpCode>,
    pub constants: Vec<Value>,
    pub lines: Vec<u16>,
    pub strings: IStrings,
}

/// The mathematical value of a [`Chunk`].
pub struct ChunkView {
    pub code: Seq<OpCode>,
    pub constants: Seq<Value>,
    pub lines: Seq<u16>,
    pub strings: Seq<Seq<u8>>,
}

impl View for Chunk {
    type V = ChunkView;

    open spec fn view(&self) -> ChunkView {
        ChunkView {
            code: self.code@,
            constants: self.constants@,
            lines: self.lines@,
            strings: self.strings@,
        }
    }
}

impl ChunkView {
    /// The chunk that holds nothing.
    pub open spec fn empty() -> ChunkView {
        ChunkView {
            code: Seq::empty(),
            constants: Seq::empty(),
            lines: Seq::empty(),
            strings: Seq::empty(),
        }
    }

    /// The chunk with one more constant.
    pub open spec fn with_constant(self, value: Value) -> ChunkView {
        ChunkView { constants: self.constants.push(value), ..self }
    }

    /// The chunk with one more instruction.
    pub open spec fn with_op(self, op: OpCode, line: u16) -> ChunkView {
        ChunkView { code: self.code.push(op), lines: self.lines.push(line), ..self }
    }

    /// The instruction at `at` refers only to what exists: a constant in the
    /// pool (a string where a global is named), a jump target no later than
    /// `limit`, a loop target no later than the loop instruction itself.
    pub open spec fn op_in_bounds(self, at: int, limit: int) -> bool {
        match self.code[at] {
            OpCode::Constant(ix) => ix < self.constants.len(),
            OpCode::DefineGlobal(ix) | OpCode::GetGlobal(ix) | OpCode::SetGlobal(ix) => {
                ix < self.constants.len() && self.constants[ix as int] is String
            },
            OpCode::Jump(offset) | OpCode::JumpIfFalse(offset) => at + 1 + offset <= limit,
            OpCode::Loop(offset) => 1 <= offset <= at + 1,
            _ => true,
        }
    }

    /// What holds of a chunk at every moment of its construction. Jumps may
    /// still point just past the last instruction.
    pub open spec fn wf(self) -> bool {
        &&& self.code.len() == self.lines.len()
        &&& distinct(self.strings)
        &&& forall|k: int|
            0 <= k < self.constants.len() ==> (#[trigger] self.constants[k] matches Value::String(
                id,
            ) ==> id < self.strings.len())
        &&& forall|k: int|
            0 <= k < self.code.len() ==> #[trigger] self.op_in_bounds(k, self.code.len() as int)
    }

    /// What holds of a finished chunk: it ends in `Return`, and every jump
    /// lands on an instruction.
    pub open spec fn complete(self) -> bool {
        &&& self.wf()
        &&& self.code.len() > 0
        &&& self.code.last() == OpCode::Return
        &&& forall|k: int|
            0 <= k < self.code.len() ==> #[trigger] self.op_in_bounds(
                k,
                self.code.len() as int - 1,
            )
    }
}

impl Chunk {
    /// A chunk that holds nothing.
    pub fn new() -> (chunk: Chunk)
        ensures
            chunk@ == ChunkView::empty(),
            chunk@.wf(),
    {
        Chunk {
            code: Vec::new(),
            constants: Vec::new(),
            lines: Vec::new(),
            strings: IStrings::new(),
        }
    }

    /// Appends a constant and returns its index.
    pub fn add_constant(&mut self, value: Value) -> (index: usize)
        ensures
            final(self)@ == old(self)@.with_constant(value),
            index == old(self)@.constants.len(),
    {
        self.constants.push(value);
        self.constants.len() - 1
    }

    /// Appends an instruction with its line and returns its index.
    pub fn emit_byte(&mut self, code: OpCode, line: u16) -> (index: usize)
        ensures
            final(self)@ == old(self)@.with_op(code, line),
            index == old(self)@.code.len(),
    {
        self.code.push(code);
        self.lines.push(line);
        self.code.len() - 1
    }
}

} // verus!
