use std::collections::HashMap;
use vstd::prelude::*;
use vstd::std_specs::hash::*;
use crate::chunk::{Chunk, ChunkView, OpCode};
use crate::error::{append_bytes, bytes_of, text, BessyError, Diagnostic};
use crate::strings::{interned, lemma_interned};
use crate::typing::{empty_at, even, fits, typed};
use crate::value::{negate, negated, number_less, number_lt, Value};

verus! {

broadcast use group_hash_axioms;

/// The arithmetic that the machine leaves to floating-point hardware.
#[derive(Clone, Copy, Debug, PartialEq, Eq, Structural)]
pub enum Arith {
    Add,
    Subtract,
    Multiply,
    Divide,
}

/// What the machine hands to its host when it stops.
#[derive(Debug)]
pub enum Request {
    /// The program has returned.
    Finished,
    /// The program failed; the machine stays at the failing instruction.
    Failed(BessyError),
    /// Write these bytes to the output.
    Output(Vec<u8>),
    /// Apply the operation to the two doubles, left operand first, and
    /// resume with the result as `Reply::Number`.
    Compute(Arith, u64, u64),
    /// Resume with the decimal text of this double as `Reply::Text`.
    Format(u64),
    /// Resume with the double that this number literal, which stands on
    /// this line, denotes as `Reply::Number`. Only a session asks this,
    /// while it reads the source.
    Read(Vec<u8>, u16),
    /// The budget of instructions is used up; resume to go on.
    Paused,
}

/// What the host hands back when it resumes the machine.
#[derive(Debug)]
pub enum Reply {
    Nothing,
    Number(u64),
    Text(Vec<u8>),
}

/// The mathematical value of a [`Request`].
pub enum RequestView {
    Finished,
    Failed(Diagnostic),
    Output(Seq<u8>),
    Compute(Arith, u64, u64),
    Format(u64),
    Read(Seq<u8>, u16),
    Paused,
}

/// The mathematical value of a [`Reply`].
pub enum ReplyView {
    Nothing,
    Number(u64),
    Text(Seq<u8>),
}

impl View for Request {
    type V = RequestView;

    open spec fn view(&self) -> RequestView {
        match *self {
            Request::Finished => RequestView::Finished,
            Request::Failed(e) => RequestView::Failed(e@),
            Request::Output(bytes) => RequestView::Output(bytes@),
            Request::Compute(op, left, right) => RequestView::Compute(op, left, right),
            Request::Format(bits) => RequestView::Format(bits),
            Request::Read(bytes, line) => RequestView::Read(bytes@, line),
            Request::Paused => RequestView::Paused,
        }
    }
}

impl View for Reply {
    type V = ReplyView;

    open spec fn view(&self) -> ReplyView {
        match *self {
            Reply::Nothing => ReplyView::Nothing,
            Reply::Number(bits) => ReplyView::Number(bits),
            Reply::Text(bytes) => ReplyView::Text(bytes@),
        }
    }
}

/// The view of an optional request.
pub open spec fn request_view(request: Option<Request>) -> Option<RequestView> {
    match request {
        Some(r) => Some(r@),
        None => None,
    }
}

/// The state of a run: the chunk, the index of the next instruction, the
/// value stack (bottom first) and the global variables by interned name.
pub struct Machine {
    pub chunk: ChunkView,
    pub ip: int,
    pub stack: Seq<Value>,
    pub globals: Map<usize, Value>,
}

/// A string value names a string that exists.
pub open spec fn value_in_table(value: Value, strings: int) -> bool {
    value matches Value::String(id) ==> id < strings
}

/// The host operation behind an arithmetic instruction.
pub open spec fn arith_of(op: OpCode) -> Arith {
    match op {
        OpCode::Add => Arith::Add,
        OpCode::Subtract => Arith::Subtract,
        OpCode::Multiply => Arith::Multiply,
        _ => Arith::Divide,
    }
}

/// The text that `print` writes for a value that is no number.
pub open spec fn shown(value: Value, strings: Seq<Seq<u8>>) -> Seq<u8> {
    match value {
        Value::Bool(true) => text("true"),
        Value::Bool(false) => text("false"),
        Value::String(id) => strings[id as int],
        _ => text("Nil"),
    }
}

impl Machine {
    /// The machine runs the same program as `before`: the code, the lines
    /// and the constants are the same, and every string has kept its id.
    pub open spec fn same_program(self, before: Machine) -> bool {
        &&& self.chunk.code == before.chunk.code
        &&& self.chunk.lines == before.chunk.lines
        &&& self.chunk.constants == before.chunk.constants
        &&& before.chunk.strings.len() <= self.chunk.strings.len()
        &&& forall|id: int|
            0 <= id < before.chunk.strings.len() ==> #[trigger] self.chunk.strings[id]
                == before.chunk.strings[id]
    }

    /// The machine before the first instruction of `chunk`.
    pub open spec fn fresh(chunk: ChunkView) -> Machine {
        Machine { chunk, ip: 0, stack: Seq::empty(), globals: Map::empty() }
    }

    /// The chunk is finished, the next instruction exists, and every string
    /// value names a string.
    pub open spec fn inv(self) -> bool {
        &&& self.chunk.complete()
        &&& 0 <= self.ip < self.chunk.code.len()
        &&& forall|k: int|
            0 <= k < self.stack.len() ==> value_in_table(
                #[trigger] self.stack[k],
                self.chunk.strings.len() as int,
            )
        &&& forall|id: usize| #[trigger]
            self.globals.contains_key(id) ==> value_in_table(
                self.globals[id],
                self.chunk.strings.len() as int,
            )
    }

    /// The state is reachable under the depths: they fit the code, and the
    /// stack is as deep as they say at the next instruction.
    pub open spec fn settled(self, depths: Seq<int>) -> bool {
        &&& self.inv()
        &&& typed(self.chunk.code, depths, Set::empty())
        &&& self.stack.len() == depths[self.ip]
    }

    /// The value `depth` places below the top of the stack.
    pub open spec fn peek(self, depth: int) -> Value {
        self.stack[self.stack.len() - 1 - depth]
    }

    /// The source line of the instruction about to run.
    pub open spec fn line(self) -> u16 {
        self.chunk.lines[self.ip]
    }

    /// The machine at another instruction.
    pub open spec fn jumped(self, ip: int) -> Machine {
        Machine { ip, ..self }
    }

    /// The machine at the next instruction.
    pub open spec fn next(self) -> Machine {
        self.jumped(self.ip + 1)
    }

    /// The machine with one more value on the stack.
    pub open spec fn pushed(self, value: Value) -> Machine {
        Machine { stack: self.stack.push(value), ..self }
    }

    /// The machine with `count` values less on the stack.
    pub open spec fn dropped(self, count: int) -> Machine {
        Machine { stack: self.stack.take(self.stack.len() - count), ..self }
    }

    /// The machine stops with a runtime error at the current line.
    pub open spec fn failed(self, message: Seq<u8>) -> (Machine, Option<RequestView>) {
        (self, Some(RequestView::Failed(Diagnostic::Runtime(message, self.line()))))
    }

    /// The interned name that a global instruction refers to.
    pub open spec fn global_name(self, ix: usize) -> usize {
        match self.chunk.constants[ix as int] {
            Value::String(id) => id,
            _ => 0,
        }
    }

    /// An arithmetic instruction or a comparison, on two stacked operands.
    pub open spec fn binary(self, op: OpCode, reply: ReplyView) -> (Machine, Option<RequestView>) {
        match (self.peek(0), self.peek(1)) {
            (Value::Number(right), Value::Number(left)) => match op {
                OpCode::Greater => (
                    self.next().dropped(2).pushed(Value::Bool(number_lt(right, left))),
                    None,
                ),
                OpCode::Less => (
                    self.next().dropped(2).pushed(Value::Bool(number_lt(left, right))),
                    None,
                ),
                _ => match reply {
                    ReplyView::Number(result) => (
                        self.next().dropped(2).pushed(Value::Number(result)),
                        None,
                    ),
                    _ => (self, Some(RequestView::Compute(arith_of(op), left, right))),
                },
            },
            (Value::String(right), Value::String(left)) => match op {
                OpCode::Add => {
                    let joined = self.chunk.strings[left as int]
                        + self.chunk.strings[right as int];
                    let (strings, id) = interned(self.chunk.strings, joined);
                    (
                        Machine {
                            chunk: ChunkView { strings, ..self.chunk },
                            ..self.next().dropped(2).pushed(Value::String(id as usize))
                        },
                        None,
                    )
                },
                _ => self.failed(text("Unsupported operation for Strings.")),
            },
            _ => self.failed(
                text("Operands to '") + op.shown() + text("' should be of type number."),
            ),
        }
    }

    /// The `Print` instruction. A number is shown by the host.
    pub open spec fn print(self, reply: ReplyView) -> (Machine, Option<RequestView>) {
        match self.peek(0) {
            Value::Number(bits) => match reply {
                ReplyView::Text(digits) => (
                    self.next().dropped(1),
                    Some(RequestView::Output(digits + text("\n"))),
                ),
                _ => (self, Some(RequestView::Format(bits))),
            },
            value => (
                self.next().dropped(1),
                Some(RequestView::Output(shown(value, self.chunk.strings) + text("\n"))),
            ),
        }
    }

    /// One instruction. The result is the state after it and, where the
    /// machine has to stop, the request to the host. A request that asks for
    /// a reply leaves the state as it is: the instruction runs when the reply
    /// comes.
    pub open spec fn step(self, reply: ReplyView) -> (Machine, Option<RequestView>) {
        match self.chunk.code[self.ip] {
            OpCode::Nil => (self.next().pushed(Value::Nil), None),
            OpCode::True => (self.next().pushed(Value::Bool(true)), None),
            OpCode::False => (self.next().pushed(Value::Bool(false)), None),
            OpCode::Constant(ix) => (self.next().pushed(self.chunk.constants[ix as int]), None),
            OpCode::Pop => (self.next().dropped(1), None),
            OpCode::Negate => match self.peek(0) {
                Value::Number(bits) => (
                    self.next().dropped(1).pushed(Value::Number(negated(bits))),
                    None,
                ),
                _ => self.failed(text("Operand to '-' should be of type number.")),
            },
            OpCode::Not => (
                self.next().dropped(1).pushed(Value::Bool(self.peek(0).falsey())),
                None,
            ),
            OpCode::Equal => (
                self.next().dropped(2).pushed(Value::Bool(self.peek(1).equals(self.peek(0)))),
                None,
            ),
            OpCode::Add => self.binary(OpCode::Add, reply),
            OpCode::Subtract => self.binary(OpCode::Subtract, reply),
            OpCode::Multiply => self.binary(OpCode::Multiply, reply),
            OpCode::Divide => self.binary(OpCode::Divide, reply),
            OpCode::Greater => self.binary(OpCode::Greater, reply),
            OpCode::Less => self.binary(OpCode::Less, reply),
            OpCode::Print => self.print(reply),
            OpCode::DefineGlobal(ix) => (
                Machine {
                    globals: self.globals.insert(self.global_name(ix), self.peek(0)),
                    ..self.next().dropped(1)
                },
                None,
            ),
            OpCode::GetGlobal(ix) => if self.globals.contains_key(self.global_name(ix)) {
                (self.next().pushed(self.globals[self.global_name(ix)]), None)
            } else {
                self.failed(
                    text("Undefined variable '") + self.chunk.strings[self.global_name(ix) as int]
                        + text("'."),
                )
            },
            OpCode::SetGlobal(ix) => if self.globals.contains_key(self.global_name(ix)) {
                (
                    Machine {
                        globals: self.globals.insert(self.global_name(ix), self.peek(0)),
                        ..self.next()
                    },
                    None,
                )
            } else {
                self.failed(text("Cannot assign to undefined variable"))
            },
            OpCode::GetLocal(slot) => (self.next().pushed(self.stack[slot as int]), None),
            OpCode::SetLocal(slot) => (
                Machine { stack: self.stack.update(slot as int, self.peek(0)), ..self.next() },
                None,
            ),
            OpCode::JumpIfFalse(offset) => if self.peek(0).falsey() {
                (self.jumped(self.ip + 1 + offset), None)
            } else {
                (self.next(), None)
            },
            OpCode::Jump(offset) => (self.jumped(self.ip + 1 + offset), None),
            OpCode::Loop(offset) => (self.jumped(self.ip + 1 - offset), None),
            OpCode::Return => (self, Some(RequestView::Finished)),
        }
    }

    /// Up to `budget` instructions, the first of them with `reply`, until one
    /// of them stops with a request.
    pub open spec fn run(self, reply: ReplyView, budget: nat) -> (Machine, RequestView)
        decreases budget,
    {
        if budget == 0 {
            (self, RequestView::Paused)
        } else {
            let (after, request) = self.step(reply);
            match request {
                Some(r) => (after, r),
                None => after.run(ReplyView::Nothing, (budget - 1) as nat),
            }
        }
    }
}

/// A finished chunk stays finished when its interner grows.
pub proof fn lemma_complete_with_more_strings(chunk: ChunkView, strings: Seq<Seq<u8>>)
    requires
        chunk.complete(),
        crate::strings::distinct(strings),
        chunk.strings.len() <= strings.len(),
    ensures
        (ChunkView { strings, ..chunk }).complete(),
{
    let after = ChunkView { strings, ..chunk };
    assert forall|k: int| 0 <= k < after.constants.len() implies (
    #[trigger] after.constants[k] matches Value::String(id) ==> id < after.strings.len()) by {
        assert(chunk.constants[k] matches Value::String(id) ==> id < chunk.strings.len());
    }
    assert forall|k: int| 0 <= k < after.code.len() implies #[trigger] after.op_in_bounds(
        k,
        after.code.len() as int,
    ) by {
        assert(chunk.op_in_bounds(k, chunk.code.len() as int));
    }
    assert forall|k: int| 0 <= k < after.code.len() implies #[trigger] after.op_in_bounds(
        k,
        after.code.len() as int - 1,
    ) by {
        assert(chunk.op_in_bounds(k, chunk.code.len() as int - 1));
    }
}

/// A step leads from a reachable state to a reachable state: the stack
/// stays as deep as the depths of the code say, so that no instruction finds
/// it too shallow and `Return` finds it empty.
pub proof fn lemma_step_keeps_settled(m: Machine, reply: ReplyView, depths: Seq<int>)
    requires
        m.settled(depths),
    ensures
        m.step(reply).0.settled(depths),
        m.stack.len() >= crate::typing::needs(m.chunk.code[m.ip]),
        m.chunk.code[m.ip] is Return ==> m.stack.len() == 0,
{
    let after = m.step(reply).0;
    let op = m.chunk.code[m.ip];
    assert(m.chunk.op_in_bounds(m.ip, m.chunk.code.len() as int - 1));
    assert(m.chunk.op_in_bounds(m.ip, m.chunk.code.len() as int));
    assert(fits(m.chunk.code, depths, Set::empty(), m.ip));
    match op {
        OpCode::Add => {
            if let (Value::String(right), Value::String(left)) = (m.peek(0), m.peek(1)) {
                let joined = m.chunk.strings[left as int] + m.chunk.strings[right as int];
                lemma_interned(m.chunk.strings, joined);
                lemma_complete_with_more_strings(m.chunk, interned(m.chunk.strings, joined).0);
            }
        },
        OpCode::Constant(ix) => {
            assert(value_in_table(m.chunk.constants[ix as int], m.chunk.strings.len() as int));
        },
        _ => {},
    }
}

/// A run leads from a reachable state to a reachable state.
pub proof fn lemma_run_keeps_settled(m: Machine, reply: ReplyView, budget: nat, depths: Seq<int>)
    requires
        m.settled(depths),
    ensures
        m.run(reply, budget).0.settled(depths),
    decreases budget,
{
    if budget > 0 {
        lemma_step_keeps_settled(m, reply, depths);
        let (after, request) = m.step(reply);
        if request is None {
            lemma_run_keeps_settled(after, ReplyView::Nothing, (budget - 1) as nat, depths);
        }
    }
}

/// A run that ends with `Finished` ends at a `Return`, on an empty stack.
pub proof fn lemma_finished_on_empty_stack(
    m: Machine,
    reply: ReplyView,
    budget: nat,
    depths: Seq<int>,
)
    requires
        m.settled(depths),
    ensures
        m.run(reply, budget).1 is Finished ==> m.run(reply, budget).0.stack.len() == 0
            && m.run(reply, budget).0.chunk.code[m.run(reply, budget).0.ip] is Return,
    decreases budget,
{
    if budget > 0 {
        lemma_step_keeps_settled(m, reply, depths);
        let (after, request) = m.step(reply);
        if request is None {
            lemma_finished_on_empty_stack(after, ReplyView::Nothing, (budget - 1) as nat, depths);
        } else {
            assert(fits(m.chunk.code, depths, Set::empty(), m.ip));
        }
    }
}

/// A program that keeps the stack discipline returns on an empty stack,
/// whatever the host answers.
pub proof fn lemma_return_on_empty_stack(chunk: ChunkView, reply: ReplyView, budget: nat)
    requires
        chunk.complete(),
        chunk.balanced(),
    ensures
        Machine::fresh(chunk).run(reply, budget).1 is Finished ==> Machine::fresh(chunk).run(
            reply,
            budget,
        ).0.stack.len() == 0,
{
    let depths = choose|depths: Seq<int>| typed(chunk.code, depths, Set::empty());
    lemma_finished_on_empty_stack(Machine::fresh(chunk), reply, budget, depths);
}

/// Where a program rests at its marks, the stack is empty whenever a run
/// from the start stops at one of them: the statements between the marks
/// leave the stack as deep as they found it.
pub proof fn lemma_stack_empty_at_marks(
    chunk: ChunkView,
    marks: Seq<int>,
    reply: ReplyView,
    budget: nat,
    k: int,
)
    requires
        chunk.complete(),
        chunk.rests_at(marks),
        0 <= k < marks.len(),
    ensures
        Machine::fresh(chunk).run(reply, budget).0.ip == marks[k] ==> Machine::fresh(chunk).run(
            reply,
            budget,
        ).0.stack.len() == 0,
{
    let depths = choose|depths: Seq<int>|
        typed(chunk.code, depths, Set::empty()) && empty_at(depths, marks);
    lemma_run_keeps_settled(Machine::fresh(chunk), reply, budget, depths);
}

/// Where the stack discipline of a program evens out over its spans, the
/// stack is as deep when the program has come to the end of a span as it
/// was at its start: what lies between, as a statement does, leaves the
/// stack as deep as it found it.
pub proof fn lemma_statement_keeps_depth(
    chunk: ChunkView,
    spans: Seq<(int, int)>,
    k: int,
    first: (ReplyView, nat),
    second: (ReplyView, nat),
)
    requires
        chunk.complete(),
        chunk.evens_out(spans),
        0 <= k < spans.len(),
    ensures
        ({
            let before = Machine::fresh(chunk).run(first.0, first.1).0;
            let after = before.run(second.0, second.1).0;
            before.ip == spans[k].0 && after.ip == spans[k].1 ==> before.stack.len()
                == after.stack.len()
        }),
{
    reveal(even);
    let depths = choose|depths: Seq<int>|
        typed(chunk.code, depths, Set::empty()) && even(depths, spans);
    let before = Machine::fresh(chunk).run(first.0, first.1).0;
    lemma_run_keeps_settled(Machine::fresh(chunk), first.0, first.1, depths);
    lemma_run_keeps_settled(before, second.0, second.1, depths);
    let (from, to) = spans[k];
    assert(depths[from] == depths[to]);
}

/// Where a run is split in two, the second part going on where the first
/// paused, nothing changes: what a program does and asks does not depend
/// on the budgets of its host. (A first part of no instruction has no use
/// for a reply.)
pub proof fn lemma_pause_changes_nothing(m: Machine, reply: ReplyView, first: nat, second: nat)
    requires
        first > 0 || reply is Nothing,
    ensures
        m.run(reply, first + second) == if m.run(reply, first).1 is Paused {
            m.run(reply, first).0.run(ReplyView::Nothing, second)
        } else {
            m.run(reply, first)
        },
    decreases first,
{
    if first > 0 {
        let (after, request) = m.step(reply);
        if request is None {
            lemma_pause_changes_nothing(after, ReplyView::Nothing, (first - 1) as nat, second);
        }
    }
}

/// A step keeps the program.
pub proof fn lemma_step_keeps_program(m: Machine, reply: ReplyView, depths: Seq<int>)
    requires
        m.settled(depths),
    ensures
        m.step(reply).0.same_program(m),
{
    lemma_step_keeps_settled(m, reply, depths);
    if m.chunk.code[m.ip] == OpCode::Add {
        if let (Value::String(right), Value::String(left)) = (m.peek(0), m.peek(1)) {
            let joined = m.chunk.strings[left as int] + m.chunk.strings[right as int];
            lemma_interned(m.chunk.strings, joined);
        }
    }
}

/// A run keeps the program.
pub proof fn lemma_run_keeps_program(m: Machine, reply: ReplyView, budget: nat, depths: Seq<int>)
    requires
        m.settled(depths),
    ensures
        m.run(reply, budget).0.same_program(m),
    decreases budget,
{
    if budget > 0 {
        let (after, request) = m.step(reply);
        lemma_step_keeps_program(m, reply, depths);
        lemma_step_keeps_settled(m, reply, depths);
        if request is None {
            lemma_run_keeps_program(after, ReplyView::Nothing, (budget - 1) as nat, depths);
        }
    }
}

/// The virtual machine: a chunk being run.
pub struct VM {
    chunk: Chunk,
    ip: usize,
    stack: Vec<Value>,
    globals: HashMap<usize, Value>,
    depths: Ghost<Seq<int>>,
}

impl View for VM {
    type V = Machine;

    closed spec fn view(&self) -> Machine {
        Machine {
            chunk: self.chunk@,
            ip: self.ip as int,
            stack: self.stack@,
            globals: self.globals@,
        }
    }
}

impl VM {
    /// The depth that the stack has at each instruction of the chunk.
    pub closed spec fn depths(&self) -> Seq<int> {
        self.depths@
    }

    /// What holds of every machine: its state is reachable.
    pub open spec fn wf(&self) -> bool {
        self@.settled(self.depths())
    }

    /// A machine at the first instruction of `chunk`, with nothing on the
    /// stack and no global defined.
    pub fn new(chunk: Chunk) -> (vm: VM)
        requires
            chunk@.complete(),
            chunk@.balanced(),
        ensures
            vm@ == Machine::fresh(chunk@),
            vm.wf(),
    {
        let ghost depths = choose|depths: Seq<int>| typed(chunk@.code, depths, Set::empty());
        let vm = VM {
            chunk,
            ip: 0,
            stack: Vec::new(),
            globals: HashMap::new(),
            depths: Ghost(depths),
        };
        assert(vm@.globals =~= Map::empty());
        vm
    }

    /// The chunk that the machine runs.
    pub fn chunk(&self) -> (chunk: &Chunk)
        ensures
            chunk@ == self@.chunk,
    {
        &self.chunk
    }

    /// The number of values on the stack.
    pub fn depth(&self) -> (depth: usize)
        ensures
            depth == self@.stack.len(),
    {
        self.stack.len()
    }

    fn pop(&mut self) -> (value: Value)
        requires
            old(self)@.stack.len() >= 1,
        ensures
            value == old(self)@.peek(0),
            final(self)@ == old(self)@.dropped(1),
            final(self).depths() == old(self).depths(),
    {
        let value = self.stack.pop().unwrap();
        assert(self.stack@ =~= old(self).stack@.take(old(self).stack@.len() - 1));
        value
    }

    fn push(&mut self, value: Value)
        ensures
            final(self)@ == old(self)@.pushed(value),
            final(self).depths() == old(self).depths(),
    {
        self.stack.push(value);
    }

    fn peek(&self, depth: usize) -> (value: Value)
        requires
            depth < self@.stack.len(),
        ensures
            value == self@.peek(depth as int),
    {
        self.stack[self.stack.len() - 1 - depth]
    }

    fn bump(&mut self)
        requires
            old(self)@.ip < old(self)@.chunk.code.len(),
        ensures
            final(self)@ == old(self)@.next(),
            final(self).depths() == old(self).depths(),
    {
        assert(self.ip < self.chunk.code.len());
        self.ip += 1;
    }

    fn fail(&self, message: Vec<u8>) -> (request: Option<Request>)
        requires
            0 <= self@.ip < self@.chunk.lines.len(),
        ensures
            (*self)@.failed(message@) == (self@, request_view(request)),
    {
        Some(Request::Failed(BessyError::Runtime(message, self.chunk.lines[self.ip])))
    }

    fn global_name(&self, ix: usize) -> (id: usize)
        requires
            ix < self@.chunk.constants.len(),
        ensures
            id == self@.global_name(ix),
    {
        match self.chunk.constants[ix] {
            Value::String(id) => id,
            _ => 0,
        }
    }

    // Replaces the two operands on top of the stack by `value`.
    fn settle(&mut self, value: Value)
        requires
            old(self)@.stack.len() >= 2,
            old(self)@.ip < old(self)@.chunk.code.len(),
        ensures
            final(self)@ == old(self)@.next().dropped(2).pushed(value),
            final(self).depths() == old(self).depths(),
    {
        self.pop();
        self.pop();
        self.push(value);
        self.bump();
        assert(old(self)@.dropped(1).dropped(1).stack =~= old(self)@.dropped(2).stack);
    }

    fn binary(&mut self, op: OpCode, reply: Reply) -> (request: Option<Request>)
        requires
            old(self).wf(),
            old(self)@.stack.len() >= 2,
            op == OpCode::Add || op == OpCode::Subtract || op == OpCode::Multiply || op
                == OpCode::Divide || op == OpCode::Greater || op == OpCode::Less,
        ensures
            (final(self)@, request_view(request)) == old(self)@.binary(op, reply@),
            final(self).depths() == old(self).depths(),
    {
        match (self.peek(0), self.peek(1)) {
            (Value::Number(right), Value::Number(left)) => {
                match op {
                    OpCode::Greater => {
                        self.settle(Value::Bool(number_less(right, left)));
                        None
                    },
                    OpCode::Less => {
                        self.settle(Value::Bool(number_less(left, right)));
                        None
                    },
                    _ => {
                        match reply {
                            Reply::Number(result) => {
                                self.settle(Value::Number(result));
                                None
                            },
                            _ => {
                                let arith = match op {
                                    OpCode::Add => Arith::Add,
                                    OpCode::Subtract => Arith::Subtract,
                                    OpCode::Multiply => Arith::Multiply,
                                    _ => Arith::Divide,
                                };
                                Some(Request::Compute(arith, left, right))
                            },
                        }
                    },
                }
            },
            (Value::String(right), Value::String(left)) => {
                match op {
                    OpCode::Add => {
                        assert(value_in_table(self@.peek(0), self@.chunk.strings.len() as int));
                        assert(value_in_table(self@.peek(1), self@.chunk.strings.len() as int));
                        let mut joined: Vec<u8> = Vec::new();
                        append_bytes(&mut joined, self.chunk.strings.lookup(left));
                        append_bytes(&mut joined, self.chunk.strings.lookup(right));
                        assert(joined@ =~= self@.chunk.strings[left as int]
                            + self@.chunk.strings[right as int]);
                        let id = self.chunk.strings.intern(joined.as_slice());
                        self.settle(Value::String(id));
                        None
                    },
                    _ => self.fail(bytes_of("Unsupported operation for Strings.")),
                }
            },
            _ => {
                let mut message = bytes_of("Operands to '");
                let name = op.symbol();
                append_bytes(&mut message, name.as_slice());
                let tail = bytes_of("' should be of type number.");
                append_bytes(&mut message, tail.as_slice());
                self.fail(message)
            },
        }
    }

    fn print(&mut self, reply: Reply) -> (request: Option<Request>)
        requires
            old(self).wf(),
            old(self)@.stack.len() >= 1,
        ensures
            (final(self)@, request_view(request)) == old(self)@.print(reply@),
            final(self).depths() == old(self).depths(),
    {
        let newline = bytes_of("\n");
        match self.peek(0) {
            Value::Number(bits) => {
                match reply {
                    Reply::Text(digits) => {
                        let mut line = digits;
                        append_bytes(&mut line, newline.as_slice());
                        self.pop();
                        self.bump();
                        Some(Request::Output(line))
                    },
                    _ => Some(Request::Format(bits)),
                }
            },
            value => {
                assert(value_in_table(self@.peek(0), self@.chunk.strings.len() as int));
                let mut line = match value {
                    Value::Bool(true) => bytes_of("true"),
                    Value::Bool(false) => bytes_of("false"),
                    Value::String(id) => {
                        let mut copy: Vec<u8> = Vec::new();
                        append_bytes(&mut copy, self.chunk.strings.lookup(id));
                        assert(copy@ =~= self@.chunk.strings[id as int]);
                        copy
                    },
                    _ => bytes_of("Nil"),
                };
                append_bytes(&mut line, newline.as_slice());
                self.pop();
                self.bump();
                Some(Request::Output(line))
            },
        }
    }

    /// Runs one instruction.
    pub fn step(&mut self, reply: Reply) -> (request: Option<Request>)
        requires
            old(self).wf(),
        ensures
            final(self).wf(),
            final(self).depths() == old(self).depths(),
            (final(self)@, request_view(request)) == old(self)@.step(reply@),
            final(self)@.same_program(old(self)@),
    {
        proof {
            lemma_step_keeps_program(self@, reply@, self.depths());
            lemma_step_keeps_settled(self@, reply@, self.depths());
            assert(self@.chunk.op_in_bounds(self@.ip, self@.chunk.code.len() as int - 1));
            assert(fits(self@.chunk.code, self.depths(), Set::empty(), self@.ip));
        }
        let op = self.chunk.code[self.ip];
        match op {
            OpCode::Nil => {
                self.push(Value::Nil);
                self.bump();
                None
            },
            OpCode::True => {
                self.push(Value::Bool(true));
                self.bump();
                None
            },
            OpCode::False => {
                self.push(Value::Bool(false));
                self.bump();
                None
            },
            OpCode::Constant(ix) => {
                self.push(self.chunk.constants[ix]);
                self.bump();
                None
            },
            OpCode::Pop => {
                self.pop();
                self.bump();
                None
            },
            OpCode::Negate => {
                match self.peek(0) {
                    Value::Number(bits) => {
                        self.pop();
                        self.push(Value::Number(negate(bits)));
                        self.bump();
                        None
                    },
                    _ => self.fail(bytes_of("Operand to '-' should be of type number.")),
                }
            },
            OpCode::Not => {
                let value = self.pop().is_falsey();
                self.push(Value::Bool(value));
                self.bump();
                None
            },
            OpCode::Equal => {
                let b = self.peek(0);
                let a = self.peek(1);
                self.settle(Value::Bool(a.equal(b)));
                None
            },
            OpCode::Add | OpCode::Subtract | OpCode::Multiply | OpCode::Divide | OpCode::Greater
            | OpCode::Less => self.binary(op, reply),
            OpCode::Print => self.print(reply),
            OpCode::DefineGlobal(ix) => {
                let name = self.global_name(ix);
                let value = self.pop();
                self.globals.insert(name, value);
                self.bump();
                None
            },
            OpCode::GetGlobal(ix) => {
                let name = self.global_name(ix);
                match self.globals.get(&name) {
                    Some(value) => {
                        let value = *value;
                        self.push(value);
                        self.bump();
                        None
                    },
                    None => {
                        let mut message = bytes_of("Undefined variable '");
                        append_bytes(&mut message, self.chunk.strings.lookup(name));
                        let tail = bytes_of("'.");
                        append_bytes(&mut message, tail.as_slice());
                        self.fail(message)
                    },
                }
            },
            OpCode::SetGlobal(ix) => {
                let name = self.global_name(ix);
                if self.globals.contains_key(&name) {
                    let value = self.peek(0);
                    self.globals.insert(name, value);
                    self.bump();
                    None
                } else {
                    self.fail(bytes_of("Cannot assign to undefined variable"))
                }
            },
            OpCode::GetLocal(slot) => {
                let value = self.stack[slot];
                self.push(value);
                self.bump();
                None
            },
            OpCode::SetLocal(slot) => {
                let value = self.peek(0);
                self.stack.set(slot, value);
                self.bump();
                None
            },
            OpCode::JumpIfFalse(offset) => {
                if self.peek(0).is_falsey() {
                    assert(self.ip + 1 + offset < self.chunk.code.len());
                    self.ip = self.ip + 1 + offset as usize;
                } else {
                    self.bump();
                }
                None
            },
            OpCode::Jump(offset) => {
                assert(self.ip + 1 + offset < self.chunk.code.len());
                self.ip = self.ip + 1 + offset as usize;
                None
            },
            OpCode::Loop(offset) => {
                assert(self.ip < self.chunk.code.len());
                self.ip = self.ip + 1 - offset as usize;
                None
            },
            OpCode::Return => Some(Request::Finished),
        }
    }

    /// Runs the program until it has something to ask of the host, for at
    /// most `budget` instructions. `reply` answers the request that the
    /// previous call returned.
    pub fn run(&mut self, reply: Reply, budget: u64) -> (request: Request)
        requires
            old(self).wf(),
        ensures
            final(self).wf(),
            (final(self)@, request@) == old(self)@.run(reply@, budget as nat),
            final(self)@.same_program(old(self)@),
    {
        proof {
            lemma_run_keeps_program(self@, reply@, budget as nat, self.depths());
        }
        let mut pending = reply;
        let mut left: u64 = budget;
        while left > 0
            invariant
                self.wf(),
                old(self)@.run(reply@, budget as nat) == self@.run(pending@, left as nat),
                old(self)@.run(reply@, budget as nat).0.same_program(old(self)@),
            decreases left,
        {
            let mut answer = Reply::Nothing;
            std::mem::swap(&mut answer, &mut pending);
            match self.step(answer) {
                Some(request) => {
                    return request;
                },
                None => {},
            }
            left -= 1;
        }
        Request::Paused
    }
}

} // verus!
