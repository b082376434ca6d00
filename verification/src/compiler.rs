use vstd::prelude::*;
use crate::chunk::{Chunk, ChunkView, OpCode};
use crate::error::{bytes_of, text, BessyError, Diagnostic};
use crate::idle::{
    earnest, lemma_advance_aligned, lemma_append_keeps_loops, lemma_bare_clauses,
    lemma_bare_condition, lemma_idle_for, lemma_into_block, lemma_level_over_block,
    lemma_level_with_itself, lemma_loops_of_code, lemma_no_loops, lemma_out_of_block,
    lemma_patch_keeps_loops, lemma_start_aligned,
};
use crate::model::{
    declared_in_scope, resolve, CompilerView, LocalView, Parsed, Resolved, MAX_LOCALS,
};
use crate::precedence::{get_rule, rule_of, Infix, Precedence, Prefix};
use crate::progress::lemma_declaration_bounded;
use crate::strings::{lemma_interned, same_bytes};
use crate::token::{Token, TokenType, TokenView};
use crate::typing::{
    delta, empty_at, even, falls_through, grown, lemma_append_typed, lemma_even_grown,
    lemma_even_none, lemma_even_push, lemma_patch_typed, needs, typed,
};
use crate::value::Value;

verus! {

/// A local variable of the program being compiled.
pub struct Local<'a> {
    name: &'a [u8],
    depth: Option<usize>,
}

impl<'a> View for Local<'a> {
    type V = LocalView;

    closed spec fn view(&self) -> LocalView {
        LocalView { name: self.name@, depth: self.depth }
    }
}

/// The view of an optional diagnostic.
pub open spec fn failure_view(failure: Option<BessyError>) -> Option<Diagnostic> {
    match failure {
        Some(e) => Some(e@),
        None => None,
    }
}

/// The view of an optional position in the code.
pub open spec fn position_view(at: Option<usize>) -> Option<int> {
    match at {
        Some(at) => Some(at as int),
        None => None,
    }
}

/// The views of the tokens.
pub open spec fn token_views(tokens: Seq<Token<'_>>) -> Seq<TokenView> {
    tokens.map_values(|t: Token<'_>| t@)
}

/// The single-pass compiler: it reads tokens and writes a chunk.
pub struct Compiler<'a> {
    tokens: Vec<Token<'a>>,
    failure: Option<BessyError>,
    pos: usize,
    current: Token<'a>,
    previous: Token<'a>,
    chunk: Chunk,
    locals: Vec<Local<'a>>,
    scope_depth: usize,
    depths: Ghost<Seq<int>>,
    pending: Ghost<Set<int>>,
    spans: Ghost<Seq<(int, int)>>,
}

impl<'a> View for Compiler<'a> {
    type V = CompilerView;

    closed spec fn view(&self) -> CompilerView {
        CompilerView {
            tokens: token_views(self.tokens@),
            failure: failure_view(self.failure),
            pos: self.pos as int,
            current: self.current@,
            previous: self.previous@,
            chunk: self.chunk@,
            locals: self.locals@.map_values(|l: Local<'a>| l@),
            scope_depth: self.scope_depth as int,
            spans: self.spans@,
        }
    }
}

impl CompilerView {
    /// What holds of every state that the compiler reaches.
    pub open spec fn inv(self) -> bool {
        &&& self.chunk.wf()
        &&& 0 <= self.pos <= self.tokens.len()
        &&& 0 <= self.scope_depth
        &&& self.scope_depth + self.measure() <= self.tokens.len()
        &&& self.aligned()
    }

    /// What holds between a state and an earlier one: the same tokens, no
    /// more of them left, the same scope, no less code.
    pub open spec fn follows(self, before: CompilerView) -> bool {
        &&& self.tokens == before.tokens
        &&& self.failure == before.failure
        &&& self.measure() <= before.measure()
        &&& before.pos <= self.pos
        &&& self.scope_depth == before.scope_depth
        &&& before.chunk.code.len() <= self.chunk.code.len()
        &&& before.chunk.constants.len() <= self.chunk.constants.len()
        &&& forall|k: int|
            0 <= k < before.chunk.constants.len() ==> #[trigger] self.chunk.constants[k]
                == before.chunk.constants[k]
    }

    /// No instruction has been appended since `before`.
    pub open spec fn silent_since(self, before: CompilerView) -> bool {
        self.chunk.code.len() == before.chunk.code.len()
    }

    /// As `follows`, one scope further out.
    pub open spec fn leaves(self, before: CompilerView) -> bool {
        self.follows(CompilerView { scope_depth: before.scope_depth - 1, ..before })
    }

    /// The instruction may be appended: what it refers to exists.
    pub open spec fn admits(self, op: OpCode) -> bool {
        match op {
            OpCode::Constant(ix) => ix < self.chunk.constants.len(),
            OpCode::DefineGlobal(ix) | OpCode::GetGlobal(ix) | OpCode::SetGlobal(ix) => {
                ix < self.chunk.constants.len() && self.chunk.constants[ix as int] is String
            },
            OpCode::Jump(offset) | OpCode::JumpIfFalse(offset) => offset == 0,
            OpCode::Loop(offset) => 1 <= offset <= self.chunk.code.len() + 1,
            _ => true,
        }
    }
}

/// Every local has a depth but, at most, the newest; and no depth is
/// beyond the current scope.
pub open spec fn locals_ok(locals: Seq<LocalView>, scope_depth: int) -> bool {
    &&& forall|i: int|
        0 <= i < locals.len() ==> ((#[trigger] locals[i]).depth matches Some(d) ==> d
            <= scope_depth)
    &&& forall|i: int| 0 <= i < locals.len() - 1 ==> (#[trigger] locals[i]).depth is Some
}

/// How many locals have their value on the stack: all of them, but for one
/// whose initializer is being compiled.
pub open spec fn floor(locals: Seq<LocalView>) -> int {
    if locals.len() > 0 && locals.last().depth is None {
        locals.len() - 1
    } else {
        locals.len() as int
    }
}

/// `after` is `before` with more locals behind it, all declared at `depth`.
pub open spec fn extends(after: Seq<LocalView>, before: Seq<LocalView>, depth: int) -> bool {
    &&& before.len() <= after.len()
    &&& forall|i: int| 0 <= i < before.len() ==> #[trigger] after[i] == before[i]
    &&& forall|i: int|
        before.len() <= i < after.len() ==> (#[trigger] after[i]).depth == Some(depth as usize)
}

/// Whether the step ended as the model says: in that state, or with that
/// error.
pub open spec fn agrees(outcome: Parsed, after: CompilerView, r: Result<(), BessyError>) -> bool {
    match outcome {
        Ok(p) => r is Ok && after == p,
        Err(e) => r matches Err(x) && x@ == e,
    }
}

/// An instruction that refers to what exists keeps the chunk well formed.
pub proof fn lemma_emit_keeps_wf(p: CompilerView, op: OpCode)
    requires
        p.chunk.wf(),
        p.admits(op),
    ensures
        p.emit(op).chunk.wf(),
{
    let after = p.emit(op).chunk;
    assert forall|k: int| 0 <= k < after.code.len() implies #[trigger] after.op_in_bounds(
        k,
        after.code.len() as int,
    ) by {
        if k < p.chunk.code.len() {
            assert(p.chunk.op_in_bounds(k, p.chunk.code.len() as int));
        }
    }
}

/// A constant that names no missing string keeps the chunk well formed.
pub proof fn lemma_constant_keeps_wf(chunk: ChunkView, value: Value)
    requires
        chunk.wf(),
        value matches Value::String(id) ==> id < chunk.strings.len(),
    ensures
        chunk.with_constant(value).wf(),
{
    let after = chunk.with_constant(value);
    assert forall|k: int| 0 <= k < after.code.len() implies #[trigger] after.op_in_bounds(
        k,
        after.code.len() as int,
    ) by {
        assert(chunk.op_in_bounds(k, chunk.code.len() as int));
    }
}

/// An interned string constant keeps the chunk well formed.
pub proof fn lemma_string_keeps_wf(p: CompilerView, lexeme: Seq<u8>)
    requires
        p.chunk.wf(),
    ensures
        p.create_string(lexeme).chunk.wf(),
        p.create_string(lexeme).chunk.constants.len() == p.chunk.constants.len() + 1,
        p.create_string(lexeme).chunk.constants.last() is String,
        p.create_string(lexeme).chunk.code == p.chunk.code,
{
    let after = p.create_string(lexeme).chunk;
    lemma_interned(p.chunk.strings, lexeme);
    assert forall|k: int| 0 <= k < after.constants.len() implies (
    #[trigger] after.constants[k] matches Value::String(id) ==> id < after.strings.len()) by {
        if k < p.chunk.constants.len() {
            assert(p.chunk.constants[k] matches Value::String(id) ==> id < p.chunk.strings.len());
        }
    }
    assert forall|k: int| 0 <= k < after.code.len() implies #[trigger] after.op_in_bounds(
        k,
        after.code.len() as int,
    ) by {
        assert(p.chunk.op_in_bounds(k, p.chunk.code.len() as int));
    }
}

/// A patched jump lands at the end of the code: the chunk stays well formed.
pub proof fn lemma_patch_keeps_wf(p: CompilerView, at: int)
    requires
        p.chunk.wf(),
        0 <= at < p.chunk.code.len(),
    ensures
        p.patch_jump(at) matches Ok(q) ==> q.chunk.wf() && q.chunk.code.len()
            == p.chunk.code.len(),
{
    if let Ok(q) = p.patch_jump(at) {
        let after = q.chunk;
        assert forall|k: int| 0 <= k < after.code.len() implies #[trigger] after.op_in_bounds(
            k,
            after.code.len() as int,
        ) by {
            assert(p.chunk.op_in_bounds(k, p.chunk.code.len() as int));
        }
    }
}

impl<'a> Compiler<'a> {
    /// The depth of the stack at each instruction emitted so far, and behind
    /// the last one.
    pub closed spec fn depths(&self) -> Seq<int> {
        self.depths@
    }

    /// The jumps that have no target yet.
    pub closed spec fn pending(&self) -> Set<int> {
        self.pending@
    }

    /// The depth of the stack where the next instruction will stand.
    pub open spec fn depth(&self) -> int {
        self.depths().last()
    }

    /// What holds of the compiler at every moment: its state is well
    /// formed, the depths fit the code, and the locals are in order.
    pub open spec fn sound(&self) -> bool {
        &&& self@.inv()
        &&& typed(self@.chunk.code, self.depths(), self.pending())
        &&& forall|at: int| #[trigger]
            self.pending().contains(at) ==> 0 <= at < self@.chunk.code.len()
        &&& locals_ok(self@.locals, self@.scope_depth)
        &&& 0 <= self.depth()
        &&& earnest(self@.tokens) ==> self@.chunk.loops_go_back()
        &&& even(self.depths(), self@.spans)
    }

    /// An expression may start here: the locals that have a value are on
    /// the stack.
    pub open spec fn roomy(&self) -> bool {
        floor(self@.locals) <= self.depth()
    }

    /// A statement may start here: the stack holds the locals, and nothing
    /// else.
    pub open spec fn tidy(&self) -> bool {
        &&& floor(self@.locals) == self@.locals.len()
        &&& self.depth() == self@.locals.len()
    }

    /// The compiler is as `new` made it, or as good: at the top level, with
    /// no local and no jump that waits.
    pub open spec fn ready(&self) -> bool {
        &&& self.sound()
        &&& self.tidy()
        &&& self@.scope_depth == 0
        &&& self@.locals.len() == 0
        &&& self.pending() == Set::<int>::empty()
    }

    /// What a step keeps: the earlier depths, the waiting jumps, and the
    /// tokens, scope and constants as `follows` says.
    pub open spec fn keeps(&self, before: Compiler<'a>) -> bool {
        &&& self@.follows(before@)
        &&& self.pending() == before.pending()
        &&& grown(before.depths(), self.depths())
    }

    /// As `keeps`, with the same locals and `gain` more values on the stack.
    pub open spec fn carries(&self, before: Compiler<'a>, gain: int) -> bool {
        &&& self.keeps(before)
        &&& self.depth() == before.depth() + gain
        &&& self@.locals == before@.locals
        &&& gain > 0 ==> !self@.silent_since(before@)
    }

    /// A compiler over the tokens of a source. `failure` is the error that
    /// the lexer met behind the last of them, if it met one: it comes up
    /// when the compiler asks for the token that was not read.
    pub fn new(tokens: Vec<Token<'a>>, failure: Option<BessyError>) -> (compiler: Compiler<'a>)
        ensures
            compiler@ == CompilerView::start(token_views(tokens@), failure_view(failure)),
            compiler.ready(),
    {
        let nothing = vstd::slice::slice_subrange("".as_bytes(), 0, 0);
        let first = Token::new(TokenType::Eof, nothing, 0);
        let compiler = Compiler {
            tokens,
            failure,
            pos: 0,
            current: first,
            previous: first,
            chunk: Chunk::new(),
            locals: Vec::new(),
            scope_depth: 0,
            depths: Ghost(Seq::<int>::empty().push(0int)),
            pending: Ghost(Set::empty()),
            spans: Ghost(Seq::empty()),
        };
        proof {
            assert(first@.lexeme =~= Seq::<u8>::empty());
            assert(compiler@.locals =~= Seq::<LocalView>::empty());
            lemma_no_loops();
            lemma_start_aligned(compiler@.tokens, compiler@.failure);
            lemma_even_none(compiler.depths());
        }
        compiler
    }

    fn error(&self, message: &str) -> (e: BessyError)
        ensures
            e@ == self@.error(text(message)),
    {
        BessyError::Parser(bytes_of(message), self.previous.line)
    }

    // Takes the next token.
    fn advance(&mut self) -> (r: Result<(), BessyError>)
        requires
            old(self).sound(),
        ensures
            agrees(old(self)@.advance(), final(self)@, r),
            r is Ok ==> final(self).sound() && final(self).carries(*old(self), 0),
            r is Ok && old(self)@.current.kind != TokenType::Eof
                ==> final(self)@.measure() < old(self)@.measure(),
    {
        proof {
            lemma_advance_aligned(self@);
        }
        if self.pos < self.tokens.len() {
            self.previous = self.current;
            self.current = self.tokens[self.pos];
            self.pos += 1;
            Ok(())
        } else {
            match &self.failure {
                Some(e) => Err(e.duplicate()),
                None => {
                    let nothing = vstd::slice::slice_subrange(self.current.lexeme, 0, 0);
                    self.previous = self.current;
                    self.current = Token::new(TokenType::Eof, nothing, self.previous.line);
                    assert(self.current@.lexeme =~= Seq::<u8>::empty());
                    Ok(())
                },
            }
        }
    }

    // Appends an instruction that goes on to the one behind it.
    fn emit(&mut self, op: OpCode)
        requires
            old(self).sound(),
            old(self)@.admits(op),
            old(self).depth() >= needs(op),
            falls_through(op),
            !(op is JumpIfFalse),
        ensures
            final(self)@ == old(self)@.emit(op),
            final(self).sound(),
            final(self).carries(*old(self), delta(op)),
    {
        proof {
            lemma_emit_keeps_wf(self@, op);
            lemma_append_typed(
                self@.chunk.code,
                self.depths(),
                self.pending(),
                op,
                self.depth() + delta(op),
                false,
            );
            if earnest(self@.tokens) {
                lemma_append_keeps_loops(self@.chunk, op, self.previous.line);
            }
            lemma_even_grown(
                self.depths(),
                self.depths().push(self.depth() + delta(op)),
                self@.spans,
            );
        }
        let _ = self.chunk.emit_byte(op, self.previous.line);
        self.depths = Ghost(self.depths@.push(self.depths@.last() + delta(op)));
    }

    fn emits(&mut self, a: OpCode, b: OpCode)
        requires
            old(self).sound(),
            old(self)@.admits(a),
            old(self)@.emit(a).admits(b),
            old(self).depth() >= needs(a),
            old(self).depth() + delta(a) >= needs(b),
            falls_through(a),
            falls_through(b),
            !(a is JumpIfFalse),
            !(b is JumpIfFalse),
        ensures
            final(self)@ == old(self)@.emit(a).emit(b),
            final(self).sound(),
            final(self).carries(*old(self), delta(a) + delta(b)),
    {
        self.emit(a);
        self.emit(b);
    }

    // Takes the current token if it is of this kind.
    fn next_eq(&mut self, kind: TokenType) -> (r: Result<bool, BessyError>)
        requires
            old(self).sound(),
        ensures
            match old(self)@.next_eq(kind) {
                Ok(p) => final(self)@ == p && r == Ok::<bool, BessyError>(
                    old(self)@.current.kind == kind,
                ),
                Err(e) => r matches Err(x) && x@ == e,
            },
            r is Ok ==> final(self).sound() && final(self).carries(*old(self), 0),
            r == Ok::<bool, BessyError>(true) && kind != TokenType::Eof ==> final(self)@.measure()
                < old(self)@.measure(),
    {
        if self.current.kind == kind {
            self.advance()?;
            Ok(true)
        } else {
            Ok(false)
        }
    }

    // Takes the current token, which has to be of this kind.
    fn consume(&mut self, kind: TokenType, msg: &str) -> (r: Result<(), BessyError>)
        requires
            old(self).sound(),
        ensures
            agrees(old(self)@.consume(kind, text(msg)), final(self)@, r),
            r is Ok ==> final(self).sound() && final(self).carries(*old(self), 0) && (kind
                != TokenType::Eof ==> final(self)@.measure() < old(self)@.measure()),
    {
        if self.current.kind == kind {
            self.advance()
        } else {
            Err(self.error(msg))
        }
    }

    fn create_string(&mut self, lexeme: &[u8]) -> (index: usize)
        requires
            old(self).sound(),
        ensures
            final(self)@ == old(self)@.create_string(lexeme@),
            index == old(self)@.chunk.constants.len(),
            final(self).sound(),
            final(self).carries(*old(self), 0),
            final(self)@.chunk.constants.len() == index + 1,
            final(self)@.chunk.constants[index as int] is String,
            final(self)@.chunk.code == old(self)@.chunk.code,
    {
        proof {
            lemma_string_keeps_wf(self@, lexeme@);
            lemma_loops_of_code(self@.chunk, self@.create_string(lexeme@).chunk);
        }
        let str_index = self.chunk.strings.intern(lexeme);
        self.chunk.add_constant(Value::String(str_index))
    }

    // Appends a jump that has no target yet. Behind an unconditional jump
    // the depth is `next`.
    fn emit_jump(&mut self, op: OpCode, Ghost(next): Ghost<int>) -> (index: usize)
        requires
            old(self).sound(),
            op == OpCode::Jump(0) || op == OpCode::JumpIfFalse(0),
            op is JumpIfFalse ==> old(self).depth() >= 1 && next == old(self).depth(),
            0 <= next,
        ensures
            final(self)@ == old(self)@.emit(op),
            index == old(self)@.chunk.code.len(),
            final(self).sound(),
            final(self)@.follows(old(self)@),
            final(self).pending() == old(self).pending().insert(index as int),
            !old(self).pending().contains(index as int),
            grown(old(self).depths(), final(self).depths()),
            final(self).depths()[index as int] == old(self).depth(),
            final(self).depth() == next,
            final(self)@.locals == old(self)@.locals,
    {
        proof {
            lemma_emit_keeps_wf(self@, op);
            lemma_append_typed(
                self@.chunk.code,
                self.depths(),
                self.pending(),
                op,
                next,
                true,
            );
            if earnest(self@.tokens) {
                lemma_append_keeps_loops(self@.chunk, op, self.previous.line);
            }
            lemma_even_grown(self.depths(), self.depths().push(next), self@.spans);
        }
        let index = self.chunk.emit_byte(op, self.previous.line);
        self.depths = Ghost(self.depths@.push(next));
        self.pending = Ghost(self.pending@.insert(index as int));
        index
    }

    // Fills in the distance of the jump at `pos`: to the end of the code.
    fn patch_jump(&mut self, pos: usize) -> (r: Result<(), BessyError>)
        requires
            old(self).sound(),
            old(self).pending().contains(pos as int),
            old(self).depths()[pos as int] == old(self).depth(),
        ensures
            agrees(old(self)@.patch_jump(pos as int), final(self)@, r),
            r is Ok ==> final(self).sound() && final(self)@.follows(old(self)@)
                && final(self)@.chunk.code.len() == old(self)@.chunk.code.len()
                && final(self).pending() == old(self).pending().remove(pos as int)
                && final(self).depths() == old(self).depths()
                && final(self)@.locals == old(self)@.locals,
    {
        proof {
            lemma_patch_keeps_wf(self@, pos as int);
        }
        let index = self.chunk.code.len() - 1 - pos;
        if index > 65535 {
            return Err(self.error("Too much code to skip over."));
        }
        let distance = index as u16;
        let op = match self.chunk.code[pos] {
            OpCode::Jump(_) => OpCode::Jump(distance),
            OpCode::JumpIfFalse(_) => OpCode::JumpIfFalse(distance),
            other => other,
        };
        proof {
            lemma_patch_typed(self@.chunk.code, self.depths(), self.pending(), pos as int, op);
            if earnest(self@.tokens) {
                lemma_patch_keeps_loops(self@.chunk, pos as int, op);
            }
        }
        self.chunk.code.set(pos, op);
        self.pending = Ghost(self.pending@.remove(pos as int));
        Ok(())
    }

    // Appends the jump back to the instruction at `start`. Behind it the
    // depth is `next`.
    fn emit_loop(&mut self, start: usize, Ghost(next): Ghost<int>) -> (r: Result<(), BessyError>)
        requires
            old(self).sound(),
            start <= old(self)@.chunk.code.len(),
            old(self).depths()[start as int] == old(self).depth(),
            0 <= next,
            earnest(old(self)@.tokens) ==> start < old(self)@.chunk.code.len(),
        ensures
            agrees(old(self)@.emit_loop(start as int), final(self)@, r),
            r is Ok ==> final(self).sound() && final(self).keeps(*old(self)),
            r is Ok ==> final(self).depth() == next && final(self)@.locals == old(self)@.locals,
    {
        let offset = self.chunk.code.len() - start;
        if offset >= 65535 {
            return Err(self.error("Loop body too large."));
        }
        let op = OpCode::Loop((offset + 1) as u16);
        proof {
            if earnest(self@.tokens) {
                lemma_append_keeps_loops(self@.chunk, op, self.previous.line);
            }
            lemma_emit_keeps_wf(self@, op);
            lemma_append_typed(
                self@.chunk.code,
                self.depths(),
                self.pending(),
                op,
                next,
                false,
            );
            lemma_even_grown(self.depths(), self.depths().push(next), self@.spans);
        }
        let _ = self.chunk.emit_byte(op, self.previous.line);
        self.depths = Ghost(self.depths@.push(next));
        Ok(())
    }

    fn begin_scope(&mut self)
        requires
            old(self).sound(),
            old(self)@.scope_depth + old(self)@.measure() < old(self)@.tokens.len(),
        ensures
            final(self)@ == old(self)@.begin_scope(),
            final(self).sound(),
            final(self).depths() == old(self).depths(),
            final(self).pending() == old(self).pending(),
    {
        assert(self.scope_depth < self.tokens.len());
        self.scope_depth += 1;
    }

    // Leaves the current scope: its locals go, with a `Pop` for each. The
    // locals of the scopes around it are `outer`.
    fn end_scope(&mut self, Ghost(outer): Ghost<Seq<LocalView>>)
        requires
            old(self).sound(),
            old(self).tidy(),
            old(self)@.scope_depth >= 1,
            extends(old(self)@.locals, outer, old(self)@.scope_depth),
            locals_ok(outer, old(self)@.scope_depth - 1),
            floor(outer) == outer.len(),
        ensures
            final(self)@ == old(self)@.end_scope(),
            final(self).sound(),
            final(self).tidy(),
            final(self)@.leaves(old(self)@),
            final(self).pending() == old(self).pending(),
            grown(old(self).depths(), final(self).depths()),
            final(self)@.locals == outer,
    {
        self.scope_depth -= 1;
        let ghost entered = self@;
        loop
            invariant
                self@.inv(),
                typed(self@.chunk.code, self.depths(), self.pending()),
                forall|at: int| #[trigger]
                    self.pending().contains(at) ==> 0 <= at < self@.chunk.code.len(),
                earnest(self@.tokens) ==> self@.chunk.loops_go_back(),
                even(self.depths(), self@.spans),
                self@.follows(entered),
                self.pending() == old(self).pending(),
                grown(old(self).depths(), self.depths()),
                entered.pop_scope() == self@.pop_scope(),
                outer.len() <= self@.locals.len() <= entered.locals.len(),
                self@.locals == entered.locals.take(self@.locals.len() as int),
                self.depth() == self@.locals.len(),
                entered.locals == old(self)@.locals,
                entered.scope_depth == old(self)@.scope_depth - 1,
                extends(entered.locals, outer, entered.scope_depth + 1),
                locals_ok(outer, entered.scope_depth),
                floor(outer) == outer.len(),
            ensures
                self@ == entered.pop_scope(),
                self@.inv(),
                typed(self@.chunk.code, self.depths(), self.pending()),
                forall|at: int| #[trigger]
                    self.pending().contains(at) ==> 0 <= at < self@.chunk.code.len(),
                earnest(self@.tokens) ==> self@.chunk.loops_go_back(),
                even(self.depths(), self@.spans),
                self@.follows(entered),
                self.pending() == old(self).pending(),
                grown(old(self).depths(), self.depths()),
                self@.locals.len() == outer.len(),
                self@.locals == entered.locals.take(self@.locals.len() as int),
                self.depth() == self@.locals.len(),
            decreases self.locals.len(),
        {
            let count = self.locals.len();
            if count == 0 {
                break;
            }
            proof {
                let last = self@.locals[count - 1];
                assert(last == entered.locals[count - 1]);
                if count > outer.len() {
                    assert(last.depth == Some((entered.scope_depth + 1) as usize));
                } else {
                    assert(last == outer[count - 1]);
                    assert(outer.last().depth is Some);
                    assert(last.depth->0 <= entered.scope_depth);
                }
            }
            match self.locals[count - 1].depth {
                Some(depth) => {
                    if depth > self.scope_depth {
                        let ghost before = self@;
                        proof {
                            if earnest(self@.tokens) {
                                lemma_append_keeps_loops(
                                    self@.chunk,
                                    OpCode::Pop,
                                    self.previous.line,
                                );
                            }
                            lemma_emit_keeps_wf(self@, OpCode::Pop);
                            lemma_append_typed(
                                self@.chunk.code,
                                self.depths(),
                                self.pending(),
                                OpCode::Pop,
                                self.depth() - 1,
                                false,
                            );
                            lemma_even_grown(
                                self.depths(),
                                self.depths().push(self.depth() - 1),
                                self@.spans,
                            );
                        }
                        let _ = self.chunk.emit_byte(OpCode::Pop, self.previous.line);
                        self.depths = Ghost(self.depths@.push(self.depths@.last() - 1));
                        self.locals.pop();
                        assert(self@.locals =~= before.locals.drop_last());
                        assert(self@.locals =~= entered.locals.take(self@.locals.len() as int));
                    } else {
                        break;
                    }
                },
                None => {
                    break;
                },
            }
        }
        proof {
            assert(self@.locals =~= outer);
        }
    }

    // Gives the newest local the depth of the current scope.
    fn mark_initialized(&mut self)
        requires
            old(self).sound(),
        ensures
            final(self)@ == old(self)@.mark_initialized(),
            final(self).sound(),
            final(self).keeps(*old(self)),
            final(self).depths() == old(self).depths(),
    {
        let count = self.locals.len();
        if count > 0 {
            let name = self.locals[count - 1].name;
            self.locals.set(count - 1, Local { name, depth: Some(self.scope_depth) });
            assert(self@.locals =~= old(self)@.locals.update(
                count - 1,
                LocalView { depth: Some(self.scope_depth), ..old(self)@.locals.last() },
            ));
        }
    }

    // Whether no scope at the current depth or deeper has declared `name`.
    fn is_unique(&self, name: &[u8]) -> (r: Result<(), BessyError>)
        ensures
            r is Ok <==> !declared_in_scope(self@.locals, name@, self@.scope_depth),
            r matches Err(e) ==> e@ == self@.error(
                text("Already a variable with this name in this scope."),
            ),
    {
        let mut i: usize = self.locals.len();
        while i > 0
            invariant
                i <= self.locals.len(),
                forall|k: int|
                    i <= k < self.locals.len() ==> !((#[trigger] self@.locals[k]).name == name@
                        && self@.locals[k].depth is Some && self@.locals[k].depth->0
                        >= self@.scope_depth),
            decreases i,
        {
            i -= 1;
            let local = &self.locals[i];
            let deep = match local.depth {
                Some(depth) => depth >= self.scope_depth,
                None => false,
            };
            if deep && same_bytes(local.name, name) {
                assert(self@.locals[i as int].name == name@);
                return Err(self.error("Already a variable with this name in this scope."));
            }
        }
        Ok(())
    }

    // The slot of the innermost local called `name`.
    fn resolve_local(&self, name: &[u8]) -> (r: Resolved)
        ensures
            r == resolve(self@.locals, name@, self@.locals.len() as int),
            r matches Resolved::Local(slot) ==> slot < self@.locals.len()
                && self@.locals[slot as int].depth is Some,
    {
        let mut i: usize = self.locals.len();
        while i > 0
            invariant
                i <= self.locals.len(),
                resolve(self@.locals, name@, self@.locals.len() as int) == resolve(
                    self@.locals,
                    name@,
                    i as int,
                ),
            decreases i,
        {
            i -= 1;
            let local = &self.locals[i];
            if same_bytes(local.name, name) {
                assert(self@.locals[i as int].name == name@);
                if local.depth.is_none() {
                    return Resolved::Nope;
                } else {
                    return Resolved::Local(i);
                }
            }
            assert(self@.locals[i as int].name != name@);
        }
        Resolved::Global
    }

    // A number literal, which is the previous token.
    fn number(&mut self) -> (r: Result<(), BessyError>)
        requires
            old(self).sound(),
            old(self).roomy(),
        ensures
            agrees(old(self)@.number(), final(self)@, r),
            r is Ok ==> final(self).sound() && final(self).carries(*old(self), 1),
    {
        match self.previous.kind {
            TokenType::Number(value) => {
                proof {
                    lemma_constant_keeps_wf(self@.chunk, Value::Number(value));
                    lemma_loops_of_code(
                        self@.chunk,
                        self@.chunk.with_constant(Value::Number(value)),
                    );
                }
                let index = self.chunk.add_constant(Value::Number(value));
                self.emit(OpCode::Constant(index));
                Ok(())
            },
            _ => Err(self.error("Expected Number!")),
        }
    }

    // A string literal, which is the previous token.
    fn string(&mut self) -> (r: Result<(), BessyError>)
        requires
            old(self).sound(),
            old(self).roomy(),
        ensures
            agrees(old(self)@.string(), final(self)@, r),
            r is Ok ==> final(self).sound() && final(self).carries(*old(self), 1),
    {
        match self.previous.kind {
            TokenType::StrLit => {
                let index = self.create_string(self.previous.lexeme);
                self.emit(OpCode::Constant(index));
                Ok(())
            },
            _ => Err(self.error("Expected String literal.")),
        }
    }

    // `true`, `false` or `nil`, which is the previous token.
    fn literal(&mut self)
        requires
            old(self).sound(),
            old(self).roomy(),
            rule_of(old(self)@.previous.kind).prefix == Some(Prefix::Literal),
        ensures
            final(self)@ == old(self)@.literal(),
            final(self).sound(),
            final(self).carries(*old(self), 1),
    {
        match self.previous.kind {
            TokenType::False => self.emit(OpCode::False),
            TokenType::True => self.emit(OpCode::True),
            TokenType::Nil => self.emit(OpCode::Nil),
            _ => {},
        }
    }
}

/// A well-formed chunk is complete once `Return` is appended.
pub proof fn lemma_return_completes(p: CompilerView)
    requires
        p.chunk.wf(),
    ensures
        p.emit(OpCode::Return).chunk.complete(),
{
    lemma_emit_keeps_wf(p, OpCode::Return);
    let after = p.emit(OpCode::Return).chunk;
    assert forall|k: int| 0 <= k < after.code.len() implies #[trigger] after.op_in_bounds(
        k,
        after.code.len() as int - 1,
    ) by {
        if k < p.chunk.code.len() {
            assert(p.chunk.op_in_bounds(k, p.chunk.code.len() as int));
        }
    }
}

impl<'a> Compiler<'a> {
    // An expression of at least the binding power `bp`.
    #[verifier::loop_isolation(false)]
    fn parse_precedence(&mut self, bp: Precedence) -> (r: Result<(), BessyError>)
        requires
            old(self).sound(),
            old(self).roomy(),
        ensures
            agrees(old(self)@.parse_precedence(bp), final(self)@, r),
            r is Ok ==> final(self).sound() && final(self).carries(*old(self), 1),
        decreases old(self)@.measure(), 0int,
    {
        let can_assign = bp.level() <= Precedence::Assignment.level();
        self.advance()?;
        match get_rule(self.previous.kind).prefix {
            None => Err(self.error("Expect expression")),
            Some(rule) => {
                self.prefix(rule, can_assign)?;
                let ghost operand = self@;
                while self.continues(bp)
                    invariant
                        self.sound(),
                        self.carries(*old(self), 1),
                        self@.measure() < old(self)@.measure(),
                        operand.infixes(bp, can_assign) == self@.infixes(bp, can_assign),
                    decreases self@.measure(),
                {
                    match get_rule(self.current.kind).infix {
                        Some(infix) => {
                            self.advance()?;
                            self.infix(infix)?;
                        },
                        None => {},
                    }
                }
                if can_assign && self.current.kind == TokenType::Equal {
                    self.advance()?;
                    Err(self.error("Invalid assignment target"))
                } else {
                    Ok(())
                }
            },
        }
    }

    // Whether an infix operator follows that binds at least as tightly as `bp`.
    fn continues(&self, bp: Precedence) -> (r: bool)
        ensures
            r == (bp.rank() <= rule_of(self@.current.kind).precedence.rank() && rule_of(
                self@.current.kind,
            ).infix is Some),
    {
        let rule = get_rule(self.current.kind);
        bp.level() <= rule.precedence.level() && rule.infix.is_some()
    }

    // The prefix form that the previous token begins.
    fn prefix(&mut self, rule: Prefix, can_assign: bool) -> (r: Result<(), BessyError>)
        requires
            old(self).sound(),
            old(self).roomy(),
            rule_of(old(self)@.previous.kind).prefix == Some(rule),
        ensures
            agrees(old(self)@.prefix(rule, can_assign), final(self)@, r),
            r is Ok ==> final(self).sound() && final(self).carries(*old(self), 1),
        decreases old(self)@.measure(), 5int,
    {
        match rule {
            Prefix::Grouping => self.grouping(),
            Prefix::Unary => self.unary(),
            Prefix::Number => self.number(),
            Prefix::Literal => {
                self.literal();
                Ok(())
            },
            Prefix::String => self.string(),
            Prefix::Variable => self.variable(can_assign),
        }
    }

    // The right side of the infix operator that is the previous token.
    fn infix(&mut self, rule: Infix) -> (r: Result<(), BessyError>)
        requires
            old(self).sound(),
            floor(old(self)@.locals) + 1 <= old(self).depth(),
            rule_of(old(self)@.previous.kind).infix == Some(rule),
        ensures
            agrees(old(self)@.infix(rule), final(self)@, r),
            r is Ok ==> final(self).sound() && final(self).carries(*old(self), 0),
        decreases old(self)@.measure(), 5int,
    {
        match rule {
            Infix::Binary => self.binary(),
            Infix::And => self.and(),
            Infix::Or => self.or(),
        }
    }

    fn expression(&mut self) -> (r: Result<(), BessyError>)
        requires
            old(self).sound(),
            old(self).roomy(),
        ensures
            agrees(old(self)@.expression(), final(self)@, r),
            r is Ok ==> final(self).sound() && final(self).carries(*old(self), 1),
        decreases old(self)@.measure(), 1int,
    {
        self.parse_precedence(Precedence::Assignment)
    }

    fn grouping(&mut self) -> (r: Result<(), BessyError>)
        requires
            old(self).sound(),
            old(self).roomy(),
        ensures
            agrees(old(self)@.grouping(), final(self)@, r),
            r is Ok ==> final(self).sound() && final(self).carries(*old(self), 1),
        decreases old(self)@.measure(), 2int,
    {
        self.expression()?;
        self.consume(TokenType::RightParen, "Expect ')' after expression")
    }

    fn unary(&mut self) -> (r: Result<(), BessyError>)
        requires
            old(self).sound(),
            old(self).roomy(),
        ensures
            agrees(old(self)@.unary(), final(self)@, r),
            r is Ok ==> final(self).sound() && final(self).carries(*old(self), 1),
        decreases old(self)@.measure(), 2int,
    {
        let operator = self.previous.kind;
        self.parse_precedence(Precedence::Unary)?;
        match operator {
            TokenType::Minus => {
                self.emit(OpCode::Negate);
                Ok(())
            },
            TokenType::Bang => {
                self.emit(OpCode::Not);
                Ok(())
            },
            _ => Ok(()),
        }
    }

    fn binary(&mut self) -> (r: Result<(), BessyError>)
        requires
            old(self).sound(),
            floor(old(self)@.locals) + 1 <= old(self).depth(),
            rule_of(old(self)@.previous.kind).infix == Some(Infix::Binary),
        ensures
            agrees(old(self)@.binary(), final(self)@, r),
            r is Ok ==> final(self).sound() && final(self).carries(*old(self), 0),
        decreases old(self)@.measure(), 2int,
    {
        let operator = self.previous.kind;
        let rule = get_rule(operator).precedence;
        self.parse_precedence(rule.next())?;
        match operator {
            TokenType::Plus => {
                self.emit(OpCode::Add);
                Ok(())
            },
            TokenType::Minus => {
                self.emit(OpCode::Subtract);
                Ok(())
            },
            TokenType::Star => {
                self.emit(OpCode::Multiply);
                Ok(())
            },
            TokenType::Slash => {
                self.emit(OpCode::Divide);
                Ok(())
            },
            TokenType::BangEqual => {
                self.emits(OpCode::Equal, OpCode::Not);
                Ok(())
            },
            TokenType::EqualEqual => {
                self.emit(OpCode::Equal);
                Ok(())
            },
            TokenType::Greater => {
                self.emit(OpCode::Greater);
                Ok(())
            },
            TokenType::GreaterEqual => {
                self.emits(OpCode::Less, OpCode::Not);
                Ok(())
            },
            TokenType::Less => {
                self.emit(OpCode::Less);
                Ok(())
            },
            TokenType::LessEqual => {
                self.emits(OpCode::Greater, OpCode::Not);
                Ok(())
            },
            _ => Ok(()),
        }
    }

    fn and(&mut self) -> (r: Result<(), BessyError>)
        requires
            old(self).sound(),
            floor(old(self)@.locals) + 1 <= old(self).depth(),
        ensures
            agrees(old(self)@.and(), final(self)@, r),
            r is Ok ==> final(self).sound() && final(self).carries(*old(self), 0),
        decreases old(self)@.measure(), 2int,
    {
        let end_jump = self.emit_jump(OpCode::JumpIfFalse(0), Ghost(self.depth()));
        self.emit(OpCode::Pop);
        self.parse_precedence(Precedence::And)?;
        self.patch_jump(end_jump)?;
        assert(self.pending() =~= old(self).pending());
        Ok(())
    }

    fn or(&mut self) -> (r: Result<(), BessyError>)
        requires
            old(self).sound(),
            floor(old(self)@.locals) + 1 <= old(self).depth(),
        ensures
            agrees(old(self)@.or(), final(self)@, r),
            r is Ok ==> final(self).sound() && final(self).carries(*old(self), 0),
        decreases old(self)@.measure(), 2int,
    {
        let else_jump = self.emit_jump(OpCode::JumpIfFalse(0), Ghost(self.depth()));
        let end_jump = self.emit_jump(OpCode::Jump(0), Ghost(self.depth()));
        self.patch_jump(else_jump)?;
        self.emit(OpCode::Pop);
        self.parse_precedence(Precedence::Or)?;
        self.patch_jump(end_jump)?;
        assert(self.pending() =~= old(self).pending());
        Ok(())
    }

    fn variable(&mut self, can_assign: bool) -> (r: Result<(), BessyError>)
        requires
            old(self).sound(),
            old(self).roomy(),
        ensures
            agrees(
                old(self)@.named_variable(old(self)@.previous, can_assign),
                final(self)@,
                r,
            ),
            r is Ok ==> final(self).sound() && final(self).carries(*old(self), 1),
        decreases old(self)@.measure(), 3int,
    {
        self.named_variable(self.previous, can_assign)
    }

    fn named_variable(&mut self, name: Token<'a>, can_assign: bool) -> (r: Result<
        (),
        BessyError,
    >)
        requires
            old(self).sound(),
            old(self).roomy(),
        ensures
            agrees(old(self)@.named_variable(name@, can_assign), final(self)@, r),
            r is Ok ==> final(self).sound() && final(self).carries(*old(self), 1),
        decreases old(self)@.measure(), 2int,
    {
        match name.kind {
            TokenType::Identifier => {
                match self.resolve_local(name.lexeme) {
                    Resolved::Global => {
                        let index = self.create_string(name.lexeme);
                        self.access(
                            OpCode::GetGlobal(index),
                            OpCode::SetGlobal(index),
                            can_assign,
                            Ghost(old(self)@.measure()),
                        )
                    },
                    Resolved::Local(i) => self.access(
                        OpCode::GetLocal(i),
                        OpCode::SetLocal(i),
                        can_assign,
                        Ghost(old(self)@.measure()),
                    ),
                    Resolved::Nope => Err(
                        self.error("Can't read local variable in its own initializer."),
                    ),
                }
            },
            _ => Err(self.error("Expected variable name.")),
        }
    }

    // The read of a variable, or the assigned expression and the write.
    fn access(
        &mut self,
        get: OpCode,
        set: OpCode,
        can_assign: bool,
        Ghost(bound): Ghost<int>,
    ) -> (r: Result<(), BessyError>)
        requires
            old(self).sound(),
            old(self).roomy(),
            old(self)@.measure() == bound,
            old(self)@.admits(get),
            old(self)@.admits(set),
            (get is GetGlobal && set is SetGlobal) || (get is GetLocal && set is SetLocal && needs(
                get,
            ) <= floor(old(self)@.locals) && needs(set) <= floor(old(self)@.locals)),
        ensures
            agrees(old(self)@.access(get, set, can_assign, bound), final(self)@, r),
            r is Ok ==> final(self).sound() && final(self).carries(*old(self), 1),
        decreases bound, 1int,
    {
        if can_assign && self.current.kind == TokenType::Equal {
            self.advance()?;
            self.expression()?;
            self.emit(set);
            Ok(())
        } else {
            self.emit(get);
            Ok(())
        }
    }

    fn expression_stmt(&mut self) -> (r: Result<(), BessyError>)
        requires
            old(self).sound(),
            old(self).tidy(),
        ensures
            agrees(old(self)@.expression_stmt(), final(self)@, r),
            r is Ok ==> final(self).sound() && final(self).carries(*old(self), 0),
            r is Ok ==> !final(self)@.silent_since(old(self)@),
            r is Ok ==> final(self)@.previous.kind == TokenType::Semicolon,
        decreases old(self)@.measure(), 2int,
    {
        self.expression()?;
        self.consume(TokenType::Semicolon, "Expect ';' after value.")?;
        self.emit(OpCode::Pop);
        Ok(())
    }

    fn print_stmt(&mut self) -> (r: Result<(), BessyError>)
        requires
            old(self).sound(),
            old(self).tidy(),
        ensures
            agrees(old(self)@.print_stmt(), final(self)@, r),
            r is Ok ==> final(self).sound() && final(self).carries(*old(self), 0),
            r is Ok ==> !final(self)@.silent_since(old(self)@),
        decreases old(self)@.measure(), 2int,
    {
        self.expression()?;
        self.consume(TokenType::Semicolon, "Expect ';' after value.")?;
        self.emit(OpCode::Print);
        Ok(())
    }

    fn init_variable(&mut self) -> (r: Result<(), BessyError>)
        requires
            old(self).sound(),
            old(self).roomy(),
        ensures
            agrees(old(self)@.init_variable(), final(self)@, r),
            r is Ok ==> final(self).sound() && final(self).carries(*old(self), 1),
            r is Ok ==> final(self)@.previous.kind == TokenType::Semicolon,
        decreases old(self)@.measure(), 2int,
    {
        if self.next_eq(TokenType::Equal)? {
            self.expression()?;
        } else {
            self.emit(OpCode::Nil);
        }
        self.consume(TokenType::Semicolon, "Expect ';' after variable declaration.")
    }

    fn local_var(&mut self) -> (r: Result<(), BessyError>)
        requires
            old(self).sound(),
            old(self).tidy(),
        ensures
            agrees(old(self)@.local_var(), final(self)@, r),
            r is Ok ==> final(self).sound() && final(self).tidy() && final(self).keeps(
                *old(self),
            ) && extends(
                final(self)@.locals,
                old(self)@.locals,
                old(self)@.scope_depth,
            ),
            r is Ok ==> !final(self)@.silent_since(old(self)@),
            r is Ok ==> final(self)@.previous.kind == TokenType::Semicolon,
        decreases old(self)@.measure(), 3int,
    {
        match self.current.kind {
            TokenType::Identifier => {
                self.advance()?;
                if self.locals.len() >= MAX_LOCALS {
                    Err(self.error("Too many local variables."))
                } else {
                    let token = self.previous;
                    self.is_unique(token.lexeme)?;
                    let ghost before = self@;
                    self.locals.push(Local { name: token.lexeme, depth: None });
                    assert(self@.locals =~= before.locals.push(
                        LocalView { name: token.lexeme@, depth: None },
                    ));
                    self.init_variable()?;
                    self.mark_initialized();
                    Ok(())
                }
            },
            _ => Err(self.error("Expected variable identifier.")),
        }
    }

    fn global_var(&mut self) -> (r: Result<(), BessyError>)
        requires
            old(self).sound(),
            old(self).tidy(),
        ensures
            agrees(old(self)@.global_var(), final(self)@, r),
            r is Ok ==> final(self).sound() && final(self).carries(*old(self), 0),
            r is Ok ==> !final(self)@.silent_since(old(self)@),
        decreases old(self)@.measure(), 3int,
    {
        let name_index = self.parse_variable("Expect variable name.")?;
        self.init_variable()?;
        self.emit(OpCode::DefineGlobal(name_index));
        Ok(())
    }

    // The name of a global variable, as a string constant.
    fn parse_variable(&mut self, error_msg: &str) -> (r: Result<usize, BessyError>)
        requires
            old(self).sound(),
        ensures
            match r {
                Ok(index) => {
                    &&& old(self)@.current.kind == TokenType::Identifier
                    &&& old(self)@.advance() matches Ok(p) && final(self)@ == p.create_string(
                        p.previous.lexeme,
                    ) && index == p.chunk.constants.len()
                    &&& final(self).sound()
                    &&& final(self).carries(*old(self), 0)
                    &&& final(self)@.chunk.constants.len() == index + 1
                    &&& final(self)@.chunk.constants[index as int] is String
                },
                Err(e) => if old(self)@.current.kind == TokenType::Identifier {
                    old(self)@.advance() == Err::<CompilerView, Diagnostic>(e@)
                } else {
                    e@ == old(self)@.error(text(error_msg))
                },
            },
    {
        match self.current.kind {
            TokenType::Identifier => {
                self.advance()?;
                Ok(self.create_string(self.previous.lexeme))
            },
            _ => Err(self.error(error_msg)),
        }
    }

    fn declaration(&mut self) -> (r: Result<(), BessyError>)
        requires
            old(self).sound(),
            old(self).tidy(),
        ensures
            agrees(old(self)@.declaration(), final(self)@, r),
            r is Ok ==> final(self).sound() && final(self).tidy() && final(self).keeps(
                *old(self),
            ) && extends(
                final(self)@.locals,
                old(self)@.locals,
                old(self)@.scope_depth,
            ) && (old(self)@.scope_depth == 0 ==> final(self)@.locals == old(self)@.locals),
            r is Ok && final(self)@.silent_since(old(self)@)
                ==> old(self)@.cursor().over_hollow_block(final(self)@.cursor()),
        decreases old(self)@.measure(), 5int,
    {
        if self.next_eq(TokenType::Var)? {
            if self.scope_depth == 0 {
                self.global_var()
            } else {
                self.local_var()
            }
        } else {
            self.statement()
        }
    }

    // A statement. It leaves the stack as deep as it found it, which the
    // record of its span says.
    fn statement(&mut self) -> (r: Result<(), BessyError>)
        requires
            old(self).sound(),
            old(self).tidy(),
        ensures
            agrees(old(self)@.statement(), final(self)@, r),
            r is Ok ==> final(self).sound() && final(self).carries(*old(self), 0),
            r is Ok && final(self)@.silent_since(old(self)@)
                ==> old(self)@.cursor().over_hollow_block(final(self)@.cursor()),
        decreases old(self)@.measure(), 4int,
    {
        let ghost from = self@.chunk.code.len() as int;
        self.plain_statement()?;
        proof {
            lemma_even_push(self.depths(), self@.spans, from, self@.chunk.code.len() as int);
        }
        self.spans = Ghost(self.spans@.push((from, self.chunk@.code.len() as int)));
        Ok(())
    }

    // A statement: `print`, a block, `if`, `while`, `for`, or an expression.
    fn plain_statement(&mut self) -> (r: Result<(), BessyError>)
        requires
            old(self).sound(),
            old(self).tidy(),
        ensures
            agrees(old(self)@.plain_statement(), final(self)@, r),
            r is Ok ==> final(self).sound() && final(self).carries(*old(self), 0),
            r is Ok && final(self)@.silent_since(old(self)@)
                ==> old(self)@.cursor().over_hollow_block(final(self)@.cursor()),
        decreases old(self)@.measure(), 3int,
    {
        match self.current.kind {
            TokenType::Print => {
                self.advance()?;
                self.print_stmt()
            },
            TokenType::LeftBrace => {
                self.advance()?;
                let ghost inside = self@;
                self.block_stmt()?;
                proof {
                    if self@.silent_since(old(self)@) {
                        lemma_into_block(old(self)@, inside, self@.cursor());
                    }
                }
                Ok(())
            },
            TokenType::If => {
                self.advance()?;
                self.if_stmt()
            },
            TokenType::While => {
                self.advance()?;
                self.while_stmt()
            },
            TokenType::For => {
                self.advance()?;
                self.for_stmt()
            },
            _ => self.expression_stmt(),
        }
    }

    // The rest of a block statement: a scope of its own around the block.
    fn block_stmt(&mut self) -> (r: Result<(), BessyError>)
        requires
            old(self).sound(),
            old(self).tidy(),
            old(self)@.scope_depth + old(self)@.measure() < old(self)@.tokens.len(),
        ensures
            agrees(old(self)@.block_stmt(), final(self)@, r),
            r is Ok ==> final(self).sound() && final(self).carries(*old(self), 0),
            r is Ok && final(self)@.silent_since(old(self)@)
                ==> old(self)@.cursor().to_end_of_hollow_block(final(self)@.cursor()),
        decreases old(self)@.measure(), 7int,
    {
        self.begin_scope();
        self.block()?;
        self.end_scope(Ghost(old(self)@.locals));
        Ok(())
    }

    // The declarations of a block and its closing brace.
    #[verifier::loop_isolation(false)]
    fn block(&mut self) -> (r: Result<(), BessyError>)
        requires
            old(self).sound(),
            old(self).tidy(),
        ensures
            agrees(old(self)@.block(), final(self)@, r),
            r is Ok ==> final(self).sound() && final(self).tidy() && final(self).keeps(
                *old(self),
            ) && extends(final(self)@.locals, old(self)@.locals, old(self)@.scope_depth),
            r is Ok && final(self)@.silent_since(old(self)@)
                ==> old(self)@.cursor().to_end_of_hollow_block(final(self)@.cursor()),
        decreases old(self)@.measure(), 6int,
    {
        proof {
            lemma_level_with_itself(self@.cursor());
        }
        while self.current.kind != TokenType::RightBrace && self.current.kind != TokenType::Eof
            invariant
                self.sound(),
                self.tidy(),
                self.keeps(*old(self)),
                extends(self@.locals, old(self)@.locals, old(self)@.scope_depth),
                old(self)@.block() == self@.block(),
                self@.silent_since(old(self)@) ==> old(self)@.cursor().level_with(
                    self@.cursor(),
                ),
            decreases self@.measure(),
        {
            let ghost before = self@;
            proof {
                lemma_declaration_bounded(self@);
            }
            self.declaration()?;
            proof {
                if self@.silent_since(old(self)@) {
                    lemma_level_over_block(old(self)@.cursor(), before.cursor(), self@.cursor());
                }
            }
        }
        let ghost closing = self@;
        self.consume(TokenType::RightBrace, "Expect '}' after block.")?;
        proof {
            if self@.silent_since(old(self)@) {
                lemma_out_of_block(old(self)@.cursor(), closing, self@);
            }
        }
        Ok(())
    }

    fn if_stmt(&mut self) -> (r: Result<(), BessyError>)
        requires
            old(self).sound(),
            old(self).tidy(),
        ensures
            agrees(old(self)@.if_stmt(), final(self)@, r),
            r is Ok ==> final(self).sound() && final(self).carries(*old(self), 0),
            r is Ok ==> !final(self)@.silent_since(old(self)@),
        decreases old(self)@.measure(), 3int,
    {
        self.consume(TokenType::LeftParen, "Expect '(' after 'if'.")?;
        self.expression()?;
        self.consume(TokenType::RightParen, "Expect ')' after condition.")?;
        self.if_branches(Ghost(old(self)@.measure()))
    }

    // The branches of an `if` statement, behind its condition.
    fn if_branches(&mut self, Ghost(bound): Ghost<int>) -> (r: Result<(), BessyError>)
        requires
            old(self).sound(),
            floor(old(self)@.locals) == old(self)@.locals.len(),
            old(self).depth() == old(self)@.locals.len() + 1,
            old(self)@.measure() < bound,
        ensures
            agrees(old(self)@.if_branches(bound), final(self)@, r),
            r is Ok ==> final(self).sound() && final(self).carries(*old(self), -1),
            r is Ok ==> !final(self)@.silent_since(old(self)@),
        decreases bound, 2int,
    {
        let ghost met = self.depth();
        let then_jump = self.emit_jump(OpCode::JumpIfFalse(0), Ghost(met));
        self.emit(OpCode::Pop);
        self.statement()?;
        let else_jump = self.emit_jump(OpCode::Jump(0), Ghost(met));
        self.patch_jump(then_jump)?;
        self.emit(OpCode::Pop);
        if self.next_eq(TokenType::Else)? {
            self.statement()?;
        }
        self.patch_jump(else_jump)?;
        assert(self.pending() =~= old(self).pending());
        Ok(())
    }

    fn while_stmt(&mut self) -> (r: Result<(), BessyError>)
        requires
            old(self).sound(),
            old(self).tidy(),
        ensures
            agrees(old(self)@.while_stmt(), final(self)@, r),
            r is Ok ==> final(self).sound() && final(self).carries(*old(self), 0),
            r is Ok ==> !final(self)@.silent_since(old(self)@),
        decreases old(self)@.measure(), 3int,
    {
        let loop_start = self.chunk.code.len();
        self.consume(TokenType::LeftParen, "Expect '(' after 'while'.")?;
        self.expression()?;
        self.consume(TokenType::RightParen, "Expect ')' after condition.")?;
        let ghost met = self.depth();
        let body_jump = self.emit_jump(OpCode::JumpIfFalse(0), Ghost(met));
        self.emit(OpCode::Pop);
        self.statement()?;
        self.emit_loop(loop_start, Ghost(met))?;
        self.patch_jump(body_jump)?;
        self.emit(OpCode::Pop);
        assert(self.pending() =~= old(self).pending());
        Ok(())
    }

    fn for_stmt(&mut self) -> (r: Result<(), BessyError>)
        requires
            old(self).sound(),
            old(self).tidy(),
            old(self)@.scope_depth + old(self)@.measure() < old(self)@.tokens.len(),
        ensures
            agrees(old(self)@.for_stmt(), final(self)@, r),
            r is Ok ==> final(self).sound() && final(self).carries(*old(self), 0),
            r is Ok ==> !final(self)@.silent_since(old(self)@),
        decreases old(self)@.measure(), 4int,
    {
        let ghost outer = self@.locals;
        self.begin_scope();
        self.consume(TokenType::LeftParen, "Expect '(' after 'for'.")?;
        self.for_initializer(Ghost(old(self)@.measure()))?;
        self.for_clauses(Ghost(outer), Ghost(old(self)@.measure()))
    }

    // The `for` statement from its second clause on.
        fn for_clauses(
        &mut self,
        Ghost(outer): Ghost<Seq<LocalView>>,
        Ghost(bound): Ghost<int>,
    ) -> (r: Result<(), BessyError>)
        requires
            old(self).sound(),
            old(self).tidy(),
            old(self)@.measure() < bound,
            old(self)@.scope_depth >= 1,
            old(self)@.previous.kind == TokenType::Semicolon,
            old(self).encloses(outer),
        ensures
            agrees(old(self)@.for_clauses(bound), final(self)@, r),
            r is Ok ==> final(self).closes(*old(self), None, outer),
        decreases bound, 3int,
    {
        let loop_start = self.chunk.code.len();
        assert(self.depths().len() == loop_start + 1);
        let exit_jump = self.for_condition(Ghost(bound))?;
        assert(self.depths()[loop_start as int] == self.depth());
        self.for_rest(loop_start, exit_jump, Ghost(outer), Ghost(bound))?;
        assert(self.pending() =~= old(self).pending());
        Ok(())
    }

    // The first clause of `for`: nothing, a variable or an expression.
    fn for_initializer(&mut self, Ghost(bound): Ghost<int>) -> (r: Result<(), BessyError>)
        requires
            old(self).sound(),
            old(self).tidy(),
            old(self)@.measure() < bound,
        ensures
            agrees(old(self)@.for_initializer(bound), final(self)@, r),
            r is Ok ==> final(self).sound() && final(self).tidy() && final(self).keeps(
                *old(self),
            ) && extends(
                final(self)@.locals,
                old(self)@.locals,
                old(self)@.scope_depth,
            ),
            r is Ok ==> final(self)@.previous.kind == TokenType::Semicolon,
        decreases bound, 2int,
    {
        if self.next_eq(TokenType::Semicolon)? {
            Ok(())
        } else if self.next_eq(TokenType::Var)? {
            self.local_var()
        } else {
            self.expression_stmt()
        }
    }

    // The second clause of `for`; returns where its exit jump stands.
    fn for_condition(&mut self, Ghost(bound): Ghost<int>) -> (r: Result<Option<usize>, BessyError>)
        requires
            old(self).sound(),
            old(self).tidy(),
            old(self)@.measure() < bound,
            old(self)@.previous.kind == TokenType::Semicolon,
        ensures
            match old(self)@.for_condition(bound) {
                Ok(p) => r matches Ok(exit) && final(self)@ == p && position_view(exit) == (
                if old(self)@.current.kind == TokenType::Semicolon {
                    None::<int>
                } else {
                    Some(p.chunk.code.len() - 2)
                }),
                Err(e) => r matches Err(x) && x@ == e,
            },
            r matches Ok(exit) ==> {
                &&& final(self).sound()
                &&& final(self).tidy()
                &&& final(self)@.follows(old(self)@)
                &&& final(self)@.locals == old(self)@.locals
                &&& grown(old(self).depths(), final(self).depths())
                &&& match exit {
                    Some(at) => {
                        &&& old(self)@.chunk.code.len() <= at
                        &&& at + 2 == final(self)@.chunk.code.len()
                        &&& !old(self).pending().contains(at as int)
                        &&& final(self).pending() == old(self).pending().insert(at as int)
                        &&& final(self).depths()[at as int] == final(self).depth() + 1
                    },
                    None => final(self).pending() == old(self).pending()
                        && final(self)@.behind_bare_condition(),
                }
            },
        decreases bound, 2int,
    {
        proof {
            if self.current.kind == TokenType::Semicolon {
                lemma_bare_condition(self@);
            }
        }
        if self.next_eq(TokenType::Semicolon)? {
            Ok(None)
        } else {
            self.expression()?;
            self.consume(TokenType::Semicolon, "Expect ';' after loop condition.")?;
            let exit_jump = self.emit_jump(OpCode::JumpIfFalse(0), Ghost(self.depth()));
            self.emit(OpCode::Pop);
            Ok(Some(exit_jump))
        }
    }

    // The third clause of `for`, the body, the jump back, the end of scope.
    fn for_rest(
        &mut self,
        loop_start: usize,
        exit_jump: Option<usize>,
        Ghost(outer): Ghost<Seq<LocalView>>,
        Ghost(bound): Ghost<int>,
    ) -> (r: Result<(), BessyError>)
        requires
            old(self).sound(),
            old(self).tidy(),
            old(self)@.measure() < bound,
            old(self)@.scope_depth >= 1,
            loop_start <= old(self)@.chunk.code.len(),
            old(self).depths()[loop_start as int] == old(self).depth(),
            old(self).waits_at(exit_jump),
            old(self).encloses(outer),
            loop_start < old(self)@.chunk.code.len() || old(self)@.behind_bare_condition(),
        ensures
            agrees(
                old(self)@.for_rest(loop_start as int, position_view(exit_jump), bound),
                final(self)@,
                r,
            ),
            r is Ok ==> final(self).closes(*old(self), exit_jump, outer),
        decreases bound, 2int,
    {
        proof {
            if self.current.kind == TokenType::RightParen && loop_start == self@.chunk.code.len() {
                lemma_bare_clauses(self@);
            }
        }
        if self.next_eq(TokenType::RightParen)? {
            self.for_body(loop_start, exit_jump, Ghost(outer), Ghost(bound))
        } else {
            let ghost level = self.depth();
            let body_jump = self.emit_jump(OpCode::Jump(0), Ghost(level));
            let increment_start = self.chunk.code.len();
            self.expression()?;
            self.emit(OpCode::Pop);
            self.consume(TokenType::RightParen, "Expect ')' after for clauses.")?;
            self.emit_loop(loop_start, Ghost(level))?;
            self.patch_jump(body_jump)?;
            assert(self.pending() =~= old(self).pending());
            self.for_body(increment_start, exit_jump, Ghost(outer), Ghost(bound))
        }
    }

    // The body of `for`, the jump back, the landing of the exit jump and
    // the end of the scope.
    fn for_body(
        &mut self,
        loop_start: usize,
        exit_jump: Option<usize>,
        Ghost(outer): Ghost<Seq<LocalView>>,
        Ghost(bound): Ghost<int>,
    ) -> (r: Result<(), BessyError>)
        requires
            old(self).sound(),
            old(self).tidy(),
            old(self)@.measure() < bound,
            old(self)@.scope_depth >= 1,
            loop_start <= old(self)@.chunk.code.len(),
            old(self).depths()[loop_start as int] == old(self).depth(),
            old(self).waits_at(exit_jump),
            old(self).encloses(outer),
            loop_start < old(self)@.chunk.code.len() || old(self)@.behind_bare_clauses(),
        ensures
            agrees(
                old(self)@.for_body(loop_start as int, position_view(exit_jump), bound),
                final(self)@,
                r,
            ),
            r is Ok ==> final(self).closes(*old(self), exit_jump, outer),
        decreases bound, 1int,
    {
        self.statement()?;
        let ghost next = if exit_jump is Some {
            self.depth() + 1
        } else {
            self.depth()
        };
        proof {
            if loop_start == self@.chunk.code.len() {
                lemma_idle_for(old(self)@, self@.cursor());
            }
        }
        self.emit_loop(loop_start, Ghost(next))?;
        self.for_exit(exit_jump, Ghost(outer))
    }

    // The landing of the exit jump of `for` and the end of the scope.
    fn for_exit(&mut self, exit_jump: Option<usize>, Ghost(outer): Ghost<Seq<LocalView>>) -> (r:
        Result<(), BessyError>)
        requires
            old(self).sound(),
            floor(old(self)@.locals) == old(self)@.locals.len(),
            old(self).depth() == old(self)@.locals.len() + if exit_jump is Some {
                1int
            } else {
                0int
            },
            old(self)@.scope_depth >= 1,
            exit_jump matches Some(at) ==> old(self).pending().contains(at as int),
            exit_jump matches Some(at) ==> old(self).depths()[at as int] == old(self).depth(),
            old(self).encloses(outer),
        ensures
            agrees(old(self)@.for_exit(position_view(exit_jump)), final(self)@, r),
            r is Ok ==> final(self).sound() && final(self).tidy() && final(self)@.leaves(
                old(self)@,
            ) && final(self).pending() == (match exit_jump {
                Some(at) => old(self).pending().remove(at as int),
                None => old(self).pending(),
            }) && grown(old(self).depths(), final(self).depths()) && final(self)@.locals == outer,
    {
        match exit_jump {
            Some(at) => {
                self.patch_jump(at)?;
                self.emit(OpCode::Pop);
            },
            None => {},
        }
        self.end_scope(Ghost(outer));
        Ok(())
    }

    /// The exit jump of a loop, if it has one, waits for its target, which
    /// it will reach with the condition still on the stack.
    pub open spec fn waits_at(&self, exit_jump: Option<usize>) -> bool {
        exit_jump matches Some(at) ==> self.pending().contains(at as int)
            && self.depths()[at as int] == self.depth() + 1
    }

    /// The locals are those of the scopes around the current one, `outer`,
    /// and those of the current one behind them.
    pub open spec fn encloses(&self, outer: Seq<LocalView>) -> bool {
        &&& extends(self@.locals, outer, self@.scope_depth)
        &&& locals_ok(outer, self@.scope_depth - 1)
        &&& floor(outer) == outer.len()
    }

    /// What the end of a loop with a scope of its own leaves: the scope is
    /// left, its exit jump has its target, and the locals are `outer`.
    pub open spec fn closes(
        &self,
        before: Compiler<'a>,
        exit_jump: Option<usize>,
        outer: Seq<LocalView>,
    ) -> bool {
        &&& self.sound()
        &&& self.tidy()
        &&& self@.leaves(before@)
        &&& self.pending() == (match exit_jump {
            Some(at) => before.pending().remove(at as int),
            None => before.pending(),
        })
        &&& grown(before.depths(), self.depths())
        &&& self@.locals == outer
        &&& !self@.silent_since(before@)
    }

    // The declarations up to the end of the source.
    #[verifier::loop_isolation(false)]
    fn program(&mut self) -> (r: Result<(), BessyError>)
        requires
            old(self).sound(),
            old(self).tidy(),
            old(self)@.scope_depth == 0,
            old(self)@.locals.len() == 0,
        ensures
            agrees(old(self)@.program(), final(self)@, r),
            r is Ok ==> final(self).sound() && final(self).carries(*old(self), 0) && empty_at(
                final(self).depths(),
                old(self)@.marks(),
            ),
    {
        let ghost done = Seq::<int>::empty();
        while self.current.kind != TokenType::Eof
            invariant
                self.sound(),
                self.carries(*old(self), 0),
                old(self)@.program() == self@.program(),
                old(self)@.marks() == done + self@.marks(),
                empty_at(self.depths(), done),
            decreases self@.measure(),
        {
            let ghost before = self@;
            let ghost depths = self.depths();
            proof {
                lemma_declaration_bounded(before);
            }
            self.declaration()?;
            proof {
                let mark = before.chunk.code.len() as int;
                assert(before.marks() == seq![mark] + self@.marks());
                assert(done.push(mark) + self@.marks() =~= done + before.marks());
                assert forall|k: int| 0 <= k < done.push(mark).len() implies 0 <= (
                #[trigger] done.push(mark)[k]) < self.depths().len() && self.depths()[done.push(
                    mark,
                )[k]] == 0 by {
                    if k < done.len() {
                        assert(0 <= done[k] < depths.len() && depths[done[k]] == 0);
                    }
                }
                done = done.push(mark);
            }
        }
        proof {
            let mark = self@.chunk.code.len() as int;
            assert(self@.marks() == seq![mark]);
            assert(old(self)@.marks() =~= done.push(mark));
            assert forall|k: int| 0 <= k < done.push(mark).len() implies 0 <= (
            #[trigger] done.push(mark)[k]) < self.depths().len() && self.depths()[done.push(
                mark,
            )[k]] == 0 by {
                if k < done.len() {
                    assert(0 <= done[k] < self.depths().len() && self.depths()[done[k]] == 0);
                }
            }
        }
        self.advance()
    }

    // Appends `Return`, which ends the chunk.
    fn finish(self, Ghost(marks): Ghost<Seq<int>>) -> (chunk: Chunk)
        requires
            self.sound(),
            self.depth() == 0,
            self.pending() == Set::<int>::empty(),
            empty_at(self.depths(), marks),
        ensures
            chunk@ == self@.emit(OpCode::Return).chunk,
            chunk@.complete(),
            chunk@.balanced(),
            chunk@.rests_at(marks),
            chunk@.evens_out(self@.spans),
            earnest(self@.tokens) ==> chunk@.loops_go_back(),
    {
        let mut this = self;
        proof {
            if earnest(this@.tokens) {
                lemma_append_keeps_loops(this@.chunk, OpCode::Return, this.previous.line);
            }
            lemma_return_completes(this@);
            lemma_append_typed(
                this@.chunk.code,
                this.depths(),
                this.pending(),
                OpCode::Return,
                this.depth(),
                false,
            );
            let depths = this.depths().push(this.depth());
            assert(typed(this@.emit(OpCode::Return).chunk.code, depths, Set::empty()));
            lemma_even_grown(this.depths(), depths, this@.spans);
            assert forall|k: int| 0 <= k < marks.len() implies 0 <= #[trigger] marks[k]
                < depths.len() && depths[marks[k]] == 0 by {
                assert(0 <= marks[k] < this.depths().len() && this.depths()[marks[k]] == 0);
            }
            assert(empty_at(depths, marks));
        }
        let _ = this.chunk.emit_byte(OpCode::Return, this.previous.line);
        this.chunk
    }

    /// Compiles the whole token stream: every declaration up to `Eof`, then
    /// `Return`. The first error ends the compilation; no chunk comes out
    /// of a failed one. The chunk that comes out is complete and keeps the
    /// stack discipline, with the stack empty between the statements of the
    /// top level.
    pub fn compile(self) -> (r: Result<Chunk, BessyError>)
        requires
            self.ready(),
        ensures
            match self@.compile() {
                Ok(p) => {
                    &&& r matches Ok(chunk)
                    &&& chunk@ == p.chunk
                    &&& chunk@.complete()
                    &&& chunk@.balanced()
                    &&& chunk@.rests_at(self@.program_marks())
                    &&& chunk@.evens_out(p.spans)
                    &&& earnest(self@.tokens) ==> chunk@.loops_go_back()
                },
                Err(e) => r matches Err(x) && x@ == e,
            },
    {
        let mut this = self;
        this.advance()?;
        let ghost marks = this@.marks();
        this.program()?;
        let ghost depths = this.depths();
        this.consume(TokenType::Eof, "Expect end of expression.")?;
        proof {
            assert forall|k: int| 0 <= k < marks.len() implies 0 <= #[trigger] marks[k]
                < this.depths().len() && this.depths()[marks[k]] == 0 by {
                assert(0 <= marks[k] < depths.len() && depths[marks[k]] == 0);
            }
        }
        Ok(this.finish(Ghost(marks)))
    }
}

} // verus!
