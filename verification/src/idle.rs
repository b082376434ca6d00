//! A `for` with no condition, no increment and nothing in its body compiles
//! to a jump to itself. It is the one loop whose jump does not go back.

use vstd::prelude::*;
use crate::chunk::{ChunkView, OpCode};
use crate::model::CompilerView;
use crate::token::{TokenType, TokenView};

verus! {

/// From `at` on the tokens are braces only, up to the one that closes the
/// `depth` blocks already open. With `depth` 0, a block begins at `at` that
/// holds nothing but empty blocks.
pub open spec fn hollow(tokens: Seq<TokenView>, at: int, depth: int) -> bool
    decreases tokens.len() - at,
{
    if at < 0 || at >= tokens.len() {
        false
    } else if tokens[at].kind == TokenType::LeftBrace {
        hollow(tokens, at + 1, depth + 1)
    } else if tokens[at].kind == TokenType::RightBrace {
        if depth == 1 {
            true
        } else if depth >= 2 {
            hollow(tokens, at + 1, depth - 1)
        } else {
            false
        }
    } else {
        false
    }
}

/// At `at` stand the last two semicolons and the closing parenthesis of a
/// `for` that has neither condition nor increment, and behind them a body
/// that holds nothing.
pub open spec fn idle_for(tokens: Seq<TokenView>, at: int) -> bool {
    &&& 0 <= at
    &&& at + 3 < tokens.len()
    &&& tokens[at].kind == TokenType::Semicolon
    &&& tokens[at + 1].kind == TokenType::Semicolon
    &&& tokens[at + 2].kind == TokenType::RightParen
    &&& hollow(tokens, at + 3, 0)
}

/// No `for` of the program is idle.
#[verifier::opaque]
pub open spec fn earnest(tokens: Seq<TokenView>) -> bool {
    forall|at: int| !#[trigger] idle_for(tokens, at)
}

impl ChunkView {
    /// Every loop jumps to an instruction before itself.
    #[verifier::opaque]
    pub open spec fn loops_go_back(self) -> bool {
        forall|at: int|
            0 <= at < self.code.len() ==> (#[trigger] self.code[at] matches OpCode::Loop(offset)
                ==> offset >= 2)
    }
}

/// Where the compiler stands in the tokens: how many it has taken, and
/// which are the current and the previous one.
pub struct Cursor {
    pub tokens: Seq<TokenView>,
    pub pos: int,
    pub current: TokenView,
    pub previous: TokenView,
}

impl Cursor {
    /// The current token is the one that was taken last, and the previous
    /// one the one before it, unless the tokens have run out; and before
    /// any token is taken, both are the `Eof` that stands for none.
    #[verifier::opaque]
    pub open spec fn aligned(self) -> bool {
        &&& self.pos == 0 ==> self.current.kind == TokenType::Eof
        &&& self.current.kind != TokenType::Eof || 1 <= self.pos < self.tokens.len() ==> {
            &&& self.pos >= 1
            &&& self.current == self.tokens[self.pos - 1]
            &&& self.pos >= 2 ==> self.previous == self.tokens[self.pos - 2]
            &&& self.previous.kind != TokenType::Eof ==> self.pos >= 2
        }
    }

    /// `hollow`, from the current token on.
    pub open spec fn hollow_here(self, depth: int) -> bool {
        self.current.kind != TokenType::Eof && hollow(self.tokens, self.pos - 1, depth)
    }

    /// Between `self` and `after`, as many blocks were closed as opened,
    /// as far as braces go.
    #[verifier::opaque]
    pub open spec fn level_with(self, after: Cursor) -> bool {
        forall|depth: int| depth >= 1 ==> self.hollow_here(depth) == after.hollow_here(depth)
    }

    /// The step from `self` to `after` went over a block that holds nothing,
    /// and over nothing else.
    #[verifier::opaque]
    pub open spec fn over_hollow_block(self, after: Cursor) -> bool {
        &&& self.hollow_here(0)
        &&& forall|depth: int| depth >= 1 ==> self.hollow_here(depth) == after.hollow_here(depth)
    }

    /// The step from `self`, where a block was open, to `after` went over
    /// nothing but empty blocks and the brace that closes the block.
    #[verifier::opaque]
    pub open spec fn to_end_of_hollow_block(self, after: Cursor) -> bool {
        forall|depth: int|
            depth >= 1 ==> self.hollow_here(depth) == (depth == 1 || after.hollow_here(depth - 1))
    }
}

impl CompilerView {
    /// Where the compilation stands in the tokens.
    pub open spec fn cursor(self) -> Cursor {
        Cursor {
            tokens: self.tokens,
            pos: self.pos,
            current: self.current,
            previous: self.previous,
        }
    }

    /// The cursor is aligned.
    pub open spec fn aligned(self) -> bool {
        self.cursor().aligned()
    }

    /// The two tokens before the current one are semicolons: those of a
    /// `for` without a condition.
    pub open spec fn behind_bare_condition(self) -> bool {
        self.current.kind != TokenType::Eof ==> {
            &&& self.pos >= 3
            &&& self.pos <= self.tokens.len()
            &&& self.tokens[self.pos - 3].kind == TokenType::Semicolon
            &&& self.tokens[self.pos - 2].kind == TokenType::Semicolon
        }
    }

    /// The three tokens before the current one are `; ; )`: those of a
    /// `for` without a condition and without an increment.
    pub open spec fn behind_bare_clauses(self) -> bool {
        self.current.kind != TokenType::Eof ==> {
            &&& self.pos >= 4
            &&& self.pos <= self.tokens.len()
            &&& self.tokens[self.pos - 4].kind == TokenType::Semicolon
            &&& self.tokens[self.pos - 3].kind == TokenType::Semicolon
            &&& self.tokens[self.pos - 2].kind == TokenType::RightParen
        }
    }
}

/// An instruction that is no loop, or a loop over at least one instruction,
/// keeps the loops going back.
pub proof fn lemma_append_keeps_loops(chunk: ChunkView, op: OpCode, line: u16)
    requires
        chunk.loops_go_back(),
        op matches OpCode::Loop(offset) ==> offset >= 2,
    ensures
        chunk.with_op(op, line).loops_go_back(),
{
    reveal(ChunkView::loops_go_back);
    let after = chunk.with_op(op, line);
    assert forall|at: int| 0 <= at < after.code.len() implies (
    #[trigger] after.code[at] matches OpCode::Loop(offset) ==> offset >= 2) by {
        if at < chunk.code.len() {
            assert(chunk.code[at] matches OpCode::Loop(offset) ==> offset >= 2);
        }
    }
}

/// A patched jump keeps the loops going back.
pub proof fn lemma_patch_keeps_loops(chunk: ChunkView, at: int, op: OpCode)
    requires
        chunk.loops_go_back(),
        0 <= at < chunk.code.len(),
        op is Loop ==> op == chunk.code[at],
    ensures
        (ChunkView { code: chunk.code.update(at, op), ..chunk }).loops_go_back(),
{
    reveal(ChunkView::loops_go_back);
    let after = ChunkView { code: chunk.code.update(at, op), ..chunk };
    assert forall|k: int| 0 <= k < after.code.len() implies (
    #[trigger] after.code[k] matches OpCode::Loop(offset) ==> offset >= 2) by {
        assert(chunk.code[k] matches OpCode::Loop(offset) ==> offset >= 2);
    }
}

/// Whether the loops go back depends on the code alone.
pub proof fn lemma_loops_of_code(a: ChunkView, b: ChunkView)
    requires
        a.code == b.code,
    ensures
        a.loops_go_back() == b.loops_go_back(),
{
    reveal(ChunkView::loops_go_back);
}

/// No code has no loop.
pub proof fn lemma_no_loops()
    ensures
        ChunkView::empty().loops_go_back(),
{
    reveal(ChunkView::loops_go_back);
}

/// A cursor is level with itself.
pub proof fn lemma_level_with_itself(a: Cursor)
    ensures
        a.level_with(a),
{
    reveal(Cursor::level_with);
}

/// A hollow block leaves the level as it was.
pub proof fn lemma_level_over_block(a: Cursor, b: Cursor, c: Cursor)
    requires
        a.level_with(b),
        b.over_hollow_block(c),
    ensures
        a.level_with(c),
{
    reveal(Cursor::level_with);
    reveal(Cursor::over_hollow_block);
}

/// Behind the brace that opens a block, one more block is open.
proof fn lemma_open_brace(before: CompilerView, inside: CompilerView, depth: int)
    requires
        before.aligned(),
        0 <= before.pos <= before.tokens.len(),
        before.current.kind == TokenType::LeftBrace,
        before.advance() == Ok::<CompilerView, crate::error::Diagnostic>(inside),
        depth >= 0,
    ensures
        before.cursor().hollow_here(depth) == inside.cursor().hollow_here(depth + 1),
{
    reveal(Cursor::aligned);
    let tokens = before.tokens;
    assert(before.current == tokens[before.pos - 1]);
    assert(hollow(tokens, before.pos - 1, depth) == hollow(tokens, before.pos, depth + 1));
    if before.pos < tokens.len() {
        assert(inside.current == tokens[before.pos]);
        assert(inside.pos == before.pos + 1);
        if inside.current.kind == TokenType::Eof {
            assert(!hollow(tokens, before.pos, depth + 1));
        }
    } else {
        assert(!hollow(tokens, before.pos, depth + 1));
    }
}

/// Behind the brace that closes a block, one block less is open.
proof fn lemma_close_brace(before: CompilerView, outside: CompilerView, depth: int)
    requires
        before.aligned(),
        0 <= before.pos <= before.tokens.len(),
        before.current.kind == TokenType::RightBrace,
        before.advance() == Ok::<CompilerView, crate::error::Diagnostic>(outside),
        depth >= 1,
    ensures
        before.cursor().hollow_here(depth) == (depth == 1 || outside.cursor().hollow_here(
            depth - 1,
        )),
{
    reveal(Cursor::aligned);
    let tokens = before.tokens;
    assert(before.current == tokens[before.pos - 1]);
    assert(hollow(tokens, before.pos - 1, depth) == (depth == 1 || hollow(
        tokens,
        before.pos,
        depth - 1,
    )));
    if before.pos < tokens.len() {
        assert(outside.current == tokens[before.pos]);
        assert(outside.pos == before.pos + 1);
        if outside.current.kind == TokenType::Eof {
            assert(!hollow(tokens, before.pos, depth - 1));
        }
    } else {
        assert(!hollow(tokens, before.pos, depth - 1));
    }
}

/// Behind the brace that opens a block and the end of a hollow block lies
/// a hollow block.
pub proof fn lemma_into_block(before: CompilerView, inside: CompilerView, after: Cursor)
    requires
        before.aligned(),
        0 <= before.pos <= before.tokens.len(),
        before.current.kind == TokenType::LeftBrace,
        before.advance() == Ok::<CompilerView, crate::error::Diagnostic>(inside),
        inside.cursor().to_end_of_hollow_block(after),
    ensures
        before.cursor().over_hollow_block(after),
{
    reveal(Cursor::over_hollow_block);
    reveal(Cursor::to_end_of_hollow_block);
    lemma_open_brace(before, inside, 0);
    assert forall|depth: int| depth >= 1 implies before.cursor().hollow_here(depth)
        == after.hollow_here(depth) by {
        lemma_open_brace(before, inside, depth);
    }
}

/// Where nothing but hollow blocks lay between the opening of a block and
/// its closing brace, the block is hollow to its end.
pub proof fn lemma_out_of_block(entered: Cursor, before: CompilerView, outside: CompilerView)
    requires
        entered.level_with(before.cursor()),
        before.aligned(),
        0 <= before.pos <= before.tokens.len(),
        before.current.kind == TokenType::RightBrace,
        before.advance() == Ok::<CompilerView, crate::error::Diagnostic>(outside),
    ensures
        entered.to_end_of_hollow_block(outside.cursor()),
{
    reveal(Cursor::level_with);
    reveal(Cursor::to_end_of_hollow_block);
    assert forall|depth: int| depth >= 1 implies entered.hollow_here(depth) == (depth == 1
        || outside.cursor().hollow_here(depth - 1)) by {
        lemma_close_brace(before, outside, depth);
    }
}

/// A hollow block behind `; ; )` is the body of an idle `for`.
pub proof fn lemma_idle_for(before: CompilerView, after: Cursor)
    requires
        before.aligned(),
        0 <= before.pos <= before.tokens.len(),
        before.behind_bare_clauses(),
        before.cursor().over_hollow_block(after),
    ensures
        idle_for(before.tokens, before.pos - 4),
        !earnest(before.tokens),
{
    reveal(Cursor::over_hollow_block);
    reveal(Cursor::aligned);
    reveal(earnest);
    assert(before.current == before.tokens[before.pos - 1]);
    assert(idle_for(before.tokens, before.pos - 4));
}

/// Taking a token keeps the tokens aligned.
pub proof fn lemma_advance_aligned(before: CompilerView)
    requires
        before.aligned(),
        0 <= before.pos <= before.tokens.len(),
    ensures
        before.advance() matches Ok(after) ==> after.aligned(),
{
    reveal(Cursor::aligned);
}

/// Before the first token is taken, the tokens are aligned.
pub proof fn lemma_start_aligned(tokens: Seq<TokenView>, failure: Option<crate::error::Diagnostic>)
    ensures
        CompilerView::start(tokens, failure).aligned(),
{
    reveal(Cursor::aligned);
}

/// Behind `;` and another `;` the tokens are those of a `for` without a
/// condition.
pub proof fn lemma_bare_condition(before: CompilerView)
    requires
        before.aligned(),
        0 <= before.pos <= before.tokens.len(),
        before.previous.kind == TokenType::Semicolon,
        before.current.kind == TokenType::Semicolon,
    ensures
        before.advance() matches Ok(after) ==> after.behind_bare_condition(),
{
    reveal(Cursor::aligned);
}

/// Behind a bare condition and `)` the tokens are those of a `for` without
/// a condition and without an increment.
pub proof fn lemma_bare_clauses(before: CompilerView)
    requires
        before.aligned(),
        0 <= before.pos <= before.tokens.len(),
        before.behind_bare_condition(),
        before.current.kind == TokenType::RightParen,
    ensures
        before.advance() matches Ok(after) ==> after.behind_bare_clauses(),
{
    reveal(Cursor::aligned);
}

} // verus!
