use vstd::prelude::*;
use vstd::slice::slice_to_vec;
use crate::compiler::{failure_view, token_views, Compiler};
use crate::error::{BessyError, Diagnostic};
use crate::lexer::{lemma_token_progress, Lexer};
use crate::model::compiled;
use crate::scanner::{line_breaks, ScannerView};
use crate::token::{Token, TokenType, TokenView};
use crate::vm::{Machine, Reply, ReplyView, Request, RequestView, VM};

verus! {

/// The stage that an evaluation is in.
enum Stage<'a> {
    /// The source is being read. `pending` is a number literal whose value
    /// has been asked of the host.
    Reading { lexer: Lexer<'a>, tokens: Vec<Token<'a>>, pending: Option<Token<'a>> },
    /// The program is running.
    Running { vm: VM },
    /// Nothing is left to do.
    Done,
}

/// One evaluation of a source, from its first byte to the end of the run.
pub struct Session<'a> {
    stage: Stage<'a>,
}

/// The mathematical value of a [`Session`].
pub enum SessionView {
    Reading { lexer: ScannerView, tokens: Seq<TokenView>, pending: Option<TokenView> },
    Running { machine: Machine },
    Done,
}

/// What the machine's stop means to the host of an evaluation: a failure is
/// written out as a diagnostic, and ends the evaluation as a return does.
pub open spec fn relayed(machine: Machine, request: RequestView) -> (SessionView, RequestView) {
    match request {
        RequestView::Failed(e) => (SessionView::Done, RequestView::Output(e.rendered())),
        RequestView::Finished => (SessionView::Done, RequestView::Finished),
        other => (SessionView::Running { machine }, other),
    }
}

/// The tokens are compiled, and the program run for up to `budget`
/// instructions; a compile error is written out as a diagnostic.
#[verifier::opaque]
pub open spec fn launched(tokens: Seq<TokenView>, failure: Option<Diagnostic>, budget: nat) -> (
    SessionView,
    RequestView,
) {
    match compiled(tokens, failure) {
        Err(e) => (SessionView::Done, RequestView::Output(e.rendered())),
        Ok(chunk) => {
            let (machine, request) = Machine::fresh(chunk).run(ReplyView::Nothing, budget);
            relayed(machine, request)
        },
    }
}

/// The source is read on from the lexer's position: up to the next number
/// literal, whose value is asked of the host, or to the end, where the
/// program is compiled and run.
pub open spec fn read(lexer: ScannerView, tokens: Seq<TokenView>, budget: nat) -> (
    SessionView,
    RequestView,
)
    decreases lexer.source.len() - lexer.current,
    when 0 <= lexer.current <= lexer.source.len()
{
    match lexer.next_token() {
        Err(e) => launched(tokens, Some(e), budget),
        Ok(token) => if token.kind is Number {
            (
                SessionView::Reading { lexer: lexer.after_token(), tokens, pending: Some(token) },
                RequestView::Read(token.lexeme, token.line),
            )
        } else if token.kind == TokenType::Eof {
            launched(tokens.push(token), None, budget)
        } else {
            proof {
                lemma_token_progress(lexer);
            }
            read(lexer.after_token(), tokens.push(token), budget)
        },
    }
}


impl SessionView {
    /// One turn of the evaluation: `reply` answers the request of the turn
    /// before, and the result is the state after this turn with its request.
    /// A pending number literal is asked for again until a number comes.
    pub open spec fn evaluate(self, reply: ReplyView, budget: nat) -> (SessionView, RequestView) {
        match self {
            SessionView::Reading { lexer, tokens, pending } => match pending {
                Some(token) => match reply {
                    ReplyView::Number(bits) => read(
                        lexer,
                        tokens.push(token.with_number(bits)),
                        budget,
                    ),
                    _ => (self, RequestView::Read(token.lexeme, token.line)),
                },
                None => read(lexer, tokens, budget),
            },
            SessionView::Running { machine } => {
                let (after, request) = machine.run(reply, budget);
                relayed(after, request)
            },
            SessionView::Done => (SessionView::Done, RequestView::Finished),
        }
    }
}

/// The view of an optional token.
pub open spec fn pending_view(pending: Option<Token<'_>>) -> Option<TokenView> {
    match pending {
        Some(token) => Some(token@),
        None => None,
    }
}

impl<'a> View for Session<'a> {
    type V = SessionView;

    closed spec fn view(&self) -> SessionView {
        match self.stage {
            Stage::Reading { lexer, tokens, pending } => SessionView::Reading {
                lexer: lexer@,
                tokens: token_views(tokens@),
                pending: pending_view(pending),
            },
            Stage::Running { vm } => SessionView::Running { machine: vm@ },
            Stage::Done => SessionView::Done,
        }
    }
}

impl<'a> Session<'a> {
    /// What holds of every session: its lexer is inside the source, or its
    /// machine is in a reachable state.
    pub closed spec fn wf(&self) -> bool {
        match self.stage {
            Stage::Reading { lexer, tokens, pending } => lexer@.wf(),
            Stage::Running { vm } => vm.wf(),
            Stage::Done => true,
        }
    }

    /// A session at the start of `source`.
    pub fn new(source: &'a [u8]) -> (session: Session<'a>)
        requires
            line_breaks(source@, source@.len() as int) < u16::MAX,
        ensures
            session@ == (SessionView::Reading {
                lexer: ScannerView { source: source@, start: 0, current: 0, line: 1 },
                tokens: Seq::empty(),
                pending: None,
            }),
            session.wf(),
    {
        let session = Session {
            stage: Stage::Reading { lexer: Lexer::new(source), tokens: Vec::new(), pending: None },
        };
        assert(token_views(Seq::<Token<'a>>::empty()) =~= Seq::<TokenView>::empty());
        session
    }
}

// Hands on what the machine asked, with a failure turned into its
// diagnostic.
fn relay<'a>(vm: VM, request: Request) -> (r: (Session<'a>, Request))
    requires
        vm.wf(),
    ensures
        (r.0@, r.1@) == relayed(vm@, request@),
        r.0.wf(),
        !(r.1 is Failed),
{
    match request {
        Request::Failed(e) => (Session { stage: Stage::Done }, Request::Output(e.render())),
        Request::Finished => (Session { stage: Stage::Done }, Request::Finished),
        other => (Session { stage: Stage::Running { vm } }, other),
    }
}

// Compiles the tokens and starts the program.
fn launch<'a>(tokens: Vec<Token<'a>>, failure: Option<BessyError>, budget: u64) -> (r: (
    Session<'a>,
    Request,
))
    ensures
        (r.0@, r.1@) == launched(token_views(tokens@), failure_view(failure), budget as nat),
        r.0.wf(),
        !(r.1 is Failed),
{
    reveal(launched);
    match Compiler::new(tokens, failure).compile() {
        Err(e) => (Session { stage: Stage::Done }, Request::Output(e.render())),
        Ok(chunk) => {
            let mut vm = VM::new(chunk);
            let request = vm.run(Reply::Nothing, budget);
            relay(vm, request)
        },
    }
}

// Reads the source on from where the lexer stands.
fn resume_reading<'a>(lexer: Lexer<'a>, tokens: Vec<Token<'a>>, budget: u64) -> (r: (
    Session<'a>,
    Request,
))
    requires
        lexer@.wf(),
    ensures
        (r.0@, r.1@) == read(lexer@, token_views(tokens@), budget as nat),
        r.0.wf(),
        !(r.1 is Failed),
{
    let mut cursor = lexer;
    let mut taken = tokens;
    loop
        invariant
            cursor@.wf(),
            read(lexer@, token_views(tokens@), budget as nat) == read(
                cursor@,
                token_views(taken@),
                budget as nat,
            ),
        decreases cursor@.source.len() - cursor@.current,
    {
        let ghost before = cursor@;
        let ghost views = token_views(taken@);
        proof {
            lemma_token_progress(before);
        }
        match cursor.next_token() {
            Err(e) => {
                return launch(taken, Some(e), budget);
            },
            Ok(token) => {
                match token.kind {
                    TokenType::Number(_) => {
                        let text = slice_to_vec(token.lexeme);
                        return (
                            Session {
                                stage: Stage::Reading {
                                    lexer: cursor,
                                    tokens: taken,
                                    pending: Some(token),
                                },
                            },
                            Request::Read(text, token.line),
                        );
                    },
                    TokenType::Eof => {
                        taken.push(token);
                        assert(token_views(taken@) =~= views.push(token@));
                        return launch(taken, None, budget);
                    },
                    _ => {
                        taken.push(token);
                        assert(token_views(taken@) =~= views.push(token@));
                    },
                }
            },
        }
    }
}

/// Takes the evaluation one turn further. `reply` answers the request that
/// the turn before returned; the first turn takes `Reply::Nothing`. The
/// evaluation is over when the request is `Finished`; a diagnostic comes as
/// `Output`, and no request is ever `Failed`. A turn runs at most `budget`
/// instructions of the program.
pub fn evaluate<'a>(session: Session<'a>, reply: Reply, budget: u64) -> (r: (Session<'a>, Request))
    requires
        session.wf(),
    ensures
        (r.0@, r.1@) == session@.evaluate(reply@, budget as nat),
        r.0.wf(),
        !(r.1 is Failed),
{
    match session.stage {
        Stage::Reading { lexer, tokens, pending } => {
            match pending {
                Some(token) => {
                    match reply {
                        Reply::Number(bits) => {
                            let mut tokens = tokens;
                            let ghost taken = token_views(tokens@);
                            tokens.push(token.with_number(bits));
                            assert(token_views(tokens@) =~= taken.push(
                                token@.with_number(bits),
                            ));
                            resume_reading(lexer, tokens, budget)
                        },
                        _ => {
                            let text = slice_to_vec(token.lexeme);
                            (
                                Session {
                                    stage: Stage::Reading { lexer, tokens, pending: Some(token) },
                                },
                                Request::Read(text, token.line),
                            )
                        },
                    }
                },
                None => resume_reading(lexer, tokens, budget),
            }
        },
        Stage::Running { vm } => {
            let mut vm = vm;
            let request = vm.run(reply, budget);
            relay(vm, request)
        },
        Stage::Done => (Session { stage: Stage::Done }, Request::Finished),
    }
}

} // verus!
