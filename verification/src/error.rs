use vstd::prelude::*;
use vstd::string::StringSliceAdditionalSpecFns;

verus! {

/// A diagnostic: the phase that failed, its message and the 1-based source line.
#[derive(Debug)]
pub enum BessyError {
    Lexer(Vec<u8>, u16),
    Parser(Vec<u8>, u16),
    Runtime(Vec<u8>, u16),
}

/// The mathematical value of a [`BessyError`].
pub enum Diagnostic {
    Lexer(Seq<u8>, u16),
    Parser(Seq<u8>, u16),
    Runtime(Seq<u8>, u16),
}

impl View for BessyError {
    type V = Diagnostic;

    open spec fn view(&self) -> Diagnostic {
        match *self {
            BessyError::Lexer(msg, line) => Diagnostic::Lexer(msg@, line),
            BessyError::Parser(msg, line) => Diagnostic::Parser(msg@, line),
            BessyError::Runtime(msg, line) => Diagnostic::Runtime(msg@, line),
        }
    }
}

/// The bytes of a string literal.
pub open spec fn text(s: &str) -> Seq<u8> {
    s.spec_bytes()
}

/// The decimal digits of `n`, most significant first, without leading zeros.
pub open spec fn decimal(n: nat) -> Seq<u8>
    decreases n,
{
    if n < 10 {
        seq![(48 + n) as u8]
    } else {
        decimal(n / 10).push((48 + n % 10) as u8)
    }
}

impl Diagnostic {
    /// What went wrong.
    pub open spec fn message(self) -> Seq<u8> {
        match self {
            Diagnostic::Lexer(msg, _) => msg,
            Diagnostic::Parser(msg, _) => msg,
            Diagnostic::Runtime(msg, _) => msg,
        }
    }

    /// The source line where it went wrong.
    pub open spec fn line(self) -> u16 {
        match self {
            Diagnostic::Lexer(_, line) => line,
            Diagnostic::Parser(_, line) => line,
            Diagnostic::Runtime(_, line) => line,
        }
    }

    /// The name of the failing phase as it appears in a rendered diagnostic.
    pub open spec fn label(self) -> Seq<u8> {
        match self {
            Diagnostic::Lexer(..) => text("] Lex error: "),
            Diagnostic::Parser(..) => text("] Parse error: "),
            Diagnostic::Runtime(..) => text("] Runtime error: "),
        }
    }

    /// The one-line rendering `[line N] <phase> error: <message>`.
    pub open spec fn rendered(self) -> Seq<u8> {
        text("[line ") + decimal(self.line() as nat) + self.label() + self.message()
    }
}

/// Copies a string literal into a byte vector.
pub fn bytes_of(s: &str) -> (v: Vec<u8>)
    ensures
        v@ == text(s),
{
    s.as_bytes_vec()
}

/// Appends every byte of `tail` to `buf`.
pub fn append_bytes(buf: &mut Vec<u8>, tail: &[u8])
    ensures
        final(buf)@ == old(buf)@ + tail@,
{
    let mut i: usize = 0;
    while i < tail.len()
        invariant
            i <= tail.len(),
            buf@ == old(buf)@ + tail@.subrange(0, i as int),
        decreases tail.len() - i,
    {
        buf.push(tail[i]);
        i += 1;
    }
    assert(tail@.subrange(0, tail.len() as int) == tail@);
}

/// Appends the decimal digits of `n` to `buf`.
pub fn append_decimal(buf: &mut Vec<u8>, n: usize)
    ensures
        final(buf)@ == old(buf)@ + decimal(n as nat),
    decreases n,
{
    if n >= 10 {
        append_decimal(buf, n / 10);
    }
    buf.push(48 + (n % 10) as u8);
}

impl BessyError {
    /// What went wrong.
    pub fn message(&self) -> (msg: &Vec<u8>)
        ensures
            msg@ == self@.message(),
    {
        match self {
            BessyError::Lexer(msg, _) => msg,
            BessyError::Parser(msg, _) => msg,
            BessyError::Runtime(msg, _) => msg,
        }
    }

    /// The source line where it went wrong.
    pub fn line(&self) -> (line: u16)
        ensures
            line == self@.line(),
    {
        match self {
            BessyError::Lexer(_, line) => *line,
            BessyError::Parser(_, line) => *line,
            BessyError::Runtime(_, line) => *line,
        }
    }

    /// A copy of this diagnostic.
    pub fn duplicate(&self) -> (copy: BessyError)
        ensures
            copy@ == self@,
    {
        match self {
            BessyError::Lexer(msg, line) => BessyError::Lexer(msg.clone(), *line),
            BessyError::Parser(msg, line) => BessyError::Parser(msg.clone(), *line),
            BessyError::Runtime(msg, line) => BessyError::Runtime(msg.clone(), *line),
        }
    }

    /// Renders the diagnostic as the line shown to the user.
    pub fn render(&self) -> (out: Vec<u8>)
        ensures
            out@ == self@.rendered(),
    {
        let mut out = bytes_of("[line ");
        append_decimal(&mut out, self.line() as usize);
        let label = match self {
            BessyError::Lexer(..) => bytes_of("] Lex error: "),
            BessyError::Parser(..) => bytes_of("] Parse error: "),
            BessyError::Runtime(..) => bytes_of("] Runtime error: "),
        };
        append_bytes(&mut out, label.as_slice());
        append_bytes(&mut out, self.message().as_slice());
        out
    }
}

} // verus!
