use vstd::prelude::*;

verus! {

/// The number of line feeds among the first `upto` bytes.
pub open spec fn line_breaks(source: Seq<u8>, upto: int) -> int
    decreases upto,
{
    if upto <= 0 {
        0
    } else {
        line_breaks(source, upto - 1) + if source[upto - 1] == 10 {
            1int
        } else {
            0int
        }
    }
}

/// The classes of byte that a lexeme is a run of.
#[derive(Clone, Copy, Debug, PartialEq, Eq, Structural)]
pub enum ByteClass {
    /// An ASCII digit.
    Digit,
    /// An ASCII letter, a digit or an underscore.
    Word,
    /// Anything but a double quote.
    Quoted,
}

/// An ASCII digit.
pub open spec fn is_digit(byte: u8) -> bool {
    48 <= byte <= 57
}

/// A byte that may stand in an identifier after its first byte.
pub open spec fn is_word(byte: u8) -> bool {
    is_digit(byte) || 65 <= byte <= 90 || 97 <= byte <= 122 || byte == 95
}

impl ByteClass {
    /// Whether the byte is of the class.
    pub open spec fn holds(self, byte: u8) -> bool {
        match self {
            ByteClass::Digit => is_digit(byte),
            ByteClass::Word => is_word(byte),
            ByteClass::Quoted => byte != 34,
        }
    }

    /// Whether the byte is of the class.
    pub fn contains(self, byte: u8) -> (r: bool)
        ensures
            r == self.holds(byte),
    {
        match self {
            ByteClass::Digit => 48 <= byte && byte <= 57,
            ByteClass::Word => (48 <= byte && byte <= 57) || (65 <= byte && byte <= 90) || (97
                <= byte && byte <= 122) || byte == 95,
            ByteClass::Quoted => byte != 34,
        }
    }
}

/// The first position from `from` on whose byte is not in `class`, or the
/// end of the source.
pub open spec fn run_end(source: Seq<u8>, from: int, class: ByteClass) -> int
    decreases source.len() - from,
{
    if from < 0 || from >= source.len() || !class.holds(source[from]) {
        from
    } else {
        run_end(source, from + 1, class)
    }
}

/// The position and the line after the blanks and comments that start at
/// `pos`. A comment runs from `//` to the end of its line.
pub open spec fn skip_blank(source: Seq<u8>, pos: int, line: int) -> (int, int)
    decreases source.len() - pos, 0int,
{
    if pos < 0 || pos >= source.len() {
        (pos, line)
    } else if source[pos] == 32 || source[pos] == 13 || source[pos] == 9 {
        skip_blank(source, pos + 1, line)
    } else if source[pos] == 10 {
        skip_blank(source, pos + 1, line + 1)
    } else if source[pos] == 47 && pos + 1 < source.len() && source[pos + 1] == 47 {
        skip_comment(source, pos + 2, line)
    } else {
        (pos, line)
    }
}

/// As `skip_blank`, from inside a comment.
pub open spec fn skip_comment(source: Seq<u8>, pos: int, line: int) -> (int, int)
    decreases source.len() - pos, 1int,
{
    if pos < 0 || pos >= source.len() {
        (pos, line)
    } else if source[pos] == 10 {
        skip_blank(source, pos, line)
    } else {
        skip_comment(source, pos + 1, line)
    }
}

/// `run_end` is the one position that ends the run.
pub proof fn lemma_run_end(source: Seq<u8>, from: int, class: ByteClass, end: int)
    requires
        0 <= from <= end <= source.len(),
        forall|k: int| from <= k < end ==> class.holds(#[trigger] source[k]),
        end == source.len() || !class.holds(source[end]),
    ensures
        run_end(source, from, class) == end,
    decreases end - from,
{
    if from < end {
        assert(class.holds(source[from]));
        lemma_run_end(source, from + 1, class, end);
    }
}

/// A run of bytes ends between its start and the end of the source.
pub proof fn lemma_run_end_bounds(source: Seq<u8>, from: int, class: ByteClass)
    requires
        0 <= from <= source.len(),
    ensures
        from <= run_end(source, from, class) <= source.len(),
    decreases source.len() - from,
{
    if from < source.len() && class.holds(source[from]) {
        lemma_run_end_bounds(source, from + 1, class);
    }
}

/// Line feeds only add up.
pub proof fn lemma_line_breaks_grow(source: Seq<u8>, from: int, to: int)
    requires
        from <= to,
    ensures
        line_breaks(source, from) <= line_breaks(source, to),
        0 <= line_breaks(source, from),
    decreases to - from, to,
{
    if from < to {
        lemma_line_breaks_grow(source, from, to - 1);
    } else if from > 0 {
        lemma_line_breaks_grow(source, from - 1, from - 1);
    }
}

/// Skipping blanks moves forward, stays inside the source and counts no more
/// lines than there are line feeds.
pub proof fn lemma_skip_blank(source: Seq<u8>, pos: int, line: int)
    requires
        0 <= pos <= source.len(),
    ensures
        pos <= skip_blank(source, pos, line).0 <= source.len(),
        line <= skip_blank(source, pos, line).1,
        skip_blank(source, pos, line).1 - line_breaks(source, skip_blank(source, pos, line).0)
            <= line - line_breaks(source, pos),
        pos <= skip_comment(source, pos, line).0 <= source.len(),
        line <= skip_comment(source, pos, line).1,
        skip_comment(source, pos, line).1 - line_breaks(
            source,
            skip_comment(source, pos, line).0,
        ) <= line - line_breaks(source, pos),
    decreases source.len() - pos,
{
    if pos < source.len() {
        lemma_skip_blank(source, pos + 1, line);
        lemma_skip_blank(source, pos + 1, line + 1);
        lemma_line_breaks_grow(source, pos, pos + 1);
        if pos + 1 < source.len() {
            lemma_skip_blank(source, pos + 2, line);
            lemma_line_breaks_grow(source, pos + 1, pos + 2);
        }
        if source[pos] == 10 {
            assert(skip_comment(source, pos, line) == skip_blank(source, pos, line));
        }
    }
}

/// A cursor over the bytes of a source, which counts lines.
pub struct Scanner<'a> {
    source: &'a [u8],
    start: usize,
    current: usize,
    line: u16,
}

/// The mathematical value of a [`Scanner`].
pub struct ScannerView {
    pub source: Seq<u8>,
    pub start: int,
    pub current: int,
    pub line: int,
}

impl ScannerView {
    /// The cursor is inside the source, and the line counter has room for
    /// every line feed that is still to come.
    pub open spec fn wf(self) -> bool {
        &&& 0 <= self.start <= self.current <= self.source.len()
        &&& 1 <= self.line
        &&& self.line - line_breaks(self.source, self.current) + line_breaks(
            self.source,
            self.source.len() as int,
        ) <= u16::MAX
    }

    /// Whether every byte has been read.
    pub open spec fn at_end(self) -> bool {
        self.current >= self.source.len()
    }

    /// The byte under the cursor.
    pub open spec fn peek(self) -> Option<u8> {
        if self.at_end() {
            None
        } else {
            Some(self.source[self.current])
        }
    }

    /// The byte after the one under the cursor.
    pub open spec fn double_peek(self) -> Option<u8> {
        if self.current + 1 < self.source.len() {
            Some(self.source[self.current + 1])
        } else {
            None
        }
    }

    /// The cursor one byte on, unless it is at the end.
    pub open spec fn advanced(self) -> ScannerView {
        if self.at_end() {
            self
        } else {
            ScannerView { current: self.current + 1, ..self }
        }
    }

    /// The cursor after the blanks and comments in front of it.
    pub open spec fn skipped(self) -> ScannerView {
        ScannerView {
            current: skip_blank(self.source, self.current, self.line).0,
            line: skip_blank(self.source, self.current, self.line).1,
            ..self
        }
    }

    /// The text between the start mark and the cursor.
    pub open spec fn lexeme(self) -> Seq<u8> {
        self.source.subrange(self.start, self.current)
    }
}

impl<'a> View for Scanner<'a> {
    type V = ScannerView;

    closed spec fn view(&self) -> ScannerView {
        ScannerView {
            source: self.source@,
            start: self.start as int,
            current: self.current as int,
            line: self.line as int,
        }
    }
}

impl<'a> Scanner<'a> {
    /// A cursor at the first byte of `source`, on line 1.
    pub fn new(source: &'a [u8]) -> (scanner: Scanner<'a>)
        requires
            line_breaks(source@, source@.len() as int) < u16::MAX,
        ensures
            scanner@ == (ScannerView { source: source@, start: 0, current: 0, line: 1 }),
            scanner@.wf(),
    {
        Scanner { source, start: 0, current: 0, line: 1 }
    }

    /// Whether every byte has been read.
    pub fn is_at_end(&self) -> (r: bool)
        ensures
            r == self@.at_end(),
    {
        self.current >= self.source.len()
    }

    /// Returns the byte under the cursor and moves past it.
    pub fn advance(&mut self) -> (byte: Option<u8>)
        requires
            old(self)@.wf(),
        ensures
            byte == old(self)@.peek(),
            final(self)@ == old(self)@.advanced(),
            final(self)@.wf(),
    {
        let c = self.peek();
        if c.is_some() {
            proof {
                lemma_line_breaks_grow(self@.source, self@.current, self@.current + 1);
            }
            assert(self.current < self.source.len());
            self.current += 1;
        }
        c
    }

    /// The byte under the cursor.
    pub fn peek(&self) -> (byte: Option<u8>)
        requires
            self@.wf(),
        ensures
            byte == self@.peek(),
    {
        if !self.is_at_end() {
            Some(self.source[self.current])
        } else {
            None
        }
    }

    /// The byte after the one under the cursor.
    pub fn double_peek(&self) -> (byte: Option<u8>)
        requires
            self@.wf(),
        ensures
            byte == self@.double_peek(),
    {
        if self.current < self.source.len() && self.current + 1 < self.source.len() {
            Some(self.source[self.current + 1])
        } else {
            None
        }
    }

    /// Moves past the byte under the cursor if it is `expected`.
    pub fn next_eq(&mut self, expected: u8) -> (r: bool)
        requires
            old(self)@.wf(),
        ensures
            r == (old(self)@.peek() == Some(expected)),
            final(self)@ == if r {
                old(self)@.advanced()
            } else {
                old(self)@
            },
            final(self)@.wf(),
    {
        match self.peek() {
            Some(c) => {
                if c == expected {
                    self.advance();
                    true
                } else {
                    false
                }
            },
            None => false,
        }
    }

    /// Moves past blanks and comments, counting the lines.
    pub fn skip_needless(&mut self)
        requires
            old(self)@.wf(),
        ensures
            final(self)@ == old(self)@.skipped(),
            final(self)@.wf(),
    {
        let mut in_comment = false;
        loop
            invariant
                self@.wf(),
                self@.source == old(self)@.source,
                self@.start == old(self)@.start,
                old(self)@.skipped().current == if in_comment {
                    skip_comment(self@.source, self@.current, self@.line).0
                } else {
                    skip_blank(self@.source, self@.current, self@.line).0
                },
                old(self)@.skipped().line == if in_comment {
                    skip_comment(self@.source, self@.current, self@.line).1
                } else {
                    skip_blank(self@.source, self@.current, self@.line).1
                },
            ensures
                self@ == old(self)@.skipped(),
                self@.wf(),
            decreases self@.source.len() - self@.current, if in_comment { 1int } else { 0int },
        {
            match self.peek() {
                None => break,
                Some(c) => {
                    if in_comment {
                        if c == 10 {
                            in_comment = false;
                        } else {
                            self.advance();
                        }
                    } else if c == 32 || c == 13 || c == 9 {
                        self.advance();
                    } else if c == 10 {
                        proof {
                            lemma_line_breaks_grow(self@.source, self@.current, self@.current + 1);
                            lemma_line_breaks_grow(
                                self@.source,
                                self@.current + 1,
                                self@.source.len() as int,
                            );
                        }
                        self.advance();
                        self.line += 1;
                    } else if c == 47 && self.double_peek() == Some(47) {
                        self.advance();
                        self.advance();
                        in_comment = true;
                    } else {
                        break;
                    }
                },
            }
        }
    }

    /// Moves to the end of the run of `class` bytes under the cursor.
    pub fn eat_while(&mut self, class: ByteClass)
        requires
            old(self)@.wf(),
        ensures
            final(self)@ == (ScannerView {
                current: run_end(old(self)@.source, old(self)@.current, class),
                ..old(self)@
            }),
            old(self)@.current <= final(self)@.current,
            final(self)@.wf(),
    {
        loop
            invariant
                self@.wf(),
                self@.source == old(self)@.source,
                self@.start == old(self)@.start,
                self@.line == old(self)@.line,
                old(self)@.current <= self@.current,
                forall|k: int|
                    old(self)@.current <= k < self@.current ==> class.holds(
                        #[trigger] self@.source[k],
                    ),
            ensures
                self@.wf(),
                self@.source == old(self)@.source,
                self@.start == old(self)@.start,
                self@.line == old(self)@.line,
                old(self)@.current <= self@.current,
                forall|k: int|
                    old(self)@.current <= k < self@.current ==> class.holds(
                        #[trigger] self@.source[k],
                    ),
                self@.at_end() || !class.holds(self@.source[self@.current]),
            decreases self@.source.len() - self@.current,
        {
            match self.peek() {
                Some(c) => {
                    if class.contains(c) {
                        self.advance();
                    } else {
                        break;
                    }
                },
                None => break,
            }
        }
        proof {
            lemma_run_end(self@.source, old(self)@.current, class, self@.current);
        }
    }

    /// Sets the start mark to the cursor.
    pub fn mark(&mut self)
        requires
            old(self)@.wf(),
        ensures
            final(self)@ == (ScannerView { start: old(self)@.current, ..old(self)@ }),
            final(self)@.wf(),
    {
        self.start = self.current;
    }

    /// The line that the cursor is on.
    pub fn line(&self) -> (line: u16)
        ensures
            line == self@.line,
    {
        self.line
    }

    /// The text from `skip` bytes after the start mark to `trim` bytes
    /// before the cursor.
    pub fn slice(&self, skip: usize, trim: usize) -> (lexeme: &'a [u8])
        requires
            self@.wf(),
            self@.start + skip + trim <= self@.current,
        ensures
            lexeme@ == self@.source.subrange(self@.start + skip, self@.current - trim),
    {
        vstd::slice::slice_subrange(self.source, self.start + skip, self.current - trim)
    }
}

} // verus!
