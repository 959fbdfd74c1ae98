use vstd::prelude::*;
use vstd::string::StringExecFns;

use crate::lexer::{chars_of, push_char};
use crate::printer::{nat_digits, push_digits};

verus! {

/// Source code position: a line number (starting at 1) and a column number
/// (the first character of each line being column 0).
#[derive(Copy, Clone, Debug, PartialEq, Eq)]
pub struct SourcePos {
    pub line: u32,
    pub column: u32,
}

/// Construct a source position
pub fn spos(line: u32, column: u32) -> (p: SourcePos)
    ensures
        p.line == line,
        p.column == column,
{
    SourcePos { line, column }
}

/// The kinds of error the runtime can report.
#[derive(Debug, PartialEq)]
pub enum ErrorKind {
    IOError(String),
    LexerError(String),
    ParseError(String),
    EvalError(String),
    BadAllocation,
    OutOfMemory,
    BoundsError,
    KeyError,
    UnhashableError,
}

/// The mathematical model of an `ErrorKind`: messages as character sequences.
pub enum ErrorKindView {
    IOError(Seq<char>),
    LexerError(Seq<char>),
    ParseError(Seq<char>),
    EvalError(Seq<char>),
    BadAllocation,
    OutOfMemory,
    BoundsError,
    KeyError,
    UnhashableError,
}

impl View for ErrorKind {
    type V = ErrorKindView;

    open spec fn view(&self) -> ErrorKindView {
        match self {
            ErrorKind::IOError(s) => ErrorKindView::IOError(s@),
            ErrorKind::LexerError(s) => ErrorKindView::LexerError(s@),
            ErrorKind::ParseError(s) => ErrorKindView::ParseError(s@),
            ErrorKind::EvalError(s) => ErrorKindView::EvalError(s@),
            ErrorKind::BadAllocation => ErrorKindView::BadAllocation,
            ErrorKind::OutOfMemory => ErrorKindView::OutOfMemory,
            ErrorKind::BoundsError => ErrorKindView::BoundsError,
            ErrorKind::KeyError => ErrorKindView::KeyError,
            ErrorKind::UnhashableError => ErrorKindView::UnhashableError,
        }
    }
}

/// An Eval-rs runtime error type
#[derive(Debug, PartialEq)]
pub struct RuntimeError {
    kind: ErrorKind,
    pos: Option<SourcePos>,
}

/// The mathematical model of a `RuntimeError`
pub struct RuntimeErrorView {
    pub kind: ErrorKindView,
    pub pos: Option<SourcePos>,
}

impl View for RuntimeError {
    type V = RuntimeErrorView;

    closed spec fn view(&self) -> RuntimeErrorView {
        RuntimeErrorView { kind: self.kind@, pos: self.pos }
    }
}

impl RuntimeError {
    /// An error without a source position
    pub fn new(kind: ErrorKind) -> (e: RuntimeError)
        ensures
            e@.kind == kind@,
            e@.pos is None,
    {
        RuntimeError { kind: kind, pos: None }
    }

    /// An error located at a source position
    pub fn with_pos(kind: ErrorKind, pos: SourcePos) -> (e: RuntimeError)
        ensures
            e@.kind == kind@,
            e@.pos == Some(pos),
    {
        RuntimeError { kind: kind, pos: Some(pos) }
    }

    /// The source position of the error, if known
    pub fn error_pos(&self) -> (p: Option<SourcePos>)
        ensures
            p == self@.pos,
    {
        self.pos
    }

    /// The kind of the error
    pub fn error_kind(&self) -> (k: &ErrorKind)
        ensures
            k@ == self@.kind,
    {
        &self.kind
    }

    /// The human readable description of the error
    pub fn message(&self) -> (s: String)
        ensures
            s@ == error_message(self@.kind),
    {
        match &self.kind {
            ErrorKind::IOError(reason) => String::from_str("IO error: ").concat(reason.as_str()),
            ErrorKind::LexerError(reason) => String::from_str("Lexer error: ").concat(
                reason.as_str(),
            ),
            ErrorKind::ParseError(reason) => String::from_str("Parse error: ").concat(
                reason.as_str(),
            ),
            ErrorKind::EvalError(reason) => String::from_str("Evaluation error: ").concat(
                reason.as_str(),
            ),
            ErrorKind::BadAllocation => String::from_str(
                "An invalid memory size allocation was requested!",
            ),
            ErrorKind::OutOfMemory => String::from_str("Out of memory!"),
            ErrorKind::BoundsError => String::from_str("Indexing bounds error"),
            ErrorKind::KeyError => String::from_str("Key does not exist in container"),
            ErrorKind::UnhashableError => String::from_str("Attempt to access Dict by non-hashable key"),
        }
    }
}

/// The human readable description of an error kind
pub open spec fn error_message(kind: ErrorKindView) -> Seq<char> {
    match kind {
        ErrorKindView::IOError(reason) => "IO error: "@ + reason,
        ErrorKindView::LexerError(reason) => "Lexer error: "@ + reason,
        ErrorKindView::ParseError(reason) => "Parse error: "@ + reason,
        ErrorKindView::EvalError(reason) => "Evaluation error: "@ + reason,
        ErrorKindView::BadAllocation => "An invalid memory size allocation was requested!"@,
        ErrorKindView::OutOfMemory => "Out of memory!"@,
        ErrorKindView::BoundsError => "Indexing bounds error"@,
        ErrorKindView::KeyError => "Key does not exist in container"@,
        ErrorKindView::UnhashableError => "Attempt to access Dict by non-hashable key"@,
    }
}

/// Convenience function for building a parse error
pub fn err_parser(reason: &str) -> (e: RuntimeError)
    ensures
        e@.kind == ErrorKindView::ParseError(reason@),
        e@.pos is None,
{
    RuntimeError::new(ErrorKind::ParseError(String::from_str(reason)))
}

/// Convenience function for building a parse error including a source position
pub fn err_parser_wpos(pos: SourcePos, reason: &str) -> (e: RuntimeError)
    ensures
        e@.kind == ErrorKindView::ParseError(reason@),
        e@.pos == Some(pos),
{
    RuntimeError::with_pos(ErrorKind::ParseError(String::from_str(reason)), pos)
}

/// Convenience function for building a lexer error including a source position
pub fn err_lexer(pos: SourcePos, reason: &str) -> (e: RuntimeError)
    ensures
        e@.kind == ErrorKindView::LexerError(reason@),
        e@.pos == Some(pos),
{
    RuntimeError::with_pos(ErrorKind::LexerError(String::from_str(reason)), pos)
}

/// Convenience function for building an evaluation error
pub fn err_eval(reason: &str) -> (e: RuntimeError)
    ensures
        e@.kind == ErrorKindView::EvalError(reason@),
        e@.pos is None,
{
    RuntimeError::new(ErrorKind::EvalError(String::from_str(reason)))
}

/// The position of the first line feed in a text, or its length where it has none
pub open spec fn first_line_feed(s: Seq<char>) -> nat
    decreases s.len(),
{
    if s.len() == 0 {
        0
    } else if s[0] == '\n' {
        0
    } else {
        1 + first_line_feed(s.drop_first())
    }
}

/// A line without the carriage return that ends it, where one does
pub open spec fn without_cr(l: Seq<char>) -> Seq<char> {
    if l.len() > 0 && l.last() == '\r' {
        l.drop_last()
    } else {
        l
    }
}

/// The lines of a text, as `str::lines` gives them: split at each line feed,
/// a carriage return just before a line feed dropped, and no empty line after
/// a final line feed
pub open spec fn text_lines(s: Seq<char>) -> Seq<Seq<char>>
    decreases s.len(),
{
    if s.len() == 0 {
        Seq::empty()
    } else {
        let k = first_line_feed(s);
        if k >= s.len() {
            seq![s]
        } else {
            seq![without_cr(s.take(k as int))] + text_lines(s.skip(k + 1int))
        }
    }
}

/// A run of spaces
pub open spec fn spaces(n: nat) -> Seq<char> {
    Seq::new(n, |i: int| ' ')
}

/// Text right-aligned in a field of the given width
pub open spec fn pad_left(t: Seq<char>, width: nat) -> Seq<char> {
    if t.len() < width {
        spaces((width - t.len()) as nat) + t
    } else {
        t
    }
}

/// An error shown in the context of the source it was found in: the message;
/// then, where the error has a position on a line of the source, that line,
/// numbered, and a caret under its column, the line number in a field of five
/// characters.
pub open spec fn error_in_source(e: RuntimeErrorView, source: Seq<char>) -> Seq<char> {
    let head = "error: "@ + error_message(e.kind) + seq!['\n'];
    match e.pos {
        None => head,
        Some(p) => {
            let lines = text_lines(source);
            if 1 <= p.line && p.line <= lines.len() {
                head + pad_left(nat_digits(p.line as nat), 5) + seq!['|'] + lines[p.line - 1] + seq!['\n'] + spaces(5)
                    + seq!['|'] + spaces(if p.column > 1 { p.column as nat } else { 1 }) + seq!['^', '\n'] + spaces(5)
                    + seq!['|', '\n']
            } else {
                head
            }
        },
    }
}

/// Where a text has no line feed before a position and one there, or ends
/// there, the first line feed is at that position
proof fn lemma_first_line_feed(s: Seq<char>, m: int)
    requires
        0 <= m <= s.len(),
        forall|j: int| 0 <= j < m ==> s[j] != '\n',
        m == s.len() || s[m] == '\n',
    ensures
        first_line_feed(s) == m,
    decreases m,
{
    if m > 0 {
        assert forall|j: int| 0 <= j < m - 1 implies s.drop_first()[j] != '\n' by {
            assert(s.drop_first()[j] == s[j + 1]);
        }
        if m - 1 < s.drop_first().len() {
            assert(s.drop_first()[m - 1] == s[m]);
        }
        lemma_first_line_feed(s.drop_first(), m - 1);
    }
}

/// The characters in the range, as a String
fn string_of(chars: &Vec<char>, from: usize, to: usize) -> (s: String)
    requires
        from <= to <= chars@.len(),
    ensures
        s@ == chars@.subrange(from as int, to as int),
{
    let mut out = String::new();
    let mut i = from;
    while i < to
        invariant
            from <= i <= to <= chars@.len(),
            out@ == chars@.subrange(from as int, i as int),
        decreases to - i,
    {
        push_char(&mut out, chars[i]);
        assert(out@ =~= chars@.subrange(from as int, i + 1));
        i = i + 1;
    }
    out
}

/// The line with the given number, the first being 1, as `text_lines` gives it
fn find_line(chars: &Vec<char>, line: u32) -> (r: Option<String>)
    ensures
        match r {
            Some(l) => 1 <= line <= text_lines(chars@).len() && l@ == text_lines(chars@)[line - 1],
            None => !(1 <= line <= text_lines(chars@).len()),
        },
{
    if line == 0 {
        return None;
    }
    let n = chars.len();
    let mut start: usize = 0;
    let mut count: u32 = 0;
    let mut i: usize = 0;
    let ghost mut done: Seq<Seq<char>> = Seq::empty();
    proof {
        assert(chars@.skip(0) =~= chars@);
        assert(text_lines(chars@) =~= done + text_lines(chars@.skip(0)));
    }
    while i < n
        invariant
            n == chars@.len(),
            start <= i <= n,
            count < line,
            done.len() == count,
            text_lines(chars@) == done + text_lines(chars@.skip(start as int)),
            forall|j: int| start <= j < i ==> chars@[j] != '\n',
        decreases n - i,
    {
        if chars[i] == '\n' {
            let ghost rest = chars@.skip(start as int);
            proof {
                assert forall|j: int| 0 <= j < i - start implies rest[j] != '\n' by {
                    assert(rest[j] == chars@[start + j]);
                }
                assert(rest[i - start] == chars@[i as int]);
                lemma_first_line_feed(rest, i - start);
                assert(rest.take(i - start) =~= chars@.subrange(start as int, i as int));
                assert(rest.skip(i - start + 1) =~= chars@.skip(i + 1));
            }
            if count + 1 == line {
                let end = if i > start && chars[i - 1] == '\r' {
                    i - 1
                } else {
                    i
                };
                let l = string_of(chars, start, end);
                proof {
                    let t = chars@.subrange(start as int, i as int);
                    if i > start && chars@[i - 1] == '\r' {
                        assert(t.drop_last() =~= chars@.subrange(start as int, end as int));
                    }
                    assert(l@ == without_cr(t));
                    assert((done + text_lines(chars@.skip(start as int)))[count as int] == without_cr(t));
                }
                return Some(l);
            }
            proof {
                let t = chars@.subrange(start as int, i as int);
                assert(done + text_lines(chars@.skip(start as int)) =~= done.push(without_cr(t)) + text_lines(
                    chars@.skip(i + 1),
                ));
                done = done.push(without_cr(t));
            }
            count = count + 1;
            start = i + 1;
        }
        i = i + 1;
    }
    let ghost rest = chars@.skip(start as int);
    if start < n && count + 1 == line {
        let l = string_of(chars, start, n);
        proof {
            assert forall|j: int| 0 <= j < rest.len() implies rest[j] != '\n' by {
                assert(rest[j] == chars@[start + j]);
            }
            lemma_first_line_feed(rest, rest.len() as int);
            assert(text_lines(rest) == seq![rest]);
            assert(rest =~= chars@.subrange(start as int, n as int));
            assert((done + text_lines(rest))[count as int] == rest);
        }
        return Some(l);
    }
    proof {
        if start < n {
            assert forall|j: int| 0 <= j < rest.len() implies rest[j] != '\n' by {
                assert(rest[j] == chars@[start + j]);
            }
            lemma_first_line_feed(rest, rest.len() as int);
            assert(text_lines(rest).len() == 1);
        } else {
            assert(rest.len() == 0);
        }
    }
    None
}

/// Append a run of spaces
fn push_spaces(out: &mut String, n: usize)
    ensures
        final(out)@ == old(out)@ + spaces(n as nat),
{
    let mut i: usize = 0;
    while i < n
        invariant
            i <= n,
            out@ == old(out)@ + spaces(i as nat),
        decreases n - i,
    {
        push_char(out, ' ');
        assert(out@ =~= old(out)@ + spaces((i + 1) as nat));
        i = i + 1;
    }
}

/// Append the text of a string
fn push_str(out: &mut String, t: &str)
    ensures
        final(out)@ == old(out)@ + t@,
{
    out.append(t);
}

impl RuntimeError {
    /// The text that shows the error in the context of the source code it
    /// was found in (see `error_in_source`)
    pub fn print_with_source(&self, source: &str) -> (s: String)
        ensures
            s@ == error_in_source(self@, source@),
    {
        let mut out = String::new();
        proof {
            reveal_strlit("error: ");
        }
        let message = self.message();
        match self.pos {
            None => {
                push_str(&mut out, "error: ");
                push_str(&mut out, message.as_str());
                push_char(&mut out, '\n');
                assert(out@ =~= error_in_source(self@, source@));
                out
            },
            Some(pos) => {
                let chars = chars_of(source);
                push_str(&mut out, "error: ");
                push_str(&mut out, message.as_str());
                push_char(&mut out, '\n');
                let line = match find_line(&chars, pos.line) {
                    None => {
                        assert(out@ =~= error_in_source(self@, source@));
                        return out;
                    },
                    Some(l) => l,
                };
                let mut number = String::new();
                push_digits(&mut number, pos.line as usize);
                let digits = number.as_str().unicode_len();
                if digits < 5 {
                    push_spaces(&mut out, 5 - digits);
                }
                push_str(&mut out, number.as_str());
                push_char(&mut out, '|');
                push_str(&mut out, line.as_str());
                push_char(&mut out, '\n');
                push_spaces(&mut out, 5);
                push_char(&mut out, '|');
                let width: usize = if pos.column > 1 {
                    pos.column as usize
                } else {
                    1
                };
                push_spaces(&mut out, width);
                push_char(&mut out, '^');
                push_char(&mut out, '\n');
                push_spaces(&mut out, 5);
                push_char(&mut out, '|');
                push_char(&mut out, '\n');
                assert(out@ =~= error_in_source(self@, source@));
                out
            },
        }
    }
}

} // verus!
