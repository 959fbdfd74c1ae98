//! One step of a read-eval-print session: a line of input is parsed, compiled
//! and evaluated, and answered with the text to show.
use vstd::prelude::*;
use vstd::string::StringExecFns;

use crate::compiler::{compile, spec_compile};
use crate::error::{error_in_source, ErrorKind, ErrorKindView, RuntimeError, RuntimeErrorView, SourcePos};
use crate::lexer::push_char;
use crate::memory::{Memory, ObjectView};
use crate::parser::{parse, spec_parse, ParseFailure};
use crate::printer::{print, print_ptr};
use crate::taggedptr::TaggedPtr;
use crate::vm::{spec_quick_vm_eval, strings_view, Thread, VmState};

verus! {

/// The errors a session reports and goes on after: those in the input text
/// and those of evaluation
pub open spec fn recoverable(k: ErrorKindView) -> bool {
    k is LexerError || k is ParseError || k is EvalError
}

/// Lines of text, each followed by a line feed
pub open spec fn lines_text(lines: Seq<Seq<char>>) -> Seq<char>
    decreases lines.len(),
{
    if lines.len() == 0 {
        Seq::empty()
    } else {
        lines_text(lines.drop_last()) + lines.last() + seq!['\n']
    }
}

/// The error a parse failure is reported as
pub open spec fn failure_view(f: ParseFailure) -> RuntimeErrorView {
    RuntimeErrorView {
        kind: ErrorKindView::ParseError(f.message),
        pos: match f.pos {
            Some((line, column)) => Some(SourcePos { line: line as u32, column: column as u32 }),
            None => None,
        },
    }
}

/// The answer to an error, after the lines of the traceback that evaluation
/// left: a recoverable error is shown in the context of the line and the
/// session goes on; any other ends the session
pub open spec fn error_answer(line: Seq<char>, e: RuntimeErrorView, traceback: Seq<Seq<char>>) -> (
    Seq<char>,
    Option<ErrorKindView>,
) {
    if recoverable(e.kind) {
        (lines_text(traceback) + error_in_source(e, line), None)
    } else {
        (lines_text(traceback), Some(e.kind))
    }
}

/// The answer to a line that was parsed into `ast`, where the machine is in
/// the state `st`: the value the compiled line evaluates to, printed on a line
/// of its own, or the answer to the error met
pub open spec fn answer_after_parse(line: Seq<char>, st: VmState, ast: TaggedPtr) -> (Seq<char>, Option<ErrorKindView>) {
    answer_after_compile(line, st, spec_compile(st.syms, st.objs, ast))
}

/// The answer to a line, given what compiling it gave
pub open spec fn answer_after_compile(
    line: Seq<char>,
    st: VmState,
    c: Result<(Seq<Seq<char>>, Seq<ObjectView>, TaggedPtr), ErrorKindView>,
) -> (Seq<char>, Option<ErrorKindView>) {
    match c {
        Err(k) => error_answer(line, RuntimeErrorView { kind: k, pos: None }, Seq::empty()),
        Ok((syms, objs, f)) => answer_after_eval(
            line,
            spec_quick_vm_eval(VmState { syms: syms, objs: objs, ..st }, f->Function_0 as nat),
        ),
    }
}

/// The answer to a line, given what evaluating its compiled function gave
pub open spec fn answer_after_eval(
    line: Seq<char>,
    ev: (VmState, Result<TaggedPtr, (ErrorKindView, Seq<Seq<char>>)>),
) -> (Seq<char>, Option<ErrorKindView>) {
    match ev.1 {
        Ok(v) => (print_ptr(ev.0.syms, ev.0.objs, v) + seq!['\n'], None),
        Err((k, lines)) => error_answer(line, RuntimeErrorView { kind: k, pos: None }, lines),
    }
}

/// Does the outcome of a step show the text and end the session exactly for
/// the given error kind
pub open spec fn shows(out: (String, Result<(), RuntimeError>), a: (Seq<char>, Option<ErrorKindView>)) -> bool {
    &&& out.0@ == a.0
    &&& match a.1 {
        None => out.1 is Ok,
        Some(k) => out.1 matches Err(e) && e@.kind == k && e@.pos is None,
    }
}

/// The evaluator of a read-eval-print session: the thread that evaluates each line
pub struct ReadEvalPrint {
    pub main_thread: Thread,
}

impl ReadEvalPrint {
    /// Well-formedness in the memory
    pub open spec fn wf(&self, mem: &Memory) -> bool {
        self.main_thread.wf(mem)
    }

    /// A session with a new thread
    pub fn new(mem: &mut Memory) -> (r: Result<ReadEvalPrint, RuntimeError>)
        requires
            old(mem).wf(),
        ensures
            final(mem).wf(),
            final(mem).extends(old(mem)),
            r matches Ok(rep) && rep.wf(final(mem)) && rep.main_thread.spec_traceback() == Seq::<Seq<char>>::empty(),
    {
        match Thread::allocate(mem) {
            Ok(main_thread) => Ok(ReadEvalPrint { main_thread }),
            Err(e) => Err(e),
        }
    }

    /// Read, evaluate and print one line: the text to show, and whether the
    /// session goes on. A line is parsed for its first expression, which is
    /// compiled and evaluated; the answer is the value printed, or the error
    /// shown in the context of the line after the traceback of evaluation
    /// (see `error_answer`). A line of 2^32 - 1 characters or more is refused
    /// as a bad allocation, positions in it being beyond count.
    pub fn run(&mut self, mem: &mut Memory, line: &str) -> (out: (String, Result<(), RuntimeError>))
        requires
            old(self).wf(old(mem)),
            old(mem).wf(),
        ensures
            final(mem).wf(),
            final(mem).extends(old(mem)),
            final(self).wf(final(mem)),
            line@.len() >= u32::MAX ==> shows(out, (Seq::empty(), Some(ErrorKindView::BadAllocation))),
            line@.len() < u32::MAX ==> match spec_parse(line@) {
                Err(Ok((l, c))) => shows(
                    out,
                    error_answer(
                        line@,
                        RuntimeErrorView {
                            kind: ErrorKindView::LexerError("tabs are not valid whitespace"@),
                            pos: Some(SourcePos { line: l as u32, column: c as u32 }),
                        },
                        Seq::empty(),
                    ),
                ),
                Err(Err(f)) => shows(out, error_answer(line@, failure_view(f), Seq::empty())),
                Ok(e) => exists|m1: Memory, ast: TaggedPtr|
                    {
                        &&& m1.wf()
                        &&& m1.extends(old(mem))
                        &&& m1.valid_ptr(ast)
                        &&& m1.tree(ast) == e
                        &&& #[trigger] shows(out, answer_after_parse(line@, old(self).main_thread.state(&m1), ast))
                    },
            },
    {
        proof {
            mem.lemma_extends_refl();
        }
        if line.unicode_len() >= 0xffff_ffff {
            return (String::new(), Err(RuntimeError::new(ErrorKind::BadAllocation)));
        }
        let ghost mem0 = *mem;
        match parse(mem, line) {
            Ok(ast) => {
                let ghost m1 = *mem;
                proof {
                    self.main_thread.lemma_wf_extends(mem, &mem0);
                }
                let out = self.eval_parsed(mem, line, ast);
                proof {
                    mem.lemma_extends_trans(&m1, &mem0);
                    assert(shows(out, answer_after_parse(line@, old(self).main_thread.state(&m1), ast)));
                }
                out
            },
            Err(e) => {
                proof {
                    self.main_thread.lemma_wf_extends(mem, &mem0);
                }
                let no_lines: Vec<String> = Vec::new();
                proof {
                    assert(strings_view(no_lines@) =~= Seq::<Seq<char>>::empty());
                }
                answer_error(e, line, &no_lines)
            },
        }
    }

    /// Compile and evaluate a parsed line, and answer it
    fn eval_parsed(&mut self, mem: &mut Memory, line: &str, ast: TaggedPtr) -> (out: (String, Result<(), RuntimeError>))
        requires
            old(self).wf(old(mem)),
            old(mem).wf(),
            old(mem).valid_ptr(ast),
        ensures
            final(mem).wf(),
            final(mem).extends(old(mem)),
            final(self).wf(final(mem)),
            shows(out, answer_after_parse(line@, old(self).main_thread.state(old(mem)), ast)),
    {
        let ghost mem0 = *mem;
        let ghost st0 = self.main_thread.state(mem);
        let ghost c = spec_compile(mem.syms@, mem.object_views(), ast);
        proof {
            self.main_thread.lemma_state_in(mem, mem);
            assert(answer_after_parse(line@, st0, ast) == answer_after_compile(line@, st0, c));
        }
        let code = compile(mem, ast);
        proof {
            self.main_thread.lemma_wf_extends(mem, &mem0);
        }
        match code {
            Err(e) => {
                let no_lines: Vec<String> = Vec::new();
                proof {
                    assert(strings_view(no_lines@) =~= Seq::<Seq<char>>::empty());
                    assert(e@ == RuntimeErrorView { kind: e@.kind, pos: None });
                    assert(c == Err::<(Seq<Seq<char>>, Seq<ObjectView>, TaggedPtr), ErrorKindView>(e@.kind));
                }
                let out = answer_error(e, line, &no_lines);
                proof {
                    assert(shows(out, answer_after_compile(line@, st0, c)));
                }
                out
            },
            Ok(f) => {
                let function = match f {
                    TaggedPtr::Function(i) => i,
                    _ => {
                        return (String::new(), Err(RuntimeError::new(ErrorKind::BoundsError)));
                    },
                };
                proof {
                    self.main_thread.lemma_state_in(mem, &mem0);
                    assert(c matches Ok((syms, objs, g)) && g == f && syms == mem.syms@ && objs == mem.object_views());
                }
                let ghost ev = spec_quick_vm_eval(self.main_thread.state(mem), function as nat);
                let out = self.eval_function(mem, line, function);
                proof {
                    assert(answer_after_compile(line@, st0, c) == answer_after_eval(line@, ev));
                    assert(shows(out, answer_after_compile(line@, st0, c)));
                }
                out
            },
        }
    }

    /// Evaluate a compiled line, and answer it
    fn eval_function(&mut self, mem: &mut Memory, line: &str, function: usize) -> (out: (String, Result<(), RuntimeError>))
        requires
            old(self).wf(old(mem)),
            old(mem).wf(),
            old(mem).valid_ptr(TaggedPtr::Function(function)),
        ensures
            final(mem).wf(),
            final(mem).extends(old(mem)),
            final(self).wf(final(mem)),
            shows(out, answer_after_eval(line@, spec_quick_vm_eval(old(self).main_thread.state(old(mem)), function as nat))),
    {
        let result = self.main_thread.quick_vm_eval(mem, function);
        match result {
            Ok(value) => {
                let mut text = print(mem, value);
                push_char(&mut text, '\n');
                proof {
                    self.main_thread.lemma_state_in(mem, mem);
                    assert(text@ =~= print_ptr(mem.syms@, mem.object_views(), value) + seq!['\n']);
                }
                (text, Ok(()))
            },
            Err(e) => {
                proof {
                    assert(e@ == RuntimeErrorView { kind: e@.kind, pos: None });
                }
                answer_error(e, line, self.main_thread.traceback())
            },
        }
    }
}

/// The answer to an error met after the traceback lines
fn answer_error(e: RuntimeError, line: &str, traceback: &Vec<String>) -> (out: (String, Result<(), RuntimeError>))
    requires
        !recoverable(e@.kind) ==> e@.pos is None,
    ensures
        shows(out, error_answer(line@, e@, strings_view(traceback@))),
{
    let mut text = traceback_text(traceback);
    if recoverable_kind(e.error_kind()) {
        let shown = e.print_with_source(line);
        let ghost before = text@;
        text.append(shown.as_str());
        assert(text@ =~= before + shown@);
        (text, Ok(()))
    } else {
        (text, Err(e))
    }
}

/// Whether the session goes on after an error of the kind
fn recoverable_kind(k: &ErrorKind) -> (b: bool)
    ensures
        b == recoverable(k@),
{
    match k {
        ErrorKind::LexerError(_) => true,
        ErrorKind::ParseError(_) => true,
        ErrorKind::EvalError(_) => true,
        _ => false,
    }
}

/// The lines of a traceback, each followed by a line feed
fn traceback_text(lines: &Vec<String>) -> (s: String)
    ensures
        s@ == lines_text(strings_view(lines@)),
{
    let mut out = String::new();
    let mut i: usize = 0;
    while i < lines.len()
        invariant
            i <= lines@.len(),
            out@ == lines_text(strings_view(lines@.take(i as int))),
        decreases lines@.len() - i,
    {
        out.append(lines[i].as_str());
        push_char(&mut out, '\n');
        proof {
            let t = strings_view(lines@.take(i + 1));
            assert(t.drop_last() =~= strings_view(lines@.take(i as int)));
            assert(t.last() == lines@[i as int]@);
        }
        i = i + 1;
    }
    proof {
        assert(lines@.take(lines@.len() as int) =~= lines@);
    }
    out
}

} // verus!
