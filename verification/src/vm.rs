//! The register virtual machine that runs byte code
use vstd::prelude::*;
use vstd::string::StringExecFns;

use crate::array::Array;
use crate::bytecode::{InstructionStream, Opcode, Register};
use crate::dict::{spec_find_entry, Dict, DictItem};
use crate::error::{err_eval, ErrorKind, ErrorKindView, RuntimeError};
use crate::function::Partial;
use crate::memory::{spec_intern, Memory, Object, ObjectView};
use crate::pair::Pair;
use crate::printer::{int_to_decimal, print_ptr};
use crate::rawarray::ArraySize;
use crate::taggedptr::TaggedPtr;

verus! {

/// The number of registers in the window of one call frame
pub const WINDOW_SIZE: ArraySize = 256;

/// The number of slots of the table of global bindings
pub const GLOBALS_CAPACITY: ArraySize = 256;

/// The number of instructions run between checks for a result
pub const STREAM_STEPS: ArraySize = 1024;

/// A bound on the length of the stack and of the list of call frames, below
/// which their arrays can always grow
pub const STACK_LIMIT: u32 = 0x8000_0000;

/// Control flow flags
#[derive(Copy, Clone, PartialEq, Eq, Structural)]
pub enum EvalStatus {
    Pending,
    Return(TaggedPtr),
}

/// A call frame, separate from the register stack: the function, the
/// instruction pointer to come back to and the base of its register window
#[derive(Copy, Clone)]
pub struct CallFrame {
    /// Address of the `Function` in managed memory
    pub function: usize,
    pub ip: ArraySize,
    pub base: ArraySize,
}

impl CallFrame {
    /// The frame of the outermost function
    pub fn new_main(main_fn: usize) -> (f: CallFrame)
        ensures
            f == (CallFrame { function: main_fn, ip: 0, base: 0 }),
    {
        CallFrame { function: main_fn, ip: 0, base: 0 }
    }

    /// A frame of a called function
    fn new(function: usize, ip: ArraySize, base: ArraySize) -> (f: CallFrame)
        ensures
            f == (CallFrame { function, ip, base }),
    {
        CallFrame { function, ip, base }
    }
}

/// The model of a running machine: its call frames, the register stack, the
/// slots of the table of globals, the code running and the instruction
/// pointer, the base of the current register window, and the symbols and
/// objects of managed memory
pub struct VmState {
    pub frames: Seq<CallFrame>,
    pub stack: Seq<TaggedPtr>,
    pub globals: Seq<DictItem>,
    pub code: nat,
    pub ip: nat,
    pub stack_base: nat,
    pub syms: Seq<Seq<char>>,
    pub objs: Seq<ObjectView>,
}

/// The outcome of a step: the state afterwards, and the status or the error
pub type StepResult = (VmState, Result<EvalStatus, ErrorKindView>);

/// The instructions of the code running
pub open spec fn code_of(st: VmState) -> Seq<Opcode> {
    match st.objs[st.code as int] {
        ObjectView::ByteCode(code, _) => code,
        _ => Seq::empty(),
    }
}

/// The literals of the code running
pub open spec fn literals_of(st: VmState) -> Seq<TaggedPtr> {
    match st.objs[st.code as int] {
        ObjectView::ByteCode(_, literals) => literals,
        _ => Seq::empty(),
    }
}

/// The code address of the function at the address
pub open spec fn function_code(objs: Seq<ObjectView>, f: nat) -> nat {
    match objs[f as int] {
        ObjectView::Function(_, _, code) => code,
        _ => 0,
    }
}

/// The value in a register of the current window
pub open spec fn reg(st: VmState, r: nat) -> TaggedPtr {
    st.stack[(st.stack_base + r) as int]
}

/// Write a register of the current window
pub open spec fn set_reg(st: VmState, r: nat, v: TaggedPtr) -> VmState {
    VmState { stack: st.stack.update((st.stack_base + r) as int, v), ..st }
}

/// Intern the symbol `true`, giving the pointer to it
pub open spec fn intern_true(st: VmState) -> (VmState, TaggedPtr) {
    let (syms, t) = spec_intern(st.syms, "true"@);
    (VmState { syms, ..st }, TaggedPtr::Symbol(t as usize))
}

/// Set a register to `true` or nil
pub open spec fn set_bool(st: VmState, dest: nat, b: bool) -> VmState {
    if b {
        let (s1, t) = intern_true(st);
        set_reg(s1, dest, t)
    } else {
        set_reg(st, dest, TaggedPtr::Nil)
    }
}

/// Continue with the next instruction
pub open spec fn pending(st: VmState) -> Result<(VmState, EvalStatus), ErrorKindView> {
    Ok((st, EvalStatus::Pending))
}

/// Return from the current function: its result goes to register 0, which
/// is the caller's destination register, and the caller's frame resumes; the
/// last frame returning ends evaluation with its result.
pub open spec fn op_return(st: VmState, r: nat) -> Result<(VmState, EvalStatus), ErrorKindView> {
    if st.frames.len() == 0 {
        Err(ErrorKindView::BoundsError)
    } else {
        let s1 = set_reg(st, 0, reg(st, r));
        let s2 = VmState { frames: s1.frames.drop_last(), ..s1 };
        if s2.frames.len() == 0 {
            Ok((s2, EvalStatus::Return(reg(s2, 0))))
        } else {
            let frame = s2.frames.last();
            pending(
                VmState {
                    stack_base: frame.base as nat,
                    code: function_code(s2.objs, frame.function as nat),
                    ip: frame.ip as nat,
                    ..s2
                },
            )
        }
    }
}

/// The message of a global that is not bound
pub open spec fn unbound_message(name: Seq<char>) -> Seq<char> {
    "Symbol "@ + name + " is not bound to a value"@
}

/// Load the value bound to the global the name register holds
pub open spec fn op_load_global(st: VmState, dest: nat, name: nat) -> Result<(VmState, EvalStatus), ErrorKindView> {
    let key = reg(st, name);
    if key is Symbol {
        match spec_find_entry(st.syms, st.globals, key) {
            Ok((slot, _)) => if !(st.globals[slot as int].key is Nil) {
                pending(set_reg(st, dest, st.globals[slot as int].value))
            } else {
                Err(ErrorKindView::EvalError(unbound_message(st.syms[key->Symbol_0 as int])))
            },
            Err(_) => Err(ErrorKindView::EvalError(unbound_message(st.syms[key->Symbol_0 as int]))),
        }
    } else {
        Err(ErrorKindView::EvalError("Cannot lookup global for non-symbol type"@))
    }
}

/// Bind the global the name register holds to the value of the source register
pub open spec fn op_store_global(st: VmState, src: nat, name: nat) -> Result<(VmState, EvalStatus), ErrorKindView> {
    let key = reg(st, name);
    if key is Symbol {
        match spec_find_entry(st.syms, st.globals, key) {
            Ok((slot, hash)) => pending(
                VmState {
                    globals: st.globals.update(slot as int, DictItem::bound(key, reg(st, src), hash)),
                    ..st
                },
            ),
            Err(k) => Err(k),
        }
    } else {
        Err(ErrorKindView::EvalError("Cannot bind global to non-symbol type"@))
    }
}

/// The registers of the current window from `start` on, `n` of them
pub open spec fn window_slice(st: VmState, start: nat, n: nat) -> Seq<TaggedPtr> {
    st.stack.subrange((st.stack_base + start) as int, (st.stack_base + start + n) as int)
}

/// Enter a function: the current frame keeps the instruction pointer to
/// come back to, and a new frame with its register window starting at the
/// destination register runs the function's code from its start. The stack
/// grows to hold the new window.
pub open spec fn new_call_frame(st: VmState, function: nat, dest: nat) -> Result<(VmState, EvalStatus), ErrorKindView> {
    let new_base = st.stack_base + dest;
    if st.frames.len() == 0 {
        Err(ErrorKindView::BoundsError)
    } else if st.frames.len() + 1 >= STACK_LIMIT || new_base + WINDOW_SIZE >= STACK_LIMIT {
        Err(ErrorKindView::BadAllocation)
    } else {
        let last = st.frames.len() - 1;
        let frames = st.frames.update(last, CallFrame { ip: st.ip as ArraySize, ..st.frames[last] }).push(
            CallFrame { function: function as usize, ip: 0, base: new_base as ArraySize },
        );
        let stack = if st.stack.len() < new_base + WINDOW_SIZE {
            st.stack + Seq::new((new_base + WINDOW_SIZE - st.stack.len()) as nat, |i: int| TaggedPtr::Nil)
        } else {
            st.stack
        };
        pending(
            VmState { frames, stack, stack_base: new_base, code: function_code(st.objs, function), ip: 0, ..st },
        )
    }
}

/// The message of a call with too many arguments
pub open spec fn arity_message(kind: Seq<char>, callee: Seq<char>, arity: nat, arg_count: nat) -> Seq<char> {
    kind + " "@ + callee + " expected "@ + int_to_decimal(arity as int) + " arguments, got "@ + int_to_decimal(
        arg_count as int,
    )
}

/// Call the value in the function register with the `arg_count` arguments in
/// the registers after the destination register. Too few arguments give a
/// partial application, too many an error. Calling a partial application
/// with the rest of its arguments moves the new arguments up past the
/// applied ones, copies those in, and calls its function.
pub open spec fn op_call(st: VmState, function: nat, dest: nat, arg_count: nat) -> Result<
    (VmState, EvalStatus),
    ErrorKindView,
> {
    let binding = reg(st, function);
    match binding {
        TaggedPtr::Function(f) => match st.objs[f as int] {
            ObjectView::Function(_, params, _) => {
                let arity = params.len();
                if arg_count < arity {
                    if dest + 1 + arg_count > WINDOW_SIZE {
                        Err(ErrorKindView::BoundsError)
                    } else {
                        let partial = ObjectView::Partial(
                            (arity - arg_count) as nat,
                            arg_count,
                            window_slice(st, dest + 1, arg_count),
                            f as nat,
                        );
                        let p = TaggedPtr::Partial(st.objs.len() as usize);
                        pending(set_reg(VmState { objs: st.objs.push(partial), ..st }, dest, p))
                    }
                } else if arg_count > arity {
                    Err(
                        ErrorKindView::EvalError(
                            arity_message("Function"@, print_ptr(st.syms, st.objs, binding), arity, arg_count),
                        ),
                    )
                } else {
                    new_call_frame(st, f as nat, dest)
                }
            },
            _ => Err(ErrorKindView::EvalError("Type is not callable"@)),
        },
        TaggedPtr::Partial(p) => match st.objs[p as int] {
            ObjectView::Partial(arity, used, args, func) => {
                if arg_count == 0 {
                    pending(set_reg(st, dest, binding))
                } else if arg_count < arity {
                    if dest + 1 + arg_count > WINDOW_SIZE {
                        Err(ErrorKindView::BoundsError)
                    } else {
                        let partial = ObjectView::Partial(
                            (arity - arg_count) as nat,
                            used + arg_count,
                            args + window_slice(st, dest + 1, arg_count),
                            func,
                        );
                        let q = TaggedPtr::Partial(st.objs.len() as usize);
                        pending(set_reg(VmState { objs: st.objs.push(partial), ..st }, dest, q))
                    }
                } else if arg_count > arity {
                    Err(
                        ErrorKindView::EvalError(
                            arity_message("Partial"@, print_ptr(st.syms, st.objs, binding), arity, arg_count),
                        ),
                    )
                } else if dest + 1 + used + arg_count > WINDOW_SIZE {
                    Err(ErrorKindView::BoundsError)
                } else {
                    let base = st.stack_base;
                    let from = base + dest + 1;
                    let to = from + used;
                    let stack = Seq::new(
                        st.stack.len(),
                        |k: int|
                            if to <= k < to + arg_count {
                                st.stack[k - used]
                            } else if from <= k < from + used {
                                args[k - from]
                            } else {
                                st.stack[k]
                            },
                    );
                    new_call_frame(VmState { stack, ..st }, func, dest)
                }
            },
            _ => Err(ErrorKindView::EvalError("Type is not callable"@)),
        },
        _ => Err(ErrorKindView::EvalError("Type is not callable"@)),
    }
}

/// Copy a register of an enclosing frame, `frame_offset` frames back, into
/// the current window
pub open spec fn op_load_nonlocal(st: VmState, dest: nat, src: nat, frame_offset: nat) -> Result<
    (VmState, EvalStatus),
    ErrorKindView,
> {
    if frame_offset >= st.frames.len() {
        Err(ErrorKindView::BoundsError)
    } else {
        let frame = st.frames[st.frames.len() - 1 - frame_offset];
        let full_src = frame.base + src;
        if full_src >= st.stack.len() {
            Err(ErrorKindView::BoundsError)
        } else {
            pending(set_reg(st, dest, st.stack[full_src]))
        }
    }
}

/// Carry out one instruction, the instruction pointer having moved past it
pub open spec fn step_op(st: VmState, op: Opcode) -> Result<(VmState, EvalStatus), ErrorKindView> {
    match op {
        Opcode::NoOp => pending(st),
        Opcode::Return { reg } => op_return(st, reg as nat),
        Opcode::LoadLiteral { dest, literal_id } => if literal_id < literals_of(st).len() {
            pending(set_reg(st, dest as nat, literals_of(st)[literal_id as int]))
        } else {
            Err(ErrorKindView::BoundsError)
        },
        Opcode::IsNil { dest, test } => pending(set_bool(st, dest as nat, reg(st, test as nat) is Nil)),
        Opcode::IsAtom { dest, test } => pending(
            set_bool(st, dest as nat, !(reg(st, test as nat) is Pair || reg(st, test as nat) is Nil)),
        ),
        Opcode::FirstOfPair { dest, reg: r } => match reg(st, r as nat) {
            TaggedPtr::Pair(i) => pending(set_reg(st, dest as nat, st.objs[i as int]->Pair_0)),
            TaggedPtr::Nil => pending(set_reg(st, dest as nat, TaggedPtr::Nil)),
            _ => Err(ErrorKindView::EvalError("Parameter to FirstOfPair is not a list"@)),
        },
        Opcode::SecondOfPair { dest, reg: r } => match reg(st, r as nat) {
            TaggedPtr::Pair(i) => pending(set_reg(st, dest as nat, st.objs[i as int]->Pair_1)),
            TaggedPtr::Nil => pending(set_reg(st, dest as nat, TaggedPtr::Nil)),
            _ => Err(ErrorKindView::EvalError("Parameter to SecondOfPair is not a list"@)),
        },
        Opcode::MakePair { dest, reg1, reg2 } => {
            let pair = ObjectView::Pair(reg(st, reg1 as nat), reg(st, reg2 as nat));
            let p = TaggedPtr::Pair(st.objs.len() as usize);
            pending(set_reg(VmState { objs: st.objs.push(pair), ..st }, dest as nat, p))
        },
        Opcode::IsIdentical { dest, test1, test2 } => pending(
            set_bool(st, dest as nat, reg(st, test1 as nat) == reg(st, test2 as nat)),
        ),
        Opcode::Jump { offset } => pending(VmState { ip: (st.ip as int + offset as int) as ArraySize as nat, ..st }),
        Opcode::JumpIfTrue { test, offset } => {
            let (s1, t) = intern_true(st);
            if reg(s1, test as nat) == t {
                pending(VmState { ip: (s1.ip as int + offset as int) as ArraySize as nat, ..s1 })
            } else {
                pending(s1)
            }
        },
        Opcode::JumpIfNotTrue { test, offset } => {
            let (s1, t) = intern_true(st);
            if reg(s1, test as nat) != t {
                pending(VmState { ip: (s1.ip as int + offset as int) as ArraySize as nat, ..s1 })
            } else {
                pending(s1)
            }
        },
        Opcode::LoadNil { dest } => pending(set_reg(st, dest as nat, TaggedPtr::Nil)),
        Opcode::LoadGlobal { dest, name } => op_load_global(st, dest as nat, name as nat),
        Opcode::StoreGlobal { src, name } => op_store_global(st, src as nat, name as nat),
        Opcode::Call { function, dest, arg_count } => op_call(st, function as nat, dest as nat, arg_count as nat),
        Opcode::LoadInteger { dest, integer } => pending(set_reg(st, dest as nat, TaggedPtr::Number(integer as isize))),
        Opcode::CopyRegister { dest, src } => pending(set_reg(st, dest as nat, reg(st, src as nat))),
        Opcode::LoadNonLocal { dest, src, frame_offset } => op_load_nonlocal(
            st,
            dest as nat,
            src as nat,
            frame_offset as nat,
        ),
        _ => Err(ErrorKindView::BoundsError),
    }
}

/// Run the next instruction: fetch it, move the instruction pointer past it
/// and carry it out. On an error the state is the one after the fetch.
pub open spec fn spec_step(st: VmState) -> StepResult {
    if st.ip >= code_of(st).len() {
        (st, Err(ErrorKindView::BoundsError))
    } else {
        let s1 = VmState { ip: st.ip + 1, ..st };
        match step_op(s1, code_of(st)[st.ip as int]) {
            Ok((s2, status)) => (s2, Ok(status)),
            Err(k) => (s1, Err(k)),
        }
    }
}

/// The lines of the traceback of an error: a heading where the error is
/// more than one call frame deep, then a line for every frame but the first
pub open spec fn traceback_lines(st: VmState) -> Seq<Seq<char>> {
    let lines = Seq::new(
        (if st.frames.len() > 0 { st.frames.len() - 1 } else { 0 }) as nat,
        |k: int| "  "@ + ("in "@ + print_ptr(st.syms, st.objs, TaggedPtr::Function(st.frames[k + 1].function))),
    );
    if st.frames.len() > 1 {
        seq!["Error traceback:"@] + lines
    } else {
        lines
    }
}

/// Unwind after an error by clearing all frames
pub open spec fn unwind(st: VmState) -> VmState {
    VmState { frames: Seq::empty(), stack_base: 0, ..st }
}

/// Run up to `n` instructions: until one returns from the last frame, or one
/// fails, which unwinds the machine and gives the error with its traceback
pub open spec fn spec_stream(st: VmState, n: nat) -> (VmState, Result<EvalStatus, (ErrorKindView, Seq<Seq<char>>)>)
    decreases n,
{
    if n == 0 {
        (st, Ok(EvalStatus::Pending))
    } else {
        let (s1, r) = spec_step(st);
        match r {
            Err(k) => (unwind(s1), Err((k, traceback_lines(s1)))),
            Ok(EvalStatus::Return(v)) => (s1, Ok(EvalStatus::Return(v))),
            Ok(EvalStatus::Pending) => spec_stream(s1, (n - 1) as nat),
        }
    }
}

/// Run on from the current instruction in streams of instructions, for at
/// most `budget` streams, until a result
pub open spec fn spec_run(st: VmState, budget: nat) -> (VmState, Result<TaggedPtr, (ErrorKindView, Seq<Seq<char>>)>)
    decreases budget,
{
    if budget == 0 {
        (st, Err((ErrorKindView::EvalError("Unexpected end of evaluation"@), Seq::empty())))
    } else {
        let (s1, r) = spec_stream(st, STREAM_STEPS as nat);
        match r {
            Ok(EvalStatus::Return(v)) => (s1, Ok(v)),
            Ok(EvalStatus::Pending) => spec_run(s1, (budget - 1) as nat),
            Err(e) => (s1, Err(e)),
        }
    }
}

/// Evaluate a function: push its frame as the outermost one and run its
/// whole code from its start until a result, for practically unbounded time
pub open spec fn spec_quick_vm_eval(st: VmState, function: nat) -> (
    VmState,
    Result<TaggedPtr, (ErrorKindView, Seq<Seq<char>>)>,
) {
    if st.frames.len() + 1 >= STACK_LIMIT {
        (st, Err((ErrorKindView::BadAllocation, Seq::empty())))
    } else {
        let s1 = VmState {
            frames: st.frames.push(CallFrame { function: function as usize, ip: 0, base: 0 }),
            code: function_code(st.objs, function),
            ip: 0,
            ..st
        };
        spec_run(s1, u64::MAX as nat)
    }
}

/// The set of data structures comprising an execution thread: the call
/// frames, the register stack, the global bindings, the instruction stream,
/// the base of the current register window, and the traceback of the last
/// error
pub struct Thread {
    frames: Array<CallFrame>,
    stack: Array<TaggedPtr>,
    globals: Dict,
    instr: InstructionStream,
    stack_base: ArraySize,
    traceback: Vec<String>,
}

/// The strings as character sequences
pub open spec fn strings_view(v: Seq<String>) -> Seq<Seq<char>> {
    v.map_values(|s: String| s@)
}

impl Thread {
    /// The model of the machine in the given memory
    pub closed spec fn state(&self, mem: &Memory) -> VmState {
        VmState {
            frames: self.frames@,
            stack: self.stack@,
            globals: self.globals@,
            code: self.instr.instructions as nat,
            ip: self.instr.ip as nat,
            stack_base: self.stack_base as nat,
            syms: mem.syms@,
            objs: mem.object_views(),
        }
    }

    /// The traceback of the last error, one line per string
    pub closed spec fn spec_traceback(&self) -> Seq<Seq<char>> {
        strings_view(self.traceback@)
    }

    /// Well-formedness in the memory: the arrays are well-formed, the
    /// current register window lies within the stack, and every frame,
    /// register, global binding and the code running refer to valid objects
    pub closed spec fn wf(&self, mem: &Memory) -> bool {
        &&& self.frames.wf()
        &&& self.stack.wf()
        &&& self.globals.wf()
        &&& self.stack_base + WINDOW_SIZE <= self.stack@.len()
        &&& mem.is_bytecode(self.instr.instructions as int)
        &&& forall|k: int| 0 <= k < self.stack@.len() ==> mem.valid_ptr(#[trigger] self.stack@[k])
        &&& forall|k: int| 0 <= k < self.frames@.len() ==> mem.valid_ptr(TaggedPtr::Function(#[trigger] self.frames@[k].function))
            && self.frames@[k].base + WINDOW_SIZE <= self.stack@.len()
        &&& forall|k: int| 0 <= k < self.globals@.len() ==> mem.valid_ptr(#[trigger] self.globals@[k].key) && mem.valid_ptr(self.globals@[k].value)
        &&& crate::dict::hashes_match(self.globals@, mem.syms@)
    }

    /// The number of call frames
    pub closed spec fn frame_count(&self) -> nat {
        self.frames@.len()
    }

    /// Extending memory keeps the thread well-formed
    /// The state in one memory is the state in another but for the symbols and objects
    pub proof fn lemma_state_in(&self, mem: &Memory, other: &Memory)
        ensures
            self.state(mem) == (VmState { syms: mem.syms@, objs: mem.object_views(), ..self.state(other) }),
    {
    }

    pub proof fn lemma_wf_extends(&self, mem: &Memory, old_mem: &Memory)
        requires
            self.wf(old_mem),
            mem.extends(old_mem),
        ensures
            self.wf(mem),
    {
        assert(mem.objects@[self.instr.instructions as int] == old_mem.objects@[self.instr.instructions as int]);
        assert forall|k: int| 0 <= k < self.stack@.len() implies mem.valid_ptr(#[trigger] self.stack@[k]) by {
            mem.lemma_valid_extends(old_mem, self.stack@[k]);
        }
        assert forall|k: int| 0 <= k < self.frames@.len() implies mem.valid_ptr(TaggedPtr::Function(#[trigger] self.frames@[k].function))
            && self.frames@[k].base + WINDOW_SIZE <= self.stack@.len() by {
            mem.lemma_valid_extends(old_mem, TaggedPtr::Function(self.frames@[k].function));
        }
        assert forall|k: int| 0 <= k < self.globals@.len() implies mem.valid_ptr(#[trigger] self.globals@[k].key) && mem.valid_ptr(self.globals@[k].value) by {
            mem.lemma_valid_extends(old_mem, self.globals@[k].key);
            mem.lemma_valid_extends(old_mem, self.globals@[k].value);
        }
        crate::dict::lemma_hashes_match_extends(self.globals@, old_mem.syms@, mem.syms@);
    }

    /// Allocate a thread: no call frames, a stack of one window of nil
    /// registers, an empty table of globals and a blank code object to run
    pub fn allocate(mem: &mut Memory) -> (r: Result<Thread, RuntimeError>)
        requires
            old(mem).wf(),
        ensures
            final(mem).wf(),
            final(mem).extends(old(mem)),
            r matches Ok(t) && t.wf(final(mem)) && t.state(final(mem)) == (VmState {
                frames: Seq::empty(),
                stack: Seq::new(WINDOW_SIZE as nat, |i: int| TaggedPtr::Nil),
                globals: Seq::new(GLOBALS_CAPACITY as nat, |i: int| DictItem::blank_spec()),
                code: old(mem).objects@.len(),
                ip: 0,
                stack_base: 0,
                syms: old(mem).syms@,
                objs: old(mem).object_views().push(ObjectView::ByteCode(Seq::empty(), Seq::empty())),
            }) && t.spec_traceback() == Seq::<Seq<char>>::empty(),
    {
        // create an empty stack frame array
        let frames: Array<CallFrame> = Array::with_capacity(32);
        // create a minimal value stack
        let mut stack: Array<TaggedPtr> = Array::with_capacity(WINDOW_SIZE);
        let _ = stack.fill(WINDOW_SIZE, TaggedPtr::Nil);
        assert(stack@ =~= Seq::new(WINDOW_SIZE as nat, |i: int| TaggedPtr::Nil));
        // create an empty globals dict
        let globals = Dict::with_capacity(GLOBALS_CAPACITY);
        // create an empty instruction stream
        let ghost mem0 = *mem;
        let blank_code = crate::bytecode::ByteCode::new();
        let code = mem.alloc_bytecode(blank_code);
        proof {
            mem.lemma_views_push(&mem0, Object::ByteCode(blank_code));
        }
        let instr = InstructionStream::allocate(code);
        let t = Thread { frames, stack, globals, instr, stack_base: 0, traceback: Vec::new() };
        Ok(t)
    }
}

impl Thread {
    /// The value in a register of the current window
    fn get_reg(&self, r: Register) -> (v: TaggedPtr)
        requires
            self.stack.wf(),
            self.stack_base + WINDOW_SIZE <= self.stack@.len(),
        ensures
            v == self.stack@[self.stack_base + r],
    {
        proof {
            self.stack.lemma_wf_len();
        }
        match self.stack.get(self.stack_base + r as ArraySize) {
            Ok(v) => v,
            Err(_) => TaggedPtr::Nil,
        }
    }

    /// Write a register of the current window
    fn set_reg(&mut self, r: Register, v: TaggedPtr)
        requires
            old(self).stack.wf(),
            old(self).stack_base + WINDOW_SIZE <= old(self).stack@.len(),
        ensures
            final(self).stack.wf(),
            final(self).stack@ == old(self).stack@.update(old(self).stack_base + r, v),
            final(self).frames == old(self).frames,
            final(self).globals == old(self).globals,
            final(self).instr == old(self).instr,
            final(self).stack_base == old(self).stack_base,
            final(self).traceback == old(self).traceback,
    {
        proof {
            self.stack.lemma_wf_len();
        }
        let _ = self.stack.set(self.stack_base + r as ArraySize, v);
    }

    /// Writing a valid value into a register keeps the thread well-formed
    proof fn lemma_set_reg_wf(&self, old_thread: &Thread, mem: &Memory, r: nat, v: TaggedPtr)
        requires
            old_thread.wf(mem),
            mem.valid_ptr(v),
            r < WINDOW_SIZE,
            self.stack.wf(),
            self.stack@ == old_thread.stack@.update(old_thread.stack_base + r, v),
            self.frames == old_thread.frames,
            self.globals == old_thread.globals,
            self.instr == old_thread.instr,
            self.stack_base == old_thread.stack_base,
        ensures
            self.wf(mem),
            self.state(mem) == set_reg(old_thread.state(mem), r, v),
    {
        assert forall|k: int| 0 <= k < self.stack@.len() implies mem.valid_ptr(#[trigger] self.stack@[k]) by {
            if k != old_thread.stack_base + r {
                assert(self.stack@[k] == old_thread.stack@[k]);
            }
        }
    }

    /// Set a register to `true` or nil
    fn exec_set_bool(&mut self, mem: &mut Memory, dest: Register, b: bool)
        requires
            old(self).wf(old(mem)),
            old(mem).wf(),
        ensures
            final(mem).wf(),
            final(mem).extends(old(mem)),
            final(self).wf(final(mem)),
            final(self).state(final(mem)) == set_bool(old(self).state(old(mem)), dest as nat, b),
            final(self).traceback == old(self).traceback,
    {
        let ghost old_thread = *self;
        if b {
            let ghost mem0 = *mem;
            let t = mem.lookup_sym("true");
            proof {
                old_thread.lemma_wf_extends(mem, &mem0);
            }
            self.set_reg(dest, t);
            proof {
                self.lemma_set_reg_wf(&old_thread, mem, dest as nat, t);
            }
        } else {
            proof {
                mem.lemma_extends_refl();
            }
            self.set_reg(dest, TaggedPtr::Nil);
            proof {
                self.lemma_set_reg_wf(&old_thread, mem, dest as nat, TaggedPtr::Nil);
            }
        }
    }
}

impl Thread {
    /// Return from the current function
    #[verifier::spinoff_prover]
    fn exec_return(&mut self, mem: &Memory, r: Register) -> (res: Result<EvalStatus, RuntimeError>)
        requires
            old(self).wf(mem),
            mem.wf(),
        ensures
            final(self).wf(mem),
            final(self).traceback == old(self).traceback,
            match op_return(old(self).state(mem), r as nat) {
                Ok((st, status)) => res == Ok::<EvalStatus, RuntimeError>(status) && final(self).state(mem) == st,
                Err(k) => res matches Err(e) && e@.kind == k && e@.pos is None && final(self).state(mem) == old(self).state(mem),
            },
            res matches Ok(EvalStatus::Return(v)) ==> mem.valid_ptr(v),
    {
        proof {
            self.frames.lemma_wf_len();
        }
        if self.frames.length() == 0 {
            return Err(RuntimeError::new(ErrorKind::BoundsError));
        }
        let ghost old_thread = *self;
        // write the return value to register 0
        let result = self.get_reg(r);
        self.set_reg(0, result);
        proof {
            self.lemma_set_reg_wf(&old_thread, mem, 0, result);
        }
        // remove this function's stack frame
        let _ = self.frames.pop();
        assert forall|k: int| 0 <= k < self.frames@.len() implies mem.valid_ptr(TaggedPtr::Function(#[trigger] self.frames@[k].function))
            && self.frames@[k].base + WINDOW_SIZE <= self.stack@.len() by {
            assert(self.frames@[k] == old_thread.frames@[k]);
            assert(mem.valid_ptr(TaggedPtr::Function(old_thread.frames@[k].function)));
        }
        // if we just returned from the last stack frame, program evaluation is complete
        if self.frames.length() == 0 {
            return Ok(EvalStatus::Return(self.get_reg(0)));
        }
        // otherwise restore the previous stack frame settings
        let frame = match self.frames.top() {
            Ok(frame) => frame,
            Err(e) => return Err(e),
        };
        assert(self.frames@[self.frames@.len() - 1] == frame);
        self.stack_base = frame.base;
        let f = mem.get_function(frame.function);
        proof {
            assert(mem.object_wf(frame.function as int));
        }
        self.instr.switch_frame(f.code, frame.ip);
        assert(self.globals == old_thread.globals);
        Ok(EvalStatus::Pending)
    }

    /// Load the value bound to the global the name register holds
    fn exec_load_global(&mut self, mem: &Memory, dest: Register, name: Register) -> (res: Result<EvalStatus, RuntimeError>)
        requires
            old(self).wf(mem),
            mem.wf(),
        ensures
            final(self).wf(mem),
            final(self).traceback == old(self).traceback,
            match op_load_global(old(self).state(mem), dest as nat, name as nat) {
                Ok((st, status)) => res == Ok::<EvalStatus, RuntimeError>(status) && final(self).state(mem) == st,
                Err(k) => res matches Err(e) && e@.kind == k && e@.pos is None && final(self).state(mem) == old(self).state(mem),
            },
    {
        let key = self.get_reg(name);
        match key {
            TaggedPtr::Symbol(_) => {
                proof {
                    crate::dict::lemma_find_entry_in_range(mem.syms@, self.globals@, key);
                }
                match self.globals.lookup(mem, key) {
                    Ok(value) => {
                        let ghost old_thread = *self;
                        self.set_reg(dest, value);
                        proof {
                            self.lemma_set_reg_wf(&old_thread, mem, dest as nat, value);
                        }
                        Ok(EvalStatus::Pending)
                    },
                    Err(_) => {
                        let mut msg = String::from_str("Symbol ");
                        msg.append(mem.symbol_name(key));
                        msg.append(" is not bound to a value");
                        Err(err_eval(msg.as_str()))
                    },
                }
            },
            _ => Err(err_eval("Cannot lookup global for non-symbol type")),
        }
    }

    /// Bind the global the name register holds to the value of the source register
    fn exec_store_global(&mut self, mem: &Memory, src: Register, name: Register) -> (res: Result<EvalStatus, RuntimeError>)
        requires
            old(self).wf(mem),
            mem.wf(),
        ensures
            final(self).wf(mem),
            final(self).traceback == old(self).traceback,
            match op_store_global(old(self).state(mem), src as nat, name as nat) {
                Ok((st, status)) => res == Ok::<EvalStatus, RuntimeError>(status) && final(self).state(mem) == st,
                Err(k) => res matches Err(e) && e@.kind == k && e@.pos is None && final(self).state(mem) == old(self).state(mem),
            },
    {
        let key = self.get_reg(name);
        match key {
            TaggedPtr::Symbol(_) => {
                let value = self.get_reg(src);
                let ghost old_globals = self.globals@;
                proof {
                    crate::dict::lemma_find_entry_in_range(mem.syms@, self.globals@, key);
                }
                match self.globals.assoc(mem, key, value) {
                    Ok(()) => {
                        assert forall|k: int| 0 <= k < self.globals@.len() implies mem.valid_ptr(#[trigger] self.globals@[k].key)
                            && mem.valid_ptr(self.globals@[k].value) by {
                            if self.globals@[k] != old_globals[k] {
                                assert(self.globals@[k].key == key);
                            }
                        }
                        Ok(EvalStatus::Pending)
                    },
                    Err(e) => Err(e),
                }
            },
            _ => Err(err_eval("Cannot bind global to non-symbol type")),
        }
    }

    /// Copy a register of an enclosing frame into the current window
    fn exec_load_nonlocal(&mut self, mem: &Memory, dest: Register, src: Register, frame_offset: u8) -> (res: Result<
        EvalStatus,
        RuntimeError,
    >)
        requires
            old(self).wf(mem),
            mem.wf(),
        ensures
            final(self).wf(mem),
            final(self).traceback == old(self).traceback,
            match op_load_nonlocal(old(self).state(mem), dest as nat, src as nat, frame_offset as nat) {
                Ok((st, status)) => res == Ok::<EvalStatus, RuntimeError>(status) && final(self).state(mem) == st,
                Err(k) => res matches Err(e) && e@.kind == k && e@.pos is None && final(self).state(mem) == old(self).state(mem),
            },
    {
        proof {
            self.frames.lemma_wf_len();
            self.stack.lemma_wf_len();
        }
        let len = self.frames.length();
        if frame_offset as ArraySize >= len {
            return Err(RuntimeError::new(ErrorKind::BoundsError));
        }
        let frame = match self.frames.get(len - 1 - frame_offset as ArraySize) {
            Ok(frame) => frame,
            Err(e) => return Err(e),
        };
        let full_src: u64 = frame.base as u64 + src as u64;
        if full_src >= self.stack.length() as u64 {
            return Err(RuntimeError::new(ErrorKind::BoundsError));
        }
        let value = match self.stack.get(full_src as ArraySize) {
            Ok(v) => v,
            Err(e) => return Err(e),
        };
        let ghost old_thread = *self;
        self.set_reg(dest, value);
        proof {
            self.lemma_set_reg_wf(&old_thread, mem, dest as nat, value);
        }
        Ok(EvalStatus::Pending)
    }
}

impl Thread {
    /// Enter a function whose register window starts at the destination register
    fn new_call_frame(&mut self, mem: &Memory, function: usize, dest: Register) -> (res: Result<EvalStatus, RuntimeError>)
        requires
            old(self).wf(mem),
            mem.wf(),
            mem.valid_ptr(TaggedPtr::Function(function)),
        ensures
            final(self).wf(mem),
            final(self).traceback == old(self).traceback,
            match new_call_frame(old(self).state(mem), function as nat, dest as nat) {
                Ok((st, status)) => res == Ok::<EvalStatus, RuntimeError>(status) && final(self).state(mem) == st,
                Err(k) => res matches Err(e) && e@.kind == k && e@.pos is None && final(self).state(mem) == old(self).state(mem),
            },
            res matches Ok(_) ==> final(self).frames@.len() > 0,
    {
        proof {
            self.frames.lemma_wf_len();
            self.stack.lemma_wf_len();
        }
        let len = self.frames.length();
        if len == 0 {
            return Err(RuntimeError::new(ErrorKind::BoundsError));
        }
        let new_base: u64 = self.stack_base as u64 + dest as u64;
        if len as u64 + 1 >= STACK_LIMIT as u64 || new_base + WINDOW_SIZE as u64 >= STACK_LIMIT as u64 {
            return Err(RuntimeError::new(ErrorKind::BadAllocation));
        }
        let new_base = new_base as ArraySize;
        let ghost old_thread = *self;
        // Modify the current call frame, saving the return ip
        let current_frame_ip = self.instr.get_next_ip();
        let last = match self.frames.get(len - 1) {
            Ok(frame) => frame,
            Err(e) => return Err(e),
        };
        let _ = self.frames.set(len - 1, CallFrame { ip: current_frame_ip, ..last });
        // Create a new call frame, pushing it to the frame stack
        proof {
            self.frames.lemma_push_fits();
        }
        let _ = self.frames.push(CallFrame::new(function, 0, new_base));
        // Update the instruction stream to point to the new function
        let f = mem.get_function(function);
        proof {
            assert(mem.object_wf(function as int));
        }
        self.stack_base = new_base;
        self.instr.switch_frame(f.code, 0);
        // Ensure the stack has a full register window allocated
        let _ = self.stack.fill(new_base + WINDOW_SIZE, TaggedPtr::Nil);
        proof {
            let old_state = old_thread.state(mem);
            if old_state.stack.len() >= new_base + WINDOW_SIZE {
                assert(self.stack@ =~= old_state.stack);
            } else {
                assert(self.stack@ =~= old_state.stack + Seq::new(
                    (new_base + WINDOW_SIZE - old_state.stack.len()) as nat,
                    |i: int| TaggedPtr::Nil,
                ));
            }
            assert forall|k: int| 0 <= k < self.stack@.len() implies mem.valid_ptr(#[trigger] self.stack@[k]) by {
                if k < old_thread.stack@.len() {
                    assert(self.stack@[k] == old_thread.stack@[k]);
                }
            }
            assert forall|k: int| 0 <= k < self.frames@.len() implies mem.valid_ptr(TaggedPtr::Function(#[trigger] self.frames@[k].function))
                && self.frames@[k].base + WINDOW_SIZE <= self.stack@.len() by {
                if k < len {
                    assert(self.frames@[k].function == old_thread.frames@[k].function);
                    assert(self.frames@[k].base == old_thread.frames@[k].base);
                    assert(mem.valid_ptr(TaggedPtr::Function(old_thread.frames@[k].function)));
                }
            }
        }
        Ok(EvalStatus::Pending)
    }

    /// The registers of the current window from `start` on, `n` of them
    fn window_args(&self, start: ArraySize, n: u8) -> (v: Vec<TaggedPtr>)
        requires
            self.stack.wf(),
            self.stack_base + WINDOW_SIZE <= self.stack@.len(),
            start + n <= WINDOW_SIZE,
        ensures
            v@ == self.stack@.subrange((self.stack_base + start) as int, (self.stack_base + start + n) as int),
    {
        proof {
            self.stack.lemma_wf_len();
        }
        let mut v: Vec<TaggedPtr> = Vec::new();
        let mut k: ArraySize = 0;
        while k < n as ArraySize
            invariant
                self.stack.wf(),
                self.stack_base + WINDOW_SIZE <= self.stack@.len(),
                self.stack@.len() <= ArraySize::MAX,
                start + n <= WINDOW_SIZE,
                k <= n,
                v@ == self.stack@.subrange((self.stack_base + start) as int, (self.stack_base + start + k) as int),
            decreases n - k,
        {
            let item = match self.stack.get(self.stack_base + start + k) {
                Ok(item) => item,
                Err(_) => TaggedPtr::Nil,
            };
            v.push(item);
            assert(v@ =~= self.stack@.subrange((self.stack_base + start) as int, (self.stack_base + start + k + 1) as int));
            k = k + 1;
        }
        v
    }
}

/// The message of a call with too many arguments
fn arity_error(mem: &Memory, kind: &str, binding: TaggedPtr, arity: u8, arg_count: u8) -> (e: RuntimeError)
    requires
        mem.wf(),
        mem.valid_ptr(binding),
    ensures
        e@.kind == ErrorKindView::EvalError(
            arity_message(kind@, print_ptr(mem.syms@, mem.object_views(), binding), arity as nat, arg_count as nat),
        ),
        e@.pos is None,
{
    let mut msg = String::from_str(kind);
    msg.append(" ");
    let callee = crate::printer::print(mem, binding);
    msg.append(callee.as_str());
    msg.append(" expected ");
    crate::printer::push_decimal(&mut msg, arity as isize);
    msg.append(" arguments, got ");
    crate::printer::push_decimal(&mut msg, arg_count as isize);
    err_eval(msg.as_str())
}

impl Thread {
    /// Call a partial application with the rest of its arguments: shunt the
    /// new arguments back past the applied ones, copy those in, and call the
    /// function
    fn call_partial(&mut self, mem: &Memory, p: usize, dest: Register, arg_count: u8) -> (res: Result<EvalStatus, RuntimeError>)
        requires
            old(self).wf(mem),
            mem.wf(),
            mem.valid_ptr(TaggedPtr::Partial(p)),
            dest + 1 + mem.partial_at(p as int).used + arg_count <= WINDOW_SIZE,
            old(self).frames@.len() > 0,
            old(self).frames@.len() + 1 < STACK_LIMIT,
            old(self).stack_base + dest + WINDOW_SIZE < STACK_LIMIT,
        ensures
            final(self).wf(mem),
            final(self).traceback == old(self).traceback,
            ({
                let st = old(self).state(mem);
                let used = mem.partial_at(p as int).used as nat;
                let args = mem.partial_at(p as int).args@;
                let from = st.stack_base + dest + 1;
                let to = from + used;
                let stack = Seq::new(
                    st.stack.len(),
                    |k: int|
                        if to <= k < to + arg_count {
                            st.stack[k - used]
                        } else if from <= k < from + used {
                            args[k - from]
                        } else {
                            st.stack[k]
                        },
                );
                match new_call_frame(VmState { stack, ..st }, mem.partial_at(p as int).func as nat, dest as nat) {
                    Ok((s2, status)) => res == Ok::<EvalStatus, RuntimeError>(status) && final(self).state(mem) == s2,
                    Err(k) => false,
                }
            }),
            res matches Ok(_) ==> final(self).frames@.len() > 0,
    {
        let partial = mem.get_partial(p);
        proof {
            assert(mem.object_wf(p as int));
            partial.args.lemma_wf_len();
        }
        let used = partial.used;
        let func = partial.func;
        let from: ArraySize = dest as ArraySize + 1;
        let to: ArraySize = from + used as ArraySize;
        let ghost old_thread = *self;
        let ghost stack0 = self.stack@;
        let ghost base = self.stack_base as int;
        // Shunt call args back into the window to make space for the partially applied args
        let mut index: ArraySize = arg_count as ArraySize;
        while index > 0
            invariant
                self.wf(mem),
                self.stack_base == old_thread.stack_base,
                self.frames == old_thread.frames,
                self.globals == old_thread.globals,
                self.instr == old_thread.instr,
                self.traceback == old_thread.traceback,
                base == self.stack_base,
                self.stack@.len() == stack0.len(),
                index <= arg_count,
                to + arg_count <= WINDOW_SIZE,
                to == from + used,
                forall|k: int|
                    0 <= k < stack0.len() ==> #[trigger] self.stack@[k] == if base + to + index <= k < base + to + arg_count {
                        stack0[k - used]
                    } else {
                        stack0[k]
                    },
            decreases index,
        {
            index = index - 1;
            let v = self.get_reg((from + index) as Register);
            let ghost before = *self;
            self.set_reg((to + index) as Register, v);
            proof {
                self.lemma_set_reg_wf(&before, mem, (to + index) as nat, v);
            }
        }
        // copy args from the Partial to the register window
        let mut j: ArraySize = 0;
        while j < used as ArraySize
            invariant
                self.wf(mem),
                mem.wf(),
                mem.valid_ptr(TaggedPtr::Partial(p)),
                *partial == mem.partial_at(p as int),
                partial.args.wf(),
                partial.args@.len() == used,
                forall|k: int| 0 <= k < partial.args@.len() ==> mem.valid_ptr(#[trigger] partial.args@[k]),
                self.stack_base == old_thread.stack_base,
                self.frames == old_thread.frames,
                self.globals == old_thread.globals,
                self.instr == old_thread.instr,
                self.traceback == old_thread.traceback,
                base == self.stack_base,
                self.stack@.len() == stack0.len(),
                j <= used,
                to + arg_count <= WINDOW_SIZE,
                to == from + used,
                forall|k: int|
                    0 <= k < stack0.len() ==> #[trigger] self.stack@[k] == if base + to <= k < base + to + arg_count {
                        stack0[k - used]
                    } else if base + from <= k < base + from + j {
                        partial.args@[k - base - from]
                    } else {
                        stack0[k]
                    },
            decreases used - j,
        {
            let item = match partial.args.get(j) {
                Ok(item) => item,
                Err(_) => TaggedPtr::Nil,
            };
            let ghost before = *self;
            self.set_reg((from + j) as Register, item);
            proof {
                self.lemma_set_reg_wf(&before, mem, (from + j) as nat, item);
            }
            j = j + 1;
        }
        proof {
            let st = old_thread.state(mem);
            let args = mem.partial_at(p as int).args@;
            let stack = Seq::new(
                st.stack.len(),
                |k: int|
                    if base + to <= k < base + to + arg_count {
                        st.stack[k - used]
                    } else if base + from <= k < base + from + used {
                        args[k - (base + from)]
                    } else {
                        st.stack[k]
                    },
            );
            assert(self.stack@ =~= stack);
            assert(mem.object_wf(func as int) || true);
        }
        self.new_call_frame(mem, func, dest)
    }

    /// Call the value in the function register
    fn exec_call(&mut self, mem: &mut Memory, function: Register, dest: Register, arg_count: u8) -> (res: Result<EvalStatus, RuntimeError>)
        requires
            old(self).wf(old(mem)),
            old(mem).wf(),
        ensures
            final(mem).wf(),
            final(mem).extends(old(mem)),
            final(self).wf(final(mem)),
            final(self).traceback == old(self).traceback,
            match op_call(old(self).state(old(mem)), function as nat, dest as nat, arg_count as nat) {
                Ok((st, status)) => res == Ok::<EvalStatus, RuntimeError>(status) && final(self).state(final(mem)) == st,
                Err(k) => res matches Err(e) && e@.kind == k && e@.pos is None && final(self).state(final(mem)) == old(
                    self,
                ).state(old(mem)),
            },
    {
        proof {
            mem.lemma_extends_refl();
        }
        let binding = self.get_reg(function);
        match binding {
            TaggedPtr::Function(f) => {
                let arity = mem.get_function(f).arity;
                proof {
                    assert(mem.object_wf(f as int));
                }
                if arg_count < arity {
                    // Too few args, return a Partial object
                    if dest as ArraySize + 1 + arg_count as ArraySize > WINDOW_SIZE {
                        return Err(RuntimeError::new(ErrorKind::BoundsError));
                    }
                    let args = self.window_args(dest as ArraySize + 1, arg_count);
                    let ghost mem0 = *mem;
                    let ghost old_thread = *self;
                    let partial = match Partial::allocate(mem, f, args.as_slice()) {
                        Ok(partial) => partial,
                        Err(e) => return Err(e),
                    };
                    proof {
                        old_thread.lemma_wf_extends(mem, &mem0);
                    }
                    self.set_reg(dest, partial);
                    proof {
                        self.lemma_set_reg_wf(&old_thread, mem, dest as nat, partial);
                    }
                    Ok(EvalStatus::Pending)
                } else if arg_count > arity {
                    // Too many args, we haven't got a continuations stack (yet)
                    Err(arity_error(mem, "Function", binding, arity, arg_count))
                } else {
                    self.new_call_frame(mem, f, dest)
                }
            },
            TaggedPtr::Partial(p) => {
                let (arity, used) = {
                    let partial = mem.get_partial(p);
                    (partial.arity, partial.used)
                };
                proof {
                    assert(mem.object_wf(p as int));
                }
                if arg_count == 0 {
                    // Partial is unchanged, no args added
                    let ghost old_thread = *self;
                    self.set_reg(dest, binding);
                    proof {
                        self.lemma_set_reg_wf(&old_thread, mem, dest as nat, binding);
                    }
                    Ok(EvalStatus::Pending)
                } else if arg_count < arity {
                    // Too few args, bake a new Partial from the existing one, adding the new arguments
                    if dest as ArraySize + 1 + arg_count as ArraySize > WINDOW_SIZE {
                        return Err(RuntimeError::new(ErrorKind::BoundsError));
                    }
                    let args = self.window_args(dest as ArraySize + 1, arg_count);
                    let ghost mem0 = *mem;
                    let ghost old_thread = *self;
                    let new_partial = match Partial::alloc_clone(mem, p, args.as_slice()) {
                        Ok(partial) => partial,
                        Err(e) => return Err(e),
                    };
                    proof {
                        old_thread.lemma_wf_extends(mem, &mem0);
                    }
                    self.set_reg(dest, new_partial);
                    proof {
                        self.lemma_set_reg_wf(&old_thread, mem, dest as nat, new_partial);
                    }
                    Ok(EvalStatus::Pending)
                } else if arg_count > arity {
                    // Too many args, we haven't got a continuations stack
                    Err(arity_error(mem, "Partial", binding, arity, arg_count))
                } else if dest as ArraySize + 1 + used as ArraySize + arg_count as ArraySize > WINDOW_SIZE {
                    Err(RuntimeError::new(ErrorKind::BoundsError))
                } else {
                    proof {
                        self.frames.lemma_wf_len();
                        self.stack.lemma_wf_len();
                    }
                    if self.frames.length() == 0 {
                        return Err(RuntimeError::new(ErrorKind::BoundsError));
                    }
                    if self.frames.length() as u64 + 1 >= STACK_LIMIT as u64 || self.stack_base as u64 + dest as u64
                        + WINDOW_SIZE as u64 >= STACK_LIMIT as u64 {
                        return Err(RuntimeError::new(ErrorKind::BadAllocation));
                    }
                    self.call_partial(mem, p, dest, arg_count)
                }
            },
            _ => Err(err_eval("Type is not callable")),
        }
    }
}

impl Thread {
    /// Set a register to a valid value, keeping the thread well-formed
    fn put_reg(&mut self, mem: &Memory, dest: Register, v: TaggedPtr)
        requires
            old(self).wf(mem),
            mem.valid_ptr(v),
        ensures
            final(self).wf(mem),
            final(self).state(mem) == set_reg(old(self).state(mem), dest as nat, v),
            final(self).traceback == old(self).traceback,
    {
        let ghost old_thread = *self;
        self.set_reg(dest, v);
        proof {
            self.lemma_set_reg_wf(&old_thread, mem, dest as nat, v);
        }
    }

    /// Jump by the offset where the test register does (or does not) hold `true`
    fn exec_cond_jump(&mut self, mem: &mut Memory, test: Register, offset: i16, when_true: bool) -> (res: Result<EvalStatus, RuntimeError>)
        requires
            old(self).wf(old(mem)),
            old(mem).wf(),
        ensures
            final(mem).wf(),
            final(mem).extends(old(mem)),
            final(self).wf(final(mem)),
            final(self).traceback == old(self).traceback,
            res == Ok::<EvalStatus, RuntimeError>(EvalStatus::Pending),
            ({
                let (s1, t) = intern_true(old(self).state(old(mem)));
                final(self).state(final(mem)) == if (reg(s1, test as nat) == t) == when_true {
                    VmState { ip: (s1.ip as int + offset as int) as ArraySize as nat, ..s1 }
                } else {
                    s1
                }
            }),
    {
        let ghost mem0 = *mem;
        let true_sym = mem.lookup_sym("true");
        proof {
            self.lemma_wf_extends(mem, &mem0);
        }
        let test_val = self.get_reg(test);
        if (test_val == true_sym) == when_true {
            self.instr.jump(offset);
        }
        Ok(EvalStatus::Pending)
    }

    /// Run the next instruction
    fn eval_next_instr(&mut self, mem: &mut Memory) -> (res: Result<EvalStatus, RuntimeError>)
        requires
            old(self).wf(old(mem)),
            old(mem).wf(),
        ensures
            final(mem).wf(),
            final(mem).extends(old(mem)),
            final(self).wf(final(mem)),
            final(self).traceback == old(self).traceback,
            ({
                let (st, r) = spec_step(old(self).state(old(mem)));
                &&& final(self).state(final(mem)) == st
                &&& match r {
                    Ok(status) => res == Ok::<EvalStatus, RuntimeError>(status),
                    Err(k) => res matches Err(e) && e@.kind == k && e@.pos is None,
                }
            }),
            res matches Ok(EvalStatus::Return(v)) ==> final(mem).valid_ptr(v),
    {
        proof {
            mem.lemma_extends_refl();
            assert(mem.object_wf(self.instr.instructions as int));
        }
        let opcode = match self.instr.get_next_opcode(mem) {
            Ok(op) => op,
            Err(e) => return Err(e),
        };
        proof {
            assert(crate::bytecode::supported(opcode));
        }
        match opcode {
            Opcode::NoOp => Ok(EvalStatus::Pending),
            Opcode::Return { reg } => self.exec_return(mem, reg),
            Opcode::LoadLiteral { dest, literal_id } => {
                let literal = match self.instr.get_literal(mem, literal_id) {
                    Ok(literal) => literal,
                    Err(e) => return Err(e),
                };
                self.put_reg(mem, dest, literal);
                Ok(EvalStatus::Pending)
            },
            Opcode::IsNil { dest, test } => {
                let test_val = self.get_reg(test);
                self.exec_set_bool(mem, dest, test_val.is_nil());
                Ok(EvalStatus::Pending)
            },
            Opcode::IsAtom { dest, test } => {
                let test_val = self.get_reg(test);
                let atom = match test_val {
                    TaggedPtr::Pair(_) => false,
                    TaggedPtr::Nil => false,
                    _ => true,
                };
                self.exec_set_bool(mem, dest, atom);
                Ok(EvalStatus::Pending)
            },
            Opcode::FirstOfPair { dest, reg } => match self.get_reg(reg) {
                TaggedPtr::Pair(i) => {
                    let first = mem.get_pair(i).first;
                    proof {
                        assert(mem.object_wf(i as int));
                    }
                    self.put_reg(mem, dest, first);
                    Ok(EvalStatus::Pending)
                },
                TaggedPtr::Nil => {
                    self.put_reg(mem, dest, TaggedPtr::Nil);
                    Ok(EvalStatus::Pending)
                },
                _ => Err(err_eval("Parameter to FirstOfPair is not a list")),
            },
            Opcode::SecondOfPair { dest, reg } => match self.get_reg(reg) {
                TaggedPtr::Pair(i) => {
                    let second = mem.get_pair(i).second;
                    proof {
                        assert(mem.object_wf(i as int));
                    }
                    self.put_reg(mem, dest, second);
                    Ok(EvalStatus::Pending)
                },
                TaggedPtr::Nil => {
                    self.put_reg(mem, dest, TaggedPtr::Nil);
                    Ok(EvalStatus::Pending)
                },
                _ => Err(err_eval("Parameter to SecondOfPair is not a list")),
            },
            Opcode::MakePair { dest, reg1, reg2 } => {
                let reg1_val = self.get_reg(reg1);
                let reg2_val = self.get_reg(reg2);
                let mut new_pair = Pair::new();
                new_pair.first = reg1_val;
                new_pair.second = reg2_val;
                let ghost mem0 = *mem;
                let p = mem.alloc_pair(new_pair);
                proof {
                    mem.lemma_views_push(&mem0, Object::Pair(new_pair));
                    self.lemma_wf_extends(mem, &mem0);
                }
                self.put_reg(mem, dest, p);
                Ok(EvalStatus::Pending)
            },
            Opcode::IsIdentical { dest, test1, test2 } => {
                // compare raw pointers - identity comparison
                let test1_val = self.get_reg(test1);
                let test2_val = self.get_reg(test2);
                self.exec_set_bool(mem, dest, test1_val == test2_val);
                Ok(EvalStatus::Pending)
            },
            Opcode::Jump { offset } => {
                self.instr.jump(offset);
                Ok(EvalStatus::Pending)
            },
            Opcode::JumpIfTrue { test, offset } => self.exec_cond_jump(mem, test, offset, true),
            Opcode::JumpIfNotTrue { test, offset } => self.exec_cond_jump(mem, test, offset, false),
            Opcode::LoadNil { dest } => {
                self.put_reg(mem, dest, TaggedPtr::Nil);
                Ok(EvalStatus::Pending)
            },
            Opcode::LoadInteger { dest, integer } => {
                self.put_reg(mem, dest, TaggedPtr::Number(integer as isize));
                Ok(EvalStatus::Pending)
            },
            Opcode::LoadGlobal { dest, name } => self.exec_load_global(mem, dest, name),
            Opcode::StoreGlobal { src, name } => self.exec_store_global(mem, src, name),
            Opcode::Call { function, dest, arg_count } => self.exec_call(mem, function, dest, arg_count),
            Opcode::CopyRegister { dest, src } => {
                let v = self.get_reg(src);
                self.put_reg(mem, dest, v);
                Ok(EvalStatus::Pending)
            },
            Opcode::LoadNonLocal { dest, src, frame_offset } => self.exec_load_nonlocal(mem, dest, src, frame_offset),
            _ => Err(RuntimeError::new(ErrorKind::BoundsError)),
        }
    }
}

impl CallFrame {
    /// The frame's description for a traceback: `in ` and its function
    pub fn as_string(&self, mem: &Memory) -> (s: String)
        requires
            mem.wf(),
            mem.valid_ptr(TaggedPtr::Function(self.function)),
        ensures
            s@ == "in "@ + print_ptr(mem.syms@, mem.object_views(), TaggedPtr::Function(self.function)),
    {
        let mut s = String::from_str("in ");
        let function = crate::printer::print(mem, TaggedPtr::Function(self.function));
        s.append(function.as_str());
        s
    }
}

impl Thread {
    /// The traceback of an error at the current state
    fn traceback_of(&self, mem: &Memory) -> (lines: Vec<String>)
        requires
            self.wf(mem),
            mem.wf(),
        ensures
            strings_view(lines@) == traceback_lines(self.state(mem)),
    {
        proof {
            self.frames.lemma_wf_len();
        }
        let mut lines: Vec<String> = Vec::new();
        let len = self.frames.length();
        if len > 1 {
            lines.push(String::from_str("Error traceback:"));
        }
        let ghost head: Seq<Seq<char>> = if len > 1 { seq!["Error traceback:"@] } else { Seq::empty() };
        assert(strings_view(lines@) =~= head);
        let mut k: ArraySize = 1;
        while k < len
            invariant
                self.wf(mem),
                mem.wf(),
                len == self.frames@.len(),
                1 <= k,
                k <= (if len > 0 { len } else { 1 }),
                strings_view(lines@) == head + Seq::new(
                    (k - 1) as nat,
                    |j: int| "  "@ + ("in "@ + print_ptr(mem.syms@, mem.object_views(), TaggedPtr::Function(self.frames@[j + 1].function))),
                ),
            decreases len - k,
        {
            let frame = match self.frames.get(k) {
                Ok(frame) => frame,
                Err(_) => CallFrame::new_main(0),
            };
            assert(mem.valid_ptr(TaggedPtr::Function(self.frames@[k as int].function)));
            let mut line = String::from_str("  ");
            let desc = frame.as_string(mem);
            line.append(desc.as_str());
            let ghost before = strings_view(lines@);
            lines.push(line);
            proof {
                assert(strings_view(lines@) =~= before.push(line@));
                assert(strings_view(lines@) =~= head + Seq::new(
                    k as nat,
                    |j: int| "  "@ + ("in "@ + print_ptr(mem.syms@, mem.object_views(), TaggedPtr::Function(self.frames@[j + 1].function))),
                ));
            }
            k = k + 1;
        }
        proof {
            assert(k as nat == (if len > 0 { len as nat } else { 1nat }));
            assert(strings_view(lines@) =~= traceback_lines(self.state(mem)));
        }
        lines
    }
}

impl Thread {
    /// Run on from the current instruction for up to `max_instr`
    /// instructions. An error unwinds the machine by clearing all frames, and
    /// leaves the traceback of the frames it happened in.
    #[verifier::spinoff_prover]
    fn vm_eval_stream(&mut self, mem: &mut Memory, max_instr: ArraySize) -> (res: Result<EvalStatus, RuntimeError>)
        requires
            old(self).wf(old(mem)),
            old(mem).wf(),
        ensures
            final(mem).wf(),
            final(mem).extends(old(mem)),
            final(self).wf(final(mem)),
            ({
                let (st, r) = spec_stream(old(self).state(old(mem)), max_instr as nat);
                &&& final(self).state(final(mem)) == st
                &&& match r {
                    Ok(status) => res == Ok::<EvalStatus, RuntimeError>(status) && final(self).traceback == old(self).traceback,
                    Err((k, lines)) => res matches Err(e) && e@.kind == k && e@.pos is None && final(self).spec_traceback()
                        == lines,
                }
            }),
            res matches Ok(EvalStatus::Return(v)) ==> final(mem).valid_ptr(v),
    {
        proof {
            mem.lemma_extends_refl();
        }
        let mut i: ArraySize = 0;
        while i < max_instr
            invariant
                self.wf(mem),
                mem.wf(),
                mem.extends(old(mem)),
                self.traceback == old(self).traceback,
                i <= max_instr,
                spec_stream(old(self).state(old(mem)), max_instr as nat) == spec_stream(
                    self.state(mem),
                    (max_instr - i) as nat,
                ),
            decreases max_instr - i,
        {
            let ghost mem0 = *mem;
            match self.eval_next_instr(mem) {
                // Evaluation paused or completed without error
                Ok(EvalStatus::Return(value)) => {
                    proof {
                        mem.lemma_extends_trans(&mem0, old(mem));
                    }
                    return Ok(EvalStatus::Return(value));
                },
                Ok(EvalStatus::Pending) => {},
                // Evaluation hit an error
                Err(e) => {
                    proof {
                        mem.lemma_extends_trans(&mem0, old(mem));
                    }
                    // keep a traceback of the frames the error happened in
                    let lines = self.traceback_of(mem);
                    self.traceback = lines;
                    // unwind by clearing all frames from the stack
                    self.frames.clear();
                    self.stack_base = 0;
                    return Err(e);
                },
            }
            proof {
                mem.lemma_extends_trans(&mem0, old(mem));
            }
            i = i + 1;
        }
        Ok(EvalStatus::Pending)
    }

    /// Evaluate a function: push its frame as the outermost one and run its
    /// whole code from its start until it returns a result or fails. Runs are practically unbounded:
    /// evaluation gives up with an error only after 2^64 - 1 streams of
    /// instructions.
    pub fn quick_vm_eval(&mut self, mem: &mut Memory, function: usize) -> (res: Result<TaggedPtr, RuntimeError>)
        requires
            old(self).wf(old(mem)),
            old(mem).wf(),
            old(mem).valid_ptr(TaggedPtr::Function(function)),
        ensures
            final(mem).wf(),
            final(mem).extends(old(mem)),
            final(self).wf(final(mem)),
            ({
                let (st, r) = spec_quick_vm_eval(old(self).state(old(mem)), function as nat);
                &&& final(self).state(final(mem)) == st
                &&& match r {
                    Ok(v) => res == Ok::<TaggedPtr, RuntimeError>(v) && final(mem).valid_ptr(v),
                    Err((k, lines)) => res matches Err(e) && e@.kind == k && e@.pos is None && final(self).spec_traceback()
                        == lines,
                }
            }),
    {
        proof {
            mem.lemma_extends_refl();
            self.frames.lemma_wf_len();
        }
        if self.frames.length() as u64 + 1 >= STACK_LIMIT as u64 {
            self.traceback = Vec::new();
            assert(strings_view(self.traceback@) =~= Seq::<Seq<char>>::empty());
            return Err(RuntimeError::new(ErrorKind::BadAllocation));
        }
        let ghost old_thread = *self;
        proof {
            self.frames.lemma_push_fits();
        }
        let _ = self.frames.push(CallFrame::new_main(function));
        proof {
            assert forall|k: int| 0 <= k < self.frames@.len() implies mem.valid_ptr(TaggedPtr::Function(#[trigger] self.frames@[k].function))
                && self.frames@[k].base + WINDOW_SIZE <= self.stack@.len() by {
                if k < old_thread.frames@.len() {
                    assert(self.frames@[k] == old_thread.frames@[k]);
                    assert(mem.valid_ptr(TaggedPtr::Function(old_thread.frames@[k].function)));
                }
            }
        }
        let code = mem.get_function(function).code;
        proof {
            assert(mem.object_wf(function as int));
        }
        self.instr.switch_frame(code, 0);
        let mut budget: u64 = u64::MAX;
        while budget > 0
            invariant
                self.wf(mem),
                mem.wf(),
                mem.extends(old(mem)),
                spec_quick_vm_eval(old(self).state(old(mem)), function as nat) == spec_run(self.state(mem), budget as nat),
            decreases budget,
        {
            let ghost mem0 = *mem;
            match self.vm_eval_stream(mem, STREAM_STEPS) {
                Ok(EvalStatus::Return(value)) => {
                    proof {
                        mem.lemma_extends_trans(&mem0, old(mem));
                    }
                    return Ok(value);
                },
                Ok(EvalStatus::Pending) => {},
                Err(e) => {
                    proof {
                        mem.lemma_extends_trans(&mem0, old(mem));
                    }
                    return Err(e);
                },
            }
            proof {
                mem.lemma_extends_trans(&mem0, old(mem));
            }
            budget = budget - 1;
        }
        self.traceback = Vec::new();
        assert(strings_view(self.traceback@) =~= Seq::<Seq<char>>::empty());
        Err(err_eval("Unexpected end of evaluation"))
    }

    /// The traceback of the last error: a line per frame it happened in
    pub fn traceback(&self) -> (lines: &Vec<String>)
        ensures
            strings_view(lines@) == self.spec_traceback(),
    {
        &self.traceback
    }
}

/// Closure upvalue as generally described by the Lua 5.1 implementation: a
/// variable that lives in a register of the stack until it is closed, and in
/// the upvalue itself afterwards. Its location is an index into the stack,
/// which stays valid when the stack is reallocated.
#[derive(Copy, Clone)]
pub struct Upvalue {
    pub closed: Option<TaggedPtr>,
    pub location: ArraySize,
    /// Address of the next upvalue in a list of open upvalues
    pub next: Option<usize>,
}

impl Upvalue {
    /// An open upvalue for the stack location
    pub fn allocate(location: ArraySize) -> (u: Upvalue)
        ensures
            u == (Upvalue { closed: None, location, next: None }),
    {
        Upvalue { closed: None, location, next: None }
    }

    /// Dereference the upvalue: its own value once closed, else the stack
    /// location's, or a bounds error where the location is past the stack
    pub fn get(&self, stack: &Array<TaggedPtr>) -> (r: Result<TaggedPtr, RuntimeError>)
        requires
            stack.wf(),
        ensures
            match self.closed {
                Some(value) => r == Ok::<TaggedPtr, RuntimeError>(value),
                None => if self.location < stack@.len() {
                    r == Ok::<TaggedPtr, RuntimeError>(stack@[self.location as int])
                } else {
                    r matches Err(e) && crate::array::is_bounds_error(e)
                },
            },
    {
        match self.closed {
            Some(value) => Ok(value),
            None => stack.get(self.location),
        }
    }

    /// Write a new value to the upvalue, placing it here or on the stack
    /// depending on the closedness of it
    pub fn set(&mut self, stack: &mut Array<TaggedPtr>, ptr: TaggedPtr) -> (r: Result<(), RuntimeError>)
        requires
            old(stack).wf(),
        ensures
            final(stack).wf(),
            final(self).location == old(self).location,
            final(self).next == old(self).next,
            match old(self).closed {
                Some(_) => r is Ok && final(self).closed == Some(ptr) && final(stack)@ == old(stack)@,
                None => final(self).closed is None && if old(self).location < old(stack)@.len() {
                    r is Ok && final(stack)@ == old(stack)@.update(old(self).location as int, ptr)
                } else {
                    (r matches Err(e) && crate::array::is_bounds_error(e)) && final(stack)@ == old(stack)@
                },
            },
    {
        match self.closed {
            Some(_) => {
                self.closed = Some(ptr);
                Ok(())
            },
            None => stack.set(self.location, ptr),
        }
    }

    /// Close the upvalue, copying the stack variable's value into the Upvalue
    pub fn close(&mut self, stack: &Array<TaggedPtr>) -> (r: Result<(), RuntimeError>)
        requires
            stack.wf(),
        ensures
            final(self).location == old(self).location,
            final(self).next == old(self).next,
            old(self).location < stack@.len() ==> r is Ok && final(self).closed == Some(stack@[old(self).location as int]),
            old(self).location >= stack@.len() ==> (r matches Err(e) && crate::array::is_bounds_error(e)) && *final(self)
                == *old(self),
    {
        let ptr = match stack.get(self.location) {
            Ok(ptr) => ptr,
            Err(e) => return Err(e),
        };
        self.closed = Some(ptr);
        Ok(())
    }
}

/// `car` and `cdr` of the empty list give the empty list.
pub proof fn law_car_cdr_nil(st: VmState, dest: Register, r: Register)
    requires
        reg(st, r as nat) is Nil,
    ensures
        step_op(st, Opcode::FirstOfPair { dest, reg: r }) == pending(set_reg(st, dest as nat, TaggedPtr::Nil)),
        step_op(st, Opcode::SecondOfPair { dest, reg: r }) == pending(set_reg(st, dest as nat, TaggedPtr::Nil)),
{
}

/// `car` and `cdr` of a pair give its first and its second value.
pub proof fn law_car_cdr_pair(st: VmState, dest: Register, r: Register, i: usize, first: TaggedPtr, second: TaggedPtr)
    requires
        reg(st, r as nat) == TaggedPtr::Pair(i),
        st.objs[i as int] == ObjectView::Pair(first, second),
    ensures
        step_op(st, Opcode::FirstOfPair { dest, reg: r }) == pending(set_reg(st, dest as nat, first)),
        step_op(st, Opcode::SecondOfPair { dest, reg: r }) == pending(set_reg(st, dest as nat, second)),
{
}

/// The last binding wins: after a global is bound to the value of a
/// register, loading that global gives that value, whatever it was bound to
/// before and whatever the value is, nil included.
pub proof fn law_load_after_store(st: VmState, src: nat, name: nat, dest: nat)
    requires
        op_store_global(st, src, name) is Ok,
    ensures
        ({
            let (st2, status) = op_store_global(st, src, name)->Ok_0;
            &&& status == EvalStatus::Pending
            &&& op_load_global(st2, dest, name) == pending(set_reg(st2, dest, reg(st, src)))
        }),
{
    let key = reg(st, name);
    let (slot, hash) = spec_find_entry(st.syms, st.globals, key)->Ok_0;
    crate::dict::law_lookup_after_assoc(st.syms, st.globals, key, reg(st, src));
    let (st2, _) = op_store_global(st, src, name)->Ok_0;
    assert(reg(st2, name) == key);
}

/// A global is bound when its name finds a slot that holds it; loading a
/// bound global gives the value it is bound to, nil included, and only an
/// unbound global is reported as not bound.
pub proof fn law_load_global(st: VmState, dest: nat, name: nat)
    requires
        reg(st, name) is Symbol,
    ensures
        crate::dict::is_bound(st.syms, st.globals, reg(st, name)) ==> op_load_global(st, dest, name) == pending(
            set_reg(st, dest, st.globals[spec_find_entry(st.syms, st.globals, reg(st, name))->Ok_0.0 as int].value),
        ),
        !crate::dict::is_bound(st.syms, st.globals, reg(st, name)) ==> op_load_global(st, dest, name) == Err::<
            (VmState, EvalStatus),
            ErrorKindView,
        >(ErrorKindView::EvalError(unbound_message(st.syms[reg(st, name)->Symbol_0 as int]))),
{
}

/// Returning leaves the frame that returns and resumes the frame below it:
/// its code, at the instruction and with the register window it recorded.
pub proof fn law_return_resumes(st: VmState, r: nat)
    requires
        op_return(st, r) matches Ok((_, status)) && status is Pending,
    ensures
        ({
            let (st2, _) = op_return(st, r)->Ok_0;
            let caller = st.frames[st.frames.len() - 2];
            &&& st.frames.len() >= 2
            &&& st2.frames == st.frames.drop_last()
            &&& st2.code == function_code(st.objs, caller.function as nat)
            &&& st2.ip == caller.ip
            &&& st2.stack_base == caller.base
        }),
{
}

/// A call followed by the callee's return resumes the caller where it left
/// off: the same code, the instruction after the call, the same register
/// window and call depth, with the callee's result in the caller's
/// destination register.
pub proof fn law_call_then_return(st: VmState, function: nat, dest: nat, r: nat)
    requires
        new_call_frame(st, function, dest) is Ok,
        st.stack_base == st.frames.last().base,
        st.code == function_code(st.objs, st.frames.last().function as nat),
        st.ip <= u32::MAX,
    ensures
        ({
            let (callee, _) = new_call_frame(st, function, dest)->Ok_0;
            let (back, status) = op_return(callee, r)->Ok_0;
            &&& op_return(callee, r) is Ok
            &&& status is Pending
            &&& back.code == st.code
            &&& back.ip == st.ip
            &&& back.stack_base == st.stack_base
            &&& back.frames.len() == st.frames.len()
            &&& back.frames.last().function == st.frames.last().function
            &&& reg(back, dest) == reg(callee, r)
        }),
{
    let (callee, _) = new_call_frame(st, function, dest)->Ok_0;
    let last = (st.frames.len() - 1) as int;
    let frames1 = st.frames.update(last, CallFrame { ip: st.ip as ArraySize, ..st.frames[last] });
    assert(callee.frames.drop_last() =~= frames1);
    assert((st.ip as ArraySize) as nat == st.ip);
}

} // verus!
