use vstd::prelude::*;

use crate::array::{is_bounds_error, Array};
use crate::error::{err_eval, ErrorKindView, RuntimeError};
use crate::rawarray::ArraySize;
use crate::memory::Memory;
use crate::taggedptr::TaggedPtr;

verus! {

/// A register can be in the range 0..255
pub type Register = u8;

/// A literal integer that can be baked into an opcode can be in the range -32768..32767
pub type LiteralInteger = i16;

/// Literals are stored in a list, a LiteralId describes the index of the value in the list
pub type LiteralId = u16;

/// An instruction jump target is a signed integer, relative to the jump instruction
pub type JumpOffset = i16;

/// Jump offset when the target is still unknown.
pub const JUMP_UNKNOWN: i16 = 0x7fff;

/// Argument count for a function call or partial application
pub type NumArgs = u8;

/// Count of call frames to look back to find a nonlocal
pub type FrameOffset = u8;

/// VM opcodes. Each fits into 32 bits.
#[derive(PartialEq, Eq, Structural, Debug, Clone, Copy)]
pub enum Opcode {
    NoOp,
    Return { reg: Register },
    LoadLiteral { dest: Register, literal_id: LiteralId },
    IsNil { dest: Register, test: Register },
    IsAtom { dest: Register, test: Register },
    FirstOfPair { dest: Register, reg: Register },
    SecondOfPair { dest: Register, reg: Register },
    MakePair { dest: Register, reg1: Register, reg2: Register },
    IsIdentical { dest: Register, test1: Register, test2: Register },
    Jump { offset: JumpOffset },
    JumpIfTrue { test: Register, offset: JumpOffset },
    JumpIfNotTrue { test: Register, offset: JumpOffset },
    LoadNil { dest: Register },
    LoadGlobal { dest: Register, name: Register },
    StoreGlobal { src: Register, name: Register },
    Call { function: Register, dest: Register, arg_count: NumArgs },
    MakeClosure { dest: Register, function: Register },
    LoadInteger { dest: Register, integer: LiteralInteger },
    CopyRegister { dest: Register, src: Register },
    LoadNonLocal { dest: Register, src: Register, frame_offset: FrameOffset },
    Add { dest: Register, reg1: Register, reg2: Register },
    Subtract { dest: Register, left: Register, right: Register },
    Multiply { dest: Register, reg1: Register, reg2: Register },
    DivideInteger { dest: Register, num: Register, denom: Register },
    GetUpvalue { dest: Register, src: Register },
    SetUpvalue { dest: Register, src: Register },
    CloseUpvalues { reg1: Register, reg2: Register, reg3: Register },
}

/// Every register an opcode names is below 255, so that each can be moved one up
pub open spec fn registers_below_max(op: Opcode) -> bool {
    match op {
        Opcode::NoOp => true,
        Opcode::Return { reg } => reg < 255,
        Opcode::LoadLiteral { dest, literal_id } => dest < 255,
        Opcode::IsNil { dest, test } => dest < 255 && test < 255,
        Opcode::IsAtom { dest, test } => dest < 255 && test < 255,
        Opcode::FirstOfPair { dest, reg } => dest < 255 && reg < 255,
        Opcode::SecondOfPair { dest, reg } => dest < 255 && reg < 255,
        Opcode::MakePair { dest, reg1, reg2 } => dest < 255 && reg1 < 255 && reg2 < 255,
        Opcode::IsIdentical { dest, test1, test2 } => dest < 255 && test1 < 255 && test2 < 255,
        Opcode::Jump { offset } => true,
        Opcode::JumpIfTrue { test, offset } => test < 255,
        Opcode::JumpIfNotTrue { test, offset } => test < 255,
        Opcode::LoadNil { dest } => dest < 255,
        Opcode::LoadGlobal { dest, name } => dest < 255 && name < 255,
        Opcode::StoreGlobal { src, name } => src < 255 && name < 255,
        Opcode::Call { function, dest, arg_count } => function < 255 && dest < 255,
        Opcode::MakeClosure { dest, function } => dest < 255 && function < 255,
        Opcode::LoadInteger { dest, integer } => dest < 255,
        Opcode::CopyRegister { dest, src } => dest < 255 && src < 255,
        Opcode::LoadNonLocal { dest, src, frame_offset } => dest < 255 && src < 255,
        Opcode::Add { dest, reg1, reg2 } => dest < 255 && reg1 < 255 && reg2 < 255,
        Opcode::Subtract { dest, left, right } => dest < 255 && left < 255 && right < 255,
        Opcode::Multiply { dest, reg1, reg2 } => dest < 255 && reg1 < 255 && reg2 < 255,
        Opcode::DivideInteger { dest, num, denom } => dest < 255 && num < 255 && denom < 255,
        Opcode::GetUpvalue { dest, src } => dest < 255 && src < 255,
        Opcode::SetUpvalue { dest, src } => dest < 255 && src < 255,
        Opcode::CloseUpvalues { reg1, reg2, reg3 } => reg1 < 255 && reg2 < 255 && reg3 < 255,
    }
}

/// One register up, except that an upvalue register 0 means "no upvalue" and stays 0
pub open spec fn upvalue_up(r: Register) -> Register {
    if r == 0 {
        0
    } else {
        (r + 1) as Register
    }
}

/// The opcode with every register it names moved one register up; literal ids,
/// integers, offsets, argument counts and frame offsets are unchanged.
pub open spec fn op_registers_up(op: Opcode) -> Opcode {
    match op {
        Opcode::NoOp => Opcode::NoOp,
        Opcode::Return { reg } => Opcode::Return { reg: (reg + 1) as u8 },
        Opcode::LoadLiteral { dest, literal_id } => Opcode::LoadLiteral {
            dest: (dest + 1) as u8,
            literal_id,
        },
        Opcode::IsNil { dest, test } => Opcode::IsNil {
            dest: (dest + 1) as u8,
            test: (test + 1) as u8,
        },
        Opcode::IsAtom { dest, test } => Opcode::IsAtom {
            dest: (dest + 1) as u8,
            test: (test + 1) as u8,
        },
        Opcode::FirstOfPair { dest, reg } => Opcode::FirstOfPair {
            dest: (dest + 1) as u8,
            reg: (reg + 1) as u8,
        },
        Opcode::SecondOfPair { dest, reg } => Opcode::SecondOfPair {
            dest: (dest + 1) as u8,
            reg: (reg + 1) as u8,
        },
        Opcode::MakePair { dest, reg1, reg2 } => Opcode::MakePair {
            dest: (dest + 1) as u8,
            reg1: (reg1 + 1) as u8,
            reg2: (reg2 + 1) as u8,
        },
        Opcode::IsIdentical { dest, test1, test2 } => Opcode::IsIdentical {
            dest: (dest + 1) as u8,
            test1: (test1 + 1) as u8,
            test2: (test2 + 1) as u8,
        },
        Opcode::Jump { offset } => Opcode::Jump { offset },
        Opcode::JumpIfTrue { test, offset } => Opcode::JumpIfTrue {
            test: (test + 1) as u8,
            offset,
        },
        Opcode::JumpIfNotTrue { test, offset } => Opcode::JumpIfNotTrue {
            test: (test + 1) as u8,
            offset,
        },
        Opcode::LoadNil { dest } => Opcode::LoadNil { dest: (dest + 1) as u8 },
        Opcode::LoadGlobal { dest, name } => Opcode::LoadGlobal {
            dest: (dest + 1) as u8,
            name: (name + 1) as u8,
        },
        Opcode::StoreGlobal { src, name } => Opcode::StoreGlobal {
            src: (src + 1) as u8,
            name: (name + 1) as u8,
        },
        Opcode::Call { function, dest, arg_count } => Opcode::Call {
            function: (function + 1) as u8,
            dest: (dest + 1) as u8,
            arg_count,
        },
        Opcode::MakeClosure { dest, function } => Opcode::MakeClosure {
            dest: (dest + 1) as u8,
            function: (function + 1) as u8,
        },
        Opcode::LoadInteger { dest, integer } => Opcode::LoadInteger {
            dest: (dest + 1) as u8,
            integer,
        },
        Opcode::CopyRegister { dest, src } => Opcode::CopyRegister {
            dest: (dest + 1) as u8,
            src: (src + 1) as u8,
        },
        Opcode::LoadNonLocal { dest, src, frame_offset } => Opcode::LoadNonLocal {
            dest: (dest + 1) as u8,
            src: (src + 1) as u8,
            frame_offset,
        },
        Opcode::Add { dest, reg1, reg2 } => Opcode::Add {
            dest: (dest + 1) as u8,
            reg1: (reg1 + 1) as u8,
            reg2: (reg2 + 1) as u8,
        },
        Opcode::Subtract { dest, left, right } => Opcode::Subtract {
            dest: (dest + 1) as u8,
            left: (left + 1) as u8,
            right: (right + 1) as u8,
        },
        Opcode::Multiply { dest, reg1, reg2 } => Opcode::Multiply {
            dest: (dest + 1) as u8,
            reg1: (reg1 + 1) as u8,
            reg2: (reg2 + 1) as u8,
        },
        Opcode::DivideInteger { dest, num, denom } => Opcode::DivideInteger {
            dest: (dest + 1) as u8,
            num: (num + 1) as u8,
            denom: (denom + 1) as u8,
        },
        Opcode::GetUpvalue { dest, src } => Opcode::GetUpvalue {
            dest: (dest + 1) as u8,
            src: (src + 1) as u8,
        },
        Opcode::SetUpvalue { dest, src } => Opcode::SetUpvalue {
            dest: (dest + 1) as u8,
            src: (src + 1) as u8,
        },
        Opcode::CloseUpvalues { reg1, reg2, reg3 } => Opcode::CloseUpvalues {
            reg1: upvalue_up(reg1),
            reg2: upvalue_up(reg2),
            reg3: upvalue_up(reg3),
        },
    }
}

/// Move every register of one opcode one register up
pub fn opcode_registers_up(op: Opcode) -> (r: Opcode)
    requires
        registers_below_max(op),
    ensures
        r == op_registers_up(op),
{
    match op {
        Opcode::NoOp => Opcode::NoOp,
        Opcode::Return { reg } => Opcode::Return { reg: reg + 1 },
        Opcode::LoadLiteral { dest, literal_id } => Opcode::LoadLiteral {
            dest: dest + 1,
            literal_id,
        },
        Opcode::IsNil { dest, test } => Opcode::IsNil { dest: dest + 1, test: test + 1 },
        Opcode::IsAtom { dest, test } => Opcode::IsAtom { dest: dest + 1, test: test + 1 },
        Opcode::FirstOfPair { dest, reg } => Opcode::FirstOfPair { dest: dest + 1, reg: reg + 1 },
        Opcode::SecondOfPair { dest, reg } => Opcode::SecondOfPair {
            dest: dest + 1,
            reg: reg + 1,
        },
        Opcode::MakePair { dest, reg1, reg2 } => Opcode::MakePair {
            dest: dest + 1,
            reg1: reg1 + 1,
            reg2: reg2 + 1,
        },
        Opcode::IsIdentical { dest, test1, test2 } => Opcode::IsIdentical {
            dest: dest + 1,
            test1: test1 + 1,
            test2: test2 + 1,
        },
        Opcode::Jump { offset } => Opcode::Jump { offset },
        Opcode::JumpIfTrue { test, offset } => Opcode::JumpIfTrue { test: test + 1, offset },
        Opcode::JumpIfNotTrue { test, offset } => Opcode::JumpIfNotTrue { test: test + 1, offset },
        Opcode::LoadNil { dest } => Opcode::LoadNil { dest: dest + 1 },
        Opcode::LoadGlobal { dest, name } => Opcode::LoadGlobal { dest: dest + 1, name: name + 1 },
        Opcode::StoreGlobal { src, name } => Opcode::StoreGlobal { src: src + 1, name: name + 1 },
        Opcode::Call { function, dest, arg_count } => Opcode::Call {
            function: function + 1,
            dest: dest + 1,
            arg_count,
        },
        Opcode::MakeClosure { dest, function } => Opcode::MakeClosure {
            dest: dest + 1,
            function: function + 1,
        },
        Opcode::LoadInteger { dest, integer } => Opcode::LoadInteger { dest: dest + 1, integer },
        Opcode::CopyRegister { dest, src } => Opcode::CopyRegister { dest: dest + 1, src: src + 1 },
        Opcode::LoadNonLocal { dest, src, frame_offset } => Opcode::LoadNonLocal {
            dest: dest + 1,
            src: src + 1,
            frame_offset,
        },
        Opcode::Add { dest, reg1, reg2 } => Opcode::Add {
            dest: dest + 1,
            reg1: reg1 + 1,
            reg2: reg2 + 1,
        },
        Opcode::Subtract { dest, left, right } => Opcode::Subtract {
            dest: dest + 1,
            left: left + 1,
            right: right + 1,
        },
        Opcode::Multiply { dest, reg1, reg2 } => Opcode::Multiply {
            dest: dest + 1,
            reg1: reg1 + 1,
            reg2: reg2 + 1,
        },
        Opcode::DivideInteger { dest, num, denom } => Opcode::DivideInteger {
            dest: dest + 1,
            num: num + 1,
            denom: denom + 1,
        },
        Opcode::GetUpvalue { dest, src } => Opcode::GetUpvalue { dest: dest + 1, src: src + 1 },
        Opcode::SetUpvalue { dest, src } => Opcode::SetUpvalue { dest: dest + 1, src: src + 1 },
        // if an upvalue register is 0, it doesn't point to an upvalue
        Opcode::CloseUpvalues { reg1, reg2, reg3 } => Opcode::CloseUpvalues {
            reg1: if reg1 == 0 {
                0
            } else {
                reg1 + 1
            },
            reg2: if reg2 == 0 {
                0
            } else {
                reg2 + 1
            },
            reg3: if reg3 == 0 {
                0
            } else {
                reg3 + 1
            },
        },
    }
}

/// Is the opcode one that the virtual machine implements: all but closures,
/// upvalues and arithmetic
pub open spec fn supported(op: Opcode) -> bool {
    !(op is MakeClosure || op is Add || op is Subtract || op is Multiply || op is DivideInteger || op is GetUpvalue
        || op is SetUpvalue || op is CloseUpvalues)
}

/// Does the code hold only opcodes that the virtual machine implements
pub open spec fn code_supported(code: Seq<Opcode>) -> bool {
    forall|i: int| 0 <= i < code.len() ==> supported(#[trigger] code[i])
}

/// Is this one of the three jump instructions
pub open spec fn is_jump(op: Opcode) -> bool {
    op is Jump || op is JumpIfTrue || op is JumpIfNotTrue
}

/// The jump instruction with its offset replaced
pub open spec fn with_offset(op: Opcode, offset: JumpOffset) -> Opcode {
    match op {
        Opcode::Jump { .. } => Opcode::Jump { offset },
        Opcode::JumpIfTrue { test, .. } => Opcode::JumpIfTrue { test, offset },
        Opcode::JumpIfNotTrue { test, .. } => Opcode::JumpIfNotTrue { test, offset },
        _ => op,
    }
}

/// The text that `format!` writes for an opcode with the `Debug` that
/// `derive` gives `Opcode`: the variant's name, then its fields by name
pub uninterp spec fn opcode_debug_text(op: Opcode) -> Seq<char>;

/// Calls std's `format!("{:?}", ..)` on an opcode. Trusted to return the
/// text named `opcode_debug_text` of that opcode; what that text is, letter by
/// letter, is left unsaid.
#[verifier::external_body]
fn opcode_debug(op: Opcode) -> (s: String)
    ensures
        s@ == opcode_debug_text(op),
{
    format!("{:?}", op)
}

/// Lines of text joined with a line feed between each two
pub open spec fn joined_lines(lines: Seq<Seq<char>>) -> Seq<char>
    decreases lines.len(),
{
    if lines.len() == 0 {
        Seq::empty()
    } else if lines.len() == 1 {
        lines[0]
    } else {
        joined_lines(lines.drop_last()) + "\n"@ + lines.last()
    }
}

/// The instructions as `Debug` shows them, one per line
pub open spec fn code_listing(code: Seq<Opcode>) -> Seq<char> {
    joined_lines(code.map_values(|op: Opcode| opcode_debug_text(op)))
}

/// Join lines of text with a line feed between each two
pub fn join_lines(lines: &Vec<String>) -> (s: String)
    ensures
        s@ == joined_lines(lines@.map_values(|l: String| l@)),
{
    let mut out = String::new();
    let n = lines.len();
    let mut i: usize = 0;
    while i < n
        invariant
            n == lines@.len(),
            i <= n,
            out@ == joined_lines(lines@.take(i as int).map_values(|l: String| l@)),
        decreases n - i,
    {
        let ghost before = out@;
        if i > 0 {
            out.append("\n");
        }
        out.append(lines[i].as_str());
        proof {
            let t = lines@.take(i + 1).map_values(|l: String| l@);
            assert(t.drop_last() =~= lines@.take(i as int).map_values(|l: String| l@));
            assert(t.last() == lines@[i as int]@);
            reveal_strlit("\n");
            if i == 0 {
                assert(t.len() == 1);
                assert(out@ =~= t[0]);
            } else {
                assert(out@ =~= before + "\n"@ + t.last());
            }
        }
        i = i + 1;
    }
    proof {
        assert(lines@.take(n as int) =~= lines@);
    }
    out
}

/// Byte code consists of the code and any literals used.
pub struct ByteCode {
    pub code: Array<Opcode>,
    pub literals: Array<TaggedPtr>,
}

impl ByteCode {
    /// Well-formedness of both arrays
    pub open spec fn wf(&self) -> bool {
        self.code.wf() && self.literals.wf()
    }

    /// Instantiate a blank ByteCode instance
    pub fn new() -> (b: ByteCode)
        ensures
            b.wf(),
            b.code@ == Seq::<Opcode>::empty(),
            b.literals@ == Seq::<TaggedPtr>::empty(),
            b.code.spec_capacity() == 0,
            b.literals.spec_capacity() == 0,
    {
        ByteCode { code: Array::new(), literals: Array::new() }
    }

    /// Push an instruction to the back of the sequence
    pub fn push(&mut self, op: Opcode) -> (r: Result<(), RuntimeError>)
        requires
            old(self).wf(),
        ensures
            final(self).wf(),
            final(self).literals == old(self).literals,
            r is Ok <==> !old(self).code.push_overflows(),
            r is Ok ==> final(self).code@ == old(self).code@.push(op) && final(self).code.spec_capacity()
                == old(self).code.capacity_after_push(),
            r matches Err(e) ==> e@.kind == ErrorKindView::BadAllocation && e@.pos is None && final(self).code@ == old(self).code@,
    {
        self.code.push(op)
    }

    /// Set the jump offset of a jump instruction to a new value
    pub fn update_jump_offset(&mut self, instruction: ArraySize, offset: JumpOffset) -> (r: Result<(), RuntimeError>)
        requires
            old(self).wf(),
        ensures
            final(self).wf(),
            final(self).literals == old(self).literals,
            final(self).code.spec_capacity() == old(self).code.spec_capacity(),
            instruction >= old(self).code@.len() ==> (r matches Err(e) && is_bounds_error(e)) && final(self).code@ == old(self).code@,
            instruction < old(self).code@.len() && !is_jump(old(self).code@[instruction as int]) ==> (
                r matches Err(e) && e@.kind == ErrorKindView::EvalError("Cannot modify jump offset for non-jump instruction"@) && e@.pos is None)
                && final(self).code@ == old(self).code@,
            instruction < old(self).code@.len() && is_jump(old(self).code@[instruction as int]) ==> r is Ok
                && final(self).code@ == old(self).code@.update(instruction as int, with_offset(old(self).code@[instruction as int], offset)),
    {
        let code = match self.code.get(instruction) {
            Ok(c) => c,
            Err(e) => return Err(e),
        };
        let new_code = match code {
            Opcode::Jump { offset: _ } => Opcode::Jump { offset },
            Opcode::JumpIfTrue { test, offset: _ } => Opcode::JumpIfTrue { test, offset },
            Opcode::JumpIfNotTrue { test, offset: _ } => Opcode::JumpIfNotTrue { test, offset },
            _ => {
                return Err(err_eval("Cannot modify jump offset for non-jump instruction"));
            },
        };
        self.code.set(instruction, new_code)
    }

    /// Push a literal-load operation to the back of the sequence
    pub fn push_loadlit(&mut self, dest: Register, literal_id: LiteralId) -> (r: Result<(), RuntimeError>)
        requires
            old(self).wf(),
        ensures
            final(self).wf(),
            final(self).literals == old(self).literals,
            r is Ok <==> !old(self).code.push_overflows(),
            r is Ok ==> final(self).code@ == old(self).code@.push(Opcode::LoadLiteral { dest, literal_id })
                && final(self).code.spec_capacity() == old(self).code.capacity_after_push(),
            r matches Err(e) ==> e@.kind == ErrorKindView::BadAllocation && e@.pos is None && final(self).code@ == old(self).code@,
    {
        self.code.push(Opcode::LoadLiteral { dest, literal_id })
    }

    /// Push a literal to the back of the literals list and return its index
    pub fn push_lit(&mut self, literal: TaggedPtr) -> (r: Result<LiteralId, RuntimeError>)
        requires
            old(self).wf(),
        ensures
            final(self).wf(),
            final(self).code == old(self).code,
            r is Ok <==> !old(self).literals.push_overflows(),
            r matches Ok(id) ==> id == old(self).literals@.len() as u16 && final(self).literals@ == old(self).literals@.push(literal)
                && final(self).literals.spec_capacity() == old(self).literals.capacity_after_push(),
            r matches Err(e) ==> e@.kind == ErrorKindView::BadAllocation && e@.pos is None && final(self).literals@ == old(self).literals@,
    {
        let lit_id = self.literals.length() as u16;
        match self.literals.push(literal) {
            Ok(()) => Ok(lit_id),
            Err(e) => Err(e),
        }
    }

    /// The instructions listed one per line, each as `Debug` shows it
    pub fn print(&self) -> (s: String)
        requires
            self.wf(),
        ensures
            s@ == code_listing(self.code@),
    {
        let mut texts: Vec<String> = Vec::new();
        let n = self.code.length();
        let mut i: ArraySize = 0;
        proof {
            assert(texts@.map_values(|l: String| l@) =~= self.code@.take(0).map_values(|op: Opcode| opcode_debug_text(op)));
        }
        while i < n
            invariant
                self.wf(),
                n == self.code@.len(),
                i <= n,
                texts@.map_values(|l: String| l@) == self.code@.take(i as int).map_values(|op: Opcode| opcode_debug_text(op)),
            decreases n - i,
        {
            let op = match self.code.get(i) {
                Ok(op) => op,
                Err(_) => {
                    return String::new();
                },
            };
            let ghost prev = texts@;
            proof {
                assert(prev.map_values(|l: String| l@).len() == prev.len());
                assert(prev.len() == i);
            }
            texts.push(opcode_debug(op));
            proof {
                let lhs = texts@.map_values(|l: String| l@);
                let rhs = self.code@.take(i + 1).map_values(|op: Opcode| opcode_debug_text(op));
                assert forall|j: int| 0 <= j < i + 1 implies lhs[j] == rhs[j] by {
                    if j < i {
                        assert(prev.map_values(|l: String| l@)[j] == self.code@.take(i as int).map_values(
                            |op: Opcode| opcode_debug_text(op),
                        )[j]);
                        assert(texts@[j] == prev[j]);
                    }
                }
                assert(lhs =~= rhs);
            }
            i = i + 1;
        }
        proof {
            assert(self.code@.take(n as int) =~= self.code@);
        }
        join_lines(&texts)
    }

    /// Get the index into the bytecode array of the last instruction
    pub fn last_instruction(&self) -> (i: ArraySize)
        requires
            self.wf(),
            self.code@.len() > 0,
        ensures
            i == self.code@.len() - 1,
    {
        self.code.length() - 1
    }

    /// Get the index into the bytecode array of the next instruction that will be pushed
    pub fn next_instruction(&self) -> (i: ArraySize)
        requires
            self.wf(),
        ensures
            i == self.code@.len(),
    {
        self.code.length()
    }

    /// To construct a closure, a lambda is lifted so that all free variables are converted into
    /// function parameters. All existing parameter and evaluation registers must be punted
    /// further back into the register window to make space. This function iterates over all
    /// instructions, incrementing each register by 1, to make space for 1 free variable param
    /// at the head of the register window.
    pub fn increment_all_registers(&mut self) -> (r: Result<(), RuntimeError>)
        requires
            old(self).wf(),
            forall|i: int| 0 <= i < old(self).code@.len() ==> registers_below_max(#[trigger] old(self).code@[i]),
        ensures
            final(self).wf(),
            r is Ok,
            final(self).literals == old(self).literals,
            final(self).code@ == old(self).code@.map_values(|op: Opcode| op_registers_up(op)),
    {
        let len = self.code.length();
        let mut i: ArraySize = 0;
        while i < len
            invariant
                self.wf(),
                len == self.code@.len(),
                len == old(self).code@.len(),
                i <= len,
                self.literals == old(self).literals,
                forall|j: int| 0 <= j < i ==> self.code@[j] == op_registers_up(#[trigger] old(self).code@[j]),
                forall|j: int| i <= j < len ==> self.code@[j] == #[trigger] old(self).code@[j],
                forall|j: int| 0 <= j < old(self).code@.len() ==> registers_below_max(#[trigger] old(self).code@[j]),
            decreases len - i,
        {
            let op = match self.code.get(i) {
                Ok(op) => op,
                Err(e) => return Err(e),
            };
            assert(old(self).code@[i as int] == op);
            let new_op = opcode_registers_up(op);
            let _ = self.code.set(i, new_op);
            i = i + 1;
        }
        assert(self.code@ =~= old(self).code@.map_values(|op: Opcode| op_registers_up(op)));
        Ok(())
    }
}

/// Interpret a ByteCode as a stream of instructions, handling an
/// instruction-pointer abstraction.
#[derive(Copy, Clone)]
pub struct InstructionStream {
    /// Address of the `ByteCode` in managed memory
    pub instructions: usize,
    pub ip: ArraySize,
}

impl InstructionStream {
    /// Create an InstructionStream over the ByteCode at the given address,
    /// starting at its first instruction
    pub fn allocate(code: usize) -> (s: InstructionStream)
        ensures
            s.instructions == code,
            s.ip == 0,
    {
        InstructionStream { instructions: code, ip: 0 }
    }

    /// Change to a different stack frame, either as a function call or a return
    pub fn switch_frame(&mut self, code: usize, ip: ArraySize)
        ensures
            final(self).instructions == code,
            final(self).ip == ip,
    {
        self.instructions = code;
        self.ip = ip;
    }

    /// Retrieve the next instruction and advance the instruction pointer, or
    /// a bounds error where the pointer is past the end of the code
    pub fn get_next_opcode(&mut self, mem: &Memory) -> (r: Result<Opcode, RuntimeError>)
        requires
            mem.wf(),
            mem.is_bytecode(old(self).instructions as int),
        ensures
            final(self).instructions == old(self).instructions,
            old(self).ip < mem.bytecode_at(old(self).instructions as int).code@.len() ==> r == Ok::<Opcode, RuntimeError>(
                mem.bytecode_at(old(self).instructions as int).code@[old(self).ip as int],
            ) && final(self).ip == old(self).ip + 1,
            old(self).ip >= mem.bytecode_at(old(self).instructions as int).code@.len() ==> (r matches Err(e)
                && is_bounds_error(e)) && final(self).ip == old(self).ip,
    {
        let code = mem.get_bytecode(self.instructions);
        proof {
            assert(mem.object_wf(self.instructions as int));
            code.code.lemma_wf_len();
        }
        let instr = match code.code.get(self.ip) {
            Ok(op) => op,
            Err(e) => return Err(e),
        };
        self.ip = self.ip + 1;
        Ok(instr)
    }

    /// Retrieve the literal with the given id from the current code
    pub fn get_literal(&self, mem: &Memory, lit_id: LiteralId) -> (r: Result<TaggedPtr, RuntimeError>)
        requires
            mem.wf(),
            mem.is_bytecode(self.instructions as int),
        ensures
            lit_id < mem.bytecode_at(self.instructions as int).literals@.len() ==> r == Ok::<TaggedPtr, RuntimeError>(
                mem.bytecode_at(self.instructions as int).literals@[lit_id as int],
            ),
            lit_id >= mem.bytecode_at(self.instructions as int).literals@.len() ==> (r matches Err(e) && is_bounds_error(e)),
    {
        let code = mem.get_bytecode(self.instructions);
        proof {
            assert(mem.object_wf(self.instructions as int));
        }
        code.literals.get(lit_id as ArraySize)
    }

    /// Return the next instruction pointer
    pub fn get_next_ip(&self) -> (ip: ArraySize)
        ensures
            ip == self.ip,
    {
        self.ip
    }

    /// Adjust the instruction pointer by the given signed offset from the
    /// current ip, wrapping around at the width of an `ArraySize`
    pub fn jump(&mut self, offset: JumpOffset)
        ensures
            final(self).instructions == old(self).instructions,
            final(self).ip == (old(self).ip as int + offset as int) as ArraySize,
    {
        let ip: i64 = self.ip as i64 + offset as i64;
        self.ip = ip as ArraySize;
    }
}

} // verus!
