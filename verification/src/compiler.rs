//! The compiler from s-expressions to byte code
use vstd::prelude::*;
use vstd::string::StringExecFns;

use crate::array::Array;
use crate::bytecode::{code_supported, is_jump, supported, with_offset, ByteCode, JumpOffset, Opcode, Register, JUMP_UNKNOWN};
use crate::error::{err_eval, ErrorKind, ErrorKindView, RuntimeError};
use crate::function::Function;
use crate::memory::{ptr_rank, Memory, Object, ObjectView};
use crate::pair::{get_one_from_pair_list, get_two_from_pair_list, spec_vec_from_pairs, vec_from_pairs};
use crate::rawarray::{spec_array_growth, ArraySize};
use crate::taggedptr::TaggedPtr;

verus! {

/// The model of compilation in progress: the code and literals of the
/// function being compiled with the capacities of their arrays, the next free
/// register, and the symbol table and objects of managed memory.
pub struct CState {
    pub code: Seq<Opcode>,
    pub code_cap: nat,
    pub lits: Seq<TaggedPtr>,
    pub lits_cap: nat,
    pub next_reg: nat,
    pub syms: Seq<Seq<char>>,
    pub objs: Seq<ObjectView>,
}

/// The outcome of a compilation step: the new state and a value, or an error
pub type CResult<T> = Result<(CState, T), ErrorKindView>;

/// The message of running out of registers
pub open spec fn registers_exhausted() -> Seq<char> {
    "Too many registers needed"@
}

/// The message of a jump too far for an offset
pub open spec fn jump_too_far() -> Seq<char> {
    "Jump offset out of range"@
}

/// The state for compiling a new function in the given memory
pub open spec fn fresh_state(syms: Seq<Seq<char>>, objs: Seq<ObjectView>) -> CState {
    CState {
        code: Seq::empty(),
        code_cap: 0,
        lits: Seq::empty(),
        lits_cap: 0,
        next_reg: 0,
        syms,
        objs,
    }
}

/// The capacity of an array of the given length and capacity after one push
pub open spec fn grown(len: nat, cap: nat) -> nat {
    if len == cap {
        spec_array_growth(cap)
    } else {
        cap
    }
}

/// Push an instruction
pub open spec fn sp_push(st: CState, op: Opcode) -> Result<CState, ErrorKindView> {
    let cap = grown(st.code.len(), st.code_cap);
    if cap > ArraySize::MAX {
        Err(ErrorKindView::BadAllocation)
    } else {
        Ok(CState { code: st.code.push(op), code_cap: cap, ..st })
    }
}

/// Push a literal, giving its literal id
pub open spec fn sp_push_lit(st: CState, lit: TaggedPtr) -> CResult<nat> {
    let cap = grown(st.lits.len(), st.lits_cap);
    if cap > ArraySize::MAX {
        Err(ErrorKindView::BadAllocation)
    } else {
        Ok((CState { lits: st.lits.push(lit), lits_cap: cap, ..st }, (st.lits.len() as u16) as nat))
    }
}

/// Take the next free register
pub open spec fn sp_acquire(st: CState) -> CResult<nat> {
    if st.next_reg >= 255 {
        Err(ErrorKindView::EvalError(registers_exhausted()))
    } else {
        Ok((CState { next_reg: st.next_reg + 1, ..st }, st.next_reg))
    }
}

/// Load a literal into a new register, giving the register
pub open spec fn sp_load_lit(st: CState, lit: TaggedPtr) -> CResult<nat> {
    match sp_acquire(st) {
        Err(e) => Err(e),
        Ok((s1, reg)) => match sp_push_lit(s1, lit) {
            Err(e) => Err(e),
            Ok((s2, id)) => match sp_push(s2, Opcode::LoadLiteral { dest: reg as u8, literal_id: id as u16 }) {
                Err(e) => Err(e),
                Ok(s3) => Ok((s3, reg)),
            },
        },
    }
}

/// Intern a symbol name, giving its address
pub open spec fn sp_intern(st: CState, name: Seq<char>) -> (CState, nat) {
    if st.syms.contains(name) {
        (st, st.syms.index_of(name) as nat)
    } else {
        (CState { syms: st.syms.push(name), ..st }, st.syms.len())
    }
}

/// The two values of the pair a pointer points at, if it does
pub open spec fn pair_of(objs: Seq<ObjectView>, p: TaggedPtr) -> Option<(TaggedPtr, TaggedPtr)> {
    match p {
        TaggedPtr::Pair(i) => if i < objs.len() && objs[i as int] is Pair {
            Some((objs[i as int]->Pair_0, objs[i as int]->Pair_1))
        } else {
            None
        },
        _ => None,
    }
}

/// The single value of a one-item list
pub open spec fn sp_one(objs: Seq<ObjectView>, params: TaggedPtr) -> Result<TaggedPtr, ErrorKindView> {
    match pair_of(objs, params) {
        Some((first, second)) => if second is Nil {
            Ok(first)
        } else {
            Err(ErrorKindView::EvalError("Expected no more than one value in Pair list"@))
        },
        None => Err(ErrorKindView::EvalError("Expected a Pair list"@)),
    }
}

/// The two values of a two-item list
pub open spec fn sp_two(objs: Seq<ObjectView>, params: TaggedPtr) -> Result<(TaggedPtr, TaggedPtr), ErrorKindView> {
    match pair_of(objs, params) {
        Some((first, second)) => match pair_of(objs, second) {
            Some((second_value, rest)) => if rest is Nil {
                Ok((first, second_value))
            } else {
                Err(ErrorKindView::EvalError("Expected no more than two values in Pair list"@))
            },
            None => Err(ErrorKindView::EvalError("Expected no less than two values in Pair list"@)),
        },
        None => Err(ErrorKindView::EvalError("Expected a Pair list"@)),
    }
}

/// A two-register instruction of the given kind with its registers filled in
pub open spec fn fill2(op: Opcode, dest: nat, reg: nat) -> Opcode {
    match op {
        Opcode::IsAtom { .. } => Opcode::IsAtom { dest: dest as u8, test: reg as u8 },
        Opcode::IsNil { .. } => Opcode::IsNil { dest: dest as u8, test: reg as u8 },
        Opcode::FirstOfPair { .. } => Opcode::FirstOfPair { dest: dest as u8, reg: reg as u8 },
        Opcode::SecondOfPair { .. } => Opcode::SecondOfPair { dest: dest as u8, reg: reg as u8 },
        _ => op,
    }
}

/// A three-register instruction of the given kind with its registers filled in
pub open spec fn fill3(op: Opcode, dest: nat, reg1: nat, reg2: nat) -> Opcode {
    match op {
        Opcode::MakePair { .. } => Opcode::MakePair { dest: dest as u8, reg1: reg1 as u8, reg2: reg2 as u8 },
        Opcode::IsIdentical { .. } => Opcode::IsIdentical {
            dest: dest as u8,
            test1: reg1 as u8,
            test2: reg2 as u8,
        },
        _ => op,
    }
}

/// Set the offset of the jump at the address to reach the next instruction
/// to be pushed
pub open spec fn sp_patch(st: CState, address: nat) -> Result<CState, ErrorKindView> {
    if address >= st.code.len() {
        Err(ErrorKindView::BoundsError)
    } else if st.code.len() - address - 1 > 0x7fff {
        Err(ErrorKindView::EvalError(jump_too_far()))
    } else if !is_jump(st.code[address as int]) {
        Err(ErrorKindView::EvalError("Cannot modify jump offset for non-jump instruction"@))
    } else {
        Ok(
            CState {
                code: st.code.update(
                    address as int,
                    with_offset(st.code[address as int], (st.code.len() - address - 1) as i16),
                ),
                ..st
            },
        )
    }
}

/// Patch each of the jumps from the `k`th on
pub open spec fn sp_patch_all(st: CState, addresses: Seq<nat>, k: nat) -> Result<CState, ErrorKindView>
    decreases addresses.len() - k,
{
    if k >= addresses.len() {
        Ok(st)
    } else {
        match sp_patch(st, addresses[k as int]) {
            Err(e) => Err(e),
            Ok(s1) => sp_patch_all(s1, addresses, k + 1),
        }
    }
}

/// An error that a well-formed memory never gives: a value not below the
/// pointer it was reached from
pub open spec fn unranked() -> ErrorKindView {
    ErrorKindView::BoundsError
}

/// Compile the evaluation of an expression, giving the register of its result
pub open spec fn sp_eval(st: CState, ast: TaggedPtr) -> CResult<nat>
    decreases ptr_rank(ast), 3nat, 0nat,
{
    match ast {
        TaggedPtr::Pair(_) => match pair_of(st.objs, ast) {
            Some((function, params)) => sp_apply(st, function, params, ptr_rank(ast)),
            None => sp_load_lit(st, ast),
        },
        TaggedPtr::Symbol(s) => {
            let name = st.syms[s as int];
            if name == "nil"@ {
                sp_load_lit(st, TaggedPtr::Nil)
            } else if name == "true"@ {
                let (s1, t) = sp_intern(st, "true"@);
                sp_load_lit(s1, TaggedPtr::Symbol(t as usize))
            } else {
                match sp_load_lit(st, ast) {
                    Err(e) => Err(e),
                    Ok((s1, reg)) => match sp_push(s1, Opcode::LoadGlobal { dest: reg as u8, name: reg as u8 }) {
                        Err(e) => Err(e),
                        Ok(s2) => Ok((s2, reg)),
                    },
                }
            }
        },
        _ => sp_load_lit(st, ast),
    }
}

/// Compile the evaluation of a value reached from a pointer of the given rank
pub open spec fn sp_eval_below(st: CState, ast: TaggedPtr, bound: nat) -> CResult<nat>
    decreases bound, 0nat, 0nat,
{
    if ptr_rank(ast) < bound {
        sp_eval(st, ast)
    } else {
        Err(unranked())
    }
}

/// Compile a function application: a special form named by its symbol, or a
/// call of the global function the symbol is bound to (with no arguments)
pub open spec fn sp_apply(st: CState, function: TaggedPtr, params: TaggedPtr, bound: nat) -> CResult<nat>
    decreases bound, 2nat, 0nat,
{
    match function {
        TaggedPtr::Symbol(s) => {
            let name = st.syms[s as int];
            if name == "quote"@ {
                match sp_one(st.objs, params) {
                    Err(e) => Err(e),
                    Ok(v) => sp_load_lit(st, v),
                }
            } else if name == "atom?"@ {
                sp_op2(st, Opcode::IsAtom { dest: 0, test: 0 }, params, bound)
            } else if name == "nil?"@ {
                sp_op2(st, Opcode::IsNil { dest: 0, test: 0 }, params, bound)
            } else if name == "car"@ {
                sp_op2(st, Opcode::FirstOfPair { dest: 0, reg: 0 }, params, bound)
            } else if name == "cdr"@ {
                sp_op2(st, Opcode::SecondOfPair { dest: 0, reg: 0 }, params, bound)
            } else if name == "cons"@ {
                sp_op3(st, Opcode::MakePair { dest: 0, reg1: 0, reg2: 0 }, params, bound)
            } else if name == "cond"@ {
                sp_cond(st, params, bound)
            } else if name == "is?"@ {
                sp_op3(st, Opcode::IsIdentical { dest: 0, test1: 0, test2: 0 }, params, bound)
            } else if name == "set"@ {
                sp_assign(st, params, bound)
            } else if name == "def"@ {
                sp_named_function(st, params, bound)
            } else {
                match sp_acquire(st) {
                    Err(e) => Err(e),
                    Ok((s1, result)) => match sp_eval_below(s1, function, bound) {
                        Err(e) => Err(e),
                        Ok((s2, fn_reg)) => match sp_push(
                            s2,
                            Opcode::Call { function: fn_reg as u8, dest: result as u8, arg_count: 0 },
                        ) {
                            Err(e) => Err(e),
                            Ok(s3) => Ok((s3, result)),
                        },
                    },
                }
            }
        },
        _ => Err(ErrorKindView::EvalError("Non symbol in function-call position"@)),
    }
}

/// Compile a one-argument operation
pub open spec fn sp_op2(st: CState, op: Opcode, params: TaggedPtr, bound: nat) -> CResult<nat>
    decreases bound, 1nat, 0nat,
{
    match sp_acquire(st) {
        Err(e) => Err(e),
        Ok((s1, result)) => match sp_one(s1.objs, params) {
            Err(e) => Err(e),
            Ok(v) => match sp_eval_below(s1, v, bound) {
                Err(e) => Err(e),
                Ok((s2, reg)) => match sp_push(s2, fill2(op, result, reg)) {
                    Err(e) => Err(e),
                    Ok(s3) => Ok((s3, result)),
                },
            },
        },
    }
}

/// Compile a two-argument operation
pub open spec fn sp_op3(st: CState, op: Opcode, params: TaggedPtr, bound: nat) -> CResult<nat>
    decreases bound, 1nat, 0nat,
{
    match sp_acquire(st) {
        Err(e) => Err(e),
        Ok((s1, result)) => match sp_two(s1.objs, params) {
            Err(e) => Err(e),
            Ok((first, second)) => match sp_eval_below(s1, first, bound) {
                Err(e) => Err(e),
                Ok((s2, reg1)) => match sp_eval_below(s2, second, bound) {
                    Err(e) => Err(e),
                    Ok((s3, reg2)) => match sp_push(s3, fill3(op, result, reg1, reg2)) {
                        Err(e) => Err(e),
                        Ok(s4) => Ok((s4, result)),
                    },
                },
            },
        },
    }
}

/// Compile an assignment `(set expr name)`: evaluate the two expressions (the
/// second first), and bind the value of the first to the global named by the
/// symbol the second evaluates to. The result is the value bound.
pub open spec fn sp_assign(st: CState, params: TaggedPtr, bound: nat) -> CResult<nat>
    decreases bound, 1nat, 0nat,
{
    match sp_two(st.objs, params) {
        Err(e) => Err(e),
        Ok((first, second)) => match sp_eval_below(st, second, bound) {
            Err(e) => Err(e),
            Ok((s1, name)) => match sp_eval_below(s1, first, bound) {
                Err(e) => Err(e),
                Ok((s2, value)) => match sp_push(s2, Opcode::StoreGlobal { src: value as u8, name: name as u8 }) {
                    Err(e) => Err(e),
                    Ok(s3) => Ok((s3, value)),
                },
            },
        },
    }
}

/// Compile one (condition expression) clause of a `cond`: first point the
/// previous clause's condition jump here, then evaluate the condition into
/// the result register, jump past the clause where it is not true, evaluate
/// the expression into the result register and jump to the end. Gives the
/// addresses of the condition jump and of the end jump.
pub open spec fn sp_clause(
    st: CState,
    cond: TaggedPtr,
    expr: TaggedPtr,
    bound: nat,
    result: nat,
    last_cond_jump: Option<nat>,
) -> CResult<(nat, nat)>
    decreases bound, 0nat, 1nat,
{
    match (match last_cond_jump {
        Some(address) => sp_patch(st, address),
        None => Ok(st),
    }) {
        Err(e) => Err(e),
        Ok(s1) => match sp_eval_below(CState { next_reg: result, ..s1 }, cond, bound) {
            Err(e) => Err(e),
            Ok((s2, cond_result)) => match sp_push(
                s2,
                Opcode::JumpIfNotTrue { test: cond_result as u8, offset: JUMP_UNKNOWN },
            ) {
                Err(e) => Err(e),
                Ok(s3) => match sp_eval_below(CState { next_reg: result, ..s3 }, expr, bound) {
                    Err(e) => Err(e),
                    Ok((s4, _)) => match sp_push(s4, Opcode::Jump { offset: JUMP_UNKNOWN }) {
                        Err(e) => Err(e),
                        Ok(s5) => Ok((s5, ((s3.code.len() - 1) as nat, (s5.code.len() - 1) as nat))),
                    },
                },
            },
        },
    }
}

/// Compile the clauses of a `cond` from `head` on, one after the other.
/// Gives the address of the last condition jump and of every end jump.
pub open spec fn sp_cond_clauses(
    st: CState,
    head: TaggedPtr,
    bound: nat,
    result: nat,
    last_cond_jump: Option<nat>,
    end_jumps: Seq<nat>,
) -> CResult<(Option<nat>, Seq<nat>)>
    decreases bound, 0nat, ptr_rank(head) + 2,
{
    match pair_of(st.objs, head) {
        None => Ok((st, (last_cond_jump, end_jumps))),
        Some((cond, rest)) => match pair_of(st.objs, rest) {
            None => Err(ErrorKindView::EvalError("Unexpected end of cond list"@)),
            Some((expr, next)) => match sp_clause(st, cond, expr, bound, result, last_cond_jump) {
                Err(e) => Err(e),
                Ok((s1, (cond_jump, end_jump))) => if ptr_rank(next) < ptr_rank(head) {
                    sp_cond_clauses(s1, next, bound, result, Some(cond_jump), end_jumps.push(end_jump))
                } else {
                    Err(unranked())
                },
            },
        },
    }
}

/// Finish a `cond` after its clauses: the last condition jump pointed at a
/// nil result, taken where no condition was true, then every end jump pointed
/// past it
pub open spec fn sp_cond_finish(st: CState, result: nat, last_cond_jump: Option<nat>, end_jumps: Seq<nat>) -> CResult<nat> {
    match (match last_cond_jump {
        Some(address) => match sp_patch(st, address) {
            Err(e) => Err(e),
            Ok(s1) => match sp_acquire(CState { next_reg: result, ..s1 }) {
                Err(e) => Err(e),
                Ok((s2, reg)) => sp_push(s2, Opcode::LoadNil { dest: reg as u8 }),
            },
        },
        None => Ok(st),
    }) {
        Err(e) => Err(e),
        Ok(s3) => match sp_patch_all(s3, end_jumps, 0) {
            Err(e) => Err(e),
            Ok(s4) => Ok((s4, result)),
        },
    }
}

/// Compile a `cond`: its clauses, then its finish. The result register is
/// the next free register at the start.
pub open spec fn sp_cond(st: CState, params: TaggedPtr, bound: nat) -> CResult<nat>
    decreases bound, 1nat, 0nat,
{
    match sp_cond_clauses(st, params, bound, st.next_reg, None, Seq::empty()) {
        Err(e) => Err(e),
        Ok((s1, (last_cond_jump, end_jumps))) => sp_cond_finish(s1, st.next_reg, last_cond_jump, end_jumps),
    }
}

/// Compile a named function definition `(def name (params) expr ...)`:
/// compile the function, then bind it to the global name
pub open spec fn sp_named_function(st: CState, params: TaggedPtr, bound: nat) -> CResult<nat>
    decreases bound, 1nat, 1nat,
{
    match spec_vec_from_pairs(st.objs, params) {
        Err(e) => Err(e),
        Ok(items) => if items.len() < 3 {
            Err(ErrorKindView::EvalError("A function definition must have at least (name params expr)"@))
        } else {
            match spec_vec_from_pairs(st.objs, items[1]) {
                Err(e) => Err(e),
                Ok(fn_params) => match sp_function(st.syms, st.objs, items[0], fn_params, items.skip(2), bound) {
                    Err(e) => Err(e),
                    Ok((syms, objs, fn_object)) => match sp_load_lit(CState { syms, objs, ..st }, items[0]) {
                        Err(e) => Err(e),
                        Ok((s2, name_reg)) => match sp_load_lit(s2, fn_object) {
                            Err(e) => Err(e),
                            Ok((s3, function_reg)) => match sp_push(
                                s3,
                                Opcode::StoreGlobal { src: function_reg as u8, name: name_reg as u8 },
                            ) {
                                Err(e) => Err(e),
                                Ok(s4) => Ok((s4, function_reg)),
                            },
                        },
                    },
                },
            }
        },
    }
}

/// Compile the expressions from the `k`th on, in turn, giving the register of
/// the last one's result
pub open spec fn sp_exprs(st: CState, exprs: Seq<TaggedPtr>, k: nat, result_reg: nat, bound: nat) -> CResult<nat>
    decreases bound, 0nat, exprs.len() - k,
{
    if k >= exprs.len() {
        Ok((st, result_reg))
    } else {
        match sp_eval_below(st, exprs[k as int], bound) {
            Err(e) => Err(e),
            Ok((s1, reg)) => sp_exprs(s1, exprs, k + 1, reg, bound),
        }
    }
}

/// Compile a function with the name, parameter names and body expressions in
/// a memory with the given symbols and objects: its byte code and then the
/// function itself are added to the objects. Gives the symbols and objects
/// afterwards and the pointer to the function.
pub open spec fn sp_function(
    syms: Seq<Seq<char>>,
    objs: Seq<ObjectView>,
    name: TaggedPtr,
    params: Seq<TaggedPtr>,
    exprs: Seq<TaggedPtr>,
    bound: nat,
) -> Result<(Seq<Seq<char>>, Seq<ObjectView>, TaggedPtr), ErrorKindView>
    decreases bound, 1nat, 0nat,
{
    if !(name is Symbol || name is Nil) {
        Err(ErrorKindView::EvalError("A function name may be nil (anonymous) or a symbol (named)"@))
    } else if params.len() > 250 {
        Err(ErrorKindView::EvalError("A function cannot have more than 250 parameters"@))
    } else if exprs.len() == 0 {
        Err(ErrorKindView::EvalError("A function must have at least one expression"@))
    } else {
        match sp_exprs(fresh_state(syms, objs), exprs, 0, 0, bound) {
            Err(e) => Err(e),
            Ok((s1, result_reg)) => match sp_push(s1, Opcode::Return { reg: result_reg as u8 }) {
                Err(e) => Err(e),
                Ok(s2) => Ok(finish_function(s2, name, params)),
            },
        }
    }
}

/// Add the compiled byte code and then the function to the objects
pub open spec fn finish_function(st: CState, name: TaggedPtr, params: Seq<TaggedPtr>) -> (
    Seq<Seq<char>>,
    Seq<ObjectView>,
    TaggedPtr,
) {
    let code_addr = st.objs.len();
    (
        st.syms,
        st.objs.push(ObjectView::ByteCode(st.code, st.lits)).push(ObjectView::Function(name, params, code_addr)),
        TaggedPtr::Function((code_addr + 1) as usize),
    )
}

/// Compile an outermost-level expression as the body of an anonymous function
/// with no parameters. Gives the memory's symbols and objects afterwards and
/// the pointer to the function.
pub open spec fn spec_compile(syms: Seq<Seq<char>>, objs: Seq<ObjectView>, ast: TaggedPtr) -> Result<
    (Seq<Seq<char>>, Seq<ObjectView>, TaggedPtr),
    ErrorKindView,
> {
    match sp_eval(fresh_state(syms, objs), ast) {
        Err(e) => Err(e),
        Ok((s1, result_reg)) => match sp_push(s1, Opcode::Return { reg: result_reg as u8 }) {
            Err(e) => Err(e),
            Ok(s2) => Ok(finish_function(s2, TaggedPtr::Nil, Seq::empty())),
        },
    }
}

/// Whether two strings are equal
fn str_eq(a: &str, b: &str) -> (r: bool)
    ensures
        r == (a@ == b@),
{
    let sa = String::from_str(a);
    let sb = String::from_str(b);
    sa.eq(&sb)
}

/// Whether the symbol has the given name
fn name_is(mem: &Memory, sym: TaggedPtr, name: &str) -> (r: bool)
    requires
        sym is Symbol,
        mem.valid_ptr(sym),
    ensures
        r == (mem.syms@[sym->Symbol_0 as int] == name@),
{
    str_eq(mem.symbol_name(sym), name)
}

/// A two-register instruction of the given kind with its registers filled in
fn fill_op2(op: Opcode, dest: Register, reg: Register) -> (r: Opcode)
    requires
        supported(op),
    ensures
        supported(r),
        r == fill2(op, dest as nat, reg as nat),
{
    match op {
        Opcode::IsAtom { .. } => Opcode::IsAtom { dest, test: reg },
        Opcode::IsNil { .. } => Opcode::IsNil { dest, test: reg },
        Opcode::FirstOfPair { .. } => Opcode::FirstOfPair { dest, reg },
        Opcode::SecondOfPair { .. } => Opcode::SecondOfPair { dest, reg },
        _ => op,
    }
}

/// A three-register instruction of the given kind with its registers filled in
fn fill_op3(op: Opcode, dest: Register, reg1: Register, reg2: Register) -> (r: Opcode)
    requires
        supported(op),
    ensures
        supported(r),
        r == fill3(op, dest as nat, reg1 as nat, reg2 as nat),
{
    match op {
        Opcode::MakePair { .. } => Opcode::MakePair { dest, reg1, reg2 },
        Opcode::IsIdentical { .. } => Opcode::IsIdentical { dest, test1: reg1, test2: reg2 },
        _ => op,
    }
}

/// In a well-formed memory, the pair a valid pointer points at is the pair
/// object at its address, and both its values are valid and of lower rank
proof fn lemma_pair_of(mem: &Memory, p: TaggedPtr)
    requires
        mem.wf(),
        mem.valid_ptr(p),
    ensures
        p matches TaggedPtr::Pair(i) ==> pair_of(mem.object_views(), p) == Some(
            (mem.pair_at(i as int).first, mem.pair_at(i as int).second),
        ) && mem.valid_ptr(mem.pair_at(i as int).first) && mem.valid_ptr(mem.pair_at(i as int).second)
            && ptr_rank(mem.pair_at(i as int).first) < ptr_rank(p) && ptr_rank(mem.pair_at(i as int).second)
            < ptr_rank(p),
        !(p is Pair) ==> pair_of(mem.object_views(), p) is None,
{
    match p {
        TaggedPtr::Pair(i) => {
            assert(mem.object_wf(i as int));
            assert(mem.object_views()[i as int] == mem.objects@[i as int]@);
        },
        _ => {},
    }
}

/// A compile-time intermediate data structure: the byte code of the
/// function being compiled and the next free register
struct Compiler {
    bytecode: ByteCode,
    next_reg: Register,
}

impl Compiler {
    /// The model of the compilation state in the given memory
    spec fn state(&self, mem: &Memory) -> CState {
        CState {
            code: self.bytecode.code@,
            code_cap: self.bytecode.code.spec_capacity(),
            lits: self.bytecode.literals@,
            lits_cap: self.bytecode.literals.spec_capacity(),
            next_reg: self.next_reg as nat,
            syms: mem.syms@,
            objs: mem.object_views(),
        }
    }

    /// The byte code is well-formed and its literals are valid in the memory
    spec fn inv(&self, mem: &Memory) -> bool {
        &&& self.bytecode.wf()
        &&& code_supported(self.bytecode.code@)
        &&& forall|k: int| 0 <= k < self.bytecode.literals@.len() ==> mem.valid_ptr(#[trigger] self.bytecode.literals@[k])
    }

    /// Extending memory keeps the compiler's literals valid
    proof fn lemma_inv_extends(&self, mem: &Memory, old_mem: &Memory)
        requires
            self.inv(old_mem),
            mem.extends(old_mem),
        ensures
            self.inv(mem),
    {
        assert forall|k: int| 0 <= k < self.bytecode.literals@.len() implies mem.valid_ptr(#[trigger] self.bytecode.literals@[k]) by {
            mem.lemma_valid_extends(old_mem, self.bytecode.literals@[k]);
        }
    }

    fn new(mem: &Memory) -> (c: Compiler)
        ensures
            c.inv(mem),
            c.state(mem) == fresh_state(mem.syms@, mem.object_views()),
    {
        let c = Compiler { bytecode: ByteCode::new(), next_reg: 0 };
        proof {
            c.bytecode.code.lemma_wf_len();
            c.bytecode.literals.lemma_wf_len();
        }
        c
    }

    /// Take the next free register; the naive allocation gives every result its own
    fn acquire_reg(&mut self, mem: &Memory) -> (r: Result<Register, RuntimeError>)
        requires
            old(self).inv(mem),
        ensures
            final(self).inv(mem),
            match sp_acquire(old(self).state(mem)) {
                Ok((st, reg)) => r matches Ok(x) && x as nat == reg && final(self).state(mem) == st,
                Err(k) => r matches Err(e) && e@.kind == k && e@.pos is None,
            },
    {
        if self.next_reg == 255 {
            return Err(err_eval("Too many registers needed"));
        }
        let reg = self.next_reg;
        self.next_reg = self.next_reg + 1;
        Ok(reg)
    }

    /// Push an instruction
    fn push_op(&mut self, mem: &Memory, op: Opcode) -> (r: Result<(), RuntimeError>)
        requires
            old(self).inv(mem),
            supported(op),
        ensures
            final(self).inv(mem),
            match sp_push(old(self).state(mem), op) {
                Ok(st) => r is Ok && final(self).state(mem) == st,
                Err(k) => r matches Err(e) && e@.kind == k && e@.pos is None,
            },
    {
        proof {
            self.bytecode.code.lemma_wf_len();
        }
        let ghost before = self.bytecode.code@;
        let r = self.bytecode.push(op);
        assert forall|i: int| 0 <= i < self.bytecode.code@.len() implies supported(#[trigger] self.bytecode.code@[i]) by {
            if i < before.len() {
                assert(self.bytecode.code@[i] == before[i]);
            }
        }
        r
    }

    /// Push a literal onto the literals list and a load instruction onto the
    /// bytecode list
    fn push_load_literal(&mut self, mem: &Memory, literal: TaggedPtr) -> (r: Result<Register, RuntimeError>)
        requires
            old(self).inv(mem),
            mem.valid_ptr(literal),
        ensures
            final(self).inv(mem),
            match sp_load_lit(old(self).state(mem), literal) {
                Ok((st, reg)) => r matches Ok(x) && x as nat == reg && final(self).state(mem) == st,
                Err(k) => r matches Err(e) && e@.kind == k && e@.pos is None,
            },
    {
        let reg = match self.acquire_reg(mem) {
            Ok(reg) => reg,
            Err(e) => return Err(e),
        };
        proof {
            self.bytecode.literals.lemma_wf_len();
        }
        let ghost before = self.bytecode.literals@;
        let lit_id = match self.bytecode.push_lit(literal) {
            Ok(id) => id,
            Err(e) => return Err(e),
        };
        assert forall|k: int| 0 <= k < self.bytecode.literals@.len() implies mem.valid_ptr(#[trigger] self.bytecode.literals@[k]) by {
            if k < before.len() {
                assert(self.bytecode.literals@[k] == before[k]);
            }
        }
        match self.push_op(mem, Opcode::LoadLiteral { dest: reg, literal_id: lit_id }) {
            Ok(()) => Ok(reg),
            Err(e) => Err(e),
        }
    }

    /// Set the offset of the jump at the address to reach the next
    /// instruction to be pushed
    fn patch_jump(&mut self, mem: &Memory, address: ArraySize) -> (r: Result<(), RuntimeError>)
        requires
            old(self).inv(mem),
        ensures
            final(self).inv(mem),
            match sp_patch(old(self).state(mem), address as nat) {
                Ok(st) => r is Ok && final(self).state(mem) == st,
                Err(k) => r matches Err(e) && e@.kind == k && e@.pos is None,
            },
    {
        let next = self.bytecode.next_instruction();
        if address >= next {
            return Err(RuntimeError::new(ErrorKind::BoundsError));
        }
        let offset = next - address - 1;
        if offset > 0x7fff {
            return Err(err_eval("Jump offset out of range"));
        }
        let ghost before = self.bytecode.code@;
        let r = self.bytecode.update_jump_offset(address, offset as JumpOffset);
        assert forall|i: int| 0 <= i < self.bytecode.code@.len() implies supported(#[trigger] self.bytecode.code@[i]) by {
            assert(supported(before[i]));
        }
        r
    }

    /// Reset the next register back to the given one so that it is reused
    fn reset_reg(&mut self, reg: Register)
        ensures
            final(self).bytecode == old(self).bytecode,
            final(self).next_reg == reg,
    {
        self.next_reg = reg;
    }
}

impl Compiler {
    /// Compile the evaluation of an expression, giving the register of its result
    fn compile_eval(&mut self, mem: &mut Memory, ast: TaggedPtr) -> (r: Result<Register, RuntimeError>)
        requires
            old(self).inv(old(mem)),
            old(mem).wf(),
            old(mem).valid_ptr(ast),
        ensures
            final(mem).wf(),
            final(mem).extends(old(mem)),
            final(self).inv(final(mem)),
            match sp_eval(old(self).state(old(mem)), ast) {
                Ok((st, reg)) => r matches Ok(x) && x as nat == reg && final(self).state(final(mem)) == st,
                Err(k) => r matches Err(e) && e@.kind == k && e@.pos is None,
            },
        decreases ptr_rank(ast), 3nat, 0nat,
    {
        proof {
            lemma_pair_of(mem, ast);
            mem.lemma_extends_refl();
        }
        match ast {
            TaggedPtr::Pair(i) => {
                let (first, second) = {
                    let pair = mem.get_pair(i);
                    (pair.first, pair.second)
                };
                self.compile_apply(mem, first, second, Ghost(ptr_rank(ast)))
            },
            TaggedPtr::Symbol(_) => {
                if name_is(mem, ast, "nil") {
                    self.push_load_literal(mem, TaggedPtr::Nil)
                } else if name_is(mem, ast, "true") {
                    let ghost old_mem = *mem;
                    let t = mem.lookup_sym("true");
                    proof {
                        self.lemma_inv_extends(mem, &old_mem);
                        let ghost (s1, idx) = sp_intern(self.state(&old_mem), "true"@);
                        if old_mem.syms@.contains("true"@) {
                            let c = old_mem.syms@.index_of("true"@);
                            assert(old_mem.syms@[c] == "true"@);
                            assert(mem.syms@[t->Symbol_0 as int] == "true"@);
                        } else {
                            assert(t->Symbol_0 == old_mem.syms@.len());
                        }
                        assert(s1 == self.state(mem));
                        assert(t == TaggedPtr::Symbol(idx as usize));
                    }
                    self.push_load_literal(mem, t)
                } else {
                    let reg1 = match self.push_load_literal(mem, ast) {
                        Ok(reg) => reg,
                        Err(e) => return Err(e),
                    };
                    match self.push_op(mem, Opcode::LoadGlobal { dest: reg1, name: reg1 }) {
                        Ok(()) => Ok(reg1),
                        Err(e) => Err(e),
                    }
                }
            },
            _ => self.push_load_literal(mem, ast),
        }
    }
}

impl Compiler {
    /// Compile a function application: a special form, or a call of a global
    fn compile_apply(&mut self, mem: &mut Memory, function: TaggedPtr, params: TaggedPtr, bound: Ghost<nat>) -> (r:
        Result<Register, RuntimeError>)
        requires
            old(self).inv(old(mem)),
            old(mem).wf(),
            old(mem).valid_ptr(function),
            old(mem).valid_ptr(params),
            ptr_rank(function) < bound@,
            ptr_rank(params) < bound@,
        ensures
            final(mem).wf(),
            final(mem).extends(old(mem)),
            final(self).inv(final(mem)),
            match sp_apply(old(self).state(old(mem)), function, params, bound@) {
                Ok((st, reg)) => r matches Ok(x) && x as nat == reg && final(self).state(final(mem)) == st,
                Err(k) => r matches Err(e) && e@.kind == k && e@.pos is None,
            },
        decreases bound@, 2nat, 0nat,
    {
        proof {
            mem.lemma_extends_refl();
            lemma_pair_of(mem, params);
        }
        match function {
            TaggedPtr::Symbol(_) => {
                if name_is(mem, function, "quote") {
                    let v = match get_one_from_pair_list(mem, params) {
                        Ok(v) => v,
                        Err(e) => return Err(e),
                    };
                    self.push_load_literal(mem, v)
                } else if name_is(mem, function, "atom?") {
                    self.push_op2(mem, Opcode::IsAtom { dest: 0, test: 0 }, params, bound)
                } else if name_is(mem, function, "nil?") {
                    self.push_op2(mem, Opcode::IsNil { dest: 0, test: 0 }, params, bound)
                } else if name_is(mem, function, "car") {
                    self.push_op2(mem, Opcode::FirstOfPair { dest: 0, reg: 0 }, params, bound)
                } else if name_is(mem, function, "cdr") {
                    self.push_op2(mem, Opcode::SecondOfPair { dest: 0, reg: 0 }, params, bound)
                } else if name_is(mem, function, "cons") {
                    self.push_op3(mem, Opcode::MakePair { dest: 0, reg1: 0, reg2: 0 }, params, bound)
                } else if name_is(mem, function, "cond") {
                    self.compile_apply_cond(mem, params, bound)
                } else if name_is(mem, function, "is?") {
                    self.push_op3(mem, Opcode::IsIdentical { dest: 0, test1: 0, test2: 0 }, params, bound)
                } else if name_is(mem, function, "set") {
                    self.compile_apply_assign(mem, params, bound)
                } else if name_is(mem, function, "def") {
                    self.compile_named_function(mem, params, bound)
                } else {
                    let result = match self.acquire_reg(mem) {
                        Ok(reg) => reg,
                        Err(e) => return Err(e),
                    };
                    let fn_name_reg = match self.compile_eval(mem, function) {
                        Ok(reg) => reg,
                        Err(e) => return Err(e),
                    };
                    match self.push_op(mem, Opcode::Call { function: fn_name_reg, dest: result, arg_count: 0 }) {
                        Ok(()) => Ok(result),
                        Err(e) => Err(e),
                    }
                }
            },
            _ => Err(err_eval("Non symbol in function-call position")),
        }
    }

    /// Compile a one-argument operation
    fn push_op2(&mut self, mem: &mut Memory, op: Opcode, params: TaggedPtr, bound: Ghost<nat>) -> (r: Result<Register, RuntimeError>)
        requires
            supported(op),
            old(self).inv(old(mem)),
            old(mem).wf(),
            old(mem).valid_ptr(params),
            ptr_rank(params) < bound@,
        ensures
            final(mem).wf(),
            final(mem).extends(old(mem)),
            final(self).inv(final(mem)),
            match sp_op2(old(self).state(old(mem)), op, params, bound@) {
                Ok((st, reg)) => r matches Ok(x) && x as nat == reg && final(self).state(final(mem)) == st,
                Err(k) => r matches Err(e) && e@.kind == k && e@.pos is None,
            },
        decreases bound@, 1nat, 0nat,
    {
        proof {
            mem.lemma_extends_refl();
            lemma_pair_of(mem, params);
        }
        let result = match self.acquire_reg(mem) {
            Ok(reg) => reg,
            Err(e) => return Err(e),
        };
        let v = match get_one_from_pair_list(mem, params) {
            Ok(v) => v,
            Err(e) => return Err(e),
        };
        let reg1 = match self.compile_eval(mem, v) {
            Ok(reg) => reg,
            Err(e) => return Err(e),
        };
        match self.push_op(mem, fill_op2(op, result, reg1)) {
            Ok(()) => Ok(result),
            Err(e) => Err(e),
        }
    }

    /// Compile a two-argument operation
    fn push_op3(&mut self, mem: &mut Memory, op: Opcode, params: TaggedPtr, bound: Ghost<nat>) -> (r: Result<Register, RuntimeError>)
        requires
            supported(op),
            old(self).inv(old(mem)),
            old(mem).wf(),
            old(mem).valid_ptr(params),
            ptr_rank(params) < bound@,
        ensures
            final(mem).wf(),
            final(mem).extends(old(mem)),
            final(self).inv(final(mem)),
            match sp_op3(old(self).state(old(mem)), op, params, bound@) {
                Ok((st, reg)) => r matches Ok(x) && x as nat == reg && final(self).state(final(mem)) == st,
                Err(k) => r matches Err(e) && e@.kind == k && e@.pos is None,
            },
        decreases bound@, 1nat, 0nat,
    {
        proof {
            mem.lemma_extends_refl();
            lemma_pair_of(mem, params);
            if params is Pair {
                lemma_pair_of(mem, mem.pair_at(params->Pair_0 as int).second);
            }
        }
        let result = match self.acquire_reg(mem) {
            Ok(reg) => reg,
            Err(e) => return Err(e),
        };
        let (first, second) = match get_two_from_pair_list(mem, params) {
            Ok(values) => values,
            Err(e) => return Err(e),
        };
        let ghost mem1 = *mem;
        let reg1 = match self.compile_eval(mem, first) {
            Ok(reg) => reg,
            Err(e) => return Err(e),
        };
        proof {
            mem.lemma_valid_extends(&mem1, second);
        }
        let reg2 = match self.compile_eval(mem, second) {
            Ok(reg) => reg,
            Err(e) => {
                proof {
                    mem.lemma_extends_trans(&mem1, old(mem));
                }
                return Err(e);
            },
        };
        proof {
            mem.lemma_extends_trans(&mem1, old(mem));
        }
        match self.push_op(mem, fill_op3(op, result, reg1, reg2)) {
            Ok(()) => Ok(result),
            Err(e) => Err(e),
        }
    }

    /// Assignment expression - evaluate the two expressions, binding the
    /// result of the first to the symbol provided by the second
    fn compile_apply_assign(&mut self, mem: &mut Memory, params: TaggedPtr, bound: Ghost<nat>) -> (r: Result<Register, RuntimeError>)
        requires
            old(self).inv(old(mem)),
            old(mem).wf(),
            old(mem).valid_ptr(params),
            ptr_rank(params) < bound@,
        ensures
            final(mem).wf(),
            final(mem).extends(old(mem)),
            final(self).inv(final(mem)),
            match sp_assign(old(self).state(old(mem)), params, bound@) {
                Ok((st, reg)) => r matches Ok(x) && x as nat == reg && final(self).state(final(mem)) == st,
                Err(k) => r matches Err(e) && e@.kind == k && e@.pos is None,
            },
        decreases bound@, 1nat, 0nat,
    {
        proof {
            mem.lemma_extends_refl();
            lemma_pair_of(mem, params);
            if params is Pair {
                lemma_pair_of(mem, mem.pair_at(params->Pair_0 as int).second);
            }
        }
        let (first, second) = match get_two_from_pair_list(mem, params) {
            Ok(values) => values,
            Err(e) => return Err(e),
        };
        let ghost mem1 = *mem;
        let name = match self.compile_eval(mem, second) {
            Ok(reg) => reg,
            Err(e) => return Err(e),
        };
        proof {
            mem.lemma_valid_extends(&mem1, first);
        }
        let value = match self.compile_eval(mem, first) {
            Ok(reg) => reg,
            Err(e) => {
                proof {
                    mem.lemma_extends_trans(&mem1, old(mem));
                }
                return Err(e);
            },
        };
        proof {
            mem.lemma_extends_trans(&mem1, old(mem));
        }
        match self.push_op(mem, Opcode::StoreGlobal { src: value, name }) {
            Ok(()) => Ok(value),
            Err(e) => Err(e),
        }
    }
}

/// An optional jump address as a natural number
pub open spec fn opt_nat(o: Option<ArraySize>) -> Option<nat> {
    match o {
        Some(a) => Some(a as nat),
        None => None,
    }
}

/// Jump addresses as natural numbers
pub open spec fn nat_seq(s: Seq<ArraySize>) -> Seq<nat> {
    s.map_values(|a: ArraySize| a as nat)
}

impl Compiler {
    /// Compile one (condition expression) clause of a `cond`, giving the
    /// addresses of its condition jump and its end jump
    fn compile_cond_clause(
        &mut self,
        mem: &mut Memory,
        cond: TaggedPtr,
        expr: TaggedPtr,
        result: Register,
        last_cond_jump: Option<ArraySize>,
        bound: Ghost<nat>,
    ) -> (r: Result<(ArraySize, ArraySize), RuntimeError>)
        requires
            old(self).inv(old(mem)),
            old(mem).wf(),
            old(mem).valid_ptr(cond),
            old(mem).valid_ptr(expr),
            ptr_rank(cond) < bound@,
            ptr_rank(expr) < bound@,
        ensures
            final(mem).wf(),
            final(mem).extends(old(mem)),
            final(self).inv(final(mem)),
            match sp_clause(old(self).state(old(mem)), cond, expr, bound@, result as nat, opt_nat(last_cond_jump)) {
                Ok((st, (cond_jump, end_jump))) => r matches Ok((c, e)) && c as nat == cond_jump && e as nat == end_jump
                    && final(self).state(final(mem)) == st,
                Err(k) => r matches Err(e) && e@.kind == k && e@.pos is None,
            },
        decreases bound@, 0nat, 1nat,
    {
        proof {
            mem.lemma_extends_refl();
        }
        // if this is not the first condition, set the offset of the last
        // condition-not-true jump to the beginning of this condition
        match last_cond_jump {
            Some(address) => match self.patch_jump(mem, address) {
                Ok(()) => {},
                Err(e) => return Err(e),
            },
            None => {},
        }
        // reuse the result register for condition and result
        self.reset_reg(result);
        let ghost mem1 = *mem;
        let cond_result = match self.compile_eval(mem, cond) {
            Ok(reg) => reg,
            Err(e) => return Err(e),
        };
        proof {
            mem.lemma_valid_extends(&mem1, expr);
        }
        match self.push_op(mem, Opcode::JumpIfNotTrue { test: cond_result, offset: JUMP_UNKNOWN }) {
            Ok(()) => {},
            Err(e) => return Err(e),
        }
        let cond_jump = self.bytecode.last_instruction();
        self.reset_reg(result);
        let ghost mem2 = *mem;
        match self.compile_eval(mem, expr) {
            Ok(_) => {},
            Err(e) => {
                proof {
                    mem.lemma_extends_trans(&mem2, old(mem));
                }
                return Err(e);
            },
        }
        proof {
            mem.lemma_extends_trans(&mem2, old(mem));
        }
        match self.push_op(mem, Opcode::Jump { offset: JUMP_UNKNOWN }) {
            Ok(()) => {},
            Err(e) => return Err(e),
        }
        Ok((cond_jump, self.bytecode.last_instruction()))
    }

    /// Finish a `cond` after its clauses
    fn finish_cond(&mut self, mem: &Memory, result: Register, last_cond_jump: Option<ArraySize>, end_jumps: &Vec<ArraySize>) -> (r:
        Result<Register, RuntimeError>)
        requires
            old(self).inv(mem),
        ensures
            final(self).inv(mem),
            match sp_cond_finish(old(self).state(mem), result as nat, opt_nat(last_cond_jump), nat_seq(end_jumps@)) {
                Ok((st, reg)) => r matches Ok(x) && x as nat == reg && final(self).state(mem) == st,
                Err(k) => r matches Err(e) && e@.kind == k && e@.pos is None,
            },
    {
        // Close out with a default nil result if none of the conditions passed
        match last_cond_jump {
            Some(address) => {
                match self.patch_jump(mem, address) {
                    Ok(()) => {},
                    Err(e) => return Err(e),
                }
                self.reset_reg(result);
                let reg = match self.acquire_reg(mem) {
                    Ok(reg) => reg,
                    Err(e) => return Err(e),
                };
                match self.push_op(mem, Opcode::LoadNil { dest: reg }) {
                    Ok(()) => {},
                    Err(e) => return Err(e),
                }
            },
            None => {},
        }
        // Update all the post-expr jumps to point at the next instruction after the entire cond
        let ghost s3 = self.state(mem);
        let mut k: usize = 0;
        while k < end_jumps.len()
            invariant
                self.inv(mem),
                k <= end_jumps@.len(),
                sp_patch_all(s3, nat_seq(end_jumps@), 0) == sp_patch_all(self.state(mem), nat_seq(end_jumps@), k as nat),
                sp_cond_finish(old(self).state(mem), result as nat, opt_nat(last_cond_jump), nat_seq(end_jumps@)) == match sp_patch_all(
                    s3,
                    nat_seq(end_jumps@),
                    0,
                ) {
                    Err(e) => Err(e),
                    Ok(s4) => Ok((s4, result as nat)),
                },
            decreases end_jumps@.len() - k,
        {
            assert(nat_seq(end_jumps@)[k as int] == end_jumps@[k as int] as nat);
            match self.patch_jump(mem, end_jumps[k]) {
                Ok(()) => {},
                Err(e) => return Err(e),
            }
            k = k + 1;
        }
        Ok(result)
    }

    /// Compile a `cond`: for each (condition expression) clause, evaluate the
    /// condition; if it is not true jump to the next clause, else evaluate the
    /// expression and jump to the end. The result is nil where no condition
    /// is true.
    fn compile_apply_cond(&mut self, mem: &mut Memory, params: TaggedPtr, bound: Ghost<nat>) -> (r: Result<Register, RuntimeError>)
        requires
            old(self).inv(old(mem)),
            old(mem).wf(),
            old(mem).valid_ptr(params),
            ptr_rank(params) < bound@,
        ensures
            final(mem).wf(),
            final(mem).extends(old(mem)),
            final(self).inv(final(mem)),
            match sp_cond(old(self).state(old(mem)), params, bound@) {
                Ok((st, reg)) => r matches Ok(x) && x as nat == reg && final(self).state(final(mem)) == st,
                Err(k) => r matches Err(e) && e@.kind == k && e@.pos is None,
            },
        decreases bound@, 1nat, 0nat,
    {
        let ghost st0 = self.state(mem);
        let mut end_jumps: Vec<ArraySize> = Vec::new();
        let mut last_cond_jump: Option<ArraySize> = None;
        let result = self.next_reg;
        let mut head = params;
        proof {
            mem.lemma_extends_refl();
            assert(nat_seq(end_jumps@) =~= Seq::<nat>::empty());
        }
        loop
            invariant_except_break
                sp_cond_clauses(st0, params, bound@, result as nat, None, Seq::empty()) == sp_cond_clauses(
                    self.state(mem),
                    head,
                    bound@,
                    result as nat,
                    opt_nat(last_cond_jump),
                    nat_seq(end_jumps@),
                ),
            invariant
                self.inv(mem),
                mem.wf(),
                mem.extends(old(mem)),
                mem.valid_ptr(head),
                ptr_rank(head) < bound@,
                st0 == old(self).state(old(mem)),
                result == old(self).next_reg,
            ensures
                sp_cond_clauses(st0, params, bound@, result as nat, None, Seq::empty()) == Ok::<
                    (CState, (Option<nat>, Seq<nat>)),
                    ErrorKindView,
                >((self.state(mem), (opt_nat(last_cond_jump), nat_seq(end_jumps@)))),
            decreases ptr_rank(head),
        {
            proof {
                lemma_pair_of(mem, head);
            }
            let i = match head {
                TaggedPtr::Pair(i) => i,
                _ => break,
            };
            let (cond, rest) = {
                let pair = mem.get_pair(i);
                (pair.first, pair.second)
            };
            proof {
                lemma_pair_of(mem, rest);
            }
            let j = match rest {
                TaggedPtr::Pair(j) => j,
                _ => return Err(err_eval("Unexpected end of cond list")),
            };
            let (expr, next) = {
                let pair = mem.get_pair(j);
                (pair.first, pair.second)
            };
            let ghost mem1 = *mem;
            let (cond_jump, end_jump) = match self.compile_cond_clause(mem, cond, expr, result, last_cond_jump, bound) {
                Ok(jumps) => jumps,
                Err(e) => {
                    proof {
                        mem.lemma_extends_trans(&mem1, old(mem));
                    }
                    return Err(e);
                },
            };
            proof {
                mem.lemma_extends_trans(&mem1, old(mem));
                mem.lemma_valid_extends(&mem1, next);
            }
            last_cond_jump = Some(cond_jump);
            let ghost ends_before = end_jumps@;
            end_jumps.push(end_jump);
            proof {
                assert(nat_seq(end_jumps@) =~= nat_seq(ends_before).push(end_jump as nat));
            }
            head = next;
        }
        self.finish_cond(mem, result, last_cond_jump, &end_jumps)
    }
}

impl Compiler {
    /// Compile a named function definition `(def name (params) expr ...)`
    fn compile_named_function(&mut self, mem: &mut Memory, params: TaggedPtr, bound: Ghost<nat>) -> (r: Result<Register, RuntimeError>)
        requires
            old(self).inv(old(mem)),
            old(mem).wf(),
            old(mem).valid_ptr(params),
            ptr_rank(params) < bound@,
        ensures
            final(mem).wf(),
            final(mem).extends(old(mem)),
            final(self).inv(final(mem)),
            match sp_named_function(old(self).state(old(mem)), params, bound@) {
                Ok((st, reg)) => r matches Ok(x) && x as nat == reg && final(self).state(final(mem)) == st,
                Err(k) => r matches Err(e) && e@.kind == k && e@.pos is None,
            },
        decreases bound@, 1nat, 1nat,
    {
        proof {
            mem.lemma_extends_refl();
        }
        let items = match vec_from_pairs(mem, params) {
            Ok(items) => items,
            Err(e) => return Err(e),
        };
        if items.len() < 3 {
            return Err(err_eval("A function definition must have at least (name params expr)"));
        }
        // a function consists of (name (params) expr1 .. exprn)
        let fn_name = items[0];
        let fn_params = match vec_from_pairs(mem, items[1]) {
            Ok(fn_params) => fn_params,
            Err(e) => return Err(e),
        };
        let mut fn_exprs: Vec<TaggedPtr> = Vec::new();
        let mut k: usize = 2;
        while k < items.len()
            invariant
                2 <= k <= items@.len(),
                fn_exprs@ == items@.subrange(2, k as int),
            decreases items@.len() - k,
        {
            fn_exprs.push(items[k]);
            assert(fn_exprs@ =~= items@.subrange(2, k + 1));
            k = k + 1;
        }
        assert(fn_exprs@ =~= items@.skip(2));
        // compile the function to a Function object
        let ghost mem1 = *mem;
        let fn_object = match compile_function(mem, fn_name, &fn_params, &fn_exprs, bound) {
            Ok(f) => f,
            Err(e) => return Err(e),
        };
        proof {
            self.lemma_inv_extends(mem, &mem1);
            mem.lemma_valid_extends(&mem1, fn_name);
        }
        // load the function object as a literal and associate it with a global name
        let name_reg = match self.push_load_literal(mem, fn_name) {
            Ok(reg) => reg,
            Err(e) => return Err(e),
        };
        let function_reg = match self.push_load_literal(mem, fn_object) {
            Ok(reg) => reg,
            Err(e) => return Err(e),
        };
        match self.push_op(mem, Opcode::StoreGlobal { src: function_reg, name: name_reg }) {
            Ok(()) => Ok(function_reg),
            Err(e) => Err(e),
        }
    }

    /// Compile the body expressions of a function in turn, then return the
    /// result of the last one
    fn compile_function(&mut self, mem: &mut Memory, exprs: &Vec<TaggedPtr>, bound: Ghost<nat>) -> (r: Result<(), RuntimeError>)
        requires
            old(self).inv(old(mem)),
            old(mem).wf(),
            forall|k: int| 0 <= k < exprs@.len() ==> old(mem).valid_ptr(#[trigger] exprs@[k]) && ptr_rank(exprs@[k]) < bound@,
        ensures
            final(mem).wf(),
            final(mem).extends(old(mem)),
            final(self).inv(final(mem)),
            match sp_exprs(old(self).state(old(mem)), exprs@, 0, 0, bound@) {
                Ok((st, reg)) => match sp_push(st, Opcode::Return { reg: reg as u8 }) {
                    Ok(st2) => r is Ok && final(self).state(final(mem)) == st2,
                    Err(k) => r matches Err(e) && e@.kind == k && e@.pos is None,
                },
                Err(k) => r matches Err(e) && e@.kind == k && e@.pos is None,
            },
        decreases bound@, 0nat, 0nat,
    {
        let ghost st0 = self.state(mem);
        let mut result_reg: Register = 0;
        let mut k: usize = 0;
        proof {
            mem.lemma_extends_refl();
        }
        while k < exprs.len()
            invariant
                self.inv(mem),
                mem.wf(),
                mem.extends(old(mem)),
                k <= exprs@.len(),
                forall|j: int| 0 <= j < exprs@.len() ==> mem.valid_ptr(#[trigger] exprs@[j]) && ptr_rank(exprs@[j]) < bound@,
                st0 == old(self).state(old(mem)),
                sp_exprs(st0, exprs@, 0, 0, bound@) == sp_exprs(self.state(mem), exprs@, k as nat, result_reg as nat, bound@),
            decreases exprs@.len() - k,
        {
            let ghost mem1 = *mem;
            let ghost st = self.state(mem);
            assert(ptr_rank(exprs@[k as int]) < bound@);
            assert(sp_eval_below(st, exprs@[k as int], bound@) == sp_eval(st, exprs@[k as int]));
            assert(sp_exprs(st, exprs@, k as nat, result_reg as nat, bound@) == match sp_eval_below(st, exprs@[k as int], bound@) {
                Err(e) => Err(e),
                Ok((s1, reg)) => sp_exprs(s1, exprs@, (k + 1) as nat, reg, bound@),
            });
            result_reg = match self.compile_eval(mem, exprs[k]) {
                Ok(reg) => reg,
                Err(e) => {
                    proof {
                        mem.lemma_extends_trans(&mem1, old(mem));
                    }
                    return Err(e);
                },
            };
            proof {
                mem.lemma_extends_trans(&mem1, old(mem));
                assert forall|j: int| 0 <= j < exprs@.len() implies mem.valid_ptr(#[trigger] exprs@[j]) by {
                    mem.lemma_valid_extends(&mem1, exprs@[j]);
                }
            }
            k = k + 1;
        }
        self.push_op(mem, Opcode::Return { reg: result_reg })
    }

    /// Compile an outermost-level expression, at the 'main' function level
    fn compile(&mut self, mem: &mut Memory, ast: TaggedPtr) -> (r: Result<(), RuntimeError>)
        requires
            old(self).inv(old(mem)),
            old(mem).wf(),
            old(mem).valid_ptr(ast),
        ensures
            final(mem).wf(),
            final(mem).extends(old(mem)),
            final(self).inv(final(mem)),
            match sp_eval(old(self).state(old(mem)), ast) {
                Ok((st, reg)) => match sp_push(st, Opcode::Return { reg: reg as u8 }) {
                    Ok(st2) => r is Ok && final(self).state(final(mem)) == st2,
                    Err(k) => r matches Err(e) && e@.kind == k && e@.pos is None,
                },
                Err(k) => r matches Err(e) && e@.kind == k && e@.pos is None,
            },
    {
        let result_reg = match self.compile_eval(mem, ast) {
            Ok(reg) => reg,
            Err(e) => return Err(e),
        };
        self.push_op(mem, Opcode::Return { reg: result_reg })
    }
}

/// Move the compiled byte code into managed memory, then a function object
/// with the name and parameter names that runs it
fn store_function(compiler: Compiler, mem: &mut Memory, name: TaggedPtr, params: &Vec<TaggedPtr>) -> (f: TaggedPtr)
    requires
        compiler.inv(old(mem)),
        old(mem).wf(),
        name is Symbol || name is Nil,
        old(mem).valid_ptr(name),
        params@.len() <= 250,
        forall|k: int| 0 <= k < params@.len() ==> old(mem).valid_ptr(#[trigger] params@[k]),
    ensures
        final(mem).wf(),
        final(mem).extends(old(mem)),
        final(mem).valid_ptr(f),
        (final(mem).syms@, final(mem).object_views(), f) == finish_function(compiler.state(old(mem)), name, params@),
{
    let mut param_names: Array<TaggedPtr> = Array::new();
    let mut k: usize = 0;
    while k < params.len()
        invariant
            param_names.wf(),
            k <= params@.len(),
            params@.len() <= 250,
            param_names@ == params@.subrange(0, k as int),
        decreases params@.len() - k,
    {
        proof {
            param_names.lemma_push_fits();
        }
        let _ = param_names.push(params[k]);
        assert(param_names@ =~= params@.subrange(0, k + 1));
        k = k + 1;
    }
    assert(param_names@ =~= params@);
    let ghost mem0 = *mem;
    let code_addr = mem.alloc_bytecode(compiler.bytecode);
    let ghost mem1 = *mem;
    proof {
        mem.lemma_views_push(&mem0, Object::ByteCode(compiler.bytecode));
        mem.lemma_valid_extends(&mem0, name);
        assert forall|k: int| 0 <= k < param_names@.len() implies mem.valid_ptr(#[trigger] param_names@[k]) by {
            mem.lemma_valid_extends(&mem0, param_names@[k]);
        }
    }
    let f = Function::allocate(mem, name, param_names, code_addr);
    proof {
        let fo = Function { name, arity: params@.len() as u8, code: code_addr, param_names };
        mem.lemma_views_push(&mem1, Object::Function(fo));
        mem.lemma_extends_trans(&mem1, &mem0);
    }
    f
}

/// Compile a function - name, parameters and expressions - into a Function
/// object, returning the pointer to it
fn compile_function(mem: &mut Memory, name: TaggedPtr, params: &Vec<TaggedPtr>, exprs: &Vec<TaggedPtr>, bound: Ghost<nat>) -> (r:
    Result<TaggedPtr, RuntimeError>)
    requires
        old(mem).wf(),
        old(mem).valid_ptr(name),
        forall|k: int| 0 <= k < params@.len() ==> old(mem).valid_ptr(#[trigger] params@[k]),
        forall|k: int| 0 <= k < exprs@.len() ==> old(mem).valid_ptr(#[trigger] exprs@[k]) && ptr_rank(exprs@[k]) < bound@,
    ensures
        final(mem).wf(),
        final(mem).extends(old(mem)),
        match sp_function(old(mem).syms@, old(mem).object_views(), name, params@, exprs@, bound@) {
            Ok((syms, objs, f)) => r == Ok::<TaggedPtr, RuntimeError>(f) && final(mem).syms@ == syms
                && final(mem).object_views() == objs && final(mem).valid_ptr(f),
            Err(k) => r matches Err(e) && e@.kind == k && e@.pos is None,
        },
    decreases bound@, 1nat, 0nat,
{
    proof {
        mem.lemma_extends_refl();
    }
    // validate function name
    match name {
        TaggedPtr::Symbol(_) => {},
        TaggedPtr::Nil => {},
        _ => return Err(err_eval("A function name may be nil (anonymous) or a symbol (named)")),
    }
    // validate arity
    if params.len() > 250 {
        return Err(err_eval("A function cannot have more than 250 parameters"));
    }
    // validate expression list
    if exprs.len() == 0 {
        return Err(err_eval("A function must have at least one expression"));
    }
    // compile the expresssions
    let mut compiler = Compiler::new(mem);
    let ghost mem0 = *mem;
    match compiler.compile_function(mem, exprs, bound) {
        Ok(()) => {},
        Err(e) => return Err(e),
    }
    proof {
        mem.lemma_valid_extends(&mem0, name);
        assert forall|k: int| 0 <= k < params@.len() implies mem.valid_ptr(#[trigger] params@[k]) by {
            mem.lemma_valid_extends(&mem0, params@[k]);
        }
    }
    let ghost mem1 = *mem;
    let f = store_function(compiler, mem, name, params);
    proof {
        mem.lemma_extends_trans(&mem1, &mem0);
    }
    Ok(f)
}

/// Compile the given expression into an anonymous Function object with no
/// parameters, returning the pointer to it
pub fn compile(mem: &mut Memory, ast: TaggedPtr) -> (r: Result<TaggedPtr, RuntimeError>)
    requires
        old(mem).wf(),
        old(mem).valid_ptr(ast),
    ensures
        final(mem).wf(),
        final(mem).extends(old(mem)),
        match spec_compile(old(mem).syms@, old(mem).object_views(), ast) {
            Ok((syms, objs, f)) => r == Ok::<TaggedPtr, RuntimeError>(f) && final(mem).syms@ == syms
                && final(mem).object_views() == objs && final(mem).valid_ptr(f),
            Err(k) => r matches Err(e) && e@.kind == k && e@.pos is None,
        },
{
    proof {
        mem.lemma_extends_refl();
    }
    let mut compiler = Compiler::new(mem);
    let ghost mem0 = *mem;
    match compiler.compile(mem, ast) {
        Ok(()) => {},
        Err(e) => return Err(e),
    }
    let ghost mem1 = *mem;
    let no_params: Vec<TaggedPtr> = Vec::new();
    let f = store_function(compiler, mem, TaggedPtr::Nil, &no_params);
    proof {
        assert(no_params@ =~= Seq::<TaggedPtr>::empty());
        mem.lemma_extends_trans(&mem1, &mem0);
    }
    Ok(f)
}

/// A body of expressions compiles as all of them but the last, then the last;
/// the body's result is the register the last expression's evaluation gives,
/// so a function returns the value of its last body expression.
pub proof fn law_body_result_is_last(st: CState, exprs: Seq<TaggedPtr>, k: nat, result_reg: nat, bound: nat)
    requires
        k < exprs.len(),
        sp_exprs(st, exprs, k, result_reg, bound) is Ok,
    ensures
        sp_exprs(st, exprs.take(exprs.len() - 1), k, result_reg, bound) matches Ok((mid, _)) && sp_eval_below(
            mid,
            exprs.last(),
            bound,
        ) == sp_exprs(st, exprs, k, result_reg, bound),
    decreases exprs.len() - k,
{
    let front = exprs.take(exprs.len() - 1);
    if k + 1 == exprs.len() {
        let (s1, reg) = sp_eval_below(st, exprs[k as int], bound)->Ok_0;
        assert(sp_exprs(s1, exprs, k + 1, reg, bound) == Ok::<(CState, nat), ErrorKindView>((s1, reg)));
        assert(sp_exprs(st, front, k, result_reg, bound) == Ok::<(CState, nat), ErrorKindView>((st, result_reg)));
    } else {
        let (s1, reg) = sp_eval_below(st, exprs[k as int], bound)->Ok_0;
        assert(front[k as int] == exprs[k as int]);
        law_body_result_is_last(s1, exprs, k + 1, reg, bound);
    }
}

/// A compiled function's byte code ends by returning the register its body's
/// result is in: with `law_body_result_is_last`, the register the last body
/// expression's evaluation gives.
pub proof fn law_function_returns_body_result(
    syms: Seq<Seq<char>>,
    objs: Seq<ObjectView>,
    name: TaggedPtr,
    params: Seq<TaggedPtr>,
    exprs: Seq<TaggedPtr>,
    bound: nat,
)
    requires
        sp_function(syms, objs, name, params, exprs, bound) is Ok,
    ensures
        ({
            let (_, objs2, f) = sp_function(syms, objs, name, params, exprs, bound)->Ok_0;
            let (_, reg) = sp_exprs(fresh_state(syms, objs), exprs, 0, 0, bound)->Ok_0;
            &&& exprs.len() > 0
            &&& sp_exprs(fresh_state(syms, objs), exprs, 0, 0, bound) is Ok
            &&& f == TaggedPtr::Function((objs2.len() - 1) as usize)
            &&& objs2[objs2.len() - 1] == ObjectView::Function(name, params, (objs2.len() - 2) as nat)
            &&& objs2[objs2.len() - 2] matches ObjectView::ByteCode(code, _) && code.len() > 0 && code.last()
                == Opcode::Return { reg: reg as u8 }
        }),
{
}

} // verus!
