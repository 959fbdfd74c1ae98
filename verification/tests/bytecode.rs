use std::mem::size_of;

use evalrus::bytecode::{join_lines, opcode_registers_up, ByteCode, InstructionStream, Opcode, JUMP_UNKNOWN};
use evalrus::bytecode::Opcode::{Add, Call, CloseUpvalues, CopyRegister, DivideInteger, FirstOfPair, GetUpvalue, IsAtom, IsIdentical, IsNil, Jump, JumpIfNotTrue, JumpIfTrue, LoadGlobal, LoadInteger, LoadLiteral, LoadNil, LoadNonLocal, MakeClosure, MakePair, Multiply, NoOp, Return, SecondOfPair, SetUpvalue, StoreGlobal, Subtract};
use evalrus::error::ErrorKind;
use evalrus::memory::Memory;
use evalrus::taggedptr::TaggedPtr;

#[test]
fn test_opcode_is_32_bits() {
    // An Opcode should be 32 bits; anything bigger and we've mis-defined some
    // discriminant
    assert!(size_of::<Opcode>() == 4);
}

#[test]
fn test_increment_all_registers() {


    let mut code = ByteCode::new();

    code.push(NoOp).unwrap();
    code.push(Return { reg: 1 }).unwrap();
    code.push(LoadLiteral { dest: 1, literal_id: 0 }).unwrap();
    code.push(IsNil { dest: 1, test: 1 }).unwrap();
    code.push(IsAtom { dest: 1, test: 1 }).unwrap();
    code.push(FirstOfPair { dest: 1, reg: 1 }).unwrap();
    code.push(SecondOfPair { dest: 1, reg: 1 }).unwrap();
    code.push(MakePair { dest: 1, reg1: 1, reg2: 1 }).unwrap();
    code.push(IsIdentical { dest: 1, test1: 1, test2: 1 }).unwrap();
    code.push(Jump { offset: 0 }).unwrap();
    code.push(JumpIfTrue { test: 1, offset: 0 }).unwrap();
    code.push(JumpIfNotTrue { test: 1, offset: 0 }).unwrap();
    code.push(LoadNil { dest: 1 }).unwrap();
    code.push(LoadGlobal { dest: 1, name: 1 }).unwrap();
    code.push(StoreGlobal { src: 1, name: 1 }).unwrap();
    code.push(Call { function: 1, dest: 1, arg_count: 0 }).unwrap();
    code.push(MakeClosure { dest: 1, function: 1 }).unwrap();
    code.push(LoadInteger { dest: 1, integer: 0 }).unwrap();
    code.push(CopyRegister { dest: 1, src: 1 }).unwrap();
    code.push(LoadNonLocal { dest: 1, src: 1, frame_offset: 0 }).unwrap();
    code.push(Add { dest: 1, reg1: 1, reg2: 1 }).unwrap();
    code.push(Subtract { dest: 1, left: 1, right: 1 }).unwrap();
    code.push(Multiply { dest: 1, reg1: 1, reg2: 1 }).unwrap();
    code.push(DivideInteger { dest: 1, num: 1, denom: 1 }).unwrap();
    code.push(GetUpvalue { dest: 1, src: 1 }).unwrap();
    code.push(SetUpvalue { dest: 1, src: 1 }).unwrap();
    code.push(CloseUpvalues { reg1: 1, reg2: 1, reg3: 0 }).unwrap();

    code.increment_all_registers().unwrap();

    assert_eq!(code.code.length(), 27);
    for i in 0..code.code.length() {
        let opcode = code.code.get(i).unwrap();

        match opcode {
            NoOp => (),
            Return { reg } => assert!(reg == 2),
            LoadLiteral { dest, literal_id } => {
                assert!(dest == 2);
                assert!(literal_id == 0);
            }
            IsNil { dest, test } => {
                assert!(dest == 2);
                assert!(test == 2);
            }
            IsAtom { dest, test } => {
                assert!(dest == 2);
                assert!(test == 2);
            }
            FirstOfPair { dest, reg } => {
                assert!(dest == 2);
                assert!(reg == 2);
            }
            SecondOfPair { dest, reg } => {
                assert!(dest == 2);
                assert!(reg == 2);
            }
            MakePair { dest, reg1, reg2 } => {
                assert!(dest == 2);
                assert!(reg1 == 2);
                assert!(reg2 == 2);
            }
            IsIdentical { dest, test1, test2 } => {
                assert!(dest == 2);
                assert!(test1 == 2);
                assert!(test2 == 2);
            }
            Jump { offset } => assert!(offset == 0),
            JumpIfTrue { test, offset } => {
                assert!(test == 2);
                assert!(offset == 0);
            }
            JumpIfNotTrue { test, offset } => {
                assert!(test == 2);
                assert!(offset == 0);
            }
            LoadNil { dest } => assert!(dest == 2),
            LoadGlobal { dest, name } => {
                assert!(dest == 2);
                assert!(name == 2);
            }
            StoreGlobal { src, name } => {
                assert!(src == 2);
                assert!(name == 2);
            }
            Call { function, dest, arg_count } => {
                assert!(function == 2);
                assert!(dest == 2);
                assert!(arg_count == 0);
            }
            MakeClosure { dest, function } => {
                assert!(dest == 2);
                assert!(function == 2);
            }
            LoadInteger { dest, integer } => {
                assert!(dest == 2);
                assert!(integer == 0);
            }
            CopyRegister { dest, src } => {
                assert!(dest == 2);
                assert!(src == 2);
            }
            LoadNonLocal { dest, src, frame_offset } => {
                assert!(dest == 2);
                assert!(src == 2);
                assert!(frame_offset == 0);
            }
            Add { dest, reg1, reg2 } => {
                assert!(dest == 2);
                assert!(reg1 == 2);
                assert!(reg2 == 2);
            }
            Subtract { dest, left, right } => {
                assert!(dest == 2);
                assert!(left == 2);
                assert!(right == 2);
            }
            Multiply { dest, reg1, reg2 } => {
                assert!(dest == 2);
                assert!(reg1 == 2);
                assert!(reg2 == 2);
            }
            DivideInteger { dest, num, denom } => {
                assert!(dest == 2);
                assert!(num == 2);
                assert!(denom == 2);
            }
            GetUpvalue { dest, src } => {
                assert!(dest == 2);
                assert!(src == 2);
            }
            SetUpvalue { dest, src } => {
                assert!(dest == 2);
                assert!(src == 2);
            }
            CloseUpvalues { reg1, reg2, reg3 } => {
                assert!(reg1 == 2);
                assert!(reg2 == 2);
                assert!(reg3 == 0);
            }
        }
    }
}

#[test]
fn bytecode_update_jump_offset() {
    let mut code = ByteCode::new();
    code.push(Opcode::JumpIfNotTrue { test: 3, offset: JUMP_UNKNOWN }).unwrap();
    code.push(Opcode::LoadNil { dest: 0 }).unwrap();
    code.update_jump_offset(0, 5).unwrap();
    assert_eq!(code.code.get(0).unwrap(), Opcode::JumpIfNotTrue { test: 3, offset: 5 });
    match code.update_jump_offset(1, 2) {
        Ok(_) => panic!("not a jump"),
        Err(e) => assert!(*e.error_kind() == ErrorKind::EvalError(String::from(
            "Cannot modify jump offset for non-jump instruction"
        ))),
    }
    match code.update_jump_offset(9, 2) {
        Ok(_) => panic!("no such instruction"),
        Err(e) => assert!(*e.error_kind() == ErrorKind::BoundsError),
    }
    assert_eq!(code.last_instruction(), 1);
    assert_eq!(code.next_instruction(), 2);
}

#[test]
fn bytecode_literals_get_ids_in_order() {
    let mut code = ByteCode::new();
    assert_eq!(code.push_lit(TaggedPtr::Nil).unwrap(), 0);
    assert_eq!(code.push_lit(TaggedPtr::Number(7)).unwrap(), 1);
    code.push_loadlit(4, 1).unwrap();
    assert_eq!(code.code.get(0).unwrap(), Opcode::LoadLiteral { dest: 4, literal_id: 1 });
    assert!(code.literals.get(1).unwrap() == TaggedPtr::Number(7));
}

#[test]
fn bytecode_register_zero_upvalue_stays() {
    assert_eq!(
        opcode_registers_up(Opcode::GetUpvalue { dest: 0, src: 0 }),
        Opcode::GetUpvalue { dest: 1, src: 1 }
    );
    assert_eq!(
        opcode_registers_up(Opcode::CloseUpvalues { reg1: 0, reg2: 4, reg3: 0 }),
        Opcode::CloseUpvalues { reg1: 0, reg2: 5, reg3: 0 }
    );
}

#[test]
fn instruction_stream_steps_and_jumps() {
    let mut mem = Memory::new();
    let mut code = ByteCode::new();
    code.push(Opcode::NoOp).unwrap();
    code.push(Opcode::LoadNil { dest: 2 }).unwrap();
    code.push_lit(TaggedPtr::Number(3)).unwrap();
    let address = mem.alloc_bytecode(code);
    let mut stream = InstructionStream::allocate(address);
    assert_eq!(stream.get_next_opcode(&mem).unwrap(), Opcode::NoOp);
    assert_eq!(stream.get_next_ip(), 1);
    assert!(stream.get_literal(&mem, 0).unwrap() == TaggedPtr::Number(3));
    match stream.get_literal(&mem, 1) {
        Ok(_) => panic!("one literal only"),
        Err(e) => assert!(*e.error_kind() == ErrorKind::BoundsError),
    }
    stream.jump(-1);
    assert_eq!(stream.get_next_ip(), 0);
    stream.switch_frame(address, 2);
    match stream.get_next_opcode(&mem) {
        Ok(_) => panic!("past the end"),
        Err(e) => assert!(*e.error_kind() == ErrorKind::BoundsError),
    }
}

#[test]
fn bytecode_print_lists_one_opcode_per_line() {
    let mut code = ByteCode::new();
    assert_eq!(code.print(), String::from(""));
    code.push(NoOp).unwrap();
    assert_eq!(code.print(), String::from("NoOp"));
    code.push(LoadLiteral { dest: 1, literal_id: 0 }).unwrap();
    code.push(Jump { offset: -2 }).unwrap();
    code.push(Return { reg: 1 }).unwrap();
    assert_eq!(
        code.print(),
        String::from("NoOp\nLoadLiteral { dest: 1, literal_id: 0 }\nJump { offset: -2 }\nReturn { reg: 1 }")
    );
}

#[test]
fn join_lines_puts_a_line_feed_between_each_two() {
    assert_eq!(join_lines(&Vec::new()), String::from(""));
    assert_eq!(join_lines(&vec![String::from("one")]), String::from("one"));
    assert_eq!(
        join_lines(&vec![String::from("one"), String::from(""), String::from("three")]),
        String::from("one\n\nthree")
    );
}
