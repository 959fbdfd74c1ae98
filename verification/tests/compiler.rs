use evalrus::bytecode::{ByteCode, Opcode};
use evalrus::bytecode::Opcode::{Call, Jump, JumpIfNotTrue, LoadGlobal, LoadLiteral, LoadNil, MakePair, Return, StoreGlobal};
use evalrus::compiler::compile;
use evalrus::error::ErrorKind;
use evalrus::memory::Memory;
use evalrus::parser::parse;
use evalrus::printer::{debug, print};
use evalrus::taggedptr::TaggedPtr;

fn compiled(mem: &mut Memory, source: &str) -> usize {
    let ast = parse(mem, source).unwrap();
    match compile(mem, ast).unwrap() {
        TaggedPtr::Function(i) => i,
        _ => panic!("compile gives a function"),
    }
}

fn code_of(mem: &Memory, function: usize) -> Vec<Opcode> {
    let code: &ByteCode = mem.get_bytecode(mem.get_function(function).code());
    let mut ops = Vec::new();
    for i in 0..code.code.length() {
        ops.push(code.code.get(i).unwrap());
    }
    ops
}

fn compile_failure(source: &str) -> ErrorKind {
    let mut mem = Memory::new();
    let ast = parse(&mut mem, source).unwrap();
    match compile(&mut mem, ast) {
        Ok(_) => panic!("a compile error was expected"),
        Err(e) => match e.error_kind() {
            ErrorKind::EvalError(s) => ErrorKind::EvalError(s.clone()),
            _ => panic!("unexpected error kind"),
        },
    }
}

#[test]
fn compile_cond() {

    let mut mem = Memory::new();
    let f = compiled(&mut mem, "(cond a b c d)");
    assert_eq!(
        code_of(&mem, f),
        vec![
            LoadLiteral { dest: 0, literal_id: 0 },
            LoadGlobal { dest: 0, name: 0 },
            JumpIfNotTrue { test: 0, offset: 3 },
            LoadLiteral { dest: 0, literal_id: 1 },
            LoadGlobal { dest: 0, name: 0 },
            Jump { offset: 7 },
            LoadLiteral { dest: 0, literal_id: 2 },
            LoadGlobal { dest: 0, name: 0 },
            JumpIfNotTrue { test: 0, offset: 3 },
            LoadLiteral { dest: 0, literal_id: 3 },
            LoadGlobal { dest: 0, name: 0 },
            Jump { offset: 1 },
            LoadNil { dest: 0 },
            Return { reg: 0 },
        ]
    );
}

#[test]
fn compile_quote_is_a_literal() {
    let mut mem = Memory::new();
    let f = compiled(&mut mem, "(quote (a b))");
    assert_eq!(
        code_of(&mem, f),
        vec![Opcode::LoadLiteral { dest: 0, literal_id: 0 }, Opcode::Return { reg: 0 }]
    );
    let code = mem.get_bytecode(mem.get_function(f).code());
    let literal = code.literals.get(0).unwrap();
    assert_eq!(print(&mem, literal), String::from("(a b)"));
}

#[test]
fn compile_cons_and_call() {

    let mut mem = Memory::new();
    let f = compiled(&mut mem, "(cons (g) nil)");
    assert_eq!(
        code_of(&mem, f),
        vec![
            LoadLiteral { dest: 2, literal_id: 0 },
            LoadGlobal { dest: 2, name: 2 },
            Call { function: 2, dest: 1, arg_count: 0 },
            LoadLiteral { dest: 3, literal_id: 1 },
            MakePair { dest: 0, reg1: 1, reg2: 3 },
            Return { reg: 0 },
        ]
    );
}

#[test]
fn compile_def_stores_a_function() {

    let mut mem = Memory::new();
    let f = compiled(&mut mem, "(def id (x) (quote y))");
    assert_eq!(
        code_of(&mem, f),
        vec![
            LoadLiteral { dest: 0, literal_id: 0 },
            LoadLiteral { dest: 1, literal_id: 1 },
            StoreGlobal { src: 1, name: 0 },
            Return { reg: 1 },
        ]
    );
    let code = mem.get_bytecode(mem.get_function(f).code());
    let function = code.literals.get(1).unwrap();
    assert_eq!(print(&mem, function), String::from("(Function id (x))"));
    assert_eq!(print(&mem, TaggedPtr::Function(f)), String::from("(Function ())"));
    match function {
        TaggedPtr::Function(g) => {
            assert_eq!(mem.get_function(g).arity(), 1);
            assert_eq!(mem.get_function(g).name(&mem), "id");
            assert_eq!(code_of(&mem, g), vec![LoadLiteral { dest: 0, literal_id: 0 }, Return { reg: 0 }]);
        }
        _ => panic!("a function literal"),
    }
    assert_eq!(mem.get_function(f).name(&mem), "<lambda>");
}

#[test]
fn compile_true_nil_and_set() {

    let mut mem = Memory::new();
    let f = compiled(&mut mem, "(set true (quote v))");
    assert_eq!(
        code_of(&mem, f),
        vec![
            LoadLiteral { dest: 0, literal_id: 0 },
            LoadLiteral { dest: 1, literal_id: 1 },
            StoreGlobal { src: 1, name: 0 },
            Return { reg: 1 },
        ]
    );
    let code = mem.get_bytecode(mem.get_function(f).code());
    assert_eq!(print(&mem, code.literals.get(0).unwrap()), String::from("v"));
    assert_eq!(print(&mem, code.literals.get(1).unwrap()), String::from("true"));
}

#[test]
fn compile_errors() {
    assert!(compile_failure("((a) b)") == ErrorKind::EvalError(String::from("Non symbol in function-call position")));
    assert!(compile_failure("(def f)") == ErrorKind::EvalError(String::from(
        "A function definition must have at least (name params expr)"
    )));
    assert!(compile_failure("(quote a b)") == ErrorKind::EvalError(String::from(
        "Expected no more than one value in Pair list"
    )));
    assert!(compile_failure("(def (x) () a)") == ErrorKind::EvalError(String::from(
        "A function name may be nil (anonymous) or a symbol (named)"
    )));
    assert!(compile_failure("(cond (a))") == ErrorKind::EvalError(String::from("Unexpected end of cond list")));
    assert!(compile_failure("(def f x y)") == ErrorKind::EvalError(String::from("Expected a Pair")));
}

#[test]
fn debug_of_a_function_lists_its_byte_code() {
    let mut mem = Memory::new();
    let f = compiled(&mut mem, "(def id (x) (quote y))");
    let code = mem.get_bytecode(mem.get_function(f).code());
    let function = code.literals.get(1).unwrap();
    assert_eq!(debug(&mem, function), String::from("LoadLiteral { dest: 0, literal_id: 0 }\nReturn { reg: 0 }"));
    assert_eq!(
        debug(&mem, TaggedPtr::Function(f)),
        String::from(
            "LoadLiteral { dest: 0, literal_id: 0 }\nLoadLiteral { dest: 1, literal_id: 1 }\nStoreGlobal { src: 1, name: 0 }\nReturn { reg: 1 }"
        )
    );
}
