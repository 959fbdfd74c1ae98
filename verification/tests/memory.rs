use evalrus::memory::{values_equal, Memory};
use evalrus::parser::parse;
use evalrus::printer::print;
use evalrus::taggedptr::TaggedPtr;

#[test]
fn memory_registers_start_nil_and_hold_what_was_written() {
    let mut mem = Memory::new();
    assert!(mem.get_reg(0) == TaggedPtr::Nil);
    assert!(mem.get_reg(255) == TaggedPtr::Nil);
    let sym = mem.lookup_sym("x");
    mem.set_reg(7, sym);
    assert!(mem.get_reg(7) == sym);
    assert!(mem.get_reg(6) == TaggedPtr::Nil);
    assert_eq!(print(&mem, mem.get_reg(7)), String::from("x"));
    mem.set_reg(7, TaggedPtr::Number(-12));
    assert_eq!(print(&mem, mem.get_reg(7)), String::from("-12"));
}

#[test]
fn memory_interns_each_name_once() {
    let mut mem = Memory::new();
    let a = mem.lookup_sym("a");
    let b = mem.lookup_sym("b");
    let a2 = mem.lookup_sym("a");
    assert!(a == a2);
    assert!(a != b);
    assert_eq!(mem.syms.len(), 2);
}

#[test]
fn values_equal_compares_pairs_by_contents() {
    let mut mem = Memory::new();
    let a = parse(&mut mem, "(x (y) . z)").unwrap();
    let b = parse(&mut mem, "(x (y) . z)").unwrap();
    let c = parse(&mut mem, "(x (y) z)").unwrap();
    assert!(a != b);
    assert!(values_equal(&mem, a, b));
    assert!(!values_equal(&mem, a, c));
    let x = mem.lookup_sym("x");
    let y = mem.lookup_sym("y");
    assert!(values_equal(&mem, x, x));
    assert!(!values_equal(&mem, x, y));
    assert!(values_equal(&mem, TaggedPtr::Number(3), TaggedPtr::Number(3)));
    assert!(!values_equal(&mem, TaggedPtr::Number(3), TaggedPtr::Nil));
    assert!(values_equal(&mem, TaggedPtr::Nil, TaggedPtr::Nil));
}
