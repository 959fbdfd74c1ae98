use evalrus::error::ErrorKind;
use evalrus::memory::Memory;
use evalrus::pair::{get_one_from_pair_list, get_two_from_pair_list, vec_from_pairs, Pair};
use evalrus::taggedptr::TaggedPtr;

#[test]
fn pair_list_length_1() {
    let mut mem = Memory::new();
    let thing = mem.lookup_sym("thing");

    let mut head = Pair::new();
    head.first = thing;

    let head = mem.alloc_pair(head);

    assert!(get_one_from_pair_list(&mem, head).unwrap() == thing);
}

#[test]
fn pair_list_length_0_should_be_1() {
    let mem = Memory::new();
    let thing = mem.nil();

    match get_one_from_pair_list(&mem, thing) {
        Ok(_) => panic!("No list given, no value should have been found!"),
        Err(e) => assert!(*e.error_kind() == ErrorKind::EvalError(String::from("Expected a Pair list"))),
    }
}

#[test]
fn pair_list_length_2_should_be_1() {
    let mut mem = Memory::new();
    let mut head = Pair::new();
    head.append(&mut mem, TaggedPtr::Nil);

    let head = mem.alloc_pair(head);

    match get_one_from_pair_list(&mem, head) {
        Ok(_) => panic!("Too-long list given, no value should have been returned!"),
        Err(e) => assert!(
            *e.error_kind() == ErrorKind::EvalError(String::from("Expected no more than one value in Pair list"))
        ),
    }
}

#[test]
fn pair_list_length_2() {
    let mut mem = Memory::new();
    let thing1 = mem.lookup_sym("thing1");
    let thing2 = mem.lookup_sym("thing2");

    let mut head = Pair::new();
    head.first = thing1;
    head.append(&mut mem, thing2);

    let head = mem.alloc_pair(head);

    assert!(get_two_from_pair_list(&mem, head).unwrap() == (thing1, thing2));
}

#[test]
fn pair_list_length_0_should_be_2() {
    let mem = Memory::new();
    let thing = mem.nil();

    match get_two_from_pair_list(&mem, thing) {
        Ok(_) => panic!("No list given, no values could have been found!"),
        Err(e) => assert!(*e.error_kind() == ErrorKind::EvalError(String::from("Expected a Pair list"))),
    }
}

#[test]
fn pair_list_length_1_should_be_2() {
    let mut mem = Memory::new();
    let head = mem.alloc_pair(Pair::new());

    match get_two_from_pair_list(&mem, head) {
        Ok(_) => panic!("Too-short list given, no values should have been found!"),
        Err(e) => assert!(
            *e.error_kind() == ErrorKind::EvalError(String::from("Expected no less than two values in Pair list"))
        ),
    }
}

#[test]
fn pair_list_length_3_should_be_2() {
    let mut mem = Memory::new();
    let mut pair = Pair::new();
    pair.append(&mut mem, TaggedPtr::Nil);
    let mut head = Pair::new();
    let second = mem.alloc_pair(pair);
    head.dot(second);
    let head = mem.alloc_pair(head);

    match get_two_from_pair_list(&mem, head) {
        Ok(_) => panic!("Too-long list given, no values should have been returned!"),
        Err(e) => assert!(
            *e.error_kind() == ErrorKind::EvalError(String::from("Expected no more than two values in Pair list"))
        ),
    }
}

#[test]
fn pair_vec_from_proper_list() {
    let mut mem = Memory::new();
    let a = mem.lookup_sym("a");
    let b = mem.lookup_sym("b");
    let tail = mem.alloc_pair(Pair { first: b, second: TaggedPtr::Nil, first_pos: None, second_pos: None });
    let head = mem.alloc_pair(Pair { first: a, second: tail, first_pos: None, second_pos: None });
    assert_eq!(vec_from_pairs(&mem, head).unwrap(), vec![a, b]);
    assert_eq!(vec_from_pairs(&mem, TaggedPtr::Nil).unwrap(), Vec::<TaggedPtr>::new());
}

#[test]
fn pair_vec_from_improper_list() {
    let mut mem = Memory::new();
    let a = mem.lookup_sym("a");
    let head = mem.alloc_pair(Pair { first: a, second: a, first_pos: None, second_pos: None });
    match vec_from_pairs(&mem, head) {
        Ok(_) => panic!("an improper list has no items"),
        Err(e) => assert!(*e.error_kind() == ErrorKind::EvalError(String::from("Incorrectly terminated Pair list"))),
    }
    match vec_from_pairs(&mem, a) {
        Ok(_) => panic!("a symbol is no list"),
        Err(e) => assert!(*e.error_kind() == ErrorKind::EvalError(String::from("Expected a Pair"))),
    }
}
