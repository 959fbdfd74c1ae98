use evalrus::error::{spos, ErrorKind};
use evalrus::memory::Memory;
use evalrus::parser::parse;
use evalrus::printer::{debug, print};

fn check(input: &str, expect: &str) {
    let mut mem = Memory::new();
    let ast = parse(&mut mem, input).unwrap();
    assert!(print(&mem, ast) == expect);
}

#[test]
fn parse_empty_list() {
    let input = String::from("()");
    let expect = input.clone();
    check(&input, &expect);
}

#[test]
fn parse_symbol() {
    let input = String::from("a");
    let expect = input.clone();
    check(&input, &expect);
}

#[test]
fn parse_list() {
    let input = String::from("(a)");
    let expect = input.clone();
    check(&input, &expect);
}

#[test]
fn parse_list_nested1() {
    let input = String::from("((a))");
    let expect = input.clone();
    check(&input, &expect);
}

#[test]
fn parse_list_nested2() {
    let input = String::from("(a (b c) d)");
    let expect = input.clone();
    check(&input, &expect);
}

#[test]
fn parse_list_nested3() {
    let input = String::from("(a b (c (d)))");
    let expect = input.clone();
    check(&input, &expect);
}

#[test]
fn parse_longer_list() {
    let input = String::from("(a b c)");
    let expect = input.clone();
    check(&input, &expect);
}

#[test]
fn parse_dot_notation() {
    let input = String::from("(a . b)");
    let expect = input.clone();
    check(&input, &expect);
}

#[test]
fn parse_dot_notation_longer() {
    let input = String::from("((a . b) . (c . d))");
    let expect = String::from("((a . b) c . d)");
    check(&input, &expect);
}

#[test]
fn parse_dot_notation_with_nil() {
    let input = String::from("(a . ())");
    let expect = String::from("(a)");
    check(&input, &expect);
}

fn parse_error(input: &str) -> (ErrorKind, Option<evalrus::error::SourcePos>) {
    let mut mem = Memory::new();
    match parse(&mut mem, input) {
        Ok(_) => panic!("a parse error was expected"),
        Err(e) => (match e.error_kind() {
            ErrorKind::ParseError(s) => ErrorKind::ParseError(s.clone()),
            ErrorKind::LexerError(s) => ErrorKind::LexerError(s.clone()),
            _ => panic!("unexpected error kind"),
        }, e.error_pos()),
    }
}

#[test]
fn parse_unmatched_close_paren() {
    let (kind, pos) = parse_error(")");
    assert!(kind == ErrorKind::ParseError(String::from("Unmatched close parenthesis")));
    assert_eq!(pos, Some(spos(1, 0)));
}

#[test]
fn parse_dot_first_in_list() {
    let (kind, pos) = parse_error("( . a)");
    assert!(kind == ErrorKind::ParseError(String::from("Unexpected '.' dot after open-parenthesis")));
    assert_eq!(pos, Some(spos(1, 2)));
}

#[test]
fn parse_dot_not_closed() {
    let (kind, pos) = parse_error("(a . b c)");
    assert!(kind == ErrorKind::ParseError(String::from("Dotted pair must be closed by a ')' close-parenthesis")));
    assert_eq!(pos, Some(spos(1, 7)));
}

#[test]
fn parse_unterminated_list() {
    let (kind, pos) = parse_error("(a (b c)");
    assert!(kind == ErrorKind::ParseError(String::from("Unexpected end of code stream")));
    assert_eq!(pos, None);
}

#[test]
fn parse_lone_dot() {
    let (kind, pos) = parse_error(". a");
    assert!(kind == ErrorKind::ParseError(String::from("Invalid symbol '.'")));
    assert_eq!(pos, Some(spos(1, 0)));
}

#[test]
fn parse_tab_is_a_lexer_error() {
    let (kind, pos) = parse_error("(a\tb)");
    assert!(kind == ErrorKind::LexerError(String::from("tabs are not valid whitespace")));
    assert_eq!(pos, Some(spos(1, 2)));
}

#[test]
fn parse_empty_input_is_nil() {
    check("", "()");
}

#[test]
fn parse_only_first_expression() {
    check("(a b) (c d)", "(a b)");
}

#[test]
fn parse_then_debug_print_uses_dots() {
    let mut mem = Memory::new();
    let ast = parse(&mut mem, "(a (b) c)").unwrap();
    assert_eq!(debug(&mem, ast), String::from("(a . ((b . ()) . (c . ())))"));
}

#[test]
fn parse_interns_symbols_once() {
    let mut mem = Memory::new();
    let first = parse(&mut mem, "foo").unwrap();
    let second = parse(&mut mem, "foo").unwrap();
    assert!(first == second);
    assert_eq!(mem.syms.len(), 1);
}

#[test]
fn parse_print_roundtrip() {
    let mut mem = Memory::new();
    let ast = parse(&mut mem, "(x (y . z) . w)").unwrap();
    let printed = print(&mem, ast);
    let again = parse(&mut mem, &printed).unwrap();
    assert_eq!(print(&mem, again), printed);
}

fn pair_index(p: evalrus::taggedptr::TaggedPtr) -> usize {
    match p {
        evalrus::taggedptr::TaggedPtr::Pair(i) => i,
        _ => panic!("a pair was expected"),
    }
}

#[test]
fn parse_records_source_positions_in_pairs() {
    let mut mem = Memory::new();
    let ast = parse(&mut mem, "(a (b) . c)").unwrap();
    let first = mem.get_pair(pair_index(ast)).clone();
    assert_eq!(first.first_pos, Some(spos(1, 1)));
    assert_eq!(first.second_pos, Some(spos(1, 3)));
    let second = mem.get_pair(pair_index(first.second)).clone();
    assert_eq!(second.first_pos, Some(spos(1, 3)));
    assert_eq!(second.second_pos, Some(spos(1, 7)));
    let inner = mem.get_pair(pair_index(second.first)).clone();
    assert_eq!(inner.first_pos, Some(spos(1, 4)));
    assert_eq!(inner.second_pos, Some(spos(1, 4)));

    let ast = parse(&mut mem, "(a\n b)").unwrap();
    let first = mem.get_pair(pair_index(ast)).clone();
    assert_eq!(first.first_pos, Some(spos(1, 1)));
    assert_eq!(first.second_pos, Some(spos(2, 1)));
    let second = mem.get_pair(pair_index(first.second)).clone();
    assert_eq!(second.first_pos, Some(spos(2, 1)));
    assert_eq!(second.second_pos, None);
}
