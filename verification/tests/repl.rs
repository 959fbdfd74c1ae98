use evalrus::memory::Memory;
use evalrus::repl::ReadEvalPrint;

#[test]
fn repl_prints_the_value_of_a_line() {
    let mut mem = Memory::new();
    let mut rep = ReadEvalPrint::new(&mut mem).unwrap();
    let (text, outcome) = rep.run(&mut mem, "(quote (a b))");
    assert_eq!(text, String::from("(a b)\n"));
    assert!(outcome.is_ok());
}

#[test]
fn repl_keeps_globals_between_lines() {
    let mut mem = Memory::new();
    let mut rep = ReadEvalPrint::new(&mut mem).unwrap();
    let (text, _) = rep.run(&mut mem, "(set (quote w) (quote v))");
    assert_eq!(text, String::from("w\n"));
    let (text, outcome) = rep.run(&mut mem, "v");
    assert_eq!(text, String::from("w\n"));
    assert!(outcome.is_ok());
}

#[test]
fn repl_shows_a_parse_error_in_context_and_goes_on() {
    let mut mem = Memory::new();
    let mut rep = ReadEvalPrint::new(&mut mem).unwrap();
    let (text, outcome) = rep.run(&mut mem, "(a . b c)");
    assert_eq!(
        text,
        String::from(
            "error: Parse error: Dotted pair must be closed by a ')' close-parenthesis\n    1|(a . b c)\n     |       ^\n     |\n"
        )
    );
    assert!(outcome.is_ok());
    let (text, outcome) = rep.run(&mut mem, "(a\tb)");
    assert_eq!(
        text,
        String::from("error: Lexer error: tabs are not valid whitespace\n    1|(a\tb)\n     |  ^\n     |\n")
    );
    assert!(outcome.is_ok());
    let (text, _) = rep.run(&mut mem, "(quote ok)");
    assert_eq!(text, String::from("ok\n"));
}

#[test]
fn repl_shows_a_compile_error_and_goes_on() {
    let mut mem = Memory::new();
    let mut rep = ReadEvalPrint::new(&mut mem).unwrap();
    let (text, outcome) = rep.run(&mut mem, "((a) b)");
    assert_eq!(text, String::from("error: Evaluation error: Non symbol in function-call position\n"));
    assert!(outcome.is_ok());
}

#[test]
fn repl_shows_the_traceback_before_an_evaluation_error() {
    let mut mem = Memory::new();
    let mut rep = ReadEvalPrint::new(&mut mem).unwrap();
    rep.run(&mut mem, "(def h () (car (quote a)))");
    let (text, outcome) = rep.run(&mut mem, "(h)");
    assert_eq!(
        text,
        String::from(
            "Error traceback:\n  in (Function h ())\nerror: Evaluation error: Parameter to FirstOfPair is not a list\n"
        )
    );
    assert!(outcome.is_ok());
    let (text, outcome) = rep.run(&mut mem, "(g)");
    assert_eq!(text, String::from("error: Evaluation error: Symbol g is not bound to a value\n"));
    assert!(outcome.is_ok());
}
