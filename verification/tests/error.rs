use evalrus::error::{err_eval, err_parser_wpos, spos, ErrorKind, RuntimeError};

#[test]
fn error_without_position_shows_only_the_message() {
    let e = err_eval("Symbol is not bound to a value");
    assert_eq!(
        e.print_with_source("(foo)"),
        String::from("error: Evaluation error: Symbol is not bound to a value\n")
    );
    let e = RuntimeError::new(ErrorKind::BoundsError);
    assert_eq!(e.print_with_source(""), String::from("error: Indexing bounds error\n"));
}

#[test]
fn error_with_position_shows_line_and_caret() {
    let e = err_parser_wpos(spos(1, 3), "Unexpected end of stream");
    assert_eq!(
        e.print_with_source("(a b"),
        String::from("error: Parse error: Unexpected end of stream\n    1|(a b\n     |   ^\n     |\n")
    );
}

#[test]
fn error_caret_in_first_column_still_gets_one_space() {
    let e = err_parser_wpos(spos(1, 0), "x");
    assert_eq!(e.print_with_source(")"), String::from("error: Parse error: x\n    1|)\n     | ^\n     |\n"));
}

#[test]
fn error_on_a_later_line_of_several() {
    let e = err_parser_wpos(spos(2, 1), "y");
    assert_eq!(
        e.print_with_source("a\r\nbc\n"),
        String::from("error: Parse error: y\n    2|bc\n     | ^\n     |\n")
    );
    let e = err_parser_wpos(spos(1, 1), "z");
    assert_eq!(
        e.print_with_source("a\r\nbc\n"),
        String::from("error: Parse error: z\n    1|a\n     | ^\n     |\n")
    );
    let source = format!("{}x", "\n".repeat(11));
    let e = err_parser_wpos(spos(12, 0), "w");
    assert_eq!(e.print_with_source(&source), String::from("error: Parse error: w\n   12|x\n     | ^\n     |\n"));
}

#[test]
fn error_on_a_line_the_source_does_not_have_shows_only_the_message() {
    let e = err_parser_wpos(spos(3, 0), "q");
    assert_eq!(e.print_with_source("one\ntwo\n"), String::from("error: Parse error: q\n"));
    let e = err_parser_wpos(spos(0, 0), "q");
    assert_eq!(e.print_with_source("one"), String::from("error: Parse error: q\n"));
}
