use evalrus::error::{spos, ErrorKind};
use evalrus::lexer::{tokenize, Token, TokenType};

#[test]
fn lexer_empty_string() {
    if let Ok(tokens) = tokenize(String::from("")) {
        assert!(tokens.len() == 0);
    } else {
        assert!(false, "unexpected error");
    }
}

#[test]
fn lexer_one_line() {
    if let Ok(tokens) = tokenize(String::from("(foo bar baz)")) {
        assert!(tokens.len() == 5);
        assert_eq!(tokens[0], Token::new(spos(1, 0), TokenType::OpenParen));
        assert_eq!(tokens[1], Token::new(spos(1, 1), TokenType::Symbol(String::from("foo"))));
        assert_eq!(tokens[2], Token::new(spos(1, 5), TokenType::Symbol(String::from("bar"))));
        assert_eq!(tokens[3], Token::new(spos(1, 9), TokenType::Symbol(String::from("baz"))));
        assert_eq!(tokens[4], Token::new(spos(1, 12), TokenType::CloseParen));
    } else {
        assert!(false, "unexpected error");
    }
}

#[test]
fn lexer_multi_line() {
    if let Ok(tokens) = tokenize(String::from("( foo\nbar\nbaz\n)")) {
        assert!(tokens.len() == 5);
        assert_eq!(tokens[0], Token::new(spos(1, 0), TokenType::OpenParen));
        assert_eq!(tokens[1], Token::new(spos(1, 2), TokenType::Symbol(String::from("foo"))));
        assert_eq!(tokens[2], Token::new(spos(2, 0), TokenType::Symbol(String::from("bar"))));
        assert_eq!(tokens[3], Token::new(spos(3, 0), TokenType::Symbol(String::from("baz"))));
        assert_eq!(tokens[4], Token::new(spos(4, 0), TokenType::CloseParen));
    } else {
        assert!(false, "unexpected error");
    }
}

#[test]
fn lexer_bad_whitespace() {
    if let Err(e) = tokenize(String::from("(foo\n\t(bar))")) {
        assert_eq!(e.error_pos().unwrap().line, 2);
        assert_eq!(e.error_pos().unwrap().column, 0);
    } else {
        assert!(false, "expected ParseError for tab character");
    }
}

#[test]
fn lexer_tab_error_kind_and_message() {
    match tokenize(String::from("a\tb")) {
        Ok(_) => panic!("a tab must be refused"),
        Err(e) => {
            assert!(*e.error_kind() == ErrorKind::LexerError(String::from("tabs are not valid whitespace")));
            assert_eq!(e.error_pos(), Some(spos(1, 1)));
            assert_eq!(e.message(), String::from("Lexer error: tabs are not valid whitespace"));
        }
    }
}

#[test]
fn lexer_dot_and_crlf() {
    let tokens = tokenize(String::from("(a . b)\r\n(c)")).unwrap();
    assert_eq!(tokens.len(), 8);
    assert_eq!(tokens[2], Token::new(spos(1, 3), TokenType::Dot));
    assert_eq!(tokens[4], Token::new(spos(1, 6), TokenType::CloseParen));
    assert_eq!(tokens[5], Token::new(spos(2, 0), TokenType::OpenParen));
    assert_eq!(*tokens[6].token_type(), TokenType::Symbol(String::from("c")));
}

#[test]
fn lexer_symbol_with_dot_inside() {
    let tokens = tokenize(String::from("a.b")).unwrap();
    assert_eq!(tokens.len(), 1);
    assert_eq!(tokens[0], Token::new(spos(1, 0), TokenType::Symbol(String::from("a.b"))));
}
