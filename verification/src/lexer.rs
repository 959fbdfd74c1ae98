use vstd::prelude::*;

use crate::error::{err_lexer, spos, ErrorKindView, RuntimeError, SourcePos};

verus! {

// key characters
pub const OPEN_PAREN: char = '(';
pub const CLOSE_PAREN: char = ')';
pub const SPACE: char = ' ';
pub const TAB: char = '\t';
pub const CR: char = '\r';
pub const LF: char = '\n';
pub const DOT: char = '.';

/// The kinds of token the lexer produces
#[derive(Debug, PartialEq)]
pub enum TokenType {
    OpenParen,
    CloseParen,
    Symbol(String),
    Dot,
}

/// A token together with the source position of its first character
#[derive(Debug, PartialEq)]
pub struct Token {
    pub pos: SourcePos,
    pub token: TokenType,
}

/// Mathematical model of a token's type
pub enum TokenKind {
    OpenParen,
    CloseParen,
    Symbol(Seq<char>),
    Dot,
}

/// Mathematical model of a token: its type and the line and column it starts at
pub struct SpecToken {
    pub line: nat,
    pub column: nat,
    pub kind: TokenKind,
}

impl View for TokenType {
    type V = TokenKind;

    open spec fn view(&self) -> TokenKind {
        match self {
            TokenType::OpenParen => TokenKind::OpenParen,
            TokenType::CloseParen => TokenKind::CloseParen,
            TokenType::Symbol(s) => TokenKind::Symbol(s@),
            TokenType::Dot => TokenKind::Dot,
        }
    }
}

impl View for Token {
    type V = SpecToken;

    open spec fn view(&self) -> SpecToken {
        SpecToken { line: self.pos.line as nat, column: self.pos.column as nat, kind: self.token@ }
    }
}

/// The models of a sequence of tokens
pub open spec fn tokens_view(tokens: Seq<Token>) -> Seq<SpecToken> {
    tokens.map_values(|t: Token| t@)
}

impl Token {
    /// Construct a token
    pub fn new(pos: SourcePos, token: TokenType) -> (t: Token)
        ensures
            t.pos == pos,
            t.token == token,
    {
        Token { pos: pos, token: token }
    }

    /// The type of the token
    pub fn token_type(&self) -> (t: &TokenType)
        ensures
            t == &self.token,
    {
        &self.token
    }
}

/// Characters that end a symbol
pub open spec fn is_terminating(c: char) -> bool {
    c == '(' || c == ')' || c == ' ' || c == '\t' || c == '\r' || c == '\n'
}

/// The length of the longest prefix of `s` made of non-terminating characters
pub open spec fn symbol_run(s: Seq<char>) -> nat
    decreases s.len(),
{
    if s.len() == 0 || is_terminating(s[0]) {
        0
    } else {
        1 + symbol_run(s.drop_first())
    }
}

/// Prepend a token to a lexing result
pub open spec fn prepend_token(
    t: SpecToken,
    rest: Result<Seq<SpecToken>, (nat, nat)>,
) -> Result<Seq<SpecToken>, (nat, nat)> {
    match rest {
        Ok(ts) => Ok(seq![t] + ts),
        Err(p) => Err(p),
    }
}

/// The tokens of `s`, given that `s` starts at `line` and `column`; or the
/// line and column of the first tab character, which is not valid whitespace.
pub open spec fn spec_lex(s: Seq<char>, line: nat, column: nat) -> Result<
    Seq<SpecToken>,
    (nat, nat),
>
    decreases s.len(),
{
    if s.len() == 0 {
        Ok(seq![])
    } else {
        let c = s[0];
        if c == '\t' {
            Err((line, column))
        } else if c == ' ' {
            spec_lex(s.drop_first(), line, column + 1)
        } else if c == '\r' {
            if s.len() > 1 && s[1] == '\n' {
                spec_lex(s.skip(2), line + 1, 0)
            } else {
                spec_lex(s.drop_first(), line + 1, 0)
            }
        } else if c == '\n' {
            spec_lex(s.drop_first(), line + 1, 0)
        } else if c == '.' {
            prepend_token(
                SpecToken { line, column, kind: TokenKind::Dot },
                spec_lex(s.drop_first(), line, column + 1),
            )
        } else if c == '(' {
            prepend_token(
                SpecToken { line, column, kind: TokenKind::OpenParen },
                spec_lex(s.drop_first(), line, column + 1),
            )
        } else if c == ')' {
            prepend_token(
                SpecToken { line, column, kind: TokenKind::CloseParen },
                spec_lex(s.drop_first(), line, column + 1),
            )
        } else {
            proof {
                lemma_symbol_run_bound(s.drop_first());
            }
            let n = 1 + symbol_run(s.drop_first());
            prepend_token(
                SpecToken { line, column, kind: TokenKind::Symbol(s.take(n as int)) },
                spec_lex(s.skip(n as int), line, column + n),
            )
        }
    }
}

/// The tokens of a whole input text, which starts at line 1, column 0
pub open spec fn spec_tokenize(s: Seq<char>) -> Result<Seq<SpecToken>, (nat, nat)> {
    spec_lex(s, 1, 0)
}

pub proof fn lemma_symbol_run_bound(s: Seq<char>)
    ensures
        symbol_run(s) <= s.len(),
        forall|k: int| 0 <= k < symbol_run(s) ==> !is_terminating(#[trigger] s[k]),
        symbol_run(s) < s.len() ==> is_terminating(s[symbol_run(s) as int]),
    decreases s.len(),
{
    if s.len() > 0 && !is_terminating(s[0]) {
        lemma_symbol_run_bound(s.drop_first());
        assert forall|k: int| 0 <= k < symbol_run(s) implies !is_terminating(#[trigger] s[k]) by {
            if k > 0 {
                assert(s[k] == s.drop_first()[k - 1]);
            }
        }
    }
}

/// symbol_run of a suffix, in terms of the characters after the suffix's start
proof fn lemma_symbol_run_step(s: Seq<char>, i: int)
    requires
        0 <= i < s.len(),
        !is_terminating(s[i]),
    ensures
        symbol_run(s.skip(i)) == 1 + symbol_run(s.skip(i + 1)),
{
    assert(s.skip(i).drop_first() =~= s.skip(i + 1));
}

proof fn lemma_symbol_run_stop(s: Seq<char>, i: int)
    requires
        0 <= i <= s.len(),
        i == s.len() || is_terminating(s[i]),
    ensures
        symbol_run(s.skip(i)) == 0,
{
}

proof fn lemma_accumulate(
    prev: Seq<SpecToken>,
    t: SpecToken,
    r: Result<Seq<SpecToken>, (nat, nat)>,
)
    ensures
        match prepend_token(t, r) {
            Ok(ts) => Ok::<Seq<SpecToken>, (nat, nat)>(prev + ts),
            Err(p) => Err(p),
        } == match r {
            Ok(ts) => Ok::<Seq<SpecToken>, (nat, nat)>((prev + seq![t]) + ts),
            Err(p) => Err(p),
        },
{
    match r {
        Ok(ts) => {
            assert(prev + (seq![t] + ts) =~= (prev + seq![t]) + ts);
        },
        Err(p) => {},
    }
}

/// Append a character to a string with `String::push`, which std documents
/// as appending the given char to the end of the String.
#[verifier::external_body]
pub(crate) fn push_char(s: &mut String, c: char)
    ensures
        final(s)@ == old(s)@.push(c),
{
    s.push(c)
}

/// The characters of a string
pub(crate) fn chars_of(s: &str) -> (v: Vec<char>)
    ensures
        v@ == s@,
{
    let mut v: Vec<char> = Vec::new();
    for c in it: s.chars()
        invariant
            v@ == it.seq().take(it.index()),
    {
        v.push(c);
    }
    v
}

/// Split the input text into tokens
pub fn tokenize(input: String) -> (r: Result<Vec<Token>, RuntimeError>)
    requires
        input@.len() < u32::MAX,
    ensures
        match spec_tokenize(input@) {
            Ok(ts) => r matches Ok(v) && tokens_view(v@) == ts,
            Err((line, column)) => r matches Err(e) && e@.kind == ErrorKindView::LexerError(
                "tabs are not valid whitespace"@,
            ) && e@.pos == Some(SourcePos { line: line as u32, column: column as u32 }),
        },
{
    let inp = input.as_str();
    assert(inp@ == input@);
    let chars = chars_of(inp);
    assert(chars@ == inp@);
    let ghost s = chars@;
    let len = chars.len();

    // return value
    let mut tokens: Vec<Token> = Vec::new();

    // start line numbering at 1, the first character of each line being number 0
    let mut lineno: u32 = 1;
    let mut charno: u32 = 0;
    let mut i: usize = 0;
    assert(s.skip(0) =~= s);
    proof {
    match spec_lex(s, 1, 0) {
        Ok(ts) => {
            assert(tokens_view(tokens@) + ts =~= ts);
        },
        Err(p) => {},
    }
    }

    while i < len
        invariant
            len == s.len(),
            s == chars@,
            s == input@,
            s.len() < u32::MAX,
            0 <= i <= len,
            1 <= lineno <= 1 + i,
            charno <= i,
            spec_tokenize(s) == match spec_lex(s.skip(i as int), lineno as nat, charno as nat) {
                Ok(ts) => Ok(tokens_view(tokens@) + ts),
                Err(p) => Err(p),
            },
        decreases len - i,
    {
        let c = chars[i];
        let ghost rest = s.skip(i as int);
        assert(rest[0] == c);
        assert(rest.drop_first() =~= s.skip(i + 1));
        if c == TAB {
            assert(spec_lex(rest, lineno as nat, charno as nat) == Err::<Seq<SpecToken>, (nat, nat)>((lineno as nat, charno as nat)));
            assert(s == input@);
            return Err(err_lexer(spos(lineno, charno), "tabs are not valid whitespace"));
        } else if c == SPACE {
            assert(spec_lex(rest, lineno as nat, charno as nat) == spec_lex(s.skip(i + 1), lineno as nat, (charno + 1) as nat));
            i = i + 1;
            charno = charno + 1;
        } else if c == CR {
            if i + 1 < len && chars[i + 1] == LF {
                assert(rest.skip(2) =~= s.skip(i + 2));
                assert(spec_lex(rest, lineno as nat, charno as nat) == spec_lex(s.skip(i + 2), (lineno + 1) as nat, 0));
                i = i + 2;
            } else {
                i = i + 1;
            }
            lineno = lineno + 1;
            charno = 0;
        } else if c == LF {
            assert(spec_lex(rest, lineno as nat, charno as nat) == spec_lex(s.skip(i + 1), (lineno + 1) as nat, 0));
            i = i + 1;
            lineno = lineno + 1;
            charno = 0;
        } else if c == DOT || c == OPEN_PAREN || c == CLOSE_PAREN {
            let tt = if c == DOT {
                TokenType::Dot
            } else if c == OPEN_PAREN {
                TokenType::OpenParen
            } else {
                TokenType::CloseParen
            };
            let ghost old_tokens = tokens@;
            let ghost st = SpecToken { line: lineno as nat, column: charno as nat, kind: tt@ };
            assert(spec_lex(rest, lineno as nat, charno as nat) == prepend_token(
                st, spec_lex(s.skip(i + 1), lineno as nat, (charno + 1) as nat)));
            tokens.push(Token::new(spos(lineno, charno), tt));
            assert(tokens_view(tokens@) =~= tokens_view(old_tokens) + seq![st]);
            proof {
                lemma_accumulate(tokens_view(old_tokens), st, spec_lex(s.skip(i + 1), lineno as nat, (charno + 1) as nat));
            }
            i = i + 1;
            charno = charno + 1;
        } else {
            let symbol_begin = charno;
            let start = i;
            let mut symbol = String::new();
            push_char(&mut symbol, c);
            i = i + 1;
            charno = charno + 1;
            // consume symbol
            while i < len && !(chars[i] == OPEN_PAREN || chars[i] == CLOSE_PAREN || chars[i]
                == SPACE || chars[i] == TAB || chars[i] == CR || chars[i] == LF)
                invariant
                    len == s.len(),
                    s == chars@,
                    s.len() < u32::MAX,
                    start < i <= len,
                    charno == symbol_begin + (i - start),
                    symbol_begin <= start,
                    symbol@ == s.subrange(start as int, i as int),
                    symbol_run(s.skip(start + 1)) == (i - start - 1) + symbol_run(s.skip(i as int)),
                decreases len - i,
            {
                proof {
                    lemma_symbol_run_step(s, i as int);
                }
                push_char(&mut symbol, chars[i]);
                assert(symbol@ =~= s.subrange(start as int, i + 1));
                i = i + 1;
                charno = charno + 1;
            }
            proof {
                lemma_symbol_run_stop(s, i as int);
                assert(rest.drop_first() =~= s.skip(start + 1));
                assert(rest.take((i - start) as int) =~= s.subrange(start as int, i as int));
                assert(rest.skip((i - start) as int) =~= s.skip(i as int));
            }
            let ghost old_tokens = tokens@;
            let ghost st = SpecToken { line: lineno as nat, column: symbol_begin as nat, kind: TokenKind::Symbol(symbol@) };
            assert(spec_lex(rest, lineno as nat, symbol_begin as nat) == prepend_token(
                st, spec_lex(s.skip(i as int), lineno as nat, charno as nat)));
            tokens.push(Token::new(spos(lineno, symbol_begin), TokenType::Symbol(symbol)));
            assert(tokens_view(tokens@) =~= tokens_view(old_tokens) + seq![st]);
            proof {
                lemma_accumulate(tokens_view(old_tokens), st, spec_lex(s.skip(i as int), lineno as nat, charno as nat));
            }
        }
        proof {
            match spec_lex(s.skip(i as int), lineno as nat, charno as nat) {
                Ok(ts) => {
                    assert(tokens_view(tokens@) + ts =~= tokens_view(tokens@) + ts);
                },
                Err(p) => {},
            }
        }
    }
    assert(s.skip(i as int) =~= Seq::<char>::empty());
    assert(tokens_view(tokens@) + Seq::<SpecToken>::empty() =~= tokens_view(tokens@));
    Ok(tokens)
}

} // verus!
