//! Reading back what was printed: the printed form of a value made of nil,
//! pairs and symbols parses to the same value.
use vstd::prelude::*;

use crate::lexer::{is_terminating, spec_lex, symbol_run, SpecToken, TokenKind};
use crate::memory::{ptr_rank, Memory, ObjectView, SExpr};
use crate::parser::{spec_parse, spec_parse_items, spec_parse_list, spec_parse_sexpr};
use crate::printer::{print_below, print_ptr, print_tail};
use crate::taggedptr::TaggedPtr;

verus! {

/// A symbol name that reads back as a single symbol: not empty, not starting
/// with a dot, and holding no parenthesis, whitespace or line break
pub open spec fn readable_name(n: Seq<char>) -> bool {
    &&& n.len() > 0
    &&& n[0] != '.'
    &&& forall|k: int| 0 <= k < n.len() ==> !is_terminating(#[trigger] n[k])
}

/// A value made of nil, pairs and symbols with readable names
pub open spec fn readable(syms: Seq<Seq<char>>, objs: Seq<ObjectView>, p: TaggedPtr) -> bool
    decreases ptr_rank(p),
{
    match p {
        TaggedPtr::Nil => true,
        TaggedPtr::Symbol(i) => i < syms.len() && readable_name(syms[i as int]),
        TaggedPtr::Pair(i) => i < objs.len() && match objs[i as int] {
            ObjectView::Pair(first, second) => {
                &&& ptr_rank(first) < ptr_rank(p)
                &&& ptr_rank(second) < ptr_rank(p)
                &&& readable(syms, objs, first)
                &&& readable(syms, objs, second)
            },
            _ => false,
        },
        _ => false,
    }
}

/// The kinds of the tokens of a value's printed form
pub open spec fn print_kinds(syms: Seq<Seq<char>>, objs: Seq<ObjectView>, p: TaggedPtr) -> Seq<TokenKind>
    decreases ptr_rank(p), 1nat,
{
    match p {
        TaggedPtr::Nil => seq![TokenKind::OpenParen, TokenKind::CloseParen],
        TaggedPtr::Symbol(i) => seq![TokenKind::Symbol(syms[i as int])],
        TaggedPtr::Pair(i) => match objs[i as int] {
            ObjectView::Pair(first, second) => if ptr_rank(first) < ptr_rank(p) && ptr_rank(second) < ptr_rank(p) {
                seq![TokenKind::OpenParen] + print_kinds(syms, objs, first) + tail_kinds(syms, objs, second) + seq![
                    TokenKind::CloseParen,
                ]
            } else {
                Seq::empty()
            },
            _ => Seq::empty(),
        },
        _ => Seq::empty(),
    }
}

/// The kinds of the tokens of the printed rest of a list
pub open spec fn tail_kinds(syms: Seq<Seq<char>>, objs: Seq<ObjectView>, p: TaggedPtr) -> Seq<TokenKind>
    decreases ptr_rank(p), 2nat,
{
    match p {
        TaggedPtr::Nil => Seq::empty(),
        TaggedPtr::Pair(i) => match objs[i as int] {
            ObjectView::Pair(first, second) => if ptr_rank(first) < ptr_rank(p) && ptr_rank(second) < ptr_rank(p) {
                print_kinds(syms, objs, first) + tail_kinds(syms, objs, second)
            } else {
                Seq::empty()
            },
            _ => Seq::empty(),
        },
        _ => seq![TokenKind::Dot] + print_kinds(syms, objs, p),
    }
}

/// The kinds of a sequence of tokens
pub open spec fn kinds(ts: Seq<SpecToken>) -> Seq<TokenKind> {
    ts.map_values(|t: SpecToken| t.kind)
}

/// Text that may follow a token without joining it
pub open spec fn token_boundary(r: Seq<char>) -> bool {
    r.len() == 0 || is_terminating(r[0])
}

/// The tokens lexed from text that starts with a printed part, given how the
/// rest lexes: the part's tokens, then the rest's
pub open spec fn lexes_as(whole: Result<Seq<SpecToken>, (nat, nat)>, part: Seq<TokenKind>, rest: Result<Seq<SpecToken>, (nat, nat)>) -> bool {
    match rest {
        Ok(rs) => whole matches Ok(ts) && kinds(ts) == part + kinds(rs),
        Err(e) => whole == Err::<Seq<SpecToken>, (nat, nat)>(e),
    }
}

/// A run of symbol characters followed by a boundary is as long as the run
proof fn lemma_symbol_run_append(x: Seq<char>, r: Seq<char>)
    requires
        forall|k: int| 0 <= k < x.len() ==> !is_terminating(#[trigger] x[k]),
        token_boundary(r),
    ensures
        symbol_run(x + r) == x.len(),
    decreases x.len(),
{
    if x.len() == 0 {
        assert(x + r =~= r);
    } else {
        assert((x + r).drop_first() =~= x.drop_first() + r);
        assert((x + r)[0] == x[0]);
        lemma_symbol_run_append(x.drop_first(), r);
    }
}

/// Lexing one punctuation character or space in front of text
proof fn lemma_lex_first(ch: char, x: Seq<char>, l: nat, c: nat)
    ensures
        ch == '(' ==> spec_lex(seq![ch] + x, l, c) == crate::lexer::prepend_token(
            SpecToken { line: l, column: c, kind: TokenKind::OpenParen },
            spec_lex(x, l, c + 1),
        ),
        ch == ')' ==> spec_lex(seq![ch] + x, l, c) == crate::lexer::prepend_token(
            SpecToken { line: l, column: c, kind: TokenKind::CloseParen },
            spec_lex(x, l, c + 1),
        ),
        ch == '.' ==> spec_lex(seq![ch] + x, l, c) == crate::lexer::prepend_token(
            SpecToken { line: l, column: c, kind: TokenKind::Dot },
            spec_lex(x, l, c + 1),
        ),
        ch == ' ' ==> spec_lex(seq![ch] + x, l, c) == spec_lex(x, l, c + 1),
{
    assert((seq![ch] + x)[0] == ch);
    assert((seq![ch] + x).drop_first() =~= x);
}

/// Prepending a token adds its kind in front
proof fn lemma_prepend_kind(t: SpecToken, part: Seq<TokenKind>, whole: Result<Seq<SpecToken>, (nat, nat)>, rest: Result<Seq<SpecToken>, (nat, nat)>)
    requires
        lexes_as(whole, part, rest),
    ensures
        lexes_as(crate::lexer::prepend_token(t, whole), seq![t.kind] + part, rest),
{
    match rest {
        Ok(rs) => {
            let ts = whole->Ok_0;
            assert(kinds(seq![t] + ts) =~= seq![t.kind] + kinds(ts));
            assert(seq![t.kind] + (part + kinds(rs)) =~= (seq![t.kind] + part) + kinds(rs));
        },
        Err(e) => {},
    }
}

/// Chaining: text lexing as a part followed by text lexing as another part
proof fn lemma_lexes_chain(
    whole: Result<Seq<SpecToken>, (nat, nat)>,
    part1: Seq<TokenKind>,
    mid: Result<Seq<SpecToken>, (nat, nat)>,
    part2: Seq<TokenKind>,
    rest: Result<Seq<SpecToken>, (nat, nat)>,
)
    requires
        lexes_as(whole, part1, mid),
        lexes_as(mid, part2, rest),
    ensures
        lexes_as(whole, part1 + part2, rest),
{
    match rest {
        Ok(rs) => {
            let ms = mid->Ok_0;
            let ws = whole->Ok_0;
            assert(part1 + (part2 + kinds(rs)) =~= (part1 + part2) + kinds(rs));
        },
        Err(e) => {},
    }
}

/// Text lexes as no tokens in front of itself
proof fn lemma_lexes_refl(r: Result<Seq<SpecToken>, (nat, nat)>)
    ensures
        lexes_as(r, Seq::empty(), r),
{
    match r {
        Ok(rs) => {
            assert(Seq::<TokenKind>::empty() + kinds(rs) =~= kinds(rs));
        },
        Err(e) => {},
    }
}

/// The views of the punctuation the printer writes
proof fn lemma_punctuation()
    ensures
        "("@ == seq!['('],
        ")"@ == seq![')'],
        " "@ == seq![' '],
        " . "@ == seq![' ', '.', ' '],
        "()"@ == seq!['(', ')'],
{
    reveal_strlit("(");
    reveal_strlit(")");
    reveal_strlit(" ");
    reveal_strlit(" . ");
    reveal_strlit("()");
}

/// The printed form of a readable value, followed by text at a token
/// boundary, lexes as the value's token kinds followed by the text's tokens
proof fn lemma_lex_print(syms: Seq<Seq<char>>, objs: Seq<ObjectView>, p: TaggedPtr, r: Seq<char>, l: nat, c: nat)
    requires
        readable(syms, objs, p),
        token_boundary(r),
    ensures
        lexes_as(
            spec_lex(print_ptr(syms, objs, p) + r, l, c),
            print_kinds(syms, objs, p),
            spec_lex(r, l, c + print_ptr(syms, objs, p).len()),
        ),
    decreases ptr_rank(p), 1nat,
{
    lemma_punctuation();
    let s = print_ptr(syms, objs, p);
    match p {
        TaggedPtr::Nil => {
            assert(s + r =~= seq!['('] + (seq![')'] + r));
            lemma_lex_first('(', seq![')'] + r, l, c);
            lemma_lex_first(')', r, l, c + 1);
            lemma_lexes_refl(spec_lex(r, l, c + 2));
            lemma_prepend_kind(
                SpecToken { line: l, column: c + 1, kind: TokenKind::CloseParen },
                Seq::empty(),
                spec_lex(r, l, c + 2),
                spec_lex(r, l, c + 2),
            );
            lemma_prepend_kind(
                SpecToken { line: l, column: c, kind: TokenKind::OpenParen },
                seq![TokenKind::CloseParen],
                spec_lex(seq![')'] + r, l, c + 1),
                spec_lex(r, l, c + 2),
            );
            assert(seq![TokenKind::OpenParen] + (Seq::<TokenKind>::empty() + seq![TokenKind::CloseParen]) =~= print_kinds(
                syms,
                objs,
                p,
            ));
            assert(seq![TokenKind::CloseParen] =~= seq![TokenKind::CloseParen] + Seq::<TokenKind>::empty());
        },
        TaggedPtr::Symbol(i) => {
            let n = syms[i as int];
            lemma_symbol_run_append(n.drop_first(), r);
            assert((n + r).drop_first() =~= n.drop_first() + r);
            assert((n + r)[0] == n[0]);
            assert((n + r).take(n.len() as int) =~= n);
            assert((n + r).skip(n.len() as int) =~= r);
            lemma_lexes_refl(spec_lex(r, l, c + n.len()));
            lemma_prepend_kind(
                SpecToken { line: l, column: c, kind: TokenKind::Symbol(n) },
                Seq::empty(),
                spec_lex(r, l, c + n.len()),
                spec_lex(r, l, c + n.len()),
            );
            assert(seq![TokenKind::Symbol(n)] + Seq::<TokenKind>::empty() =~= print_kinds(syms, objs, p));
        },
        TaggedPtr::Pair(i) => {
            let first = objs[i as int]->Pair_0;
            let second = objs[i as int]->Pair_1;
            let pf = print_ptr(syms, objs, first);
            let pt = print_tail(syms, objs, second);
            assert(print_below(syms, objs, first, ptr_rank(p)) == pf);
            assert(s == seq!['('] + pf + pt + seq![')']);
            let r2 = seq![')'] + r;
            let r1 = pt + r2;
            assert(s + r =~= seq!['('] + (pf + r1));
            // the rest of the list, then the close parenthesis
            lemma_lex_first(')', r, l, c + 1 + pf.len() + pt.len());
            lemma_lexes_refl(spec_lex(r, l, c + 1 + pf.len() + pt.len() + 1));
            lemma_prepend_kind(
                SpecToken { line: l, column: c + 1 + pf.len() + pt.len(), kind: TokenKind::CloseParen },
                Seq::empty(),
                spec_lex(r, l, c + 1 + pf.len() + pt.len() + 1),
                spec_lex(r, l, c + 1 + pf.len() + pt.len() + 1),
            );
            assert(seq![TokenKind::CloseParen] + Seq::<TokenKind>::empty() =~= seq![TokenKind::CloseParen]);
            lemma_lex_tail(syms, objs, second, r2, l, c + 1 + pf.len());
            lemma_lexes_chain(
                spec_lex(r1, l, c + 1 + pf.len()),
                tail_kinds(syms, objs, second),
                spec_lex(r2, l, c + 1 + pf.len() + pt.len()),
                seq![TokenKind::CloseParen],
                spec_lex(r, l, c + 1 + pf.len() + pt.len() + 1),
            );
            // the first item
            assert(token_boundary(r1)) by {
                lemma_tail_starts_at_boundary(syms, objs, second, r2);
            }
            lemma_lex_print(syms, objs, first, r1, l, c + 1);
            lemma_lexes_chain(
                spec_lex(pf + r1, l, c + 1),
                print_kinds(syms, objs, first),
                spec_lex(r1, l, c + 1 + pf.len()),
                tail_kinds(syms, objs, second) + seq![TokenKind::CloseParen],
                spec_lex(r, l, c + 1 + pf.len() + pt.len() + 1),
            );
            // the open parenthesis
            lemma_lex_first('(', pf + r1, l, c);
            lemma_prepend_kind(
                SpecToken { line: l, column: c, kind: TokenKind::OpenParen },
                print_kinds(syms, objs, first) + (tail_kinds(syms, objs, second) + seq![TokenKind::CloseParen]),
                spec_lex(pf + r1, l, c + 1),
                spec_lex(r, l, c + 1 + pf.len() + pt.len() + 1),
            );
            assert(seq![TokenKind::OpenParen] + (print_kinds(syms, objs, first) + (tail_kinds(syms, objs, second) + seq![
                TokenKind::CloseParen,
            ])) =~= print_kinds(syms, objs, p));
            assert(c + 1 + pf.len() + pt.len() + 1 == c + s.len());
        },
        _ => {},
    }
}

/// The printed rest of a list starts with a space, or is empty
proof fn lemma_tail_starts_at_boundary(syms: Seq<Seq<char>>, objs: Seq<ObjectView>, p: TaggedPtr, r: Seq<char>)
    requires
        readable(syms, objs, p),
        token_boundary(r),
    ensures
        token_boundary(print_tail(syms, objs, p) + r),
{
    lemma_punctuation();
    match p {
        TaggedPtr::Nil => {
            assert(print_tail(syms, objs, p) + r =~= r);
        },
        _ => {
            assert(print_tail(syms, objs, p).len() > 0 && print_tail(syms, objs, p)[0] == ' ');
            assert((print_tail(syms, objs, p) + r)[0] == ' ');
        },
    }
}

/// The printed rest of a readable list, followed by text at a token
/// boundary, lexes as the rest's token kinds followed by the text's tokens
proof fn lemma_lex_tail(syms: Seq<Seq<char>>, objs: Seq<ObjectView>, p: TaggedPtr, r: Seq<char>, l: nat, c: nat)
    requires
        readable(syms, objs, p),
        token_boundary(r),
    ensures
        lexes_as(
            spec_lex(print_tail(syms, objs, p) + r, l, c),
            tail_kinds(syms, objs, p),
            spec_lex(r, l, c + print_tail(syms, objs, p).len()),
        ),
    decreases ptr_rank(p), 2nat,
{
    lemma_punctuation();
    let s = print_tail(syms, objs, p);
    match p {
        TaggedPtr::Nil => {
            assert(s + r =~= r);
            lemma_lexes_refl(spec_lex(r, l, c));
        },
        TaggedPtr::Pair(i) => {
            let first = objs[i as int]->Pair_0;
            let second = objs[i as int]->Pair_1;
            let pf = print_ptr(syms, objs, first);
            let pt = print_tail(syms, objs, second);
            assert(print_below(syms, objs, first, ptr_rank(p)) == pf);
            assert(s == seq![' '] + pf + pt);
            let r1 = pt + r;
            assert(s + r =~= seq![' '] + (pf + r1));
            lemma_lex_tail(syms, objs, second, r, l, c + 1 + pf.len());
            assert(token_boundary(r1)) by {
                lemma_tail_starts_at_boundary(syms, objs, second, r);
            }
            lemma_lex_print(syms, objs, first, r1, l, c + 1);
            lemma_lexes_chain(
                spec_lex(pf + r1, l, c + 1),
                print_kinds(syms, objs, first),
                spec_lex(r1, l, c + 1 + pf.len()),
                tail_kinds(syms, objs, second),
                spec_lex(r, l, c + 1 + pf.len() + pt.len()),
            );
            lemma_lex_first(' ', pf + r1, l, c);
            assert(c + 1 + pf.len() + pt.len() == c + s.len());
        },
        _ => {
            let pp = print_ptr(syms, objs, p);
            assert(s == seq![' ', '.', ' '] + pp);
            assert(s + r =~= seq![' '] + (seq!['.'] + (seq![' '] + (pp + r))));
            lemma_lex_print(syms, objs, p, r, l, c + 3);
            lemma_lex_first(' ', pp + r, l, c + 2);
            lemma_lex_first('.', seq![' '] + (pp + r), l, c + 1);
            lemma_lex_first(' ', seq!['.'] + (seq![' '] + (pp + r)), l, c);
            lemma_prepend_kind(
                SpecToken { line: l, column: c + 1, kind: TokenKind::Dot },
                print_kinds(syms, objs, p),
                spec_lex(seq![' '] + (pp + r), l, c + 2),
                spec_lex(r, l, c + 3 + pp.len()),
            );
            assert(c + 3 + pp.len() == c + s.len());
        },
    }
}

/// The printed form of a readable value starts with an open parenthesis or
/// a symbol
proof fn lemma_print_kinds_start(syms: Seq<Seq<char>>, objs: Seq<ObjectView>, p: TaggedPtr)
    requires
        readable(syms, objs, p),
    ensures
        print_kinds(syms, objs, p).len() > 0,
        print_kinds(syms, objs, p)[0] is OpenParen || print_kinds(syms, objs, p)[0] is Symbol,
        p is Pair ==> print_kinds(syms, objs, p).drop_first() == tail_kinds(syms, objs, p) + seq![TokenKind::CloseParen],
        p is Nil ==> print_kinds(syms, objs, p).drop_first() == seq![TokenKind::CloseParen],
{
    if p is Pair {
        let i = p->Pair_0;
        let first = objs[i as int]->Pair_0;
        let second = objs[i as int]->Pair_1;
        assert(print_kinds(syms, objs, p).drop_first() =~= tail_kinds(syms, objs, p) + seq![TokenKind::CloseParen]);
    }
    if p is Nil {
        assert(print_kinds(syms, objs, p).drop_first() =~= seq![TokenKind::CloseParen]);
    }
}

/// Reading a readable value at a position of the tokens where its printed
/// form's kinds are gives the value's tree, and the position after it
proof fn lemma_parse_sexpr_print(mem: &Memory, p: TaggedPtr, ts: Seq<SpecToken>, k: nat)
    requires
        readable(mem.syms@, mem.object_views(), p),
        k + print_kinds(mem.syms@, mem.object_views(), p).len() <= ts.len(),
        kinds(ts).subrange(k as int, (k + print_kinds(mem.syms@, mem.object_views(), p).len()) as int) == print_kinds(
            mem.syms@,
            mem.object_views(),
            p,
        ),
    ensures
        spec_parse_sexpr(ts, k) == Ok::<(SExpr, nat), crate::parser::ParseFailure>(
            (mem.tree(p), k + print_kinds(mem.syms@, mem.object_views(), p).len()),
        ),
    decreases ptr_rank(p), 2nat,
{
    let syms = mem.syms@;
    let objs = mem.object_views();
    let pk = print_kinds(syms, objs, p);
    lemma_print_kinds_start(syms, objs, p);
    assert(ts[k as int].kind == kinds(ts).subrange(k as int, (k + pk.len()) as int)[0]);
    match p {
        TaggedPtr::Symbol(i) => {},
        _ => {
            assert(kinds(ts).subrange((k + 1) as int, (k + pk.len()) as int) =~= pk.drop_first());
            lemma_parse_list_print(mem, p, ts, k + 1);
        },
    }
}

/// Reading the rest of a list opened just before, for a readable nil or pair
proof fn lemma_parse_list_print(mem: &Memory, p: TaggedPtr, ts: Seq<SpecToken>, k: nat)
    requires
        readable(mem.syms@, mem.object_views(), p),
        p is Nil || p is Pair,
        k + print_kinds(mem.syms@, mem.object_views(), p).len() - 1 <= ts.len(),
        kinds(ts).subrange(k as int, (k + print_kinds(mem.syms@, mem.object_views(), p).len() - 1) as int) == print_kinds(
            mem.syms@,
            mem.object_views(),
            p,
        ).drop_first(),
    ensures
        spec_parse_list(ts, k) == Ok::<(SExpr, nat), crate::parser::ParseFailure>(
            (mem.tree(p), (k + print_kinds(mem.syms@, mem.object_views(), p).len() - 1) as nat),
        ),
    decreases ptr_rank(p), 1nat,
{
    let syms = mem.syms@;
    let objs = mem.object_views();
    let pk = print_kinds(syms, objs, p);
    lemma_print_kinds_start(syms, objs, p);
    assert(ts[k as int].kind == kinds(ts).subrange(k as int, (k + pk.len() - 1) as int)[0]);
    match p {
        TaggedPtr::Nil => {},
        _ => {
            let i = p->Pair_0;
            let first = objs[i as int]->Pair_0;
            lemma_print_kinds_start(syms, objs, first);
            assert(pk.drop_first()[0] == print_kinds(syms, objs, first)[0]);
            lemma_parse_items_print(mem, p, ts, k);
        },
    }
}

/// Reading the items of a list from the rest of a readable list on, up to and
/// including the close parenthesis
proof fn lemma_parse_items_print(mem: &Memory, s: TaggedPtr, ts: Seq<SpecToken>, k: nat)
    requires
        readable(mem.syms@, mem.object_views(), s),
        k + tail_kinds(mem.syms@, mem.object_views(), s).len() + 1 <= ts.len(),
        kinds(ts).subrange(k as int, (k + tail_kinds(mem.syms@, mem.object_views(), s).len() + 1) as int) == tail_kinds(
            mem.syms@,
            mem.object_views(),
            s,
        ) + seq![TokenKind::CloseParen],
    ensures
        spec_parse_items(ts, k) == Ok::<(SExpr, nat), crate::parser::ParseFailure>(
            (mem.tree(s), k + tail_kinds(mem.syms@, mem.object_views(), s).len() + 1),
        ),
    decreases ptr_rank(s), 0nat,
{
    let syms = mem.syms@;
    let objs = mem.object_views();
    let tk = tail_kinds(syms, objs, s);
    let region = kinds(ts).subrange(k as int, (k + tk.len() + 1) as int);
    assert(ts[k as int].kind == region[0]);
    match s {
        TaggedPtr::Nil => {
            assert(region =~= seq![TokenKind::CloseParen]);
            assert(ts[k as int].kind == TokenKind::CloseParen);
            assert(spec_parse_items(ts, k) == Ok::<(SExpr, nat), crate::parser::ParseFailure>((SExpr::Nil, k + 1)));
            assert(mem.tree(s) == SExpr::Nil);
        },
        TaggedPtr::Pair(i) => {
            let first = objs[i as int]->Pair_0;
            let second = objs[i as int]->Pair_1;
            let fk = print_kinds(syms, objs, first);
            let sk = tail_kinds(syms, objs, second);
            assert(tk == fk + sk);
            assert(objs[i as int] == mem.objects@[i as int]@);
            lemma_print_kinds_start(syms, objs, first);
            assert(region[0] == fk[0]);
            // the rest of the list after the first item
            let whole = fk + sk + seq![TokenKind::CloseParen];
            assert(region =~= whole);
            assert(whole.subrange(fk.len() as int, whole.len() as int) =~= sk + seq![TokenKind::CloseParen]);
            assert(kinds(ts).subrange((k + fk.len()) as int, (k + fk.len() + sk.len() + 1) as int) =~= region.subrange(
                fk.len() as int,
                region.len() as int,
            ));
            lemma_parse_items_print(mem, second, ts, k + fk.len());
            match first {
                TaggedPtr::Symbol(_) => {
                    assert(fk.len() == 1);
                },
                _ => {
                    assert(whole.subrange(1, fk.len() as int) =~= fk.drop_first());
                    assert(kinds(ts).subrange((k + 1) as int, (k + fk.len()) as int) =~= region.subrange(
                        1,
                        fk.len() as int,
                    ));
                    lemma_parse_list_print(mem, first, ts, k + 1);
                },
            }
        },
        _ => {
            // a dotted tail: a dot, the value, the close parenthesis
            let n = syms[s->Symbol_0 as int];
            assert(print_kinds(syms, objs, s) == seq![TokenKind::Symbol(n)]);
            assert(tk =~= seq![TokenKind::Dot, TokenKind::Symbol(n)]);
            assert(ts[k + 1int].kind == region[1]);
            assert(ts[k + 2int].kind == region[2]);
            assert(spec_parse_sexpr(ts, k + 1) == Ok::<(SExpr, nat), crate::parser::ParseFailure>((SExpr::Symbol(n), k + 2)));
            assert(spec_parse_items(ts, k) == Ok::<(SExpr, nat), crate::parser::ParseFailure>((SExpr::Symbol(n), k + 3)));
        },
    }
}

/// The printed form of a value made of nil, pairs and symbols with readable
/// names parses back to the same value.
pub proof fn law_parse_print(mem: &Memory, p: TaggedPtr)
    requires
        readable(mem.syms@, mem.object_views(), p),
    ensures
        spec_parse(print_ptr(mem.syms@, mem.object_views(), p)) == Ok::<SExpr, Result<(nat, nat), crate::parser::ParseFailure>>(
            mem.tree(p),
        ),
{
    let syms = mem.syms@;
    let objs = mem.object_views();
    let s = print_ptr(syms, objs, p);
    lemma_lex_print(syms, objs, p, Seq::empty(), 1, 0);
    assert(s + Seq::<char>::empty() =~= s);
    let ts = spec_lex(s, 1, 0)->Ok_0;
    assert(kinds(ts) =~= print_kinds(syms, objs, p));
    assert(kinds(ts).subrange(0, print_kinds(syms, objs, p).len() as int) =~= print_kinds(syms, objs, p));
    lemma_parse_sexpr_print(mem, p, ts, 0);
}

} // verus!
