use vstd::prelude::*;
use vstd::string::StringExecFns;

use crate::error::{err_parser, err_parser_wpos, ErrorKindView, RuntimeError, SourcePos};
use crate::lexer::{spec_tokenize, tokenize, tokens_view, SpecToken, Token, TokenKind, TokenType};
use crate::memory::{Memory, PosTree, SExpr};
use crate::pair::Pair;
use crate::taggedptr::TaggedPtr;

verus! {

/// Why and where parsing failed
pub struct ParseFailure {
    pub message: Seq<char>,
    pub pos: Option<(nat, nat)>,
}

/// A failure located at a token
pub open spec fn fail_at(message: Seq<char>, t: SpecToken) -> ParseFailure {
    ParseFailure { message, pos: Some((t.line, t.column)) }
}

/// The failure of running out of tokens inside a list
pub open spec fn end_of_stream() -> ParseFailure {
    ParseFailure { message: "Unexpected end of code stream"@, pos: None }
}

/// Prepend a list element to the result of parsing the rest of the list
pub open spec fn prepend_elem(e: SExpr, r: Result<(SExpr, nat), ParseFailure>) -> Result<
    (SExpr, nat),
    ParseFailure,
> {
    match r {
        Ok((tail, k)) => Ok((SExpr::Pair(Box::new(e), Box::new(tail)), k)),
        Err(f) => Err(f),
    }
}

/// Parse a single s-expression from the tokens starting at `k`: a symbol or a
/// list. Returns the value and the position of the next token. With no tokens
/// left the value is nil.
pub open spec fn spec_parse_sexpr(ts: Seq<SpecToken>, k: nat) -> Result<(SExpr, nat), ParseFailure>
    decreases ts.len() - k, 2nat,
{
    if k >= ts.len() {
        Ok((SExpr::Nil, k))
    } else {
        match ts[k as int].kind {
            TokenKind::OpenParen => spec_parse_list(ts, k + 1),
            TokenKind::Symbol(name) => Ok((SExpr::Symbol(name), k + 1)),
            TokenKind::CloseParen => Err(fail_at("Unmatched close parenthesis"@, ts[k as int])),
            TokenKind::Dot => Err(fail_at("Invalid symbol '.'"@, ts[k as int])),
        }
    }
}

/// Parse a list whose open parenthesis came just before `k`. A list is either
/// empty, or a sequence of s-expressions, possibly with a dot before the last
/// one; a dot may not come first.
pub open spec fn spec_parse_list(ts: Seq<SpecToken>, k: nat) -> Result<(SExpr, nat), ParseFailure>
    decreases ts.len() - k, 1nat,
{
    if k < ts.len() && ts[k as int].kind is CloseParen {
        Ok((SExpr::Nil, k + 1))
    } else if k < ts.len() && ts[k as int].kind is Dot {
        Err(fail_at("Unexpected '.' dot after open-parenthesis"@, ts[k as int]))
    } else {
        spec_parse_items(ts, k)
    }
}

/// Parse the remaining items of a list, up to and including its close parenthesis
pub open spec fn spec_parse_items(ts: Seq<SpecToken>, k: nat) -> Result<(SExpr, nat), ParseFailure>
    decreases ts.len() - k, 0nat,
{
    if k >= ts.len() {
        Err(end_of_stream())
    } else {
        match ts[k as int].kind {
            TokenKind::CloseParen => Ok((SExpr::Nil, k + 1)),
            TokenKind::Symbol(name) => prepend_elem(SExpr::Symbol(name), spec_parse_items(ts, k + 1)),
            TokenKind::OpenParen => match spec_parse_list(ts, k + 1) {
                Ok((e, k2)) => if k < k2 <= ts.len() {
                    prepend_elem(e, spec_parse_items(ts, k2))
                } else {
                    Err(end_of_stream())
                },
                Err(f) => Err(f),
            },
            TokenKind::Dot => match spec_parse_sexpr(ts, k + 1) {
                Ok((e, k2)) => if k2 < ts.len() && ts[k2 as int].kind is CloseParen {
                    Ok((e, k2 + 1))
                } else if k2 < ts.len() {
                    Err(fail_at("Dotted pair must be closed by a ')' close-parenthesis"@, ts[k2 as int]))
                } else {
                    Err(end_of_stream())
                },
                Err(f) => Err(f),
            },
        }
    }
}

/// The error reported for a parse failure
pub open spec fn is_parse_failure(e: RuntimeError, f: ParseFailure) -> bool {
    &&& e@.kind == ErrorKindView::ParseError(f.message)
    &&& match f.pos {
        Some((line, column)) => e@.pos == Some(SourcePos { line: line as u32, column: column as u32 }),
        None => e@.pos is None,
    }
}

/// The list with the given first elements, ending in `tail`
pub open spec fn build_list(es: Seq<SExpr>, tail: SExpr) -> SExpr
    decreases es.len(),
{
    if es.len() == 0 {
        tail
    } else {
        SExpr::Pair(Box::new(es[0]), Box::new(build_list(es.drop_first(), tail)))
    }
}

/// Apply `build_list` to a successful parse
pub open spec fn build_result(es: Seq<SExpr>, r: Result<(SExpr, nat), ParseFailure>) -> Result<(SExpr, nat), ParseFailure> {
    match r {
        Ok((tail, k)) => Ok((build_list(es, tail), k)),
        Err(f) => Err(f),
    }
}

/// The source position of a token
pub open spec fn tok_pos(t: SpecToken) -> SourcePos {
    SourcePos { line: t.line as u32, column: t.column as u32 }
}

/// The position a list pair records for its second value, for the item that
/// starts at token `k` and ends before token `k2`: where the next item or the
/// dot before the list's last value is; at the close of the list, the item's
/// own position where it is the list's only item, and none otherwise
pub open spec fn second_pos(ts: Seq<SpecToken>, k: nat, k2: nat, first: bool) -> Option<SourcePos> {
    if k2 < ts.len() && ts[k2 as int].kind is CloseParen {
        if first {
            Some(tok_pos(ts[k as int]))
        } else {
            None
        }
    } else if k2 < ts.len() {
        Some(tok_pos(ts[k2 as int]))
    } else {
        None
    }
}

/// The source positions recorded in the pairs of the s-expression parsed
/// from token `k` on (see `spec_parse_sexpr`): each pair of a list records
/// where its item starts, and `second_pos`
pub open spec fn spec_pos_sexpr(ts: Seq<SpecToken>, k: nat) -> PosTree
    decreases ts.len() - k, 2nat,
{
    if k >= ts.len() {
        PosTree::Leaf
    } else {
        match ts[k as int].kind {
            TokenKind::OpenParen => spec_pos_list(ts, k + 1),
            _ => PosTree::Leaf,
        }
    }
}

/// The source positions recorded in the pairs of a list whose open
/// parenthesis came just before `k`
pub open spec fn spec_pos_list(ts: Seq<SpecToken>, k: nat) -> PosTree
    decreases ts.len() - k, 1nat,
{
    if k < ts.len() && (ts[k as int].kind is CloseParen || ts[k as int].kind is Dot) {
        PosTree::Leaf
    } else {
        spec_pos_items(ts, k, true)
    }
}

/// The source positions recorded in the pairs of the remaining items of a
/// list from token `k` on; `first` tells whether the item at `k` is the
/// list's first
pub open spec fn spec_pos_items(ts: Seq<SpecToken>, k: nat, first: bool) -> PosTree
    decreases ts.len() - k, 0nat,
{
    if k >= ts.len() {
        PosTree::Leaf
    } else {
        match ts[k as int].kind {
            TokenKind::CloseParen => PosTree::Leaf,
            TokenKind::Symbol(_) => PosTree::Node(
                Some(tok_pos(ts[k as int])),
                second_pos(ts, k, k + 1, first),
                Box::new(PosTree::Leaf),
                Box::new(spec_pos_items(ts, k + 1, false)),
            ),
            TokenKind::OpenParen => match spec_parse_list(ts, k + 1) {
                Ok((_, k2)) => if k < k2 <= ts.len() {
                    PosTree::Node(
                        Some(tok_pos(ts[k as int])),
                        second_pos(ts, k, k2, first),
                        Box::new(spec_pos_list(ts, k + 1)),
                        Box::new(spec_pos_items(ts, k2, false)),
                    )
                } else {
                    PosTree::Leaf
                },
                Err(_) => PosTree::Leaf,
            },
            TokenKind::Dot => spec_pos_sexpr(ts, k + 1),
        }
    }
}

/// The source positions of list items with the given position trees,
/// starting at the given tokens, the token after the last of them being `k`,
/// and followed by `rest`
pub open spec fn pos_chain(
    ts: Seq<SpecToken>,
    ptrees: Seq<PosTree>,
    starts: Seq<nat>,
    k: nat,
    first: bool,
    rest: PosTree,
) -> PosTree
    decreases ptrees.len(),
{
    if ptrees.len() == 0 {
        rest
    } else {
        let next = if ptrees.len() > 1 {
            starts[1]
        } else {
            k
        };
        PosTree::Node(
            Some(tok_pos(ts[starts[0] as int])),
            second_pos(ts, starts[0], next, first),
            Box::new(ptrees[0]),
            Box::new(pos_chain(ts, ptrees.drop_first(), starts.drop_first(), k, false, rest)),
        )
    }
}

proof fn lemma_pos_chain_push(
    ts: Seq<SpecToken>,
    ptrees: Seq<PosTree>,
    starts: Seq<nat>,
    k: nat,
    first: bool,
    pt: PosTree,
    k2: nat,
    rest: PosTree,
)
    requires
        ptrees.len() == starts.len(),
    ensures
        pos_chain(
            ts,
            ptrees,
            starts,
            k,
            first,
            PosTree::Node(Some(tok_pos(ts[k as int])), second_pos(ts, k, k2, first && ptrees.len() == 0), Box::new(pt), Box::new(rest)),
        ) == pos_chain(ts, ptrees.push(pt), starts.push(k), k2, first, rest),
    decreases ptrees.len(),
{
    if ptrees.len() == 0 {
        assert(ptrees.push(pt).drop_first() =~= Seq::<PosTree>::empty());
        assert(starts.push(k).drop_first() =~= Seq::<nat>::empty());
        assert(starts.push(k)[0] == k);
        assert(ptrees.push(pt)[0] == pt);
        assert(pos_chain(ts, Seq::<PosTree>::empty(), Seq::<nat>::empty(), k2, false, rest) == rest);
        assert(pos_chain(ts, ptrees.push(pt), starts.push(k), k2, first, rest) == PosTree::Node(
            Some(tok_pos(ts[k as int])),
            second_pos(ts, k, k2, first),
            Box::new(pt),
            Box::new(rest),
        ));
    } else {
        assert(ptrees.push(pt).drop_first() =~= ptrees.drop_first().push(pt));
        assert(starts.push(k).drop_first() =~= starts.drop_first().push(k));
        assert(starts.push(k)[0] == starts[0]);
        assert(ptrees.push(pt)[0] == ptrees[0]);
        if ptrees.len() > 1 {
            assert(starts.push(k)[1] == starts[1]);
        } else {
            assert(starts.push(k)[1] == k);
        }
        lemma_pos_chain_push(ts, ptrees.drop_first(), starts.drop_first(), k, false, pt, k2, rest);
    }
}

proof fn lemma_pos_chain_skip(
    ts: Seq<SpecToken>,
    ptrees: Seq<PosTree>,
    starts: Seq<nat>,
    j: int,
    k: nat,
    rest: PosTree,
)
    requires
        ptrees.len() == starts.len(),
        0 <= j < ptrees.len(),
    ensures
        pos_chain(ts, ptrees.skip(j), starts.skip(j), k, j == 0, rest) == PosTree::Node(
            Some(tok_pos(ts[starts[j] as int])),
            second_pos(ts, starts[j], if j + 1 < ptrees.len() { starts[j + 1] } else { k }, j == 0),
            Box::new(ptrees[j]),
            Box::new(pos_chain(ts, ptrees.skip(j + 1), starts.skip(j + 1), k, false, rest)),
        ),
{
    assert(ptrees.skip(j).drop_first() =~= ptrees.skip(j + 1));
    assert(starts.skip(j).drop_first() =~= starts.skip(j + 1));
}

proof fn lemma_build_list_push(es: Seq<SExpr>, e: SExpr, tail: SExpr)
    ensures
        build_list(es.push(e), tail) == build_list(es, SExpr::Pair(Box::new(e), Box::new(tail))),
    decreases es.len(),
{
    if es.len() > 0 {
        assert(es.push(e).drop_first() =~= es.drop_first().push(e));
        lemma_build_list_push(es.drop_first(), e, tail);
    } else {
        assert(es.push(e).drop_first() =~= Seq::<SExpr>::empty());
        assert(build_list(Seq::<SExpr>::empty(), tail) == tail);
    }
}

proof fn lemma_build_result_push(es: Seq<SExpr>, e: SExpr, r: Result<(SExpr, nat), ParseFailure>)
    ensures
        build_result(es, prepend_elem(e, r)) == build_result(es.push(e), r),
{
    match r {
        Ok((tail, k)) => {
            lemma_build_list_push(es, e, tail);
        },
        Err(f) => {},
    }
}

proof fn lemma_build_list_skip(es: Seq<SExpr>, j: int, tail: SExpr)
    requires
        0 <= j < es.len(),
    ensures
        build_list(es.skip(j), tail) == SExpr::Pair(Box::new(es[j]), Box::new(build_list(es.skip(j + 1), tail))),
{
    assert(es.skip(j).drop_first() =~= es.skip(j + 1));
}

/// Parse the remaining items of a list, starting at `k0`, building the list in
/// managed memory
fn parse_items(mem: &mut Memory, tokens: &Vec<Token>, k0: usize) -> (r: Result<(TaggedPtr, usize), RuntimeError>)
    requires
        old(mem).wf(),
        k0 <= tokens@.len(),
    ensures
        final(mem).wf(),
        final(mem).extends(old(mem)),
        match spec_parse_items(tokens_view(tokens@), k0 as nat) {
            Ok((e, k2)) => r matches Ok((p, k)) && k == k2 && k0 < k <= tokens@.len() && final(mem).valid_ptr(p) && final(mem).tree(p) == e
                && final(mem).pos_tree(p) == spec_pos_items(tokens_view(tokens@), k0 as nat, true),
            Err(f) => r matches Err(err) && is_parse_failure(err, f),
        },
    decreases tokens@.len() - k0, 0nat,
{
    let ghost ts = tokens_view(tokens@);
    let len = tokens.len();
    let mut elems: Vec<TaggedPtr> = Vec::new();
    let mut positions: Vec<SourcePos> = Vec::new();
    let ghost mut trees: Seq<SExpr> = Seq::empty();
    let ghost mut ptrees: Seq<PosTree> = Seq::empty();
    let ghost mut starts: Seq<nat> = Seq::empty();
    let ghost mut kb: nat = 0;
    let mut k = k0;
    let tail: TaggedPtr;
    let mut tail_pos: Option<SourcePos> = None;
    let mut dotted = false;
    proof {
        old(mem).lemma_extends_refl();
        match spec_parse_items(ts, k0 as nat) {
            Ok((e, kk)) => {},
            Err(f) => {},
        }
    }
    loop
        invariant_except_break
            spec_parse_items(ts, k0 as nat) == build_result(trees, spec_parse_items(ts, k as nat)),
            spec_pos_items(ts, k0 as nat, true) == pos_chain(ts, ptrees, starts, k as nat, true, spec_pos_items(ts, k as nat, ptrees.len() == 0)),
            forall|j: int| 0 <= j < starts.len() ==> #[trigger] starts[j] < k,
            !dotted,
        invariant
            ts == tokens_view(tokens@),
            len == tokens@.len(),
            k0 <= k <= len,
            mem.wf(),
            mem.extends(old(mem)),
            elems@.len() == trees.len(),
            positions@.len() == trees.len(),
            ptrees.len() == trees.len(),
            starts.len() == trees.len(),
            trees.len() > 0 ==> k > k0,
            forall|j: int| 0 <= j < elems@.len() ==> mem.valid_ptr(#[trigger] elems@[j]) && mem.tree(elems@[j]) == trees[j] && mem.pos_tree(elems@[j]) == ptrees[j],
            forall|j: int| 0 <= j < starts.len() ==> (#[trigger] starts[j]) < len && (ts[starts[j] as int].kind is Symbol || ts[starts[j] as int].kind is OpenParen) && positions@[j] == tok_pos(ts[starts[j] as int]),
        ensures
            k0 < k <= len,
            mem.wf(),
            mem.extends(old(mem)),
            elems@.len() == trees.len(),
            positions@.len() == trees.len(),
            ptrees.len() == trees.len(),
            starts.len() == trees.len(),
            forall|j: int| 0 <= j < elems@.len() ==> mem.valid_ptr(#[trigger] elems@[j]) && mem.tree(elems@[j]) == trees[j] && mem.pos_tree(elems@[j]) == ptrees[j],
            forall|j: int| 0 <= j < starts.len() ==> (#[trigger] starts[j]) < kb && (ts[starts[j] as int].kind is Symbol || ts[starts[j] as int].kind is OpenParen) && positions@[j] == tok_pos(ts[starts[j] as int]),
            mem.valid_ptr(tail),
            spec_parse_items(ts, k0 as nat) == build_result(trees, Ok((mem.tree(tail), k as nat))),
            spec_pos_items(ts, k0 as nat, true) == pos_chain(ts, ptrees, starts, kb, true, mem.pos_tree(tail)),
            kb < len,
            dotted ==> ts[kb as int].kind is Dot && tail_pos == Some(tok_pos(ts[kb as int])),
            !dotted ==> ts[kb as int].kind is CloseParen,
        decreases len - k,
    {
        if k >= len {
            proof {
                assert(spec_parse_items(ts, k as nat) == Err::<(SExpr, nat), ParseFailure>(end_of_stream()));
            }
            return Err(err_parser("Unexpected end of code stream"));
        }
        let ghost mem_before = *mem;
        assert(ts[k as int] == tokens@[k as int]@);
        match &tokens[k].token {
            TokenType::CloseParen => {
                tail = TaggedPtr::Nil;
                proof {
                    kb = k as nat;
                }
                k = k + 1;
                break;
            },
            TokenType::Symbol(name) => {
                let sym = mem.lookup_sym(name.as_str());
                proof {
                    assert forall|j: int| 0 <= j < elems@.len() implies mem.valid_ptr(#[trigger] elems@[j]) && mem.tree(elems@[j]) == trees[j] && mem.pos_tree(elems@[j]) == ptrees[j] by {
                        mem.lemma_valid_extends(&mem_before, elems@[j]);
                        mem.lemma_tree_extends(&mem_before, elems@[j]);
                        mem.lemma_pos_tree_extends(&mem_before, elems@[j]);
                    }
                    mem.lemma_extends_trans(&mem_before, old(mem));
                    lemma_build_result_push(trees, SExpr::Symbol(name@), spec_parse_items(ts, (k + 1) as nat));
                    lemma_pos_chain_push(ts, ptrees, starts, k as nat, true, PosTree::Leaf, (k + 1) as nat, spec_pos_items(ts, (k + 1) as nat, false));
                }
                elems.push(sym);
                positions.push(tokens[k].pos);
                proof {
                    trees = trees.push(SExpr::Symbol(name@));
                    ptrees = ptrees.push(PosTree::Leaf);
                    starts = starts.push(k as nat);
                }
                k = k + 1;
            },
            TokenType::OpenParen => {
                let (value, k2) = match parse_list(mem, tokens, k + 1) {
                    Ok(r) => r,
                    Err(e) => {
                        return Err(e);
                    },
                };
                proof {
                    assert forall|j: int| 0 <= j < elems@.len() implies mem.valid_ptr(#[trigger] elems@[j]) && mem.tree(elems@[j]) == trees[j] && mem.pos_tree(elems@[j]) == ptrees[j] by {
                        mem.lemma_valid_extends(&mem_before, elems@[j]);
                        mem.lemma_tree_extends(&mem_before, elems@[j]);
                        mem.lemma_pos_tree_extends(&mem_before, elems@[j]);
                    }
                    mem.lemma_extends_trans(&mem_before, old(mem));
                    lemma_build_result_push(trees, mem.tree(value), spec_parse_items(ts, k2 as nat));
                    lemma_pos_chain_push(ts, ptrees, starts, k as nat, true, mem.pos_tree(value), k2 as nat, spec_pos_items(ts, k2 as nat, false));
                }
                elems.push(value);
                positions.push(tokens[k].pos);
                proof {
                    trees = trees.push(mem.tree(value));
                    ptrees = ptrees.push(mem.pos_tree(value));
                    starts = starts.push(k as nat);
                }
                k = k2;
            },
            TokenType::Dot => {
                let dot_pos = tokens[k].pos;
                let (value, k2) = match parse_sexpr(mem, tokens, k + 1) {
                    Ok(r) => r,
                    Err(e) => {
                        return Err(e);
                    },
                };
                proof {
                    assert forall|j: int| 0 <= j < elems@.len() implies mem.valid_ptr(#[trigger] elems@[j]) && mem.tree(elems@[j]) == trees[j] && mem.pos_tree(elems@[j]) == ptrees[j] by {
                        mem.lemma_valid_extends(&mem_before, elems@[j]);
                        mem.lemma_tree_extends(&mem_before, elems@[j]);
                        mem.lemma_pos_tree_extends(&mem_before, elems@[j]);
                    }
                    mem.lemma_extends_trans(&mem_before, old(mem));
                }
                // the only valid sequence here on out is Dot s-expression CloseParen
                if k2 < len {
                    assert(ts[k2 as int] == tokens@[k2 as int]@);
                    match &tokens[k2].token {
                        TokenType::CloseParen => {},
                        _ => {
                            return Err(err_parser_wpos(tokens[k2].pos, "Dotted pair must be closed by a ')' close-parenthesis"));
                        },
                    }
                } else {
                    return Err(err_parser("Unexpected end of code stream"));
                }
                tail = value;
                tail_pos = Some(dot_pos);
                dotted = true;
                proof {
                    kb = k as nat;
                }
                k = k2 + 1;
                break;
            },
        }
    }
    // build the list from its last pair back to its first
    let n = elems.len();
    let mut cur = tail;
    let mut j = n;
    let ghost tail_tree = mem.tree(tail);
    let ghost tail_pt = mem.pos_tree(tail);
    assert(trees.skip(n as int) =~= Seq::<SExpr>::empty());
    assert(ptrees.skip(n as int) =~= Seq::<PosTree>::empty());
    assert(starts.skip(n as int) =~= Seq::<nat>::empty());
    while j > 0
        invariant
            0 <= j <= n,
            n == elems@.len(),
            n == positions@.len(),
            n == trees.len(),
            mem.wf(),
            mem.extends(old(mem)),
            n == ptrees.len(),
            n == starts.len(),
            forall|i: int| 0 <= i < elems@.len() ==> mem.valid_ptr(#[trigger] elems@[i]) && mem.tree(elems@[i]) == trees[i] && mem.pos_tree(elems@[i]) == ptrees[i],
            forall|i: int| 0 <= i < starts.len() ==> (#[trigger] starts[i]) < kb && (ts[starts[i] as int].kind is Symbol || ts[starts[i] as int].kind is OpenParen) && positions@[i] == tok_pos(ts[starts[i] as int]),
            ts == tokens_view(tokens@),
            kb < tokens@.len(),
            dotted ==> ts[kb as int].kind is Dot && tail_pos == Some(tok_pos(ts[kb as int])),
            !dotted ==> ts[kb as int].kind is CloseParen,
            mem.valid_ptr(cur),
            mem.tree(cur) == build_list(trees.skip(j as int), tail_tree),
            mem.pos_tree(cur) == pos_chain(ts, ptrees.skip(j as int), starts.skip(j as int), kb, j == 0, tail_pt),
        decreases j,
    {
        j = j - 1;
        let second_pos = if j + 1 < n {
            Some(positions[j + 1])
        } else if dotted {
            tail_pos
        } else if j == 0 {
            Some(positions[0])
        } else {
            None
        };
        let pair = Pair { first: elems[j], second: cur, first_pos: Some(positions[j]), second_pos };
        let ghost mem_before = *mem;
        let p = mem.alloc_pair(pair);
        proof {
            assert forall|i: int| 0 <= i < elems@.len() implies mem.valid_ptr(#[trigger] elems@[i]) && mem.tree(elems@[i]) == trees[i] && mem.pos_tree(elems@[i]) == ptrees[i] by {
                mem.lemma_valid_extends(&mem_before, elems@[i]);
                mem.lemma_tree_extends(&mem_before, elems@[i]);
                mem.lemma_pos_tree_extends(&mem_before, elems@[i]);
            }
            mem.lemma_extends_trans(&mem_before, old(mem));
            lemma_build_list_skip(trees, j as int, tail_tree);
            lemma_pos_chain_skip(ts, ptrees, starts, j as int, kb, tail_pt);
            if j + 1 < n {
                assert(crate::parser::second_pos(ts, starts[j as int], starts[j + 1], j == 0) == Some(positions@[j + 1]));
            }
        }
        cur = p;
    }
    assert(trees.skip(0) =~= trees);
    assert(ptrees.skip(0) =~= ptrees);
    assert(starts.skip(0) =~= starts);
    Ok((cur, k))
}

/// Parse a list whose open parenthesis came just before `k`
fn parse_list(mem: &mut Memory, tokens: &Vec<Token>, k: usize) -> (r: Result<(TaggedPtr, usize), RuntimeError>)
    requires
        old(mem).wf(),
        k <= tokens@.len(),
    ensures
        final(mem).wf(),
        final(mem).extends(old(mem)),
        match spec_parse_list(tokens_view(tokens@), k as nat) {
            Ok((e, k2)) => r matches Ok((p, kk)) && kk == k2 && k < kk <= tokens@.len() && final(mem).valid_ptr(p) && final(mem).tree(p) == e
                && final(mem).pos_tree(p) == spec_pos_list(tokens_view(tokens@), k as nat),
            Err(f) => r matches Err(err) && is_parse_failure(err, f),
        },
    decreases tokens@.len() - k, 1nat,
{
    let ghost ts = tokens_view(tokens@);
    // peek at very first token after the open-paren
    if k < tokens.len() {
        assert(ts[k as int] == tokens@[k as int]@);
        match &tokens[k].token {
            TokenType::CloseParen => {
                proof { mem.lemma_extends_refl(); }
                return Ok((TaggedPtr::Nil, k + 1));
            },
            TokenType::Dot => {
                proof { mem.lemma_extends_refl(); }
                return Err(err_parser_wpos(tokens[k].pos, "Unexpected '.' dot after open-parenthesis"));
            },
            _ => {},
        }
    }
    parse_items(mem, tokens, k)
}

/// Parse a single s-expression starting at token `k`
fn parse_sexpr(mem: &mut Memory, tokens: &Vec<Token>, k: usize) -> (r: Result<(TaggedPtr, usize), RuntimeError>)
    requires
        old(mem).wf(),
        k <= tokens@.len(),
    ensures
        final(mem).wf(),
        final(mem).extends(old(mem)),
        match spec_parse_sexpr(tokens_view(tokens@), k as nat) {
            Ok((e, k2)) => r matches Ok((p, kk)) && kk == k2 && k <= kk <= tokens@.len() && final(mem).valid_ptr(p) && final(mem).tree(p) == e
                && final(mem).pos_tree(p) == spec_pos_sexpr(tokens_view(tokens@), k as nat),
            Err(f) => r matches Err(err) && is_parse_failure(err, f),
        },
    decreases tokens@.len() - k, 2nat,
{
    let ghost ts = tokens_view(tokens@);
    if k >= tokens.len() {
        proof { mem.lemma_extends_refl(); }
        return Ok((TaggedPtr::Nil, k));
    }
    assert(ts[k as int] == tokens@[k as int]@);
    match &tokens[k].token {
        TokenType::OpenParen => parse_list(mem, tokens, k + 1),
        TokenType::Symbol(name) => {
            let sym = mem.lookup_sym(name.as_str());
            Ok((sym, k + 1))
        },
        TokenType::CloseParen => {
            proof { mem.lemma_extends_refl(); }
            Err(err_parser_wpos(tokens[k].pos, "Unmatched close parenthesis"))
        },
        TokenType::Dot => {
            proof { mem.lemma_extends_refl(); }
            Err(err_parser_wpos(tokens[k].pos, "Invalid symbol '.'"))
        },
    }
}

/// Parse a sequence of tokens: the first s-expression they hold
pub fn parse_tokens(mem: &mut Memory, tokens: Vec<Token>) -> (r: Result<TaggedPtr, RuntimeError>)
    requires
        old(mem).wf(),
    ensures
        final(mem).wf(),
        final(mem).extends(old(mem)),
        match spec_parse_sexpr(tokens_view(tokens@), 0) {
            Ok((e, _)) => r matches Ok(p) && final(mem).valid_ptr(p) && final(mem).tree(p) == e && final(mem).pos_tree(p)
                == spec_pos_sexpr(tokens_view(tokens@), 0),
            Err(f) => r matches Err(err) && is_parse_failure(err, f),
        },
{
    match parse_sexpr(mem, &tokens, 0) {
        Ok((value, _)) => Ok(value),
        Err(e) => Err(e),
    }
}

/// The value that the text denotes, or why it denotes none: the position of an
/// invalid tab character, or a parse failure
pub open spec fn spec_parse(s: Seq<char>) -> Result<SExpr, Result<(nat, nat), ParseFailure>> {
    match spec_tokenize(s) {
        Err(pos) => Err(Ok(pos)),
        Ok(ts) => match spec_parse_sexpr(ts, 0) {
            Ok((e, _)) => Ok(e),
            Err(f) => Err(Err(f)),
        },
    }
}

/// The source positions recorded in the pairs of the value that the text
/// denotes (see `spec_pos_sexpr`)
pub open spec fn spec_parse_positions(s: Seq<char>) -> PosTree {
    match spec_tokenize(s) {
        Ok(ts) => spec_pos_sexpr(ts, 0),
        Err(_) => PosTree::Leaf,
    }
}

/// Parse the text of the first s-expression of the input into managed memory
pub fn parse(mem: &mut Memory, input: &str) -> (r: Result<TaggedPtr, RuntimeError>)
    requires
        old(mem).wf(),
        input@.len() < u32::MAX,
    ensures
        final(mem).wf(),
        final(mem).extends(old(mem)),
        match spec_parse(input@) {
            Ok(e) => r matches Ok(p) && final(mem).valid_ptr(p) && final(mem).tree(p) == e && final(mem).pos_tree(p)
                == spec_parse_positions(input@),
            Err(Ok((line, column))) => r matches Err(err) && err@.kind == ErrorKindView::LexerError(
                "tabs are not valid whitespace"@) && err@.pos == Some(SourcePos { line: line as u32, column: column as u32 }),
            Err(Err(f)) => r matches Err(err) && is_parse_failure(err, f),
        },
{
    match tokenize(String::from_str(input)) {
        Ok(tokens) => parse_tokens(mem, tokens),
        Err(e) => {
            proof { mem.lemma_extends_refl(); }
            Err(e)
        },
    }
}

} // verus!
