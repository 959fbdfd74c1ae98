//! Printing values as text
use vstd::prelude::*;
use vstd::string::StringExecFns;

use crate::bytecode::code_listing;
use crate::lexer::push_char;
use crate::memory::{ptr_rank, Memory, ObjectView};
use crate::taggedptr::TaggedPtr;

verus! {

/// The decimal digit character of a number below ten
pub open spec fn digit_char(d: nat) -> char {
    (48 + d) as char
}

/// The decimal digits of a natural number, most significant first
pub open spec fn nat_digits(n: nat) -> Seq<char>
    decreases n,
{
    if n < 10 {
        seq![digit_char(n)]
    } else {
        nat_digits(n / 10).push(digit_char(n % 10))
    }
}

/// An integer in decimal notation, with a leading '-' when negative
pub open spec fn int_to_decimal(n: int) -> Seq<char> {
    if n < 0 {
        seq!['-'] + nat_digits((-n) as nat)
    } else {
        nat_digits(n as nat)
    }
}

/// The name part of a function's printed form: its name and a space, or
/// nothing for an anonymous function
pub open spec fn name_prefix(syms: Seq<Seq<char>>, name: TaggedPtr) -> Seq<char> {
    match name {
        TaggedPtr::Symbol(s) => syms[s as int] + " "@,
        _ => Seq::empty(),
    }
}

/// The printed form of a pointer, where its rank is below the bound
pub open spec fn print_below(syms: Seq<Seq<char>>, objs: Seq<ObjectView>, p: TaggedPtr, bound: nat) -> Seq<char>
    decreases bound, 0nat, 0nat,
{
    if ptr_rank(p) < bound {
        print_ptr(syms, objs, p)
    } else {
        Seq::empty()
    }
}

/// The printed forms of the pointers, separated by single spaces
pub open spec fn print_join(syms: Seq<Seq<char>>, objs: Seq<ObjectView>, ps: Seq<TaggedPtr>, bound: nat) -> Seq<char>
    decreases bound, 0nat, ps.len(),
{
    if ps.len() == 0 {
        Seq::empty()
    } else if ps.len() == 1 {
        print_below(syms, objs, ps[0], bound)
    } else {
        print_join(syms, objs, ps.drop_last(), bound) + " "@ + print_below(syms, objs, ps.last(), bound)
    }
}

/// The printed form of a value: `()` for nil, an integer in decimal, a symbol
/// by its name, a list as its items in parentheses with ` . ` before a final
/// item that is not nil, and a function or partial application as its name
/// and (remaining) parameter names.
pub open spec fn print_ptr(syms: Seq<Seq<char>>, objs: Seq<ObjectView>, p: TaggedPtr) -> Seq<char>
    decreases ptr_rank(p), 1nat, 0nat,
{
    match p {
        TaggedPtr::Nil => "()"@,
        TaggedPtr::Number(n) => int_to_decimal(n as int),
        TaggedPtr::Symbol(i) => syms[i as int],
        TaggedPtr::Pair(i) => match objs[i as int] {
            ObjectView::Pair(first, second) => "("@ + print_below(syms, objs, first, ptr_rank(p)) + (if ptr_rank(
                second,
            ) < ptr_rank(p) {
                print_tail(syms, objs, second)
            } else {
                Seq::empty()
            }) + ")"@,
            _ => Seq::empty(),
        },
        TaggedPtr::Function(i) => match objs[i as int] {
            ObjectView::Function(name, params, _) => "(Function "@ + name_prefix(syms, name) + "("@ + print_join(
                syms,
                objs,
                params,
                ptr_rank(p),
            ) + "))"@,
            _ => Seq::empty(),
        },
        TaggedPtr::Partial(i) => match objs[i as int] {
            ObjectView::Partial(_, used, _, func) => match objs[func as int] {
                ObjectView::Function(name, params, _) => "(Partial "@ + name_prefix(syms, name) + "("@ + print_join(
                    syms,
                    objs,
                    params.skip(used as int),
                    ptr_rank(p),
                ) + "))"@,
                _ => Seq::empty(),
            },
            _ => Seq::empty(),
        },
    }
}

/// The printed form of the rest of a list after an item: ` item` for each
/// further item, then ` . value` where the list does not end in nil
pub open spec fn print_tail(syms: Seq<Seq<char>>, objs: Seq<ObjectView>, p: TaggedPtr) -> Seq<char>
    decreases ptr_rank(p), 2nat, 0nat,
{
    match p {
        TaggedPtr::Nil => Seq::empty(),
        TaggedPtr::Pair(i) => match objs[i as int] {
            ObjectView::Pair(first, second) => " "@ + print_below(syms, objs, first, ptr_rank(p)) + (if ptr_rank(
                second,
            ) < ptr_rank(p) {
                print_tail(syms, objs, second)
            } else {
                Seq::empty()
            }),
            _ => Seq::empty(),
        },
        _ => " . "@ + print_ptr(syms, objs, p),
    }
}

/// The printed form of a value in debug style: like `print_ptr`, but a pair
/// is always shown as `(first . second)` and a function as the listing of its
/// byte code
pub open spec fn debug_ptr(syms: Seq<Seq<char>>, objs: Seq<ObjectView>, p: TaggedPtr) -> Seq<char>
    decreases ptr_rank(p),
{
    match p {
        TaggedPtr::Pair(i) => match objs[i as int] {
            ObjectView::Pair(first, second) => "("@ + (if ptr_rank(first) < ptr_rank(p) {
                debug_ptr(syms, objs, first)
            } else {
                Seq::empty()
            }) + " . "@ + (if ptr_rank(second) < ptr_rank(p) {
                debug_ptr(syms, objs, second)
            } else {
                Seq::empty()
            }) + ")"@,
            _ => Seq::empty(),
        },
        TaggedPtr::Function(i) => match objs[i as int] {
            ObjectView::Function(_, _, code) => match objs[code as int] {
                ObjectView::ByteCode(ops, _) => code_listing(ops),
                _ => Seq::empty(),
            },
            _ => Seq::empty(),
        },
        _ => print_ptr(syms, objs, p),
    }
}

/// Append the decimal digits of the number
pub(crate) fn push_digits(out: &mut String, m: usize)
    ensures
        final(out)@ == old(out)@ + nat_digits(m as nat),
    decreases m,
{
    if m >= 10 {
        push_digits(out, m / 10);
    }
    let d: u8 = (m % 10) as u8;
    let c: char = (48u8 + d) as char;
    assert(c == digit_char((m % 10) as nat));
    push_char(out, c);
    assert(out@ =~= old(out)@ + nat_digits(m as nat));
}

/// Append the integer in decimal notation
pub(crate) fn push_decimal(out: &mut String, n: isize)
    ensures
        final(out)@ == old(out)@ + int_to_decimal(n as int),
{
    if n < 0 {
        push_char(out, '-');
        let m: usize = ((-(n + 1)) as usize) + 1;
        push_digits(out, m);
        assert(out@ =~= old(out)@ + int_to_decimal(n as int));
    } else {
        push_digits(out, n as usize);
    }
}

/// Append the printed forms of the pointers from the index on, each after a
/// separating space except the very first
fn push_join_from(mem: &Memory, ps: &crate::array::Array<TaggedPtr>, start: u32, bound: Ghost<nat>, out: &mut String)
    requires
        mem.wf(),
        ps.wf(),
        start <= ps@.len(),
        mem.all_valid_below(ps@, bound@),
    ensures
        final(out)@ == old(out)@ + print_join(mem.syms@, mem.object_views(), ps@.skip(start as int), bound@),
    decreases bound@, 0nat,
{
    let len = ps.length();
    let mut k: u32 = start;
    assert(ps@.skip(start as int).subrange(0, 0) =~= Seq::<TaggedPtr>::empty());
    while k < len
        invariant
            mem.wf(),
            ps.wf(),
            len == ps@.len(),
            start <= k <= len,
            mem.all_valid_below(ps@, bound@),
            out@ == old(out)@ + print_join(mem.syms@, mem.object_views(), ps@.subrange(start as int, k as int), bound@),
        decreases len - k,
    {
        let item = match ps.get(k) {
            Ok(item) => item,
            Err(_) => {
                assert(false);
                TaggedPtr::Nil
            },
        };
        assert(mem.valid_ptr(ps@[k as int]) && ptr_rank(ps@[k as int]) < bound@);
        let ghost before = out@;
        if k > start {
            push_char(out, ' ');
        }
        proof {
            reveal_strlit(" ");
        }
        print_into(mem, item, out);
        proof {
            let prev = ps@.subrange(start as int, k as int);
            let next = ps@.subrange(start as int, k + 1);
            assert(next.drop_last() =~= prev);
            assert(next.last() == item);
            if k == start {
                assert(prev.len() == 0);
                assert(print_join(mem.syms@, mem.object_views(), next, bound@) == print_below(mem.syms@, mem.object_views(), item, bound@));
                assert(out@ =~= old(out)@ + print_join(mem.syms@, mem.object_views(), next, bound@));
            } else {
                assert(print_join(mem.syms@, mem.object_views(), next, bound@) == print_join(mem.syms@, mem.object_views(), prev, bound@) + " "@ + print_below(
                    mem.syms@,
                    mem.object_views(),
                    item,
                    bound@,
                ));
                assert(out@ =~= old(out)@ + print_join(mem.syms@, mem.object_views(), next, bound@));
            }
        }
        k = k + 1;
    }
    assert(ps@.subrange(start as int, len as int) =~= ps@.skip(start as int));
}

/// Append the printed form of a value
fn print_into(mem: &Memory, p: TaggedPtr, out: &mut String)
    requires
        mem.wf(),
        mem.valid_ptr(p),
    ensures
        final(out)@ == old(out)@ + print_ptr(mem.syms@, mem.object_views(), p),
    decreases ptr_rank(p), 1nat,
{
    match p {
        TaggedPtr::Nil => {
            out.append("()");
        },
        TaggedPtr::Number(n) => {
            push_decimal(out, n);
        },
        TaggedPtr::Symbol(_) => {
            out.append(mem.symbol_name(p));
        },
        TaggedPtr::Pair(i) => {
            let pair = mem.get_pair(i);
            proof {
                assert(mem.object_wf(i as int));
            }
            out.append("(");
            print_into(mem, pair.first, out);
            let ghost head = out@;
            let mut tail = pair.second;
            loop
                invariant_except_break
                    head + print_tail(mem.syms@, mem.object_views(), pair.second) == out@ + print_tail(mem.syms@, mem.object_views(), tail),
                invariant
                    mem.wf(),
                    mem.valid_ptr(tail),
                    ptr_rank(tail) < ptr_rank(p),
                ensures
                    head + print_tail(mem.syms@, mem.object_views(), pair.second) == out@,
                decreases ptr_rank(tail),
            {
                match tail {
                    TaggedPtr::Pair(j) => {
                        let next = mem.get_pair(j);
                        proof {
                            assert(mem.object_wf(j as int));
                        }
                        let ghost before = out@;
                        push_char(out, ' ');
                        print_into(mem, next.first, out);
                        proof {
                            reveal_strlit(" ");
                        }
                        assert(print_tail(mem.syms@, mem.object_views(), tail) == " "@ + print_ptr(mem.syms@, mem.object_views(), next.first) + print_tail(mem.syms@, mem.object_views(), next.second));
                        assert(before + print_tail(mem.syms@, mem.object_views(), tail) =~= out@ + print_tail(mem.syms@, mem.object_views(), next.second));
                        tail = next.second;
                    },
                    TaggedPtr::Nil => {
                        assert(out@ + print_tail(mem.syms@, mem.object_views(), tail) =~= out@);
                        break;
                    },
                    _ => {
                        let ghost before = out@;
                        out.append(" . ");
                        print_into(mem, tail, out);
                        assert(before + print_tail(mem.syms@, mem.object_views(), tail) =~= out@);
                        break;
                    },
                }
            }
            out.append(")");
            assert(out@ =~= old(out)@ + print_ptr(mem.syms@, mem.object_views(), p));
        },
        TaggedPtr::Function(i) => {
            let f = mem.get_function(i);
            proof {
                assert(mem.object_wf(i as int));
            }
            out.append("(Function ");
            push_name(mem, f.name, out);
            out.append("(");
            push_join_from(mem, &f.param_names, 0, Ghost(ptr_rank(p)), out);
            assert(f.param_names@.skip(0) =~= f.param_names@);
            out.append("))");
            assert(out@ =~= old(out)@ + print_ptr(mem.syms@, mem.object_views(), p));
        },
        TaggedPtr::Partial(i) => {
            let pt = mem.get_partial(i);
            proof {
                assert(mem.object_wf(i as int));
            }
            let f = mem.get_function(pt.func);
            proof {
                assert(mem.object_wf(pt.func as int));
                f.param_names.lemma_wf_len();
                assert forall|k: int| 0 <= k < f.param_names@.len() implies mem.valid_ptr(#[trigger] f.param_names@[k])
                    && ptr_rank(f.param_names@[k]) < ptr_rank(p) by {
                    assert(ptr_rank(f.param_names@[k]) < pt.func + 1);
                }
            }
            out.append("(Partial ");
            push_name(mem, f.name, out);
            out.append("(");
            push_join_from(mem, &f.param_names, pt.used as u32, Ghost(ptr_rank(p)), out);
            out.append("))");
            assert(out@ =~= old(out)@ + print_ptr(mem.syms@, mem.object_views(), p));
        },
    }
}

/// Append a function's name and a space, or nothing for an anonymous function
fn push_name(mem: &Memory, name: TaggedPtr, out: &mut String)
    requires
        mem.valid_ptr(name),
    ensures
        final(out)@ == old(out)@ + name_prefix(mem.syms@, name),
{
    match name {
        TaggedPtr::Symbol(_) => {
            out.append(mem.symbol_name(name));
            out.append(" ");
        },
        _ => {
            assert(out@ =~= old(out)@ + name_prefix(mem.syms@, name));
        },
    }
}

/// Print a value as text
pub fn print(mem: &Memory, value: TaggedPtr) -> (s: String)
    requires
        mem.wf(),
        mem.valid_ptr(value),
    ensures
        s@ == print_ptr(mem.syms@, mem.object_views(), value),
{
    let mut out = String::new();
    print_into(mem, value, &mut out);
    assert(out@ =~= print_ptr(mem.syms@, mem.object_views(), value));
    out
}

/// Append the debug form of a value
fn debug_into(mem: &Memory, p: TaggedPtr, out: &mut String)
    requires
        mem.wf(),
        mem.valid_ptr(p),
    ensures
        final(out)@ == old(out)@ + debug_ptr(mem.syms@, mem.object_views(), p),
    decreases ptr_rank(p),
{
    match p {
        TaggedPtr::Pair(i) => {
            let pair = mem.get_pair(i);
            proof {
                assert(mem.object_wf(i as int));
            }
            out.append("(");
            debug_into(mem, pair.first, out);
            out.append(" . ");
            debug_into(mem, pair.second, out);
            out.append(")");
            assert(out@ =~= old(out)@ + debug_ptr(mem.syms@, mem.object_views(), p));
        },
        TaggedPtr::Function(i) => {
            let f = mem.get_function(i);
            proof {
                assert(mem.object_wf(i as int));
            }
            let code = mem.get_bytecode(f.code);
            proof {
                assert(mem.object_wf(f.code as int));
            }
            let listing = code.print();
            out.append(listing.as_str());
        },
        _ => {
            print_into(mem, p, out);
        },
    }
}

/// Print a value as text in debug style, pairs in dot notation
pub fn debug(mem: &Memory, value: TaggedPtr) -> (s: String)
    requires
        mem.wf(),
        mem.valid_ptr(value),
    ensures
        s@ == debug_ptr(mem.syms@, mem.object_views(), value),
{
    let mut out = String::new();
    debug_into(mem, value, &mut out);
    assert(out@ =~= debug_ptr(mem.syms@, mem.object_views(), value));
    out
}

} // verus!
