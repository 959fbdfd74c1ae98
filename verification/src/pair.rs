use vstd::prelude::*;

use crate::error::{err_eval, ErrorKindView, RuntimeError, SourcePos};
use crate::memory::{ptr_rank, Memory, ObjectView, SExpr};
use crate::taggedptr::TaggedPtr;

verus! {

/// A Pair of pointers, like a Cons cell of old
#[derive(Copy, Clone)]
pub struct Pair {
    pub first: TaggedPtr,
    pub second: TaggedPtr,
    // Possible source code positions of the first and second values
    pub first_pos: Option<SourcePos>,
    pub second_pos: Option<SourcePos>,
}

impl Pair {
    /// Return a new empty Pair instance
    pub fn new() -> (p: Pair)
        ensures
            p.first == TaggedPtr::Nil,
            p.second == TaggedPtr::Nil,
            p.first_pos is None,
            p.second_pos is None,
    {
        Pair { first: TaggedPtr::Nil, second: TaggedPtr::Nil, first_pos: None, second_pos: None }
    }

    /// Set Pair.first to the given value
    pub fn set(&mut self, value: TaggedPtr)
        ensures
            *final(self) == (Pair { first: value, ..*old(self) }),
    {
        self.first = value;
    }

    /// Set Pair.second to the given value
    pub fn dot(&mut self, value: TaggedPtr)
        ensures
            *final(self) == (Pair { second: value, ..*old(self) }),
    {
        self.second = value;
    }

    /// Set the source code position of the first value
    pub fn set_first_source_pos(&mut self, pos: SourcePos)
        ensures
            *final(self) == (Pair { first_pos: Some(pos), ..*old(self) }),
    {
        self.first_pos = Some(pos);
    }

    /// Set the source code position of the second value
    pub fn set_second_source_pos(&mut self, pos: SourcePos)
        ensures
            *final(self) == (Pair { second_pos: Some(pos), ..*old(self) }),
    {
        self.second_pos = Some(pos);
    }
}

impl Pair {
    /// Set Pair.second to a new Pair whose first value is `value`, and return
    /// the pointer to the new Pair
    pub fn append(&mut self, mem: &mut Memory, value: TaggedPtr) -> (p: TaggedPtr)
        requires
            old(mem).wf(),
            old(mem).valid_ptr(value),
        ensures
            final(mem).wf(),
            final(mem).extends(old(mem)),
            p is Pair && p->Pair_0 == old(mem).objects@.len(),
            final(mem).valid_ptr(p),
            final(mem).objects@ == old(mem).objects@.push(crate::memory::Object::Pair(Pair { first: value, ..Pair::new_spec() })),
            final(mem).syms == old(mem).syms,
            final(mem).pair_at(p->Pair_0 as int) == (Pair { first: value, ..Pair::new_spec() }),
            final(mem).tree(p) == SExpr::Pair(Box::new(old(mem).tree(value)), Box::new(SExpr::Nil)),
            *final(self) == (Pair { second: p, ..*old(self) }),
    {
        let mut pair = Pair::new();
        pair.first = value;
        let ghost old_len = mem.objects@.len();
        let ghost pv = pair;
        let pair = mem.alloc_pair(pair);
        assert(mem.objects@[old_len as int] == crate::memory::Object::Pair(pv));
        assert(pv == (Pair { first: value, ..Pair::new_spec() }));
        self.second = pair;
        pair
    }

    /// A new empty Pair
    pub open spec fn new_spec() -> Pair {
        Pair { first: TaggedPtr::Nil, second: TaggedPtr::Nil, first_pos: None, second_pos: None }
    }
}

/// Given a pointer to a Pair linked list, assert that the list is of length 1 and return that 1 value
pub fn get_one_from_pair_list(mem: &Memory, ptr: TaggedPtr) -> (r: Result<TaggedPtr, RuntimeError>)
    requires
        mem.valid_ptr(ptr),
    ensures
        match ptr {
            TaggedPtr::Pair(i) => if mem.pair_at(i as int).second is Nil {
                r == Ok::<TaggedPtr, RuntimeError>(mem.pair_at(i as int).first)
            } else {
                r matches Err(e) && e@.kind == ErrorKindView::EvalError("Expected no more than one value in Pair list"@) && e@.pos is None
            },
            _ => r matches Err(e) && e@.kind == ErrorKindView::EvalError("Expected a Pair list"@) && e@.pos is None,
        },
{
    match ptr {
        TaggedPtr::Pair(i) => {
            let pair = mem.get_pair(i);
            if pair.second.is_nil() {
                Ok(pair.first)
            } else {
                Err(err_eval("Expected no more than one value in Pair list"))
            }
        },
        _ => Err(err_eval("Expected a Pair list")),
    }
}

/// Given a pointer to a Pair linked list, assert that the list is of length 2 and return the 2 values
pub fn get_two_from_pair_list(mem: &Memory, ptr: TaggedPtr) -> (r: Result<(TaggedPtr, TaggedPtr), RuntimeError>)
    requires
        mem.wf(),
        mem.valid_ptr(ptr),
    ensures
        match ptr {
            TaggedPtr::Pair(i) => match mem.pair_at(i as int).second {
                TaggedPtr::Pair(j) => if mem.pair_at(j as int).second is Nil {
                    r == Ok::<(TaggedPtr, TaggedPtr), RuntimeError>((mem.pair_at(i as int).first, mem.pair_at(j as int).first))
                } else {
                    r matches Err(e) && e@.kind == ErrorKindView::EvalError("Expected no more than two values in Pair list"@) && e@.pos is None
                },
                _ => r matches Err(e) && e@.kind == ErrorKindView::EvalError("Expected no less than two values in Pair list"@) && e@.pos is None,
            },
            _ => r matches Err(e) && e@.kind == ErrorKindView::EvalError("Expected a Pair list"@) && e@.pos is None,
        },
{
    match ptr {
        TaggedPtr::Pair(i) => {
            let pair = mem.get_pair(i);
            let first_param = pair.first;
            proof {
                assert(mem.object_wf(i as int));
            }
            match pair.second {
                TaggedPtr::Pair(j) => {
                    let pair2 = mem.get_pair(j);
                    if pair2.second.is_nil() {
                        Ok((first_param, pair2.first))
                    } else {
                        Err(err_eval("Expected no more than two values in Pair list"))
                    }
                },
                _ => Err(err_eval("Expected no less than two values in Pair list")),
            }
        },
        _ => Err(err_eval("Expected a Pair list")),
    }
}

/// The items of a proper list (a chain of pairs ending in nil), first to last;
/// none where the chain ends in something other than nil.
pub open spec fn list_items(objs: Seq<ObjectView>, ptr: TaggedPtr) -> Option<Seq<TaggedPtr>>
    decreases crate::memory::ptr_rank(ptr),
{
    match ptr {
        TaggedPtr::Nil => Some(Seq::empty()),
        TaggedPtr::Pair(i) => {
            if i < objs.len() && objs[i as int] is Pair {
                let second = objs[i as int]->Pair_1;
                if crate::memory::ptr_rank(second) < crate::memory::ptr_rank(ptr) {
                    match list_items(objs, second) {
                        Some(rest) => Some(seq![objs[i as int]->Pair_0] + rest),
                        None => None,
                    }
                } else {
                    None
                }
            } else {
                None
            }
        },
        _ => None,
    }
}

/// Converting a list to its items: nil is the empty list; a list that does
/// not end in nil is an error, as is any value other than a list.
pub open spec fn spec_vec_from_pairs(objs: Seq<ObjectView>, ptr: TaggedPtr) -> Result<Seq<TaggedPtr>, ErrorKindView> {
    match list_items(objs, ptr) {
        Some(items) => Ok(items),
        None => if ptr is Pair || ptr is Nil {
            Err(ErrorKindView::EvalError("Incorrectly terminated Pair list"@))
        } else {
            Err(ErrorKindView::EvalError("Expected a Pair"@))
        },
    }
}

/// Convert a Pair list to a vector of its items. Nil is the empty list; a list
/// that does not end in nil is an error, as is any value other than a list.
pub fn vec_from_pairs(mem: &Memory, ptr: TaggedPtr) -> (r: Result<Vec<TaggedPtr>, RuntimeError>)
    requires
        mem.wf(),
        mem.valid_ptr(ptr),
    ensures
        match spec_vec_from_pairs(mem.object_views(), ptr) {
            Ok(items) => r matches Ok(v) && v@ == items,
            Err(kind) => r matches Err(e) && e@.kind == kind && e@.pos is None,
        },
        r matches Ok(v) ==> mem.all_valid_below(v@, mem.objects@.len() as nat + 1),
        r matches Ok(v) ==> forall|k: int| 0 <= k < v@.len() ==> ptr_rank(#[trigger] v@[k]) < ptr_rank(ptr),
{
    match ptr {
        TaggedPtr::Nil => {
            let v: Vec<TaggedPtr> = Vec::new();
            assert(v@ =~= Seq::<TaggedPtr>::empty());
            Ok(v)
        },
        TaggedPtr::Pair(_) => {
            let mut result: Vec<TaggedPtr> = Vec::new();
            let mut next = ptr;
            let ghost objs = mem.object_views();
            loop
                invariant
                    mem.wf(),
                    objs == mem.object_views(),
                    mem.valid_ptr(next),
                    ptr_rank(next) <= ptr_rank(ptr),
                    mem.all_valid_below(result@, mem.objects@.len() as nat + 1),
                    forall|k: int| 0 <= k < result@.len() ==> ptr_rank(#[trigger] result@[k]) < ptr_rank(ptr),
                    list_items(objs, ptr) == match list_items(objs, next) {
                        Some(rest) => Some(result@ + rest),
                        None => None::<Seq<TaggedPtr>>,
                    },
                ensures
                    !(next is Pair),
                    mem.valid_ptr(next),
                    mem.all_valid_below(result@, mem.objects@.len() as nat + 1),
                    forall|k: int| 0 <= k < result@.len() ==> ptr_rank(#[trigger] result@[k]) < ptr_rank(ptr),
                    list_items(objs, ptr) == match list_items(objs, next) {
                        Some(rest) => Some(result@ + rest),
                        None => None::<Seq<TaggedPtr>>,
                    },
                decreases crate::memory::ptr_rank(next),
            {
                let i = match next {
                    TaggedPtr::Pair(i) => i,
                    _ => break,
                };
                let pair = mem.get_pair(i);
                proof {
                    assert(mem.object_wf(i as int));
                    mem.lemma_rank_bound(pair.first);
                    assert(objs[i as int] == ObjectView::Pair(pair.first, pair.second));
                    match list_items(objs, pair.second) {
                        Some(rest) => {
                            assert(result@ + (seq![pair.first] + rest) =~= result@.push(pair.first) + rest);
                        },
                        None => {},
                    }
                }
                result.push(pair.first);
                next = pair.second;
            }
            // we've terminated the loop, but is the end of the list Nil?
            if next.is_nil() {
                assert(result@ + Seq::<TaggedPtr>::empty() =~= result@);
                Ok(result)
            } else {
                Err(err_eval("Incorrectly terminated Pair list"))
            }
        },
        _ => Err(err_eval("Expected a Pair")),
    }
}

} // verus!
