use vstd::prelude::*;

use crate::array::Array;
use crate::error::RuntimeError;
use crate::memory::{Memory, Object, ObjectView};
use crate::taggedptr::TaggedPtr;

verus! {

/// A function object: a name (a Symbol, or nil for an anonymous function), the
/// number of arguments it takes, its compiled code and its parameter names.
pub struct Function {
    pub name: TaggedPtr,
    pub arity: u8,
    /// Address of the function's `ByteCode` in managed memory
    pub code: usize,
    /// Param names are stored for examination of a function signature
    pub param_names: Array<TaggedPtr>,
}

impl Function {
    /// Return the number of arguments the Function can take
    pub fn arity(&self) -> (a: u8)
        ensures
            a == self.arity,
    {
        self.arity
    }

    /// Return the address of the ByteCode object associated with the Function
    pub fn code(&self) -> (c: usize)
        ensures
            c == self.code,
    {
        self.code
    }

    /// Return the names of the parameters that the Function takes
    pub fn param_names(&self) -> (p: &Array<TaggedPtr>)
        ensures
            *p == self.param_names,
    {
        &self.param_names
    }

    /// Return the Function's name: the name of its Symbol, or `<lambda>` for
    /// an anonymous function
    pub fn name<'a>(&self, mem: &'a Memory) -> (s: &'a str)
        requires
            mem.valid_ptr(self.name),
        ensures
            self.name matches TaggedPtr::Symbol(i) ==> s@ == mem.syms@[i as int],
            !(self.name is Symbol) ==> s@ == "<lambda>"@,
    {
        match self.name {
            TaggedPtr::Symbol(_) => mem.symbol_name(self.name),
            _ => "<lambda>",
        }
    }

    /// Allocate a Function object in managed memory, its arity being the
    /// number of its parameter names
    pub fn allocate(mem: &mut Memory, name: TaggedPtr, param_names: Array<TaggedPtr>, code: usize) -> (p: TaggedPtr)
        requires
            old(mem).wf(),
            old(mem).is_bytecode(code as int),
            param_names.wf(),
            param_names@.len() <= u8::MAX,
            forall|k: int| 0 <= k < param_names@.len() ==> old(mem).valid_ptr(#[trigger] param_names@[k]),
            name is Nil || name is Symbol,
            old(mem).valid_ptr(name),
        ensures
            final(mem).wf(),
            final(mem).extends(old(mem)),
            p == TaggedPtr::Function(old(mem).objects@.len() as usize),
            final(mem).valid_ptr(p),
            final(mem).syms == old(mem).syms,
            final(mem).objects@ == old(mem).objects@.push(
                Object::Function(Function { name, arity: param_names@.len() as u8, code, param_names }),
            ),
    {
        let arity = param_names.length() as u8;
        mem.alloc_function(Function { name, arity, code, param_names })
    }
}

/// A partial function application object: a function, the arguments applied so
/// far, and the number of arguments still needed before the function can be called.
pub struct Partial {
    pub arity: u8,
    pub used: u8,
    pub args: Array<TaggedPtr>,
    /// Address of the applied `Function` in managed memory
    pub func: usize,
}

impl Partial {
    /// Return the number of arguments this Partial needs before the function can be called
    pub fn arity(&self) -> (a: u8)
        ensures
            a == self.arity,
    {
        self.arity
    }

    /// Return the count of arguments already applied
    pub fn used(&self) -> (u: u8)
        ensures
            u == self.used,
    {
        self.used
    }

    /// Return the address of the Function object that the Partial will call
    pub fn function(&self) -> (f: usize)
        ensures
            f == self.func,
    {
        self.func
    }

    /// Return the arguments already supplied to the Partial
    pub fn args(&self) -> (a: &Array<TaggedPtr>)
        ensures
            *a == self.args,
    {
        &self.args
    }

    /// Allocate a Partial application of a Function in managed memory,
    /// applying the given arguments
    pub fn allocate(mem: &mut Memory, function: usize, args: &[TaggedPtr]) -> (r: Result<TaggedPtr, RuntimeError>)
        requires
            old(mem).wf(),
            old(mem).valid_ptr(TaggedPtr::Function(function)),
            args@.len() <= old(mem).function_at(function as int).arity,
            forall|k: int| 0 <= k < args@.len() ==> old(mem).valid_ptr(#[trigger] args@[k]),
        ensures
            final(mem).wf(),
            final(mem).extends(old(mem)),
            final(mem).syms == old(mem).syms,
            match r {
                Ok(p) => {
                    &&& p == TaggedPtr::Partial(old(mem).objects@.len() as usize)
                    &&& final(mem).valid_ptr(p)
                    &&& final(mem).partial_at(p->Partial_0 as int).func == function
                    &&& final(mem).partial_at(p->Partial_0 as int).args@ == args@
                    &&& final(mem).partial_at(p->Partial_0 as int).used == args@.len()
                    &&& final(mem).partial_at(p->Partial_0 as int).arity == old(mem).function_at(function as int).arity - args@.len()
                    &&& final(mem).object_views() == old(mem).object_views().push(
                        ObjectView::Partial(
                            (old(mem).function_at(function as int).arity - args@.len()) as nat,
                            args@.len(),
                            args@,
                            function as nat,
                        ),
                    )
                },
                Err(e) => false,
            },
    {
        let f = mem.get_function(function);
        let used = args.len() as u8;
        let arity = f.arity - used;
        let mut args_list: Array<TaggedPtr> = Array::new();
        let mut k: usize = 0;
        while k < args.len()
            invariant
                mem.wf(),
                *mem == *old(mem),
                args_list.wf(),
                k <= args@.len(),
                args@.len() <= 255,
                args_list@ == args@.subrange(0, k as int),
            decreases args@.len() - k,
        {
            proof {
                args_list.lemma_push_fits();
            }
            match args_list.push(args[k]) {
                Ok(()) => {},
                Err(e) => return Err(e),
            }
            assert(args_list@ =~= args@.subrange(0, k + 1));
            k = k + 1;
        }
        assert(args_list@ =~= args@);
        let ghost mem0 = *mem;
        let partial = Partial { arity, used, args: args_list, func: function };
        let r = mem.alloc_partial(partial);
        proof {
            mem.lemma_views_push(&mem0, Object::Partial(partial));
        }
        Ok(r)
    }

    /// Allocate a clone of an existing Partial application, adding the given
    /// arguments to the list of existing args
    pub fn alloc_clone(mem: &mut Memory, partial: usize, new_args: &[TaggedPtr]) -> (r: Result<TaggedPtr, RuntimeError>)
        requires
            old(mem).wf(),
            old(mem).valid_ptr(TaggedPtr::Partial(partial)),
            new_args@.len() <= old(mem).partial_at(partial as int).arity,
            forall|k: int| 0 <= k < new_args@.len() ==> old(mem).valid_ptr(#[trigger] new_args@[k]),
        ensures
            final(mem).wf(),
            final(mem).extends(old(mem)),
            final(mem).syms == old(mem).syms,
            match r {
                Ok(p) => {
                    let old_partial = old(mem).partial_at(partial as int);
                    let new_partial = final(mem).partial_at(p->Partial_0 as int);
                    &&& p == TaggedPtr::Partial(old(mem).objects@.len() as usize)
                    &&& final(mem).valid_ptr(p)
                    &&& new_partial.func == old_partial.func
                    &&& new_partial.args@ == old_partial.args@ + new_args@
                    &&& new_partial.used == old_partial.used + new_args@.len()
                    &&& new_partial.arity == old_partial.arity - new_args@.len()
                    &&& final(mem).object_views() == old(mem).object_views().push(
                        ObjectView::Partial(
                            (old_partial.arity - new_args@.len()) as nat,
                            (old_partial.used + new_args@.len()) as nat,
                            old_partial.args@ + new_args@,
                            old_partial.func as nat,
                        ),
                    )
                },
                Err(e) => false,
            },
    {
        let old_partial = mem.get_partial(partial);
        proof {
            assert(mem.object_wf(partial as int));
            old_partial.args.lemma_wf_len();
        }
        proof {
            assert(mem.object_wf(old_partial.func as int));
        }
        let used = old_partial.used + new_args.len() as u8;
        let arity = old_partial.arity - new_args.len() as u8;
        let func = old_partial.func;
        let old_len = old_partial.args.length();
        let mut arg_list: Array<TaggedPtr> = Array::new();
        let mut k: u32 = 0;
        while k < old_len
            invariant
                mem.wf(),
                *mem == *old(mem),
                arg_list.wf(),
                old_partial.args.wf(),
                old_len == old_partial.args@.len(),
                k <= old_len,
                old_len + new_args@.len() <= 255,
                arg_list@ == old_partial.args@.subrange(0, k as int),
            decreases old_len - k,
        {
            let item = match old_partial.args.get(k) {
                Ok(item) => item,
                Err(e) => return Err(e),
            };
            proof {
                arg_list.lemma_push_fits();
            }
            match arg_list.push(item) {
                Ok(()) => {},
                Err(e) => return Err(e),
            }
            assert(arg_list@ =~= old_partial.args@.subrange(0, k + 1));
            k = k + 1;
        }
        let mut j: usize = 0;
        while j < new_args.len()
            invariant
                mem.wf(),
                *mem == *old(mem),
                arg_list.wf(),
                old_len == old_partial.args@.len(),
                j <= new_args@.len(),
                old_len + new_args@.len() <= 255,
                arg_list@ == old_partial.args@ + new_args@.subrange(0, j as int),
            decreases new_args@.len() - j,
        {
            proof {
                arg_list.lemma_push_fits();
            }
            match arg_list.push(new_args[j]) {
                Ok(()) => {},
                Err(e) => return Err(e),
            }
            assert(arg_list@ =~= old_partial.args@ + new_args@.subrange(0, j + 1));
            j = j + 1;
        }
        assert(arg_list@ =~= old_partial.args@ + new_args@);
        proof {
            assert forall|k: int| 0 <= k < arg_list@.len() implies mem.valid_ptr(#[trigger] arg_list@[k]) by {
                if k >= old_partial.args@.len() {
                    assert(arg_list@[k] == new_args@[k - old_partial.args@.len()]);
                }
            }
        }
        let ghost mem0 = *mem;
        let new_partial = Partial { arity, used, args: arg_list, func };
        let r = mem.alloc_partial(new_partial);
        proof {
            mem.lemma_views_push(&mem0, Object::Partial(new_partial));
        }
        Ok(r)
    }
}

} // verus!
