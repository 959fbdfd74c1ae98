use vstd::prelude::*;

use crate::bytecode::ByteCode;
use crate::function::{Function, Partial};
use crate::error::SourcePos;
use crate::pair::Pair;
use crate::rawarray::ArraySize;
use crate::symbolmap::SymbolMap;
use crate::taggedptr::TaggedPtr;

verus! {

/// The mathematical model of a value reached from a pointer: nil, an integer,
/// a symbol by its name, a pair of values, or a function or partial
/// application by its address.
pub enum SExpr {
    Nil,
    Number(int),
    Symbol(Seq<char>),
    Pair(Box<SExpr>, Box<SExpr>),
    Function(nat),
    Partial(nat),
}

/// Where the pairs of a value were read from: for a pair, the source
/// positions it records for its first and second values, and the same of
/// those two values; nothing for any other value
pub enum PosTree {
    Leaf,
    Node(Option<SourcePos>, Option<SourcePos>, Box<PosTree>, Box<PosTree>),
}

/// An object in managed memory
pub enum Object {
    Pair(Pair),
    ByteCode(ByteCode),
    Function(Function),
    Partial(Partial),
}

/// The mathematical model of an object: a pair by its two values, byte code
/// by its instructions and literals, a function by its name, parameter names
/// and code address, a partial application by its remaining arity, count of
/// applied arguments, those arguments and its function's address.
pub enum ObjectView {
    Pair(TaggedPtr, TaggedPtr),
    ByteCode(Seq<crate::bytecode::Opcode>, Seq<TaggedPtr>),
    Function(TaggedPtr, Seq<TaggedPtr>, nat),
    Partial(nat, nat, Seq<TaggedPtr>, nat),
}

impl View for Object {
    type V = ObjectView;

    open spec fn view(&self) -> ObjectView {
        match self {
            Object::Pair(p) => ObjectView::Pair(p.first, p.second),
            Object::ByteCode(b) => ObjectView::ByteCode(b.code@, b.literals@),
            Object::Function(f) => ObjectView::Function(f.name, f.param_names@, f.code as nat),
            Object::Partial(p) => ObjectView::Partial(p.arity as nat, p.used as nat, p.args@, p.func as nat),
        }
    }
}

/// Interning a name in a symbol table without duplicates: the table
/// afterwards and the address of the name, the name being appended where it
/// is not in the table yet
pub open spec fn spec_intern(syms: Seq<Seq<char>>, name: Seq<char>) -> (Seq<Seq<char>>, nat) {
    if syms.contains(name) {
        (syms, syms.index_of(name) as nat)
    } else {
        (syms.push(name), syms.len())
    }
}

/// Interning is idempotent: interning a name a second time changes nothing
/// and gives the same address, and the interned name is at that address.
pub proof fn law_intern_twice(syms: Seq<Seq<char>>, name: Seq<char>)
    requires
        syms.no_duplicates(),
    ensures
        ({
            let (syms1, i) = spec_intern(syms, name);
            &&& syms1.no_duplicates()
            &&& i < syms1.len()
            &&& syms1[i as int] == name
            &&& spec_intern(syms1, name) == (syms1, i)
        }),
{
    let (syms1, i) = spec_intern(syms, name);
    if syms.contains(name) {
        syms.index_of_first_ensures(name);
    } else {
        assert(syms1[syms.len() as int] == name);
        assert(syms1.contains(name));
        assert forall|a: int, b: int| 0 <= a < b < syms1.len() implies syms1[a] != syms1[b] by {
            if b == syms.len() {
                assert(syms1[a] == syms[a]);
            }
        }
    }
    assert(syms1.contains(name));
    let j = syms1.index_of(name);
    assert(syms1[j] == name);
}

/// Objects are ranked by address; inline values and symbols have rank 0. An
/// object only ever points at objects of lower rank, those allocated before it,
/// so following pointers always ends.
pub open spec fn ptr_rank(p: TaggedPtr) -> nat {
    match p {
        TaggedPtr::Pair(i) => i as nat + 1,
        TaggedPtr::Function(i) => i as nat + 1,
        TaggedPtr::Partial(i) => i as nat + 1,
        _ => 0,
    }
}

/// A file of registers, each holding a pointer
pub struct Stack {
    regs: Vec<TaggedPtr>,
}

impl View for Stack {
    type V = Seq<TaggedPtr>;

    closed spec fn view(&self) -> Seq<TaggedPtr> {
        self.regs@
    }
}

impl Stack {
    /// A stack of 256 registers, all nil
    pub fn new() -> (s: Stack)
        ensures
            s@ == Seq::new(256, |i: int| TaggedPtr::Nil),
    {
        let mut regs: Vec<TaggedPtr> = Vec::new();
        let mut i: usize = 0;
        while i < 256
            invariant
                i <= 256,
                regs@ == Seq::new(i as nat, |k: int| TaggedPtr::Nil),
            decreases 256 - i,
        {
            regs.push(TaggedPtr::Nil);
            i = i + 1;
            assert(regs@ =~= Seq::new(i as nat, |k: int| TaggedPtr::Nil));
        }
        Stack { regs }
    }

    /// The pointer in the given register
    pub fn get_reg(&self, reg: ArraySize) -> (p: TaggedPtr)
        requires
            reg < self@.len(),
        ensures
            p == self@[reg as int],
    {
        self.regs[reg as usize]
    }

    /// Write a pointer into the given register
    pub fn set_reg(&mut self, reg: ArraySize, ptr: TaggedPtr)
        requires
            reg < old(self)@.len(),
        ensures
            final(self)@ == old(self)@.update(reg as int, ptr),
    {
        self.regs.set(reg as usize, ptr);
    }
}

/// Managed memory: the symbol table, an append-only table of objects, and a
/// file of registers. The address of an object is its position in the table.
pub struct Memory {
    pub syms: SymbolMap,
    pub objects: Vec<Object>,
    pub stack: Stack,
}

impl Memory {
    /// The pointer points at an existing object of its type (or is an inline value)
    pub open spec fn valid_ptr(&self, p: TaggedPtr) -> bool {
        match p {
            TaggedPtr::Nil => true,
            TaggedPtr::Number(_) => true,
            TaggedPtr::Symbol(i) => i < self.syms@.len(),
            TaggedPtr::Pair(i) => i < self.objects@.len() && self.objects@[i as int] is Pair,
            TaggedPtr::Function(i) => i < self.objects@.len() && self.objects@[i as int] is Function,
            TaggedPtr::Partial(i) => i < self.objects@.len() && self.objects@[i as int] is Partial,
        }
    }

    /// Every pointer of the sequence is valid and points below the given rank
    pub open spec fn all_valid_below(&self, ps: Seq<TaggedPtr>, bound: nat) -> bool {
        forall|k: int| 0 <= k < ps.len() ==> self.valid_ptr(#[trigger] ps[k]) && ptr_rank(ps[k]) < bound
    }

    /// The models of all objects, by address
    pub open spec fn object_views(&self) -> Seq<ObjectView> {
        self.objects@.map_values(|o: Object| o@)
    }

    /// Is there a byte code object at the address
    pub open spec fn is_bytecode(&self, i: int) -> bool {
        0 <= i < self.objects@.len() && self.objects@[i] is ByteCode
    }

    /// The pair at the address (arbitrary where there is none)
    pub open spec fn pair_at(&self, i: int) -> Pair {
        self.objects@[i]->Pair_0
    }

    /// The byte code at the address (arbitrary where there is none)
    pub open spec fn bytecode_at(&self, i: int) -> ByteCode {
        self.objects@[i]->ByteCode_0
    }

    /// The function at the address (arbitrary where there is none)
    pub open spec fn function_at(&self, i: int) -> Function {
        self.objects@[i]->Function_0
    }

    /// The partial application at the address (arbitrary where there is none)
    pub open spec fn partial_at(&self, i: int) -> Partial {
        self.objects@[i]->Partial_0
    }

    /// The object at address `i` points only at valid objects allocated before it;
    /// byte code holds only opcodes that the virtual machine implements;
    /// a function's code exists, its name is a symbol or nil and its arity is the
    /// number of its parameter names; a partial application's used and remaining
    /// arguments add up to its function's arity.
    pub open spec fn object_wf(&self, i: int) -> bool {
        match self.objects@[i] {
            Object::Pair(p) => {
                &&& self.valid_ptr(p.first)
                &&& self.valid_ptr(p.second)
                &&& ptr_rank(p.first) <= i
                &&& ptr_rank(p.second) <= i
            },
            Object::ByteCode(b) => {
                &&& b.wf()
                &&& crate::bytecode::code_supported(b.code@)
                &&& self.all_valid_below(b.literals@, (i + 1) as nat)
            },
            Object::Function(f) => {
                &&& f.code < i
                &&& self.is_bytecode(f.code as int)
                &&& f.param_names.wf()
                &&& self.all_valid_below(f.param_names@, (i + 1) as nat)
                &&& f.arity == f.param_names@.len()
                &&& (f.name is Nil || f.name is Symbol)
                &&& self.valid_ptr(f.name)
            },
            Object::Partial(p) => {
                &&& p.func < i
                &&& self.objects@[p.func as int] is Function
                &&& p.args.wf()
                &&& self.all_valid_below(p.args@, (i + 1) as nat)
                &&& p.used == p.args@.len()
                &&& p.arity + p.used == self.function_at(p.func as int).arity
            },
        }
    }

    /// Well-formedness of the whole memory
    pub open spec fn wf(&self) -> bool {
        &&& self.syms.wf()
        &&& forall|i: int| 0 <= i < self.objects@.len() ==> #[trigger] self.object_wf(i)
    }

    /// `self` holds every object `old` holds, unchanged, and possibly more
    pub open spec fn extends(&self, old: &Memory) -> bool {
        &&& old.syms@.is_prefix_of(self.syms@)
        &&& old.objects@.is_prefix_of(self.objects@)
    }

    /// The value a pointer points at, as a mathematical tree
    pub open spec fn tree(&self, p: TaggedPtr) -> SExpr
        decreases ptr_rank(p),
    {
        match p {
            TaggedPtr::Nil => SExpr::Nil,
            TaggedPtr::Number(n) => SExpr::Number(n as int),
            TaggedPtr::Symbol(i) => SExpr::Symbol(self.syms@[i as int]),
            TaggedPtr::Function(i) => SExpr::Function(i as nat),
            TaggedPtr::Partial(i) => SExpr::Partial(i as nat),
            TaggedPtr::Pair(i) => {
                if i < self.objects@.len() {
                    let pr = self.pair_at(i as int);
                    SExpr::Pair(
                        Box::new(
                            if ptr_rank(pr.first) < ptr_rank(p) {
                                self.tree(pr.first)
                            } else {
                                SExpr::Nil
                            },
                        ),
                        Box::new(
                            if ptr_rank(pr.second) < ptr_rank(p) {
                                self.tree(pr.second)
                            } else {
                                SExpr::Nil
                            },
                        ),
                    )
                } else {
                    SExpr::Nil
                }
            },
        }
    }

    /// The source positions recorded in the pairs a pointer reaches
    pub open spec fn pos_tree(&self, p: TaggedPtr) -> PosTree
        decreases ptr_rank(p),
    {
        match p {
            TaggedPtr::Pair(i) => {
                if i < self.objects@.len() {
                    let pr = self.pair_at(i as int);
                    PosTree::Node(
                        pr.first_pos,
                        pr.second_pos,
                        Box::new(
                            if ptr_rank(pr.first) < ptr_rank(p) {
                                self.pos_tree(pr.first)
                            } else {
                                PosTree::Leaf
                            },
                        ),
                        Box::new(
                            if ptr_rank(pr.second) < ptr_rank(p) {
                                self.pos_tree(pr.second)
                            } else {
                                PosTree::Leaf
                            },
                        ),
                    )
                } else {
                    PosTree::Leaf
                }
            },
            _ => PosTree::Leaf,
        }
    }

    /// Extending memory keeps the source positions that a valid pointer reaches
    pub proof fn lemma_pos_tree_extends(&self, old: &Memory, p: TaggedPtr)
        requires
            self.extends(old),
            old.wf(),
            old.valid_ptr(p),
        ensures
            self.pos_tree(p) == old.pos_tree(p),
        decreases ptr_rank(p),
    {
        match p {
            TaggedPtr::Pair(i) => {
                assert(old.object_wf(i as int));
                let pr = old.pair_at(i as int);
                assert(self.objects@[i as int] == old.objects@[i as int]);
                self.lemma_pos_tree_extends(old, pr.first);
                self.lemma_pos_tree_extends(old, pr.second);
            },
            _ => {},
        }
    }

    /// In a well-formed memory, the tree of a pair is built from the trees of its two halves
    pub proof fn lemma_tree_pair(&self, i: usize)
        requires
            self.wf(),
            self.valid_ptr(TaggedPtr::Pair(i)),
        ensures
            self.tree(TaggedPtr::Pair(i)) == SExpr::Pair(
                Box::new(self.tree(self.pair_at(i as int).first)),
                Box::new(self.tree(self.pair_at(i as int).second)),
            ),
    {
        assert(self.object_wf(i as int));
    }

    /// Extending memory keeps valid pointers valid
    pub proof fn lemma_valid_extends(&self, old: &Memory, p: TaggedPtr)
        requires
            self.extends(old),
            old.valid_ptr(p),
        ensures
            self.valid_ptr(p),
    {
        match p {
            TaggedPtr::Pair(i) => { assert(self.objects@[i as int] == old.objects@[i as int]); },
            TaggedPtr::Function(i) => { assert(self.objects@[i as int] == old.objects@[i as int]); },
            TaggedPtr::Partial(i) => { assert(self.objects@[i as int] == old.objects@[i as int]); },
            _ => {},
        }
    }

    /// Extending memory keeps the tree that a valid pointer points at
    pub proof fn lemma_tree_extends(&self, old: &Memory, p: TaggedPtr)
        requires
            self.extends(old),
            old.wf(),
            old.valid_ptr(p),
        ensures
            self.tree(p) == old.tree(p),
        decreases ptr_rank(p),
    {
        match p {
            TaggedPtr::Symbol(i) => {
                assert(self.syms@[i as int] == old.syms@[i as int]);
            },
            TaggedPtr::Pair(i) => {
                assert(old.object_wf(i as int));
                let pr = old.pair_at(i as int);
                assert(self.objects@[i as int] == old.objects@[i as int]);
                self.lemma_tree_extends(old, pr.first);
                self.lemma_tree_extends(old, pr.second);
            },
            _ => {},
        }
    }

    /// Extending memory keeps every object well-formed
    pub proof fn lemma_object_wf_extends(&self, old: &Memory, i: int)
        requires
            self.extends(old),
            0 <= i < old.objects@.len(),
            old.object_wf(i),
        ensures
            self.object_wf(i),
    {
        assert(self.objects@[i] == old.objects@[i]);
        match old.objects@[i] {
            Object::Pair(p) => {
                self.lemma_valid_extends(old, p.first);
                self.lemma_valid_extends(old, p.second);
            },
            Object::ByteCode(b) => {
                assert forall|k: int| 0 <= k < b.literals@.len() implies self.valid_ptr(#[trigger] b.literals@[k])
                    && ptr_rank(b.literals@[k]) < i + 1 by {
                    self.lemma_valid_extends(old, b.literals@[k]);
                }
            },
            Object::Function(f) => {
                assert(self.objects@[f.code as int] == old.objects@[f.code as int]);
                self.lemma_valid_extends(old, f.name);
                assert forall|k: int| 0 <= k < f.param_names@.len() implies self.valid_ptr(#[trigger] f.param_names@[k])
                    && ptr_rank(f.param_names@[k]) < i + 1 by {
                    self.lemma_valid_extends(old, f.param_names@[k]);
                }
            },
            Object::Partial(p) => {
                assert(self.objects@[p.func as int] == old.objects@[p.func as int]);
                assert forall|k: int| 0 <= k < p.args@.len() implies self.valid_ptr(#[trigger] p.args@[k])
                    && ptr_rank(p.args@[k]) < i + 1 by {
                    self.lemma_valid_extends(old, p.args@[k]);
                }
            },
        }
    }

    /// Appending an object appends its model to the models
    pub proof fn lemma_views_push(&self, old: &Memory, o: Object)
        requires
            self.objects@ == old.objects@.push(o),
        ensures
            self.object_views() == old.object_views().push(o@),
    {
        assert(self.object_views() =~= old.object_views().push(o@));
    }

    /// Extending memory is transitive
    pub proof fn lemma_extends_trans(&self, mid: &Memory, old: &Memory)
        requires
            self.extends(mid),
            mid.extends(old),
        ensures
            self.extends(old),
    {
        assert(old.syms@ =~= self.syms@.subrange(0, old.syms@.len() as int));
        assert(old.objects@ =~= self.objects@.subrange(0, old.objects@.len() as int));
    }

    /// Extending memory is reflexive
    pub proof fn lemma_extends_refl(&self)
        ensures
            self.extends(self),
    {
        assert(self.syms@ =~= self.syms@.subrange(0, self.syms@.len() as int));
        assert(self.objects@ =~= self.objects@.subrange(0, self.objects@.len() as int));
    }

    /// Instantiate a new, empty memory, its 256 registers nil
    pub fn new() -> (m: Memory)
        ensures
            m.wf(),
            m.syms@ == Seq::<Seq<char>>::empty(),
            m.objects@ == Seq::<Object>::empty(),
            m.stack@ == Seq::new(256, |i: int| TaggedPtr::Nil),
    {
        Memory { syms: SymbolMap::new(), objects: Vec::new(), stack: Stack::new() }
    }

    /// The copy of the pointer in the given register
    pub fn get_reg(&self, reg: ArraySize) -> (p: TaggedPtr)
        requires
            reg < self.stack@.len(),
        ensures
            p == self.stack@[reg as int],
    {
        self.stack.get_reg(reg)
    }

    /// Write a pointer into the given register
    pub fn set_reg(&mut self, reg: ArraySize, ptr: TaggedPtr)
        requires
            reg < old(self).stack@.len(),
        ensures
            final(self).stack@ == old(self).stack@.update(reg as int, ptr),
            final(self).syms == old(self).syms,
            final(self).objects == old(self).objects,
    {
        self.stack.set_reg(reg, ptr);
    }

    /// A nil pointer
    pub fn nil(&self) -> (p: TaggedPtr)
        ensures
            p == TaggedPtr::Nil,
    {
        TaggedPtr::Nil
    }

    /// Get a Symbol pointer from its name, interning the name
    pub fn lookup_sym(&mut self, name: &str) -> (p: TaggedPtr)
        requires
            old(self).wf(),
        ensures
            final(self).wf(),
            final(self).extends(old(self)),
            final(self).valid_ptr(p),
            p is Symbol,
            final(self).tree(p) == SExpr::Symbol(name@),
            final(self).objects == old(self).objects,
            old(self).syms@.contains(name@) ==> final(self).syms@ == old(self).syms@,
            !old(self).syms@.contains(name@) ==> final(self).syms@ == old(self).syms@.push(name@),
            (final(self).syms@, p->Symbol_0 as nat) == spec_intern(old(self).syms@, name@),
    {
        let ghost old_mem = *self;
        let raw = self.syms.lookup(name);
        proof {
            raw.lemma_bound();
            if old_mem.syms@.contains(name@) {
                let c = old_mem.syms@.index_of(name@);
                assert(old_mem.syms@[c] == name@);
            }
            assert(old_mem.syms@ =~= self.syms@.subrange(0, old_mem.syms@.len() as int));
            assert(self.objects@ =~= self.objects@.subrange(0, self.objects@.len() as int));
            assert forall|i: int| 0 <= i < self.objects@.len() implies #[trigger] self.object_wf(i) by {
                assert(old_mem.object_wf(i));
                self.lemma_object_wf_extends(&old_mem, i);
            }
        }
        TaggedPtr::symbol(raw)
    }

    /// The name of a symbol
    pub fn symbol_name(&self, p: TaggedPtr) -> (s: &str)
        requires
            p is Symbol,
            self.valid_ptr(p),
        ensures
            s@ == self.syms@[p->Symbol_0 as int],
            SExpr::Symbol(s@) == self.tree(p),
    {
        match p {
            TaggedPtr::Symbol(i) => self.syms.name(crate::rawptr::RawPtr::from_bare(i)),
            _ => "",
        }
    }

    /// Append an object to the table, given that it is well-formed at its new address
    fn push_object(&mut self, obj: Object) -> (index: usize)
        requires
            old(self).wf(),
        ensures
            index == old(self).objects@.len(),
            final(self).syms == old(self).syms,
            final(self).objects@ == old(self).objects@.push(obj),
            final(self).extends(old(self)),
    {
        let index = self.objects.len();
        self.objects.push(obj);
        proof {
            assert(old(self).objects@ =~= self.objects@.subrange(0, old(self).objects@.len() as int));
            assert(self.syms@ =~= self.syms@.subrange(0, self.syms@.len() as int));
        }
        index
    }

    /// After appending an object that is well-formed at its new address, the memory is well-formed
    proof fn lemma_push_wf(&self, old: &Memory)
        requires
            old.wf(),
            self.extends(old),
            self.syms == old.syms,
            self.objects@.len() == old.objects@.len() + 1,
            self.object_wf(old.objects@.len() as int),
        ensures
            self.wf(),
    {
        assert forall|i: int| 0 <= i < self.objects@.len() implies #[trigger] self.object_wf(i) by {
            if i < old.objects@.len() {
                assert(old.object_wf(i));
                self.lemma_object_wf_extends(old, i);
            }
        }
    }

    /// Write a pair into managed memory and return the pointer to it
    pub fn alloc_pair(&mut self, pair: Pair) -> (p: TaggedPtr)
        requires
            old(self).wf(),
            old(self).valid_ptr(pair.first),
            old(self).valid_ptr(pair.second),
        ensures
            final(self).wf(),
            final(self).extends(old(self)),
            p is Pair && p->Pair_0 == old(self).objects@.len(),
            final(self).valid_ptr(p),
            final(self).objects@ == old(self).objects@.push(Object::Pair(pair)),
            final(self).syms == old(self).syms,
            final(self).tree(p) == SExpr::Pair(Box::new(old(self).tree(pair.first)), Box::new(old(self).tree(pair.second))),
            final(self).pos_tree(p) == PosTree::Node(
                pair.first_pos,
                pair.second_pos,
                Box::new(old(self).pos_tree(pair.first)),
                Box::new(old(self).pos_tree(pair.second)),
            ),
    {
        let ghost old_mem = *self;
        proof {
            old_mem.lemma_rank_bound(pair.first);
            old_mem.lemma_rank_bound(pair.second);
        }
        let index = self.push_object(Object::Pair(pair));
        proof {
            self.lemma_valid_extends(&old_mem, pair.first);
            self.lemma_valid_extends(&old_mem, pair.second);
            self.lemma_push_wf(&old_mem);
            self.lemma_tree_pair(index);
            self.lemma_tree_extends(&old_mem, pair.first);
            self.lemma_tree_extends(&old_mem, pair.second);
            self.lemma_pos_tree_extends(&old_mem, pair.first);
            self.lemma_pos_tree_extends(&old_mem, pair.second);
            assert(self.pair_at(index as int) == pair);
        }
        TaggedPtr::Pair(index)
    }

    /// A valid pointer's rank is at most the number of objects
    pub proof fn lemma_rank_bound(&self, p: TaggedPtr)
        requires
            self.valid_ptr(p),
        ensures
            ptr_rank(p) <= self.objects@.len(),
    {
    }

    /// Read the pair at the given address
    pub fn get_pair(&self, i: usize) -> (p: &Pair)
        requires
            self.valid_ptr(TaggedPtr::Pair(i)),
        ensures
            *p == self.pair_at(i as int),
    {
        match &self.objects[i] {
            Object::Pair(p) => p,
            _ => vstd::pervasive::unreached(),
        }
    }

    /// Write a byte code object into managed memory and return its address
    pub fn alloc_bytecode(&mut self, code: ByteCode) -> (index: usize)
        requires
            old(self).wf(),
            code.wf(),
            crate::bytecode::code_supported(code.code@),
            forall|k: int| 0 <= k < code.literals@.len() ==> old(self).valid_ptr(#[trigger] code.literals@[k]),
        ensures
            final(self).wf(),
            final(self).extends(old(self)),
            index == old(self).objects@.len(),
            final(self).objects@ == old(self).objects@.push(Object::ByteCode(code)),
            final(self).syms == old(self).syms,
            final(self).is_bytecode(index as int),
    {
        let ghost old_mem = *self;
        let index = self.push_object(Object::ByteCode(code));
        proof {
            assert forall|k: int| 0 <= k < code.literals@.len() implies self.valid_ptr(#[trigger] code.literals@[k])
                && ptr_rank(code.literals@[k]) < index + 1 by {
                old_mem.lemma_rank_bound(code.literals@[k]);
                self.lemma_valid_extends(&old_mem, code.literals@[k]);
            }
            self.lemma_push_wf(&old_mem);
        }
        index
    }

    /// Write a function object into managed memory and return the pointer to it
    pub fn alloc_function(&mut self, f: Function) -> (p: TaggedPtr)
        requires
            old(self).wf(),
            old(self).is_bytecode(f.code as int),
            f.param_names.wf(),
            forall|k: int| 0 <= k < f.param_names@.len() ==> old(self).valid_ptr(#[trigger] f.param_names@[k]),
            f.arity == f.param_names@.len(),
            f.name is Nil || f.name is Symbol,
            old(self).valid_ptr(f.name),
        ensures
            final(self).wf(),
            final(self).extends(old(self)),
            p is Function && p->Function_0 == old(self).objects@.len(),
            final(self).valid_ptr(p),
            final(self).objects@ == old(self).objects@.push(Object::Function(f)),
            final(self).syms == old(self).syms,
    {
        let ghost old_mem = *self;
        let index = self.push_object(Object::Function(f));
        proof {
            assert forall|k: int| 0 <= k < f.param_names@.len() implies self.valid_ptr(#[trigger] f.param_names@[k])
                && ptr_rank(f.param_names@[k]) < index + 1 by {
                old_mem.lemma_rank_bound(f.param_names@[k]);
                self.lemma_valid_extends(&old_mem, f.param_names@[k]);
            }
            self.lemma_valid_extends(&old_mem, f.name);
            assert(self.objects@[f.code as int] == old_mem.objects@[f.code as int]);
            self.lemma_push_wf(&old_mem);
        }
        TaggedPtr::Function(index)
    }

    /// Write a partial application object into managed memory and return the pointer to it
    pub fn alloc_partial(&mut self, p: Partial) -> (r: TaggedPtr)
        requires
            old(self).wf(),
            old(self).valid_ptr(TaggedPtr::Function(p.func)),
            p.args.wf(),
            forall|k: int| 0 <= k < p.args@.len() ==> old(self).valid_ptr(#[trigger] p.args@[k]),
            p.used == p.args@.len(),
            p.arity + p.used == old(self).function_at(p.func as int).arity,
        ensures
            final(self).wf(),
            final(self).extends(old(self)),
            r is Partial && r->Partial_0 == old(self).objects@.len(),
            final(self).valid_ptr(r),
            final(self).objects@ == old(self).objects@.push(Object::Partial(p)),
            final(self).syms == old(self).syms,
    {
        let ghost old_mem = *self;
        let index = self.push_object(Object::Partial(p));
        proof {
            assert forall|k: int| 0 <= k < p.args@.len() implies self.valid_ptr(#[trigger] p.args@[k])
                && ptr_rank(p.args@[k]) < index + 1 by {
                old_mem.lemma_rank_bound(p.args@[k]);
                self.lemma_valid_extends(&old_mem, p.args@[k]);
            }
            assert(self.objects@[p.func as int] == old_mem.objects@[p.func as int]);
            self.lemma_push_wf(&old_mem);
        }
        TaggedPtr::Partial(index)
    }

    /// Read the byte code at the given address
    pub fn get_bytecode(&self, i: usize) -> (b: &ByteCode)
        requires
            self.is_bytecode(i as int),
        ensures
            *b == self.bytecode_at(i as int),
    {
        match &self.objects[i] {
            Object::ByteCode(b) => b,
            _ => vstd::pervasive::unreached(),
        }
    }

    /// Read the function at the given address
    pub fn get_function(&self, i: usize) -> (f: &Function)
        requires
            self.valid_ptr(TaggedPtr::Function(i)),
        ensures
            *f == self.function_at(i as int),
    {
        match &self.objects[i] {
            Object::Function(f) => f,
            _ => vstd::pervasive::unreached(),
        }
    }

    /// Read the partial application at the given address
    pub fn get_partial(&self, i: usize) -> (p: &Partial)
        requires
            self.valid_ptr(TaggedPtr::Partial(i)),
        ensures
            *p == self.partial_at(i as int),
    {
        match &self.objects[i] {
            Object::Partial(p) => p,
            _ => vstd::pervasive::unreached(),
        }
    }
}

/// Whether two values are equal: nil to nil, numbers by value, symbols
/// (interned, so by address), functions and partial applications by
/// address, and pairs by their contents
pub fn values_equal(mem: &Memory, a: TaggedPtr, b: TaggedPtr) -> (r: bool)
    requires
        mem.wf(),
        mem.valid_ptr(a),
        mem.valid_ptr(b),
    ensures
        r == (mem.tree(a) == mem.tree(b)),
    decreases ptr_rank(a),
{
    match (a, b) {
        (TaggedPtr::Nil, TaggedPtr::Nil) => true,
        (TaggedPtr::Number(x), TaggedPtr::Number(y)) => x == y,
        (TaggedPtr::Symbol(i), TaggedPtr::Symbol(j)) => {
            proof {
                if mem.syms@[i as int] == mem.syms@[j as int] {
                    assert(mem.syms@.no_duplicates());
                }
            }
            i == j
        },
        (TaggedPtr::Function(i), TaggedPtr::Function(j)) => i == j,
        (TaggedPtr::Partial(i), TaggedPtr::Partial(j)) => i == j,
        (TaggedPtr::Pair(i), TaggedPtr::Pair(j)) => {
            let pa = mem.get_pair(i);
            let pb = mem.get_pair(j);
            proof {
                assert(mem.object_wf(i as int));
                assert(mem.object_wf(j as int));
                mem.lemma_tree_pair(i);
                mem.lemma_tree_pair(j);
            }
            values_equal(mem, pa.first, pb.first) && values_equal(mem, pa.second, pb.second)
        },
        _ => false,
    }
}

} // verus!
