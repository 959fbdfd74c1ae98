use vstd::prelude::*;
use vstd::string::StringExecFns;

use crate::rawptr::RawPtr;

verus! {

/// A Symbol is a unique object that has a unique name string. See `SymbolMap`:
/// there is never more than one Symbol with a given name.
pub struct Symbol {
    name: String,
}

impl View for Symbol {
    type V = Seq<char>;

    closed spec fn view(&self) -> Seq<char> {
        self.name@
    }
}

impl Symbol {
    /// A Symbol with the given name
    pub fn new(name: &str) -> (s: Symbol)
        ensures
            s@ == name@,
    {
        Symbol { name: String::from_str(name) }
    }

    /// The name of the Symbol
    pub fn as_str(&self) -> (s: &str)
        ensures
            s@ == self@,
    {
        self.name.as_str()
    }

    fn name_eq(&self, name: &String) -> (b: bool)
        ensures
            b == (self@ == name@),
    {
        self.name == *name
    }
}

/// A mapping of symbol names to Symbol addresses, interning names: the
/// address of a Symbol is its position in the table, and each name occurs once.
/// No Symbol is ever deleted.
pub struct SymbolMap {
    syms: Vec<Symbol>,
}

impl View for SymbolMap {
    type V = Seq<Seq<char>>;

    closed spec fn view(&self) -> Seq<Seq<char>> {
        self.syms@.map_values(|s: Symbol| s@)
    }
}

impl SymbolMap {
    /// Well-formedness: no name occurs twice
    pub open spec fn wf(&self) -> bool {
        self@.no_duplicates()
    }

    /// An empty symbol table
    pub fn new() -> (m: SymbolMap)
        ensures
            m.wf(),
            m@ == Seq::<Seq<char>>::empty(),
    {
        let m = SymbolMap { syms: Vec::new() };
        assert(m@ =~= Seq::<Seq<char>>::empty());
        m
    }

    /// The number of Symbols
    pub fn len(&self) -> (n: usize)
        ensures
            n == self@.len(),
    {
        self.syms.len()
    }

    /// Get the address of the Symbol with the given name, adding the Symbol
    /// to the table where there is none yet.
    pub fn lookup(&mut self, name: &str) -> (p: RawPtr)
        requires
            old(self).wf(),
        ensures
            final(self).wf(),
            p@ < final(self)@.len(),
            final(self)@[p@ as int] == name@,
            old(self)@.contains(name@) ==> final(self)@ == old(self)@,
            !old(self)@.contains(name@) ==> final(self)@ == old(self)@.push(name@),
    {
        let name_string = String::from_str(name);
        let mut i: usize = 0;
        while i < self.syms.len()
            invariant
                0 <= i <= self.syms@.len(),
                name_string@ == name@,
                forall|j: int| 0 <= j < i ==> self@[j] != name@,
                self.wf(),
                self@ == old(self)@,
            decreases self.syms@.len() - i,
        {
            if self.syms[i].name_eq(&name_string) {
                assert(self@[i as int] == name@);
                assert(old(self)@.contains(name@));
                return RawPtr::from_bare(i);
            }
            i = i + 1;
        }
        let ghost old_view = self@;
        self.syms.push(Symbol::new(name));
        assert(self@ =~= old_view.push(name@));
        assert(!old_view.contains(name@));
        RawPtr::from_bare(i)
    }

    /// The name of the Symbol at the given address
    pub fn name(&self, p: RawPtr) -> (s: &str)
        requires
            p@ < self@.len(),
        ensures
            s@ == self@[p@ as int],
    {
        self.syms[p.to_bare()].as_str()
    }
}

/// Looking a name up twice gives the same Symbol; the table is unchanged by the
/// second lookup.
pub proof fn lemma_lookup_interns(m: SymbolMap, name: Seq<char>, p: nat, q: nat)
    requires
        m.wf(),
        p < m@.len(),
        q < m@.len(),
        m@[p as int] == name,
        m@[q as int] == name,
    ensures
        p == q,
{
}

} // verus!
