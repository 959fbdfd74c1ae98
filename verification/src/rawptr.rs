use vstd::prelude::*;

verus! {

/// The address of an object in managed memory: the number of the slot that
/// holds the object in the memory's table for the object's type.
#[derive(Copy, Clone, Debug, PartialEq, Eq)]
pub struct RawPtr {
    raw: usize,
}

impl View for RawPtr {
    type V = nat;

    closed spec fn view(&self) -> nat {
        self.raw as nat
    }
}

impl RawPtr {
    /// An address fits in a usize
    pub proof fn lemma_bound(&self)
        ensures
            self@ <= usize::MAX,
    {
    }

    /// From a bare address
    pub fn from_bare(object: usize) -> (p: RawPtr)
        ensures
            p@ == object,
    {
        RawPtr { raw: object }
    }

    /// To a bare address
    pub fn to_bare(&self) -> (a: usize)
        ensures
            a == self@,
    {
        self.raw
    }
}

} // verus!
