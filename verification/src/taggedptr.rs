use vstd::prelude::*;

use crate::rawptr::RawPtr;

verus! {

/// A pointer to a value: either an inline value (nil or an integer) or the
/// address of an object in managed memory together with the object's type.
#[derive(Copy, Clone, Debug, PartialEq, Eq, Structural)]
pub enum TaggedPtr {
    Nil,
    Number(isize),
    Symbol(usize),
    Pair(usize),
    Function(usize),
    Partial(usize),
}

impl TaggedPtr {
    /// Construct a nil TaggedPtr
    pub fn nil() -> (p: TaggedPtr)
        ensures
            p == TaggedPtr::Nil,
    {
        TaggedPtr::Nil
    }

    /// Construct an inline integer TaggedPtr
    pub fn number(value: isize) -> (p: TaggedPtr)
        ensures
            p == TaggedPtr::Number(value),
    {
        TaggedPtr::Number(value)
    }

    /// Construct a Symbol TaggedPtr
    pub fn symbol(ptr: RawPtr) -> (p: TaggedPtr)
        ensures
            p == TaggedPtr::Symbol(ptr@ as usize),
    {
        TaggedPtr::Symbol(ptr.to_bare())
    }

    /// Construct a Pair TaggedPtr
    pub fn pair(ptr: RawPtr) -> (p: TaggedPtr)
        ensures
            p == TaggedPtr::Pair(ptr@ as usize),
    {
        TaggedPtr::Pair(ptr.to_bare())
    }

    /// Return true if the pointer is nil
    pub fn is_nil(&self) -> (b: bool)
        ensures
            b == (*self == TaggedPtr::Nil),
    {
        match self {
            TaggedPtr::Nil => true,
            _ => false,
        }
    }
}

} // verus!
