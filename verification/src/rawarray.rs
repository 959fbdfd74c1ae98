use vstd::prelude::*;

use crate::error::{ErrorKind, ErrorKindView, RuntimeError};

verus! {

/// Type used for array capacities, lengths and indexes
pub type ArraySize = u32;

/// Capacity of an array's first backing storage
pub const DEFAULT_ARRAY_SIZE: ArraySize = 8;

/// The capacity an array grows to from the given capacity: the default
/// capacity from anything smaller, otherwise half as much again.
pub open spec fn spec_array_growth(capacity: nat) -> nat {
    if capacity < DEFAULT_ARRAY_SIZE {
        DEFAULT_ARRAY_SIZE as nat
    } else {
        capacity + capacity / 2
    }
}

/// Compute the next capacity of a growing array, failing with `BadAllocation`
/// where that capacity does not fit in an `ArraySize`.
pub fn default_array_growth(capacity: ArraySize) -> (r: Result<ArraySize, RuntimeError>)
    ensures
        spec_array_growth(capacity as nat) <= ArraySize::MAX ==> r == Ok::<ArraySize, RuntimeError>(
            spec_array_growth(capacity as nat) as ArraySize,
        ),
        spec_array_growth(capacity as nat) > ArraySize::MAX ==> (r matches Err(e) && e@.kind
            == ErrorKindView::BadAllocation && e@.pos is None),
{
    if capacity < DEFAULT_ARRAY_SIZE {
        Ok(DEFAULT_ARRAY_SIZE)
    } else {
        match capacity.checked_add(capacity / 2) {
            Some(c) => Ok(c),
            None => Err(RuntimeError::new(ErrorKind::BadAllocation)),
        }
    }
}

/// Fundamental array type on which other variable-length types are built:
/// a number of storage slots, each either written or not yet written.
pub struct RawArray<T> {
    capacity: ArraySize,
    slots: Vec<Option<T>>,
}

impl<T: Copy> RawArray<T> {
    /// The storage slots
    pub closed spec fn slots(&self) -> Seq<Option<T>> {
        self.slots@
    }

    /// Well-formedness: there is exactly one slot per unit of capacity
    pub closed spec fn wf(&self) -> bool {
        self.slots@.len() == self.capacity as nat
    }

    /// The capacity of the array
    pub closed spec fn spec_capacity(&self) -> nat {
        self.capacity as nat
    }

    pub proof fn lemma_capacity_bound(&self)
        ensures
            self.spec_capacity() <= ArraySize::MAX,
            self.wf() ==> self.slots().len() == self.spec_capacity(),
    {
    }

    /// Return a RawArray of capacity 0 with no storage
    pub fn new() -> (r: RawArray<T>)
        ensures
            r.wf(),
            r.spec_capacity() == 0,
    {
        RawArray { capacity: 0, slots: Vec::new() }
    }

    /// Return the capacity of the array
    pub fn capacity(&self) -> (c: ArraySize)
        ensures
            c as nat == self.spec_capacity(),
    {
        self.capacity
    }

    /// Return a RawArray with the given number of blank slots
    pub fn with_capacity(capacity: ArraySize) -> (r: RawArray<T>)
        ensures
            r.wf(),
            r.spec_capacity() == capacity,
            forall|i: int| 0 <= i < capacity ==> r.slots()[i] is None,
    {
        let mut slots: Vec<Option<T>> = Vec::new();
        let mut i: ArraySize = 0;
        while i < capacity
            invariant
                i <= capacity,
                slots@.len() == i,
                forall|j: int| 0 <= j < i ==> slots@[j] is None,
            decreases capacity - i,
        {
            slots.push(None);
            i = i + 1;
        }
        RawArray { capacity, slots }
    }

    /// Resize the storage to the new capacity, keeping the contents of the
    /// slots that both the old and the new storage have.
    pub fn resize(&mut self, new_capacity: ArraySize)
        requires
            old(self).wf(),
        ensures
            final(self).wf(),
            final(self).spec_capacity() == new_capacity,
            forall|i: int|
                0 <= i < new_capacity ==> #[trigger] final(self).slots()[i] == (if i < old(self).spec_capacity() {
                    old(self).slots()[i]
                } else {
                    None
                }),
    {
        // If we're reducing the capacity to 0, simply detach the storage
        if new_capacity == 0 {
            self.capacity = 0;
            self.slots = Vec::new();
            return ;
        }
        if self.capacity > 0 {
            // create new capacity and copy over the contents of the old storage
            let mut new_slots: Vec<Option<T>> = Vec::new();
            let mut i: ArraySize = 0;
            while i < new_capacity
                invariant
                    i <= new_capacity,
                    self.slots@.len() == self.capacity,
                    new_slots@.len() == i,
                    forall|j: int|
                        0 <= j < i ==> #[trigger] new_slots@[j] == (if j < self.capacity {
                            self.slots@[j]
                        } else {
                            None
                        }),
                decreases new_capacity - i,
            {
                if i < self.capacity {
                    new_slots.push(self.slots[i as usize]);
                } else {
                    new_slots.push(None);
                }
                i = i + 1;
            }
            self.slots = new_slots;
            self.capacity = new_capacity;
        } else {
            // no storage yet: create new blank storage
            *self = Self::with_capacity(new_capacity);
        }
    }

    /// Read the slot at the given index
    pub fn read(&self, index: ArraySize) -> (r: Option<T>)
        requires
            self.wf(),
            index < self.spec_capacity(),
        ensures
            r == self.slots()[index as int],
    {
        self.slots[index as usize]
    }

    /// Write an item into the slot at the given index
    pub fn write(&mut self, index: ArraySize, item: T)
        requires
            old(self).wf(),
            index < old(self).spec_capacity(),
        ensures
            final(self).wf(),
            final(self).spec_capacity() == old(self).spec_capacity(),
            final(self).slots() == old(self).slots().update(index as int, Some(item)),
    {
        self.slots.set(index as usize, Some(item));
    }
}

} // verus!
