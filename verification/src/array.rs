use vstd::prelude::*;

use crate::error::{ErrorKind, ErrorKindView, RuntimeError};
use crate::rawarray::{default_array_growth, spec_array_growth, ArraySize, RawArray};

verus! {

/// A growable array, like Vec: a length and a backing `RawArray` whose first
/// `length` slots hold the items.
pub struct Array<T> {
    length: ArraySize,
    data: RawArray<T>,
}

/// Is this the error that an out-of-bounds access gives
pub open spec fn is_bounds_error(e: RuntimeError) -> bool {
    e@.kind == ErrorKindView::BoundsError && e@.pos is None
}

impl<T: Copy> View for Array<T> {
    type V = Seq<T>;

    closed spec fn view(&self) -> Seq<T> {
        Seq::new(self.length as nat, |i: int| self.data.slots()[i]->0)
    }
}

impl<T: Copy> Array<T> {
    /// Well-formedness: the first `length` slots of the storage are written
    pub closed spec fn wf(&self) -> bool {
        &&& self.data.wf()
        &&& self.length <= self.data.spec_capacity()
        &&& forall|i: int| 0 <= i < self.length ==> (#[trigger] self.data.slots()[i]) is Some
    }

    /// The number of items the storage can hold before it must grow
    pub closed spec fn spec_capacity(&self) -> nat {
        self.data.spec_capacity()
    }

    /// The capacity after pushing one more item
    pub open spec fn capacity_after_push(&self) -> nat {
        if self@.len() == self.spec_capacity() {
            spec_array_growth(self.spec_capacity())
        } else {
            self.spec_capacity()
        }
    }

    /// Whether pushing one more item needs more capacity than an `ArraySize` can count
    pub open spec fn push_overflows(&self) -> bool {
        self.capacity_after_push() > ArraySize::MAX
    }

    pub proof fn lemma_wf_len(&self)
        requires
            self.wf(),
        ensures
            self@.len() <= self.spec_capacity(),
            self.spec_capacity() <= ArraySize::MAX,
    {
        self.data.lemma_capacity_bound();
    }

    /// Pushing onto an array of fewer than 2^31 items never needs more
    /// capacity than an `ArraySize` can count
    pub proof fn lemma_push_fits(&self)
        requires
            self.wf(),
            self@.len() < 0x8000_0000,
        ensures
            !self.push_overflows(),
    {
        self.data.lemma_capacity_bound();
    }

    /// Create a new, empty array with no storage
    pub fn new() -> (a: Array<T>)
        ensures
            a.wf(),
            a@ == Seq::<T>::empty(),
            a.spec_capacity() == 0,
    {
        let a = Array { length: 0, data: RawArray::new() };
        assert(a@ =~= Seq::<T>::empty());
        a
    }

    /// Create a new, empty array with the given capacity
    pub fn with_capacity(capacity: ArraySize) -> (a: Array<T>)
        ensures
            a.wf(),
            a@ == Seq::<T>::empty(),
            a.spec_capacity() == capacity,
    {
        let a = Array { length: 0, data: RawArray::with_capacity(capacity) };
        assert(a@ =~= Seq::<T>::empty());
        a
    }

    /// Count of items in the array
    pub fn length(&self) -> (n: ArraySize)
        requires
            self.wf(),
        ensures
            n == self@.len(),
    {
        self.length
    }

    /// The capacity of the backing storage
    pub fn capacity(&self) -> (n: ArraySize)
        requires
            self.wf(),
        ensures
            n == self.spec_capacity(),
    {
        self.data.capacity()
    }

    /// Reset the length of the array to zero, keeping its storage
    pub fn clear(&mut self)
        requires
            old(self).wf(),
        ensures
            final(self).wf(),
            final(self)@ == Seq::<T>::empty(),
            final(self).spec_capacity() == old(self).spec_capacity(),
    {
        self.length = 0;
        assert(self@ =~= Seq::<T>::empty());
    }

    /// Push an item to the back of the array, growing the storage where it is full
    pub fn push(&mut self, item: T) -> (r: Result<(), RuntimeError>)
        requires
            old(self).wf(),
        ensures
            final(self).wf(),
            r is Ok <==> !old(self).push_overflows(),
            r is Ok ==> final(self)@ == old(self)@.push(item) && final(self).spec_capacity()
                == old(self).capacity_after_push(),
            r matches Err(e) ==> e@.kind == ErrorKindView::BadAllocation && e@.pos is None
                && final(self)@ == old(self)@,
    {
        let length = self.length;
        let capacity = self.data.capacity();
        proof {
            self.data.lemma_capacity_bound();
        }
        if length == capacity {
            let new_capacity = match default_array_growth(capacity) {
                Ok(c) => c,
                Err(e) => {
                    return Err(e);
                },
            };
            self.data.resize(new_capacity);
        }
        let ghost mid = self.data.slots();
        proof {
            self.data.lemma_capacity_bound();
            old(self).data.lemma_capacity_bound();
        }
        assert(forall|i: int| 0 <= i < length ==> (#[trigger] mid[i]) == old(self).data.slots()[i]);
        self.length = length + 1;
        self.data.write(length, item);
        assert forall|i: int| 0 <= i < self.length implies (#[trigger] self.data.slots()[i]) is Some by {
            if i < length {
                assert(self.data.slots()[i] == mid[i]);
            }
        }
        assert(self@ =~= old(self)@.push(item));
        Ok(())
    }

    /// Remove and return the last item, or a bounds error where the array is empty
    pub fn pop(&mut self) -> (r: Result<T, RuntimeError>)
        requires
            old(self).wf(),
        ensures
            final(self).wf(),
            final(self).spec_capacity() == old(self).spec_capacity(),
            old(self)@.len() == 0 ==> (r matches Err(e) && is_bounds_error(e)) && final(self)@
                == old(self)@,
            old(self)@.len() > 0 ==> r == Ok::<T, RuntimeError>(old(self)@.last()) && final(self)@ == old(self)@.drop_last(),
    {
        if self.length == 0 {
            Err(RuntimeError::new(ErrorKind::BoundsError))
        } else {
            let last = self.length - 1;
            let item = self.data.read(last).unwrap();
            self.length = last;
            assert(self@ =~= old(self)@.drop_last());
            Ok(item)
        }
    }

    /// Return the last item without removing it, or a bounds error where the array is empty
    pub fn top(&self) -> (r: Result<T, RuntimeError>)
        requires
            self.wf(),
        ensures
            self@.len() == 0 ==> (r matches Err(e) && is_bounds_error(e)),
            self@.len() > 0 ==> r == Ok::<T, RuntimeError>(self@.last()),
    {
        if self.length == 0 {
            Err(RuntimeError::new(ErrorKind::BoundsError))
        } else {
            Ok(self.data.read(self.length - 1).unwrap())
        }
    }

    /// Return a copy of the item at the given index. Bounds-checked.
    pub fn get(&self, index: ArraySize) -> (r: Result<T, RuntimeError>)
        requires
            self.wf(),
        ensures
            index < self@.len() ==> r == Ok::<T, RuntimeError>(self@[index as int]),
            index >= self@.len() ==> (r matches Err(e) && is_bounds_error(e)),
    {
        if index >= self.length {
            Err(RuntimeError::new(ErrorKind::BoundsError))
        } else {
            Ok(self.data.read(index).unwrap())
        }
    }

    /// Move an item into the array at the given index. Bounds-checked.
    pub fn set(&mut self, index: ArraySize, item: T) -> (r: Result<(), RuntimeError>)
        requires
            old(self).wf(),
        ensures
            final(self).wf(),
            final(self).spec_capacity() == old(self).spec_capacity(),
            index < old(self)@.len() ==> r is Ok && final(self)@ == old(self)@.update(
                index as int,
                item,
            ),
            index >= old(self)@.len() ==> (r matches Err(e) && is_bounds_error(e)) && final(self)@ == old(self)@,
    {
        if index >= self.length {
            Err(RuntimeError::new(ErrorKind::BoundsError))
        } else {
            self.data.write(index, item);
            proof {
                old(self).data.lemma_capacity_bound();
            }
            assert forall|i: int| 0 <= i < self.length implies (#[trigger] self.data.slots()[i]) is Some by {
                if i != index {
                    assert(self.data.slots()[i] == old(self).data.slots()[i]);
                }
            }
            assert(self@ =~= old(self)@.update(index as int, item));
            Ok(())
        }
    }

    /// Push copies of `item` until the array holds at least `size` items
    pub fn fill(&mut self, size: ArraySize, item: T) -> (r: Result<(), RuntimeError>)
        requires
            old(self).wf(),
        ensures
            final(self).wf(),
            r is Ok ==> final(self)@ == old(self)@ + Seq::new(
                (if size > old(self)@.len() {
                    size - old(self)@.len()
                } else {
                    0
                }) as nat,
                |i: int| item,
            ),
            r matches Err(e) ==> e@.kind == ErrorKindView::BadAllocation,
            size < 0x8000_0000 ==> r is Ok,
    {
        let ghost start = self@;
        while self.length < size
            invariant
                self.wf(),
                start.len() <= self@.len() <= (if size > start.len() {
                    size as nat
                } else {
                    start.len()
                }),
                self@ == start + Seq::new((self@.len() - start.len()) as nat, |i: int| item),
            decreases size - self@.len(),
        {
            let ghost before = self@;
            proof {
                if size < 0x8000_0000 {
                    self.lemma_push_fits();
                }
            }
            match self.push(item) {
                Ok(()) => {},
                Err(e) => {
                    return Err(e);
                },
            }
            assert(self@ =~= start + Seq::new((self@.len() - start.len()) as nat, |i: int| item));
        }
        assert(self@ =~= start + Seq::new(
            (if size > start.len() {
                size - start.len()
            } else {
                0
            }) as nat,
            |i: int| item,
        ));
        Ok(())
    }
}

} // verus!
