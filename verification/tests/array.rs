use evalrus::array::Array;
use evalrus::error::ErrorKind;
use evalrus::memory::Memory;
use evalrus::pair::Pair;
use evalrus::rawarray::{default_array_growth, RawArray};
use evalrus::taggedptr::TaggedPtr;

#[test]
fn array_generic_push_and_pop() {
    let mut array: Array<i64> = Array::new();

    for i in 0..1000 {
        array.push(i).unwrap();
    }

    for i in 0..1000 {
        assert!(array.pop().unwrap() == 999 - i);
    }
}

#[test]
fn array_generic_indexing() {
    let mut array: Array<i64> = Array::new();

    for i in 0..12 {
        array.push(i).unwrap();
    }

    assert!(array.get(0) == Ok(0));
    assert!(array.get(4) == Ok(4));

    for i in 12..1000 {
        match array.get(i) {
            Ok(_) => panic!("Array index should have been out of bounds!"),
            Err(e) => assert!(*e.error_kind() == ErrorKind::BoundsError),
        }
    }
}

#[test]
fn arrayany_tagged_pointers() {
    let mut mem = Memory::new();
    let mut array: Array<TaggedPtr> = Array::new();

    for _ in 0..12 {
        array.push(mem.nil()).unwrap();
    }

    // or by copy/clone
    let pair = mem.alloc_pair(Pair::new());

    array.set(3, pair).unwrap();
    assert!(array.get(3).unwrap() == pair);
}

#[test]
fn array_with_capacity_and_realloc() {
    let mut array: Array<TaggedPtr> = Array::with_capacity(256);

    let capacity_before = array.capacity();

    // fill to capacity
    for _ in 0..256 {
        array.push(TaggedPtr::Nil).unwrap();
    }

    let capacity_after = array.capacity();

    // array storage shouldn't have been reallocated
    assert!(capacity_before == capacity_after);

    // overflow capacity, requiring reallocation
    array.push(TaggedPtr::Nil).unwrap();

    let capacity_realloc = array.capacity();

    // array storage should have been reallocated
    assert!(capacity_before != capacity_realloc);
}

#[test]
fn array_growth_steps() {
    assert_eq!(default_array_growth(0), Ok(8));
    assert_eq!(default_array_growth(7), Ok(8));
    assert_eq!(default_array_growth(8), Ok(12));
    assert_eq!(default_array_growth(256), Ok(384));
    match default_array_growth(u32::MAX) {
        Ok(_) => panic!("the grown capacity cannot be counted"),
        Err(e) => assert!(*e.error_kind() == ErrorKind::BadAllocation),
    }
    let mut array: Array<u8> = Array::new();
    assert_eq!(array.capacity(), 0);
    array.push(1).unwrap();
    assert_eq!(array.capacity(), 8);
}

#[test]
fn array_pop_top_empty_are_bounds_errors() {
    let mut array: Array<u8> = Array::new();
    match array.pop() {
        Ok(_) => panic!("empty"),
        Err(e) => assert!(*e.error_kind() == ErrorKind::BoundsError),
    }
    match array.top() {
        Ok(_) => panic!("empty"),
        Err(e) => assert!(*e.error_kind() == ErrorKind::BoundsError),
    }
    array.push(5).unwrap();
    assert_eq!(array.top(), Ok(5));
    assert_eq!(array.length(), 1);
    array.clear();
    assert_eq!(array.length(), 0);
}

#[test]
fn array_fill_pads_to_size() {
    let mut array: Array<u8> = Array::new();
    array.push(1).unwrap();
    array.fill(4, 9).unwrap();
    assert_eq!(array.length(), 4);
    assert_eq!(array.get(0), Ok(1));
    assert_eq!(array.get(3), Ok(9));
    array.fill(2, 7).unwrap();
    assert_eq!(array.length(), 4);
}

#[test]
fn rawarray_resize_keeps_contents() {
    let mut raw: RawArray<u8> = RawArray::with_capacity(2);
    raw.write(0, 4);
    raw.resize(4);
    assert_eq!(raw.capacity(), 4);
    assert_eq!(raw.read(0), Some(4));
    assert_eq!(raw.read(3), None);
    raw.resize(0);
    assert_eq!(raw.capacity(), 0);
}
