use std::hash::Hasher;

use evalrus::dict::{symbol_hash, Dict};
use evalrus::error::ErrorKind;
use evalrus::memory::Memory;
use evalrus::pair::Pair;

#[test]
fn dict_assoc_lookup() {
    let mut mem = Memory::new();
    let mut dict = Dict::with_capacity(256);

    let key = mem.lookup_sym("foo");
    let val = mem.lookup_sym("bar");

    dict.assoc(&mem, key, val).unwrap();

    let lookup = dict.lookup(&mem, key).unwrap();

    assert!(lookup == val);
}

#[test]
fn dict_lookup_fail() {
    let mut mem = Memory::new();
    let dict = Dict::with_capacity(256);

    let key = mem.lookup_sym("foo");

    let lookup = dict.lookup(&mem, key);

    match lookup {
        Ok(_) => panic!("Key should not have been found!"),
        Err(e) => assert!(*e.error_kind() == ErrorKind::KeyError),
    }
}

#[test]
fn dict_dissoc_lookup() {
    let mut mem = Memory::new();
    let mut dict = Dict::with_capacity(256);

    let key = mem.lookup_sym("foo");
    let val = mem.lookup_sym("bar");

    dict.assoc(&mem, key, val).unwrap();

    let value = dict.lookup(&mem, key).unwrap();
    assert!(value == val);

    let value = dict.dissoc(&mem, key).unwrap();
    assert!(value == val);

    let result = dict.lookup(&mem, key);
    match result {
        Ok(_) => panic!("Key should not have been found!"),
        Err(e) => assert!(*e.error_kind() == ErrorKind::KeyError),
    }
}

#[test]
fn dict_assoc_lookup_256_in_capacity_256() {
    let mut mem = Memory::new();
    let mut dict = Dict::with_capacity(256);

    for num in 0..256 {
        let key_name = format!("foo_{}", num);
        let key = mem.lookup_sym(&key_name);

        let val_name = format!("val_{}", num);
        let val = mem.lookup_sym(&val_name);

        dict.assoc(&mem, key, val).unwrap();
    }

    for num in 0..100 {
        let key_name = format!("foo_{}", num);
        let key = mem.lookup_sym(&key_name);

        let val_name = format!("val_{}", num);
        let val = mem.lookup_sym(&val_name);

        assert!(dict.key_exists(&mem, key).unwrap());

        let lookup = dict.lookup(&mem, key).unwrap();

        assert!(lookup == val);
    }
}

#[test]
fn dict_unhashable() {
    let mut mem = Memory::new();
    let mut dict = Dict::with_capacity(256);

    // a Pair type does not implement Hashable
    let key = mem.alloc_pair(Pair::new());
    let val = mem.lookup_sym("bar");

    let result = dict.assoc(&mem, key, val);

    match result {
        Ok(_) => panic!("Key should not have been found!"),
        Err(e) => assert!(*e.error_kind() == ErrorKind::UnhashableError),
    }
}

#[test]
fn dict_symbol_hash_is_fnv_of_str_hash_bytes() {
    let mut mem = Memory::new();
    let key = mem.lookup_sym("foo");
    let mut hasher = fnv::FnvHasher::default();
    hasher.write(b"foo");
    hasher.write_u8(0xff);
    assert_eq!(symbol_hash(&mem, key), hasher.finish());
    assert!(symbol_hash(&mem, key) != 0xcbf29ce484222325);
}

#[test]
fn dict_without_storage_is_a_bounds_error() {
    let mut mem = Memory::new();
    let mut dict = Dict::new();
    let key = mem.lookup_sym("foo");
    match dict.assoc(&mem, key, key) {
        Ok(_) => panic!("a dict with no storage has no slot"),
        Err(e) => assert!(*e.error_kind() == ErrorKind::BoundsError),
    }
    assert_eq!(dict.length(), 0);
}

#[test]
fn dict_full_table_is_a_bounds_error() {
    let mut mem = Memory::new();
    let mut dict = Dict::with_capacity(2);
    let a = mem.lookup_sym("a");
    let b = mem.lookup_sym("b");
    let c = mem.lookup_sym("c");
    dict.assoc(&mem, a, a).unwrap();
    dict.assoc(&mem, b, b).unwrap();
    assert_eq!(dict.length(), 2);
    match dict.assoc(&mem, c, c) {
        Ok(_) => panic!("a full table has no slot for a new key"),
        Err(e) => assert!(*e.error_kind() == ErrorKind::BoundsError),
    }
}

#[test]
fn dict_assoc_replaces_and_counts() {
    let mut mem = Memory::new();
    let mut dict = Dict::with_capacity(16);
    let k = mem.lookup_sym("k");
    let v1 = mem.lookup_sym("v1");
    let v2 = mem.lookup_sym("v2");
    dict.assoc(&mem, k, v1).unwrap();
    dict.assoc(&mem, k, v2).unwrap();
    assert_eq!(dict.length(), 1);
    assert!(dict.lookup(&mem, k).unwrap() == v2);
    dict.dissoc(&mem, k).unwrap();
    assert_eq!(dict.length(), 0);
    assert!(!dict.key_exists(&mem, k).unwrap());
    match dict.dissoc(&mem, k) {
        Ok(_) => panic!("the key was removed"),
        Err(e) => assert!(*e.error_kind() == ErrorKind::KeyError),
    }
    dict.assoc(&mem, k, v1).unwrap();
    dict.clear();
    assert_eq!(dict.length(), 0);
    assert!(!dict.key_exists(&mem, k).unwrap());
}

#[test]
fn dict_dissoc_keeps_keys_that_probed_past_it() {
    let mut mem = Memory::new();
    let names = ["a", "b", "c", "d", "e", "f"];
    let keys: Vec<_> = names.iter().map(|n| mem.lookup_sym(n)).collect();
    // a small table, so that keys share slots and probe past each other
    for removed in 0..keys.len() {
        let mut dict = Dict::with_capacity(8);
        for (i, key) in keys.iter().enumerate() {
            dict.assoc(&mem, *key, keys[(i + 1) % keys.len()]).unwrap();
        }
        let n = dict.length();
        assert!(dict.dissoc(&mem, keys[removed]).unwrap() == keys[(removed + 1) % keys.len()]);
        assert_eq!(dict.length(), n - 1);
        match dict.lookup(&mem, keys[removed]) {
            Ok(_) => panic!("a removed key should not be found"),
            Err(e) => assert!(*e.error_kind() == ErrorKind::KeyError),
        }
        assert_eq!(dict.key_exists(&mem, keys[removed]).unwrap(), false);
        for (i, key) in keys.iter().enumerate() {
            if i != removed {
                assert!(dict.lookup(&mem, *key).unwrap() == keys[(i + 1) % keys.len()]);
            }
        }
        // bind the removed key again
        dict.assoc(&mem, keys[removed], keys[removed]).unwrap();
        assert!(dict.lookup(&mem, keys[removed]).unwrap() == keys[removed]);
        assert_eq!(dict.length(), n);
    }
}

#[test]
fn dict_only_the_bound_key_is_found() {
    let mut mem = Memory::new();
    let mut dict = Dict::with_capacity(4);
    let a = mem.lookup_sym("a");
    let b = mem.lookup_sym("b");
    dict.assoc(&mem, a, a).unwrap();
    match dict.lookup(&mem, b) {
        Ok(_) => panic!("an unbound key should not be found"),
        Err(e) => assert!(*e.error_kind() == ErrorKind::KeyError),
    }
    assert_eq!(dict.key_exists(&mem, b).unwrap(), false);
    assert_eq!(dict.key_exists(&mem, a).unwrap(), true);
}

#[test]
fn dict_dissoc_leaves_the_other_association() {
    let mut mem = Memory::new();
    let mut dict = Dict::with_capacity(256);
    let k1 = mem.lookup_sym("k1");
    let k2 = mem.lookup_sym("k2");
    let v1 = mem.lookup_sym("v1");
    let v2 = mem.lookup_sym("v2");
    dict.assoc(&mem, k1, v1).unwrap();
    dict.assoc(&mem, k2, v2).unwrap();
    let n = dict.length();
    assert!(dict.dissoc(&mem, k1).unwrap() == v1);
    assert_eq!(dict.length(), n - 1);
    match dict.lookup(&mem, k1) {
        Ok(_) => panic!("a removed key should not be found"),
        Err(e) => assert!(*e.error_kind() == ErrorKind::KeyError),
    }
    assert!(dict.lookup(&mem, k2).unwrap() == v2);
}
