//! A key and its value.
use vstd::prelude::*;

verus! {

/// A key and the value stored under it.
#[derive(Clone, Debug)]
pub struct Pair<K, V> {
    pub key: K,
    pub value: V,
}

impl<K, V> Pair<K, V> {
    /// The pair of `key` and `value`.
    pub fn new(key: K, value: V) -> (p: Self)
        ensures
            p.key == key,
            p.value == value,
    {
        Pair { key, value }
    }
}

} // verus!
