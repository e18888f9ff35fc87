//! The hash function of the map's keys.
use vstd::prelude::*;

use crate::text::{chars_of, dec};

verus! {

/// A hash of a key, which depends on the key's view alone, so that keys with
/// equal views land in the same bucket.
pub trait JacobHash: View {
    /// The hash of a key whose view is `key`.
    spec fn hash_of(key: Self::V) -> usize;

    /// The hash of this key.
    fn jacob_hash(&self) -> (h: usize)
        ensures
            h == Self::hash_of(self@),
    ;
}

/// Starting from `seed`, each character `c` of `s` in turn makes the hash
/// `(h + c) * c`, both wrapping at the width of `usize`.
pub open spec fn chars_hash(seed: usize, s: Seq<char>) -> usize
    decreases s.len(),
{
    if s.len() == 0 {
        seed
    } else {
        let h = chars_hash(seed, s.drop_last());
        let c = s.last() as usize;
        h.wrapping_add(c).wrapping_mul(c)
    }
}

/// `chars_hash(seed, s)`.
pub fn hash_chars(seed: usize, s: &str) -> (h: usize)
    ensures
        h == chars_hash(seed, s@),
{
    let v = chars_of(s);
    let mut hashed: usize = seed;
    let mut i: usize = 0;
    while i < v.len()
        invariant
            v@ == s@,
            i <= v.len(),
            hashed == chars_hash(seed, v@.take(i as int)),
        decreases v.len() - i,
    {
        assert(v@.take(i + 1).drop_last() =~= v@.take(i as int));
        let c: usize = v[i] as usize;
        hashed = hashed.wrapping_add(c);
        hashed = hashed.wrapping_mul(c);
        i += 1;
    }
    assert(v@.take(v.len() as int) =~= v@);
    hashed
}

impl<'a> JacobHash for &'a str {
    open spec fn hash_of(key: Seq<char>) -> usize {
        chars_hash(13, key)
    }

    fn jacob_hash(&self) -> (h: usize) {
        hash_chars(13, *self)
    }
}

impl<'a> JacobHash for &'a String {
    open spec fn hash_of(key: Seq<char>) -> usize {
        chars_hash(13, key)
    }

    fn jacob_hash(&self) -> (h: usize) {
        hash_chars(13, self.as_str())
    }
}

impl JacobHash for String {
    open spec fn hash_of(key: Seq<char>) -> usize {
        chars_hash(13, key)
    }

    fn jacob_hash(&self) -> (h: usize) {
        hash_chars(13, self.as_str())
    }
}

/// `i` in decimal, with a leading `'-'` when negative (`i32::to_string`).
pub open spec fn int_dec(i: int) -> Seq<char> {
    if i < 0 {
        seq!['-'] + dec((-i) as nat)
    } else {
        dec(i as nat)
    }
}

impl JacobHash for i32 {
    open spec fn hash_of(key: i32) -> usize {
        chars_hash(42069, int_dec(key as int))
    }

    fn jacob_hash(&self) -> (h: usize) {
        let x: i32 = *self;
        let mut s = String::new();
        let mag: u64 = if x < 0 {
            crate::text::push_char(&mut s, '-');
            (-(x as i64)) as u64
        } else {
            x as u64
        };
        let digits = crate::text::radix_chars(mag, 10);
        let d = crate::text::string_of(&digits);
        crate::text::push_str(&mut s, d.as_str());
        assert(s@ =~= int_dec(x as int));
        hash_chars(42069, s.as_str())
    }
}

} // verus!
