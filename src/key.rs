//! Keys that the table can hash and compare.
use std::collections::hash_map::DefaultHasher;
use vstd::prelude::*;
use vstd::std_specs::hash::DefaultHasherAdditionalSpecFns;

verus! {

/// A key type: it is fed to the hasher as a fixed sequence of bytes, and
/// compared by value.
pub trait HashKey: Sized {
    /// The bytes that stand for this key when it is hashed.
    spec fn hash_bytes(&self) -> Seq<u8>;

    /// Returns the bytes that stand for this key.
    fn to_hash_bytes(&self) -> (r: Vec<u8>)
        ensures
            r@ == self.hash_bytes(),
    ;

    /// Tells whether two keys are equal.
    fn same_key(&self, other: &Self) -> (r: bool)
        ensures
            r == (*self == *other),
    ;
}

/// The 64-bit hash of a key: the hasher's digest of the key's bytes.
pub open spec fn spec_hash<K: HashKey>(key: K) -> u64 {
    DefaultHasher::spec_finish(seq![key.hash_bytes()])
}

/// The little-endian bytes of a 32-bit word.
pub open spec fn le_bytes_u32(x: u32) -> Seq<u8> {
    seq![
        (x & 0xff) as u8,
        ((x >> 8u32) & 0xff) as u8,
        ((x >> 16u32) & 0xff) as u8,
        ((x >> 24u32) & 0xff) as u8,
    ]
}

/// The little-endian bytes of a 64-bit word.
pub open spec fn le_bytes_u64(x: u64) -> Seq<u8> {
    le_bytes_u32((x & 0xffff_ffff) as u32) + le_bytes_u32((x >> 32u64) as u32)
}

/// The little-endian bytes of a 32-bit word.
fn u32_bytes(x: u32) -> (r: Vec<u8>)
    ensures
        r@ == le_bytes_u32(x),
{
    let r = vec![
            (x & 0xff) as u8,
            ((x >> 8u32) & 0xff) as u8,
            ((x >> 16u32) & 0xff) as u8,
            ((x >> 24u32) & 0xff) as u8,
        ];
    assert(r@ =~= le_bytes_u32(x));
    r
}

/// The little-endian bytes of a 64-bit word.
fn u64_bytes(x: u64) -> (r: Vec<u8>)
    ensures
        r@ == le_bytes_u64(x),
{
    let mut r = u32_bytes((x & 0xffff_ffff) as u32);
    let mut high = u32_bytes((x >> 32u64) as u32);
    r.append(&mut high);
    r
}

impl HashKey for u32 {
    open spec fn hash_bytes(&self) -> Seq<u8> {
        le_bytes_u32(*self)
    }

    fn to_hash_bytes(&self) -> (r: Vec<u8>) {
        u32_bytes(*self)
    }

    fn same_key(&self, other: &Self) -> (r: bool) {
        *self == *other
    }
}

impl HashKey for i32 {
    open spec fn hash_bytes(&self) -> Seq<u8> {
        le_bytes_u32(*self as u32)
    }

    fn to_hash_bytes(&self) -> (r: Vec<u8>) {
        u32_bytes(*self as u32)
    }

    fn same_key(&self, other: &Self) -> (r: bool) {
        *self == *other
    }
}

impl HashKey for u64 {
    open spec fn hash_bytes(&self) -> Seq<u8> {
        le_bytes_u64(*self)
    }

    fn to_hash_bytes(&self) -> (r: Vec<u8>) {
        u64_bytes(*self)
    }

    fn same_key(&self, other: &Self) -> (r: bool) {
        *self == *other
    }
}

impl HashKey for i64 {
    open spec fn hash_bytes(&self) -> Seq<u8> {
        le_bytes_u64(*self as u64)
    }

    fn to_hash_bytes(&self) -> (r: Vec<u8>) {
        u64_bytes(*self as u64)
    }

    fn same_key(&self, other: &Self) -> (r: bool) {
        *self == *other
    }
}

} // verus!
