//! Big numbers on the wire: unsigned, big-endian byte strings.
use crate::bignat::{be_value, is_shortest_be, BigNat};
use vstd::prelude::*;

verus! {

/// Encoding a number for the wire.
pub trait BigUintExt {
    /// The number as big-endian bytes.
    fn serialise(&self) -> Vec<u8>;
}

/// Decoding a number from the wire.
pub trait Vecu8Ext {
    /// The number that these big-endian bytes spell.
    fn deserialise_big_uint(&self) -> BigNat;
}

impl BigUintExt for BigNat {
    fn serialise(&self) -> (r: Vec<u8>)
        ensures
            be_value(r@) == self@,
            is_shortest_be(r@),
    {
        self.to_bytes_be()
    }
}

impl Vecu8Ext for Vec<u8> {
    fn deserialise_big_uint(&self) -> (r: BigNat)
        ensures
            r@ == be_value(self@),
    {
        BigNat::from_bytes_be(self.clone())
    }
}

} // verus!
