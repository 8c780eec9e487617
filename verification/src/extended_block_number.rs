//! A total order over "a specific transfer within a specific block".
//!
//! The key is `(block_number << 32) | transfer_index`; withdrawal chains
//! consume transfers in strictly increasing key order, which is the
//! double-withdrawal defense.

use vstd::prelude::*;

verus! {

#[derive(Clone, Copy, Debug, PartialEq, Eq, Structural)]
pub struct ExtendedBlockNumber(pub u64);

impl ExtendedBlockNumber {
    /// The raw key value.
    pub open spec fn spec_value(self) -> u64 {
        self.0
    }

    pub fn new(input: u64) -> (r: Self)
        ensures
            r.0 == input,
    {
        ExtendedBlockNumber(input)
    }

    pub fn sub_one(&self) -> (r: Self)
        requires
            self.0 >= 1,
        ensures
            r.0 == self.0 - 1,
    {
        ExtendedBlockNumber(self.0 - 1)
    }

    /// Combine a block number and a transfer index into one ordering key.
    pub fn construct(block_number: u32, transfer_index: usize) -> (r: Self)
        requires
            transfer_index < 0x1_0000_0000,
        ensures
            r.0 == (block_number as u64) * 0x1_0000_0000 + transfer_index as u64,
    {
        ExtendedBlockNumber((block_number as u64) * 0x1_0000_0000 + (transfer_index as u64))
    }

    /// Witnesses that `self` strictly precedes `other`; callers must have
    /// established the order already.
    pub fn less_than(&self, other: &Self)
        requires
            self.0 < other.0,
    {
    }

    /// `self < other` as a runtime test.
    pub fn lt(&self, other: &Self) -> (r: bool)
        ensures
            r == (self.0 < other.0),
    {
        self.0 < other.0
    }

    /// One field element carries the whole key.
    pub fn to_vec(&self) -> (r: Vec<u64>)
        ensures
            r@ == seq![self.0],
    {
        let mut result: Vec<u64> = Vec::new();
        result.push(self.0);
        result
    }

    pub fn from_vec(vec: &[u64]) -> (r: Self)
        requires
            vec@.len() == 1,
        ensures
            r.0 == vec@[0],
    {
        ExtendedBlockNumber(vec[0])
    }

    /// Big-endian 32-bit halves of the key.
    pub fn to_u32_digits(&self) -> (r: [u32; 2])
        ensures
            r@ == seq![(self.0 >> 32u64) as u32, self.0 as u32],
    {
        [(self.0 >> 32u64) as u32, self.0 as u32]
    }
}

} // verus!
