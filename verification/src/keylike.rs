//! Index values usable as Merkle tree paths: their little-endian bit
//! decompositions.

use vstd::prelude::*;
use vstd::arithmetic::power2::{pow2, lemma_pow2_adds, lemma_pow2_pos};
use vstd::arithmetic::div_mod::{lemma_div_denominator, lemma_div_basics};

use crate::u256::U256;

verus! {

/// The little-endian bits of a value, as far as `length` goes.
pub open spec fn spec_le_bits(n: nat, length: nat) -> Seq<bool> {
    Seq::new(length, |i: int| (n / pow2(i as nat)) % 2 == 1)
}

/// The little-endian bits of `num`, `length` of them.
pub fn usize_le_bits(num: usize, length: usize) -> (r: Vec<bool>)
    ensures
        r@ == spec_le_bits(num as nat, length as nat),
{
    let mut r: Vec<bool> = Vec::new();
    let mut n: usize = num;
    let mut i: usize = 0;
    proof {
        assert(pow2(0) == 1) by {
            vstd::arithmetic::power2::lemma2_to64();
        }
        lemma_div_basics(num as int);
    }
    while i < length
        invariant
            i <= length,
            r@.len() == i,
            n as nat == (num as nat) / pow2(i as nat),
            forall|j: int| 0 <= j < i ==> r@[j] == (((num as nat) / pow2(j as nat)) % 2 == 1),
        decreases length - i,
    {
        r.push(n % 2 == 1);
        proof {
            lemma_pow2_adds(i as nat, 1);
            lemma_pow2_pos(i as nat);
            vstd::arithmetic::power2::lemma2_to64();
            lemma_div_denominator(num as int, pow2(i as nat) as int, 2);
            assert((num as nat) / pow2((i + 1) as nat) == ((num as nat) / pow2(i as nat)) / 2);
        }
        n = n / 2;
        i = i + 1;
    }
    proof {
        assert(r@ =~= spec_le_bits(num as nat, length as nat));
    }
    r
}

/// The eight little-endian bits of one byte.
pub fn u8_to_le_bits(v: u8) -> (r: Vec<bool>)
    ensures
        r@ == spec_le_bits(v as nat, 8),
{
    le_bits_of_u32(v as u32, 8)
}

/// The first `length` little-endian bits of a 32-bit value.
fn le_bits_of_u32(v: u32, length: usize) -> (r: Vec<bool>)
    ensures
        r@ == spec_le_bits(v as nat, length as nat),
{
    let mut r: Vec<bool> = Vec::new();
    let mut n: u32 = v;
    let mut i: usize = 0;
    proof {
        assert(pow2(0) == 1) by {
            vstd::arithmetic::power2::lemma2_to64();
        }
        lemma_div_basics(v as int);
    }
    while i < length
        invariant
            i <= length,
            r@.len() == i,
            n as nat == (v as nat) / pow2(i as nat),
            forall|j: int| 0 <= j < i ==> r@[j] == (((v as nat) / pow2(j as nat)) % 2 == 1),
        decreases length - i,
    {
        r.push(n % 2 == 1);
        proof {
            lemma_pow2_adds(i as nat, 1);
            lemma_pow2_pos(i as nat);
            vstd::arithmetic::power2::lemma2_to64();
            lemma_div_denominator(v as int, pow2(i as nat) as int, 2);
            assert((v as nat) / pow2((i + 1) as nat) == ((v as nat) / pow2(i as nat)) / 2);
        }
        n = n / 2;
        i = i + 1;
    }
    proof {
        assert(r@ =~= spec_le_bits(v as nat, length as nat));
    }
    r
}

/// Values usable as tree indices: they decompose into little-endian bits.
pub trait KeyLike: Sized {
    /// The value's full bit decomposition.
    spec fn spec_bits(&self) -> Seq<bool>;

    /// The full little-endian bit decomposition.
    fn to_bits(&self) -> (r: Vec<bool>)
        ensures
            r@ == self.spec_bits(),
    ;

    /// The first `length` bits; the value must have that many.
    fn to_bits_with_length(&self, length: usize) -> (r: Vec<bool>)
        requires
            length <= self.spec_bits().len(),
        ensures
            r@ == self.spec_bits().take(length as int),
    ;
}

impl KeyLike for u32 {
    open spec fn spec_bits(&self) -> Seq<bool> {
        spec_le_bits(*self as nat, 32)
    }

    fn to_bits(&self) -> (r: Vec<bool>) {
        le_bits_of_u32(*self, 32)
    }

    fn to_bits_with_length(&self, length: usize) -> (r: Vec<bool>) {
        let r = le_bits_of_u32(*self, length);
        proof {
            assert(r@ =~= self.spec_bits().take(length as int));
        }
        r
    }
}

impl KeyLike for U256 {
    /// Bits of the least significant limb first.
    open spec fn spec_bits(&self) -> Seq<bool> {
        spec_le_bits(self.0@[7] as nat, 32) + spec_le_bits(self.0@[6] as nat, 32) + spec_le_bits(
            self.0@[5] as nat,
            32,
        ) + spec_le_bits(self.0@[4] as nat, 32) + spec_le_bits(self.0@[3] as nat, 32)
            + spec_le_bits(self.0@[2] as nat, 32) + spec_le_bits(self.0@[1] as nat, 32)
            + spec_le_bits(self.0@[0] as nat, 32)
    }

    fn to_bits(&self) -> (r: Vec<bool>) {
        let mut r = le_bits_of_u32(self.0[7], 32);
        proof {
            reveal_with_fuel(spec_bits_from, 9);
            assert(r@ =~= spec_bits_from(self, 7));
        }
        let mut k: usize = 7;
        while k > 0
            invariant
                k <= 7,
                r@ =~= spec_bits_from(self, k as int),
            decreases k,
        {
            let mut part = le_bits_of_u32(self.0[k - 1], 32);
            let ghost pre = r@;
            r.append(&mut part);
            proof {
                assert(r@ =~= spec_bits_from(self, k - 1));
            }
            k = k - 1;
        }
        proof {
            reveal_with_fuel(spec_bits_from, 9);
            assert(r@ =~= self.spec_bits());
        }
        r
    }

    fn to_bits_with_length(&self, length: usize) -> (r: Vec<bool>) {
        let full = self.to_bits();
        let mut r: Vec<bool> = Vec::new();
        let mut i: usize = 0;
        while i < length
            invariant
                full@ == self.spec_bits(),
                length <= full@.len(),
                i <= length,
                r@ =~= full@.take(i as int),
            decreases length - i,
        {
            r.push(full[i]);
            proof {
                assert(r@ =~= full@.take(i + 1));
            }
            i = i + 1;
        }
        r
    }
}

/// The bits of the limbs from index `k - 1` down, least significant limb
/// first.
pub open spec fn spec_bits_from(v: &U256, k: int) -> Seq<bool>
    decreases 8 - k,
    when 0 <= k <= 8
{
    if k == 8 {
        Seq::empty()
    } else {
        spec_bits_from(v, k + 1) + spec_le_bits(v.0@[k] as nat, 32)
    }
}

} // verus!
