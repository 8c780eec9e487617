//! Four-element digests used inside the Merkle tree engines, and the
//! two-to-one compression over them.
//!
//! A digest is four 64-bit words. Compression and leaf hashing feed the
//! big-endian byte stream of the words into the 256-bit hash primitive and
//! read the result back as four words.

use vstd::prelude::*;

use crate::hashing::{
    keccak256, keccak256_of, be_bytes_of_u64s, spec_be_bytes_of_u64s, bytes32_from_vec,
};

verus! {

#[derive(Copy, Clone, Debug)]
pub struct Digest(pub [u64; 4]);

impl PartialEq for Digest {
    fn eq(&self, other: &Digest) -> (r: bool) {
        let r = self.0[0] == other.0[0] && self.0[1] == other.0[1] && self.0[2] == other.0[2]
            && self.0[3] == other.0[3];
        proof {
            if r {
                assert(self.0@ =~= other.0@);
            }
        }
        r
    }
}

impl Eq for Digest {

}

impl vstd::std_specs::cmp::PartialEqSpecImpl for Digest {
    open spec fn obeys_eq_spec() -> bool {
        true
    }

    open spec fn eq_spec(&self, other: &Digest) -> bool {
        self.0@ == other.0@
    }
}

/// One 64-bit word from eight big-endian bytes.
pub open spec fn spec_u64_of_be_bytes(b: Seq<u8>, k: int) -> u64 {
    ((b[8 * k] as u64) * 0x100_0000_0000_0000 + (b[8 * k + 1] as u64) * 0x1_0000_0000_0000 + (b[8 * k
        + 2] as u64) * 0x100_0000_0000 + (b[8 * k + 3] as u64) * 0x1_0000_0000 + (b[8 * k
        + 4] as u64) * 0x100_0000 + (b[8 * k + 5] as u64) * 0x1_0000 + (b[8 * k + 6] as u64) * 0x100
        + (b[8 * k + 7] as u64)) as u64
}

/// The four words read back from a 32-byte hash output.
pub open spec fn spec_digest_of_bytes(b: Seq<u8>) -> Seq<u64> {
    Seq::new(4, |k: int| spec_u64_of_be_bytes(b, k))
}

/// What the two-to-one compression of two digests is.
pub open spec fn spec_two_to_one(left: Seq<u64>, right: Seq<u64>) -> Seq<u64> {
    spec_digest_of_bytes(keccak256_of(spec_be_bytes_of_u64s(left + right)))
}

/// What the hash of a field-element vector is.
pub open spec fn spec_hash_fields(input: Seq<u64>) -> Seq<u64> {
    spec_digest_of_bytes(keccak256_of(spec_be_bytes_of_u64s(input)))
}

/// Writing four words as bytes and reading words back yields the words
/// again.
pub proof fn lemma_words_to_bytes_roundtrip(w: Seq<u64>)
    requires
        w.len() == 4,
    ensures
        spec_digest_of_bytes(spec_be_bytes_of_u64s(w)) == w,
{
    reveal_with_fuel(crate::hashing::spec_be_bytes_of_u64s, 6);
    let b = spec_be_bytes_of_u64s(w);
    assert(w.drop_first().drop_first().drop_first().drop_first() =~= Seq::<u64>::empty());
    assert(b =~= crate::hashing::spec_be_bytes_of_u64(w[0]) + crate::hashing::spec_be_bytes_of_u64(
        w[1],
    ) + crate::hashing::spec_be_bytes_of_u64(w[2]) + crate::hashing::spec_be_bytes_of_u64(w[3]));
    assert forall|k: int| 0 <= k < 4 implies spec_u64_of_be_bytes(b, k) == w[k] by {
        let x = w[k];
        assert(b[8 * k] == ((x >> 56u64) & 0xff) as u8);
        assert(b[8 * k + 1] == ((x >> 48u64) & 0xff) as u8);
        assert(b[8 * k + 2] == ((x >> 40u64) & 0xff) as u8);
        assert(b[8 * k + 3] == ((x >> 32u64) & 0xff) as u8);
        assert(b[8 * k + 4] == ((x >> 24u64) & 0xff) as u8);
        assert(b[8 * k + 5] == ((x >> 16u64) & 0xff) as u8);
        assert(b[8 * k + 6] == ((x >> 8u64) & 0xff) as u8);
        assert(b[8 * k + 7] == (x & 0xff) as u8);
        assert(((((x >> 56u64) & 0xff) as u8) as u64) * 0x100_0000_0000_0000 + ((((x >> 48u64)
            & 0xff) as u8) as u64) * 0x1_0000_0000_0000 + ((((x >> 40u64) & 0xff) as u8) as u64)
            * 0x100_0000_0000 + ((((x >> 32u64) & 0xff) as u8) as u64) * 0x1_0000_0000 + ((((x
            >> 24u64) & 0xff) as u8) as u64) * 0x100_0000 + ((((x >> 16u64) & 0xff) as u8) as u64)
            * 0x1_0000 + ((((x >> 8u64) & 0xff) as u8) as u64) * 0x100 + (((x & 0xff) as u8) as u64)
            == x) by (bit_vector);
    }
    assert(spec_digest_of_bytes(b) =~= w);
}

/// One 64-bit word from eight big-endian bytes.
pub fn u64_from_be_bytes8(
    b0: u8,
    b1: u8,
    b2: u8,
    b3: u8,
    b4: u8,
    b5: u8,
    b6: u8,
    b7: u8,
) -> (r: u64)
    ensures
        r == (b0 as u64) * 0x100_0000_0000_0000 + (b1 as u64) * 0x1_0000_0000_0000 + (b2 as u64)
            * 0x100_0000_0000 + (b3 as u64) * 0x1_0000_0000 + (b4 as u64) * 0x100_0000 + (b5 as u64)
            * 0x1_0000 + (b6 as u64) * 0x100 + (b7 as u64),
{
    let r: u64 = ((b0 as u64) << 56u64) | ((b1 as u64) << 48u64) | ((b2 as u64) << 40u64) | ((
    b3 as u64) << 32u64) | ((b4 as u64) << 24u64) | ((b5 as u64) << 16u64) | ((b6 as u64) << 8u64)
        | (b7 as u64);
    proof {
        assert(r == (b0 as u64) * 0x100_0000_0000_0000 + (b1 as u64) * 0x1_0000_0000_0000 + (
        b2 as u64) * 0x100_0000_0000 + (b3 as u64) * 0x1_0000_0000 + (b4 as u64) * 0x100_0000 + (
        b5 as u64) * 0x1_0000 + (b6 as u64) * 0x100 + (b7 as u64)) by (bit_vector)
            requires
                r == ((b0 as u64) << 56u64) | ((b1 as u64) << 48u64) | ((b2 as u64) << 40u64) | ((
                b3 as u64) << 32u64) | ((b4 as u64) << 24u64) | ((b5 as u64) << 16u64) | ((
                b6 as u64) << 8u64) | (b7 as u64),
        ;
    }
    r
}

/// Read a digest out of 32 hash-output bytes.
pub fn digest_from_bytes32(b: &[u8; 32]) -> (r: Digest)
    ensures
        r.0@ == spec_digest_of_bytes(b@),
{
    let w0 = u64_from_be_bytes8(b[0], b[1], b[2], b[3], b[4], b[5], b[6], b[7]);
    let w1 = u64_from_be_bytes8(b[8], b[9], b[10], b[11], b[12], b[13], b[14], b[15]);
    let w2 = u64_from_be_bytes8(b[16], b[17], b[18], b[19], b[20], b[21], b[22], b[23]);
    let w3 = u64_from_be_bytes8(b[24], b[25], b[26], b[27], b[28], b[29], b[30], b[31]);
    let r = Digest([w0, w1, w2, w3]);
    proof {
        assert(r.0@ =~= spec_digest_of_bytes(b@));
    }
    r
}

/// Hash a vector of field elements down to one digest.
pub fn hash_fields(input: &Vec<u64>) -> (r: Digest)
    ensures
        r.0@ == spec_hash_fields(input@),
{
    let bytes = be_bytes_of_u64s(input.as_slice());
    let out = keccak256(&bytes);
    digest_from_bytes32(&out)
}

/// The two-to-one compression of the Merkle tree engines.
pub fn two_to_one(left: &Digest, right: &Digest) -> (r: Digest)
    ensures
        r.0@ == spec_two_to_one(left.0@, right.0@),
{
    let mut words: Vec<u64> = Vec::new();
    let mut k: usize = 0;
    while k < 4
        invariant
            k <= 4,
            words@ =~= left.0@.take(k as int),
        decreases 4 - k,
    {
        words.push(left.0[k]);
        k = k + 1;
    }
    proof {
        assert(left.0@.take(4) =~= left.0@);
        assert(left.0@ + right.0@.take(0) =~= left.0@);
    }
    let mut k2: usize = 0;
    while k2 < 4
        invariant
            k2 <= 4,
            words@ =~= left.0@ + right.0@.take(k2 as int),
        decreases 4 - k2,
    {
        proof {
            assert(left.0@.take(4) =~= left.0@);
            assert(left.0@ + right.0@.take(k2 + 1) =~= (left.0@ + right.0@.take(k2 as int)).push(
                right.0@[k2 as int],
            ));
        }
        words.push(right.0[k2]);
        k2 = k2 + 1;
    }
    proof {
        assert(words@ =~= left.0@ + right.0@);
    }
    let bytes = be_bytes_of_u64s(words.as_slice());
    let out = keccak256(&bytes);
    digest_from_bytes32(&out)
}

} // verus!
