//! Solidity-style 32-byte hash values.

use vstd::prelude::*;

use crate::digest::Digest;
use crate::hashing::{spec_be_bytes_of_u32s, spec_be_bytes_of_u64s, u32_from_be_bytes4};
use crate::u256::U256;

verus! {

#[derive(Copy, Clone, Debug)]
pub struct H256(pub [u8; 32]);

impl PartialEq for H256 {
    fn eq(&self, other: &H256) -> (r: bool) {
        let mut i: usize = 0;
        while i < 32
            invariant
                i <= 32,
                self.0@.subrange(0, i as int) == other.0@.subrange(0, i as int),
            decreases 32 - i,
        {
            if self.0[i] != other.0[i] {
                proof {
                    assert(self.0@[i as int] != other.0@[i as int]);
                }
                return false;
            }
            proof {
                assert(self.0@.subrange(0, i + 1) =~= other.0@.subrange(0, i + 1));
            }
            i = i + 1;
        }
        proof {
            assert(self.0@.subrange(0, 32) =~= self.0@);
            assert(other.0@.subrange(0, 32) =~= other.0@);
        }
        true
    }
}

impl Eq for H256 {

}

impl vstd::std_specs::cmp::PartialEqSpecImpl for H256 {
    open spec fn obeys_eq_spec() -> bool {
        true
    }

    open spec fn eq_spec(&self, other: &H256) -> bool {
        self.0@ == other.0@
    }
}

/// One 32-bit word from four big-endian bytes of `b` at group `k`.
pub open spec fn spec_u32_of_be_bytes(b: Seq<u8>, k: int) -> u32 {
    ((b[4 * k] as u32) * 0x100_0000 + (b[4 * k + 1] as u32) * 0x1_0000 + (b[4 * k + 2] as u32)
        * 0x100 + (b[4 * k + 3] as u32)) as u32
}

/// The eight 32-bit digits of 32 bytes.
pub open spec fn spec_h256_digits(b: Seq<u8>) -> Seq<u32> {
    Seq::new(8, |k: int| spec_u32_of_be_bytes(b, k))
}

/// What the solidity-style hash of a word stream is: the 256-bit hash of
/// the words' big-endian bytes.
pub open spec fn spec_solidity_keccak(words: Seq<u32>) -> Seq<u8> {
    crate::hashing::keccak256_of(spec_be_bytes_of_u32s(words))
}

/// Solidity-style hash of a word stream, as eight 32-bit digits.
pub fn solidity_keccak256(input: Vec<u32>) -> (r: [u32; 8])
    ensures
        r@ == spec_h256_digits(spec_solidity_keccak(input@)),
        spec_be_bytes_of_u32s(r@) == spec_solidity_keccak(input@),
{
    let bytes = crate::hashing::be_bytes_of_u32s(input.as_slice());
    let out = crate::hashing::keccak256(&bytes);
    let h = H256(out);
    h.to_u32_digits()
}

impl H256 {
    /// The all-zero hash value.
    pub fn zero() -> (r: Self)
        ensures
            r.0@ =~= Seq::new(32, |i: int| 0u8),
    {
        let r = H256([0u8; 32]);
        proof {
            assert(r.0@ =~= Seq::new(32, |i: int| 0u8));
        }
        r
    }

    /// Big-endian 32-bit digits of the 32 bytes.
    pub fn to_u32_digits(&self) -> (r: [u32; 8])
        ensures
            r@ == spec_h256_digits(self.0@),
            spec_be_bytes_of_u32s(r@) == self.0@,
    {
        let b = &self.0;
        let r: [u32; 8] = [
            u32_from_be_bytes4(b[0], b[1], b[2], b[3]),
            u32_from_be_bytes4(b[4], b[5], b[6], b[7]),
            u32_from_be_bytes4(b[8], b[9], b[10], b[11]),
            u32_from_be_bytes4(b[12], b[13], b[14], b[15]),
            u32_from_be_bytes4(b[16], b[17], b[18], b[19]),
            u32_from_be_bytes4(b[20], b[21], b[22], b[23]),
            u32_from_be_bytes4(b[24], b[25], b[26], b[27]),
            u32_from_be_bytes4(b[28], b[29], b[30], b[31]),
        ];
        proof {
            lemma_be_bytes_of_digits_unfold(r@);
            assert(spec_be_bytes_of_u32s(r@) =~= self.0@);
            assert(r@ =~= spec_h256_digits(self.0@));
        }
        r
    }

    /// Pack big-endian 32-bit digits back into bytes.
    pub fn from_u32_digits(input: [u32; 8]) -> (r: Self)
        ensures
            r.0@ == spec_be_bytes_of_u32s(input@),
    {
        let v = crate::hashing::be_bytes_of_u32s(input.as_slice());
        proof {
            crate::u256::lemma_be_bytes_of_u32s_len(input@);
        }
        H256(crate::hashing::bytes32_from_vec(&v))
    }

    /// One field element per 32-bit digit.
    pub fn to_vec(&self) -> (r: Vec<u64>)
        ensures
            r@ == crate::hashing::u32s_as_u64s(spec_h256_digits(self.0@)),
            r@.len() == 8,
            spec_be_bytes_of_u32s(Seq::new(8, |k: int| r@[k] as u32)) == self.0@,
            forall|k: int| 0 <= k < 8 ==> r@[k] <= 0xffff_ffff,
    {
        let digits = self.to_u32_digits();
        let mut r: Vec<u64> = Vec::new();
        let mut k: usize = 0;
        while k < 8
            invariant
                k <= 8,
                digits@.len() == 8,
                r@.len() == k,
                forall|j: int| 0 <= j < k ==> r@[j] == digits@[j] as u64,
            decreases 8 - k,
        {
            r.push(digits[k] as u64);
            k = k + 1;
        }
        proof {
            assert(Seq::new(8, |k: int| r@[k] as u32) =~= digits@);
            assert(r@ =~= crate::hashing::u32s_as_u64s(spec_h256_digits(self.0@)));
        }
        r
    }

    /// Read the digits back from field elements, truncating each to 32 bits.
    pub fn from_vec(input: &[u64]) -> (r: Self)
        requires
            input@.len() == 8,
        ensures
            r.0@ == spec_be_bytes_of_u32s(Seq::new(8, |k: int| input@[k] as u32)),
    {
        let arr: [u32; 8] = [
            input[0] as u32,
            input[1] as u32,
            input[2] as u32,
            input[3] as u32,
            input[4] as u32,
            input[5] as u32,
            input[6] as u32,
            input[7] as u32,
        ];
        proof {
            assert(arr@ =~= Seq::new(8, |k: int| input@[k] as u32));
        }
        Self::from_u32_digits(arr)
    }

    /// The 32 bytes read as a 256-bit number.
    pub fn to_u256(self) -> (r: U256)
        ensures
            spec_be_bytes_of_u32s(r.0@) == self.0@,
    {
        U256::from_be_bytes(self.0)
    }

    /// The big-endian bytes of a 256-bit number.
    pub fn from_u256(value: U256) -> (r: Self)
        ensures
            r.0@ == spec_be_bytes_of_u32s(value.0@),
    {
        H256(value.to_be_bytes())
    }

    /// The bytes of a digest's four words, big-endian.
    pub fn from_digest(value: Digest) -> (r: Self)
        ensures
            r.0@ == spec_be_bytes_of_u64s(value.0@),
    {
        let v = crate::hashing::be_bytes_of_u64s(value.0.as_slice());
        proof {
            lemma_be_bytes_of_u64s_len(value.0@);
        }
        H256(crate::hashing::bytes32_from_vec(&v))
    }

    /// Read the bytes back as a digest's four words. Inverse of
    /// `from_digest`.
    pub fn reduce_to_digest(&self) -> (r: Digest)
        ensures
            r.0@ == crate::digest::spec_digest_of_bytes(self.0@),
            spec_be_bytes_of_u64s(r.0@) == self.0@,
    {
        let b = &self.0;
        let r = crate::digest::digest_from_bytes32(b);
        proof {
            lemma_digest_bytes_roundtrip(self.0@, r.0@);
        }
        r
    }
}

impl H256 {
    /// Read a hash value from hex without a prefix; exactly 64 hex digits
    /// are accepted.
    pub fn from_hex(hex: &str) -> (r: Result<H256, crate::error::ZkpError>)
        ensures
            r is Ok <==> (crate::strings::spec_is_hex(hex@) && hex@.len() == 64),
            r is Ok ==> r->Ok_0.0@ == crate::strings::spec_unhex(hex@),
    {
        let bytes = match crate::strings::hex_decode(hex) {
            Some(b) => b,
            None => {
                return Err(crate::error::ZkpError::HexDecodeError);
            },
        };
        if bytes.len() != 32 {
            proof {
                crate::strings::lemma_unhex_len(hex@);
            }
            return Err(crate::error::ZkpError::HexDecodeError);
        }
        proof {
            crate::strings::lemma_unhex_len(hex@);
        }
        Ok(H256(crate::hashing::bytes32_from_vec(&bytes)))
    }

    /// The lowercase hex string of the 32 bytes.
    pub fn to_hex_string(&self) -> (r: String)
        ensures
            r@ == crate::strings::spec_hex_of(self.0@),
    {
        crate::strings::hex_encode(self.0.as_slice())
    }
}

impl From<U256> for H256 {
    fn from(value: U256) -> (r: H256) {
        H256::from_u256(value)
    }
}

impl vstd::std_specs::convert::FromSpecImpl<U256> for H256 {
    open spec fn obeys_from_spec() -> bool {
        false
    }

    open spec fn from_spec(v: U256) -> H256 {
        choose|r: H256| r.0@ == spec_be_bytes_of_u32s(v.0@)
    }
}

/// The byte stream of `n` 64-bit words has `8 n` bytes.
pub proof fn lemma_be_bytes_of_u64s_len(s: Seq<u64>)
    ensures
        spec_be_bytes_of_u64s(s).len() == 8 * s.len(),
    decreases s.len(),
{
    if s.len() > 0 {
        lemma_be_bytes_of_u64s_len(s.drop_first());
    }
}

/// Unfold the byte stream of exactly eight 32-bit digits into the
/// concatenation of the eight 4-byte groups.
pub proof fn lemma_be_bytes_of_digits_unfold(s: Seq<u32>)
    requires
        s.len() == 8,
    ensures
        spec_be_bytes_of_u32s(s) == crate::hashing::spec_be_bytes_of_u32(s[0])
            + crate::hashing::spec_be_bytes_of_u32(s[1]) + crate::hashing::spec_be_bytes_of_u32(
            s[2],
        ) + crate::hashing::spec_be_bytes_of_u32(s[3]) + crate::hashing::spec_be_bytes_of_u32(s[4])
            + crate::hashing::spec_be_bytes_of_u32(s[5]) + crate::hashing::spec_be_bytes_of_u32(
            s[6],
        ) + crate::hashing::spec_be_bytes_of_u32(s[7]),
{
    reveal_with_fuel(crate::hashing::spec_be_bytes_of_u32s, 10);
    assert(s.drop_first().drop_first().drop_first().drop_first().drop_first().drop_first()
        .drop_first().drop_first() =~= Seq::<u32>::empty());
}

/// Writing a digest's words as bytes and reading eight-byte words back
/// yields the digest again.
proof fn lemma_digest_bytes_roundtrip(bytes: Seq<u8>, words: Seq<u64>)
    requires
        bytes.len() == 32,
        words == crate::digest::spec_digest_of_bytes(bytes),
    ensures
        spec_be_bytes_of_u64s(words) == bytes,
{
    reveal_with_fuel(crate::hashing::spec_be_bytes_of_u64s, 6);
    assert(words.len() == 4);
    assert(words.drop_first().drop_first().drop_first().drop_first() =~= Seq::<u64>::empty());
    assert forall|k: int| 0 <= k < 4 implies crate::hashing::spec_be_bytes_of_u64(words[k])
        =~= bytes.subrange(8 * k, 8 * k + 8) by {
        let w = words[k];
        let b0 = bytes[8 * k];
        let b1 = bytes[8 * k + 1];
        let b2 = bytes[8 * k + 2];
        let b3 = bytes[8 * k + 3];
        let b4 = bytes[8 * k + 4];
        let b5 = bytes[8 * k + 5];
        let b6 = bytes[8 * k + 6];
        let b7 = bytes[8 * k + 7];
        assert(w == (b0 as u64) * 0x100_0000_0000_0000 + (b1 as u64) * 0x1_0000_0000_0000 + (
        b2 as u64) * 0x100_0000_0000 + (b3 as u64) * 0x1_0000_0000 + (b4 as u64) * 0x100_0000 + (
        b5 as u64) * 0x1_0000 + (b6 as u64) * 0x100 + (b7 as u64));
        assert(((w >> 56u64) & 0xff) as u8 == b0 && ((w >> 48u64) & 0xff) as u8 == b1 && ((w
            >> 40u64) & 0xff) as u8 == b2 && ((w >> 32u64) & 0xff) as u8 == b3 && ((w >> 24u64)
            & 0xff) as u8 == b4 && ((w >> 16u64) & 0xff) as u8 == b5 && ((w >> 8u64) & 0xff) as u8
            == b6 && (w & 0xff) as u8 == b7) by (bit_vector)
            requires
                w == (b0 as u64) * 0x100_0000_0000_0000 + (b1 as u64) * 0x1_0000_0000_0000 + (
                b2 as u64) * 0x100_0000_0000 + (b3 as u64) * 0x1_0000_0000 + (b4 as u64) * 0x100_0000
                    + (b5 as u64) * 0x1_0000 + (b6 as u64) * 0x100 + (b7 as u64),
        ;
    }
    assert(spec_be_bytes_of_u64s(words) =~= bytes);
}

} // verus!
