//! User account addresses: 160 bits, five 32-bit digits, big-endian.

use vstd::prelude::*;

use crate::hashing::{spec_be_bytes_of_u32s, u32_from_be_bytes4};

verus! {

pub const ADDRESS_VEC_LEN: usize = 5;

#[derive(Copy, Clone, Debug)]
pub struct Address(pub [u32; 5]);

impl PartialEq for Address {
    fn eq(&self, other: &Address) -> (r: bool) {
        let r = self.0[0] == other.0[0] && self.0[1] == other.0[1] && self.0[2] == other.0[2]
            && self.0[3] == other.0[3] && self.0[4] == other.0[4];
        proof {
            if r {
                assert(self.0@ =~= other.0@);
            }
        }
        r
    }
}

impl Eq for Address {

}

impl vstd::std_specs::cmp::PartialEqSpecImpl for Address {
    open spec fn obeys_eq_spec() -> bool {
        true
    }

    open spec fn eq_spec(&self, other: &Address) -> bool {
        self.0@ == other.0@
    }
}

impl Address {
    /// The all-zero address.
    pub fn zero() -> (r: Self)
        ensures
            r.0@ =~= Seq::new(5, |i: int| 0u32),
    {
        let r = Address([0u32; 5]);
        proof {
            assert(r.0@ =~= Seq::new(5, |i: int| 0u32));
        }
        r
    }

    /// One field element per digit.
    pub fn to_vec(self) -> (r: Vec<u64>)
        ensures
            r@ == crate::hashing::u32s_as_u64s(self.0@),
            r@.len() == 5,
            forall|k: int| 0 <= k < 5 ==> r@[k] == self.0@[k] as u64,
    {
        let mut r: Vec<u64> = Vec::new();
        let mut k: usize = 0;
        while k < 5
            invariant
                k <= 5,
                r@.len() == k,
                forall|j: int| 0 <= j < k ==> r@[j] == self.0@[j] as u64,
            decreases 5 - k,
        {
            r.push(self.0[k] as u64);
            k = k + 1;
        }
        proof {
            assert(r@ =~= crate::hashing::u32s_as_u64s(self.0@));
        }
        r
    }

    /// Read the digits back from field elements, truncating each to 32 bits.
    pub fn from_vec(input: &[u64]) -> (r: Self)
        requires
            input@.len() == 5,
        ensures
            forall|k: int| 0 <= k < 5 ==> r.0@[k] == input@[k] as u32,
    {
        Address([input[0] as u32, input[1] as u32, input[2] as u32, input[3] as u32, input[4] as u32])
    }

    /// Big-endian byte encoding, 20 bytes.
    pub fn to_be_bytes(self) -> (r: [u8; 20])
        ensures
            r@ == spec_be_bytes_of_u32s(self.0@),
    {
        let v = crate::hashing::be_bytes_of_u32s(self.0.as_slice());
        proof {
            crate::u256::lemma_be_bytes_of_u32s_len(self.0@);
        }
        let r: [u8; 20] = [
            v[0],
            v[1],
            v[2],
            v[3],
            v[4],
            v[5],
            v[6],
            v[7],
            v[8],
            v[9],
            v[10],
            v[11],
            v[12],
            v[13],
            v[14],
            v[15],
            v[16],
            v[17],
            v[18],
            v[19],
        ];
        proof {
            assert(r@ =~= v@);
        }
        r
    }

    /// Read an address from its big-endian byte encoding.
    pub fn from_be_bytes(bytes: [u8; 20]) -> (r: Self)
        ensures
            spec_be_bytes_of_u32s(r.0@) == bytes@,
    {
        let b = &bytes;
        let r = Address(
            [
                u32_from_be_bytes4(b[0], b[1], b[2], b[3]),
                u32_from_be_bytes4(b[4], b[5], b[6], b[7]),
                u32_from_be_bytes4(b[8], b[9], b[10], b[11]),
                u32_from_be_bytes4(b[12], b[13], b[14], b[15]),
                u32_from_be_bytes4(b[16], b[17], b[18], b[19]),
            ],
        );
        proof {
            reveal_with_fuel(crate::hashing::spec_be_bytes_of_u32s, 7);
            let s = r.0@;
            assert(s.drop_first().drop_first().drop_first().drop_first().drop_first()
                =~= Seq::<u32>::empty());
            assert(spec_be_bytes_of_u32s(r.0@) =~= bytes@);
        }
        r
    }

    /// Read an address from hex without a prefix; exactly 40 hex digits
    /// are accepted.
    pub fn from_hex(hex: &str) -> (r: Result<Address, crate::error::ZkpError>)
        ensures
            r is Ok <==> (crate::strings::spec_is_hex(hex@) && hex@.len() == 40),
            r is Ok ==> spec_be_bytes_of_u32s(r->Ok_0.0@) == crate::strings::spec_unhex(hex@),
    {
        let bytes = match crate::strings::hex_decode(hex) {
            Some(b) => b,
            None => {
                return Err(crate::error::ZkpError::HexDecodeError);
            },
        };
        if bytes.len() != 20 {
            proof {
                crate::strings::lemma_unhex_len(hex@);
            }
            return Err(crate::error::ZkpError::HexDecodeError);
        }
        proof {
            crate::strings::lemma_unhex_len(hex@);
        }
        let arr: [u8; 20] = [
            bytes[0],
            bytes[1],
            bytes[2],
            bytes[3],
            bytes[4],
            bytes[5],
            bytes[6],
            bytes[7],
            bytes[8],
            bytes[9],
            bytes[10],
            bytes[11],
            bytes[12],
            bytes[13],
            bytes[14],
            bytes[15],
            bytes[16],
            bytes[17],
            bytes[18],
            bytes[19],
        ];
        proof {
            assert(arr@ =~= bytes@);
        }
        Ok(Address::from_be_bytes(arr))
    }

    /// The lowercase hex string of the 20 bytes.
    pub fn to_hex_string(&self) -> (r: String)
        ensures
            r@ == crate::strings::spec_hex_of(spec_be_bytes_of_u32s(self.0@)),
    {
        let bytes = self.to_be_bytes();
        crate::strings::hex_encode(bytes.as_slice())
    }

    /// Big-endian digits.
    pub fn to_u32_digits(self) -> (r: [u32; 5])
        ensures
            r@ == self.0@,
    {
        self.0
    }
}

} // verus!
