//! The proof wire format: a compressed proof blob carried as bytes and
//! moved over JSON as a lowercase hex string. Compressing and
//! decompressing against a circuit's verification data is the proving
//! backend's part; the blob itself round-trips exactly.

use vstd::prelude::*;

use crate::error::ZkpError;
use crate::strings::{
    hex_encode, hex_decode, spec_hex_of, spec_unhex, spec_is_hex, spec_hex_digit, spec_hex_val,
};

verus! {

pub struct SerializedProof(pub Vec<u8>);

impl SerializedProof {
    /// The blob as a lowercase hex string.
    pub fn to_hex(&self) -> (r: String)
        ensures
            r@ == spec_hex_of(self.0@),
    {
        hex_encode(self.0.as_slice())
    }

    /// Read a blob back from a hex string; fails exactly on malformed hex.
    pub fn from_hex(s: &str) -> (r: Result<SerializedProof, ZkpError>)
        ensures
            r is Ok <==> spec_is_hex(s@),
            r is Ok ==> r->Ok_0.0@ == spec_unhex(s@),
            r is Err ==> r->Err_0 == ZkpError::HexDecodeError,
    {
        match hex_decode(s) {
            Some(v) => Ok(SerializedProof(v)),
            None => Err(ZkpError::HexDecodeError),
        }
    }
}

/// Writing bytes as hex and reading them back yields the bytes: the hex
/// transport is lossless.
pub proof fn lemma_hex_roundtrip(bytes: Seq<u8>)
    ensures
        spec_is_hex(spec_hex_of(bytes)),
        spec_unhex(spec_hex_of(bytes)) == bytes,
    decreases bytes.len(),
{
    lemma_hex_of_len(bytes);
    if bytes.len() == 0 {
        assert(spec_unhex(spec_hex_of(bytes)) =~= bytes);
    } else {
        let b = bytes[0];
        let hi = spec_hex_digit(b as int / 16);
        let lo = spec_hex_digit(b as int % 16);
        lemma_hex_digit_val(b as int / 16);
        lemma_hex_digit_val(b as int % 16);
        lemma_hex_roundtrip(bytes.drop_first());
        let s = spec_hex_of(bytes);
        assert(s == seq![hi, lo] + spec_hex_of(bytes.drop_first()));
        assert(s.skip(2) =~= spec_hex_of(bytes.drop_first()));
        assert(spec_hex_val(s[0]) * 16 + spec_hex_val(s[1]) == b);
        assert(spec_unhex(s) =~= bytes);
        assert forall|i: int| 0 <= i < s.len() implies spec_hex_val(#[trigger] s[i]) < 16 by {
            if i >= 2 {
                assert(s[i] == spec_hex_of(bytes.drop_first())[i - 2]);
            }
        }
    }
}

/// A digit below sixteen reads back as its own value.
proof fn lemma_hex_digit_val(n: int)
    requires
        0 <= n < 16,
    ensures
        spec_hex_val(spec_hex_digit(n)) == n,
{
}

/// The hex string of `n` bytes has `2 n` characters.
proof fn lemma_hex_of_len(bytes: Seq<u8>)
    ensures
        spec_hex_of(bytes).len() == 2 * bytes.len(),
    decreases bytes.len(),
{
    if bytes.len() > 0 {
        lemma_hex_of_len(bytes.drop_first());
    }
}

} // verus!
