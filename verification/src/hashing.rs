//! The hash primitive and the byte encodings fed into it.
//!
//! All hashing in the library goes through one 256-bit hash of a byte
//! string, named `keccak256_of` at the specification level. The two-to-one
//! tree compressions and the solidity-style hashes are verified encodings
//! around that single primitive.

use vstd::prelude::*;

verus! {

/// What the 256-bit hash returns on a byte string. The result depends on
/// the bytes alone; its 32-byte length is stated by the wrapper below.
pub uninterp spec fn keccak256_of(input: Seq<u8>) -> Seq<u8>;

/// Relies on tiny_keccak's `Keccak::v256` (keccak-256): the digest is a
/// function of the input bytes alone and is 32 bytes long.
#[verifier::external_body]
pub fn keccak256(input: &Vec<u8>) -> (r: [u8; 32])
    ensures
        r@ == keccak256_of(input@),
{
    let mut hasher = tiny_keccak::Keccak::v256();
    let mut output = [0u8; 32];
    tiny_keccak::Hasher::update(&mut hasher, input.as_slice());
    tiny_keccak::Hasher::finalize(hasher, &mut output);
    output
}

/// Big-endian bytes of one 32-bit word.
pub open spec fn spec_be_bytes_of_u32(x: u32) -> Seq<u8> {
    seq![
        ((x >> 24u32) & 0xff) as u8,
        ((x >> 16u32) & 0xff) as u8,
        ((x >> 8u32) & 0xff) as u8,
        (x & 0xff) as u8,
    ]
}

/// Big-endian bytes of one 64-bit word.
pub open spec fn spec_be_bytes_of_u64(x: u64) -> Seq<u8> {
    seq![
        ((x >> 56u64) & 0xff) as u8,
        ((x >> 48u64) & 0xff) as u8,
        ((x >> 40u64) & 0xff) as u8,
        ((x >> 32u64) & 0xff) as u8,
        ((x >> 24u64) & 0xff) as u8,
        ((x >> 16u64) & 0xff) as u8,
        ((x >> 8u64) & 0xff) as u8,
        (x & 0xff) as u8,
    ]
}

/// Big-endian byte stream of a sequence of 32-bit words.
pub open spec fn spec_be_bytes_of_u32s(s: Seq<u32>) -> Seq<u8>
    decreases s.len(),
{
    if s.len() == 0 {
        Seq::empty()
    } else {
        spec_be_bytes_of_u32(s[0]) + spec_be_bytes_of_u32s(s.drop_first())
    }
}

/// Big-endian byte stream of a sequence of 64-bit words.
pub open spec fn spec_be_bytes_of_u64s(s: Seq<u64>) -> Seq<u8>
    decreases s.len(),
{
    if s.len() == 0 {
        Seq::empty()
    } else {
        spec_be_bytes_of_u64(s[0]) + spec_be_bytes_of_u64s(s.drop_first())
    }
}

pub proof fn lemma_be_bytes_of_u32s_concat(a: Seq<u32>, b: Seq<u32>)
    ensures
        spec_be_bytes_of_u32s(a + b) == spec_be_bytes_of_u32s(a) + spec_be_bytes_of_u32s(b),
    decreases a.len(),
{
    if a.len() == 0 {
        assert(a + b =~= b);
        assert(spec_be_bytes_of_u32s(a) =~= Seq::<u8>::empty());
        assert(spec_be_bytes_of_u32s(a) + spec_be_bytes_of_u32s(b) =~= spec_be_bytes_of_u32s(b));
    } else {
        assert((a + b)[0] == a[0]);
        assert((a + b).drop_first() =~= a.drop_first() + b);
        lemma_be_bytes_of_u32s_concat(a.drop_first(), b);
        assert(spec_be_bytes_of_u32s(a + b) =~= spec_be_bytes_of_u32s(a) + spec_be_bytes_of_u32s(
            b,
        ));
    }
}

pub proof fn lemma_be_bytes_of_u32s_push(s: Seq<u32>, x: u32)
    ensures
        spec_be_bytes_of_u32s(s.push(x)) == spec_be_bytes_of_u32s(s) + spec_be_bytes_of_u32(x),
    decreases s.len(),
{
    reveal_with_fuel(spec_be_bytes_of_u32s, 2);
    if s.len() == 0 {
        assert(s.push(x)[0] == x);
        assert(s.push(x).drop_first() =~= Seq::<u32>::empty());
        assert(spec_be_bytes_of_u32s(s.push(x)) =~= spec_be_bytes_of_u32s(s)
            + spec_be_bytes_of_u32(x));
    } else {
        assert(s.push(x)[0] == s[0]);
        assert(s.push(x).drop_first() =~= s.drop_first().push(x));
        lemma_be_bytes_of_u32s_push(s.drop_first(), x);
        assert(spec_be_bytes_of_u32s(s.push(x)) =~= spec_be_bytes_of_u32s(s)
            + spec_be_bytes_of_u32(x));
    }
}

pub proof fn lemma_be_bytes_of_u64s_push(s: Seq<u64>, x: u64)
    ensures
        spec_be_bytes_of_u64s(s.push(x)) == spec_be_bytes_of_u64s(s) + spec_be_bytes_of_u64(x),
    decreases s.len(),
{
    reveal_with_fuel(spec_be_bytes_of_u64s, 2);
    if s.len() == 0 {
        assert(s.push(x)[0] == x);
        assert(s.push(x).drop_first() =~= Seq::<u64>::empty());
        assert(spec_be_bytes_of_u64s(s.push(x)) =~= spec_be_bytes_of_u64s(s)
            + spec_be_bytes_of_u64(x));
    } else {
        assert(s.push(x)[0] == s[0]);
        assert(s.push(x).drop_first() =~= s.drop_first().push(x));
        lemma_be_bytes_of_u64s_push(s.drop_first(), x);
        assert(spec_be_bytes_of_u64s(s.push(x)) =~= spec_be_bytes_of_u64s(s)
            + spec_be_bytes_of_u64(x));
    }
}

/// Append the big-endian bytes of `x` to `out`.
pub fn push_be_bytes_of_u32(out: &mut Vec<u8>, x: u32)
    ensures
        final(out)@ == old(out)@ + spec_be_bytes_of_u32(x),
{
    out.push(((x >> 24u32) & 0xff) as u8);
    out.push(((x >> 16u32) & 0xff) as u8);
    out.push(((x >> 8u32) & 0xff) as u8);
    out.push((x & 0xff) as u8);
    assert(out@ =~= old(out)@ + spec_be_bytes_of_u32(x));
}

/// Append the big-endian bytes of `x` to `out`.
pub fn push_be_bytes_of_u64(out: &mut Vec<u8>, x: u64)
    ensures
        final(out)@ == old(out)@ + spec_be_bytes_of_u64(x),
{
    out.push(((x >> 56u64) & 0xff) as u8);
    out.push(((x >> 48u64) & 0xff) as u8);
    out.push(((x >> 40u64) & 0xff) as u8);
    out.push(((x >> 32u64) & 0xff) as u8);
    out.push(((x >> 24u64) & 0xff) as u8);
    out.push(((x >> 16u64) & 0xff) as u8);
    out.push(((x >> 8u64) & 0xff) as u8);
    out.push((x & 0xff) as u8);
    assert(out@ =~= old(out)@ + spec_be_bytes_of_u64(x));
}

/// The big-endian byte stream of a slice of 32-bit words.
pub fn be_bytes_of_u32s(input: &[u32]) -> (r: Vec<u8>)
    ensures
        r@ == spec_be_bytes_of_u32s(input@),
{
    let mut out: Vec<u8> = Vec::new();
    let mut i: usize = 0;
    while i < input.len()
        invariant
            i <= input@.len(),
            out@ == spec_be_bytes_of_u32s(input@.take(i as int)),
        decreases input@.len() - i,
    {
        proof {
            assert(input@.take(i + 1).drop_last() =~= input@.take(i as int));
            lemma_be_bytes_of_u32s_push(input@.take(i as int), input@[i as int]);
            assert(input@.take(i + 1) =~= input@.take(i as int).push(input@[i as int]));
        }
        push_be_bytes_of_u32(&mut out, input[i]);
        i = i + 1;
    }
    proof {
        assert(input@.take(input@.len() as int) =~= input@);
    }
    out
}

/// The big-endian byte stream of a slice of 64-bit words.
pub fn be_bytes_of_u64s(input: &[u64]) -> (r: Vec<u8>)
    ensures
        r@ == spec_be_bytes_of_u64s(input@),
{
    let mut out: Vec<u8> = Vec::new();
    let mut i: usize = 0;
    while i < input.len()
        invariant
            i <= input@.len(),
            out@ == spec_be_bytes_of_u64s(input@.take(i as int)),
        decreases input@.len() - i,
    {
        proof {
            lemma_be_bytes_of_u64s_push(input@.take(i as int), input@[i as int]);
            assert(input@.take(i + 1) =~= input@.take(i as int).push(input@[i as int]));
        }
        push_be_bytes_of_u64(&mut out, input[i]);
        i = i + 1;
    }
    proof {
        assert(input@.take(input@.len() as int) =~= input@);
    }
    out
}

/// 32-bit words widened, one for one, to 64-bit field elements.
pub open spec fn u32s_as_u64s(s: Seq<u32>) -> Seq<u64> {
    Seq::new(s.len(), |i: int| s[i] as u64)
}

/// Fix a 32-byte vector into an array.
pub fn bytes32_from_vec(v: &Vec<u8>) -> (r: [u8; 32])
    requires
        v@.len() == 32,
    ensures
        r@ == v@,
{
    let r: [u8; 32] = [
        v[0],
        v[1],
        v[2],
        v[3],
        v[4],
        v[5],
        v[6],
        v[7],
        v[8],
        v[9],
        v[10],
        v[11],
        v[12],
        v[13],
        v[14],
        v[15],
        v[16],
        v[17],
        v[18],
        v[19],
        v[20],
        v[21],
        v[22],
        v[23],
        v[24],
        v[25],
        v[26],
        v[27],
        v[28],
        v[29],
        v[30],
        v[31],
    ];
    proof {
        assert(r@ =~= v@);
    }
    r
}

/// Read one 32-bit word from four big-endian bytes.
pub fn u32_from_be_bytes4(b0: u8, b1: u8, b2: u8, b3: u8) -> (r: u32)
    ensures
        r == (b0 as u32) * 0x100_0000 + (b1 as u32) * 0x1_0000 + (b2 as u32) * 0x100 + (b3 as u32),
        spec_be_bytes_of_u32(r) == seq![b0, b1, b2, b3],
{
    let r: u32 = ((b0 as u32) << 24u32) | ((b1 as u32) << 16u32) | ((b2 as u32) << 8u32) | (
    b3 as u32);
    proof {
        assert(r == (b0 as u32) * 0x100_0000 + (b1 as u32) * 0x1_0000 + (b2 as u32) * 0x100 + (
        b3 as u32) && ((r >> 24u32) & 0xff) as u8 == b0 && ((r >> 16u32) & 0xff) as u8 == b1 && ((r
            >> 8u32) & 0xff) as u8 == b2 && (r & 0xff) as u8 == b3) by (bit_vector)
            requires
                r == ((b0 as u32) << 24u32) | ((b1 as u32) << 16u32) | ((b2 as u32) << 8u32) | (
                b3 as u32),
        ;
        assert(spec_be_bytes_of_u32(r) =~= seq![b0, b1, b2, b3]);
    }
    r
}

} // verus!
