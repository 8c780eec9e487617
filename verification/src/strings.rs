//! String encodings of the wire types: lowercase hex for byte strings and
//! hash values, decimal for 256-bit amounts, and list joining.

use vstd::prelude::*;
use vstd::string::StringSliceAdditionalSpecFns;

verus! {

/// The lowercase hex digit of a value below sixteen.
pub open spec fn spec_hex_digit(n: int) -> char {
    if n == 0 {
        '0'
    } else if n == 1 {
        '1'
    } else if n == 2 {
        '2'
    } else if n == 3 {
        '3'
    } else if n == 4 {
        '4'
    } else if n == 5 {
        '5'
    } else if n == 6 {
        '6'
    } else if n == 7 {
        '7'
    } else if n == 8 {
        '8'
    } else if n == 9 {
        '9'
    } else if n == 10 {
        'a'
    } else if n == 11 {
        'b'
    } else if n == 12 {
        'c'
    } else if n == 13 {
        'd'
    } else if n == 14 {
        'e'
    } else {
        'f'
    }
}

/// Two lowercase hex digits per byte, in order.
pub open spec fn spec_hex_of(bytes: Seq<u8>) -> Seq<char>
    decreases bytes.len(),
{
    if bytes.len() == 0 {
        Seq::empty()
    } else {
        seq![
            spec_hex_digit(bytes[0] as int / 16),
            spec_hex_digit(bytes[0] as int % 16),
        ] + spec_hex_of(bytes.drop_first())
    }
}

/// The value of one hex digit character, upper or lower case; sixteen
/// where the character is no hex digit.
pub open spec fn spec_hex_val(c: char) -> int {
    if c == '0' {
        0
    } else if c == '1' {
        1
    } else if c == '2' {
        2
    } else if c == '3' {
        3
    } else if c == '4' {
        4
    } else if c == '5' {
        5
    } else if c == '6' {
        6
    } else if c == '7' {
        7
    } else if c == '8' {
        8
    } else if c == '9' {
        9
    } else if c == 'a' || c == 'A' {
        10
    } else if c == 'b' || c == 'B' {
        11
    } else if c == 'c' || c == 'C' {
        12
    } else if c == 'd' || c == 'D' {
        13
    } else if c == 'e' || c == 'E' {
        14
    } else if c == 'f' || c == 'F' {
        15
    } else {
        16
    }
}

/// Whether a string is well-formed hex: even length, hex digits only.
pub open spec fn spec_is_hex(s: Seq<char>) -> bool {
    s.len() % 2 == 0 && forall|i: int| 0 <= i < s.len() ==> spec_hex_val(#[trigger] s[i]) < 16
}

/// The bytes a well-formed hex string denotes.
pub open spec fn spec_unhex(s: Seq<char>) -> Seq<u8>
    decreases s.len(),
{
    if s.len() < 2 {
        Seq::empty()
    } else {
        seq![(spec_hex_val(s[0]) * 16 + spec_hex_val(s[1])) as u8] + spec_unhex(s.skip(2))
    }
}

/// A well-formed hex string of `2 n` characters denotes `n` bytes.
pub proof fn lemma_unhex_len(s: Seq<char>)
    ensures
        spec_unhex(s).len() == s.len() / 2,
    decreases s.len(),
{
    if s.len() >= 2 {
        lemma_unhex_len(s.skip(2));
    }
}

/// Relies on hex::encode (hex 0.4): two lowercase hex digits per input
/// byte, in input order.
#[verifier::external_body]
pub fn hex_encode(bytes: &[u8]) -> (r: String)
    ensures
        r@ == spec_hex_of(bytes@),
{
    hex::encode(bytes)
}

/// Relies on hex::decode (hex 0.4): succeeds exactly on even-length
/// strings of hex digits (either case) and returns the denoted bytes.
#[verifier::external_body]
pub fn hex_decode(s: &str) -> (r: Option<Vec<u8>>)
    ensures
        r is Some <==> spec_is_hex(s@),
        r is Some ==> r->0@ == spec_unhex(s@),
{
    match hex::decode(s) {
        Ok(v) => Some(v),
        Err(_) => None,
    }
}

/// The value of big-endian bytes, base 256.
pub open spec fn spec_bytes_be_nat(s: Seq<u8>) -> nat
    decreases s.len(),
{
    if s.len() == 0 {
        0
    } else {
        (spec_bytes_be_nat(s.drop_last()) * 256 + s.last()) as nat
    }
}

/// The decimal digit characters of a number, most significant first.
pub open spec fn spec_decimal(n: nat) -> Seq<char>
    decreases n,
{
    if n < 10 {
        seq![spec_hex_digit(n as int)]
    } else {
        spec_decimal(n / 10) + seq![spec_hex_digit((n % 10) as int)]
    }
}

/// Relies on num_bigint's BigUint (from_bytes_be, to_str_radix): the
/// decimal representation of the bytes' big-endian value, without leading
/// zeros.
#[verifier::external_body]
pub fn decimal_of_be_bytes(bytes: &[u8; 32]) -> (r: String)
    ensures
        r@ == spec_decimal(spec_bytes_be_nat(bytes@)),
{
    let n = num_bigint::BigUint::from_bytes_be(bytes.as_slice());
    n.to_str_radix(10)
}

/// Whether a byte string is a plain decimal number: nonempty, the digit
/// codes only.
pub open spec fn spec_is_decimal(b: Seq<u8>) -> bool {
    b.len() > 0 && forall|i: int| 0 <= i < b.len() ==> 48 <= #[trigger] b[i] <= 57
}

/// The value a decimal digit byte string denotes.
pub open spec fn spec_decimal_val(b: Seq<u8>) -> nat
    decreases b.len(),
{
    if b.len() == 0 {
        0
    } else {
        (spec_decimal_val(b.drop_last()) * 10 + (b.last() - 48)) as nat
    }
}

/// Relies on num_bigint's BigUint (from_str_radix base ten, to_bytes_be):
/// on a nonempty string of decimal digits it returns the denoted value as
/// 32 big-endian bytes, or nothing where the value needs more than 32
/// bytes.
#[verifier::external_body]
pub fn decimal_digits_to_be_bytes(s: &str) -> (r: Option<[u8; 32]>)
    requires
        spec_is_decimal(s.spec_bytes()),
    ensures
        r is Some <==> spec_decimal_val(s.spec_bytes()) < vstd::arithmetic::power2::pow2(256),
        r is Some ==> spec_bytes_be_nat(r->0@) == spec_decimal_val(s.spec_bytes()),
{
    let n = match <num_bigint::BigUint as num_traits::Num>::from_str_radix(s, 10) {
        Ok(n) => n,
        Err(_) => {
            return None;
        },
    };
    if n.bits() > 256 {
        return None;
    }
    let bytes = n.to_bytes_be();
    let mut out = [0u8; 32];
    out[32 - bytes.len()..].copy_from_slice(&bytes);
    Some(out)
}

/// What a joined list reads as: the entries with the separator between
/// each neighboring pair.
pub open spec fn spec_join(parts: Seq<Seq<char>>, sep: Seq<char>) -> Seq<char>
    decreases parts.len(),
{
    if parts.len() == 0 {
        Seq::empty()
    } else if parts.len() == 1 {
        parts[0]
    } else {
        spec_join(parts.drop_last(), sep) + sep + parts.last()
    }
}

/// Join string slices with a separator between neighbors.
pub fn join_str_with_separator(slice: &Vec<String>, separator: &str) -> (r: String)
    ensures
        r@ == spec_join(Seq::new(slice@.len(), |i: int| slice@[i]@), separator@),
{
    let ghost parts = Seq::new(slice@.len(), |i: int| slice@[i]@);
    let mut result = String::new();
    let mut i: usize = 0;
    while i < slice.len()
        invariant
            parts == Seq::new(slice@.len(), |i2: int| slice@[i2]@),
            i <= slice@.len(),
            result@ == spec_join(parts.take(i as int), separator@),
        decreases slice@.len() - i,
    {
        if i > 0 {
            result.append(separator);
        }
        result.append(slice[i].as_str());
        proof {
            assert(parts.take(i + 1).drop_last() =~= parts.take(i as int));
            assert(parts.take(i + 1).last() == parts[i as int]);
            if i == 0 {
                assert(parts.take(1) =~= seq![parts[0]]);
            }
        }
        i = i + 1;
    }
    proof {
        assert(parts.take(parts.len() as int) =~= parts);
    }
    result
}

} // verus!
