//! Solidity-style 256-bit unsigned integers.
//!
//! A value is eight 32-bit limbs in big-endian order. All arithmetic is
//! specified against the mathematical value `as_nat`; addition and
//! subtraction are proved exact and free of overflow under their
//! preconditions.

use vstd::prelude::*;
use vstd::string::StringSliceAdditionalSpecFns;
use vstd::arithmetic::power2::{pow2, lemma_pow2_adds, lemma_pow2_pos};

use crate::hashing::{spec_be_bytes_of_u32, spec_be_bytes_of_u32s};

verus! {

/// The value of big-endian limbs: Horner evaluation peeling the least
/// significant (last) limb.
pub open spec fn be_nat(s: Seq<u32>) -> nat
    decreases s.len(),
{
    if s.len() == 0 {
        0
    } else {
        (be_nat(s.drop_last()) * 0x1_0000_0000 + s.last()) as nat
    }
}

/// Every limb sequence denotes a value below `2^(32 * len)`.
pub proof fn lemma_be_nat_bound(s: Seq<u32>)
    ensures
        be_nat(s) < pow2(32 * s.len()),
    decreases s.len(),
{
    if s.len() == 0 {
        assert(pow2(0) == 1) by {
            lemma_pow2_pos(0);
            vstd::arithmetic::power2::lemma2_to64();
        }
    } else {
        lemma_be_nat_bound(s.drop_last());
        lemma_pow2_adds(32 * (s.len() - 1) as nat, 32);
        assert(pow2(32) == 0x1_0000_0000) by {
            vstd::arithmetic::power2::lemma2_to64();
        }
        assert(be_nat(s.drop_last()) * 0x1_0000_0000 + s.last() < pow2(32 * (s.len() - 1) as nat)
            * 0x1_0000_0000) by (nonlinear_arith)
            requires
                be_nat(s.drop_last()) < pow2(32 * (s.len() - 1) as nat),
                s.last() < 0x1_0000_0000,
        ;
        assert(32 * s.len() == 32 * (s.len() - 1) as nat + 32);
    }
}

/// Concatenation splits the value: the head limbs are shifted by the
/// width of the tail.
pub proof fn lemma_be_nat_concat(u: Seq<u32>, v: Seq<u32>)
    ensures
        be_nat(u + v) == be_nat(u) * pow2(32 * v.len()) + be_nat(v),
    decreases v.len(),
{
    if v.len() == 0 {
        assert(u + v =~= u);
        assert(32 * v.len() == 0);
        assert(pow2(0) == 1) by {
            vstd::arithmetic::power2::lemma2_to64();
        }
        assert(be_nat(v) == 0);
        assert(be_nat(u) * 1 == be_nat(u)) by (nonlinear_arith);
        assert(be_nat(u + v) == be_nat(u) * pow2(32 * v.len()) + be_nat(v));
    } else {
        lemma_be_nat_concat(u, v.drop_last());
        assert((u + v).drop_last() =~= u + v.drop_last());
        assert((u + v).last() == v.last());
        let p1 = pow2(32 * (v.len() - 1) as nat);
        lemma_pow2_adds(32 * (v.len() - 1) as nat, 32);
        assert(pow2(32) == 0x1_0000_0000) by {
            vstd::arithmetic::power2::lemma2_to64();
        }
        assert(pow2(32 * v.len()) == p1 * 0x1_0000_0000);
        assert(be_nat(u + v) == (be_nat(u) * p1 + be_nat(v.drop_last())) * 0x1_0000_0000
            + v.last());
        assert((be_nat(u) * p1 + be_nat(v.drop_last())) * 0x1_0000_0000 + v.last() == be_nat(u) * (
        p1 * 0x1_0000_0000) + (be_nat(v.drop_last()) * 0x1_0000_0000 + v.last()))
            by (nonlinear_arith);
        assert(be_nat(v) == be_nat(v.drop_last()) * 0x1_0000_0000 + v.last());
        assert(be_nat(u + v) == be_nat(u) * pow2(32 * v.len()) + be_nat(v));
    }
}

/// If two equal-length limb sequences agree on a prefix and the first
/// differing limb is smaller, the value is smaller.
pub proof fn lemma_be_nat_prefix_lt(s: Seq<u32>, t: Seq<u32>, i: int)
    requires
        s.len() == t.len(),
        0 <= i < s.len(),
        s.subrange(0, i) == t.subrange(0, i),
        s[i] < t[i],
    ensures
        be_nat(s) < be_nat(t),
{
    let n = s.len() as int;
    let sh = s.subrange(0, i + 1);
    let st = s.subrange(i + 1, n);
    let th = t.subrange(0, i + 1);
    let tt = t.subrange(i + 1, n);
    assert(s =~= sh + st);
    assert(t =~= th + tt);
    lemma_be_nat_concat(sh, st);
    lemma_be_nat_concat(th, tt);
    // value of the shared prefix extended by one limb
    assert(sh.drop_last() =~= s.subrange(0, i));
    assert(th.drop_last() =~= t.subrange(0, i));
    assert(be_nat(sh) == be_nat(s.subrange(0, i)) * 0x1_0000_0000 + s[i]);
    assert(be_nat(th) == be_nat(t.subrange(0, i)) * 0x1_0000_0000 + t[i]);
    assert(be_nat(sh) < be_nat(th));
    lemma_be_nat_bound(st);
    assert(st.len() == tt.len());
    let p = pow2(32 * st.len());
    lemma_pow2_pos(32 * st.len());
    assert(be_nat(sh) * p + be_nat(st) < be_nat(th) * p + be_nat(tt)) by (nonlinear_arith)
        requires
            be_nat(sh) < be_nat(th),
            be_nat(st) < p,
            0 < p,
            be_nat(tt) >= 0,
    ;
}

/// A sequence of all-ones limbs denotes `2^(32 * len) - 1`.
pub proof fn lemma_be_nat_all_max(s: Seq<u32>)
    requires
        forall|j: int| 0 <= j < s.len() ==> s[j] == 0xffff_ffffu32,
    ensures
        be_nat(s) == pow2(32 * s.len()) - 1,
    decreases s.len(),
{
    if s.len() == 0 {
        assert(pow2(0) == 1) by {
            vstd::arithmetic::power2::lemma2_to64();
        }
    } else {
        lemma_be_nat_all_max(s.drop_last());
        lemma_pow2_adds(32 * (s.len() - 1) as nat, 32);
        assert(pow2(32) == 0x1_0000_0000) by {
            vstd::arithmetic::power2::lemma2_to64();
        }
        assert((pow2(32 * (s.len() - 1) as nat) - 1) * 0x1_0000_0000 + 0xffff_ffff == pow2(32 * (
        s.len() - 1) as nat) * 0x1_0000_0000 - 1) by (nonlinear_arith);
    }
}

/// Store 32 bits per limb, big-endian.
#[derive(Copy, Clone, Debug)]
pub struct U256(pub [u32; 8]);

impl PartialEq for U256 {
    fn eq(&self, other: &U256) -> (r: bool) {
        let r = self.0[0] == other.0[0] && self.0[1] == other.0[1] && self.0[2] == other.0[2]
            && self.0[3] == other.0[3] && self.0[4] == other.0[4] && self.0[5] == other.0[5]
            && self.0[6] == other.0[6] && self.0[7] == other.0[7];
        proof {
            if r {
                assert(self.0@ =~= other.0@);
            }
        }
        r
    }
}

impl Eq for U256 {

}

impl vstd::std_specs::cmp::PartialEqSpecImpl for U256 {
    open spec fn obeys_eq_spec() -> bool {
        true
    }

    open spec fn eq_spec(&self, other: &U256) -> bool {
        self.0@ == other.0@
    }
}

impl U256 {
    /// The mathematical value of this number.
    pub open spec fn as_nat(self) -> nat {
        be_nat(self.0@)
    }

    /// The value always fits in 256 bits.
    pub proof fn lemma_as_nat_bound(self)
        ensures
            self.as_nat() < pow2(256),
    {
        lemma_be_nat_bound(self.0@);
    }

    /// The all-zero value.
    pub fn zero() -> (r: Self)
        ensures
            r.as_nat() == 0,
            r.0@ =~= Seq::<u32>::new(8, |i: int| 0u32),
    {
        let r = U256([0u32; 8]);
        proof {
            assert(r.0@ =~= Seq::<u32>::new(8, |i: int| 0u32));
            lemma_be_nat_zero(r.0@);
        }
        r
    }

    /// The largest representable value, `2^256 - 1`.
    pub fn max() -> (r: Self)
        ensures
            r.as_nat() == pow2(256) - 1,
    {
        let r = U256([0xffff_ffffu32; 8]);
        proof {
            lemma_be_nat_all_max(r.0@);
        }
        r
    }

    pub fn to_u32_digits(self) -> (r: [u32; 8])
        ensures
            r@ == self.0@,
    {
        self.0
    }

    pub fn from_u32_digits(input: [u32; 8]) -> (r: Self)
        ensures
            r.0@ == input@,
    {
        U256(input)
    }
}

impl U256 {
    /// Component-wise sum. The precondition rules the overflow out; use
    /// `does_overflow_after_add` or `checked_add` first where it is not known.
    pub fn add(self, rhs: Self) -> (r: Self)
        requires
            self.as_nat() + rhs.as_nat() < pow2(256),
        ensures
            r.as_nat() == self.as_nat() + rhs.as_nat(),
    {
        let mut res: Vec<u32> = Vec::new();
        let mut carry: u64 = 0;
        let mut i: usize = 8;
        proof {
            assert(self.0@.subrange(8, 8) =~= Seq::<u32>::empty());
            assert(rhs.0@.subrange(8, 8) =~= Seq::<u32>::empty());
            assert(pow2(0) == 1) by {
                vstd::arithmetic::power2::lemma2_to64();
            }
        }
        while i > 0
            invariant
                i <= 8,
                carry <= 1,
                res@.len() == 8 - i,
                be_nat(self.0@.subrange(i as int, 8)) + be_nat(rhs.0@.subrange(i as int, 8))
                    == be_nat(res@) + carry * pow2((32 * (8 - i)) as nat),
            decreases i,
        {
            let ghost prev_res = res@;
            let ghost prev_carry = carry;
            let ghost ii = i as int;
            i = i - 1;
            let c: u64 = carry + (self.0[i] as u64) + (rhs.0[i] as u64);
            proof {
                assert(c & 0xffff_ffff <= 0xffff_ffffu64) by (bit_vector);
            }
            let limb: u32 = (c & 0xffff_ffff) as u32;
            carry = c >> 32u64;
            res.insert(0, limb);
            proof {
                assert(res@ =~= seq![limb] + prev_res);
                lemma_add_limb_step(
                    self.0@,
                    rhs.0@,
                    prev_res,
                    res@,
                    ii,
                    prev_carry,
                    c,
                    limb,
                    carry,
                );
            }
        }
        proof {
            assert(self.0@.subrange(0, 8) =~= self.0@);
            assert(rhs.0@.subrange(0, 8) =~= rhs.0@);
            lemma_be_nat_bound(res@);
            if carry >= 1 {
                assert(self.as_nat() + rhs.as_nat() >= pow2(256));
            }
        }
        let arr: [u32; 8] = [res[0], res[1], res[2], res[3], res[4], res[5], res[6], res[7]];
        proof {
            assert(arr@ =~= res@);
        }
        U256(arr)
    }

    /// Component-wise difference. The precondition rules the underflow out.
    pub fn sub(self, rhs: Self) -> (r: Self)
        requires
            self.as_nat() >= rhs.as_nat(),
        ensures
            r.as_nat() == self.as_nat() - rhs.as_nat(),
    {
        let mut res: Vec<u32> = Vec::new();
        let mut borrow: u64 = 0;
        let mut i: usize = 8;
        proof {
            assert(self.0@.subrange(8, 8) =~= Seq::<u32>::empty());
            assert(rhs.0@.subrange(8, 8) =~= Seq::<u32>::empty());
            assert(pow2(0) == 1) by {
                vstd::arithmetic::power2::lemma2_to64();
            }
        }
        while i > 0
            invariant
                i <= 8,
                borrow <= 1,
                res@.len() == 8 - i,
                be_nat(self.0@.subrange(i as int, 8)) + borrow * pow2((32 * (8 - i)) as nat)
                    == be_nat(rhs.0@.subrange(i as int, 8)) + be_nat(res@),
            decreases i,
        {
            let ghost prev_res = res@;
            let ghost prev_borrow = borrow;
            let ghost ii = i as int;
            i = i - 1;
            let d: u64 = 0x1_0000_0000u64 + (self.0[i] as u64) - (rhs.0[i] as u64) - borrow;
            proof {
                assert(d & 0xffff_ffff <= 0xffff_ffffu64) by (bit_vector);
                assert(d >> 32u64 <= 1) by (bit_vector)
                    requires
                        d <= 0x1_ffff_ffffu64,
                ;
            }
            let limb: u32 = (d & 0xffff_ffff) as u32;
            borrow = 1 - (d >> 32u64);
            res.insert(0, limb);
            proof {
                assert(res@ =~= seq![limb] + prev_res);
                lemma_sub_limb_step(
                    self.0@,
                    rhs.0@,
                    prev_res,
                    res@,
                    ii,
                    prev_borrow,
                    d,
                    limb,
                    borrow,
                );
            }
        }
        proof {
            assert(self.0@.subrange(0, 8) =~= self.0@);
            assert(rhs.0@.subrange(0, 8) =~= rhs.0@);
            lemma_be_nat_bound(res@);
            lemma_be_nat_bound(rhs.0@);
            lemma_pow2_pos(256);
            if borrow >= 1 {
                assert(borrow * pow2(256) >= pow2(256)) by (nonlinear_arith)
                    requires
                        borrow >= 1,
                        pow2(256) > 0,
                ;
                assert(false);
            }
        }
        let arr: [u32; 8] = [res[0], res[1], res[2], res[3], res[4], res[5], res[6], res[7]];
        proof {
            assert(arr@ =~= res@);
        }
        U256(arr)
    }

    /// `self < other` on the mathematical values.
    pub fn lt(&self, other: &Self) -> (r: bool)
        ensures
            r == (self.as_nat() < other.as_nat()),
    {
        let mut i: usize = 0;
        while i < 8
            invariant
                i <= 8,
                self.0@.subrange(0, i as int) == other.0@.subrange(0, i as int),
            decreases 8 - i,
        {
            if self.0[i] < other.0[i] {
                proof {
                    lemma_be_nat_prefix_lt(self.0@, other.0@, i as int);
                }
                return true;
            }
            if self.0[i] > other.0[i] {
                proof {
                    lemma_be_nat_prefix_lt(other.0@, self.0@, i as int);
                }
                return false;
            }
            proof {
                assert(self.0@.subrange(0, i + 1) =~= other.0@.subrange(0, i + 1));
            }
            i = i + 1;
        }
        proof {
            assert(self.0@.subrange(0, 8) =~= self.0@);
            assert(other.0@.subrange(0, 8) =~= other.0@);
        }
        false
    }

    /// `self <= other` on the mathematical values.
    pub fn le(&self, other: &Self) -> (r: bool)
        ensures
            r == (self.as_nat() <= other.as_nat()),
    {
        !other.lt(self)
    }

    /// Whether `self + other` would exceed the 256-bit range.
    pub fn does_overflow_after_add(&self, other: &Self) -> (r: bool)
        ensures
            r == (self.as_nat() + other.as_nat() >= pow2(256)),
    {
        proof {
            self.lemma_as_nat_bound();
        }
        let max_minus_self = Self::max().sub(*self);
        max_minus_self.lt(other)
    }

    /// The sum, or `None` where it would not fit in 256 bits.
    pub fn checked_add(self, rhs: Self) -> (r: Option<Self>)
        ensures
            self.as_nat() + rhs.as_nat() < pow2(256) ==> r is Some && r->0.as_nat()
                == self.as_nat() + rhs.as_nat(),
            self.as_nat() + rhs.as_nat() >= pow2(256) ==> r is None,
    {
        if self.does_overflow_after_add(&rhs) {
            None
        } else {
            Some(self.add(rhs))
        }
    }
}

/// One limb step of the addition loop: extending the processed suffix by
/// the next more significant limb keeps the carry equation.
proof fn lemma_add_limb_step(
    a: Seq<u32>,
    b: Seq<u32>,
    prev_res: Seq<u32>,
    res: Seq<u32>,
    i: int,
    prev_carry: u64,
    c: u64,
    limb: u32,
    carry: u64,
)
    requires
        a.len() == 8,
        b.len() == 8,
        1 <= i <= 8,
        prev_res.len() == 8 - i,
        prev_carry <= 1,
        be_nat(a.subrange(i, 8)) + be_nat(b.subrange(i, 8)) == be_nat(prev_res) + prev_carry
            * pow2((32 * (8 - i)) as nat),
        c == prev_carry + a[i - 1] + b[i - 1],
        limb == c & 0xffff_ffff,
        carry == c >> 32u64,
        res == seq![limb].add(prev_res),
    ensures
        carry <= 1,
        be_nat(a.subrange(i - 1, 8)) + be_nat(b.subrange(i - 1, 8)) == be_nat(res) + carry * pow2(
            (32 * (8 - (i - 1))) as nat,
        ),
{
    let p = pow2((32 * (8 - i)) as nat);
    let p2 = pow2((32 * (8 - (i - 1))) as nat);
    lemma_pow2_adds((32 * (8 - i)) as nat, 32);
    assert(pow2(32) == 0x1_0000_0000) by {
        vstd::arithmetic::power2::lemma2_to64();
    }
    assert(p2 == p * 0x1_0000_0000);
    assert(c == limb + (c >> 32u64) * 0x1_0000_0000 && c >> 32u64 <= 1) by (bit_vector)
        requires
            c <= 0x1_ffff_ffffu64,
            limb == c & 0xffff_ffff,
    ;
    assert(a.subrange(i - 1, 8) =~= seq![a[i - 1]] + a.subrange(i, 8));
    assert(b.subrange(i - 1, 8) =~= seq![b[i - 1]] + b.subrange(i, 8));
    lemma_be_nat_concat(seq![a[i - 1]], a.subrange(i, 8));
    lemma_be_nat_concat(seq![b[i - 1]], b.subrange(i, 8));
    lemma_be_nat_concat(seq![limb], prev_res);
    lemma_be_nat_single(a[i - 1]);
    lemma_be_nat_single(b[i - 1]);
    lemma_be_nat_single(limb);
    assert(a.subrange(i, 8).len() == 8 - i);
    assert(prev_res.len() == 8 - i);
    // all terms are multiples of p plus the prior suffix equation
    assert((a[i - 1] + b[i - 1] + prev_carry) * p == (limb + carry * 0x1_0000_0000) * p)
        by (nonlinear_arith)
        requires
            c == prev_carry + a[i - 1] + b[i - 1],
            c == limb + carry * 0x1_0000_0000,
    ;
    assert(a[i - 1] * p + b[i - 1] * p + prev_carry * p == limb * p + carry * (0x1_0000_0000 * p))
        by (nonlinear_arith)
        requires
            (a[i - 1] + b[i - 1] + prev_carry) * p == (limb + carry * 0x1_0000_0000) * p,
    ;
    assert(res == seq![limb] + prev_res);
    assert(be_nat(res) == limb * p + be_nat(prev_res));
}

/// One limb step of the subtraction loop, with the borrow equation.
proof fn lemma_sub_limb_step(
    a: Seq<u32>,
    b: Seq<u32>,
    prev_res: Seq<u32>,
    res: Seq<u32>,
    i: int,
    prev_borrow: u64,
    d: u64,
    limb: u32,
    borrow: u64,
)
    requires
        a.len() == 8,
        b.len() == 8,
        1 <= i <= 8,
        prev_res.len() == 8 - i,
        prev_borrow <= 1,
        be_nat(a.subrange(i, 8)) + prev_borrow * pow2((32 * (8 - i)) as nat) == be_nat(
            b.subrange(i, 8),
        ) + be_nat(prev_res),
        d == 0x1_0000_0000 + a[i - 1] - b[i - 1] - prev_borrow,
        limb == d & 0xffff_ffff,
        borrow == 1 - (d >> 32u64),
        res == seq![limb].add(prev_res),
    ensures
        borrow <= 1,
        be_nat(a.subrange(i - 1, 8)) + borrow * pow2((32 * (8 - (i - 1))) as nat) == be_nat(
            b.subrange(i - 1, 8),
        ) + be_nat(res),
{
    let p = pow2((32 * (8 - i)) as nat);
    let p2 = pow2((32 * (8 - (i - 1))) as nat);
    lemma_pow2_adds((32 * (8 - i)) as nat, 32);
    assert(pow2(32) == 0x1_0000_0000) by {
        vstd::arithmetic::power2::lemma2_to64();
    }
    assert(p2 == p * 0x1_0000_0000);
    assert(d == limb + (d >> 32u64) * 0x1_0000_0000 && d >> 32u64 <= 1) by (bit_vector)
        requires
            d <= 0x1_ffff_ffffu64,
            limb == d & 0xffff_ffff,
    ;
    assert(a.subrange(i - 1, 8) =~= seq![a[i - 1]] + a.subrange(i, 8));
    assert(b.subrange(i - 1, 8) =~= seq![b[i - 1]] + b.subrange(i, 8));
    lemma_be_nat_concat(seq![a[i - 1]], a.subrange(i, 8));
    lemma_be_nat_concat(seq![b[i - 1]], b.subrange(i, 8));
    lemma_be_nat_concat(seq![limb], prev_res);
    lemma_be_nat_single(a[i - 1]);
    lemma_be_nat_single(b[i - 1]);
    lemma_be_nat_single(limb);
    // a[i-1] + borrow*2^32 == b[i-1] + prev_borrow + limb, scaled by p
    assert(a[i - 1] + borrow * 0x1_0000_0000 == b[i - 1] + prev_borrow + limb);
    assert((a[i - 1] + borrow * 0x1_0000_0000) * p == (b[i - 1] + prev_borrow + limb) * p)
        by (nonlinear_arith)
        requires
            a[i - 1] + borrow * 0x1_0000_0000 == b[i - 1] + prev_borrow + limb,
    ;
    assert(a[i - 1] * p + borrow * (0x1_0000_0000 * p) == b[i - 1] * p + prev_borrow * p + limb
        * p) by (nonlinear_arith)
        requires
            (a[i - 1] + borrow * 0x1_0000_0000) * p == (b[i - 1] + prev_borrow + limb) * p,
    ;
    assert(res == seq![limb] + prev_res);
    assert(be_nat(res) == limb * p + be_nat(prev_res));
}

impl U256 {
    /// Big-endian byte encoding.
    pub fn to_be_bytes(self) -> (r: [u8; 32])
        ensures
            r@ == spec_be_bytes_of_u32s(self.0@),
    {
        let v = crate::hashing::be_bytes_of_u32s(self.0.as_slice());
        proof {
            lemma_be_bytes_of_u32s_len(self.0@);
        }
        crate::hashing::bytes32_from_vec(&v)
    }

    /// Little-endian byte encoding: the big-endian bytes reversed.
    pub fn to_le_bytes(self) -> (r: [u8; 32])
        ensures
            r@ == spec_be_bytes_of_u32s(self.0@).reverse(),
    {
        let be = self.to_be_bytes();
        let mut v: Vec<u8> = Vec::new();
        let mut i: usize = 32;
        while i > 0
            invariant
                i <= 32,
                be@.len() == 32,
                v@.len() == 32 - i,
                forall|k: int| 0 <= k < v@.len() ==> v@[k] == be@[31 - k],
            decreases i,
        {
            i = i - 1;
            v.push(be[i]);
        }
        proof {
            assert(v@ =~= be@.reverse());
        }
        crate::hashing::bytes32_from_vec(&v)
    }

    /// Read a number from its big-endian byte encoding.
    pub fn from_be_bytes(bytes: [u8; 32]) -> (r: U256)
        ensures
            spec_be_bytes_of_u32s(r.0@) == bytes@,
    {
        let mut limbs: Vec<u32> = Vec::new();
        let mut k: usize = 0;
        proof {
            assert(bytes@.take(0) =~= Seq::<u8>::empty());
        }
        while k < 8
            invariant
                k <= 8,
                bytes@.len() == 32,
                limbs@.len() == k,
                spec_be_bytes_of_u32s(limbs@) == bytes@.take(4 * k),
            decreases 8 - k,
        {
            let limb = crate::hashing::u32_from_be_bytes4(
                bytes[4 * k],
                bytes[4 * k + 1],
                bytes[4 * k + 2],
                bytes[4 * k + 3],
            );
            proof {
                crate::hashing::lemma_be_bytes_of_u32s_push(limbs@, limb);
                assert(bytes@.take(4 * (k + 1)) =~= bytes@.take(4 * k as int) + seq![
                    bytes@[4 * k as int],
                    bytes@[4 * k + 1],
                    bytes@[4 * k + 2],
                    bytes@[4 * k + 3],
                ]);
            }
            limbs.push(limb);
            k = k + 1;
        }
        let arr: [u32; 8] = [
            limbs[0],
            limbs[1],
            limbs[2],
            limbs[3],
            limbs[4],
            limbs[5],
            limbs[6],
            limbs[7],
        ];
        proof {
            assert(arr@ =~= limbs@);
            assert(bytes@.take(32) =~= bytes@);
        }
        U256(arr)
    }

    /// Read a number from its little-endian byte encoding.
    pub fn from_le_bytes(bytes: [u8; 32]) -> (r: U256)
        ensures
            spec_be_bytes_of_u32s(r.0@) == bytes@.reverse(),
    {
        let mut v: Vec<u8> = Vec::new();
        let mut i: usize = 32;
        while i > 0
            invariant
                i <= 32,
                bytes@.len() == 32,
                v@.len() == 32 - i,
                forall|k: int| 0 <= k < v@.len() ==> v@[k] == bytes@[31 - k],
            decreases i,
        {
            i = i - 1;
            v.push(bytes[i]);
        }
        proof {
            assert(v@ =~= bytes@.reverse());
        }
        Self::from_be_bytes(crate::hashing::bytes32_from_vec(&v))
    }

    /// One field element per limb.
    pub fn to_vec(self) -> (r: Vec<u64>)
        ensures
            r@ == crate::hashing::u32s_as_u64s(self.0@),
            r@.len() == 8,
            forall|k: int| 0 <= k < 8 ==> r@[k] == self.0@[k] as u64,
    {
        let mut r: Vec<u64> = Vec::new();
        let mut k: usize = 0;
        while k < 8
            invariant
                k <= 8,
                r@.len() == k,
                forall|j: int| 0 <= j < k ==> r@[j] == self.0@[j] as u64,
            decreases 8 - k,
        {
            r.push(self.0[k] as u64);
            k = k + 1;
        }
        proof {
            assert(r@ =~= crate::hashing::u32s_as_u64s(self.0@));
        }
        r
    }

    /// Read limbs back from field elements, truncating each to 32 bits.
    pub fn from_vec(input: &[u64]) -> (r: Self)
        requires
            input@.len() == 8,
        ensures
            forall|k: int| 0 <= k < 8 ==> r.0@[k] == input@[k] as u32,
    {
        let arr: [u32; 8] = [
            input[0] as u32,
            input[1] as u32,
            input[2] as u32,
            input[3] as u32,
            input[4] as u32,
            input[5] as u32,
            input[6] as u32,
            input[7] as u32,
        ];
        U256(arr)
    }

    /// The value of a 64-bit number, in the two least significant limbs.
    pub fn from_u64(v: u64) -> (r: Self)
        ensures
            r.as_nat() == v,
    {
        proof {
            assert((v >> 32u64) <= 0xffff_ffffu64 && (v & 0xffff_ffff) <= 0xffff_ffffu64 && v == (v
                >> 32u64) * 0x1_0000_0000 + (v & 0xffff_ffff)) by (bit_vector);
        }
        let hi: u32 = (v >> 32u64) as u32;
        let lo: u32 = (v & 0xffff_ffff) as u32;
        let r = U256([0, 0, 0, 0, 0, 0, hi, lo]);
        proof {
            let s = r.0@;
            assert(s =~= s.subrange(0, 6) + seq![hi, lo]);
            lemma_be_nat_zero(s.subrange(0, 6));
            lemma_be_nat_concat(s.subrange(0, 6), seq![hi, lo]);
            lemma_be_nat_single(hi);
            assert(seq![hi, lo].drop_last() =~= seq![hi]);
            assert(be_nat(seq![hi, lo]) == hi * 0x1_0000_0000 + lo);
        }
        r
    }
}

impl From<u64> for U256 {
    fn from(v: u64) -> (r: U256) {
        U256::from_u64(v)
    }
}

impl vstd::std_specs::convert::FromSpecImpl<u64> for U256 {
    open spec fn obeys_from_spec() -> bool {
        false
    }

    open spec fn from_spec(v: u64) -> U256 {
        choose|r: U256| r.as_nat() == v
    }
}

impl vstd::std_specs::cmp::PartialOrdSpecImpl for U256 {
    open spec fn obeys_partial_cmp_spec() -> bool {
        true
    }

    open spec fn partial_cmp_spec(&self, other: &U256) -> Option<core::cmp::Ordering> {
        if self.as_nat() < other.as_nat() {
            Some(core::cmp::Ordering::Less)
        } else if self.as_nat() > other.as_nat() {
            Some(core::cmp::Ordering::Greater)
        } else {
            Some(core::cmp::Ordering::Equal)
        }
    }
}

impl PartialOrd for U256 {
    fn partial_cmp(&self, other: &U256) -> (r: Option<core::cmp::Ordering>) {
        if self.lt(other) {
            Some(core::cmp::Ordering::Less)
        } else if other.lt(self) {
            Some(core::cmp::Ordering::Greater)
        } else {
            Some(core::cmp::Ordering::Equal)
        }
    }
}

impl U256 {
    /// Read a number from lowercase or uppercase hex without a prefix;
    /// exactly 64 hex digits are accepted.
    pub fn from_hex(hex: &str) -> (r: Result<U256, crate::error::ZkpError>)
        ensures
            r is Ok <==> (crate::strings::spec_is_hex(hex@) && hex@.len() == 64),
            r is Ok ==> spec_be_bytes_of_u32s(r->Ok_0.0@) == crate::strings::spec_unhex(hex@),
    {
        let bytes = match crate::strings::hex_decode(hex) {
            Some(b) => b,
            None => {
                return Err(crate::error::ZkpError::HexDecodeError);
            },
        };
        if bytes.len() != 32 {
            proof {
                crate::strings::lemma_unhex_len(hex@);
            }
            return Err(crate::error::ZkpError::HexDecodeError);
        }
        proof {
            crate::strings::lemma_unhex_len(hex@);
        }
        Ok(U256::from_be_bytes(crate::hashing::bytes32_from_vec(&bytes)))
    }

    /// Read a number from its decimal string; exactly nonempty digit
    /// strings denoting values below `2^256` are accepted.
    pub fn from_decimal_string(s: &str) -> (r: Result<U256, crate::error::ZkpError>)
        ensures
            r is Ok <==> (crate::strings::spec_is_decimal(s.spec_bytes())
                && crate::strings::spec_decimal_val(s.spec_bytes()) < pow2(256)),
            r is Ok ==> crate::strings::spec_bytes_be_nat(spec_be_bytes_of_u32s(r->Ok_0.0@))
                == crate::strings::spec_decimal_val(s.spec_bytes()),
            r is Err ==> r->Err_0 == crate::error::ZkpError::DecimalDecodeError,
    {
        let bytes = s.as_bytes();
        if bytes.len() == 0 {
            return Err(crate::error::ZkpError::DecimalDecodeError);
        }
        let mut i: usize = 0;
        while i < bytes.len()
            invariant
                bytes@ == s.spec_bytes(),
                i <= bytes@.len(),
                forall|j: int| 0 <= j < i ==> 48 <= #[trigger] bytes@[j] <= 57,
            decreases bytes@.len() - i,
        {
            let b = bytes[i];
            if b < 48 || b > 57 {
                return Err(crate::error::ZkpError::DecimalDecodeError);
            }
            i = i + 1;
        }
        let be = match crate::strings::decimal_digits_to_be_bytes(s) {
            Some(b) => b,
            None => {
                return Err(crate::error::ZkpError::DecimalDecodeError);
            },
        };
        Ok(U256::from_be_bytes(be))
    }

    /// The decimal string of the number's value, without leading zeros.
    pub fn to_decimal_string(&self) -> (r: String)
        ensures
            r@ == crate::strings::spec_decimal(
                crate::strings::spec_bytes_be_nat(spec_be_bytes_of_u32s(self.0@)),
            ),
    {
        let bytes = self.to_be_bytes();
        crate::strings::decimal_of_be_bytes(&bytes)
    }
}

/// The byte stream of `n` limbs has `4 n` bytes.
pub proof fn lemma_be_bytes_of_u32s_len(s: Seq<u32>)
    ensures
        spec_be_bytes_of_u32s(s).len() == 4 * s.len(),
    decreases s.len(),
{
    if s.len() > 0 {
        lemma_be_bytes_of_u32s_len(s.drop_first());
    }
}

/// One limb denotes its own value.
pub proof fn lemma_be_nat_single(x: u32)
    ensures
        be_nat(seq![x]) == x,
{
    reveal_with_fuel(be_nat, 2);
    assert(seq![x].drop_last() =~= Seq::<u32>::empty());
    assert(seq![x].last() == x);
}

/// All-zero limbs denote zero.
pub proof fn lemma_be_nat_zero(s: Seq<u32>)
    requires
        forall|j: int| 0 <= j < s.len() ==> s[j] == 0u32,
    ensures
        be_nat(s) == 0,
    decreases s.len(),
{
    if s.len() > 0 {
        lemma_be_nat_zero(s.drop_last());
    }
}

} // verus!
