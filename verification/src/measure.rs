//! Measured quantities, as weights, thresholds and densities are written.
//!
//! A quantity is a double precision number. Nothing here adds or divides them;
//! what matters to a standard is which of two is larger, and that is decided
//! exactly, on the bits.

use vstd::arithmetic::power2::*;
use vstd::prelude::*;

use crate::text::{self, Text};

verus! {

/// A double precision number: its IEEE 754 bits, and how it is written in
/// decimal.
#[derive(Debug)]
pub struct Real {
    pub bits: u64,
    pub text: String,
}

/// What a [`Real`] holds.
pub struct RealV {
    pub bits: u64,
    pub text: Text,
}

impl DeepView for Real {
    type V = RealV;

    open spec fn deep_view(&self) -> RealV {
        RealV { bits: self.bits, text: self.text@ }
    }
}

pub open spec fn half_range() -> int {
    0x8000_0000_0000_0000
}

pub open spec fn fraction_range() -> int {
    0x10_0000_0000_0000
}

/// The bits without the sign.
pub open spec fn unsigned_bits(bits: u64) -> int {
    bits as int % half_range()
}

pub open spec fn is_nan(bits: u64) -> bool {
    unsigned_bits(bits) > 2047 * fraction_range()
}

pub open spec fn is_finite(bits: u64) -> bool {
    unsigned_bits(bits) < 2047 * fraction_range()
}

/// The size of a number in units of the smallest positive one, so that it is
/// always whole. The size given to infinity is larger than any other.
pub open spec fn size_of(m: int) -> int {
    let e = m / fraction_range();
    let f = m % fraction_range();
    if e == 0 {
        f
    } else {
        (fraction_range() + f) * pow2((e - 1) as nat)
    }
}

/// The number in units of the smallest positive one.
pub open spec fn value_of(bits: u64) -> int {
    if bits as int >= half_range() {
        -size_of(unsigned_bits(bits))
    } else {
        size_of(unsigned_bits(bits))
    }
}

/// One number is smaller than another. Nothing is smaller than what is not a
/// number, nor larger.
pub open spec fn below(a: u64, b: u64) -> bool {
    !is_nan(a) && !is_nan(b) && value_of(a) < value_of(b)
}

pub open spec fn level_with(a: u64, b: u64) -> bool {
    !is_nan(a) && !is_nan(b) && value_of(a) == value_of(b)
}

proof fn lemma_size_increases(a: int, b: int)
    requires
        0 <= a < b,
    ensures
        0 <= size_of(a) < size_of(b),
{
    let w = fraction_range();
    let ea = a / w;
    let fa = a % w;
    let eb = b / w;
    let fb = b % w;
    assert(a == ea * w + fa && 0 <= fa < w && ea >= 0) by (nonlinear_arith)
        requires
            w == 0x10_0000_0000_0000int,
            0 <= a,
            ea == a / w,
            fa == a % w,
    ;
    assert(b == eb * w + fb && 0 <= fb < w && eb >= 0) by (nonlinear_arith)
        requires
            w == 0x10_0000_0000_0000int,
            0 <= b,
            eb == b / w,
            fb == b % w,
    ;
    assert(ea <= eb) by (nonlinear_arith)
        requires
            a == ea * w + fa,
            b == eb * w + fb,
            0 <= fa < w,
            0 <= fb < w,
            a < b,
            w > 0,
    ;
    if ea == eb {
        if ea > 0 {
            let p = pow2((ea - 1) as nat) as int;
            vstd::arithmetic::power2::lemma_pow2_pos((ea - 1) as nat);
            assert(0 <= (w + fa) * p < (w + fb) * p) by (nonlinear_arith)
                requires
                    p > 0,
                    0 <= fa < fb,
                    w > 0,
            ;
        }
    } else {
        let q = pow2((eb - 1) as nat) as int;
        vstd::arithmetic::power2::lemma_pow2_pos((eb - 1) as nat);
        assert((w + fb) * q >= w * q) by (nonlinear_arith)
            requires
                fb >= 0,
                q > 0,
        ;
        if ea == 0 {
            assert(w * q >= w) by (nonlinear_arith)
                requires
                    q >= 1,
                    w > 0,
            ;
        } else {
            let p = pow2((ea - 1) as nat) as int;
            vstd::arithmetic::power2::lemma_pow2_pos((ea - 1) as nat);
            lemma_pow2_unfold(ea as nat);
            if ea < eb - 1 {
                lemma_pow2_strictly_increases(ea as nat, (eb - 1) as nat);
            }
            assert(q >= 2 * p);
            assert(0 <= (w + fa) * p < w * q) by (nonlinear_arith)
                requires
                    0 <= fa < w,
                    p > 0,
                    q >= 2 * p,
            ;
        }
    }
}

/// The bits in the order of the numbers they stand for.
pub open spec fn rank_of(bits: u64) -> int {
    if bits as int >= half_range() {
        -unsigned_bits(bits)
    } else {
        unsigned_bits(bits)
    }
}

proof fn lemma_rank(a: u64, b: u64)
    ensures
        rank_of(a) < rank_of(b) <==> value_of(a) < value_of(b),
        rank_of(a) == rank_of(b) <==> value_of(a) == value_of(b),
{
    let x = unsigned_bits(a);
    let y = unsigned_bits(b);
    assert(size_of(0) == 0);
    if 0 < x {
        lemma_size_increases(0, x);
    }
    if 0 < y {
        lemma_size_increases(0, y);
    }
    if x < y {
        lemma_size_increases(x, y);
    }
    if y < x {
        lemma_size_increases(y, x);
    }
}

fn rank(bits: u64) -> (r: i64)
    ensures
        r == rank_of(bits),
{
    if bits >= 0x8000_0000_0000_0000 {
        let m: u64 = bits - 0x8000_0000_0000_0000;
        -(m as i64)
    } else {
        bits as i64
    }
}

fn not_a_number(bits: u64) -> (r: bool)
    ensures
        r == is_nan(bits),
{
    let m: u64 = if bits >= 0x8000_0000_0000_0000 {
        bits - 0x8000_0000_0000_0000
    } else {
        bits
    };
    m > 0x7ff0_0000_0000_0000
}

pub fn is_bounded(bits: u64) -> (r: bool)
    ensures
        r == is_finite(bits),
{
    bits % 0x8000_0000_0000_0000 < 0x7ff0_0000_0000_0000
}

pub fn is_below(a: u64, b: u64) -> (r: bool)
    ensures
        r == below(a, b),
{
    proof {
        lemma_rank(a, b);
    }
    !not_a_number(a) && !not_a_number(b) && rank(a) < rank(b)
}

pub fn is_level(a: u64, b: u64) -> (r: bool)
    ensures
        r == level_with(a, b),
{
    proof {
        lemma_rank(a, b);
    }
    !not_a_number(a) && !not_a_number(b) && rank(a) == rank(b)
}

/// `part` is at least half of `whole`, both of them positive. No part of
/// infinity is half of it.
pub open spec fn half_of(part: u64, whole: u64) -> bool {
    &&& !is_nan(part)
    &&& unsigned_bits(whole) < 2047 * fraction_range()
    &&& 2 * value_of(part) >= value_of(whole)
}

proof fn lemma_doubled(m: int)
    requires
        0 <= m < 2046 * fraction_range(),
    ensures
        m < fraction_range() ==> size_of(2 * m) == 2 * size_of(m),
        m >= fraction_range() ==> size_of(m + fraction_range()) == 2 * size_of(m),
{
    let w = fraction_range();
    if m < w {
        assert(m / w == 0 && m % w == m) by (nonlinear_arith)
            requires
                0 <= m < w,
        ;
        if 2 * m < w {
            assert((2 * m) / w == 0 && (2 * m) % w == 2 * m) by (nonlinear_arith)
                requires
                    0 <= 2 * m < w,
            ;
        } else {
            assert((2 * m) / w == 1 && (2 * m) % w == 2 * m - w) by (nonlinear_arith)
                requires
                    w <= 2 * m < 2 * w,
                    w > 0,
            ;
            vstd::arithmetic::power2::lemma2_to64();
            let one = pow2(0) as int;
            assert((w + (2 * m - w)) * one == 2 * m) by (nonlinear_arith)
                requires
                    one == 1,
            ;
        }
    } else {
        let e = m / w;
        let f = m % w;
        assert((m + w) / w == e + 1 && (m + w) % w == f && e >= 1) by (nonlinear_arith)
            requires
                w > 0,
                m >= w,
                e == m / w,
                f == m % w,
        ;
        lemma_pow2_unfold(e as nat);
        let p = pow2((e - 1) as nat) as int;
        assert((w + f) * (2 * p) == 2 * ((w + f) * p)) by (nonlinear_arith);
    }
}

pub fn is_half(part: u64, whole: u64) -> (r: bool)
    requires
        below(0, part),
        below(0, whole) || is_nan(whole),
    ensures
        r == half_of(part, whole),
{
    proof {
        lemma_rank(0, part);
        lemma_rank(0, whole);
        assert(size_of(0) == 0);
    }
    if not_a_number(part) || not_a_number(whole) || whole >= 0x7ff0_0000_0000_0000 {
        return false;
    }
    if part >= 0x7fe0_0000_0000_0000 {
        proof {
            let top = 2047 * fraction_range();
            lemma_size_increases(whole as int, top);
            lemma_doubled_top(part as int);
        }
        return true;
    }
    proof {
        lemma_doubled(part as int);
    }
    let twice: u64 = if part < 0x10_0000_0000_0000 {
        part * 2
    } else {
        part + 0x10_0000_0000_0000
    };
    proof {
        lemma_rank(twice, whole);
        assert(unsigned_bits(twice) == twice);
    }
    twice >= whole
}

/// Twice a number of the largest exponent is at least the size given to
/// infinity.
proof fn lemma_doubled_top(m: int)
    requires
        2046 * fraction_range() <= m,
    ensures
        2 * size_of(m) >= size_of(2047 * fraction_range()),
{
    let w = fraction_range();
    let low = 2046 * w;
    assert(low / w == 2046 && low % w == 0) by (nonlinear_arith)
        requires
            w == 0x10_0000_0000_0000int,
            low == 2046 * w,
    ;
    let top = 2047 * w;
    assert(top / w == 2047 && top % w == 0) by (nonlinear_arith)
        requires
            w == 0x10_0000_0000_0000int,
            top == 2047 * w,
    ;
    lemma_pow2_unfold(2046);
    let p = pow2(2045) as int;
    assert(w * (2 * p) == 2 * (w * p)) by (nonlinear_arith);
    if low < m {
        lemma_size_increases(low, m);
    }
}

/// Where a number stands in the total order of all numbers: by its
/// value, with the negative zero before the positive one.
pub open spec fn order_of(bits: u64) -> int {
    if bits as int >= half_range() {
        -unsigned_bits(bits) - 1
    } else {
        unsigned_bits(bits)
    }
}

pub fn is_before(a: u64, b: u64) -> (r: bool)
    ensures
        r == (order_of(a) < order_of(b)),
{
    let half: u64 = 0x8000_0000_0000_0000;
    if a >= half {
        b < half || b - half < a - half
    } else {
        b < half && a < b
    }
}

impl Real {
    pub fn copy(&self) -> (r: Real)
        ensures
            r.deep_view() == self.deep_view(),
    {
        Real { bits: self.bits, text: self.text.clone() }
    }

    pub fn same(&self, other: &Real) -> (r: bool)
        ensures
            r == (self.deep_view() == other.deep_view()),
    {
        self.bits == other.bits && self.text == other.text
    }

    pub fn is_positive(&self) -> (r: bool)
        ensures
            r == below(0, self.bits),
    {
        is_below(0, self.bits)
    }
}

}
