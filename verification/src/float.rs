//! The order of binary64 numbers, read from their bits.

use vstd::prelude::*;

verus! {

/// The weight of the sign bit.
pub const SIGN: u64 = 0x8000_0000_0000_0000;

/// The bits of positive infinity. A number of greater magnitude is no number.
pub const INFINITY: u64 = 0x7ff0_0000_0000_0000;

/// The bits without the sign.
pub open spec fn magnitude(bits: u64) -> int {
    if bits < SIGN {
        bits as int
    } else {
        bits - SIGN
    }
}

/// The bits stand for no number.
pub open spec fn is_nan(bits: u64) -> bool {
    magnitude(bits) > INFINITY
}

/// A number by which binary64 numbers are ordered: the magnitude, negated below zero.
pub open spec fn rank(bits: u64) -> int {
    if bits < SIGN {
        magnitude(bits)
    } else {
        -magnitude(bits)
    }
}

/// One binary64 number is less than the other.
pub open spec fn less(a: u64, b: u64) -> bool {
    !is_nan(a) && !is_nan(b) && rank(a) < rank(b)
}

/// One binary64 number is less than the other.
pub fn float_less(a: u64, b: u64) -> (r: bool)
    ensures
        r == less(a, b),
{
    let x: u64 = if a < SIGN { a } else { a - SIGN };
    let y: u64 = if b < SIGN { b } else { b - SIGN };
    if x > INFINITY || y > INFINITY {
        return false;
    }
    if a < SIGN {
        b < SIGN && x < y
    } else if b < SIGN {
        x > 0 || y > 0
    } else {
        y < x
    }
}

/// Of two numbers with the same sign, the bits tell which is less: those from zero up are ordered
/// as their bits are, those below as their bits are the other way round. A number below zero is
/// less than any from zero up, and both zeros are equal. What is no number is neither less nor
/// greater than any.
pub proof fn lemma_less(a: u64, b: u64)
    ensures
        a < 0x7ff0_0000_0000_0001 && b < 0x7ff0_0000_0000_0001 ==> (less(a, b) <==> a < b),
        0x8000_0000_0000_0000 <= a < 0xfff0_0000_0000_0001 && 0x8000_0000_0000_0000 <= b
            < 0xfff0_0000_0000_0001 ==> (less(a, b) <==> b < a),
        0x8000_0000_0000_0000 <= a < 0xfff0_0000_0000_0001 && b < 0x7ff0_0000_0000_0001 ==> (less(
            a,
            b,
        ) <==> a != 0x8000_0000_0000_0000 || b != 0) && !less(b, a),
        0x7ff0_0000_0000_0000 < a < 0x8000_0000_0000_0000 || 0xfff0_0000_0000_0000 < a ==> !less(
            a,
            b,
        ) && !less(b, a),
{
}

/// Up to this magnitude every integer is a binary64 number.
pub const EXACT: u64 = 0x20_0000_0000_0000;

/// The bits of a positive integer up to [`EXACT`], times two to the power of `exponent - 1075`.
/// The integer is doubled until it fills the 53 bits of a significand.
pub open spec fn scaled(m: int, exponent: int) -> int
    decreases EXACT - m,
{
    if m <= 0 {
        0
    } else if m >= 0x10_0000_0000_0000 {
        exponent * 0x10_0000_0000_0000 + (m - 0x10_0000_0000_0000)
    } else {
        scaled(2 * m, exponent - 1)
    }
}

/// The bits of an integer that is a binary64 number.
pub open spec fn whole_bits(n: int) -> u64 {
    if n == 0 {
        0
    } else if n > 0 {
        scaled(n, 1075) as u64
    } else {
        (SIGN + scaled(-n, 1075)) as u64
    }
}

/// The integer is a binary64 number, as all integers up to that magnitude are.
pub open spec fn is_exact(n: int) -> bool {
    -EXACT <= n <= EXACT
}

/// The bits are those of a binary64 number that is the integer where it can be, and else lies on
/// the same side as the integer of all those that can.
pub open spec fn is_near(n: int, bits: u64) -> bool {
    &&& !is_nan(bits)
    &&& is_exact(n) ==> bits == whole_bits(n)
    &&& forall|m: int| is_exact(m) && m <= n ==> rank(#[trigger] whole_bits(m)) <= rank(bits)
    &&& forall|m: int| is_exact(m) && n <= m ==> rank(bits) <= rank(#[trigger] whole_bits(m))
}

proof fn lemma_scaled_below(m: int, exponent: int)
    requires
        0 < m < 0x10_0000_0000_0000,
    ensures
        scaled(m, exponent) < exponent * 0x10_0000_0000_0000,
    decreases EXACT - m,
{
    reveal_with_fuel(scaled, 2);
    if 2 * m < 0x10_0000_0000_0000 {
        lemma_scaled_below(2 * m, exponent - 1);
    }
}

proof fn lemma_scaled_order(a: int, b: int, exponent: int)
    requires
        0 < a < b <= EXACT,
    ensures
        scaled(a, exponent) < scaled(b, exponent),
    decreases EXACT - a,
{
    if a < 0x10_0000_0000_0000 {
        if b < 0x10_0000_0000_0000 {
            lemma_scaled_order(2 * a, 2 * b, exponent - 1);
        } else {
            lemma_scaled_below(a, exponent);
        }
    }
}

proof fn lemma_whole_rank(n: int)
    requires
        is_exact(n),
    ensures
        !is_nan(whole_bits(n)),
        n == 0 ==> rank(whole_bits(n)) == 0,
        n > 0 ==> rank(whole_bits(n)) == scaled(n, 1075) > 0,
        n < 0 ==> rank(whole_bits(n)) == -scaled(-n, 1075) < 0,
{
    let m = if n < 0 {
        -n
    } else {
        n
    };
    if m > 0 {
        assert(scaled(1, 1075) == 1023 * 0x10_0000_0000_0000) by {
            reveal_with_fuel(scaled, 54);
        }
        if m > 1 {
            lemma_scaled_order(1, m, 1075);
        }
        if m < EXACT {
            lemma_scaled_order(m, EXACT as int, 1075);
        }
        assert(scaled(EXACT as int, 1075) == 1076 * 0x10_0000_0000_0000);
    }
}

/// Integers that are binary64 numbers are ordered as integers.
pub proof fn lemma_whole_order(a: int, b: int)
    requires
        is_exact(a),
        is_exact(b),
    ensures
        less(whole_bits(a), whole_bits(b)) <==> a < b,
{
    lemma_whole_rank(a);
    lemma_whole_rank(b);
    if 0 < a < b {
        lemma_scaled_order(a, b, 1075);
    }
    if 0 < b < a {
        lemma_scaled_order(b, a, 1075);
    }
    if a < b < 0 {
        lemma_scaled_order(-b, -a, 1075);
    }
    if b < a < 0 {
        lemma_scaled_order(-a, -b, 1075);
    }
}

/// An integer that was rounded is ordered against those that need not be as it was before.
pub proof fn lemma_near_order(n: int, bits: u64, k: int)
    requires
        is_near(n, bits),
        -EXACT < k < EXACT,
    ensures
        less(bits, whole_bits(k)) <==> n < k,
        less(whole_bits(k), bits) <==> k < n,
{
    let low = -(EXACT as int);
    let high = EXACT as int;
    lemma_whole_rank(k);
    lemma_whole_order(low, k);
    lemma_whole_order(k, high);
    if is_exact(n) {
        lemma_whole_order(n, k);
        lemma_whole_order(k, n);
    } else if n < low {
        assert(rank(bits) <= rank(whole_bits(low)));
    } else {
        assert(rank(whole_bits(high)) <= rank(bits));
    }
}

} // verus!
