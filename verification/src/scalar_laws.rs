//! What the bit patterns stand for: the value of a double, and that the library
//! orders and picks by value.
use vstd::arithmetic::power2::*;
use vstd::prelude::*;

use crate::scalar::Scalar;

verus! {

/// The value of a pattern without sign, in units of the least positive double,
/// of which there are 2^1074 in 1. Eleven bits of exponent stand above
/// fifty-two of fraction; a positive exponent adds a leading one to the
/// fraction. Infinity gets the value that comes after the largest finite one.
pub open spec fn magnitude_value(pattern: nat) -> nat {
    let exponent = pattern / 0x10_0000_0000_0000;
    let fraction = pattern % 0x10_0000_0000_0000;
    if exponent == 0 {
        fraction
    } else {
        (0x10_0000_0000_0000 + fraction) * pow2((exponent - 1) as nat)
    }
}

/// The value of a double that is a number, in the same units.
pub open spec fn value(s: Scalar) -> int {
    if s.bits < 0x8000_0000_0000_0000 {
        magnitude_value(s.bits as nat) as int
    } else {
        -(magnitude_value((s.bits - 0x8000_0000_0000_0000) as nat) as int)
    }
}

/// The pattern stands for a number: the exponent is not all ones, or the
/// fraction is zero.
pub open spec fn is_number(s: Scalar) -> bool {
    s.bits <= 0x7FF0_0000_0000_0000 || 0x8000_0000_0000_0000 <= s.bits <= 0xFFF0_0000_0000_0000
}

/// `r` is the greater of two, a pattern that is no number giving way.
pub open spec fn greater_of(r: Scalar, a: Scalar, b: Scalar) -> bool {
    &&& r == a || r == b
    &&& is_number(a) ==> is_number(r) && value(r) >= value(a)
    &&& is_number(b) ==> is_number(r) && value(r) >= value(b)
}

/// `r` is the lesser of two, a pattern that is no number giving way.
pub open spec fn lesser_of(r: Scalar, a: Scalar, b: Scalar) -> bool {
    &&& r == a || r == b
    &&& is_number(a) ==> is_number(r) && value(r) <= value(a)
    &&& is_number(b) ==> is_number(r) && value(r) <= value(b)
}

/// The next pattern has the greater value.
proof fn lemma_next_is_greater(pattern: nat)
    ensures
        magnitude_value(pattern) < magnitude_value(pattern + 1),
{
    let exponent = pattern / 0x10_0000_0000_0000;
    let fraction = pattern % 0x10_0000_0000_0000;
    let unit: int = 0x10_0000_0000_0000;
    if fraction + 1 < unit {
        assert((pattern + 1) / 0x10_0000_0000_0000 == exponent);
        assert((pattern + 1) % 0x10_0000_0000_0000 == fraction + 1);
        if exponent > 0 {
            let p = pow2((exponent - 1) as nat);
            lemma_pow2_pos((exponent - 1) as nat);
            assert((unit + fraction) * p < (unit + fraction + 1) * p) by (nonlinear_arith)
                requires
                    p > 0,
            ;
            assert(magnitude_value(pattern) == (unit + fraction) * p);
            assert(magnitude_value(pattern + 1) == (unit + fraction + 1) * p);
        }
    } else {
        assert((pattern + 1) / 0x10_0000_0000_0000 == exponent + 1);
        assert((pattern + 1) % 0x10_0000_0000_0000 == 0);
        lemma_pow2_pos(exponent);
        let top = pow2(exponent);
        assert(((exponent + 1) - 1) as nat == exponent);
        assert(magnitude_value(pattern + 1) == unit * top);
        if exponent == 0 {
            lemma2_to64();
            assert(unit * 1 == unit);
        } else {
            let p = pow2((exponent - 1) as nat);
            lemma_pow2_unfold(exponent);
            lemma_pow2_pos((exponent - 1) as nat);
            assert((unit + fraction) * p < unit * (2 * p)) by (nonlinear_arith)
                requires
                    p > 0,
                    fraction < unit,
            ;
            assert(magnitude_value(pattern) == (unit + fraction) * p);
        }
    }
}

/// A larger pattern has the greater value.
proof fn lemma_pattern_order(a: nat, b: nat)
    requires
        a < b,
    ensures
        magnitude_value(a) < magnitude_value(b),
    decreases b - a,
{
    lemma_next_is_greater((b - 1) as nat);
    if a < b - 1 {
        lemma_pattern_order(a, (b - 1) as nat);
    }
}

/// The order of the scalars is the order of the values of the doubles; what is
/// no number is neither below anything nor reaches it.
pub proof fn law_order_is_by_value(a: Scalar, b: Scalar)
    ensures
        a.is_nan() <==> !is_number(a),
        a.below(b) <==> is_number(a) && is_number(b) && value(a) < value(b),
        a.reaches(b) <==> is_number(a) && is_number(b) && value(a) >= value(b),
{
    let x = a.magnitude() as nat;
    let y = b.magnitude() as nat;
    if x < y {
        lemma_pattern_order(x, y);
    } else if y < x {
        lemma_pattern_order(y, x);
    }
    if 0 < x {
        lemma_pattern_order(0, x);
    }
    if 0 < y {
        lemma_pattern_order(0, y);
    }
}

/// The larger and the smaller of two scalars are so by value.
pub proof fn law_choice_is_by_value(a: Scalar, b: Scalar)
    ensures
        greater_of(a.larger(b), a, b),
        lesser_of(a.smaller(b), a, b),
{
    law_order_is_by_value(a, b);
    law_order_is_by_value(b, a);
}

/// Comparing and choosing, as the operations do it, go by value.
pub proof fn law_operations_go_by_value(
    a: Scalar,
    b: Scalar,
    is_below: bool,
    has_reached: bool,
    at_least: Scalar,
    at_most: Scalar,
)
    requires
        call_ensures(Scalar::is_below, (a, b), is_below),
        call_ensures(Scalar::has_reached, (a, b), has_reached),
        call_ensures(Scalar::at_least, (a, b), at_least),
        call_ensures(Scalar::at_most, (a, b), at_most),
    ensures
        is_below <==> is_number(a) && is_number(b) && value(a) < value(b),
        has_reached <==> is_number(a) && is_number(b) && value(a) >= value(b),
        greater_of(at_least, a, b),
        lesser_of(at_most, a, b),
{
    law_order_is_by_value(a, b);
    law_choice_is_by_value(a, b);
}

/// Two to the 1074th as a product, for the exponent of a pattern.
pub(crate) proof fn lemma_unit(exponent: nat)
    requires
        1 <= exponent <= 1075,
    ensures
        pow2(1074) == pow2((1075 - exponent) as nat) * pow2((exponent - 1) as nat),
{
    lemma_pow2_adds((1075 - exponent) as nat, (exponent - 1) as nat);
}

/// A pattern whose leading bits are `m`, with the exponent `e`, stands for
/// `n / d` if `m * d` is `n` times a power of two.
pub(crate) proof fn lemma_value_is(s: Scalar, e: nat, n: nat, d: nat)
    requires
        1 <= e <= 1075,
        s.bits < 0x8000_0000_0000_0000,
        s.bits / 0x10_0000_0000_0000 == e,
        (0x10_0000_0000_0000 + s.bits % 0x10_0000_0000_0000) * d == n * pow2((1075 - e) as nat),
    ensures
        value(s) * d == n * pow2(1074),
{
    let m: int = 0x10_0000_0000_0000 + s.bits as int % 0x10_0000_0000_0000;
    let p = pow2((e - 1) as nat) as int;
    let q = pow2((1075 - e) as nat) as int;
    lemma_unit(e);
    assert((m * p) * d == n * (q * p)) by (nonlinear_arith)
        requires
            m * d == n * q,
    {
        assert((m * p) * d == (m * d) * p);
        assert((n * q) * p == n * (q * p));
    }
}

} // verus!
