//! What holds exactly of the normalized entropy of a window.
//!
//! For `n` packets in counts `c_1 .. c_u`, write `W` for the product of all
//! `c_i ^ c_i`. Then `-sum(c_i/n * log2(c_i/n))` is `log2(n^n / W) / n`, so that
//! the normalized entropy is the quotient of two logarithms of whole numbers
//!
//! ```text
//! H = log2(n^n / W) / log2(u^n)
//! ```
//!
//! and each statement about `H` becomes one about `n^n`, `W` and `u^n`:
//! `H >= 0` is `W <= n^n`, and `H <= 1` is `n^n <= u^n * W`.
use vstd::arithmetic::mul::*;
use vstd::arithmetic::power::*;
use vstd::prelude::*;

use crate::address::IpAddr;
use crate::tally;

verus! {

/// The sum of the counts.
pub open spec fn sum_of(counts: Seq<nat>) -> nat
    decreases counts.len(),
{
    if counts.len() == 0 {
        0
    } else {
        sum_of(counts.drop_last()) + counts.last()
    }
}

/// The product of each count raised to itself.
pub open spec fn weight(counts: Seq<nat>) -> int
    decreases counts.len(),
{
    if counts.len() == 0 {
        1
    } else {
        weight(counts.drop_last()) * pow(counts.last() as int, counts.last())
    }
}

/// No count is zero.
pub open spec fn positive(counts: Seq<nat>) -> bool {
    forall|i: int| 0 <= i < counts.len() ==> #[trigger] counts[i] > 0
}

/// All counts are the same.
pub open spec fn even(counts: Seq<nat>) -> bool {
    forall|i: int, j: int|
        0 <= i < counts.len() && 0 <= j < counts.len() ==> #[trigger] counts[i]
            == #[trigger] counts[j]
}

/// Bernoulli's inequality: a power lies above its tangent.
proof fn lemma_bernoulli(p: int, q: int, m: nat)
    requires
        p > 0,
        p + q >= 0,
        m >= 1,
    ensures
        pow(p + q, m) >= pow(p, m) + m * q * pow(p, (m - 1) as nat),
        q != 0 && m >= 2 ==> pow(p + q, m) > pow(p, m) + m * q * pow(p, (m - 1) as nat),
    decreases m,
{
    if m == 1 {
        lemma_pow1(p + q);
        lemma_pow1(p);
        lemma_pow0(p);
    } else {
        let k = (m - 1) as nat;
        lemma_bernoulli(p, q, k);
        let j = (k - 1) as nat;
        lemma_pow_positive(p, j);
        let t = pow(p, j);
        let s = pow(p + q, k);
        assert(pow(p + q, m) == (p + q) * s && pow(p, m) == p * pow(p, k) && pow(p, k) == p * t)
            by {
            reveal(pow);
        }
        let pk = pow(p, k);
        assert((p + q) * s >= p * pk + m * q * pk) by (nonlinear_arith)
            requires
                s >= pk + k * q * t,
                pk == p * t,
                p + q >= 0,
                t > 0,
                m == k + 1,
                k >= 1,
        {
            assert((p + q) * s >= (p + q) * (pk + k * q * t));
            assert((p + q) * (pk + k * q * t) == p * pk + m * q * pk + k * (q * q) * t) by {
                assert(p * (k * q * t) == k * q * (p * t));
            }
            assert(k * (q * q) * t >= 0);
        }
        if q != 0 {
            assert((p + q) * s > p * pk + m * q * pk) by (nonlinear_arith)
                requires
                    s >= pk + k * q * t,
                    pk == p * t,
                    p + q >= 0,
                    t > 0,
                    m == k + 1,
                    k >= 1,
                    q != 0,
            {
                assert((p + q) * s >= (p + q) * (pk + k * q * t));
                assert((p + q) * (pk + k * q * t) == p * pk + m * q * pk + k * (q * q) * t) by {
                    assert(p * (k * q * t) == k * q * (p * t));
                }
                assert(q * q > 0);
                assert(k * (q * q) > 0);
                assert(k * (q * q) * t > 0);
            }
        }
    }
}

/// A product grows with its second factor.
proof fn lemma_mul_le(a: int, x: int, y: int)
    requires
        a >= 0,
        x <= y,
    ensures
        a * x <= a * y,
        a > 0 && x < y ==> a * x < a * y,
{
    assert(a * x <= a * y) by (nonlinear_arith)
        requires
            a >= 0,
            x <= y,
    ;
    if a > 0 && x < y {
        assert(a * x < a * y) by (nonlinear_arith)
            requires
                a > 0,
                x < y,
        ;
    }
}

/// A positive factor can be dropped from both sides.
proof fn lemma_cancel(a: int, x: int, y: int)
    requires
        a > 0,
    ensures
        a * x <= a * y ==> x <= y,
        a * x < a * y ==> x < y,
{
    if x > y {
        lemma_mul_le(a, y, x);
    }
    if x >= y {
        lemma_mul_le(a, y, x);
    }
}

/// The step from `k` to `k + 1` numbers in the inequality of the means: `s` is
/// the sum of the first `k`, `x` the next.
proof fn lemma_means_step(k: nat, s: int, x: int)
    requires
        k >= 1,
        s > 0,
        x >= 0,
    ensures
        pow((k + 1) as int, k + 1) * pow(s, k) * x <= pow(k as int, k) * pow(s + x, k + 1),
        k * x != s ==> pow((k + 1) as int, k + 1) * pow(s, k) * x < pow(k as int, k) * pow(
            s + x,
            k + 1,
        ),
{
    let p = (k + 1) * s;
    let q = k * x - s;
    assert(p > 0) by (nonlinear_arith)
        requires
            p == (k + 1) * s,
            s > 0,
            k >= 1,
    ;
    assert(p + q == k * (s + x)) by (nonlinear_arith)
        requires
            p == (k + 1) * s,
            q == k * x - s,
    ;
    assert(k * (s + x) >= 0) by (nonlinear_arith)
        requires
            s > 0,
            x >= 0,
            k >= 1,
    ;
    lemma_bernoulli(p, q, k + 1);
    let pk = pow(p, k);
    let lhs = pow((k + 1) as int, k + 1) * pow(s, k) * x;
    let rhs = pow(k as int, k) * pow(s + x, k + 1);
    assert(pow(p + q, k + 1) == k * rhs) by {
        lemma_pow_distributes(k as int, s + x, k + 1);
        reveal(pow);
        lemma_mul_is_associative(k as int, pow(k as int, k), pow(s + x, k + 1));
    }
    assert(pow(p, k + 1) == p * pk) by {
        reveal(pow);
    }
    assert(p * pk + (k + 1) * q * pk == k * lhs) by {
        lemma_pow_distributes((k + 1) as int, s, k);
        let a = pow((k + 1) as int, k);
        let b = pow(s, k);
        assert(pow((k + 1) as int, k + 1) == (k + 1) * a) by {
            reveal(pow);
        }
        assert(p * (a * b) + (k + 1) * q * (a * b) == k * (((k + 1) * a) * b * x))
            by (nonlinear_arith)
            requires
                p == (k + 1) * s,
                q == k * x - s,
        {
            assert(p + (k + 1) * q == (k + 1) * (k * x));
            assert(p * (a * b) + (k + 1) * q * (a * b) == (p + (k + 1) * q) * (a * b));
            assert(((k + 1) * (k * x)) * (a * b) == k * (((k + 1) * a) * b * x));
        }
    }
    lemma_cancel(k as int, lhs, rhs);
}

/// The inequality of the means for `a` copies of `x` and `b` copies of `y`.
proof fn lemma_means(a: nat, b: nat, x: int, y: int)
    requires
        a >= 1,
        x > 0,
        y > 0,
    ensures
        pow((a + b) as int, a + b) * (pow(x, a) * pow(y, b)) <= pow(a * x + b * y, a + b),
        b >= 1 && x != y ==> pow((a + b) as int, a + b) * (pow(x, a) * pow(y, b)) < pow(
            a * x + b * y,
            a + b,
        ),
    decreases b,
{
    if b == 0 {
        lemma_pow0(y);
        lemma_pow_distributes(a as int, x, a);
    } else {
        let c = (b - 1) as nat;
        let k = a + c;
        lemma_means(a, c, x, y);
        let s = a * x + c * y;
        assert(s > 0) by (nonlinear_arith)
            requires
                s == a * x + c * y,
                a >= 1,
                x > 0,
                y > 0,
                c >= 0,
        ;
        assert(s + y == a * x + b * y) by (nonlinear_arith)
            requires
                s == a * x + c * y,
                b == c + 1,
        ;
        if x != y {
            assert(k * y != s) by (nonlinear_arith)
                requires
                    s == a * x + c * y,
                    k == a + c,
                    a >= 1,
                    x != y,
            {
                assert(k * y - s == a * (y - x));
            }
        }
        lemma_means_step(k, s, y);
        let kk = pow(k as int, k);
        let g = pow(x, a) * pow(y, c);
        let top = pow((k + 1) as int, k + 1);
        let sk = pow(s, k);
        lemma_pow_positive(k as int, k);
        lemma_pow_positive((k + 1) as int, k + 1);
        lemma_pow_positive(s, k);
        assert(pow(y, b) == y * pow(y, c)) by {
            reveal(pow);
        }
        let lhs = top * (pow(x, a) * pow(y, b));
        let rhs = pow(s + y, k + 1);
        assert(kk * lhs == (top * y) * (kk * g)) by (nonlinear_arith)
            requires
                lhs == top * (pow(x, a) * pow(y, b)),
                pow(y, b) == y * pow(y, c),
                g == pow(x, a) * pow(y, c),
        ;
        assert(top * y > 0) by (nonlinear_arith)
            requires
                top > 0,
                y > 0,
        ;
        lemma_mul_le(top * y, kk * g, sk);
        assert((top * y) * sk == top * sk * y) by (nonlinear_arith);
        lemma_cancel(kk, lhs, rhs);
    }
}

/// The inequality of the means for two groups of sources: `n1` packets from
/// `u1` sources and `n2` packets from `u2`.
proof fn lemma_two_groups(n1: nat, n2: nat, u1: nat, u2: nat)
    requires
        n1 >= 1,
        n2 >= 1,
        u1 >= 1,
        u2 >= 1,
    ensures
        pow((n1 + n2) as int, n1 + n2) * (pow(u1 as int, n1) * pow(u2 as int, n2)) <= pow(
            (u1 + u2) as int,
            n1 + n2,
        ) * (pow(n1 as int, n1) * pow(n2 as int, n2)),
        u1 * n2 != u2 * n1 ==> pow((n1 + n2) as int, n1 + n2) * (pow(u1 as int, n1) * pow(
            u2 as int,
            n2,
        )) < pow((u1 + u2) as int, n1 + n2) * (pow(n1 as int, n1) * pow(n2 as int, n2)),
{
    let x = (u1 * n2) as int;
    let y = (u2 * n1) as int;
    let n = n1 + n2;
    assert(x > 0 && y > 0) by (nonlinear_arith)
        requires
            x == u1 * n2,
            y == u2 * n1,
            n1 >= 1,
            n2 >= 1,
            u1 >= 1,
            u2 >= 1,
    ;
    lemma_means(n1, n2, x, y);
    let top = pow(n as int, n);
    let a1 = pow(u1 as int, n1);
    let a2 = pow(u2 as int, n2);
    let b1 = pow(n2 as int, n1);
    let b2 = pow(n1 as int, n2);
    let c1 = pow(n1 as int, n1);
    let c2 = pow(n2 as int, n2);
    let u = pow((u1 + u2) as int, n);
    let d = b1 * b2;
    lemma_pow_positive(n2 as int, n1);
    lemma_pow_positive(n1 as int, n2);
    assert(d > 0) by (nonlinear_arith)
        requires
            d == b1 * b2,
            b1 > 0,
            b2 > 0,
    ;
    assert(pow(x, n1) == a1 * b1) by {
        lemma_pow_distributes(u1 as int, n2 as int, n1);
    }
    assert(pow(y, n2) == a2 * b2) by {
        lemma_pow_distributes(u2 as int, n1 as int, n2);
    }
    assert(top * (pow(x, n1) * pow(y, n2)) == d * (top * (a1 * a2))) by (nonlinear_arith)
        requires
            pow(x, n1) == a1 * b1,
            pow(y, n2) == a2 * b2,
            d == b1 * b2,
    ;
    assert(n1 * x + n2 * y == (u1 + u2) * (n1 * n2)) by (nonlinear_arith)
        requires
            x == u1 * n2,
            y == u2 * n1,
    ;
    assert(pow(n1 * x + n2 * y, n) == u * ((c1 * b2) * (b1 * c2))) by {
        lemma_pow_distributes((u1 + u2) as int, (n1 * n2) as int, n);
        lemma_pow_distributes(n1 as int, n2 as int, n);
        lemma_pow_adds(n1 as int, n1, n2);
        lemma_pow_adds(n2 as int, n1, n2);
    }
    assert(u * ((c1 * b2) * (b1 * c2)) == d * (u * (c1 * c2))) by (nonlinear_arith)
        requires
            d == b1 * b2,
    ;
    lemma_cancel(d, top * (a1 * a2), u * (c1 * c2));
}

/// Equal counts add up to their number times their value.
proof fn lemma_sum_of_even(counts: Seq<nat>)
    requires
        even(counts),
        counts.len() > 0,
    ensures
        sum_of(counts) == counts.len() * counts[0],
    decreases counts.len(),
{
    let before = counts.drop_last();
    if before.len() > 0 {
        lemma_sum_of_even(before);
        assert(counts.len() * counts[0] == before.len() * counts[0] + counts[0])
            by (nonlinear_arith)
            requires
                counts.len() == before.len() + 1,
        ;
        assert(counts.last() == counts[0]);
    } else {
        assert(sum_of(before) == 0);
        assert(1 * counts[0] == counts[0]);
    }
}

/// Positive counts have a positive sum and weight.
proof fn lemma_positive(counts: Seq<nat>)
    requires
        positive(counts),
    ensures
        weight(counts) > 0,
        sum_of(counts) >= counts.len(),
    decreases counts.len(),
{
    if counts.len() > 0 {
        lemma_positive(counts.drop_last());
        lemma_pow_positive(counts.last() as int, counts.last());
        let a = weight(counts.drop_last());
        let b = pow(counts.last() as int, counts.last());
        assert(a * b > 0) by (nonlinear_arith)
            requires
                a > 0,
                b > 0,
        ;
    }
}

/// The upper bound of the entropy, and that only even counts reach it.
proof fn lemma_at_most_one(counts: Seq<nat>)
    requires
        positive(counts),
        counts.len() > 0,
    ensures
        pow(sum_of(counts) as int, sum_of(counts)) <= pow(counts.len() as int, sum_of(counts))
            * weight(counts),
        !even(counts) ==> pow(sum_of(counts) as int, sum_of(counts)) < pow(
            counts.len() as int,
            sum_of(counts),
        ) * weight(counts),
    decreases counts.len(),
{
    let before = counts.drop_last();
    let c = counts.last();
    let cc = pow(c as int, c);
    lemma_positive(before);
    lemma_pow_positive(c as int, c);
    if before.len() == 0 {
        assert(sum_of(before) == 0 && weight(before) == 1);
        lemma1_pow(c);
        assert(1 * cc == cc && 1 * (1 * cc) == cc);
    } else {
        let k = before.len();
        let n1 = sum_of(before);
        let n = n1 + c;
        let w1 = weight(before);
        lemma_at_most_one(before);
        lemma_two_groups(n1, c, k, 1);
        lemma1_pow(c);
        let kn = pow(k as int, n1);
        let nn1 = pow(n1 as int, n1);
        let nn = pow(n as int, n);
        let u = pow((k + 1) as int, n);
        lemma_pow_positive(k as int, n1);
        lemma_pow_positive((k + 1) as int, n);
        assert(nn * (kn * 1) == kn * nn) by (nonlinear_arith);
        assert(u * cc > 0) by (nonlinear_arith)
            requires
                u > 0,
                cc > 0,
        ;
        lemma_mul_le(u * cc, nn1, kn * w1);
        assert((u * cc) * nn1 == u * (nn1 * cc)) by (nonlinear_arith);
        assert((u * cc) * (kn * w1) == kn * (u * (w1 * cc))) by (nonlinear_arith);
        if !even(counts) && even(before) {
            lemma_sum_of_even(before);
            let v = before[0];
            assert(c != v) by {
                if c == v {
                    assert forall|i: int, j: int|
                        0 <= i < counts.len() && 0 <= j < counts.len() implies #[trigger] counts[i]
                        == #[trigger] counts[j] by {
                        assert(i < k ==> counts[i] == before[i] && before[i] == before[0]);
                        assert(j < k ==> counts[j] == before[j] && before[j] == before[0]);
                    }
                }
            }
            assert(k * c != 1 * n1) by (nonlinear_arith)
                requires
                    n1 == k * v,
                    c != v,
                    k >= 1,
            {
                assert(k * c - k * v == k * (c - v));
            }
        }
        lemma_cancel(kn, nn, u * (w1 * cc));
    }
}

/// Even counts reach the upper bound.
proof fn lemma_even_is_one(counts: Seq<nat>)
    requires
        even(counts),
        counts.len() > 0,
    ensures
        pow(sum_of(counts) as int, sum_of(counts)) == pow(counts.len() as int, sum_of(counts))
            * weight(counts),
{
    let c = counts[0];
    let u = counts.len();
    lemma_sum_of_even(counts);
    lemma_weight_of_even(counts);
    lemma_pow_distributes(u as int, c as int, u * c);
    lemma_pow_multiplies(c as int, c, u);
    lemma_mul_is_commutative(u as int, c as int);
}

/// The weight of even counts.
proof fn lemma_weight_of_even(counts: Seq<nat>)
    requires
        even(counts),
        counts.len() > 0,
    ensures
        weight(counts) == pow(pow(counts[0] as int, counts[0]), counts.len()),
    decreases counts.len(),
{
    let before = counts.drop_last();
    let b = pow(counts[0] as int, counts[0]);
    assert(counts.last() == counts[0]);
    reveal(pow);
    if before.len() > 0 {
        lemma_weight_of_even(before);
        lemma_mul_is_commutative(weight(before), b);
    } else {
        assert(weight(before) == 1);
        lemma_pow1(b);
    }
}

/// A larger base gives a larger power.
proof fn lemma_pow_grows(a: int, b: int, e: nat)
    requires
        0 <= a < b,
    ensures
        0 <= pow(a, e) <= pow(b, e),
        e > 0 ==> pow(a, e) < pow(b, e),
    decreases e,
{
    reveal(pow);
    if e > 0 {
        let d = (e - 1) as nat;
        lemma_pow_grows(a, b, d);
        lemma_pow_positive(b, d);
        let x = pow(a, d);
        let y = pow(b, d);
        assert(0 <= a * x && a * x < b * y) by (nonlinear_arith)
            requires
                0 <= a < b,
                0 <= x <= y,
                y > 0,
        {
            assert(a * x <= a * y);
            assert(a * y < b * y);
        }
    }
}

/// The lower bound of the entropy, and that only a single source reaches it.
proof fn lemma_at_least_zero(counts: Seq<nat>)
    requires
        positive(counts),
    ensures
        weight(counts) <= pow(sum_of(counts) as int, sum_of(counts)),
        counts.len() >= 2 ==> weight(counts) < pow(sum_of(counts) as int, sum_of(counts)),
    decreases counts.len(),
{
    if counts.len() == 0 {
        lemma_pow0(0);
    } else {
        let before = counts.drop_last();
        let c = counts.last();
        let s = sum_of(before);
        let n = s + c;
        lemma_at_least_zero(before);
        lemma_positive(before);
        lemma_pow_adds(n as int, s, c);
        let w = weight(before);
        let cc = pow(c as int, c);
        let ns = pow(n as int, s);
        let nc = pow(n as int, c);
        lemma_pow_positive(c as int, c);
        lemma_pow_positive(n as int, c);
        lemma_pow_grows(s as int, n as int, s);
        if s > 0 {
            lemma_pow_grows(c as int, n as int, c);
            assert(w * cc < ns * nc) by (nonlinear_arith)
                requires
                    0 < w <= ns,
                    0 < cc < nc,
            {
                assert(w * cc < w * nc);
                assert(w * nc <= ns * nc);
            }
        } else {
            assert(before.len() == 0);
            assert(w == 1);
            lemma_pow0(n as int);
        }
    }
}

/// What is left of a list when its empty entries are dropped: all of it if
/// there are none, and in any case counts that add up to the total.
pub proof fn lemma_positive_counts<K>(tally: tally::Tally<K>)
    ensures
        positive(tally::positive_counts(tally)),
        sum_of(tally::positive_counts(tally)) == tally::total(tally),
        tally::positive_counts(tally).len() <= tally.len(),
        tally::all_positive(tally) ==> tally::positive_counts(tally) == counts_of(tally),
        !tally::all_positive(tally) ==> tally::positive_counts(tally).len() < tally.len(),
    decreases tally.len(),
{
    let counts = tally::positive_counts(tally);
    if tally.len() > 0 {
        let before = tally.drop_last();
        lemma_positive_counts(before);
        if tally.last().1 > 0 {
            assert(counts.drop_last() =~= tally::positive_counts(before));
        }
        if tally::all_positive(tally) {
            assert forall|i: int| 0 <= i < before.len() implies (#[trigger] before[i]).1 > 0 by {
                assert(tally[i].1 > 0);
            }
            assert(tally.last() == tally[tally.len() - 1]);
            assert(counts =~= counts_of(tally));
        } else if tally::all_positive(before) {
            assert(tally.last().1 == 0) by {
                let i = choose|i: int| 0 <= i < tally.len() && (#[trigger] tally[i]).1 == 0;
                if i < before.len() {
                    assert(before[i].1 > 0);
                }
            }
        }
    } else {
        assert(counts =~= counts_of(tally));
    }
}

/// The counts of a list, empty entries and all.
pub open spec fn counts_of<K>(tally: tally::Tally<K>) -> Seq<nat> {
    tally.map_values(|entry: (K, nat)| entry.1)
}

/// The normalized entropy of a frequency list lies between 0 and 1, for every
/// list that counts a packet, whether or not some of its entries are empty.
/// With `n` packets and `u` entries: `W <= n^n` says that it is not negative,
/// `n^n <= u^n * W` that it is at most 1.
///
/// It is 0 exactly when one entry has all the packets, and 1 exactly when all
/// entries have equally many.
pub proof fn law_entropy_of_counts_is_between_zero_and_one<K>(tally: tally::Tally<K>)
    requires
        tally::total(tally) > 0,
    ensures
        ({
            let n = tally::total(tally);
            let u = tally.len();
            let w = weight(tally::positive_counts(tally));
            &&& 0 < w <= pow(n as int, n) <= pow(u as int, n) * w
            &&& w == pow(n as int, n) <==> tally::positive_counts(tally).len() == 1
            &&& pow(n as int, n) == pow(u as int, n) * w <==> even(counts_of(tally))
        }),
{
    let counts = tally::positive_counts(tally);
    let n = tally::total(tally);
    let k = counts.len();
    let u = tally.len();
    let w = weight(counts);
    lemma_positive_counts(tally);
    lemma_positive(counts);
    assert(k > 0) by {
        if k == 0 {
            assert(sum_of(counts) == 0);
        }
    }
    lemma_at_least_zero(counts);
    lemma_at_most_one(counts);
    if even(counts) {
        lemma_even_is_one(counts);
    }
    if k == 1 {
        let before = counts.drop_last();
        assert(sum_of(before) == 0 && weight(before) == 1);
        let c = counts.last();
        assert(1 * pow(c as int, c) == pow(c as int, c));
    }
    if !tally::all_positive(tally) {
        lemma_pow_grows(k as int, u as int, n);
        lemma_mul_le(w, pow(k as int, n), pow(u as int, n));
        lemma_mul_is_commutative(w, pow(k as int, n));
        lemma_mul_is_commutative(w, pow(u as int, n));
        assert(!even(counts_of(tally))) by {
            let i = choose|i: int| 0 <= i < tally.len() && (#[trigger] tally[i]).1 == 0;
            assert(counts_of(tally)[i] == 0);
            if even(counts_of(tally)) {
                lemma_total_of_empty_entries(tally);
            }
        }
    }
}

/// Even counts, one of which is zero, add up to nothing.
proof fn lemma_total_of_empty_entries<K>(tally: tally::Tally<K>)
    requires
        even(counts_of(tally)),
        !tally::all_positive(tally),
    ensures
        tally::total(tally) == 0,
{
    let i = choose|i: int| 0 <= i < tally.len() && (#[trigger] tally[i]).1 == 0;
    assert forall|j: int| 0 <= j < tally.len() implies (#[trigger] tally[j]).1 == 0 by {
        assert(counts_of(tally)[i] == counts_of(tally)[j]);
    }
    lemma_total_of_zeros(tally);
}

/// Zeros add up to nothing.
proof fn lemma_total_of_zeros<K>(tally: tally::Tally<K>)
    requires
        forall|j: int| 0 <= j < tally.len() ==> (#[trigger] tally[j]).1 == 0,
    ensures
        tally::total(tally) == 0,
    decreases tally.len(),
{
    if tally.len() > 0 {
        assert(tally.last() == tally[tally.len() - 1]);
        assert forall|j: int| 0 <= j < tally.drop_last().len() implies (
        #[trigger] tally.drop_last()[j]).1 == 0 by {
            assert(tally[j].1 == 0);
        }
        lemma_total_of_zeros(tally.drop_last());
    }
}

/// The counts of a window, one for each source.
pub open spec fn window_counts(packets: Seq<IpAddr>) -> Seq<nat> {
    tally::positive_counts(tally::tally_of(packets))
}

/// The normalized entropy of a window lies between 0 and 1, for every window
/// that is not empty. With `n` packets from `u` sources: `W <= n^n` says that
/// it is not negative, `n^n <= u^n * W` that it is at most 1.
///
/// It is 0 only for a single source: from two sources on, `W < n^n`. It is 1
/// exactly when all sources sent equally much.
pub proof fn law_entropy_is_between_zero_and_one(packets: Seq<IpAddr>)
    requires
        packets.len() > 0,
    ensures
        ({
            let n = packets.len();
            let u = tally::tally_of(packets).len();
            let w = weight(window_counts(packets));
            &&& 0 < w <= pow(n as int, n) <= pow(u as int, n) * w
            &&& w == pow(n as int, n) <==> u == 1
            &&& pow(n as int, n) == pow(u as int, n) * w <==> even(window_counts(packets))
        }),
{
    let tally = tally::tally_of(packets);
    tally::law_tally_counts_every_packet(packets);
    lemma_positive_counts(tally);
    law_entropy_of_counts_is_between_zero_and_one(tally);
}

/// Neighbours of a number, each raised to itself, outweigh the number raised to
/// itself twice.
proof fn lemma_neighbours_outweigh(m: nat)
    requires
        m >= 2,
    ensures
        pow(m as int, m) * pow(m as int, m) < pow((m + 1) as int, m + 1) * pow(
            (m - 1) as int,
            (m - 1) as nat,
        ),
{
    let k = (m - 1) as nat;
    let j = (m - 2) as nat;
    let x = m as int;
    let p = x * x;
    assert(p >= 4) by (nonlinear_arith)
        requires
            p == x * x,
            x >= 2,
    ;
    lemma_bernoulli(p, -1, k);
    lemma_pow_positive(p, j);
    let t = pow(p, j);
    let b = pow(p - 1, k);
    assert(pow(p, k) == p * t) by {
        reveal(pow);
    }
    assert(b >= (p - x + 1) * t) by (nonlinear_arith)
        requires
            b >= p * t + k * (-1) * t,
            k == x - 1,
    ;
    assert(pow((m + 1) as int, m + 1) * pow((m - 1) as int, k) == (x + 1) * (x + 1) * b) by {
        let a = pow(x + 1, k);
        let c = pow(x - 1, k);
        assert((x + 1) * (x - 1) == p - 1) by (nonlinear_arith)
            requires
                p == x * x,
        ;
        lemma_pow_distributes(x + 1, x - 1, k);
        assert(pow(x + 1, m) == (x + 1) * a && pow(x + 1, m + 1) == (x + 1) * pow(x + 1, m)) by {
            reveal(pow);
        }
        assert(((x + 1) * ((x + 1) * a)) * c == (x + 1) * (x + 1) * (a * c)) by (nonlinear_arith);
    }
    assert(pow(x, m) * pow(x, m) == p * (p * t)) by {
        lemma_pow_distributes(x, x, m);
        assert(pow(p, m) == p * pow(p, k)) by {
            reveal(pow);
        }
    }
    assert((x + 1) * (x + 1) * b > p * (p * t)) by (nonlinear_arith)
        requires
            b >= (p - x + 1) * t,
            p == x * x,
            x >= 2,
            t > 0,
    {
        let square = (x + 1) * (x + 1);
        assert(square > 0);
        assert(square * b >= square * ((p - x + 1) * t));
        assert(square * ((p - x + 1) * t) == (square * (p - x + 1)) * t);
        assert(square * (p - x + 1) == p * p + x * p + x + 1);
        assert(x * p + x + 1 > 0);
        assert((p * p + x * p + x + 1) * t == p * (p * t) + (x * p + x + 1) * t);
        assert((x * p + x + 1) * t > 0);
    }
}

/// Moving one from a larger to a smaller number makes the product of the two,
/// each raised to itself, smaller.
proof fn lemma_evening_two(a: nat, b: nat)
    requires
        b >= 1,
        a >= b + 2,
    ensures
        pow((a - 1) as int, (a - 1) as nat) * pow((b + 1) as int, b + 1) < pow(a as int, a) * pow(
            b as int,
            b,
        ),
    decreases a,
{
    let p = pow((a - 1) as int, (a - 1) as nat);
    let q = pow((a - 2) as int, (a - 2) as nat);
    let r = pow(a as int, a);
    let c = pow((b + 1) as int, b + 1);
    let d = pow(b as int, b);
    lemma_neighbours_outweigh((a - 1) as nat);
    if a > b + 2 {
        lemma_evening_two((a - 1) as nat, b);
        lemma_pow_positive((a - 1) as int, (a - 1) as nat);
        lemma_pow_positive((a - 2) as int, (a - 2) as nat);
        lemma_pow_positive(b as int, b);
        lemma_mul_le(p, q * c, p * d);
        lemma_mul_le(d, p * p, r * q);
        assert(p * (q * c) == q * (p * c)) by (nonlinear_arith);
        assert(p * (p * d) == d * (p * p)) by (nonlinear_arith);
        assert(d * (r * q) == q * (r * d)) by (nonlinear_arith);
        lemma_cancel(q, p * c, r * d);
    }
}

/// Replacing one count moves the sum by the difference and the weight by the
/// quotient.
proof fn lemma_replaced(counts: Seq<nat>, i: int, c: nat)
    requires
        0 <= i < counts.len(),
    ensures
        sum_of(counts.update(i, c)) + counts[i] == sum_of(counts) + c,
        weight(counts.update(i, c)) * pow(counts[i] as int, counts[i]) == weight(counts) * pow(
            c as int,
            c,
        ),
    decreases counts.len(),
{
    let before = counts.drop_last();
    let changed = counts.update(i, c);
    let x = pow(counts[i] as int, counts[i]);
    let y = pow(c as int, c);
    let w = weight(before);
    if i == counts.len() - 1 {
        assert(changed.drop_last() =~= before);
        assert((w * y) * x == (w * x) * y) by (nonlinear_arith);
    } else {
        let z = pow(counts.last() as int, counts.last());
        let v = weight(before.update(i, c));
        assert(changed.drop_last() =~= before.update(i, c));
        lemma_replaced(before, i, c);
        assert((v * z) * x == (w * z) * y) by (nonlinear_arith)
            requires
                v * x == w * y,
        {
            assert((v * z) * x == (v * x) * z);
            assert((w * z) * y == (w * y) * z);
        }
    }
}

/// The counts after one packet has moved from source `i` to source `j`.
pub open spec fn evened(counts: Seq<nat>, i: int, j: int) -> Seq<nat> {
    counts.update(i, (counts[i] - 1) as nat).update(j, counts[j] + 1)
}

/// Evening out the sources raises the entropy: if one packet moves from a
/// source to one with at least two packets less, `n` and `u` stay what they are
/// and `W` falls, so that `n^n / W` rises.
pub proof fn law_evening_out_raises_entropy(counts: Seq<nat>, i: int, j: int)
    requires
        positive(counts),
        0 <= i < counts.len(),
        0 <= j < counts.len(),
        counts[i] >= counts[j] + 2,
    ensures
        positive(evened(counts, i, j)),
        evened(counts, i, j).len() == counts.len(),
        sum_of(evened(counts, i, j)) == sum_of(counts),
        weight(evened(counts, i, j)) < weight(counts),
{
    let a = counts[i];
    let b = counts[j];
    let less = counts.update(i, (a - 1) as nat);
    lemma_positive(counts);
    lemma_replaced(counts, i, (a - 1) as nat);
    lemma_replaced(less, j, b + 1);
    lemma_evening_two(a, b);
    lemma_pow_positive(a as int, a);
    lemma_pow_positive(b as int, b);
    let fa = pow(a as int, a);
    let fb = pow(b as int, b);
    let ga = pow((a - 1) as int, (a - 1) as nat);
    let gb = pow((b + 1) as int, b + 1);
    let w = weight(counts);
    let w1 = weight(less);
    let w2 = weight(evened(counts, i, j));
    assert((fa * fb) * w2 == w * (ga * gb)) by (nonlinear_arith)
        requires
            w1 * fa == w * ga,
            w2 * fb == w1 * gb,
    {
        assert((fa * fb) * w2 == fa * (w2 * fb));
        assert(fa * (w1 * gb) == (w1 * fa) * gb);
        assert((w * ga) * gb == w * (ga * gb));
    }
    lemma_mul_le(w, ga * gb, fa * fb);
    lemma_mul_is_commutative(w, fa * fb);
    assert(fa * fb > 0) by (nonlinear_arith)
        requires
            fa > 0,
            fb > 0,
    ;
    lemma_cancel(fa * fb, w2, w);
}

/// The frequency list after one packet has moved from one key to another.
pub open spec fn with_packet_moved<K>(tally: tally::Tally<K>, from: K, to: K) -> tally::Tally<K> {
    tally::with_count(
        tally::with_count(tally, from, (tally::count_of(tally, from) - 1) as nat),
        to,
        tally::count_of(tally, to) + 1,
    )
}

/// The same of a frequency list: a packet that moves from a busier source to a
/// quieter one leaves the total and the number of sources what they are and
/// lowers `W`, so that the entropy rises.
pub proof fn law_moving_a_packet_raises_entropy<K>(tally: tally::Tally<K>, from: K, to: K)
    requires
        tally::distinct(tally),
        tally::all_positive(tally),
        tally::listed(tally, to),
        tally::count_of(tally, from) >= tally::count_of(tally, to) + 2,
    ensures
        tally::distinct(with_packet_moved(tally, from, to)),
        tally::all_positive(with_packet_moved(tally, from, to)),
        with_packet_moved(tally, from, to).len() == tally.len(),
        tally::total(with_packet_moved(tally, from, to)) == tally::total(tally),
        weight(tally::positive_counts(with_packet_moved(tally, from, to))) < weight(
            tally::positive_counts(tally),
        ),
{
    let i = tally::slot(tally, from);
    let j = tally::slot(tally, to);
    let less = tally::with_count(tally, from, (tally::count_of(tally, from) - 1) as nat);
    let moved = with_packet_moved(tally, from, to);
    assert(tally::distinct(less));
    assert(less[j].0 == to);
    tally::lemma_slot_is(less, j);
    assert(moved =~= less.update(j, (to, tally::count_of(tally, to) + 1)));
    assert(tally::distinct(moved));
    assert(tally::all_positive(moved));
    lemma_positive_counts(tally);
    lemma_positive_counts(moved);
    assert(counts_of(moved) =~= evened(counts_of(tally), i, j));
    law_evening_out_raises_entropy(counts_of(tally), i, j);
}

/// The counts of a window in which each source sends `m` times as much.
pub open spec fn scaled(counts: Seq<nat>, m: nat) -> Seq<nat> {
    counts.map_values(|c: nat| m * c)
}

/// The entropy does not depend on the size of the window: if each source sends
/// `m` times as much, `n^n / W` and `u^n` both turn into their `m`-th powers,
/// and the quotient of their logarithms stays what it is.
pub proof fn law_entropy_is_rate_independent(counts: Seq<nat>, m: nat)
    ensures
        sum_of(scaled(counts, m)) == m * sum_of(counts),
        scaled(counts, m).len() == counts.len(),
        pow(sum_of(scaled(counts, m)) as int, sum_of(scaled(counts, m))) * pow(weight(counts), m)
            == weight(scaled(counts, m)) * pow(
            pow(sum_of(counts) as int, sum_of(counts)),
            m,
        ),
        pow(counts.len() as int, sum_of(scaled(counts, m))) == pow(
            pow(counts.len() as int, sum_of(counts)),
            m,
        ),
{
    lemma_scaled(counts, m);
    let n = sum_of(counts);
    let u = counts.len() as int;
    let mm = pow(m as int, m * n);
    let w = pow(weight(counts), m);
    lemma_pow_distributes(m as int, n as int, m * n);
    lemma_pow_multiplies(n as int, n, m);
    lemma_pow_multiplies(u, n, m);
    lemma_mul_is_commutative(m as int, n as int);
    let nn = pow(pow(n as int, n), m);
    assert((mm * nn) * w == (mm * w) * nn) by (nonlinear_arith);
}

/// Sum and weight of scaled counts.
proof fn lemma_scaled(counts: Seq<nat>, m: nat)
    ensures
        sum_of(scaled(counts, m)) == m * sum_of(counts),
        weight(scaled(counts, m)) == pow(m as int, m * sum_of(counts)) * pow(weight(counts), m),
    decreases counts.len(),
{
    if counts.len() == 0 {
        lemma1_pow(m);
        lemma_pow0(m as int);
        assert(m * 0 == 0);
    } else {
        let before = counts.drop_last();
        let c = counts.last();
        let s = sum_of(before);
        lemma_scaled(before, m);
        assert(scaled(counts, m).drop_last() =~= scaled(before, m));
        assert(scaled(counts, m).last() == m * c);
        assert(m * (s + c) == m * s + m * c) by (nonlinear_arith);
        lemma_pow_distributes(m as int, c as int, m * c);
        lemma_pow_multiplies(c as int, c, m);
        lemma_mul_is_commutative(m as int, c as int);
        lemma_pow_distributes(weight(before), pow(c as int, c), m);
        lemma_pow_adds(m as int, m * s, m * c);
        let a = pow(m as int, m * s);
        let b = pow(m as int, m * c);
        let x = pow(weight(before), m);
        let y = pow(pow(c as int, c), m);
        assert((a * x) * (b * y) == (a * b) * (x * y)) by (nonlinear_arith);
    }
}

} // verus!
