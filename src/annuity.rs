use vstd::prelude::*;
use crate::bignum::{big_ge, big_val, lemma_power_grows, lemma_power_pos, mul_small, power, power_big};
use crate::money::Money;

verus! {

/// `a / b` rounded up.
pub open spec fn ceil_div(a: int, b: int) -> int {
    (a + b - 1) / b
}

/// The monthly payment of an amortizing credit of `amount` minor units over
/// `term` months at `rate` percent a month:
/// `amount * (r + r / ((1 + r)^term - 1))` with `r = rate / 100`, rounded up
/// to the minor unit; an interest-free credit is split evenly over the term.
pub open spec fn annuity_payment(amount: int, rate: int, term: nat) -> int {
    if rate == 0 {
        ceil_div(amount, term as int)
    } else {
        let x = power(100 + rate, term);
        let y = power(100, term);
        ceil_div(amount * rate * x, 100 * (x - y))
    }
}

/// The least `p` with `p * d >= n` is `ceil_div(n, d)`.
proof fn lemma_least_is_ceil(n: int, d: int, p: int)
    requires
        d > 0,
        n >= 0,
        p >= 0,
        p * d >= n,
        p == 0 || (p - 1) * d < n,
    ensures
        p == ceil_div(n, d),
{
    let r = n + d - 1 - p * d;
    if p > 0 {
        assert((p - 1) * d == p * d - d) by (nonlinear_arith);
    } else {
        assert(p * d == 0) by (nonlinear_arith)
            requires
                p == 0,
        ;
    }
    assert(n + d - 1 == p * d + r);
    vstd::arithmetic::div_mod::lemma_fundamental_div_mod_converse(n + d - 1, d, p, r);
}

/// Whether `p` a month repays `amount` at `rate` percent a month, where
/// `x = (100 + rate)^term` and `y = 100^term`: `p * 100 * (x - y) >= amount * rate * x`.
fn covers(x: &Vec<u64>, y: &Vec<u64>, amount: u64, rate: u64, p: u64) -> (r: bool)
    requires
        big_val(x@) >= big_val(y@) > 0,
        amount <= i32::MAX,
        rate <= 255,
        p <= i32::MAX,
    ensures
        r == (p * 100 * (big_val(x@) - big_val(y@)) >= amount * rate * big_val(x@)),
{
    assert(amount * rate <= 0x7fff_ffff * 255) by (nonlinear_arith)
        requires
            amount <= 0x7fff_ffff,
            rate <= 255,
    ;
    let a: u64 = amount * rate;
    let q: u64 = p * 100;
    let ghost xv = big_val(x@);
    let ghost yv = big_val(y@);
    if q < a {
        assert(q * (xv - yv) < a * xv) by (nonlinear_arith)
            requires
                0 <= q < a,
                xv >= yv > 0,
        ;
        return false;
    }
    let lhs = mul_small(x, q - a);
    let rhs = mul_small(y, q);
    assert((q - a) * xv >= q * yv <==> q * (xv - yv) >= a * xv) by (nonlinear_arith);
    assert(big_val(lhs@) == xv * (q - a));
    assert(xv * (q - a) == (q - a) * xv) by (nonlinear_arith);
    assert(yv * q == q * yv) by (nonlinear_arith);
    big_ge(&lhs, &rhs)
}

/// The monthly payment of an amortizing credit (see `annuity_payment`), or
/// `None` when the amount is negative, the term is zero, or the payment
/// exceeds the largest amount of money.
pub fn monthly_payment(amount: Money, rate: u8, term: u8) -> (r: Option<Money>)
    ensures
        r is Some <==> amount.val() >= 0 && term > 0 && annuity_payment(amount.val(), rate as int, term as nat) <= i32::MAX,
        r matches Some(m) ==> m.val() == annuity_payment(amount.val(), rate as int, term as nat),
{
    if amount.0 < 0 || term == 0 {
        return None;
    }
    if rate == 0 {
        let v: i64 = (amount.0 as i64 + term as i64 - 1) / term as i64;
        assert(v <= amount.0) by {
            let a = amount.0 as int;
            let t = term as int;
            vstd::arithmetic::div_mod::lemma_fundamental_div_mod(a + t - 1, t);
            vstd::arithmetic::div_mod::lemma_mod_pos_bound(a + t - 1, t);
            let qq = (a + t - 1) / t;
            assert(t * qq <= a + t - 1);
            assert(qq <= a) by (nonlinear_arith)
                requires
                    t >= 1,
                    t * qq <= a + t - 1,
                    a >= 0,
            ;
        }
        assert(v >= 0);
        return Some(Money(v as i32));
    }
    let x = power_big(100 + rate as u64, term);
    let y = power_big(100, term);
    let ghost xv = big_val(x@);
    let ghost yv = big_val(y@);
    let ghost n = amount.val() * (rate as int) * xv;
    let ghost d = 100 * (xv - yv);
    proof {
        lemma_power_grows(100 + rate as int, 100, term as nat);
        lemma_power_pos(100, term as nat);
        assert(n >= 0) by (nonlinear_arith)
            requires
                n == amount.val() * (rate as int) * xv,
                amount.val() >= 0,
                rate >= 0,
                xv > 0,
        ;
    }
    let am = amount.0 as u64;
    let rt = rate as u64;
    let top: u64 = i32::MAX as u64;
    if !covers(&x, &y, am, rt, top) {
        proof {
            let c = ceil_div(n, d);
            if c <= i32::MAX {
                lemma_least_bound(n, d, c);
                assert(top * d >= c * d) by (nonlinear_arith)
                    requires
                        top >= c,
                        d > 0,
                ;
                assert(top * 100 * (xv - yv) == top * d) by (nonlinear_arith)
                    requires
                        d == 100 * (xv - yv),
                ;
                assert(am * rt * xv == n);
            }
        }
        return None;
    }
    let mut lo: u64 = 0;
    let mut hi: u64 = top;
    while lo < hi
        invariant
            lo <= hi <= top,
            top == i32::MAX,
            big_val(x@) == xv,
            big_val(y@) == yv,
            xv > yv > 0,
            am <= i32::MAX,
            rt <= 255,
            am * rt * xv == n,
            hi * 100 * (xv - yv) >= n,
            lo == 0 || (lo - 1) * 100 * (xv - yv) < n,
        decreases hi - lo,
    {
        let mid = lo + (hi - lo) / 2;
        if covers(&x, &y, am, rt, mid) {
            hi = mid;
        } else {
            lo = mid + 1;
        }
    }
    proof {
        assert(lo * 100 * (xv - yv) == lo * d) by (nonlinear_arith)
            requires
                d == 100 * (xv - yv),
        ;
        if lo > 0 {
            assert((lo - 1) * 100 * (xv - yv) == (lo - 1) * d) by (nonlinear_arith)
                requires
                    d == 100 * (xv - yv),
            ;
        }
        lemma_least_is_ceil(n, d, lo as int);
    }
    Some(Money(lo as i32))
}

/// `ceil_div(n, d)` times `d` reaches `n`.
proof fn lemma_least_bound(n: int, d: int, c: int)
    requires
        d > 0,
        n >= 0,
        c == ceil_div(n, d),
    ensures
        c * d >= n,
{
    vstd::arithmetic::div_mod::lemma_fundamental_div_mod(n + d - 1, d);
    vstd::arithmetic::div_mod::lemma_mod_pos_bound(n + d - 1, d);
    assert(d * c == c * d) by (nonlinear_arith);
}

} // verus!
