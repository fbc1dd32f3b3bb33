//! Natural numbers of any size, as little-endian sequences of 64-bit limbs,
//! with the operations exact interest arithmetic needs.

use vstd::prelude::*;

verus! {

/// 2^64, the base of the limbs of a big number.
pub open spec fn base() -> int {
    0x1_0000_0000_0000_0000
}

/// `b` to the power `n`.
pub open spec fn power(b: int, n: nat) -> int
    decreases n,
{
    if n == 0 {
        1
    } else {
        b * power(b, (n - 1) as nat)
    }
}

/// The value of a little-endian sequence of 64-bit limbs.
pub open spec fn big_val(s: Seq<u64>) -> int
    decreases s.len(),
{
    if s.len() == 0 {
        0
    } else {
        big_val(s.drop_last()) + s.last() * power(base(), (s.len() - 1) as nat)
    }
}

pub proof fn lemma_power_pos(b: int, n: nat)
    requires
        b > 0,
    ensures
        power(b, n) > 0,
    decreases n,
{
    if n > 0 {
        lemma_power_pos(b, (n - 1) as nat);
        let p = power(b, (n - 1) as nat);
        assert(b * p > 0) by (nonlinear_arith)
            requires
                b > 0,
                p > 0,
        ;
    }
}

pub proof fn lemma_power_grows(a: int, b: int, n: nat)
    requires
        a > b > 0,
        n > 0,
    ensures
        power(a, n) > power(b, n),
    decreases n,
{
    lemma_power_pos(a, (n - 1) as nat);
    lemma_power_pos(b, (n - 1) as nat);
    let pa = power(a, (n - 1) as nat);
    let pb = power(b, (n - 1) as nat);
    if n > 1 {
        lemma_power_grows(a, b, (n - 1) as nat);
    }
    assert(a * pa > b * pb) by (nonlinear_arith)
        requires
            a > b > 0,
            pa >= pb > 0,
    ;
}

proof fn lemma_big_val_bound(s: Seq<u64>)
    ensures
        0 <= big_val(s) < power(base(), s.len()),
    decreases s.len(),
{
    if s.len() > 0 {
        let n = (s.len() - 1) as nat;
        lemma_big_val_bound(s.drop_last());
        lemma_power_pos(base(), n);
        let p = power(base(), n);
        let v = big_val(s.drop_last());
        let l = s.last() as int;
        assert(v + l * p < base() * p) by (nonlinear_arith)
            requires
                0 <= v < p,
                0 <= l < base(),
        ;
        assert(0 <= l * p) by (nonlinear_arith)
            requires
                0 <= l,
                p > 0,
        ;
    }
}

proof fn lemma_big_val_push_zero(s: Seq<u64>)
    ensures
        big_val(s.push(0)) == big_val(s),
{
    let t = s.push(0);
    assert(t.drop_last() =~= s);
    let l = t.last() as int;
    let p = power(base(), s.len());
    assert(l * p == 0) by (nonlinear_arith)
        requires
            l == 0,
    ;
}

pub proof fn lemma_big_val_single(t: Seq<u64>)
    requires
        t.len() == 1,
    ensures
        big_val(t) == t[0],
{
    assert(t.drop_last() =~= Seq::<u64>::empty());
    assert(big_val(Seq::<u64>::empty()) == 0);
    assert(power(base(), 0) == 1);
    assert(t.last() == t[0]);
    let l = t.last() as int;
    assert(l * 1 == l) by (nonlinear_arith);
}

/// Splitting a number at limb `m`.
proof fn lemma_big_val_split(s: Seq<u64>, m: int)
    requires
        0 <= m <= s.len(),
    ensures
        big_val(s) == big_val(s.take(m)) + big_val(s.skip(m)) * power(base(), m as nat),
    decreases s.len(),
{
    if m == s.len() {
        assert(s.take(m) =~= s);
        assert(s.skip(m) =~= Seq::<u64>::empty());
    } else {
        let n = (s.len() - 1) as nat;
        lemma_big_val_split(s.drop_last(), m);
        assert(s.drop_last().take(m) =~= s.take(m));
        let hi = s.skip(m);
        assert(hi.drop_last() =~= s.drop_last().skip(m));
        assert(hi.last() == s.last());
        let pm = power(base(), m as nat);
        let k = (hi.len() - 1) as nat;
        lemma_power_add(base(), m as nat, k);
        let vh = big_val(hi.drop_last());
        let l = s.last() as int;
        let pk = power(base(), k);
        assert((vh + l * pk) * pm == vh * pm + l * (pm * pk)) by (nonlinear_arith);
    }
}

pub proof fn lemma_power_add(b: int, m: nat, k: nat)
    ensures
        power(b, m) * power(b, k) == power(b, m + k),
    decreases m,
{
    if m > 0 {
        lemma_power_add(b, (m - 1) as nat, k);
        let p = power(b, (m - 1) as nat);
        let q = power(b, k);
        assert((b * p) * q == b * (p * q)) by (nonlinear_arith);
    }
}

/// `a * k`, for a number `a` and a single limb `k`.
pub fn mul_small(a: &Vec<u64>, k: u64) -> (r: Vec<u64>)
    ensures
        big_val(r@) == big_val(a@) * k,
{
    let mut r: Vec<u64> = Vec::new();
    let mut carry: u64 = 0;
    let mut i: usize = 0;
    while i < a.len()
        invariant
            i <= a@.len(),
            r@.len() == i,
            big_val(r@) + carry * power(base(), i as nat) == big_val(a@.take(i as int)) * k,
        decreases a@.len() - i,
    {
        let ai = a[i];
        assert((ai as int) * (k as int) + carry as int <= (base() - 1) * (base() - 1) + base() - 1) by (nonlinear_arith)
            requires
                0 <= ai < base(),
                0 <= k < base(),
                0 <= carry < base(),
        ;
        let prod: u128 = ai as u128 * k as u128 + carry as u128;
        let lo: u64 = (prod % 0x1_0000_0000_0000_0000u128) as u64;
        let hi: u64 = (prod / 0x1_0000_0000_0000_0000u128) as u64;
        proof {
            let p = power(base(), i as nat);
            let old_r = r@;
            assert(prod == lo + hi * base());
            assert(a@.take(i + 1).drop_last() =~= a@.take(i as int));
            assert(old_r.push(lo).drop_last() =~= old_r);
            assert(big_val(old_r.push(lo)) == big_val(old_r) + lo * p);
            assert(big_val(a@.take(i + 1)) == big_val(a@.take(i as int)) + ai * p);
            assert(power(base(), (i + 1) as nat) == base() * p);
            assert(lo * p + hi * (base() * p) == (ai * k + carry) * p) by (nonlinear_arith)
                requires
                    lo + hi * base() == ai * k + carry,
            ;
            let v = big_val(a@.take(i as int));
            let w = big_val(old_r);
            assert(w + lo * p + hi * (base() * p) == (v + ai * p) * k) by (nonlinear_arith)
                requires
                    w + carry * p == v * k,
                    lo * p + hi * (base() * p) == (ai * k + carry) * p,
            ;
        }
        r.push(lo);
        carry = hi;
        i = i + 1;
    }
    proof {
        assert(a@.take(i as int) =~= a@);
        assert(r@.push(carry).drop_last() =~= r@);
    }
    r.push(carry);
    r
}

/// `b^n` as a big number.
pub fn power_big(b: u64, n: u8) -> (r: Vec<u64>)
    ensures
        big_val(r@) == power(b as int, n as nat),
{
    let mut r: Vec<u64> = Vec::new();
    r.push(1);
    proof {
        assert(r@.drop_last() =~= Seq::<u64>::empty());
        assert(big_val(r@.drop_last()) == 0);
        assert(power(base(), 0) == 1);
        assert(big_val(r@) == 1);
    }
    let mut i: u8 = 0;
    while i < n
        invariant
            i <= n,
            big_val(r@) == power(b as int, i as nat),
        decreases n - i,
    {
        r = mul_small(&r, b);
        proof {
            let p = power(b as int, i as nat);
            assert(p * b == b * p) by (nonlinear_arith);
        }
        i = i + 1;
    }
    r
}

/// Whether `big_val(a) >= big_val(b)`.
pub fn big_ge(a: &Vec<u64>, b: &Vec<u64>) -> (r: bool)
    ensures
        r == (big_val(a@) >= big_val(b@)),
{
    let mut x = a.clone();
    let mut y = b.clone();
    proof {
        assert(x@ =~= a@);
        assert(y@ =~= b@);
    }
    while x.len() < y.len()
        invariant
            big_val(x@) == big_val(a@),
            big_val(y@) == big_val(b@),
        decreases y@.len() - x@.len(),
    {
        proof {
            assert(x@.push(0).drop_last() =~= x@);
            lemma_big_val_push_zero(x@);
        }
        x.push(0);
    }
    while y.len() < x.len()
        invariant
            big_val(x@) == big_val(a@),
            big_val(y@) == big_val(b@),
            y@.len() <= x@.len(),
        decreases x@.len() - y@.len(),
    {
        proof {
            assert(y@.push(0).drop_last() =~= y@);
            lemma_big_val_push_zero(y@);
        }
        y.push(0);
    }
    let n = x.len();
    proof {
        assert(x@.skip(n as int) =~= y@.skip(n as int));
    }
    let mut i: usize = n;
    while i > 0
        invariant
            x@.len() == n,
            y@.len() == n,
            i <= n,
            x@.skip(i as int) == y@.skip(i as int),
            big_val(x@) == big_val(a@),
            big_val(y@) == big_val(b@),
        decreases i,
    {
        let j = i - 1;
        if x[j] != y[j] {
            proof {
                lemma_big_val_split(x@, j as int);
                lemma_big_val_split(y@, j as int);
                let hx = x@.skip(j as int);
                let hy = y@.skip(j as int);
                assert(hx.drop_first() =~= x@.skip(i as int));
                assert(hy.drop_first() =~= y@.skip(i as int));
                lemma_big_val_split(hx, 1);
                lemma_big_val_split(hy, 1);
                assert(hx.take(1).drop_last() =~= Seq::<u64>::empty());
                assert(hy.take(1).drop_last() =~= Seq::<u64>::empty());
                assert(hx.skip(1) =~= x@.skip(i as int));
                assert(hy.skip(1) =~= y@.skip(i as int));
                assert(power(base(), 0) == 1);
                assert(power(base(), 1) == base());
                lemma_big_val_single(hx.take(1));
                lemma_big_val_single(hy.take(1));
                assert(hx.take(1)[0] == x@[j as int]);
                assert(hy.take(1)[0] == y@[j as int]);
                let h = big_val(x@.skip(i as int));
                let p = power(base(), j as nat);
                lemma_power_pos(base(), j as nat);
                lemma_big_val_bound(x@.take(j as int));
                lemma_big_val_bound(y@.take(j as int));
                let lx = big_val(x@.take(j as int));
                let ly = big_val(y@.take(j as int));
                let dx = x@[j as int] as int;
                let dy = y@[j as int] as int;
                let hb = h * base();
                assert(big_val(x@) == lx + (dx + hb) * p);
                assert(big_val(y@) == ly + (dy + hb) * p);
                assert((dx + hb) * p == dx * p + hb * p) by (nonlinear_arith);
                assert((dy + hb) * p == dy * p + hb * p) by (nonlinear_arith);
                if dx > dy {
                    assert(dx * p >= dy * p + p) by (nonlinear_arith)
                        requires
                            dx >= dy + 1,
                            p > 0,
                    ;
                } else {
                    assert(dy * p >= dx * p + p) by (nonlinear_arith)
                        requires
                            dy >= dx + 1,
                            p > 0,
                    ;
                }
            }
            return x[j] > y[j];
        }
        proof {
            assert(x@.skip(j as int) =~= seq![x@[j as int]] + x@.skip(i as int));
            assert(y@.skip(j as int) =~= seq![y@[j as int]] + y@.skip(i as int));
        }
        i = j;
    }
    proof {
        assert(x@ =~= x@.skip(0));
        assert(y@ =~= y@.skip(0));
    }
    true
}

} // verus!
