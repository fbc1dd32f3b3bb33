use vstd::prelude::*;
use crate::error::BankError;
use crate::money::Money;
use crate::table::LoginTable;
use crate::bignum::{big_ge, big_val, lemma_big_val_single, lemma_power_add, lemma_power_grows, lemma_power_pos, mul_small, power};
use crate::time::{months_later, signed_month_difference, add_months, min_int, Timestamp};
use crate::types::AccountID;

verus! {

/// A time deposit. `interest_rate` is a yearly percentage, compounded monthly.
pub struct Deposit {
    pub owner: String,
    pub interest_rate: u8,
    pub start_date: Timestamp,
    pub last_update: Timestamp,
    pub end_date: Timestamp,
    pub initial_amount: Money,
    pub current_amount: Money,
}

pub struct DepositNewRequest {
    pub src_account: AccountID,
    pub interest_rate: u8,
    pub months_expires: u32,
    pub amount: Money,
}

pub struct DepositWithdrawRequest {
    pub deposit_idx: usize,
    pub dst_account: AccountID,
}

pub struct DepositWithdrawResponse {
    pub withdrawn_money: Money,
}

/// `amount` after `months` months at a yearly `rate` percent compounded
/// monthly: `amount * (1 + rate / 1200)^months`, floored to the minor unit and
/// capped at the largest representable amount.
pub open spec fn compound(amount: int, rate: int, months: nat) -> int {
    min_int(amount * power(1200 + rate, months) / power(1200, months), i32::MAX as int)
}

/// Whole months of interest due on `d` at `now`: the most months `m` for which
/// the date `m` months after the last update is neither after `now` nor after
/// the end date (0 when the clock is behind the last update).
pub open spec fn months_due_at(d: Deposit, now: Timestamp) -> int {
    let k = min_int(
        now.month_index() - d.last_update.month_index(),
        d.end_date.month_index() - d.last_update.month_index(),
    );
    if k <= 0 {
        0
    } else if months_later(d.last_update, k as nat) matches Some(t) && !now.before(t) && !d.end_date.before(t) {
        k
    } else {
        k - 1
    }
}

/// The deposit `d` after an accrual pass at `now`: the whole months due are
/// compounded, and the last update moves forward by exactly those months.
pub open spec fn accrued(d: Deposit, now: Timestamp) -> Deposit {
    let months = months_due_at(d, now);
    if months <= 0 {
        d
    } else {
        match months_later(d.last_update, months as nat) {
            None => d,
            Some(t) => Deposit {
                last_update: t,
                current_amount: Money(
                    compound(d.current_amount.val(), d.interest_rate as int, months as nat) as i32,
                ),
                ..d
            },
        }
    }
}

impl Deposit {
    pub open spec fn wf(self) -> bool {
        &&& self.start_date.wf()
        &&& self.last_update.wf()
        &&& self.end_date.wf()
        &&& self.current_amount.val() > 0
    }

    /// A copy equal to `self`.
    pub fn duplicate(&self) -> (r: Deposit)
        ensures
            r == *self,
    {
        Deposit {
            owner: self.owner.clone(),
            interest_rate: self.interest_rate,
            start_date: self.start_date,
            last_update: self.last_update,
            end_date: self.end_date,
            initial_amount: self.initial_amount,
            current_amount: self.current_amount,
        }
    }
}

proof fn lemma_power_ge(a: int, b: int, n: nat)
    requires
        a >= b > 0,
    ensures
        power(a, n) >= power(b, n) > 0,
{
    lemma_power_pos(b, n);
    if n > 0 && a > b {
        lemma_power_grows(a, b, n);
    } else if a == b {
    } else {
        assert(power(a, 0) == 1 && power(b, 0) == 1);
    }
}

/// `q` is the floor of `n / d` when `q * d <= n < (q + 1) * d`.
proof fn lemma_floor(n: int, d: int, q: int)
    requires
        d > 0,
        q * d <= n,
        n < (q + 1) * d,
    ensures
        n / d == q,
{
    assert((q + 1) * d == q * d + d) by (nonlinear_arith);
    vstd::arithmetic::div_mod::lemma_fundamental_div_mod_converse(n, d, q, n - q * d);
}

/// `n / d` reaches `c` when `n >= c * d`.
proof fn lemma_div_at_least(n: int, d: int, c: int)
    requires
        d > 0,
        n >= c * d,
    ensures
        n / d >= c,
{
    vstd::arithmetic::div_mod::lemma_fundamental_div_mod(n, d);
    let q = n / d;
    let r = n % d;
    assert(0 <= r < d) by {
        vstd::arithmetic::div_mod::lemma_mod_bound(n, d);
    }
    assert(q >= c) by (nonlinear_arith)
        requires
            n == d * q + r,
            r < d,
            n >= c * d,
            d > 0,
    ;
}

pub proof fn lemma_compound_grows(amount: int, rate: int, months: nat)
    requires
        0 <= amount <= i32::MAX,
        0 <= rate,
    ensures
        amount <= compound(amount, rate, months) <= i32::MAX,
{
    let x = power(1200 + rate, months);
    let y = power(1200, months);
    lemma_power_ge(1200 + rate, 1200, months);
    assert(amount * x >= amount * y) by (nonlinear_arith)
        requires
            x >= y,
            amount >= 0,
    ;
    lemma_div_at_least(amount * x, y, amount);
}

/// `amount` compounded monthly for `months` months at a yearly `rate` percent.
pub fn compound_amount(amount: i32, rate: u8, months: u32) -> (r: i32)
    requires
        amount >= 0,
    ensures
        r == compound(amount as int, rate as int, months as nat),
{
    let ghost am = amount as int;
    let ghost xm = power(1200 + rate as int, months as nat);
    let ghost ym = power(1200, months as nat);
    proof {
        lemma_power_ge(1200 + rate as int, 1200, months as nat);
    }
    if rate == 0 || amount == 0 {
        proof {
            assert(am * xm == am * ym);
            assert(am * ym <= am * xm < (am + 1) * ym) by (nonlinear_arith)
                requires
                    am * xm == am * ym,
                    ym > 0,
            ;
            lemma_floor(am * xm, ym, am);
        }
        return amount;
    }
    let a = amount as u64;
    let cap: u64 = 0x8000_0000;
    let mut x: Vec<u64> = vec![1];
    let mut y: Vec<u64> = vec![1];
    proof {
        lemma_big_val_single(x@);
        lemma_big_val_single(y@);
    }
    let mut k: u32 = 0;
    while k < months
        invariant
            k <= months,
            a == am,
            am == amount as int,
            0 < am <= i32::MAX,
            cap == 0x8000_0000,
            big_val(x@) == power(1200 + rate as int, k as nat),
            big_val(y@) == power(1200, k as nat),
            am * big_val(x@) < cap * big_val(y@),
            xm == power(1200 + rate as int, months as nat),
            ym == power(1200, months as nat),
            ym > 0,
        decreases months - k,
    {
        x = mul_small(&x, 1200 + rate as u64);
        y = mul_small(&y, 1200);
        proof {
            let pk = power(1200 + rate as int, k as nat);
            let qk = power(1200, k as nat);
            assert(pk * (1200 + rate) == (1200 + rate) * pk) by (nonlinear_arith);
            assert(qk * 1200 == 1200 * qk) by (nonlinear_arith);
        }
        k = k + 1;
        if big_ge(&mul_small(&x, a), &mul_small(&y, cap)) {
            proof {
                let xk = big_val(x@);
                let yk = big_val(y@);
                let rest = (months - k) as nat;
                let p = power(1200 + rate as int, rest);
                let q = power(1200, rest);
                lemma_power_pos(1200, k as nat);
                lemma_power_ge(1200 + rate as int, 1200, rest);
                lemma_power_add(1200 + rate as int, k as nat, rest);
                lemma_power_add(1200, k as nat, rest);
                assert(xk * a == a * xk && yk * cap == cap * yk) by (nonlinear_arith);
                assert(am * (xk * p) >= cap * (yk * q)) by (nonlinear_arith)
                    requires
                        am * xk >= cap * yk,
                        p >= q > 0,
                        yk > 0,
                        cap > 0,
                ;
                assert(k as nat + rest == months as nat);
                assert(xm == xk * p);
                assert(ym == yk * q);
                assert(am * xm >= cap * ym);
                lemma_div_at_least(am * xm, ym, cap as int);
                assert(am * xm / ym >= cap);
                assert(compound(am, rate as int, months as nat) == i32::MAX);
            }
            return i32::MAX;
        }
        proof {
            let xk = big_val(x@);
            let yk = big_val(y@);
            assert(xk * a == a * xk && yk * cap == cap * yk) by (nonlinear_arith);
        }
    }
    let ax = mul_small(&x, a);
    let mut lo: u64 = a;
    let mut hi: u64 = i32::MAX as u64;
    proof {
        assert(big_val(ax@) == am * xm) by (nonlinear_arith)
            requires
                big_val(ax@) == big_val(x@) * am,
                big_val(x@) == xm,
        ;
        assert(am * ym <= am * xm) by (nonlinear_arith)
            requires
                xm >= ym,
                am > 0,
        ;
    }
    while lo < hi
        invariant
            a == am,
            lo <= hi <= i32::MAX,
            big_val(ax@) == am * xm,
            big_val(y@) == ym,
            ym > 0,
            lo * ym <= am * xm,
            am * xm < (hi + 1) * ym,
        decreases hi - lo,
    {
        let mid = lo + (hi - lo + 1) / 2;
        let my = mul_small(&y, mid);
        proof {
            assert(ym * mid == mid * ym) by (nonlinear_arith);
        }
        if big_ge(&ax, &my) {
            lo = mid;
        } else {
            hi = mid - 1;
        }
    }
    proof {
        lemma_floor(am * xm, ym, lo as int);
    }
    lo as i32
}

/// Applies one accrual pass at `now` to a deposit.
pub fn accrue_deposit(d: &mut Deposit, now: &Timestamp)
    requires
        old(d).wf(),
        now.wf(),
    ensures
        *final(d) == accrued(*old(d), *now),
        final(d).wf(),
{
    let to_now = signed_month_difference(&d.last_update, now);
    let to_end = signed_month_difference(&d.last_update, &d.end_date);
    let mut months = if to_now <= to_end {
        to_now
    } else {
        to_end
    };
    if months <= 0 {
        return;
    }
    let fits = match add_months(&d.last_update, months as u32) {
        Some(t) => !now.is_before(&t) && !d.end_date.is_before(&t),
        None => false,
    };
    if !fits {
        months = months - 1;
    }
    if months == 0 {
        return;
    }
    match add_months(&d.last_update, months as u32) {
        None => {},
        Some(t) => {
            proof {
                lemma_compound_grows(d.current_amount.val(), d.interest_rate as int, months as nat);
                crate::time::lemma_months_later_wf(d.last_update, months as nat);
            }
            d.current_amount = Money(compound_amount(d.current_amount.0, d.interest_rate, months as u32));
            d.last_update = t;
        },
    }
}

/// Time deposits of one bank, per client login.
pub struct DepositService {
    pub deposits: LoginTable<Vec<Deposit>>,
}

impl DepositService {
    pub open spec fn wf(&self) -> bool {
        &&& self.deposits.wf()
        &&& forall|i: int, j: int|
            0 <= i < self.deposits.entries@.len() && 0 <= j < self.deposits.entries@[i].value@.len()
                ==> (#[trigger] self.deposits.entries@[i].value@[j]).wf()
    }

    /// The deposits of `login`, in the order they were opened.
    pub open spec fn deposits_of(&self, login: Seq<char>) -> Seq<Deposit> {
        match self.deposits.get(login) {
            Some(v) => v@,
            None => Seq::empty(),
        }
    }

    /// What `withdraw` returns.
    pub open spec fn withdraw_result(&self, login: Seq<char>, idx: int, now: Timestamp) -> Result<Money, BankError> {
        let ds = self.deposits_of(login);
        if idx >= ds.len() {
            Err(BankError::IndexOutOfRange)
        } else if now.before(ds[idx].end_date) {
            Err(BankError::DepositNotMatured)
        } else {
            Ok(ds[idx].current_amount)
        }
    }

    pub fn new() -> (r: DepositService)
        ensures
            r.wf(),
            forall|k: Seq<char>| r.deposits_of(k) == Seq::<Deposit>::empty(),
    {
        DepositService { deposits: LoginTable::new() }
    }

    /// Registers `client` with no deposits; nothing changes if it is known.
    pub fn add_client(&mut self, client: String)
        requires
            old(self).wf(),
        ensures
            final(self).wf(),
            forall|k: Seq<char>| final(self).deposits_of(k) == old(self).deposits_of(k),
    {
        match self.deposits.find(&client) {
            Some(_) => {},
            None => {
                let ghost l = client@;
                self.deposits.push_new(client, Vec::new());
                proof {
                    assert(self.deposits_of(l) =~= old(self).deposits_of(l));
                    let n = self.deposits.entries@.len() - 1;
                    assert forall|i: int, j: int|
                        0 <= i < self.deposits.entries@.len() && 0 <= j < self.deposits.entries@[i].value@.len()
                            implies (#[trigger] self.deposits.entries@[i].value@[j]).wf() by {
                        if i < n {
                            assert(self.deposits.entries@[i] == old(self).deposits.entries@[i]);
                        }
                    }
                }
            },
        }
    }

    /// Appends `deposit` to the deposits of `client`.
    pub fn add_deposit(&mut self, client: String, deposit: Deposit)
        requires
            old(self).wf(),
            deposit.wf(),
        ensures
            final(self).wf(),
            final(self).deposits_of(client@) == old(self).deposits_of(client@).push(deposit),
            forall|k: Seq<char>| k != client@ ==> final(self).deposits_of(k) == old(self).deposits_of(k),
    {
        let ghost l = client@;
        match self.deposits.find(&client) {
            Some(i) => {
                self.deposits.entries[i].value.push(deposit);
                proof {
                    LoginTable::lemma_update(&old(self).deposits, &self.deposits, i as int);
                    self.lemma_wf_after_update(old(self), i as int);
                }
            },
            None => {
                let mut v: Vec<Deposit> = Vec::new();
                v.push(deposit);
                self.deposits.push_new(client, v);
                proof {
                    let n = self.deposits.entries@.len() - 1;
                    assert forall|i: int, j: int|
                        0 <= i < self.deposits.entries@.len() && 0 <= j < self.deposits.entries@[i].value@.len()
                            implies (#[trigger] self.deposits.entries@[i].value@[j]).wf() by {
                        if i < n {
                            assert(self.deposits.entries@[i] == old(self).deposits.entries@[i]);
                        }
                    }
                    assert(self.deposits_of(l) =~= old(self).deposits_of(l).push(deposit));
                }
            },
        }
    }

    proof fn lemma_wf_after_update(&self, old_s: &DepositService, i: int)
        requires
            old_s.wf(),
            self.deposits.wf(),
            0 <= i < old_s.deposits.entries@.len(),
            self.deposits.entries@.len() == old_s.deposits.entries@.len(),
            forall|j: int| 0 <= j < old_s.deposits.entries@.len() && j != i ==> self.deposits.entries@[j] == old_s.deposits.entries@[j],
            forall|j: int| 0 <= j < self.deposits.entries@[i].value@.len() ==> (#[trigger] self.deposits.entries@[i].value@[j]).wf(),
        ensures
            self.wf(),
    {
        assert forall|a: int, b: int|
            0 <= a < self.deposits.entries@.len() && 0 <= b < self.deposits.entries@[a].value@.len()
                implies (#[trigger] self.deposits.entries@[a].value@[b]).wf() by {
            if a != i {
                assert(self.deposits.entries@[a] == old_s.deposits.entries@[a]);
            }
        }
    }

    /// A copy of the deposits of `client`.
    pub fn get(&self, client: &String) -> (r: Vec<Deposit>)
        requires
            self.wf(),
        ensures
            r@ == self.deposits_of(client@),
    {
        match self.deposits.find(client) {
            None => Vec::new(),
            Some(i) => {
                let src = &self.deposits.entries[i].value;
                let mut out: Vec<Deposit> = Vec::new();
                let mut j: usize = 0;
                while j < src.len()
                    invariant
                        j <= src@.len(),
                        out@ == src@.subrange(0, j as int),
                    decreases src@.len() - j,
                {
                    out.push(src[j].duplicate());
                    j = j + 1;
                    proof {
                        assert(out@ =~= src@.subrange(0, j as int));
                    }
                }
                proof {
                    assert(out@ =~= src@);
                }
                out
            },
        }
    }

    /// The amount `withdraw` would hand out, without removing anything.
    pub fn matured_amount(&self, client: &String, idx: usize, now: &Timestamp) -> (r: Result<Money, BankError>)
        requires
            self.wf(),
        ensures
            r == self.withdraw_result(client@, idx as int, *now),
    {
        match self.deposits.find(client) {
            None => Err(BankError::IndexOutOfRange),
            Some(i) => {
                if idx >= self.deposits.entries[i].value.len() {
                    return Err(BankError::IndexOutOfRange);
                }
                if now.is_before(&self.deposits.entries[i].value[idx].end_date) {
                    return Err(BankError::DepositNotMatured);
                }
                Ok(self.deposits.entries[i].value[idx].current_amount)
            },
        }
    }

    /// Removes deposit `idx` of `client` and returns its current amount.
    /// Fails with `IndexOutOfRange` when there is no such deposit and with
    /// `DepositNotMatured` when `now` is before its end date.
    pub fn withdraw(&mut self, client: &String, idx: usize, now: &Timestamp) -> (r: Result<Money, BankError>)
        requires
            old(self).wf(),
        ensures
            final(self).wf(),
            r == old(self).withdraw_result(client@, idx as int, *now),
            r is Ok ==> final(self).deposits_of(client@) == old(self).deposits_of(client@).remove(idx as int),
            r is Ok ==> forall|k: Seq<char>| k != client@ ==> final(self).deposits_of(k) == old(self).deposits_of(k),
            r is Err ==> *final(self) == *old(self),
    {
        match self.deposits.find(client) {
            None => Err(BankError::IndexOutOfRange),
            Some(i) => {
                if idx >= self.deposits.entries[i].value.len() {
                    return Err(BankError::IndexOutOfRange);
                }
                if now.is_before(&self.deposits.entries[i].value[idx].end_date) {
                    return Err(BankError::DepositNotMatured);
                }
                let d = self.deposits.entries[i].value.remove(idx);
                proof {
                    LoginTable::lemma_update(&old(self).deposits, &self.deposits, i as int);
                    assert forall|j: int| 0 <= j < self.deposits.entries@[i as int].value@.len()
                        implies (#[trigger] self.deposits.entries@[i as int].value@[j]).wf() by {
                        if j < idx {
                            assert(self.deposits.entries@[i as int].value@[j] == old(self).deposits.entries@[i as int].value@[j]);
                        } else {
                            assert(self.deposits.entries@[i as int].value@[j] == old(self).deposits.entries@[i as int].value@[j + 1]);
                        }
                    }
                    self.lemma_wf_after_update(old(self), i as int);
                }
                Ok(d.current_amount)
            },
        }
    }

    /// Runs the accrual pass at `now` over every deposit.
    pub fn update(&mut self, now: &Timestamp)
        requires
            old(self).wf(),
            now.wf(),
        ensures
            final(self).wf(),
            forall|k: Seq<char>| #[trigger] final(self).deposits_of(k).len() == old(self).deposits_of(k).len(),
            forall|k: Seq<char>, j: int| 0 <= j < old(self).deposits_of(k).len()
                ==> #[trigger] final(self).deposits_of(k)[j] == accrued(old(self).deposits_of(k)[j], *now),
    {
        let mut i: usize = 0;
        let n = self.deposits.entries.len();
        while i < n
            invariant
                self.wf(),
                n == self.deposits.entries@.len(),
                n == old(self).deposits.entries@.len(),
                i <= n,
                now.wf(),
                forall|a: int| 0 <= a < n ==> #[trigger] self.deposits.entries@[a].login@ == old(self).deposits.entries@[a].login@,
                forall|a: int| 0 <= a < n ==> #[trigger] self.deposits.entries@[a].value@.len() == old(self).deposits.entries@[a].value@.len(),
                forall|a: int, b: int| 0 <= a < i && 0 <= b < old(self).deposits.entries@[a].value@.len()
                    ==> #[trigger] self.deposits.entries@[a].value@[b] == accrued(old(self).deposits.entries@[a].value@[b], *now),
                forall|a: int| i <= a < n ==> #[trigger] self.deposits.entries@[a] == old(self).deposits.entries@[a],
            decreases n - i,
        {
            let ghost before = *self;
            let m = self.deposits.entries[i].value.len();
            let mut j: usize = 0;
            while j < m
                invariant
                    before.wf(),
                    now.wf(),
                    i < n,
                    n == self.deposits.entries@.len(),
                    n == before.deposits.entries@.len(),
                    m == self.deposits.entries@[i as int].value@.len(),
                    j <= m,
                    self.deposits.entries@[i as int].login@ == before.deposits.entries@[i as int].login@,
                    m == before.deposits.entries@[i as int].value@.len(),
                    forall|a: int| 0 <= a < n && a != i ==> #[trigger] self.deposits.entries@[a] == before.deposits.entries@[a],
                    forall|b: int| 0 <= b < j ==> #[trigger] self.deposits.entries@[i as int].value@[b] == accrued(before.deposits.entries@[i as int].value@[b], *now),
                    forall|b: int| j <= b < m ==> #[trigger] self.deposits.entries@[i as int].value@[b] == before.deposits.entries@[i as int].value@[b],
                    forall|b: int| 0 <= b < m ==> (#[trigger] self.deposits.entries@[i as int].value@[b]).wf(),
                decreases m - j,
            {
                accrue_deposit(&mut self.deposits.entries[i].value[j], now);
                j = j + 1;
            }
            proof {
                LoginTable::lemma_update(&before.deposits, &self.deposits, i as int);
                self.lemma_wf_after_update(&before, i as int);
                assert forall|a: int| 0 <= a < n implies #[trigger] self.deposits.entries@[a].login@ == old(self).deposits.entries@[a].login@ by {
                    if a != i {
                        assert(self.deposits.entries@[a] == before.deposits.entries@[a]);
                    }
                }
                assert forall|a: int| 0 <= a < n implies #[trigger] self.deposits.entries@[a].value@.len() == old(self).deposits.entries@[a].value@.len() by {
                    if a != i {
                        assert(self.deposits.entries@[a] == before.deposits.entries@[a]);
                    }
                }
            }
            i = i + 1;
        }
        proof {
            assert forall|k: Seq<char>| #[trigger] self.deposits_of(k).len() == old(self).deposits_of(k).len() by {
                self.lemma_same_positions(old(self), k);
            }
            assert forall|k: Seq<char>, j: int| 0 <= j < old(self).deposits_of(k).len()
                implies #[trigger] self.deposits_of(k)[j] == accrued(old(self).deposits_of(k)[j], *now) by {
                self.lemma_same_positions(old(self), k);
            }
        }
    }

    /// Two tables with the same logins at the same positions.
    proof fn lemma_same_positions(&self, other: &DepositService, k: Seq<char>)
        requires
            self.wf(),
            other.wf(),
            self.deposits.entries@.len() == other.deposits.entries@.len(),
            forall|a: int| 0 <= a < self.deposits.entries@.len() ==> #[trigger] self.deposits.entries@[a].login@ == other.deposits.entries@[a].login@,
        ensures
            self.deposits.has(k) == other.deposits.has(k),
            self.deposits.has(k) ==> self.deposits.pos(k) == other.deposits.pos(k),
            self.deposits.has(k) ==> self.deposits_of(k) == self.deposits.entries@[self.deposits.pos(k)].value@,
            other.deposits.has(k) ==> other.deposits_of(k) == other.deposits.entries@[other.deposits.pos(k)].value@,
    {
        if self.deposits.has(k) {
            let p = self.deposits.pos(k);
            self.deposits.lemma_pos(p);
            assert(other.deposits.entries@[p].login@ == k);
            other.deposits.lemma_pos(p);
        }
        if other.deposits.has(k) {
            let p = other.deposits.pos(k);
            other.deposits.lemma_pos(p);
            assert(self.deposits.entries@[p].login@ == k);
            self.deposits.lemma_pos(p);
        }
    }
}

} // verus!
