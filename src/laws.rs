use vstd::prelude::*;
use crate::credit::{accrued_credit, months_due, next_last_pay, payment_of, pays, Credit};
use crate::deposit::{accrued, lemma_compound_grows, months_due_at, Deposit, DepositService};
use crate::engine::{delta, BankService};
use crate::money::Money;
use crate::time::{
    lemma_from_seconds, lemma_month_index_order, lemma_months_later_some, lemma_months_later_wf, lemma_seconds_order,
    months_later, seconds_of, TimeService, Timestamp,
};
use crate::error::BankError;
use crate::types::{BIK, Transaction, TransactionEndPoint, UserType};

verus! {

/// Money is conserved by a posted transfer: between two real accounts the sum
/// of their balances is unchanged; with the system pseudo-account on one side
/// the real side moves by exactly the amount, in the right direction; no
/// other account changes.
pub proof fn law_conservation(s0: &BankService, s1: &BankService, t: Transaction, enforce_balance: bool)
    requires
        s0.wf(),
        s0.post_check(t, enforce_balance) is Ok,
        s1.transferred(s0, t),
    ensures
        t.src.is_real() && t.dst.is_real() ==> s1.balance(t.src) + s1.balance(t.dst) == s0.balance(
            t.src,
        ) + s0.balance(t.dst),
        !t.src.is_real() && t.dst.is_real() ==> s1.balance(t.dst) == s0.balance(t.dst) + t.amount.val(),
        t.src.is_real() && !t.dst.is_real() ==> s1.balance(t.src) == s0.balance(t.src) - t.amount.val(),
        forall|ep: TransactionEndPoint| #[trigger] s0.has_account(ep) && ep != t.src && ep != t.dst
            ==> s1.balance(ep) == s0.balance(ep),
{
    if t.src.is_real() {
        assert(s0.has_account(t.src));
    }
    if t.dst.is_real() {
        assert(s0.has_account(t.dst));
    }
}

/// A transfer from an endpoint to itself is always refused with
/// `InvalidAmount` (and a refused post changes nothing).
pub proof fn law_no_self_transfer(s: &BankService, t: Transaction, enforce_balance: bool)
    requires
        t.src == t.dst,
    ensures
        s.post_check(t, enforce_balance) == Err::<(), BankError>(BankError::InvalidAmount),
{
}

/// A post with the balance enforced never leaves a real source account
/// negative.
pub proof fn law_balance_enforced(s0: &BankService, s1: &BankService, t: Transaction)
    requires
        s0.wf(),
        s0.post_check(t, true) is Ok,
        s1.transferred(s0, t),
        t.src.is_real(),
    ensures
        s1.balance(t.src) >= 0,
{
    assert(s0.has_account(t.src));
}

/// Right after a successful post of `t`, reverting it succeeds, and the
/// revert brings every balance back to its value before `t`.
pub proof fn law_revert_restores(
    s0: &BankService,
    s1: &BankService,
    s2: &BankService,
    t: Transaction,
    enforce_balance: bool,
)
    requires
        s0.wf(),
        s0.post_check(t, enforce_balance) is Ok,
        s1.transferred(s0, t),
        s1.transactions@ == s0.transactions@.push(t),
    ensures
        s1.post_check(t.spec_inverse(), false) is Ok,
        s1.revert_check(UserType::Operator) is Ok,
        s2.transferred(s1, t.spec_inverse()) ==> forall|ep: TransactionEndPoint| #[trigger] s0.has_account(ep)
            ==> s2.balance(ep) == s0.balance(ep),
{
    if t.src.is_real() {
        assert(s0.has_account(t.src));
        assert(s1.has_account(t.src));
    }
    if t.dst.is_real() {
        assert(s0.has_account(t.dst));
        assert(s1.has_account(t.dst));
    }
    assert(s1.transactions@.last() == t);
    if s2.transferred(s1, t.spec_inverse()) {
        assert forall|ep: TransactionEndPoint| #[trigger] s0.has_account(ep)
            implies s2.balance(ep) == s0.balance(ep) by {
            assert(s1.has_account(ep));
        }
    }
}

/// An accrual pass never lowers a deposit's amount. It moves the last update
/// forward by whole months, to a date neither after "now" nor after the end
/// date, and by as many months as that allows. Once the last update has reached
/// the end date's month the deposit no longer changes.
pub proof fn law_deposit_monotone(d: Deposit, now: Timestamp)
    requires
        d.wf(),
        now.wf(),
    ensures
        accrued(d, now).current_amount.val() >= d.current_amount.val(),
        accrued(d, now).wf(),
        accrued(d, now) != d ==> {
            &&& accrued(d, now).last_update.month_index() > d.last_update.month_index()
            &&& !now.before(accrued(d, now).last_update)
            &&& !d.end_date.before(accrued(d, now).last_update)
        },
        accrued(d, now) != d ==> (months_later(d.last_update, (months_due_at(d, now) + 1) as nat) matches Some(t)
            ==> now.before(t) || d.end_date.before(t)),
        d.last_update.month_index() == d.end_date.month_index() ==> accrued(d, now) == d,
{
    let to_now = now.month_index() - d.last_update.month_index();
    let to_end = d.end_date.month_index() - d.last_update.month_index();
    let k = if to_now <= to_end { to_now } else { to_end };
    let m = months_due_at(d, now);
    if k > 0 {
        lemma_months_later_wf(d.last_update, k as nat);
        lemma_months_later_wf(d.last_update, (k + 1) as nat);
        if let Some(t) = months_later(d.last_update, (k + 1) as nat) {
            if to_now <= to_end {
                lemma_month_index_order(now, t);
            } else {
                lemma_month_index_order(d.end_date, t);
            }
        }
        if m == k - 1 && m > 0 {
            lemma_months_later_some(d.last_update, m as nat, now);
            lemma_months_later_wf(d.last_update, m as nat);
            let t = months_later(d.last_update, m as nat).unwrap();
            lemma_month_index_order(t, now);
            lemma_month_index_order(t, d.end_date);
        }
        if m > 0 {
            lemma_months_later_wf(d.last_update, m as nat);
            lemma_compound_grows(d.current_amount.val(), d.interest_rate as int, m as nat);
        }
    }
}

/// Withdrawal is gated on maturity: before the end date it fails with
/// `DepositNotMatured`, at or after it succeeds with the current amount; and
/// after a client's only deposit was withdrawn, withdrawing it again fails.
pub proof fn law_maturity_gate(s0: &DepositService, s1: &DepositService, login: Seq<char>, idx: int, now: Timestamp)
    requires
        0 <= idx < s0.deposits_of(login).len(),
    ensures
        now.before(s0.deposits_of(login)[idx].end_date) ==> s0.withdraw_result(login, idx, now)
            == Err::<Money, BankError>(BankError::DepositNotMatured),
        !now.before(s0.deposits_of(login)[idx].end_date) ==> s0.withdraw_result(login, idx, now)
            == Ok::<Money, BankError>(s0.deposits_of(login)[idx].current_amount),
        s0.deposits_of(login).len() == 1 && s1.deposits_of(login) == s0.deposits_of(login).remove(idx)
            ==> s1.withdraw_result(login, idx, now) == Err::<Money, BankError>(BankError::IndexOutOfRange),
{
}

/// Credit repayment terminates: a pass keeps the credit's terms and monthly
/// payment, never pays beyond the term, and a pass at or after the month the
/// term ends brings the payments to the full term; from then on no pass makes
/// a payment or changes the credit.
pub proof fn law_credit_terminates(c: Credit, now: Timestamp, later: Timestamp, bik: BIK)
    requires
        c.wf(),
        now.wf(),
        later.wf(),
    ensures
        accrued_credit(c, now).wf(),
        accrued_credit(c, now).monthly_pay == c.monthly_pay,
        accrued_credit(c, now).params == c.params,
        accrued_credit(c, now).first_pay == c.first_pay,
        c.months_paid() <= accrued_credit(c, now).months_paid() <= c.params.term,
        now.month_index() >= c.first_pay.month_index() + c.params.term
            ==> accrued_credit(c, now).months_paid() == c.params.term,
        c.months_paid() == c.params.term ==> payment_of(c, later, bik) is None && accrued_credit(c, later) == c,
{
    let k = months_due(c, now);
    if k > 0 {
        let target = (c.months_paid() + k) as nat;
        lemma_months_later_some(c.first_pay, target, now);
        lemma_months_later_wf(c.first_pay, target);
        assert(pays(c, now));
        assert(next_last_pay(c, now) is Some);
    }
}

/// Right after the clock was set to `dt` while the real clock read `a`, "now"
/// at real time `a` is exactly `dt`.
pub proof fn law_clock_reads_back(c: &TimeService, dt: Timestamp, a: Timestamp)
    requires
        dt.wf(),
        a.wf(),
        c.virtual_time == Some(dt),
        c.real_time == a,
    ensures
        c.now_at(a) == Some(dt),
{
    lemma_from_seconds(dt);
}

/// "Now" never runs backward while the real clock runs forward: at a later
/// (or equal) real time the clock reads a later (or equal) instant.
pub proof fn law_clock_monotone(c: &TimeService, a1: Timestamp, a2: Timestamp)
    requires
        c.wf(),
        a1.wf(),
        a2.wf(),
        !a2.before(a1),
    ensures
        c.now_seconds(a1) <= c.now_seconds(a2),
        c.now_at(a1) matches Some(x1) ==> (c.now_at(a2) matches Some(x2) ==> !x2.before(x1)),
{
    if a1.before(a2) {
        lemma_seconds_order(a1, a2);
    } else {
        assert(a1 == a2);
    }
    if let Some(x1) = c.now_at(a1) {
        if let Some(x2) = c.now_at(a2) {
            if c.virtual_time is Some {
                let s1 = c.now_seconds(a1);
                let s2 = c.now_seconds(a2);
                assert(exists|x: Timestamp| x.wf() && seconds_of(x) == s1);
                assert(exists|x: Timestamp| x.wf() && seconds_of(x) == s2);
                assert(x1.wf() && seconds_of(x1) == s1);
                assert(x2.wf() && seconds_of(x2) == s2);
            }
            if x2.before(x1) {
                lemma_seconds_order(x2, x1);
            }
        }
    }
}

/// The sum of the balances of the accounts `eps`.
pub open spec fn total_balance(s: &BankService, eps: Seq<TransactionEndPoint>) -> int
    decreases eps.len(),
{
    if eps.len() == 0 {
        0
    } else {
        total_balance(s, eps.drop_last()) + s.balance(eps.last())
    }
}

proof fn lemma_total_moves(s0: &BankService, s1: &BankService, t: Transaction, eps: Seq<TransactionEndPoint>)
    requires
        t.src != t.dst,
        eps.no_duplicates(),
        forall|i: int| 0 <= i < eps.len() ==> s1.balance(#[trigger] eps[i]) == s0.balance(eps[i]) + delta(t, eps[i]),
    ensures
        total_balance(s1, eps) == total_balance(s0, eps)
            + (if t.dst.is_real() && eps.contains(t.dst) { t.amount.val() } else { 0 })
            - (if t.src.is_real() && eps.contains(t.src) { t.amount.val() } else { 0 }),
    decreases eps.len(),
{
    if eps.len() > 0 {
        let rest = eps.drop_last();
        assert forall|i: int| 0 <= i < rest.len() implies s1.balance(#[trigger] rest[i]) == s0.balance(rest[i]) + delta(t, rest[i]) by {
            assert(rest[i] == eps[i]);
        }
        assert(rest.no_duplicates()) by {
            assert forall|i: int, j: int| 0 <= i < rest.len() && 0 <= j < rest.len() && i != j implies rest[i] != rest[j] by {
                assert(rest[i] == eps[i] && rest[j] == eps[j]);
            }
        }
        lemma_total_moves(s0, s1, t, rest);
        let l = eps.last();
        assert(s1.balance(eps[eps.len() - 1]) == s0.balance(eps[eps.len() - 1]) + delta(t, eps[eps.len() - 1]));
        assert forall|x: TransactionEndPoint| eps.contains(x) <==> (rest.contains(x) || x == l) by {
            if eps.contains(x) {
                let i = choose|i: int| 0 <= i < eps.len() && eps[i] == x;
                if i < eps.len() - 1 {
                    assert(rest[i] == x);
                }
            }
            if rest.contains(x) {
                let i = choose|i: int| 0 <= i < rest.len() && rest[i] == x;
                assert(eps[i] == x);
            }
            if x == l {
                assert(eps[eps.len() - 1] == x);
            }
        }
        assert(!rest.contains(l)) by {
            if rest.contains(l) {
                let i = choose|i: int| 0 <= i < rest.len() && rest[i] == l;
                assert(eps[i] == eps[eps.len() - 1]);
            }
        }
    }
}

/// Money is conserved over any set of accounts `eps` (listed once each) that
/// holds the real endpoints of a posted transfer: between two real accounts
/// their total is unchanged; with the system pseudo-account on one side the
/// total moves by exactly the amount, up when money enters and down when it
/// leaves. Taking `eps` to be every account of every bank gives the
/// system-wide total.
pub proof fn law_total_conserved(
    s0: &BankService,
    s1: &BankService,
    t: Transaction,
    enforce_balance: bool,
    eps: Seq<TransactionEndPoint>,
)
    requires
        s0.wf(),
        s0.post_check(t, enforce_balance) is Ok,
        s1.transferred(s0, t),
        eps.no_duplicates(),
        forall|i: int| 0 <= i < eps.len() ==> s0.has_account(#[trigger] eps[i]),
        t.src.is_real() ==> eps.contains(t.src),
        t.dst.is_real() ==> eps.contains(t.dst),
    ensures
        total_balance(s1, eps) == total_balance(s0, eps)
            + (if t.src.is_real() { 0 } else { t.amount.val() })
            - (if t.dst.is_real() { 0 } else { t.amount.val() }),
{
    assert forall|i: int| 0 <= i < eps.len() implies s1.balance(#[trigger] eps[i]) == s0.balance(eps[i]) + delta(t, eps[i]) by {
        assert(s0.has_account(eps[i]));
    }
    lemma_total_moves(s0, s1, t, eps);
}

/// A pass one month after the last payment of a credit with payments left
/// pays exactly one monthly payment and advances the payments by one month.
pub proof fn law_credit_one_month(c: Credit, now: Timestamp, bik: BIK)
    requires
        c.wf(),
        now.wf(),
        now.month_index() == c.last_pay.month_index() + 1,
        c.months_paid() < c.params.term,
    ensures
        payment_of(c, now, bik) matches Some(p) && p.amount == c.monthly_pay,
        accrued_credit(c, now).months_paid() == c.months_paid() + 1,
{
    let target = (c.months_paid() + 1) as nat;
    lemma_months_later_some(c.first_pay, target, now);
    lemma_months_later_wf(c.first_pay, target);
    assert(months_due(c, now) == 1);
    assert(pays(c, now));
    let mp = c.monthly_pay.val();
    assert(1 * mp == mp);
}

/// Without the balance check a transfer between existing accounts goes
/// through whatever the source balance, so it may leave the source negative;
/// only a balance leaving the money range stops it.
pub proof fn law_unchecked_post_may_overdraw(s: &BankService, t: Transaction)
    requires
        t.src != t.dst,
        t.amount.val() > 0,
        t.src.is_real() ==> s.has_account(t.src) && s.balance(t.src) - t.amount.val() >= i32::MIN,
        t.dst.is_real() ==> s.has_account(t.dst) && s.balance(t.dst) + t.amount.val() <= i32::MAX,
    ensures
        s.post_check(t, false) is Ok,
{
}

/// An operator's revert of the last logged transfer goes through whenever its
/// accounts still exist and no balance leaves the money range, even when it
/// leaves an account negative.
pub proof fn law_revert_may_overdraw(s: &BankService)
    requires
        s.wf(),
        s.transactions@.len() > 0,
        ({
            let t = s.transactions@.last();
            &&& t.dst.is_real() ==> s.has_account(t.dst) && s.balance(t.dst) - t.amount.val() >= i32::MIN
            &&& t.src.is_real() ==> s.has_account(t.src) && s.balance(t.src) + t.amount.val() <= i32::MAX
        }),
    ensures
        s.revert_check(UserType::Operator) is Ok,
{
    let t = s.transactions@.last();
    assert(t == s.transactions@[s.transactions@.len() - 1]);
    law_unchecked_post_may_overdraw(s, t.spec_inverse());
}

} // verus!
