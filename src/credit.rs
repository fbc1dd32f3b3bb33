use vstd::prelude::*;
use crate::money::Money;
use crate::table::{Entry, LoginTable};
use crate::time::{months_later, signed_month_difference, add_months, min_int, Timestamp};
use crate::types::{AccountID, BIK, Transaction, TransactionEndPoint};

verus! {

/// The term of a credit: one of the standard terms, or a custom number of
/// months.
#[derive(Clone, Copy, Debug, PartialEq, Eq, Structural)]
pub enum CreditTerm {
    M3,
    M6,
    M12,
    M24,
    MG24(u8),
}

impl CreditTerm {
    pub open spec fn spec_months(self) -> u8 {
        match self {
            CreditTerm::M3 => 3,
            CreditTerm::M6 => 6,
            CreditTerm::M12 => 12,
            CreditTerm::M24 => 24,
            CreditTerm::MG24(n) => n,
        }
    }

    /// A short label: the number of months of a standard term, or "custom".
    pub fn to_string(&self) -> (r: String)
        ensures
            r@ == match self {
                CreditTerm::M3 => "3 months"@,
                CreditTerm::M6 => "6 months"@,
                CreditTerm::M12 => "12 months"@,
                CreditTerm::M24 => "24 months"@,
                CreditTerm::MG24(_) => "custom"@,
            },
    {
        match self {
            CreditTerm::M3 => String::from_str("3 months"),
            CreditTerm::M6 => String::from_str("6 months"),
            CreditTerm::M12 => String::from_str("12 months"),
            CreditTerm::M24 => String::from_str("24 months"),
            CreditTerm::MG24(_) => String::from_str("custom"),
        }
    }

    /// The term in months.
    pub fn months(&self) -> (r: u8)
        ensures
            r == self.spec_months(),
    {
        match self {
            CreditTerm::M3 => 3,
            CreditTerm::M6 => 6,
            CreditTerm::M12 => 12,
            CreditTerm::M24 => 24,
            CreditTerm::MG24(n) => *n,
        }
    }
}

/// What a client asks for: `amount` paid out to `src_account`, repaid over
/// `term` months at `interest_rate` percent a month.
#[derive(Clone, Copy, Debug, PartialEq, Eq, Structural)]
pub struct CreditParams {
    pub src_account: AccountID,
    pub interest_rate: u8,
    pub term: u8,
    pub amount: Money,
}

/// A credit request waiting for a manager's decision.
pub struct CreditUnaccepted {
    pub owner: String,
    pub params: CreditParams,
}

impl CreditUnaccepted {
    /// A copy equal to `self`.
    pub fn duplicate(&self) -> (r: CreditUnaccepted)
        ensures
            r == *self,
    {
        CreditUnaccepted { owner: self.owner.clone(), params: self.params }
    }
}

/// An accepted credit. Payments are due monthly from `first_pay`;
/// `last_pay` is the date up to which the payments are made.
pub struct Credit {
    pub owner: String,
    pub params: CreditParams,
    pub monthly_pay: Money,
    pub first_pay: Timestamp,
    pub last_pay: Timestamp,
}

pub struct CreditNewRequest {
    pub src_account: AccountID,
    pub interest_rate: Option<u8>,
    pub term: CreditTerm,
    pub amount: Money,
}

pub struct CreditAcceptRequest {
    pub idx: usize,
}

impl Credit {
    /// Months of payments made so far.
    pub open spec fn months_paid(self) -> int {
        self.last_pay.month_index() - self.first_pay.month_index()
    }

    pub open spec fn wf(self) -> bool {
        &&& self.first_pay.wf()
        &&& self.last_pay.wf()
        &&& 0 <= self.months_paid() <= self.params.term
        &&& self.monthly_pay.val() > 0
        &&& self.monthly_pay.val() * self.params.term <= i32::MAX
    }

    /// A copy equal to `self`.
    pub fn duplicate(&self) -> (r: Credit)
        ensures
            r == *self,
    {
        Credit {
            owner: self.owner.clone(),
            params: self.params,
            monthly_pay: self.monthly_pay,
            first_pay: self.first_pay,
            last_pay: self.last_pay,
        }
    }
}

/// Months of payments that fall due at `now`: the whole months since the last
/// payment, but no more than the payments still outstanding.
pub open spec fn months_due(c: Credit, now: Timestamp) -> int {
    let since = now.month_index() - c.last_pay.month_index();
    let remaining = c.params.term - c.months_paid();
    if since > 0 && remaining > 0 {
        min_int(since, remaining)
    } else {
        0
    }
}

/// The date up to which `c` is paid after the payments due at `now`.
pub open spec fn next_last_pay(c: Credit, now: Timestamp) -> Option<Timestamp> {
    months_later(c.first_pay, (c.months_paid() + months_due(c, now)) as nat)
}

/// Whether an accrual pass at `now` makes a payment on `c`.
pub open spec fn pays(c: Credit, now: Timestamp) -> bool {
    months_due(c, now) > 0 && next_last_pay(c, now) is Some
}

/// The credit `c` after an accrual pass at `now`.
pub open spec fn accrued_credit(c: Credit, now: Timestamp) -> Credit {
    if pays(c, now) {
        Credit { last_pay: next_last_pay(c, now).unwrap(), ..c }
    } else {
        c
    }
}

/// The payment an accrual pass at `now` makes on `c`, a credit of bank `bik`:
/// the months due times the monthly payment, from the credit's account to the
/// system pseudo-account.
pub open spec fn payment_of(c: Credit, now: Timestamp, bik: BIK) -> Option<Transaction> {
    if pays(c, now) {
        Some(
            Transaction {
                src: TransactionEndPoint { bik, account_id: c.params.src_account },
                dst: TransactionEndPoint { bik: 0, account_id: 0 },
                amount: Money((months_due(c, now) * c.monthly_pay.val()) as i32),
            },
        )
    } else {
        None
    }
}

/// Applies one accrual pass at `now` to a credit of bank `bik`, returning the
/// payment to post.
pub fn accrue_credit(c: &mut Credit, now: &Timestamp, bik: BIK) -> (r: Option<Transaction>)
    requires
        old(c).wf(),
        now.wf(),
    ensures
        *final(c) == accrued_credit(*old(c), *now),
        final(c).wf(),
        r == payment_of(*old(c), *now, bik),
{
    let since = signed_month_difference(&c.last_pay, now);
    let paid = signed_month_difference(&c.first_pay, &c.last_pay);
    let remaining: i32 = c.params.term as i32 - paid;
    if since <= 0 || remaining <= 0 {
        return None;
    }
    let k: i32 = if since <= remaining {
        since
    } else {
        remaining
    };
    match add_months(&c.first_pay, (paid + k) as u32) {
        None => None,
        Some(t) => {
            proof {
                crate::time::lemma_months_later_wf(c.first_pay, (paid + k) as nat);
                let mp = c.monthly_pay.val();
                let term = c.params.term as int;
                assert(0 < k * mp <= i32::MAX) by (nonlinear_arith)
                    requires
                        0 < k <= term,
                        mp > 0,
                        mp * term <= i32::MAX,
                ;
            }
            c.last_pay = t;
            Some(
                Transaction {
                    src: TransactionEndPoint { bik, account_id: c.params.src_account },
                    dst: TransactionEndPoint { bik: 0, account_id: 0 },
                    amount: Money(k * c.monthly_pay.0),
                },
            )
        },
    }
}

/// The payments of one pass over `cs`, in order.
pub open spec fn payments(cs: Seq<Credit>, now: Timestamp, bik: BIK) -> Seq<Transaction>
    decreases cs.len(),
{
    if cs.len() == 0 {
        Seq::empty()
    } else {
        let rest = payments(cs.drop_last(), now, bik);
        match payment_of(cs.last(), now, bik) {
            Some(t) => rest.push(t),
            None => rest,
        }
    }
}

/// The payments of one pass over every client's credits, client by client.
pub open spec fn all_payments(es: Seq<Entry<Vec<Credit>>>, now: Timestamp, bik: BIK) -> Seq<Transaction>
    decreases es.len(),
{
    if es.len() == 0 {
        Seq::empty()
    } else {
        all_payments(es.drop_last(), now, bik) + payments(es.last().value@, now, bik)
    }
}

/// Credit requests and accepted credits of one bank.
pub struct CreditService {
    pub accepted_credits: LoginTable<Vec<Credit>>,
    pub unaccepted_credits: Vec<CreditUnaccepted>,
}

impl CreditService {
    pub open spec fn wf(&self) -> bool {
        &&& self.accepted_credits.wf()
        &&& forall|i: int, j: int|
            0 <= i < self.accepted_credits.entries@.len() && 0 <= j < self.accepted_credits.entries@[i].value@.len()
                ==> (#[trigger] self.accepted_credits.entries@[i].value@[j]).wf()
    }

    /// The accepted credits of `login`, in the order they were accepted.
    pub open spec fn credits_of(&self, login: Seq<char>) -> Seq<Credit> {
        match self.accepted_credits.get(login) {
            Some(v) => v@,
            None => Seq::empty(),
        }
    }

    pub fn new() -> (r: CreditService)
        ensures
            r.wf(),
            r.unaccepted_credits@.len() == 0,
            forall|k: Seq<char>| r.credits_of(k) == Seq::<Credit>::empty(),
    {
        CreditService { accepted_credits: LoginTable::new(), unaccepted_credits: Vec::new() }
    }

    proof fn lemma_wf_after_update(&self, old_s: &CreditService, i: int)
        requires
            old_s.wf(),
            self.accepted_credits.wf(),
            0 <= i < old_s.accepted_credits.entries@.len(),
            self.accepted_credits.entries@.len() == old_s.accepted_credits.entries@.len(),
            forall|j: int| 0 <= j < old_s.accepted_credits.entries@.len() && j != i
                ==> self.accepted_credits.entries@[j] == old_s.accepted_credits.entries@[j],
            forall|j: int| 0 <= j < self.accepted_credits.entries@[i].value@.len()
                ==> (#[trigger] self.accepted_credits.entries@[i].value@[j]).wf(),
        ensures
            self.wf(),
    {
        assert forall|a: int, b: int|
            0 <= a < self.accepted_credits.entries@.len() && 0 <= b < self.accepted_credits.entries@[a].value@.len()
                implies (#[trigger] self.accepted_credits.entries@[a].value@[b]).wf() by {
            if a != i {
                assert(self.accepted_credits.entries@[a] == old_s.accepted_credits.entries@[a]);
            }
        }
    }

    /// Registers `client` with no credits; nothing changes if it is known.
    pub fn add_client(&mut self, client: String)
        requires
            old(self).wf(),
        ensures
            final(self).wf(),
            final(self).unaccepted_credits == old(self).unaccepted_credits,
            forall|k: Seq<char>| final(self).credits_of(k) == old(self).credits_of(k),
    {
        match self.accepted_credits.find(&client) {
            Some(_) => {},
            None => {
                let ghost l = client@;
                self.accepted_credits.push_new(client, Vec::new());
                proof {
                    assert(self.credits_of(l) =~= old(self).credits_of(l));
                    let n = self.accepted_credits.entries@.len() - 1;
                    assert forall|i: int, j: int|
                        0 <= i < self.accepted_credits.entries@.len() && 0 <= j < self.accepted_credits.entries@[i].value@.len()
                            implies (#[trigger] self.accepted_credits.entries@[i].value@[j]).wf() by {
                        if i < n {
                            assert(self.accepted_credits.entries@[i] == old(self).accepted_credits.entries@[i]);
                        }
                    }
                }
            },
        }
    }

    /// Appends an accepted credit to its owner's credits.
    pub fn add_accepted(&mut self, credit: Credit)
        requires
            old(self).wf(),
            credit.wf(),
        ensures
            final(self).wf(),
            final(self).unaccepted_credits == old(self).unaccepted_credits,
            final(self).credits_of(credit.owner@) == old(self).credits_of(credit.owner@).push(credit),
            forall|k: Seq<char>| k != credit.owner@ ==> final(self).credits_of(k) == old(self).credits_of(k),
    {
        let ghost l = credit.owner@;
        let ghost c = credit;
        match self.accepted_credits.find(&credit.owner) {
            Some(i) => {
                self.accepted_credits.entries[i].value.push(credit);
                proof {
                    LoginTable::lemma_update(&old(self).accepted_credits, &self.accepted_credits, i as int);
                    self.lemma_wf_after_update(old(self), i as int);
                }
            },
            None => {
                let owner = credit.owner.clone();
                let mut v: Vec<Credit> = Vec::new();
                v.push(credit);
                self.accepted_credits.push_new(owner, v);
                proof {
                    let n = self.accepted_credits.entries@.len() - 1;
                    assert forall|i: int, j: int|
                        0 <= i < self.accepted_credits.entries@.len() && 0 <= j < self.accepted_credits.entries@[i].value@.len()
                            implies (#[trigger] self.accepted_credits.entries@[i].value@[j]).wf() by {
                        if i < n {
                            assert(self.accepted_credits.entries@[i] == old(self).accepted_credits.entries@[i]);
                        }
                    }
                    assert(self.credits_of(l) =~= old(self).credits_of(l).push(c));
                }
            },
        }
    }

    /// A copy of the accepted credits of `client`.
    pub fn get(&self, client: &String) -> (r: Vec<Credit>)
        requires
            self.wf(),
        ensures
            r@ == self.credits_of(client@),
    {
        match self.accepted_credits.find(client) {
            None => Vec::new(),
            Some(i) => {
                let src = &self.accepted_credits.entries[i].value;
                let mut out: Vec<Credit> = Vec::new();
                let mut j: usize = 0;
                while j < src.len()
                    invariant
                        j <= src@.len(),
                        out@ == src@.subrange(0, j as int),
                    decreases src@.len() - j,
                {
                    out.push(src[j].duplicate());
                    j = j + 1;
                    proof {
                        assert(out@ =~= src@.subrange(0, j as int));
                    }
                }
                proof {
                    assert(out@ =~= src@);
                }
                out
            },
        }
    }

    /// A copy of the pending credit requests.
    pub fn get_unaccepted(&self) -> (r: Vec<CreditUnaccepted>)
        ensures
            r@ == self.unaccepted_credits@,
    {
        let src = &self.unaccepted_credits;
        let mut out: Vec<CreditUnaccepted> = Vec::new();
        let mut j: usize = 0;
        while j < src.len()
            invariant
                j <= src@.len(),
                out@ == src@.subrange(0, j as int),
            decreases src@.len() - j,
        {
            out.push(src[j].duplicate());
            j = j + 1;
            proof {
                assert(out@ =~= src@.subrange(0, j as int));
            }
        }
        proof {
            assert(out@ =~= src@);
        }
        out
    }
    /// Runs the accrual pass at `now` over every accepted credit of bank
    /// `bik`, returning the payments to post, client by client.
    pub fn update(&mut self, now: &Timestamp, bik: BIK) -> (r: Vec<Transaction>)
        requires
            old(self).wf(),
            now.wf(),
        ensures
            final(self).wf(),
            final(self).unaccepted_credits == old(self).unaccepted_credits,
            forall|k: Seq<char>| #[trigger] final(self).credits_of(k).len() == old(self).credits_of(k).len(),
            forall|k: Seq<char>, j: int| 0 <= j < old(self).credits_of(k).len()
                ==> #[trigger] final(self).credits_of(k)[j] == accrued_credit(old(self).credits_of(k)[j], *now),
            r@ == all_payments(old(self).accepted_credits.entries@, *now, bik),
    {
        let ghost es = old(self).accepted_credits.entries@;
        let mut out: Vec<Transaction> = Vec::new();
        let mut i: usize = 0;
        let n = self.accepted_credits.entries.len();
        while i < n
            invariant
                self.wf(),
                self.unaccepted_credits == old(self).unaccepted_credits,
                es == old(self).accepted_credits.entries@,
                n == self.accepted_credits.entries@.len(),
                n == es.len(),
                i <= n,
                now.wf(),
                out@ == all_payments(es.take(i as int), *now, bik),
                forall|a: int| 0 <= a < n ==> #[trigger] self.accepted_credits.entries@[a].login@ == es[a].login@,
                forall|a: int| 0 <= a < n ==> #[trigger] self.accepted_credits.entries@[a].value@.len() == es[a].value@.len(),
                forall|a: int, b: int| 0 <= a < i && 0 <= b < es[a].value@.len()
                    ==> #[trigger] self.accepted_credits.entries@[a].value@[b] == accrued_credit(es[a].value@[b], *now),
                forall|a: int| i <= a < n ==> #[trigger] self.accepted_credits.entries@[a] == es[a],
            decreases n - i,
        {
            let ghost before = *self;
            let ghost out0 = out@;
            let m = self.accepted_credits.entries[i].value.len();
            let mut j: usize = 0;
            while j < m
                invariant
                    before.wf(),
                    now.wf(),
                    i < n,
                    n == self.accepted_credits.entries@.len(),
                    n == before.accepted_credits.entries@.len(),
                    before.accepted_credits.entries@[i as int] == es[i as int],
                    m == self.accepted_credits.entries@[i as int].value@.len(),
                    j <= m,
                    self.accepted_credits.entries@[i as int].login@ == before.accepted_credits.entries@[i as int].login@,
                    m == before.accepted_credits.entries@[i as int].value@.len(),
                    self.unaccepted_credits == before.unaccepted_credits,
                    out@ == out0 + payments(es[i as int].value@.take(j as int), *now, bik),
                    forall|a: int| 0 <= a < n && a != i ==> #[trigger] self.accepted_credits.entries@[a] == before.accepted_credits.entries@[a],
                    forall|b: int| 0 <= b < j ==> #[trigger] self.accepted_credits.entries@[i as int].value@[b] == accrued_credit(before.accepted_credits.entries@[i as int].value@[b], *now),
                    forall|b: int| j <= b < m ==> #[trigger] self.accepted_credits.entries@[i as int].value@[b] == before.accepted_credits.entries@[i as int].value@[b],
                    forall|b: int| 0 <= b < m ==> (#[trigger] self.accepted_credits.entries@[i as int].value@[b]).wf(),
                decreases m - j,
            {
                let p = accrue_credit(&mut self.accepted_credits.entries[i].value[j], now, bik);
                proof {
                    let s = es[i as int].value@;
                    assert(s.take(j + 1).drop_last() =~= s.take(j as int));
                    assert(s.take(j + 1).last() == s[j as int]);
                }
                match p {
                    Some(t) => {
                        out.push(t);
                    },
                    None => {},
                }
                proof {
                    let s = es[i as int].value@;
                    assert(out@ =~= out0 + payments(s.take(j + 1), *now, bik));
                }
                j = j + 1;
            }
            proof {
                LoginTable::lemma_update(&before.accepted_credits, &self.accepted_credits, i as int);
                self.lemma_wf_after_update(&before, i as int);
                assert forall|a: int| 0 <= a < n implies #[trigger] self.accepted_credits.entries@[a].login@ == es[a].login@ by {
                    if a != i {
                        assert(self.accepted_credits.entries@[a] == before.accepted_credits.entries@[a]);
                    }
                }
                assert forall|a: int| 0 <= a < n implies #[trigger] self.accepted_credits.entries@[a].value@.len() == es[a].value@.len() by {
                    if a != i {
                        assert(self.accepted_credits.entries@[a] == before.accepted_credits.entries@[a]);
                    }
                }
                assert(es[i as int].value@.take(m as int) =~= es[i as int].value@);
                assert(es.take(i + 1).drop_last() =~= es.take(i as int));
                assert(es.take(i + 1).last() == es[i as int]);
            }
            i = i + 1;
        }
        proof {
            assert(es.take(n as int) =~= es);
            assert forall|k: Seq<char>| #[trigger] self.credits_of(k).len() == old(self).credits_of(k).len() by {
                self.lemma_same_positions(old(self), k);
            }
            assert forall|k: Seq<char>, j: int| 0 <= j < old(self).credits_of(k).len()
                implies #[trigger] self.credits_of(k)[j] == accrued_credit(old(self).credits_of(k)[j], *now) by {
                self.lemma_same_positions(old(self), k);
            }
        }
        out
    }

    /// Two tables with the same logins at the same positions.
    proof fn lemma_same_positions(&self, other: &CreditService, k: Seq<char>)
        requires
            self.wf(),
            other.wf(),
            self.accepted_credits.entries@.len() == other.accepted_credits.entries@.len(),
            forall|a: int| 0 <= a < self.accepted_credits.entries@.len()
                ==> #[trigger] self.accepted_credits.entries@[a].login@ == other.accepted_credits.entries@[a].login@,
        ensures
            self.accepted_credits.has(k) == other.accepted_credits.has(k),
            self.accepted_credits.has(k) ==> self.accepted_credits.pos(k) == other.accepted_credits.pos(k),
            self.accepted_credits.has(k) ==> self.credits_of(k) == self.accepted_credits.entries@[self.accepted_credits.pos(k)].value@,
            other.accepted_credits.has(k) ==> other.credits_of(k) == other.accepted_credits.entries@[other.accepted_credits.pos(k)].value@,
    {
        if self.accepted_credits.has(k) {
            let p = self.accepted_credits.pos(k);
            self.accepted_credits.lemma_pos(p);
            assert(other.accepted_credits.entries@[p].login@ == k);
            other.accepted_credits.lemma_pos(p);
        }
        if other.accepted_credits.has(k) {
            let p = other.accepted_credits.pos(k);
            other.accepted_credits.lemma_pos(p);
            assert(self.accepted_credits.entries@[p].login@ == k);
            self.accepted_credits.lemma_pos(p);
        }
    }
}

} // verus!
