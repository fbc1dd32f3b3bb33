use vstd::prelude::*;
use std::collections::HashMap;
use crate::error::BankError;
use crate::ledger::Bank;
use crate::money::Money;
use crate::salary::SalaryService;
use crate::types::{AccountID, BankPublicInfo, BIK, Transaction, TransactionEndPoint, UserType};

verus! {

broadcast use vstd::std_specs::hash::group_hash_axioms;

/// The identifier of the bank every engine starts with.
pub const DEFAULT_BIK: BIK = 1003004;

/// The financial engine: every bank, the global log of posted transfers and
/// the payroll projects.
pub struct BankService {
    pub banks: HashMap<BIK, Bank>,
    pub bank_ids: Vec<BIK>,
    pub transactions: Vec<Transaction>,
    pub salary: SalaryService,
}

/// How much a transfer `t` changes the balance of `ep`.
pub open spec fn delta(t: Transaction, ep: TransactionEndPoint) -> int {
    (if t.dst.is_real() && ep == t.dst { t.amount.val() } else { 0 })
        - (if t.src.is_real() && ep == t.src { t.amount.val() } else { 0 })
}

impl BankService {
    pub open spec fn wf(&self) -> bool {
        &&& forall|bik: BIK| #[trigger] self.banks@.contains_key(bik) <==> self.bank_ids@.contains(bik)
        &&& self.bank_ids@.no_duplicates()
        &&& self.salary.wf()
        &&& forall|i: int| 0 <= i < self.transactions@.len()
            ==> (#[trigger] self.transactions@[i]).amount.val() > 0 && self.transactions@[i].src != self.transactions@[i].dst
        &&& forall|bik: BIK| #[trigger] self.banks@.contains_key(bik)
            ==> self.banks@[bik].wf() && self.banks@[bik].public_info.bik == bik
    }

    /// `ep` names an existing account.
    pub open spec fn has_account(&self, ep: TransactionEndPoint) -> bool {
        self.banks@.contains_key(ep.bik) && self.banks@[ep.bik].accounts@.contains_key(ep.account_id)
    }

    /// The balance of the account `ep`.
    pub open spec fn balance(&self, ep: TransactionEndPoint) -> int {
        self.banks@[ep.bik].accounts@[ep.account_id].balance.val()
    }

    /// What `lookup` returns for an endpoint.
    pub open spec fn lookup_result(&self, ep: TransactionEndPoint) -> Result<Money, BankError> {
        if !self.banks@.contains_key(ep.bik) {
            Err(BankError::BankNotFound)
        } else if !self.banks@[ep.bik].accounts@.contains_key(ep.account_id) {
            Err(BankError::InvalidAccount)
        } else {
            Ok(self.banks@[ep.bik].accounts@[ep.account_id].balance)
        }
    }

    /// Whether posting `t` succeeds, and the first reason it fails otherwise:
    /// the source is resolved and its balance checked before the destination
    /// is resolved.
    pub open spec fn post_check(&self, t: Transaction, enforce_balance: bool) -> Result<(), BankError> {
        if t.src == t.dst {
            Err(BankError::InvalidAmount)
        } else if t.amount.val() <= 0 {
            Err(BankError::InvalidAmount)
        } else if t.src.is_real() && self.lookup_result(t.src) is Err {
            Err(self.lookup_result(t.src)->Err_0)
        } else if t.src.is_real() && enforce_balance && self.balance(t.src) < t.amount.val() {
            Err(BankError::InsufficientFunds)
        } else if t.dst.is_real() && self.lookup_result(t.dst) is Err {
            Err(self.lookup_result(t.dst)->Err_0)
        } else if t.src.is_real() && self.balance(t.src) - t.amount.val() < i32::MIN {
            Err(BankError::AmountOverflow)
        } else if t.dst.is_real() && self.balance(t.dst) + t.amount.val() > i32::MAX {
            Err(BankError::AmountOverflow)
        } else {
            Ok(())
        }
    }

    /// `self` is `old` with every account balance moved as `t` prescribes and
    /// nothing else changed but the log.
    pub open spec fn transferred(&self, old: &BankService, t: Transaction) -> bool {
        &&& self.moved(old, t)
        &&& forall|bik: BIK| #[trigger] self.banks@.contains_key(bik)
            ==> self.banks@[bik].same_but_balances(&old.banks@[bik])
    }

    /// Account balances moved as `t` prescribes; clients, accounts and
    /// payroll unchanged (the deposit and credit books may differ).
    pub open spec fn moved(&self, old: &BankService, t: Transaction) -> bool {
        &&& self.bank_ids == old.bank_ids
        &&& self.salary == old.salary
        &&& self.banks@.dom() == old.banks@.dom()
        &&& forall|bik: BIK| #[trigger] self.banks@.contains_key(bik)
            ==> self.banks@[bik].same_accounts(&old.banks@[bik])
        &&& forall|ep: TransactionEndPoint| #[trigger] old.has_account(ep)
            ==> self.balance(ep) == old.balance(ep) + delta(t, ep)
    }

    /// Only bank `bik` differs, and the log and payroll are the same.
    pub open spec fn only_bank_changed(&self, old: &BankService, bik: BIK) -> bool {
        &&& self.bank_ids == old.bank_ids
        &&& self.salary == old.salary
        &&& self.transactions == old.transactions
        &&& self.banks@.dom() == old.banks@.dom()
        &&& forall|b: BIK| #[trigger] self.banks@.contains_key(b) && b != bik ==> self.banks@[b] == old.banks@[b]
    }

    /// An engine with one empty bank and an empty log.
    pub fn new() -> (r: BankService)
        ensures
            r.wf(),
            r.bank_ids@ == seq![DEFAULT_BIK],
            r.banks@.dom() == set![DEFAULT_BIK],
            r.banks@[DEFAULT_BIK].accounts@ == Map::<AccountID, crate::types::Account>::empty(),
            r.banks@[DEFAULT_BIK].opened == 0,
            r.transactions@.len() == 0,
    {
        let info = BankPublicInfo {
            bik: DEFAULT_BIK,
            address: String::from_str("Nezalezhnasci pr, 4"),
            name: String::from_str("Belarusbank"),
        };
        let mut banks: HashMap<BIK, Bank> = HashMap::new();
        banks.insert(DEFAULT_BIK, Bank::new(info));
        let mut bank_ids: Vec<BIK> = Vec::new();
        bank_ids.push(DEFAULT_BIK);
        let r = BankService { banks, bank_ids, transactions: Vec::new(), salary: SalaryService::new() };
        proof {
            assert(r.banks@.dom() =~= set![DEFAULT_BIK]);
            assert(r.bank_ids@ =~= seq![DEFAULT_BIK]);
            assert forall|bik: BIK| #[trigger] r.banks@.contains_key(bik) <==> r.bank_ids@.contains(bik) by {
                if bik == DEFAULT_BIK {
                    assert(r.bank_ids@[0] == bik);
                }
            }
        }
        r
    }

    /// The balance of the account `ep`: fails with `BankNotFound` or
    /// `InvalidAccount` when there is no such account.
    pub fn lookup(&self, ep: TransactionEndPoint) -> (r: Result<Money, BankError>)
        requires
            self.wf(),
        ensures
            r == self.lookup_result(ep),
    {
        match self.banks.get(&ep.bik) {
            None => Err(BankError::BankNotFound),
            Some(bank) => match bank.accounts.get(&ep.account_id) {
                None => Err(BankError::InvalidAccount),
                Some(a) => Ok(a.balance),
            },
        }
    }

    /// Sets the balance of the existing account `ep` to `m`.
    fn set_balance(&mut self, ep: TransactionEndPoint, m: Money)
        requires
            old(self).wf(),
            old(self).has_account(ep),
        ensures
            final(self).wf(),
            final(self).transactions == old(self).transactions,
            final(self).bank_ids == old(self).bank_ids,
            final(self).salary == old(self).salary,
            final(self).banks@.dom() == old(self).banks@.dom(),
            forall|bik: BIK| #[trigger] final(self).banks@.contains_key(bik)
                ==> final(self).banks@[bik].same_but_balances(&old(self).banks@[bik]),
            forall|e: TransactionEndPoint| #[trigger] old(self).has_account(e)
                ==> final(self).balance(e) == if e == ep { m.val() } else { old(self).balance(e) },
    {
        let mut bank = match self.banks.remove(&ep.bik) {
            Some(b) => b,
            None => {
                return;
            },
        };
        bank.set_balance(ep.account_id, m);
        self.banks.insert(ep.bik, bank);
        proof {
            assert(self.banks@.dom() =~= old(self).banks@.dom());
            assert forall|e: TransactionEndPoint| #[trigger] old(self).has_account(e)
                implies self.balance(e) == if e == ep { m.val() } else { old(self).balance(e) } by {
                if e.bik == ep.bik && e.account_id == ep.account_id {
                    assert(e == ep);
                }
            }
        }
    }

    /// Moves the balances as `t` prescribes, without touching the log.
    fn apply_transfer(&mut self, t: Transaction, enforce_balance: bool) -> (r: Result<(), BankError>)
        requires
            old(self).wf(),
        ensures
            final(self).wf(),
            r == old(self).post_check(t, enforce_balance),
            r is Ok ==> final(self).transferred(old(self), t),
            final(self).transactions == old(self).transactions,
            r is Err ==> *final(self) == *old(self),
    {
        if t.src == t.dst {
            return Err(BankError::InvalidAmount);
        }
        if !t.amount.is_positive() {
            return Err(BankError::InvalidAmount);
        }
        let src_real = t.src.account_id != 0;
        let dst_real = t.dst.account_id != 0;
        let mut src_bal = Money(0);
        let mut dst_bal = Money(0);
        if src_real {
            match self.lookup(t.src) {
                Err(e) => {
                    return Err(e);
                },
                Ok(b) => {
                    src_bal = b;
                },
            }
            if enforce_balance && src_bal.less_than(t.amount) {
                return Err(BankError::InsufficientFunds);
            }
        }
        if dst_real {
            match self.lookup(t.dst) {
                Err(e) => {
                    return Err(e);
                },
                Ok(b) => {
                    dst_bal = b;
                },
            }
        }
        let mut new_src = Money(0);
        let mut new_dst = Money(0);
        if src_real {
            match src_bal.checked_sub(t.amount) {
                None => {
                    return Err(BankError::AmountOverflow);
                },
                Some(v) => {
                    new_src = v;
                },
            }
        }
        if dst_real {
            match dst_bal.checked_add(t.amount) {
                None => {
                    return Err(BankError::AmountOverflow);
                },
                Some(v) => {
                    new_dst = v;
                },
            }
        }
        let ghost s0 = *self;
        if src_real {
            self.set_balance(t.src, new_src);
        }
        let ghost s1 = *self;
        if dst_real {
            self.set_balance(t.dst, new_dst);
        }
        proof {
            assert forall|bik: BIK| #[trigger] self.banks@.contains_key(bik)
                implies self.banks@[bik].same_but_balances(&s0.banks@[bik]) by {
                assert(s1.banks@.contains_key(bik));
                assert(self.banks@[bik].same_but_balances(&s1.banks@[bik]));
                assert(s1.banks@[bik].same_but_balances(&s0.banks@[bik]));
            }
            assert forall|ep: TransactionEndPoint| #[trigger] s0.has_account(ep)
                implies self.balance(ep) == s0.balance(ep) + delta(t, ep) by {
                assert(s1.has_account(ep));
            }
        }
        Ok(())
    }

    /// Posts `t`: validates both endpoints, checks the source balance when
    /// `enforce_balance` holds, moves the money and appends `t` to the log.
    /// On failure nothing changes.
    pub fn perform_transaction(&mut self, t: Transaction, enforce_balance: bool) -> (r: Result<(), BankError>)
        requires
            old(self).wf(),
        ensures
            final(self).wf(),
            r == old(self).post_check(t, enforce_balance),
            r is Ok ==> final(self).transferred(old(self), t),
            r is Ok ==> final(self).transactions@ == old(self).transactions@.push(t),
            r is Err ==> *final(self) == *old(self),
    {
        let r = self.apply_transfer(t, enforce_balance);
        if r.is_ok() {
            self.transactions.push(t);
        }
        r
    }

    /// What `transaction_revert` returns.
    pub open spec fn revert_check(&self, role: UserType) -> Result<(), BankError> {
        if role != UserType::Operator {
            Err(BankError::Unauthorized)
        } else if self.transactions@.len() == 0 {
            Err(BankError::IndexOutOfRange)
        } else {
            self.post_check(self.transactions@.last().spec_inverse(), false)
        }
    }

    /// Undoes the most recent transfer of the log (Operator only): posts its
    /// inverse without a balance check and drops it from the log, so repeated
    /// calls step further back.
    pub fn transaction_revert(&mut self, role: UserType) -> (r: Result<(), BankError>)
        requires
            old(self).wf(),
        ensures
            final(self).wf(),
            r == old(self).revert_check(role),
            r is Ok ==> final(self).transferred(old(self), old(self).transactions@.last().spec_inverse()),
            r is Ok ==> final(self).transactions@ == old(self).transactions@.drop_last(),
            r is Err ==> *final(self) == *old(self),
    {
        if role != UserType::Operator {
            return Err(BankError::Unauthorized);
        }
        let n = self.transactions.len();
        if n == 0 {
            return Err(BankError::IndexOutOfRange);
        }
        let inv = self.transactions[n - 1].inverse();
        let r = self.apply_transfer(inv, false);
        if r.is_ok() {
            self.transactions.pop();
        }
        r
    }

    /// A copy of the log of posted transfers, oldest first.
    pub fn transactions_get(&self) -> (r: Vec<Transaction>)
        ensures
            r@ == self.transactions@,
    {
        self.transactions.clone()
    }

    /// A transfer ordered by a client: `role` must be `Client` and the source
    /// account must pass `validate_account_identity` for `login`; the balance
    /// is enforced.
    pub fn transaction(&mut self, t: Transaction, login: &String, role: UserType) -> (r: Result<(), BankError>)
        requires
            old(self).wf(),
        ensures
            final(self).wf(),
            r == (if role != UserType::Client {
                Err(BankError::Unauthorized)
            } else if !old(self).banks@.contains_key(t.src.bik) {
                Err(BankError::BankNotFound)
            } else if old(self).banks@[t.src.bik].identity_check(t.src.account_id, login@) is Err {
                old(self).banks@[t.src.bik].identity_check(t.src.account_id, login@)
            } else {
                old(self).post_check(t, true)
            }),
            r is Ok ==> final(self).transferred(old(self), t),
            r is Ok ==> final(self).transactions@ == old(self).transactions@.push(t),
            r is Err ==> *final(self) == *old(self),
    {
        if role != UserType::Client {
            return Err(BankError::Unauthorized);
        }
        match self.banks.get(&t.src.bik) {
            None => {
                return Err(BankError::BankNotFound);
            },
            Some(bank) => match bank.validate_account_identity(t.src.account_id, login) {
                Err(e) => {
                    return Err(e);
                },
                Ok(()) => {},
            },
        }
        self.perform_transaction(t, true)
    }

    /// A privileged corrective transfer (Manager or EnterpriseSpecialist):
    /// posted without a balance check.
    pub fn transaction_unprotected(&mut self, t: Transaction, role: UserType) -> (r: Result<(), BankError>)
        requires
            old(self).wf(),
        ensures
            final(self).wf(),
            r == (if role != UserType::Manager && role != UserType::EnterpriseSpecialist {
                Err(BankError::Unauthorized)
            } else {
                old(self).post_check(t, false)
            }),
            r is Ok ==> final(self).transferred(old(self), t),
            r is Ok ==> final(self).transactions@ == old(self).transactions@.push(t),
            r is Err ==> *final(self) == *old(self),
    {
        if role != UserType::Manager && role != UserType::EnterpriseSpecialist {
            return Err(BankError::Unauthorized);
        }
        self.perform_transaction(t, false)
    }
}

} // verus!
