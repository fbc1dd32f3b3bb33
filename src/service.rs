use vstd::prelude::*;
use crate::credit::{accrued_credit, all_payments, Credit, CreditAcceptRequest, CreditParams, CreditUnaccepted};
use crate::deposit::{accrued, Deposit, DepositNewRequest, DepositWithdrawRequest};
use crate::engine::BankService;
use crate::error::BankError;
use crate::ledger::{Bank, PROMO_BALANCE};
use crate::annuity::{annuity_payment, monthly_payment};
use crate::money::Money;
use crate::salary::{SalaryAcceptProjRequest, SalaryAcceptRequest, SalaryClientRequest, SalaryInitProjRequest};
use crate::time::{add_months, months_later, Timestamp};
use crate::types::{
    Account, AccountCloseReq, AccountOpenResp, AccountStatus, AccountsGetResp, BanksGetResp, BIK,
    Transaction, TransactionEndPoint, UserType,
};

verus! {

broadcast use vstd::std_specs::hash::group_hash_axioms;

/// The yearly interest rate, in percent, of every new deposit.
pub const DEPOSIT_INTEREST_RATE: u8 = 5;

/// Roles that hold accounts of their own.
pub open spec fn holds_accounts(role: UserType) -> bool {
    role == UserType::Client || role == UserType::EnterpriseSpecialist
}

/// The transfer that funds a deposit from account `src` of bank `bik`.
pub open spec fn funding(bik: BIK, src: u64, amount: Money) -> Transaction {
    Transaction {
        src: TransactionEndPoint { bik, account_id: src },
        dst: TransactionEndPoint { bik: 0, account_id: 0 },
        amount,
    }
}

/// The transfer that pays `amount` out to account `dst` of bank `bik`.
pub open spec fn payout(bik: BIK, dst: u64, amount: Money) -> Transaction {
    Transaction {
        src: TransactionEndPoint { bik: 0, account_id: 0 },
        dst: TransactionEndPoint { bik, account_id: dst },
        amount,
    }
}

impl BankService {
    /// The failure, if any, of the caller checks shared by bank-scoped
    /// operations: role, then bank.
    pub open spec fn access_check(&self, role_ok: bool, bik: BIK) -> Result<(), BankError> {
        if !role_ok {
            Err(BankError::Unauthorized)
        } else if !self.banks@.contains_key(bik) {
            Err(BankError::BankNotFound)
        } else {
            Ok(())
        }
    }

    /// Takes bank `bik` out of the map for an update.
    fn take_bank(&mut self, bik: BIK) -> (r: Bank)
        requires
            old(self).wf(),
            old(self).banks@.contains_key(bik),
        ensures
            r == old(self).banks@[bik],
            final(self).banks@ == old(self).banks@.remove(bik),
            final(self).bank_ids == old(self).bank_ids,
            final(self).transactions == old(self).transactions,
            final(self).salary == old(self).salary,
    {
        match self.banks.remove(&bik) {
            Some(b) => b,
            None => Bank::new(crate::types::BankPublicInfo { bik, address: String::new(), name: String::new() }),
        }
    }

    /// Puts bank `bik` back after an update.
    fn put_bank(&mut self, bik: BIK, bank: Bank, Ghost(before): Ghost<BankService>)
        requires
            before.wf(),
            before.banks@.contains_key(bik),
            old(self).banks@ == before.banks@.remove(bik),
            old(self).bank_ids == before.bank_ids,
            old(self).salary == before.salary,
            old(self).transactions == before.transactions,
            bank.wf(),
            bank.public_info.bik == bik,
        ensures
            final(self).wf(),
            final(self).banks@ == before.banks@.insert(bik, bank),
            final(self).banks@[bik] == bank,
            final(self).bank_ids == old(self).bank_ids,
            final(self).transactions == old(self).transactions,
            final(self).salary == old(self).salary,
            forall|b: BIK| #[trigger] final(self).banks@.contains_key(b) && b != bik ==> final(self).banks@[b] == before.banks@[b],
            final(self).banks@.dom() == before.banks@.dom(),
    {
        self.banks.insert(bik, bank);
        proof {
            assert(self.banks@ =~= before.banks@.insert(bik, bank));
            assert(self.banks@.dom() =~= before.banks@.dom());
        }
    }

    /// The public information of every bank.
    pub fn banks_get(&self) -> (r: BanksGetResp)
        requires
            self.wf(),
        ensures
            r.banks@.len() == self.bank_ids@.len(),
            forall|i: int| 0 <= i < r.banks@.len() ==> #[trigger] r.banks@[i] == self.banks@[self.bank_ids@[i]].public_info,
    {
        let mut out: Vec<crate::types::BankPublicInfo> = Vec::new();
        let mut i: usize = 0;
        while i < self.bank_ids.len()
            invariant
                self.wf(),
                i <= self.bank_ids@.len(),
                out@.len() == i,
                forall|j: int| 0 <= j < i ==> #[trigger] out@[j] == self.banks@[self.bank_ids@[j]].public_info,
            decreases self.bank_ids@.len() - i,
        {
            let bik = self.bank_ids[i];
            assert(self.bank_ids@.contains(bik));
            match self.banks.get(&bik) {
                Some(b) => out.push(b.public_info.duplicate()),
                None => {},
            }
            i = i + 1;
        }
        BanksGetResp { banks: out }
    }

    /// Opens an account for `login` in bank `bik` (see `Bank::account_new`).
    pub fn account_open(&mut self, login: &String, role: UserType, bik: BIK) -> (r: Result<AccountOpenResp, BankError>)
        requires
            old(self).wf(),
        ensures
            final(self).wf(),
            old(self).access_check(holds_accounts(role), bik) is Err ==> r == Err::<AccountOpenResp, BankError>(
                old(self).access_check(holds_accounts(role), bik)->Err_0,
            ),
            old(self).access_check(holds_accounts(role), bik) is Ok ==> (r is Err <==> old(self).banks@[bik].opened == u64::MAX),
            r is Err ==> *final(self) == *old(self),
            r matches Ok(resp) ==> {
                let b0 = old(self).banks@[bik];
                let b1 = final(self).banks@[bik];
                let id = resp.account_id;
                &&& final(self).only_bank_changed(old(self), bik)
                &&& id == b0.opened + 1
                &&& b1.accounts@ == b0.accounts@.insert(
                    id,
                    Account { id, balance: Money(PROMO_BALANCE), status: AccountStatus::Normal },
                )
                &&& b1.accounts_of(login@) == b0.accounts_of(login@).push(id)
                &&& forall|k: Seq<char>| k != login@ ==> b1.accounts_of(k) == b0.accounts_of(k)
            },
    {
        if !(role == UserType::Client || role == UserType::EnterpriseSpecialist) {
            return Err(BankError::Unauthorized);
        }
        let opened = match self.banks.get(&bik) {
            None => {
                return Err(BankError::BankNotFound);
            },
            Some(b) => b.opened,
        };
        if opened == u64::MAX {
            return Err(BankError::InvalidAccount);
        }
        let ghost before = *self;
        let mut bank = self.take_bank(bik);
        let id = match bank.account_new(login) {
            Ok(id) => id,
            Err(e) => {
                self.put_bank(bik, bank, Ghost(before));
                return Err(e);
            },
        };
        self.put_bank(bik, bank, Ghost(before));
        Ok(AccountOpenResp { account_id: id })
    }

    /// Closes an account of `login` in bank `bik` (see `Bank::account_close`).
    pub fn account_close(&mut self, req: &AccountCloseReq, login: &String, role: UserType, bik: BIK) -> (r: Result<(), BankError>)
        requires
            old(self).wf(),
        ensures
            final(self).wf(),
            r == (if old(self).access_check(holds_accounts(role), bik) is Err {
                old(self).access_check(holds_accounts(role), bik)
            } else {
                old(self).banks@[bik].close_check(req.account_id, login@)
            }),
            r is Err ==> *final(self) == *old(self),
            r is Ok ==> {
                let b0 = old(self).banks@[bik];
                let b1 = final(self).banks@[bik];
                &&& final(self).only_bank_changed(old(self), bik)
                &&& b1.accounts@ == b0.accounts@.remove(req.account_id)
                &&& !b1.owns(login@, req.account_id)
                &&& forall|k: Seq<char>| k != login@ ==> b1.accounts_of(k) == b0.accounts_of(k)
            },
    {
        if !(role == UserType::Client || role == UserType::EnterpriseSpecialist) {
            return Err(BankError::Unauthorized);
        }
        match self.banks.get(&bik) {
            None => {
                return Err(BankError::BankNotFound);
            },
            Some(b) => {
                match b.validate_account_identity(req.account_id, login) {
                    Err(e) => {
                        return Err(e);
                    },
                    Ok(()) => {},
                }
                if b.credit_service.references_account(req.account_id) {
                    return Err(BankError::AccountInUse);
                }
            },
        }
        let ghost before = *self;
        let mut bank = self.take_bank(bik);
        let r = bank.account_close(login, req.account_id);
        proof {
            let b0 = before.banks@[bik];
            let s0 = b0.accounts_of(login@);
            let j = choose|j: int| 0 <= j < s0.len() && s0[j] == req.account_id && bank.accounts_of(login@) == s0.remove(j);
            b0.clients.lemma_pos(b0.clients.pos(login@));
            assert(b0.clients.has(login@));
            let p = b0.clients.pos(login@);
            assert forall|x: int| 0 <= x < bank.accounts_of(login@).len() implies bank.accounts_of(login@)[x] != req.account_id by {
                let ox = if x < j { x } else { x + 1 };
                assert(s0 == b0.clients.entries@[p].value@);
                assert(bank.accounts_of(login@)[x] == s0[ox]);
                if s0[ox] == req.account_id {
                    assert(b0.clients.entries@[p].value@[ox] == b0.clients.entries@[p].value@[j]);
                    assert(ox == j);
                }
            }
        }
        self.put_bank(bik, bank, Ghost(before));
        r
    }

    /// The accounts of `login` in bank `bik` (see `Bank::accounts_get`).
    pub fn accounts_get(&self, login: &String, role: UserType, bik: BIK) -> (r: Result<AccountsGetResp, BankError>)
        requires
            self.wf(),
        ensures
            self.access_check(holds_accounts(role), bik) is Err ==> r == Err::<AccountsGetResp, BankError>(
                self.access_check(holds_accounts(role), bik)->Err_0,
            ),
            self.access_check(holds_accounts(role), bik) is Ok ==> {
                let b = self.banks@[bik];
                &&& (r is Err <==> !b.clients.has(login@))
                &&& r is Err ==> r == Err::<AccountsGetResp, BankError>(BankError::AccountOwnershipMismatch)
                &&& r matches Ok(resp) ==> resp.accounts@.len() == b.accounts_of(login@).len()
                    && forall|j: int| 0 <= j < resp.accounts@.len() ==> #[trigger] resp.accounts@[j] == b.accounts@[b.accounts_of(login@)[j]]
            },
    {
        if !(role == UserType::Client || role == UserType::EnterpriseSpecialist) {
            return Err(BankError::Unauthorized);
        }
        match self.banks.get(&bik) {
            None => Err(BankError::BankNotFound),
            Some(b) => match b.accounts_get(login) {
                Err(e) => Err(e),
                Ok(accounts) => Ok(AccountsGetResp { accounts }),
            },
        }
    }
    /// What `deposit_new` returns.
    pub open spec fn deposit_new_check(
        &self,
        req: DepositNewRequest,
        login: Seq<char>,
        role: UserType,
        bik: BIK,
        now: Timestamp,
    ) -> Result<(), BankError> {
        if self.access_check(role == UserType::Client, bik) is Err {
            self.access_check(role == UserType::Client, bik)
        } else if self.banks@[bik].identity_check(req.src_account, login) is Err {
            self.banks@[bik].identity_check(req.src_account, login)
        } else if months_later(now, req.months_expires as nat) is None {
            Err(BankError::DateOutOfRange)
        } else {
            self.post_check(funding(bik, req.src_account, req.amount), true)
        }
    }

    /// Opens a deposit for `login` in bank `bik` at time `now`: the amount is
    /// moved from the client's source account to the system pseudo-account and
    /// the deposit runs for `req.months_expires` months.
    pub fn deposit_new(&mut self, req: &DepositNewRequest, login: &String, role: UserType, bik: BIK, now: &Timestamp) -> (r: Result<(), BankError>)
        requires
            old(self).wf(),
            now.wf(),
        ensures
            final(self).wf(),
            r == old(self).deposit_new_check(*req, login@, role, bik, *now),
            r is Err ==> *final(self) == *old(self),
            r is Ok ==> {
                let t = funding(bik, req.src_account, req.amount);
                let d = Deposit {
                    owner: *login,
                    interest_rate: DEPOSIT_INTEREST_RATE,
                    start_date: *now,
                    last_update: *now,
                    end_date: months_later(*now, req.months_expires as nat).unwrap(),
                    initial_amount: req.amount,
                    current_amount: req.amount,
                };
                let ds0 = old(self).banks@[bik].deposit_service;
                let ds1 = final(self).banks@[bik].deposit_service;
                &&& final(self).moved(old(self), t)
                &&& final(self).transactions@ == old(self).transactions@.push(t)
                &&& ds1.deposits_of(login@) == ds0.deposits_of(login@).push(d)
                &&& forall|k: Seq<char>| k != login@ ==> ds1.deposits_of(k) == ds0.deposits_of(k)
                &&& final(self).banks@[bik].credit_service == old(self).banks@[bik].credit_service
                &&& forall|b: BIK| #[trigger] final(self).banks@.contains_key(b) && b != bik
                    ==> final(self).banks@[b].deposit_service == old(self).banks@[b].deposit_service
                        && final(self).banks@[b].credit_service == old(self).banks@[b].credit_service
            },
    {
        if role != UserType::Client {
            return Err(BankError::Unauthorized);
        }
        match self.banks.get(&bik) {
            None => {
                return Err(BankError::BankNotFound);
            },
            Some(b) => match b.validate_account_identity(req.src_account, login) {
                Err(e) => {
                    return Err(e);
                },
                Ok(()) => {},
            },
        }
        let end = match add_months(now, req.months_expires) {
            None => {
                return Err(BankError::DateOutOfRange);
            },
            Some(e) => e,
        };
        let t = Transaction {
            src: TransactionEndPoint { bik, account_id: req.src_account },
            dst: TransactionEndPoint { bik: 0, account_id: 0 },
            amount: req.amount,
        };
        match self.perform_transaction(t, true) {
            Err(e) => {
                return Err(e);
            },
            Ok(()) => {},
        }
        proof {
            crate::time::lemma_months_later_wf(*now, req.months_expires as nat);
        }
        let deposit = Deposit {
            owner: login.clone(),
            interest_rate: DEPOSIT_INTEREST_RATE,
            start_date: *now,
            last_update: *now,
            end_date: end,
            initial_amount: req.amount,
            current_amount: req.amount,
        };
        let ghost before = *self;
        let mut bank = self.take_bank(bik);
        bank.deposit_service.add_deposit(login.clone(), deposit);
        self.put_bank(bik, bank, Ghost(before));
        Ok(())
    }

    /// What `deposit_withdraw` returns.
    pub open spec fn deposit_withdraw_check(
        &self,
        req: DepositWithdrawRequest,
        login: Seq<char>,
        role: UserType,
        bik: BIK,
        now: Timestamp,
    ) -> Result<(), BankError> {
        if self.access_check(role == UserType::Client, bik) is Err {
            self.access_check(role == UserType::Client, bik)
        } else if self.banks@[bik].identity_check(req.dst_account, login) is Err {
            self.banks@[bik].identity_check(req.dst_account, login)
        } else {
            match self.banks@[bik].deposit_service.withdraw_result(login, req.deposit_idx as int, now) {
                Err(e) => Err(e),
                Ok(m) => self.post_check(payout(bik, req.dst_account, m), true),
            }
        }
    }

    /// Withdraws deposit `req.deposit_idx` of `login` in bank `bik` at time
    /// `now` into the client's account `req.dst_account`. The deposit must have
    /// matured; on success it is removed and its current amount credited.
    pub fn deposit_withdraw(&mut self, req: &DepositWithdrawRequest, login: &String, role: UserType, bik: BIK, now: &Timestamp) -> (r: Result<Money, BankError>)
        requires
            old(self).wf(),
        ensures
            final(self).wf(),
            r is Err ==> r == Err::<Money, BankError>(old(self).deposit_withdraw_check(*req, login@, role, bik, *now)->Err_0),
            r is Ok <==> old(self).deposit_withdraw_check(*req, login@, role, bik, *now) is Ok,
            r is Err ==> *final(self) == *old(self),
            r matches Ok(m) ==> {
                let ds0 = old(self).banks@[bik].deposit_service;
                let ds1 = final(self).banks@[bik].deposit_service;
                let t = payout(bik, req.dst_account, m);
                &&& ds0.withdraw_result(login@, req.deposit_idx as int, *now) == Ok::<Money, BankError>(m)
                &&& final(self).moved(old(self), t)
                &&& final(self).transactions@ == old(self).transactions@.push(t)
                &&& ds1.deposits_of(login@) == ds0.deposits_of(login@).remove(req.deposit_idx as int)
                &&& forall|k: Seq<char>| k != login@ ==> ds1.deposits_of(k) == ds0.deposits_of(k)
                &&& final(self).banks@[bik].credit_service == old(self).banks@[bik].credit_service
                &&& forall|b: BIK| #[trigger] final(self).banks@.contains_key(b) && b != bik
                    ==> final(self).banks@[b].deposit_service == old(self).banks@[b].deposit_service
                        && final(self).banks@[b].credit_service == old(self).banks@[b].credit_service
            },
    {
        if role != UserType::Client {
            return Err(BankError::Unauthorized);
        }
        let amount = match self.banks.get(&bik) {
            None => {
                return Err(BankError::BankNotFound);
            },
            Some(b) => {
                match b.validate_account_identity(req.dst_account, login) {
                    Err(e) => {
                        return Err(e);
                    },
                    Ok(()) => {},
                }
                match b.deposit_service.matured_amount(login, req.deposit_idx, now) {
                    Err(e) => {
                        return Err(e);
                    },
                    Ok(m) => m,
                }
            },
        };
        let t = Transaction {
            src: TransactionEndPoint { bik: 0, account_id: 0 },
            dst: TransactionEndPoint { bik, account_id: req.dst_account },
            amount,
        };
        match self.perform_transaction(t, true) {
            Err(e) => {
                return Err(e);
            },
            Ok(()) => {},
        }
        let ghost before = *self;
        let mut bank = self.take_bank(bik);
        let _ = bank.deposit_service.withdraw(login, req.deposit_idx, now);
        self.put_bank(bik, bank, Ghost(before));
        Ok(amount)
    }

    /// The deposits of `login` in bank `bik`.
    pub fn deposits_get(&self, login: &String, role: UserType, bik: BIK) -> (r: Result<Vec<Deposit>, BankError>)
        requires
            self.wf(),
        ensures
            r is Err ==> r == Err::<Vec<Deposit>, BankError>(self.access_check(role == UserType::Client, bik)->Err_0),
            r is Ok <==> self.access_check(role == UserType::Client, bik) is Ok,
            r matches Ok(v) ==> v@ == self.banks@[bik].deposit_service.deposits_of(login@),
    {
        if role != UserType::Client {
            return Err(BankError::Unauthorized);
        }
        match self.banks.get(&bik) {
            None => Err(BankError::BankNotFound),
            Some(b) => Ok(b.deposit_service.get(login)),
        }
    }
    /// Queues a credit request of `login` in bank `bik`; the source account
    /// must pass `validate_account_identity`.
    pub fn credit_new(&mut self, req: &CreditParams, login: &String, role: UserType, bik: BIK) -> (r: Result<(), BankError>)
        requires
            old(self).wf(),
        ensures
            final(self).wf(),
            r == (if old(self).access_check(role == UserType::Client, bik) is Err {
                old(self).access_check(role == UserType::Client, bik)
            } else {
                old(self).banks@[bik].identity_check(req.src_account, login@)
            }),
            r is Err ==> *final(self) == *old(self),
            r is Ok ==> {
                let b0 = old(self).banks@[bik];
                let b1 = final(self).banks@[bik];
                &&& final(self).only_bank_changed(old(self), bik)
                &&& b1.credit_service.unaccepted_credits@ == b0.credit_service.unaccepted_credits@.push(
                    CreditUnaccepted { owner: *login, params: *req },
                )
                &&& b1.credit_service.accepted_credits == b0.credit_service.accepted_credits
                &&& b1.deposit_service == b0.deposit_service
                &&& b1.same_accounts(&b0)
                &&& b1.accounts@ == b0.accounts@
            },
    {
        if role != UserType::Client {
            return Err(BankError::Unauthorized);
        }
        match self.banks.get(&bik) {
            None => {
                return Err(BankError::BankNotFound);
            },
            Some(b) => match b.validate_account_identity(req.src_account, login) {
                Err(e) => {
                    return Err(e);
                },
                Ok(()) => {},
            },
        }
        let ghost before = *self;
        let mut bank = self.take_bank(bik);
        bank.credit_service.unaccepted_credits.push(CreditUnaccepted { owner: login.clone(), params: *req });
        self.put_bank(bik, bank, Ghost(before));
        Ok(())
    }

    /// What `credit_accept` returns.
    pub open spec fn credit_accept_check(&self, idx: int, role: UserType, bik: BIK, now: Timestamp) -> Result<(), BankError> {
        if self.access_check(role == UserType::Manager, bik) is Err {
            self.access_check(role == UserType::Manager, bik)
        } else if idx >= self.banks@[bik].credit_service.unaccepted_credits@.len() {
            Err(BankError::IndexOutOfRange)
        } else {
            let p = self.banks@[bik].credit_service.unaccepted_credits@[idx].params;
            let pay = annuity_payment(p.amount.val(), p.interest_rate as int, p.term as nat);
            if p.amount.val() < 0 || p.term == 0 {
                Err(BankError::InvalidAmount)
            } else if pay > i32::MAX {
                Err(BankError::AmountOverflow)
            } else if pay <= 0 {
                Err(BankError::InvalidAmount)
            } else if pay * p.term > i32::MAX {
                Err(BankError::AmountOverflow)
            } else if months_later(now, 1) is None {
                Err(BankError::DateOutOfRange)
            } else {
                self.post_check(payout(bik, p.src_account, p.amount), true)
            }
        }
    }

    /// Accepts pending credit request `req.idx` of bank `bik` (Manager only)
    /// at time `now`. The monthly payment is worked out once by the annuity
    /// formula; the amount is paid out from the system pseudo-account to the
    /// credit's account, the request is swap-removed from the queue, and the
    /// credit is stored with its first payment one month after `now`.
    pub fn credit_accept(&mut self, req: &CreditAcceptRequest, role: UserType, bik: BIK, now: &Timestamp) -> (r: Result<(), BankError>)
        requires
            old(self).wf(),
            now.wf(),
        ensures
            final(self).wf(),
            r == old(self).credit_accept_check(req.idx as int, role, bik, *now),
            r is Err ==> *final(self) == *old(self),
            r is Ok ==> {
                let cs0 = old(self).banks@[bik].credit_service;
                let cs1 = final(self).banks@[bik].credit_service;
                let u = cs0.unaccepted_credits@[req.idx as int];
                let t = payout(bik, u.params.src_account, u.params.amount);
                let first = months_later(*now, 1).unwrap();
                let pay = annuity_payment(u.params.amount.val(), u.params.interest_rate as int, u.params.term as nat);
                let c = Credit {
                    owner: u.owner,
                    params: u.params,
                    monthly_pay: Money(pay as i32),
                    first_pay: first,
                    last_pay: first,
                };
                &&& final(self).moved(old(self), t)
                &&& final(self).transactions@ == old(self).transactions@.push(t)
                &&& cs1.unaccepted_credits@ == crate::salary::swap_removed(cs0.unaccepted_credits@, req.idx as int)
                &&& cs1.credits_of(u.owner@) == cs0.credits_of(u.owner@).push(c)
                &&& forall|k: Seq<char>| k != u.owner@ ==> cs1.credits_of(k) == cs0.credits_of(k)
                &&& final(self).banks@[bik].deposit_service == old(self).banks@[bik].deposit_service
                &&& forall|b: BIK| #[trigger] final(self).banks@.contains_key(b) && b != bik
                    ==> final(self).banks@[b].deposit_service == old(self).banks@[b].deposit_service
                        && final(self).banks@[b].credit_service == old(self).banks@[b].credit_service
            },
    {
        if role != UserType::Manager {
            return Err(BankError::Unauthorized);
        }
        let template = match self.banks.get(&bik) {
            None => {
                return Err(BankError::BankNotFound);
            },
            Some(b) => {
                if req.idx >= b.credit_service.unaccepted_credits.len() {
                    return Err(BankError::IndexOutOfRange);
                }
                b.credit_service.unaccepted_credits[req.idx].duplicate()
            },
        };
        let p = template.params;
        if p.amount.0 < 0 || p.term == 0 {
            return Err(BankError::InvalidAmount);
        }
        let monthly_pay = match monthly_payment(p.amount, p.interest_rate, p.term) {
            None => {
                return Err(BankError::AmountOverflow);
            },
            Some(m) => m,
        };
        if monthly_pay.0 <= 0 {
            return Err(BankError::InvalidAmount);
        }
        let mp = monthly_pay.0 as i64;
        let term = template.params.term as i64;
        assert(0 <= mp * term <= 0x7fff_ffff * 255) by (nonlinear_arith)
            requires
                0 < mp <= 0x7fff_ffff,
                0 <= term <= 255,
        ;
        if mp * term > i32::MAX as i64 {
            return Err(BankError::AmountOverflow);
        }
        let first = match add_months(now, 1) {
            None => {
                return Err(BankError::DateOutOfRange);
            },
            Some(f) => f,
        };
        let t = Transaction {
            src: TransactionEndPoint { bik: 0, account_id: 0 },
            dst: TransactionEndPoint { bik, account_id: template.params.src_account },
            amount: template.params.amount,
        };
        match self.perform_transaction(t, true) {
            Err(e) => {
                return Err(e);
            },
            Ok(()) => {},
        }
        proof {
            crate::time::lemma_months_later_wf(*now, 1);
        }
        let credit = Credit {
            owner: template.owner,
            params: template.params,
            monthly_pay,
            first_pay: first,
            last_pay: first,
        };
        let ghost before = *self;
        let mut bank = self.take_bank(bik);
        bank.credit_service.unaccepted_credits.swap_remove(req.idx);
        bank.credit_service.add_accepted(credit);
        self.put_bank(bik, bank, Ghost(before));
        Ok(())
    }

    /// The accepted credits of `login` in bank `bik`.
    pub fn credit_get(&self, login: &String, role: UserType, bik: BIK) -> (r: Result<Vec<Credit>, BankError>)
        requires
            self.wf(),
        ensures
            r is Err ==> r == Err::<Vec<Credit>, BankError>(self.access_check(role == UserType::Client, bik)->Err_0),
            r is Ok <==> self.access_check(role == UserType::Client, bik) is Ok,
            r matches Ok(v) ==> v@ == self.banks@[bik].credit_service.credits_of(login@),
    {
        if role != UserType::Client {
            return Err(BankError::Unauthorized);
        }
        match self.banks.get(&bik) {
            None => Err(BankError::BankNotFound),
            Some(b) => Ok(b.credit_service.get(login)),
        }
    }

    /// The pending credit requests of bank `bik` (Manager only).
    pub fn credit_get_unaccepted(&self, role: UserType, bik: BIK) -> (r: Result<Vec<CreditUnaccepted>, BankError>)
        requires
            self.wf(),
        ensures
            r is Err ==> r == Err::<Vec<CreditUnaccepted>, BankError>(self.access_check(role == UserType::Manager, bik)->Err_0),
            r is Ok <==> self.access_check(role == UserType::Manager, bik) is Ok,
            r matches Ok(v) ==> v@ == self.banks@[bik].credit_service.unaccepted_credits@,
    {
        if role != UserType::Manager {
            return Err(BankError::Unauthorized);
        }
        match self.banks.get(&bik) {
            None => Err(BankError::BankNotFound),
            Some(b) => Ok(b.credit_service.get_unaccepted()),
        }
    }
    /// A client's request to join an enterprise's payroll with one of its
    /// accounts; the account must pass `validate_account_identity` for the
    /// caller, who must be the client named in the request.
    pub fn salary_request(&mut self, req: SalaryClientRequest, login: &String, role: UserType) -> (r: Result<(), BankError>)
        requires
            old(self).wf(),
        ensures
            final(self).wf(),
            r == (if role != UserType::Client || req.client_login@ != login@ {
                Err(BankError::Unauthorized)
            } else if !old(self).banks@.contains_key(req.account.bik) {
                Err(BankError::BankNotFound)
            } else {
                old(self).banks@[req.account.bik].identity_check(req.account.account_id, login@)
            }),
            r is Err ==> *final(self) == *old(self),
            r is Ok ==> {
                &&& final(self).salary.requests_of(req.enterprise_name@) == old(self).salary.requests_of(
                    req.enterprise_name@,
                ).push(req)
                &&& forall|e: Seq<char>| e != req.enterprise_name@ ==> final(self).salary.requests_of(e)
                    == old(self).salary.requests_of(e)
                &&& final(self).salary.salary_projects == old(self).salary.salary_projects
                &&& final(self).banks == old(self).banks
                &&& final(self).transactions == old(self).transactions
            },
    {
        if role != UserType::Client || req.client_login != *login {
            return Err(BankError::Unauthorized);
        }
        match self.banks.get(&req.account.bik) {
            None => {
                return Err(BankError::BankNotFound);
            },
            Some(b) => match b.validate_account_identity(req.account.account_id, login) {
                Err(e) => {
                    return Err(e);
                },
                Ok(()) => {},
            },
        }
        let _ = self.salary.salary_request(req);
        Ok(())
    }

    /// Starts a fresh salary project for the enterprise `login`
    /// (EnterpriseSpecialist only), replacing any earlier one.
    pub fn init_salary_proj(&mut self, req: &SalaryInitProjRequest, login: &String, role: UserType) -> (r: Result<(), BankError>)
        requires
            old(self).wf(),
        ensures
            final(self).wf(),
            r is Err <==> role != UserType::EnterpriseSpecialist,
            r is Err ==> r == Err::<(), BankError>(BankError::Unauthorized) && *final(self) == *old(self),
            r is Ok ==> {
                &&& final(self).salary.project_of(login@) matches Some(p) && p.employees@.len() == 0
                    && p.enterprise_accoint == req.account && !p.accepted
                &&& forall|e: Seq<char>| e != login@ ==> final(self).salary.project_of(e) == old(self).salary.project_of(e)
                &&& final(self).salary.salary_requests == old(self).salary.salary_requests
                &&& final(self).banks == old(self).banks
                &&& final(self).transactions == old(self).transactions
            },
    {
        if role != UserType::EnterpriseSpecialist {
            return Err(BankError::Unauthorized);
        }
        self.salary.init_salary_proj(login.clone(), req.account);
        Ok(())
    }

    /// Accepts or declines a pending salary request of the enterprise `login`
    /// (EnterpriseSpecialist only; see `SalaryService::salary_accept_decline`).
    pub fn salary_accept_decline(&mut self, req: &SalaryAcceptRequest, login: &String, role: UserType) -> (r: Result<(), BankError>)
        requires
            old(self).wf(),
        ensures
            final(self).wf(),
            r == (if role != UserType::EnterpriseSpecialist {
                Err(BankError::Unauthorized)
            } else {
                old(self).salary.accept_decline_check(login@, req.idx as int)
            }),
            r is Err ==> *final(self) == *old(self),
            r is Ok ==> {
                let q = old(self).salary.requests_of(login@)[req.idx as int];
                let p0 = old(self).salary.project_of(login@).unwrap();
                let p1 = final(self).salary.project_of(login@).unwrap();
                &&& final(self).salary.requests_of(login@) == crate::salary::swap_removed(
                    old(self).salary.requests_of(login@),
                    req.idx as int,
                )
                &&& p1.accepted && p1.enterprise_accoint == p0.enterprise_accoint
                &&& p1.employees@ == if req.accept {
                    p0.employees@.push(crate::salary::Employee { login: q.client_login, account: q.account, salary: req.salary })
                } else {
                    p0.employees@
                }
                &&& forall|e: Seq<char>| e != login@ ==> final(self).salary.requests_of(e) == old(self).salary.requests_of(e)
                &&& forall|e: Seq<char>| e != login@ ==> final(self).salary.project_of(e) == old(self).salary.project_of(e)
                &&& final(self).banks == old(self).banks
                &&& final(self).transactions == old(self).transactions
            },
    {
        if role != UserType::EnterpriseSpecialist {
            return Err(BankError::Unauthorized);
        }
        self.salary.salary_accept_decline(login, req)
    }

    /// The pending salary requests of the enterprise `login`
    /// (EnterpriseSpecialist only).
    pub fn salary_accept_decline_get(&self, login: &String, role: UserType) -> (r: Result<Vec<SalaryClientRequest>, BankError>)
        requires
            self.wf(),
        ensures
            role != UserType::EnterpriseSpecialist ==> r == Err::<Vec<SalaryClientRequest>, BankError>(BankError::Unauthorized),
            role == UserType::EnterpriseSpecialist ==> {
                &&& (r is Err <==> self.salary.requests_of(login@).len() == 0)
                &&& r is Err ==> r == Err::<Vec<SalaryClientRequest>, BankError>(BankError::IndexOutOfRange)
                &&& r matches Ok(v) ==> v@ == self.salary.requests_of(login@)
            },
    {
        if role != UserType::EnterpriseSpecialist {
            return Err(BankError::Unauthorized);
        }
        self.salary.salary_accept_decline_get(login)
    }

    /// Approves the salary project of `req.enterprise` (Operator only).
    pub fn accept_salary_proj(&mut self, req: &SalaryAcceptProjRequest, role: UserType) -> (r: Result<(), BankError>)
        requires
            old(self).wf(),
        ensures
            final(self).wf(),
            r == (if role != UserType::Operator {
                Err(BankError::Unauthorized)
            } else if old(self).salary.project_of(req.enterprise@) is None {
                Err(BankError::PayrollProjectNotAccepted)
            } else {
                Ok(())
            }),
            r is Err ==> *final(self) == *old(self),
            r is Ok ==> {
                let p0 = old(self).salary.project_of(req.enterprise@).unwrap();
                &&& final(self).salary.project_of(req.enterprise@) matches Some(p1) && p1.accepted
                    && p1.employees == p0.employees && p1.enterprise_accoint == p0.enterprise_accoint
                &&& forall|e: Seq<char>| e != req.enterprise@ ==> final(self).salary.project_of(e) == old(self).salary.project_of(e)
                &&& final(self).salary.salary_requests == old(self).salary.salary_requests
                &&& final(self).banks == old(self).banks
                &&& final(self).transactions == old(self).transactions
            },
    {
        if role != UserType::Operator {
            return Err(BankError::Unauthorized);
        }
        match self.salary.accept_salary_proj(&req.enterprise) {
            Ok(()) => Ok(()),
            Err(e) => Err(e),
        }
    }
}

/// `b1` is `b0` after the accrual pass at `now`: every deposit and every
/// accepted credit accrued, the same clients and accounts (balances aside),
/// and the same pending credit requests.
pub open spec fn bank_accrued(b1: Bank, b0: Bank, now: Timestamp) -> bool {
    &&& b1.same_accounts(&b0)
    &&& b1.credit_service.unaccepted_credits == b0.credit_service.unaccepted_credits
    &&& forall|k: Seq<char>| #[trigger] b1.deposit_service.deposits_of(k).len() == b0.deposit_service.deposits_of(k).len()
    &&& forall|k: Seq<char>, j: int| 0 <= j < b0.deposit_service.deposits_of(k).len()
        ==> #[trigger] b1.deposit_service.deposits_of(k)[j] == accrued(b0.deposit_service.deposits_of(k)[j], now)
    &&& forall|k: Seq<char>| #[trigger] b1.credit_service.credits_of(k).len() == b0.credit_service.credits_of(k).len()
    &&& forall|k: Seq<char>, j: int| 0 <= j < b0.credit_service.credits_of(k).len()
        ==> #[trigger] b1.credit_service.credits_of(k)[j] == accrued_credit(b0.credit_service.credits_of(k)[j], now)
}

/// The credit payments of one accrual pass over the banks `ids`, bank by bank.
pub open spec fn pass_payments(banks: Map<BIK, Bank>, ids: Seq<BIK>, now: Timestamp) -> Seq<Transaction>
    decreases ids.len(),
{
    if ids.len() == 0 {
        Seq::empty()
    } else {
        pass_payments(banks, ids.drop_last(), now) + all_payments(
            banks[ids.last()].credit_service.accepted_credits.entries@,
            now,
            ids.last(),
        )
    }
}

/// `b` is `a` after posting `t` without a balance check: the transfer and
/// its log entry when `t` passes the checks, no change otherwise.
pub open spec fn posted_unchecked(a: BankService, b: BankService, t: Transaction) -> bool {
    if a.post_check(t, false) is Ok {
        b.transferred(&a, t) && b.transactions@ == a.transactions@.push(t)
    } else {
        b == a
    }
}

/// `states` runs from its first engine to its last by posting `ps`, in order.
pub open spec fn posts_in_order(states: Seq<BankService>, ps: Seq<Transaction>) -> bool {
    &&& states.len() == ps.len() + 1
    &&& forall|j: int| 0 <= j < ps.len() ==> #[trigger] posted_unchecked(states[j], states[j + 1], ps[j])
}

impl BankService {
    /// The accrual pass at `now`: every deposit and every credit of every bank
    /// accrues, then the credit payments that fall due are posted without a
    /// balance check. A payment that cannot be posted is skipped.
    pub fn update(&mut self, now: &Timestamp)
        requires
            old(self).wf(),
            now.wf(),
        ensures
            final(self).wf(),
            final(self).bank_ids == old(self).bank_ids,
            final(self).salary == old(self).salary,
            final(self).banks@.dom() == old(self).banks@.dom(),
            forall|bik: BIK| #[trigger] final(self).banks@.contains_key(bik)
                ==> bank_accrued(final(self).banks@[bik], old(self).banks@[bik], *now),
            exists|states: Seq<BankService>|
                {
                    &&& posts_in_order(states, pass_payments(old(self).banks@, old(self).bank_ids@, *now))
                    &&& states.last() == *final(self)
                    &&& states[0].transactions == old(self).transactions
                    &&& states[0].banks@.dom() == old(self).banks@.dom()
                    &&& forall|bik: BIK| #[trigger] states[0].banks@.contains_key(bik)
                        ==> bank_accrued(states[0].banks@[bik], old(self).banks@[bik], *now)
                    &&& forall|ep: TransactionEndPoint| #[trigger] old(self).has_account(ep)
                        ==> states[0].balance(ep) == old(self).balance(ep)
                },
    {
        let ghost ids = self.bank_ids@;
        let ghost banks0 = self.banks@;
        let mut payments: Vec<Transaction> = Vec::new();
        let n = self.bank_ids.len();
        let mut i: usize = 0;
        while i < n
            invariant
                self.wf(),
                now.wf(),
                ids == self.bank_ids@,
                ids == old(self).bank_ids@,
                self.bank_ids == old(self).bank_ids,
                banks0 == old(self).banks@,
                n == ids.len(),
                i <= n,
                self.salary == old(self).salary,
                self.transactions == old(self).transactions,
                self.banks@.dom() == banks0.dom(),
                payments@ == pass_payments(banks0, ids.take(i as int), *now),
                forall|a: int| 0 <= a < i ==> #[trigger] bank_accrued(self.banks@[ids[a]], banks0[ids[a]], *now),
                forall|a: int| 0 <= a < i ==> #[trigger] self.banks@[ids[a]].accounts@ == banks0[ids[a]].accounts@,
                forall|a: int| i <= a < n ==> #[trigger] self.banks@[ids[a]] == banks0[ids[a]],
            decreases n - i,
        {
            let bik = self.bank_ids[i];
            assert(self.bank_ids@.contains(bik));
            assert(self.banks@.contains_key(bik));
            assert(self.banks@[bik].wf());
            let ghost before = *self;
            let mut bank = self.take_bank(bik);
            bank.deposit_service.update(now);
            let mut ps = bank.credit_service.update(now, bik);
            proof {
                assert(bank_accrued(bank, banks0[bik], *now));
            }
            self.put_bank(bik, bank, Ghost(before));
            let ghost p0 = payments@;
            payments.append(&mut ps);
            proof {
                assert(ids.take(i + 1).drop_last() =~= ids.take(i as int));
                assert(ids.take(i + 1).last() == bik);
                assert(payments@ =~= pass_payments(banks0, ids.take(i + 1), *now));
                assert forall|a: int| 0 <= a < i + 1 implies #[trigger] bank_accrued(self.banks@[ids[a]], banks0[ids[a]], *now) by {
                    if a < i {
                        assert(ids[a] != bik) by {
                            assert(ids.no_duplicates());
                        }
                    }
                }
                assert forall|a: int| 0 <= a < i + 1 implies #[trigger] self.banks@[ids[a]].accounts@ == banks0[ids[a]].accounts@ by {
                    if a < i {
                        assert(ids[a] != bik) by {
                            assert(ids.no_duplicates());
                        }
                    }
                }
                assert forall|a: int| i + 1 <= a < n implies #[trigger] self.banks@[ids[a]] == banks0[ids[a]] by {
                    assert(ids[a] != bik) by {
                        assert(ids.no_duplicates());
                    }
                }
            }
            i = i + 1;
        }
        proof {
            assert(ids.take(n as int) =~= ids);
            assert forall|bik: BIK| #[trigger] self.banks@.contains_key(bik)
                implies bank_accrued(self.banks@[bik], banks0[bik], *now) by {
                assert(self.bank_ids@.contains(bik));
                let a = choose|a: int| 0 <= a < n && ids[a] == bik;
                assert(bank_accrued(self.banks@[ids[a]], banks0[ids[a]], *now));
            }
            assert forall|ep: TransactionEndPoint| #[trigger] old(self).has_account(ep)
                implies self.balance(ep) == old(self).balance(ep) by {
                assert(self.bank_ids@.contains(ep.bik));
                let a = choose|a: int| 0 <= a < n && ids[a] == ep.bik;
                assert(self.banks@[ids[a]].accounts@ == banks0[ids[a]].accounts@);
            }
        }
        let ghost mid = *self;
        let ghost mut states: Seq<BankService> = seq![*self];
        let m = payments.len();
        let mut j: usize = 0;
        while j < m
            invariant
                self.wf(),
                m == payments@.len(),
                payments@ == pass_payments(banks0, ids, *now),
                j <= m,
                self.bank_ids == mid.bank_ids,
                self.salary == mid.salary,
                self.banks@.dom() == mid.banks@.dom(),
                forall|bik: BIK| #[trigger] self.banks@.contains_key(bik) ==> self.banks@[bik].same_but_balances(&mid.banks@[bik]),
                mid.transactions@.len() <= self.transactions@.len(),
                self.transactions@.subrange(0, mid.transactions@.len() as int) == mid.transactions@,
                self.transactions@.len() - mid.transactions@.len() <= j,
                forall|x: int| mid.transactions@.len() <= x < self.transactions@.len()
                    ==> payments@.contains(#[trigger] self.transactions@[x]),
                posts_in_order(states, payments@.take(j as int)),
                states.last() == *self,
                states[0] == mid,
            decreases m - j,
        {
            let t = payments[j];
            let ghost before = *self;
            let _ = self.perform_transaction(t, false);
            proof {
                let prev = states;
                states = states.push(*self);
                assert(posted_unchecked(before, *self, t));
                assert forall|k: int| 0 <= k < j + 1 implies #[trigger] posted_unchecked(states[k], states[k + 1], payments@.take(j + 1)[k]) by {
                    if k < j {
                        assert(states[k] == prev[k]);
                        assert(states[k + 1] == prev[k + 1]);
                        assert(payments@.take(j + 1)[k] == payments@.take(j as int)[k]);
                    } else {
                        assert(states[k] == prev.last());
                    }
                }
                assert forall|bik: BIK| #[trigger] self.banks@.contains_key(bik)
                    implies self.banks@[bik].same_but_balances(&mid.banks@[bik]) by {
                    assert(before.banks@.contains_key(bik));
                }
                assert(self.transactions@.subrange(0, mid.transactions@.len() as int) =~= mid.transactions@);
                assert forall|x: int| mid.transactions@.len() <= x < self.transactions@.len()
                    implies payments@.contains(#[trigger] self.transactions@[x]) by {
                    if x == before.transactions@.len() {
                        assert(payments@[j as int] == t);
                    } else {
                        assert(self.transactions@[x] == before.transactions@[x]);
                    }
                }
            }
            j = j + 1;
        }
        proof {
            assert forall|bik: BIK| #[trigger] self.banks@.contains_key(bik)
                implies bank_accrued(self.banks@[bik], banks0[bik], *now) by {
                assert(mid.banks@.contains_key(bik));
                assert(bank_accrued(mid.banks@[bik], banks0[bik], *now));
                assert(self.banks@[bik].same_but_balances(&mid.banks@[bik]));
            }
            assert(payments@.take(m as int) =~= payments@);
            assert(ids =~= old(self).bank_ids@);
        }
    }
}

} // verus!
