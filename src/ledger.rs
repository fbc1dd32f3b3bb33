use vstd::prelude::*;
use std::collections::HashMap;
use crate::credit::CreditService;
use crate::deposit::DepositService;
use crate::error::BankError;
use crate::money::Money;
use crate::table::LoginTable;
use crate::time::signed_month_difference;
use crate::types::{Account, AccountID, AccountStatus, BankPublicInfo};

verus! {

broadcast use vstd::std_specs::hash::group_hash_axioms;

/// The balance every newly opened account starts with.
pub const PROMO_BALANCE: i32 = 1334;

/// One bank: its accounts, the index from client logins to the accounts they
/// own, and its deposit and credit books.
pub struct Bank {
    pub deposit_service: DepositService,
    pub credit_service: CreditService,
    pub accounts: HashMap<AccountID, Account>,
    pub clients: LoginTable<Vec<AccountID>>,
    pub public_info: BankPublicInfo,
    /// How many accounts were ever opened; ids run from 1 to this number.
    pub opened: u64,
}

impl Bank {
    pub open spec fn wf(&self) -> bool {
        &&& self.deposit_service.wf()
        &&& self.credit_service.wf()
        &&& self.clients.wf()
        &&& forall|id: AccountID| #[trigger] self.accounts@.contains_key(id)
            ==> self.accounts@[id].id == id && 1 <= id <= self.opened
        &&& forall|i: int, j: int|
            0 <= i < self.clients.entries@.len() && 0 <= j < self.clients.entries@[i].value@.len()
                ==> self.accounts@.contains_key(#[trigger] self.clients.entries@[i].value@[j])
        &&& forall|i1: int, j1: int, i2: int, j2: int|
            0 <= i1 < self.clients.entries@.len() && 0 <= j1 < self.clients.entries@[i1].value@.len()
                && 0 <= i2 < self.clients.entries@.len() && 0 <= j2 < self.clients.entries@[i2].value@.len()
                && #[trigger] self.clients.entries@[i1].value@[j1] == #[trigger] self.clients.entries@[i2].value@[j2]
                ==> i1 == i2 && j1 == j2
    }

    /// The accounts of `login`, in the order they were opened.
    pub open spec fn accounts_of(&self, login: Seq<char>) -> Seq<AccountID> {
        match self.clients.get(login) {
            Some(v) => v@,
            None => Seq::empty(),
        }
    }

    /// `login` owns account `id` of this bank.
    pub open spec fn owns(&self, login: Seq<char>, id: AccountID) -> bool {
        self.accounts_of(login).contains(id)
    }

    /// What `validate_account_identity` returns.
    pub open spec fn identity_check(&self, id: AccountID, login: Seq<char>) -> Result<(), BankError> {
        if !self.owns(login, id) {
            Err(BankError::AccountOwnershipMismatch)
        } else if self.accounts@[id].status != AccountStatus::Normal {
            Err(BankError::AccountFrozenOrBlocked)
        } else {
            Ok(())
        }
    }

    /// What `account_close` returns.
    pub open spec fn close_check(&self, id: AccountID, login: Seq<char>) -> Result<(), BankError> {
        if self.identity_check(id, login) is Err {
            self.identity_check(id, login)
        } else if self.credit_service.backs(id) {
            Err(BankError::AccountInUse)
        } else {
            Ok(())
        }
    }

    /// Everything but the balances of existing accounts is the same.
    pub open spec fn same_but_balances(&self, other: &Bank) -> bool {
        &&& self.deposit_service == other.deposit_service
        &&& self.credit_service == other.credit_service
        &&& self.same_accounts(other)
    }

    /// The same clients and accounts; balances and the deposit and credit
    /// books may differ.
    pub open spec fn same_accounts(&self, other: &Bank) -> bool {
        &&& self.clients == other.clients
        &&& self.public_info == other.public_info
        &&& self.opened == other.opened
        &&& self.accounts@.dom() == other.accounts@.dom()
        &&& forall|id: AccountID| #[trigger] self.accounts@.contains_key(id)
            ==> self.accounts@[id].id == other.accounts@[id].id
                && self.accounts@[id].status == other.accounts@[id].status
    }

    /// An empty bank.
    pub fn new(public_info: BankPublicInfo) -> (r: Bank)
        ensures
            r.wf(),
            r.public_info == public_info,
            r.opened == 0,
            r.accounts@ == Map::<AccountID, Account>::empty(),
            forall|k: Seq<char>| r.accounts_of(k) == Seq::<AccountID>::empty(),
            forall|k: Seq<char>| r.deposit_service.deposits_of(k) == Seq::<crate::deposit::Deposit>::empty(),
            forall|k: Seq<char>| r.credit_service.credits_of(k) == Seq::<crate::credit::Credit>::empty(),
            r.credit_service.unaccepted_credits@.len() == 0,
    {
        let r = Bank {
            deposit_service: DepositService::new(),
            credit_service: CreditService::new(),
            accounts: HashMap::new(),
            clients: LoginTable::new(),
            public_info,
            opened: 0,
        };
        assert(r.accounts@ =~= Map::<AccountID, Account>::empty());
        r
    }

    proof fn lemma_owner_pos(&self, login: Seq<char>, id: AccountID) -> (j: int)
        requires
            self.wf(),
            self.owns(login, id),
        ensures
            self.clients.has(login),
            0 <= j < self.clients.entries@[self.clients.pos(login)].value@.len(),
            self.clients.entries@[self.clients.pos(login)].value@[j] == id,
            self.accounts@.contains_key(id),
    {
        let s = self.accounts_of(login);
        let j = choose|j: int| 0 <= j < s.len() && s[j] == id;
        assert(self.clients.has(login));
        j
    }

    /// Registers `client` with no accounts; nothing changes if it is known.
    pub fn add_client(&mut self, client: &String)
        requires
            old(self).wf(),
        ensures
            final(self).wf(),
            final(self).clients.has(client@),
            final(self).accounts@ == old(self).accounts@,
            final(self).opened == old(self).opened,
            final(self).public_info == old(self).public_info,
            final(self).deposit_service.wf(),
            forall|k: Seq<char>| final(self).accounts_of(k) == old(self).accounts_of(k),
            forall|k: Seq<char>| final(self).deposit_service.deposits_of(k) == old(self).deposit_service.deposits_of(k),
            forall|k: Seq<char>| final(self).credit_service.credits_of(k) == old(self).credit_service.credits_of(k),
            final(self).credit_service.unaccepted_credits == old(self).credit_service.unaccepted_credits,
    {
        match self.clients.find(client) {
            Some(_) => {},
            None => {
                let ghost l = client@;
                self.clients.push_new(client.clone(), Vec::new());
                self.deposit_service.add_client(client.clone());
                self.credit_service.add_client(client.clone());
                proof {
                    let n = self.clients.entries@.len() - 1;
                    assert(self.accounts_of(l) =~= old(self).accounts_of(l));
                    assert forall|i: int, j: int|
                        0 <= i < self.clients.entries@.len() && 0 <= j < self.clients.entries@[i].value@.len()
                            implies self.accounts@.contains_key(#[trigger] self.clients.entries@[i].value@[j]) by {
                        assert(i < n);
                        assert(self.clients.entries@[i] == old(self).clients.entries@[i]);
                    }
                    assert forall|i1: int, j1: int, i2: int, j2: int|
                        0 <= i1 < self.clients.entries@.len() && 0 <= j1 < self.clients.entries@[i1].value@.len()
                            && 0 <= i2 < self.clients.entries@.len() && 0 <= j2 < self.clients.entries@[i2].value@.len()
                            && #[trigger] self.clients.entries@[i1].value@[j1] == #[trigger] self.clients.entries@[i2].value@[j2]
                            implies i1 == i2 && j1 == j2 by {
                        assert(i1 < n && i2 < n);
                        assert(self.clients.entries@[i1] == old(self).clients.entries@[i1]);
                        assert(self.clients.entries@[i2] == old(self).clients.entries@[i2]);
                    }
                }
            },
        }
    }

    /// Checks that account `acc` is in the account index of `login` and is
    /// neither frozen nor blocked.
    pub fn validate_account_identity(&self, acc: AccountID, login: &String) -> (r: Result<(), BankError>)
        requires
            self.wf(),
        ensures
            r == self.identity_check(acc, login@),
    {
        match self.clients.find(login) {
            None => Err(BankError::AccountOwnershipMismatch),
            Some(i) => {
                let ids = &self.clients.entries[i].value;
                let mut j: usize = 0;
                while j < ids.len()
                    invariant
                        self.wf(),
                        i < self.clients.entries@.len(),
                        ids@ == self.clients.entries@[i as int].value@,
                        self.clients.has(login@),
                        self.clients.pos(login@) == i,
                        j <= ids@.len(),
                        forall|b: int| 0 <= b < j ==> ids@[b] != acc,
                    decreases ids@.len() - j,
                {
                    if ids[j] == acc {
                        proof {
                            assert(self.accounts@.contains_key(ids@[j as int]));
                            assert(self.accounts_of(login@)[j as int] == acc);
                        }
                        return match self.accounts.get(&acc) {
                            Some(a) => match a.status {
                                AccountStatus::Normal => Ok(()),
                                _ => Err(BankError::AccountFrozenOrBlocked),
                            },
                            None => Err(BankError::AccountOwnershipMismatch),
                        };
                    }
                    j = j + 1;
                }
                proof {
                    assert(!self.accounts_of(login@).contains(acc));
                }
                Err(BankError::AccountOwnershipMismatch)
            },
        }
    }

    /// Opens a new account for `login` with the promotional balance,
    /// registering the client if needed. Ids are assigned in sequence and never
    /// reused; fails with `InvalidAccount` once the id space is exhausted.
    pub fn account_new(&mut self, login: &String) -> (r: Result<AccountID, BankError>)
        requires
            old(self).wf(),
        ensures
            final(self).wf(),
            final(self).public_info == old(self).public_info,
            r is Err <==> old(self).opened == u64::MAX,
            r is Err ==> *final(self) == *old(self),
            r matches Ok(id) ==> {
                &&& id == old(self).opened + 1
                &&& final(self).opened == id
                &&& !old(self).accounts@.contains_key(id)
                &&& final(self).accounts@ == old(self).accounts@.insert(
                    id,
                    Account { id, balance: Money(PROMO_BALANCE), status: AccountStatus::Normal },
                )
                &&& final(self).accounts_of(login@) == old(self).accounts_of(login@).push(id)
                &&& forall|k: Seq<char>| k != login@ ==> final(self).accounts_of(k) == old(self).accounts_of(k)
                &&& forall|k: Seq<char>| final(self).deposit_service.deposits_of(k) == old(self).deposit_service.deposits_of(k)
                &&& forall|k: Seq<char>| final(self).credit_service.credits_of(k) == old(self).credit_service.credits_of(k)
                &&& final(self).credit_service.unaccepted_credits == old(self).credit_service.unaccepted_credits
            },
    {
        if self.opened == u64::MAX {
            return Err(BankError::InvalidAccount);
        }
        self.add_client(login);
        let ghost mid = *self;
        let id: u64 = self.opened + 1;
        let acc = Account { id, balance: Money(PROMO_BALANCE), status: AccountStatus::Normal };
        self.accounts.insert(id, acc);
        self.opened = id;
        let i = match self.clients.find(login) {
            Some(i) => i,
            None => {
                return Err(BankError::InvalidAccount);
            },
        };
        self.clients.entries[i].value.push(id);
        proof {
            LoginTable::lemma_update(&mid.clients, &self.clients, i as int);
            mid.clients.lemma_pos(i as int);
            assert(self.accounts_of(login@) =~= mid.accounts_of(login@).push(id));
            assert forall|a: int, b: int|
                0 <= a < self.clients.entries@.len() && 0 <= b < self.clients.entries@[a].value@.len()
                    implies self.accounts@.contains_key(#[trigger] self.clients.entries@[a].value@[b]) by {
                if a != i || b < mid.clients.entries@[a].value@.len() {
                    assert(self.clients.entries@[a].value@[b] == mid.clients.entries@[a].value@[b]);
                }
            }
            assert forall|i1: int, j1: int, i2: int, j2: int|
                0 <= i1 < self.clients.entries@.len() && 0 <= j1 < self.clients.entries@[i1].value@.len()
                    && 0 <= i2 < self.clients.entries@.len() && 0 <= j2 < self.clients.entries@[i2].value@.len()
                    && #[trigger] self.clients.entries@[i1].value@[j1] == #[trigger] self.clients.entries@[i2].value@[j2]
                    implies i1 == i2 && j1 == j2 by {
                let old1 = i1 != i || j1 < mid.clients.entries@[i1].value@.len();
                let old2 = i2 != i || j2 < mid.clients.entries@[i2].value@.len();
                if old1 {
                    assert(self.clients.entries@[i1].value@[j1] == mid.clients.entries@[i1].value@[j1]);
                    assert(mid.accounts@.contains_key(mid.clients.entries@[i1].value@[j1]));
                }
                if old2 {
                    assert(self.clients.entries@[i2].value@[j2] == mid.clients.entries@[i2].value@[j2]);
                    assert(mid.accounts@.contains_key(mid.clients.entries@[i2].value@[j2]));
                }
            }
        }
        Ok(id)
    }
    /// Closes account `id` of `login`: fails as `validate_account_identity`
    /// does, or with `AccountInUse` while the account backs a credit request
    /// or a credit with payments outstanding; otherwise removes the account
    /// and its index entry.
    pub fn account_close(&mut self, login: &String, id: AccountID) -> (r: Result<(), BankError>)
        requires
            old(self).wf(),
        ensures
            final(self).wf(),
            r == old(self).close_check(id, login@),
            r is Err ==> *final(self) == *old(self),
            r is Ok ==> {
                &&& final(self).accounts@ == old(self).accounts@.remove(id)
                &&& exists|j: int| 0 <= j < old(self).accounts_of(login@).len()
                    && old(self).accounts_of(login@)[j] == id
                    && final(self).accounts_of(login@) == old(self).accounts_of(login@).remove(j)
                &&& forall|k: Seq<char>| k != login@ ==> final(self).accounts_of(k) == old(self).accounts_of(k)
                &&& final(self).opened == old(self).opened
                &&& final(self).public_info == old(self).public_info
                &&& final(self).deposit_service == old(self).deposit_service
                &&& final(self).credit_service == old(self).credit_service
            },
    {
        match self.validate_account_identity(id, login) {
            Err(e) => {
                return Err(e);
            },
            Ok(()) => {},
        }
        if self.credit_service.references_account(id) {
            return Err(BankError::AccountInUse);
        }
        let i = match self.clients.find(login) {
            Some(i) => i,
            None => {
                return Err(BankError::AccountOwnershipMismatch);
            },
        };
        let ghost jj = self.lemma_owner_pos(login@, id);
        let mut j: usize = 0;
        let n = self.clients.entries[i].value.len();
        while j < n
            invariant
                self == old(self),
                self.wf(),
                i < self.clients.entries@.len(),
                n == self.clients.entries@[i as int].value@.len(),
                self.clients.pos(login@) == i,
                0 <= jj < n,
                self.clients.entries@[i as int].value@[jj] == id,
                j <= jj,
                forall|b: int| 0 <= b < j ==> self.clients.entries@[i as int].value@[b] != id,
            ensures
                j == jj,
            decreases n - j,
        {
            if self.clients.entries[i].value[j] == id {
                proof {
                    assert(self.clients.entries@[i as int].value@[j as int] == self.clients.entries@[i as int].value@[jj]);
                }
                break;
            }
            j = j + 1;
        }
        proof {
            assert(self.wf());
            assert(j == jj);
        }
        let ghost mid = *self;
        self.accounts.remove(&id);
        self.clients.entries[i].value.remove(j);
        proof {
            LoginTable::lemma_update(&mid.clients, &self.clients, i as int);
            mid.clients.lemma_pos(i as int);
            let ov = mid.clients.entries@[i as int].value@;
            assert(self.clients.entries@[i as int].value@ == ov.remove(j as int));
            assert forall|a: int, b: int|
                0 <= a < self.clients.entries@.len() && 0 <= b < self.clients.entries@[a].value@.len()
                    implies self.accounts@.contains_key(#[trigger] self.clients.entries@[a].value@[b]) by {
                let ob = if a == i && b >= j { b + 1 } else { b };
                assert(self.clients.entries@[a].value@[b] == mid.clients.entries@[a].value@[ob]);
                assert(mid.accounts@.contains_key(mid.clients.entries@[a].value@[ob]));
                assert(mid.clients.entries@[a].value@[ob] != id);
            }
            assert forall|i1: int, j1: int, i2: int, j2: int|
                0 <= i1 < self.clients.entries@.len() && 0 <= j1 < self.clients.entries@[i1].value@.len()
                    && 0 <= i2 < self.clients.entries@.len() && 0 <= j2 < self.clients.entries@[i2].value@.len()
                    && #[trigger] self.clients.entries@[i1].value@[j1] == #[trigger] self.clients.entries@[i2].value@[j2]
                    implies i1 == i2 && j1 == j2 by {
                let o1 = if i1 == i && j1 >= j { j1 + 1 } else { j1 };
                let o2 = if i2 == i && j2 >= j { j2 + 1 } else { j2 };
                assert(self.clients.entries@[i1].value@[j1] == mid.clients.entries@[i1].value@[o1]);
                assert(self.clients.entries@[i2].value@[j2] == mid.clients.entries@[i2].value@[o2]);
            }
        }
        Ok(())
    }

    /// The accounts of `login`, in index order; fails with
    /// `AccountOwnershipMismatch` when the client is unknown to this bank.
    pub fn accounts_get(&self, login: &String) -> (r: Result<Vec<Account>, BankError>)
        requires
            self.wf(),
        ensures
            r is Err <==> !self.clients.has(login@),
            r is Err ==> r == Err::<Vec<Account>, BankError>(BankError::AccountOwnershipMismatch),
            r matches Ok(v) ==> v@.len() == self.accounts_of(login@).len()
                && forall|j: int| 0 <= j < v@.len() ==> #[trigger] v@[j] == self.accounts@[self.accounts_of(login@)[j]],
    {
        match self.clients.find(login) {
            None => Err(BankError::AccountOwnershipMismatch),
            Some(i) => {
                let ids = &self.clients.entries[i].value;
                let mut out: Vec<Account> = Vec::new();
                let mut j: usize = 0;
                while j < ids.len()
                    invariant
                        self.wf(),
                        i < self.clients.entries@.len(),
                        ids@ == self.clients.entries@[i as int].value@,
                        j <= ids@.len(),
                        out@.len() == j,
                        forall|b: int| 0 <= b < j ==> #[trigger] out@[b] == self.accounts@[ids@[b]],
                    decreases ids@.len() - j,
                {
                    assert(self.accounts@.contains_key(self.clients.entries@[i as int].value@[j as int]));
                    match self.accounts.get(&ids[j]) {
                        Some(a) => out.push(*a),
                        None => {},
                    }
                    j = j + 1;
                }
                Ok(out)
            },
        }
    }
    /// Sets the balance of existing account `id` to `m`.
    pub fn set_balance(&mut self, id: AccountID, m: Money)
        requires
            old(self).wf(),
            old(self).accounts@.contains_key(id),
        ensures
            final(self).wf(),
            final(self).same_but_balances(old(self)),
            final(self).accounts@ == old(self).accounts@.insert(id, Account { balance: m, ..old(self).accounts@[id] }),
    {
        let acc = match self.accounts.get(&id) {
            Some(a) => *a,
            None => {
                return;
            },
        };
        self.accounts.insert(id, Account { id: acc.id, balance: m, status: acc.status });
        proof {
            assert(self.accounts@.dom() =~= old(self).accounts@.dom());
            assert forall|i: int, j: int|
                0 <= i < self.clients.entries@.len() && 0 <= j < self.clients.entries@[i].value@.len()
                    implies self.accounts@.contains_key(#[trigger] self.clients.entries@[i].value@[j]) by {
                assert(old(self).accounts@.contains_key(old(self).clients.entries@[i].value@[j]));
            }
        }
    }
}

impl CreditService {
    /// Account `id` backs a pending request or a credit with payments still
    /// outstanding.
    pub open spec fn backs(&self, id: AccountID) -> bool {
        ||| exists|i: int| 0 <= i < self.unaccepted_credits@.len()
            && #[trigger] self.unaccepted_credits@[i].params.src_account == id
        ||| exists|i: int, j: int|
            0 <= i < self.accepted_credits.entries@.len() && 0 <= j < self.accepted_credits.entries@[i].value@.len()
                && #[trigger] self.accepted_credits.entries@[i].value@[j].params.src_account == id
                && self.accepted_credits.entries@[i].value@[j].months_paid() < self.accepted_credits.entries@[i].value@[j].params.term
    }

    /// Whether account `id` backs a pending request or an unpaid credit.
    pub fn references_account(&self, id: AccountID) -> (r: bool)
        requires
            self.wf(),
        ensures
            r == self.backs(id),
    {
        let mut i: usize = 0;
        while i < self.unaccepted_credits.len()
            invariant
                i <= self.unaccepted_credits@.len(),
                forall|a: int| 0 <= a < i ==> #[trigger] self.unaccepted_credits@[a].params.src_account != id,
            decreases self.unaccepted_credits@.len() - i,
        {
            if self.unaccepted_credits[i].params.src_account == id {
                return true;
            }
            i = i + 1;
        }
        let n = self.accepted_credits.entries.len();
        let mut a: usize = 0;
        while a < n
            invariant
                self.wf(),
                n == self.accepted_credits.entries@.len(),
                a <= n,
                forall|x: int| 0 <= x < self.unaccepted_credits@.len() ==> #[trigger] self.unaccepted_credits@[x].params.src_account != id,
                forall|x: int, y: int|
                    0 <= x < a && 0 <= y < self.accepted_credits.entries@[x].value@.len()
                        && #[trigger] self.accepted_credits.entries@[x].value@[y].params.src_account == id
                        ==> self.accepted_credits.entries@[x].value@[y].months_paid() >= self.accepted_credits.entries@[x].value@[y].params.term,
            decreases n - a,
        {
            let cs = &self.accepted_credits.entries[a].value;
            let mut b: usize = 0;
            while b < cs.len()
                invariant
                    self.wf(),
                    a < n,
                    n == self.accepted_credits.entries@.len(),
                    cs@ == self.accepted_credits.entries@[a as int].value@,
                    b <= cs@.len(),
                    forall|y: int| 0 <= y < b && #[trigger] cs@[y].params.src_account == id
                        ==> cs@[y].months_paid() >= cs@[y].params.term,
                decreases cs@.len() - b,
            {
                if cs[b].params.src_account == id {
                    assert(cs@[b as int].wf());
                    let paid = signed_month_difference(&cs[b].first_pay, &cs[b].last_pay);
                    if paid < cs[b].params.term as i32 {
                        return true;
                    }
                }
                b = b + 1;
            }
            proof {
                assert forall|x: int, y: int|
                    0 <= x < a + 1 && 0 <= y < self.accepted_credits.entries@[x].value@.len()
                        && #[trigger] self.accepted_credits.entries@[x].value@[y].params.src_account == id
                        implies self.accepted_credits.entries@[x].value@[y].months_paid()
                            >= self.accepted_credits.entries@[x].value@[y].params.term by {
                    if x == a {
                        assert(cs@[y].params.src_account == id);
                    }
                }
            }
            a = a + 1;
        }
        false
    }
}

} // verus!
