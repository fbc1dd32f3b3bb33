use vstd::prelude::*;
use crate::money::Money;

verus! {

/// Bank identifier.
pub type BIK = u64;

/// Account identifier, unique within one bank; 0 is the system pseudo-account.
pub type AccountID = u64;

/// The role of an authenticated caller.
#[derive(Clone, Copy, Debug, PartialEq, Eq, Structural)]
pub enum UserType {
    Client,
    Operator,
    Manager,
    EnterpriseSpecialist,
    Administrator,
}

#[derive(Clone, Copy, Debug, PartialEq, Eq, Structural)]
pub enum AccountStatus {
    Normal,
    Frozen,
    Blocked,
}

#[derive(Clone, Copy, Debug, PartialEq, Eq, Structural)]
pub struct Account {
    pub id: AccountID,
    pub balance: Money,
    pub status: AccountStatus,
}

pub struct BankPublicInfo {
    pub bik: BIK,
    pub address: String,
    pub name: String,
}

impl BankPublicInfo {
    /// A copy equal to `self`.
    pub fn duplicate(&self) -> (r: BankPublicInfo)
        ensures
            r == *self,
    {
        BankPublicInfo { bik: self.bik, address: self.address.clone(), name: self.name.clone() }
    }
}

pub struct BanksGetResp {
    pub banks: Vec<BankPublicInfo>,
}

pub struct AccountOpenResp {
    pub account_id: AccountID,
}

pub struct AccountCloseReq {
    pub account_id: AccountID,
}

pub struct AccountsGetResp {
    pub accounts: Vec<Account>,
}

/// One side of a transfer: an account of a bank, or the system
/// pseudo-account when `account_id` is 0.
#[derive(Clone, Copy, Debug, PartialEq, Eq, Structural)]
pub struct TransactionEndPoint {
    pub bik: BIK,
    pub account_id: AccountID,
}

impl TransactionEndPoint {
    /// The system pseudo-account.
    pub fn null() -> (r: TransactionEndPoint)
        ensures
            r.bik == 0,
            r.account_id == 0,
    {
        TransactionEndPoint { bik: 0, account_id: 0 }
    }

    /// A real account rather than the system pseudo-account.
    pub open spec fn is_real(self) -> bool {
        self.account_id != 0
    }
}

/// A transfer of `amount` from `src` to `dst`.
#[derive(Clone, Copy, Debug, PartialEq, Eq, Structural)]
pub struct Transaction {
    pub src: TransactionEndPoint,
    pub dst: TransactionEndPoint,
    pub amount: Money,
}

impl Transaction {
    pub open spec fn spec_inverse(self) -> Transaction {
        Transaction { src: self.dst, dst: self.src, amount: self.amount }
    }

    /// The same transfer in the opposite direction.
    pub fn inverse(&self) -> (r: Transaction)
        ensures
            r == self.spec_inverse(),
    {
        Transaction { src: self.dst, dst: self.src, amount: self.amount }
    }
}

} // verus!
