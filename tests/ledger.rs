use bankcore::credit::CreditParams;
use bankcore::engine::{BankService, DEFAULT_BIK};
use bankcore::error::BankError;
use bankcore::ledger::PROMO_BALANCE;
use bankcore::money::Money;
use bankcore::types::{AccountCloseReq, AccountStatus, Transaction, TransactionEndPoint, UserType};

fn ep(account_id: u64) -> TransactionEndPoint {
    TransactionEndPoint { bik: DEFAULT_BIK, account_id }
}

fn system() -> TransactionEndPoint {
    TransactionEndPoint::null()
}

fn balance(s: &BankService, id: u64) -> i32 {
    s.lookup(ep(id)).ok().unwrap().0
}

fn login(s: &str) -> String {
    s.to_string()
}

#[test]
fn new_engine_has_default_bank() {
    let s = BankService::new();
    let resp = s.banks_get();
    assert_eq!(resp.banks.len(), 1);
    assert_eq!(resp.banks[0].bik, 1003004);
    assert_eq!(resp.banks[0].name, "Belarusbank");
    assert!(s.transactions_get().is_empty());
}

#[test]
fn account_open_assigns_sequential_ids_with_promo_balance() {
    let mut s = BankService::new();
    let a = s.account_open(&login("cli"), UserType::Client, DEFAULT_BIK).ok().unwrap();
    let b = s.account_open(&login("cli"), UserType::Client, DEFAULT_BIK).ok().unwrap();
    let c = s.account_open(&login("other"), UserType::EnterpriseSpecialist, DEFAULT_BIK).ok().unwrap();
    assert_eq!((a.account_id, b.account_id, c.account_id), (1, 2, 3));
    assert_eq!(balance(&s, 1), 1334);
    assert_eq!(PROMO_BALANCE, 1334);
    let accounts = s.accounts_get(&login("cli"), UserType::Client, DEFAULT_BIK).ok().unwrap().accounts;
    assert_eq!(accounts.len(), 2);
    assert_eq!(accounts[0].id, 1);
    assert_eq!(accounts[1].id, 2);
    assert_eq!(accounts[0].status, AccountStatus::Normal);
}

#[test]
fn account_open_errors() {
    let mut s = BankService::new();
    assert_eq!(s.account_open(&login("cli"), UserType::Manager, DEFAULT_BIK).err(), Some(BankError::Unauthorized));
    assert_eq!(s.account_open(&login("cli"), UserType::Client, 7).err(), Some(BankError::BankNotFound));
}

#[test]
fn closed_account_id_is_not_reused() {
    let mut s = BankService::new();
    s.account_open(&login("cli"), UserType::Client, DEFAULT_BIK).ok().unwrap();
    s.account_open(&login("cli"), UserType::Client, DEFAULT_BIK).ok().unwrap();
    assert_eq!(s.account_close(&AccountCloseReq { account_id: 1 }, &login("cli"), UserType::Client, DEFAULT_BIK), Ok(()));
    let c = s.account_open(&login("cli"), UserType::Client, DEFAULT_BIK).ok().unwrap();
    assert_eq!(c.account_id, 3);
    let ids: Vec<u64> = s.accounts_get(&login("cli"), UserType::Client, DEFAULT_BIK).ok().unwrap().accounts.iter().map(|a| a.id).collect();
    assert_eq!(ids, vec![2, 3]);
    assert_eq!(s.lookup(ep(1)).err(), Some(BankError::InvalidAccount));
}

#[test]
fn account_backing_a_credit_cannot_be_closed() {
    let mut s = BankService::new();
    s.account_open(&login("cli"), UserType::Client, DEFAULT_BIK).ok().unwrap();
    let p = CreditParams { src_account: 1, interest_rate: 2, term: 6, amount: Money(600) };
    s.credit_new(&p, &login("cli"), UserType::Client, DEFAULT_BIK).unwrap();
    let req = AccountCloseReq { account_id: 1 };
    assert_eq!(s.account_close(&req, &login("cli"), UserType::Client, DEFAULT_BIK), Err(BankError::AccountInUse));
    assert_eq!(balance(&s, 1), 1334);
}

#[test]
fn account_close_requires_ownership() {
    let mut s = BankService::new();
    s.account_open(&login("cli"), UserType::Client, DEFAULT_BIK).ok().unwrap();
    assert_eq!(
        s.account_close(&AccountCloseReq { account_id: 1 }, &login("intruder"), UserType::Client, DEFAULT_BIK),
        Err(BankError::AccountOwnershipMismatch)
    );
    assert_eq!(balance(&s, 1), 1334);
}

#[test]
fn frozen_account_fails_identity_check() {
    let mut s = BankService::new();
    s.account_open(&login("cli"), UserType::Client, DEFAULT_BIK).ok().unwrap();
    let mut bank = s.banks.remove(&DEFAULT_BIK).unwrap();
    let mut acc = *bank.accounts.get(&1).unwrap();
    acc.status = AccountStatus::Frozen;
    bank.accounts.insert(1, acc);
    s.banks.insert(DEFAULT_BIK, bank);
    let bank = s.banks.get(&DEFAULT_BIK).unwrap();
    assert_eq!(bank.validate_account_identity(1, &login("cli")), Err(BankError::AccountFrozenOrBlocked));
    assert_eq!(bank.validate_account_identity(1, &login("x")), Err(BankError::AccountOwnershipMismatch));
}

#[test]
fn accounts_get_unknown_client() {
    let s = BankService::new();
    assert_eq!(s.accounts_get(&login("nobody"), UserType::Client, DEFAULT_BIK).err(), Some(BankError::AccountOwnershipMismatch));
}

#[test]
fn conservation_between_real_accounts() {
    let mut s = BankService::new();
    s.account_open(&login("a"), UserType::Client, DEFAULT_BIK).ok().unwrap();
    s.account_open(&login("b"), UserType::Client, DEFAULT_BIK).ok().unwrap();
    let t = Transaction { src: ep(1), dst: ep(2), amount: Money(500) };
    assert_eq!(s.transaction(t, &login("a"), UserType::Client), Ok(()));
    assert_eq!(balance(&s, 1), 834);
    assert_eq!(balance(&s, 2), 1834);
    assert_eq!(balance(&s, 1) + balance(&s, 2), 2 * 1334);
    assert_eq!(s.transactions_get(), vec![t]);
}

#[test]
fn system_account_moves_money_in_and_out() {
    let mut s = BankService::new();
    s.account_open(&login("a"), UserType::Client, DEFAULT_BIK).ok().unwrap();
    let inflow = Transaction { src: system(), dst: ep(1), amount: Money(66) };
    assert_eq!(s.perform_transaction(inflow, true), Ok(()));
    assert_eq!(balance(&s, 1), 1400);
    let outflow = Transaction { src: ep(1), dst: system(), amount: Money(400) };
    assert_eq!(s.perform_transaction(outflow, true), Ok(()));
    assert_eq!(balance(&s, 1), 1000);
}

#[test]
fn self_transfer_is_refused() {
    let mut s = BankService::new();
    s.account_open(&login("a"), UserType::Client, DEFAULT_BIK).ok().unwrap();
    let t = Transaction { src: ep(1), dst: ep(1), amount: Money(10) };
    assert_eq!(s.perform_transaction(t, false), Err(BankError::InvalidAmount));
    assert_eq!(balance(&s, 1), 1334);
    assert!(s.transactions_get().is_empty());
}

#[test]
fn non_positive_amount_is_refused() {
    let mut s = BankService::new();
    s.account_open(&login("a"), UserType::Client, DEFAULT_BIK).ok().unwrap();
    let t = Transaction { src: system(), dst: ep(1), amount: Money(0) };
    assert_eq!(s.perform_transaction(t, false), Err(BankError::InvalidAmount));
    let t = Transaction { src: system(), dst: ep(1), amount: Money(-5) };
    assert_eq!(s.perform_transaction(t, false), Err(BankError::InvalidAmount));
}

#[test]
fn unknown_endpoints_are_refused_without_half_transfer() {
    let mut s = BankService::new();
    s.account_open(&login("a"), UserType::Client, DEFAULT_BIK).ok().unwrap();
    let t = Transaction { src: ep(1), dst: ep(9), amount: Money(10) };
    assert_eq!(s.perform_transaction(t, false), Err(BankError::InvalidAccount));
    assert_eq!(balance(&s, 1), 1334);
    let t = Transaction { src: ep(1), dst: TransactionEndPoint { bik: 5, account_id: 1 }, amount: Money(10) };
    assert_eq!(s.perform_transaction(t, false), Err(BankError::BankNotFound));
    assert_eq!(balance(&s, 1), 1334);
}

#[test]
fn balance_enforcement() {
    let mut s = BankService::new();
    s.account_open(&login("a"), UserType::Client, DEFAULT_BIK).ok().unwrap();
    s.account_open(&login("b"), UserType::Client, DEFAULT_BIK).ok().unwrap();
    let t = Transaction { src: ep(1), dst: ep(2), amount: Money(1335) };
    assert_eq!(s.transaction(t, &login("a"), UserType::Client), Err(BankError::InsufficientFunds));
    assert_eq!(balance(&s, 1), 1334);
    assert_eq!(s.transaction_unprotected(t, UserType::Manager), Ok(()));
    assert_eq!(balance(&s, 1), -1);
    assert_eq!(balance(&s, 2), 2669);
}

#[test]
fn overflowing_balance_is_refused() {
    let mut s = BankService::new();
    s.account_open(&login("a"), UserType::Client, DEFAULT_BIK).ok().unwrap();
    let t = Transaction { src: system(), dst: ep(1), amount: Money(i32::MAX) };
    assert_eq!(s.perform_transaction(t, false), Err(BankError::AmountOverflow));
    assert_eq!(balance(&s, 1), 1334);
}

#[test]
fn transaction_checks_role_and_ownership() {
    let mut s = BankService::new();
    s.account_open(&login("a"), UserType::Client, DEFAULT_BIK).ok().unwrap();
    s.account_open(&login("b"), UserType::Client, DEFAULT_BIK).ok().unwrap();
    let t = Transaction { src: ep(1), dst: ep(2), amount: Money(1) };
    assert_eq!(s.transaction(t, &login("b"), UserType::Client), Err(BankError::AccountOwnershipMismatch));
    assert_eq!(s.transaction(t, &login("a"), UserType::Manager), Err(BankError::Unauthorized));
    assert_eq!(s.transaction_unprotected(t, UserType::Client), Err(BankError::Unauthorized));
}

#[test]
fn revert_restores_balances() {
    let mut s = BankService::new();
    s.account_open(&login("a"), UserType::Client, DEFAULT_BIK).ok().unwrap();
    s.account_open(&login("b"), UserType::Client, DEFAULT_BIK).ok().unwrap();
    let t = Transaction { src: ep(1), dst: ep(2), amount: Money(300) };
    s.transaction(t, &login("a"), UserType::Client).unwrap();
    assert_eq!(s.transaction_revert(UserType::Client), Err(BankError::Unauthorized));
    assert_eq!(s.transaction_revert(UserType::Operator), Ok(()));
    assert_eq!(balance(&s, 1), 1334);
    assert_eq!(balance(&s, 2), 1334);
    assert!(s.transactions_get().is_empty());
}

#[test]
fn revert_steps_back_one_transfer_at_a_time() {
    let mut s = BankService::new();
    s.account_open(&login("a"), UserType::Client, DEFAULT_BIK).ok().unwrap();
    s.account_open(&login("b"), UserType::Client, DEFAULT_BIK).ok().unwrap();
    let t1 = Transaction { src: ep(1), dst: ep(2), amount: Money(100) };
    let t2 = Transaction { src: ep(2), dst: ep(1), amount: Money(30) };
    s.perform_transaction(t1, true).unwrap();
    s.perform_transaction(t2, true).unwrap();
    s.transaction_revert(UserType::Operator).unwrap();
    assert_eq!((balance(&s, 1), balance(&s, 2)), (1234, 1434));
    s.transaction_revert(UserType::Operator).unwrap();
    assert_eq!((balance(&s, 1), balance(&s, 2)), (1334, 1334));
    assert_eq!(s.transaction_revert(UserType::Operator), Err(BankError::IndexOutOfRange));
}

#[test]
fn revert_may_drive_a_balance_negative() {
    let mut s = BankService::new();
    s.account_open(&login("a"), UserType::Client, DEFAULT_BIK).ok().unwrap();
    s.account_open(&login("b"), UserType::Client, DEFAULT_BIK).ok().unwrap();
    s.perform_transaction(Transaction { src: ep(1), dst: ep(2), amount: Money(1000) }, true).unwrap();
    s.perform_transaction(Transaction { src: ep(2), dst: system(), amount: Money(2000) }, true).unwrap();
    s.perform_transaction(Transaction { src: ep(1), dst: ep(2), amount: Money(334) }, true).unwrap();
    s.transaction_revert(UserType::Operator).unwrap();
    s.transaction_revert(UserType::Operator).unwrap();
    assert_eq!(balance(&s, 2), 2334);
    s.perform_transaction(Transaction { src: ep(2), dst: system(), amount: Money(2334) }, true).unwrap();
    s.transaction_revert(UserType::Operator).unwrap();
    s.transaction_revert(UserType::Operator).unwrap();
    assert_eq!((balance(&s, 1), balance(&s, 2)), (1334, 1334));
}

#[test]
fn endpoint_null_and_inverse() {
    let n = TransactionEndPoint::null();
    assert_eq!((n.bik, n.account_id), (0, 0));
    let t = Transaction { src: ep(1), dst: ep(2), amount: Money(5) };
    let i = t.inverse();
    assert_eq!(i.src, ep(2));
    assert_eq!(i.dst, ep(1));
    assert_eq!(i.amount, Money(5));
}

#[test]
fn money_arithmetic() {
    assert_eq!(Money(5).checked_add(Money(7)), Some(Money(12)));
    assert_eq!(Money(i32::MAX).checked_add(Money(1)), None);
    assert_eq!(Money(5).checked_sub(Money(7)), Some(Money(-2)));
    assert_eq!(Money(i32::MIN).checked_sub(Money(1)), None);
    assert!(Money(1).less_than(Money(2)));
    assert!(!Money(0).is_positive());
}

#[test]
fn account_ids_run_out() {
    let mut s = BankService::new();
    let mut bank = s.banks.remove(&DEFAULT_BIK).unwrap();
    bank.opened = u64::MAX;
    s.banks.insert(DEFAULT_BIK, bank);
    assert_eq!(s.account_open(&login("cli"), UserType::Client, DEFAULT_BIK).err(), Some(BankError::InvalidAccount));
}

#[test]
fn source_funds_are_checked_before_the_destination() {
    let mut s = BankService::new();
    s.account_open(&login("a"), UserType::Client, DEFAULT_BIK).ok().unwrap();
    let t = Transaction { src: ep(1), dst: ep(9), amount: Money(5000) };
    assert_eq!(s.perform_transaction(t, true), Err(BankError::InsufficientFunds));
    assert_eq!(s.perform_transaction(t, false), Err(BankError::InvalidAccount));
}
