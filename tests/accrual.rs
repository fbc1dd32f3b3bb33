use bankcore::annuity::monthly_payment;
use bankcore::credit::{accrue_credit, Credit, CreditAcceptRequest, CreditParams, CreditTerm};
use bankcore::deposit::{compound_amount, DepositNewRequest, DepositWithdrawRequest};
use bankcore::engine::{BankService, DEFAULT_BIK};
use bankcore::error::BankError;
use bankcore::money::Money;
use bankcore::service::DEPOSIT_INTEREST_RATE;
use bankcore::time::{signed_month_difference, Timestamp};
use bankcore::types::{Transaction, TransactionEndPoint, UserType};

fn ts(year: i32, month: u32, day: u32) -> Timestamp {
    Timestamp { year, month, day, secs: 12 * 3600 }
}

fn ep(account_id: u64) -> TransactionEndPoint {
    TransactionEndPoint { bik: DEFAULT_BIK, account_id }
}

fn balance(s: &BankService, id: u64) -> i32 {
    s.lookup(ep(id)).ok().unwrap().0
}

fn cli() -> String {
    "cli".to_string()
}

fn funded_client(amount: i32) -> BankService {
    let mut s = BankService::new();
    s.account_open(&cli(), UserType::Client, DEFAULT_BIK).ok().unwrap();
    let t = Transaction { src: TransactionEndPoint::null(), dst: ep(1), amount: Money(amount) };
    s.transaction_unprotected(t, UserType::Manager).unwrap();
    s
}

fn annuity_f64(amount: i32, rate: u8, term: u8) -> i32 {
    let r = rate as f64 / 100.0;
    let v = amount as f64 * (r + r / ((1.0 + r).powi(term as i32) - 1.0));
    v.ceil() as i32
}

#[test]
fn annuity_payment_values() {
    assert_eq!(monthly_payment(Money(120000), 12, 12), Some(Money(19373)));
    assert_eq!(monthly_payment(Money(1000), 0, 3), Some(Money(334)));
    assert_eq!(monthly_payment(Money(1000), 100, 1), Some(Money(2000)));
    assert_eq!(monthly_payment(Money(0), 5, 12), Some(Money(0)));
    assert_eq!(monthly_payment(Money(1000), 5, 0), None);
    assert_eq!(monthly_payment(Money(-1), 5, 3), None);
    assert_eq!(monthly_payment(Money(i32::MAX), 255, 1), None);
    for (amount, rate, term) in [(100000, 1, 24), (250000, 3, 36), (5000, 7, 6), (99999, 2, 120)] {
        let exact = monthly_payment(Money(amount), rate, term).unwrap().0;
        let approx = annuity_f64(amount, rate, term);
        assert!((exact - approx).abs() <= 1, "{} {} {}: {} vs {}", amount, rate, term, exact, approx);
    }
}

#[test]
fn month_difference_ignores_days() {
    assert_eq!(signed_month_difference(&ts(2024, 1, 31), &ts(2024, 2, 1)), 1);
    assert_eq!(signed_month_difference(&ts(2023, 11, 5), &ts(2025, 2, 1)), 15);
    assert_eq!(signed_month_difference(&ts(2025, 2, 1), &ts(2023, 11, 5)), -15);
    assert_eq!(signed_month_difference(&ts(2024, 3, 1), &ts(2024, 3, 31)), 0);
}

fn deposit_end(start: Timestamp, months: u32) -> Result<Timestamp, BankError> {
    let mut s = funded_client(10);
    let req = DepositNewRequest { src_account: 1, interest_rate: 5, months_expires: months, amount: Money(1) };
    s.deposit_new(&req, &cli(), UserType::Client, DEFAULT_BIK, &start)?;
    Ok(s.deposits_get(&cli(), UserType::Client, DEFAULT_BIK).ok().unwrap()[0].end_date)
}

#[test]
fn deposit_end_date_clamps_the_day() {
    assert_eq!(deposit_end(ts(2024, 1, 31), 1), Ok(ts(2024, 2, 29)));
    assert_eq!(deposit_end(ts(2023, 1, 31), 1), Ok(ts(2023, 2, 28)));
    assert_eq!(deposit_end(ts(2024, 11, 15), 3), Ok(ts(2025, 2, 15)));
    assert_eq!(deposit_end(ts(2024, 5, 15), 0), Ok(ts(2024, 5, 15)));
    assert_eq!(deposit_end(ts(262142, 12, 1), 1), Err(BankError::DateOutOfRange));
}

#[test]
fn timestamp_order() {
    assert!(ts(2024, 1, 31).is_before(&ts(2024, 2, 1)));
    assert!(!ts(2024, 2, 1).is_before(&ts(2024, 2, 1)));
    let early = Timestamp { year: 2024, month: 2, day: 1, secs: 10 };
    assert!(early.is_before(&ts(2024, 2, 1)));
}

#[test]
fn compound_interest_values() {
    assert_eq!(compound_amount(10000, 5, 1), 10041);
    assert_eq!(compound_amount(10000, 5, 0), 10000);
    assert_eq!(compound_amount(10000, 5, 2), 10083);
    assert_eq!(compound_amount(100000, 12, 12), 112682);
    assert_eq!(compound_amount(1, 5, 10000), i32::MAX);
    assert_eq!(compound_amount(10000, 0, 12), 10000);
    assert_eq!(compound_amount(i32::MAX - 1, 5, 3), i32::MAX);
}

#[test]
fn credit_term_months() {
    assert_eq!(CreditTerm::M3.months(), 3);
    assert_eq!(CreditTerm::M6.months(), 6);
    assert_eq!(CreditTerm::M12.months(), 12);
    assert_eq!(CreditTerm::M24.months(), 24);
    assert_eq!(CreditTerm::MG24(36).months(), 36);
    assert_eq!(CreditTerm::M3.to_string(), "3 months");
    assert_eq!(CreditTerm::M24.to_string(), "24 months");
    assert_eq!(CreditTerm::MG24(36).to_string(), "custom");
}

#[test]
fn deposit_scenario_one_month() {
    let mut s = funded_client(10000);
    assert_eq!(balance(&s, 1), 11334);
    let start = ts(2024, 1, 15);
    let req = DepositNewRequest { src_account: 1, interest_rate: 5, months_expires: 1, amount: Money(10000) };
    assert_eq!(s.deposit_new(&req, &cli(), UserType::Client, DEFAULT_BIK, &start), Ok(()));
    assert_eq!(balance(&s, 1), 1334);
    let ds = s.deposits_get(&cli(), UserType::Client, DEFAULT_BIK).ok().unwrap();
    assert_eq!(ds.len(), 1);
    assert_eq!(ds[0].interest_rate, DEPOSIT_INTEREST_RATE);
    assert_eq!(ds[0].end_date, ts(2024, 2, 15));

    let now = ts(2024, 2, 15);
    s.update(&now);
    let ds = s.deposits_get(&cli(), UserType::Client, DEFAULT_BIK).ok().unwrap();
    assert_eq!(ds[0].current_amount, Money(10041));
    assert_eq!(ds[0].last_update, ts(2024, 2, 15));

    let w = DepositWithdrawRequest { deposit_idx: 0, dst_account: 1 };
    assert_eq!(s.deposit_withdraw(&w, &cli(), UserType::Client, DEFAULT_BIK, &now), Ok(Money(10041)));
    assert_eq!(balance(&s, 1), 1334 + 10041);
    let last = *s.transactions_get().last().unwrap();
    assert_eq!(last, Transaction { src: TransactionEndPoint::null(), dst: ep(1), amount: Money(10041) });
    assert_eq!(s.deposit_withdraw(&w, &cli(), UserType::Client, DEFAULT_BIK, &now), Err(BankError::IndexOutOfRange));
}

#[test]
fn deposit_before_maturity_is_refused() {
    let mut s = funded_client(10000);
    let req = DepositNewRequest { src_account: 1, interest_rate: 5, months_expires: 3, amount: Money(5000) };
    s.deposit_new(&req, &cli(), UserType::Client, DEFAULT_BIK, &ts(2024, 1, 15)).unwrap();
    let w = DepositWithdrawRequest { deposit_idx: 0, dst_account: 1 };
    let early = Timestamp { year: 2024, month: 4, day: 15, secs: 12 * 3600 - 1 };
    assert_eq!(s.deposit_withdraw(&w, &cli(), UserType::Client, DEFAULT_BIK, &early), Err(BankError::DepositNotMatured));
    assert_eq!(s.deposits_get(&cli(), UserType::Client, DEFAULT_BIK).ok().unwrap().len(), 1);
    assert!(s.deposit_withdraw(&w, &cli(), UserType::Client, DEFAULT_BIK, &ts(2024, 4, 15)).is_ok());
}

#[test]
fn deposit_stops_accruing_at_end_date() {
    let mut s = funded_client(10000);
    let req = DepositNewRequest { src_account: 1, interest_rate: 5, months_expires: 2, amount: Money(10000) };
    s.deposit_new(&req, &cli(), UserType::Client, DEFAULT_BIK, &ts(2024, 1, 15)).unwrap();
    s.update(&ts(2024, 7, 1));
    let ds = s.deposits_get(&cli(), UserType::Client, DEFAULT_BIK).ok().unwrap();
    assert_eq!(ds[0].current_amount, Money(10083));
    assert_eq!(ds[0].last_update, ts(2024, 3, 15));
    s.update(&ts(2025, 7, 1));
    let ds2 = s.deposits_get(&cli(), UserType::Client, DEFAULT_BIK).ok().unwrap();
    assert_eq!(ds2[0].current_amount, Money(10083));
}

#[test]
fn deposit_accrual_skips_a_clock_behind_the_last_update() {
    let mut s = funded_client(10000);
    let req = DepositNewRequest { src_account: 1, interest_rate: 5, months_expires: 6, amount: Money(10000) };
    s.deposit_new(&req, &cli(), UserType::Client, DEFAULT_BIK, &ts(2024, 5, 15)).unwrap();
    s.update(&ts(2024, 1, 1));
    let ds = s.deposits_get(&cli(), UserType::Client, DEFAULT_BIK).ok().unwrap();
    assert_eq!(ds[0].current_amount, Money(10000));
    assert_eq!(ds[0].last_update, ts(2024, 5, 15));
}

#[test]
fn deposit_new_errors() {
    let mut s = funded_client(100);
    let now = ts(2024, 1, 15);
    let too_much = DepositNewRequest { src_account: 1, interest_rate: 5, months_expires: 1, amount: Money(5000) };
    assert_eq!(s.deposit_new(&too_much, &cli(), UserType::Client, DEFAULT_BIK, &now), Err(BankError::InsufficientFunds));
    let foreign = DepositNewRequest { src_account: 2, interest_rate: 5, months_expires: 1, amount: Money(5) };
    assert_eq!(s.deposit_new(&foreign, &cli(), UserType::Client, DEFAULT_BIK, &now), Err(BankError::AccountOwnershipMismatch));
    let far = DepositNewRequest { src_account: 1, interest_rate: 5, months_expires: u32::MAX, amount: Money(5) };
    assert_eq!(s.deposit_new(&far, &cli(), UserType::Client, DEFAULT_BIK, &now), Err(BankError::DateOutOfRange));
    let ok = DepositNewRequest { src_account: 1, interest_rate: 5, months_expires: 1, amount: Money(5) };
    assert_eq!(s.deposit_new(&ok, &cli(), UserType::Operator, DEFAULT_BIK, &now), Err(BankError::Unauthorized));
    assert_eq!(s.deposit_new(&ok, &cli(), UserType::Client, 1, &now), Err(BankError::BankNotFound));
    assert!(s.deposits_get(&cli(), UserType::Client, DEFAULT_BIK).ok().unwrap().is_empty());
}

#[test]
fn credit_scenario_twelve_payments() {
    let mut s = BankService::new();
    s.account_open(&cli(), UserType::Client, DEFAULT_BIK).ok().unwrap();
    let params = CreditParams { src_account: 1, interest_rate: 12, term: 12, amount: Money(120000) };
    assert_eq!(s.credit_new(&params, &cli(), UserType::Client, DEFAULT_BIK), Ok(()));
    let pending = s.credit_get_unaccepted(UserType::Manager, DEFAULT_BIK).ok().unwrap();
    assert_eq!(pending.len(), 1);
    assert_eq!(pending[0].params.amount, Money(120000));
    let accepted_at = ts(2024, 1, 10);
    assert_eq!(s.credit_accept(&CreditAcceptRequest { idx: 0 }, UserType::Manager, DEFAULT_BIK, &accepted_at), Ok(()));
    assert_eq!(balance(&s, 1), 1334 + 120000);
    assert!(s.credit_get_unaccepted(UserType::Manager, DEFAULT_BIK).ok().unwrap().is_empty());
    let credits = s.credit_get(&cli(), UserType::Client, DEFAULT_BIK).ok().unwrap();
    assert_eq!(credits.len(), 1);
    assert_eq!(credits[0].first_pay, ts(2024, 2, 10));
    assert_eq!(credits[0].last_pay, ts(2024, 2, 10));

    let base = s.transactions_get().len();
    for pass in 1..=13 {
        let month = 2 + pass;
        let when = ts(2024 + (month - 1) / 12, ((month - 1) % 12 + 1) as u32, 10);
        s.update(&when);
        let posted = s.transactions_get().len() - base;
        assert_eq!(posted, pass.min(12) as usize);
    }
    let credits = s.credit_get(&cli(), UserType::Client, DEFAULT_BIK).ok().unwrap();
    assert_eq!(credits[0].monthly_pay, Money(19373));
    assert_eq!(credits[0].last_pay, ts(2025, 2, 10));
    assert_eq!(balance(&s, 1), 1334 + 120000 - 12 * 19373);
    let last = *s.transactions_get().last().unwrap();
    assert_eq!(last, Transaction { src: ep(1), dst: TransactionEndPoint::null(), amount: Money(19373) });
}

#[test]
fn credit_catches_up_missed_months_in_one_payment() {
    let mut c = Credit {
        owner: cli(),
        params: CreditParams { src_account: 1, interest_rate: 12, term: 3, amount: Money(300) },
        monthly_pay: Money(125),
        first_pay: ts(2024, 2, 10),
        last_pay: ts(2024, 2, 10),
    };
    let t = accrue_credit(&mut c, &ts(2024, 9, 1), 42).unwrap();
    assert_eq!(t.amount, Money(375));
    assert_eq!(t.src, TransactionEndPoint { bik: 42, account_id: 1 });
    assert_eq!(c.last_pay, ts(2024, 5, 10));
    assert_eq!(accrue_credit(&mut c, &ts(2025, 9, 1), 42), None);
}

#[test]
fn credit_accept_errors() {
    let mut s = BankService::new();
    s.account_open(&cli(), UserType::Client, DEFAULT_BIK).ok().unwrap();
    let params = CreditParams { src_account: 1, interest_rate: 12, term: 12, amount: Money(1000) };
    assert_eq!(s.credit_new(&params, &cli(), UserType::Manager, DEFAULT_BIK), Err(BankError::Unauthorized));
    let foreign = CreditParams { src_account: 3, interest_rate: 12, term: 12, amount: Money(1000) };
    assert_eq!(s.credit_new(&foreign, &cli(), UserType::Client, DEFAULT_BIK), Err(BankError::AccountOwnershipMismatch));
    s.credit_new(&params, &cli(), UserType::Client, DEFAULT_BIK).unwrap();
    let now = ts(2024, 1, 1);
    let req = CreditAcceptRequest { idx: 1 };
    assert_eq!(s.credit_accept(&req, UserType::Manager, DEFAULT_BIK, &now), Err(BankError::IndexOutOfRange));
    let req = CreditAcceptRequest { idx: 0 };
    assert_eq!(s.credit_accept(&req, UserType::Client, DEFAULT_BIK, &now), Err(BankError::Unauthorized));
    assert_eq!(s.credit_accept(&req, UserType::Manager, 5, &now), Err(BankError::BankNotFound));
    for (amount, rate, term, expected) in [
        (0, 12, 12, BankError::InvalidAmount),
        (1000, 12, 0, BankError::InvalidAmount),
        (i32::MAX, 255, 1, BankError::AmountOverflow),
        (1 << 30, 1, 200, BankError::AmountOverflow),
    ] {
        let mut t = BankService::new();
        t.account_open(&cli(), UserType::Client, DEFAULT_BIK).ok().unwrap();
        let p = CreditParams { src_account: 1, interest_rate: rate, term, amount: Money(amount) };
        t.credit_new(&p, &cli(), UserType::Client, DEFAULT_BIK).unwrap();
        assert_eq!(t.credit_accept(&req, UserType::Manager, DEFAULT_BIK, &now), Err(expected));
        assert_eq!(t.credit_get_unaccepted(UserType::Manager, DEFAULT_BIK).ok().unwrap().len(), 1);
    }
    assert_eq!(s.credit_get_unaccepted(UserType::Manager, DEFAULT_BIK).ok().unwrap().len(), 1);
}

#[test]
fn credit_accept_swap_removes() {
    let mut s = BankService::new();
    s.account_open(&cli(), UserType::Client, DEFAULT_BIK).ok().unwrap();
    for amount in [100, 200, 300] {
        let p = CreditParams { src_account: 1, interest_rate: 1, term: 3, amount: Money(amount) };
        s.credit_new(&p, &cli(), UserType::Client, DEFAULT_BIK).unwrap();
    }
    s.credit_accept(&CreditAcceptRequest { idx: 0 }, UserType::Manager, DEFAULT_BIK, &ts(2024, 1, 1)).unwrap();
    let left: Vec<i32> = s.credit_get_unaccepted(UserType::Manager, DEFAULT_BIK).ok().unwrap().iter().map(|c| c.params.amount.0).collect();
    assert_eq!(left, vec![300, 200]);
}

#[test]
fn credit_accept_at_the_end_of_the_calendar() {
    let mut s = BankService::new();
    s.account_open(&cli(), UserType::Client, DEFAULT_BIK).ok().unwrap();
    let p = CreditParams { src_account: 1, interest_rate: 1, term: 3, amount: Money(300) };
    s.credit_new(&p, &cli(), UserType::Client, DEFAULT_BIK).unwrap();
    let last_month = ts(262142, 12, 31);
    assert_eq!(
        s.credit_accept(&CreditAcceptRequest { idx: 0 }, UserType::Manager, DEFAULT_BIK, &last_month),
        Err(BankError::DateOutOfRange)
    );
    assert_eq!(balance(&s, 1), 1334);
}

#[test]
fn deposit_accrues_only_whole_months() {
    let mut s = funded_client(10000);
    let req = DepositNewRequest { src_account: 1, interest_rate: 5, months_expires: 5, amount: Money(10000) };
    s.deposit_new(&req, &cli(), UserType::Client, DEFAULT_BIK, &ts(2024, 1, 20)).unwrap();
    s.update(&ts(2024, 2, 10));
    let ds = s.deposits_get(&cli(), UserType::Client, DEFAULT_BIK).ok().unwrap();
    assert_eq!(ds[0].current_amount, Money(10000));
    assert_eq!(ds[0].last_update, ts(2024, 1, 20));
    s.update(&ts(2024, 3, 19));
    let ds = s.deposits_get(&cli(), UserType::Client, DEFAULT_BIK).ok().unwrap();
    assert_eq!(ds[0].current_amount, Money(10041));
    assert_eq!(ds[0].last_update, ts(2024, 2, 20));
}
