use bankcore::engine::{BankService, DEFAULT_BIK};
use bankcore::error::BankError;
use bankcore::money::Money;
use bankcore::salary::{SalaryAcceptProjRequest, SalaryAcceptRequest, SalaryClientRequest, SalaryInitProjRequest};
use bankcore::time::{TimeService, Timestamp};
use bankcore::types::{TransactionEndPoint, UserType};

fn ts(year: i32, month: u32, day: u32, secs: u32) -> Timestamp {
    Timestamp { year, month, day, secs }
}

fn s(x: &str) -> String {
    x.to_string()
}

fn request(client: &str, account_id: u64) -> SalaryClientRequest {
    SalaryClientRequest {
        enterprise_name: s("acme"),
        client_login: s(client),
        account: TransactionEndPoint { bik: DEFAULT_BIK, account_id },
    }
}

fn engine_with_clients() -> BankService {
    let mut e = BankService::new();
    e.account_open(&s("ann"), UserType::Client, DEFAULT_BIK).ok().unwrap();
    e.account_open(&s("bob"), UserType::Client, DEFAULT_BIK).ok().unwrap();
    e.account_open(&s("acme"), UserType::EnterpriseSpecialist, DEFAULT_BIK).ok().unwrap();
    e
}

#[test]
fn salary_request_checks_caller() {
    let mut e = engine_with_clients();
    assert_eq!(e.salary_request(request("ann", 1), &s("bob"), UserType::Client), Err(BankError::Unauthorized));
    assert_eq!(e.salary_request(request("ann", 2), &s("ann"), UserType::Client), Err(BankError::AccountOwnershipMismatch));
    let mut bad_bank = request("ann", 1);
    bad_bank.account.bik = 99;
    assert_eq!(e.salary_request(bad_bank, &s("ann"), UserType::Client), Err(BankError::BankNotFound));
    assert_eq!(e.salary_accept_decline_get(&s("acme"), UserType::EnterpriseSpecialist).err(), Some(BankError::IndexOutOfRange));
}

#[test]
fn payroll_workflow() {
    let mut e = engine_with_clients();
    e.salary_request(request("ann", 1), &s("ann"), UserType::Client).unwrap();
    e.salary_request(request("bob", 2), &s("bob"), UserType::Client).unwrap();
    let pending = e.salary_accept_decline_get(&s("acme"), UserType::EnterpriseSpecialist).ok().unwrap();
    assert_eq!(pending.len(), 2);
    assert_eq!(pending[0].client_login, "ann");

    let accept_first = SalaryAcceptRequest { idx: 0, accept: true, salary: Money(90000) };
    assert_eq!(
        e.salary_accept_decline(&accept_first, &s("acme"), UserType::EnterpriseSpecialist),
        Err(BankError::PayrollProjectNotAccepted)
    );
    let proj = SalaryInitProjRequest { account: TransactionEndPoint { bik: DEFAULT_BIK, account_id: 3 } };
    assert_eq!(e.init_salary_proj(&proj, &s("acme"), UserType::Client), Err(BankError::Unauthorized));
    e.init_salary_proj(&proj, &s("acme"), UserType::EnterpriseSpecialist).unwrap();
    assert_eq!(
        e.salary_accept_decline(&accept_first, &s("acme"), UserType::EnterpriseSpecialist),
        Err(BankError::PayrollProjectNotAccepted)
    );
    let approve = SalaryAcceptProjRequest { enterprise: s("acme") };
    assert_eq!(e.accept_salary_proj(&approve, UserType::Manager), Err(BankError::Unauthorized));
    e.accept_salary_proj(&approve, UserType::Operator).unwrap();
    let unknown = SalaryAcceptProjRequest { enterprise: s("nobody") };
    assert_eq!(e.accept_salary_proj(&unknown, UserType::Operator), Err(BankError::PayrollProjectNotAccepted));

    let out_of_range = SalaryAcceptRequest { idx: 2, accept: true, salary: Money(1) };
    assert_eq!(
        e.salary_accept_decline(&out_of_range, &s("acme"), UserType::EnterpriseSpecialist),
        Err(BankError::IndexOutOfRange)
    );
    e.salary_accept_decline(&accept_first, &s("acme"), UserType::EnterpriseSpecialist).unwrap();
    let pending = e.salary_accept_decline_get(&s("acme"), UserType::EnterpriseSpecialist).ok().unwrap();
    assert_eq!(pending.len(), 1);
    assert_eq!(pending[0].client_login, "bob");
    let decline = SalaryAcceptRequest { idx: 0, accept: false, salary: Money(0) };
    e.salary_accept_decline(&decline, &s("acme"), UserType::EnterpriseSpecialist).unwrap();

    let pos = e.salary.salary_projects.find(&s("acme")).unwrap();
    let project = &e.salary.salary_projects.entries[pos].value;
    assert!(project.accepted);
    assert_eq!(project.employees.len(), 1);
    assert_eq!(project.employees[0].login, "ann");
    assert_eq!(project.employees[0].salary, Money(90000));
    assert_eq!(e.salary_accept_decline_get(&s("acme"), UserType::EnterpriseSpecialist).err(), Some(BankError::IndexOutOfRange));
}

#[test]
fn reinitialising_a_project_starts_over() {
    let mut e = engine_with_clients();
    let proj = SalaryInitProjRequest { account: TransactionEndPoint { bik: DEFAULT_BIK, account_id: 3 } };
    e.init_salary_proj(&proj, &s("acme"), UserType::EnterpriseSpecialist).unwrap();
    e.accept_salary_proj(&SalaryAcceptProjRequest { enterprise: s("acme") }, UserType::Operator).unwrap();
    e.init_salary_proj(&proj, &s("acme"), UserType::EnterpriseSpecialist).unwrap();
    let pos = e.salary.salary_projects.find(&s("acme")).unwrap();
    assert!(!e.salary.salary_projects.entries[pos].value.accepted);
}

#[test]
fn clock_follows_real_time_until_set() {
    let anchor = ts(2024, 1, 1, 0);
    let clock = TimeService::anchored_at(anchor);
    let actual = ts(2024, 1, 1, 300);
    assert_eq!(clock.time_at(&actual), Some(actual));
}

#[test]
fn clock_advance_adds_elapsed_real_time() {
    let mut clock = TimeService::anchored_at(ts(2024, 1, 1, 0));
    let real = ts(2024, 1, 1, 100);
    assert_eq!(clock.advance_at(&ts(2030, 6, 1, 0), &real), Ok(()));
    assert_eq!(clock.time_at(&real), Some(ts(2030, 6, 1, 0)));
    let later = ts(2024, 1, 2, 160);
    assert_eq!(clock.time_at(&later), Some(ts(2030, 6, 2, 60)));
}

#[test]
fn clock_refuses_to_move_backward() {
    let mut clock = TimeService::anchored_at(ts(2024, 1, 1, 0));
    let real = ts(2024, 3, 1, 0);
    assert_eq!(clock.advance_at(&ts(2024, 2, 1, 0), &real), Err(BankError::ClockMovedBackward));
    assert_eq!(clock.advance_at(&ts(2024, 3, 1, 0), &real), Err(BankError::ClockMovedBackward));
    assert_eq!(clock.virtual_time, None);
    assert_eq!(clock.advance_at(&ts(2024, 3, 1, 1), &real), Ok(()));
    assert_eq!(clock.advance_at(&ts(2024, 3, 1, 1), &real), Err(BankError::ClockMovedBackward));
}

#[test]
fn clock_reads_the_wall_clock() {
    let clock = TimeService::new();
    let now = clock.get_time().unwrap();
    assert!(now.year >= 2024);
    assert!(clock.real_time.is_before(&now) || clock.real_time == now);
}

#[test]
fn clock_past_the_calendar_has_no_now() {
    let mut clock = TimeService::anchored_at(ts(2024, 1, 1, 0));
    let real = ts(2024, 1, 1, 0);
    assert_eq!(clock.advance_at(&ts(262142, 12, 31, 86399), &real), Ok(()));
    assert_eq!(clock.time_at(&ts(2024, 1, 2, 0)), None);
}

#[test]
fn virtual_clock_refuses_to_move_backward() {
    let mut clock = TimeService::anchored_at(ts(2024, 1, 1, 0));
    let real = ts(2024, 1, 1, 0);
    clock.advance_at(&ts(2030, 1, 1, 0), &real).unwrap();
    let later = ts(2024, 1, 1, 3600);
    assert_eq!(clock.time_at(&later), Some(ts(2030, 1, 1, 3600)));
    assert_eq!(clock.advance_at(&ts(2030, 1, 1, 3600), &later), Err(BankError::ClockMovedBackward));
    assert_eq!(clock.advance_at(&ts(2030, 1, 1, 3601), &later), Ok(()));
    assert_eq!(clock.time_at(&later), Some(ts(2030, 1, 1, 3601)));
}
