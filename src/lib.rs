//! Server-side financial state engine of a multi-bank ledger: accounts,
//! transfers, deposits, credits, payroll projects and a virtual clock.

pub mod money;
pub mod error;
pub mod time;
pub mod table;
pub mod types;
pub mod deposit;
pub mod credit;
pub mod salary;
pub mod ledger;
pub mod engine;
pub mod service;
pub mod laws;
pub mod bignum;
pub mod annuity;
