use vstd::prelude::*;

verus! {

/// Every way an engine operation can fail.
#[derive(Clone, Copy, Debug, PartialEq, Eq, Structural)]
pub enum BankError {
    /// The account does not exist in the named bank.
    InvalidAccount,
    /// The account is not in the caller's account index.
    AccountOwnershipMismatch,
    /// The account is frozen or blocked.
    AccountFrozenOrBlocked,
    /// The source balance is below the amount.
    InsufficientFunds,
    /// Non-positive amount, or a transfer from an account to itself.
    InvalidAmount,
    /// A resulting balance or amount does not fit the money range.
    AmountOverflow,
    /// No bank with the given identifier.
    BankNotFound,
    /// No queued item at the given index, or nothing to act on.
    IndexOutOfRange,
    /// A deposit was withdrawn before its end date.
    DepositNotMatured,
    /// The enterprise has no accepted salary project.
    PayrollProjectNotAccepted,
    /// The caller's role may not perform the operation.
    Unauthorized,
    /// The clock was asked to move to a time that is not after "now".
    ClockMovedBackward,
    /// The session token is unknown.
    TokenInvalid,
    /// The account still backs a credit request or an unpaid credit.
    AccountInUse,
    /// A date computation left the supported calendar range.
    DateOutOfRange,
}

} // verus!
