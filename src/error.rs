//! Errors of the engine. Each one aborts the operation that met it.
use vstd::prelude::*;

verus! {

/// Why an operation was refused.
#[derive(Clone, Copy, Debug, PartialEq, Eq, Structural)]
pub enum QuidError {
    AdditionOverflow,
    SubtractionUnderflow,
    MultiplicationOverflow,
    DivisionOverflow,
    AmountTooLow,
    UpdateInProgress,
    BorrowBelowMinCr,
    BelowMinCr,
    InsufficientNear,
    InsufficientQd,
    NotLiquidatable,
    TooEarly,
    PledgeMissing,
    IllegalBorrow,
    NotEnoughBalance,
}

impl QuidError {
    /// The message that goes with the error.
    pub fn message(&self) -> &'static str {
        match self {
            QuidError::AdditionOverflow => "Addition overflow",
            QuidError::SubtractionUnderflow => "Subtraction underflow",
            QuidError::MultiplicationOverflow => "Multiplication overflow",
            QuidError::DivisionOverflow => "Division overflow",
            QuidError::AmountTooLow => "Amount must be larger than 0",
            QuidError::UpdateInProgress => "Update in progress",
            QuidError::BorrowBelowMinCr => "Cannot borrow while your current CR is below minimum",
            QuidError::BelowMinCr => "CR below min",
            QuidError::InsufficientNear => "Insufficient NEAR in the contract to clear this redemption",
            QuidError::InsufficientQd => "Insufficient QD in the contract to clear this inversion",
            QuidError::NotLiquidatable => "Borrower was not supposed to be liquidated",
            QuidError::TooEarly => "Too early to run an update, please wait",
            QuidError::PledgeMissing => "Pledge doesn't exist",
            QuidError::IllegalBorrow => "Illegal borrow attempt",
            QuidError::NotEnoughBalance => "The account doesn't have enough balance",
        }
    }
}

/// An error of arithmetic or of the ledger, as opposed to a refusal by a
/// rule of the protocol.
pub open spec fn is_arith(e: QuidError) -> bool {
    e == QuidError::AdditionOverflow || e == QuidError::SubtractionUnderflow
        || e == QuidError::MultiplicationOverflow || e == QuidError::DivisionOverflow
        || e == QuidError::NotEnoughBalance
}

/// `a + b`, or an error where it does not fit.
pub fn plus(a: u128, b: u128) -> (r: Result<u128, QuidError>)
    ensures
        r.is_ok() == (a + b <= u128::MAX),
        r.is_ok() ==> r.unwrap() == a + b,
        r.is_err() ==> r == Err::<u128, QuidError>(QuidError::AdditionOverflow),
{
    match a.checked_add(b) {
        Some(x) => Ok(x),
        None => Err(QuidError::AdditionOverflow),
    }
}

/// `a - b`, or an error where `b > a`.
pub fn minus(a: u128, b: u128) -> (r: Result<u128, QuidError>)
    ensures
        r.is_ok() == (b <= a),
        r.is_ok() ==> r.unwrap() == a - b,
        r.is_err() ==> r == Err::<u128, QuidError>(QuidError::SubtractionUnderflow),
{
    if b <= a {
        Ok(a - b)
    } else {
        Err(QuidError::SubtractionUnderflow)
    }
}

/// `a * b`, or an error where it does not fit.
pub fn times(a: u128, b: u128) -> (r: Result<u128, QuidError>)
    ensures
        r.is_ok() == (a * b <= u128::MAX),
        r.is_ok() ==> r.unwrap() == a * b,
        r.is_err() ==> r == Err::<u128, QuidError>(QuidError::MultiplicationOverflow),
{
    match a.checked_mul(b) {
        Some(x) => Ok(x),
        None => Err(QuidError::MultiplicationOverflow),
    }
}

/// `ratio(m, n, d)`, or an error where it is not defined.
pub fn ratio_checked(m: u128, n: u128, d: u128) -> (r: Result<u128, QuidError>)
    ensures
        r.is_ok() == crate::math::ratio_ok(m, n, d),
        r.is_ok() ==> r.unwrap() == crate::math::ratio_spec(m as int, n as int, d as int),
        r.is_err() ==> r == Err::<u128, QuidError>(QuidError::DivisionOverflow),
{
    match crate::math::checked_ratio(m, n, d) {
        Some(x) => Ok(x),
        None => Err(QuidError::DivisionOverflow),
    }
}

/// The collateralisation ratio, or an error where it cannot be computed.
pub fn cr_checked(price: u128, collat: u128, debt: u128, short: bool) -> (r: Result<u128, QuidError>)
    ensures
        r.is_ok() == crate::math::cr_ok(price, collat, debt, short),
        r.is_ok() ==> r.unwrap() == crate::math::cr_spec(price, collat, debt, short),
        r.is_err() ==> r == Err::<u128, QuidError>(QuidError::DivisionOverflow),
{
    match crate::math::checked_cr(price, collat, debt, short) {
        Some(x) => Ok(x),
        None => Err(QuidError::DivisionOverflow),
    }
}

} // verus!
