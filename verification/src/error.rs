//! The error kinds that every operation of the pool can report.

use vstd::prelude::*;

verus! {

/// Why an operation was refused. Every error leaves the state untouched.
#[derive(Clone, Copy, Debug, PartialEq, Eq, Structural)]
pub enum AmmError {
    /// The signer is not the authority that the operation requires.
    Unauthorized,
    /// A result left the representable range, or a divisor was zero.
    MathOverflow,
    /// An amount that must be positive was zero.
    ZeroAmount,
    /// One side of the first deposit was zero.
    ZeroInitialDeposit,
    /// The first deposit mints no more than the locked minimum.
    InsufficientInitialLiquidity,
    /// A computed amount is below the minimum that the caller accepts.
    SlippageExceeded,
    /// The operation would drain a side of the pool.
    InsufficientLiquidity,
    /// An invariant of the pool failed after the operation.
    InvariantViolation,
    /// The two mints are equal or not in canonical order.
    InvalidMintPair,
    /// The accounts handed in do not belong to the pool.
    WrongPool,
}

impl AmmError {
    /// The stable, machine-readable name of the error kind.
    pub fn name(&self) -> (s: &'static str)
        ensures
            s@ == Self::spec_name(*self),
    {
        match self {
            AmmError::Unauthorized => "Unauthorized",
            AmmError::MathOverflow => "MathOverflow",
            AmmError::ZeroAmount => "ZeroAmount",
            AmmError::ZeroInitialDeposit => "ZeroInitialDeposit",
            AmmError::InsufficientInitialLiquidity => "InsufficientInitialLiquidity",
            AmmError::SlippageExceeded => "SlippageExceeded",
            AmmError::InsufficientLiquidity => "InsufficientLiquidity",
            AmmError::InvariantViolation => "InvariantViolation",
            AmmError::InvalidMintPair => "InvalidMintPair",
            AmmError::WrongPool => "WrongPool",
        }
    }

    /// The name of each kind as a sequence of characters.
    pub open spec fn spec_name(e: AmmError) -> Seq<char> {
        match e {
            AmmError::Unauthorized => "Unauthorized"@,
            AmmError::MathOverflow => "MathOverflow"@,
            AmmError::ZeroAmount => "ZeroAmount"@,
            AmmError::ZeroInitialDeposit => "ZeroInitialDeposit"@,
            AmmError::InsufficientInitialLiquidity => "InsufficientInitialLiquidity"@,
            AmmError::SlippageExceeded => "SlippageExceeded"@,
            AmmError::InsufficientLiquidity => "InsufficientLiquidity"@,
            AmmError::InvariantViolation => "InvariantViolation"@,
            AmmError::InvalidMintPair => "InvalidMintPair"@,
            AmmError::WrongPool => "WrongPool"@,
        }
    }
}

} // verus!
