use vstd::prelude::*;

verus! {

/// Errors returned by the escrow ledger operations. Every failure leaves all
/// persistent state unchanged.
#[derive(Clone, Copy, Debug, PartialEq, Eq, Structural)]
pub enum FundMeErrors {
    /// A campaign target of zero was supplied at creation time.
    InvalidTarget,
    /// An account already exists at the address derived for this owner.
    AccountAlreadyExists,
    /// The contributor's balance cannot cover the contribution.
    InsufficientContributorBalance,
    /// The caller's identity does not match the account's owner binding.
    Unauthorized,
    /// The withdrawable surplus has not reached the campaign target.
    FundNotReachedYet,
    /// The surplus computation would go below zero (defensive; the store
    /// invariant keeps every balance at or above the reserved floor).
    ArithmeticUnderflow,
}

} // verus!
