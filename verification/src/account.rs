use vstd::prelude::*;

use crate::model::AccountModel;

verus! {

/// Campaign metadata persisted in a ledger account: display name and
/// description written once at creation, the funding target, and the
/// derivation nonce of the owner binding.
pub struct FundData {
    pub name: String,
    pub description: String,
    pub target_fund: u64,
    pub bump: u8,
}

/// One ledger account: the address it was created at, its campaign metadata,
/// and the balance it custodies (the reserved floor included).
pub struct LedgerAccount {
    pub address: Vec<u8>,
    pub data: FundData,
    pub lamports: u64,
}

impl View for LedgerAccount {
    type V = AccountModel;

    open spec fn view(&self) -> AccountModel {
        AccountModel {
            address: self.address@,
            name: self.data.name@,
            description: self.data.description@,
            target_fund: self.data.target_fund,
            bump: self.data.bump,
            lamports: self.lamports,
        }
    }
}

} // verus!
