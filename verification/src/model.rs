use vstd::prelude::*;

use crate::addressing::spec_derive;
use crate::errors::FundMeErrors;

verus! {

/// Mathematical model of one ledger account: its derived address, the
/// campaign metadata written at creation, the derivation nonce, and the
/// custodied balance (the reserved floor included).
#[verifier::ext_equal]
pub ghost struct AccountModel {
    pub address: Seq<u8>,
    pub name: Seq<char>,
    pub description: Seq<char>,
    pub target_fund: u64,
    pub bump: u8,
    pub lamports: u64,
}

/// Mathematical model of the host's account store: every ledger account that
/// exists, and the reserved minimum balance the host demands of each.
#[verifier::ext_equal]
pub ghost struct StoreModel {
    pub accounts: Seq<AccountModel>,
    pub reserved_floor: u64,
}

/// `acc` with its balance replaced by `lamports` and every other field kept.
pub open spec fn with_balance(acc: AccountModel, lamports: u64) -> AccountModel {
    AccountModel {
        address: acc.address,
        name: acc.name,
        description: acc.description,
        target_fund: acc.target_fund,
        bump: acc.bump,
        lamports,
    }
}

/// The caller's identity derives exactly the stored binding of the account:
/// the account's address with the account's nonce.
pub open spec fn authorized(caller: Seq<u8>, acc: AccountModel) -> bool {
    spec_derive(caller) == Some((acc.address, acc.bump))
}

/// Balance above the reserved floor; zero when the balance does not reach the
/// floor.
pub open spec fn surplus_of(lamports: u64, floor: u64) -> u64 {
    if lamports >= floor {
        (lamports - floor) as u64
    } else {
        0
    }
}

impl StoreModel {
    /// Some account exists at address `a`.
    pub open spec fn has_addr(self, a: Seq<u8>) -> bool {
        exists|i: int| 0 <= i < self.accounts.len() && self.accounts[i].address == a
    }

    /// Index of the account at address `a` (meaningful when `has_addr(a)`).
    pub open spec fn idx_of(self, a: Seq<u8>) -> int {
        choose|i: int| 0 <= i < self.accounts.len() && self.accounts[i].address == a
    }

    /// The account at address `a` (meaningful when `has_addr(a)`).
    pub open spec fn account_at(self, a: Seq<u8>) -> AccountModel {
        self.accounts[self.idx_of(a)]
    }

    /// Store invariant: addresses are unique, every target is positive, and no
    /// balance is below the reserved floor.
    pub open spec fn wf(self) -> bool {
        &&& forall|i: int, j: int|
            0 <= i < self.accounts.len() && 0 <= j < self.accounts.len() && i != j
                ==> #[trigger] self.accounts[i].address != #[trigger] self.accounts[j].address
        &&& forall|i: int|
            0 <= i < self.accounts.len() ==> (#[trigger] self.accounts[i]).target_fund > 0
                && self.accounts[i].lamports >= self.reserved_floor
    }

    /// The store with the balance of the account at `a` replaced by
    /// `lamports`.
    pub open spec fn with_lamports(self, a: Seq<u8>, lamports: u64) -> StoreModel {
        StoreModel {
            accounts: self.accounts.update(
                self.idx_of(a),
                with_balance(self.account_at(a), lamports),
            ),
            reserved_floor: self.reserved_floor,
        }
    }

    /// Campaign initializer: rejects a zero target, refuses to overwrite an
    /// account that already exists at the derived address, and otherwise
    /// creates the account with the given metadata and the derivation nonce,
    /// its balance equal to the reserved floor, which the owner's wallet pays
    /// as the creation cost. On either error the wallet is untouched.
    /// Meaningful when, on the creation path, the wallet covers the floor.
    pub open spec fn init_step(
        self,
        address: Seq<u8>,
        bump: u8,
        name: Seq<char>,
        description: Seq<char>,
        target_fund: u64,
        payer: u64,
    ) -> (StoreModel, u64, Result<(), FundMeErrors>) {
        if target_fund == 0 {
            (self, payer, Err(FundMeErrors::InvalidTarget))
        } else if self.has_addr(address) {
            (self, payer, Err(FundMeErrors::AccountAlreadyExists))
        } else {
            (
                StoreModel {
                    accounts: self.accounts.push(
                        AccountModel {
                            address,
                            name,
                            description,
                            target_fund,
                            bump,
                            lamports: self.reserved_floor,
                        },
                    ),
                    reserved_floor: self.reserved_floor,
                },
                (payer - self.reserved_floor) as u64,
                Ok(()),
            )
        }
    }

    /// Contribution processor: moves `amount` from the contributor's wallet
    /// into the account at `a`, all or nothing. Meaningful when `has_addr(a)`.
    pub open spec fn fund_step(self, contributor: u64, a: Seq<u8>, amount: u64) -> (
        StoreModel,
        u64,
        Result<(), FundMeErrors>,
    ) {
        if contributor < amount {
            (self, contributor, Err(FundMeErrors::InsufficientContributorBalance))
        } else {
            (
                self.with_lamports(a, (self.account_at(a).lamports + amount) as u64),
                (contributor - amount) as u64,
                Ok(()),
            )
        }
    }

    /// Withdrawal processor: re-validates the caller's binding, computes the
    /// surplus above the reserved floor, enforces the target guard, and moves
    /// exactly the surplus to the caller's wallet, all or nothing. Meaningful
    /// when `has_addr(a)`.
    pub open spec fn withdraw_step(self, a: Seq<u8>, caller: Seq<u8>, wallet: u64) -> (
        StoreModel,
        u64,
        Result<(), FundMeErrors>,
    ) {
        let acc = self.account_at(a);
        if !authorized(caller, acc) {
            (self, wallet, Err(FundMeErrors::Unauthorized))
        } else {
            let surplus = surplus_of(acc.lamports, self.reserved_floor);
            if surplus < acc.target_fund {
                (self, wallet, Err(FundMeErrors::FundNotReachedYet))
            } else {
                (
                    self.with_lamports(a, (acc.lamports - surplus) as u64),
                    (wallet + surplus) as u64,
                    Ok(()),
                )
            }
        }
    }
}

/// Replacing one account's balance touches nothing else: the set of
/// addresses, every other account, and the floor are unchanged, and the store
/// stays well formed as long as the new balance is not below the floor.
pub proof fn lemma_with_lamports(s: StoreModel, a: Seq<u8>, l: u64)
    requires
        s.wf(),
        s.has_addr(a),
    ensures
        ({
            let s1 = s.with_lamports(a, l);
            &&& s1.reserved_floor == s.reserved_floor
            &&& s1.accounts.len() == s.accounts.len()
            &&& s1.has_addr(a)
            &&& s1.idx_of(a) == s.idx_of(a)
            &&& s1.account_at(a) == with_balance(s.account_at(a), l)
            &&& forall|b: Seq<u8>| #[trigger] s1.has_addr(b) <==> s.has_addr(b)
            &&& forall|b: Seq<u8>|
                b != a && s.has_addr(b) ==> #[trigger] s1.account_at(b) == s.account_at(b)
            &&& (l >= s.reserved_floor ==> s1.wf())
        }),
{
    let s1 = s.with_lamports(a, l);
    let i = s.idx_of(a);
    assert(0 <= i < s.accounts.len() && s.accounts[i].address == a);
    assert(forall|k: int|
        0 <= k < s1.accounts.len() ==> #[trigger] s1.accounts[k].address == s.accounts[k].address);
    assert(s1.has_addr(a)) by {
        assert(s1.accounts[i].address == a);
    }
    assert(s1.idx_of(a) == i) by {
        let j = s1.idx_of(a);
        assert(0 <= j < s1.accounts.len() && s1.accounts[j].address == a);
        if j != i {
            assert(s.accounts[j].address != s.accounts[i].address);
        }
    }
    assert forall|b: Seq<u8>| #[trigger] s1.has_addr(b) <==> s.has_addr(b) by {
        if s.has_addr(b) {
            let k = s.idx_of(b);
            assert(s1.accounts[k].address == b);
        }
        if s1.has_addr(b) {
            let k = choose|k: int|
                0 <= k < s1.accounts.len() && s1.accounts[k].address == b;
            assert(s.accounts[k].address == b);
        }
    }
    assert forall|b: Seq<u8>| b != a && s.has_addr(b) implies #[trigger] s1.account_at(b)
        == s.account_at(b) by {
        let k = s.idx_of(b);
        assert(0 <= k < s.accounts.len() && s.accounts[k].address == b);
        assert(s1.idx_of(b) == k) by {
            assert(s1.accounts[k].address == b);
            let j = s1.idx_of(b);
            assert(0 <= j < s1.accounts.len() && s1.accounts[j].address == b);
            if j != k {
                assert(s.accounts[j].address != s.accounts[k].address);
            }
        }
        assert(k != i);
    }
    if l >= s.reserved_floor {
        assert(s1.wf()) by {
            assert(forall|k: int|
                0 <= k < s1.accounts.len() ==> (#[trigger] s1.accounts[k]).target_fund > 0
                    && s1.accounts[k].lamports >= s1.reserved_floor) by {
                assert(forall|k: int|
                    0 <= k < s1.accounts.len() && k != i ==> s1.accounts[k]
                        == s.accounts[k]);
            }
        }
    }
}

/// The initializer keeps the store well formed, whatever it returns.
pub proof fn lemma_init_step_wf(
    s: StoreModel,
    address: Seq<u8>,
    bump: u8,
    name: Seq<char>,
    description: Seq<char>,
    target_fund: u64,
    payer: u64,
)
    requires
        s.wf(),
    ensures
        s.init_step(address, bump, name, description, target_fund, payer).0.wf(),
{
    let s1 = s.init_step(address, bump, name, description, target_fund, payer).0;
    if target_fund != 0 && !s.has_addr(address) {
        let n = s.accounts.len() as int;
        assert forall|i: int, j: int|
            0 <= i < s1.accounts.len() && 0 <= j < s1.accounts.len() && i != j
            implies #[trigger] s1.accounts[i].address != #[trigger] s1.accounts[j].address by {
            if i < n && j < n {
                assert(s.accounts[i].address != s.accounts[j].address);
            } else if i < n && j == n {
                if s.accounts[i].address == address {
                    assert(s.has_addr(address)) by {
                        assert(s.accounts[i].address == address);
                    }
                }
            } else if j < n && i == n {
                if s.accounts[j].address == address {
                    assert(s.has_addr(address)) by {
                        assert(s.accounts[j].address == address);
                    }
                }
            }
        }
    }
}

/// In a well-formed store, the account found at any index is the account that
/// lookup by its address returns.
pub proof fn lemma_idx_of(s: StoreModel, i: int)
    requires
        s.wf(),
        0 <= i < s.accounts.len(),
    ensures
        s.has_addr(s.accounts[i].address),
        s.idx_of(s.accounts[i].address) == i,
        s.account_at(s.accounts[i].address) == s.accounts[i],
{
    let a = s.accounts[i].address;
    assert(s.has_addr(a)) by {
        assert(0 <= i < s.accounts.len() && s.accounts[i].address == a);
    }
    let j = s.idx_of(a);
    assert(0 <= j < s.accounts.len() && s.accounts[j].address == a);
    if i != j {
        assert(s.accounts[i].address != s.accounts[j].address);
    }
}

} // verus!
