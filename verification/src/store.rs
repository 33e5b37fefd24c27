use vstd::prelude::*;

use crate::account::FundData;
use crate::account::LedgerAccount;
use crate::addressing::bytes_eq;
use crate::addressing::derive_address;
use crate::addressing::spec_derive;
use crate::errors::FundMeErrors;
use crate::model::authorized;
use crate::model::lemma_idx_of;
use crate::model::lemma_init_step_wf;
use crate::model::lemma_with_lamports;
use crate::model::surplus_of;
use crate::model::AccountModel;
use crate::model::StoreModel;

verus! {

/// The host's account store, modelled explicitly so the ledger logic is
/// checkable without a real host: the ledger accounts that exist, and the
/// reserved minimum balance the host demands to keep each of them alive.
pub struct AccountStore {
    pub accounts: Vec<LedgerAccount>,
    pub reserved_floor: u64,
}

impl View for AccountStore {
    type V = StoreModel;

    open spec fn view(&self) -> StoreModel {
        StoreModel {
            accounts: self.accounts@.map_values(|a: LedgerAccount| a@),
            reserved_floor: self.reserved_floor,
        }
    }
}

impl AccountStore {
    /// The store invariant holds of the model.
    pub open spec fn wf(&self) -> bool {
        self@.wf()
    }

    /// An empty store whose host charges `reserved_floor` per account.
    pub fn new(reserved_floor: u64) -> (r: AccountStore)
        ensures
            r.wf(),
            r@.accounts == Seq::<AccountModel>::empty(),
            r@.reserved_floor == reserved_floor,
    {
        let r = AccountStore { accounts: Vec::new(), reserved_floor };
        proof {
            assert(r@.accounts =~= Seq::<AccountModel>::empty());
        }
        r
    }

    /// Position of the account at `address`, if one exists.
    fn find_index(&self, address: &[u8]) -> (r: Option<usize>)
        ensures
            match r {
                Some(i) => i < self@.accounts.len() && self@.accounts[i as int].address
                    == address@,
                None => !self@.has_addr(address@),
            },
    {
        let mut i: usize = 0;
        while i < self.accounts.len()
            invariant
                i <= self@.accounts.len(),
                self@.accounts.len() == self.accounts@.len(),
                forall|j: int| 0 <= j < i ==> #[trigger] self@.accounts[j].address != address@,
            decreases self@.accounts.len() - i,
        {
            if bytes_eq(self.accounts[i].address.as_slice(), address) {
                return Some(i);
            }
            i += 1;
        }
        None
    }

    /// Campaign initializer: derives the ledger account address bound to
    /// `owner`, rejects a zero target with `InvalidTarget`, refuses to
    /// overwrite an existing account with `AccountAlreadyExists`, and
    /// otherwise creates the account with the given metadata and the
    /// derivation nonce, its balance equal to the reserved floor, paid out of
    /// the owner's wallet as the creation cost. On any error the store and
    /// the wallet are unchanged; the wallet must cover the floor only on the
    /// creation path.
    pub fn initialize(
        &mut self,
        owner: &[u8],
        name: String,
        description: String,
        target_fund: u64,
        owner_balance: &mut u64,
    ) -> (r: Result<(), FundMeErrors>)
        requires
            old(self).wf(),
            spec_derive(owner@) is Some,
            target_fund != 0 && !old(self)@.has_addr(spec_derive(owner@).unwrap().0) ==> *old(
                owner_balance,
            ) >= old(self)@.reserved_floor,
        ensures
            final(self).wf(),
            ({
                let (addr, bump) = spec_derive(owner@).unwrap();
                (final(self)@, *final(owner_balance), r) == old(self)@.init_step(
                    addr,
                    bump,
                    name@,
                    description@,
                    target_fund,
                    *old(owner_balance),
                )
            }),
    {
        proof {
            lemma_init_step_wf(
                old(self)@,
                spec_derive(owner@).unwrap().0,
                spec_derive(owner@).unwrap().1,
                name@,
                description@,
                target_fund,
                *old(owner_balance),
            );
        }
        if target_fund == 0 {
            return Err(FundMeErrors::InvalidTarget);
        }
        let (address, bump) = derive_address(owner).unwrap();
        match self.find_index(address.as_slice()) {
            Some(i) => {
                proof {
                    assert(self@.has_addr(address@)) by {
                        assert((i as int) < self@.accounts.len()
                            && self@.accounts[i as int].address == address@);
                    }
                }
                Err(FundMeErrors::AccountAlreadyExists)
            },
            None => {
                let lamports = self.reserved_floor;
                let account = LedgerAccount {
                    address,
                    data: FundData { name, description, target_fund, bump },
                    lamports,
                };
                self.accounts.push(account);
                *owner_balance = *owner_balance - lamports;
                proof {
                    let (addr, bump_s) = spec_derive(owner@).unwrap();
                    let expected = old(self)@.init_step(
                        addr,
                        bump_s,
                        name@,
                        description@,
                        target_fund,
                        *old(owner_balance),
                    ).0;
                    assert(self@.accounts =~= expected.accounts);
                }
                Ok(())
            },
        }
    }

    /// As `initialize`, but makes the derivation and the solvency test
    /// itself. `None`, with the store and the wallet unchanged, means the
    /// call was not attempted: either the host's addressing scheme admits no
    /// address for this owner, or the call would create the account and the
    /// owner's wallet cannot cover the creation cost. Otherwise the
    /// initializer's result comes back.
    pub fn try_initialize(
        &mut self,
        owner: &[u8],
        name: String,
        description: String,
        target_fund: u64,
        owner_balance: &mut u64,
    ) -> (r: Option<Result<(), FundMeErrors>>)
        requires
            old(self).wf(),
        ensures
            final(self).wf(),
            match r {
                Some(res) => spec_derive(owner@) is Some && ({
                    let (addr, bump) = spec_derive(owner@).unwrap();
                    (final(self)@, *final(owner_balance), res) == old(self)@.init_step(
                        addr,
                        bump,
                        name@,
                        description@,
                        target_fund,
                        *old(owner_balance),
                    )
                }),
                None => final(self)@ == old(self)@ && *final(owner_balance) == *old(
                    owner_balance,
                ) && (spec_derive(owner@) is None || (target_fund != 0 && !old(
                    self,
                )@.has_addr(spec_derive(owner@).unwrap().0) && *old(owner_balance) < old(
                    self,
                )@.reserved_floor)),
            },
    {
        match derive_address(owner) {
            Some(p) => {
                let (address, _bump) = p;
                if target_fund != 0 && !self.has_account(address.as_slice()) && *owner_balance
                    < self.reserved_floor {
                    return None;
                }
                Some(self.initialize(owner, name, description, target_fund, owner_balance))
            },
            None => None,
        }
    }

    /// Contribution processor: atomically moves `amount` from the
    /// contributor's wallet into the ledger account at `address` — either the
    /// full amount moves, or `InsufficientContributorBalance` comes back and
    /// nothing changes. Anyone may contribute; no authorization is checked.
    pub fn fund(
        &mut self,
        contributor_balance: &mut u64,
        address: &[u8],
        amount: u64,
    ) -> (r: Result<(), FundMeErrors>)
        requires
            old(self).wf(),
            old(self)@.has_addr(address@),
            *old(contributor_balance) >= amount ==> old(self)@.account_at(address@).lamports
                + amount <= u64::MAX,
        ensures
            final(self).wf(),
            (final(self)@, *final(contributor_balance), r) == old(self)@.fund_step(
                *old(contributor_balance),
                address@,
                amount,
            ),
    {
        let i: usize = self.find_index(address).unwrap();
        proof {
            lemma_idx_of(self@, i as int);
        }
        if *contributor_balance < amount {
            return Err(FundMeErrors::InsufficientContributorBalance);
        }
        let new_lamports: u64 = self.accounts[i].lamports + amount;
        self.accounts[i].lamports = new_lamports;
        *contributor_balance = *contributor_balance - amount;
        proof {
            lemma_with_lamports(old(self)@, address@, new_lamports);
            assert(self@ =~= old(self)@.with_lamports(address@, new_lamports));
        }
        Ok(())
    }

    /// Withdrawal processor: re-validates the caller's binding against the
    /// stored one (`Unauthorized` on mismatch), computes the surplus above the
    /// reserved floor — zero if the balance is defensively found below it —
    /// and, only when the surplus has reached the target (`FundNotReachedYet`
    /// otherwise), atomically moves exactly the surplus to the caller's
    /// wallet, leaving the account alive at the floor. On any error nothing
    /// changes.
    pub fn withdraw(
        &mut self,
        address: &[u8],
        caller: &[u8],
        caller_balance: &mut u64,
    ) -> (r: Result<(), FundMeErrors>)
        requires
            old(self).wf(),
            old(self)@.has_addr(address@),
            authorized(caller@, old(self)@.account_at(address@)) && surplus_of(
                old(self)@.account_at(address@).lamports,
                old(self)@.reserved_floor,
            ) >= old(self)@.account_at(address@).target_fund ==> *old(caller_balance)
                + surplus_of(
                old(self)@.account_at(address@).lamports,
                old(self)@.reserved_floor,
            ) <= u64::MAX,
        ensures
            final(self).wf(),
            (final(self)@, *final(caller_balance), r) == old(self)@.withdraw_step(
                address@,
                caller@,
                *old(caller_balance),
            ),
    {
        let i: usize = self.find_index(address).unwrap();
        proof {
            lemma_idx_of(self@, i as int);
        }
        let authorized_now: bool = match derive_address(caller) {
            Some(p) => bytes_eq(p.0.as_slice(), self.accounts[i].address.as_slice()) && p.1
                == self.accounts[i].data.bump,
            None => false,
        };
        if !authorized_now {
            return Err(FundMeErrors::Unauthorized);
        }
        let lamports: u64 = self.accounts[i].lamports;
        let floor: u64 = self.reserved_floor;
        let surplus: u64 = if lamports >= floor {
            lamports - floor
        } else {
            0
        };
        if surplus < self.accounts[i].data.target_fund {
            return Err(FundMeErrors::FundNotReachedYet);
        }
        let new_lamports: u64 = lamports - surplus;
        self.accounts[i].lamports = new_lamports;
        *caller_balance = *caller_balance + surplus;
        proof {
            lemma_with_lamports(old(self)@, address@, new_lamports);
            assert(self@ =~= old(self)@.with_lamports(address@, new_lamports));
        }
        Ok(())
    }

    /// The ledger account at `address`, if one exists.
    pub fn get_account(&self, address: &[u8]) -> (r: Option<&LedgerAccount>)
        requires
            self.wf(),
        ensures
            match r {
                Some(acc) => self@.has_addr(address@) && acc@ == self@.account_at(address@),
                None => !self@.has_addr(address@),
            },
    {
        match self.find_index(address) {
            Some(i) => {
                proof {
                    lemma_idx_of(self@, i as int);
                }
                Some(&self.accounts[i])
            },
            None => None,
        }
    }

    /// Whether a ledger account exists at `address`.
    pub fn has_account(&self, address: &[u8]) -> (r: bool)
        ensures
            r == self@.has_addr(address@),
    {
        match self.find_index(address) {
            Some(i) => {
                proof {
                    assert(self@.has_addr(address@)) by {
                        assert((i as int) < self@.accounts.len() && self@.accounts[i as int].address == address@);
                    }
                }
                true
            },
            None => false,
        }
    }
}

} // verus!
