use vstd::prelude::*;

use crate::addressing::spec_derive;
use crate::errors::FundMeErrors;
use crate::model::authorized;
use crate::model::lemma_with_lamports;
use crate::model::surplus_of;
use crate::model::AccountModel;
use crate::model::StoreModel;

verus! {

/// A zero target is rejected with `InvalidTarget`, no account is created and
/// the store is unchanged, whatever the store holds.
pub proof fn lemma_initialize_rejects_zero_target(
    s: StoreModel,
    address: Seq<u8>,
    bump: u8,
    name: Seq<char>,
    description: Seq<char>,
    payer: u64,
)
    ensures
        s.init_step(address, bump, name, description, 0, payer) == (
            s,
            payer,
            Err::<(), FundMeErrors>(FundMeErrors::InvalidTarget),
        ),
{
}

/// For a positive target and an owner whose derived address is not yet
/// taken, initialization succeeds and creates exactly one account, holding
/// the given metadata, the derivation nonce, and a balance at the reserved
/// floor — which the owner's wallet pays as the creation cost.
pub proof fn lemma_initialize_fresh_owner(
    s: StoreModel,
    address: Seq<u8>,
    bump: u8,
    name: Seq<char>,
    description: Seq<char>,
    target_fund: u64,
    payer: u64,
)
    requires
        target_fund > 0,
        !s.has_addr(address),
        payer >= s.reserved_floor,
    ensures
        ({
            let (s1, p1, r) = s.init_step(address, bump, name, description, target_fund, payer);
            &&& r is Ok
            &&& p1 == payer - s.reserved_floor
            &&& s1.reserved_floor == s.reserved_floor
            &&& s1.accounts == s.accounts.push(
                AccountModel {
                    address,
                    name,
                    description,
                    target_fund,
                    bump,
                    lamports: s.reserved_floor,
                },
            )
        }),
{
}

/// Initialization succeeds at most once per owner identity: the derivation
/// is deterministic, so after one successful initialization for an owner, a
/// second one for the same owner fails with `AccountAlreadyExists` and
/// changes nothing, whatever metadata and positive target it carries.
pub proof fn lemma_initialize_at_most_once(
    s: StoreModel,
    owner: Seq<u8>,
    n1: Seq<char>,
    d1: Seq<char>,
    t1: u64,
    n2: Seq<char>,
    d2: Seq<char>,
    t2: u64,
    p1: u64,
    p2: u64,
)
    requires
        spec_derive(owner) is Some,
        ({
            let (a, b) = spec_derive(owner).unwrap();
            s.init_step(a, b, n1, d1, t1, p1).2 is Ok
        }),
        t2 > 0,
    ensures
        ({
            let (a, b) = spec_derive(owner).unwrap();
            let s1 = s.init_step(a, b, n1, d1, t1, p1).0;
            s1.init_step(a, b, n2, d2, t2, p2) == (
                s1,
                p2,
                Err::<(), FundMeErrors>(FundMeErrors::AccountAlreadyExists),
            )
        }),
{
    let (a, b) = spec_derive(owner).unwrap();
    let s1 = s.init_step(a, b, n1, d1, t1, p1).0;
    let n = s.accounts.len() as int;
    assert(s1.has_addr(a)) by {
        assert(0 <= n && n < s1.accounts.len() && s1.accounts[n].address == a);
    }
}

/// A withdrawal attempted by the owner while the surplus is below the target
/// fails with `FundNotReachedYet`, and the balance, every field and the
/// caller's wallet are unchanged.
pub proof fn lemma_withdraw_below_target(s: StoreModel, a: Seq<u8>, caller: Seq<u8>, wallet: u64)
    requires
        authorized(caller, s.account_at(a)),
        surplus_of(s.account_at(a).lamports, s.reserved_floor) < s.account_at(a).target_fund,
    ensures
        s.withdraw_step(a, caller, wallet) == (
            s,
            wallet,
            Err::<(), FundMeErrors>(FundMeErrors::FundNotReachedYet),
        ),
{
}

/// A withdrawal by an identity whose derivation does not match the account's
/// stored owner binding fails with `Unauthorized` and changes nothing.
pub proof fn lemma_withdraw_unauthorized(s: StoreModel, a: Seq<u8>, caller: Seq<u8>, wallet: u64)
    requires
        !authorized(caller, s.account_at(a)),
    ensures
        s.withdraw_step(a, caller, wallet) == (
            s,
            wallet,
            Err::<(), FundMeErrors>(FundMeErrors::Unauthorized),
        ),
{
}

/// A withdrawal once the surplus has reached the target succeeds: the
/// account's balance decreases by exactly the surplus and comes to rest at
/// the reserved floor, the caller's wallet increases by exactly the surplus,
/// and the account's name, description, target and owner binding — and every
/// other account — are unchanged.
pub proof fn lemma_withdraw_success(s: StoreModel, a: Seq<u8>, caller: Seq<u8>, wallet: u64)
    requires
        s.wf(),
        s.has_addr(a),
        authorized(caller, s.account_at(a)),
        surplus_of(s.account_at(a).lamports, s.reserved_floor) >= s.account_at(a).target_fund,
        wallet + surplus_of(s.account_at(a).lamports, s.reserved_floor) <= u64::MAX,
    ensures
        ({
            let surplus = surplus_of(s.account_at(a).lamports, s.reserved_floor);
            let (s1, w1, r) = s.withdraw_step(a, caller, wallet);
            &&& r is Ok
            &&& w1 == wallet + surplus
            &&& s1.wf()
            &&& s1.has_addr(a)
            &&& s1.account_at(a).lamports == s.account_at(a).lamports - surplus
            &&& s1.account_at(a).lamports == s.reserved_floor
            &&& s1.account_at(a).name == s.account_at(a).name
            &&& s1.account_at(a).description == s.account_at(a).description
            &&& s1.account_at(a).target_fund == s.account_at(a).target_fund
            &&& s1.account_at(a).bump == s.account_at(a).bump
            &&& s1.account_at(a).address == s.account_at(a).address
            &&& s1.reserved_floor == s.reserved_floor
            &&& forall|b: Seq<u8>| #[trigger] s1.has_addr(b) <==> s.has_addr(b)
            &&& forall|b: Seq<u8>|
                b != a && s.has_addr(b) ==> #[trigger] s1.account_at(b) == s.account_at(b)
        }),
{
    let i = s.idx_of(a);
    assert(0 <= i && i < s.accounts.len());
    let surplus = surplus_of(s.account_at(a).lamports, s.reserved_floor);
    assert(s.accounts[i].lamports >= s.reserved_floor);
    lemma_with_lamports(s, a, (s.account_at(a).lamports - surplus) as u64);
}

/// Repeating a withdrawal immediately after a successful one, with no
/// intervening contribution, fails with `FundNotReachedYet` and changes
/// nothing: the surplus has reset to zero, which a positive target can never
/// allow.
pub proof fn lemma_withdraw_idempotent(s: StoreModel, a: Seq<u8>, caller: Seq<u8>, wallet: u64)
    requires
        s.wf(),
        s.has_addr(a),
        s.withdraw_step(a, caller, wallet).2 is Ok,
    ensures
        ({
            let (s1, w1, r1) = s.withdraw_step(a, caller, wallet);
            s1.withdraw_step(a, caller, w1) == (
                s1,
                w1,
                Err::<(), FundMeErrors>(FundMeErrors::FundNotReachedYet),
            )
        }),
{
    let i = s.idx_of(a);
    assert(0 <= i && i < s.accounts.len());
    assert(s.accounts[i].lamports >= s.reserved_floor);
    assert(s.accounts[i].target_fund > 0);
    let surplus = surplus_of(s.account_at(a).lamports, s.reserved_floor);
    lemma_with_lamports(s, a, (s.account_at(a).lamports - surplus) as u64);
}

/// Sum of a sequence of contribution amounts.
pub open spec fn sum_of(amounts: Seq<u64>) -> int
    decreases amounts.len(),
{
    if amounts.len() == 0 {
        0
    } else {
        amounts[0] + sum_of(amounts.drop_first())
    }
}

/// The store and the contributing wallet after a sequence of contributions
/// to the account at `a`, applied first to last.
pub open spec fn fund_all(s: StoreModel, wallet: u64, a: Seq<u8>, amounts: Seq<u64>) -> (
    StoreModel,
    u64,
)
    decreases amounts.len(),
{
    if amounts.len() == 0 {
        (s, wallet)
    } else {
        let step = s.fund_step(wallet, a, amounts[0]);
        fund_all(step.0, step.1, a, amounts.drop_first())
    }
}

proof fn lemma_sum_nonneg(amounts: Seq<u64>)
    ensures
        sum_of(amounts) >= 0,
    decreases amounts.len(),
{
    if amounts.len() > 0 {
        lemma_sum_nonneg(amounts.drop_first());
    }
}

/// Additivity of contributions: after any sequence of contributions that the
/// wallet covers and whose total keeps the balance within range, every step
/// succeeded, the account's balance has increased by exactly the sum of the
/// amounts — none lost, none duplicated — the wallet has decreased by the
/// same sum, and every other field and account is unchanged.
pub proof fn lemma_fund_additivity(s: StoreModel, wallet: u64, a: Seq<u8>, amounts: Seq<u64>)
    requires
        s.wf(),
        s.has_addr(a),
        sum_of(amounts) <= wallet,
        s.account_at(a).lamports + sum_of(amounts) <= u64::MAX,
    ensures
        ({
            let (s2, w2) = fund_all(s, wallet, a, amounts);
            &&& s2.wf()
            &&& s2.has_addr(a)
            &&& s2.account_at(a).lamports == s.account_at(a).lamports + sum_of(amounts)
            &&& w2 == wallet - sum_of(amounts)
            &&& s2.account_at(a).name == s.account_at(a).name
            &&& s2.account_at(a).description == s.account_at(a).description
            &&& s2.account_at(a).target_fund == s.account_at(a).target_fund
            &&& s2.account_at(a).bump == s.account_at(a).bump
            &&& s2.account_at(a).address == s.account_at(a).address
            &&& s2.reserved_floor == s.reserved_floor
            &&& forall|b: Seq<u8>| #[trigger] s2.has_addr(b) <==> s.has_addr(b)
            &&& forall|b: Seq<u8>|
                b != a && s.has_addr(b) ==> #[trigger] s2.account_at(b) == s.account_at(b)
        }),
    decreases amounts.len(),
{
    lemma_sum_nonneg(amounts);
    if amounts.len() > 0 {
        lemma_sum_nonneg(amounts.drop_first());
        let a0 = amounts[0];
        let i = s.idx_of(a);
        assert(0 <= i && i < s.accounts.len());
        let step = s.fund_step(wallet, a, a0);
        let l1 = (s.account_at(a).lamports + a0) as u64;
        lemma_with_lamports(s, a, l1);
        lemma_fund_additivity(step.0, step.1, a, amounts.drop_first());
    }
}

/// Two contributions commute: whichever of two contributors goes first, both
/// succeed, the store ends the same, and each wallet pays exactly its own
/// amount — no interleaving loses or duplicates a contribution.
pub proof fn lemma_fund_commutative(
    s: StoreModel,
    w1: u64,
    w2: u64,
    a: Seq<u8>,
    x: u64,
    y: u64,
)
    requires
        s.wf(),
        s.has_addr(a),
        w1 >= x,
        w2 >= y,
        s.account_at(a).lamports + x + y <= u64::MAX,
    ensures
        ({
            let first = s.fund_step(w1, a, x);
            let then = first.0.fund_step(w2, a, y);
            let second = s.fund_step(w2, a, y);
            let other = second.0.fund_step(w1, a, x);
            &&& first.2 is Ok
            &&& then.2 is Ok
            &&& second.2 is Ok
            &&& other.2 is Ok
            &&& then.0 == other.0
            &&& then.1 == (w2 - y) as u64
            &&& other.1 == (w1 - x) as u64
        }),
{
    let l = s.account_at(a).lamports;
    let first = s.fund_step(w1, a, x);
    let second = s.fund_step(w2, a, y);
    lemma_with_lamports(s, a, (l + x) as u64);
    lemma_with_lamports(s, a, (l + y) as u64);
    lemma_with_lamports(first.0, a, (l + x + y) as u64);
    lemma_with_lamports(second.0, a, (l + x + y) as u64);
    let then = first.0.fund_step(w2, a, y);
    let other = second.0.fund_step(w1, a, x);
    assert(then.0.accounts =~= other.0.accounts);
}

} // verus!
