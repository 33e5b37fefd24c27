use vstd::prelude::*;

verus! {

/// Namespace tag under which every campaign ledger account is derived.
pub const FUNDS_SEED: [u8; 17] = [
    103, 111, 102, 117, 110, 100, 109, 101, 45, 50, 48, 50, 50, 49, 50, 49, 53,
];

/// Identity of the program that owns every derived ledger account.
pub const PROGRAM_ID: [u8; 32] = [
    57, 141, 4, 16, 153, 110, 10, 74, 166, 50, 204, 212, 226, 157, 42, 175, 46, 204, 164, 191,
    187, 143, 116, 25, 129, 53, 142, 55, 28, 32, 73, 17,
];

/// The address and canonical bump that the host's addressing scheme assigns to
/// a pair of seeds under a program id, or `None` when no bump yields a valid
/// address. The result depends on the three arguments alone.
pub uninterp spec fn pda_of(namespace: Seq<u8>, owner: Seq<u8>, program: Seq<u8>) -> Option<
    (Seq<u8>, u8),
>;

/// Relies on `Pubkey::try_find_program_address` (solana-address, re-exported
/// through anchor_lang): a deterministic search, over the seeds and the
/// program id alone, for the largest bump whose derived address is valid; it
/// returns a 32-byte address with that bump, or `None` when the search fails,
/// and does not panic. Also relies on `Pubkey::try_from` for a 32-byte slice
/// and on `Pubkey::to_bytes`.
#[verifier::external_body]
fn try_find_pda(namespace: &[u8], owner: &[u8], program_id: &[u8]) -> (r: Option<(Vec<u8>, u8)>)
    requires
        program_id@.len() == 32,
    ensures
        match r {
            Some(p) => pda_of(namespace@, owner@, program_id@) == Some((p.0@, p.1))
                && p.0@.len() == 32,
            None => pda_of(namespace@, owner@, program_id@) is None,
        },
{
    let pid = anchor_lang::prelude::Pubkey::try_from(program_id).unwrap();
    anchor_lang::prelude::Pubkey::try_find_program_address(&[namespace, owner], &pid)
        .map(|(address, bump)| (address.to_bytes().to_vec(), bump))
}

/// The binding computed for an owner identity under this library's namespace
/// tag and program id.
pub open spec fn spec_derive(owner: Seq<u8>) -> Option<(Seq<u8>, u8)> {
    pda_of(FUNDS_SEED@, owner, PROGRAM_ID@)
}

/// Ledger account deriver: computes the deterministic address of the campaign
/// ledger account bound to `owner`, together with its canonical bump, under
/// the fixed namespace tag and program id. The same owner always yields the
/// same address; `None` means the host's addressing scheme admits no valid
/// address for this owner.
pub fn derive_address(owner: &[u8]) -> (r: Option<(Vec<u8>, u8)>)
    ensures
        match r {
            Some(p) => spec_derive(owner@) == Some((p.0@, p.1)) && p.0@.len() == 32,
            None => spec_derive(owner@) is None,
        },
{
    try_find_pda(FUNDS_SEED.as_slice(), owner, PROGRAM_ID.as_slice())
}

/// Byte-for-byte equality of two byte strings.
pub fn bytes_eq(a: &[u8], b: &[u8]) -> (r: bool)
    ensures
        r == (a@ == b@),
{
    if a.len() != b.len() {
        return false;
    }
    let mut i: usize = 0;
    while i < a.len()
        invariant
            i <= a@.len(),
            a@.len() == b@.len(),
            forall|j: int| 0 <= j < i ==> a@[j] == b@[j],
        decreases a@.len() - i,
    {
        if a[i] != b[i] {
            return false;
        }
        i += 1;
    }
    proof {
        assert(a@ =~= b@);
    }
    true
}

} // verus!
