//! Deterministic signing identities derived from entity identifiers.
//!
//! A game's or tournament's vault is controlled by a program-derived
//! authority: an address computed from the entity's stable identifier and the
//! owning program's identifier.  Anyone can recompute and verify it, no
//! private key ever exists, and only the ledger logic can invoke it as a
//! signer.  The same derivation scheme also yields the associated token
//! address at which a participant receives fungible tokens of a given mint.

use vstd::prelude::*;

verus! {

/// The address that a program-derived-address lookup returns for the seed
/// `entity` under program `program`, together with its bump byte, or `None`
/// in the statistically excluded case that no bump yields a valid address.
/// The result depends on the two arguments alone.
pub uninterp spec fn vault_authority_of(entity: Seq<u8>, program: Seq<u8>) -> Option<(Seq<u8>, u8)>;

/// The associated token address of wallet `wallet` for mint `mint`, or
/// `None` in the statistically excluded case that the derivation finds no
/// bump.  The result depends on the two arguments alone.
pub uninterp spec fn associated_token_key_of(wallet: Seq<u8>, mint: Seq<u8>) -> Option<Seq<u8>>;

/// Relies on `Pubkey::try_find_program_address` (re-exported by
/// `anchor_lang`): a deterministic program-derived-address lookup over the
/// single seed `entity` under `program`.  It returns `None` instead of
/// aborting when no bump byte yields an off-curve address.
#[verifier::external_body]
fn derive_vault_authority(entity: &[u8; 32], program: &[u8; 32]) -> (r: Option<([u8; 32], u8)>)
    ensures
        match r {
            Some(k) => vault_authority_of(entity@, program@) == Some((k.0@, k.1)),
            None => vault_authority_of(entity@, program@) is None,
        },
{
    let program_id = anchor_lang::prelude::Pubkey::new_from_array(*program);
    anchor_lang::prelude::Pubkey::try_find_program_address(&[entity], &program_id)
        .map(|(key, bump)| (key.to_bytes(), bump))
}

/// Relies on `Pubkey::try_find_program_address` over the associated-token
/// seeds (wallet, token program, mint) under the associated-token program,
/// exactly as `anchor_spl::associated_token::get_associated_token_address`
/// composes them; the `try` form returns `None` instead of aborting when no
/// bump byte yields an off-curve address.
#[verifier::external_body]
pub(crate) fn derive_associated_token_key(wallet: &[u8; 32], mint: &[u8; 32]) -> (r: Option<
    [u8; 32],
>)
    ensures
        match r {
            Some(k) => associated_token_key_of(wallet@, mint@) == Some(k@),
            None => associated_token_key_of(wallet@, mint@) is None,
        },
{
    let wallet_key = anchor_lang::prelude::Pubkey::new_from_array(*wallet);
    let mint_key = anchor_lang::prelude::Pubkey::new_from_array(*mint);
    anchor_lang::prelude::Pubkey::try_find_program_address(
        &[wallet_key.as_ref(), anchor_spl::token::ID.as_ref(), mint_key.as_ref()],
        &anchor_spl::associated_token::ID,
    ).map(|(key, _bump)| key.to_bytes())
}

/// The capability that authorizes outbound transfers from one entity's
/// vault: the derived signer address and the bump byte that reproduces it.
/// It is recomputable by anyone from the entity and program identifiers, so
/// any caller can verify it independently.
#[derive(Clone, Copy, Debug)]
pub struct VaultAuthority {
    pub key: [u8; 32],
    pub bump: u8,
}

impl VaultAuthority {
    /// Derive the vault authority for the entity stored at `entity` under
    /// program `program`.
    pub fn derive(entity: &[u8; 32], program: &[u8; 32]) -> (r: Option<VaultAuthority>)
        ensures
            match r {
                Some(a) => vault_authority_of(entity@, program@) == Some((a.key@, a.bump)),
                None => vault_authority_of(entity@, program@) is None,
            },
    {
        match derive_vault_authority(entity, program) {
            Some(pair) => Some(VaultAuthority { key: pair.0, bump: pair.1 }),
            None => None,
        }
    }
}

/// Compare two 32-byte addresses for equality.
pub fn addr_eq(a: &[u8; 32], b: &[u8; 32]) -> (r: bool)
    ensures
        r == (a@ == b@),
{
    let mut i: usize = 0;
    while i < 32
        invariant
            0 <= i <= 32,
            forall|j: int| 0 <= j < i ==> a@[j] == b@[j],
        decreases 32 - i,
    {
        if a[i] != b[i] {
            assert(a@ != b@);
            return false;
        }
        i = i + 1;
    }
    assert(a@ =~= b@);
    true
}

} // verus!
