//! A custodial ledger for pooled-stake card games.
//!
//! The crate tracks who has deposited funds into a shared pot — a cash game
//! or a tournament — enforces capacity and deposit-size rules, applies
//! externally reported balance adjustments, and computes the exact transfer
//! amounts owed back to participants on exit, bust, or closure.  Card-game
//! play itself happens elsewhere; this crate only custodies and accounts for
//! value.
//!
//! Value physically moves through an external token ledger.  Each operation
//! here validates its inputs, mutates the entity's state, and returns the
//! transfer instructions the host must execute with the entity's vault
//! authority as signer; the `vault` field mirrors the custody balance those
//! instructions produce.  Operations are atomic: on any error the entity is
//! left exactly as it was and no transfer is instructed.

use vstd::prelude::*;

pub mod authority;
pub mod cash;
pub mod errors;
pub mod tournament;

verus! {

/// One instruction for the external token ledger: move `amount` out of the
/// entity's vault to the account addressed by `to`.
#[derive(Clone, Copy, Debug)]
pub struct Payout {
    pub to: [u8; 32],
    pub amount: u64,
}

} // verus!
