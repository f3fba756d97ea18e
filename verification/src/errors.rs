//! The error taxonomy of the ledger.
//!
//! Every operation either fully applies or returns one of these and leaves
//! the entity untouched.  `Underflow` and `Overflow` report arithmetic that
//! would have wrapped; they are hard failures, never silent wraparound.

use vstd::prelude::*;

verus! {

#[derive(Clone, Copy, Debug, PartialEq, Eq, Structural)]
pub enum PokerError {
    /// The token account is not owned by the vault authority.
    IncorrectTokenOwner,
    /// A fresh vault token account must start empty.
    InitialTokenAccountBalanceNonZero,
    /// The vault cannot cover the requested movement of funds.
    NotEnoughFunds,
    /// Every seat (or tournament slot) is taken.
    GameFull,
    /// The participant is already seated or registered.
    AlreadyAtTable,
    /// The deposit is below the game's minimum.
    DepositTooSmall,
    /// The deposit is above the game's maximum.
    DepositTooLarge,
    /// Only the owner may perform this operation.
    NotGameOwner,
    /// The named participant is not seated or registered.
    NotAtTable,
    /// The game is not in a state that accepts this operation.
    GameNotActive,
    /// An address argument does not resolve to anything this entity knows.
    InvalidAddress,
    /// The entity cannot be closed while participants remain.
    PlayersStillAtTable,
    /// Payout shares must sum to exactly 1000 per mille.
    InvalidPayoutsArray,
    /// The tournament has already started.
    TournamentAlreadyStarted,
    /// At least two registrants are needed to start.
    NotEnoughPlayersToStartTournament,
    /// The tournament has not started yet.
    TournamentNotStarted,
    /// Non-fungible prizes are still escrowed.
    NFTsEscrowedInTournament,
    /// A balance would have gone below zero.
    Underflow,
    /// A counter or balance would have exceeded its machine bound.
    Overflow,
}

} // verus!
