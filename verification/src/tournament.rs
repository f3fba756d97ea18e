//! The tournament ledger.
//!
//! A [`TournamentAccount`] owns the registration roll, payout schedule, and
//! prize-pool accounting of a single tournament.  Participants register by
//! paying the entry cost plus fee into the vault; a per-participant receipt
//! marks active registration, and its presence or absence gates
//! registration, unregistration, and bust payouts to exactly once each.
//! Once the tournament starts, a trusted reporter busts players out one by
//! one; a busting player who finishes in the money is paid their scheduled
//! per-mille share of the prize pool.  Closure sweeps whatever remains —
//! fees and any unused guarantee — to the owner.

use vstd::prelude::*;

use crate::errors::PokerError;
use crate::Payout;

verus! {

/// The per-participant receipt whose presence marks active registration.
/// It is created on registration and destroyed on unregistration, refund,
/// or bust, so each of those can happen at most once per participant.
#[derive(Clone, Copy, Debug)]
pub struct TournamentPlayerAccount {
    pub position_finished: u16,
    pub has_busted: bool,
    pub rebuys: u16,
}

/// One entry of the registration roll: the participant's address and their
/// receipt.
#[derive(Clone, Copy, Debug)]
pub struct Registration {
    pub player: [u8; 32],
    pub receipt: TournamentPlayerAccount,
}

/// Arguments of [`TournamentAccount::create_tournament`].
#[derive(Clone, Debug)]
pub struct CreateTournamentData {
    pub max_players: u16,
    pub entry_fee: u64,
    pub entry_cost: u64,
    pub token_mint: [u8; 32],
    pub registration_open: bool,
    pub initial_payouts: Vec<u16>,
    pub guarantee: u64,
}

/// Arguments of the non-fungible-prize operations: the finishing place the
/// escrowed prize covers.
#[derive(Clone, Copy, Debug)]
pub struct NftTournamentPrizeData {
    pub place_paid: u16,
}

/// Arguments of [`TournamentAccount::update_tournament_payouts`].
#[derive(Clone, Debug)]
pub struct UpdateTournamentPayoutData {
    pub payouts: Vec<u16>,
}

/// The sum of a payout schedule's per-mille shares.
pub open spec fn payout_sum(s: Seq<u16>) -> int
    decreases s.len(),
{
    if s.len() == 0 {
        0
    } else {
        payout_sum(s.drop_last()) + s.last()
    }
}

/// The largest entry of a list of finishing places, or `0` for an empty
/// list.
pub open spec fn place_max(s: Seq<u16>) -> int
    decreases s.len(),
{
    if s.len() == 0 {
        0
    } else {
        let m = place_max(s.drop_last());
        if s.last() as int > m {
            s.last() as int
        } else {
            m
        }
    }
}

/// Whether some registration carries the participant address `addr`.
pub open spec fn has_registrant(s: Seq<Registration>, addr: Seq<u8>) -> bool {
    exists|i: int| 0 <= i < s.len() && s[i].player@ == addr
}

/// No two registrations share a participant address.
pub open spec fn distinct_registrants(s: Seq<Registration>) -> bool {
    forall|i: int, j: int| 0 <= i < j < s.len() ==> s[i].player@ != s[j].player@
}

/// The index of the first registration of `addr`, or `-1` when there is
/// none.
pub open spec fn registrant_index(s: Seq<Registration>, addr: Seq<u8>) -> int
    decreases s.len(),
{
    if s.len() == 0 {
        -1
    } else if s[0].player@ == addr {
        0
    } else {
        let rest = registrant_index(s.subrange(1, s.len() as int), addr);
        if rest == -1 {
            -1
        } else {
            rest + 1
        }
    }
}

pub proof fn lemma_registrant_index(s: Seq<Registration>, addr: Seq<u8>)
    ensures
        (registrant_index(s, addr) == -1) <==> !has_registrant(s, addr),
        registrant_index(s, addr) != -1 ==> 0 <= registrant_index(s, addr) < s.len()
            && s[registrant_index(s, addr)].player@ == addr,
    decreases s.len(),
{
    if s.len() == 0 {
        assert(!has_registrant(s, addr));
    } else if s[0].player@ == addr {
        assert(has_registrant(s, addr));
    } else {
        let rest = s.subrange(1, s.len() as int);
        lemma_registrant_index(rest, addr);
        let ri = registrant_index(rest, addr);
        if ri == -1 {
            if has_registrant(s, addr) {
                let i = choose|i: int| 0 <= i < s.len() && s[i].player@ == addr;
                assert(rest[i - 1] == s[i]);
                assert(has_registrant(rest, addr));
            }
            assert(!has_registrant(s, addr));
        } else {
            assert(s[ri + 1] == rest[ri]);
            assert(has_registrant(s, addr));
        }
    }
}

/// Removing one registration keeps the roll duplicate-free.
pub proof fn lemma_remove_distinct(s: Seq<Registration>, i: int)
    requires
        0 <= i < s.len(),
        distinct_registrants(s),
    ensures
        distinct_registrants(s.remove(i)),
{
    let t = s.remove(i);
    assert forall|a: int, b: int| 0 <= a < b < t.len() implies t[a].player@ != t[b].player@ by {
        let oa = if a < i {
            a
        } else {
            a + 1
        };
        let ob = if b < i {
            b
        } else {
            b + 1
        };
        assert(t[a] == s[oa]);
        assert(t[b] == s[ob]);
    }
}

/// One tournament's ledger: registration roll, payout schedule, prize-pool
/// accounting, and the mirrored custody balance of the tournament's vault.
#[derive(Clone, Debug)]
pub struct TournamentAccount {
    pub min_players: u16,
    pub max_players: u16,
    pub entry_fee: u64,
    pub entry_cost: u64,
    pub payouts: Vec<u16>,
    pub token_mint: [u8; 32],
    pub owner: [u8; 32],
    pub transactor: [u8; 32],
    pub registration_open: bool,
    pub has_started: bool,
    pub players_with_rebuys: u16,
    pub players: u16,
    pub guarantee: u64,
    pub nft_payouts: Vec<u16>,
    /// The external custody balance this ledger has instructed into
    /// existence: guarantee and entries paid in, minus refunds and payouts.
    pub vault: u64,
    /// The registration roll; its length is always `players`.
    pub registrations: Vec<Registration>,
}

impl TournamentAccount {
    /// The invariant every operation preserves.  Before the start the vault
    /// is exactly the guarantee plus one entry cost and fee per
    /// registration, so every pre-start unregistration can be refunded in
    /// full.
    pub open spec fn well_formed(self) -> bool {
        &&& self.registrations@.len() == self.players as int
        &&& self.players <= self.max_players
        &&& self.players <= self.players_with_rebuys
        &&& distinct_registrants(self.registrations@)
        &&& self.min_players >= 2
        &&& self.payouts@.len() > 0 ==> payout_sum(self.payouts@) == 1000
        &&& !self.has_started ==> self.players_with_rebuys == self.players
            && self.vault as int == self.guarantee + (self.entry_cost + self.entry_fee)
            * (self.players_with_rebuys as int)
    }

    /// The administrative fields that no registration or payout operation
    /// touches.
    pub open spec fn same_config(self, other: TournamentAccount) -> bool {
        &&& self.max_players == other.max_players
        &&& self.entry_fee == other.entry_fee
        &&& self.entry_cost == other.entry_cost
        &&& self.token_mint == other.token_mint
        &&& self.owner == other.owner
        &&& self.transactor == other.transactor
        &&& self.guarantee == other.guarantee
    }

    /// The first error `create_tournament` reports, or `None`.  A non-empty
    /// initial schedule must sum to exactly 1000 per mille and fit the
    /// 16-bit registrant counters.
    pub open spec fn create_check(data: CreateTournamentData) -> Option<PokerError> {
        if data.initial_payouts@.len() > 65535 || (data.initial_payouts@.len() > 0 && payout_sum(
            data.initial_payouts@,
        ) != 1000) {
            Some(PokerError::InvalidPayoutsArray)
        } else {
            None
        }
    }

    /// Allocate the ledger of a new tournament.  If `guarantee` is
    /// non-zero, the owner funds the vault with it up front; the host moves
    /// that amount from the owner's account into the vault.  The minimum
    /// field size is the schedule length (floor two), so the schedule can
    /// pay every remaining finisher once the field is down to the money.
    pub fn create_tournament(
        owner: [u8; 32],
        transactor: [u8; 32],
        data: CreateTournamentData,
    ) -> (r: Result<TournamentAccount, PokerError>)
        ensures
            match r {
                Ok(t) => {
                    &&& Self::create_check(data) is None
                    &&& t.well_formed()
                    &&& t.owner == owner
                    &&& t.transactor == transactor
                    &&& t.max_players == data.max_players
                    &&& t.entry_fee == data.entry_fee
                    &&& t.entry_cost == data.entry_cost
                    &&& t.token_mint == data.token_mint
                    &&& t.registration_open == data.registration_open
                    &&& t.payouts@ == data.initial_payouts@
                    &&& t.guarantee == data.guarantee
                    &&& t.vault == data.guarantee
                    &&& t.players == 0
                    &&& t.players_with_rebuys == 0
                    &&& !t.has_started
                    &&& t.nft_payouts@.len() == 0
                    &&& t.registrations@.len() == 0
                    &&& t.min_players as int == if data.initial_payouts@.len() > 1 {
                        data.initial_payouts@.len() as int
                    } else {
                        2
                    }
                },
                Err(e) => Self::create_check(data) == Some(e),
            },
    {
        if data.initial_payouts.len() > 65535 {
            return Err(PokerError::InvalidPayoutsArray);
        }
        if data.initial_payouts.len() > 0 {
            let total = Self::sum_payout_shares(&data.initial_payouts);
            if total != 1000 {
                return Err(PokerError::InvalidPayoutsArray);
            }
        }
        let min_players: u16 = if data.initial_payouts.len() > 1 {
            data.initial_payouts.len() as u16
        } else {
            2
        };
        Ok(
            TournamentAccount {
                min_players,
                max_players: data.max_players,
                entry_fee: data.entry_fee,
                entry_cost: data.entry_cost,
                payouts: data.initial_payouts,
                token_mint: data.token_mint,
                owner,
                transactor,
                registration_open: data.registration_open,
                has_started: false,
                players_with_rebuys: 0,
                players: 0,
                guarantee: data.guarantee,
                nft_payouts: Vec::new(),
                vault: data.guarantee,
                registrations: Vec::new(),
            },
        )
    }

    /// The sum of a payout schedule's shares, computed exactly.
    pub fn sum_payout_shares(p: &Vec<u16>) -> (t: u128)
        ensures
            t == payout_sum(p@),
    {
        let mut t: u128 = 0;
        let mut i: usize = 0;
        while i < p.len()
            invariant
                0 <= i <= p@.len(),
                t == payout_sum(p@.take(i as int)),
                t <= (i as int) * 0xffff,
            decreases p@.len() - i,
        {
            proof {
                assert(p@.take(i as int + 1).drop_last() =~= p@.take(i as int));
            }
            t = t + (p[i] as u128);
            i = i + 1;
        }
        proof {
            assert(p@.take(p@.len() as int) =~= p@);
        }
        t
    }

    /// The first error `update_tournament_payouts` reports, or `None`.
    pub open spec fn update_payouts_check(self, payer: [u8; 32], payouts: Seq<u16>) -> Option<
        PokerError,
    > {
        if payer@ != self.owner@ {
            Some(PokerError::NotGameOwner)
        } else if payout_sum(payouts) != 1000 {
            Some(PokerError::InvalidPayoutsArray)
        } else {
            None
        }
    }

    /// Replace the payout schedule.  Shares that do not sum to exactly 1000
    /// per mille are rejected and leave the schedule unchanged.
    pub fn update_tournament_payouts(&mut self, payer: [u8; 32], data: UpdateTournamentPayoutData)
        -> (r: Result<(), PokerError>)
        requires
            old(self).well_formed(),
        ensures
            final(self).well_formed(),
            final(self).same_config(*old(self)),
            match old(self).update_payouts_check(payer, data.payouts@) {
                Some(e) => r == Err::<(), PokerError>(e) && *final(self) == *old(self),
                None => {
                    &&& r == Ok::<(), PokerError>(())
                    &&& final(self).payouts@ == data.payouts@
                    &&& *final(self) == TournamentAccount { payouts: data.payouts, ..*old(self) }
                },
            },
    {
        if !crate::authority::addr_eq(&payer, &self.owner) {
            return Err(PokerError::NotGameOwner);
        }
        let total = Self::sum_payout_shares(&data.payouts);
        if total != 1000 {
            return Err(PokerError::InvalidPayoutsArray);
        }
        self.payouts = data.payouts;
        Ok(())
    }

    /// Toggle whether new registrations are accepted.  Registration state
    /// also decides who is in the money: only after registration closes can
    /// a busting player be paid.
    pub fn flip_tournament_registration(&mut self, payer: [u8; 32]) -> (r: Result<(), PokerError>)
        requires
            old(self).well_formed(),
        ensures
            final(self).well_formed(),
            final(self).same_config(*old(self)),
            if payer@ != old(self).owner@ {
                r == Err::<(), PokerError>(PokerError::NotGameOwner) && *final(self) == *old(self)
            } else {
                r == Ok::<(), PokerError>(()) && *final(self) == TournamentAccount {
                    registration_open: !old(self).registration_open,
                    ..*old(self)
                }
            },
    {
        if !crate::authority::addr_eq(&payer, &self.owner) {
            return Err(PokerError::NotGameOwner);
        }
        self.registration_open = !self.registration_open;
        Ok(())
    }

    /// The first error `start_tournament` reports, or `None`.
    pub open spec fn start_check(self, payer: [u8; 32]) -> Option<PokerError> {
        if payer@ != self.owner@ {
            Some(PokerError::NotGameOwner)
        } else if self.has_started {
            Some(PokerError::TournamentAlreadyStarted)
        } else if self.players < 2 {
            Some(PokerError::NotEnoughPlayersToStartTournament)
        } else {
            None
        }
    }

    /// Start the tournament: irreversible, and refused with fewer than two
    /// registrants.
    pub fn start_tournament(&mut self, payer: [u8; 32]) -> (r: Result<(), PokerError>)
        requires
            old(self).well_formed(),
        ensures
            final(self).well_formed(),
            final(self).same_config(*old(self)),
            match old(self).start_check(payer) {
                Some(e) => r == Err::<(), PokerError>(e) && *final(self) == *old(self),
                None => r == Ok::<(), PokerError>(()) && *final(self) == TournamentAccount {
                    has_started: true,
                    ..*old(self)
                },
            },
    {
        if !crate::authority::addr_eq(&payer, &self.owner) {
            return Err(PokerError::NotGameOwner);
        }
        if self.has_started {
            return Err(PokerError::TournamentAlreadyStarted);
        }
        if self.players < 2 {
            return Err(PokerError::NotEnoughPlayersToStartTournament);
        }
        self.has_started = true;
        Ok(())
    }

    /// The index of the registration of `addr`, if any.
    pub fn find_registrant(regs: &Vec<Registration>, addr: &[u8; 32]) -> (r: Option<usize>)
        ensures
            match r {
                Some(i) => i < regs@.len() && regs@[i as int].player@ == addr@,
                None => !has_registrant(regs@, addr@),
            },
    {
        let mut i: usize = 0;
        while i < regs.len()
            invariant
                0 <= i <= regs@.len(),
                forall|j: int| 0 <= j < i ==> regs@[j].player@ != addr@,
            decreases regs@.len() - i,
        {
            if crate::authority::addr_eq(&regs[i].player, addr) {
                return Some(i);
            }
            i = i + 1;
        }
        None
    }

    /// The first error `register_tournament` reports, or `None` when the
    /// registration is owed success.
    pub open spec fn register_check(self, player: [u8; 32]) -> Option<PokerError> {
        if has_registrant(self.registrations@, player@) {
            Some(PokerError::AlreadyAtTable)
        } else if self.players >= self.max_players {
            Some(PokerError::GameFull)
        } else if self.players_with_rebuys as int + 1 > 65535 || self.entry_cost
            + self.entry_fee > u64::MAX || self.vault + self.entry_cost + self.entry_fee
            > u64::MAX {
            Some(PokerError::Overflow)
        } else {
            None
        }
    }

    /// Register `player`: create their receipt, count them, and charge the
    /// entry cost plus fee into the vault.  On success the host moves that
    /// amount from the player's external account.
    pub fn register_tournament(&mut self, player: [u8; 32]) -> (r: Result<(), PokerError>)
        requires
            old(self).well_formed(),
        ensures
            final(self).well_formed(),
            final(self).same_config(*old(self)),
            match old(self).register_check(player) {
                Some(e) => r == Err::<(), PokerError>(e) && *final(self) == *old(self),
                None => {
                    &&& r == Ok::<(), PokerError>(())
                    &&& final(self).players == old(self).players + 1
                    &&& final(self).players_with_rebuys == old(self).players_with_rebuys + 1
                    &&& final(self).vault == old(self).vault + old(self).entry_cost + old(
                        self,
                    ).entry_fee
                    &&& final(self).registrations@ == old(self).registrations@.push(
                        Registration {
                            player,
                            receipt: TournamentPlayerAccount {
                                position_finished: 0,
                                has_busted: false,
                                rebuys: 0,
                            },
                        },
                    )
                    &&& final(self).has_started == old(self).has_started
                    &&& final(self).registration_open == old(self).registration_open
                    &&& final(self).payouts@ == old(self).payouts@
                    &&& final(self).nft_payouts@ == old(self).nft_payouts@
                    &&& final(self).min_players == old(self).min_players
                },
            },
    {
        if Self::find_registrant(&self.registrations, &player).is_some() {
            return Err(PokerError::AlreadyAtTable);
        }
        if self.players >= self.max_players {
            return Err(PokerError::GameFull);
        }
        if self.players_with_rebuys >= 65535 || self.entry_cost > u64::MAX - self.entry_fee
            || self.vault > u64::MAX - (self.entry_cost + self.entry_fee) {
            return Err(PokerError::Overflow);
        }
        proof {
            let c = self.entry_cost as int;
            let f = self.entry_fee as int;
            let n = self.players_with_rebuys as int;
            assert((c + f) * (n + 1) == (c + f) * n + (c + f)) by (nonlinear_arith);
        }
        self.players = self.players + 1;
        self.players_with_rebuys = self.players_with_rebuys + 1;
        self.vault = self.vault + (self.entry_cost + self.entry_fee);
        let receipt = TournamentPlayerAccount { position_finished: 0, has_busted: false, rebuys: 0 };
        self.registrations.push(Registration { player, receipt });
        Ok(())
    }

    /// The first error `unregister_tournament` reports, or `None` when the
    /// refund is owed success.
    pub open spec fn unregister_check(self, player: [u8; 32]) -> Option<PokerError> {
        if self.has_started {
            Some(PokerError::TournamentAlreadyStarted)
        } else if !has_registrant(self.registrations@, player@) {
            Some(PokerError::NotAtTable)
        } else {
            None
        }
    }

    /// Player-initiated withdrawal before the start: the receipt is
    /// destroyed, both counters drop, and the full entry cost plus fee is
    /// refunded out of the vault.  The pre-start vault invariant guarantees
    /// the refund is always covered.
    pub fn unregister_tournament(&mut self, player: [u8; 32]) -> (r: Result<Payout, PokerError>)
        requires
            old(self).well_formed(),
        ensures
            final(self).well_formed(),
            final(self).same_config(*old(self)),
            match old(self).unregister_check(player) {
                Some(e) => r == Err::<Payout, PokerError>(e) && *final(self) == *old(self),
                None => {
                    &&& r matches Ok(pay) && pay.to == player && pay.amount == old(self).entry_cost
                        + old(self).entry_fee
                    &&& final(self).players == old(self).players - 1
                    &&& final(self).players_with_rebuys == old(self).players_with_rebuys - 1
                    &&& final(self).vault == old(self).vault - old(self).entry_cost - old(
                        self,
                    ).entry_fee
                    &&& final(self).registrations@ == old(self).registrations@.remove(
                        registrant_index(old(self).registrations@, player@),
                    )
                    &&& final(self).has_started == old(self).has_started
                    &&& final(self).registration_open == old(self).registration_open
                    &&& final(self).payouts@ == old(self).payouts@
                    &&& final(self).nft_payouts@ == old(self).nft_payouts@
                    &&& final(self).min_players == old(self).min_players
                },
            },
    {
        if self.has_started {
            return Err(PokerError::TournamentAlreadyStarted);
        }
        proof {
            lemma_registrant_index(self.registrations@, player@);
        }
        let idx = match Self::find_registrant(&self.registrations, &player) {
            Some(i) => i,
            None => { return Err(PokerError::NotAtTable) },
        };
        proof {
            let ri = registrant_index(self.registrations@, player@);
            assert(self.registrations@[idx as int].player@ == player@);
            assert(has_registrant(self.registrations@, player@));
            assert(ri == idx as int);
            lemma_remove_distinct(self.registrations@, idx as int);
            let c = self.entry_cost as int;
            let f = self.entry_fee as int;
            let n = self.players_with_rebuys as int;
            assert(n >= 1);
            assert((c + f) * n == (c + f) * (n - 1) + (c + f)) by (nonlinear_arith);
            assert((c + f) * (n - 1) >= 0) by (nonlinear_arith)
                requires
                    c >= 0,
                    f >= 0,
                    n >= 1,
            ;
        }
        let refund = self.entry_cost + self.entry_fee;
        self.players = self.players - 1;
        self.players_with_rebuys = self.players_with_rebuys - 1;
        self.vault = self.vault - refund;
        self.registrations.remove(idx);
        Ok(Payout { to: player, amount: refund })
    }

    /// The first error `refund_tournament` reports, or `None` when the
    /// forced refund is owed success.
    pub open spec fn refund_check(self, payer: [u8; 32], player: [u8; 32]) -> Option<PokerError> {
        if payer@ != self.owner@ {
            Some(PokerError::NotGameOwner)
        } else if !has_registrant(self.registrations@, player@) {
            Some(PokerError::NotAtTable)
        } else if self.entry_cost + self.entry_fee > self.vault as int {
            Some(PokerError::NotEnoughFunds)
        } else {
            None
        }
    }

    /// Owner-forced unregistration, usable even after the start: same
    /// refund arithmetic as [`Self::unregister_tournament`], destroys the
    /// receipt.  After the start the vault may already have paid finishers,
    /// so a refund it cannot cover is refused.
    pub fn refund_tournament(&mut self, payer: [u8; 32], player: [u8; 32]) -> (r: Result<
        Payout,
        PokerError,
    >)
        requires
            old(self).well_formed(),
        ensures
            final(self).well_formed(),
            final(self).same_config(*old(self)),
            match old(self).refund_check(payer, player) {
                Some(e) => r == Err::<Payout, PokerError>(e) && *final(self) == *old(self),
                None => {
                    &&& r matches Ok(pay) && pay.to == player && pay.amount == old(self).entry_cost
                        + old(self).entry_fee
                    &&& final(self).players == old(self).players - 1
                    &&& final(self).players_with_rebuys == old(self).players_with_rebuys - 1
                    &&& final(self).vault == old(self).vault - old(self).entry_cost - old(
                        self,
                    ).entry_fee
                    &&& final(self).registrations@ == old(self).registrations@.remove(
                        registrant_index(old(self).registrations@, player@),
                    )
                    &&& final(self).has_started == old(self).has_started
                    &&& final(self).registration_open == old(self).registration_open
                    &&& final(self).payouts@ == old(self).payouts@
                    &&& final(self).nft_payouts@ == old(self).nft_payouts@
                    &&& final(self).min_players == old(self).min_players
                },
            },
    {
        if !crate::authority::addr_eq(&payer, &self.owner) {
            return Err(PokerError::NotGameOwner);
        }
        proof {
            lemma_registrant_index(self.registrations@, player@);
        }
        let idx = match Self::find_registrant(&self.registrations, &player) {
            Some(i) => i,
            None => { return Err(PokerError::NotAtTable) },
        };
        if self.entry_cost > u64::MAX - self.entry_fee || self.entry_cost + self.entry_fee
            > self.vault {
            return Err(PokerError::NotEnoughFunds);
        }
        proof {
            let ri = registrant_index(self.registrations@, player@);
            assert(self.registrations@[idx as int].player@ == player@);
            assert(has_registrant(self.registrations@, player@));
            assert(ri == idx as int);
            lemma_remove_distinct(self.registrations@, idx as int);
            if !self.has_started {
                let c = self.entry_cost as int;
                let f = self.entry_fee as int;
                let n = self.players_with_rebuys as int;
                assert((c + f) * n == (c + f) * (n - 1) + (c + f)) by (nonlinear_arith);
            }
        }
        let refund = self.entry_cost + self.entry_fee;
        self.players = self.players - 1;
        self.players_with_rebuys = self.players_with_rebuys - 1;
        self.vault = self.vault - refund;
        self.registrations.remove(idx);
        Ok(Payout { to: player, amount: refund })
    }

    /// The prize pool: entry costs of every registration ever made
    /// (re-entries included), floored by the guarantee.  Entry fees are the
    /// house's take and never enter the pool.
    pub open spec fn prize_pool(self) -> int {
        let base = self.entry_cost * self.players_with_rebuys;
        if self.guarantee > base {
            self.guarantee as int
        } else {
            base
        }
    }

    /// Whether the next player to bust finishes in the money: registration
    /// has closed and every remaining finisher fits within the paid places.
    pub open spec fn in_the_money(self) -> bool {
        &&& !self.registration_open
        &&& self.payouts@.len() >= self.players as int
    }

    /// The payout owed to the next player to bust: the share scheduled for
    /// the current finishing rank, in per mille of the pool, with integer
    /// truncation.  The truncation remainder stays in the vault and is
    /// swept to the owner at closure.
    pub open spec fn bust_payout(self) -> int {
        self.payouts@[self.players as int - 1] * self.prize_pool() / 1000
    }

    /// The first error `payout_tournament_player` reports, or `None`.
    pub open spec fn payout_check(self, payer: [u8; 32], player: [u8; 32]) -> Option<PokerError> {
        if payer@ != self.owner@ {
            Some(PokerError::NotGameOwner)
        } else if !has_registrant(self.registrations@, player@) {
            Some(PokerError::NotAtTable)
        } else if !self.has_started {
            Some(PokerError::TournamentNotStarted)
        } else if self.in_the_money() && self.bust_payout() > self.vault as int {
            Some(PokerError::NotEnoughFunds)
        } else {
            None
        }
    }

    /// Bust `player` out of the tournament.  Their receipt is destroyed and
    /// the field shrinks by one; if they finish in the money, the vault
    /// pays out their scheduled share of the prize pool.
    pub fn payout_tournament_player(&mut self, payer: [u8; 32], player: [u8; 32]) -> (r: Result<
        Option<Payout>,
        PokerError,
    >)
        requires
            old(self).well_formed(),
        ensures
            final(self).well_formed(),
            final(self).same_config(*old(self)),
            match old(self).payout_check(payer, player) {
                Some(e) => r == Err::<Option<Payout>, PokerError>(e) && *final(self) == *old(self),
                None => {
                    &&& match r {
                        Ok(Some(pay)) => old(self).in_the_money() && pay.to == player
                            && pay.amount == old(self).bust_payout() && final(self).vault == old(
                            self,
                        ).vault - old(self).bust_payout(),
                        Ok(None) => !old(self).in_the_money() && final(self).vault == old(
                            self,
                        ).vault,
                        Err(_) => false,
                    }
                    &&& final(self).players == old(self).players - 1
                    &&& final(self).players_with_rebuys == old(self).players_with_rebuys
                    &&& final(self).registrations@ == old(self).registrations@.remove(
                        registrant_index(old(self).registrations@, player@),
                    )
                    &&& final(self).has_started == old(self).has_started
                    &&& final(self).registration_open == old(self).registration_open
                    &&& final(self).payouts@ == old(self).payouts@
                    &&& final(self).nft_payouts@ == old(self).nft_payouts@
                    &&& final(self).min_players == old(self).min_players
                },
            },
    {
        if !crate::authority::addr_eq(&payer, &self.owner) {
            return Err(PokerError::NotGameOwner);
        }
        proof {
            lemma_registrant_index(self.registrations@, player@);
        }
        let idx = match Self::find_registrant(&self.registrations, &player) {
            Some(i) => i,
            None => { return Err(PokerError::NotAtTable) },
        };
        if !self.has_started {
            return Err(PokerError::TournamentNotStarted);
        }
        proof {
            let ri = registrant_index(self.registrations@, player@);
            assert(self.registrations@[idx as int].player@ == player@);
            assert(has_registrant(self.registrations@, player@));
            assert(ri == idx as int);
            lemma_remove_distinct(self.registrations@, idx as int);
            assert(self.entry_cost as int * self.players_with_rebuys as int
                <= 0xffff_ffff_ffff_ffff * 0xffff) by (nonlinear_arith)
                requires
                    0 <= self.entry_cost <= 0xffff_ffff_ffff_ffff,
                    0 <= self.players_with_rebuys <= 0xffff,
            ;
        }
        let paid_out: Option<Payout> = if !self.registration_open && self.payouts.len()
            >= self.players as usize {
            let base = (self.entry_cost as u128) * (self.players_with_rebuys as u128);
            let pool = if (self.guarantee as u128) > base {
                self.guarantee as u128
            } else {
                base
            };
            let share = self.payouts[self.players as usize - 1];
            proof {
                assert((share as int) * (pool as int) <= 0xffff * (0xffff_ffff_ffff_ffff * 0xffff
                    + 0xffff_ffff_ffff_ffff)) by (nonlinear_arith)
                    requires
                        0 <= share <= 0xffff,
                        0 <= pool as int <= 0xffff_ffff_ffff_ffff * 0xffff
                            + 0xffff_ffff_ffff_ffff,
                ;
            }
            let amount128 = ((share as u128) * pool) / 1000;
            if amount128 > self.vault as u128 {
                return Err(PokerError::NotEnoughFunds);
            }
            let amount = amount128 as u64;
            self.vault = self.vault - amount;
            Some(Payout { to: player, amount })
        } else {
            None
        };
        self.players = self.players - 1;
        self.registrations.remove(idx);
        Ok(paid_out)
    }

    /// The first error the non-fungible-prize operations report before
    /// touching state, or `None`.
    pub open spec fn nft_prize_check(self, payer: [u8; 32]) -> Option<PokerError> {
        if payer@ != self.owner@ {
            Some(PokerError::NotGameOwner)
        } else if self.has_started {
            Some(PokerError::TournamentAlreadyStarted)
        } else {
            None
        }
    }

    /// Escrow a non-fungible prize for finishing place `data.place_paid`.
    /// The host moves the prize token into an escrow keyed by the
    /// tournament and the place; the ledger records the covered place and
    /// raises the minimum field size to reach it.
    pub fn add_nft_tournament_prize(&mut self, payer: [u8; 32], data: NftTournamentPrizeData)
        -> (r: Result<(), PokerError>)
        requires
            old(self).well_formed(),
        ensures
            final(self).well_formed(),
            final(self).same_config(*old(self)),
            match old(self).nft_prize_check(payer) {
                Some(e) => r == Err::<(), PokerError>(e) && *final(self) == *old(self),
                None => {
                    &&& r == Ok::<(), PokerError>(())
                    &&& final(self).nft_payouts@ == old(self).nft_payouts@.push(data.place_paid)
                    &&& final(self).min_players == if data.place_paid > old(self).min_players {
                        data.place_paid
                    } else {
                        old(self).min_players
                    }
                    &&& final(self).payouts@ == old(self).payouts@
                    &&& final(self).registrations@ == old(self).registrations@
                    &&& final(self).players == old(self).players
                    &&& final(self).players_with_rebuys == old(self).players_with_rebuys
                    &&& final(self).vault == old(self).vault
                    &&& final(self).has_started == old(self).has_started
                    &&& final(self).registration_open == old(self).registration_open
                },
            },
    {
        if !crate::authority::addr_eq(&payer, &self.owner) {
            return Err(PokerError::NotGameOwner);
        }
        if self.has_started {
            return Err(PokerError::TournamentAlreadyStarted);
        }
        self.nft_payouts.push(data.place_paid);
        if data.place_paid > self.min_players {
            self.min_players = data.place_paid;
        }
        Ok(())
    }

    /// The first error `remove_nft_tournament_prize` reports, or `None`.
    pub open spec fn remove_nft_check(self, payer: [u8; 32], place: u16) -> Option<PokerError> {
        match self.nft_prize_check(payer) {
            Some(e) => Some(e),
            None => if !self.nft_payouts@.contains(place) {
                Some(PokerError::InvalidAddress)
            } else {
                None
            },
        }
    }

    /// Release the escrowed non-fungible prize of place `data.place_paid`
    /// back to the owner.  The covered place is struck from the record and
    /// the minimum field size shrinks to the largest place still covered,
    /// as long as that stays above two.
    pub fn remove_nft_tournament_prize(&mut self, payer: [u8; 32], data: NftTournamentPrizeData)
        -> (r: Result<(), PokerError>)
        requires
            old(self).well_formed(),
        ensures
            final(self).well_formed(),
            final(self).same_config(*old(self)),
            match old(self).remove_nft_check(payer, data.place_paid) {
                Some(e) => r == Err::<(), PokerError>(e) && *final(self) == *old(self),
                None => {
                    let remaining = old(self).nft_payouts@.remove(
                        nft_place_index(old(self).nft_payouts@, data.place_paid),
                    );
                    &&& r == Ok::<(), PokerError>(())
                    &&& final(self).nft_payouts@ == remaining
                    &&& final(self).min_players as int == if remaining.len() > 0 && place_max(
                        remaining,
                    ) < old(self).min_players as int && place_max(remaining) > 2 {
                        place_max(remaining)
                    } else {
                        old(self).min_players as int
                    }
                    &&& final(self).payouts@ == old(self).payouts@
                    &&& final(self).registrations@ == old(self).registrations@
                    &&& final(self).players == old(self).players
                    &&& final(self).players_with_rebuys == old(self).players_with_rebuys
                    &&& final(self).vault == old(self).vault
                    &&& final(self).has_started == old(self).has_started
                    &&& final(self).registration_open == old(self).registration_open
                },
            },
    {
        if !crate::authority::addr_eq(&payer, &self.owner) {
            return Err(PokerError::NotGameOwner);
        }
        if self.has_started {
            return Err(PokerError::TournamentAlreadyStarted);
        }
        proof {
            lemma_nft_place_index(self.nft_payouts@, data.place_paid);
        }
        let idx = match Self::find_place(&self.nft_payouts, data.place_paid) {
            Some(i) => i,
            None => { return Err(PokerError::InvalidAddress) },
        };
        proof {
            let pi = nft_place_index(self.nft_payouts@, data.place_paid);
            assert(self.nft_payouts@[idx as int] == data.place_paid);
            assert(self.nft_payouts@.contains(data.place_paid));
        }
        self.nft_payouts.remove(idx);
        if self.nft_payouts.len() > 0 {
            let m = Self::max_place(&self.nft_payouts);
            if m < self.min_players && m > 2 {
                self.min_players = m;
            }
        }
        Ok(())
    }

    /// The index of the first record of `place`, if any.
    fn find_place(places: &Vec<u16>, place: u16) -> (r: Option<usize>)
        ensures
            match r {
                Some(i) => i < places@.len() && places@[i as int] == place && i as int
                    == nft_place_index(places@, place),
                None => !places@.contains(place),
            },
    {
        let mut i: usize = 0;
        while i < places.len()
            invariant
                0 <= i <= places@.len(),
                forall|j: int| 0 <= j < i ==> places@[j] != place,
            decreases places@.len() - i,
        {
            if places[i] == place {
                proof {
                    lemma_nft_place_index(places@, place);
                    assert(places@.contains(place));
                }
                return Some(i);
            }
            i = i + 1;
        }
        assert(!places@.contains(place)) by {
            if places@.contains(place) {
                let w = choose|w: int| 0 <= w < places@.len() && places@[w] == place;
                assert(places@[w] != place);
            }
        }
        None
    }

    /// The largest recorded place, computed exactly.
    fn max_place(places: &Vec<u16>) -> (m: u16)
        requires
            places@.len() > 0,
        ensures
            m as int == place_max(places@),
    {
        let mut m: u16 = 0;
        let mut i: usize = 0;
        while i < places.len()
            invariant
                0 <= i <= places@.len(),
                m as int == place_max(places@.take(i as int)),
            decreases places@.len() - i,
        {
            proof {
                assert(places@.take(i as int + 1).drop_last() =~= places@.take(i as int));
            }
            if places[i] > m {
                m = places[i];
            }
            i = i + 1;
        }
        proof {
            assert(places@.take(places@.len() as int) =~= places@);
        }
        m
    }

    /// The error `close_tournament` reports, or `None` when closure is owed
    /// success.
    pub open spec fn close_check(self, payer: [u8; 32]) -> Option<PokerError> {
        if payer@ != self.owner@ {
            Some(PokerError::NotGameOwner)
        } else if self.players != 0 {
            Some(PokerError::PlayersStillAtTable)
        } else if self.nft_payouts@.len() > 1 {
            Some(PokerError::NFTsEscrowedInTournament)
        } else {
            None
        }
    }

    /// Destroy an emptied tournament: the remaining vault balance — fees,
    /// truncation remainders, and any unused guarantee — is swept to the
    /// owner and the account ceases to exist.  On an error the account is
    /// handed back untouched.
    pub fn close_tournament(self, payer: [u8; 32]) -> (r: Result<
        u64,
        (TournamentAccount, PokerError),
    >)
        requires
            self.well_formed(),
        ensures
            match r {
                Ok(swept) => self.close_check(payer) is None && swept == self.vault,
                Err(back) => self.close_check(payer) == Some(back.1) && back.0 == self,
            },
    {
        if !crate::authority::addr_eq(&payer, &self.owner) {
            return Err((self, PokerError::NotGameOwner));
        }
        if self.players != 0 {
            return Err((self, PokerError::PlayersStillAtTable));
        }
        if self.nft_payouts.len() > 1 {
            return Err((self, PokerError::NFTsEscrowedInTournament));
        }
        Ok(self.vault)
    }
}

/// The index of the first record of `place` in a list of covered places,
/// or `-1` when there is none.
pub open spec fn nft_place_index(s: Seq<u16>, place: u16) -> int
    decreases s.len(),
{
    if s.len() == 0 {
        -1
    } else if s[0] == place {
        0
    } else {
        let rest = nft_place_index(s.subrange(1, s.len() as int), place);
        if rest == -1 {
            -1
        } else {
            rest + 1
        }
    }
}

pub proof fn lemma_nft_place_index(s: Seq<u16>, place: u16)
    ensures
        (nft_place_index(s, place) == -1) <==> !s.contains(place),
        nft_place_index(s, place) != -1 ==> 0 <= nft_place_index(s, place) < s.len() && s[
            nft_place_index(s, place)] == place && (forall|j: int|
            0 <= j < nft_place_index(s, place) ==> s[j] != place),
    decreases s.len(),
{
    if s.len() == 0 {
        assert(!s.contains(place));
    } else if s[0] == place {
        assert(s.contains(place));
    } else {
        let rest = s.subrange(1, s.len() as int);
        lemma_nft_place_index(rest, place);
        let ri = nft_place_index(rest, place);
        if ri == -1 {
            if s.contains(place) {
                let i = choose|i: int| 0 <= i < s.len() && s[i] == place;
                assert(rest[i - 1] == s[i]);
                assert(rest.contains(place));
            }
            assert(!s.contains(place));
        } else {
            assert(s[ri + 1] == rest[ri]);
            assert(s.contains(place));
            assert forall|j: int| 0 <= j < ri + 1 implies s[j] != place by {
                if j > 0 {
                    assert(rest[j - 1] == s[j]);
                }
            }
        }
    }
}

} // verus!
