//! The cash-game ledger.
//!
//! A [`GameAccount`] owns a capacity-bounded seat list and per-seat balances
//! for a single cash game.  Participants join with a deposit, top up through
//! a pending add-on bucket, have the outcome of play applied as a batch of
//! balance adjustments, and are paid out and unseated when they leave.  The
//! `vault` field mirrors the external custody balance; every operation keeps
//! it at least the sum of all seated balances and pending add-ons, and the
//! difference is the rake the owner sweeps at closure.

use vstd::prelude::*;

use crate::errors::PokerError;
use crate::Payout;

verus! {

/// One seat at the table: the participant's withdrawal address, their live
/// balance, and a pending top-up that reconciliation folds into the balance
/// as far as the deposit ceiling allows.
#[derive(Clone, Copy, Debug)]
pub struct SeatedPlayer {
    pub address: [u8; 32],
    pub balance: u64,
    pub add_on: u64,
}

/// Arguments of [`GameAccount::create_cash_game`].
#[derive(Clone, Copy, Debug)]
pub struct CreateGameData {
    pub max_players: u16,
    pub min_deposit: u64,
    pub max_deposit: u64,
    pub token_mint: [u8; 32],
}

/// Arguments of [`GameAccount::join_game`].
#[derive(Clone, Copy, Debug)]
pub struct JoinGameArgs {
    pub amount: u64,
}

/// Arguments of [`GameAccount::add_chips`].
#[derive(Clone, Copy, Debug)]
pub struct AddChipsData {
    pub amount: u64,
}

/// Arguments of [`GameAccount::refund_player`].
#[derive(Clone, Copy, Debug, PartialEq, Eq, Structural)]
pub struct RefundPlayerParams {
    pub amount: u64,
}

/// Arguments of [`GameAccount::eject_players`]: one transfer amount per
/// supplied external token account, owner-computed.
#[derive(Clone, Debug)]
pub struct EjectPlayersParams {
    pub amounts: Vec<u64>,
}

/// The funds a seat holds in custody: live balance plus pending add-on.
pub open spec fn seat_amount(p: SeatedPlayer) -> int {
    p.balance + p.add_on
}

/// The funds all seats together hold in custody.
pub open spec fn seat_total(s: Seq<SeatedPlayer>) -> int
    decreases s.len(),
{
    if s.len() == 0 {
        0
    } else {
        seat_total(s.drop_last()) + seat_amount(s.last())
    }
}

/// Whether some seat carries the withdrawal address `addr`.
pub open spec fn has_address(s: Seq<SeatedPlayer>, addr: Seq<u8>) -> bool {
    exists|i: int| 0 <= i < s.len() && s[i].address@ == addr
}

/// No two seats share a withdrawal address.
pub open spec fn distinct_addresses(s: Seq<SeatedPlayer>) -> bool {
    forall|i: int, j: int| 0 <= i < j < s.len() ==> s[i].address@ != s[j].address@
}

pub proof fn lemma_seat_total_nonneg(s: Seq<SeatedPlayer>)
    ensures
        seat_total(s) >= 0,
    decreases s.len(),
{
    if s.len() > 0 {
        lemma_seat_total_nonneg(s.drop_last());
    }
}

pub proof fn lemma_seat_total_push(s: Seq<SeatedPlayer>, p: SeatedPlayer)
    ensures
        seat_total(s.push(p)) == seat_total(s) + seat_amount(p),
{
    assert(s.push(p).drop_last() =~= s);
}

pub proof fn lemma_seat_total_update(s: Seq<SeatedPlayer>, i: int, p: SeatedPlayer)
    requires
        0 <= i < s.len(),
    ensures
        seat_total(s.update(i, p)) == seat_total(s) - seat_amount(s[i]) + seat_amount(p),
    decreases s.len(),
{
    let t = s.update(i, p);
    if i == s.len() - 1 {
        assert(t.drop_last() =~= s.drop_last());
    } else {
        assert(t.drop_last() =~= s.drop_last().update(i, p));
        lemma_seat_total_update(s.drop_last(), i, p);
    }
}

/// Every prefix of a seat list custodies no more than the whole list.
pub proof fn lemma_seat_total_take_le(s: Seq<SeatedPlayer>, k: int)
    requires
        0 <= k <= s.len(),
    ensures
        seat_total(s.take(k)) <= seat_total(s),
    decreases s.len() - k,
{
    if k < s.len() {
        assert(s.take(k + 1).drop_last() =~= s.take(k));
        assert(seat_total(s.take(k + 1)) == seat_total(s.take(k)) + seat_amount(s[k]));
        lemma_seat_total_take_le(s, k + 1);
    } else {
        assert(s.take(k) =~= s);
    }
}

/// The index of the first seat holding `addr`, or `-1` when no seat does.
pub open spec fn seat_index(s: Seq<SeatedPlayer>, addr: Seq<u8>) -> int
    decreases s.len(),
{
    if s.len() == 0 {
        -1
    } else if s[0].address@ == addr {
        0
    } else {
        let rest = seat_index(s.subrange(1, s.len() as int), addr);
        if rest == -1 {
            -1
        } else {
            rest + 1
        }
    }
}

pub proof fn lemma_seat_index(s: Seq<SeatedPlayer>, addr: Seq<u8>)
    ensures
        (seat_index(s, addr) == -1) <==> !has_address(s, addr),
        seat_index(s, addr) != -1 ==> 0 <= seat_index(s, addr) < s.len() && s[seat_index(
            s,
            addr,
        )].address@ == addr,
    decreases s.len(),
{
    if s.len() == 0 {
        assert(!has_address(s, addr));
    } else if s[0].address@ == addr {
        assert(has_address(s, addr));
    } else {
        let rest = s.subrange(1, s.len() as int);
        lemma_seat_index(rest, addr);
        let ri = seat_index(rest, addr);
        if ri == -1 {
            if has_address(s, addr) {
                let i = choose|i: int| 0 <= i < s.len() && s[i].address@ == addr;
                assert(rest[i - 1] == s[i]);
                assert(has_address(rest, addr));
            }
            assert(!has_address(s, addr));
        } else {
            assert(s[ri + 1] == rest[ri]);
            assert(has_address(s, addr));
        }
    }
}

/// One signed balance change in a settlement batch: the outcome of play as
/// reported from outside, credited to or debited from a single seat.
#[derive(Clone, Copy, Debug)]
pub enum ChipDelta {
    Add(u64),
    Sub(u64),
}

/// One entry of a settlement batch: which seated participant, and how their
/// balance changes.
#[derive(Clone, Copy, Debug)]
pub struct Adjustment {
    pub player: [u8; 32],
    pub delta: ChipDelta,
}

/// The seat `p` after one balance change, or the arithmetic error that
/// rejects it: a debit below zero is `Underflow`, a credit past the machine
/// bound is `Overflow`.
pub open spec fn adjusted_seat(p: SeatedPlayer, delta: ChipDelta) -> Result<
    SeatedPlayer,
    PokerError,
> {
    match delta {
        ChipDelta::Add(amt) => if p.balance + amt > u64::MAX {
            Err(PokerError::Overflow)
        } else {
            Ok(SeatedPlayer { balance: (p.balance + amt) as u64, ..p })
        },
        ChipDelta::Sub(amt) => if p.balance < amt {
            Err(PokerError::Underflow)
        } else {
            Ok(SeatedPlayer { balance: (p.balance - amt) as u64, ..p })
        },
    }
}

/// The seat list after one adjustment, or the first error it raises.
pub open spec fn apply_adjustment(s: Seq<SeatedPlayer>, a: Adjustment) -> Result<
    Seq<SeatedPlayer>,
    PokerError,
> {
    let i = seat_index(s, a.player@);
    if i == -1 {
        Err(PokerError::NotAtTable)
    } else {
        match adjusted_seat(s[i], a.delta) {
            Ok(p) => Ok(s.update(i, p)),
            Err(e) => Err(e),
        }
    }
}

/// The seat list after a whole settlement batch applied in order, or the
/// first error any entry raises.  An error anywhere rejects the whole
/// batch.
pub open spec fn apply_adjustments(s: Seq<SeatedPlayer>, adjs: Seq<Adjustment>) -> Result<
    Seq<SeatedPlayer>,
    PokerError,
>
    decreases adjs.len(),
{
    if adjs.len() == 0 {
        Ok(s)
    } else {
        match apply_adjustments(s, adjs.drop_last()) {
            Ok(t) => apply_adjustment(t, adjs.last()),
            Err(e) => Err(e),
        }
    }
}

/// The net amount a settlement batch credits (positive) or debits
/// (negative) across all seats.
pub open spec fn net_delta(adjs: Seq<Adjustment>) -> int
    decreases adjs.len(),
{
    if adjs.len() == 0 {
        0
    } else {
        net_delta(adjs.drop_last()) + match adjs.last().delta {
            ChipDelta::Add(amt) => amt as int,
            ChipDelta::Sub(amt) => -(amt as int),
        }
    }
}

/// A successful adjustment batch never seats or unseats anyone, never
/// touches an add-on, and moves the seats' total custody by exactly the
/// batch's net delta.
pub proof fn lemma_apply_adjustments_shape(s: Seq<SeatedPlayer>, adjs: Seq<Adjustment>)
    ensures
        match apply_adjustments(s, adjs) {
            Ok(t) => {
                &&& t.len() == s.len()
                &&& forall|k: int|
                    0 <= k < s.len() ==> t[k].address == s[k].address && t[k].add_on
                        == s[k].add_on
                &&& seat_total(t) == seat_total(s) + net_delta(adjs)
            },
            Err(_) => true,
        },
    decreases adjs.len(),
{
    if adjs.len() > 0 {
        lemma_apply_adjustments_shape(s, adjs.drop_last());
        match apply_adjustments(s, adjs.drop_last()) {
            Ok(t) => {
                let a = adjs.last();
                lemma_seat_index(t, a.player@);
                let i = seat_index(t, a.player@);
                if i != -1 {
                    match adjusted_seat(t[i], a.delta) {
                        Ok(p) => {
                            lemma_seat_total_update(t, i, p);
                        },
                        Err(_) => {},
                    }
                }
            },
            Err(_) => {},
        }
    }
}

/// An error in any prefix of a settlement batch is the error of the whole
/// batch.
pub proof fn lemma_apply_adjustments_err_prefix(s: Seq<SeatedPlayer>, adjs: Seq<Adjustment>, m: int)
    requires
        0 <= m <= adjs.len(),
        apply_adjustments(s, adjs.take(m)) is Err,
    ensures
        apply_adjustments(s, adjs) == apply_adjustments(s, adjs.take(m)),
    decreases adjs.len() - m,
{
    if m == adjs.len() {
        assert(adjs.take(m) =~= adjs);
    } else {
        assert(adjs.take(m + 1).drop_last() =~= adjs.take(m));
        lemma_apply_adjustments_err_prefix(s, adjs, m + 1);
    }
}

/// The seat `p` after reconciliation: as much of the pending add-on as fits
/// under the deposit ceiling moves into the live balance; the rest stays
/// pending.  A balance already at or above the ceiling takes nothing.
pub open spec fn reconciled_seat(p: SeatedPlayer, ceiling: u64) -> SeatedPlayer {
    if p.balance >= ceiling {
        p
    } else if p.add_on <= ceiling - p.balance {
        SeatedPlayer { balance: (p.balance + p.add_on) as u64, add_on: 0, ..p }
    } else {
        SeatedPlayer { balance: ceiling, add_on: (p.add_on - (ceiling - p.balance)) as u64, ..p }
    }
}

/// The whole seat list after reconciliation.
pub open spec fn reconciled(s: Seq<SeatedPlayer>, ceiling: u64) -> Seq<SeatedPlayer>
    decreases s.len(),
{
    if s.len() == 0 {
        Seq::empty()
    } else {
        reconciled(s.drop_last(), ceiling).push(reconciled_seat(s.last(), ceiling))
    }
}

/// Reconciliation only shuffles funds between a seat's two buckets: seat
/// count, addresses, and every seat's total custody are unchanged.
pub proof fn lemma_reconciled_shape(s: Seq<SeatedPlayer>, ceiling: u64)
    ensures
        reconciled(s, ceiling).len() == s.len(),
        forall|k: int| 0 <= k < s.len() ==> reconciled(s, ceiling)[k] == reconciled_seat(
            s[k],
            ceiling,
        ),
        forall|k: int| 0 <= k < s.len() ==> reconciled(s, ceiling)[k].address == s[k].address,
        seat_total(reconciled(s, ceiling)) == seat_total(s),
    decreases s.len(),
{
    if s.len() > 0 {
        lemma_reconciled_shape(s.drop_last(), ceiling);
        lemma_seat_total_push(
            reconciled(s.drop_last(), ceiling),
            reconciled_seat(s.last(), ceiling),
        );
    }
}

/// Whether a settlement closes out the seat `p`: some supplied external
/// account names `p`'s withdrawal address.
pub open spec fn departing(p: SeatedPlayer, leavers: Seq<[u8; 32]>) -> bool {
    exists|j: int| 0 <= j < leavers.len() && leavers[j]@ == p.address@
}

/// The seats a settlement keeps: those no supplied account names.
pub open spec fn seats_kept(s: Seq<SeatedPlayer>, leavers: Seq<[u8; 32]>) -> Seq<SeatedPlayer>
    decreases s.len(),
{
    if s.len() == 0 {
        Seq::empty()
    } else {
        let r = seats_kept(s.drop_last(), leavers);
        if departing(s.last(), leavers) {
            r
        } else {
            r.push(s.last())
        }
    }
}

/// The close-out instructions a settlement issues: each departing seat is
/// paid its full custody, balance plus pending add-on, in seating order.
pub open spec fn departure_payouts(s: Seq<SeatedPlayer>, leavers: Seq<[u8; 32]>) -> Seq<Payout>
    decreases s.len(),
{
    if s.len() == 0 {
        Seq::empty()
    } else {
        let r = departure_payouts(s.drop_last(), leavers);
        if departing(s.last(), leavers) {
            r.push(
                Payout {
                    to: s.last().address,
                    amount: (s.last().balance + s.last().add_on) as u64,
                },
            )
        } else {
            r
        }
    }
}

/// The total a settlement pays out to departing seats.
pub open spec fn departure_total(s: Seq<SeatedPlayer>, leavers: Seq<[u8; 32]>) -> int
    decreases s.len(),
{
    if s.len() == 0 {
        0
    } else {
        departure_total(s.drop_last(), leavers) + if departing(s.last(), leavers) {
            seat_amount(s.last())
        } else {
            0
        }
    }
}

/// Closing out departing seats conserves funds: what the kept seats hold
/// plus what departs equals what all seats held, nothing is paid twice, and
/// the kept seats are a duplicate-free selection of the original ones.
pub proof fn lemma_departures(s: Seq<SeatedPlayer>, leavers: Seq<[u8; 32]>)
    ensures
        seat_total(s) == seat_total(seats_kept(s, leavers)) + departure_total(s, leavers),
        0 <= departure_total(s, leavers),
        seats_kept(s, leavers).len() <= s.len(),
        forall|a: Seq<u8>| #[trigger] has_address(seats_kept(s, leavers), a) ==> has_address(s, a),
        distinct_addresses(s) ==> distinct_addresses(seats_kept(s, leavers)),
    decreases s.len(),
{
    if s.len() > 0 {
        let dl = s.drop_last();
        let p = s.last();
        lemma_departures(dl, leavers);
        lemma_seat_total_nonneg(seats_kept(dl, leavers));
        assert forall|a: Seq<u8>| #[trigger] has_address(seats_kept(s, leavers), a) implies
        has_address(s, a) by {
            let kept = seats_kept(s, leavers);
            let i = choose|i: int| 0 <= i < kept.len() && kept[i].address@ == a;
            if departing(p, leavers) {
                assert(has_address(seats_kept(dl, leavers), a));
                let w = choose|w: int| 0 <= w < dl.len() && dl[w].address@ == a;
                assert(s[w].address@ == a);
            } else {
                if i < kept.len() - 1 {
                    assert(has_address(seats_kept(dl, leavers), a));
                    let w = choose|w: int| 0 <= w < dl.len() && dl[w].address@ == a;
                    assert(s[w].address@ == a);
                } else {
                    assert(s[s.len() - 1].address@ == a);
                }
            }
        }
        if !departing(p, leavers) {
            lemma_seat_total_push(seats_kept(dl, leavers), p);
            if distinct_addresses(s) {
                assert(distinct_addresses(dl));
                let kd = seats_kept(dl, leavers);
                assert forall|i: int, j: int| 0 <= i < j < kd.push(p).len() implies kd.push(
                    p,
                )[i].address@ != kd.push(p)[j].address@ by {
                    if j == kd.len() {
                        if kd[i].address@ == p.address@ {
                            assert(has_address(kd, p.address@));
                            let w = choose|w: int| 0 <= w < dl.len() && dl[w].address@
                                == p.address@;
                            assert(s[w].address@ == s[s.len() - 1].address@);
                        }
                    }
                }
            }
        }
    }
}
/// Whether the eject operation removes seat `p`: the seat's associated
/// token address for the game's mint is among the supplied external token
/// accounts.  A seat whose derivation finds no address matches nothing.
pub open spec fn ejected(p: SeatedPlayer, accounts: Seq<[u8; 32]>, mint: [u8; 32]) -> bool {
    match crate::authority::associated_token_key_of(p.address@, mint@) {
        Some(k) => exists|j: int| 0 <= j < accounts.len() && accounts[j]@ == k,
        None => false,
    }
}

/// The seats an eject keeps: those no supplied token account matches.
pub open spec fn seats_after_eject(
    s: Seq<SeatedPlayer>,
    accounts: Seq<[u8; 32]>,
    mint: [u8; 32],
) -> Seq<SeatedPlayer>
    decreases s.len(),
{
    if s.len() == 0 {
        Seq::empty()
    } else {
        let r = seats_after_eject(s.drop_last(), accounts, mint);
        if ejected(s.last(), accounts, mint) {
            r
        } else {
            r.push(s.last())
        }
    }
}

/// An eject only removes seats: what remains is a duplicate-free selection
/// of the original seats holding no more than they did.
pub proof fn lemma_seats_after_eject(s: Seq<SeatedPlayer>, accounts: Seq<[u8; 32]>, mint: [u8; 32])
    ensures
        seat_total(seats_after_eject(s, accounts, mint)) <= seat_total(s),
        seats_after_eject(s, accounts, mint).len() <= s.len(),
        forall|a: Seq<u8>| #[trigger] has_address(seats_after_eject(s, accounts, mint), a)
            ==> has_address(s, a),
        distinct_addresses(s) ==> distinct_addresses(seats_after_eject(s, accounts, mint)),
    decreases s.len(),
{
    if s.len() > 0 {
        let dl = s.drop_last();
        let p = s.last();
        lemma_seats_after_eject(dl, accounts, mint);
        lemma_seat_total_nonneg(dl);
        assert(seat_total(s) == seat_total(dl) + seat_amount(p));
        assert forall|a: Seq<u8>| #[trigger] has_address(
            seats_after_eject(s, accounts, mint),
            a,
        ) implies has_address(s, a) by {
            let kept = seats_after_eject(s, accounts, mint);
            let i = choose|i: int| 0 <= i < kept.len() && kept[i].address@ == a;
            if ejected(p, accounts, mint) || i < kept.len() - 1 {
                assert(has_address(seats_after_eject(dl, accounts, mint), a));
                let w = choose|w: int| 0 <= w < dl.len() && dl[w].address@ == a;
                assert(s[w].address@ == a);
            } else {
                assert(s[s.len() - 1].address@ == a);
            }
        }
        if !ejected(p, accounts, mint) {
            lemma_seat_total_push(seats_after_eject(dl, accounts, mint), p);
            if distinct_addresses(s) {
                assert(distinct_addresses(dl));
                let kd = seats_after_eject(dl, accounts, mint);
                assert forall|i: int, j: int| 0 <= i < j < kd.push(p).len() implies kd.push(
                    p,
                )[i].address@ != kd.push(p)[j].address@ by {
                    if j == kd.len() {
                        if kd[i].address@ == p.address@ {
                            assert(has_address(kd, p.address@));
                            let w = choose|w: int| 0 <= w < dl.len() && dl[w].address@
                                == p.address@;
                            assert(s[w].address@ == s[s.len() - 1].address@);
                        }
                    }
                }
            }
        }
    }
}

/// The sum of a list of transfer amounts.
pub open spec fn amount_total(a: Seq<u64>) -> int
    decreases a.len(),
{
    if a.len() == 0 {
        0
    } else {
        amount_total(a.drop_last()) + a.last()
    }
}

/// Fund conservation: in any well-formed game the vault's custody balance
/// equals the sum of all seated balances and pending add-ons plus the rake,
/// and the rake is never negative.  Every operation of [`GameAccount`]
/// ensures well-formedness of the state it leaves behind, so this holds at
/// every observation point of any operation sequence.
pub proof fn lemma_fund_conservation(g: GameAccount)
    requires
        g.well_formed(),
    ensures
        g.vault as int == seat_total(g.players@) + g.rake(),
        g.rake() >= 0,
        seat_total(g.players@) >= 0,
{
    lemma_seat_total_nonneg(g.players@);
}

/// No seat list of a well-formed game ever contains a duplicate participant
/// address.  Every operation of [`GameAccount`] ensures well-formedness of
/// the state it leaves behind, so this holds in every reachable state.
pub proof fn lemma_no_duplicate_seats(g: GameAccount, i: int, j: int)
    requires
        g.well_formed(),
        0 <= i < j < g.players@.len(),
    ensures
        g.players@[i].address@ != g.players@[j].address@,
{
}

/// One cash game's ledger: capacity-bounded seat list, per-seat balances,
/// and the mirrored custody balance of the game's vault.
#[derive(Clone, Debug)]
pub struct GameAccount {
    pub owner: [u8; 32],
    pub max_players: u16,
    pub min_deposit: u64,
    pub max_deposit: u64,
    pub players: Vec<SeatedPlayer>,
    pub token_mint: [u8; 32],
    /// The external custody balance this ledger has instructed into
    /// existence: everything deposited minus everything paid out.
    pub vault: u64,
}

impl GameAccount {
    /// The invariant every operation preserves: capacity is respected, no
    /// participant is seated twice, the deposit bounds are consistent, and
    /// the vault covers every seat.
    pub open spec fn well_formed(self) -> bool {
        &&& self.players@.len() <= self.max_players as int
        &&& distinct_addresses(self.players@)
        &&& seat_total(self.players@) <= self.vault as int
        &&& self.min_deposit <= self.max_deposit
    }

    /// The undistributed residue of the vault: funds no seat lays claim to.
    /// It grows by the net losses a settlement applies and is swept to the
    /// owner when the game closes.
    pub open spec fn rake(self) -> int {
        self.vault - seat_total(self.players@)
    }

    /// The administrative fields that no seating operation touches.
    pub open spec fn same_config(self, other: GameAccount) -> bool {
        &&& self.owner == other.owner
        &&& self.max_players == other.max_players
        &&& self.min_deposit == other.min_deposit
        &&& self.max_deposit == other.max_deposit
        &&& self.token_mint == other.token_mint
    }

    /// The first error `join_game` reports, or `None` when the join is owed
    /// success.
    pub open spec fn join_check(self, player: [u8; 32], amount: u64) -> Option<PokerError> {
        if self.players@.len() >= self.max_players as int {
            Some(PokerError::GameFull)
        } else if amount < self.min_deposit {
            Some(PokerError::DepositTooSmall)
        } else if amount > self.max_deposit {
            Some(PokerError::DepositTooLarge)
        } else if has_address(self.players@, player@) {
            Some(PokerError::AlreadyAtTable)
        } else if self.vault + amount > u64::MAX {
            Some(PokerError::Overflow)
        } else {
            None
        }
    }

    /// Allocate the ledger of a new cash game with an empty seat list.
    /// Inconsistent deposit bounds are rejected outright.
    pub fn create_cash_game(owner: [u8; 32], data: CreateGameData) -> (r: Result<
        GameAccount,
        PokerError,
    >)
        ensures
            match r {
                Ok(g) => {
                    &&& data.min_deposit <= data.max_deposit
                    &&& g.well_formed()
                    &&& g.owner == owner
                    &&& g.max_players == data.max_players
                    &&& g.min_deposit == data.min_deposit
                    &&& g.max_deposit == data.max_deposit
                    &&& g.token_mint == data.token_mint
                    &&& g.players@.len() == 0
                    &&& g.vault == 0
                },
                Err(e) => data.min_deposit > data.max_deposit && e == PokerError::DepositTooLarge,
            },
    {
        if data.min_deposit > data.max_deposit {
            return Err(PokerError::DepositTooLarge);
        }
        Ok(
            GameAccount {
                owner,
                max_players: data.max_players,
                min_deposit: data.min_deposit,
                max_deposit: data.max_deposit,
                players: Vec::new(),
                token_mint: data.token_mint,
                vault: 0,
            },
        )
    }

    /// Seat `player` with a deposit of `data.amount`.  On success the host
    /// moves the amount from the player's external account into the vault.
    /// On any error the seat list and vault are untouched.
    pub fn join_game(&mut self, player: [u8; 32], data: JoinGameArgs) -> (r: Result<
        (),
        PokerError,
    >)
        requires
            old(self).well_formed(),
        ensures
            final(self).well_formed(),
            final(self).same_config(*old(self)),
            match old(self).join_check(player, data.amount) {
                Some(e) => r == Err::<(), PokerError>(e) && *final(self) == *old(self),
                None => {
                    &&& r == Ok::<(), PokerError>(())
                    &&& final(self).players@ == old(self).players@.push(
                        SeatedPlayer { address: player, balance: data.amount, add_on: 0 },
                    )
                    &&& final(self).vault == old(self).vault + data.amount
                    &&& final(self).rake() == old(self).rake()
                },
            },
    {
        if self.players.len() >= self.max_players as usize {
            return Err(PokerError::GameFull);
        }
        if data.amount < self.min_deposit {
            return Err(PokerError::DepositTooSmall);
        }
        if data.amount > self.max_deposit {
            return Err(PokerError::DepositTooLarge);
        }
        if Self::find_seat(&self.players, &player).is_some() {
            return Err(PokerError::AlreadyAtTable);
        }
        if self.vault > u64::MAX - data.amount {
            return Err(PokerError::Overflow);
        }
        let seat = SeatedPlayer { address: player, balance: data.amount, add_on: 0 };
        proof {
            lemma_seat_total_push(self.players@, seat);
        }
        self.players.push(seat);
        self.vault = self.vault + data.amount;
        Ok(())
    }

    /// The first error `add_chips` reports, or `None` when the top-up is
    /// owed success.
    pub open spec fn add_chips_check(self, player: [u8; 32], amount: u64) -> Option<PokerError> {
        if !has_address(self.players@, player@) {
            Some(PokerError::NotAtTable)
        } else if amount > self.max_deposit {
            Some(PokerError::DepositTooLarge)
        } else if self.players@[seat_index(self.players@, player@)].add_on + amount > u64::MAX
            || self.vault + amount > u64::MAX {
            Some(PokerError::Overflow)
        } else {
            None
        }
    }

    /// Top `player` up by `data.amount`.  The amount lands in the seat's
    /// pending add-on bucket; the next settlement folds it into the live
    /// balance as far as the deposit ceiling allows.  The top-up amount
    /// itself is checked against `max_deposit`, not the resulting total.
    /// On success the host moves the amount into the vault.
    pub fn add_chips(&mut self, player: [u8; 32], data: AddChipsData) -> (r: Result<
        (),
        PokerError,
    >)
        requires
            old(self).well_formed(),
        ensures
            final(self).well_formed(),
            final(self).same_config(*old(self)),
            match old(self).add_chips_check(player, data.amount) {
                Some(e) => r == Err::<(), PokerError>(e) && *final(self) == *old(self),
                None => {
                    let i = seat_index(old(self).players@, player@);
                    let p = old(self).players@[i];
                    &&& r == Ok::<(), PokerError>(())
                    &&& final(self).players@ == old(self).players@.update(
                        i,
                        SeatedPlayer { add_on: (p.add_on + data.amount) as u64, ..p },
                    )
                    &&& final(self).vault == old(self).vault + data.amount
                    &&& final(self).rake() == old(self).rake()
                },
            },
    {
        proof {
            lemma_seat_index(self.players@, player@);
        }
        let idx = match Self::find_seat(&self.players, &player) {
            Some(i) => i,
            None => { return Err(PokerError::NotAtTable) },
        };
        if data.amount > self.max_deposit {
            return Err(PokerError::DepositTooLarge);
        }
        let p = self.players[idx];
        proof {
            let si = seat_index(self.players@, player@);
            assert(self.players@[idx as int].address@ == player@);
            assert(has_address(self.players@, player@));
            assert(si == idx as int);
        }
        if p.add_on > u64::MAX - data.amount || self.vault > u64::MAX - data.amount {
            return Err(PokerError::Overflow);
        }
        let np = SeatedPlayer { address: p.address, balance: p.balance, add_on: p.add_on
            + data.amount };
        proof {
            lemma_seat_total_update(self.players@, idx as int, np);
        }
        self.players[idx] = np;
        self.vault = self.vault + data.amount;
        Ok(())
    }

    /// The first error `refund_player` reports, or `None` when the refund is
    /// owed success.  A refund may only spend the rake: funds seats lay
    /// claim to are out of its reach.
    pub open spec fn refund_check(self, payer: [u8; 32], player: [u8; 32], amount: u64) -> Option<
        PokerError,
    > {
        if payer@ != self.owner@ {
            Some(PokerError::NotGameOwner)
        } else if !has_address(self.players@, player@) {
            Some(PokerError::NotAtTable)
        } else if amount > self.rake() {
            Some(PokerError::NotEnoughFunds)
        } else {
            None
        }
    }

    /// Owner-initiated out-of-band correction: pay `amount` from the vault's
    /// rake to a seated `player` without unseating them or touching their
    /// stored balance.
    pub fn refund_player(&mut self, payer: [u8; 32], player: [u8; 32], data: RefundPlayerParams)
        -> (r: Result<Payout, PokerError>)
        requires
            old(self).well_formed(),
        ensures
            final(self).well_formed(),
            final(self).same_config(*old(self)),
            match old(self).refund_check(payer, player, data.amount) {
                Some(e) => r == Err::<Payout, PokerError>(e) && *final(self) == *old(self),
                None => {
                    &&& r matches Ok(pay) && pay.to == player && pay.amount == data.amount
                    &&& final(self).players@ == old(self).players@
                    &&& final(self).vault == old(self).vault - data.amount
                    &&& final(self).rake() == old(self).rake() - data.amount
                },
            },
    {
        if !crate::authority::addr_eq(&payer, &self.owner) {
            return Err(PokerError::NotGameOwner);
        }
        if Self::find_seat(&self.players, &player).is_none() {
            return Err(PokerError::NotAtTable);
        }
        let seated = Self::total_funds(&self.players);
        proof {
            lemma_seat_total_nonneg(self.players@);
        }
        if (data.amount as u128) > (self.vault as u128) - seated {
            return Err(PokerError::NotEnoughFunds);
        }
        self.vault = self.vault - data.amount;
        Ok(Payout { to: player, amount: data.amount })
    }

    /// The error `close_game` reports, or `None` when closure is owed
    /// success.
    pub open spec fn close_check(self, payer: [u8; 32]) -> Option<PokerError> {
        if payer@ != self.owner@ {
            Some(PokerError::NotGameOwner)
        } else if self.players@.len() > 0 {
            Some(PokerError::PlayersStillAtTable)
        } else {
            None
        }
    }

    /// Destroy an emptied game: the residual vault balance — the rake — is
    /// swept to the owner and the account ceases to exist.  On an error the
    /// account is handed back untouched.
    pub fn close_game(self, payer: [u8; 32]) -> (r: Result<u64, (GameAccount, PokerError)>)
        requires
            self.well_formed(),
        ensures
            match r {
                Ok(swept) => self.close_check(payer) is None && swept == self.vault,
                Err(back) => self.close_check(payer) == Some(back.1) && back.0 == self,
            },
    {
        if !crate::authority::addr_eq(&payer, &self.owner) {
            return Err((self, PokerError::NotGameOwner));
        }
        if self.players.len() > 0 {
            return Err((self, PokerError::PlayersStillAtTable));
        }
        Ok(self.vault)
    }

    /// The funds all seats together hold, computed exactly (a seat list is
    /// capacity-bounded, so the sum fits well within 128 bits).
    pub fn total_funds(players: &Vec<SeatedPlayer>) -> (t: u128)
        requires
            players@.len() <= 65536,
        ensures
            t == seat_total(players@),
    {
        let mut t: u128 = 0;
        let mut i: usize = 0;
        while i < players.len()
            invariant
                0 <= i <= players@.len(),
                players@.len() <= 65536,
                t == seat_total(players@.take(i as int)),
                t <= (i as int) * 0x4_0000_0000_0000_0000,
            decreases players@.len() - i,
        {
            let p = players[i];
            proof {
                assert(players@.take(i as int + 1).drop_last() =~= players@.take(i as int));
                assert(seat_total(players@.take(i as int + 1)) == seat_total(
                    players@.take(i as int),
                ) + seat_amount(p));
            }
            t = t + (p.balance as u128) + (p.add_on as u128);
            i = i + 1;
        }
        proof {
            assert(players@.take(players@.len() as int) =~= players@);
        }
        t
    }

    /// The adjusted seat list a settlement commits, or the error that
    /// rejects the whole batch: the first adjustment error in order, then
    /// `NotEnoughFunds` if the adjusted seats would outgrow the vault.
    pub open spec fn settle_result(self, adjs: Seq<Adjustment>) -> Result<
        Seq<SeatedPlayer>,
        PokerError,
    > {
        match apply_adjustments(self.players@, adjs) {
            Err(e) => Err(e),
            Ok(t) => if seat_total(t) > self.vault as int {
                Err(PokerError::NotEnoughFunds)
            } else {
                Ok(t)
            },
        }
    }

    /// Batch settlement, the canonical close of a hand: apply every balance
    /// adjustment in order (all or nothing), reconcile pending add-ons into
    /// balances up to the deposit ceiling, then pay out and unseat every
    /// player one of the supplied external accounts names.  On any error —
    /// an unseated participant, a debit below zero, a credit past the
    /// machine bound, or adjustments the vault cannot cover — the entity is
    /// left byte-for-byte unchanged and nothing is paid.
    #[verifier::loop_isolation(false)]
    pub fn settle(&mut self, adjustments: &Vec<Adjustment>, leavers: &Vec<[u8; 32]>) -> (r: Result<
        Vec<Payout>,
        PokerError,
    >)
        requires
            old(self).well_formed(),
        ensures
            final(self).well_formed(),
            final(self).same_config(*old(self)),
            match old(self).settle_result(adjustments@) {
                Err(e) => r == Err::<Vec<Payout>, PokerError>(e) && *final(self) == *old(self),
                Ok(t) => {
                    let rec = reconciled(t, old(self).max_deposit);
                    match r {
                        Ok(pays) => {
                            &&& pays@ == departure_payouts(rec, leavers@)
                            &&& final(self).players@ == seats_kept(rec, leavers@)
                            &&& final(self).vault == old(self).vault - departure_total(
                                rec,
                                leavers@,
                            )
                            &&& final(self).rake() == old(self).rake() - net_delta(adjustments@)
                        },
                        Err(_) => false,
                    }
                },
            },
    {
        let ghost g0 = *self;
        // Work on a scratch copy so a failed batch leaves the entity
        // untouched.
        let mut adjusted: Vec<SeatedPlayer> = Vec::new();
        let mut ci: usize = 0;
        while ci < self.players.len()
            invariant
                0 <= ci <= self.players@.len(),
                adjusted@ == self.players@.take(ci as int),
            decreases self.players@.len() - ci,
        {
            adjusted.push(self.players[ci]);
            proof {
                assert(self.players@.take(ci as int + 1) =~= self.players@.take(ci as int).push(
                    self.players@[ci as int],
                ));
            }
            ci = ci + 1;
        }
        proof {
            assert(self.players@.take(self.players@.len() as int) =~= self.players@);
        }
        let mut ai: usize = 0;
        while ai < adjustments.len()
            invariant
                0 <= ai <= adjustments@.len(),
                apply_adjustments(g0.players@, adjustments@.take(ai as int)) == Ok::<
                    Seq<SeatedPlayer>,
                    PokerError,
                >(adjusted@),
                adjusted@.len() == g0.players@.len(),
                forall|k: int|
                    0 <= k < adjusted@.len() ==> adjusted@[k].address == g0.players@[k].address,
            decreases adjustments@.len() - ai,
        {
            let a = adjustments[ai];
            proof {
                lemma_seat_index(adjusted@, a.player@);
                assert(adjustments@.take(ai as int + 1).drop_last() =~= adjustments@.take(
                    ai as int,
                ));
            }
            let idx = match Self::find_seat(&adjusted, &a.player) {
                Some(i) => i,
                None => {
                    proof {
                        lemma_apply_adjustments_err_prefix(
                            g0.players@,
                            adjustments@,
                            ai as int + 1,
                        );
                    }
                    return Err(PokerError::NotAtTable);
                },
            };
            proof {
                let si = seat_index(adjusted@, a.player@);
                assert(adjusted@[idx as int].address@ == a.player@);
                assert(has_address(adjusted@, a.player@));
                assert(si == idx as int);
            }
            let p = adjusted[idx];
            let nb = match a.delta {
                ChipDelta::Add(amt) => {
                    if p.balance > u64::MAX - amt {
                        proof {
                            lemma_apply_adjustments_err_prefix(
                                g0.players@,
                                adjustments@,
                                ai as int + 1,
                            );
                        }
                        return Err(PokerError::Overflow);
                    }
                    p.balance + amt
                },
                ChipDelta::Sub(amt) => {
                    if p.balance < amt {
                        proof {
                            lemma_apply_adjustments_err_prefix(
                                g0.players@,
                                adjustments@,
                                ai as int + 1,
                            );
                        }
                        return Err(PokerError::Underflow);
                    }
                    p.balance - amt
                },
            };
            adjusted[idx] = SeatedPlayer { address: p.address, balance: nb, add_on: p.add_on };
            ai = ai + 1;
        }
        proof {
            assert(adjustments@.take(adjustments@.len() as int) =~= adjustments@);
        }
        let total = Self::total_funds(&adjusted);
        if total > self.vault as u128 {
            return Err(PokerError::NotEnoughFunds);
        }
        let ghost t = adjusted@;
        // Reconcile pending add-ons into balances.
        let ceiling = self.max_deposit;
        let mut rec: Vec<SeatedPlayer> = Vec::new();
        let mut ri: usize = 0;
        while ri < adjusted.len()
            invariant
                0 <= ri <= adjusted@.len(),
                rec@ == reconciled(adjusted@.take(ri as int), ceiling),
            decreases adjusted@.len() - ri,
        {
            let p = adjusted[ri];
            proof {
                assert(adjusted@.take(ri as int + 1).drop_last() =~= adjusted@.take(ri as int));
            }
            let np = if p.balance >= ceiling {
                p
            } else {
                let room = ceiling - p.balance;
                if p.add_on <= room {
                    SeatedPlayer { address: p.address, balance: p.balance + p.add_on, add_on: 0 }
                } else {
                    SeatedPlayer { address: p.address, balance: ceiling, add_on: p.add_on - room }
                }
            };
            rec.push(np);
            ri = ri + 1;
        }
        proof {
            assert(adjusted@.take(adjusted@.len() as int) =~= adjusted@);
            lemma_reconciled_shape(t, ceiling);
        }
        // Pay out and unseat every departing player.
        let mut kept: Vec<SeatedPlayer> = Vec::new();
        let mut pays: Vec<Payout> = Vec::new();
        let mut paid: u64 = 0;
        let mut di: usize = 0;
        proof {
            lemma_seat_total_nonneg(reconciled(t, ceiling));
        }
        while di < rec.len()
            invariant
                0 <= di <= rec@.len(),
                kept@ == seats_kept(rec@.take(di as int), leavers@),
                pays@ == departure_payouts(rec@.take(di as int), leavers@),
                paid as int == departure_total(rec@.take(di as int), leavers@),
                paid as int <= seat_total(rec@.take(di as int)),
            decreases rec@.len() - di,
        {
            let p = rec[di];
            proof {
                assert(rec@.take(di as int + 1).drop_last() =~= rec@.take(di as int));
                lemma_departures(rec@.take(di as int), leavers@);
                lemma_seat_total_take_le(rec@, di as int + 1);
                lemma_seat_total_nonneg(seats_kept(rec@.take(di as int), leavers@));
            }
            if Self::is_departing(&p, leavers) {
                assert(paid + seat_amount(p) <= seat_total(rec@));
                pays.push(Payout { to: p.address, amount: p.balance + p.add_on });
                paid = paid + p.balance + p.add_on;
            } else {
                kept.push(p);
            }
            di = di + 1;
        }
        proof {
            assert(rec@.take(rec@.len() as int) =~= rec@);
            lemma_reconciled_shape(t, ceiling);
            assert forall|i: int, j: int| 0 <= i < j < t.len() implies t[i].address@
                != t[j].address@ by {
                assert(t[i].address == g0.players@[i].address);
                assert(t[j].address == g0.players@[j].address);
            }
            assert(distinct_addresses(t));
            assert forall|i: int, j: int| 0 <= i < j < rec@.len() implies rec@[i].address@
                != rec@[j].address@ by {
                assert(rec@[i].address == t[i].address);
                assert(rec@[j].address == t[j].address);
            }
            assert(distinct_addresses(rec@));
            lemma_departures(rec@, leavers@);
            lemma_apply_adjustments_shape(g0.players@, adjustments@);
            lemma_seat_total_nonneg(seats_kept(rec@, leavers@));
        }
        self.players = kept;
        self.vault = self.vault - paid;
        Ok(pays)
    }

    /// The first error `eject_players` reports, or `None` when the eject is
    /// owed success.  The whole payout plus what the remaining seats still
    /// hold must stay within the vault.
    pub open spec fn eject_check(
        self,
        payer: [u8; 32],
        accounts: Seq<[u8; 32]>,
        amounts: Seq<u64>,
    ) -> Option<PokerError> {
        if payer@ != self.owner@ {
            Some(PokerError::NotGameOwner)
        } else if amount_total(amounts) + seat_total(
            seats_after_eject(self.players@, accounts, self.token_mint),
        ) > self.vault as int {
            Some(PokerError::NotEnoughFunds)
        } else {
            None
        }
    }

    /// Owner-audited settlement, the alternate close-out mode: transfer the
    /// stated amount to each supplied external token account and unseat
    /// every player whose associated token address for the game's mint is
    /// among those accounts, without consulting stored per-seat balances.
    /// The owner is trusted to have computed the amounts off-system; the
    /// ledger still refuses a payout the vault cannot cover alongside the
    /// seats it keeps.
    #[verifier::loop_isolation(false)]
    pub fn eject_players(
        &mut self,
        payer: [u8; 32],
        accounts: &Vec<[u8; 32]>,
        data: &EjectPlayersParams,
    ) -> (r: Result<Vec<Payout>, PokerError>)
        requires
            old(self).well_formed(),
            accounts@.len() == data.amounts@.len(),
        ensures
            final(self).well_formed(),
            final(self).same_config(*old(self)),
            match old(self).eject_check(payer, accounts@, data.amounts@) {
                Some(e) => r == Err::<Vec<Payout>, PokerError>(e) && *final(self) == *old(self),
                None => match r {
                    Ok(pays) => {
                        &&& pays@.len() == accounts@.len()
                        &&& forall|k: int|
                            0 <= k < accounts@.len() ==> pays@[k] == (Payout {
                                to: accounts@[k],
                                amount: data.amounts@[k],
                            })
                        &&& final(self).players@ == seats_after_eject(
                            old(self).players@,
                            accounts@,
                            old(self).token_mint,
                        )
                        &&& final(self).vault == old(self).vault - amount_total(data.amounts@)
                    },
                    Err(_) => false,
                },
            },
    {
        let ghost g0 = *self;
        if !crate::authority::addr_eq(&payer, &self.owner) {
            return Err(PokerError::NotGameOwner);
        }
        // Decide which seats the supplied token accounts name.
        let mut kept: Vec<SeatedPlayer> = Vec::new();
        let mut i: usize = 0;
        while i < self.players.len()
            invariant
                0 <= i <= self.players@.len(),
                kept@ == seats_after_eject(
                    self.players@.take(i as int),
                    accounts@,
                    self.token_mint,
                ),
            decreases self.players@.len() - i,
        {
            let p = self.players[i];
            proof {
                assert(self.players@.take(i as int + 1).drop_last() =~= self.players@.take(
                    i as int,
                ));
            }
            if !Self::matches_supplied_account(&p, accounts, &self.token_mint) {
                kept.push(p);
            }
            i = i + 1;
        }
        proof {
            assert(self.players@.take(self.players@.len() as int) =~= self.players@);
            lemma_seats_after_eject(self.players@, accounts@, self.token_mint);
        }
        // The vault must cover the stated payouts on top of the seats that
        // stay.
        let mut sum: u128 = 0;
        let mut j: usize = 0;
        while j < data.amounts.len()
            invariant
                0 <= j <= data.amounts@.len(),
                sum == amount_total(data.amounts@.take(j as int)),
                sum <= (j as int) * 0xffff_ffff_ffff_ffff,
            decreases data.amounts@.len() - j,
        {
            proof {
                assert(data.amounts@.take(j as int + 1).drop_last() =~= data.amounts@.take(
                    j as int,
                ));
            }
            sum = sum + (data.amounts[j] as u128);
            j = j + 1;
        }
        proof {
            assert(data.amounts@.take(data.amounts@.len() as int) =~= data.amounts@);
        }
        let kept_total = Self::total_funds(&kept);
        if sum > self.vault as u128 || kept_total > (self.vault as u128) - sum {
            return Err(PokerError::NotEnoughFunds);
        }
        let mut pays: Vec<Payout> = Vec::new();
        let mut k: usize = 0;
        while k < accounts.len()
            invariant
                0 <= k <= accounts@.len(),
                pays@.len() == k as int,
                forall|m: int|
                    0 <= m < k ==> pays@[m] == (Payout {
                        to: accounts@[m],
                        amount: data.amounts@[m],
                    }),
            decreases accounts@.len() - k,
        {
            pays.push(Payout { to: accounts[k], amount: data.amounts[k] });
            k = k + 1;
        }
        proof {
            lemma_seat_total_nonneg(kept@);
        }
        self.players = kept;
        self.vault = self.vault - (sum as u64);
        Ok(pays)
    }

    /// Whether the associated token address of seat `p` for mint `mint` is
    /// among the supplied external token accounts.
    fn matches_supplied_account(p: &SeatedPlayer, accounts: &Vec<[u8; 32]>, mint: &[u8; 32]) -> (b:
        bool)
        ensures
            b == ejected(*p, accounts@, *mint),
    {
        match crate::authority::derive_associated_token_key(&p.address, mint) {
            None => false,
            Some(key) => {
                let mut j: usize = 0;
                while j < accounts.len()
                    invariant
                        0 <= j <= accounts@.len(),
                        forall|m: int| 0 <= m < j ==> accounts@[m]@ != key@,
                        crate::authority::associated_token_key_of(p.address@, mint@) == Some(key@),
                    decreases accounts@.len() - j,
                {
                    if crate::authority::addr_eq(&accounts[j], &key) {
                        return true;
                    }
                    j = j + 1;
                }
                false
            },
        }
    }

    /// Whether one of the supplied accounts names seat `p`'s withdrawal
    /// address.
    fn is_departing(p: &SeatedPlayer, leavers: &Vec<[u8; 32]>) -> (b: bool)
        ensures
            b == departing(*p, leavers@),
    {
        let mut j: usize = 0;
        while j < leavers.len()
            invariant
                0 <= j <= leavers@.len(),
                forall|k: int| 0 <= k < j ==> leavers@[k]@ != p.address@,
            decreases leavers@.len() - j,
        {
            if crate::authority::addr_eq(&leavers[j], &p.address) {
                return true;
            }
            j = j + 1;
        }
        false
    }

    /// The index of the seat holding withdrawal address `addr`, if any.
    pub fn find_seat(players: &Vec<SeatedPlayer>, addr: &[u8; 32]) -> (r: Option<usize>)
        ensures
            match r {
                Some(i) => i < players@.len() && players@[i as int].address@ == addr@,
                None => !has_address(players@, addr@),
            },
    {
        let mut i: usize = 0;
        while i < players.len()
            invariant
                0 <= i <= players@.len(),
                forall|j: int| 0 <= j < i ==> players@[j].address@ != addr@,
            decreases players@.len() - i,
        {
            if crate::authority::addr_eq(&players[i].address, addr) {
                return Some(i);
            }
            i = i + 1;
        }
        None
    }
}

} // verus!
