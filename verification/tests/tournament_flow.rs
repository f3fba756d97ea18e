use degods_poker::errors::PokerError;
use degods_poker::tournament::{
    CreateTournamentData, NftTournamentPrizeData, TournamentAccount, UpdateTournamentPayoutData,
};

fn addr(tag: u8) -> [u8; 32] {
    let mut a = [0u8; 32];
    a[0] = tag;
    a
}

fn owner() -> [u8; 32] {
    addr(1)
}

fn new_tournament(
    max_players: u16,
    entry_cost: u64,
    entry_fee: u64,
    payouts: Vec<u16>,
    registration_open: bool,
    guarantee: u64,
) -> TournamentAccount {
    TournamentAccount::create_tournament(
        owner(),
        addr(9),
        CreateTournamentData {
            max_players,
            entry_fee,
            entry_cost,
            token_mint: addr(3),
            registration_open,
            initial_payouts: payouts,
            guarantee,
        },
    )
    .unwrap()
}

#[test]
fn create_tournament_derives_min_players() {
    let t = new_tournament(10, 100, 0, vec![500, 300, 200], true, 0);
    assert_eq!(t.min_players, 3);
    let t = new_tournament(10, 100, 0, vec![1000], true, 0);
    assert_eq!(t.min_players, 2);
    let t = new_tournament(10, 100, 0, vec![], true, 0);
    assert_eq!(t.min_players, 2);
}

#[test]
fn create_tournament_rejects_bad_initial_schedule() {
    let r = TournamentAccount::create_tournament(
        owner(),
        addr(9),
        CreateTournamentData {
            max_players: 10,
            entry_fee: 0,
            entry_cost: 100,
            token_mint: addr(3),
            registration_open: true,
            initial_payouts: vec![500, 300],
            guarantee: 0,
        },
    );
    assert!(matches!(r, Err(PokerError::InvalidPayoutsArray)));
}

#[test]
fn create_tournament_funds_guarantee_up_front() {
    let t = new_tournament(10, 100, 0, vec![], true, 2500);
    assert_eq!(t.vault, 2500);
    assert_eq!(t.guarantee, 2500);
    let t = new_tournament(10, 100, 0, vec![], true, 0);
    assert_eq!(t.vault, 0);
}

#[test]
fn update_payouts_rejects_shares_not_summing_to_1000() {
    let mut t = new_tournament(10, 100, 0, vec![500, 300, 200], true, 0);
    let before = t.payouts.clone();
    let r = t.update_tournament_payouts(
        owner(),
        UpdateTournamentPayoutData { payouts: vec![500, 300, 300] },
    );
    assert!(matches!(r, Err(PokerError::InvalidPayoutsArray)));
    assert_eq!(t.payouts, before);
    // an empty schedule sums to 0 and is rejected too
    let r = t.update_tournament_payouts(owner(), UpdateTournamentPayoutData { payouts: vec![] });
    assert!(matches!(r, Err(PokerError::InvalidPayoutsArray)));
    assert_eq!(t.payouts, before);
}

#[test]
fn update_payouts_applies_a_valid_schedule() {
    let mut t = new_tournament(10, 100, 0, vec![500, 300, 200], true, 0);
    t.update_tournament_payouts(owner(), UpdateTournamentPayoutData { payouts: vec![600, 400] })
        .unwrap();
    assert_eq!(t.payouts, vec![600, 400]);
    let r = t.update_tournament_payouts(
        addr(8),
        UpdateTournamentPayoutData { payouts: vec![1000] },
    );
    assert!(matches!(r, Err(PokerError::NotGameOwner)));
    assert_eq!(t.payouts, vec![600, 400]);
}

#[test]
fn flip_registration_toggles() {
    let mut t = new_tournament(10, 100, 0, vec![], true, 0);
    assert!(t.registration_open);
    t.flip_tournament_registration(owner()).unwrap();
    assert!(!t.registration_open);
    t.flip_tournament_registration(owner()).unwrap();
    assert!(t.registration_open);
    let r = t.flip_tournament_registration(addr(8));
    assert!(matches!(r, Err(PokerError::NotGameOwner)));
}

#[test]
fn register_counts_and_charges_entry() {
    let mut t = new_tournament(10, 100, 7, vec![], true, 0);
    t.register_tournament(addr(11)).unwrap();
    assert_eq!(t.players, 1);
    assert_eq!(t.players_with_rebuys, 1);
    assert_eq!(t.vault, 107);
    t.register_tournament(addr(12)).unwrap();
    assert_eq!(t.players, 2);
    assert_eq!(t.vault, 214);
}

#[test]
fn register_twice_is_already_at_table() {
    let mut t = new_tournament(10, 100, 0, vec![], true, 0);
    t.register_tournament(addr(11)).unwrap();
    let r = t.register_tournament(addr(11));
    assert!(matches!(r, Err(PokerError::AlreadyAtTable)));
    assert_eq!(t.players, 1);
    assert_eq!(t.vault, 100);
}

#[test]
fn register_beyond_capacity_is_game_full() {
    // exactly max_players register, then one more fails with GameFull
    let mut t = new_tournament(3, 100, 0, vec![], true, 0);
    t.register_tournament(addr(11)).unwrap();
    t.register_tournament(addr(12)).unwrap();
    t.register_tournament(addr(13)).unwrap();
    let r = t.register_tournament(addr(14));
    assert!(matches!(r, Err(PokerError::GameFull)));
    assert_eq!(t.players, 3);
    assert_eq!(t.players_with_rebuys, 3);
    assert_eq!(t.vault, 300);
}

#[test]
fn register_entry_charge_overflow_is_reported() {
    let mut t = new_tournament(10, u64::MAX, 1, vec![], true, 0);
    let r = t.register_tournament(addr(11));
    assert!(matches!(r, Err(PokerError::Overflow)));
    assert_eq!(t.players, 0);
    assert_eq!(t.vault, 0);
}

#[test]
fn start_with_one_registrant_fails() {
    let mut t = new_tournament(10, 100, 0, vec![], true, 0);
    t.register_tournament(addr(11)).unwrap();
    let r = t.start_tournament(owner());
    assert!(matches!(r, Err(PokerError::NotEnoughPlayersToStartTournament)));
    assert!(!t.has_started);
}

#[test]
fn start_is_irreversible_and_owner_only() {
    let mut t = new_tournament(10, 100, 0, vec![], true, 0);
    t.register_tournament(addr(11)).unwrap();
    t.register_tournament(addr(12)).unwrap();
    let r = t.start_tournament(addr(8));
    assert!(matches!(r, Err(PokerError::NotGameOwner)));
    t.start_tournament(owner()).unwrap();
    assert!(t.has_started);
    let r = t.start_tournament(owner());
    assert!(matches!(r, Err(PokerError::TournamentAlreadyStarted)));
}

#[test]
fn unregister_refunds_entry_and_destroys_receipt() {
    let mut t = new_tournament(10, 100, 7, vec![], true, 0);
    t.register_tournament(addr(11)).unwrap();
    t.register_tournament(addr(12)).unwrap();
    let pay = t.unregister_tournament(addr(11)).unwrap();
    assert_eq!(pay.to, addr(11));
    assert_eq!(pay.amount, 107);
    assert_eq!(t.players, 1);
    assert_eq!(t.players_with_rebuys, 1);
    assert_eq!(t.vault, 107);
    // the receipt is gone: a second unregistration finds nothing
    let r = t.unregister_tournament(addr(11));
    assert!(matches!(r, Err(PokerError::NotAtTable)));
}

#[test]
fn unregister_after_start_is_refused() {
    let mut t = new_tournament(10, 100, 0, vec![], true, 0);
    t.register_tournament(addr(11)).unwrap();
    t.register_tournament(addr(12)).unwrap();
    t.start_tournament(owner()).unwrap();
    let r = t.unregister_tournament(addr(11));
    assert!(matches!(r, Err(PokerError::TournamentAlreadyStarted)));
}

#[test]
fn refund_tournament_works_after_start_for_owner_only() {
    let mut t = new_tournament(10, 100, 7, vec![], true, 0);
    t.register_tournament(addr(11)).unwrap();
    t.register_tournament(addr(12)).unwrap();
    t.start_tournament(owner()).unwrap();
    let r = t.refund_tournament(addr(8), addr(11));
    assert!(matches!(r, Err(PokerError::NotGameOwner)));
    let pay = t.refund_tournament(owner(), addr(11)).unwrap();
    assert_eq!(pay.to, addr(11));
    assert_eq!(pay.amount, 107);
    assert_eq!(t.players, 1);
    assert_eq!(t.players_with_rebuys, 1);
    assert_eq!(t.vault, 107);
    let r = t.refund_tournament(owner(), addr(11));
    assert!(matches!(r, Err(PokerError::NotAtTable)));
}

#[test]
fn bust_scenario_pays_scheduled_share_of_pool() {
    // entry_cost 100, payouts [500, 300, 200], 3 registrants, pool 300;
    // registration closed, players 3 <= 3 paid places: the bust pays
    // payouts[2] * 300 / 1000 = 60.
    let mut t = new_tournament(10, 100, 0, vec![500, 300, 200], false, 0);
    t.register_tournament(addr(11)).unwrap();
    t.register_tournament(addr(12)).unwrap();
    t.register_tournament(addr(13)).unwrap();
    assert_eq!(t.vault, 300);
    t.start_tournament(owner()).unwrap();
    let pay = t.payout_tournament_player(owner(), addr(13)).unwrap().unwrap();
    assert_eq!(pay.to, addr(13));
    assert_eq!(pay.amount, 60);
    assert_eq!(t.players, 2);
    assert_eq!(t.vault, 240);
    // next bust finishes second: payouts[1] * 300 / 1000 = 90
    let pay = t.payout_tournament_player(owner(), addr(12)).unwrap().unwrap();
    assert_eq!(pay.amount, 90);
    // the winner: payouts[0] * 300 / 1000 = 150
    let pay = t.payout_tournament_player(owner(), addr(11)).unwrap().unwrap();
    assert_eq!(pay.amount, 150);
    assert_eq!(t.players, 0);
    // fees and truncation remainders stay for the owner; here none of
    // either, minus the three payouts: 300 - 60 - 90 - 150 = 0
    assert_eq!(t.vault, 0);
}

#[test]
fn bust_outside_the_money_pays_nothing() {
    // registration still open: nobody is in the money
    let mut t = new_tournament(10, 100, 0, vec![500, 300, 200], true, 0);
    t.register_tournament(addr(11)).unwrap();
    t.register_tournament(addr(12)).unwrap();
    t.start_tournament(owner()).unwrap();
    let r = t.payout_tournament_player(owner(), addr(11)).unwrap();
    assert!(r.is_none());
    assert_eq!(t.players, 1);
    assert_eq!(t.vault, 200);
    // more remaining players than paid places: also not in the money
    let mut t = new_tournament(10, 100, 0, vec![1000], false, 0);
    t.register_tournament(addr(11)).unwrap();
    t.register_tournament(addr(12)).unwrap();
    t.start_tournament(owner()).unwrap();
    let r = t.payout_tournament_player(owner(), addr(11)).unwrap();
    assert!(r.is_none());
}

#[test]
fn bust_payout_truncates_integer_division() {
    // pool 300, share 334 per mille: 334 * 300 / 1000 = 100 (remainder 200
    // per-mille-units stays in the vault)
    let mut t = new_tournament(10, 100, 0, vec![333, 333, 334], false, 0);
    t.register_tournament(addr(11)).unwrap();
    t.register_tournament(addr(12)).unwrap();
    t.register_tournament(addr(13)).unwrap();
    t.start_tournament(owner()).unwrap();
    let pay = t.payout_tournament_player(owner(), addr(13)).unwrap().unwrap();
    assert_eq!(pay.amount, 100);
}

#[test]
fn bust_pool_is_floored_by_guarantee() {
    // guarantee 1000 beats entry_cost * rebuys == 200
    let mut t = new_tournament(10, 100, 0, vec![600, 400], false, 1000);
    t.register_tournament(addr(11)).unwrap();
    t.register_tournament(addr(12)).unwrap();
    t.start_tournament(owner()).unwrap();
    let pay = t.payout_tournament_player(owner(), addr(12)).unwrap().unwrap();
    assert_eq!(pay.amount, 400);
    let pay = t.payout_tournament_player(owner(), addr(11)).unwrap().unwrap();
    assert_eq!(pay.amount, 600);
    // entries remain for the owner to sweep: 1000 + 200 - 1000 = 200
    assert_eq!(t.vault, 200);
}

#[test]
fn bust_before_start_is_refused() {
    let mut t = new_tournament(10, 100, 0, vec![], true, 0);
    t.register_tournament(addr(11)).unwrap();
    let r = t.payout_tournament_player(owner(), addr(11));
    assert!(matches!(r, Err(PokerError::TournamentNotStarted)));
    let r = t.payout_tournament_player(owner(), addr(12));
    assert!(matches!(r, Err(PokerError::NotAtTable)));
    let r = t.payout_tournament_player(addr(8), addr(11));
    assert!(matches!(r, Err(PokerError::NotGameOwner)));
}

#[test]
fn rebuys_after_bust_enlarge_the_pool() {
    // a busted player may re-enter: players_with_rebuys keeps counting
    let mut t = new_tournament(10, 100, 0, vec![1000], true, 0);
    t.register_tournament(addr(11)).unwrap();
    t.register_tournament(addr(12)).unwrap();
    t.start_tournament(owner()).unwrap();
    t.payout_tournament_player(owner(), addr(11)).unwrap();
    t.register_tournament(addr(11)).unwrap();
    assert_eq!(t.players, 2);
    assert_eq!(t.players_with_rebuys, 3);
    assert_eq!(t.vault, 300);
    t.flip_tournament_registration(owner()).unwrap();
    t.payout_tournament_player(owner(), addr(12)).unwrap();
    // final bust takes the whole pool of 3 entries
    let pay = t.payout_tournament_player(owner(), addr(11)).unwrap().unwrap();
    assert_eq!(pay.amount, 300);
}

#[test]
fn nft_prize_raises_and_lowers_min_players() {
    let mut t = new_tournament(10, 100, 0, vec![], true, 0);
    assert_eq!(t.min_players, 2);
    t.add_nft_tournament_prize(owner(), NftTournamentPrizeData { place_paid: 5 })
        .unwrap();
    assert_eq!(t.min_players, 5);
    assert_eq!(t.nft_payouts, vec![5]);
    t.add_nft_tournament_prize(owner(), NftTournamentPrizeData { place_paid: 3 })
        .unwrap();
    assert_eq!(t.min_players, 5);
    assert_eq!(t.nft_payouts, vec![5, 3]);
    // removing the place-5 prize drops the minimum to the largest left
    t.remove_nft_tournament_prize(owner(), NftTournamentPrizeData { place_paid: 5 })
        .unwrap();
    assert_eq!(t.nft_payouts, vec![3]);
    assert_eq!(t.min_players, 3);
}

#[test]
fn nft_prize_operations_are_gated() {
    let mut t = new_tournament(10, 100, 0, vec![], true, 0);
    let r = t.add_nft_tournament_prize(addr(8), NftTournamentPrizeData { place_paid: 5 });
    assert!(matches!(r, Err(PokerError::NotGameOwner)));
    let r = t.remove_nft_tournament_prize(owner(), NftTournamentPrizeData { place_paid: 5 });
    assert!(matches!(r, Err(PokerError::InvalidAddress)));
    t.register_tournament(addr(11)).unwrap();
    t.register_tournament(addr(12)).unwrap();
    t.start_tournament(owner()).unwrap();
    let r = t.add_nft_tournament_prize(owner(), NftTournamentPrizeData { place_paid: 5 });
    assert!(matches!(r, Err(PokerError::TournamentAlreadyStarted)));
}

#[test]
fn close_tournament_sweeps_residue_to_owner() {
    let mut t = new_tournament(10, 100, 25, vec![1000], true, 0);
    t.register_tournament(addr(11)).unwrap();
    t.register_tournament(addr(12)).unwrap();
    t.start_tournament(owner()).unwrap();
    t.flip_tournament_registration(owner()).unwrap();
    t.payout_tournament_player(owner(), addr(11)).unwrap();
    let pay = t.payout_tournament_player(owner(), addr(12)).unwrap().unwrap();
    assert_eq!(pay.amount, 200);
    // the two 25 fees remain
    let swept = t.close_tournament(owner()).unwrap();
    assert_eq!(swept, 50);
}

#[test]
fn close_tournament_refusals() {
    let mut t = new_tournament(10, 100, 0, vec![], true, 0);
    t.register_tournament(addr(11)).unwrap();
    let (t_back, e) = t.close_tournament(addr(8)).unwrap_err();
    assert!(matches!(e, PokerError::NotGameOwner));
    let (mut t_back, e) = t_back.close_tournament(owner()).unwrap_err();
    assert!(matches!(e, PokerError::PlayersStillAtTable));
    t_back.unregister_tournament(addr(11)).unwrap();
    // two escrowed prizes block closure; a single one does not
    t_back
        .add_nft_tournament_prize(owner(), NftTournamentPrizeData { place_paid: 3 })
        .unwrap();
    t_back
        .add_nft_tournament_prize(owner(), NftTournamentPrizeData { place_paid: 4 })
        .unwrap();
    let (mut t_back, e) = t_back.close_tournament(owner()).unwrap_err();
    assert!(matches!(e, PokerError::NFTsEscrowedInTournament));
    t_back
        .remove_nft_tournament_prize(owner(), NftTournamentPrizeData { place_paid: 4 })
        .unwrap();
    let swept = t_back.close_tournament(owner()).unwrap();
    assert_eq!(swept, 0);
}
