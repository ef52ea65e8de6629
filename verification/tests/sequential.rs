//! The sequential resolver: relay sowing, extra turns, captures, forfeits,
//! and conservation of the seed total.

use congkak_core::board::BoardState;
use congkak_core::board::P0_STORE;
use congkak_core::board::P1_STORE;
use congkak_core::moves::apply_move;
use congkak_core::moves::get_legal_moves;
use congkak_core::ring::opposite_pit;
use congkak_core::rules::RuleConfig;

#[test]
fn test_opposite_pit() {
    assert_eq!(opposite_pit(0), 13);
    assert_eq!(opposite_pit(6), 7);
    assert_eq!(opposite_pit(7), 6);
    assert_eq!(opposite_pit(13), 0);
}

#[test]
fn test_initial_legal_moves() {
    let state = BoardState::initial();
    let moves = get_legal_moves(&state);
    assert_eq!(moves, vec![0, 1, 2, 3, 4, 5, 6]);
}

#[test]
fn test_relay_sowing() {
    let state = BoardState::initial();
    let rules = RuleConfig::default();
    // move from pit 0 with 7 seeds (clockwise: 0->14->13->12->11->10->9->8)
    let result = apply_move(&state, 0, &rules);
    // seeds deposited through store and into P1's pits, relay continues from pit 8
    assert!(result.state.pits[0] == 0);
}

#[test]
fn test_extra_turn_on_store() {
    // create a state where moving will land exactly in store
    // clockwise sowing: 0 -> P0_STORE (14), so 1 seed from pit 0 lands in store
    let mut pits = [0u8; 16];
    pits[0] = 1;
    let state = BoardState::from_pits(pits, 0);
    let rules = RuleConfig::default();
    let result = apply_move(&state, 0, &rules);
    assert!(result.extra_turn);
    assert_eq!(result.state.current_player, 0); // same player
    assert_eq!(result.state.pits[P0_STORE], 1);
}

#[test]
fn test_sequential_capture() {
    // one seed in pit 1 lands in the empty own pit 0; the opposite pit 13
    // holds 4 seeds, so the mover captures 4 + 1 = 5 into their store
    let mut pits = [0u8; 16];
    pits[1] = 1;
    pits[13] = 4;
    let state = BoardState::from_pits(pits, 0);
    let rules = RuleConfig::default();
    let result = apply_move(&state, 1, &rules);
    assert_eq!(result.captured, 5);
    assert_eq!(result.state.pits[0], 0);
    assert_eq!(result.state.pits[13], 0);
    assert_eq!(result.state.pits[P0_STORE], 5);
    assert!(!result.extra_turn);
    assert_eq!(result.state.current_player, 1);
}

#[test]
fn test_sequential_capture_disabled_leaves_seed() {
    let mut pits = [0u8; 16];
    pits[1] = 1;
    pits[13] = 4;
    let state = BoardState::from_pits(pits, 0);
    let rules = RuleConfig::new(
        congkak_core::rules::StartMode::Sequential,
        congkak_core::rules::LeaderSelection::Random,
        false, // capture_enabled
        true,
        false,
        false,
    );
    let result = apply_move(&state, 1, &rules);
    assert_eq!(result.captured, 0);
    assert_eq!(result.state.pits[0], 1);
    assert_eq!(result.state.pits[13], 4);
}

#[test]
fn test_capture_requires_loop_blocks_short_capture() {
    // same capture layout, but the loop rule is on and the single seed
    // never passes the mover's store: no capture happens
    let mut pits = [0u8; 16];
    pits[1] = 1;
    pits[13] = 4;
    let state = BoardState::from_pits(pits, 0);
    let rules = RuleConfig::new(
        congkak_core::rules::StartMode::Sequential,
        congkak_core::rules::LeaderSelection::Random,
        true,
        true,
        false,
        true, // capture_requires_loop
    );
    let result = apply_move(&state, 1, &rules);
    assert_eq!(result.captured, 0);
    assert_eq!(result.state.pits[0], 1);
    assert_eq!(result.state.pits[13], 4);
}

#[test]
fn test_sequential_forfeit() {
    // eight seeds from pit 6 end in the opponent's empty pit 13: the last
    // seed is forfeited to the opponent's store
    let mut pits = [0u8; 16];
    pits[6] = 8;
    let state = BoardState::from_pits(pits, 0);
    let rules = RuleConfig::default();
    let result = apply_move(&state, 6, &rules);
    assert_eq!(result.state.pits[13], 0);
    assert_eq!(result.state.pits[P1_STORE], 1);
    assert_eq!(result.captured, 0);
}

#[test]
fn test_pickup_empties_chosen_pit() {
    // two seeds from pit 3 land in pits 2 and 1; pit 3 stays empty
    let mut pits = [0u8; 16];
    pits[3] = 2;
    pits[10] = 3;
    let state = BoardState::from_pits(pits, 0);
    let rules = RuleConfig::default();
    let result = apply_move(&state, 3, &rules);
    assert_eq!(result.state.pits[3], 0);
    assert_eq!(result.state.pits[2], 1);
    assert_eq!(result.state.pits[1], 1);
}

#[test]
fn test_move_conserves_total() {
    let state = BoardState::initial();
    let rules = RuleConfig::default();
    assert_eq!(state.total_seeds(), 98);
    let result = apply_move(&state, 2, &rules);
    assert_eq!(result.state.total_seeds(), 98);
}

#[test]
fn test_move_conserves_largest_total() {
    // the largest total the slots can carry
    let mut pits = [0u8; 16];
    pits[0] = 255;
    let state = BoardState::from_pits(pits, 0);
    let rules = RuleConfig::default();
    let result = apply_move(&state, 0, &rules);
    assert_eq!(result.state.total_seeds(), 255);
    for i in 0..16 {
        assert!(result.state.pits[i] <= 255);
    }
}

#[test]
fn test_legal_moves_player_one() {
    let mut pits = [0u8; 16];
    pits[7] = 1;
    pits[9] = 2;
    pits[3] = 5;
    let state = BoardState::from_pits(pits, 1);
    let moves = get_legal_moves(&state);
    assert_eq!(moves, vec![7, 9]);
}
