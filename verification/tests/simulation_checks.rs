//! The simulation layer: terminal detection, scoring, playouts and perft.

use congkak_core::board::BoardState;
use congkak_core::moves::get_final_scores;
use congkak_core::moves::get_winner;
use congkak_core::moves::is_terminal;
use congkak_core::rules::RuleConfig;
use congkak_core::simulation::batch_random_playouts;
use congkak_core::simulation::perft;
use congkak_core::simulation::random_playout;

#[test]
fn test_initial_not_terminal() {
    let state = BoardState::initial();
    assert!(!is_terminal(&state));
}

#[test]
fn test_terminal_when_one_side_empty() {
    // player 0's pits all empty: terminal, whatever player 1 holds
    let mut pits = [0u8; 16];
    pits[8] = 3;
    pits[12] = 1;
    let state = BoardState::from_pits(pits, 0);
    assert!(is_terminal(&state));

    // player 1's pits all empty: terminal too
    let mut pits2 = [0u8; 16];
    pits2[2] = 5;
    let state2 = BoardState::from_pits(pits2, 1);
    assert!(is_terminal(&state2));

    // a seed on each side: not terminal
    let mut pits3 = [0u8; 16];
    pits3[2] = 1;
    pits3[9] = 1;
    let state3 = BoardState::from_pits(pits3, 0);
    assert!(!is_terminal(&state3));
}

#[test]
fn test_final_scores_count_stores_and_own_pits() {
    let mut pits = [0u8; 16];
    pits[1] = 2;
    pits[5] = 3;
    pits[9] = 4;
    pits[14] = 10;
    pits[15] = 6;
    let state = BoardState::from_pits(pits, 0);
    let (p0, p1) = get_final_scores(&state);
    assert_eq!(p0, 15);
    assert_eq!(p1, 10);
    assert_eq!(get_winner(&state), 0);
}

#[test]
fn test_winner_draw_sentinel() {
    // equal final scores: the draw sentinel -1
    let mut pits = [0u8; 16];
    pits[0] = 2;
    pits[14] = 3;
    pits[7] = 1;
    pits[15] = 4;
    let state = BoardState::from_pits(pits, 0);
    let (p0, p1) = get_final_scores(&state);
    assert_eq!(p0, 5);
    assert_eq!(p1, 5);
    assert_eq!(get_winner(&state), -1);
}

#[test]
fn test_winner_player_one() {
    let mut pits = [0u8; 16];
    pits[14] = 3;
    pits[15] = 9;
    let state = BoardState::from_pits(pits, 0);
    assert_eq!(get_winner(&state), 1);
}

#[test]
fn test_perft_depth_zero_is_one() {
    let state = BoardState::initial();
    let rules = RuleConfig::default();
    assert_eq!(perft(&state, &rules, 0), 1);

    let mut pits = [0u8; 16];
    pits[3] = 2;
    pits[11] = 5;
    let other = BoardState::from_pits(pits, 1);
    assert_eq!(perft(&other, &rules, 0), 1);
}

#[test]
fn test_perft_depth_one_from_initial() {
    let state = BoardState::initial();
    let rules = RuleConfig::default();
    assert_eq!(perft(&state, &rules, 1), 7);
}

#[test]
fn test_playout_deterministic() {
    let state = BoardState::initial();
    let rules = RuleConfig::default();
    let w1 = random_playout(&state, &rules, 12345);
    let w2 = random_playout(&state, &rules, 12345);
    assert_eq!(w1, w2);
    assert!(w1 == 0 || w1 == 1 || w1 == -1);
}

#[test]
fn test_playout_seed_zero_replaced() {
    // seed 0 uses a fixed non-zero generator start, so it still terminates
    // and is reproducible
    let state = BoardState::initial();
    let rules = RuleConfig::default();
    let w1 = random_playout(&state, &rules, 0);
    let w2 = random_playout(&state, &rules, 0);
    assert_eq!(w1, w2);
}

#[test]
fn test_playout_on_terminal_state_scores_directly() {
    let mut pits = [0u8; 16];
    pits[9] = 2;
    pits[15] = 1;
    let state = BoardState::from_pits(pits, 0);
    let rules = RuleConfig::default();
    // player 0 has nothing: terminal at once, player 1 wins 3 to 0
    assert_eq!(random_playout(&state, &rules, 7), 1);
}

#[test]
fn test_batch_counts_sum_to_runs() {
    let state = BoardState::initial();
    let rules = RuleConfig::default();
    let counts = batch_random_playouts(&state, &rules, 10, 42);
    assert_eq!(counts[0] + counts[1] + counts[2], 10);
}

#[test]
fn test_batch_matches_individual_playouts() {
    let state = BoardState::initial();
    let rules = RuleConfig::default();
    let counts = batch_random_playouts(&state, &rules, 5, 1000);
    let mut expected = [0u32; 3];
    for i in 0..5u64 {
        match random_playout(&state, &rules, 1000 + i) {
            0 => expected[0] += 1,
            1 => expected[1] += 1,
            _ => expected[2] += 1,
        }
    }
    assert_eq!(counts, expected);
}
