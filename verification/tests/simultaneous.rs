//! The simultaneous resolver: lock-step sowing where each player's
//! captures, forfeits and relays observe the other's in-flight deposits.

use congkak_core::board::BoardState;
use congkak_core::board::P0_STORE;
use congkak_core::board::P1_STORE;
use congkak_core::rules::RuleConfig;
use congkak_core::sim::apply_simultaneous_moves;

#[test]
fn test_simultaneous_preserves_selected_pit_deposit() {
    let mut pits = [0u8; 16];
    pits[0] = 7;
    pits[13] = 7;
    let state = BoardState::from_pits(pits, 0);
    let rules = RuleConfig::default();
    let result = apply_simultaneous_moves(&state, 0, 13, &rules);

    assert_eq!(result.state.pits[13], 1);
}

#[test]
fn test_simultaneous_forfeit_uses_emptied_opponent_pit() {
    let mut pits = [0u8; 16];
    pits[0] = 8;
    pits[7] = 1;
    let state = BoardState::from_pits(pits, 0);
    let rules = RuleConfig::default();
    let result = apply_simultaneous_moves(&state, 0, 7, &rules);

    assert_eq!(result.state.pits[7], 0);
    assert_eq!(result.state.pits[P1_STORE], 2);
}

#[test]
fn test_simultaneous_capture_clears_pit() {
    let mut pits = [0u8; 16];
    pits[4] = 1;
    pits[7] = 1;
    pits[10] = 5;
    let state = BoardState::from_pits(pits, 0);
    let rules = RuleConfig::default();
    let result = apply_simultaneous_moves(&state, 4, 7, &rules);

    assert_eq!(result.state.pits[10], 0);
    assert_eq!(result.state.pits[P0_STORE], 6);
}

#[test]
fn test_simultaneous_capture_amount_recorded() {
    let mut pits = [0u8; 16];
    pits[4] = 1;
    pits[7] = 1;
    pits[10] = 5;
    let state = BoardState::from_pits(pits, 0);
    let rules = RuleConfig::default();
    let result = apply_simultaneous_moves(&state, 4, 7, &rules);

    // player 0 captured the 5 opposite seeds plus their own landing seed
    assert_eq!(result.p0_captured, 6);
    assert_eq!(result.p1_captured, 0);
    // player 1's single seed landed in their own store: an extra turn
    assert!(result.p1_extra_turn);
    assert!(!result.p0_extra_turn);
    assert_eq!(result.state.current_player, 1);
}

#[test]
fn test_simultaneous_conserves_total() {
    let state = BoardState::initial();
    let rules = RuleConfig::default();
    let result = apply_simultaneous_moves(&state, 3, 10, &rules);
    assert_eq!(result.state.total_seeds(), 98);
    for i in 0..16 {
        assert!(result.state.pits[i] <= 98);
    }
}

#[test]
fn test_simultaneous_sole_extra_turn_decides_next_player() {
    // player 0 lands their only seed in their own store; player 1 does not
    let mut pits = [0u8; 16];
    pits[0] = 1;
    pits[13] = 3;
    let state = BoardState::from_pits(pits, 0);
    let rules = RuleConfig::default();
    let result = apply_simultaneous_moves(&state, 0, 13, &rules);
    assert!(result.p0_extra_turn);
    assert!(!result.p1_extra_turn);
    assert_eq!(result.state.current_player, 0);
}

#[test]
fn test_simultaneous_full_tie_uses_bit_mix() {
    // both land their single seed in their own store on the same tick:
    // both earn extra turns and tie on step count, so the xorshift mix of
    // the chosen pits (0 and 7) decides; its low bit is 1
    let mut pits = [0u8; 16];
    pits[0] = 1;
    pits[7] = 1;
    let state = BoardState::from_pits(pits, 0);
    let rules = RuleConfig::default();
    let result = apply_simultaneous_moves(&state, 0, 7, &rules);
    assert!(result.p0_extra_turn);
    assert!(result.p1_extra_turn);
    assert_eq!(result.state.pits[P0_STORE], 1);
    assert_eq!(result.state.pits[P1_STORE], 1);
    assert_eq!(result.state.current_player, 1);
}

#[test]
fn test_simultaneous_fewer_steps_decides_next_player() {
    // neither earns an extra turn; player 1 finishes sowing sooner
    let mut pits = [0u8; 16];
    pits[0] = 3;
    pits[13] = 2;
    let state = BoardState::from_pits(pits, 0);
    let rules = RuleConfig::default();
    let result = apply_simultaneous_moves(&state, 0, 13, &rules);
    assert!(!result.p0_extra_turn);
    assert!(!result.p1_extra_turn);
    assert_eq!(result.state.current_player, 1);
}
