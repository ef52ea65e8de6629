//! The board model and the rule configuration.

use congkak_core::board::BoardState;
use congkak_core::board::INITIAL_SEEDS;
use congkak_core::board::P0_STORE;
use congkak_core::board::P1_STORE;
use congkak_core::rules::LeaderSelection;
use congkak_core::rules::RuleConfig;
use congkak_core::rules::StartMode;

#[test]
fn test_initial_layout() {
    let state = BoardState::initial();
    for i in 0..14 {
        assert_eq!(state.pits[i], INITIAL_SEEDS);
    }
    assert_eq!(state.pits[P0_STORE], 0);
    assert_eq!(state.pits[P1_STORE], 0);
    assert_eq!(state.current_player, 0);
    assert_eq!(state.total_seeds(), 98);
    assert_eq!(BoardState::new(), state);
    assert_eq!(BoardState::default(), state);
}

#[test]
fn test_from_pits_and_getters() {
    let mut pits = [0u8; 16];
    pits[2] = 9;
    pits[11] = 4;
    pits[14] = 1;
    pits[15] = 2;
    let state = BoardState::from_pits(pits, 1);
    assert_eq!(state.current_player, 1);
    assert_eq!(state.get_pit(2), 9);
    assert_eq!(state.get_pit(11), 4);
    assert_eq!(state.get_store(0), 1);
    assert_eq!(state.get_store(1), 2);
    assert_eq!(state.total_seeds(), 16);
}

#[test]
fn test_player_pits_snapshot() {
    let state = BoardState::initial();
    assert_eq!(state.player_pits(0), vec![7, 7, 7, 7, 7, 7, 7]);
    let mut pits = [0u8; 16];
    pits[7] = 1;
    pits[13] = 2;
    let state2 = BoardState::from_pits(pits, 1);
    assert_eq!(state2.player_pits(1), vec![1, 0, 0, 0, 0, 0, 2]);
}

#[test]
fn test_player_store_index_and_range() {
    assert_eq!(BoardState::player_store_index(0), P0_STORE);
    assert_eq!(BoardState::player_store_index(1), P1_STORE);
    assert_eq!(BoardState::player_pit_range(0), (0, 7));
    assert_eq!(BoardState::player_pit_range(1), (7, 14));
}

#[test]
fn test_default_rules() {
    let rules = RuleConfig::default_rules();
    assert_eq!(rules.start_mode, StartMode::Sequential);
    assert_eq!(rules.leader_selection, LeaderSelection::Random);
    assert!(rules.capture_enabled);
    assert!(rules.forfeit_enabled);
    assert!(!rules.burnt_holes_enabled);
    assert!(!rules.capture_requires_loop);
}

#[test]
fn test_rules_new_keeps_options() {
    let rules = RuleConfig::new(
        StartMode::SimultaneousLeaderFollower,
        LeaderSelection::AlwaysP1,
        false,
        false,
        true,
        true,
    );
    assert_eq!(rules.start_mode, StartMode::SimultaneousLeaderFollower);
    assert_eq!(rules.leader_selection, LeaderSelection::AlwaysP1);
    assert!(!rules.capture_enabled);
    assert!(!rules.forfeit_enabled);
    assert!(rules.burnt_holes_enabled);
    assert!(rules.capture_requires_loop);
}
