//! Rule configuration: how a game starts and which end-of-sowing effects
//! are in force. The resolvers read only the boolean toggles; the start
//! mode and leader selection are carried for the host's turn orchestration.

use vstd::prelude::*;

verus! {

/// How the first move(s) of the game are made.
#[derive(Clone, Copy, Debug, PartialEq, Eq)]
pub enum StartMode {
    /// Standard sequential play: player 0 moves, then player 1.
    Sequential,
    /// Both players select moves at once without seeing each other's choice.
    SimultaneousIndependent,
    /// The leader commits first; the follower sees the leader's choice.
    SimultaneousLeaderFollower,
}

/// How the leader is chosen under `SimultaneousLeaderFollower`.
#[derive(Clone, Copy, Debug, PartialEq, Eq)]
pub enum LeaderSelection {
    /// The leader is drawn at random each game.
    Random,
    /// Player 0 always leads.
    AlwaysP0,
    /// Player 1 always leads.
    AlwaysP1,
}

/// The recognized rule options.
#[derive(Clone, Copy, Debug)]
pub struct RuleConfig {
    /// Start mode for the first move(s).
    pub start_mode: StartMode,
    /// How the leader is selected in `SimultaneousLeaderFollower` mode.
    pub leader_selection: LeaderSelection,
    /// Landing in one's own empty pit captures the opposite pit's seeds.
    pub capture_enabled: bool,
    /// Landing in the opponent's empty pit forfeits the seed to their store.
    pub forfeit_enabled: bool,
    /// Multi-round play with burnt holes; reserved, no effect on resolution.
    pub burnt_holes_enabled: bool,
    /// Capture only after passing through one's own store at least once.
    pub capture_requires_loop: bool,
}

impl RuleConfig {
    /// A configuration with every option spelled out.
    pub fn new(
        start_mode: StartMode,
        leader_selection: LeaderSelection,
        capture_enabled: bool,
        forfeit_enabled: bool,
        burnt_holes_enabled: bool,
        capture_requires_loop: bool,
    ) -> (r: Self)
        ensures
            r.start_mode == start_mode,
            r.leader_selection == leader_selection,
            r.capture_enabled == capture_enabled,
            r.forfeit_enabled == forfeit_enabled,
            r.burnt_holes_enabled == burnt_holes_enabled,
            r.capture_requires_loop == capture_requires_loop,
    {
        RuleConfig {
            start_mode,
            leader_selection,
            capture_enabled,
            forfeit_enabled,
            burnt_holes_enabled,
            capture_requires_loop,
        }
    }

    /// The defaults: sequential start, capture and forfeit on, no loop
    /// requirement, burnt holes off.
    pub fn default_rules() -> (r: Self)
        ensures
            r.start_mode == StartMode::Sequential,
            r.leader_selection == LeaderSelection::Random,
            r.capture_enabled,
            r.forfeit_enabled,
            !r.burnt_holes_enabled,
            !r.capture_requires_loop,
    {
        RuleConfig {
            start_mode: StartMode::Sequential,
            leader_selection: LeaderSelection::Random,
            capture_enabled: true,
            forfeit_enabled: true,
            burnt_holes_enabled: false,
            capture_requires_loop: false,
        }
    }
}

impl Default for RuleConfig {
    fn default() -> (r: Self)
        ensures
            r.start_mode == StartMode::Sequential,
            r.leader_selection == LeaderSelection::Random,
            r.capture_enabled,
            r.forfeit_enabled,
            !r.burnt_holes_enabled,
            !r.capture_requires_loop,
    {
        Self::default_rules()
    }
}

} // verus!
