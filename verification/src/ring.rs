//! The sowing ring.
//!
//! All sixteen board slots form one ring that both players traverse in the
//! same rotational direction: `6 -> 5 -> ... -> 0 -> 14 -> 13 -> ... -> 7 ->
//! 15 -> 6 -> ...`. A sower never deposits into the opponent's store, so each
//! player effectively walks a fifteen-slot ring of their own. This module
//! defines the ring step, the skip over the opponent's store, the distance
//! to a player's own store (the termination measure of every sowing loop),
//! and each player's position index on their own fifteen-slot ring (used to
//! show that two simultaneous sowers never finish on the same slot in the
//! same tick).

use vstd::prelude::*;

verus! {

/// Index of `player`'s own store.
pub open spec fn store_of(player: int) -> int {
    if player == 0 {
        14
    } else {
        15
    }
}

/// Index of the store of `player`'s opponent.
pub open spec fn other_store_of(player: int) -> int {
    if player == 0 {
        15
    } else {
        14
    }
}

/// Whether `pit` is one of `player`'s seven pits.
pub open spec fn owns_pit(player: int, pit: int) -> bool {
    if player == 0 {
        0 <= pit < 7
    } else {
        7 <= pit < 14
    }
}

/// One step along the shared sixteen-slot ring.
pub open spec fn ring_next(pos: int) -> int {
    if 1 <= pos <= 6 {
        pos - 1
    } else if pos == 0 {
        14
    } else if pos == 14 {
        13
    } else if 8 <= pos <= 13 {
        pos - 1
    } else if pos == 7 {
        15
    } else {
        6
    }
}

/// One sowing step for `player`: a ring step that skips the opponent's store.
pub open spec fn sow_next(pos: int, player: int) -> int {
    if ring_next(pos) == other_store_of(player) {
        ring_next(ring_next(pos))
    } else {
        ring_next(pos)
    }
}

/// Number of ring steps from `pos` to `player`'s own store.
pub open spec fn dist_to_store(pos: int, player: int) -> int {
    if player == 0 {
        if pos == 14 {
            0
        } else if 0 <= pos <= 6 {
            pos + 1
        } else if 7 <= pos <= 13 {
            pos + 2
        } else {
            8
        }
    } else {
        if pos == 15 {
            0
        } else if 7 <= pos <= 13 {
            pos - 6
        } else if 0 <= pos <= 6 {
            pos + 9
        } else {
            8
        }
    }
}

/// A sowing step lands in range, never in the opponent's store, and walks
/// strictly toward the sower's own store.
pub proof fn lemma_sow_next(pos: int, player: int)
    requires
        0 <= pos < 16,
        pos != other_store_of(player),
        player == 0 || player == 1,
    ensures
        0 <= sow_next(pos, player) < 16,
        sow_next(pos, player) != other_store_of(player),
        0 <= dist_to_store(sow_next(pos, player), player) <= 15,
        pos != store_of(player) ==> dist_to_store(sow_next(pos, player), player)
            <= dist_to_store(pos, player) - 1,
        sow_next(pos, player) == store_of(player) <==> dist_to_store(pos, player) == 1,
{
}

/// `player`'s position index on their own fifteen-slot ring (their opponent's
/// store is not part of it). Index 0 is the slot farthest from the store.
pub open spec fn ring_index(pos: int, player: int) -> int {
    if player == 0 {
        if 0 <= pos <= 6 {
            6 - pos
        } else if pos == 14 {
            7
        } else if 7 <= pos <= 13 {
            21 - pos
        } else {
            0
        }
    } else {
        if 7 <= pos <= 13 {
            13 - pos
        } else if pos == 15 {
            7
        } else if 0 <= pos <= 6 {
            14 - pos
        } else {
            0
        }
    }
}

/// A sowing step advances the sower's own ring index by one, wrapping at 15.
pub proof fn lemma_ring_index_step(pos: int, player: int)
    requires
        0 <= pos < 16,
        pos != other_store_of(player),
        player == 0 || player == 1,
    ensures
        0 <= ring_index(pos, player) < 15,
        ring_index(sow_next(pos, player), player) == if ring_index(pos, player) == 14 {
            0int
        } else {
            ring_index(pos, player) + 1
        },
{
}

/// Gap between the two sowers' ring indices. Simultaneous sowing preserves
/// this gap up to a shift of 15, and the gaps at which the two sowers could
/// occupy the same pit are exactly -8, -7, 7 and 8.
pub open spec fn lane_gap(pos0: int, pos1: int) -> int {
    ring_index(pos0, 0) - ring_index(pos1, 1)
}

/// Gaps outside {-8, -7, 7, 8} stay outside that set when both sowers step,
/// and such a gap means the sowers stand on different slots.
pub proof fn lemma_lane_gap_step(pos0: int, pos1: int)
    requires
        0 <= pos0 < 16,
        0 <= pos1 < 16,
        pos0 != other_store_of(0),
        pos1 != other_store_of(1),
        !gap_collides(lane_gap(pos0, pos1)),
    ensures
        !gap_collides(lane_gap(sow_next(pos0, 0), sow_next(pos1, 1))),
        pos0 != pos1,
{
    lemma_ring_index_step(pos0, 0);
    lemma_ring_index_step(pos1, 1);
}

/// The lane gaps at which both sowers could stand on one slot.
pub open spec fn gap_collides(gap: int) -> bool {
    gap == -8 || gap == -7 || gap == 7 || gap == 8
}

/// The pit opposite `pit`, the one a capture empties.
pub fn opposite_pit(pit: usize) -> (r: usize)
    requires
        pit < 14,
    ensures
        r == 13 - pit,
{
    13 - pit
}

/// Whether `pit` belongs to `player`.
pub fn is_player_pit(pit: usize, player: u8) -> (r: bool)
    ensures
        r == owns_pit(player as int, pit as int),
{
    if player == 0 {
        pit < 7
    } else {
        7 <= pit && pit < 14
    }
}

/// The store index of `player`.
pub fn player_store(player: u8) -> (r: usize)
    ensures
        r == store_of(player as int),
{
    if player == 0 {
        14
    } else {
        15
    }
}

/// The store index of `player`'s opponent.
pub fn opponent_store(player: u8) -> (r: usize)
    ensures
        r == other_store_of(player as int),
{
    if player == 0 {
        15
    } else {
        14
    }
}

/// One step along the shared ring.
pub fn next_position(pos: usize) -> (r: usize)
    requires
        pos < 16,
    ensures
        r == ring_next(pos as int),
{
    if 1 <= pos && pos <= 6 {
        pos - 1
    } else if pos == 0 {
        14
    } else if pos == 14 {
        13
    } else if 8 <= pos && pos <= 13 {
        pos - 1
    } else if pos == 7 {
        15
    } else {
        6
    }
}

} // verus!
