//! The board: a sixteen-slot seed-count vector plus the player to move.
//!
//! Slots 0-6 are player 0's pits, slots 7-13 player 1's pits, slot 14
//! player 0's store and slot 15 player 1's store. Seeds are only ever moved
//! between slots, so the grand total is conserved by every resolver; all
//! counts stay within `u8` because every board this engine works on holds at
//! most 255 seeds in total (the standard layout holds 98).

use vstd::prelude::*;

use crate::sums::lemma_sum_range_nonneg;
use crate::sums::lemma_sum_range_split;
use crate::sums::sum_range;

verus! {

pub const P0_STORE: usize = 14;

pub const P1_STORE: usize = 15;

pub const INITIAL_SEEDS: u8 = 7;

/// The seed counts of a sequence of slots, as unbounded integers. All board
/// arithmetic is specified over this view.
pub open spec fn ints(s: Seq<u8>) -> Seq<int> {
    s.map_values(|x: u8| x as int)
}

/// An update of a slot commutes with the integer view.
pub proof fn lemma_ints_update(s: Seq<u8>, i: int, v: u8)
    requires
        0 <= i < s.len(),
    ensures
        ints(s.update(i, v)) == ints(s).update(i, v as int),
{
    assert(ints(s.update(i, v)) =~= ints(s).update(i, v as int));
}

/// A board position: seed count of every slot, and whose turn it is.
#[derive(Clone, Copy, PartialEq, Eq, Hash, Debug)]
pub struct BoardState {
    pub pits: [u8; 16],
    pub current_player: u8,
}

/// The slot counts of a board, as integers.
pub open spec fn board_ints(b: BoardState) -> Seq<int> {
    ints(b.pits@)
}

/// The grand total of seeds on a board, stores included.
pub open spec fn board_total(b: BoardState) -> int {
    sum_range(board_ints(b), 0, 16)
}

/// The boards the resolvers accept: a real player tag, and a grand total
/// that fits the `u8` slots (so no intermediate count can overflow).
pub open spec fn board_ok(b: BoardState) -> bool {
    &&& b.current_player <= 1
    &&& board_total(b) <= 255
}

impl BoardState {
    /// The standard starting layout: seven seeds in each of the fourteen
    /// pits, empty stores, player 0 to move.
    pub open spec fn is_initial(b: BoardState) -> bool {
        &&& b.current_player == 0
        &&& forall|i: int| 0 <= i < 14 ==> b.pits@[i] == 7
        &&& b.pits@[14] == 0
        &&& b.pits@[15] == 0
    }

    /// A fresh game: the standard starting layout.
    pub fn new() -> (r: Self)
        ensures
            Self::is_initial(r),
    {
        Self::initial()
    }

    /// The standard starting layout.
    pub fn initial() -> (r: Self)
        ensures
            Self::is_initial(r),
    {
        let mut pits: [u8; 16] = [INITIAL_SEEDS; 16];
        pits[P0_STORE] = 0;
        pits[P1_STORE] = 0;
        BoardState { pits, current_player: 0 }
    }

    /// An arbitrary layout, for tests and for resuming saved positions.
    pub fn from_pits(pits: [u8; 16], current_player: u8) -> (r: Self)
        requires
            current_player <= 1,
        ensures
            r.pits == pits,
            r.current_player == current_player,
    {
        BoardState { pits, current_player }
    }

    /// The seed count of `player`'s store.
    pub fn get_store(&self, player: u8) -> (r: u8)
        ensures
            r == if player == 0 {
                self.pits@[14]
            } else {
                self.pits@[15]
            },
    {
        if player == 0 {
            self.pits[P0_STORE]
        } else {
            self.pits[P1_STORE]
        }
    }

    /// The seed count of one slot.
    pub fn get_pit(&self, index: usize) -> (r: u8)
        requires
            index < 16,
        ensures
            r == self.pits@[index as int],
    {
        self.pits[index]
    }

    /// A snapshot of `player`'s seven pits, in board order.
    pub fn player_pits(&self, player: u8) -> (r: Vec<u8>)
        ensures
            r@ == if player == 0 {
                self.pits@.subrange(0, 7)
            } else {
                self.pits@.subrange(7, 14)
            },
    {
        let lo: usize = if player == 0 {
            0
        } else {
            7
        };
        let mut out: Vec<u8> = Vec::new();
        let mut i: usize = lo;
        while i < lo + 7
            invariant
                lo <= i <= lo + 7,
                lo == 0 || lo == 7,
                out@ == self.pits@.subrange(lo as int, i as int),
            decreases lo + 7 - i,
        {
            out.push(self.pits[i]);
            i = i + 1;
            proof {
                assert(out@ =~= self.pits@.subrange(lo as int, i as int));
            }
        }
        out
    }

    /// The store index of `player`.
    pub fn player_store_index(player: u8) -> (r: usize)
        ensures
            r == crate::ring::store_of(player as int),
    {
        if player == 0 {
            P0_STORE
        } else {
            P1_STORE
        }
    }

    /// The half-open pit index range of `player`.
    pub fn player_pit_range(player: u8) -> (r: (usize, usize))
        ensures
            player == 0 ==> r == (0usize, 7usize),
            player != 0 ==> r == (7usize, 14usize),
    {
        if player == 0 {
            (0, 7)
        } else {
            (7, 14)
        }
    }

    /// The grand total of seeds on the board, stores included.
    pub fn total_seeds(&self) -> (r: u8)
        requires
            board_total(*self) <= 255,
        ensures
            r == board_total(*self),
    {
        let mut acc: u8 = 0;
        let mut i: usize = 0;
        while i < 16
            invariant
                i <= 16,
                board_total(*self) <= 255,
                acc == sum_range(board_ints(*self), 0, i as int),
            decreases 16 - i,
        {
            proof {
                lemma_sum_range_split(board_ints(*self), 0, i + 1, 16);
                lemma_sum_range_nonneg(board_ints(*self), i + 1, 16);
                lemma_sum_range_nonneg(board_ints(*self), 0, i as int);
            }
            acc = acc + self.pits[i];
            i = i + 1;
        }
        acc
    }
}

impl Default for BoardState {
    fn default() -> (r: Self)
        ensures
            Self::is_initial(r),
    {
        Self::initial()
    }
}

} // verus!
