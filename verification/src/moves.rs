//! The sequential move resolver and the game-state queries.
//!
//! A move picks up every seed of one of the mover's pits and relay-sows them:
//! one seed per ring slot (skipping the opponent's store), picking up and
//! continuing whenever the last seed lands in a pit that already held seeds,
//! and ending with an extra turn (own store), a capture (own previously
//! empty pit), a forfeit (opponent's previously empty pit), or a plain stop.
//! The whole resolution is specified by the recursive function [`sow`]; the
//! executable resolver is proved to return exactly its outcome, to conserve
//! the grand total of seeds, and to never let any slot go negative or exceed
//! its `u8` range.

use vstd::prelude::*;

use crate::board::BoardState;
use crate::board::board_ints;
use crate::board::board_ok;
use crate::board::board_total;
use crate::board::ints;
use crate::board::lemma_ints_update;
use crate::ring::dist_to_store;
use crate::ring::is_player_pit;
use crate::ring::lemma_sow_next;
use crate::ring::next_position;
use crate::ring::opponent_store;
use crate::ring::opposite_pit;
use crate::ring::other_store_of;
use crate::ring::owns_pit;
use crate::ring::player_store;
use crate::ring::sow_next;
use crate::ring::store_of;
use crate::rules::RuleConfig;
use crate::sums::lemma_sum_range_agree;
use crate::sums::lemma_sum_range_elem;
use crate::sums::lemma_sum_range_nonneg;
use crate::sums::lemma_sum_range_split;
use crate::sums::lemma_sum_range_three_elems;
use crate::sums::lemma_sum_range_two_elems;
use crate::sums::lemma_sum_range_update;
use crate::sums::sum_range;

verus! {

/// Result of applying one sequential move.
#[derive(Clone, Copy, Debug)]
pub struct MoveResult {
    /// The position after the move, with the player to move next.
    pub state: BoardState,
    /// The mover's last seed landed in their own store: they move again.
    pub extra_turn: bool,
    /// How many seeds the move captured into the mover's store.
    pub captured: u8,
}

/// The outcome of a finished sowing run: the slots it leaves behind, whether
/// it earned an extra turn, and how many seeds it captured.
pub struct SowEnd {
    pub pits: Seq<int>,
    pub extra_turn: bool,
    pub captured: int,
}

/// The sowing configurations that can arise while a mover's hand is not
/// empty: sixteen non-negative slots, at least one seed in hand, and a
/// current position anywhere on the ring except the opponent's store.
pub open spec fn sow_wf(player: int, pits: Seq<int>, seeds: int, pos: int) -> bool {
    &&& (player == 0 || player == 1)
    &&& pits.len() == 16
    &&& (forall|k: int| 0 <= k < 16 ==> pits[k] >= 0)
    &&& seeds >= 1
    &&& 0 <= pos < 16
    &&& pos != other_store_of(player)
}

/// Termination measure for sowing: every deposit either walks one slot
/// closer to the mover's own store or banks a seed there for good, and
/// banked seeds are never picked up again.
pub open spec fn sow_measure(player: int, pits: Seq<int>, seeds: int, pos: int) -> int {
    (seeds + sum_range(pits, 0, 14)) * 16 + dist_to_store(sow_next(pos, player), player)
}

/// The measure drops at both recursive steps of `sow`: depositing the next
/// seed, and picking a relay pit back up.
pub proof fn lemma_sow_measure_step(player: int, pits: Seq<int>, seeds: int, pos: int)
    requires
        sow_wf(player, pits, seeds, pos),
    ensures
        ({
            let np = sow_next(pos, player);
            let pits2 = pits.update(np, pits[np] + 1);
            &&& (seeds > 1 ==> 0 <= sow_measure(player, pits2, seeds - 1, np) < sow_measure(
                player,
                pits,
                seeds,
                pos,
            ))
            &&& (seeds == 1 && np != store_of(player) && pits2[np] > 1 ==> 0 <= sow_measure(
                player,
                pits2.update(np, 0),
                pits2[np],
                np,
            ) < sow_measure(player, pits, seeds, pos))
        }),
{
    lemma_sow_next(pos, player);
    let np = sow_next(pos, player);
    let pits2 = pits.update(np, pits[np] + 1);
    lemma_sow_next(np, player);
    if np < 14 {
        lemma_sum_range_update(pits, 0, 14, np, pits[np] + 1);
        lemma_sum_range_update(pits2, 0, 14, np, 0);
    } else {
        lemma_sum_range_agree(pits2, pits, 0, 14);
    }
    lemma_sum_range_nonneg(pits, 0, 14);
    if np < 14 {
        lemma_sum_range_elem(pits, 0, 14, np);
    }
}

/// One player's whole relay-sowing run, one deposit per recursive call.
///
/// From position `pos` with `seeds` in hand: step to the next ring slot
/// (skipping the opponent's store), drop one seed there, and then either
/// keep sowing, stop with an extra turn (last seed in own store), relay
/// (last seed in a pit that now holds more than one), capture (last seed in
/// an own pit that was empty, opposite pit occupied, capture permitted),
/// forfeit (last seed in an opponent pit that was empty, forfeits enabled),
/// or simply stop.
pub open spec fn sow(
    player: int,
    rules: RuleConfig,
    pits: Seq<int>,
    seeds: int,
    pos: int,
    looped: bool,
) -> SowEnd
    decreases sow_measure(player, pits, seeds, pos),
{
    if !sow_wf(player, pits, seeds, pos) {
        SowEnd { pits: pits, extra_turn: false, captured: 0 }
    } else {
        let np = sow_next(pos, player);
        let lp = looped || np == store_of(player);
        let pits2 = pits.update(np, pits[np] + 1);
        proof {
            lemma_sow_measure_step(player, pits, seeds, pos);
        }
        if seeds > 1 {
            sow(player, rules, pits2, seeds - 1, np, lp)
        } else if np == store_of(player) {
            SowEnd { pits: pits2, extra_turn: true, captured: 0 }
        } else if pits2[np] > 1 {
            sow(player, rules, pits2.update(np, 0), pits2[np], np, lp)
        } else {
            let capture_ok = rules.capture_enabled && (!rules.capture_requires_loop || lp);
            if owns_pit(player, np) && capture_ok {
                if pits2[13 - np] > 0 {
                    SowEnd {
                        pits: pits2.update(np, 0).update(13 - np, 0).update(
                            store_of(player),
                            pits2[store_of(player)] + pits2[13 - np] + 1,
                        ),
                        extra_turn: false,
                        captured: pits2[13 - np] + 1,
                    }
                } else {
                    SowEnd { pits: pits2, extra_turn: false, captured: 0 }
                }
            } else if !owns_pit(player, np) && rules.forfeit_enabled {
                SowEnd {
                    pits: pits2.update(np, 0).update(
                        other_store_of(player),
                        pits2[other_store_of(player)] + 1,
                    ),
                    extra_turn: false,
                    captured: 0,
                }
            } else {
                SowEnd { pits: pits2, extra_turn: false, captured: 0 }
            }
        }
    }
}

/// No slot count ever goes negative during sequential sowing: every
/// recursive configuration of [`sow`] reached from a well-formed one again
/// satisfies [`sow_wf`], whose slots are all non-negative, and so does the
/// final outcome.
pub proof fn lemma_sow_nonneg(
    player: int,
    rules: RuleConfig,
    pits: Seq<int>,
    seeds: int,
    pos: int,
    looped: bool,
)
    requires
        sow_wf(player, pits, seeds, pos),
    ensures
        sow(player, rules, pits, seeds, pos, looped).pits.len() == 16,
        forall|k: int| 0 <= k < 16 ==> sow(player, rules, pits, seeds, pos, looped).pits[k] >= 0,
    decreases sow_measure(player, pits, seeds, pos),
{
    lemma_sow_measure_step(player, pits, seeds, pos);
    lemma_sow_next(pos, player);
    let np = sow_next(pos, player);
    let lp = looped || np == store_of(player);
    let pits2 = pits.update(np, pits[np] + 1);
    if seeds > 1 {
        lemma_sow_nonneg(player, rules, pits2, seeds - 1, np, lp);
    } else if np != store_of(player) && pits2[np] > 1 {
        lemma_sow_nonneg(player, rules, pits2.update(np, 0), pits2[np], np, lp);
    }
}

/// The legal-move precondition of the sequential resolver: a well-formed
/// board, a pit owned by the mover, and at least one seed in it.
pub open spec fn move_ok(b: BoardState, pit: int) -> bool {
    &&& board_ok(b)
    &&& owns_pit(b.current_player as int, pit)
    &&& board_ints(b)[pit] > 0
}

/// The outcome of a sequential move: pick every seed up from the chosen pit
/// and sow from there.
pub open spec fn move_end(b: BoardState, pit: int, rules: RuleConfig) -> SowEnd {
    sow(
        b.current_player as int,
        rules,
        board_ints(b).update(pit, 0),
        board_ints(b)[pit],
        pit,
        false,
    )
}

/// Sowing starts from a board in which the chosen pit has just been emptied:
/// the picked-up seeds exist only in the mover's hand until redeposited.
pub proof fn lemma_pickup_empties_chosen_pit(b: BoardState, pit: int, rules: RuleConfig)
    requires
        0 <= pit < 16,
    ensures
        board_ints(b).update(pit, 0)[pit] == 0,
        move_end(b, pit, rules) == sow(
            b.current_player as int,
            rules,
            board_ints(b).update(pit, 0),
            board_ints(b)[pit],
            pit,
            false,
        ),
{
}

/// Apply a sequential move: relay sowing with capture, forfeit and
/// extra-turn handling. Returns exactly the outcome of [`sow`] on the board
/// with the chosen pit picked up, conserving the grand total of seeds.
pub fn apply_move(state: &BoardState, pit: usize, rules: &RuleConfig) -> (r: MoveResult)
    requires
        move_ok(*state, pit as int),
    ensures
        board_ints(r.state) == move_end(*state, pit as int, *rules).pits,
        r.extra_turn == move_end(*state, pit as int, *rules).extra_turn,
        r.captured as int == move_end(*state, pit as int, *rules).captured,
        r.extra_turn ==> r.state.current_player == state.current_player,
        !r.extra_turn ==> r.state.current_player as int == 1 - state.current_player as int,
        board_total(r.state) == board_total(*state),
        board_ok(r.state),
{
    let player = state.current_player;
    let my_store = player_store(player);
    let opp_store = opponent_store(player);
    let mut pits = state.pits;
    let mut seeds = pits[pit];
    pits[pit] = 0;
    let mut current_pos = pit;
    let mut extra_turn = false;
    let mut captured: u8 = 0;
    let mut has_looped = false;

    let ghost t0 = board_total(*state);
    let ghost target = move_end(*state, pit as int, *rules);
    proof {
        lemma_ints_update(state.pits@, pit as int, 0);
        lemma_sum_range_update(board_ints(*state), 0, 16, pit as int, 0);
    }

    loop
        invariant_except_break
            player == state.current_player,
            player <= 1,
            my_store == store_of(player as int),
            opp_store == other_store_of(player as int),
            seeds >= 1,
            current_pos < 16,
            current_pos != opp_store,
            !extra_turn,
            captured == 0,
            sum_range(ints(pits@), 0, 16) + seeds == t0,
            t0 <= 255,
            sow(
                player as int,
                *rules,
                ints(pits@),
                seeds as int,
                current_pos as int,
                has_looped,
            ) == target,
        ensures
            ints(pits@) == target.pits,
            extra_turn == target.extra_turn,
            captured as int == target.captured,
            sum_range(ints(pits@), 0, 16) == t0,
        decreases sow_measure(player as int, ints(pits@), seeds as int, current_pos as int),
    {
        let ghost pits0 = ints(pits@);
        let ghost seeds0 = seeds as int;
        let ghost pos0 = current_pos as int;
        let ghost lp0 = has_looped;
        proof {
            lemma_sow_next(pos0, player as int);
            lemma_sow_measure_step(player as int, pits0, seeds0, pos0);
        }

        current_pos = next_position(current_pos);
        if current_pos == opp_store {
            current_pos = next_position(current_pos);
        }
        let ghost np = current_pos as int;
        assert(np == sow_next(pos0, player as int));

        if current_pos == my_store {
            has_looped = true;
        }

        proof {
            lemma_sum_range_elem(pits0, 0, 16, np);
            lemma_sum_range_nonneg(pits0, 0, 16);
        }
        pits[current_pos] = pits[current_pos] + 1;
        seeds = seeds - 1;
        let ghost pits2 = pits0.update(np, pits0[np] + 1);
        proof {
            assert(ints(pits@) =~= pits2);
            lemma_sum_range_update(pits0, 0, 16, np, pits0[np] + 1);
            assert(sow(player as int, *rules, pits0, seeds0, pos0, lp0) == target);
        }

        if seeds == 0 {
            if current_pos == my_store {
                extra_turn = true;
                break;
            }
            let landed = pits[current_pos];
            if landed > 1 {
                seeds = landed;
                pits[current_pos] = 0;
                proof {
                    assert(ints(pits@) =~= pits2.update(np, 0));
                    lemma_sum_range_update(pits2, 0, 16, np, 0);
                }
            } else {
                let is_mine = is_player_pit(current_pos, player);
                let can_capture = rules.capture_enabled && (!rules.capture_requires_loop
                    || has_looped);
                if is_mine && can_capture {
                    let opp_pit = opposite_pit(current_pos);
                    let opp_seeds = pits[opp_pit];
                    if opp_seeds > 0 {
                        proof {
                            lemma_sum_range_three_elems(
                                pits2,
                                0,
                                16,
                                np,
                                13 - np,
                                store_of(player as int),
                            );
                            lemma_sum_range_nonneg(pits2, 0, 16);
                        }
                        captured = opp_seeds + 1;
                        pits[my_store] = pits[my_store] + opp_seeds + 1;
                        pits[current_pos] = 0;
                        pits[opp_pit] = 0;
                        proof {
                            let fin = pits2.update(np, 0).update(13 - np, 0).update(
                                store_of(player as int),
                                pits2[store_of(player as int)] + pits2[13 - np] + 1,
                            );
                            assert(ints(pits@) =~= fin);
                            lemma_sum_range_update(pits2, 0, 16, np, 0);
                            lemma_sum_range_update(pits2.update(np, 0), 0, 16, 13 - np, 0);
                            lemma_sum_range_update(
                                pits2.update(np, 0).update(13 - np, 0),
                                0,
                                16,
                                store_of(player as int),
                                pits2[store_of(player as int)] + pits2[13 - np] + 1,
                            );
                        }
                    }
                    break;
                } else if !is_mine && rules.forfeit_enabled {
                    proof {
                        lemma_sum_range_two_elems(pits2, 0, 16, np, other_store_of(player as int));
                        lemma_sum_range_nonneg(pits2, 0, 16);
                    }
                    pits[opp_store] = pits[opp_store] + 1;
                    pits[current_pos] = 0;
                    proof {
                        let fin = pits2.update(np, 0).update(
                            other_store_of(player as int),
                            pits2[other_store_of(player as int)] + 1,
                        );
                        assert(ints(pits@) =~= fin);
                        lemma_sum_range_update(pits2, 0, 16, np, 0);
                        lemma_sum_range_update(
                            pits2.update(np, 0),
                            0,
                            16,
                            other_store_of(player as int),
                            pits2[other_store_of(player as int)] + 1,
                        );
                    }
                    break;
                } else {
                    break;
                }
            }
        }
    }

    let next_player = if extra_turn {
        player
    } else {
        1 - player
    };
    MoveResult { state: BoardState { pits, current_player: next_player }, extra_turn, captured }
}

/// The mover's legal pits with index in `[i, hi)`, in ascending order:
/// exactly those that hold at least one seed.
pub open spec fn legal_from(pits: Seq<int>, i: int, hi: int) -> Seq<int>
    decreases hi - i,
{
    if i >= hi {
        Seq::empty()
    } else if pits[i] > 0 {
        seq![i] + legal_from(pits, i + 1, hi)
    } else {
        legal_from(pits, i + 1, hi)
    }
}

/// Every listed move lies in `[i, hi)` and names a non-empty pit.
pub proof fn lemma_legal_from_props(pits: Seq<int>, i: int, hi: int)
    ensures
        forall|k: int|
            0 <= k < legal_from(pits, i, hi).len() ==> i <= #[trigger] legal_from(pits, i, hi)[k]
                < hi && pits[legal_from(pits, i, hi)[k]] > 0,
    decreases hi - i,
{
    if i < hi {
        lemma_legal_from_props(pits, i + 1, hi);
        let l = legal_from(pits, i, hi);
        let rest = legal_from(pits, i + 1, hi);
        assert forall|k: int| 0 <= k < l.len() implies i <= #[trigger] l[k] < hi && pits[l[k]]
            > 0 by {
            if pits[i] > 0 {
                if k == 0 {
                    assert(l[k] == i);
                } else {
                    assert(l[k] == rest[k - 1]);
                }
            } else {
                assert(l[k] == rest[k]);
            }
        }
    }
}

/// A player's legal moves on a slot vector: their own non-empty pits,
/// ascending.
pub open spec fn legal_slots(pits: Seq<int>, player: int) -> Seq<int> {
    if player == 0 {
        legal_from(pits, 0, 7)
    } else {
        legal_from(pits, 7, 14)
    }
}

/// The current player's legal moves: their own non-empty pits, ascending.
pub open spec fn legal_moves_of(b: BoardState) -> Seq<int> {
    legal_slots(board_ints(b), b.current_player as int)
}

/// All legal moves for the current player, in ascending pit order.
pub fn get_legal_moves(state: &BoardState) -> (r: Vec<usize>)
    ensures
        r@.map_values(|m: usize| m as int) == legal_moves_of(*state),
{
    let (lo, hi) = BoardState::player_pit_range(state.current_player);
    let mut out: Vec<usize> = Vec::new();
    let mut i: usize = lo;
    while i < hi
        invariant
            lo <= i <= hi,
            hi == lo + 7,
            (lo == 0 && state.current_player == 0) || (lo == 7 && state.current_player != 0),
            legal_moves_of(*state) == out@.map_values(|m: usize| m as int) + legal_from(
                board_ints(*state),
                i as int,
                hi as int,
            ),
        decreases hi - i,
    {
        if state.pits[i] > 0 {
            out.push(i);
        }
        i = i + 1;
        proof {
            assert(legal_moves_of(*state) =~= out@.map_values(|m: usize| m as int) + legal_from(
                board_ints(*state),
                i as int,
                hi as int,
            ));
        }
    }
    proof {
        assert(legal_moves_of(*state) =~= out@.map_values(|m: usize| m as int));
    }
    out
}

/// Whether every slot of `pits` with index in `[lo, hi)` is empty.
pub open spec fn side_clear(pits: Seq<int>, lo: int, hi: int) -> bool {
    forall|k: int| lo <= k < hi ==> pits[k] == 0
}

/// A slot vector is terminal exactly when player 0's seven pits are all
/// empty or player 1's seven pits are all empty.
pub open spec fn terminal_slots(pits: Seq<int>) -> bool {
    side_clear(pits, 0, 7) || side_clear(pits, 7, 14)
}

/// A position is terminal exactly when player 0's seven pits are all empty
/// or player 1's seven pits are all empty.
pub open spec fn terminal_state(b: BoardState) -> bool {
    terminal_slots(board_ints(b))
}

/// Whether one side's pits are entirely empty, as an executable check.
fn side_is_clear(state: &BoardState, lo: usize) -> (r: bool)
    requires
        lo == 0 || lo == 7,
    ensures
        r == side_clear(board_ints(*state), lo as int, lo as int + 7),
{
    let mut i: usize = lo;
    let mut clear = true;
    while i < lo + 7
        invariant
            lo <= i <= lo + 7,
            lo == 0 || lo == 7,
            clear == side_clear(board_ints(*state), lo as int, i as int),
        decreases lo + 7 - i,
    {
        let v = state.pits[i];
        proof {
            assert(board_ints(*state)[i as int] == v as int);
        }
        if v > 0 {
            clear = false;
        }
        i = i + 1;
    }
    clear
}

/// The game has ended: one side has no seeds left in its pits.
pub fn is_terminal(state: &BoardState) -> (r: bool)
    ensures
        r == terminal_state(*state),
{
    let p0_empty = side_is_clear(state, 0);
    let p1_empty = side_is_clear(state, 7);
    p0_empty || p1_empty
}

/// Player 0's final score on a slot vector: store plus remaining own pits.
pub open spec fn score0_slots(pits: Seq<int>) -> int {
    sum_range(pits, 0, 7) + pits[14]
}

/// Player 1's final score on a slot vector: store plus remaining own pits.
pub open spec fn score1_slots(pits: Seq<int>) -> int {
    sum_range(pits, 7, 14) + pits[15]
}

/// The winner on a slot vector: 0 or 1, or -1 for a draw.
pub open spec fn winner_slots(pits: Seq<int>) -> int {
    if score0_slots(pits) > score1_slots(pits) {
        0
    } else if score1_slots(pits) > score0_slots(pits) {
        1
    } else {
        -1
    }
}

/// Player 0's final score: their store plus whatever remains in their pits.
pub open spec fn p0_final_score(b: BoardState) -> int {
    score0_slots(board_ints(b))
}

/// Player 1's final score: their store plus whatever remains in their pits.
pub open spec fn p1_final_score(b: BoardState) -> int {
    score1_slots(board_ints(b))
}

/// The winner by final scores: 0 or 1, or -1 for a draw.
pub open spec fn winner_of(b: BoardState) -> int {
    winner_slots(board_ints(b))
}

/// The winner is exactly the side with the higher final score, and equal
/// final scores are exactly a draw.
pub proof fn lemma_winner_matches_final_scores(b: BoardState)
    ensures
        winner_of(b) == 0 <==> p0_final_score(b) > p1_final_score(b),
        winner_of(b) == 1 <==> p1_final_score(b) > p0_final_score(b),
        winner_of(b) == -1 <==> p0_final_score(b) == p1_final_score(b),
{
}

/// Sum of the slots of `state` with index in `[lo, hi)`.
fn slot_sum(state: &BoardState, lo: usize, hi: usize) -> (r: u8)
    requires
        lo <= hi <= 16,
        board_total(*state) <= 255,
    ensures
        r == sum_range(board_ints(*state), lo as int, hi as int),
{
    let ghost all = board_ints(*state);
    let mut acc: u8 = 0;
    let mut i: usize = lo;
    while i < hi
        invariant
            lo <= i <= hi <= 16,
            sum_range(all, 0, 16) <= 255,
            all == board_ints(*state),
            acc == sum_range(all, lo as int, i as int),
        decreases hi - i,
    {
        proof {
            lemma_sum_range_split(all, 0, lo as int, 16);
            lemma_sum_range_split(all, lo as int, i + 1, 16);
            lemma_sum_range_nonneg(all, 0, lo as int);
            lemma_sum_range_nonneg(all, i + 1, 16);
        }
        acc = acc + state.pits[i];
        i = i + 1;
    }
    acc
}

/// The winner of a finished game: 0, 1, or -1 for a draw. Each side's score
/// is its store plus the seeds remaining in its own pits.
pub fn get_winner(state: &BoardState) -> (r: i8)
    requires
        board_total(*state) <= 255,
    ensures
        r == winner_of(*state),
{
    let (p0_total, p1_total) = get_final_scores(state);
    if p0_total > p1_total {
        0
    } else if p1_total > p0_total {
        1
    } else {
        -1
    }
}

/// Both final scores: store plus remaining own pit seeds, for each player.
pub fn get_final_scores(state: &BoardState) -> (r: (u8, u8))
    requires
        board_total(*state) <= 255,
    ensures
        r.0 == p0_final_score(*state),
        r.1 == p1_final_score(*state),
{
    let p0_remaining = slot_sum(state, 0, 7);
    let p1_remaining = slot_sum(state, 7, 14);
    let ghost all = board_ints(*state);
    proof {
        lemma_sum_range_split(all, 0, 7, 16);
        lemma_sum_range_split(all, 7, 14, 16);
        lemma_sum_range_split(all, 14, 16, 16);
        lemma_sum_range_nonneg(all, 0, 7);
        lemma_sum_range_nonneg(all, 7, 14);
        assert(sum_range(all, 14, 16) == all[14] + all[15]) by {
            reveal_with_fuel(sum_range, 4);
        }
    }
    (state.pits[14] + p0_remaining, state.pits[15] + p1_remaining)
}

} // verus!
