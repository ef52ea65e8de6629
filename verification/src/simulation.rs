//! The simulation layer: seeded random playouts, batched playout counts,
//! and perft node counting, all driving the sequential resolver.
//!
//! A playout advances a 64-bit xorshift generator to pick a uniformly
//! indexed legal move until the position is terminal; it is specified by the
//! fuel-bounded interpreter [`playout_run`], so that two playouts from the
//! same state, rules and seed provably return the same winner. Perft counts
//! the positions reachable in exactly `depth` plies and is specified by the
//! recursive pair [`perft_spec`] / [`perft_sum`].

use vstd::prelude::*;

use crate::board::BoardState;
use crate::board::board_ints;
use crate::board::board_ok;
use crate::moves::apply_move;
use crate::moves::get_legal_moves;
use crate::moves::is_terminal;
use crate::moves::get_winner;
use crate::moves::legal_slots;
use crate::moves::lemma_legal_from_props;
use crate::moves::sow;
use crate::moves::terminal_slots;
use crate::moves::winner_slots;
use crate::ring::owns_pit;
use crate::rules::RuleConfig;
use crate::sums::sum_range;

verus! {

/// One round of the 64-bit xorshift generator.
pub open spec fn rng_next(x: u64) -> u64 {
    let a = x ^ (x << 13u64);
    let b = a ^ (a >> 7u64);
    b ^ (b << 17u64)
}

/// The starting generator state for a seed: 0 is replaced by a fixed
/// non-zero constant, since an all-zero xorshift stream never leaves zero.
pub open spec fn seed_init(seed: u64) -> u64 {
    if seed == 0 {
        0x9E3779B97F4A7C15u64
    } else {
        seed
    }
}

/// A playout in flight: the slot counts, whose turn it is, and the
/// generator state.
pub struct PlayState {
    pub pits: Seq<int>,
    pub player: int,
    pub rng: u64,
}

/// The playout states the interpreter advances from: a well-formed board
/// whose total fits the slots.
pub open spec fn play_ok(ps: PlayState) -> bool {
    &&& ps.pits.len() == 16
    &&& (forall|k: int| 0 <= k < 16 ==> ps.pits[k] >= 0)
    &&& sum_range(ps.pits, 0, 16) <= 255
    &&& (ps.player == 0 || ps.player == 1)
}

/// The playout interpreter: while the position is not terminal and a legal
/// move exists, advance the generator, play the uniformly indexed legal
/// move, and continue, for at most `fuel` moves.
pub open spec fn playout_run(ps: PlayState, rules: RuleConfig, fuel: nat) -> PlayState
    decreases fuel,
{
    if fuel == 0 || !play_ok(ps) || terminal_slots(ps.pits) || legal_slots(
        ps.pits,
        ps.player,
    ).len() == 0 {
        ps
    } else {
        let r2 = rng_next(ps.rng);
        let moves = legal_slots(ps.pits, ps.player);
        let m = moves[(r2 as usize) as int % moves.len() as int];
        let oc = sow(ps.player, rules, ps.pits.update(m, 0), ps.pits[m], m, false);
        let np = if oc.extra_turn {
            ps.player
        } else {
            1 - ps.player
        };
        playout_run(PlayState { pits: oc.pits, player: np, rng: r2 }, rules, (fuel - 1) as nat)
    }
}

/// The winner of the playout from `b` under `rules` with `seed`: a pure
/// function of those three values, which is what makes playouts
/// reproducible.
pub open spec fn playout_winner(b: BoardState, rules: RuleConfig, seed: u64) -> int {
    winner_slots(
        playout_run(
            PlayState {
                pits: board_ints(b),
                player: b.current_player as int,
                rng: seed_init(seed),
            },
            rules,
            u64::MAX as nat,
        ).pits,
    )
}

/// Playouts are deterministic: two runs from the same state, rules and seed
/// return the same winner, because the winner is a function of those three
/// values alone.
pub proof fn lemma_playout_deterministic(
    b: BoardState,
    rules: RuleConfig,
    seed: u64,
    r1: int,
    r2: int,
)
    requires
        r1 == playout_winner(b, rules, seed),
        r2 == playout_winner(b, rules, seed),
    ensures
        r1 == r2,
{
}

/// Play one random game to termination and return the winner (0, 1, or -1
/// for a draw).
pub fn random_playout(state: &BoardState, rules: &RuleConfig, seed: u64) -> (r: i8)
    requires
        board_ok(*state),
    ensures
        r as int == playout_winner(*state, *rules, seed),
{
    let mut current = *state;
    let mut rng_state: u64 = if seed == 0 {
        0x9E3779B97F4A7C15
    } else {
        seed
    };
    let mut fuel: u64 = u64::MAX;
    let ghost target = playout_run(
        PlayState {
            pits: board_ints(*state),
            player: state.current_player as int,
            rng: rng_state,
        },
        *rules,
        u64::MAX as nat,
    );

    while fuel > 0
        invariant_except_break
            board_ok(current),
            playout_run(
                PlayState {
                    pits: board_ints(current),
                    player: current.current_player as int,
                    rng: rng_state,
                },
                *rules,
                fuel as nat,
            ) == target,
        ensures
            board_ok(current),
            board_ints(current) == target.pits,
        decreases fuel,
    {
        if is_terminal(&current) {
            break ;
        }
        let moves = get_legal_moves(&current);
        if moves.len() == 0 {
            break ;
        }

        rng_state = rng_state ^ (rng_state << 13u64);
        rng_state = rng_state ^ (rng_state >> 7u64);
        rng_state = rng_state ^ (rng_state << 17u64);

        let idx = (rng_state as usize) % moves.len();
        let m = moves[idx];
        proof {
            lemma_legal_from_props(
                board_ints(current),
                if current.current_player == 0 {
                    0int
                } else {
                    7int
                },
                if current.current_player == 0 {
                    7int
                } else {
                    14int
                },
            );
            assert(moves@[idx as int] as int == legal_slots(
                board_ints(current),
                current.current_player as int,
            )[idx as int]);
        }
        let result = apply_move(&current, m, rules);
        current = result.state;
        fuel = fuel - 1;
    }

    get_winner(&current)
}

/// How many of the playouts with seeds `base_seed + i`, `i < n`, the side
/// `who` wins.
pub open spec fn batch_count(
    b: BoardState,
    rules: RuleConfig,
    base_seed: u64,
    n: nat,
    who: int,
) -> int
    decreases n,
{
    if n == 0 {
        0
    } else {
        batch_count(b, rules, base_seed, (n - 1) as nat, who) + if playout_winner(
            b,
            rules,
            vstd::wrapping::u64_specs::wrapping_add(base_seed, (n - 1) as u64),
        ) == who {
            1int
        } else {
            0int
        }
    }
}

/// Run `num_playouts` independent random playouts with seeds `base_seed`,
/// `base_seed + 1`, ... and return the counts of player-0 wins, player-1
/// wins, and draws.
pub fn batch_random_playouts(
    state: &BoardState,
    rules: &RuleConfig,
    num_playouts: u32,
    base_seed: u64,
) -> (r: [u32; 3])
    requires
        board_ok(*state),
    ensures
        r@[0] == batch_count(*state, *rules, base_seed, num_playouts as nat, 0),
        r@[1] == batch_count(*state, *rules, base_seed, num_playouts as nat, 1),
        r@[2] == batch_count(*state, *rules, base_seed, num_playouts as nat, -1),
{
    let mut counts: [u32; 3] = [0; 3];
    let mut i: u32 = 0;
    while i < num_playouts
        invariant
            i <= num_playouts,
            board_ok(*state),
            counts@[0] == batch_count(*state, *rules, base_seed, i as nat, 0),
            counts@[1] == batch_count(*state, *rules, base_seed, i as nat, 1),
            counts@[2] == batch_count(*state, *rules, base_seed, i as nat, -1),
            counts@[0] + counts@[1] + counts@[2] == i,
        decreases num_playouts - i,
    {
        let winner = random_playout(state, rules, base_seed.wrapping_add(i as u64));
        if winner == 0 {
            counts[0] = counts[0] + 1;
        } else if winner == 1 {
            counts[1] = counts[1] + 1;
        } else {
            counts[2] = counts[2] + 1;
        }
        i = i + 1;
    }
    counts
}

/// The number of positions reachable in exactly `depth` plies: 1 at depth 0
/// or at a terminal position, else the sum over every legal move of the
/// count of its resulting position one ply shallower.
pub open spec fn perft_spec(pits: Seq<int>, player: int, rules: RuleConfig, depth: nat) -> nat
    decreases depth, legal_slots(pits, player).len() + 1,
{
    if depth == 0 || terminal_slots(pits) {
        1
    } else {
        perft_sum(pits, player, rules, depth, 0)
    }
}

/// The nodes contributed by the legal moves with list index at least `i`.
pub open spec fn perft_sum(pits: Seq<int>, player: int, rules: RuleConfig, depth: nat, i: int) -> nat
    decreases depth, legal_slots(pits, player).len() - i,
{
    let moves = legal_slots(pits, player);
    if depth == 0 || i < 0 || i >= moves.len() {
        0
    } else {
        let m = moves[i];
        let oc = sow(player, rules, pits.update(m, 0), pits[m], m, false);
        let np = if oc.extra_turn {
            player
        } else {
            1 - player
        };
        perft_spec(oc.pits, np, rules, (depth - 1) as nat) + perft_sum(
            pits,
            player,
            rules,
            depth,
            i + 1,
        )
    }
}

/// Perft of any position at depth 0 is exactly one node.
pub proof fn lemma_perft_depth_zero(pits: Seq<int>, player: int, rules: RuleConfig)
    ensures
        perft_spec(pits, player, rules, 0) == 1,
{
}

/// Count the positions reachable in exactly `depth` plies (1 at depth 0 or
/// at a terminal position). Validates move generation.
pub fn perft(state: &BoardState, rules: &RuleConfig, depth: u32) -> (r: u64)
    requires
        board_ok(*state),
        perft_spec(board_ints(*state), state.current_player as int, *rules, depth as nat)
            <= u64::MAX,
    ensures
        r == perft_spec(board_ints(*state), state.current_player as int, *rules, depth as nat),
    decreases depth,
{
    let ghost pits = board_ints(*state);
    let ghost player = state.current_player as int;
    let ghost total = perft_spec(pits, player, *rules, depth as nat);

    if depth == 0 || is_terminal(state) {
        return 1;
    }

    let moves = get_legal_moves(state);
    let mut count: u64 = 0;
    let mut i: usize = 0;
    proof {
        lemma_legal_from_props(
            pits,
            if state.current_player == 0 {
                0int
            } else {
                7int
            },
            if state.current_player == 0 {
                7int
            } else {
                14int
            },
        );
    }
    while i < moves.len()
        invariant
            i <= moves.len(),
            board_ok(*state),
            pits == board_ints(*state),
            player == state.current_player as int,
            depth >= 1,
            !terminal_slots(pits),
            moves@.map_values(|m: usize| m as int) == legal_slots(pits, player),
            forall|k: int|
                0 <= k < legal_slots(pits, player).len() ==> #[trigger] legal_slots(pits, player)[k]
                    < 14 && 0 <= legal_slots(pits, player)[k] && pits[legal_slots(
                    pits,
                    player,
                )[k]] > 0 && owns_pit(player, legal_slots(pits, player)[k]),
            total == perft_spec(pits, player, *rules, depth as nat),
            total <= u64::MAX,
            count + perft_sum(pits, player, *rules, depth as nat, i as int) == total,
        decreases moves.len() - i,
    {
        let m = moves[i];
        let result = apply_move(state, m, rules);
        let ghost oc = sow(player, *rules, pits.update(m as int, 0), pits[m as int], m as int, false);
        proof {
            assert(perft_sum(pits, player, *rules, depth as nat, i as int) == perft_spec(
                board_ints(result.state),
                result.state.current_player as int,
                *rules,
                (depth - 1) as nat,
            ) + perft_sum(pits, player, *rules, depth as nat, i as int + 1));
        }
        let sub = perft(&result.state, rules, depth - 1);
        count = count + sub;
        i = i + 1;
    }
    count
}

} // verus!
