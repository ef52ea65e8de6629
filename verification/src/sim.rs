//! The simultaneous move resolver.
//!
//! Both players pick up the seeds of one of their own pits at the same
//! instant and sow concurrently. Each player's sowing is a process that
//! carries its position, its hand, and a per-slot signed delta against the
//! shared starting board; the two processes are driven in lock-step ticks so
//! that every relay, capture and forfeit decision observes the combined
//! board `base + delta0 + delta1`, including the other player's in-flight
//! deposits. The spec model is [`sower_step`] / [`sower_check`] iterated by
//! [`sim_loop`]; the invariant [`sim_wf`] (combined counts never negative,
//! grand total conserved, lock-step positions never colliding) is proved
//! preserved by every tick in [`lemma_sim_round`].

use vstd::prelude::*;

use crate::board::BoardState;
use crate::board::board_ints;
use crate::board::board_total;
use crate::board::ints;
use crate::ring::dist_to_store;
use crate::ring::gap_collides;
use crate::ring::is_player_pit;
use crate::ring::lane_gap;
use crate::ring::lemma_lane_gap_step;
use crate::ring::lemma_sow_next;
use crate::ring::next_position;
use crate::ring::opposite_pit;
use crate::ring::other_store_of;
use crate::ring::owns_pit;
use crate::ring::sow_next;
use crate::ring::store_of;
use crate::rules::RuleConfig;
use crate::sums::lemma_sum_range_elem;
use crate::sums::lemma_sum_range_nonneg;
use crate::sums::lemma_sum_range_split;
use crate::sums::lemma_sum_range_two_elems;
use crate::sums::lemma_sum_range_update;
use crate::sums::sum_range;

verus! {

/// The state of one player's sowing process: ring position, seeds in hand,
/// a per-slot signed delta against the shared starting board, completion
/// flags, a tick counter, and the seeds captured so far.
pub struct Sower {
    pub pos: int,
    pub seeds: int,
    pub delta: Seq<int>,
    pub done: bool,
    pub extra: bool,
    pub looped: bool,
    pub steps: int,
    pub captured: int,
}

/// The all-zero delta.
pub open spec fn zero_delta() -> Seq<int> {
    Seq::new(16, |k: int| 0)
}

/// A process at the instant of pickup: hand loaded from the chosen pit,
/// whose content the delta already removes from the shared board.
pub open spec fn sower_init(base: Seq<int>, start: int) -> Sower {
    Sower {
        pos: start,
        seeds: base[start],
        delta: zero_delta().update(start, -base[start]),
        done: false,
        extra: false,
        looped: false,
        steps: 0,
        captured: 0,
    }
}

/// One tick of a process that still holds seeds: advance one sowing step
/// and deposit one seed; landing the last seed in the own store finishes
/// the process with an extra turn.
pub open spec fn sower_step(p: Sower, player: int) -> Sower {
    if p.done || p.seeds <= 0 {
        p
    } else {
        let np = sow_next(p.pos, player);
        let fin = p.seeds == 1 && np == store_of(player);
        Sower {
            pos: np,
            seeds: p.seeds - 1,
            delta: p.delta.update(np, p.delta[np] + 1),
            done: fin,
            extra: fin || p.extra,
            looped: p.looped || np == store_of(player),
            steps: p.steps + 1,
            captured: p.captured,
        }
    }
}

/// The combined board: starting counts plus both processes' deltas.
pub open spec fn comb(base: Seq<int>, d0: Seq<int>, d1: Seq<int>) -> Seq<int> {
    Seq::new(16, |k: int| base[k] + d0[k] + d1[k])
}

/// End-of-hand evaluation of a process against the combined board: relay if
/// the landing slot now holds more than one seed, else capture, forfeit or
/// plain stop, exactly as in sequential sowing but counting the other
/// process's deposits too.
pub open spec fn sower_check(
    p: Sower,
    player: int,
    base: Seq<int>,
    other: Seq<int>,
    rules: RuleConfig,
) -> Sower {
    if p.done || p.seeds > 0 {
        p
    } else if p.pos >= 14 {
        Sower { done: true, ..p }
    } else {
        let pos = p.pos;
        let actual = base[pos] + p.delta[pos] + other[pos];
        if actual > 1 {
            Sower { seeds: actual, delta: p.delta.update(pos, -base[pos] - other[pos]), ..p }
        } else {
            let capture_ok = rules.capture_enabled && (!rules.capture_requires_loop || p.looped);
            if owns_pit(player, pos) && capture_ok {
                let opp = 13 - pos;
                let opp_actual = base[opp] + p.delta[opp] + other[opp];
                if opp_actual > 0 {
                    Sower {
                        delta: p.delta.update(
                            store_of(player),
                            p.delta[store_of(player)] + opp_actual + 1,
                        ).update(pos, -base[pos] - other[pos]).update(
                            opp,
                            -base[opp] - other[opp],
                        ),
                        captured: p.captured + opp_actual + 1,
                        done: true,
                        ..p
                    }
                } else {
                    Sower { done: true, ..p }
                }
            } else if !owns_pit(player, pos) && rules.forfeit_enabled {
                Sower {
                    delta: p.delta.update(
                        other_store_of(player),
                        p.delta[other_store_of(player)] + 1,
                    ).update(pos, -base[pos] - other[pos]),
                    done: true,
                    ..p
                }
            } else {
                Sower { done: true, ..p }
            }
        }
    }
}

/// The invariant of lock-step simultaneous sowing. Beyond shape and sign
/// facts it carries the three essential properties: every combined slot
/// count is non-negative, the grand total (hands included) is conserved,
/// and two processes that are both still sowing are tick-synchronized on
/// ring positions that can never coincide.
pub open spec fn sim_wf(base: Seq<int>, p0: Sower, p1: Sower) -> bool {
    &&& base.len() == 16
    &&& p0.delta.len() == 16
    &&& p1.delta.len() == 16
    &&& (forall|k: int| 0 <= k < 16 ==> base[k] >= 0)
    &&& 0 <= p0.pos < 16 && p0.pos != other_store_of(0)
    &&& 0 <= p1.pos < 16 && p1.pos != other_store_of(1)
    &&& (!p0.done ==> p0.seeds >= 1)
    &&& (p0.done ==> p0.seeds == 0)
    &&& (!p1.done ==> p1.seeds >= 1)
    &&& (p1.done ==> p1.seeds == 0)
    &&& (!p0.done ==> p0.captured == 0)
    &&& (!p1.done ==> p1.captured == 0)
    &&& p0.captured >= 0 && p1.captured >= 0
    &&& p0.steps >= 0 && p1.steps >= 0
    &&& p0.delta[14] >= 0 && p0.delta[15] >= 0
    &&& p1.delta[14] >= 0 && p1.delta[15] >= 0
    &&& (forall|k: int| 0 <= k < 16 ==> base[k] + p0.delta[k] + p1.delta[k] >= 0)
    &&& p0.seeds + p1.seeds + sum_range(comb(base, p0.delta, p1.delta), 0, 16) == sum_range(
        base,
        0,
        16,
    )
    &&& (forall|k: int|
        0 <= k < 16 ==> p0.delta[k] <= p0.steps + p0.captured + if p0.done {
            2int
        } else {
            1int
        })
    &&& (forall|k: int|
        0 <= k < 16 ==> p1.delta[k] <= p1.steps + p1.captured + if p1.done {
            2int
        } else {
            1int
        })
    &&& (!p0.done && !p1.done ==> p0.steps == p1.steps && !gap_collides(
        lane_gap(p0.pos, p1.pos),
    ))
}

/// How many of the two processes are still sowing.
pub open spec fn live_count(p0: Sower, p1: Sower) -> int {
    (if p0.done {
        0int
    } else {
        1int
    }) + (if p1.done {
        0int
    } else {
        1int
    })
}

/// Termination measure of the joint loop: seeds banked in the stores never
/// come back out, and a process that is not done reaches its own store
/// within one lap of its fifteen-slot ring.
pub open spec fn sim_measure(base: Seq<int>, p0: Sower, p1: Sower) -> int {
    let c = comb(base, p0.delta, p1.delta);
    (sum_range(base, 0, 16) - c[14] - c[15]) * 33 + (if p0.done {
        0int
    } else {
        dist_to_store(sow_next(p0.pos, 0), 0)
    }) + (if p1.done {
        0int
    } else {
        dist_to_store(sow_next(p1.pos, 1), 1)
    })
}

/// Updating one process's delta updates the combined board pointwise.
proof fn lemma_comb_update0(base: Seq<int>, d0: Seq<int>, d1: Seq<int>, k: int, v: int)
    requires
        base.len() == 16,
        d0.len() == 16,
        d1.len() == 16,
        0 <= k < 16,
    ensures
        comb(base, d0.update(k, v), d1) == comb(base, d0, d1).update(k, base[k] + v + d1[k]),
        comb(base, d0, d1.update(k, v)) == comb(base, d0, d1).update(k, base[k] + d0[k] + v),
{
    assert(comb(base, d0.update(k, v), d1) =~= comb(base, d0, d1).update(k, base[k] + v + d1[k]));
    assert(comb(base, d0, d1.update(k, v)) =~= comb(base, d0, d1).update(k, base[k] + d0[k] + v));
}

/// The combined board does not depend on the order of the two deltas.
proof fn lemma_comb_symm(base: Seq<int>, d0: Seq<int>, d1: Seq<int>)
    ensures
        comb(base, d0, d1) == comb(base, d1, d0),
{
    assert(comb(base, d0, d1) =~= comb(base, d1, d0));
}

/// What one tick does to a live process: one deposit into the combined
/// board, conserving hand plus board, keeping every combined count
/// non-negative, and either banking a seed in the own store or walking one
/// slot closer to it.
proof fn lemma_step_effect(base: Seq<int>, me: Sower, other: Seq<int>, player: int)
    requires
        player == 0 || player == 1,
        base.len() == 16,
        me.delta.len() == 16,
        other.len() == 16,
        forall|k: int| 0 <= k < 16 ==> base[k] >= 0,
        0 <= me.pos < 16,
        me.pos != other_store_of(player),
        !me.done,
        me.seeds >= 1,
        me.delta[14] >= 0,
        me.delta[15] >= 0,
        forall|k: int| 0 <= k < 16 ==> base[k] + me.delta[k] + other[k] >= 0,
        forall|k: int| 0 <= k < 16 ==> me.delta[k] <= me.steps + me.captured + 1,
        me.steps >= 0,
        me.captured >= 0,
    ensures
        ({
            let q = sower_step(me, player);
            let np = sow_next(me.pos, player);
            let c_old = comb(base, me.delta, other);
            let c_new = comb(base, q.delta, other);
            &&& q.pos == np && 0 <= np < 16 && np != other_store_of(player)
            &&& q.delta == me.delta.update(np, me.delta[np] + 1)
            &&& q.delta.len() == 16
            &&& q.seeds == me.seeds - 1
            &&& q.steps == me.steps + 1
            &&& q.captured == me.captured
            &&& q.looped == (me.looped || np == store_of(player))
            &&& q.done == (me.seeds == 1 && np == store_of(player))
            &&& q.extra == (me.extra || (me.seeds == 1 && np == store_of(player)))
            &&& (q.done ==> q.seeds == 0)
            &&& (!q.done ==> q.seeds + 1 >= 1)
            &&& q.delta[14] >= 0 && q.delta[15] >= 0
            &&& (forall|k: int| 0 <= k < 16 ==> base[k] + q.delta[k] + other[k] >= 0)
            &&& c_new == c_old.update(np, c_old[np] + 1)
            &&& (forall|k: int| 0 <= k < 16 && k != np ==> c_new[k] == c_old[k])
            &&& c_new[np] == c_old[np] + 1
            &&& q.seeds + sum_range(c_new, 0, 16) == me.seeds + sum_range(c_old, 0, 16)
            &&& (forall|k: int|
                0 <= k < 16 ==> q.delta[k] <= q.steps + q.captured + if q.done {
                    2int
                } else {
                    1int
                })
            &&& c_new[14] + c_new[15] == c_old[14] + c_old[15] + (if np == store_of(player) {
                1int
            } else {
                0int
            })
            &&& (np != store_of(player) ==> dist_to_store(sow_next(np, player), player)
                <= dist_to_store(sow_next(me.pos, player), player) - 1)
            &&& 0 <= dist_to_store(sow_next(np, player), player) <= 15
            &&& (np == store_of(player) ==> dist_to_store(sow_next(me.pos, player), player) == 0)
        }),
{
    lemma_sow_next(me.pos, player);
    let np = sow_next(me.pos, player);
    lemma_sow_next(np, player);
    let q = sower_step(me, player);
    let c_old = comb(base, me.delta, other);
    let c_new = comb(base, q.delta, other);
    lemma_comb_update0(base, me.delta, other, np, me.delta[np] + 1);
    lemma_sum_range_update(c_old, 0, 16, np, c_old[np] + 1);
    assert(c_new == c_old.update(np, c_old[np] + 1));
}

/// What end-of-hand evaluation does to a process whose hand just emptied:
/// the combined board stays non-negative, the grand total is conserved, the
/// stores only grow, and the process either relays (at least two seeds back
/// in hand) or is done. The one subtle hypothesis: if the landing slot's
/// combined count is zero (the other process relayed or captured this very
/// tick), the slot is the process's own pit and the opposite pit is empty
/// too, so the evaluation changes nothing.
proof fn lemma_check_effect(
    base: Seq<int>,
    me: Sower,
    other: Seq<int>,
    player: int,
    rules: RuleConfig,
)
    requires
        player == 0 || player == 1,
        base.len() == 16,
        me.delta.len() == 16,
        other.len() == 16,
        forall|k: int| 0 <= k < 16 ==> base[k] >= 0,
        0 <= me.pos < 14,
        !me.done,
        me.seeds == 0,
        me.captured == 0,
        me.delta[14] >= 0,
        me.delta[15] >= 0,
        forall|k: int| 0 <= k < 16 ==> base[k] + me.delta[k] + other[k] >= 0,
        forall|k: int| 0 <= k < 16 ==> me.delta[k] <= me.steps + me.captured + 1,
        me.steps >= 0,
        base[me.pos] + me.delta[me.pos] + other[me.pos] == 0 ==> (owns_pit(player, me.pos) && base[
            13 - me.pos
        ] + me.delta[13 - me.pos] + other[13 - me.pos] == 0),
    ensures
        ({
            let q = sower_check(me, player, base, other, rules);
            let c_old = comb(base, me.delta, other);
            let c_new = comb(base, q.delta, other);
            &&& q.pos == me.pos && q.steps == me.steps && q.looped == me.looped && q.extra
                == me.extra
            &&& q.delta.len() == 16
            &&& (q.done ==> q.seeds == 0)
            &&& (!q.done ==> q.seeds >= 2)
            &&& q.delta[14] >= 0 && q.delta[15] >= 0
            &&& q.captured >= 0
            &&& (!q.done ==> q.captured == 0)
            &&& (forall|k: int| 0 <= k < 16 ==> base[k] + q.delta[k] + other[k] >= 0)
            &&& q.seeds + sum_range(c_new, 0, 16) == sum_range(c_old, 0, 16)
            &&& (forall|k: int|
                0 <= k < 16 ==> q.delta[k] <= q.steps + q.captured + if q.done {
                    2int
                } else {
                    1int
                })
            &&& c_new[14] + c_new[15] >= c_old[14] + c_old[15]
            &&& (!q.done ==> c_new[14] + c_new[15] == c_old[14] + c_old[15])
            &&& (forall|k: int|
                0 <= k < 16 && k != me.pos && k != 13 - me.pos && k != store_of(player) && k
                    != other_store_of(player) ==> c_new[k] == c_old[k])
            &&& (c_new[13 - me.pos] == c_old[13 - me.pos] || (c_new[13 - me.pos] == 0 && c_new[
                me.pos
            ] == 0 && owns_pit(player, me.pos)))
            &&& q.captured <= me.captured + c_old[me.pos] + c_old[13 - me.pos]
        }),
{
    let q = sower_check(me, player, base, other, rules);
    let c_old = comb(base, me.delta, other);
    let pos = me.pos;
    let actual = base[pos] + me.delta[pos] + other[pos];
    assert(actual == c_old[pos]);
    assert(actual >= 0);
    if actual > 1 {
        // relay: the whole combined content of the landing slot moves to hand
        lemma_comb_update0(base, me.delta, other, pos, -base[pos] - other[pos]);
        lemma_sum_range_update(c_old, 0, 16, pos, 0);
        assert(comb(base, q.delta, other) == c_old.update(pos, 0));
    } else {
        let capture_ok = rules.capture_enabled && (!rules.capture_requires_loop || me.looped);
        if owns_pit(player, pos) && capture_ok {
            let opp = 13 - pos;
            let opp_actual = base[opp] + me.delta[opp] + other[opp];
            assert(opp_actual == c_old[opp]);
            if opp_actual > 0 {
                // capture: this seed plus the opposite pit go to the own store
                assert(actual == 1);
                let st = store_of(player);
                let grabbed = opp_actual + 1;
                let d1 = me.delta.update(st, me.delta[st] + grabbed);
                let d2 = d1.update(pos, -base[pos] - other[pos]);
                let d3 = d2.update(opp, -base[opp] - other[opp]);
                assert(q.delta == d3);
                lemma_comb_update0(base, me.delta, other, st, me.delta[st] + grabbed);
                let c1 = c_old.update(st, c_old[st] + grabbed);
                assert(comb(base, d1, other) == c1);
                lemma_comb_update0(base, d1, other, pos, -base[pos] - other[pos]);
                let c2 = c1.update(pos, 0);
                assert(comb(base, d2, other) == c2);
                lemma_comb_update0(base, d2, other, opp, -base[opp] - other[opp]);
                let c3 = c2.update(opp, 0);
                assert(comb(base, d3, other) == c3);
                lemma_sum_range_update(c_old, 0, 16, st, c_old[st] + grabbed);
                lemma_sum_range_update(c1, 0, 16, pos, 0);
                lemma_sum_range_update(c2, 0, 16, opp, 0);
            }
        } else if !owns_pit(player, pos) && rules.forfeit_enabled {
            // forfeit: the landed seed moves to the opponent's store
            assert(actual == 1);
            let st = other_store_of(player);
            let d1 = me.delta.update(st, me.delta[st] + 1);
            let d2 = d1.update(pos, -base[pos] - other[pos]);
            assert(q.delta == d2);
            lemma_comb_update0(base, me.delta, other, st, me.delta[st] + 1);
            let c1 = c_old.update(st, c_old[st] + 1);
            assert(comb(base, d1, other) == c1);
            lemma_comb_update0(base, d1, other, pos, -base[pos] - other[pos]);
            let c2 = c1.update(pos, 0);
            assert(comb(base, d2, other) == c2);
            lemma_sum_range_update(c_old, 0, 16, st, c_old[st] + 1);
            lemma_sum_range_update(c1, 0, 16, pos, 0);
        }
    }
}

/// One lock-step tick of the joint resolution preserves the simultaneous
/// sowing invariant [`sim_wf`] — in particular, no combined slot count ever
/// goes negative and the grand total of seeds is conserved — and strictly
/// decreases the termination measure for every process still sowing.
pub proof fn lemma_sim_round(base: Seq<int>, rules: RuleConfig, p0: Sower, p1: Sower)
    requires
        sim_wf(base, p0, p1),
        !(p0.done && p1.done),
    ensures
        ({
            let p0a = sower_step(p0, 0);
            let p1a = sower_step(p1, 1);
            let p0b = if p0a.seeds == 0 && !p0a.done {
                sower_check(p0a, 0, base, p1a.delta, rules)
            } else {
                p0a
            };
            let p1b = if p1a.seeds == 0 && !p1a.done {
                sower_check(p1a, 1, base, p0b.delta, rules)
            } else {
                p1a
            };
            &&& sim_wf(base, p0b, p1b)
            &&& sim_measure(base, p0b, p1b) + live_count(p0, p1) <= sim_measure(base, p0, p1)
            &&& sim_measure(base, p0b, p1b) >= 0
            &&& p0b.steps == p0.steps + (if p0.done {
                0int
            } else {
                1int
            })
            &&& p1b.steps == p1.steps + (if p1.done {
                0int
            } else {
                1int
            })
            &&& p0b.captured <= p0.captured + sum_range(base, 0, 16)
            &&& p1b.captured <= p1.captured + sum_range(base, 0, 16)
            &&& (forall|k: int| 0 <= k < 16 ==> comb(base, p0a.delta, p1a.delta)[k] >= 0)
            &&& sum_range(comb(base, p0a.delta, p1a.delta), 0, 16) <= sum_range(base, 0, 16)
            &&& (forall|k: int| 0 <= k < 16 ==> comb(base, p0b.delta, p1a.delta)[k] >= 0)
            &&& sum_range(comb(base, p0b.delta, p1a.delta), 0, 16) <= sum_range(base, 0, 16)
            &&& (p0a.seeds == 0 && !p0a.done ==> p0a.captured == 0 && 0 <= p0a.pos < 14)
            &&& (p1a.seeds == 0 && !p1a.done ==> p1a.captured == 0 && 0 <= p1a.pos < 14)
            &&& (p0a.seeds == 0 && !p0a.done ==> comb(base, p0a.delta, p1a.delta)[p0a.pos] >= 1)
            &&& (p1a.seeds == 0 && !p1a.done ==> (comb(base, p0b.delta, p1a.delta)[p1a.pos] == 0
                ==> owns_pit(1, p1a.pos) && comb(base, p0b.delta, p1a.delta)[13 - p1a.pos] == 0))
            &&& p0a.steps == p0b.steps && p1a.steps == p1b.steps
            &&& p0a.captured == p0.captured && p1a.captured == p1.captured
            &&& (forall|k: int|
                0 <= k < 16 ==> p0a.delta[k] <= p0a.steps + p0a.captured + 2 && p1a.delta[k]
                    <= p1a.steps + p1a.captured + 2 && p0b.delta[k] <= p0b.steps + p0b.captured
                    + 2)
        }),
{
    let t = sum_range(base, 0, 16);
    let p0a = sower_step(p0, 0);
    let p1a = sower_step(p1, 1);
    let c00 = comb(base, p0.delta, p1.delta);

    // phase 1: player 0 deposits one seed (if still sowing)
    if !p0.done {
        lemma_step_effect(base, p0, p1.delta, 0);
    }
    let c10 = comb(base, p0a.delta, p1.delta);
    assert(p0a.seeds + p1.seeds + sum_range(c10, 0, 16) == t);

    // phase 2: player 1 deposits one seed (if still sowing)
    if !p1.done {
        lemma_comb_symm(base, p0a.delta, p1.delta);
        lemma_step_effect(base, p1, p0a.delta, 1);
        lemma_comb_symm(base, p1a.delta, p0a.delta);
    }
    let c11 = comb(base, p0a.delta, p1a.delta);
    assert(p0a.seeds + p1a.seeds + sum_range(c11, 0, 16) == t);
    assert(forall|k: int| 0 <= k < 16 ==> c11[k] >= 0);

    // a process whose hand just emptied without finishing stands on a pit
    assert(p0a.seeds == 0 && !p0a.done ==> 0 <= p0a.pos < 14) by {
        if !p0.done {
            lemma_sow_next(p0.pos, 0);
        }
    }
    assert(p1a.seeds == 0 && !p1a.done ==> 0 <= p1a.pos < 14) by {
        if !p1.done {
            lemma_sow_next(p1.pos, 1);
        }
    }

    // while both processes sow they stay tick-synchronized on distinct slots
    if !p0.done && !p1.done {
        lemma_lane_gap_step(p0.pos, p1.pos);
        lemma_lane_gap_step(p0a.pos, p1a.pos);
    }

    // phase 3: player 0's end-of-hand evaluation (if its hand just emptied)
    let p0b = if p0a.seeds == 0 && !p0a.done {
        sower_check(p0a, 0, base, p1a.delta, rules)
    } else {
        p0a
    };
    if p0a.seeds == 0 && !p0a.done {
        // player 0's landing slot holds its own fresh deposit
        assert(c11[p0a.pos] >= 1);
        lemma_check_effect(base, p0a, p1a.delta, 0, rules);
    }
    let c21 = comb(base, p0b.delta, p1a.delta);
    assert(p0b.seeds + p1a.seeds + sum_range(c21, 0, 16) == t);

    // phase 4: player 1's end-of-hand evaluation (if its hand just emptied)
    let p1b = if p1a.seeds == 0 && !p1a.done {
        sower_check(p1a, 1, base, p0b.delta, rules)
    } else {
        p1a
    };
    if p1a.seeds == 0 && !p1a.done {
        // player 1's landing slot can only have been emptied again by a
        // player-0 capture across the board, which also emptied its own
        // landing pit — the pit opposite player 1's.
        assert(c11[p1a.pos] >= 1);
        if c21[p1a.pos] == 0 {
            assert(p0a.seeds == 0 && !p0a.done);
            assert(p0a.pos != p1a.pos);
            assert(p1a.pos == 13 - p0a.pos);
            assert(c21[p0a.pos] == 0 && owns_pit(0, p0a.pos));
            assert(owns_pit(1, p1a.pos));
            assert(c21[13 - p1a.pos] == 0);
        }
        lemma_comb_symm(base, p0b.delta, p1a.delta);
        lemma_check_effect(base, p1a, p0b.delta, 1, rules);
        lemma_comb_symm(base, p1b.delta, p0b.delta);
    }
    let c22 = comb(base, p0b.delta, p1b.delta);
    assert(p0b.seeds + p1b.seeds + sum_range(c22, 0, 16) == t);

    // the measure drops by at least one per process that was sowing
    assert(sim_measure(base, p0a, p1) + (if p0.done {
        0int
    } else {
        1int
    }) <= sim_measure(base, p0, p1));
    assert(sim_measure(base, p0a, p1a) + (if p1.done {
        0int
    } else {
        1int
    }) <= sim_measure(base, p0a, p1));
    assert(sim_measure(base, p0b, p1a) <= sim_measure(base, p0a, p1a));
    assert(sim_measure(base, p0b, p1b) <= sim_measure(base, p0b, p1a));

    // the measure stays non-negative: the seeds not yet banked in the
    // stores are the two hands plus the non-negative combined pit counts
    lemma_sum_range_split(c22, 0, 14, 16);
    lemma_sum_range_nonneg(c22, 0, 14);
    assert(sum_range(c22, 14, 16) == c22[14] + c22[15]) by {
        reveal_with_fuel(sum_range, 4);
    }
    if !p0b.done {
        lemma_sow_next(p0b.pos, 0);
    }
    if !p1b.done {
        lemma_sow_next(p1b.pos, 1);
    }

    // a capture can take at most the seeds present on the board
    if p0a.seeds == 0 && !p0a.done {
        lemma_sum_range_two_elems(c11, 0, 16, p0a.pos, 13 - p0a.pos);
        lemma_sum_range_nonneg(c11, 0, 16);
    }
    if p1a.seeds == 0 && !p1a.done {
        lemma_sum_range_two_elems(c21, 0, 16, p1a.pos, 13 - p1a.pos);
        lemma_sum_range_nonneg(c21, 0, 16);
    }
}

/// The joint lock-step loop: tick both processes until both are done.
pub open spec fn sim_loop(base: Seq<int>, rules: RuleConfig, p0: Sower, p1: Sower) -> (
    Sower,
    Sower,
)
    decreases sim_measure(base, p0, p1),
{
    if !sim_wf(base, p0, p1) || (p0.done && p1.done) {
        (p0, p1)
    } else {
        proof {
            lemma_sim_round(base, rules, p0, p1);
        }
        let p0a = sower_step(p0, 0);
        let p1a = sower_step(p1, 1);
        let p0b = if p0a.seeds == 0 && !p0a.done {
            sower_check(p0a, 0, base, p1a.delta, rules)
        } else {
            p0a
        };
        let p1b = if p1a.seeds == 0 && !p1a.done {
            sower_check(p1a, 1, base, p0b.delta, rules)
        } else {
            p1a
        };
        sim_loop(base, rules, p0b, p1b)
    }
}

/// Two freshly initialized processes on legal starting pits satisfy the
/// simultaneous sowing invariant, with a bounded termination measure.
pub proof fn lemma_sim_init(base: Seq<int>, a: int, b: int)
    requires
        base.len() == 16,
        forall|k: int| 0 <= k < 16 ==> base[k] >= 0,
        owns_pit(0, a),
        owns_pit(1, b),
        base[a] > 0,
        base[b] > 0,
    ensures
        sim_wf(base, sower_init(base, a), sower_init(base, b)),
        sim_measure(base, sower_init(base, a), sower_init(base, b)) <= 33 * sum_range(base, 0, 16)
            + 30,
        sim_measure(base, sower_init(base, a), sower_init(base, b)) >= 0,
        sower_init(base, a).steps == 0,
        sower_init(base, b).steps == 0,
        sower_init(base, a).captured == 0,
        sower_init(base, b).captured == 0,
{
    let p0 = sower_init(base, a);
    let p1 = sower_init(base, b);
    let c = comb(base, p0.delta, p1.delta);
    assert(c =~= base.update(a, 0).update(b, 0));
    lemma_sum_range_update(base, 0, 16, a, 0);
    lemma_sum_range_update(base.update(a, 0), 0, 16, b, 0);
    lemma_sow_next(a, 0);
    lemma_sow_next(b, 1);
    lemma_sum_range_elem(base, 0, 16, 14);
    lemma_sum_range_elem(base, 0, 16, 15);
    lemma_sum_range_two_elems(base, 0, 16, 14, 15);
    lemma_sum_range_nonneg(base, 0, 16);
}

/// The 64-bit xorshift mix that breaks a full tie deterministically from
/// the two chosen pit indices alone.
pub open spec fn tie_break(a: u64, b: u64) -> int {
    let x = (a << 32u64) | b;
    let x1 = x ^ (x << 13u64);
    let x2 = x1 ^ (x1 >> 7u64);
    let x3 = x2 ^ (x2 << 17u64);
    (x3 & 1u64) as int
}

/// Who moves after a simultaneous move: a sole extra turn wins; otherwise
/// the process that finished sowing in strictly fewer ticks; a full tie is
/// broken by [`tie_break`].
pub open spec fn sim_next_player(p0: Sower, p1: Sower, a: u64, b: u64) -> int {
    if p0.extra && !p1.extra {
        0
    } else if p1.extra && !p0.extra {
        1
    } else if p0.steps < p1.steps {
        0
    } else if p1.steps < p0.steps {
        1
    } else {
        tie_break(a, b)
    }
}

/// The final states of both processes after a simultaneous move on `b`.
pub open spec fn sim_end(b: BoardState, p0_pit: int, p1_pit: int, rules: RuleConfig) -> (
    Sower,
    Sower,
) {
    sim_loop(
        board_ints(b),
        rules,
        sower_init(board_ints(b), p0_pit),
        sower_init(board_ints(b), p1_pit),
    )
}

/// The legal-move precondition of the simultaneous resolver: a board whose
/// total fits the slots, and a non-empty own pit for each player.
pub open spec fn sim_move_ok(b: BoardState, p0_pit: int, p1_pit: int) -> bool {
    &&& board_total(b) <= 255
    &&& owns_pit(0, p0_pit)
    &&& owns_pit(1, p1_pit)
    &&& board_ints(b)[p0_pit] > 0
    &&& board_ints(b)[p1_pit] > 0
}

/// The signed slot deltas of one process, as unbounded integers.
pub open spec fn dints(s: Seq<i16>) -> Seq<int> {
    s.map_values(|x: i16| x as int)
}

/// One player's executable sowing process. The deltas stay far inside the
/// `i16` range: each is bounded by the tick count plus the captured seeds,
/// and below by the combined count staying non-negative.
struct SimPlayerState {
    player: u8,
    current_pos: usize,
    seeds: u8,
    delta: [i16; 16],
    done: bool,
    extra_turn: bool,
    has_looped: bool,
    steps: u32,
    captured: u8,
    my_store: usize,
    opp_store: usize,
}

impl SimPlayerState {
    /// The process as the spec model sees it.
    spec fn model(&self) -> Sower {
        Sower {
            pos: self.current_pos as int,
            seeds: self.seeds as int,
            delta: dints(self.delta@),
            done: self.done,
            extra: self.extra_turn,
            looped: self.has_looped,
            steps: self.steps as int,
            captured: self.captured as int,
        }
    }

    /// The fixed shape facts: a real player and consistent store indices.
    spec fn shape_ok(&self) -> bool {
        &&& self.player <= 1
        &&& self.my_store == store_of(self.player as int)
        &&& self.opp_store == other_store_of(self.player as int)
        &&& self.current_pos < 16
        &&& self.current_pos != self.opp_store
    }

    /// A process at the instant of pickup from `start_pit`.
    fn new(player: u8, start_pit: usize, base_pits: &[u8; 16]) -> (r: Self)
        requires
            player <= 1,
            start_pit < 14,
            owns_pit(player as int, start_pit as int),
            base_pits@[start_pit as int] > 0,
        ensures
            r.model() == sower_init(ints(base_pits@), start_pit as int),
            r.shape_ok(),
            r.player == player,
    {
        let seeds = base_pits[start_pit];
        let mut delta: [i16; 16] = [0; 16];
        delta[start_pit] = -(seeds as i16);
        let r = SimPlayerState {
            player,
            current_pos: start_pit,
            seeds,
            delta,
            done: false,
            extra_turn: false,
            has_looped: false,
            steps: 0,
            captured: 0,
            my_store: crate::ring::player_store(player),
            opp_store: crate::ring::opponent_store(player),
        };
        proof {
            assert(r.model().delta =~= sower_init(ints(base_pits@), start_pit as int).delta);
        }
        r
    }

    /// One tick: advance one sowing step and deposit one seed.
    fn step(&mut self)
        requires
            old(self).shape_ok(),
            old(self).steps < 100000,
            forall|k: int| #![trigger old(self).delta@[k]] 0 <= k < 16 ==> -30000 <= old(self).delta@[k] as int <= 30000,
        ensures
            final(self).model() == sower_step(old(self).model(), old(self).player as int),
            final(self).shape_ok(),
            final(self).player == old(self).player,
            final(self).my_store == old(self).my_store,
            final(self).opp_store == old(self).opp_store,
    {
        if self.done || self.seeds == 0 {
            return ;
        }
        proof {
            lemma_sow_next(self.current_pos as int, self.player as int);
        }
        let mut np = next_position(self.current_pos);
        if np == self.opp_store {
            np = next_position(np);
        }
        self.current_pos = np;
        assert(self.current_pos == sow_next(old(self).current_pos as int, self.player as int));
        if self.current_pos == self.my_store {
            self.has_looped = true;
        }
        let cur = self.delta[np];
        self.delta[np] = cur + 1;
        self.seeds = self.seeds - 1;
        self.steps = self.steps + 1;
        if self.seeds == 0 && self.current_pos == self.my_store {
            self.extra_turn = true;
            self.done = true;
        }
        proof {
            let q = sower_step(old(self).model(), old(self).player as int);
            assert(self.model().delta =~= q.delta);
        }
    }

    /// End-of-hand evaluation against the combined board.
    fn check_end_conditions(
        &mut self,
        base_pits: &[u8; 16],
        other_delta: &[i16; 16],
        rules: &RuleConfig,
    )
        requires
            old(self).shape_ok(),
            old(self).seeds == 0,
            !old(self).done,
            old(self).captured == 0,
            forall|k: int|
                0 <= k < 16 ==> ints(base_pits@)[k] + dints(old(self).delta@)[k] + dints(
                    other_delta@,
                )[k] >= 0,
            sum_range(comb(ints(base_pits@), dints(old(self).delta@), dints(other_delta@)), 0, 16)
                <= 255,
            forall|k: int| #![trigger old(self).delta@[k]] 0 <= k < 16 ==> -30000 <= old(self).delta@[k] as int <= 30000,
            forall|k: int| #![trigger other_delta@[k]] 0 <= k < 16 ==> -30000 <= other_delta@[k] as int <= 30000,
            ints(base_pits@)[old(self).current_pos as int] + dints(old(self).delta@)[old(
                self,
            ).current_pos as int] + dints(other_delta@)[old(self).current_pos as int] == 0 ==> (
            owns_pit(old(self).player as int, old(self).current_pos as int) && old(
                self,
            ).current_pos < 14 && ints(base_pits@)[13 - old(self).current_pos as int] + dints(
                old(self).delta@,
            )[13 - old(self).current_pos as int] + dints(other_delta@)[13 - old(
                self,
            ).current_pos as int] == 0),
        ensures
            final(self).model() == sower_check(
                old(self).model(),
                old(self).player as int,
                ints(base_pits@),
                dints(other_delta@),
                *rules,
            ),
            final(self).shape_ok(),
            final(self).player == old(self).player,
            final(self).my_store == old(self).my_store,
            final(self).opp_store == old(self).opp_store,
    {
        let ghost c = comb(ints(base_pits@), dints(old(self).delta@), dints(other_delta@));
        let ghost q = sower_check(
            old(self).model(),
            old(self).player as int,
            ints(base_pits@),
            dints(other_delta@),
            *rules,
        );
        proof {
            assert forall|k: int| 0 <= k < 16 implies c[k] <= 255 by {
                lemma_sum_range_elem(c, 0, 16, k);
            }
        }
        let pos = self.current_pos;
        if pos >= 14 {
            self.done = true;
            return ;
        }

        proof {
            assert(-30000 <= old(self).delta@[pos as int] as int <= 30000);
            assert(-30000 <= other_delta@[pos as int] as int <= 30000);
            assert(dints(old(self).delta@)[pos as int] == old(self).delta@[pos as int] as int);
            assert(dints(other_delta@)[pos as int] == other_delta@[pos as int] as int);
            assert(0 <= c[pos as int] <= 255);
        }
        let actual: i16 = base_pits[pos] as i16 + self.delta[pos] + other_delta[pos];
        assert(actual as int == c[pos as int]);

        if actual > 1 {
            // relay: pick the whole combined content of the slot back up
            self.seeds = actual as u8;
            self.delta[pos] = -(base_pits[pos] as i16) - other_delta[pos];
            proof {
                assert(self.model().delta =~= q.delta);
            }
            return ;
        }

        let is_mine = is_player_pit(pos, self.player);
        let can_capture = rules.capture_enabled && (!rules.capture_requires_loop
            || self.has_looped);
        if is_mine && can_capture {
            let opp_pit = opposite_pit(pos);
            proof {
                assert(-30000 <= old(self).delta@[opp_pit as int] as int <= 30000);
                assert(-30000 <= other_delta@[opp_pit as int] as int <= 30000);
                assert(dints(old(self).delta@)[opp_pit as int] == old(self).delta@[
                    opp_pit as int
                ] as int);
                assert(dints(other_delta@)[opp_pit as int] == other_delta@[opp_pit as int] as int);
                assert(0 <= c[opp_pit as int] <= 255);
            }
            let opp_actual: i16 = base_pits[opp_pit] as i16 + self.delta[opp_pit]
                + other_delta[opp_pit];
            assert(opp_actual as int == c[opp_pit as int]);
            if opp_actual > 0 {
                // capture: this seed plus the opposite pit go to the store
                proof {
                    lemma_sum_range_two_elems(c, 0, 16, pos as int, 13 - pos as int);
                    lemma_sum_range_nonneg(c, 0, 16);
                }
                assert(actual == 1);
                let cap = (opp_actual + 1) as u8;
                self.captured = self.captured + cap;
                let ms = self.my_store;
                let curs = self.delta[ms];
                self.delta[ms] = curs + cap as i16;
                self.delta[pos] = -(base_pits[pos] as i16) - other_delta[pos];
                self.delta[opp_pit] = -(base_pits[opp_pit] as i16) - other_delta[opp_pit];
                self.done = true;
                proof {
                    assert(self.model().delta =~= q.delta);
                }
                return ;
            }
        } else if !is_mine && rules.forfeit_enabled {
            // forfeit: the landed seed goes to the opponent's store
            assert(actual == 1);
            let os = self.opp_store;
            let curs = self.delta[os];
            self.delta[os] = curs + 1;
            self.delta[pos] = -(base_pits[pos] as i16) - other_delta[pos];
            self.done = true;
            proof {
                assert(self.model().delta =~= q.delta);
            }
            return ;
        }

        self.done = true;
    }
}

/// Result of applying both players' moves simultaneously.
#[derive(Clone, Copy, Debug)]
pub struct SimultaneousMoveResult {
    /// The reconciled position, with the player to move next.
    pub state: BoardState,
    /// Player 0's last seed landed in their own store.
    pub p0_extra_turn: bool,
    /// Player 1's last seed landed in their own store.
    pub p1_extra_turn: bool,
    /// Seeds player 0 captured.
    pub p0_captured: u8,
    /// Seeds player 1 captured.
    pub p1_captured: u8,
}

/// Apply both players' moves at the same instant: run the two sowing
/// processes in lock-step so every relay, capture and forfeit sees the
/// other's in-flight deposits, then reconcile `base + delta0 + delta1` into
/// one board. Returns exactly the outcome of [`sim_end`], conserving the
/// grand total of seeds, with every slot non-negative.
#[verifier::rlimit(100)]
pub fn apply_simultaneous_moves(
    state: &BoardState,
    p0_pit: usize,
    p1_pit: usize,
    rules: &RuleConfig,
) -> (r: SimultaneousMoveResult)
    requires
        sim_move_ok(*state, p0_pit as int, p1_pit as int),
    ensures
        ({
            let (f0, f1) = sim_end(*state, p0_pit as int, p1_pit as int, *rules);
            &&& board_ints(r.state) == comb(board_ints(*state), f0.delta, f1.delta)
            &&& r.p0_extra_turn == f0.extra
            &&& r.p1_extra_turn == f1.extra
            &&& r.p0_captured == f0.captured
            &&& r.p1_captured == f1.captured
            &&& r.state.current_player as int == sim_next_player(
                f0,
                f1,
                p0_pit as u64,
                p1_pit as u64,
            )
            &&& r.state.current_player <= 1
            &&& board_total(r.state) == board_total(*state)
        }),
{
    let base_pits = state.pits;
    let ghost base = ints(base_pits@);
    let ghost t0 = sum_range(base, 0, 16);

    let mut p0_state = SimPlayerState::new(0, p0_pit, &base_pits);
    let mut p1_state = SimPlayerState::new(1, p1_pit, &base_pits);

    let ghost target = sim_loop(base, *rules, p0_state.model(), p1_state.model());
    let ghost m0 = sim_measure(base, p0_state.model(), p1_state.model());
    proof {
        lemma_sim_init(base, p0_pit as int, p1_pit as int);
    }

    while !(p0_state.done && p1_state.done)
        invariant
            p0_state.shape_ok(),
            p1_state.shape_ok(),
            p0_state.player == 0,
            p1_state.player == 1,
            base == ints(base_pits@),
            sum_range(base, 0, 16) == t0,
            t0 <= 255,
            sim_wf(base, p0_state.model(), p1_state.model()),
            sim_loop(base, *rules, p0_state.model(), p1_state.model()) == target,
            p0_state.model().steps + p1_state.model().steps + sim_measure(
                base,
                p0_state.model(),
                p1_state.model(),
            ) <= m0,
            sim_measure(base, p0_state.model(), p1_state.model()) >= 0,
            m0 <= 33 * 255 + 30,
            p0_state.model().captured <= 255,
            p1_state.model().captured <= 255,
        decreases sim_measure(base, p0_state.model(), p1_state.model()),
    {
        let ghost q0 = p0_state.model();
        let ghost q1 = p1_state.model();
        let ghost p0a = sower_step(q0, 0);
        let ghost p1a = sower_step(q1, 1);
        let ghost p0b = if p0a.seeds == 0 && !p0a.done {
            sower_check(p0a, 0, base, p1a.delta, *rules)
        } else {
            p0a
        };
        let ghost p1b = if p1a.seeds == 0 && !p1a.done {
            sower_check(p1a, 1, base, p0b.delta, *rules)
        } else {
            p1a
        };
        proof {
            lemma_sim_round(base, *rules, q0, q1);
            // every delta stays small: bounded by ticks plus captures
            assert forall|k: int| #![trigger p0_state.delta@[k]] 0 <= k < 16 implies -30000
                <= p0_state.delta@[k] as int <= 30000 by {
                assert(q0.delta[k] <= q0.steps + q0.captured + 2);
                assert(base[k] + q0.delta[k] + q1.delta[k] >= 0);
                assert(q1.delta[k] <= q1.steps + q1.captured + 2);
                assert(base[k] <= 255) by {
                    lemma_sum_range_elem(base, 0, 16, k);
                }
            }
            assert forall|k: int| #![trigger p1_state.delta@[k]] 0 <= k < 16 implies -30000
                <= p1_state.delta@[k] as int <= 30000 by {
                assert(q1.delta[k] <= q1.steps + q1.captured + 2);
                assert(base[k] + q0.delta[k] + q1.delta[k] >= 0);
                assert(q0.delta[k] <= q0.steps + q0.captured + 2);
                assert(base[k] <= 255) by {
                    lemma_sum_range_elem(base, 0, 16, k);
                }
            }
        }
        p0_state.step();
        p1_state.step();
        proof {
            assert(p0_state.model() == p0a);
            assert(p1_state.model() == p1a);
        }
        if p0_state.seeds == 0 && !p0_state.done {
            proof {
                assert forall|k: int| #![trigger p0_state.delta@[k]] 0 <= k < 16 implies -30000
                    <= p0_state.delta@[k] as int <= 30000 by {
                    assert(p0a.delta[k] <= p0a.steps + p0a.captured + 2);
                    assert(comb(base, p0a.delta, p1a.delta)[k] >= 0);
                    assert(p1a.delta[k] <= p1a.steps + p1a.captured + 2);
                    assert(base[k] <= 255) by {
                        lemma_sum_range_elem(base, 0, 16, k);
                    }
                }
                assert forall|k: int| #![trigger p1_state.delta@[k]] 0 <= k < 16 implies -30000
                    <= p1_state.delta@[k] as int <= 30000 by {
                    assert(p1a.delta[k] <= p1a.steps + p1a.captured + 2);
                    assert(comb(base, p0a.delta, p1a.delta)[k] >= 0);
                    assert(p0a.delta[k] <= p0a.steps + p0a.captured + 2);
                    assert(base[k] <= 255) by {
                        lemma_sum_range_elem(base, 0, 16, k);
                    }
                }
                assert forall|k: int| 0 <= k < 16 implies ints(base_pits@)[k] + dints(
                    p0_state.delta@,
                )[k] + dints(p1_state.delta@)[k] >= 0 by {
                    assert(comb(base, p0a.delta, p1a.delta)[k] >= 0);
                }
                lemma_comb_symm(base, p0a.delta, p1a.delta);
                assert(comb(base, p0a.delta, p1a.delta)[p0a.pos] >= 1);
            }
            p0_state.check_end_conditions(&base_pits, &p1_state.delta, rules);
            proof {
                assert(p0_state.model() == p0b);
            }
        }
        if p1_state.seeds == 0 && !p1_state.done {
            proof {
                assert(p1_state.model() == p1a);
                assert(p0_state.model() == p0b);
                assert forall|k: int| #![trigger p1_state.delta@[k]] 0 <= k < 16 implies -30000
                    <= p1_state.delta@[k] as int <= 30000 by {
                    assert(p1a.delta[k] <= p1a.steps + p1a.captured + 2);
                    assert(comb(base, p0b.delta, p1a.delta)[k] >= 0);
                    assert(p0b.delta[k] <= p0b.steps + p0b.captured + 2);
                    assert(p0b.captured <= q0.captured + t0);
                    assert(base[k] <= 255) by {
                        lemma_sum_range_elem(base, 0, 16, k);
                    }
                }
                assert forall|k: int| #![trigger p0_state.delta@[k]] 0 <= k < 16 implies -30000
                    <= p0_state.delta@[k] as int <= 30000 by {
                    assert(p0b.delta[k] <= p0b.steps + p0b.captured + 2);
                    assert(p0b.captured <= q0.captured + t0);
                    assert(comb(base, p0b.delta, p1a.delta)[k] >= 0);
                    assert(p1a.delta[k] <= p1a.steps + p1a.captured + 2);
                    assert(base[k] <= 255) by {
                        lemma_sum_range_elem(base, 0, 16, k);
                    }
                }
                assert forall|k: int| 0 <= k < 16 implies ints(base_pits@)[k] + dints(
                    p1_state.delta@,
                )[k] + dints(p0_state.delta@)[k] >= 0 by {
                    assert(comb(base, p0b.delta, p1a.delta)[k] >= 0);
                }
                lemma_comb_symm(base, p1a.delta, p0b.delta);
            }
            p1_state.check_end_conditions(&base_pits, &p0_state.delta, rules);
            proof {
                assert(p1_state.model() == p1b);
            }
        }
        proof {
            assert(p0_state.model() == p0b);
            assert(p1_state.model() == p1b);
        }
    }

    let ghost f0 = p0_state.model();
    let ghost f1 = p1_state.model();
    let ghost cfin = comb(base, f0.delta, f1.delta);
    proof {
        assert(sim_loop(base, *rules, f0, f1) == (f0, f1));
        assert((f0, f1) == target);
        assert(f0.seeds == 0 && f1.seeds == 0);
        assert(sum_range(cfin, 0, 16) == t0);
        assert forall|k: int| 0 <= k < 16 implies 0 <= #[trigger] cfin[k] <= 255 by {
            lemma_sum_range_elem(cfin, 0, 16, k);
        }
        assert forall|k: int| #![trigger p0_state.delta@[k]] 0 <= k < 16 implies -30000
            <= p0_state.delta@[k] as int <= 30000 by {
            assert(f0.delta[k] <= f0.steps + f0.captured + 2);
            assert(f1.delta[k] <= f1.steps + f1.captured + 2);
            assert(base[k] + f0.delta[k] + f1.delta[k] >= 0);
            assert(base[k] <= 255) by {
                lemma_sum_range_elem(base, 0, 16, k);
            }
        }
        assert forall|k: int| #![trigger p1_state.delta@[k]] 0 <= k < 16 implies -30000
            <= p1_state.delta@[k] as int <= 30000 by {
            assert(f0.delta[k] <= f0.steps + f0.captured + 2);
            assert(f1.delta[k] <= f1.steps + f1.captured + 2);
            assert(base[k] + f0.delta[k] + f1.delta[k] >= 0);
            assert(base[k] <= 255) by {
                lemma_sum_range_elem(base, 0, 16, k);
            }
        }
    }

    // reconcile: the final board is the base plus both deltas, slot by slot
    let mut final_pits: [u8; 16] = [0; 16];
    let mut i: usize = 0;
    while i < 16
        invariant
            i <= 16,
            base == ints(base_pits@),
            f0 == p0_state.model(),
            f1 == p1_state.model(),
            cfin == comb(base, f0.delta, f1.delta),
            forall|k: int| #![trigger p0_state.delta@[k]] 0 <= k < 16 ==> -30000 <= p0_state.delta@[k] as int <= 30000,
            forall|k: int| #![trigger p1_state.delta@[k]] 0 <= k < 16 ==> -30000 <= p1_state.delta@[k] as int <= 30000,
            forall|k: int| 0 <= k < 16 ==> 0 <= #[trigger] cfin[k] <= 255,
            forall|k: int| 0 <= k < i ==> ints(final_pits@)[k] == cfin[k],
        decreases 16 - i,
    {
        proof {
            assert(dints(p0_state.delta@)[i as int] == p0_state.delta@[i as int] as int);
            assert(dints(p1_state.delta@)[i as int] == p1_state.delta@[i as int] as int);
            assert(cfin[i as int] == base[i as int] + dints(p0_state.delta@)[i as int] + dints(
                p1_state.delta@,
            )[i as int]);
        }
        let combined: i16 = base_pits[i] as i16 + p0_state.delta[i] + p1_state.delta[i];
        final_pits[i] = combined as u8;
        i = i + 1;
    }
    proof {
        assert(ints(final_pits@) =~= cfin);
    }

    let next_player: u8 = if p0_state.extra_turn && !p1_state.extra_turn {
        0
    } else if p1_state.extra_turn && !p0_state.extra_turn {
        1
    } else if p0_state.steps < p1_state.steps {
        0
    } else if p1_state.steps < p0_state.steps {
        1
    } else {
        let mut tie_state: u64 = ((p0_pit as u64) << 32u64) | (p1_pit as u64);
        tie_state = tie_state ^ (tie_state << 13u64);
        tie_state = tie_state ^ (tie_state >> 7u64);
        tie_state = tie_state ^ (tie_state << 17u64);
        proof {
            assert((tie_state & 1u64) == 0u64 || (tie_state & 1u64) == 1u64) by (bit_vector);
        }
        (tie_state & 1) as u8
    };

    SimultaneousMoveResult {
        state: BoardState { pits: final_pits, current_player: next_player },
        p0_extra_turn: p0_state.extra_turn,
        p1_extra_turn: p1_state.extra_turn,
        p0_captured: p0_state.captured,
        p1_captured: p1_state.captured,
    }
}

} // verus!
