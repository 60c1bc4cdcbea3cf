//! The pipe scheduler: per-pipe speed recomputation, fractional-tick
//! accurate drop accumulation, shape emission, and pipe unlock gating.

use vstd::prelude::*;

use vstd::arithmetic::div_mod::lemma_fundamental_div_mod;
use vstd::arithmetic::div_mod::lemma_mod_division_less_than_divisor;

use crate::color::ShapeColor;
use crate::color::spec_color_order;
use crate::random::rand_range_i64;
use crate::state::GameState;
use crate::state::GamePipe;
use crate::state::Shape;
use crate::state::wf_shape;
use crate::state::wf_pipe;
use crate::state::wf_state;
use crate::state::pipe_unlock_owned;
use crate::state::lemma_wf_state_frame;
use crate::state::DT_MAX_MS;
use crate::state::MICRO;
use crate::state::LAUNCH_VEL_Y;
use crate::upgrades::Upgrade;
use crate::upgrades::valid_upgrade;
use crate::upgrades::contains_upgrade;

verus! {

/// Milliseconds between two drops of a pipe at a given speed level:
/// `floor(1000 / per_sec)` with
/// `per_sec = log2(speed) / log2(1.2) * 0.05 * speed + 0.2`.
/// At speed 1 the logarithm vanishes, `per_sec` is exactly 0.2 and the
/// delay exactly 5000 ms; the remaining levels are the rounded-down
/// values of the same curve, tabulated so that the scheduler is exact
/// integer arithmetic.
pub open spec fn spec_drop_delay(speed: int) -> int {
    if speed <= 1 { 5000 }
    else if speed == 2 { 1723 }
    else if speed == 3 { 905 }
    else if speed == 4 { 581 }
    else if speed == 5 { 415 }
    else if speed == 6 { 317 }
    else if speed == 7 { 254 }
    else if speed == 8 { 209 }
    else if speed == 9 { 177 }
    else if speed == 10 { 153 }
    else if speed == 11 { 134 }
    else if speed == 12 { 119 }
    else if speed == 13 { 107 }
    else if speed == 14 { 96 }
    else if speed == 15 { 88 }
    else if speed == 16 { 80 }
    else if speed == 17 { 74 }
    else if speed == 18 { 69 }
    else if speed == 19 { 64 }
    else if speed == 20 { 60 }
    else if speed == 21 { 56 }
    else if speed == 22 { 53 }
    else if speed == 23 { 50 }
    else if speed == 24 { 47 }
    else if speed == 25 { 44 }
    else if speed == 26 { 42 }
    else if speed == 27 { 40 }
    else if speed == 28 { 38 }
    else if speed == 29 { 37 }
    else if speed == 30 { 35 }
    else if speed == 31 { 34 }
    else if speed == 32 { 32 }
    else if speed == 33 { 31 }
    else if speed == 34 { 30 }
    else if speed == 35 { 29 }
    else if speed == 36 { 28 }
    else if speed == 37 { 27 }
    else if speed == 38 { 26 }
    else if speed == 39 { 25 }
    else { 24 }
}

pub fn drop_delay(pipe: &GamePipe) -> (r: u64)
    requires
        1 <= pipe.speed <= 40,
    ensures
        r == spec_drop_delay(pipe.speed as int),
        24 <= r <= 5000,
{
    match pipe.speed {
        1 => 5000,
        2 => 1723,
        3 => 905,
        4 => 581,
        5 => 415,
        6 => 317,
        7 => 254,
        8 => 209,
        9 => 177,
        10 => 153,
        11 => 134,
        12 => 119,
        13 => 107,
        14 => 96,
        15 => 88,
        16 => 80,
        17 => 74,
        18 => 69,
        19 => 64,
        20 => 60,
        21 => 56,
        22 => 53,
        23 => 50,
        24 => 47,
        25 => 44,
        26 => 42,
        27 => 40,
        28 => 38,
        29 => 37,
        30 => 35,
        31 => 34,
        32 => 32,
        33 => 31,
        34 => 30,
        35 => 29,
        36 => 28,
        37 => 27,
        38 => 26,
        39 => 25,
        _ => 24,
    }
}

/// The speed level an owned upgrade contributes to a pipe slot (0-based),
/// or 0 where it is not a speed upgrade of that slot.
pub open spec fn spec_slot_speed(u: Upgrade, slot: int) -> int {
    match u {
        Upgrade::Pipe1Speed(l) => if slot == 0 { l as int } else { 0 },
        Upgrade::Pipe2Speed(l) => if slot == 1 { l as int } else { 0 },
        Upgrade::Pipe3Speed(l) => if slot == 2 { l as int } else { 0 },
        Upgrade::Pipe4Speed(l) => if slot == 3 { l as int } else { 0 },
        _ => 0,
    }
}

/// The speed of a pipe slot: the largest owned speed level for that slot,
/// defaulting to 1 where none is owned.
pub open spec fn spec_max_speed(owned: Seq<Upgrade>, slot: int) -> int
    decreases owned.len(),
{
    if owned.len() == 0 {
        1
    } else {
        let rest = spec_max_speed(owned.drop_last(), slot);
        let l = spec_slot_speed(owned.last(), slot);
        if l > rest {
            l
        } else {
            rest
        }
    }
}

fn slot_speed(u: &Upgrade, slot: usize) -> (r: u64)
    ensures
        r == spec_slot_speed(*u, slot as int),
{
    match u {
        Upgrade::Pipe1Speed(l) => if slot == 0 { *l } else { 0 },
        Upgrade::Pipe2Speed(l) => if slot == 1 { *l } else { 0 },
        Upgrade::Pipe3Speed(l) => if slot == 2 { *l } else { 0 },
        Upgrade::Pipe4Speed(l) => if slot == 3 { *l } else { 0 },
        _ => 0,
    }
}

fn max_speed(owned: &Vec<Upgrade>, slot: usize) -> (r: u64)
    requires
        forall|i: int| 0 <= i < owned@.len() ==> valid_upgrade(#[trigger] owned@[i]),
    ensures
        r == spec_max_speed(owned@, slot as int),
        1 <= r <= 40,
{
    let mut best: u64 = 1;
    let mut i: usize = 0;
    while i < owned.len()
        invariant
            i <= owned.len(),
            forall|j: int| 0 <= j < owned@.len() ==> valid_upgrade(#[trigger] owned@[j]),
            best == spec_max_speed(owned@.subrange(0, i as int), slot as int),
            1 <= best <= 40,
        decreases owned.len() - i,
    {
        let l = slot_speed(&owned[i], slot);
        proof {
            let pre = owned@.subrange(0, i as int);
            let cur = owned@.subrange(0, i as int + 1);
            assert(cur.drop_last() =~= pre);
            assert(cur.last() == owned@[i as int]);
            assert(valid_upgrade(owned@[i as int]));
        }
        if l > best {
            best = l;
        }
        i += 1;
    }
    proof {
        assert(owned@.subrange(0, owned@.len() as int) =~= owned@);
    }
    best
}

/// Recomputes every pipe's speed from the owned upgrades; idempotent, and
/// run in full every tick so a bought speed level takes effect at once.
pub fn pipe_speed_tick(state: &mut GameState)
    requires
        wf_state(*old(state)),
    ensures
        wf_state(*final(state)),
        final(state).pipes@.len() == old(state).pipes@.len(),
        forall|i: int|
            0 <= i < old(state).pipes@.len() ==> #[trigger] final(state).pipes@[i] == (GamePipe {
                speed: spec_max_speed(old(state).upgrades@, i) as u64,
                ..old(state).pipes@[i]
            }),
        final(state).shapes@ == old(state).shapes@,
        final(state).score == old(state).score,
        final(state).last_tick == old(state).last_tick,
        final(state).upgrades@ == old(state).upgrades@,
        final(state).available_upgrades@ == old(state).available_upgrades@,
        final(state).mouse_click_x == old(state).mouse_click_x,
        final(state).mouse_click_y == old(state).mouse_click_y,
{
    let n = state.pipes.len();
    let mut i: usize = 0;
    while i < n
        invariant
            wf_state(*old(state)),
            n == old(state).pipes@.len(),
            i <= n,
            state.pipes@.len() == n,
            forall|j: int|
                0 <= j < i ==> #[trigger] state.pipes@[j] == (GamePipe {
                    speed: spec_max_speed(old(state).upgrades@, j) as u64,
                    ..old(state).pipes@[j]
                }),
            forall|j: int| 0 <= j < i ==> 1 <= #[trigger] state.pipes@[j].speed <= 40,
            forall|j: int| i <= j < n ==> #[trigger] state.pipes@[j] == old(state).pipes@[j],
            state.shapes@ == old(state).shapes@,
            state.score == old(state).score,
            state.last_tick == old(state).last_tick,
            state.upgrades@ == old(state).upgrades@,
            state.available_upgrades@ == old(state).available_upgrades@,
            state.mouse_click_x == old(state).mouse_click_x,
            state.mouse_click_y == old(state).mouse_click_y,
        decreases n - i,
    {
        let ms = max_speed(&state.upgrades, i);
        state.pipes[i].speed = ms;
        i += 1;
    }
    proof {
        assert forall|j: int| 0 <= j < state.pipes@.len() implies wf_pipe(
            #[trigger] state.pipes@[j],
            j,
        ) by {
            assert(wf_pipe(old(state).pipes@[j], j));
            assert(1 <= state.pipes@[j].speed <= 40);
        }
        assert forall|j: int| 0 <= j < state.pipes@.len() implies pipe_unlock_owned(
            *state,
            j,
        ) by {
            assert(pipe_unlock_owned(*old(state), j));
        }
        assert forall|j: int| 0 <= j < state.shapes@.len() implies wf_shape(
            #[trigger] state.shapes@[j],
        ) by {
            assert(wf_shape(old(state).shapes@[j]));
        }
        assert forall|j: int| 0 <= j < state.upgrades@.len() implies valid_upgrade(
            #[trigger] state.upgrades@[j],
        ) by {
            assert(valid_upgrade(old(state).upgrades@[j]));
        }
    }
}

/// The color an owned upgrade unlocks on a pipe slot, if any.
pub open spec fn spec_slot_color(u: Upgrade, slot: int) -> Option<ShapeColor> {
    match u {
        Upgrade::Pipe1Color(c) => if slot == 0 { Some(c) } else { None },
        Upgrade::Pipe2Color(c) => if slot == 1 { Some(c) } else { None },
        Upgrade::Pipe3Color(c) => if slot == 2 { Some(c) } else { None },
        Upgrade::Pipe4Color(c) => if slot == 3 { Some(c) } else { None },
        _ => None,
    }
}

/// The color-unlock upgrade value of a slot and color.
pub open spec fn spec_color_upgrade(slot: int, c: ShapeColor) -> Upgrade {
    if slot == 0 {
        Upgrade::Pipe1Color(c)
    } else if slot == 1 {
        Upgrade::Pipe2Color(c)
    } else if slot == 2 {
        Upgrade::Pipe3Color(c)
    } else {
        Upgrade::Pipe4Color(c)
    }
}

/// The additional colors a pipe slot has unlocked, in the order the
/// upgrades were granted.
pub open spec fn spec_color_unlocks(owned: Seq<Upgrade>, slot: int) -> Seq<ShapeColor>
    decreases owned.len(),
{
    if owned.len() == 0 {
        Seq::empty()
    } else {
        let pre = spec_color_unlocks(owned.drop_last(), slot);
        match spec_slot_color(owned.last(), slot) {
            Some(c) => pre.push(c),
            None => pre,
        }
    }
}

/// All colors a pipe slot drops: gray is always unlocked, then the
/// granted color unlocks in order.
pub open spec fn spec_unlocked_colors(owned: Seq<Upgrade>, slot: int) -> Seq<ShapeColor> {
    seq![ShapeColor::Gray].add(spec_color_unlocks(owned, slot))
}

/// A duplicate-free owned set with valid values unlocks each of the five
/// purchasable colors at most once, so a pipe drops at most six colors.
pub proof fn lemma_color_unlocks_bound(owned: Seq<Upgrade>, slot: int)
    requires
        0 <= slot < 4,
        forall|i: int, j: int| 0 <= i < j < owned.len() ==> owned[i] != owned[j],
        forall|i: int| 0 <= i < owned.len() ==> valid_upgrade(#[trigger] owned[i]),
    ensures
        spec_color_unlocks(owned, slot).no_duplicates(),
        forall|k: int|
            0 <= k < spec_color_unlocks(owned, slot).len() ==> spec_color_order().contains(
                #[trigger] spec_color_unlocks(owned, slot)[k],
            ) && owned.contains(spec_color_upgrade(slot, spec_color_unlocks(owned, slot)[k])),
        spec_color_unlocks(owned, slot).len() <= 5,
    decreases owned.len(),
{
    let cs = spec_color_unlocks(owned, slot);
    if owned.len() == 0 {
    } else {
        let pre = owned.drop_last();
        assert forall|i: int| 0 <= i < pre.len() implies valid_upgrade(#[trigger] pre[i]) by {
            assert(pre[i] == owned[i]);
            assert(valid_upgrade(owned[i]));
        }
        lemma_color_unlocks_bound(pre, slot);
        let pcs = spec_color_unlocks(pre, slot);
        let u = owned.last();
        assert(u == owned[owned.len() - 1]);
        assert(valid_upgrade(u));
        match spec_slot_color(u, slot) {
            Some(c) => {
                assert(cs == pcs.push(c));
                assert(spec_color_upgrade(slot, c) == u);
                // The new color cannot be one already unlocked: its
                // upgrade value would occur twice in a duplicate-free set.
                assert forall|k: int| 0 <= k < pcs.len() implies pcs[k] != c by {
                    if pcs[k] == c {
                        assert(pre.contains(spec_color_upgrade(slot, pcs[k])));
                        let w = choose|w: int| 0 <= w < pre.len() && pre[w] == spec_color_upgrade(slot, c);
                        assert(owned[w] == u);
                        assert(w < owned.len() - 1);
                    }
                }
                assert(!pcs.contains(c));
                assert(cs.drop_last() =~= pcs);
                assert(cs.no_duplicates());
                assert forall|k: int|
                    0 <= k < cs.len() implies spec_color_order().contains(#[trigger] cs[k])
                    && owned.contains(spec_color_upgrade(slot, cs[k])) by {
                    if k < pcs.len() {
                        assert(cs[k] == pcs[k]);
                        assert(pre.contains(spec_color_upgrade(slot, pcs[k])));
                        let w = choose|w: int|
                            0 <= w < pre.len() && pre[w] == spec_color_upgrade(slot, pcs[k]);
                        assert(owned[w] == spec_color_upgrade(slot, pcs[k]));
                    } else {
                        assert(cs[k] == c);
                        assert(spec_color_order().contains(c)) by {
                            assert(valid_upgrade(u));
                        }
                        assert(owned[owned.len() - 1] == spec_color_upgrade(slot, c));
                    }
                }
                // A duplicate-free sequence drawn from the five-color
                // order cannot be longer than it.
                assert(cs.len() <= 5) by {
                    cs.unique_seq_to_set();
                    assert(cs.to_set().subset_of(spec_color_order().to_set())) by {
                        assert forall|x: ShapeColor| cs.to_set().contains(x) implies
                            spec_color_order().to_set().contains(x) by {
                            assert(cs.contains(x));
                            let k = choose|k: int| 0 <= k < cs.len() && cs[k] == x;
                            assert(spec_color_order().contains(cs[k]));
                        }
                    }
                    vstd::set_lib::lemma_len_subset(cs.to_set(), spec_color_order().to_set());
                    spec_color_order().lemma_cardinality_of_set();
                }
            },
            None => {
                assert(cs == pcs);
            },
        }
    }
}

/// The colors a pipe currently drops.
pub fn unlocked_colors(owned: &Vec<Upgrade>, slot: usize) -> (r: Vec<ShapeColor>)
    ensures
        r@ == spec_unlocked_colors(owned@, slot as int),
        r@.len() >= 1,
{
    let mut result: Vec<ShapeColor> = vec![ShapeColor::Gray];
    let mut i: usize = 0;
    proof {
        assert(result@ =~= seq![ShapeColor::Gray].add(
            spec_color_unlocks(owned@.subrange(0, 0), slot as int),
        ));
    }
    while i < owned.len()
        invariant
            i <= owned.len(),
            result@ == seq![ShapeColor::Gray].add(
                spec_color_unlocks(owned@.subrange(0, i as int), slot as int),
            ),
        decreases owned.len() - i,
    {
        let u = owned[i];
        proof {
            let pre = owned@.subrange(0, i as int);
            let cur = owned@.subrange(0, i as int + 1);
            assert(cur.drop_last() =~= pre);
            assert(cur.last() == owned@[i as int]);
        }
        if slot == 0 {
            if let Upgrade::Pipe1Color(c) = u {
                result.push(c);
            }
        } else if slot == 1 {
            if let Upgrade::Pipe2Color(c) = u {
                result.push(c);
            }
        } else if slot == 2 {
            if let Upgrade::Pipe3Color(c) = u {
                result.push(c);
            }
        } else if slot == 3 {
            if let Upgrade::Pipe4Color(c) = u {
                result.push(c);
            }
        }
        i += 1;
    }
    proof {
        assert(owned@.subrange(0, owned@.len() as int) =~= owned@);
    }
    result
}


/// What holds of a freshly spawned shape of pipe `p` at slot `slot` with
/// color `c`, where `nc` colors are unlocked: the deterministic fields
/// exactly, and the randomized ones (jitter, launch factor, rotation)
/// within their ranges.
pub open spec fn spawned_ok(s: Shape, p: GamePipe, slot: int, c: ShapeColor, nc: int) -> bool {
    &&& s.sides == p.sides
    &&& s.color == c
    &&& s.laser_cuts == 0
    &&& s.vel_y == LAUNCH_VEL_Y
    &&& s.rot_vel == 100
    &&& s.y == (210 + 10 * slot) * MICRO
    &&& (63 + 120 * slot) * MICRO - 10 * MICRO <= s.x <= (63 + 120 * slot) * MICRO + 10 * MICRO
    &&& -1500 * p.speed * nc <= s.vel_x <= 1500 * p.speed * nc
    &&& 0 <= s.rot <= 1_130_973_355
}

/// A spawned shape of a well-formed pipe is well formed.
proof fn lemma_spawned_wf(s: Shape, p: GamePipe, slot: int, c: ShapeColor, nc: int)
    requires
        spawned_ok(s, p, slot, c, nc),
        wf_pipe(p, slot),
        0 <= slot < 4,
        1 <= nc <= 6,
    ensures
        wf_shape(s),
{
    assert(-1500 * p.speed * nc >= -360_000 && 1500 * p.speed * nc <= 360_000)
        by (nonlinear_arith)
        requires
            1 <= p.speed <= 40,
            1 <= nc <= 6,
    ;
}

/// Spawns `drop_ct` drops from pipe `i`: one shape per unlocked color
/// per drop, cycling through the colors in unlock order.
pub fn drop_shapes(state: &mut GameState, i: usize, drop_ct: u64)
    requires
        wf_state(*old(state)),
        i < old(state).pipes@.len(),
        1 <= drop_ct,
    ensures
        wf_state(*final(state)),
        final(state).pipes@ == old(state).pipes@,
        final(state).score == old(state).score,
        final(state).last_tick == old(state).last_tick,
        final(state).upgrades@ == old(state).upgrades@,
        final(state).available_upgrades@ == old(state).available_upgrades@,
        final(state).mouse_click_x == old(state).mouse_click_x,
        final(state).mouse_click_y == old(state).mouse_click_y,
        final(state).shapes@.len() == old(state).shapes@.len() + drop_ct * spec_unlocked_colors(
            old(state).upgrades@,
            i as int,
        ).len(),
        final(state).shapes@.subrange(0, old(state).shapes@.len() as int) == old(state).shapes@,
        forall|d: int, k: int|
            0 <= d < drop_ct && 0 <= k < spec_unlocked_colors(old(state).upgrades@, i as int).len()
                ==> #[trigger] spawned_ok(
                final(state).shapes@[old(state).shapes@.len() + d * spec_unlocked_colors(
                    old(state).upgrades@,
                    i as int,
                ).len() + k],
                old(state).pipes@[i as int],
                i as int,
                spec_unlocked_colors(old(state).upgrades@, i as int)[k],
                spec_unlocked_colors(old(state).upgrades@, i as int).len() as int,
            ),
{
    let colors = unlocked_colors(&state.upgrades, i);
    let nc = colors.len();
    proof {
        lemma_color_unlocks_bound(state.upgrades@, i as int);
        assert(1 <= nc <= 6);
    }
    let pipe = state.pipes[i];
    assert(wf_pipe(pipe, i as int));
    let ghost base = state.shapes@.len() as int;
    let ghost ncg = nc as int;
    let mut d: u64 = 0;
    while d < drop_ct
        invariant
            wf_state(*old(state)),
            i < old(state).pipes@.len(),
            colors@ == spec_unlocked_colors(old(state).upgrades@, i as int),
            nc == colors@.len(),
            1 <= nc <= 6,
            ncg == nc as int,
            pipe == old(state).pipes@[i as int],
            base == old(state).shapes@.len() as int,
            d <= drop_ct,
            state.pipes@ == old(state).pipes@,
            state.score == old(state).score,
            state.last_tick == old(state).last_tick,
            state.upgrades@ == old(state).upgrades@,
            state.available_upgrades@ == old(state).available_upgrades@,
            state.mouse_click_x == old(state).mouse_click_x,
            state.mouse_click_y == old(state).mouse_click_y,
            state.shapes@.len() == base + d * ncg,
            state.shapes@.subrange(0, base) == old(state).shapes@,
            forall|j: int| 0 <= j < state.shapes@.len() ==> wf_shape(#[trigger] state.shapes@[j]),
            forall|d2: int, k2: int|
                0 <= d2 < d && 0 <= k2 < ncg ==> #[trigger] spawned_ok(
                    state.shapes@[base + d2 * ncg + k2],
                    pipe,
                    i as int,
                    colors@[k2],
                    ncg,
                ),
        decreases drop_ct - d,
    {
        let mut k: usize = 0;
        while k < nc
            invariant
                wf_state(*old(state)),
                i < old(state).pipes@.len(),
                colors@ == spec_unlocked_colors(old(state).upgrades@, i as int),
                nc == colors@.len(),
                1 <= nc <= 6,
                ncg == nc as int,
                pipe == old(state).pipes@[i as int],
                base == old(state).shapes@.len() as int,
                d < drop_ct,
                k <= nc,
                state.pipes@ == old(state).pipes@,
                state.score == old(state).score,
                state.last_tick == old(state).last_tick,
                state.upgrades@ == old(state).upgrades@,
                state.available_upgrades@ == old(state).available_upgrades@,
                state.mouse_click_x == old(state).mouse_click_x,
                state.mouse_click_y == old(state).mouse_click_y,
                state.shapes@.len() == base + d * ncg + k,
                state.shapes@.subrange(0, base) == old(state).shapes@,
                forall|j: int|
                    0 <= j < state.shapes@.len() ==> wf_shape(#[trigger] state.shapes@[j]),
                forall|d2: int, k2: int|
                    0 <= d2 < d && 0 <= k2 < ncg ==> #[trigger] spawned_ok(
                        state.shapes@[base + d2 * ncg + k2],
                        pipe,
                        i as int,
                        colors@[k2],
                        ncg,
                    ),
                forall|k2: int|
                    0 <= k2 < k ==> #[trigger] spawned_ok(
                        state.shapes@[base + d * ncg + k2],
                        pipe,
                        i as int,
                        colors@[k2],
                        ncg,
                    ),
            decreases nc - k,
        {
            let color = colors[k];
            let il: i64 = i as i64;
            let xbase: i64 = (63 + 120 * il) * MICRO;
            let jitter = rand_range_i64(-10 * MICRO, 10 * MICRO);
            let x = xbase + jitter;
            let y: i64 = (210 + 10 * il) * MICRO;
            let rf = rand_range_i64(-500, 500);
            let sp: i64 = pipe.speed as i64;
            let ncl: i64 = nc as i64;
            proof {
                assert(0 <= 3 * sp * ncl <= 720) by (nonlinear_arith)
                    requires
                        1 <= sp <= 40,
                        1 <= ncl <= 6,
                ;
            }
            let press: i64 = 3 * sp * ncl;
            proof {
                assert(-1500 * pipe.speed * ncg <= rf * press && rf * press <= 1500 * pipe.speed
                    * ncg && -360_000 <= rf * press <= 360_000) by (nonlinear_arith)
                    requires
                        -500 <= rf <= 500,
                        press == 3 * sp * ncl,
                        0 <= press <= 720,
                        sp == pipe.speed,
                        ncl == ncg,
                        1 <= sp <= 40,
                        1 <= ncl <= 6,
                ;
            }
            let vel_x = rf * press;
            let rot = rand_range_i64(0, 1_130_973_355);
            let fresh = Shape {
                x,
                y,
                vel_x,
                vel_y: LAUNCH_VEL_Y,
                rot,
                rot_vel: 100,
                sides: pipe.sides,
                color,
                laser_cuts: 0,
            };
            proof {
                assert(spawned_ok(fresh, pipe, i as int, colors@[k as int], ncg));
                lemma_spawned_wf(fresh, pipe, i as int, colors@[k as int], ncg);
            }
            let ghost prev = state.shapes@;
            state.shapes.push(fresh);
            proof {
                assert(state.shapes@.subrange(0, base) =~= old(state).shapes@);
                assert(state.shapes@[base + d * ncg + k] == fresh);
                assert forall|d2: int, k2: int|
                    0 <= d2 < d && 0 <= k2 < ncg implies #[trigger] spawned_ok(
                        state.shapes@[base + d2 * ncg + k2],
                        pipe,
                        i as int,
                        colors@[k2],
                        ncg,
                    ) by {
                    assert(d2 * ncg + k2 < d * ncg) by (nonlinear_arith)
                        requires
                            d2 < d,
                            0 <= k2 < ncg,
                            1 <= ncg,
                    ;
                    assert(spawned_ok(prev[base + d2 * ncg + k2], pipe, i as int, colors@[k2], ncg));
                    assert(state.shapes@[base + d2 * ncg + k2] == prev[base + d2 * ncg + k2]);
                }
            }
            k += 1;
        }
        proof {
            assert((d + 1) * ncg == d * ncg + ncg) by (nonlinear_arith);
            assert forall|d2: int, k2: int|
                0 <= d2 < d + 1 && 0 <= k2 < ncg implies #[trigger] spawned_ok(
                    state.shapes@[base + d2 * ncg + k2],
                    pipe,
                    i as int,
                    colors@[k2],
                    ncg,
                ) by {
                if d2 == d {
                    assert(spawned_ok(
                        state.shapes@[base + d * ncg + k2],
                        pipe,
                        i as int,
                        colors@[k2],
                        ncg,
                    ));
                }
            }
        }
        d += 1;
    }
    proof {
        lemma_wf_state_frame(*old(state), *state);
    }
}


/// How many drops a pipe emits this tick once `dt` is accumulated.
pub open spec fn spec_drop_count(p: GamePipe, dt: u64) -> int {
    let a = p.last_drop + dt;
    let dl = spec_drop_delay(p.speed as int);
    if a >= dl {
        a / dl
    } else {
        0
    }
}

/// The accumulator after this tick: the consumed whole drops are
/// subtracted, the fractional remainder carries over.
pub open spec fn spec_new_acc(p: GamePipe, dt: u64) -> int {
    p.last_drop + dt - spec_drop_count(p, dt) * spec_drop_delay(p.speed as int)
}

/// Shapes spawned by the pipes before slot `i` in one tick.
pub open spec fn spec_spawned_total(
    pipes: Seq<GamePipe>,
    owned: Seq<Upgrade>,
    dt: u64,
    i: int,
) -> int
    decreases i,
{
    if i <= 0 {
        0
    } else {
        spec_spawned_total(pipes, owned, dt, i - 1) + spec_drop_count(pipes[i - 1], dt)
            * spec_unlocked_colors(owned, i - 1).len()
    }
}

pub proof fn lemma_spawned_total_zero(pipes: Seq<GamePipe>, owned: Seq<Upgrade>, dt: u64, i: int)
    requires
        forall|j: int| 0 <= j < i ==> spec_drop_count(#[trigger] pipes[j], dt) == 0,
    ensures
        spec_spawned_total(pipes, owned, dt, i) == 0,
    decreases i,
{
    if i > 0 {
        lemma_spawned_total_zero(pipes, owned, dt, i - 1);
    }
}

pub proof fn lemma_spawned_total_nonneg(pipes: Seq<GamePipe>, owned: Seq<Upgrade>, dt: u64, i: int)
    ensures
        spec_spawned_total(pipes, owned, dt, i) >= 0,
    decreases i,
{
    if i > 0 {
        lemma_spawned_total_nonneg(pipes, owned, dt, i - 1);
        let c = spec_drop_count(pipes[i - 1], dt);
        let n = spec_unlocked_colors(owned, i - 1).len();
        assert(c * n >= 0) by (nonlinear_arith)
            requires
                c >= 0,
                n >= 0,
        ;
    }
}

pub proof fn lemma_spawned_total_mono(
    pipes: Seq<GamePipe>,
    owned: Seq<Upgrade>,
    dt: u64,
    a: int,
    b: int,
)
    requires
        a <= b,
    ensures
        spec_spawned_total(pipes, owned, dt, a) <= spec_spawned_total(pipes, owned, dt, b),
    decreases b - a,
{
    if a < b {
        lemma_spawned_total_mono(pipes, owned, dt, a, b - 1);
        let c = spec_drop_count(pipes[b - 1], dt);
        let n = spec_unlocked_colors(owned, b - 1).len();
        assert(c * n >= 0) by (nonlinear_arith)
            requires
                c >= 0,
                n >= 0,
        ;
    }
}

/// Accumulates `dt` on every pipe and emits the due drops, carrying each
/// accumulator's fractional remainder to the next tick.
pub fn pipe_shape_drop_tick(state: &mut GameState, dt: u64)
    requires
        wf_state(*old(state)),
        dt <= DT_MAX_MS,
    ensures
        wf_state(*final(state)),
        final(state).pipes@.len() == old(state).pipes@.len(),
        forall|i: int|
            0 <= i < old(state).pipes@.len() ==> (#[trigger] final(state).pipes@[i]).last_drop
                == spec_new_acc(old(state).pipes@[i], dt) && final(state).pipes@[i].sides == old(
                state,
            ).pipes@[i].sides && final(state).pipes@[i].color == old(state).pipes@[i].color
                && final(state).pipes@[i].speed == old(state).pipes@[i].speed,
        final(state).score == old(state).score,
        final(state).last_tick == old(state).last_tick,
        final(state).upgrades@ == old(state).upgrades@,
        final(state).available_upgrades@ == old(state).available_upgrades@,
        final(state).mouse_click_x == old(state).mouse_click_x,
        final(state).mouse_click_y == old(state).mouse_click_y,
        final(state).shapes@.len() == old(state).shapes@.len() + spec_spawned_total(
            old(state).pipes@,
            old(state).upgrades@,
            dt,
            old(state).pipes@.len() as int,
        ),
        final(state).shapes@.subrange(0, old(state).shapes@.len() as int) == old(state).shapes@,
        forall|i: int, d: int, k: int|
            0 <= i < old(state).pipes@.len() && 0 <= d < spec_drop_count(old(state).pipes@[i], dt)
                && 0 <= k < spec_unlocked_colors(old(state).upgrades@, i).len()
                ==> #[trigger] spawned_ok(
                final(state).shapes@[old(state).shapes@.len() + spec_spawned_total(
                    old(state).pipes@,
                    old(state).upgrades@,
                    dt,
                    i,
                ) + d * spec_unlocked_colors(old(state).upgrades@, i).len() + k],
                old(state).pipes@[i],
                i,
                spec_unlocked_colors(old(state).upgrades@, i)[k],
                spec_unlocked_colors(old(state).upgrades@, i).len() as int,
            ),
{
    let n = state.pipes.len();
    let ghost base = old(state).shapes@.len() as int;
    let mut i: usize = 0;
    while i < n
        invariant
            wf_state(*old(state)),
            dt <= DT_MAX_MS,
            n == old(state).pipes@.len(),
            base == old(state).shapes@.len() as int,
            i <= n,
            wf_state(*state),
            state.pipes@.len() == n,
            forall|j: int|
                0 <= j < i ==> (#[trigger] state.pipes@[j]).last_drop == spec_new_acc(
                    old(state).pipes@[j],
                    dt,
                ) && state.pipes@[j].sides == old(state).pipes@[j].sides && state.pipes@[j].color
                    == old(state).pipes@[j].color && state.pipes@[j].speed == old(
                    state,
                ).pipes@[j].speed,
            forall|j: int| i <= j < n ==> #[trigger] state.pipes@[j] == old(state).pipes@[j],
            state.score == old(state).score,
            state.last_tick == old(state).last_tick,
            state.upgrades@ == old(state).upgrades@,
            state.available_upgrades@ == old(state).available_upgrades@,
            state.mouse_click_x == old(state).mouse_click_x,
            state.mouse_click_y == old(state).mouse_click_y,
            state.shapes@.len() == base + spec_spawned_total(
                old(state).pipes@,
                old(state).upgrades@,
                dt,
                i as int,
            ),
            state.shapes@.subrange(0, base) == old(state).shapes@,
            forall|i2: int, d: int, k: int|
                0 <= i2 < i && 0 <= d < spec_drop_count(old(state).pipes@[i2], dt) && 0 <= k
                    < spec_unlocked_colors(old(state).upgrades@, i2).len()
                    ==> #[trigger] spawned_ok(
                    state.shapes@[base + spec_spawned_total(
                        old(state).pipes@,
                        old(state).upgrades@,
                        dt,
                        i2,
                    ) + d * spec_unlocked_colors(old(state).upgrades@, i2).len() + k],
                    old(state).pipes@[i2],
                    i2,
                    spec_unlocked_colors(old(state).upgrades@, i2)[k],
                    spec_unlocked_colors(old(state).upgrades@, i2).len() as int,
                ),
        decreases n - i,
    {
        let p = state.pipes[i];
        assert(p == old(state).pipes@[i as int]);
        assert(wf_pipe(p, i as int));
        let acc: u64 = p.last_drop + dt;
        let delay: u64 = drop_delay(&p);
        let ghost segment_base = state.shapes@.len() as int;
        proof {
            lemma_spawned_total_nonneg(old(state).pipes@, old(state).upgrades@, dt, i as int);
        }
        if acc >= delay {
            let ct: u64 = acc / delay;
            proof {
                lemma_fundamental_div_mod(acc as int, delay as int);
                lemma_mod_division_less_than_divisor(acc as int, delay as int);
                assert(ct == acc as int / delay as int);
                assert(delay * (acc as int / delay as int) == ct * delay);
                assert(ct * delay <= acc);
                assert(acc - ct * delay == acc as int % delay as int);
                assert(acc - ct * delay < delay);
                assert(ct >= 1) by (nonlinear_arith)
                    requires
                        acc >= delay,
                        delay >= 1,
                        ct == acc as int / delay as int,
                ;
            }
            let rem: u64 = acc - ct * delay;
            state.pipes[i].last_drop = rem;
            assert(rem == spec_new_acc(old(state).pipes@[i as int], dt));
            proof {
                assert forall|j: int| 0 <= j < state.pipes@.len() implies wf_pipe(
                    #[trigger] state.pipes@[j],
                    j,
                ) by {
                    if j != i as int {
                        assert(wf_pipe(old(state).pipes@[j], j));
                    }
                }
                assert forall|j: int| 0 <= j < state.pipes@.len() implies pipe_unlock_owned(
                    *state,
                    j,
                ) by {
                    assert(pipe_unlock_owned(*old(state), j));
                }
            }
            let ghost mid = *state;
            drop_shapes(state, i, ct);
            proof {
                assert(state.shapes@.subrange(0, base) =~= old(state).shapes@);
                assert(spec_spawned_total(
                    old(state).pipes@,
                    old(state).upgrades@,
                    dt,
                    i as int + 1,
                ) == spec_spawned_total(old(state).pipes@, old(state).upgrades@, dt, i as int) + ct
                    * spec_unlocked_colors(old(state).upgrades@, i as int).len());
                let opipes = old(state).pipes@;
                let oupg = old(state).upgrades@;
                assert(ct == spec_drop_count(opipes[i as int], dt));
                assert forall|i2: int, d: int, k: int|
                    0 <= i2 < i + 1 && 0 <= d < spec_drop_count(opipes[i2], dt) && 0 <= k
                        < spec_unlocked_colors(oupg, i2).len() implies #[trigger] spawned_ok(
                        state.shapes@[base + spec_spawned_total(opipes, oupg, dt, i2) + d
                            * spec_unlocked_colors(oupg, i2).len() + k],
                        opipes[i2],
                        i2,
                        spec_unlocked_colors(oupg, i2)[k],
                        spec_unlocked_colors(oupg, i2).len() as int,
                    ) by {
                    let nc2 = spec_unlocked_colors(oupg, i2).len();
                    let idx = base + spec_spawned_total(opipes, oupg, dt, i2) + d * nc2 + k;
                    if i2 == i as int {
                        assert(spec_spawned_total(opipes, oupg, dt, i2) == segment_base - base);
                        assert(spawned_ok(
                            state.shapes@[segment_base + d * nc2 + k],
                            mid.pipes@[i as int],
                            i2,
                            spec_unlocked_colors(oupg, i2)[k],
                            nc2 as int,
                        ));
                        assert(mid.pipes@[i as int].sides == opipes[i2].sides);
                        assert(mid.pipes@[i as int].speed == opipes[i2].speed);
                    } else {
                        let c2 = spec_drop_count(opipes[i2], dt);
                        assert(0 <= d * nc2 + k && d * nc2 + k < c2 * nc2) by (nonlinear_arith)
                            requires
                                0 <= d < c2,
                                0 <= k < nc2,
                        ;
                        lemma_spawned_total_nonneg(opipes, oupg, dt, i2);
                        assert(spec_spawned_total(opipes, oupg, dt, i2 + 1) == spec_spawned_total(
                            opipes,
                            oupg,
                            dt,
                            i2,
                        ) + c2 * nc2);
                        lemma_spawned_total_mono(opipes, oupg, dt, i2 + 1, i as int);
                        assert(idx < segment_base);
                        assert(state.shapes@.subrange(0, segment_base) == mid.shapes@);
                        assert(state.shapes@.subrange(0, segment_base)[idx] == state.shapes@[idx]);
                        assert(state.shapes@[idx] == mid.shapes@[idx]);
                        assert(spawned_ok(
                            mid.shapes@[idx],
                            opipes[i2],
                            i2,
                            spec_unlocked_colors(oupg, i2)[k],
                            nc2 as int,
                        ));
                    }
                }
            }
        } else {
            state.pipes[i].last_drop = acc;
            proof {
                assert(spec_drop_count(old(state).pipes@[i as int], dt) == 0);
                assert(acc == spec_new_acc(old(state).pipes@[i as int], dt));
                let c0 = spec_drop_count(old(state).pipes@[i as int], dt);
                let n0 = spec_unlocked_colors(old(state).upgrades@, i as int).len();
                assert(c0 * n0 == 0) by (nonlinear_arith)
                    requires
                        c0 == 0,
                ;
                assert forall|j: int| 0 <= j < state.pipes@.len() implies wf_pipe(
                    #[trigger] state.pipes@[j],
                    j,
                ) by {
                    if j != i as int {
                        assert(wf_pipe(old(state).pipes@[j], j));
                    }
                }
                assert forall|j: int| 0 <= j < state.pipes@.len() implies pipe_unlock_owned(
                    *state,
                    j,
                ) by {
                    assert(pipe_unlock_owned(*old(state), j));
                }
                assert(spec_spawned_total(
                    old(state).pipes@,
                    old(state).upgrades@,
                    dt,
                    i as int + 1,
                ) == spec_spawned_total(old(state).pipes@, old(state).upgrades@, dt, i as int));
            }
        }
        i += 1;
    }
}


/// The number of pipes after the unlock checks: each missing slot whose
/// unlock upgrade is owned is appended, in order.
pub open spec fn spec_pipe_count_after(len: int, owned: Seq<Upgrade>) -> int {
    let l2 = if len < 2 && owned.contains(Upgrade::Pipe2) {
        len + 1
    } else {
        len
    };
    let l3 = if l2 < 3 && owned.contains(Upgrade::Pipe3) {
        l2 + 1
    } else {
        l2
    };
    if l3 < 4 && owned.contains(Upgrade::Pipe4) {
        l3 + 1
    } else {
        l3
    }
}

/// Appends the pipes whose unlock upgrade is owned, so a pipe appears on
/// the very tick its prerequisite upgrade is bought; pipes are never
/// removed.
pub fn pipe_count_tick(state: &mut GameState)
    requires
        wf_state(*old(state)),
    ensures
        wf_state(*final(state)),
        final(state).pipes@.len() == spec_pipe_count_after(
            old(state).pipes@.len() as int,
            old(state).upgrades@,
        ),
        final(state).pipes@.subrange(0, old(state).pipes@.len() as int) == old(state).pipes@,
        forall|j: int|
            old(state).pipes@.len() <= j < final(state).pipes@.len()
                ==> (#[trigger] final(state).pipes@[j]) == (GamePipe {
                sides: (3 + j) as i32,
                color: ShapeColor::Gray,
                speed: 1,
                last_drop: 0,
            }),
        final(state).shapes@ == old(state).shapes@,
        final(state).score == old(state).score,
        final(state).last_tick == old(state).last_tick,
        final(state).upgrades@ == old(state).upgrades@,
        final(state).available_upgrades@ == old(state).available_upgrades@,
        final(state).mouse_click_x == old(state).mouse_click_x,
        final(state).mouse_click_y == old(state).mouse_click_y,
{
    if state.pipes.len() < 2 && contains_upgrade(&state.upgrades, Upgrade::Pipe2) {
        state.pipes.push(GamePipe { sides: 4, color: ShapeColor::Gray, speed: 1, last_drop: 0 });
    }
    if state.pipes.len() < 3 && contains_upgrade(&state.upgrades, Upgrade::Pipe3) {
        state.pipes.push(GamePipe { sides: 5, color: ShapeColor::Gray, speed: 1, last_drop: 0 });
    }
    if state.pipes.len() < 4 && contains_upgrade(&state.upgrades, Upgrade::Pipe4) {
        state.pipes.push(GamePipe { sides: 6, color: ShapeColor::Gray, speed: 1, last_drop: 0 });
    }
    proof {
        assert(state.pipes@.subrange(0, old(state).pipes@.len() as int) =~= old(state).pipes@);
        assert forall|j: int| 0 <= j < state.pipes@.len() implies wf_pipe(
            #[trigger] state.pipes@[j],
            j,
        ) by {
            if j < old(state).pipes@.len() {
                assert(state.pipes@[j] == old(state).pipes@[j]);
                assert(wf_pipe(old(state).pipes@[j], j));
            }
        }
        assert forall|j: int| 0 <= j < state.pipes@.len() implies pipe_unlock_owned(
            *state,
            j,
        ) by {
            if j < old(state).pipes@.len() {
                assert(pipe_unlock_owned(*old(state), j));
            }
        }
        assert forall|j: int| 0 <= j < state.upgrades@.len() implies valid_upgrade(
            #[trigger] state.upgrades@[j],
        ) by {
            assert(valid_upgrade(old(state).upgrades@[j]));
        }
    }
}

pub proof fn lemma_max_speed_bounds(owned: Seq<Upgrade>, slot: int)
    requires
        forall|i: int| 0 <= i < owned.len() ==> valid_upgrade(#[trigger] owned[i]),
    ensures
        1 <= spec_max_speed(owned, slot) <= 40,
    decreases owned.len(),
{
    if owned.len() > 0 {
        let pre = owned.drop_last();
        assert forall|i: int| 0 <= i < pre.len() implies valid_upgrade(#[trigger] pre[i]) by {
            assert(pre[i] == owned[i]);
            assert(valid_upgrade(owned[i]));
        }
        lemma_max_speed_bounds(pre, slot);
        assert(owned.last() == owned[owned.len() - 1]);
        assert(valid_upgrade(owned.last()));
    }
}

/// The pipes of a state after the per-tick speed recomputation.
pub open spec fn spec_sped_pipe(s: GameState, i: int) -> GamePipe {
    GamePipe { speed: spec_max_speed(s.upgrades@, i) as u64, ..s.pipes@[i] }
}

pub open spec fn spec_sped_pipes(s: GameState) -> Seq<GamePipe> {
    Seq::new(s.pipes@.len(), |i: int| spec_sped_pipe(s, i))
}

/// One scheduler pass: speed recomputation, then drop accumulation and
/// emission, then the pipe unlock check, in the order the tick runs them.
pub fn pipe_tick(state: &mut GameState, dt: u64)
    requires
        wf_state(*old(state)),
        dt <= DT_MAX_MS,
    ensures
        wf_state(*final(state)),
        final(state).pipes@.len() == spec_pipe_count_after(
            old(state).pipes@.len() as int,
            old(state).upgrades@,
        ),
        forall|i: int|
            0 <= i < old(state).pipes@.len() ==> (#[trigger] final(state).pipes@[i]).last_drop
                == spec_new_acc(spec_sped_pipe(*old(state), i), dt) && final(state).pipes@[i].sides
                == old(state).pipes@[i].sides && final(state).pipes@[i].color == old(
                state,
            ).pipes@[i].color && final(state).pipes@[i].speed == spec_max_speed(
                old(state).upgrades@,
                i,
            ),
        forall|j: int|
            old(state).pipes@.len() <= j < final(state).pipes@.len()
                ==> (#[trigger] final(state).pipes@[j]) == (GamePipe {
                sides: (3 + j) as i32,
                color: ShapeColor::Gray,
                speed: 1,
                last_drop: 0,
            }),
        final(state).score == old(state).score,
        final(state).last_tick == old(state).last_tick,
        final(state).upgrades@ == old(state).upgrades@,
        final(state).available_upgrades@ == old(state).available_upgrades@,
        final(state).mouse_click_x == old(state).mouse_click_x,
        final(state).mouse_click_y == old(state).mouse_click_y,
        final(state).shapes@.subrange(0, old(state).shapes@.len() as int) == old(state).shapes@,
        final(state).shapes@.len() == old(state).shapes@.len() + spec_spawned_total(
            spec_sped_pipes(*old(state)),
            old(state).upgrades@,
            dt,
            old(state).pipes@.len() as int,
        ),
        forall|i: int, d: int, k: int|
            0 <= i < old(state).pipes@.len() && 0 <= d < spec_drop_count(
                spec_sped_pipe(*old(state), i),
                dt,
            ) && 0 <= k < spec_unlocked_colors(old(state).upgrades@, i).len()
                ==> #[trigger] spawned_ok(
                final(state).shapes@[old(state).shapes@.len() + spec_spawned_total(
                    spec_sped_pipes(*old(state)),
                    old(state).upgrades@,
                    dt,
                    i,
                ) + d * spec_unlocked_colors(old(state).upgrades@, i).len() + k],
                spec_sped_pipe(*old(state), i),
                i,
                spec_unlocked_colors(old(state).upgrades@, i)[k],
                spec_unlocked_colors(old(state).upgrades@, i).len() as int,
            ),
        (dt == 0 && (forall|i: int|
            0 <= i < old(state).pipes@.len()
                ==> (#[trigger] old(state).pipes@[i]).last_drop < spec_drop_delay(
                spec_max_speed(old(state).upgrades@, i),
            ))) ==> final(state).shapes@ == old(state).shapes@,
{
    pipe_speed_tick(state);
    let ghost s1 = *state;
    proof {
        assert(s1.pipes@ =~= spec_sped_pipes(*old(state)));
    }
    pipe_shape_drop_tick(state, dt);
    let ghost s2 = *state;
    pipe_count_tick(state);
    proof {
        let sped = spec_sped_pipes(*old(state));
        assert(state.shapes@ == s2.shapes@);
        assert(s2.shapes@.subrange(0, old(state).shapes@.len() as int) =~= old(state).shapes@);
        assert forall|i: int| 0 <= i < old(state).pipes@.len() implies (
            #[trigger] state.pipes@[i]).last_drop == spec_new_acc(spec_sped_pipe(*old(state), i), dt)
            && state.pipes@[i].sides == old(state).pipes@[i].sides && state.pipes@[i].color == old(
            state,
        ).pipes@[i].color && state.pipes@[i].speed == spec_max_speed(old(state).upgrades@, i) by {
            assert(s1.pipes@[i] == sped[i]);
            assert(sped[i] == spec_sped_pipe(*old(state), i));
            assert(state.pipes@.subrange(0, s2.pipes@.len() as int)[i] == state.pipes@[i]);
            assert(state.pipes@[i] == s2.pipes@[i]);
            assert(s2.pipes@[i].last_drop == spec_new_acc(s1.pipes@[i], dt));
            assert(s2.pipes@[i].speed == s1.pipes@[i].speed);
            lemma_max_speed_bounds(old(state).upgrades@, i);
        }
        assert forall|i: int, d: int, k: int|
            0 <= i < old(state).pipes@.len() && 0 <= d < spec_drop_count(
                spec_sped_pipe(*old(state), i),
                dt,
            ) && 0 <= k < spec_unlocked_colors(old(state).upgrades@, i).len()
                implies #[trigger] spawned_ok(
                state.shapes@[old(state).shapes@.len() + spec_spawned_total(
                    spec_sped_pipes(*old(state)),
                    old(state).upgrades@,
                    dt,
                    i,
                ) + d * spec_unlocked_colors(old(state).upgrades@, i).len() + k],
                spec_sped_pipe(*old(state), i),
                i,
                spec_unlocked_colors(old(state).upgrades@, i)[k],
                spec_unlocked_colors(old(state).upgrades@, i).len() as int,
            ) by {
            assert(s1.pipes@ == sped);
            assert(s1.pipes@[i] == spec_sped_pipe(*old(state), i));
            assert(s1.upgrades@ == old(state).upgrades@);
            assert(s1.shapes@ == old(state).shapes@);
            assert(spec_drop_count(s1.pipes@[i], dt) == spec_drop_count(
                spec_sped_pipe(*old(state), i),
                dt,
            ));
            assert(spawned_ok(
                s2.shapes@[s1.shapes@.len() + spec_spawned_total(
                    s1.pipes@,
                    s1.upgrades@,
                    dt,
                    i,
                ) + d * spec_unlocked_colors(s1.upgrades@, i).len() + k],
                s1.pipes@[i],
                i,
                spec_unlocked_colors(s1.upgrades@, i)[k],
                spec_unlocked_colors(s1.upgrades@, i).len() as int,
            ));
        }
        if dt == 0 && (forall|i: int|
            0 <= i < old(state).pipes@.len()
                ==> (#[trigger] old(state).pipes@[i]).last_drop < spec_drop_delay(
                spec_max_speed(old(state).upgrades@, i),
            )) {
            assert forall|j: int| 0 <= j < sped.len() implies spec_drop_count(
                #[trigger] sped[j],
                dt,
            ) == 0 by {
                assert(sped[j] == spec_sped_pipe(*old(state), j));
                assert(old(state).pipes@[j].last_drop < spec_drop_delay(
                    spec_max_speed(old(state).upgrades@, j),
                ));
            }
            lemma_spawned_total_zero(sped, old(state).upgrades@, dt, sped.len() as int);
            assert(state.shapes@.len() == old(state).shapes@.len());
            assert(state.shapes@ =~= old(state).shapes@);
        }
    }
}

} // verus!
