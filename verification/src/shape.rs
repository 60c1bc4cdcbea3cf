//! Shape physics: per-tick integration, drag, the laser-cut mutation,
//! bottom-boundary removal and the crediting of a removed shape's value.
//!
//! Every per-shape effect of a tick is pointwise, so the whole pass is
//! specified as one transformation `spec_moved` applied to every shape,
//! followed by a partition into survivors (`spec_surviving`) and the
//! credited sum of the removed (`spec_credited`).

use vstd::prelude::*;
use num::bigint::BigInt;

use crate::color::spec_color_multiplier;
use crate::color::color_multiplier;
use crate::currency::big_value;
use crate::currency::big_from_u64;
use crate::currency::big_sub;
use crate::currency::big_mul;
use crate::currency::big_pow;
use crate::currency::big_add;
use crate::currency::pow_int;
use crate::state::GameState;
use crate::state::Shape;
use crate::state::wf_shape;
use crate::state::lemma_wf_state_frame;
use crate::state::wf_state;
use crate::state::DT_MAX_MS;
use crate::state::VEL_X_CAP;
use crate::state::LASER_LINE_Y;
use crate::state::REMOVE_LINE_Y;
use crate::upgrades::Upgrade;
use crate::upgrades::valid_upgrade;
use crate::upgrades::contains_upgrade;

verus! {

/// The horizontal drag multiplier of a tick, in thousandths:
/// `max(0, 1 - 4 * dt_seconds)`, which floors at a full stop and never
/// reverses the sign of the velocity.
pub open spec fn spec_drag_factor(dt: int) -> int {
    if dt <= 250 {
        1000 - 4 * dt
    } else {
        0
    }
}

/// `v * f / 1000` with the division truncated toward zero.
pub open spec fn spec_scaled(v: int, f: int) -> int {
    if v >= 0 {
        (v * f) / 1000
    } else {
        -((-v * f) / 1000)
    }
}

/// Does the laser fire on this shape this tick: the upgrade is owned, the
/// shape is still uncut, and its integrated position is past the line.
pub open spec fn spec_cut(o: Shape, dt: u64, laser: bool) -> bool {
    laser && o.laser_cuts == 0 && o.y + o.vel_y * dt > LASER_LINE_Y
}

/// One shape after the physics and laser passes of a tick: position and
/// rotation integrated, gravity and drag applied, and the laser cut taken
/// at most once (the counter caps at 1).
pub open spec fn spec_moved(o: Shape, dt: u64, laser: bool) -> Shape {
    Shape {
        x: (o.x + o.vel_x * dt) as i64,
        y: (o.y + o.vel_y * dt) as i64,
        vel_x: spec_scaled(o.vel_x as int, spec_drag_factor(dt as int)) as i64,
        vel_y: (o.vel_y + 90 * dt) as i64,
        rot: (o.rot + o.rot_vel * dt) as i64,
        rot_vel: o.rot_vel,
        sides: if spec_cut(o, dt, laser) {
            (o.sides + 1) as i32
        } else {
            o.sides
        },
        color: o.color,
        laser_cuts: if spec_cut(o, dt, laser) {
            1
        } else {
            o.laser_cuts
        },
    }
}

pub open spec fn spec_moved_all(s: Seq<Shape>, dt: u64, laser: bool) -> Seq<Shape> {
    s.map_values(|o: Shape| spec_moved(o, dt, laser))
}

/// The shapes a tick retains: those not past the bottom boundary, with
/// their relative order kept.
pub open spec fn spec_surviving(s: Seq<Shape>) -> Seq<Shape>
    decreases s.len(),
{
    if s.len() == 0 {
        Seq::empty()
    } else if s.last().y <= REMOVE_LINE_Y {
        spec_surviving(s.drop_last()).push(s.last())
    } else {
        spec_surviving(s.drop_last())
    }
}

/// The value of a shape: `(500^(sides-2) - 470) * color_multiplier`.
pub open spec fn shape_value(s: Shape) -> int {
    (pow_int(500, (s.sides - 2) as nat) - 470) * spec_color_multiplier(s.color)
}

/// The total value a tick credits: the sum over the removed shapes, each
/// counted exactly once.
pub open spec fn spec_credited(s: Seq<Shape>) -> int
    decreases s.len(),
{
    if s.len() == 0 {
        0
    } else if s.last().y > REMOVE_LINE_Y {
        spec_credited(s.drop_last()) + shape_value(s.last())
    } else {
        spec_credited(s.drop_last())
    }
}

pub proof fn lemma_pow500_ge(e: nat)
    ensures
        pow_int(500, e) >= 1,
        e >= 1 ==> pow_int(500, e) >= 500,
    decreases e,
{
    if e > 0 {
        lemma_pow500_ge((e - 1) as nat);
        assert(500 * pow_int(500, (e - 1) as nat) >= 500) by (nonlinear_arith)
            requires
                pow_int(500, (e - 1) as nat) >= 1,
        ;
    }
}

pub proof fn lemma_shape_value_nonneg(s: Shape)
    requires
        s.sides >= 3,
    ensures
        shape_value(s) >= 0,
{
    lemma_pow500_ge((s.sides - 2) as nat);
    assert((pow_int(500, (s.sides - 2) as nat) - 470) * spec_color_multiplier(s.color) >= 0)
        by (nonlinear_arith)
        requires
            pow_int(500, (s.sides - 2) as nat) >= 500,
            spec_color_multiplier(s.color) >= 0,
    ;
}

/// The value of a shape as a currency amount.
pub fn shape_price(shape: &Shape) -> (r: BigInt)
    requires
        shape.sides >= 3,
    ensures
        big_value(r) == shape_value(*shape),
{
    let side_level: u32 = (shape.sides - 2) as u32;
    let base = big_from_u64(500);
    let side_price = big_sub(&big_pow(&base, side_level), &big_from_u64(470));
    let mult = big_from_u64(color_multiplier(shape.color));
    big_mul(&side_price, &mult)
}

/// Drag applied to a horizontal velocity over one tick.
fn scale_drag(v: i64, dtl: i64) -> (r: i64)
    requires
        0 <= dtl <= DT_MAX_MS,
        -VEL_X_CAP <= v <= VEL_X_CAP,
    ensures
        r == spec_scaled(v as int, spec_drag_factor(dtl as int)),
        0 <= v ==> 0 <= r <= v,
        v < 0 ==> v <= r <= 0,
{
    let f: i64 = if dtl <= 250 {
        1000 - 4 * dtl
    } else {
        0
    };
    if v >= 0 {
        proof {
            assert(0 <= v * f <= 360_000_000 && (v * f) / 1000 <= v) by (nonlinear_arith)
                requires
                    0 <= v <= 360_000,
                    0 <= f <= 1000,
            ;
        }
        (v * f) / 1000
    } else {
        let m = -v;
        proof {
            assert(0 <= m * f <= 360_000_000 && (m * f) / 1000 <= m) by (nonlinear_arith)
                requires
                    0 < m <= 360_000,
                    0 <= f <= 1000,
            ;
        }
        -((m * f) / 1000)
    }
}


/// A moved shape that is retained (its new position is not past the
/// bottom boundary) is still well formed: the fall couples every drifting
/// quantity to the descent, so nothing outgrows its bound.
proof fn lemma_moved_wf(o: Shape, dt: u64, laser: bool)
    requires
        wf_shape(o),
        dt <= DT_MAX_MS,
        o.y + o.vel_y * dt <= REMOVE_LINE_Y,
    ensures
        wf_shape(spec_moved(o, dt, laser)),
{
    let n = spec_moved(o, dt, laser);
    assert(0 <= o.vel_y * dt <= 1_000_000_000_000_000) by (nonlinear_arith)
        requires
            0 <= o.vel_y <= 1_000_000_000,
            0 <= dt <= 1_000_000,
    ;
    assert(-360_000_000_000 <= o.vel_x * dt <= 360_000_000_000) by (nonlinear_arith)
        requires
            -360_000 <= o.vel_x <= 360_000,
            0 <= dt <= 1_000_000,
    ;
    assert(0 <= o.rot_vel * dt <= 300_000_000_000) by (nonlinear_arith)
        requires
            0 <= o.rot_vel <= 300_000,
            0 <= dt <= 1_000_000,
    ;
    if dt >= 1 {
        assert(o.vel_y <= o.vel_y * dt) by (nonlinear_arith)
            requires
                0 <= o.vel_y,
                1 <= dt,
        ;
    }
    // The horizontal drift and the spin are both outrun by the descent.
    assert(o.vel_x * dt <= 2 * (o.vel_y * dt) && -(o.vel_x * dt) <= 2 * (o.vel_y * dt)
        && o.rot_vel * dt <= o.vel_y * dt) by (nonlinear_arith)
        requires
            -360_000 <= o.vel_x <= 360_000,
            0 <= o.rot_vel <= 300_000,
            300_000 <= o.vel_y,
            0 <= dt,
    ;
    assert(0 <= o.vel_x ==> 0 <= spec_scaled(o.vel_x as int, spec_drag_factor(dt as int))
        <= o.vel_x) by (nonlinear_arith)
        requires
            -360_000 <= o.vel_x <= 360_000,
            0 <= spec_drag_factor(dt as int) <= 1000,
    ;
    assert(o.vel_x < 0 ==> o.vel_x <= spec_scaled(o.vel_x as int, spec_drag_factor(dt as int))
        <= 0) by (nonlinear_arith)
        requires
            -360_000 <= o.vel_x <= 360_000,
            0 <= spec_drag_factor(dt as int) <= 1000,
    ;
    assert(n.vel_x == spec_scaled(o.vel_x as int, spec_drag_factor(dt as int)));
}

/// Advances every shape by `dt` milliseconds, applies the laser cut where
/// it is due, removes every shape past the bottom boundary and credits
/// its value to the score, each removed shape exactly once.
pub fn shape_tick(state: &mut GameState, dt: u64)
    requires
        wf_state(*old(state)),
        dt <= DT_MAX_MS,
    ensures
        wf_state(*final(state)),
        final(state).shapes@ == spec_surviving(
            spec_moved_all(
                old(state).shapes@,
                dt,
                old(state).upgrades@.contains(Upgrade::ShapeLaser(1)),
            ),
        ),
        big_value(final(state).score) == big_value(old(state).score) + spec_credited(
            spec_moved_all(
                old(state).shapes@,
                dt,
                old(state).upgrades@.contains(Upgrade::ShapeLaser(1)),
            ),
        ),
        final(state).pipes@ == old(state).pipes@,
        final(state).last_tick == old(state).last_tick,
        final(state).upgrades@ == old(state).upgrades@,
        final(state).available_upgrades@ == old(state).available_upgrades@,
        final(state).mouse_click_x == old(state).mouse_click_x,
        final(state).mouse_click_y == old(state).mouse_click_y,
{
    let laser = contains_upgrade(&state.upgrades, Upgrade::ShapeLaser(1));
    let ghost orig = state.shapes@;
    let dtl: i64 = dt as i64;
    let mut kept: Vec<Shape> = Vec::new();
    let mut i: usize = 0;
    while i < state.shapes.len()
        invariant
            wf_state(*old(state)),
            dt <= DT_MAX_MS,
            dtl == dt as i64,
            laser == old(state).upgrades@.contains(Upgrade::ShapeLaser(1)),
            orig == old(state).shapes@,
            i <= orig.len(),
            state.shapes@ == orig,
            state.pipes@ == old(state).pipes@,
            state.last_tick == old(state).last_tick,
            state.upgrades@ == old(state).upgrades@,
            state.available_upgrades@ == old(state).available_upgrades@,
            state.mouse_click_x == old(state).mouse_click_x,
            state.mouse_click_y == old(state).mouse_click_y,
            kept@ == spec_surviving(spec_moved_all(orig.subrange(0, i as int), dt, laser)),
            forall|j: int| 0 <= j < kept@.len() ==> wf_shape(#[trigger] kept@[j]),
            big_value(state.score) == big_value(old(state).score) + spec_credited(
                spec_moved_all(orig.subrange(0, i as int), dt, laser),
            ),
            big_value(state.score) >= 0,
        decreases orig.len() - i,
    {
        let s = state.shapes[i];
        assert(s == orig[i as int] && wf_shape(s));
        proof {
            assert(0 <= s.vel_y * dtl <= 1_000_000_000_000_000) by (nonlinear_arith)
                requires
                    0 <= s.vel_y <= 1_000_000_000,
                    0 <= dtl <= 1_000_000,
            ;
            assert(-360_000_000_000 <= s.vel_x * dtl <= 360_000_000_000) by (nonlinear_arith)
                requires
                    -360_000 <= s.vel_x <= 360_000,
                    0 <= dtl <= 1_000_000,
            ;
            assert(0 <= s.rot_vel * dtl <= 300_000_000_000) by (nonlinear_arith)
                requires
                    0 <= s.rot_vel <= 300_000,
                    0 <= dtl <= 1_000_000,
            ;
        }
        let ny: i64 = s.y + s.vel_y * dtl;
        let nx: i64 = s.x + s.vel_x * dtl;
        let nvy: i64 = s.vel_y + 90 * dtl;
        let nvx: i64 = scale_drag(s.vel_x, dtl);
        let nrot: i64 = s.rot + s.rot_vel * dtl;
        let cut = laser && s.laser_cuts == 0 && ny > LASER_LINE_Y;
        let moved = Shape {
            x: nx,
            y: ny,
            vel_x: nvx,
            vel_y: nvy,
            rot: nrot,
            rot_vel: s.rot_vel,
            sides: if cut {
                s.sides + 1
            } else {
                s.sides
            },
            color: s.color,
            laser_cuts: if cut {
                1
            } else {
                s.laser_cuts
            },
        };
        assert(moved == spec_moved(orig[i as int], dt, laser));
        let ghost m1 = spec_moved_all(orig.subrange(0, i as int), dt, laser);
        let ghost m2 = spec_moved_all(orig.subrange(0, i as int + 1), dt, laser);
        proof {
            assert(m2 =~= m1.push(moved));
            assert(m2.drop_last() =~= m1);
            assert(m2.last() == moved);
            assert(spec_credited(m2.drop_last()) == spec_credited(m1));
            assert(spec_surviving(m2.drop_last()) == spec_surviving(m1));
        }
        if ny > REMOVE_LINE_Y {
            let price = shape_price(&moved);
            proof {
                lemma_shape_value_nonneg(moved);
            }
            let ns = big_add(&state.score, &price);
            state.score = ns;
        } else {
            proof {
                lemma_moved_wf(orig[i as int], dt, laser);
            }
            kept.push(moved);
        }
        i += 1;
    }
    proof {
        assert(orig.subrange(0, orig.len() as int) =~= orig);
    }
    state.shapes = kept;
    proof {
        lemma_wf_state_frame(*old(state), *state);
    }
}

/// The laser mutation applies to a shape at most once: the cut counter
/// caps at 1, and a shape already cut keeps its side count through every
/// further tick, however long it stays above the threshold line.
pub proof fn lemma_laser_cuts_at_most_once(o: Shape, dt: u64, laser: bool)
    requires
        0 <= o.laser_cuts <= 1,
    ensures
        0 <= spec_moved(o, dt, laser).laser_cuts <= 1,
        o.laser_cuts == 1 ==> spec_moved(o, dt, laser).laser_cuts == 1 && spec_moved(
            o,
            dt,
            laser,
        ).sides == o.sides,
{
}

/// A zero-duration tick moves nothing: if the laser owes no shape a cut,
/// the physics pass returns every shape unchanged, none is past the
/// bottom boundary, and nothing is credited.
pub proof fn lemma_zero_dt_shapes_unchanged(shapes: Seq<Shape>, laser: bool)
    requires
        forall|i: int| 0 <= i < shapes.len() ==> wf_shape(#[trigger] shapes[i]),
        forall|i: int|
            0 <= i < shapes.len() ==> !spec_cut(#[trigger] shapes[i], 0, laser),
    ensures
        spec_surviving(spec_moved_all(shapes, 0, laser)) == shapes,
        spec_credited(spec_moved_all(shapes, 0, laser)) == 0,
    decreases shapes.len(),
{
    let m = spec_moved_all(shapes, 0, laser);
    if shapes.len() == 0 {
        assert(m =~= Seq::<Shape>::empty());
        assert(spec_surviving(m) =~= shapes);
    } else {
        let pre = shapes.drop_last();
        assert forall|i: int| 0 <= i < pre.len() implies wf_shape(#[trigger] pre[i])
            && !spec_cut(pre[i], 0, laser) by {
            assert(pre[i] == shapes[i]);
            assert(wf_shape(shapes[i]));
            assert(!spec_cut(shapes[i], 0, laser));
        }
        lemma_zero_dt_shapes_unchanged(pre, laser);
        let o = shapes.last();
        assert(o == shapes[shapes.len() - 1]);
        assert(wf_shape(o));
        assert(!spec_cut(o, 0, laser));
        assert(spec_scaled(o.vel_x as int, spec_drag_factor(0)) == o.vel_x) by {
            assert(o.vel_x >= 0 ==> (o.vel_x * 1000) / 1000 == o.vel_x as int) by (nonlinear_arith);
            assert(o.vel_x < 0 ==> (-o.vel_x * 1000) / 1000 == -(o.vel_x as int))
                by (nonlinear_arith);
        }
        assert(spec_moved(o, 0, laser) == o);
        let mp = spec_moved_all(pre, 0, laser);
        assert(m =~= mp.push(o));
        assert(m.drop_last() =~= mp);
        assert(m.last() == o);
        assert(spec_credited(m) == spec_credited(mp));
        assert(spec_surviving(m) == spec_surviving(mp).push(o));
        assert(spec_surviving(m) =~= shapes);
    }
}

} // verus!
