//! The entity model and the aggregate simulation state.
//!
//! Geometry and motion use fixed-point integers: positions and rotations
//! are in micro-units (one million to a screen unit), velocities in
//! micro-units per millisecond. At those scales every physics step of the
//! tick is exact integer arithmetic, and the well-formedness bounds below
//! keep each step inside `i64`.
//!
//! The coupling bounds (`x` and `rot` against `y`) hold because a shape
//! always falls: its downward speed never drops below the launch speed, so
//! a shape that drifts or spins for many ticks also descends and is
//! removed at the bottom boundary before the drift can overflow.

use vstd::prelude::*;
use num::bigint::BigInt;

use crate::color::ShapeColor;
use crate::currency::big_value;
use crate::currency::big_from_u64;
use crate::upgrades::Upgrade;
use crate::upgrades::PurchasableUpgrade;
use crate::upgrades::valid_upgrade;

verus! {

/// Screen width in units (pixels of the display collaborator).
pub const WIDTH: i32 = 1280;

/// Screen height in units.
pub const HEIGHT: i32 = 720;

/// Micro-units per screen unit.
pub const MICRO: i64 = 1_000_000;

/// A shape below this vertical position (micro-units; 100 units past the
/// bottom of the screen) is removed and credited.
pub const REMOVE_LINE_Y: i64 = 820_000_000;

/// The laser's threshold line (micro-units): half the screen plus 150.
pub const LASER_LINE_Y: i64 = 510_000_000;

/// The downward launch speed of every shape (micro-units per millisecond;
/// 300 units per second).
pub const LAUNCH_VEL_Y: i64 = 300_000;

/// The largest single-tick duration the simulation accepts (milliseconds).
/// A machine limit: it bounds every physics product inside `i64`.
pub const DT_MAX_MS: u64 = 1_000_000;

/// Cap on downward speed of a retained shape (micro-units per millisecond).
pub const VEL_Y_CAP: i64 = 1_000_000_000;

/// Cap on horizontal speed (micro-units per millisecond; 360 units per
/// second, the largest launch speed any pipe can give).
pub const VEL_X_CAP: i64 = 360_000;

/// Cap on rotational speed (micro-radians per millisecond).
pub const ROT_VEL_CAP: i64 = 300_000;

/// A falling polygon instance.
#[derive(Clone, Copy, PartialEq, Eq, Structural, Debug)]
pub struct Shape {
    /// Horizontal position, micro-units.
    pub x: i64,
    /// Vertical position, micro-units; grows downward.
    pub y: i64,
    /// Horizontal velocity, micro-units per millisecond.
    pub vel_x: i64,
    /// Vertical velocity, micro-units per millisecond.
    pub vel_y: i64,
    /// Rotation, micro-radians.
    pub rot: i64,
    /// Rotational velocity, micro-radians per millisecond.
    pub rot_vel: i64,
    /// Number of sides; at least 3.
    pub sides: i32,
    pub color: ShapeColor,
    /// Idempotency guard of the laser mutation: 0 or 1.
    pub laser_cuts: i32,
}

/// A spawn source.
#[derive(Clone, Copy, PartialEq, Eq, Structural, Debug)]
pub struct GamePipe {
    /// Side count of the shapes this pipe drops; fixed per slot.
    pub sides: i32,
    /// Cosmetic color of the pipe itself.
    pub color: ShapeColor,
    /// Speed level, at least 1; recomputed each tick from owned upgrades.
    pub speed: u64,
    /// Accumulated time since the last drop, milliseconds; carries the
    /// fractional remainder of a drop across ticks.
    pub last_drop: u64,
}

/// The aggregate root of the simulation.
pub struct GameState {
    pub pipes: Vec<GamePipe>,
    pub shapes: Vec<Shape>,
    /// Timestamp of the previous tick, milliseconds; 0 before the first.
    pub last_tick: u64,
    pub score: BigInt,
    /// The owned-upgrade set; append-only, duplicate-free.
    pub upgrades: Vec<Upgrade>,
    /// The offered list of the most recent tick, price-ascending.
    pub available_upgrades: Vec<PurchasableUpgrade>,
    /// Pending click; `(0, 0)` is the "no click queued" sentinel, so a
    /// genuine click on the top-left pixel is indistinguishable from no
    /// click. The display collaborator never places a button there.
    pub mouse_click_x: i32,
    pub mouse_click_y: i32,
}

pub open spec fn wf_shape(s: Shape) -> bool {
    &&& 3 <= s.sides <= 6 + s.laser_cuts
    &&& 0 <= s.laser_cuts <= 1
    &&& 0 <= s.y <= REMOVE_LINE_Y
    &&& LAUNCH_VEL_Y <= s.vel_y <= VEL_Y_CAP
    &&& -VEL_X_CAP <= s.vel_x <= VEL_X_CAP
    &&& -(100_000_000 + 2 * s.y) <= s.x <= 100_000_000 + 2 * s.y
    &&& 0 <= s.rot <= 2_000_000_000 + s.y
    &&& 0 <= s.rot_vel <= ROT_VEL_CAP
}

pub open spec fn wf_pipe(p: GamePipe, slot: int) -> bool {
    &&& p.sides == 3 + slot
    &&& 1 <= p.speed <= 40
    &&& p.last_drop <= 5000
}

/// Which pipe-unlock upgrade gates the existence of pipe slot `i`
/// (0-based); slot 0 is pre-owned.
pub open spec fn pipe_unlock_owned(s: GameState, i: int) -> bool {
    if i == 1 {
        s.upgrades@.contains(Upgrade::Pipe2)
    } else if i == 2 {
        s.upgrades@.contains(Upgrade::Pipe3)
    } else if i == 3 {
        s.upgrades@.contains(Upgrade::Pipe4)
    } else {
        true
    }
}

pub open spec fn wf_state(s: GameState) -> bool {
    &&& 1 <= s.pipes@.len() <= 4
    &&& forall|i: int| 0 <= i < s.pipes@.len() ==> wf_pipe(#[trigger] s.pipes@[i], i)
    &&& forall|i: int| 0 <= i < s.pipes@.len() ==> pipe_unlock_owned(s, i)
    &&& forall|i: int| 0 <= i < s.shapes@.len() ==> wf_shape(#[trigger] s.shapes@[i])
    &&& forall|i: int| 0 <= i < s.upgrades@.len() ==> valid_upgrade(#[trigger] s.upgrades@[i])
    &&& forall|i: int, j: int|
        0 <= i < j < s.upgrades@.len() ==> s.upgrades@[i] != s.upgrades@[j]
    &&& s.upgrades@.contains(Upgrade::Pipe3) ==> s.upgrades@.contains(Upgrade::Pipe2)
    &&& s.upgrades@.contains(Upgrade::Pipe4) ==> s.upgrades@.contains(Upgrade::Pipe3)
    &&& big_value(s.score) >= 0
}

/// Well-formedness is a property of the pipes, the shapes, the owned
/// set and the score alone: it carries over to any state whose pipes
/// and owned set agree with a well-formed one, whose shapes agree or
/// are themselves well formed, and whose score is non-negative.
pub proof fn lemma_wf_state_frame(a: GameState, b: GameState)
    requires
        wf_state(a),
        b.pipes@ == a.pipes@,
        b.upgrades@ == a.upgrades@,
        b.shapes@ == a.shapes@ || (forall|i: int|
            0 <= i < b.shapes@.len() ==> wf_shape(#[trigger] b.shapes@[i])),
        big_value(b.score) >= 0,
    ensures
        wf_state(b),
{
    if b.shapes@ == a.shapes@ {
        assert forall|i: int| 0 <= i < b.shapes@.len() implies wf_shape(
            #[trigger] b.shapes@[i],
        ) by {
            assert(wf_shape(a.shapes@[i]));
        }
    }
    assert forall|i: int| 0 <= i < b.pipes@.len() implies wf_pipe(#[trigger] b.pipes@[i], i) by {
        assert(wf_pipe(a.pipes@[i], i));
    }
    assert forall|i: int| 0 <= i < b.pipes@.len() implies pipe_unlock_owned(b, i) by {
        assert(pipe_unlock_owned(a, i));
    }
    assert forall|i: int| 0 <= i < b.upgrades@.len() implies valid_upgrade(
        #[trigger] b.upgrades@[i],
    ) by {
        assert(valid_upgrade(a.upgrades@[i]));
    }
}

/// A pipe exists only while its unlock upgrade is owned: in every
/// well-formed state the second pipe's presence implies `Pipe2` is
/// owned, and likewise for the third and fourth, however much time has
/// elapsed.
pub proof fn lemma_pipes_gated(s: GameState)
    requires
        wf_state(s),
    ensures
        s.pipes@.len() >= 2 ==> s.upgrades@.contains(Upgrade::Pipe2),
        s.pipes@.len() >= 3 ==> s.upgrades@.contains(Upgrade::Pipe3),
        s.pipes@.len() >= 4 ==> s.upgrades@.contains(Upgrade::Pipe4),
{
    if s.pipes@.len() >= 2 {
        assert(pipe_unlock_owned(s, 1));
    }
    if s.pipes@.len() >= 3 {
        assert(pipe_unlock_owned(s, 2));
    }
    if s.pipes@.len() >= 4 {
        assert(pipe_unlock_owned(s, 3));
    }
}

/// The starting state: one triangle pipe, nothing owned, score zero, no
/// click queued.
pub fn initial_state() -> (r: GameState)
    ensures
        wf_state(r),
        r.pipes@.len() == 1,
        r.pipes@[0].sides == 3,
        r.pipes@[0].color == ShapeColor::Gray,
        r.pipes@[0].speed == 1,
        r.pipes@[0].last_drop == 0,
        r.shapes@.len() == 0,
        r.last_tick == 0,
        big_value(r.score) == 0,
        r.upgrades@.len() == 0,
        r.available_upgrades@.len() == 0,
        r.mouse_click_x == 0,
        r.mouse_click_y == 0,
{
    let pipes: Vec<GamePipe> = vec![
        GamePipe { sides: 3, color: ShapeColor::Gray, speed: 1, last_drop: 0 },
    ];
    GameState {
        pipes,
        shapes: Vec::new(),
        last_tick: 0,
        score: big_from_u64(0),
        upgrades: Vec::new(),
        available_upgrades: Vec::new(),
        mouse_click_x: 0,
        mouse_click_y: 0,
    }
}

} // verus!
