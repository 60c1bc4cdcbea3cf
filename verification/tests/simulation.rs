use num::bigint::BigInt;

use geometric_plumber::catalog::build_catalog;
use geometric_plumber::color::ShapeColor;
use geometric_plumber::pipe::drop_delay;
use geometric_plumber::pipe::pipe_tick;
use geometric_plumber::shape::shape_price;
use geometric_plumber::shape::shape_tick;
use geometric_plumber::state::initial_state;
use geometric_plumber::state::GamePipe;
use geometric_plumber::state::Shape;
use geometric_plumber::tick::tick;
use geometric_plumber::upgrades::Upgrade;

fn test_shape(y: i64, vel_y: i64) -> Shape {
    Shape {
        x: 100_000_000,
        y,
        vel_x: 0,
        vel_y,
        rot: 0,
        rot_vel: 100,
        sides: 3,
        color: ShapeColor::Gray,
        laser_cuts: 0,
    }
}

#[test]
fn zero_duration_ticks_leave_shapes_unchanged() {
    let catalog = build_catalog();
    let mut state = initial_state();
    state.last_tick = 1000;
    // 5000 ms across two ticks: the drop fires on the second, and the
    // fresh shape only falls for its last second.
    tick(&mut state, &catalog, 5000);
    tick(&mut state, &catalog, 6000);
    assert_eq!(state.shapes.len(), 1);
    let snapshot = state.shapes.clone();
    for _ in 0..5 {
        tick(&mut state, &catalog, 6000);
        assert_eq!(state.shapes, snapshot);
    }
}

#[test]
fn gray_triangle_is_worth_thirty() {
    let s = test_shape(100_000_000, 300_000);
    assert_eq!(shape_price(&s), BigInt::from(30u64));
}

#[test]
fn red_square_value_follows_the_formula() {
    let mut s = test_shape(100_000_000, 300_000);
    s.sides = 4;
    s.color = ShapeColor::Red;
    // (500^2 - 470) * 10
    assert_eq!(shape_price(&s), BigInt::from(2_495_300u64));
}

#[test]
fn dead_color_is_worth_nothing() {
    let mut s = test_shape(100_000_000, 300_000);
    s.color = ShapeColor::Other;
    assert_eq!(shape_price(&s), BigInt::from(0u64));
}

#[test]
fn drop_delay_at_speed_one_is_five_seconds() {
    let pipe = GamePipe { sides: 3, color: ShapeColor::Gray, speed: 1, last_drop: 0 };
    assert_eq!(drop_delay(&pipe), 5000);
}

#[test]
fn one_drop_every_five_seconds_at_speed_one() {
    let mut state = initial_state();
    // 4999 ms: no drop yet.
    pipe_tick(&mut state, 4999);
    assert_eq!(state.shapes.len(), 0);
    assert_eq!(state.pipes[0].last_drop, 4999);
    // One more millisecond completes the 5000 ms cycle: exactly one drop,
    // with the accumulator back at zero.
    pipe_tick(&mut state, 1);
    assert_eq!(state.shapes.len(), 1);
    assert_eq!(state.pipes[0].last_drop, 0);
    // Ten seconds at once: two whole drops.
    pipe_tick(&mut state, 10_000);
    assert_eq!(state.shapes.len(), 3);
    assert_eq!(state.pipes[0].last_drop, 0);
}

#[test]
fn speed_upgrades_shorten_the_drop_cycle() {
    let mut state = initial_state();
    state.upgrades.push(Upgrade::Pipe1Speed(2));
    // The recomputed speed takes effect in the same tick: at level 2 the
    // cycle is 1723 ms.
    pipe_tick(&mut state, 1723);
    assert_eq!(state.pipes[0].speed, 2);
    assert_eq!(state.shapes.len(), 1);
    assert_eq!(state.pipes[0].last_drop, 0);
}

#[test]
fn pipe_two_never_appears_without_its_upgrade() {
    let catalog = build_catalog();
    let mut state = initial_state();
    let mut now = 1000u64;
    state.last_tick = now;
    for _ in 0..50 {
        now += 60_000;
        tick(&mut state, &catalog, now);
        assert_eq!(state.pipes.len(), 1);
    }
}

#[test]
fn owned_pipe_two_upgrade_adds_the_square_pipe() {
    let catalog = build_catalog();
    let mut state = initial_state();
    state.upgrades.push(Upgrade::Pipe2);
    state.last_tick = 1000;
    tick(&mut state, &catalog, 1001);
    assert_eq!(state.pipes.len(), 2);
    assert_eq!(state.pipes[1].sides, 4);
    assert_eq!(state.pipes[1].speed, 1);
}

#[test]
fn crossing_the_bottom_credits_exactly_once() {
    let mut state = initial_state();
    // Gray triangle just above the boundary, falling fast enough to
    // cross it within one second.
    state.shapes.push(test_shape(800_000_000, 300_000));
    shape_tick(&mut state, 1000);
    assert_eq!(state.shapes.len(), 0);
    assert_eq!(state.score, BigInt::from(30u64));
    // Nothing left to credit on the next tick.
    shape_tick(&mut state, 1000);
    assert_eq!(state.score, BigInt::from(30u64));
}

#[test]
fn laser_cuts_a_shape_at_most_once() {
    let mut state = initial_state();
    state.upgrades.push(Upgrade::ShapeLaser(1));
    state.shapes.push(test_shape(600_000_000, 300_000));
    shape_tick(&mut state, 0);
    assert_eq!(state.shapes[0].sides, 4);
    assert_eq!(state.shapes[0].laser_cuts, 1);
    // The shape stays past the threshold, yet is never cut again.
    shape_tick(&mut state, 0);
    shape_tick(&mut state, 0);
    assert_eq!(state.shapes[0].sides, 4);
    assert_eq!(state.shapes[0].laser_cuts, 1);
}

#[test]
fn shape_above_threshold_is_not_cut_without_the_laser() {
    let mut state = initial_state();
    state.shapes.push(test_shape(600_000_000, 300_000));
    shape_tick(&mut state, 0);
    assert_eq!(state.shapes[0].sides, 3);
    assert_eq!(state.shapes[0].laser_cuts, 0);
}

#[test]
fn five_accumulated_seconds_drop_one_gray_triangle() {
    let catalog = build_catalog();
    let mut state = initial_state();
    state.last_tick = 1000;
    tick(&mut state, &catalog, 5000);
    assert_eq!(state.shapes.len(), 0);
    tick(&mut state, &catalog, 6000);
    assert_eq!(state.shapes.len(), 1);
    assert_eq!(state.shapes[0].sides, 3);
    assert_eq!(state.shapes[0].color, ShapeColor::Gray);
    assert_eq!(state.shapes[0].laser_cuts, 0);
    assert_eq!(state.score, BigInt::from(0u64));
    assert_eq!(state.last_tick, 6000);
}

#[test]
fn one_long_tick_credits_its_drop_at_the_bottom() {
    // A single 5000 ms tick spawns the drop and then integrates it over
    // the same 5000 ms, carrying it past the bottom boundary: the shape
    // is gone but its value is credited exactly once.
    let catalog = build_catalog();
    let mut state = initial_state();
    state.last_tick = 1000;
    tick(&mut state, &catalog, 6000);
    assert_eq!(state.shapes.len(), 0);
    assert_eq!(state.score, BigInt::from(30u64));
}

#[test]
fn unlocked_color_adds_one_shape_per_drop() {
    let catalog = build_catalog();
    let mut state = initial_state();
    state.upgrades.push(Upgrade::Pipe1Color(ShapeColor::Red));
    state.last_tick = 1000;
    tick(&mut state, &catalog, 5000);
    tick(&mut state, &catalog, 6000);
    assert_eq!(state.shapes.len(), 2);
    assert_eq!(state.shapes[0].color, ShapeColor::Gray);
    assert_eq!(state.shapes[1].color, ShapeColor::Red);
}

#[test]
fn spawned_shape_fields_follow_the_pipe() {
    let mut state = initial_state();
    pipe_tick(&mut state, 5000);
    assert_eq!(state.shapes.len(), 1);
    let s = &state.shapes[0];
    // Slot 0 spawns at x = 63 units with at most 10 units of jitter,
    // y = 210 units, falling at 300 units per second.
    assert!(53_000_000 <= s.x && s.x <= 73_000_000);
    assert_eq!(s.y, 210_000_000);
    assert_eq!(s.vel_y, 300_000);
    assert!(s.vel_x.abs() <= 1500);
    assert!(0 <= s.rot && s.rot <= 1_130_973_355);
    assert_eq!(s.rot_vel, 100);
}

#[test]
fn bootstrap_tick_uses_the_nominal_delta() {
    let catalog = build_catalog();
    let mut state = initial_state();
    tick(&mut state, &catalog, 1_000_000_000);
    // 33 ms of fall: no drop yet, and the accumulator holds exactly 33.
    assert_eq!(state.shapes.len(), 0);
    assert_eq!(state.pipes[0].last_drop, 33);
    assert_eq!(state.last_tick, 1_000_000_000);
}
