use num::bigint::BigInt;

use geometric_plumber::catalog::build_catalog;
use geometric_plumber::color::ShapeColor;
use geometric_plumber::state::initial_state;
use geometric_plumber::tick::upgrade_tick;
use geometric_plumber::unlock::unlock_upgrades_tick;
use geometric_plumber::upgrades::HasPipe;
use geometric_plumber::upgrades::HasUpgrade;
use geometric_plumber::upgrades::Upgrade;
use geometric_plumber::upgrades::contains_upgrade;
use geometric_plumber::purchase::upgrade_purchase_tick;
use geometric_plumber::pipe::pipe_tick;

#[test]
fn catalog_has_every_entry() {
    let catalog = build_catalog();
    // 3 pipe unlocks + 1 laser + 4 slots * 5 colors + 4 slots * 40 speeds.
    assert_eq!(catalog.len(), 184);
}

#[test]
fn catalog_prices_match_the_formulas() {
    let catalog = build_catalog();
    // The fixed entries.
    assert_eq!(catalog[0].upgrade, Upgrade::Pipe2);
    assert_eq!(catalog[0].price, BigInt::from(10_000u64));
    assert_eq!(catalog[1].price, BigInt::from(10_000_000u64));
    assert_eq!(catalog[2].price, BigInt::from(10_000_000_000u64));
    assert_eq!(catalog[3].upgrade, Upgrade::ShapeLaser(1));
    assert_eq!(catalog[3].price, BigInt::from(500_000_000_000_000_000u64));
    // First color of slot 1: 100^1 + 700.
    assert_eq!(catalog[4].upgrade, Upgrade::Pipe1Color(ShapeColor::Red));
    assert_eq!(catalog[4].price, BigInt::from(800u64));
    // Second color of slot 1: 100^2 + 700.
    assert_eq!(catalog[5].upgrade, Upgrade::Pipe1Color(ShapeColor::Green));
    assert_eq!(catalog[5].price, BigInt::from(10_700u64));
    // First color of slot 2 carries the 50 000 base.
    assert_eq!(catalog[9].upgrade, Upgrade::Pipe2Color(ShapeColor::Red));
    assert_eq!(catalog[9].price, BigInt::from(40_000_000u64));
    // Speed level 1 of slot 1: floor(12 * 3.2) + 40 + 10.
    assert_eq!(catalog[24].upgrade, Upgrade::Pipe1Speed(1));
    assert_eq!(catalog[24].price, BigInt::from(88u64));
    // Speed level 2 of slot 1: floor(12 * 3.2^2) + 40 + 40.
    assert_eq!(catalog[25].upgrade, Upgrade::Pipe1Speed(2));
    assert_eq!(catalog[25].price, BigInt::from(202u64));
}

#[test]
fn offered_list_is_sorted_and_never_holds_owned_upgrades() {
    let catalog = build_catalog();
    let mut state = initial_state();
    unlock_upgrades_tick(&mut state, &catalog);
    // From a fresh state, exactly the two ungated entries are offered:
    // speed level 1 and the first color of pipe 1.
    assert_eq!(state.available_upgrades.len(), 2);
    assert_eq!(state.available_upgrades[0].upgrade, Upgrade::Pipe1Speed(1));
    assert_eq!(state.available_upgrades[1].upgrade, Upgrade::Pipe1Color(ShapeColor::Red));
    for w in state.available_upgrades.windows(2) {
        assert!(w[0].price <= w[1].price);
    }
    // Owning one removes it from the next evaluation and reveals its
    // successor.
    state.upgrades.push(Upgrade::Pipe1Speed(1));
    unlock_upgrades_tick(&mut state, &catalog);
    for e in &state.available_upgrades {
        assert_ne!(e.upgrade, Upgrade::Pipe1Speed(1));
    }
    assert!(state
        .available_upgrades
        .iter()
        .any(|e| e.upgrade == Upgrade::Pipe1Speed(2)));
    for w in state.available_upgrades.windows(2) {
        assert!(w[0].price <= w[1].price);
    }
}

#[test]
fn purchase_is_rejected_when_the_price_exceeds_the_score() {
    let catalog = build_catalog();
    let mut state = initial_state();
    // Click the first buy button: its entry costs 88, the score is 0.
    state.mouse_click_x = 1210;
    state.mouse_click_y = 120;
    upgrade_tick(&mut state, &catalog);
    assert_eq!(state.score, BigInt::from(0u64));
    assert!(state.upgrades.is_empty());
    assert_eq!(state.mouse_click_x, 0);
    assert_eq!(state.mouse_click_y, 0);
}

#[test]
fn purchase_debits_exactly_and_grants_the_upgrade() {
    let catalog = build_catalog();
    let mut state = initial_state();
    state.score = BigInt::from(100u64);
    // The cheapest offer from a fresh state is speed level 1 at 88.
    state.mouse_click_x = 1210;
    state.mouse_click_y = 120;
    upgrade_tick(&mut state, &catalog);
    assert_eq!(state.score, BigInt::from(12u64));
    assert_eq!(state.upgrades, vec![Upgrade::Pipe1Speed(1)]);
}

#[test]
fn click_outside_every_button_buys_nothing() {
    let catalog = build_catalog();
    let mut state = initial_state();
    state.score = BigInt::from(1_000_000u64);
    state.mouse_click_x = 600;
    state.mouse_click_y = 120;
    upgrade_tick(&mut state, &catalog);
    assert_eq!(state.score, BigInt::from(1_000_000u64));
    assert!(state.upgrades.is_empty());
}

#[test]
fn consumed_click_acts_only_once() {
    let catalog = build_catalog();
    let mut state = initial_state();
    state.score = BigInt::from(1_000u64);
    state.mouse_click_x = 1210;
    state.mouse_click_y = 120;
    unlock_upgrades_tick(&mut state, &catalog);
    upgrade_purchase_tick(&mut state);
    let owned_after_one = state.upgrades.clone();
    let score_after_one = state.score.clone();
    // The click was cleared; running the handler again changes nothing.
    upgrade_purchase_tick(&mut state);
    assert_eq!(state.upgrades, owned_after_one);
    assert_eq!(state.score, score_after_one);
}

#[test]
fn progression_unlocks_the_second_pipe_through_purchases() {
    let catalog = build_catalog();
    let mut state = initial_state();
    state.score = BigInt::from(1_000_000u64);
    // The first three speed levels are each the cheapest offer in turn.
    for expected in [
        Upgrade::Pipe1Speed(1),
        Upgrade::Pipe1Speed(2),
        Upgrade::Pipe1Speed(3),
    ] {
        state.mouse_click_x = 1210;
        state.mouse_click_y = 120;
        upgrade_tick(&mut state, &catalog);
        assert!(state.upgrades.contains(&expected));
    }
    // With speed 3 owned the square pipe is offered, sorted into the
    // third row after the first color and the next speed level.
    state.mouse_click_x = 1210;
    state.mouse_click_y = 112 + 2 * 48 + 10;
    upgrade_tick(&mut state, &catalog);
    assert!(state.upgrades.contains(&Upgrade::Pipe2));
    assert_eq!(state.score, BigInt::from(989_187u64));
    // The pipe itself appears on the next scheduler pass.
    assert_eq!(state.pipes.len(), 1);
    pipe_tick(&mut state, 0);
    assert_eq!(state.pipes.len(), 2);
}

#[test]
fn requirement_constructors_hold_their_values() {
    let hp = HasPipe::new(3);
    assert_eq!(hp.pipe, 3);
    let hu = HasUpgrade::new(Upgrade::Pipe2);
    assert_eq!(hu.required_upgrade, Upgrade::Pipe2);
}

#[test]
fn ownership_test_is_exact_value_equality() {
    let owned = vec![Upgrade::Pipe1Speed(2), Upgrade::Pipe1Color(ShapeColor::Red)];
    assert!(contains_upgrade(&owned, Upgrade::Pipe1Speed(2)));
    assert!(!contains_upgrade(&owned, Upgrade::Pipe1Speed(3)));
    assert!(!contains_upgrade(&owned, Upgrade::Pipe2Color(ShapeColor::Red)));
}
