//! The purchase handler: consumes the queued click at most once per tick,
//! maps it to an offered-list slot with the same layout arithmetic the
//! display uses, and atomically debits the score and grants the upgrade.
//! A miss, insufficient funds, or no queued click is a no-op.

use vstd::prelude::*;

use vstd::arithmetic::div_mod::lemma_fundamental_div_mod;
use vstd::arithmetic::div_mod::lemma_fundamental_div_mod_converse;

use crate::currency::big_value;
use crate::currency::big_le;
use crate::currency::big_sub;
use crate::state::GameState;
use crate::state::wf_state;
use crate::state::wf_pipe;
use crate::state::wf_shape;
use crate::state::pipe_unlock_owned;
use crate::state::lemma_wf_state_frame;
use crate::unlock::offered_entry_ok;
use crate::upgrades::Upgrade;
use crate::upgrades::Requirement;
use crate::upgrades::HasPipe;
use crate::upgrades::PurchasableUpgrade;
use crate::upgrades::valid_upgrade;
use crate::upgrades::spec_requirement_met;
use crate::catalog::spec_reqs_of;

verus! {

/// Left edge of the buy buttons; the display draws them at a fixed
/// offset from the right edge of the screen.
pub const BUTTON_X: i32 = 1208;

/// Button width, height, and the vertical origin and stride of the rows.
pub const BUTTON_W: i32 = 50;

pub const BUTTON_H: i32 = 36;

pub const BUTTON_Y0: i32 = 112;

pub const BUTTON_STRIDE: i32 = 48;

/// The offered-list row a click lands on, by the same layout formula the
/// display uses, or `None` where it hits no button rectangle.
pub open spec fn spec_clicked_slot(x: int, y: int) -> Option<int> {
    if BUTTON_X <= x < BUTTON_X + BUTTON_W && y >= BUTTON_Y0 && (y - BUTTON_Y0) % (
    BUTTON_STRIDE as int) < BUTTON_H {
        Some((y - BUTTON_Y0) / (BUTTON_STRIDE as int))
    } else {
        None
    }
}

/// Every entry of the offered list is sound against the current state.
pub open spec fn available_ok(s: GameState) -> bool {
    forall|j: int|
        0 <= j < s.available_upgrades@.len() ==> offered_entry_ok(
            #[trigger] s.available_upgrades@[j],
            s.upgrades@,
            s.pipes@.len() as int,
        )
}

/// The exact effect of consuming one queued click against an offered
/// list: with no click queued (the `(0, 0)` sentinel), or a miss, or an
/// unaffordable entry, the owned set and the score are unchanged;
/// where the click hits the button of entry `i` and its price is within
/// the score, the score drops by exactly that price and the entry's
/// upgrade is appended to the owned set.
pub open spec fn spec_purchase_outcome(
    avail: Seq<PurchasableUpgrade>,
    click_x: int,
    click_y: int,
    owned0: Seq<Upgrade>,
    score0: int,
    owned1: Seq<Upgrade>,
    score1: int,
) -> bool {
    if click_x == 0 && click_y == 0 {
        owned1 == owned0 && score1 == score0
    } else {
        match spec_clicked_slot(click_x, click_y) {
            Some(i) => {
                if 0 <= i < avail.len() && big_value(avail[i].price) <= score0 {
                    score1 == score0 - big_value(avail[i].price) && owned1 == owned0.push(
                        avail[i].upgrade,
                    )
                } else {
                    owned1 == owned0 && score1 == score0
                }
            },
            None => owned1 == owned0 && score1 == score0,
        }
    }
}

/// Maps a click to the index of the offered entry whose button contains
/// it, scanning the rows exactly as the display lays them out.
pub fn upgrade_from_coordinates(state: &GameState, x: i32, y: i32) -> (r: Option<usize>)
    ensures
        match r {
            Some(i) => 0 <= i < state.available_upgrades@.len() && spec_clicked_slot(
                x as int,
                y as int,
            ) == Some(i as int),
            None => forall|i: int|
                0 <= i < state.available_upgrades@.len() ==> spec_clicked_slot(x as int, y as int)
                    != Some(i),
        },
{
    let n = state.available_upgrades.len();
    let mut i: usize = 0;
    while i < n
        invariant
            n == state.available_upgrades@.len(),
            i <= n,
            forall|j: int| 0 <= j < i ==> spec_clicked_slot(x as int, y as int) != Some(j),
        decreases n - i,
    {
        if i <= 50_000_000 {
            let button_y: i64 = 112 + (i as i64) * 48;
            let hit = BUTTON_X <= x && x < BUTTON_X + BUTTON_W && button_y <= (y as i64) && (
            y as i64) < button_y + (BUTTON_H as i64);
            proof {
                if hit {
                    lemma_fundamental_div_mod_converse(
                        y - BUTTON_Y0,
                        BUTTON_STRIDE as int,
                        i as int,
                        y - BUTTON_Y0 - (i as int) * (BUTTON_STRIDE as int),
                    );
                    assert(spec_clicked_slot(x as int, y as int) == Some(i as int));
                } else {
                    if BUTTON_X <= x < BUTTON_X + BUTTON_W && y >= BUTTON_Y0 && (y - BUTTON_Y0) % (
                    BUTTON_STRIDE as int) < BUTTON_H && (y - BUTTON_Y0) / (BUTTON_STRIDE as int)
                        == i {
                        lemma_fundamental_div_mod_converse(
                            y - BUTTON_Y0,
                            BUTTON_STRIDE as int,
                            (y - BUTTON_Y0) / (BUTTON_STRIDE as int),
                            (y - BUTTON_Y0) % (BUTTON_STRIDE as int),
                        );
                        assert(false);
                    }
                    assert(spec_clicked_slot(x as int, y as int) != Some(i as int));
                }
            }
            if hit {
                return Some(i);
            }
        } else {
            proof {
                // A row this far down starts beyond any representable
                // click coordinate, so it cannot be hit.
                if spec_clicked_slot(x as int, y as int) == Some(i as int) {
                    lemma_fundamental_div_mod(y - BUTTON_Y0, BUTTON_STRIDE as int);
                    assert(y - BUTTON_Y0 >= (BUTTON_STRIDE as int) * (i as int));
                    assert(false);
                }
            }
        }
        i += 1;
    }
    None
}

/// Attempts the purchase a click asks for: where the click hits the
/// button of an offered entry whose price is within the score, the score
/// is debited by exactly that price and the upgrade appended to the
/// owned set; otherwise nothing changes.
pub fn on_upgrade_clicked(state: &mut GameState, x: i32, y: i32)
    requires
        wf_state(*old(state)),
        available_ok(*old(state)),
    ensures
        wf_state(*final(state)),
        final(state).pipes@ == old(state).pipes@,
        final(state).shapes@ == old(state).shapes@,
        final(state).last_tick == old(state).last_tick,
        final(state).available_upgrades@ == old(state).available_upgrades@,
        final(state).mouse_click_x == old(state).mouse_click_x,
        final(state).mouse_click_y == old(state).mouse_click_y,
        big_value(final(state).score) >= 0,
        ({
            let avail = old(state).available_upgrades@;
            match spec_clicked_slot(x as int, y as int) {
                Some(i) => {
                    if 0 <= i < avail.len() && big_value(avail[i].price) <= big_value(
                        old(state).score,
                    ) {
                        big_value(final(state).score) == big_value(old(state).score) - big_value(
                            avail[i].price,
                        ) && final(state).upgrades@ == old(state).upgrades@.push(avail[i].upgrade)
                    } else {
                        big_value(final(state).score) == big_value(old(state).score) && final(state).upgrades@ == old(state).upgrades@
                    }
                },
                None => big_value(final(state).score) == big_value(old(state).score) && final(state).upgrades@ == old(state).upgrades@,
            }
        }),
{
    let hit = upgrade_from_coordinates(state, x, y);
    match hit {
        Some(i) => {
            let affordable = big_le(&state.available_upgrades[i].price, &state.score);
            if affordable {
                let u = state.available_upgrades[i].upgrade;
                let ns = big_sub(&state.score, &state.available_upgrades[i].price);
                state.score = ns;
                let ghost owned_pre = state.upgrades@;
                state.upgrades.push(u);
                proof {
                    let s = *state;
                    assert(offered_entry_ok(
                        old(state).available_upgrades@[i as int],
                        old(state).upgrades@,
                        old(state).pipes@.len() as int,
                    ));
                    assert forall|a: int, b: int|
                        0 <= a < b < s.upgrades@.len() implies s.upgrades@[a] != s.upgrades@[b] by {
                        if b < owned_pre.len() {
                        } else {
                            assert(s.upgrades@[b] == u);
                            assert(!owned_pre.contains(u));
                            assert(s.upgrades@[a] == owned_pre[a]);
                        }
                    }
                    assert forall|a: int| 0 <= a < s.upgrades@.len() implies valid_upgrade(
                        #[trigger] s.upgrades@[a],
                    ) by {
                        if a < owned_pre.len() {
                            assert(valid_upgrade(owned_pre[a]));
                        }
                    }
                    assert forall|w: Upgrade| owned_pre.contains(w) implies s.upgrades@.contains(
                        w,
                    ) by {
                        let q = choose|q: int| 0 <= q < owned_pre.len() && owned_pre[q] == w;
                        assert(s.upgrades@[q] == w);
                    }
                    assert forall|w: Upgrade| s.upgrades@.contains(w) implies owned_pre.contains(w)
                        || w == u by {
                        let q = choose|q: int| 0 <= q < s.upgrades@.len() && s.upgrades@[q] == w;
                        if q < owned_pre.len() {
                            assert(owned_pre[q] == w);
                        }
                    }
                    if u == Upgrade::Pipe3 {
                        assert(spec_reqs_of(Upgrade::Pipe3)[0] == Requirement::Pipe(
                            HasPipe { pipe: 2 },
                        ));
                        assert(spec_requirement_met(
                            Requirement::Pipe(HasPipe { pipe: 2 }),
                            owned_pre,
                            old(state).pipes@.len() as int,
                        ));
                        assert(old(state).pipes@.len() >= 2);
                        assert(pipe_unlock_owned(*old(state), 1));
                    }
                    if u == Upgrade::Pipe4 {
                        assert(spec_reqs_of(Upgrade::Pipe4)[0] == Requirement::Pipe(
                            HasPipe { pipe: 3 },
                        ));
                        assert(spec_requirement_met(
                            Requirement::Pipe(HasPipe { pipe: 3 }),
                            owned_pre,
                            old(state).pipes@.len() as int,
                        ));
                        assert(old(state).pipes@.len() >= 3);
                        assert(pipe_unlock_owned(*old(state), 2));
                    }
                    assert forall|j: int| 0 <= j < s.pipes@.len() implies pipe_unlock_owned(
                        s,
                        j,
                    ) by {
                        assert(pipe_unlock_owned(*old(state), j));
                    }
                    assert forall|j: int| 0 <= j < s.pipes@.len() implies wf_pipe(
                        #[trigger] s.pipes@[j],
                        j,
                    ) by {
                        assert(wf_pipe(old(state).pipes@[j], j));
                    }
                    assert forall|j: int| 0 <= j < s.shapes@.len() implies wf_shape(
                        #[trigger] s.shapes@[j],
                    ) by {
                        assert(wf_shape(old(state).shapes@[j]));
                    }
                }
            }
        },
        None => {},
    }
}

/// Consumes the pending click, if one is queued, and routes it to the
/// purchase attempt. `(0, 0)` is the "no click" sentinel, so a real
/// click on that exact pixel is ignored; the display never puts a
/// button there.
pub fn upgrade_purchase_tick(state: &mut GameState)
    requires
        wf_state(*old(state)),
        available_ok(*old(state)),
    ensures
        wf_state(*final(state)),
        final(state).pipes@ == old(state).pipes@,
        final(state).shapes@ == old(state).shapes@,
        final(state).last_tick == old(state).last_tick,
        final(state).available_upgrades@ == old(state).available_upgrades@,
        final(state).mouse_click_x == 0,
        final(state).mouse_click_y == 0,
        big_value(final(state).score) >= 0,
        spec_purchase_outcome(
            old(state).available_upgrades@,
            old(state).mouse_click_x as int,
            old(state).mouse_click_y as int,
            old(state).upgrades@,
            big_value(old(state).score),
            final(state).upgrades@,
            big_value(final(state).score),
        ),
{
    if state.mouse_click_x != 0 || state.mouse_click_y != 0 {
        let x = state.mouse_click_x;
        let y = state.mouse_click_y;
        state.mouse_click_x = 0;
        state.mouse_click_y = 0;
        proof {
            lemma_wf_state_frame(*old(state), *state);
        }
        on_upgrade_clicked(state, x, y);
    }
}

} // verus!
