//! The tick orchestrator: one full simulation step per frame, in fixed
//! order — pipe scheduling, shape physics, unlock evaluation, purchase —
//! driven by a wall-clock timestamp. The very first tick uses a nominal
//! frame duration instead of a real delta, since there is no prior
//! timestamp.

use vstd::prelude::*;

use crate::catalog::catalog_wf;
use crate::currency::big_value;
use crate::pipe::pipe_tick;
use crate::pipe::spec_drop_delay;
use crate::pipe::spec_max_speed;
use crate::pipe::spec_pipe_count_after;
use crate::pipe::spec_new_acc;
use crate::pipe::spec_sped_pipe;
use crate::pipe::spec_sped_pipes;
use crate::pipe::spec_drop_count;
use crate::pipe::spec_unlocked_colors;
use crate::pipe::spec_spawned_total;
use crate::pipe::spawned_ok;
use crate::pipe::lemma_spawned_total_nonneg;
use crate::pipe::lemma_spawned_total_mono;
use crate::purchase::upgrade_purchase_tick;
use crate::purchase::available_ok;
use crate::purchase::spec_purchase_outcome;
use crate::shape::shape_tick;
use crate::shape::spec_cut;
use crate::shape::spec_moved_all;
use crate::shape::spec_surviving;
use crate::shape::spec_credited;
use crate::shape::lemma_zero_dt_shapes_unchanged;
use crate::state::GameState;
use crate::state::Shape;
use crate::state::wf_state;
use crate::state::lemma_wf_state_frame;
use crate::state::wf_shape;
use crate::state::DT_MAX_MS;
use crate::unlock::unlock_upgrades_tick;
use crate::unlock::sorted_by_price;
use crate::unlock::offered_entry_ok;
use crate::unlock::spec_models;
use crate::unlock::spec_offered_entries;
use crate::upgrades::Upgrade;
use crate::upgrades::PurchasableUpgrade;

verus! {

/// The nominal duration of the bootstrap tick, milliseconds.
pub const FIRST_TICK_DT_MS: u64 = 33;

/// No pipe owes a drop: every accumulator is strictly below the delay of
/// the speed the recomputation will give it.
pub open spec fn spec_no_drop_due(s: GameState) -> bool {
    forall|i: int|
        0 <= i < s.pipes@.len() ==> (#[trigger] s.pipes@[i]).last_drop < spec_drop_delay(
            spec_max_speed(s.upgrades@, i),
        )
}

/// No shape owes a laser cut at its current position.
pub open spec fn spec_no_cut_due(s: GameState) -> bool {
    forall|i: int|
        0 <= i < s.shapes@.len() ==> !spec_cut(
            #[trigger] s.shapes@[i],
            0,
            s.upgrades@.contains(Upgrade::ShapeLaser(1)),
        )
}

/// The unlock evaluation and the purchase attempt of one tick. The
/// offered list is recomputed, then the queued click (if any) is
/// consumed against it: the score is never driven below zero, and the
/// owned set grows by at most one offered upgrade, debited exactly.
pub fn upgrade_tick(state: &mut GameState, catalog: &Vec<PurchasableUpgrade>)
    requires
        wf_state(*old(state)),
        catalog_wf(catalog@),
    ensures
        wf_state(*final(state)),
        final(state).pipes@ == old(state).pipes@,
        final(state).shapes@ == old(state).shapes@,
        final(state).last_tick == old(state).last_tick,
        final(state).mouse_click_x == 0,
        final(state).mouse_click_y == 0,
        sorted_by_price(final(state).available_upgrades@),
        forall|j: int|
            0 <= j < final(state).available_upgrades@.len() ==> offered_entry_ok(
                #[trigger] final(state).available_upgrades@[j],
                old(state).upgrades@,
                old(state).pipes@.len() as int,
            ),
        big_value(final(state).score) >= 0,
        spec_models(final(state).available_upgrades@).to_multiset() == spec_models(
            spec_offered_entries(
                catalog@,
                old(state).upgrades@,
                old(state).pipes@.len() as int,
            ),
        ).to_multiset(),
        spec_purchase_outcome(
            final(state).available_upgrades@,
            old(state).mouse_click_x as int,
            old(state).mouse_click_y as int,
            old(state).upgrades@,
            big_value(old(state).score),
            final(state).upgrades@,
            big_value(final(state).score),
        ),
{
    unlock_upgrades_tick(state, catalog);
    let ghost s1 = *state;
    proof {
        assert(available_ok(s1));
    }
    upgrade_purchase_tick(state);
    proof {
        assert(state.available_upgrades@ == s1.available_upgrades@);
        assert(spec_purchase_outcome(
            s1.available_upgrades@,
            s1.mouse_click_x as int,
            s1.mouse_click_y as int,
            s1.upgrades@,
            big_value(s1.score),
            state.upgrades@,
            big_value(state.score),
        ));
    }
}

/// The duration a tick advances by: the distance from the previous
/// timestamp, or the nominal bootstrap delta on the very first call.
pub open spec fn spec_tick_dt(s: GameState, now_ms: u64) -> int {
    if s.last_tick == 0 {
        FIRST_TICK_DT_MS as int
    } else {
        now_ms - s.last_tick
    }
}

pub open spec fn spec_laser_owned(s: GameState) -> bool {
    s.upgrades@.contains(Upgrade::ShapeLaser(1))
}

/// The spawn segment one scheduler pass appends to the shape list: its
/// length is the spawn total of the speed-recomputed pipes, and each
/// shape of pipe `i`'s portion satisfies the spawn predicate for that
/// pipe and the matching unlocked color.
pub open spec fn spec_spawn_segment_ok(spawned: Seq<Shape>, pre: GameState, dt: u64) -> bool {
    &&& spawned.len() == spec_spawned_total(
        spec_sped_pipes(pre),
        pre.upgrades@,
        dt,
        pre.pipes@.len() as int,
    )
    &&& forall|i: int, d: int, k: int|
        0 <= i < pre.pipes@.len() && 0 <= d < spec_drop_count(spec_sped_pipe(pre, i), dt) && 0 <= k
            < spec_unlocked_colors(pre.upgrades@, i).len() ==> #[trigger] spawned_ok(
            spawned[spec_spawned_total(spec_sped_pipes(pre), pre.upgrades@, dt, i) + d
                * spec_unlocked_colors(pre.upgrades@, i).len() + k],
            spec_sped_pipe(pre, i),
            i,
            spec_unlocked_colors(pre.upgrades@, i)[k],
            spec_unlocked_colors(pre.upgrades@, i).len() as int,
        )
}

/// The composite effect of one tick on shapes, score and owned set,
/// given the spawn segment its scheduler pass produced: the final
/// shapes are the surviving moved shapes of the old list extended by
/// the segment; the final score and owned set follow from crediting
/// every removed shape once and then consuming the queued click against
/// the recomputed offered list.
pub open spec fn spec_tick_effect(
    pre: GameState,
    post: GameState,
    dt: u64,
    spawned: Seq<Shape>,
) -> bool {
    &&& spec_spawn_segment_ok(spawned, pre, dt)
    &&& post.shapes@ == spec_surviving(
        spec_moved_all(pre.shapes@ + spawned, dt, spec_laser_owned(pre)),
    )
    &&& spec_purchase_outcome(
        post.available_upgrades@,
        pre.mouse_click_x as int,
        pre.mouse_click_y as int,
        pre.upgrades@,
        big_value(pre.score) + spec_credited(
            spec_moved_all(pre.shapes@ + spawned, dt, spec_laser_owned(pre)),
        ),
        post.upgrades@,
        big_value(post.score),
    )
}

/// One full tick: advances the simulation by `now_ms - last_tick` (or
/// the bootstrap delta), in the fixed stage order, and stamps the state
/// with `now_ms`. A tick that advances no time, owes no drop and no
/// laser cut leaves the shapes exactly as they were.
pub fn tick(state: &mut GameState, catalog: &Vec<PurchasableUpgrade>, now_ms: u64)
    requires
        wf_state(*old(state)),
        catalog_wf(catalog@),
        old(state).last_tick != 0 ==> old(state).last_tick <= now_ms && now_ms - old(
            state,
        ).last_tick <= DT_MAX_MS,
    ensures
        wf_state(*final(state)),
        final(state).last_tick == now_ms,
        final(state).mouse_click_x == 0,
        final(state).mouse_click_y == 0,
        sorted_by_price(final(state).available_upgrades@),
        forall|j: int|
            0 <= j < final(state).available_upgrades@.len() ==> !old(state).upgrades@.contains(
                (#[trigger] final(state).available_upgrades@[j]).upgrade,
            ),
        big_value(final(state).score) >= 0,
        final(state).pipes@.len() == spec_pipe_count_after(
            old(state).pipes@.len() as int,
            old(state).upgrades@,
        ),
        forall|i: int|
            0 <= i < old(state).pipes@.len() ==> (#[trigger] final(state).pipes@[i]).last_drop
                == spec_new_acc(
                spec_sped_pipe(*old(state), i),
                spec_tick_dt(*old(state), now_ms) as u64,
            ),
        spec_models(final(state).available_upgrades@).to_multiset() == spec_models(
            spec_offered_entries(
                catalog@,
                old(state).upgrades@,
                spec_pipe_count_after(old(state).pipes@.len() as int, old(state).upgrades@),
            ),
        ).to_multiset(),
        exists|spawned: Seq<Shape>| #[trigger] spec_tick_effect(
            *old(state),
            *final(state),
            spec_tick_dt(*old(state), now_ms) as u64,
            spawned,
        ),
        (old(state).last_tick == now_ms && old(state).last_tick != 0 && spec_no_drop_due(
            *old(state),
        ) && spec_no_cut_due(*old(state))) ==> final(state).shapes@ == old(state).shapes@,
{
    let dt: u64 = if state.last_tick == 0 {
        FIRST_TICK_DT_MS
    } else {
        now_ms - state.last_tick
    };
    pipe_tick(state, dt);
    let ghost s1 = *state;
    shape_tick(state, dt);
    let ghost s2 = *state;
    proof {
        if old(state).last_tick == now_ms && old(state).last_tick != 0 && spec_no_drop_due(
            *old(state),
        ) && spec_no_cut_due(*old(state)) {
            assert(dt == 0);
            assert(s1.shapes@ == old(state).shapes@);
            let laser = s1.upgrades@.contains(Upgrade::ShapeLaser(1));
            assert forall|i: int| 0 <= i < s1.shapes@.len() implies wf_shape(
                #[trigger] s1.shapes@[i],
            ) && !spec_cut(s1.shapes@[i], 0, laser) by {
                assert(s1.shapes@[i] == old(state).shapes@[i]);
                assert(wf_state(s1));
                assert(!spec_cut(old(state).shapes@[i], 0, old(state).upgrades@.contains(
                    Upgrade::ShapeLaser(1),
                )));
            }
            lemma_zero_dt_shapes_unchanged(s1.shapes@, laser);
            assert(s2.shapes@ == old(state).shapes@);
        }
    }
    upgrade_tick(state, catalog);
    let ghost s3 = *state;
    state.last_tick = now_ms;
    proof {
        lemma_wf_state_frame(s3, *state);
        assert(dt == spec_tick_dt(*old(state), now_ms) as u64);
        assert(state.pipes@ == s1.pipes@);
        assert forall|i: int| 0 <= i < old(state).pipes@.len() implies (
        #[trigger] state.pipes@[i]).last_drop == spec_new_acc(
            spec_sped_pipe(*old(state), i),
            spec_tick_dt(*old(state), now_ms) as u64,
        ) by {
            assert(s1.pipes@[i].last_drop == spec_new_acc(spec_sped_pipe(*old(state), i), dt));
        }
        // The composite effect, witnessed by the segment the scheduler
        // actually appended.
        let pre = *old(state);
        let base = pre.shapes@.len() as int;
        let spawned = s1.shapes@.subrange(base, s1.shapes@.len() as int);
        let sped = spec_sped_pipes(pre);
        lemma_spawned_total_nonneg(sped, pre.upgrades@, dt, pre.pipes@.len() as int);
        assert(s1.shapes@.subrange(0, base) == pre.shapes@);
        assert(spawned.len() == spec_spawned_total(sped, pre.upgrades@, dt, pre.pipes@.len() as int));
        assert forall|i: int, d: int, k: int|
            0 <= i < pre.pipes@.len() && 0 <= d < spec_drop_count(spec_sped_pipe(pre, i), dt) && 0
                <= k < spec_unlocked_colors(pre.upgrades@, i).len() implies #[trigger] spawned_ok(
                spawned[spec_spawned_total(sped, pre.upgrades@, dt, i) + d * spec_unlocked_colors(
                    pre.upgrades@,
                    i,
                ).len() + k],
                spec_sped_pipe(pre, i),
                i,
                spec_unlocked_colors(pre.upgrades@, i)[k],
                spec_unlocked_colors(pre.upgrades@, i).len() as int,
            ) by {
            let nc = spec_unlocked_colors(pre.upgrades@, i).len() as int;
            let c = spec_drop_count(spec_sped_pipe(pre, i), dt);
            let off = spec_spawned_total(sped, pre.upgrades@, dt, i) + d * nc + k;
            assert(0 <= d * nc + k && d * nc + k < c * nc) by (nonlinear_arith)
                requires
                    0 <= d < c,
                    0 <= k < nc,
            ;
            lemma_spawned_total_nonneg(sped, pre.upgrades@, dt, i);
            assert(spec_spawned_total(sped, pre.upgrades@, dt, i + 1) == spec_spawned_total(
                sped,
                pre.upgrades@,
                dt,
                i,
            ) + c * nc);
            lemma_spawned_total_mono(sped, pre.upgrades@, dt, i + 1, pre.pipes@.len() as int);
            assert(0 <= off < spawned.len());
            assert(spawned[off] == s1.shapes@[base + off]);
            assert(spawned_ok(
                s1.shapes@[pre.shapes@.len() + spec_spawned_total(
                    spec_sped_pipes(pre),
                    pre.upgrades@,
                    dt,
                    i,
                ) + d * spec_unlocked_colors(pre.upgrades@, i).len() + k],
                spec_sped_pipe(pre, i),
                i,
                spec_unlocked_colors(pre.upgrades@, i)[k],
                spec_unlocked_colors(pre.upgrades@, i).len() as int,
            ));
            assert(pre.shapes@.len() + spec_spawned_total(
                spec_sped_pipes(pre),
                pre.upgrades@,
                dt,
                i,
            ) + d * spec_unlocked_colors(pre.upgrades@, i).len() + k == base + off);
        }
        assert(spec_spawn_segment_ok(spawned, pre, dt));
        assert(s1.shapes@ =~= pre.shapes@ + spawned);
        assert(s1.upgrades@ == pre.upgrades@);
        assert(s1.upgrades@.contains(Upgrade::ShapeLaser(1)) == spec_laser_owned(pre));
        assert(s2.shapes@ == spec_surviving(
            spec_moved_all(pre.shapes@ + spawned, dt, spec_laser_owned(pre)),
        ));
        assert(state.shapes@ == s2.shapes@);
        assert(big_value(s1.score) == big_value(pre.score));
        assert(big_value(s2.score) == big_value(pre.score) + spec_credited(
            spec_moved_all(pre.shapes@ + spawned, dt, spec_laser_owned(pre)),
        ));
        assert(s2.upgrades@ == pre.upgrades@);
        assert(s2.mouse_click_x == pre.mouse_click_x && s2.mouse_click_y == pre.mouse_click_y);
        assert(spec_purchase_outcome(
            state.available_upgrades@,
            s2.mouse_click_x as int,
            s2.mouse_click_y as int,
            s2.upgrades@,
            big_value(s2.score),
            state.upgrades@,
            big_value(state.score),
        ));
        assert(spec_tick_effect(pre, *state, dt, spawned));
        // The offered list was evaluated against the post-scheduler
        // pipe count and the unchanged owned set.
        assert(s2.pipes@.len() == spec_pipe_count_after(
            pre.pipes@.len() as int,
            pre.upgrades@,
        ));
        assert(spec_models(state.available_upgrades@).to_multiset() == spec_models(
            spec_offered_entries(catalog@, pre.upgrades@, s2.pipes@.len() as int),
        ).to_multiset());
    }
}

} // verus!
