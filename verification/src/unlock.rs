//! The unlock evaluator: recomputes, once per tick, the offered list —
//! the catalog entries not yet owned whose requirements all hold — sorted
//! ascending by price. The list is transient display/purchase state and
//! is rebuilt from scratch each tick.

use vstd::prelude::*;

use crate::catalog::catalog_wf;
use crate::catalog::entry_matches;
use crate::catalog::spec_upgrade_at;
use crate::catalog::spec_price_of;
use crate::catalog::spec_reqs_of;
use crate::color::spec_color_order;
use crate::currency::big_value;
use crate::currency::big_le;
use crate::state::GameState;
use crate::state::wf_state;
use crate::state::lemma_wf_state_frame;
use crate::upgrades::Upgrade;
use crate::upgrades::PurchasableUpgrade;
use crate::upgrades::EntryModel;
use crate::upgrades::entry_model;
use crate::upgrades::valid_upgrade;
use crate::upgrades::contains_upgrade;
use crate::upgrades::requirements_met;
use crate::upgrades::spec_requirements_met;
use crate::upgrades::clone_purchasable;

verus! {

/// Is a catalog entry currently offered: not owned, all requirements met.
pub open spec fn spec_offered(e: PurchasableUpgrade, owned: Seq<Upgrade>, pipe_count: int) -> bool {
    !owned.contains(e.upgrade) && spec_requirements_met(e.requirements@, owned, pipe_count)
}

/// The offered subset of the catalog, in catalog order.
pub open spec fn spec_offered_entries(
    c: Seq<PurchasableUpgrade>,
    owned: Seq<Upgrade>,
    pipe_count: int,
) -> Seq<PurchasableUpgrade>
    decreases c.len(),
{
    if c.len() == 0 {
        Seq::empty()
    } else {
        let pre = spec_offered_entries(c.drop_last(), owned, pipe_count);
        if spec_offered(c.last(), owned, pipe_count) {
            pre.push(c.last())
        } else {
            pre
        }
    }
}

/// The mathematical content of a list of entries.
pub open spec fn spec_models(s: Seq<PurchasableUpgrade>) -> Seq<EntryModel> {
    s.map_values(|e: PurchasableUpgrade| entry_model(e))
}

/// Non-decreasing prices.
pub open spec fn sorted_by_price(s: Seq<PurchasableUpgrade>) -> bool {
    forall|i: int, j: int|
        0 <= i <= j < s.len() ==> big_value(#[trigger] s[i].price) <= big_value(
            #[trigger] s[j].price,
        )
}

/// What every entry of the offered list satisfies, against the state the
/// evaluator ran on: unowned, unlocked, and faithful to the catalog.
pub open spec fn offered_entry_ok(e: PurchasableUpgrade, owned: Seq<Upgrade>, pipe_count: int) -> bool {
    &&& !owned.contains(e.upgrade)
    &&& spec_requirements_met(e.requirements@, owned, pipe_count)
    &&& valid_upgrade(e.upgrade)
    &&& big_value(e.price) == spec_price_of(e.upgrade)
    &&& e.requirements@ == spec_reqs_of(e.upgrade)
}

/// Every upgrade value the catalog sells is a valid token.
pub proof fn lemma_upgrade_at_valid(k: int)
    requires
        0 <= k < 184,
    ensures
        valid_upgrade(spec_upgrade_at(k)),
{
    if 4 <= k < 24 {
        let idx = if k < 9 {
            k - 4
        } else if k < 14 {
            k - 9
        } else if k < 19 {
            k - 14
        } else {
            k - 19
        };
        assert(spec_color_order()[idx] == spec_color_order()[idx]);
        assert(spec_color_order().contains(spec_color_order()[idx]));
    }
}

fn is_offered(e: &PurchasableUpgrade, owned: &Vec<Upgrade>, pipe_count: usize) -> (r: bool)
    ensures
        r == spec_offered(*e, owned@, pipe_count as int),
{
    if contains_upgrade(owned, e.upgrade) {
        false
    } else {
        requirements_met(&e.requirements, owned, pipe_count)
    }
}

/// Inserting an element into a sequence adds it to the multiset.
proof fn lemma_insert_to_multiset(s: Seq<EntryModel>, i: int, x: EntryModel)
    requires
        0 <= i <= s.len(),
    ensures
        s.insert(i, x).to_multiset() == s.to_multiset().insert(x),
{
    broadcast use vstd::seq_lib::group_to_multiset_ensures;

    let t = s.insert(i, x);
    assert(t.remove(i) =~= s);
    assert(t[i] == x);
    assert(t.remove(i).to_multiset() =~= t.to_multiset().remove(x));
    assert(t.contains(x));
    assert(t.to_multiset().count(x) > 0);
    assert(t.to_multiset() =~= s.to_multiset().insert(x)) by {
        assert(forall|y: EntryModel|
            #![trigger s.to_multiset().insert(x).count(y)]
            t.to_multiset().count(y) == s.to_multiset().insert(x).count(y)) by {
            assert forall|y: EntryModel| true implies t.to_multiset().count(y) == s.to_multiset()
                .insert(x).count(y) by {
                assert(t.to_multiset().remove(x).count(y) == s.to_multiset().count(y));
            }
        }
    }
}

/// The position before the first strictly more expensive entry.
fn find_insert_pos(v: &Vec<PurchasableUpgrade>, e: &PurchasableUpgrade) -> (idx: usize)
    ensures
        idx <= v@.len(),
        forall|j: int| 0 <= j < idx ==> big_value(#[trigger] v@[j].price) <= big_value(e.price),
        idx < v@.len() ==> big_value(v@[idx as int].price) > big_value(e.price),
{
    let mut idx: usize = 0;
    while idx < v.len()
        invariant
            idx <= v@.len(),
            forall|j: int| 0 <= j < idx ==> big_value(#[trigger] v@[j].price) <= big_value(e.price),
        decreases v@.len() - idx,
    {
        if !big_le(&v[idx].price, &e.price) {
            return idx;
        }
        idx += 1;
    }
    idx
}

/// Inserts an entry into a price-sorted list, keeping it sorted; the
/// contents change by exactly that entry.
fn insert_sorted(v: &mut Vec<PurchasableUpgrade>, e: PurchasableUpgrade)
    requires
        sorted_by_price(old(v)@),
    ensures
        sorted_by_price(final(v)@),
        final(v)@.len() == old(v)@.len() + 1,
        spec_models(final(v)@).to_multiset() == spec_models(old(v)@).to_multiset().insert(
            entry_model(e),
        ),
        forall|j: int|
            0 <= j < final(v)@.len() ==> ((exists|k: int|
                0 <= k < old(v)@.len() && #[trigger] final(v)@[j] == old(v)@[k]) || final(v)@[j]
                == e),
{
    let idx = find_insert_pos(v, &e);
    let ghost pre = v@;
    v.insert(idx, e);
    proof {
        assert(v@ == pre.insert(idx as int, e));
        assert forall|i: int, j: int| 0 <= i <= j < v@.len() implies big_value(
            #[trigger] v@[i].price,
        ) <= big_value(#[trigger] v@[j].price) by {
            if i < idx && j < idx {
            } else if i < idx && j == idx {
            } else if i == idx && j == idx {
            }
        }
        assert(spec_models(v@) =~= spec_models(pre).insert(idx as int, entry_model(e)));
        lemma_insert_to_multiset(spec_models(pre), idx as int, entry_model(e));
        assert forall|j: int|
            0 <= j < v@.len() implies (exists|k: int|
                0 <= k < pre.len() && #[trigger] v@[j] == pre[k]) || v@[j] == e by {
            if j < idx {
                assert(v@[j] == pre[j]);
            } else if j > idx {
                assert(v@[j] == pre[j - 1]);
            }
        }
    }
}

/// Recomputes the offered list from the catalog: exactly the unowned,
/// fully unlocked entries, sorted ascending by price. Nothing else in
/// the state changes. Entries of equal price may stand in any relative
/// order — the contract fixes the contents and the price order only —
/// though every price in the present catalog is distinct, so the list
/// is in fact fully determined.
pub fn unlock_upgrades_tick(state: &mut GameState, catalog: &Vec<PurchasableUpgrade>)
    requires
        wf_state(*old(state)),
        catalog_wf(catalog@),
    ensures
        wf_state(*final(state)),
        final(state).pipes@ == old(state).pipes@,
        final(state).shapes@ == old(state).shapes@,
        final(state).score == old(state).score,
        final(state).last_tick == old(state).last_tick,
        final(state).upgrades@ == old(state).upgrades@,
        final(state).mouse_click_x == old(state).mouse_click_x,
        final(state).mouse_click_y == old(state).mouse_click_y,
        sorted_by_price(final(state).available_upgrades@),
        spec_models(final(state).available_upgrades@).to_multiset() == spec_models(
            spec_offered_entries(
                catalog@,
                old(state).upgrades@,
                old(state).pipes@.len() as int,
            ),
        ).to_multiset(),
        forall|j: int|
            0 <= j < final(state).available_upgrades@.len() ==> offered_entry_ok(
                #[trigger] final(state).available_upgrades@[j],
                old(state).upgrades@,
                old(state).pipes@.len() as int,
            ),
{
    let pipe_count = state.pipes.len();
    let mut out: Vec<PurchasableUpgrade> = Vec::new();
    let mut i: usize = 0;
    proof {
        assert(spec_models(out@).to_multiset() =~= spec_models(
            spec_offered_entries(
                catalog@.subrange(0, 0),
                state.upgrades@,
                pipe_count as int,
            ),
        ).to_multiset());
    }
    while i < catalog.len()
        invariant
            wf_state(*state),
            catalog_wf(catalog@),
            pipe_count == state.pipes@.len(),
            i <= catalog@.len(),
            sorted_by_price(out@),
            spec_models(out@).to_multiset() == spec_models(
                spec_offered_entries(
                    catalog@.subrange(0, i as int),
                    state.upgrades@,
                    pipe_count as int,
                ),
            ).to_multiset(),
            forall|j: int|
                0 <= j < out@.len() ==> offered_entry_ok(
                    #[trigger] out@[j],
                    state.upgrades@,
                    pipe_count as int,
                ),
        decreases catalog@.len() - i,
    {
        let ghost pre_seq = spec_offered_entries(
            catalog@.subrange(0, i as int),
            state.upgrades@,
            pipe_count as int,
        );
        proof {
            let cur = catalog@.subrange(0, i as int + 1);
            assert(cur.drop_last() =~= catalog@.subrange(0, i as int));
            assert(cur.last() == catalog@[i as int]);
        }
        if is_offered(&catalog[i], &state.upgrades, pipe_count) {
            let copy = clone_purchasable(&catalog[i]);
            proof {
                assert(entry_matches(catalog@[i as int], spec_upgrade_at(i as int)));
                lemma_upgrade_at_valid(i as int);
                assert(offered_entry_ok(copy, state.upgrades@, pipe_count as int));
                let nxt = spec_offered_entries(
                    catalog@.subrange(0, i as int + 1),
                    state.upgrades@,
                    pipe_count as int,
                );
                assert(nxt == pre_seq.push(catalog@[i as int]));
                assert(spec_models(nxt) =~= spec_models(pre_seq).push(
                    entry_model(catalog@[i as int]),
                ));
                broadcast use vstd::seq_lib::group_to_multiset_ensures;

                assert(spec_models(nxt).to_multiset() =~= spec_models(pre_seq).to_multiset()
                    .insert(entry_model(catalog@[i as int])));
            }
            insert_sorted(&mut out, copy);
        } else {
            proof {
                let nxt = spec_offered_entries(
                    catalog@.subrange(0, i as int + 1),
                    state.upgrades@,
                    pipe_count as int,
                );
                assert(nxt == pre_seq);
            }
        }
        i += 1;
    }
    proof {
        assert(catalog@.subrange(0, catalog@.len() as int) =~= catalog@);
    }
    state.available_upgrades = out;
    proof {
        lemma_wf_state_frame(*old(state), *state);
    }
}

} // verus!
