//! The static upgrade catalog: built once at initialization, read-only
//! afterwards, and passed explicitly into the unlock evaluator and the
//! purchase handler.
//!
//! The catalog holds, for four pipe slots: an unlock entry (slots 2-4;
//! slot 1 is pre-owned), five ascending color unlocks per slot, forty
//! ascending speed levels per slot, and the single shape laser. Every
//! entry's upgrade value, price and requirement list is pinned by
//! `catalog_wf` through the index map `spec_upgrade_at`.

use vstd::prelude::*;
use num::bigint::BigInt;

use crate::color::ShapeColor;
use crate::color::spec_color_order;
use crate::color::color_at;
use crate::currency::big_value;
use crate::currency::big_from_u64;
use crate::currency::big_add;
use crate::currency::big_mul;
use crate::currency::big_div;
use crate::currency::big_pow;
use crate::currency::pow_int;
use crate::currency::lemma_pow_ge_one;
use crate::pipe::spec_color_upgrade;
use crate::upgrades::Upgrade;
use crate::upgrades::Requirement;
use crate::upgrades::HasPipe;
use crate::upgrades::HasUpgrade;
use crate::upgrades::PurchasableUpgrade;

verus! {

/// The 0-based position of a purchasable color in the sale order.
pub open spec fn spec_color_index(c: ShapeColor) -> int {
    match c {
        ShapeColor::Red => 0,
        ShapeColor::Green => 1,
        ShapeColor::Blue => 2,
        ShapeColor::Yellow => 3,
        ShapeColor::Purple => 4,
        _ => 0,
    }
}

/// The base factor of a slot's speed prices.
pub open spec fn spec_speed_base(slot: int) -> int {
    if slot == 0 {
        1
    } else if slot == 1 {
        4_000_000
    } else if slot == 2 {
        50_000_000
    } else {
        200_000_000
    }
}

/// Speed price: `floor(base * 3.2^level * 12) + 40 + 10 * level^2`,
/// computed exactly as `base * 12 * 16^level / 5^level` over integers.
pub open spec fn spec_speed_price(slot: int, lvl: int) -> int {
    spec_speed_base(slot) * 12 * pow_int(16, lvl as nat) / pow_int(5, lvl as nat) + 40 + 10 * lvl
        * lvl
}

/// The base factor of a slot's color prices.
pub open spec fn spec_color_base(slot: int) -> int {
    if slot == 0 {
        1
    } else if slot == 1 {
        50_000
    } else if slot == 2 {
        1_000_000
    } else {
        100_000_000
    }
}

/// Color price: `slot_base * (100^(index+1) + 700)`.
pub open spec fn spec_color_price(slot: int, idx: int) -> int {
    spec_color_base(slot) * (pow_int(100, (idx + 1) as nat) + 700)
}

/// The price of each catalog upgrade.
pub open spec fn spec_price_of(u: Upgrade) -> int {
    match u {
        Upgrade::Pipe2 => 10_000,
        Upgrade::Pipe3 => 10_000_000,
        Upgrade::Pipe4 => 10_000_000_000,
        Upgrade::ShapeLaser(_) => 500_000_000_000_000_000,
        Upgrade::Pipe1Speed(l) => spec_speed_price(0, l as int),
        Upgrade::Pipe2Speed(l) => spec_speed_price(1, l as int),
        Upgrade::Pipe3Speed(l) => spec_speed_price(2, l as int),
        Upgrade::Pipe4Speed(l) => spec_speed_price(3, l as int),
        Upgrade::Pipe1Color(c) => spec_color_price(0, spec_color_index(c)),
        Upgrade::Pipe2Color(c) => spec_color_price(1, spec_color_index(c)),
        Upgrade::Pipe3Color(c) => spec_color_price(2, spec_color_index(c)),
        Upgrade::Pipe4Color(c) => spec_color_price(3, spec_color_index(c)),
    }
}

/// The requirement list of a color entry.
pub open spec fn spec_color_reqs(slot: int, idx: int) -> Seq<Requirement> {
    if idx == 0 {
        if slot == 0 {
            Seq::empty()
        } else {
            seq![Requirement::Pipe(HasPipe { pipe: (slot + 1) as u32 })]
        }
    } else {
        seq![
            Requirement::Owned(
                HasUpgrade {
                    required_upgrade: spec_color_upgrade(slot, spec_color_order()[idx - 1]),
                },
            ),
        ]
    }
}

/// The speed-level upgrade value of a slot.
pub open spec fn spec_speed_upgrade(slot: int, lvl: u64) -> Upgrade {
    if slot == 0 {
        Upgrade::Pipe1Speed(lvl)
    } else if slot == 1 {
        Upgrade::Pipe2Speed(lvl)
    } else if slot == 2 {
        Upgrade::Pipe3Speed(lvl)
    } else {
        Upgrade::Pipe4Speed(lvl)
    }
}

/// The requirement list of a speed entry.
pub open spec fn spec_speed_reqs(slot: int, lvl: u64) -> Seq<Requirement> {
    if lvl == 1 {
        if slot == 0 {
            Seq::empty()
        } else {
            seq![Requirement::Pipe(HasPipe { pipe: (slot + 1) as u32 })]
        }
    } else {
        seq![
            Requirement::Owned(
                HasUpgrade { required_upgrade: spec_speed_upgrade(slot, (lvl - 1) as u64) },
            ),
        ]
    }
}

/// The requirement list of each catalog upgrade: a pipe unlock gates on
/// the previous progression step, the first color and speed tiers of a
/// slot gate on the pipe existing, every later tier on the previous one,
/// and the laser on pipe 3. The per-slot gating is deliberate for every
/// slot: in particular, pipe 4's second and later colors gate on pipe
/// 4's own previous color, never on another slot's tier.
pub open spec fn spec_reqs_of(u: Upgrade) -> Seq<Requirement> {
    match u {
        Upgrade::Pipe2 => seq![
            Requirement::Owned(HasUpgrade { required_upgrade: Upgrade::Pipe1Speed(3) }),
        ],
        Upgrade::Pipe3 => seq![Requirement::Pipe(HasPipe { pipe: 2 })],
        Upgrade::Pipe4 => seq![Requirement::Pipe(HasPipe { pipe: 3 })],
        Upgrade::ShapeLaser(_) => seq![Requirement::Pipe(HasPipe { pipe: 3 })],
        Upgrade::Pipe1Speed(l) => spec_speed_reqs(0, l),
        Upgrade::Pipe2Speed(l) => spec_speed_reqs(1, l),
        Upgrade::Pipe3Speed(l) => spec_speed_reqs(2, l),
        Upgrade::Pipe4Speed(l) => spec_speed_reqs(3, l),
        Upgrade::Pipe1Color(c) => spec_color_reqs(0, spec_color_index(c)),
        Upgrade::Pipe2Color(c) => spec_color_reqs(1, spec_color_index(c)),
        Upgrade::Pipe3Color(c) => spec_color_reqs(2, spec_color_index(c)),
        Upgrade::Pipe4Color(c) => spec_color_reqs(3, spec_color_index(c)),
    }
}

/// The upgrade sold at each catalog index: the four fixed entries, then
/// the color tiers slot by slot, then the speed levels slot by slot.
pub open spec fn spec_upgrade_at(k: int) -> Upgrade {
    if k == 0 {
        Upgrade::Pipe2
    } else if k == 1 {
        Upgrade::Pipe3
    } else if k == 2 {
        Upgrade::Pipe4
    } else if k == 3 {
        Upgrade::ShapeLaser(1)
    } else if k < 9 {
        Upgrade::Pipe1Color(spec_color_order()[k - 4])
    } else if k < 14 {
        Upgrade::Pipe2Color(spec_color_order()[k - 9])
    } else if k < 19 {
        Upgrade::Pipe3Color(spec_color_order()[k - 14])
    } else if k < 24 {
        Upgrade::Pipe4Color(spec_color_order()[k - 19])
    } else if k < 64 {
        Upgrade::Pipe1Speed((k - 23) as u64)
    } else if k < 104 {
        Upgrade::Pipe2Speed((k - 63) as u64)
    } else if k < 144 {
        Upgrade::Pipe3Speed((k - 103) as u64)
    } else {
        Upgrade::Pipe4Speed((k - 143) as u64)
    }
}

pub const CATALOG_LEN: usize = 184;

/// No two catalog indices sell the same upgrade.
pub proof fn lemma_upgrade_at_injective(k1: int, k2: int)
    requires
        0 <= k1 < k2 < 184,
    ensures
        spec_upgrade_at(k1) != spec_upgrade_at(k2),
{
}

/// A catalog entry is faithful to its upgrade value.
pub open spec fn entry_matches(e: PurchasableUpgrade, u: Upgrade) -> bool {
    &&& e.upgrade == u
    &&& big_value(e.price) == spec_price_of(u)
    &&& e.requirements@ == spec_reqs_of(u)
}

/// The full catalog, entry by entry.
pub open spec fn catalog_wf(c: Seq<PurchasableUpgrade>) -> bool {
    &&& c.len() == CATALOG_LEN
    &&& forall|k: int| 0 <= k < c.len() ==> entry_matches(#[trigger] c[k], spec_upgrade_at(k))
}

fn color_description(slot: usize, ci: usize) -> &'static str {
    if slot == 0 {
        match ci {
            0 => "Triangle Pipe Red",
            1 => "Triangle Pipe Green",
            2 => "Triangle Pipe Blue",
            3 => "Triangle Pipe Yellow",
            _ => "Triangle Pipe Purple",
        }
    } else if slot == 1 {
        match ci {
            0 => "Square Pipe Red",
            1 => "Square Pipe Green",
            2 => "Square Pipe Blue",
            3 => "Square Pipe Yellow",
            _ => "Square Pipe Purple",
        }
    } else if slot == 2 {
        match ci {
            0 => "Pentagon Pipe Red",
            1 => "Pentagon Pipe Green",
            2 => "Pentagon Pipe Blue",
            3 => "Pentagon Pipe Yellow",
            _ => "Pentagon Pipe Purple",
        }
    } else {
        match ci {
            0 => "Hexagon Pipe Red",
            1 => "Hexagon Pipe Green",
            2 => "Hexagon Pipe Blue",
            3 => "Hexagon Pipe Yellow",
            _ => "Hexagon Pipe Purple",
        }
    }
}

fn speed_description(slot: usize) -> &'static str {
    if slot == 0 {
        "Triangle Pipe Speed"
    } else if slot == 1 {
        "Square Pipe Speed"
    } else if slot == 2 {
        "Pentagon Pipe Speed"
    } else {
        "Hexagon Pipe Speed"
    }
}

fn color_price(slot: usize, ci: usize) -> (r: BigInt)
    requires
        slot < 4,
        ci < 5,
    ensures
        big_value(r) == spec_color_price(slot as int, ci as int),
{
    let base: u64 = if slot == 0 {
        1
    } else if slot == 1 {
        50_000
    } else if slot == 2 {
        1_000_000
    } else {
        100_000_000
    };
    let p = big_pow(&big_from_u64(100), (ci + 1) as u32);
    let t = big_add(&p, &big_from_u64(700));
    big_mul(&big_from_u64(base), &t)
}

fn speed_price(slot: usize, lvl: u64) -> (r: BigInt)
    requires
        slot < 4,
        1 <= lvl <= 40,
    ensures
        big_value(r) == spec_speed_price(slot as int, lvl as int),
{
    let base12: u64 = if slot == 0 {
        12
    } else if slot == 1 {
        48_000_000
    } else if slot == 2 {
        600_000_000
    } else {
        2_400_000_000
    };
    let p16 = big_pow(&big_from_u64(16), lvl as u32);
    let p5 = big_pow(&big_from_u64(5), lvl as u32);
    let t = big_mul(&big_from_u64(base12), &p16);
    proof {
        lemma_pow_ge_one(16, lvl as nat);
        lemma_pow_ge_one(5, lvl as nat);
        assert(big_value(t) >= 0) by (nonlinear_arith)
            requires
                big_value(t) == base12 * pow_int(16, lvl as nat),
                base12 >= 1,
                pow_int(16, lvl as nat) >= 1,
        ;
        assert(base12 * pow_int(16, lvl as nat) == spec_speed_base(slot as int) * 12 * pow_int(
            16,
            lvl as nat,
        ));
    }
    let q = big_div(&t, &p5);
    proof {
        assert(10 * lvl * lvl <= 16_000) by (nonlinear_arith)
            requires
                1 <= lvl <= 40,
        ;
    }
    let extra: u64 = 40 + 10 * lvl * lvl;
    big_add(&q, &big_from_u64(extra))
}

fn color_entry(slot: usize, ci: usize) -> (e: PurchasableUpgrade)
    requires
        slot < 4,
        ci < 5,
    ensures
        entry_matches(e, spec_color_upgrade(slot as int, spec_color_order()[ci as int])),
{
    let c = color_at(ci);
    let upgrade = if slot == 0 {
        Upgrade::Pipe1Color(c)
    } else if slot == 1 {
        Upgrade::Pipe2Color(c)
    } else if slot == 2 {
        Upgrade::Pipe3Color(c)
    } else {
        Upgrade::Pipe4Color(c)
    };
    let requirements: Vec<Requirement> = if ci == 0 {
        if slot == 0 {
            Vec::new()
        } else {
            vec![Requirement::Pipe(HasPipe::new((slot + 1) as u32))]
        }
    } else {
        let prev = color_at(ci - 1);
        let prev_upgrade = if slot == 0 {
            Upgrade::Pipe1Color(prev)
        } else if slot == 1 {
            Upgrade::Pipe2Color(prev)
        } else if slot == 2 {
            Upgrade::Pipe3Color(prev)
        } else {
            Upgrade::Pipe4Color(prev)
        };
        vec![Requirement::Owned(HasUpgrade::new(prev_upgrade))]
    };
    proof {
        assert(spec_color_index(spec_color_order()[ci as int]) == ci as int);
        assert(requirements@ =~= spec_color_reqs(slot as int, ci as int));
    }
    PurchasableUpgrade {
        upgrade,
        price: color_price(slot, ci),
        description: color_description(slot, ci),
        requirements,
    }
}

fn speed_entry(slot: usize, lvl: u64) -> (e: PurchasableUpgrade)
    requires
        slot < 4,
        1 <= lvl <= 40,
    ensures
        entry_matches(e, spec_speed_upgrade(slot as int, lvl)),
{
    let upgrade = if slot == 0 {
        Upgrade::Pipe1Speed(lvl)
    } else if slot == 1 {
        Upgrade::Pipe2Speed(lvl)
    } else if slot == 2 {
        Upgrade::Pipe3Speed(lvl)
    } else {
        Upgrade::Pipe4Speed(lvl)
    };
    let requirements: Vec<Requirement> = if lvl == 1 {
        if slot == 0 {
            Vec::new()
        } else {
            vec![Requirement::Pipe(HasPipe::new((slot + 1) as u32))]
        }
    } else {
        let prev_upgrade = if slot == 0 {
            Upgrade::Pipe1Speed(lvl - 1)
        } else if slot == 1 {
            Upgrade::Pipe2Speed(lvl - 1)
        } else if slot == 2 {
            Upgrade::Pipe3Speed(lvl - 1)
        } else {
            Upgrade::Pipe4Speed(lvl - 1)
        };
        vec![Requirement::Owned(HasUpgrade::new(prev_upgrade))]
    };
    proof {
        assert(requirements@ =~= spec_speed_reqs(slot as int, lvl));
    }
    PurchasableUpgrade {
        upgrade,
        price: speed_price(slot, lvl),
        description: speed_description(slot),
        requirements,
    }
}

/// Builds the full catalog. The order is fixed: the four one-off entries,
/// then the color tiers of each slot, then the speed levels of each slot.
pub fn build_catalog() -> (r: Vec<PurchasableUpgrade>)
    ensures
        catalog_wf(r@),
{
    let mut v: Vec<PurchasableUpgrade> = Vec::new();
    v.push(PurchasableUpgrade {
        upgrade: Upgrade::Pipe2,
        price: big_from_u64(10_000),
        description: "Square Pipe",
        requirements: vec![Requirement::Owned(HasUpgrade::new(Upgrade::Pipe1Speed(3)))],
    });
    v.push(PurchasableUpgrade {
        upgrade: Upgrade::Pipe3,
        price: big_from_u64(10_000_000),
        description: "Pentagon Pipe",
        requirements: vec![Requirement::Pipe(HasPipe::new(2))],
    });
    v.push(PurchasableUpgrade {
        upgrade: Upgrade::Pipe4,
        price: big_from_u64(10_000_000_000),
        description: "Hexagon Pipe",
        requirements: vec![Requirement::Pipe(HasPipe::new(3))],
    });
    v.push(PurchasableUpgrade {
        upgrade: Upgrade::ShapeLaser(1),
        price: big_from_u64(500_000_000_000_000_000),
        description: "Shape Cutting Laser",
        requirements: vec![Requirement::Pipe(HasPipe::new(3))],
    });
    proof {
        assert(v@[0].requirements@ =~= spec_reqs_of(spec_upgrade_at(0)));
        assert(v@[1].requirements@ =~= spec_reqs_of(spec_upgrade_at(1)));
        assert(v@[2].requirements@ =~= spec_reqs_of(spec_upgrade_at(2)));
        assert(v@[3].requirements@ =~= spec_reqs_of(spec_upgrade_at(3)));
        assert(forall|k: int| 0 <= k < 4 ==> entry_matches(#[trigger] v@[k], spec_upgrade_at(k)));
    }
    let mut slot: usize = 0;
    while slot < 4
        invariant
            slot <= 4,
            v@.len() == 4 + slot * 5,
            forall|k: int| 0 <= k < v@.len() ==> entry_matches(#[trigger] v@[k], spec_upgrade_at(k)),
        decreases 4 - slot,
    {
        let mut ci: usize = 0;
        while ci < 5
            invariant
                slot < 4,
                ci <= 5,
                v@.len() == 4 + slot * 5 + ci,
                forall|k: int|
                    0 <= k < v@.len() ==> entry_matches(#[trigger] v@[k], spec_upgrade_at(k)),
            decreases 5 - ci,
        {
            let e = color_entry(slot, ci);
            v.push(e);
            ci += 1;
        }
        slot += 1;
    }
    assert(v@.len() == 24);
    let mut slot2: usize = 0;
    while slot2 < 4
        invariant
            slot2 <= 4,
            v@.len() == 24 + slot2 * 40,
            forall|k: int| 0 <= k < v@.len() ==> entry_matches(#[trigger] v@[k], spec_upgrade_at(k)),
        decreases 4 - slot2,
    {
        let mut lvl: u64 = 1;
        while lvl <= 40
            invariant
                slot2 < 4,
                1 <= lvl <= 41,
                v@.len() == 24 + slot2 * 40 + (lvl - 1),
                forall|k: int|
                    0 <= k < v@.len() ==> entry_matches(#[trigger] v@[k], spec_upgrade_at(k)),
            decreases 41 - lvl,
        {
            let e = speed_entry(slot2, lvl);
            v.push(e);
            lvl += 1;
        }
        slot2 += 1;
    }
    v
}

} // verus!
