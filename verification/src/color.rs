//! The closed enumeration of shape colors.
//!
//! One authoritative color type serves both as the cosmetic tag and as the
//! key of the value-multiplier table. `Other` stands for any color outside
//! the priced six; such a shape is "dead" and contributes nothing, which is
//! deliberate behavior, not an error.

use vstd::prelude::*;

verus! {

#[derive(Clone, Copy, PartialEq, Eq, Structural, Debug)]
pub enum ShapeColor {
    Gray,
    Red,
    Green,
    Blue,
    Yellow,
    Purple,
    Other,
}

/// The value multiplier of each color.
pub open spec fn spec_color_multiplier(c: ShapeColor) -> int {
    match c {
        ShapeColor::Gray => 1,
        ShapeColor::Red => 10,
        ShapeColor::Green => 100,
        ShapeColor::Blue => 1000,
        ShapeColor::Yellow => 10_000,
        ShapeColor::Purple => 100_000,
        ShapeColor::Other => 0,
    }
}

pub fn color_multiplier(c: ShapeColor) -> (r: u64)
    ensures
        r == spec_color_multiplier(c),
{
    match c {
        ShapeColor::Gray => 1,
        ShapeColor::Red => 10,
        ShapeColor::Green => 100,
        ShapeColor::Blue => 1000,
        ShapeColor::Yellow => 10_000,
        ShapeColor::Purple => 100_000,
        ShapeColor::Other => 0,
    }
}

/// The five purchasable colors, in the order their unlocks are sold.
pub open spec fn spec_color_order() -> Seq<ShapeColor> {
    seq![
        ShapeColor::Red,
        ShapeColor::Green,
        ShapeColor::Blue,
        ShapeColor::Yellow,
        ShapeColor::Purple,
    ]
}

pub fn color_at(i: usize) -> (r: ShapeColor)
    requires
        i < 5,
    ensures
        r == spec_color_order()[i as int],
{
    match i {
        0 => ShapeColor::Red,
        1 => ShapeColor::Green,
        2 => ShapeColor::Blue,
        3 => ShapeColor::Yellow,
        _ => ShapeColor::Purple,
    }
}

} // verus!
