//! Upgrade tokens, unlock requirements, and catalog entries.
//!
//! An `Upgrade` is an immutable effect token; ownership is permanent and is
//! tested by exact value equality. A catalog entry couples an upgrade with
//! its price and the conjunction of requirements that gate its visibility.
//! Requirements form a closed pair of variants, dispatched by one match,
//! since the full requirement set of the catalog is fixed at build time.

use vstd::prelude::*;
use num::bigint::BigInt;

use crate::color::ShapeColor;
use crate::color::spec_color_order;
use crate::currency::big_value;
use crate::currency::big_clone;

verus! {

#[derive(Clone, Copy, PartialEq, Eq, Structural, Debug)]
pub enum Upgrade {
    Pipe1Speed(u64),
    Pipe1Color(ShapeColor),
    Pipe2,
    Pipe2Speed(u64),
    Pipe2Color(ShapeColor),
    Pipe3,
    Pipe3Speed(u64),
    Pipe3Color(ShapeColor),
    Pipe4,
    Pipe4Speed(u64),
    Pipe4Color(ShapeColor),
    ShapeLaser(u64),
}

/// The upgrade values that the catalog can ever sell: speed levels stay
/// within 1..=40, colors within the five purchasable ones, and the laser
/// has a single level.
pub open spec fn valid_upgrade(u: Upgrade) -> bool {
    match u {
        Upgrade::Pipe1Speed(l) => 1 <= l <= 40,
        Upgrade::Pipe2Speed(l) => 1 <= l <= 40,
        Upgrade::Pipe3Speed(l) => 1 <= l <= 40,
        Upgrade::Pipe4Speed(l) => 1 <= l <= 40,
        Upgrade::Pipe1Color(c) => spec_color_order().contains(c),
        Upgrade::Pipe2Color(c) => spec_color_order().contains(c),
        Upgrade::Pipe3Color(c) => spec_color_order().contains(c),
        Upgrade::Pipe4Color(c) => spec_color_order().contains(c),
        Upgrade::Pipe2 => true,
        Upgrade::Pipe3 => true,
        Upgrade::Pipe4 => true,
        Upgrade::ShapeLaser(l) => l == 1,
    }
}

pub fn contains_upgrade(owned: &Vec<Upgrade>, u: Upgrade) -> (r: bool)
    ensures
        r == owned@.contains(u),
{
    let mut i: usize = 0;
    while i < owned.len()
        invariant
            i <= owned.len(),
            forall|j: int| 0 <= j < i ==> owned@[j] != u,
        decreases owned.len() - i,
    {
        if owned[i] == u {
            assert(owned@[i as int] == u);
            return true;
        }
        i += 1;
    }
    false
}

#[derive(Clone, Copy, PartialEq, Eq, Structural, Debug)]
pub struct HasPipe {
    pub pipe: u32,
}

impl HasPipe {
    pub fn new(pipe: u32) -> (r: HasPipe)
        ensures
            r.pipe == pipe,
    {
        HasPipe { pipe }
    }
}

#[derive(Clone, Copy, PartialEq, Eq, Structural, Debug)]
pub struct HasUpgrade {
    pub required_upgrade: Upgrade,
}

impl HasUpgrade {
    pub fn new(upgrade: Upgrade) -> (r: HasUpgrade)
        ensures
            r.required_upgrade == upgrade,
    {
        HasUpgrade { required_upgrade: upgrade }
    }
}

/// A closed unlock condition: either "at least this many pipes exist" or
/// "this exact upgrade is owned".
#[derive(Clone, Copy, PartialEq, Eq, Structural, Debug)]
pub enum Requirement {
    Pipe(HasPipe),
    Owned(HasUpgrade),
}

pub open spec fn spec_requirement_met(
    r: Requirement,
    owned: Seq<Upgrade>,
    pipe_count: int,
) -> bool {
    match r {
        Requirement::Pipe(h) => pipe_count >= h.pipe as int,
        Requirement::Owned(h) => owned.contains(h.required_upgrade),
    }
}

pub open spec fn spec_requirements_met(
    rs: Seq<Requirement>,
    owned: Seq<Upgrade>,
    pipe_count: int,
) -> bool {
    forall|i: int| 0 <= i < rs.len() ==> spec_requirement_met(rs[i], owned, pipe_count)
}

pub fn requirement_met(r: &Requirement, owned: &Vec<Upgrade>, pipe_count: usize) -> (b: bool)
    ensures
        b == spec_requirement_met(*r, owned@, pipe_count as int),
{
    match r {
        Requirement::Pipe(h) => pipe_count >= h.pipe as usize,
        Requirement::Owned(h) => contains_upgrade(owned, h.required_upgrade),
    }
}

pub fn requirements_met(rs: &Vec<Requirement>, owned: &Vec<Upgrade>, pipe_count: usize) -> (b:
    bool)
    ensures
        b == spec_requirements_met(rs@, owned@, pipe_count as int),
{
    let mut i: usize = 0;
    while i < rs.len()
        invariant
            i <= rs.len(),
            forall|j: int| 0 <= j < i ==> spec_requirement_met(rs@[j], owned@, pipe_count as int),
        decreases rs.len() - i,
    {
        if !requirement_met(&rs[i], owned, pipe_count) {
            return false;
        }
        i += 1;
    }
    true
}

/// An immutable catalog entry: the upgrade it grants, its price, a display
/// description, and the conjunction of its unlock requirements.
pub struct PurchasableUpgrade {
    pub upgrade: Upgrade,
    pub price: BigInt,
    pub description: &'static str,
    pub requirements: Vec<Requirement>,
}

/// The mathematical content of a catalog entry; the opaque price is read
/// through `big_value` so that two entries with equal models are
/// interchangeable everywhere the simulation looks.
pub ghost struct EntryModel {
    pub upgrade: Upgrade,
    pub price: int,
    pub description: Seq<char>,
    pub requirements: Seq<Requirement>,
}

pub open spec fn entry_model(e: PurchasableUpgrade) -> EntryModel {
    EntryModel {
        upgrade: e.upgrade,
        price: big_value(e.price),
        description: e.description@,
        requirements: e.requirements@,
    }
}

pub fn clone_requirements(rs: &Vec<Requirement>) -> (r: Vec<Requirement>)
    ensures
        r@ == rs@,
{
    let mut out: Vec<Requirement> = Vec::new();
    let mut i: usize = 0;
    while i < rs.len()
        invariant
            i <= rs.len(),
            out@ == rs@.subrange(0, i as int),
        decreases rs.len() - i,
    {
        out.push(rs[i]);
        i += 1;
    }
    assert(out@ =~= rs@);
    out
}

pub fn clone_purchasable(e: &PurchasableUpgrade) -> (r: PurchasableUpgrade)
    ensures
        entry_model(r) == entry_model(*e),
{
    PurchasableUpgrade {
        upgrade: e.upgrade,
        price: big_clone(&e.price),
        description: e.description,
        requirements: clone_requirements(&e.requirements),
    }
}

} // verus!
