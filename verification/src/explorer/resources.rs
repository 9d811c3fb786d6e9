//! # Resource kinds
//!
//! The kinds of resource a planet can make, as plain values of the library,
//! and the resources themselves as the game crate defines them.

use vstd::prelude::*;
use common_game::components::resource::{BasicResource, ComplexResource};

verus! {

/// A resource of the game that can be generated from an energy cell.
#[verifier::external_type_specification]
#[verifier::external_body]
pub struct ExBasicResource(BasicResource);

/// A resource of the game that is combined from other resources.
#[verifier::external_type_specification]
#[verifier::external_body]
pub struct ExComplexResource(ComplexResource);

/// The kinds of basic resource.
#[derive(Debug, Clone, Copy, PartialEq, Eq, Structural)]
pub enum BasicKind {
    Oxygen,
    Hydrogen,
    Carbon,
    Silicon,
}

/// The kinds of complex resource.
#[derive(Debug, Clone, Copy, PartialEq, Eq, Structural)]
pub enum ComplexKind {
    Diamond,
    Water,
    Life,
    Robot,
    Dolphin,
    AIPartner,
}

/// A resource kind, basic or complex.
#[derive(Debug, Clone, Copy, PartialEq, Eq, Structural)]
pub enum ResourceKind {
    Basic(BasicKind),
    Complex(ComplexKind),
}

/// The place of each basic kind in the order the game declares them.
pub open spec fn basic_slot(kind: BasicKind) -> int {
    match kind {
        BasicKind::Oxygen => 0,
        BasicKind::Hydrogen => 1,
        BasicKind::Carbon => 2,
        BasicKind::Silicon => 3,
    }
}

/// The place of each complex kind in the order the game declares them.
pub open spec fn complex_slot(kind: ComplexKind) -> int {
    match kind {
        ComplexKind::Diamond => 0,
        ComplexKind::Water => 1,
        ComplexKind::Life => 2,
        ComplexKind::Robot => 3,
        ComplexKind::Dolphin => 4,
        ComplexKind::AIPartner => 5,
    }
}

/// The basic kind at each place.
pub open spec fn basic_at(slot: int) -> BasicKind {
    if slot == 0 {
        BasicKind::Oxygen
    } else if slot == 1 {
        BasicKind::Hydrogen
    } else if slot == 2 {
        BasicKind::Carbon
    } else {
        BasicKind::Silicon
    }
}

/// The complex kind at each place.
pub open spec fn complex_at(slot: int) -> ComplexKind {
    if slot == 0 {
        ComplexKind::Diamond
    } else if slot == 1 {
        ComplexKind::Water
    } else if slot == 2 {
        ComplexKind::Life
    } else if slot == 3 {
        ComplexKind::Robot
    } else if slot == 4 {
        ComplexKind::Dolphin
    } else {
        ComplexKind::AIPartner
    }
}

/// Number of basic kinds.
pub const BASIC_KINDS: usize = 4;

/// Number of complex kinds.
pub const COMPLEX_KINDS: usize = 6;

impl BasicKind {
    /// The place of this kind.
    pub fn slot(self) -> (slot: usize)
        ensures
            slot == basic_slot(self),
            slot < BASIC_KINDS,
    {
        match self {
            BasicKind::Oxygen => 0,
            BasicKind::Hydrogen => 1,
            BasicKind::Carbon => 2,
            BasicKind::Silicon => 3,
        }
    }

    /// The kind at a place.
    pub fn at(slot: usize) -> (kind: BasicKind)
        requires
            slot < BASIC_KINDS,
        ensures
            kind == basic_at(slot as int),
            basic_slot(kind) == slot,
    {
        if slot == 0 {
            BasicKind::Oxygen
        } else if slot == 1 {
            BasicKind::Hydrogen
        } else if slot == 2 {
            BasicKind::Carbon
        } else {
            BasicKind::Silicon
        }
    }
}

impl ComplexKind {
    /// The place of this kind.
    pub fn slot(self) -> (slot: usize)
        ensures
            slot == complex_slot(self),
            slot < COMPLEX_KINDS,
    {
        match self {
            ComplexKind::Diamond => 0,
            ComplexKind::Water => 1,
            ComplexKind::Life => 2,
            ComplexKind::Robot => 3,
            ComplexKind::Dolphin => 4,
            ComplexKind::AIPartner => 5,
        }
    }

    /// The kind at a place.
    pub fn at(slot: usize) -> (kind: ComplexKind)
        requires
            slot < COMPLEX_KINDS,
        ensures
            kind == complex_at(slot as int),
            complex_slot(kind) == slot,
    {
        if slot == 0 {
            ComplexKind::Diamond
        } else if slot == 1 {
            ComplexKind::Water
        } else if slot == 2 {
            ComplexKind::Life
        } else if slot == 3 {
            ComplexKind::Robot
        } else if slot == 4 {
            ComplexKind::Dolphin
        } else {
            ComplexKind::AIPartner
        }
    }
}

/// The place of a basic resource's type in the game's declaration of
/// `BasicResourceType`, counted from 0.
pub uninterp spec fn basic_place(resource: BasicResource) -> usize;

/// The place of a complex resource's type in the game's declaration of
/// `ComplexResourceType`, counted from 0.
pub uninterp spec fn complex_place(resource: ComplexResource) -> usize;

/// `BasicResource::get_type` as a number: `as` turns a variant of the
/// field-less enum `BasicResourceType` into its place in the declaration
/// `Oxygen, Hydrogen, Carbon, Silicon`, counted from 0, so under four. The
/// result depends on the resource alone and is named `basic_place`.
#[verifier::external_body]
fn basic_place_of(resource: &BasicResource) -> (place: usize)
    ensures
        place == basic_place(*resource),
        place < BASIC_KINDS,
{
    resource.get_type() as usize
}

/// `ComplexResource::get_type` as a number: `as` turns a variant of the
/// field-less enum `ComplexResourceType` into its place in the declaration
/// `Diamond, Water, Life, Robot, Dolphin, AIPartner`, counted from 0, so
/// under six. The result depends on the resource alone and is named
/// `complex_place`.
#[verifier::external_body]
fn complex_place_of(resource: &ComplexResource) -> (place: usize)
    ensures
        place == complex_place(*resource),
        place < COMPLEX_KINDS,
{
    resource.get_type() as usize
}

/// The kind of a basic resource: the kind at the place of its type.
pub open spec fn kind_of_basic(resource: BasicResource) -> BasicKind {
    basic_at(basic_place(resource) as int)
}

/// The kind of a complex resource: the kind at the place of its type.
pub open spec fn kind_of_complex(resource: ComplexResource) -> ComplexKind {
    complex_at(complex_place(resource) as int)
}

/// The kind of a basic resource, named as the game names its type.
pub(crate) fn basic_kind_of(resource: &BasicResource) -> (kind: BasicKind)
    ensures
        kind == kind_of_basic(*resource),
        basic_slot(kind) == basic_place(*resource),
{
    BasicKind::at(basic_place_of(resource))
}

/// The kind of a complex resource, named as the game names its type.
pub(crate) fn complex_kind_of(resource: &ComplexResource) -> (kind: ComplexKind)
    ensures
        kind == kind_of_complex(*resource),
        complex_slot(kind) == complex_place(*resource),
{
    ComplexKind::at(complex_place_of(resource))
}

/// A basic resource is filed under the kind of the same name as its type
/// in the game: `Oxygen`, `Hydrogen`, `Carbon`, `Silicon`, in the game's
/// order; and that kind keeps the type's place.
pub proof fn lemma_kind_of_basic_names_its_type(resource: BasicResource)
    ensures
        basic_place(resource) == 0 ==> kind_of_basic(resource) == BasicKind::Oxygen,
        basic_place(resource) == 1 ==> kind_of_basic(resource) == BasicKind::Hydrogen,
        basic_place(resource) == 2 ==> kind_of_basic(resource) == BasicKind::Carbon,
        basic_place(resource) == 3 ==> kind_of_basic(resource) == BasicKind::Silicon,
        basic_place(resource) < BASIC_KINDS ==> basic_slot(kind_of_basic(resource)) == basic_place(resource),
{
}

/// A complex resource is filed under the kind of the same name as its
/// type in the game: `Diamond`, `Water`, `Life`, `Robot`, `Dolphin`,
/// `AIPartner`, in the game's order; and that kind keeps the type's place.
pub proof fn lemma_kind_of_complex_names_its_type(resource: ComplexResource)
    ensures
        complex_place(resource) == 0 ==> kind_of_complex(resource) == ComplexKind::Diamond,
        complex_place(resource) == 1 ==> kind_of_complex(resource) == ComplexKind::Water,
        complex_place(resource) == 2 ==> kind_of_complex(resource) == ComplexKind::Life,
        complex_place(resource) == 3 ==> kind_of_complex(resource) == ComplexKind::Robot,
        complex_place(resource) == 4 ==> kind_of_complex(resource) == ComplexKind::Dolphin,
        complex_place(resource) == 5 ==> kind_of_complex(resource) == ComplexKind::AIPartner,
        complex_place(resource) < COMPLEX_KINDS ==> complex_slot(kind_of_complex(resource)) == complex_place(
            resource,
        ),
{
}

} // verus!
