//! The seal on [`super::State`]: the trait below is out of reach of other
//! crates, so only the states declared beside it can be explorer states.

use vstd::prelude::*;

verus! {

pub trait Sealed {}

impl Sealed for super::Idle {}

impl Sealed for super::OnPlanet {}

impl Sealed for super::Traveling {}

} // verus!
