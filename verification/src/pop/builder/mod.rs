use vstd::prelude::*;
use super::population::Population;

verus! {

/// A host-supplied factory for fresh populations.
pub trait PopulationBuilder {
    type P: Population;

    type E;

    fn init_new(&mut self) -> Result<Self::P, Self::E>;
}

} // verus!
