use vstd::prelude::*;
use super::set::ItemSet;

pub mod builder;
pub mod fit;
pub mod individual;
pub mod init;
pub mod population;

use individual::Individual;

verus! {

/// The oldest shape of a population initializer: a bare factory from a
/// target count to a population. Hosts may implement it for setups that
/// need no executor at all.
pub trait PopulationInit {
    type Indiv: Individual;

    type Pop: ItemSet<T = Self::Indiv>;

    type Err;

    fn init(amount: usize) -> Result<Self::Pop, Self::Err>;
}

} // verus!
