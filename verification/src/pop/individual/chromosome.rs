use vstd::prelude::*;

verus! {

/// The heritable content of an individual; opaque to the engine.
pub trait Chromosome {
    type E;
}

} // verus!
