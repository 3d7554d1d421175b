use vstd::prelude::*;

verus! {

/// The bytecode optimizer: counts the optimizations it has applied.
pub struct Optimizer {
    pub optimizations: usize,
}

/// An optimizer that has applied no optimization yet.
pub fn new() -> (res: Optimizer)
    ensures
        res.optimizations == 0,
{
    Optimizer { optimizations: 0 }
}

} // verus!
