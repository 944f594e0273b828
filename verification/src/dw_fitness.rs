use vstd::prelude::*;

verus! {

/// A totally ordered fitness value; lower is better.
///
/// The engine never touches floating-point fitness directly.  Callers map
/// their fitness scale into `u64` keys through any order-preserving
/// embedding (for IEEE doubles the usual sign-flip bit map) and must reject
/// NaN at that boundary, so a non-finite fitness is unrepresentable here and
/// every pair of fitness values is comparable.
#[derive(Clone, Copy, Debug, PartialEq, Eq, Structural)]
pub struct DWFitness {
    /// The position of this fitness on the caller's scale; lower is better.
    pub key: u64,
}

impl DWFitness {
    /// The fitness of a wrapper that has not been scored yet: it sorts after
    /// every scored fitness.
    pub fn unscored() -> (r: DWFitness)
        ensures
            r.key == u64::MAX,
    {
        DWFitness { key: u64::MAX }
    }

    pub fn from_key(key: u64) -> (r: DWFitness)
        ensures
            r.key == key,
    {
        DWFitness { key }
    }

    pub fn get_key(&self) -> (r: u64)
        ensures
            r == self.key,
    {
        self.key
    }

    /// `self` is strictly better (strictly lower) than `other`.
    pub fn is_better_than(&self, other: &DWFitness) -> (r: bool)
        ensures
            r == (self.key < other.key),
    {
        self.key < other.key
    }
}

} // verus!
