use vstd::prelude::*;

use crate::dw_fitness::DWFitness;

verus! {

/// The capability a caller-supplied candidate solution must provide.
///
/// The engine is generic over this trait and never looks inside an
/// individual: it only mutates, scores, resets and ships individuals.  The
/// portable form (`to_data` / `from_data`) is what the persistence codecs
/// and the wire protocol carry; `data_view` is its mathematical image, so
/// that round-trip statements can be made about encoded individuals.
pub trait DWIndividual: Sized {
    /// The portable form of this individual, as the codecs see it.  An
    /// implementation inside the library overrides this with its own
    /// image; an unverified implementation outside may leave the default,
    /// about which the codecs then promise nothing.
    open spec fn data_view(&self) -> Seq<u64> {
        Seq::empty()
    }

    /// Apply one randomized in-place change, optionally biased by a peer
    /// individual.
    fn mutate(&mut self, other: &Self);

    /// Score this individual; lower is better.
    fn calculate_fitness(&self) -> DWFitness;

    /// An optional secondary score used as a tiebreaker when the final
    /// ordering groups near-equal fitness values.
    fn get_additional_fitness(&self) -> DWFitness {
        DWFitness::from_key(0)
    }

    /// Return to a random starting configuration, to escape stagnation.
    fn random_reset(&mut self) {
    }

    /// Notification hook: a new global best individual was found.
    fn new_best_individual(&self) {
    }

    /// The portable form of this individual, carried by the codecs.
    fn to_data(&self) -> (r: Vec<u64>)
        ensures
            r@ == self.data_view(),
    ;

    /// Rebuild an individual from its portable form.
    fn from_data(data: &Vec<u64>) -> (r: Option<Self>)
        ensures
            r matches Some(x) ==> x.data_view() == data@,
    ;
}

/// An individual paired with its cached fitness.
///
/// The fitness is `DWFitness::unscored()` until `calculate_fitness` runs;
/// mutating never rescores, so the cached value always belongs to the last
/// scored state of the individual.
pub struct DWIndividualWrapper<T> {
    pub individual: T,
    pub fitness: DWFitness,
}

impl<T: DWIndividual> DWIndividualWrapper<T> {
    /// Wrap an individual, not yet scored.
    pub fn new(individual: T) -> (r: Self)
        ensures
            r.individual == individual,
            r.fitness.key == u64::MAX,
    {
        Self { individual, fitness: DWFitness::unscored() }
    }

    /// Delegate one mutation step to the individual; the cached fitness is
    /// deliberately left as it is.
    pub fn mutate(&mut self, other: &Self)
        ensures
            final(self).fitness == old(self).fitness,
    {
        self.individual.mutate(&other.individual);
    }

    /// Recompute and cache the fitness of the current individual.
    pub fn calculate_fitness(&mut self)
        ensures
            final(self).individual == old(self).individual,
    {
        self.fitness = self.individual.calculate_fitness();
    }

    /// The cached fitness.
    pub fn get_fitness(&self) -> (r: DWFitness)
        ensures
            r == self.fitness,
    {
        self.fitness
    }

    /// The individual's secondary score.
    pub fn get_additional_fitness(&self) -> DWFitness {
        self.individual.get_additional_fitness()
    }

    /// Randomize the individual; the stale cached fitness stays until the
    /// caller rescores.
    pub fn random_reset(&mut self)
        ensures
            final(self).fitness == old(self).fitness,
    {
        self.individual.random_reset();
    }

    /// Forward the new-best notification to the individual.
    pub fn new_best_individual(&self) {
        self.individual.new_best_individual();
    }
}

impl<T: DWIndividual> PartialEq for DWIndividualWrapper<T> {
    /// Wrappers compare by fitness alone, so duplicates can be detected
    /// without asking anything more of the individual.
    fn eq(&self, other: &Self) -> (r: bool) {
        self.fitness.key == other.fitness.key
    }
}

impl<T: DWIndividual> vstd::std_specs::cmp::PartialEqSpecImpl for DWIndividualWrapper<T> {
    open spec fn obeys_eq_spec() -> bool {
        true
    }

    open spec fn eq_spec(&self, other: &Self) -> bool {
        self.fitness.key == other.fitness.key
    }
}

impl<T: DWIndividual> PartialOrd for DWIndividualWrapper<T> {
    /// Wrappers order by fitness, ascending; every pair is comparable,
    /// since a non-finite fitness is unrepresentable.
    fn partial_cmp(&self, other: &Self) -> (r: Option<core::cmp::Ordering>) {
        if self.fitness.key < other.fitness.key {
            Some(core::cmp::Ordering::Less)
        } else if self.fitness.key == other.fitness.key {
            Some(core::cmp::Ordering::Equal)
        } else {
            Some(core::cmp::Ordering::Greater)
        }
    }
}

impl<T: DWIndividual> vstd::std_specs::cmp::PartialOrdSpecImpl for DWIndividualWrapper<T> {
    open spec fn obeys_partial_cmp_spec() -> bool {
        true
    }

    open spec fn partial_cmp_spec(&self, other: &Self) -> Option<core::cmp::Ordering> {
        if self.fitness.key < other.fitness.key {
            Some(core::cmp::Ordering::Less)
        } else if self.fitness.key == other.fitness.key {
            Some(core::cmp::Ordering::Equal)
        } else {
            Some(core::cmp::Ordering::Greater)
        }
    }
}

impl<T: DWIndividual + Clone> Clone for DWIndividualWrapper<T> {
    /// A deep copy; the cached fitness is carried over unchanged, and the
    /// individual is whatever the user's `clone` returns.
    fn clone(&self) -> (r: Self)
        ensures
            r.fitness == self.fitness,
            vstd::pervasive::cloned::<T>(self.individual, r.individual),
    {
        DWIndividualWrapper { individual: self.individual.clone(), fitness: self.fitness }
    }
}

} // verus!
