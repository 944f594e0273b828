use vstd::prelude::*;

use crate::dw_config::DWConfiguration;
use crate::dw_error::DWError;
use crate::dw_fitness::DWFitness;
use crate::dw_individual::{DWIndividual, DWIndividualWrapper};
use crate::dw_rng::{rng_from_entropy, rng_gen_range};
use crate::dw_select::{
    adjacent_distinct, all_from, dedup_by_fitness_key, lemma_all_from_key_bound,
    lemma_distinct_levels_survive, lemma_multiset_all_from, lemma_prefix_all_from,
    lemma_prefix_submultiset, lemma_sorted_adjacent_distinct, lemma_sorted_head_min,
    lemma_sorted_prefix_counts, pairwise_distinct, shrink_keeping_best3, sort_by_fitness_key,
    sort_for_reporting, sorted_by_fitness, three_distinct_keys, two_distinct_keys,
};
use crate::dw_text::str_eq;

verus! {

broadcast use vstd::seq_lib::group_to_multiset_ensures, Seq::lemma_index_contains;

/// How a population restores its size bound after a mutation pass.
#[derive(Debug, Clone, Copy, PartialEq, Eq, Structural)]
pub enum DWDeleteMethod {
    /// Sort ascending and truncate.
    SortKeep,
    /// Sort ascending, drop adjacent equal-fitness wrappers, truncate.
    SortUnique,
    /// Sort, drop adjacent equal-fitness wrappers, then remove uniformly
    /// random positions at index three or higher; the top three survive.
    RandomBest3,
}

impl DWDeleteMethod {
    /// Parse a delete-method tag; exactly `sort_keep`, `sort_unique` and
    /// `random_best3` are recognized.
    pub fn from_str(s: &str) -> (r: Result<DWDeleteMethod, DWError>)
        ensures
            s@ == "sort_keep"@ ==> r == Ok::<DWDeleteMethod, DWError>(DWDeleteMethod::SortKeep),
            s@ == "sort_unique"@ ==> r == Ok::<DWDeleteMethod, DWError>(
                DWDeleteMethod::SortUnique,
            ),
            s@ == "random_best3"@ ==> r == Ok::<DWDeleteMethod, DWError>(
                DWDeleteMethod::RandomBest3,
            ),
            s@ != "sort_keep"@ && s@ != "sort_unique"@ && s@ != "random_best3"@ ==> (r matches Err(
                DWError::ParseDWDeleteMethodError(m),
            ) && m@ == s@),
    {
        proof {
            reveal_strlit("sort_keep");
            reveal_strlit("sort_unique");
            reveal_strlit("random_best3");
            assert("sort_keep"@.len() == 9);
            assert("sort_unique"@.len() == 11);
            assert("random_best3"@.len() == 12);
        }
        if str_eq(s, "sort_keep") {
            Ok(DWDeleteMethod::SortKeep)
        } else if str_eq(s, "sort_unique") {
            Ok(DWDeleteMethod::SortUnique)
        } else if str_eq(s, "random_best3") {
            Ok(DWDeleteMethod::RandomBest3)
        } else {
            Err(DWError::ParseDWDeleteMethodError(s.to_owned()))
        }
    }

    /// Convert an integer tag; exactly 0, 1 and 2 are recognized.
    pub fn try_from(value: u8) -> (r: Result<DWDeleteMethod, DWError>)
        ensures
            value == 0 ==> r == Ok::<DWDeleteMethod, DWError>(DWDeleteMethod::SortKeep),
            value == 1 ==> r == Ok::<DWDeleteMethod, DWError>(DWDeleteMethod::SortUnique),
            value == 2 ==> r == Ok::<DWDeleteMethod, DWError>(DWDeleteMethod::RandomBest3),
            value >= 3 ==> r == Err::<DWDeleteMethod, DWError>(
                DWError::ConvertDWDeleteMethodError(value),
            ),
    {
        match value {
            0 => Ok(DWDeleteMethod::SortKeep),
            1 => Ok(DWDeleteMethod::SortUnique),
            2 => Ok(DWDeleteMethod::RandomBest3),
            _ => Err(DWError::ConvertDWDeleteMethodError(value)),
        }
    }

    /// The tag under which this method parses.
    pub fn as_str(&self) -> (r: &'static str)
        ensures
            *self == DWDeleteMethod::SortKeep ==> r@ == "sort_keep"@,
            *self == DWDeleteMethod::SortUnique ==> r@ == "sort_unique"@,
            *self == DWDeleteMethod::RandomBest3 ==> r@ == "random_best3"@,
    {
        match self {
            DWDeleteMethod::SortKeep => "sort_keep",
            DWDeleteMethod::SortUnique => "sort_unique",
            DWDeleteMethod::RandomBest3 => "random_best3",
        }
    }
}

/// The population engine: a bounded collection of scored wrappers together
/// with the knobs of one search, the stagnation detector and the local
/// random-number source.
///
/// Between rounds the collection holds at least one and at most
/// `max_population_size` wrappers, and the wrapper at index 0 carries the
/// minimum fitness; a mutation pass may grow the collection past the bound
/// until the following `delete` restores it.
pub struct DWPopulation<T> {
    collection: Vec<DWIndividualWrapper<T>>,
    max_population_size: usize,
    num_of_mutations: u64,
    fitness_limit: DWFitness,
    new_best_fitness: DWFitness,
    reset_counter: u64,
    reset_fitness: DWFitness,
    max_reset: u64,
    delete_method: DWDeleteMethod,
    rng: rand::rngs::StdRng,
}

impl<T: DWIndividual + Clone> DWPopulation<T> {
    /// The scored wrappers this population holds.
    pub closed spec fn wrappers(self) -> Seq<DWIndividualWrapper<T>> {
        self.collection@
    }

    /// The size bound restored after every round.
    pub closed spec fn max_size(self) -> int {
        self.max_population_size as int
    }

    /// Mutation sub-steps per individual per round.
    pub closed spec fn num_mutations(self) -> u64 {
        self.num_of_mutations
    }

    /// The fitness key the search drives the best below.
    pub closed spec fn limit_key(self) -> u64 {
        self.fitness_limit.key
    }

    /// The minimum fitness key this population has ever observed.
    pub closed spec fn new_best_key(self) -> u64 {
        self.new_best_fitness.key
    }

    /// Stagnant server exchanges seen since the last progress.
    pub closed spec fn reset_count(self) -> u64 {
        self.reset_counter
    }

    /// The best fitness key at the last externally driven round.
    pub closed spec fn reset_key(self) -> u64 {
        self.reset_fitness.key
    }

    /// Stagnant exchanges tolerated before a random reset; 0 disables.
    pub closed spec fn reset_max(self) -> u64 {
        self.max_reset
    }

    /// The configured delete strategy.
    pub closed spec fn method(self) -> DWDeleteMethod {
        self.delete_method
    }

    /// The invariant of a quiescent population: at least one wrapper, and a
    /// size bound that leaves the delete strategy room to work.
    pub open spec fn wf(self) -> bool {
        &&& self.wrappers().len() >= 1
        &&& self.max_size() >= 1
        &&& self.method() == DWDeleteMethod::RandomBest3 ==> self.max_size() >= 3
    }

    /// The wrapper at index 0 carries the minimum fitness.
    pub open spec fn best_at_zero(self) -> bool {
        forall|i: int|
            0 <= i < self.wrappers().len() ==> self.wrappers()[0].fitness.key <= (
            #[trigger] self.wrappers()[i]).fitness.key
    }

    /// The search knobs of `b` are those of `a`.
    pub open spec fn same_config(a: Self, b: Self) -> bool {
        &&& b.max_size() == a.max_size()
        &&& b.num_mutations() == a.num_mutations()
        &&& b.limit_key() == a.limit_key()
        &&& b.reset_max() == a.reset_max()
        &&& b.method() == a.method()
    }

    /// Besides the knobs, the best-ever record and the stagnation detector
    /// of `b` are those of `a`; only the collection and the generator may
    /// differ.
    pub open spec fn same_tracking(a: Self, b: Self) -> bool {
        &&& Self::same_config(a, b)
        &&& b.new_best_key() == a.new_best_key()
        &&& b.reset_count() == a.reset_count()
        &&& b.reset_key() == a.reset_key()
    }

    /// Everything observable of `b` is that of `a`; only the generator may
    /// differ.
    pub open spec fn same_state(a: Self, b: Self) -> bool {
        &&& Self::same_tracking(a, b)
        &&& b.wrappers() == a.wrappers()
    }

    /// Build a population from a single seed: `max_population_size` clones
    /// of the seed, each mutated once against it and scored, sorted
    /// ascending by fitness.
    pub fn new(initial: DWIndividualWrapper<T>, dw_configuration: &DWConfiguration) -> (r: Self)
        requires
            dw_configuration.valid(),
        ensures
            r.wf(),
            r.best_at_zero(),
            sorted_by_fitness(r.wrappers()),
            r.wrappers().len() == dw_configuration.max_population_size,
            r.max_size() == dw_configuration.max_population_size,
            r.num_mutations() == dw_configuration.num_of_mutations,
            r.limit_key() == dw_configuration.fitness_limit.key,
            r.new_best_key() == u64::MAX,
            r.reset_count() == 0,
            r.reset_key() == 0,
            r.reset_max() == dw_configuration.reset_limit,
            r.method() == dw_configuration.delete_method,
    {
        let max_population_size = dw_configuration.max_population_size;
        let mut collection: Vec<DWIndividualWrapper<T>> = Vec::new();
        let mut i: usize = 0;
        while i < max_population_size
            invariant
                i <= max_population_size,
                collection@.len() == i,
            decreases max_population_size - i,
        {
            let mut new_individual = initial.clone();
            new_individual.mutate(&initial);
            new_individual.calculate_fitness();
            collection.push(new_individual);
            i = i + 1;
        }
        sort_by_fitness_key(&mut collection);
        Self {
            collection,
            max_population_size,
            num_of_mutations: dw_configuration.num_of_mutations,
            fitness_limit: dw_configuration.fitness_limit,
            new_best_fitness: DWFitness::unscored(),
            reset_counter: 0,
            reset_fitness: DWFitness::from_key(0),
            max_reset: dw_configuration.reset_limit,
            delete_method: dw_configuration.delete_method,
            rng: rng_from_entropy(),
        }
    }

    /// Replace the collection with the given wrappers, draining the input.
    pub fn from_vec(&mut self, population: &mut Vec<DWIndividualWrapper<T>>)
        requires
            old(population)@.len() >= 1,
        ensures
            final(self).wrappers() == old(population)@,
            final(population)@.len() == 0,
            Self::same_tracking(*old(self), *final(self)),
            old(self).wf() ==> final(self).wf(),
    {
        self.collection.clear();
        self.collection.append(population);
        proof {
            assert(self.collection@ =~= old(population)@);
        }
    }

    /// Borrow the collection.
    pub fn to_vec(&self) -> (r: &Vec<DWIndividualWrapper<T>>)
        ensures
            r@ == self.wrappers(),
    {
        &self.collection
    }

    /// A uniformly random position in `start..len`.
    fn random_index_from(&mut self, start: usize) -> (r: usize)
        requires
            start < old(self).wrappers().len(),
        ensures
            start <= r < old(self).wrappers().len(),
            Self::same_state(*old(self), *final(self)),
    {
        rng_gen_range(&mut self.rng, start, self.collection.len())
    }

    /// A uniformly random position in the collection.
    fn random_index(&mut self) -> (r: usize)
        requires
            old(self).wrappers().len() >= 1,
        ensures
            r < old(self).wrappers().len(),
            Self::same_state(*old(self), *final(self)),
    {
        self.random_index_from(0)
    }

    /// A uniformly random peer position other than `index1`; a population
    /// of one wrapper is its own peer.
    fn random_index_new(&mut self, index1: usize) -> (r: usize)
        requires
            index1 < old(self).wrappers().len(),
        ensures
            r < old(self).wrappers().len(),
            old(self).wrappers().len() > 1 ==> r != index1,
            old(self).wrappers().len() == 1 ==> r == index1,
            Self::same_state(*old(self), *final(self)),
    {
        let len = self.collection.len();
        if len == 1 {
            return index1;
        }
        let draw = rng_gen_range(&mut self.rng, 0, len - 1);
        if draw >= index1 {
            draw + 1
        } else {
            draw
        }
    }

    /// The search is complete: the best fitness is strictly below the
    /// limit.
    pub fn is_job_done(&self) -> (r: bool)
        requires
            self.wrappers().len() >= 1,
        ensures
            r == (self.wrappers()[0].fitness.key < self.limit_key()),
    {
        self.get_best_fitness().get_key() < self.fitness_limit.get_key()
    }

    /// The fitness of the wrapper at index 0.
    pub fn get_best_fitness(&self) -> (r: DWFitness)
        requires
            self.wrappers().len() >= 1,
        ensures
            r == self.wrappers()[0].fitness,
    {
        self.collection[0].get_fitness()
    }

    /// The minimum fitness this population has ever observed.
    pub fn get_new_best_fitness(&self) -> (r: DWFitness)
        ensures
            r.key == self.new_best_key(),
    {
        self.new_best_fitness
    }

    /// The fitness at index 0 and the fitness at the last index.
    pub fn get_best_and_worst_fitness(&self) -> (r: (DWFitness, DWFitness))
        requires
            self.wrappers().len() >= 1,
        ensures
            r.0 == self.wrappers()[0].fitness,
            r.1 == self.wrappers().last().fitness,
    {
        let best_fitness = self.collection[0].get_fitness();
        let worst_fitness = self.collection[self.collection.len() - 1].get_fitness();
        (best_fitness, worst_fitness)
    }

    /// Record a new best fitness if the current best improves on the
    /// best-ever record; the record never increases.
    pub fn has_new_best_individual(&mut self) -> (r: bool)
        requires
            old(self).wrappers().len() >= 1,
        ensures
            r == (old(self).wrappers()[0].fitness.key < old(self).new_best_key()),
            r ==> final(self).new_best_key() == old(self).wrappers()[0].fitness.key,
            !r ==> final(self).new_best_key() == old(self).new_best_key(),
            final(self).new_best_key() <= old(self).new_best_key(),
            final(self).wrappers() == old(self).wrappers(),
            Self::same_config(*old(self), *final(self)),
            final(self).reset_count() == old(self).reset_count(),
            final(self).reset_key() == old(self).reset_key(),
    {
        let best_fitness = self.get_best_fitness();
        if best_fitness.get_key() < self.new_best_fitness.get_key() {
            self.new_best_fitness = best_fitness;
            true
        } else {
            false
        }
    }

    /// Borrow the wrapper at index 0.
    pub fn get_best_individual(&self) -> (r: &DWIndividualWrapper<T>)
        requires
            self.wrappers().len() >= 1,
        ensures
            *r == self.wrappers()[0],
    {
        &self.collection[0]
    }

    /// Append one wrapper; the size bound is restored by the next
    /// `delete`.
    pub fn add_individual(&mut self, new_individual: DWIndividualWrapper<T>)
        ensures
            final(self).wrappers() == old(self).wrappers().push(new_individual),
            Self::same_tracking(*old(self), *final(self)),
    {
        self.collection.push(new_individual);
    }

    /// Borrow a uniformly random wrapper.
    pub fn get_random_individual(&mut self) -> (r: &DWIndividualWrapper<T>)
        requires
            old(self).wrappers().len() >= 1,
        ensures
            Self::same_state(*old(self), *final(self)),
            exists|i: int|
                0 <= i < final(self).wrappers().len() && *r == final(self).wrappers()[i],
    {
        let index = self.random_index();
        &self.collection[index]
    }

    /// Reseed the generator from system entropy, so that repeated work
    /// under one seed does not reoccur.
    pub fn reseed_rng(&mut self)
        ensures
            Self::same_state(*old(self), *final(self)),
    {
        self.rng = rng_from_entropy();
    }

    /// Arrange the collection in the reporting order: fitness keys closer
    /// than `threshold` form a group ranked by the user's auxiliary
    /// fitness.  Exactly the same wrappers come back, and with no grouping
    /// tolerance the order is plainly ascending by fitness.
    pub fn sort_additional_fitness(&mut self, threshold: u64)
        ensures
            final(self).wrappers().to_multiset() == old(self).wrappers().to_multiset(),
            final(self).wrappers().len() == old(self).wrappers().len(),
            all_from(final(self).wrappers(), old(self).wrappers()),
            threshold == 0 ==> sorted_by_fitness(final(self).wrappers()),
            Self::same_tracking(*old(self), *final(self)),
    {
        sort_for_reporting(&mut self.collection, threshold);
    }

    /// One `LowMem` pass: clone one random wrapper, mutate the clone
    /// `num_of_mutations` times against random peers, score it, append it.
    pub fn mutate_random_single_clone(&mut self)
        requires
            old(self).wrappers().len() >= 1,
        ensures
            final(self).wrappers().len() == old(self).wrappers().len() + 1,
            final(self).wrappers().take(old(self).wrappers().len() as int)
                == old(self).wrappers(),
            Self::same_tracking(*old(self), *final(self)),
    {
        let ghost pre = *old(self);
        let index1 = self.random_index();
        let mut new_individual = self.collection[index1].clone();
        let num = self.num_of_mutations;
        let mut k: u64 = 0;
        while k < num
            invariant
                Self::same_state(pre, *self),
                index1 < self.wrappers().len(),
            decreases num - k,
        {
            let index2 = self.random_index_new(index1);
            new_individual.mutate(&self.collection[index2]);
            k = k + 1;
        }
        new_individual.calculate_fitness();
        self.collection.push(new_individual);
        proof {
            assert(self.wrappers().take(pre.wrappers().len() as int) =~= pre.wrappers());
        }
    }

    /// One `Simple` pass: for every wrapper, clone it, mutate the clone
    /// `num_of_mutations` times against random peers, score it, append it.
    /// The population doubles.
    pub fn mutate_all_clone(&mut self)
        requires
            old(self).wrappers().len() >= 1,
        ensures
            final(self).wrappers().len() == 2 * old(self).wrappers().len(),
            final(self).wrappers().take(old(self).wrappers().len() as int)
                == old(self).wrappers(),
            Self::same_tracking(*old(self), *final(self)),
    {
        let ghost pre = *old(self);
        let n = self.collection.len();
        let mut index1: usize = 0;
        while index1 < n
            invariant
                Self::same_tracking(pre, *self),
                n == pre.wrappers().len(),
                1 <= n,
                index1 <= n,
                self.wrappers().len() == n + index1,
                self.wrappers().take(n as int) == pre.wrappers(),
            decreases n - index1,
        {
            let mut new_individual = self.collection[index1].clone();
            let num = self.num_of_mutations;
            let mut k: u64 = 0;
            while k < num
                invariant
                    Self::same_tracking(pre, *self),
                    n == pre.wrappers().len(),
                    index1 < n,
                    self.wrappers().len() == n + index1,
                    self.wrappers().take(n as int) == pre.wrappers(),
                decreases num - k,
            {
                let index2 = self.random_index_new(index1);
                new_individual.mutate(&self.collection[index2]);
                k = k + 1;
            }
            new_individual.calculate_fitness();
            self.collection.push(new_individual);
            proof {
                assert(self.wrappers().take(n as int) =~= pre.wrappers());
            }
            index1 = index1 + 1;
        }
    }

    /// One `OnlyBest` pass: for every wrapper, repeatedly mutate and score
    /// a clone, appending a copy whenever it strictly improved on its
    /// source's fitness: at most `num_of_mutations` copies per source.
    pub fn mutate_all_only_best(&mut self)
        requires
            old(self).wrappers().len() >= 1,
        ensures
            final(self).wrappers().len() >= old(self).wrappers().len(),
            final(self).wrappers().len() <= old(self).wrappers().len() + old(
                self,
            ).wrappers().len() * old(self).num_mutations(),
            final(self).wrappers().take(old(self).wrappers().len() as int)
                == old(self).wrappers(),
            Self::same_tracking(*old(self), *final(self)),
            crate::dw_select::appended_improve(old(self).wrappers(), final(self).wrappers()),
    {
        let ghost pre = *old(self);
        let n = self.collection.len();
        let mut index1: usize = 0;
        while index1 < n
            invariant
                Self::same_tracking(pre, *self),
                n == pre.wrappers().len(),
                1 <= n,
                index1 <= n,
                self.wrappers().len() >= n,
                self.wrappers().len() <= n + index1 * pre.num_mutations(),
                self.wrappers().take(n as int) == pre.wrappers(),
                crate::dw_select::appended_improve(pre.wrappers(), self.wrappers()),
            decreases n - index1,
        {
            let ghost len_at_source = self.wrappers().len();
            let mut new_individual = self.collection[index1].clone();
            let old_fitness = new_individual.get_fitness();
            proof {
                assert(self.wrappers()[index1 as int] == pre.wrappers()[index1 as int]) by {
                    assert(self.wrappers().take(n as int)[index1 as int]
                        == self.wrappers()[index1 as int]);
                }
            }
            let num = self.num_of_mutations;
            let mut k: u64 = 0;
            while k < num
                invariant
                    Self::same_tracking(pre, *self),
                    n == pre.wrappers().len(),
                    index1 < n,
                    num == pre.num_mutations(),
                    k <= num,
                    old_fitness == pre.wrappers()[index1 as int].fitness,
                    self.wrappers().len() >= n,
                    len_at_source <= n + index1 * pre.num_mutations(),
                    self.wrappers().len() <= len_at_source + k,
                    self.wrappers().take(n as int) == pre.wrappers(),
                    crate::dw_select::appended_improve(pre.wrappers(), self.wrappers()),
                decreases num - k,
            {
                let index2 = self.random_index_new(index1);
                new_individual.mutate(&self.collection[index2]);
                new_individual.calculate_fitness();
                if new_individual.get_fitness().get_key() < old_fitness.get_key() {
                    let ghost grown_pre = self.wrappers();
                    self.collection.push(new_individual.clone());
                    proof {
                        assert(self.wrappers().take(n as int) =~= pre.wrappers());
                        assert forall|j: int|
                            pre.wrappers().len() <= j < self.wrappers().len() implies exists|i: int|
                            0 <= i < pre.wrappers().len() && (#[trigger] self.wrappers()[j]).fitness.key
                                < pre.wrappers()[i].fitness.key by {
                            if j < grown_pre.len() {
                                assert(self.wrappers()[j] == grown_pre[j]);
                            } else {
                                assert(self.wrappers()[j].fitness.key < (
                                #[trigger] pre.wrappers()[index1 as int]).fitness.key);
                            }
                        }
                        assert(crate::dw_select::appended_improve(pre.wrappers(), self.wrappers()));
                    }
                }
                k = k + 1;
            }
            proof {
                assert((index1 + 1) * pre.num_mutations() == index1 * pre.num_mutations()
                    + pre.num_mutations()) by (nonlinear_arith);
            }
            index1 = index1 + 1;
        }
    }

    /// Handle a candidate handed in from outside, per the stagnation
    /// policy: on stagnation count up and, at the limit, randomly reset
    /// every wrapper; on progress remember the new best and accept the
    /// candidate only if it is strictly worse than the current best.
    pub fn check_reset(&mut self, individual: DWIndividualWrapper<T>)
        requires
            old(self).wf(),
        ensures
            final(self).wf(),
            Self::same_config(*old(self), *final(self)),
            final(self).new_best_key() == old(self).new_best_key(),
            ({
                let best = old(self).wrappers()[0].fitness.key;
                let bumped: u64 = if old(self).reset_count() < u64::MAX {
                    (old(self).reset_count() + 1) as u64
                } else {
                    u64::MAX
                };
                if old(self).reset_key() == best {
                    if old(self).reset_max() > 0 && bumped >= old(self).reset_max() {
                        &&& final(self).reset_count() == 0
                        &&& final(self).reset_key() == old(self).reset_key()
                        &&& final(self).wrappers().len() == old(self).wrappers().len()
                    } else {
                        &&& final(self).reset_count() == bumped
                        &&& final(self).reset_key() == old(self).reset_key()
                        &&& final(self).wrappers() == old(self).wrappers().push(individual)
                    }
                } else {
                    &&& final(self).reset_count() == 0
                    &&& final(self).reset_key() == best
                    &&& final(self).wrappers() == if individual.fitness.key > best {
                        old(self).wrappers().push(individual)
                    } else {
                        old(self).wrappers()
                    }
                }
            }),
    {
        let fitness = self.get_best_fitness();
        if self.reset_fitness.get_key() == fitness.get_key() {
            let bumped: u64 = if self.reset_counter < u64::MAX {
                self.reset_counter + 1
            } else {
                u64::MAX
            };
            self.reset_counter = bumped;
            if self.max_reset > 0 && bumped >= self.max_reset {
                self.reset_counter = 0;
                let ghost pre = *self;
                let len = self.collection.len();
                let mut idx: usize = 0;
                while idx < len
                    invariant
                        Self::same_tracking(pre, *self),
                        self.wrappers().len() == pre.wrappers().len(),
                        len == pre.wrappers().len(),
                        idx <= len,
                    decreases len - idx,
                {
                    let mut wrapper = self.collection.remove(0);
                    wrapper.random_reset();
                    wrapper.calculate_fitness();
                    self.collection.push(wrapper);
                    idx = idx + 1;
                }
            } else {
                self.add_individual(individual);
            }
        } else {
            self.reset_fitness = fitness;
            self.reset_counter = 0;
            if individual.get_fitness().get_key() > fitness.get_key() {
                self.add_individual(individual);
            }
        }
    }

    /// Restore the size bound with the configured strategy.  The survivors
    /// are drawn from the pre-delete population with multiplicity, and
    /// index 0 ends up carrying its minimum fitness; `SortKeep` keeps the
    /// smallest wrappers outright; under `SortUnique` and `RandomBest3` no
    /// two survivors share a fitness, one fitness level survives per slot
    /// up to the bound, and under `RandomBest3` the three lowest levels
    /// keep a representative.
    pub fn delete(&mut self)
        requires
            old(self).wf(),
        ensures
            final(self).wf(),
            Self::same_tracking(*old(self), *final(self)),
            final(self).wrappers().len() <= final(self).max_size(),
            final(self).best_at_zero(),
            all_from(final(self).wrappers(), old(self).wrappers()),
            final(self).wrappers().to_multiset().subset_of(old(self).wrappers().to_multiset()),
            old(self).method() == DWDeleteMethod::SortKeep ==> forall|w: DWIndividualWrapper<T>|
                w.fitness.key < final(self).wrappers().last().fitness.key
                    ==> (#[trigger] final(self).wrappers().to_multiset().count(w))
                    == old(self).wrappers().to_multiset().count(w),
            old(self).method() != DWDeleteMethod::SortKeep ==> pairwise_distinct(
                final(self).wrappers(),
            ),
            old(self).method() != DWDeleteMethod::SortKeep && old(self).max_size() >= 2
                && two_distinct_keys(old(self).wrappers()) ==> final(self).wrappers().len() >= 2,
            old(self).method() != DWDeleteMethod::SortKeep && old(self).max_size() >= 3
                && three_distinct_keys(old(self).wrappers()) ==> final(self).wrappers().len() >= 3,
            forall|j: int|
                0 <= j < old(self).wrappers().len() ==> final(self).wrappers()[0].fitness.key <= (
                #[trigger] old(self).wrappers()[j]).fitness.key,
            old(self).method() != DWDeleteMethod::RandomBest3 ==> sorted_by_fitness(
                final(self).wrappers(),
            ),
            old(self).method() != DWDeleteMethod::SortKeep ==> adjacent_distinct(
                final(self).wrappers(),
            ),
            old(self).method() == DWDeleteMethod::SortKeep ==> final(self).wrappers().len()
                == if old(self).wrappers().len() <= old(self).max_size() {
                    old(self).wrappers().len() as int
                } else {
                    old(self).max_size()
                },
            old(self).method() == DWDeleteMethod::RandomBest3 && final(self).wrappers().len() >= 2
                ==> final(self).wrappers()[0].fitness.key < final(self).wrappers()[1].fitness.key
                    && (forall|j: int|
                        0 <= j < old(self).wrappers().len()
                            && (#[trigger] old(self).wrappers()[j]).fitness.key
                            > final(self).wrappers()[0].fitness.key
                            ==> final(self).wrappers()[1].fitness.key
                            <= old(self).wrappers()[j].fitness.key),
            old(self).method() == DWDeleteMethod::RandomBest3 && final(self).wrappers().len() >= 3
                ==> final(self).wrappers()[1].fitness.key < final(self).wrappers()[2].fitness.key
                    && (forall|j: int|
                        0 <= j < old(self).wrappers().len()
                            && (#[trigger] old(self).wrappers()[j]).fitness.key
                            > final(self).wrappers()[1].fitness.key
                            ==> final(self).wrappers()[2].fitness.key
                            <= old(self).wrappers()[j].fitness.key),
    {
        let ghost orig = self.collection@;
        match self.delete_method {
            DWDeleteMethod::SortKeep => {
                sort_by_fitness_key(&mut self.collection);
                let ghost sorted = self.collection@;
                self.collection.truncate(self.max_population_size);
                proof {
                    lemma_sorted_head_min(sorted, orig);
                    lemma_multiset_all_from(sorted, orig);
                    if orig.len() > self.max_population_size {
                        assert(self.collection@ == sorted.subrange(
                            0,
                            self.max_population_size as int,
                        ));
                        lemma_prefix_all_from(sorted, self.max_population_size as int);
                    } else {
                        assert(self.collection@ == sorted);
                        crate::dw_select::lemma_all_from_refl(sorted);
                    }
                    crate::dw_select::lemma_all_from_trans(self.collection@, sorted, orig);
                    assert forall|i: int, j: int|
                        0 <= i < j < self.collection@.len() implies self.collection@[i].fitness.key
                        <= self.collection@[j].fitness.key by {
                        assert(self.collection@[i] == sorted[i]);
                        assert(self.collection@[j] == sorted[j]);
                    }
                    let fin = self.collection@;
                    if orig.len() > self.max_population_size {
                        lemma_prefix_submultiset(sorted, self.max_population_size as int);
                        lemma_sorted_prefix_counts(sorted, self.max_population_size as int);
                        assert(fin.last() == sorted[self.max_population_size - 1]);
                    }
                    assert forall|w0: DWIndividualWrapper<T>| #[trigger] fin.to_multiset().count(
                        w0,
                    ) <= orig.to_multiset().count(w0) by {
                        if orig.len() > self.max_population_size {
                            assert(fin.to_multiset().count(w0) <= sorted.to_multiset().count(w0));
                        }
                    }
                    assert(fin.to_multiset().subset_of(orig.to_multiset()));
                    assert forall|w0: DWIndividualWrapper<T>|
                        w0.fitness.key < fin.last().fitness.key implies #[trigger] fin.to_multiset(
                    ).count(w0) == orig.to_multiset().count(w0) by {
                        if orig.len() > self.max_population_size {
                            assert(fin.to_multiset().count(w0) == sorted.to_multiset().count(w0));
                        }
                    }
                }
            },
            DWDeleteMethod::SortUnique => {
                sort_by_fitness_key(&mut self.collection);
                let ghost sorted = self.collection@;
                dedup_by_fitness_key(&mut self.collection);
                let ghost deduped = self.collection@;
                self.collection.truncate(self.max_population_size);
                proof {
                    lemma_sorted_head_min(sorted, orig);
                    lemma_multiset_all_from(sorted, orig);
                    if deduped.len() > self.max_population_size {
                        assert(self.collection@ == deduped.subrange(
                            0,
                            self.max_population_size as int,
                        ));
                        lemma_prefix_all_from(deduped, self.max_population_size as int);
                    } else {
                        assert(self.collection@ == deduped);
                        crate::dw_select::lemma_all_from_refl(deduped);
                    }
                    crate::dw_select::lemma_all_from_trans(self.collection@, deduped, sorted);
                    crate::dw_select::lemma_all_from_trans(self.collection@, sorted, orig);
                    assert forall|i: int, j: int|
                        0 <= i < j < self.collection@.len() implies self.collection@[i].fitness.key
                        <= self.collection@[j].fitness.key by {
                        assert(self.collection@[i] == deduped[i]);
                        assert(self.collection@[j] == deduped[j]);
                    }
                    assert forall|i: int| 0 < i < self.collection@.len() implies self.collection@[i
                        - 1].fitness.key != (#[trigger] self.collection@[i]).fitness.key by {
                        assert(self.collection@[i] == deduped[i]);
                        assert(self.collection@[i - 1] == deduped[i - 1]);
                    }
                    let fin = self.collection@;
                    if deduped.len() > self.max_population_size {
                        lemma_prefix_submultiset(deduped, self.max_population_size as int);
                    }
                    assert forall|w0: DWIndividualWrapper<T>| #[trigger] fin.to_multiset().count(
                        w0,
                    ) <= orig.to_multiset().count(w0) by {
                        assert(fin.to_multiset().count(w0) <= deduped.to_multiset().count(w0));
                        assert(deduped.to_multiset().count(w0) <= sorted.to_multiset().count(w0));
                    }
                    assert(fin.to_multiset().subset_of(orig.to_multiset()));
                    lemma_sorted_adjacent_distinct(deduped);
                    assert forall|i: int, j: int|
                        0 <= i < j < fin.len() implies fin[i].fitness.key != fin[j].fitness.key by {
                        assert(fin[i] == deduped[i]);
                        assert(fin[j] == deduped[j]);
                    }
                    lemma_distinct_levels_survive(orig, sorted, deduped);
                }
            },
            DWDeleteMethod::RandomBest3 => {
                sort_by_fitness_key(&mut self.collection);
                let ghost sorted = self.collection@;
                dedup_by_fitness_key(&mut self.collection);
                let ghost deduped = self.collection@;
                proof {
                    lemma_sorted_adjacent_distinct(deduped);
                }
                shrink_keeping_best3(&mut self.collection, self.max_population_size, &mut self.rng);
                proof {
                    let fin = self.collection@;
                    lemma_sorted_head_min(sorted, orig);
                    lemma_multiset_all_from(sorted, orig);
                    crate::dw_select::lemma_all_from_trans(deduped, sorted, orig);
                    crate::dw_select::lemma_all_from_trans(fin, deduped, orig);
                    lemma_all_from_key_bound(fin, deduped, deduped[0].fitness.key);
                    assert(fin[0] == deduped[0]);
                    if fin.len() >= 2 {
                        crate::dw_select::lemma_level_bound(orig, sorted, deduped, 0);
                        assert(fin[1] == deduped[1]);
                    }
                    if fin.len() >= 3 {
                        crate::dw_select::lemma_level_bound(orig, sorted, deduped, 1);
                        assert(fin[2] == deduped[2]);
                    }
                    assert forall|i: int| 0 < i < fin.len() implies fin[i - 1].fitness.key != (
                    #[trigger] fin[i]).fitness.key by {
                        assert(crate::dw_select::pairwise_distinct(fin));
                    }
                    assert forall|w0: DWIndividualWrapper<T>| #[trigger] fin.to_multiset().count(
                        w0,
                    ) <= orig.to_multiset().count(w0) by {
                        assert(fin.to_multiset().count(w0) <= deduped.to_multiset().count(w0));
                        assert(deduped.to_multiset().count(w0) <= sorted.to_multiset().count(w0));
                    }
                    assert(fin.to_multiset().subset_of(orig.to_multiset()));
                    lemma_distinct_levels_survive(orig, sorted, deduped);
                }
            },
        }
    }
}

} // verus!
