use vstd::prelude::*;

use crate::dw_codec::{decode_record, encode_record, spec_parse_record, spec_record_bytes};
use crate::dw_config::DWConfiguration;
use crate::dw_error::DWError;
use crate::dw_individual::{DWIndividual, DWIndividualWrapper};
use crate::dw_population::DWPopulation;
use crate::dw_text::str_eq;

verus! {

/// How a worker grows its population during one round.
#[derive(Debug, Clone, Copy, PartialEq, Eq, Structural)]
pub enum DWMutateMethod {
    /// Clone every wrapper, mutate the clone repeatedly, append it.
    Simple,
    /// Keep only clones that strictly improved on their source.
    OnlyBest,
    /// Clone a single random wrapper, mutate it repeatedly, append it.
    LowMem,
}

impl DWMutateMethod {
    /// Parse a mutate-method tag; exactly `simple`, `only_best` and
    /// `low_mem` are recognized.
    pub fn from_str(s: &str) -> (r: Result<DWMutateMethod, DWError>)
        ensures
            s@ == "simple"@ ==> r == Ok::<DWMutateMethod, DWError>(DWMutateMethod::Simple),
            s@ == "only_best"@ ==> r == Ok::<DWMutateMethod, DWError>(DWMutateMethod::OnlyBest),
            s@ == "low_mem"@ ==> r == Ok::<DWMutateMethod, DWError>(DWMutateMethod::LowMem),
            s@ != "simple"@ && s@ != "only_best"@ && s@ != "low_mem"@ ==> (r matches Err(
                DWError::ParseDWMethodError(m),
            ) && m@ == s@),
    {
        proof {
            reveal_strlit("simple");
            reveal_strlit("only_best");
            reveal_strlit("low_mem");
            assert("simple"@.len() == 6);
            assert("only_best"@.len() == 9);
            assert("low_mem"@.len() == 7);
        }
        if str_eq(s, "simple") {
            Ok(DWMutateMethod::Simple)
        } else if str_eq(s, "only_best") {
            Ok(DWMutateMethod::OnlyBest)
        } else if str_eq(s, "low_mem") {
            Ok(DWMutateMethod::LowMem)
        } else {
            Err(DWError::ParseDWMethodError(s.to_owned()))
        }
    }

    /// Convert an integer tag; exactly 0, 1 and 2 are recognized.
    pub fn try_from(value: u8) -> (r: Result<DWMutateMethod, DWError>)
        ensures
            value == 0 ==> r == Ok::<DWMutateMethod, DWError>(DWMutateMethod::Simple),
            value == 1 ==> r == Ok::<DWMutateMethod, DWError>(DWMutateMethod::OnlyBest),
            value == 2 ==> r == Ok::<DWMutateMethod, DWError>(DWMutateMethod::LowMem),
            value >= 3 ==> r == Err::<DWMutateMethod, DWError>(
                DWError::ConvertDWMutateMethodError(value),
            ),
    {
        match value {
            0 => Ok(DWMutateMethod::Simple),
            1 => Ok(DWMutateMethod::OnlyBest),
            2 => Ok(DWMutateMethod::LowMem),
            _ => Err(DWError::ConvertDWMutateMethodError(value)),
        }
    }

    /// The tag under which this method parses.
    pub fn as_str(&self) -> (r: &'static str)
        ensures
            *self == DWMutateMethod::Simple ==> r@ == "simple"@,
            *self == DWMutateMethod::OnlyBest ==> r@ == "only_best"@,
            *self == DWMutateMethod::LowMem ==> r@ == "low_mem"@,
    {
        match self {
            DWMutateMethod::Simple => "simple",
            DWMutateMethod::OnlyBest => "only_best",
            DWMutateMethod::LowMem => "low_mem",
        }
    }
}

/// A worker: one population plus the round knobs, exchanging candidates
/// with the server as opaque record bytes.  The transport that carries the
/// bytes lives outside the library.
pub struct DWNode<T> {
    population: DWPopulation<T>,
    num_of_iterations: u64,
    mutate_method: DWMutateMethod,
    additional_fitness_threshold: Option<u64>,
    best_counter: u64,
}

impl<T: DWIndividual + Clone> DWNode<T> {
    /// The worker's population.
    pub closed spec fn population(self) -> DWPopulation<T> {
        self.population
    }

    /// Rounds run per server exchange.
    pub closed spec fn iterations(self) -> u64 {
        self.num_of_iterations
    }

    /// The configured mutate strategy.
    pub closed spec fn mutate_method_spec(self) -> DWMutateMethod {
        self.mutate_method
    }

    /// The tolerance that groups fitness keys in the reporting order, when
    /// one is configured.
    pub closed spec fn threshold(self) -> Option<u64> {
        self.additional_fitness_threshold
    }

    /// How often this worker found a new best.
    pub closed spec fn best_count(self) -> u64 {
        self.best_counter
    }

    /// Build a worker around a fresh population grown from the initial
    /// individual.
    pub fn new(initial: T, dw_configuration: &DWConfiguration) -> (r: Self)
        requires
            dw_configuration.valid(),
        ensures
            r.population().wf(),
            r.population().best_at_zero(),
            r.iterations() == dw_configuration.num_of_iterations,
            r.mutate_method_spec() == dw_configuration.mutate_method,
            r.threshold() == dw_configuration.additional_fitness_threshold,
            r.best_count() == 0,
    {
        let initial = DWIndividualWrapper::new(initial);
        let population = DWPopulation::new(initial, dw_configuration);
        Self {
            population,
            num_of_iterations: dw_configuration.num_of_iterations,
            mutate_method: dw_configuration.mutate_method,
            additional_fitness_threshold: dw_configuration.additional_fitness_threshold,
            best_counter: 0,
        }
    }

    /// Run up to `num_of_iterations` rounds of the configured mutate +
    /// delete pair, stopping at the round boundary where the best fitness
    /// first lies below the limit.  The best fitness never worsens, and
    /// once it is below the limit it stays there.
    pub fn run_rounds(&mut self) -> (rounds: u64)
        requires
            old(self).population().wf(),
        ensures
            final(self).population().wf(),
            DWPopulation::same_tracking(old(self).population(), final(self).population()),
            final(self).iterations() == old(self).iterations(),
            final(self).mutate_method_spec() == old(self).mutate_method_spec(),
            final(self).threshold() == old(self).threshold(),
            final(self).best_count() == old(self).best_count(),
            rounds <= old(self).iterations(),
            rounds > 0 ==> final(self).population().wrappers().len()
                <= final(self).population().max_size(),
            old(self).iterations() > 0 ==> rounds > 0,
            rounds > 0 ==> final(self).population().best_at_zero(),
            rounds == 0 ==> final(self).population().wrappers()
                == old(self).population().wrappers(),
            final(self).population().wrappers()[0].fitness.key
                <= old(self).population().wrappers()[0].fitness.key,
            rounds < old(self).iterations() ==> final(self).population().wrappers()[0].fitness.key
                < final(self).population().limit_key(),
            old(self).population().wrappers()[0].fitness.key < old(self).population().limit_key()
                ==> final(self).population().wrappers()[0].fitness.key
                    < final(self).population().limit_key(),
    {
        let ghost pre = *old(self);
        let iters = self.num_of_iterations;
        let mut rounds: u64 = 0;
        while rounds < iters
            invariant_except_break
                rounds <= iters,
            invariant
                iters == pre.iterations(),
                self.num_of_iterations == pre.iterations(),
                self.mutate_method == pre.mutate_method_spec(),
                self.additional_fitness_threshold == pre.threshold(),
                self.best_counter == pre.best_count(),
                rounds > 0 ==> self.population.wrappers().len() <= self.population.max_size(),
                self.population.wf(),
                DWPopulation::same_tracking(pre.population(), self.population),
                rounds > 0 ==> self.population.best_at_zero(),
                rounds == 0 ==> self.population.wrappers() == pre.population().wrappers(),
                self.population.wrappers()[0].fitness.key <= pre.population().wrappers()[0].fitness.key,
            ensures
                rounds <= iters,
                iters > 0 ==> rounds > 0,
                rounds == iters || self.population.wrappers()[0].fitness.key
                    < self.population.limit_key(),
            decreases iters - rounds,
        {
            let ghost before = self.population;
            match self.mutate_method {
                DWMutateMethod::Simple => self.population.mutate_all_clone(),
                DWMutateMethod::OnlyBest => self.population.mutate_all_only_best(),
                DWMutateMethod::LowMem => self.population.mutate_random_single_clone(),
            }
            proof {
                let grown = self.population.wrappers();
                assert(grown.take(before.wrappers().len() as int)[0] == grown[0]);
                assert(grown[0] == before.wrappers()[0]);
            }
            self.population.delete();
            rounds = rounds + 1;
            if self.population.is_job_done() {
                break;
            }
        }
        rounds
    }

    /// Handle one seed from the server: decode it, run the stagnation
    /// check, reseed the generator, run the rounds, arrange the reporting
    /// order when a grouping tolerance is configured, and return the
    /// encoded record of the wrapper at index 0, notifying the individual
    /// and crediting this worker when it set a new best-ever fitness.
    pub fn process_data_from_server(&mut self, data: &Vec<u8>) -> (r: Result<Vec<u8>, DWError>)
        requires
            old(self).population().wf(),
        ensures
            spec_parse_record(data@) is None ==> r matches Err(e),
            r matches Err(e) ==> e == DWError::SerializationError && *final(self) == *old(self),
            r matches Ok(bytes) ==> {
                let best = final(self).population().wrappers()[0];
                &&& final(self).population().wf()
                &&& bytes@ == spec_record_bytes(best.fitness.key, best.individual.data_view())
                &&& final(self).population().new_best_key() <= old(self).population().new_best_key()
                &&& old(self).iterations() > 0 ==> final(self).population().wrappers().len()
                    <= final(self).population().max_size()
                &&& old(self).iterations() > 0 && old(self).threshold() is None
                    ==> final(self).population().best_at_zero()
                &&& (final(self).population().new_best_key() < old(self).population().new_best_key()
                    ==> final(self).best_count() == if old(self).best_count() < u64::MAX {
                    old(self).best_count() + 1
                } else {
                    old(self).best_count() as int
                })
                &&& (final(self).population().new_best_key()
                    == old(self).population().new_best_key() ==> final(self).best_count()
                    == old(self).best_count())
            },
    {
        let wrapper = decode_record::<T>(data);
        match wrapper {
            None => Err(DWError::SerializationError),
            Some(individual) => {
                self.population.check_reset(individual);
                self.population.reseed_rng();
                let rounds = self.run_rounds();
                proof {
                    if rounds == 0 {
                        assert(self.population.wrappers().len() >= 1);
                    }
                }
                match self.additional_fitness_threshold {
                    Some(threshold) => self.population.sort_additional_fitness(threshold),
                    None => {},
                }
                let has_new_best = self.population.has_new_best_individual();
                if has_new_best {
                    self.best_counter = if self.best_counter < u64::MAX {
                        self.best_counter + 1
                    } else {
                        self.best_counter
                    };
                    let best_individual = self.population.get_best_individual();
                    best_individual.new_best_individual();
                }
                let best_individual = self.population.get_best_individual();
                Ok(encode_record(best_individual))
            },
        }
    }
}

} // verus!
