use vstd::prelude::*;

use crate::dw_fitness::DWFitness;
use crate::dw_node::DWMutateMethod;
use crate::dw_population::DWDeleteMethod;
use crate::dw_server::DWFileFormat;

verus! {

/// The default fitness limit: the image of 1.0 under the standard
/// order-preserving embedding of IEEE doubles into `u64` keys.
pub const DEFAULT_FITNESS_LIMIT_KEY: u64 = 0xBFF0000000000000;

/// The configuration surface of the engine: population bound and target
/// fitness, the server's persistence knobs, and the node's round counts and
/// strategy tags.
#[derive(Debug, Clone)]
pub struct DWConfiguration {
    // Common:
    /// The size bound of every population; at least 1.
    pub max_population_size: usize,
    /// The search completes once the best fitness is strictly below this.
    pub fitness_limit: DWFitness,
    // Server config:
    /// Where the final population is persisted.
    pub export_file_name: String,
    /// Persist every new global best to an auto-numbered snapshot file.
    pub save_new_best_individual: bool,
    /// The encoding of persisted state.
    pub file_format: DWFileFormat,
    // Node config:
    /// Improvement rounds a worker runs per server exchange.
    pub num_of_iterations: u64,
    /// Mutation sub-steps per individual per round.
    pub num_of_mutations: u64,
    /// How a round grows the population.
    pub mutate_method: DWMutateMethod,
    /// How a round restores the size bound.
    pub delete_method: DWDeleteMethod,
    /// When set, the final reporting order groups fitness keys closer than
    /// this tolerance and breaks ties by the auxiliary fitness.
    pub additional_fitness_threshold: Option<u64>,
    /// Stagnant server exchanges tolerated before a random reset; 0
    /// disables the reset.
    pub reset_limit: u64,
}

impl DWConfiguration {
    /// What every population requires of its configuration: at least one
    /// wrapper must fit, and `RandomBest3` needs room for its three
    /// survivors.
    pub open spec fn valid(self) -> bool {
        &&& self.max_population_size >= 1
        &&& self.delete_method == DWDeleteMethod::RandomBest3 ==> self.max_population_size >= 3
    }
}

impl Default for DWConfiguration {
    fn default() -> (r: Self)
        ensures
            r.max_population_size == 20,
            r.fitness_limit.key == DEFAULT_FITNESS_LIMIT_KEY,
            r.export_file_name@ == "best_population"@,
            r.save_new_best_individual == false,
            r.file_format == DWFileFormat::JSON,
            r.num_of_iterations == 1000,
            r.num_of_mutations == 10,
            r.mutate_method == DWMutateMethod::Simple,
            r.delete_method == DWDeleteMethod::SortUnique,
            r.additional_fitness_threshold == Option::<u64>::None,
            r.reset_limit == 100,
            r.valid(),
    {
        DWConfiguration {
            // Common:
            max_population_size: 20,
            fitness_limit: DWFitness::from_key(DEFAULT_FITNESS_LIMIT_KEY),
            // Server config:
            export_file_name: "best_population".to_owned(),
            save_new_best_individual: false,
            file_format: DWFileFormat::JSON,
            // Node config:
            num_of_iterations: 1000,
            num_of_mutations: 10,
            mutate_method: DWMutateMethod::Simple,
            delete_method: DWDeleteMethod::SortUnique,
            additional_fitness_threshold: None,
            reset_limit: 100,
        }
    }
}

} // verus!
