//! darwin_rs: a distributed parallel evolutionary-search engine.
//!
//! A user defines a candidate solution type (an *individual*) with a mutation
//! operator and a fitness function; the engine searches for a minimum-fitness
//! individual.  A bounded population of scored individuals lives on every
//! node; one server process owns the reference population, seeds the workers
//! and merges their results.  The population engine, the node and server
//! decision logic, the strategy tags and the persistence codecs live here,
//! with their behaviour stated in contracts; the transport and all file I/O
//! stay outside the library.

pub mod dw_codec;
pub mod dw_config;
pub mod dw_error;
pub mod dw_fitness;
pub mod dw_individual;
pub mod dw_json;
pub mod dw_node;
pub mod dw_population;
pub mod dw_rng;
pub mod dw_select;
pub mod dw_server;
mod dw_text;
pub mod queens;

pub use dw_config::{DWConfiguration, DEFAULT_FITNESS_LIMIT_KEY};
pub use dw_error::DWError;
pub use dw_fitness::DWFitness;
pub use dw_individual::{DWIndividual, DWIndividualWrapper};
pub use dw_node::{DWMutateMethod, DWNode};
pub use dw_population::{DWDeleteMethod, DWPopulation};
pub use dw_server::{DWFileFormat, DWJobStatus, DWServer};
pub use queens::Queens;
