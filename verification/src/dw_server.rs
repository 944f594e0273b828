use std::collections::HashMap;

use vstd::prelude::*;

use crate::dw_codec::{decode_record, encode_population, encode_record, spec_parse_record,
    spec_population_bytes, spec_record_bytes, spec_records_of};
use crate::dw_config::DWConfiguration;
use crate::dw_error::DWError;
use crate::dw_individual::{DWIndividual, DWIndividualWrapper};
use crate::dw_json::{decode_json_population, encode_json_population, spec_dec_chars,
    spec_json_population_bytes};
use crate::dw_population::DWPopulation;
use crate::dw_text::str_eq;

verus! {

broadcast use vstd::std_specs::hash::group_hash_axioms;

/// The on-disk and on-wire encoding of persisted state.
#[derive(Debug, Clone, Copy, PartialEq, Eq, Structural)]
pub enum DWFileFormat {
    /// The compact length-prefixed encoding.
    Binary,
    /// The human-readable encoding.
    JSON,
}

impl DWFileFormat {
    /// Parse a file-format tag; exactly `binary` and `json` are recognized.
    pub fn from_str(s: &str) -> (r: Result<DWFileFormat, DWError>)
        ensures
            s@ == "binary"@ ==> r == Ok::<DWFileFormat, DWError>(DWFileFormat::Binary),
            s@ == "json"@ ==> r == Ok::<DWFileFormat, DWError>(DWFileFormat::JSON),
            s@ != "binary"@ && s@ != "json"@ ==> (r matches Err(
                DWError::ParseDWFileFormatError(m),
            ) && m@ == s@),
    {
        proof {
            reveal_strlit("binary");
            reveal_strlit("json");
            assert("binary"@.len() == 6);
            assert("json"@.len() == 4);
        }
        if str_eq(s, "binary") {
            Ok(DWFileFormat::Binary)
        } else if str_eq(s, "json") {
            Ok(DWFileFormat::JSON)
        } else {
            Err(DWError::ParseDWFileFormatError(s.to_owned()))
        }
    }

    /// Convert an integer tag; exactly 0 and 1 are recognized.
    pub fn try_from(value: u8) -> (r: Result<DWFileFormat, DWError>)
        ensures
            value == 0 ==> r == Ok::<DWFileFormat, DWError>(DWFileFormat::Binary),
            value == 1 ==> r == Ok::<DWFileFormat, DWError>(DWFileFormat::JSON),
            value >= 2 ==> r == Err::<DWFileFormat, DWError>(
                DWError::ConvertDWFileFormatError(value),
            ),
    {
        match value {
            0 => Ok(DWFileFormat::Binary),
            1 => Ok(DWFileFormat::JSON),
            _ => Err(DWError::ConvertDWFileFormatError(value)),
        }
    }

    /// The tag under which this format parses.
    pub fn as_str(&self) -> (r: &'static str)
        ensures
            *self == DWFileFormat::Binary ==> r@ == "binary"@,
            *self == DWFileFormat::JSON ==> r@ == "json"@,
    {
        match self {
            DWFileFormat::Binary => "binary",
            DWFileFormat::JSON => "json",
        }
    }

    /// The file-name extension used for snapshots of this format.
    pub fn extension(&self) -> (r: &'static str)
        ensures
            *self == DWFileFormat::Binary ==> r@ == "dat"@,
            *self == DWFileFormat::JSON ==> r@ == "json"@,
    {
        match self {
            DWFileFormat::Binary => "dat",
            DWFileFormat::JSON => "json",
        }
    }
}

/// What the server answers when a worker asks for a seed.
pub enum DWJobStatus {
    /// The search is complete; the worker may stop.
    Finished,
    /// An encoded seed record for the worker to improve on.
    Unfinished(Vec<u8>),
}

/// The bytes are the compact record of some wrapper of `s`.
pub open spec fn encodes_member<T: DWIndividual>(
    bytes: Seq<u8>,
    s: Seq<DWIndividualWrapper<T>>,
) -> bool {
    exists|i: int|
        0 <= i < s.len() && bytes == spec_record_bytes(
            (#[trigger] s[i]).fitness.key,
            s[i].individual.data_view(),
        )
}

/// The new wrappers are drawn, with multiplicity, from the old wrappers
/// plus one wrapper carrying the given fitness key and portable words.
pub open spec fn merged_from<T: DWIndividual>(
    newp: Seq<DWIndividualWrapper<T>>,
    oldp: Seq<DWIndividualWrapper<T>>,
    key: u64,
    data: Seq<u64>,
) -> bool {
    exists|w: DWIndividualWrapper<T>|
        w.fitness.key == key && w.individual.data_view() == data && newp.to_multiset().subset_of(
            (#[trigger] oldp.push(w)).to_multiset(),
        )
}

/// The snapshot file name for the `counter`-th new best individual.
pub open spec fn spec_snapshot_name(counter: nat, format: DWFileFormat) -> Seq<char> {
    "individual_"@ + spec_dec_chars(counter) + "."@ + (if format == DWFileFormat::Binary {
        "dat"@
    } else {
        "json"@
    })
}

/// Relies on `String::from_utf8`: bytes below 128 become exactly their
/// characters.
#[verifier::external_body]
fn ascii_to_string(bytes: Vec<u8>) -> (r: String)
    requires
        forall|i: int| 0 <= i < bytes@.len() ==> (#[trigger] bytes@[i]) < 128,
    ensures
        r@ == bytes@.map_values(|b: u8| b as char),
{
    String::from_utf8(bytes).unwrap_or_default()
}

/// The coordinator: the reference population, the persistence knobs, the
/// snapshot counter and the per-worker credit scores.  The transport and
/// the file writes live outside the library: the encode and decode halves
/// of every exchange are here.
pub struct DWServer<T> {
    population: DWPopulation<T>,
    export_file_name: String,
    save_new_best_individual: bool,
    individual_file_counter: u64,
    file_format: DWFileFormat,
    node_score: HashMap<u64, u64>,
}

impl<T: DWIndividual + Clone> DWServer<T> {
    /// The reference population.
    pub closed spec fn population(self) -> DWPopulation<T> {
        self.population
    }

    /// Where the final population is persisted.
    pub closed spec fn export_name(self) -> Seq<char> {
        self.export_file_name@
    }

    /// Whether every new best is persisted to a snapshot file.
    pub closed spec fn save_flag(self) -> bool {
        self.save_new_best_individual
    }

    /// How many snapshot files have been written.
    pub closed spec fn file_counter(self) -> u64 {
        self.individual_file_counter
    }

    /// The persistence encoding.
    pub closed spec fn format(self) -> DWFileFormat {
        self.file_format
    }

    /// The per-worker credit scores: how often each worker delivered a new
    /// best.
    pub closed spec fn scores(self) -> Map<u64, u64> {
        self.node_score@
    }

    /// The persistence knobs of `b` are those of `a`.
    pub open spec fn same_server_config(a: Self, b: Self) -> bool {
        &&& b.export_name() == a.export_name()
        &&& b.save_flag() == a.save_flag()
        &&& b.format() == a.format()
    }

    /// Build a coordinator around a fresh population grown from the
    /// initial individual.
    pub fn new(initial: T, dw_configuration: DWConfiguration) -> (r: Self)
        requires
            dw_configuration.valid(),
        ensures
            r.population().wf(),
            r.population().best_at_zero(),
            r.export_name() == dw_configuration.export_file_name@,
            r.save_flag() == dw_configuration.save_new_best_individual,
            r.file_counter() == 0,
            r.format() == dw_configuration.file_format,
            r.scores() == Map::<u64, u64>::empty(),
    {
        let initial = DWIndividualWrapper::new(initial);
        let population = DWPopulation::new(initial, &dw_configuration);
        Self {
            population,
            export_file_name: dw_configuration.export_file_name,
            save_new_best_individual: dw_configuration.save_new_best_individual,
            individual_file_counter: 0,
            file_format: dw_configuration.file_format,
            node_score: HashMap::new(),
        }
    }

    /// Replace the reference population, draining the input.
    pub fn set_population(&mut self, population: &mut Vec<DWIndividualWrapper<T>>)
        requires
            old(population)@.len() >= 1,
        ensures
            final(self).population().wrappers() == old(population)@,
            final(population)@.len() == 0,
            old(self).population().wf() ==> final(self).population().wf(),
            Self::same_server_config(*old(self), *final(self)),
            final(self).file_counter() == old(self).file_counter(),
            final(self).scores() == old(self).scores(),
    {
        self.population.from_vec(population);
    }

    /// Install a population decoded from persisted bytes in the configured
    /// format; refused when the bytes do not parse, when an individual
    /// rejects its portable words, or when the population is empty.
    pub fn read_population(&mut self, data: &Vec<u8>) -> (r: Result<(), DWError>)
        ensures
            r matches Err(e) ==> e == DWError::SerializationError && *final(self) == *old(self),
            r matches Ok(()) ==> final(self).population().wrappers().len() >= 1
                && Self::same_server_config(*old(self), *final(self))
                && (old(self).population().wf() ==> final(self).population().wf()),
            r matches Ok(()) && old(self).format() == DWFileFormat::Binary ==> (
            crate::dw_codec::spec_parse_population(data@) matches Some(recs) && spec_records_of(
                final(self).population().wrappers(),
            ) == recs),
            r matches Ok(()) && old(self).format() == DWFileFormat::JSON ==> data@
                == spec_json_population_bytes(spec_records_of(final(self).population().wrappers())),
    {
        let decoded: Option<Vec<DWIndividualWrapper<T>>> = match self.file_format {
            DWFileFormat::Binary => crate::dw_codec::decode_population(data),
            DWFileFormat::JSON => decode_json_population(data),
        };
        match decoded {
            None => Err(DWError::SerializationError),
            Some(mut wrappers) => {
                if wrappers.len() == 0 {
                    return Err(DWError::SerializationError);
                }
                self.population.from_vec(&mut wrappers);
                Ok(())
            },
        }
    }

    /// Add one individual decoded from persisted bytes in the configured
    /// format; refused when the bytes do not parse or the individual
    /// rejects its portable words.
    pub fn read_individual(&mut self, data: &Vec<u8>) -> (r: Result<(), DWError>)
        ensures
            r matches Err(e) ==> e == DWError::SerializationError && *final(self) == *old(self),
            r matches Ok(()) ==> ({
                let appended = final(self).population().wrappers().last();
                &&& final(self).population().wrappers() == old(self).population().wrappers().push(
                    appended,
                )
                &&& Self::same_server_config(*old(self), *final(self))
                &&& (old(self).format() == DWFileFormat::Binary ==> (spec_parse_record(data@)
                    matches Some(rec) && appended.fitness.key == rec.0
                    && appended.individual.data_view() == rec.1))
                &&& (old(self).format() == DWFileFormat::JSON ==> data@
                    == crate::dw_json::spec_json_record_bytes(
                    appended.fitness.key,
                    appended.individual.data_view(),
                ))
            }),
    {
        let decoded: Option<DWIndividualWrapper<T>> = match self.file_format {
            DWFileFormat::Binary => decode_record(data),
            DWFileFormat::JSON => crate::dw_json::decode_json_record(data),
        };
        match decoded {
            None => Err(DWError::SerializationError),
            Some(individual) => {
                self.add_individual(individual);
                proof {
                    assert(self.population.wrappers().last() == individual);
                }
                Ok(())
            },
        }
    }

    /// Append one wrapper to the reference population.
    pub fn add_individual(&mut self, individual: DWIndividualWrapper<T>)
        ensures
            final(self).population().wrappers() == old(self).population().wrappers().push(
                individual,
            ),
            Self::same_server_config(*old(self), *final(self)),
            DWPopulation::same_tracking(old(self).population(), final(self).population()),
            final(self).file_counter() == old(self).file_counter(),
            final(self).scores() == old(self).scores(),
    {
        self.population.add_individual(individual);
    }

    /// The whole population encoded in the configured format, with the
    /// export file name it should be persisted under.
    pub fn save_population_data(&self) -> (r: (String, Vec<u8>))
        ensures
            r.0@ == self.export_name(),
            self.format() == DWFileFormat::Binary ==> r.1@ == spec_population_bytes(
                spec_records_of(self.population().wrappers()),
            ),
            self.format() == DWFileFormat::JSON ==> r.1@ == spec_json_population_bytes(
                spec_records_of(self.population().wrappers()),
            ),
    {
        let data: Vec<u8> = match self.file_format {
            DWFileFormat::Binary => encode_population(self.population.to_vec()),
            DWFileFormat::JSON => encode_json_population(self.population.to_vec()),
        };
        (self.export_file_name.clone(), data)
    }

    /// The search is complete: the best fitness is strictly below the
    /// limit.
    fn is_job_done(&self) -> (r: bool)
        requires
            self.population().wrappers().len() >= 1,
        ensures
            r == (self.population().wrappers()[0].fitness.key < self.population().limit_key()),
    {
        self.population.is_job_done()
    }

    /// The encoded record of the current best wrapper, with the
    /// auto-numbered snapshot file name it should be persisted under; the
    /// snapshot counter moves on.
    fn save_best_individual_data(&mut self) -> (r: (String, Vec<u8>))
        requires
            old(self).population().wrappers().len() >= 1,
        ensures
            r.0@ == spec_snapshot_name(old(self).file_counter() as nat, old(self).format()),
            old(self).format() == DWFileFormat::Binary ==> ({
                let best = old(self).population().wrappers()[0];
                r.1@ == spec_record_bytes(best.fitness.key, best.individual.data_view())
            }),
            old(self).format() == DWFileFormat::JSON ==> ({
                let best = old(self).population().wrappers()[0];
                r.1@ == crate::dw_json::spec_json_record_bytes(
                    best.fitness.key,
                    best.individual.data_view(),
                )
            }),
            final(self).file_counter() == if old(self).file_counter() < u64::MAX {
                old(self).file_counter() + 1
            } else {
                old(self).file_counter() as int
            },
            final(self).population() == old(self).population(),
            Self::same_server_config(*old(self), *final(self)),
            final(self).scores() == old(self).scores(),
    {
        let individual = self.population.get_best_individual();
        let data: Vec<u8> = match self.file_format {
            DWFileFormat::Binary => encode_record(individual),
            DWFileFormat::JSON => crate::dw_json::encode_json_record(individual),
        };
        let ext = self.file_format.extension();
        let number = ascii_to_string(crate::dw_json::dec_u64_vec(self.individual_file_counter));
        proof {
            crate::dw_json::lemma_dec_chars_bytes(self.individual_file_counter as nat);
        }
        let file_name = "individual_".to_owned().concat(number.as_str()).concat(".").concat(ext);
        self.individual_file_counter = if self.individual_file_counter < u64::MAX {
            self.individual_file_counter + 1
        } else {
            self.individual_file_counter
        };
        (file_name, data)
    }

    /// Answer a worker's request for work: a finished status once the best
    /// fitness is below the limit, otherwise the encoded record of a
    /// uniformly random wrapper.
    pub fn prepare_data_for_node(&mut self) -> (r: DWJobStatus)
        requires
            old(self).population().wf(),
        ensures
            DWPopulation::same_state(old(self).population(), final(self).population()),
            Self::same_server_config(*old(self), *final(self)),
            final(self).file_counter() == old(self).file_counter(),
            final(self).scores() == old(self).scores(),
            (r matches DWJobStatus::Finished) == (old(self).population().wrappers()[0].fitness.key
                < old(self).population().limit_key()),
            r matches DWJobStatus::Unfinished(bytes) ==> encodes_member(
                bytes@,
                final(self).population().wrappers(),
            ),
    {
        if self.is_job_done() {
            DWJobStatus::Finished
        } else {
            let individual = self.population.get_random_individual();
            let ghost w = *individual;
            let bytes = encode_record(individual);
            proof {
                let i0 = choose|i: int|
                    0 <= i < self.population.wrappers().len() && w == self.population.wrappers()[i];
                assert(bytes@ == spec_record_bytes(
                    self.population.wrappers()[i0].fitness.key,
                    self.population.wrappers()[i0].individual.data_view(),
                ));
                assert(encodes_member(bytes@, self.population.wrappers()));
            }
            DWJobStatus::Unfinished(bytes)
        }
    }

    /// Merge one result from a worker: decode it, add it, restore the size
    /// bound, and on a new global best notify the individual, credit the
    /// worker, and, when configured, hand back a snapshot to persist.
    pub fn process_data_from_node(&mut self, node_id: u64, node_data: &Vec<u8>) -> (r: Result<
        Option<(String, Vec<u8>)>,
        DWError,
    >)
        requires
            old(self).population().wf(),
        ensures
            spec_parse_record(node_data@) is None ==> r matches Err(e),
            r matches Err(e) ==> e == DWError::SerializationError && *final(self) == *old(self),
            r matches Ok(snapshot) ==> ({
                let oldp = old(self).population();
                let newp = final(self).population();
                let improved = newp.new_best_key() < oldp.new_best_key();
                let cur = if old(self).scores().contains_key(node_id) {
                    old(self).scores()[node_id]
                } else {
                    0u64
                };
                let bumped: u64 = if cur < u64::MAX {
                    (cur + 1) as u64
                } else {
                    u64::MAX
                };
                &&& newp.wf()
                &&& newp.best_at_zero()
                &&& newp.wrappers().len() <= newp.max_size()
                &&& newp.new_best_key() <= oldp.new_best_key()
                &&& DWPopulation::same_config(oldp, newp)
                &&& (spec_parse_record(node_data@) matches Some(rec) && merged_from(
                    newp.wrappers(),
                    oldp.wrappers(),
                    rec.0,
                    rec.1,
                ))
                &&& Self::same_server_config(*old(self), *final(self))
                &&& improved ==> final(self).scores() == old(self).scores().insert(
                    node_id,
                    bumped,
                )
                &&& !improved ==> final(self).scores() == old(self).scores()
                    && final(self).file_counter() == old(self).file_counter()
                &&& (snapshot is Some) == (improved && old(self).save_flag())
                &&& snapshot matches Some(snap) ==> ({
                    let best = newp.wrappers()[0];
                    &&& snap.0@ == spec_snapshot_name(
                        old(self).file_counter() as nat,
                        old(self).format(),
                    )
                    &&& (old(self).format() == DWFileFormat::Binary ==> snap.1@
                        == spec_record_bytes(best.fitness.key, best.individual.data_view()))
                    &&& (old(self).format() == DWFileFormat::JSON ==> snap.1@
                        == crate::dw_json::spec_json_record_bytes(
                        best.fitness.key,
                        best.individual.data_view(),
                    ))
                    &&& final(self).file_counter() == if old(self).file_counter() < u64::MAX {
                        old(self).file_counter() + 1
                    } else {
                        old(self).file_counter() as int
                    }
                })
            }),
    {
        let wrapper = decode_record::<T>(node_data);
        match wrapper {
            None => Err(DWError::SerializationError),
            Some(individual) => {
                let ghost w0 = individual;
                let ghost before = self.population.wrappers();
                self.population.add_individual(individual);
                self.population.delete();
                proof {
                    assert(self.population.wrappers().to_multiset().subset_of(
                        before.push(w0).to_multiset(),
                    ));
                    assert(merged_from(
                        self.population.wrappers(),
                        before,
                        w0.fitness.key,
                        w0.individual.data_view(),
                    ));
                }
                let improved = self.population.has_new_best_individual();
                if improved {
                    self.population.get_best_individual().new_best_individual();
                    let current: u64 = match self.node_score.get(&node_id) {
                        Some(c) => *c,
                        None => 0,
                    };
                    let bumped: u64 = if current < u64::MAX {
                        current + 1
                    } else {
                        current
                    };
                    self.node_score.insert(node_id, bumped);
                    if self.save_new_best_individual {
                        let snapshot = self.save_best_individual_data();
                        Ok(Some(snapshot))
                    } else {
                        Ok(None)
                    }
                } else {
                    Ok(None)
                }
            },
        }
    }
}

} // verus!
