use darwin_rs::dw_codec::{decode_population, encode_record, parse_record};
use darwin_rs::{
    DWConfiguration, DWDeleteMethod, DWError, DWFitness, DWIndividual, DWIndividualWrapper,
    DWJobStatus, DWMutateMethod, DWNode, DWServer,
};

/// A candidate that deterministically improves by one on every mutation.
#[derive(Clone, Debug, PartialEq)]
struct Countdown {
    v: u64,
}

impl DWIndividual for Countdown {
    fn mutate(&mut self, _other: &Self) {
        self.v = self.v.saturating_sub(1);
    }

    fn calculate_fitness(&self) -> DWFitness {
        DWFitness::from_key(self.v)
    }

    fn to_data(&self) -> Vec<u64> {
        vec![self.v]
    }

    fn from_data(data: &Vec<u64>) -> Option<Self> {
        if data.len() == 1 {
            Some(Countdown { v: data[0] })
        } else {
            None
        }
    }
}

fn config() -> DWConfiguration {
    let mut c = DWConfiguration::default();
    c.max_population_size = 5;
    c.fitness_limit = DWFitness::from_key(0);
    c.mutate_method = DWMutateMethod::OnlyBest;
    c.delete_method = DWDeleteMethod::SortUnique;
    c.num_of_mutations = 3;
    c.num_of_iterations = 5;
    c.reset_limit = 0;
    c.save_new_best_individual = true;
    c.file_format = darwin_rs::DWFileFormat::Binary;
    c
}

#[test]
fn one_full_exchange_with_snapshots() {
    let mut server: DWServer<Countdown> = DWServer::new(Countdown { v: 1000 }, config());
    let mut node: DWNode<Countdown> = DWNode::new(Countdown { v: 1000 }, &config());
    // the server hands out a seed
    let seed = match server.prepare_data_for_node() {
        DWJobStatus::Unfinished(bytes) => bytes,
        DWJobStatus::Finished => panic!("finished before any work"),
    };
    // the worker improves on it and reports back
    let reply = node.process_data_from_server(&seed).unwrap();
    let (reported, _) = parse_record(&reply).unwrap();
    // the countdown improves on every mutation, so the report is a new best
    let merged = server.process_data_from_node(7, &reply).unwrap();
    let (name, bytes) = merged.expect("a new best must be snapshotted");
    assert_eq!(name, "individual_0.dat");
    let (snap_fitness, snap_data) = parse_record(&bytes).unwrap();
    assert_eq!(snap_fitness.get_key(), reported.get_key());
    assert_eq!(snap_data.len(), 1);
    // replaying the very same result is no longer an improvement
    let again = server.process_data_from_node(7, &reply).unwrap();
    assert!(again.is_none());
}

#[test]
fn snapshot_counter_and_names_move_on() {
    let mut server: DWServer<Countdown> = DWServer::new(Countdown { v: 1000 }, config());
    let mut better = DWIndividualWrapper::new(Countdown { v: 50 });
    better.calculate_fitness();
    let first = server.process_data_from_node(1, &encode_record(&better)).unwrap();
    assert_eq!(first.unwrap().0, "individual_0.dat");
    let mut best = DWIndividualWrapper::new(Countdown { v: 10 });
    best.calculate_fitness();
    let second = server.process_data_from_node(2, &encode_record(&best)).unwrap();
    assert_eq!(second.unwrap().0, "individual_1.dat");
}

#[test]
fn json_snapshot_name_uses_the_json_extension() {
    let mut c = config();
    c.file_format = darwin_rs::DWFileFormat::JSON;
    let mut server: DWServer<Countdown> = DWServer::new(Countdown { v: 1000 }, c);
    let mut better = DWIndividualWrapper::new(Countdown { v: 50 });
    better.calculate_fitness();
    let snap = server.process_data_from_node(1, &encode_record(&better)).unwrap();
    let (name, bytes) = snap.unwrap();
    assert_eq!(name, "individual_0.json");
    assert_eq!(String::from_utf8(bytes).unwrap(), "{\"individual\":[50],\"fitness\":50}");
}

#[test]
fn malformed_results_are_refused_and_change_nothing() {
    let mut server: DWServer<Countdown> = DWServer::new(Countdown { v: 1000 }, config());
    let before = server.save_population_data();
    let r = server.process_data_from_node(3, &vec![1, 2, 3]);
    assert!(matches!(r, Err(DWError::SerializationError)));
    let after = server.save_population_data();
    assert_eq!(before.1, after.1);
}

#[test]
fn server_persists_and_reloads_its_population() {
    let mut server: DWServer<Countdown> = DWServer::new(Countdown { v: 100 }, config());
    let (name, bytes) = server.save_population_data();
    assert_eq!(name, "best_population");
    let decoded: Vec<DWIndividualWrapper<Countdown>> = decode_population(&bytes).unwrap();
    assert_eq!(decoded.len(), 5);
    // reload the saved bytes into a fresh coordinator
    let mut other: DWServer<Countdown> = DWServer::new(Countdown { v: 7 }, config());
    other.read_population(&bytes).unwrap();
    let (_, reloaded) = other.save_population_data();
    assert_eq!(reloaded, bytes);
    // a single individual can be merged from bytes as well
    let mut w = DWIndividualWrapper::new(Countdown { v: 3 });
    w.calculate_fitness();
    other.read_individual(&encode_record(&w)).unwrap();
    assert!(other.read_individual(&vec![9, 9]).is_err());
    assert!(other.read_population(&Vec::new()).is_err());
}

#[test]
fn server_reports_finished_once_the_limit_is_passed() {
    let mut c = config();
    c.fitness_limit = DWFitness::from_key(u64::MAX);
    let mut server: DWServer<Countdown> = DWServer::new(Countdown { v: 1000 }, c);
    assert!(matches!(server.prepare_data_for_node(), DWJobStatus::Finished));
}
