use darwin_rs::dw_codec::{encode_record, parse_record};
use darwin_rs::{
    DWConfiguration, DWDeleteMethod, DWFitness, DWIndividual, DWIndividualWrapper, DWMutateMethod,
    DWNode, Queens,
};

#[test]
fn queens_initial_board() {
    let q = Queens::new();
    let data = q.to_data();
    // 64 cells plus the seed word
    assert_eq!(data.len(), 65);
    for i in 0..8 {
        assert_eq!(data[i], 1);
    }
    for i in 8..64 {
        assert_eq!(data[i], 0);
    }
    assert_eq!(data[64], 0);
}

#[test]
fn queens_traces_on_initial_board() {
    let q = Queens::new();
    // from the corner, walking right along the first row sees the seven
    // other queens; walking down sees none
    assert_eq!(q.one_trace(0, 0, 1, 0), 7);
    assert_eq!(q.one_trace(0, 0, 0, 1), 0);
    // from the middle of the row, three to the left and four to the right
    assert_eq!(q.one_trace(0, 3, -1, 0), 3);
    assert_eq!(q.one_trace(0, 3, 1, 0), 4);
    assert_eq!(q.find_collisions(0, 0), 7);
    assert_eq!(q.find_collisions(0, 3), 7);
    // eight queens in one row: every queen sees the seven others
    assert_eq!(q.board_fitness(), 56);
}

#[test]
fn queens_mutation_keeps_the_queens() {
    let mut q = Queens::new();
    let other = Queens::new();
    for _ in 0..25 {
        q.mutate(&other);
        let data = q.to_data();
        assert_eq!(data.len(), 65);
        assert_eq!(data[0..64].iter().filter(|c| **c == 1).count(), 8);
        assert!(data[0..64].iter().all(|c| *c == 0 || *c == 1));
    }
}

#[test]
fn queens_round_trip() {
    let mut q = Queens::new();
    let other = Queens::new();
    q.mutate(&other);
    let mut w = DWIndividualWrapper::new(q);
    w.calculate_fitness();
    let bytes = encode_record(&w);
    let back: DWIndividualWrapper<Queens> = darwin_rs::dw_codec::decode_record(&bytes).unwrap();
    assert_eq!(back.get_fitness().get_key(), w.get_fitness().get_key());
    assert_eq!(back.individual.to_data(), w.individual.to_data());
}

#[test]
fn queens_single_node_reaches_zero_collisions() {
    let mut c = DWConfiguration::default();
    c.max_population_size = 20;
    c.fitness_limit = DWFitness::from_key(0);
    c.mutate_method = DWMutateMethod::OnlyBest;
    c.delete_method = DWDeleteMethod::SortKeep;
    c.num_of_mutations = 10;
    // short exchanges, so stagnation is observed often, with a tolerant
    // reset limit, so a nearly converged population gets time to finish
    // before the escape reset scrambles it
    c.num_of_iterations = 10;
    c.reset_limit = 6;
    let mut node = DWNode::new(Queens::new(), &c);
    let mut seed = DWIndividualWrapper::new(Queens::new());
    seed.calculate_fitness();
    let seed_bytes = encode_record(&seed);
    let mut best = u64::MAX;
    let started = std::time::Instant::now();
    let mut exchanges: u64 = 0;
    while best != 0 && exchanges < 100000 && started.elapsed().as_secs() < 17 {
        let reply = node.process_data_from_server(&seed_bytes).unwrap();
        let (fitness, _data) = parse_record(&reply).unwrap();
        best = fitness.get_key();
        exchanges += 1;
    }
    assert_eq!(best, 0);
}
