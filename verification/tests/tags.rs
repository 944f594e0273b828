use darwin_rs::{
    DWConfiguration, DWDeleteMethod, DWError, DWFileFormat, DWFitness, DWMutateMethod,
    DEFAULT_FITNESS_LIMIT_KEY,
};

fn key_of_f64(f: f64) -> u64 {
    assert!(!f.is_nan());
    let b = f.to_bits();
    if f >= 0.0 {
        b ^ (1u64 << 63)
    } else {
        !b
    }
}

#[test]
fn config_defaults() {
    let c = DWConfiguration::default();
    assert_eq!(c.max_population_size, 20);
    assert_eq!(c.fitness_limit.get_key(), DEFAULT_FITNESS_LIMIT_KEY);
    assert_eq!(c.export_file_name, "best_population");
    assert!(!c.save_new_best_individual);
    assert_eq!(c.file_format, DWFileFormat::JSON);
    assert_eq!(c.num_of_iterations, 1000);
    assert_eq!(c.num_of_mutations, 10);
    assert_eq!(c.mutate_method, DWMutateMethod::Simple);
    assert_eq!(c.delete_method, DWDeleteMethod::SortUnique);
    assert_eq!(c.additional_fitness_threshold, None);
    assert_eq!(c.reset_limit, 100);
}

#[test]
fn default_limit_key_is_one() {
    // the default fitness limit is 1.0 under the standard embedding
    assert_eq!(key_of_f64(1.0), DEFAULT_FITNESS_LIMIT_KEY);
}

#[test]
fn fitness_key_order_matches_float_order() {
    let values = [-1000.5, -1.0, -0.25, 0.0, 0.125, 1.0, 3.5, 459.0, 1e300];
    for w in values.windows(2) {
        assert!(key_of_f64(w[0]) < key_of_f64(w[1]));
    }
    let worse = DWFitness::from_key(key_of_f64(2.0));
    let better = DWFitness::from_key(key_of_f64(1.5));
    assert!(better.is_better_than(&worse));
    assert!(!worse.is_better_than(&better));
    assert!(!better.is_better_than(&better));
    // the not-yet-scored sentinel sorts after everything
    assert!(DWFitness::from_key(key_of_f64(1e300)).is_better_than(&DWFitness::unscored()));
}

#[test]
fn mutate_method_tags() {
    assert_eq!(DWMutateMethod::from_str("simple").unwrap(), DWMutateMethod::Simple);
    assert_eq!(DWMutateMethod::from_str("only_best").unwrap(), DWMutateMethod::OnlyBest);
    assert_eq!(DWMutateMethod::from_str("low_mem").unwrap(), DWMutateMethod::LowMem);
    assert!(matches!(
        DWMutateMethod::from_str("fancy"),
        Err(DWError::ParseDWMethodError(m)) if m == "fancy"
    ));
    assert_eq!(DWMutateMethod::try_from(0).unwrap(), DWMutateMethod::Simple);
    assert_eq!(DWMutateMethod::try_from(1).unwrap(), DWMutateMethod::OnlyBest);
    assert_eq!(DWMutateMethod::try_from(2).unwrap(), DWMutateMethod::LowMem);
    assert!(matches!(
        DWMutateMethod::try_from(3),
        Err(DWError::ConvertDWMutateMethodError(3))
    ));
    assert_eq!(DWMutateMethod::Simple.as_str(), "simple");
    assert_eq!(DWMutateMethod::OnlyBest.as_str(), "only_best");
    assert_eq!(DWMutateMethod::LowMem.as_str(), "low_mem");
}

#[test]
fn delete_method_tags() {
    assert_eq!(DWDeleteMethod::from_str("sort_keep").unwrap(), DWDeleteMethod::SortKeep);
    assert_eq!(DWDeleteMethod::from_str("sort_unique").unwrap(), DWDeleteMethod::SortUnique);
    assert_eq!(DWDeleteMethod::from_str("random_best3").unwrap(), DWDeleteMethod::RandomBest3);
    assert!(matches!(
        DWDeleteMethod::from_str(""),
        Err(DWError::ParseDWDeleteMethodError(m)) if m.is_empty()
    ));
    assert_eq!(DWDeleteMethod::try_from(0).unwrap(), DWDeleteMethod::SortKeep);
    assert_eq!(DWDeleteMethod::try_from(1).unwrap(), DWDeleteMethod::SortUnique);
    assert_eq!(DWDeleteMethod::try_from(2).unwrap(), DWDeleteMethod::RandomBest3);
    assert!(matches!(
        DWDeleteMethod::try_from(255),
        Err(DWError::ConvertDWDeleteMethodError(255))
    ));
    assert_eq!(DWDeleteMethod::SortKeep.as_str(), "sort_keep");
    assert_eq!(DWDeleteMethod::SortUnique.as_str(), "sort_unique");
    assert_eq!(DWDeleteMethod::RandomBest3.as_str(), "random_best3");
}

#[test]
fn file_format_tags() {
    assert_eq!(DWFileFormat::from_str("binary").unwrap(), DWFileFormat::Binary);
    assert_eq!(DWFileFormat::from_str("json").unwrap(), DWFileFormat::JSON);
    assert!(matches!(
        DWFileFormat::from_str("xml"),
        Err(DWError::ParseDWFileFormatError(m)) if m == "xml"
    ));
    assert_eq!(DWFileFormat::try_from(0).unwrap(), DWFileFormat::Binary);
    assert_eq!(DWFileFormat::try_from(1).unwrap(), DWFileFormat::JSON);
    assert!(matches!(
        DWFileFormat::try_from(2),
        Err(DWError::ConvertDWFileFormatError(2))
    ));
    assert_eq!(DWFileFormat::Binary.as_str(), "binary");
    assert_eq!(DWFileFormat::JSON.as_str(), "json");
    assert_eq!(DWFileFormat::Binary.extension(), "dat");
    assert_eq!(DWFileFormat::JSON.extension(), "json");
}
