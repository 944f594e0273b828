use darwin_rs::{
    DWConfiguration, DWDeleteMethod, DWFitness, DWIndividual, DWIndividualWrapper, DWPopulation,
};

/// A candidate with a fixed score: mutation never changes the fitness.
#[derive(Clone)]
struct Flat {
    score: u64,
    marker: u64,
}

impl DWIndividual for Flat {
    fn mutate(&mut self, _other: &Self) {}

    fn calculate_fitness(&self) -> DWFitness {
        DWFitness::from_key(self.score)
    }

    fn random_reset(&mut self) {
        self.marker = 999;
    }

    fn to_data(&self) -> Vec<u64> {
        vec![self.score, self.marker]
    }

    fn from_data(data: &Vec<u64>) -> Option<Self> {
        if data.len() == 2 {
            Some(Flat { score: data[0], marker: data[1] })
        } else {
            None
        }
    }
}

fn flat(score: u64) -> DWIndividualWrapper<Flat> {
    let mut w = DWIndividualWrapper::new(Flat { score, marker: 0 });
    w.calculate_fitness();
    w
}

fn config(delete_method: DWDeleteMethod, max: usize) -> DWConfiguration {
    let mut c = DWConfiguration::default();
    c.delete_method = delete_method;
    c.max_population_size = max;
    c
}

fn keys(p: &DWPopulation<Flat>) -> Vec<u64> {
    p.to_vec().iter().map(|w| w.get_fitness().get_key()).collect()
}

#[test]
fn population_starts_sorted_and_bounded() {
    let p = DWPopulation::new(flat(7), &config(DWDeleteMethod::SortKeep, 5));
    let ks = keys(&p);
    assert_eq!(ks.len(), 5);
    assert!(ks.windows(2).all(|w| w[0] <= w[1]));
    assert_eq!(p.get_best_fitness().get_key(), 7);
}

#[test]
fn delete_sort_keep_restores_bound_and_sorts() {
    let mut p = DWPopulation::new(flat(5), &config(DWDeleteMethod::SortKeep, 4));
    let mut handmade = vec![flat(9), flat(2), flat(7), flat(2), flat(11), flat(1)];
    p.from_vec(&mut handmade);
    p.delete();
    let ks = keys(&p);
    // size bound restored, ascending, the minimum at index 0, duplicates kept
    assert_eq!(ks, vec![1, 2, 2, 7]);
}

#[test]
fn delete_sort_unique_drops_equal_fitness() {
    let mut p = DWPopulation::new(flat(5), &config(DWDeleteMethod::SortUnique, 4));
    // three wrappers share the lowest fitness; only one representative stays
    let mut handmade = vec![flat(1), flat(6), flat(1), flat(3), flat(1)];
    p.from_vec(&mut handmade);
    p.delete();
    let ks = keys(&p);
    assert_eq!(ks, vec![1, 3, 6]);
    assert_eq!(ks.iter().filter(|k| **k == 1).count(), 1);
}

#[test]
fn delete_random_best3_keeps_three_lowest() {
    // the three lowest fitness levels survive arbitrarily many passes
    let mut p = DWPopulation::new(flat(5), &config(DWDeleteMethod::RandomBest3, 5));
    let mut handmade = vec![
        flat(30),
        flat(1),
        flat(40),
        flat(2),
        flat(50),
        flat(3),
        flat(60),
        flat(70),
        flat(80),
    ];
    p.from_vec(&mut handmade);
    for _ in 0..50 {
        let ks = keys(&p);
        p.delete();
        let after = keys(&p);
        assert!(after.len() <= 5);
        assert_eq!(&after[0..3], &[1, 2, 3]);
        // every survivor was already there
        assert!(after.iter().all(|k| ks.contains(k)));
        // no two survivors share a fitness
        for i in 0..after.len() {
            for j in i + 1..after.len() {
                assert_ne!(after[i], after[j]);
            }
        }
        // grow it back so the random removal keeps running
        p.add_individual(flat(100));
        p.add_individual(flat(110));
        p.add_individual(flat(120));
        p.add_individual(flat(130));
    }
}

#[test]
fn best_record_is_monotone() {
    let mut p = DWPopulation::new(flat(9), &config(DWDeleteMethod::SortKeep, 4));
    assert!(p.has_new_best_individual());
    assert_eq!(p.get_new_best_fitness().get_key(), 9);
    assert!(!p.has_new_best_individual());
    p.add_individual(flat(3));
    p.delete();
    assert!(p.has_new_best_individual());
    assert_eq!(p.get_new_best_fitness().get_key(), 3);
    // a worse population never raises the record
    let mut worse = vec![flat(50), flat(60)];
    p.from_vec(&mut worse);
    p.delete();
    assert!(!p.has_new_best_individual());
    assert_eq!(p.get_new_best_fitness().get_key(), 3);
}

#[test]
fn job_done_exactly_below_limit() {
    let mut c = config(DWDeleteMethod::SortKeep, 3);
    c.fitness_limit = DWFitness::from_key(10);
    let mut p = DWPopulation::new(flat(10), &c);
    assert!(!p.is_job_done());
    let mut better = vec![flat(9)];
    p.from_vec(&mut better);
    assert!(p.is_job_done());
}

#[test]
fn reset_fires_after_reset_limit_stagnant_messages() {
    let mut c = config(DWDeleteMethod::SortKeep, 3);
    c.reset_limit = 100;
    let mut p = DWPopulation::new(flat(100), &c);
    let mut stuck = vec![flat(100), flat(100), flat(100)];
    p.from_vec(&mut stuck);
    // first message observes progress (the sentinel differs from the best)
    p.check_reset(flat(200));
    let no_marker = |p: &DWPopulation<Flat>| {
        p.to_vec().iter().all(|w| {
            let d = w.individual.to_data();
            d[1] == 0
        })
    };
    // ninety-nine further stagnant messages do not reset
    for _ in 0..99 {
        p.check_reset(flat(200));
        assert!(no_marker(&p));
    }
    // the hundredth stagnant message resets every wrapper exactly then
    p.check_reset(flat(200));
    assert!(p.to_vec().iter().all(|w| {
        let d = w.individual.to_data();
        d[1] == 999
    }));
}

#[test]
fn check_reset_accepts_only_strictly_worse_on_progress() {
    let mut c = config(DWDeleteMethod::SortKeep, 3);
    c.reset_limit = 100;
    let mut p = DWPopulation::new(flat(50), &c);
    let mut base = vec![flat(50), flat(60)];
    p.from_vec(&mut base);
    // progress observed: a strictly worse candidate is accepted
    p.check_reset(flat(70));
    assert_eq!(p.to_vec().len(), 3);
    // progress observed again after the best improved
    let mut improved = vec![flat(40), flat(60)];
    p.from_vec(&mut improved);
    // a candidate equal to the best is dropped
    p.check_reset(flat(40));
    assert_eq!(p.to_vec().len(), 2);
}

#[test]
fn wrappers_compare_by_fitness_alone() {
    let a = flat(5);
    let b = flat(5);
    let c = flat(6);
    // the individuals behind equal-fitness wrappers may differ
    assert!(a == b);
    assert!(a != c);
    assert!(a < c);
    assert!(c > a);
    assert!(a <= b);
}

#[test]
fn reporting_order_without_tolerance_sorts_by_fitness() {
    // a zero grouping tolerance leaves nothing to the auxiliary fitness:
    // the reporting order is plainly ascending
    let mut p = DWPopulation::new(flat(5), &config(DWDeleteMethod::SortKeep, 4));
    let mut handmade = vec![flat(9), flat(2), flat(7), flat(2)];
    p.from_vec(&mut handmade);
    p.sort_additional_fitness(0);
    assert_eq!(keys(&p), vec![2, 2, 7, 9]);
}

#[test]
fn reporting_order_groups_by_auxiliary_fitness() {
    // all scores are equal, so with a wide threshold the auxiliary
    // fitness (zero by default) decides nothing: the wrappers survive
    let mut p = DWPopulation::new(flat(5), &config(DWDeleteMethod::SortKeep, 4));
    let mut handmade = vec![flat(9), flat(2), flat(7)];
    p.from_vec(&mut handmade);
    p.sort_additional_fitness(3);
    let mut ks = keys(&p);
    ks.sort();
    assert_eq!(ks, vec![2, 7, 9]);
}
