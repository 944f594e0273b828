use darwin_rs::dw_codec::{decode_population, encode_population, encode_record, parse_record};
use darwin_rs::dw_json::{decode_json_population, encode_json_population};
use darwin_rs::{
    DWConfiguration, DWDeleteMethod, DWFitness, DWIndividual, DWIndividualWrapper, DWMutateMethod,
    DWNode,
};
use rand::Rng;

fn cities() -> Vec<(f64, f64)> {
    vec![
        (2.852197810188428, 90.31966506130796),
        (33.62874999956513, 44.9790462485413),
        (22.064901432163996, 83.9172876840628),
        (20.595912954825923, 12.798762916676043),
        (42.2234133639806, 88.41646877787616),
        (94.18533963242542, 21.151217108254627),
        (25.84671166792939, 63.707153428189514),
        (13.051898250315553, 89.61945656056766),
        (76.41370000896038, 97.20491253636689),
        (18.832993288649792, 6.006559110093601),
        (96.98045791932294, 72.23019966333018),
        (71.93203564171793, 93.03998204972012),
        (33.39161715459793, 5.13372283892819),
        (25.23072873231501, 67.1123015383591),
        (84.38812085016241, 90.80055533944926),
        (29.20345964254656, 21.17642854392676),
        (58.11390834674495, 66.93322778502613),
        (22.070195932187254, 59.73489434853766),
        (86.29060211377086, 83.14129496517567),
        (55.760857794890796, 26.95947234362994),
    ]
}

fn key_of_f64(f: f64) -> u64 {
    assert!(!f.is_nan());
    let b = f.to_bits();
    if f >= 0.0 {
        b ^ (1u64 << 63)
    } else {
        !b
    }
}

fn f64_of_key(k: u64) -> f64 {
    if k & (1u64 << 63) != 0 {
        f64::from_bits(k ^ (1u64 << 63))
    } else {
        f64::from_bits(!k)
    }
}

/// A closed tour over the twenty cities: a permutation starting at city 0.
#[derive(Clone, Debug, PartialEq)]
struct Tour {
    path: Vec<u64>,
}

impl Tour {
    fn start() -> Self {
        Tour { path: (0..20).collect() }
    }

    fn length(&self) -> f64 {
        let cities = cities();
        let mut total = 0.0;
        for i in 0..self.path.len() {
            let (x1, y1) = cities[self.path[i] as usize];
            let (x2, y2) = cities[self.path[(i + 1) % self.path.len()] as usize];
            total += (x2 - x1).hypot(y2 - y1);
        }
        total
    }
}

impl DWIndividual for Tour {
    fn mutate(&mut self, _other: &Self) {
        let mut rng = rand::thread_rng();
        let n = self.path.len();
        // interior positions only: the tour always starts at city 0
        let a = rng.gen_range(1..n);
        let b = rng.gen_range(1..n);
        let (lo, hi) = if a <= b { (a, b) } else { (b, a) };
        match rng.gen_range(0..4) {
            0 => self.path.swap(a, b),
            1 => {
                let city = self.path.remove(a);
                let at = rng.gen_range(1..self.path.len());
                self.path.insert(at, city);
            },
            2 => self.path[lo..=hi].reverse(),
            _ => {
                let mut tail: Vec<u64> = self.path.split_off(hi);
                let mid: Vec<u64> = self.path.split_off(lo.max(1));
                self.path.append(&mut tail);
                self.path.extend(mid);
            },
        }
    }

    fn calculate_fitness(&self) -> DWFitness {
        DWFitness::from_key(key_of_f64(self.length()))
    }

    fn to_data(&self) -> Vec<u64> {
        self.path.clone()
    }

    fn from_data(data: &Vec<u64>) -> Option<Self> {
        Some(Tour { path: data.clone() })
    }
}

fn random_tour() -> Tour {
    let mut rng = rand::thread_rng();
    let mut t = Tour::start();
    for i in 1..t.path.len() {
        let j = rng.gen_range(1..t.path.len());
        t.path.swap(i, j);
    }
    t
}

#[test]
fn tour_population_round_trips_in_both_formats() {
    let mut pop: Vec<DWIndividualWrapper<Tour>> = Vec::new();
    for _ in 0..100 {
        let mut w = DWIndividualWrapper::new(random_tour());
        w.calculate_fitness();
        pop.push(w);
    }
    let bytes = encode_population(&pop);
    let back: Vec<DWIndividualWrapper<Tour>> = decode_population(&bytes).unwrap();
    assert_eq!(back.len(), pop.len());
    for (a, b) in back.iter().zip(pop.iter()) {
        assert_eq!(a.individual, b.individual);
        assert_eq!(a.get_fitness().get_key(), b.get_fitness().get_key());
    }
    let json = encode_json_population(&pop);
    let back: Vec<DWIndividualWrapper<Tour>> = decode_json_population(&json).unwrap();
    assert_eq!(back.len(), pop.len());
    for (a, b) in back.iter().zip(pop.iter()) {
        assert_eq!(a.individual, b.individual);
        assert_eq!(a.get_fitness().get_key(), b.get_fitness().get_key());
    }
    // the fitness ordering of the decoded population is the original one
    let orig_keys: Vec<u64> = pop.iter().map(|w| w.get_fitness().get_key()).collect();
    let back_keys: Vec<u64> = back.iter().map(|w| w.get_fitness().get_key()).collect();
    assert_eq!(orig_keys, back_keys);
}

#[test]
fn tour_search_converges_below_the_known_best() {
    let target = 459.0;
    let mut c = DWConfiguration::default();
    c.max_population_size = 20;
    c.fitness_limit = DWFitness::from_key(key_of_f64(target));
    c.mutate_method = DWMutateMethod::OnlyBest;
    c.delete_method = DWDeleteMethod::SortUnique;
    c.num_of_mutations = 10;
    c.num_of_iterations = 100;
    c.reset_limit = 0;
    let mut node = DWNode::new(random_tour(), &c);
    let mut seed = DWIndividualWrapper::new(random_tour());
    seed.calculate_fitness();
    let seed_bytes = encode_record(&seed);
    let mut best = f64::MAX;
    for _ in 0..100 {
        let reply = node.process_data_from_server(&seed_bytes).unwrap();
        let (fitness, _data) = parse_record(&reply).unwrap();
        best = f64_of_key(fitness.get_key());
        if best < target {
            break;
        }
    }
    assert!(best < target, "tour stuck at {}", best);
}
