use darwin_rs::dw_codec::{encode_record, parse_record};
use darwin_rs::{
    DWConfiguration, DWDeleteMethod, DWFitness, DWIndividual, DWIndividualWrapper, DWMutateMethod,
    DWNode,
};
use rand::Rng;

/// Missing values plus duplicates of one nine-cell unit.
fn unit_fitness(values: &[u8]) -> u64 {
    let mut counts = [0u64; 10];
    for v in values {
        if *v >= 1 && *v <= 9 {
            counts[*v as usize] += 1;
        }
    }
    let mut fitness = 0;
    for d in 1..=9 {
        if counts[d] == 0 {
            fitness += 1;
        } else {
            fitness += counts[d] - 1;
        }
    }
    fitness
}

/// The partially filled grid the search starts from, 0 for an open cell.
fn puzzle() -> Vec<u8> {
    vec![
        5, 3, 0, 0, 7, 0, 0, 0, 0,
        6, 0, 0, 1, 9, 5, 0, 0, 0,
        0, 9, 8, 0, 0, 0, 0, 6, 0,
        8, 0, 0, 0, 6, 0, 0, 0, 3,
        4, 0, 0, 8, 0, 3, 0, 0, 1,
        7, 0, 0, 0, 2, 0, 0, 0, 6,
        0, 6, 0, 0, 0, 0, 2, 8, 0,
        0, 0, 0, 4, 1, 9, 0, 0, 5,
        0, 0, 0, 0, 8, 0, 0, 7, 9,
    ]
}

/// Its unique completion.
fn solution() -> Vec<u8> {
    vec![
        5, 3, 4, 6, 7, 8, 9, 1, 2,
        6, 7, 2, 1, 9, 5, 3, 4, 8,
        1, 9, 8, 3, 4, 2, 5, 6, 7,
        8, 5, 9, 7, 6, 1, 4, 2, 3,
        4, 2, 6, 8, 5, 3, 7, 9, 1,
        7, 1, 3, 9, 2, 4, 8, 5, 6,
        9, 6, 1, 5, 3, 7, 2, 8, 4,
        2, 8, 7, 4, 1, 9, 6, 3, 5,
        3, 4, 5, 2, 8, 6, 1, 7, 9,
    ]
}

fn row(grid: &[u8], r: usize) -> Vec<u8> {
    (0..9).map(|c| grid[r * 9 + c]).collect()
}

fn col(grid: &[u8], c: usize) -> Vec<u8> {
    (0..9).map(|r| grid[r * 9 + c]).collect()
}

fn block(grid: &[u8], b: usize) -> Vec<u8> {
    let base_r = (b / 3) * 3;
    let base_c = (b % 3) * 3;
    let mut out = Vec::new();
    for r in 0..3 {
        for c in 0..3 {
            out.push(grid[(base_r + r) * 9 + base_c + c]);
        }
    }
    out
}

fn grid_fitness(grid: &[u8]) -> u64 {
    let mut total = 0;
    for i in 0..9 {
        total += unit_fitness(&row(grid, i));
        total += unit_fitness(&col(grid, i));
        total += unit_fitness(&block(grid, i));
    }
    total
}

#[test]
fn unit_fitness_zero_exactly_on_complete_units() {
    // every unit of the solved grid holds each of 1..9 exactly once
    let solved = solution();
    for i in 0..9 {
        assert_eq!(unit_fitness(&row(&solved, i)), 0);
        assert_eq!(unit_fitness(&col(&solved, i)), 0);
        assert_eq!(unit_fitness(&block(&solved, i)), 0);
    }
    // any replacement that breaks the only-once rule is charged
    assert_eq!(unit_fitness(&[1, 2, 3, 4, 5, 6, 7, 8, 9]), 0);
    assert!(unit_fitness(&[1, 1, 3, 4, 5, 6, 7, 8, 9]) > 0);
    assert!(unit_fitness(&[0, 2, 3, 4, 5, 6, 7, 8, 9]) > 0);
    assert!(unit_fitness(&[9, 9, 9, 9, 9, 9, 9, 9, 9]) > 0);
    // missing and duplicated values both count
    assert_eq!(unit_fitness(&[1, 1, 3, 4, 5, 6, 7, 8, 9]), 2);
    assert_eq!(unit_fitness(&[0, 0, 0, 0, 0, 0, 0, 0, 0]), 9);
}

#[test]
fn solved_grid_has_zero_fitness_and_puzzle_does_not() {
    assert_eq!(grid_fitness(&solution()), 0);
    assert!(grid_fitness(&puzzle()) > 0);
}

/// The grid with the preset cells pinned; open cells mutate.
#[derive(Clone, Debug, PartialEq)]
struct Grid {
    cells: Vec<u8>,
}

impl DWIndividual for Grid {
    fn mutate(&mut self, _other: &Self) {
        let preset = puzzle();
        let mut rng = rand::thread_rng();
        loop {
            let at = rng.gen_range(0..81);
            if preset[at] == 0 {
                self.cells[at] = rng.gen_range(1..=9);
                break;
            }
        }
    }

    fn calculate_fitness(&self) -> DWFitness {
        DWFitness::from_key(grid_fitness(&self.cells))
    }

    fn to_data(&self) -> Vec<u64> {
        self.cells.iter().map(|c| *c as u64).collect()
    }

    fn from_data(data: &Vec<u64>) -> Option<Self> {
        if data.len() != 81 || data.iter().any(|c| *c > 9) {
            return None;
        }
        Some(Grid { cells: data.iter().map(|c| *c as u8).collect() })
    }
}

#[test]
fn grid_search_improves_on_the_puzzle() {
    let start = Grid { cells: puzzle() };
    let initial = grid_fitness(&start.cells);
    let mut c = DWConfiguration::default();
    c.max_population_size = 10;
    c.fitness_limit = DWFitness::from_key(0);
    c.mutate_method = DWMutateMethod::OnlyBest;
    c.delete_method = DWDeleteMethod::SortUnique;
    c.num_of_mutations = 10;
    c.num_of_iterations = 30;
    c.reset_limit = 0;
    let mut node = DWNode::new(start.clone(), &c);
    let mut seed = DWIndividualWrapper::new(start);
    seed.calculate_fitness();
    let seed_bytes = encode_record(&seed);
    let mut best = u64::MAX;
    for _ in 0..10 {
        let reply = node.process_data_from_server(&seed_bytes).unwrap();
        let (fitness, _data) = parse_record(&reply).unwrap();
        best = fitness.get_key();
    }
    // the best never rises above the filled-in puzzle and clearly improves
    assert!(best < initial);
}
