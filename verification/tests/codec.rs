use darwin_rs::dw_codec::{decode_population, decode_record, encode_population, encode_record};
use darwin_rs::dw_json::{
    decode_json_population, decode_json_record, encode_json_population, encode_json_record,
};
use darwin_rs::{DWFitness, DWIndividual, DWIndividualWrapper};

/// A candidate carrying arbitrary words, so records of any shape can be
/// round-tripped.
#[derive(Clone, Debug, PartialEq)]
struct Words {
    values: Vec<u64>,
}

impl DWIndividual for Words {
    fn mutate(&mut self, _other: &Self) {}

    fn calculate_fitness(&self) -> DWFitness {
        DWFitness::from_key(self.values.iter().sum())
    }

    fn to_data(&self) -> Vec<u64> {
        self.values.clone()
    }

    fn from_data(data: &Vec<u64>) -> Option<Self> {
        Some(Words { values: data.clone() })
    }
}

fn wrapper(values: Vec<u64>) -> DWIndividualWrapper<Words> {
    let mut w = DWIndividualWrapper::new(Words { values });
    w.calculate_fitness();
    w
}

#[test]
fn binary_record_round_trip() {
    let w = wrapper(vec![3, 1, 4, 1, 5, u64::MAX, 0]);
    let bytes = encode_record(&w);
    let back: DWIndividualWrapper<Words> = decode_record(&bytes).unwrap();
    assert_eq!(back.get_fitness().get_key(), w.get_fitness().get_key());
    assert_eq!(back.individual, w.individual);
}

#[test]
fn binary_record_layout() {
    // fitness key 5, one word 7: three little-endian 64-bit values
    let w = wrapper(vec![7]);
    assert_eq!(w.get_fitness().get_key(), 7);
    let bytes = encode_record(&w);
    let mut expected = vec![7u8, 0, 0, 0, 0, 0, 0, 0];
    expected.extend_from_slice(&[1, 0, 0, 0, 0, 0, 0, 0]);
    expected.extend_from_slice(&[7, 0, 0, 0, 0, 0, 0, 0]);
    assert_eq!(bytes, expected);
}

#[test]
fn binary_record_rejects_damage() {
    let w = wrapper(vec![1, 2, 3]);
    let bytes = encode_record(&w);
    // truncated
    let mut cut = bytes.clone();
    cut.pop();
    assert!(decode_record::<Words>(&cut).is_none());
    // trailing garbage
    let mut long = bytes.clone();
    long.push(0);
    assert!(decode_record::<Words>(&long).is_none());
    // too short for the header
    assert!(decode_record::<Words>(&vec![1, 2, 3]).is_none());
    assert!(decode_record::<Words>(&Vec::new()).is_none());
}

#[test]
fn binary_population_round_trip() {
    let pop = vec![wrapper(vec![9]), wrapper(vec![]), wrapper(vec![1, 2, 3, 4])];
    let bytes = encode_population(&pop);
    let back: Vec<DWIndividualWrapper<Words>> = decode_population(&bytes).unwrap();
    assert_eq!(back.len(), pop.len());
    for (a, b) in back.iter().zip(pop.iter()) {
        assert_eq!(a.get_fitness().get_key(), b.get_fitness().get_key());
        assert_eq!(a.individual, b.individual);
    }
    // damage is refused
    let mut cut = bytes.clone();
    cut.pop();
    assert!(decode_population::<Words>(&cut).is_none());
}

#[test]
fn json_record_layout() {
    let w = wrapper(vec![10, 0, 255]);
    let bytes = encode_json_record(&w);
    assert_eq!(
        String::from_utf8(bytes).unwrap(),
        "{\"individual\":[10,0,255],\"fitness\":265}"
    );
    let empty = wrapper(Vec::new());
    let bytes = encode_json_record(&empty);
    assert_eq!(String::from_utf8(bytes).unwrap(), "{\"individual\":[],\"fitness\":0}");
}

#[test]
fn json_record_round_trip() {
    for values in [vec![], vec![0], vec![u64::MAX], vec![12, 0, 7, 19700101]] {
        let w = wrapper(values);
        let bytes = encode_json_record(&w);
        let back: DWIndividualWrapper<Words> = decode_json_record(&bytes).unwrap();
        assert_eq!(back.get_fitness().get_key(), w.get_fitness().get_key());
        assert_eq!(back.individual, w.individual);
    }
}

#[test]
fn json_record_rejects_damage() {
    let ok = b"{\"individual\":[1,2],\"fitness\":3}".to_vec();
    assert!(decode_json_record::<Words>(&ok).is_some());
    let cases: Vec<Vec<u8>> = vec![
        b"".to_vec(),
        b"{}".to_vec(),
        b"{\"individual\":[1,2],\"fitness\":3".to_vec(),
        b"{\"individual\":[1,2],\"fitness\":3}x".to_vec(),
        b"{\"individual\":[01],\"fitness\":3}".to_vec(),
        b"{\"individual\":[1,],\"fitness\":3}".to_vec(),
        b"{\"individual\":[1,2],\"fitness\":}".to_vec(),
        b"{\"individual\":[99999999999999999999999],\"fitness\":3}".to_vec(),
    ];
    for bad in cases {
        assert!(decode_json_record::<Words>(&bad).is_none());
    }
}

#[test]
fn json_population_round_trip() {
    let pop = vec![wrapper(vec![9]), wrapper(vec![]), wrapper(vec![1, 2, 3, 4])];
    let bytes = encode_json_population(&pop);
    let text = String::from_utf8(bytes.clone()).unwrap();
    assert!(text.starts_with("[{\"individual\":[9],\"fitness\":9},"));
    assert!(text.ends_with("]"));
    let back: Vec<DWIndividualWrapper<Words>> = decode_json_population(&bytes).unwrap();
    assert_eq!(back.len(), pop.len());
    for (a, b) in back.iter().zip(pop.iter()) {
        assert_eq!(a.get_fitness().get_key(), b.get_fitness().get_key());
        assert_eq!(a.individual, b.individual);
    }
    // the empty population is exactly two brackets
    let none: Vec<DWIndividualWrapper<Words>> = Vec::new();
    let bytes = encode_json_population(&none);
    assert_eq!(String::from_utf8(bytes.clone()).unwrap(), "[]");
    assert_eq!(decode_json_population::<Words>(&bytes).unwrap().len(), 0);
}
