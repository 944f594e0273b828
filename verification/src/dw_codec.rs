use vstd::bytes::{
    lemma_auto_spec_u64_to_from_le_bytes, spec_u64_from_le_bytes, spec_u64_to_le_bytes,
    spec_u64_to_le_bytes_to_open, spec_u64_to_le_bytes_open,
};
use vstd::prelude::*;

use crate::dw_fitness::DWFitness;
use crate::dw_individual::{DWIndividual, DWIndividualWrapper};

verus! {

/// The little-endian bytes of a sequence of words, in order.
pub open spec fn spec_words_bytes(data: Seq<u64>) -> Seq<u8>
    decreases data.len(),
{
    if data.len() == 0 {
        Seq::empty()
    } else {
        spec_u64_to_le_bytes(data.first()) + spec_words_bytes(data.drop_first())
    }
}

/// The compact encoding of one scored wrapper: the fitness key, the word
/// count, then the individual's portable words, all as little-endian
/// 64-bit values.
pub open spec fn spec_record_bytes(key: u64, data: Seq<u64>) -> Seq<u8> {
    spec_u64_to_le_bytes(key) + spec_u64_to_le_bytes(data.len() as u64) + spec_words_bytes(data)
}

pub proof fn lemma_words_bytes_len(data: Seq<u64>)
    ensures
        spec_words_bytes(data).len() == 8 * data.len(),
    decreases data.len(),
{
    lemma_auto_spec_u64_to_from_le_bytes();
    if data.len() > 0 {
        lemma_words_bytes_len(data.drop_first());
    }
}

/// Appending one word appends its eight bytes.
pub proof fn lemma_words_bytes_push(data: Seq<u64>, x: u64)
    ensures
        spec_words_bytes(data.push(x)) == spec_words_bytes(data) + spec_u64_to_le_bytes(x),
    decreases data.len(),
{
    lemma_auto_spec_u64_to_from_le_bytes();
    if data.len() == 0 {
        assert(spec_words_bytes(data) == Seq::<u8>::empty());
        assert(data.push(x).len() == 1);
        assert(data.push(x).first() == x);
        assert(data.push(x).drop_first() =~= Seq::<u64>::empty());
        assert(spec_words_bytes(data.push(x).drop_first()) == Seq::<u8>::empty());
        assert(spec_words_bytes(data.push(x)) == spec_u64_to_le_bytes(x) + Seq::<u8>::empty());
        assert(spec_u64_to_le_bytes(x) + Seq::<u8>::empty() =~= Seq::<u8>::empty()
            + spec_u64_to_le_bytes(x));
    } else {
        assert(data.push(x).first() == data.first());
        assert(data.push(x).drop_first() =~= data.drop_first().push(x));
        lemma_words_bytes_push(data.drop_first(), x);
        assert(spec_words_bytes(data.push(x)) =~= spec_words_bytes(data) + spec_u64_to_le_bytes(
            x,
        ));
    }
}

/// The words read back from little-endian bytes, eight at a time.
pub open spec fn spec_parse_words(b: Seq<u8>) -> Seq<u64>
    decreases b.len(),
{
    if b.len() < 8 {
        Seq::empty()
    } else {
        seq![spec_u64_from_le_bytes(b.take(8))] + spec_parse_words(b.skip(8))
    }
}

pub proof fn lemma_words_round_trip(data: Seq<u64>)
    ensures
        spec_parse_words(spec_words_bytes(data)) == data,
    decreases data.len(),
{
    lemma_auto_spec_u64_to_from_le_bytes();
    if data.len() == 0 {
        assert(spec_parse_words(spec_words_bytes(data)) =~= data);
    } else {
        let head = spec_u64_to_le_bytes(data.first());
        let rest = spec_words_bytes(data.drop_first());
        lemma_words_bytes_len(data.drop_first());
        assert((head + rest).take(8) =~= head);
        assert((head + rest).skip(8) =~= rest);
        lemma_words_round_trip(data.drop_first());
        assert(spec_parse_words(spec_words_bytes(data)) =~= data);
    }
}

/// What the strict record parser accepts: the bytes must consist of the
/// key, a word count that matches the remaining length exactly, and the
/// words.
pub open spec fn spec_parse_record(b: Seq<u8>) -> Option<(u64, Seq<u64>)> {
    if b.len() < 16 {
        None
    } else {
        let key = spec_u64_from_le_bytes(b.subrange(0, 8));
        let count = spec_u64_from_le_bytes(b.subrange(8, 16));
        if b.len() == 16 + 8 * count {
            Some((key, spec_parse_words(b.skip(16))))
        } else {
            None
        }
    }
}

/// The compact encoding round-trips: parsing an encoded record gives back
/// exactly the key and the words.
pub proof fn lemma_record_round_trip(key: u64, data: Seq<u64>)
    requires
        data.len() <= u64::MAX,
    ensures
        spec_parse_record(spec_record_bytes(key, data)) == Some((key, data)),
{
    lemma_auto_spec_u64_to_from_le_bytes();
    lemma_words_bytes_len(data);
    let b = spec_record_bytes(key, data);
    assert(b.subrange(0, 8) =~= spec_u64_to_le_bytes(key));
    assert(b.subrange(8, 16) =~= spec_u64_to_le_bytes(data.len() as u64));
    assert(b.skip(16) =~= spec_words_bytes(data));
    lemma_words_round_trip(data);
}

/// Append the eight little-endian bytes of `x`.
fn push_u64_le(out: &mut Vec<u8>, x: u64)
    ensures
        final(out)@ == old(out)@ + spec_u64_to_le_bytes(x),
{
    proof {
        spec_u64_to_le_bytes_to_open(x);
    }
    out.push((x & 0xff) as u8);
    out.push(((x >> 8) & 0xff) as u8);
    out.push(((x >> 16) & 0xff) as u8);
    out.push(((x >> 24) & 0xff) as u8);
    out.push(((x >> 32) & 0xff) as u8);
    out.push(((x >> 40) & 0xff) as u8);
    out.push(((x >> 48) & 0xff) as u8);
    out.push(((x >> 56) & 0xff) as u8);
    proof {
        assert(out@ =~= old(out)@ + spec_u64_to_le_bytes_open(x));
    }
}

/// Read the eight little-endian bytes at `pos`.
fn read_u64_le(bytes: &Vec<u8>, pos: usize) -> (r: u64)
    requires
        pos + 8 <= bytes@.len(),
    ensures
        r == spec_u64_from_le_bytes(bytes@.subrange(pos as int, pos as int + 8)),
{
    let total = bytes.len();
    let b0 = bytes[pos] as u64;
    let b1 = bytes[pos + 1] as u64;
    let b2 = bytes[pos + 2] as u64;
    let b3 = bytes[pos + 3] as u64;
    let b4 = bytes[pos + 4] as u64;
    let b5 = bytes[pos + 5] as u64;
    let b6 = bytes[pos + 6] as u64;
    let b7 = bytes[pos + 7] as u64;
    let x = b0 | b1 << 8 | b2 << 16 | b3 << 24 | b4 << 32 | b5 << 40 | b6 << 48 | b7 << 56;
    proof {
        let s = bytes@.subrange(pos as int, pos as int + 8);
        lemma_auto_spec_u64_to_from_le_bytes();
        spec_u64_to_le_bytes_to_open(spec_u64_from_le_bytes(s));
        let y = spec_u64_from_le_bytes(s);
        let s0 = s[0] as u64;
        let s1 = s[1] as u64;
        let s2 = s[2] as u64;
        let s3 = s[3] as u64;
        let s4 = s[4] as u64;
        let s5 = s[5] as u64;
        let s6 = s[6] as u64;
        let s7 = s[7] as u64;
        assert(spec_u64_to_le_bytes_open(y) == s);
        assert(y & 0xff < 0x100 && (y >> 8) & 0xff < 0x100 && (y >> 16) & 0xff < 0x100 && (y >> 24)
            & 0xff < 0x100 && (y >> 32) & 0xff < 0x100 && (y >> 40) & 0xff < 0x100 && (y >> 48)
            & 0xff < 0x100 && (y >> 56) & 0xff < 0x100) by (bit_vector);
        assert(s[0] == (y & 0xff) as u8);
        assert(s[1] == ((y >> 8) & 0xff) as u8);
        assert(s[2] == ((y >> 16) & 0xff) as u8);
        assert(s[3] == ((y >> 24) & 0xff) as u8);
        assert(s[4] == ((y >> 32) & 0xff) as u8);
        assert(s[5] == ((y >> 40) & 0xff) as u8);
        assert(s[6] == ((y >> 48) & 0xff) as u8);
        assert(s[7] == ((y >> 56) & 0xff) as u8);
        assert(s0 == (y & 0xff) && s1 == ((y >> 8) & 0xff) && s2 == ((y >> 16) & 0xff) && s3 == ((
        y >> 24) & 0xff) && s4 == ((y >> 32) & 0xff) && s5 == ((y >> 40) & 0xff) && s6 == ((y >> 48)
            & 0xff) && s7 == ((y >> 56) & 0xff));
        assert((y & 0xff) | ((y >> 8) & 0xff) << 8 | ((y >> 16) & 0xff) << 16 | ((y >> 24) & 0xff)
            << 24 | ((y >> 32) & 0xff) << 32 | ((y >> 40) & 0xff) << 40 | ((y >> 48) & 0xff) << 48
            | ((y >> 56) & 0xff) << 56 == y) by (bit_vector);
    }
    x
}

/// Encode one scored wrapper in the compact format.
pub fn encode_record<T: DWIndividual>(wrapper: &DWIndividualWrapper<T>) -> (r: Vec<u8>)
    ensures
        r@ == spec_record_bytes(wrapper.fitness.key, wrapper.individual.data_view()),
{
    let data = wrapper.individual.to_data();
    let mut out: Vec<u8> = Vec::new();
    push_u64_le(&mut out, wrapper.fitness.get_key());
    push_u64_le(&mut out, data.len() as u64);
    let mut i: usize = 0;
    while i < data.len()
        invariant
            i <= data@.len(),
            data@ == wrapper.individual.data_view(),
            out@ == spec_u64_to_le_bytes(wrapper.fitness.key) + spec_u64_to_le_bytes(
                data@.len() as u64,
            ) + spec_words_bytes(data@.take(i as int)),
        decreases data@.len() - i,
    {
        push_u64_le(&mut out, data[i]);
        proof {
            lemma_words_bytes_push(data@.take(i as int), data@[i as int]);
            assert(data@.take(i as int).push(data@[i as int]) =~= data@.take(i + 1));
            assert(out@ =~= spec_u64_to_le_bytes(wrapper.fitness.key) + spec_u64_to_le_bytes(
                data@.len() as u64,
            ) + spec_words_bytes(data@.take(i + 1)));
        }
        i = i + 1;
    }
    proof {
        assert(data@.take(data@.len() as int) =~= data@);
    }
    out
}

/// Parse one compact record to its fitness and its portable words; the
/// result is `Some` exactly on canonical encodings, and parsing an encoded
/// record gives back what was encoded.
pub fn parse_record(bytes: &Vec<u8>) -> (r: Option<(DWFitness, Vec<u64>)>)
    ensures
        match spec_parse_record(bytes@) {
            Some(parsed) => r matches Some(p) && p.0.key == parsed.0 && p.1@ == parsed.1,
            None => r is None,
        },
{
    proof {
        lemma_auto_spec_u64_to_from_le_bytes();
    }
    if bytes.len() < 16 {
        return None;
    }
    let key = read_u64_le(bytes, 0);
    let count = read_u64_le(bytes, 8);
    if count > (usize::MAX as u64 - 16) / 8 {
        proof {
            assert(bytes@.len() != 16 + 8 * spec_u64_from_le_bytes(bytes@.subrange(8, 16)));
        }
        return None;
    }
    let need: usize = 16 + (count as usize) * 8;
    if bytes.len() != need {
        return None;
    }
    let mut data: Vec<u64> = Vec::new();
    let n = count as usize;
    proof {
        lemma_parse_words_len(bytes@.skip(16));
        assert(spec_parse_words(bytes@.skip(16)).take(0) =~= Seq::<u64>::empty());
    }
    let mut i: usize = 0;
    while i < n
        invariant
            i <= n,
            need == 16 + 8 * n,
            16 + 8 * n == bytes@.len(),
            data@.len() == i,
            data@ == spec_parse_words(bytes@.skip(16)).take(i as int),
            spec_parse_words(bytes@.skip(16)).len() == n,
        decreases n - i,
    {
        let w = read_u64_le(bytes, 16 + i * 8);
        data.push(w);
        proof {
            lemma_parse_words_index(bytes@.skip(16), i as int);
            assert(bytes@.skip(16).subrange(8 * i, 8 * i + 8) =~= bytes@.subrange(
                16 + 8 * i,
                16 + 8 * i + 8,
            ));
            assert(data@ =~= spec_parse_words(bytes@.skip(16)).take(i + 1));
        }
        i = i + 1;
    }
    proof {
        assert(data@ =~= spec_parse_words(bytes@.skip(16)));
    }
    Some((DWFitness::from_key(key), data))
}

/// The words read from a byte sequence of exact length `8 n` number `n`,
/// and the word at position `i` is read from its eight bytes.
pub proof fn lemma_parse_words_len(b: Seq<u8>)
    ensures
        8 * spec_parse_words(b).len() <= b.len(),
        b.len() < 8 * (spec_parse_words(b).len() + 1),
    decreases b.len(),
{
    if b.len() >= 8 {
        lemma_parse_words_len(b.skip(8));
    }
}

pub proof fn lemma_parse_words_index(b: Seq<u8>, i: int)
    requires
        0 <= i,
        8 * i + 8 <= b.len(),
    ensures
        spec_parse_words(b).len() > i,
        spec_parse_words(b)[i] == spec_u64_from_le_bytes(b.subrange(8 * i, 8 * i + 8)),
    decreases i,
{
    lemma_parse_words_len(b);
    if i > 0 {
        lemma_parse_words_index(b.skip(8), i - 1);
        assert(b.skip(8).subrange(8 * (i - 1), 8 * (i - 1) + 8) =~= b.subrange(8 * i, 8 * i + 8));
    } else {
        assert(b.take(8) =~= b.subrange(0, 8));
    }
}

/// The key and portable words of every wrapper, in order.
pub open spec fn spec_records_of<T: DWIndividual>(s: Seq<DWIndividualWrapper<T>>) -> Seq<(u64, Seq<u64>)> {
    s.map_values(|w: DWIndividualWrapper<T>| (w.fitness.key, w.individual.data_view()))
}

/// The concatenated records of a sequence of wrappers.
pub open spec fn spec_records_bytes(recs: Seq<(u64, Seq<u64>)>) -> Seq<u8>
    decreases recs.len(),
{
    if recs.len() == 0 {
        Seq::empty()
    } else {
        spec_record_bytes(recs.first().0, recs.first().1) + spec_records_bytes(recs.drop_first())
    }
}

/// The compact encoding of a whole population: the wrapper count, then
/// every record in order.
pub open spec fn spec_population_bytes(recs: Seq<(u64, Seq<u64>)>) -> Seq<u8> {
    spec_u64_to_le_bytes(recs.len() as u64) + spec_records_bytes(recs)
}

/// One record read at `pos`: its key, its words and the position after it.
pub open spec fn spec_parse_record_at(b: Seq<u8>, pos: int) -> Option<((u64, Seq<u64>), int)> {
    if pos < 0 || pos + 16 > b.len() {
        None
    } else {
        let key = spec_u64_from_le_bytes(b.subrange(pos, pos + 8));
        let count = spec_u64_from_le_bytes(b.subrange(pos + 8, pos + 16));
        if pos + 16 + 8 * count <= b.len() {
            Some(
                (
                    (key, spec_parse_words(b.subrange(pos + 16, pos + 16 + 8 * count))),
                    pos + 16 + 8 * count,
                ),
            )
        } else {
            None
        }
    }
}

/// `n` records read from `pos` on, with the position after them.
pub open spec fn spec_parse_records_from(b: Seq<u8>, pos: int, n: nat) -> Option<
    (Seq<(u64, Seq<u64>)>, int),
>
    decreases n,
{
    if n == 0 {
        Some((Seq::empty(), pos))
    } else {
        match spec_parse_record_at(b, pos) {
            None => None,
            Some((rec, p2)) => match spec_parse_records_from(b, p2, (n - 1) as nat) {
                None => None,
                Some((rest, p3)) => Some((seq![rec] + rest, p3)),
            },
        }
    }
}

/// What the strict population parser accepts: a count, that many records,
/// and nothing after them.
pub open spec fn spec_parse_population(b: Seq<u8>) -> Option<Seq<(u64, Seq<u64>)>> {
    if b.len() < 8 {
        None
    } else {
        let n = spec_u64_from_le_bytes(b.subrange(0, 8));
        match spec_parse_records_from(b, 8, n as nat) {
            None => None,
            Some((recs, p)) => if p == b.len() {
                Some(recs)
            } else {
                None
            },
        }
    }
}

/// Splitting a known concatenation at the end of a byte sequence.
proof fn lemma_concat_split(b: Seq<u8>, pos: int, x: Seq<u8>, y: Seq<u8>)
    requires
        0 <= pos <= b.len(),
        b.subrange(pos, b.len() as int) == x + y,
    ensures
        pos + x.len() + y.len() == b.len(),
        b.subrange(pos, pos + x.len()) == x,
        b.subrange(pos + x.len(), b.len() as int) == y,
{
    assert(b.subrange(pos, b.len() as int).len() == x.len() + y.len());
    assert forall|i: int| 0 <= i < x.len() implies b.subrange(pos, pos + x.len())[i] == x[i] by {
        assert(x[i] == (x + y)[i]);
        assert((x + y)[i] == b.subrange(pos, b.len() as int)[i]);
    }
    assert(b.subrange(pos, pos + x.len()) =~= x);
    assert forall|i: int| 0 <= i < y.len() implies b.subrange(pos + x.len(), b.len() as int)[i]
        == y[i] by {
        assert(y[i] == (x + y)[x.len() + i]);
        assert((x + y)[x.len() + i] == b.subrange(pos, b.len() as int)[x.len() + i]);
    }
    assert(b.subrange(pos + x.len(), b.len() as int) =~= y);
}

/// Record lists that sit at the tail of a byte sequence parse back to
/// themselves.
pub proof fn lemma_records_round_trip(b: Seq<u8>, pos: int, recs: Seq<(u64, Seq<u64>)>)
    requires
        0 <= pos <= b.len(),
        b.subrange(pos, b.len() as int) == spec_records_bytes(recs),
        forall|k: int| 0 <= k < recs.len() ==> (#[trigger] recs[k]).1.len() <= u64::MAX,
    ensures
        spec_parse_records_from(b, pos, recs.len() as nat) == Some((recs, b.len() as int)),
    decreases recs.len(),
{
    lemma_auto_spec_u64_to_from_le_bytes();
    if recs.len() == 0 {
        assert(b.subrange(pos, b.len() as int).len() == 0);
        assert(pos == b.len());
    } else {
        let key = recs.first().0;
        let data = recs.first().1;
        let head = spec_record_bytes(key, data);
        let tail = spec_records_bytes(recs.drop_first());
        lemma_words_bytes_len(data);
        assert(head.len() == 16 + 8 * data.len());
        let p2 = pos + head.len();
        assert(b.subrange(pos, b.len() as int) == head + tail);
        lemma_concat_split(b, pos, head, tail);
        assert(b.subrange(pos, p2) == head);
        assert(b.subrange(p2, b.len() as int) == tail);
        assert(b.subrange(pos, pos + 8) =~= head.subrange(0, 8));
        assert(b.subrange(pos + 8, pos + 16) =~= head.subrange(8, 16));
        assert(head.subrange(0, 8) =~= spec_u64_to_le_bytes(key));
        assert(head.subrange(8, 16) =~= spec_u64_to_le_bytes(data.len() as u64));
        assert forall|i: int| 0 <= i < 8 * data.len() implies b.subrange(
            pos + 16,
            pos + 16 + 8 * data.len(),
        )[i] == spec_words_bytes(data)[i] by {
            assert(b.subrange(pos + 16, pos + 16 + 8 * data.len())[i] == b[pos + 16 + i]);
            assert(b[pos + 16 + i] == b.subrange(pos, p2)[16 + i]);
            assert(head[16 + i] == spec_words_bytes(data)[i]);
        }
        assert(b.subrange(pos + 16, pos + 16 + 8 * data.len()) =~= spec_words_bytes(data));
        lemma_words_round_trip(data);
        assert(spec_parse_record_at(b, pos) == Some(((key, data), p2)));
        assert forall|k: int| 0 <= k < recs.drop_first().len() implies (#[trigger] recs.drop_first(
        )[k]).1.len() <= u64::MAX by {
            assert(recs.drop_first()[k] == recs[k + 1]);
        }
        lemma_records_round_trip(b, p2, recs.drop_first());
        assert(seq![recs.first()] + recs.drop_first() =~= recs);
    }
}

/// The compact population encoding round-trips.
pub proof fn lemma_population_round_trip(recs: Seq<(u64, Seq<u64>)>)
    requires
        recs.len() <= u64::MAX,
        forall|k: int| 0 <= k < recs.len() ==> (#[trigger] recs[k]).1.len() <= u64::MAX,
    ensures
        spec_parse_population(spec_population_bytes(recs)) == Some(recs),
{
    lemma_auto_spec_u64_to_from_le_bytes();
    let b = spec_population_bytes(recs);
    assert(b.subrange(0, 8) =~= spec_u64_to_le_bytes(recs.len() as u64));
    assert(b.subrange(8, b.len() as int) =~= spec_records_bytes(recs));
    lemma_records_round_trip(b, 8, recs);
}

/// Appending one record appends its bytes.
pub proof fn lemma_records_bytes_push(recs: Seq<(u64, Seq<u64>)>, rec: (u64, Seq<u64>))
    ensures
        spec_records_bytes(recs.push(rec)) == spec_records_bytes(recs) + spec_record_bytes(
            rec.0,
            rec.1,
        ),
    decreases recs.len(),
{
    if recs.len() == 0 {
        assert(recs.push(rec).first() == rec);
        assert(recs.push(rec).drop_first() =~= Seq::<(u64, Seq<u64>)>::empty());
        assert(spec_records_bytes(recs.push(rec).drop_first()) == Seq::<u8>::empty());
        assert(spec_records_bytes(recs) == Seq::<u8>::empty());
        assert(spec_records_bytes(recs.push(rec)) =~= spec_records_bytes(recs)
            + spec_record_bytes(rec.0, rec.1));
    } else {
        assert(recs.push(rec).first() == recs.first());
        assert(recs.push(rec).drop_first() =~= recs.drop_first().push(rec));
        lemma_records_bytes_push(recs.drop_first(), rec);
        assert(spec_records_bytes(recs.push(rec)) =~= spec_records_bytes(recs)
            + spec_record_bytes(rec.0, rec.1));
    }
}

/// A successful parse of `n` records consumes at least sixteen bytes each
/// and never runs past the end.
pub proof fn lemma_parse_records_bounds(b: Seq<u8>, pos: int, n: nat)
    ensures
        spec_parse_records_from(b, pos, n) matches Some(parsed) ==> parsed.1 >= pos + 16 * n && (n
            > 0 ==> parsed.1 <= b.len()) && parsed.0.len() == n,
    decreases n,
{
    if n > 0 {
        match spec_parse_record_at(b, pos) {
            None => {
                assert(spec_parse_records_from(b, pos, n) is None);
            },
            Some((rec, p2)) => {
                assert(p2 >= pos + 16);
                assert(p2 <= b.len());
                lemma_parse_records_bounds(b, p2, (n - 1) as nat);
            },
        }
    }
}

/// Encode a whole population in the compact format.
pub fn encode_population<T: DWIndividual>(wrappers: &Vec<DWIndividualWrapper<T>>) -> (r: Vec<u8>)
    ensures
        r@ == spec_population_bytes(spec_records_of(wrappers@)),
{
    let mut out: Vec<u8> = Vec::new();
    push_u64_le(&mut out, wrappers.len() as u64);
    proof {
        assert(spec_records_of(wrappers@.take(0)) =~= Seq::<(u64, Seq<u64>)>::empty());
        assert(spec_records_of(wrappers@).len() == wrappers@.len());
    }
    let mut i: usize = 0;
    while i < wrappers.len()
        invariant
            i <= wrappers@.len(),
            out@ == spec_u64_to_le_bytes(wrappers@.len() as u64) + spec_records_bytes(
                spec_records_of(wrappers@.take(i as int)),
            ),
        decreases wrappers@.len() - i,
    {
        let mut rec = encode_record(&wrappers[i]);
        out.append(&mut rec);
        proof {
            let done = spec_records_of(wrappers@.take(i as int));
            let entry = (wrappers@[i as int].fitness.key, wrappers@[i as int].individual.data_view());
            lemma_records_bytes_push(done, entry);
            assert(spec_records_of(wrappers@.take(i + 1)) =~= done.push(entry));
            assert(out@ =~= spec_u64_to_le_bytes(wrappers@.len() as u64) + spec_records_bytes(
                spec_records_of(wrappers@.take(i + 1)),
            ));
        }
        i = i + 1;
    }
    proof {
        assert(wrappers@.take(wrappers@.len() as int) =~= wrappers@);
    }
    out
}

/// Parse the compact record at `pos`, returning the fitness, the words and
/// the position after the record; exactly mirrors what the strict format
/// allows there.
fn parse_record_at(bytes: &Vec<u8>, pos: usize) -> (r: Option<(DWFitness, Vec<u64>, usize)>)
    requires
        pos <= bytes@.len(),
    ensures
        match spec_parse_record_at(bytes@, pos as int) {
            Some(parsed) => r matches Some(p) && p.0.key == parsed.0.0 && p.1@ == parsed.0.1
                && p.2 == parsed.1,
            None => r is None,
        },
{
    let total = bytes.len();
    if total - pos < 16 {
        return None;
    }
    let key = read_u64_le(bytes, pos);
    let count = read_u64_le(bytes, pos + 8);
    if count > ((usize::MAX - pos - 16) / 8) as u64 {
        proof {
            assert(pos + 16 + 8 * spec_u64_from_le_bytes(
                bytes@.subrange(pos + 8, pos + 16),
            ) > bytes@.len());
        }
        return None;
    }
    let n = count as usize;
    let words_end: usize = pos + 16 + 8 * n;
    if words_end > total {
        return None;
    }
    let ghost word_bytes = bytes@.subrange(pos + 16, pos + 16 + 8 * (n as int));
    let mut data: Vec<u64> = Vec::new();
    proof {
        lemma_parse_words_len(word_bytes);
        assert(spec_parse_words(word_bytes).take(0) =~= Seq::<u64>::empty());
    }
    let mut i: usize = 0;
    while i < n
        invariant
            i <= n,
            words_end == pos + 16 + 8 * n,
            pos + 16 + 8 * n <= bytes@.len(),
            word_bytes == bytes@.subrange(pos + 16, pos + 16 + 8 * (n as int)),
            data@.len() == i,
            data@ == spec_parse_words(word_bytes).take(i as int),
            spec_parse_words(word_bytes).len() == n,
        decreases n - i,
    {
        let w = read_u64_le(bytes, pos + 16 + i * 8);
        data.push(w);
        proof {
            lemma_parse_words_index(word_bytes, i as int);
            assert(word_bytes.subrange(8 * i, 8 * i + 8) =~= bytes@.subrange(
                pos + 16 + 8 * i,
                pos + 16 + 8 * i + 8,
            ));
            assert(data@ =~= spec_parse_words(word_bytes).take(i + 1));
        }
        i = i + 1;
    }
    proof {
        assert(data@ =~= spec_parse_words(word_bytes));
    }
    Some((DWFitness::from_key(key), data, words_end))
}

/// Rebuild a whole population from its compact encoding: the structure
/// must be canonical, with nothing after the last record, and every
/// individual must accept its portable words.
pub fn decode_population<T: DWIndividual>(bytes: &Vec<u8>) -> (r: Option<
    Vec<DWIndividualWrapper<T>>,
>)
    ensures
        spec_parse_population(bytes@) is None ==> r is None,
        r matches Some(v) ==> (spec_parse_population(bytes@) matches Some(recs)
            && spec_records_of(v@) == recs),
{
    let total = bytes.len();
    if total < 8 {
        return None;
    }
    let n64 = read_u64_le(bytes, 0);
    proof {
        lemma_parse_records_bounds(bytes@, 8, n64 as nat);
    }
    if n64 > ((usize::MAX - 8) / 16) as u64 {
        return None;
    }
    let n = n64 as usize;
    let mut out: Vec<DWIndividualWrapper<T>> = Vec::new();
    let mut pos: usize = 8;
    proof {
        assert(spec_records_of(out@) =~= Seq::<(u64, Seq<u64>)>::empty());
        assert(Seq::<(u64, Seq<u64>)>::empty() + spec_parse_records_from(
            bytes@,
            8,
            n as nat,
        )->Some_0.0 =~= spec_parse_records_from(bytes@, 8, n as nat)->Some_0.0);
    }
    let mut i: usize = 0;
    while i < n
        invariant
            i <= n,
            pos <= bytes@.len(),
            out@.len() == i,
            match spec_parse_records_from(bytes@, pos as int, (n - i) as nat) {
                None => spec_parse_records_from(bytes@, 8, n as nat) is None,
                Some(parsed) => spec_parse_records_from(bytes@, 8, n as nat) matches Some(full)
                    && full.0 == spec_records_of(out@) + parsed.0 && full.1 == parsed.1,
            },
        decreases n - i,
    {
        let ghost out_pre = out@;
        let step = parse_record_at(bytes, pos);
        match step {
            None => {
                return None;
            },
            Some((fitness, data, next)) => {
                match T::from_data(&data) {
                    None => {
                        return None;
                    },
                    Some(individual) => {
                        out.push(DWIndividualWrapper { individual, fitness });
                        proof {
                            let rec = (fitness.key, data@);
                            assert(spec_records_of(out@) =~= spec_records_of(out_pre).push(rec));
                            let rest_opt = spec_parse_records_from(
                                bytes@,
                                next as int,
                                (n - i - 1) as nat,
                            );
                            match rest_opt {
                                None => {},
                                Some(parsed) => {
                                    assert(spec_records_of(out_pre).push(rec) + parsed.0
                                        =~= spec_records_of(out_pre) + (seq![rec] + parsed.0));
                                },
                            }
                        }
                        pos = next;
                    },
                }
            },
        }
        i = i + 1;
    }
    proof {
        assert(spec_parse_records_from(bytes@, pos as int, 0) == Some(
            (Seq::<(u64, Seq<u64>)>::empty(), pos as int),
        ));
        assert(spec_records_of(out@) + Seq::<(u64, Seq<u64>)>::empty() =~= spec_records_of(out@));
    }
    if pos != total {
        return None;
    }
    Some(out)
}

/// Rebuild a scored wrapper from one compact record: the structure must be
/// canonical and the individual must accept its portable words.
pub fn decode_record<T: DWIndividual>(bytes: &Vec<u8>) -> (r: Option<DWIndividualWrapper<T>>)
    ensures
        spec_parse_record(bytes@) is None ==> r is None,
        r matches Some(w) ==> (spec_parse_record(bytes@) matches Some(parsed) && w.fitness.key
            == parsed.0 && w.individual.data_view() == parsed.1),
{
    match parse_record(bytes) {
        None => None,
        Some((fitness, data)) => {
            match T::from_data(&data) {
                None => None,
                Some(individual) => Some(DWIndividualWrapper { individual, fitness }),
            }
        },
    }
}

} // verus!
