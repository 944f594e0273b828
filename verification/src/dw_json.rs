use vstd::prelude::*;

use crate::dw_fitness::DWFitness;
use crate::dw_individual::{DWIndividual, DWIndividualWrapper};
use crate::dw_codec::spec_records_of;

verus! {

/// An ASCII decimal digit.
pub open spec fn spec_is_digit(b: u8) -> bool {
    48 <= b <= 57
}

/// The canonical decimal digits of `x`: no sign, no leading zero.
pub open spec fn spec_dec_bytes(x: nat) -> Seq<u8>
    decreases x,
{
    if x < 10 {
        seq![(48 + x) as u8]
    } else {
        spec_dec_bytes((x / 10) as nat).push((48 + x % 10) as u8)
    }
}

/// The canonical decimal digits of `x`, as characters.
pub open spec fn spec_dec_chars(x: nat) -> Seq<char>
    decreases x,
{
    if x < 10 {
        seq![((48 + x) as u8) as char]
    } else {
        spec_dec_chars((x / 10) as nat).push(((48 + x % 10) as u8) as char)
    }
}

/// The value of a digit string.
pub open spec fn spec_dec_value(s: Seq<u8>) -> int
    decreases s.len(),
{
    if s.len() == 0 {
        0
    } else {
        spec_dec_value(s.drop_last()) * 10 + (s.last() - 48)
    }
}

/// Canonical decimal digits are digits, are never empty, and carry their
/// value.
proof fn lemma_dec_bytes_props(x: nat)
    ensures
        spec_dec_bytes(x).len() >= 1,
        forall|i: int|
            0 <= i < spec_dec_bytes(x).len() ==> spec_is_digit(#[trigger] spec_dec_bytes(x)[i]),
        spec_dec_value(spec_dec_bytes(x)) == x,
    decreases x,
{
    if x < 10 {
        let s = spec_dec_bytes(x);
        assert(s.len() == 1);
        assert(s.last() == (48 + x) as u8);
        assert(s.drop_last() =~= Seq::<u8>::empty());
        assert(spec_dec_value(s.drop_last()) == 0);
        assert(spec_dec_value(s) == s.last() - 48);
    } else {
        lemma_dec_bytes_props((x / 10) as nat);
        let prefix = spec_dec_bytes((x / 10) as nat);
        let whole = spec_dec_bytes(x);
        assert(whole == prefix.push((48 + x % 10) as u8));
        assert(whole.drop_last() =~= prefix);
        assert(spec_dec_value(whole) == spec_dec_value(prefix) * 10 + (x % 10));
    }
}

/// Equal canonical digit strings carry equal values.
proof fn lemma_dec_bytes_injective(x1: nat, x2: nat)
    requires
        spec_dec_bytes(x1) == spec_dec_bytes(x2),
    ensures
        x1 == x2,
{
    lemma_dec_bytes_props(x1);
    lemma_dec_bytes_props(x2);
}

/// A nonzero-leading digit string has a positive value.
proof fn lemma_lead_digit_value(s: Seq<u8>)
    requires
        s.len() >= 1,
        forall|i: int| 0 <= i < s.len() ==> spec_is_digit(#[trigger] s[i]),
        s[0] != 48,
    ensures
        spec_dec_value(s) >= 1,
        spec_dec_value(s) >= 0,
    decreases s.len(),
{
    if s.len() == 1 {
        assert(spec_is_digit(s[0]));
        assert(s.last() == s[0]);
        assert(s.drop_last() =~= Seq::<u8>::empty());
        assert(spec_dec_value(s.drop_last()) == 0);
        assert(spec_dec_value(s) == s[0] - 48);
    } else {
        assert(s.drop_last()[0] == s[0]);
        lemma_lead_digit_value(s.drop_last());
        assert(spec_is_digit(s.last()));
    }
}

/// A digit string has a non-negative value.
proof fn lemma_digit_value_nonneg(s: Seq<u8>)
    requires
        forall|i: int| 0 <= i < s.len() ==> spec_is_digit(#[trigger] s[i]),
    ensures
        spec_dec_value(s) >= 0,
    decreases s.len(),
{
    if s.len() > 0 {
        lemma_digit_value_nonneg(s.drop_last());
    }
}

/// A canonical digit string is exactly the decimal encoding of its value.
pub proof fn lemma_canonical_digits(s: Seq<u8>)
    requires
        s.len() >= 1,
        forall|i: int| 0 <= i < s.len() ==> spec_is_digit(#[trigger] s[i]),
        s[0] != 48 || s.len() == 1,
    ensures
        spec_dec_value(s) >= 0,
        s == spec_dec_bytes(spec_dec_value(s) as nat),
    decreases s.len(),
{
    if s.len() == 1 {
        assert(spec_is_digit(s[0]));
        assert(s.last() == s[0]);
        assert(s.drop_last() =~= Seq::<u8>::empty());
        assert(spec_dec_value(s.drop_last()) == 0);
        let v = spec_dec_value(s);
        assert(v == s[0] - 48);
        assert(0 <= v < 10);
        assert(spec_dec_bytes(v as nat) =~= s);
    } else {
        let sp = s.drop_last();
        assert(sp[0] == s[0]);
        lemma_lead_digit_value(sp);
        lemma_canonical_digits(sp);
        let v = spec_dec_value(s);
        let vp = spec_dec_value(sp);
        assert(v == vp * 10 + (s.last() - 48));
        assert(vp >= 1);
        assert(v >= 10);
        assert(v / 10 == vp && v % 10 == s.last() - 48);
        assert(spec_dec_bytes(v as nat) == spec_dec_bytes(vp as nat).push(
            (48 + v % 10) as u8,
        ));
        assert(spec_dec_bytes(v as nat) =~= s);
    }
}

/// Append the canonical decimal digits of `x`.
fn push_dec_u64(out: &mut Vec<u8>, x: u64)
    ensures
        final(out)@ == old(out)@ + spec_dec_bytes(x as nat),
{
    let mut tmp: Vec<u8> = Vec::new();
    let mut v: u64 = x;
    let mut first: bool = true;
    while first || v > 0
        invariant
            first ==> v == x && tmp@.len() == 0,
            !first ==> (if v > 0 {
                spec_dec_bytes(x as nat) == spec_dec_bytes(v as nat) + tmp@
            } else {
                spec_dec_bytes(x as nat) == tmp@
            }),
        decreases v, (if first { 1int } else { 0int }),
    {
        let d = (48 + (v % 10) as u8) as u8;
        let ghost tmp_pre = tmp@;
        tmp.insert(0, d);
        proof {
            assert(tmp@ =~= seq![d] + tmp_pre);
            if v >= 10 {
                assert(spec_dec_bytes(v as nat) == spec_dec_bytes((v as nat / 10) as nat).push(
                    (48 + v as nat % 10) as u8,
                ));
                assert(spec_dec_bytes(v as nat) + tmp_pre =~= spec_dec_bytes(
                    (v as nat / 10) as nat,
                ) + tmp@);
            } else {
                assert(spec_dec_bytes(v as nat) =~= seq![d]);
                assert(spec_dec_bytes(v as nat) + tmp_pre =~= tmp@);
            }
        }
        v = v / 10;
        first = false;
    }
    out.append(&mut tmp);
}

/// The canonical decimal digits of `x`, as a vector of ASCII bytes.
pub(crate) fn dec_u64_vec(x: u64) -> (r: Vec<u8>)
    ensures
        r@ == spec_dec_bytes(x as nat),
        forall|i: int| 0 <= i < r@.len() ==> (#[trigger] r@[i]) < 128,
{
    let mut out: Vec<u8> = Vec::new();
    push_dec_u64(&mut out, x);
    proof {
        lemma_dec_bytes_props(x as nat);
        assert forall|i: int| 0 <= i < out@.len() implies (#[trigger] out@[i]) < 128 by {
            assert(spec_is_digit(spec_dec_bytes(x as nat)[i]));
        }
    }
    out
}

/// The decimal digits read as characters are the decimal characters.
pub proof fn lemma_dec_chars_bytes(x: nat)
    ensures
        spec_dec_chars(x) == spec_dec_bytes(x).map_values(|b: u8| b as char),
    decreases x,
{
    if x < 10 {
        assert(spec_dec_chars(x) =~= spec_dec_bytes(x).map_values(|b: u8| b as char));
    } else {
        lemma_dec_chars_bytes((x / 10) as nat);
        assert(spec_dec_chars(x) =~= spec_dec_bytes(x).map_values(|b: u8| b as char));
    }
}

/// Parse a canonical decimal number at `pos`, ending at the first
/// non-digit: a successful parse returns exactly the value whose digits
/// stand there.
fn parse_dec_at(bytes: &Vec<u8>, pos: usize) -> (r: Option<(u64, usize)>)
    requires
        pos <= bytes@.len(),
    ensures
        r matches Some(p) ==> pos < p.1 <= bytes@.len() && bytes@.subrange(pos as int, p.1 as int)
            == spec_dec_bytes(p.0 as nat) && (p.1 == bytes@.len() || !spec_is_digit(
            bytes@[p.1 as int],
        )),
{
    let total = bytes.len();
    if pos >= total {
        return None;
    }
    let b0 = bytes[pos];
    if !(48 <= b0 && b0 <= 57) {
        return None;
    }
    if b0 == 48 {
        if pos + 1 < total {
            let b1 = bytes[pos + 1];
            if 48 <= b1 && b1 <= 57 {
                return None;
            }
        }
        proof {
            assert(bytes@.subrange(pos as int, pos as int + 1) =~= spec_dec_bytes(0));
        }
        return Some((0, pos + 1));
    }
    let mut p = pos;
    let mut acc: u64 = 0;
    while p < total && 48 <= bytes[p] && bytes[p] <= 57
        invariant
            pos <= p <= total,
            total == bytes@.len(),
            bytes@[pos as int] == b0,
            48 < b0 <= 57,
            forall|i: int| pos <= i < p ==> spec_is_digit(#[trigger] bytes@[i]),
            acc == spec_dec_value(bytes@.subrange(pos as int, p as int)),
        decreases total - p,
    {
        let d = bytes[p] - 48;
        if acc > (u64::MAX - d as u64) / 10 {
            return None;
        }
        proof {
            let s = bytes@.subrange(pos as int, p as int);
            lemma_digit_value_nonneg(s);
            assert(acc * 10 + d <= u64::MAX);
        }
        acc = acc * 10 + d as u64;
        p = p + 1;
        proof {
            assert(bytes@.subrange(pos as int, p as int).drop_last() =~= bytes@.subrange(
                pos as int,
                p as int - 1,
            ));
            assert(bytes@.subrange(pos as int, p as int).last() == bytes@[p as int - 1]);
        }
    }
    proof {
        let s = bytes@.subrange(pos as int, p as int);
        assert(s[0] == b0);
        lemma_canonical_digits(s);
        assert(s == spec_dec_bytes(acc as nat));
    }
    Some((acc, p))
}

/// Byte sequences joined by commas.
pub open spec fn spec_join_comma(parts: Seq<Seq<u8>>) -> Seq<u8>
    decreases parts.len(),
{
    if parts.len() == 0 {
        Seq::empty()
    } else if parts.len() == 1 {
        parts[0]
    } else {
        spec_join_comma(parts.drop_last()) + seq![44u8] + parts.last()
    }
}

/// Appending a part appends a comma and the part, except at the front.
pub proof fn lemma_join_comma_push(parts: Seq<Seq<u8>>, part: Seq<u8>)
    ensures
        parts.len() == 0 ==> spec_join_comma(parts.push(part)) == part,
        parts.len() > 0 ==> spec_join_comma(parts.push(part)) == spec_join_comma(parts) + seq![
            44u8,
        ] + part,
{
    assert(parts.push(part).drop_last() =~= parts);
    assert(parts.push(part).last() == part);
    if parts.len() == 0 {
        assert(spec_join_comma(parts.push(part)) == parts.push(part)[0]);
        assert(parts.push(part)[0] == part);
    }
}

/// The left decomposition of a comma join: the first part, then a comma
/// and the join of the rest.
proof fn lemma_join_comma_first(parts: Seq<Seq<u8>>)
    requires
        parts.len() >= 1,
    ensures
        parts.len() == 1 ==> spec_join_comma(parts) == parts[0],
        parts.len() >= 2 ==> spec_join_comma(parts) == parts[0] + seq![44u8] + spec_join_comma(
            parts.drop_first(),
        ),
    decreases parts.len(),
{
    if parts.len() >= 2 {
        lemma_join_comma_first(parts.drop_last());
        assert(parts.drop_last()[0] == parts[0]);
        if parts.len() == 2 {
            assert(parts.drop_first().len() == 1);
            assert(parts.drop_first()[0] == parts[1]);
            assert(parts.last() == parts[1]);
            assert(spec_join_comma(parts) =~= parts[0] + seq![44u8] + spec_join_comma(
                parts.drop_first(),
            ));
        } else {
            assert(parts.drop_last().drop_first() =~= parts.drop_first().drop_last());
            lemma_join_comma_first(parts.drop_first());
            assert(parts.drop_first().last() == parts.last());
            assert(parts.drop_first()[0] == parts[1]);
            assert(spec_join_comma(parts) =~= parts[0] + seq![44u8] + spec_join_comma(
                parts.drop_first(),
            ));
        }
    }
}

/// A join of canonical decimals holds only digits and commas.
proof fn lemma_dec_join_digits(d: Seq<u64>)
    ensures
        forall|i: int|
            0 <= i < spec_join_comma(spec_dec_parts(d)).len() ==> spec_is_digit(
                #[trigger] spec_join_comma(spec_dec_parts(d))[i],
            ) || spec_join_comma(spec_dec_parts(d))[i] == 44,
    decreases d.len(),
{
    if d.len() == 1 {
        assert(spec_join_comma(spec_dec_parts(d)) == spec_dec_parts(d)[0]);
        lemma_dec_bytes_props(d[0] as nat);
    } else if d.len() >= 2 {
        let parts = spec_dec_parts(d);
        lemma_join_comma_first(parts);
        lemma_dec_bytes_props(d[0] as nat);
        assert(spec_dec_parts(d.drop_first()) =~= parts.drop_first());
        lemma_dec_join_digits(d.drop_first());
        let head = spec_dec_bytes(d[0] as nat);
        let rest = spec_join_comma(spec_dec_parts(d.drop_first()));
        assert(spec_join_comma(parts) == head + seq![44u8] + rest);
        assert forall|i: int| 0 <= i < spec_join_comma(parts).len() implies spec_is_digit(
            #[trigger] spec_join_comma(parts)[i],
        ) || spec_join_comma(parts)[i] == 44 by {
            if i < head.len() {
                assert(spec_join_comma(parts)[i] == head[i]);
            } else if i == head.len() {
                assert(spec_join_comma(parts)[i] == 44);
            } else {
                assert(spec_join_comma(parts)[i] == rest[i - head.len() - 1]);
            }
        }
    }
}

/// A join of canonical decimals determines the numbers joined.
proof fn lemma_dec_join_injective(d1: Seq<u64>, d2: Seq<u64>)
    requires
        spec_join_comma(spec_dec_parts(d1)) == spec_join_comma(spec_dec_parts(d2)),
    ensures
        d1 == d2,
    decreases d1.len(),
{
    let join = spec_join_comma(spec_dec_parts(d1));
    if d1.len() == 0 || d2.len() == 0 {
        if d1.len() > 0 {
            lemma_join_comma_first(spec_dec_parts(d1));
            lemma_dec_bytes_props(d1[0] as nat);
            assert(join.len() >= 1);
        }
        if d2.len() > 0 {
            lemma_join_comma_first(spec_dec_parts(d2));
            lemma_dec_bytes_props(d2[0] as nat);
            assert(join.len() >= 1);
        }
        assert(d1.len() == 0 && d2.len() == 0);
        assert(d1 =~= d2);
    } else {
        lemma_join_comma_first(spec_dec_parts(d1));
        lemma_join_comma_first(spec_dec_parts(d2));
        let head1 = spec_dec_bytes(d1[0] as nat);
        let head2 = spec_dec_bytes(d2[0] as nat);
        lemma_dec_bytes_props(d1[0] as nat);
        lemma_dec_bytes_props(d2[0] as nat);
        if d1.len() == 1 && d2.len() == 1 {
            assert(join == head1 && join == head2);
            lemma_dec_bytes_injective(d1[0] as nat, d2[0] as nat);
            assert(d1 =~= d2);
        } else if d1.len() == 1 {
            // all digits on one side, a comma on the other
            let rest2 = spec_join_comma(spec_dec_parts(d2).drop_first());
            assert(join == head2 + seq![44u8] + rest2);
            assert(join[head2.len() as int] == 44);
            assert(spec_is_digit(join[head2.len() as int]));
            assert(false);
        } else if d2.len() == 1 {
            let rest1 = spec_join_comma(spec_dec_parts(d1).drop_first());
            assert(join == head1 + seq![44u8] + rest1);
            assert(join[head1.len() as int] == 44);
            assert(spec_is_digit(join[head1.len() as int]));
            assert(false);
        } else {
            let rest1 = spec_join_comma(spec_dec_parts(d1).drop_first());
            let rest2 = spec_join_comma(spec_dec_parts(d2).drop_first());
            assert(join == head1 + seq![44u8] + rest1);
            assert(join == head2 + seq![44u8] + rest2);
            // the first comma bounds both heads, so they are equal
            if head1.len() < head2.len() {
                assert(join[head1.len() as int] == 44);
                assert(join[head1.len() as int] == head2[head1.len() as int]);
                assert(spec_is_digit(head2[head1.len() as int]));
                assert(false);
            }
            if head2.len() < head1.len() {
                assert(join[head2.len() as int] == 44);
                assert(join[head2.len() as int] == head1[head2.len() as int]);
                assert(spec_is_digit(head1[head2.len() as int]));
                assert(false);
            }
            assert forall|i: int| 0 <= i < head1.len() implies head1[i] == head2[i] by {
                assert(head1[i] == join[i]);
                assert(head2[i] == join[i]);
            }
            assert(head1 =~= head2);
            lemma_dec_bytes_injective(d1[0] as nat, d2[0] as nat);
            assert forall|i: int| 0 <= i < rest1.len() implies rest1[i] == rest2[i] by {
                assert(rest1[i] == join[head1.len() + 1 + i]);
                assert(rest2[i] == join[head2.len() + 1 + i]);
            }
            assert(rest1 =~= rest2);
            assert(spec_dec_parts(d1.drop_first()) =~= spec_dec_parts(d1).drop_first());
            assert(spec_dec_parts(d2.drop_first()) =~= spec_dec_parts(d2).drop_first());
            lemma_dec_join_injective(d1.drop_first(), d2.drop_first());
            assert(d1.len() == d2.len());
            assert forall|i: int| 0 <= i < d1.len() implies d1[i] == d2[i] by {
                if i > 0 {
                    assert(d1[i] == d1.drop_first()[i - 1]);
                    assert(d2[i] == d2.drop_first()[i - 1]);
                }
            }
            assert(d1 =~= d2);
        }
    }
}

/// The opening of a record: a brace and the individual field label.
pub open spec fn spec_json_open() -> Seq<u8> {
    seq![
        123u8, 34u8, 105u8, 110u8, 100u8, 105u8, 118u8, 105u8, 100u8, 117u8, 97u8, 108u8, 34u8,
        58u8, 91u8,
    ]
}

/// Between the words and the fitness: the closing bracket and the fitness
/// field label.
pub open spec fn spec_json_mid() -> Seq<u8> {
    seq![93u8, 44u8, 34u8, 102u8, 105u8, 116u8, 110u8, 101u8, 115u8, 115u8, 34u8, 58u8]
}

/// The decimal digit lists of the portable words.
pub open spec fn spec_dec_parts(data: Seq<u64>) -> Seq<Seq<u8>> {
    data.map_values(|w: u64| spec_dec_bytes(w as nat))
}

/// The readable encoding of one scored wrapper:
/// `{"individual":[w,...],"fitness":k}` with canonical decimal numbers.
pub open spec fn spec_json_record_bytes(key: u64, data: Seq<u64>) -> Seq<u8> {
    spec_json_open() + spec_join_comma(spec_dec_parts(data)) + spec_json_mid() + spec_dec_bytes(
        key as nat,
    ) + seq![125u8]
}

/// A record's readable encoding determines its fitness key and its words:
/// a decoder that accepts the bytes of an encoded wrapper can only return
/// that wrapper's fitness and words.
pub proof fn lemma_json_record_injective(k1: u64, d1: Seq<u64>, k2: u64, d2: Seq<u64>)
    requires
        spec_json_record_bytes(k1, d1) == spec_json_record_bytes(k2, d2),
    ensures
        k1 == k2,
        d1 == d2,
{
    let b = spec_json_record_bytes(k1, d1);
    let join1 = spec_join_comma(spec_dec_parts(d1));
    let join2 = spec_join_comma(spec_dec_parts(d2));
    let key1 = spec_dec_bytes(k1 as nat);
    let key2 = spec_dec_bytes(k2 as nat);
    lemma_dec_join_digits(d1);
    lemma_dec_join_digits(d2);
    lemma_dec_bytes_props(k1 as nat);
    lemma_dec_bytes_props(k2 as nat);
    // the closing bracket of the word list is the first byte after the
    // opening that is neither a digit nor a comma, so the joins agree
    assert(b[15 + join1.len() as int] == spec_json_mid()[0]);
    assert(b[15 + join2.len() as int] == spec_json_mid()[0]);
    assert(spec_json_mid()[0] == 93);
    if join1.len() < join2.len() {
        assert(b[15 + join1.len() as int] == join2[join1.len() as int]);
        assert(false);
    }
    if join2.len() < join1.len() {
        assert(b[15 + join2.len() as int] == join1[join2.len() as int]);
        assert(false);
    }
    assert forall|i: int| 0 <= i < join1.len() implies join1[i] == join2[i] by {
        assert(join1[i] == b[15 + i]);
        assert(join2[i] == b[15 + i]);
    }
    assert(join1 =~= join2);
    lemma_dec_join_injective(d1, d2);
    // the remaining lengths agree, so the key digits agree as well
    let key_start = 15 + join1.len() as int + 12;
    assert(b.len() == key_start + key1.len() + 1);
    assert(b.len() == key_start + key2.len() + 1);
    assert forall|i: int| 0 <= i < key1.len() implies key1[i] == key2[i] by {
        assert(key1[i] == b[key_start + i]);
        assert(key2[i] == b[key_start + i]);
    }
    assert(key1 =~= key2);
    lemma_dec_bytes_injective(k1 as nat, k2 as nat);
}

/// The record encodings of a population.
pub open spec fn spec_json_rec_parts(recs: Seq<(u64, Seq<u64>)>) -> Seq<Seq<u8>> {
    recs.map_values(|rec: (u64, Seq<u64>)| spec_json_record_bytes(rec.0, rec.1))
}

/// The readable encoding of a whole population: the records joined by
/// commas inside one array.
pub open spec fn spec_json_population_bytes(recs: Seq<(u64, Seq<u64>)>) -> Seq<u8> {
    seq![91u8] + spec_join_comma(spec_json_rec_parts(recs)) + seq![93u8]
}

/// The record opening, as a vector.
fn json_open_vec() -> (r: Vec<u8>)
    ensures
        r@ == spec_json_open(),
{
    let mut out: Vec<u8> = Vec::new();
    out.push(123);
    out.push(34);
    out.push(105);
    out.push(110);
    out.push(100);
    out.push(105);
    out.push(118);
    out.push(105);
    out.push(100);
    out.push(117);
    out.push(97);
    out.push(108);
    out.push(34);
    out.push(58);
    out.push(91);
    proof {
        assert(out@ =~= spec_json_open());
    }
    out
}

/// The bracket-to-fitness middle part, as a vector.
fn json_mid_vec() -> (r: Vec<u8>)
    ensures
        r@ == spec_json_mid(),
{
    let mut out: Vec<u8> = Vec::new();
    out.push(93);
    out.push(44);
    out.push(34);
    out.push(102);
    out.push(105);
    out.push(116);
    out.push(110);
    out.push(101);
    out.push(115);
    out.push(115);
    out.push(34);
    out.push(58);
    proof {
        assert(out@ =~= spec_json_mid());
    }
    out
}

/// Whether `pat` stands at `pos` in `bytes`.
fn bytes_match_at(bytes: &Vec<u8>, pos: usize, pat: &Vec<u8>) -> (r: bool)
    requires
        pos <= bytes@.len(),
    ensures
        r == (pos + pat@.len() <= bytes@.len() && bytes@.subrange(
            pos as int,
            pos as int + pat@.len() as int,
        ) == pat@),
{
    let total = bytes.len();
    let n = pat.len();
    if total - pos < n {
        return false;
    }
    let mut i: usize = 0;
    while i < n
        invariant
            i <= n,
            n == pat@.len(),
            pos + n <= total == bytes@.len(),
            forall|j: int| 0 <= j < i ==> bytes@[pos + j] == pat@[j],
        decreases n - i,
    {
        if bytes[pos + i] != pat[i] {
            proof {
                assert(bytes@.subrange(pos as int, pos as int + n as int)[i as int] == bytes@[pos
                    + i]);
            }
            return false;
        }
        i = i + 1;
    }
    proof {
        assert(bytes@.subrange(pos as int, pos as int + n as int) =~= pat@);
    }
    true
}

/// Encode one scored wrapper in the readable format.
pub fn encode_json_record<T: DWIndividual>(wrapper: &DWIndividualWrapper<T>) -> (r: Vec<u8>)
    ensures
        r@ == spec_json_record_bytes(wrapper.fitness.key, wrapper.individual.data_view()),
{
    let data = wrapper.individual.to_data();
    let mut out = json_open_vec();
    proof {
        assert(spec_dec_parts(data@.take(0)) =~= Seq::<Seq<u8>>::empty());
        assert(out@ =~= spec_json_open() + spec_join_comma(spec_dec_parts(data@.take(0))));
    }
    let mut i: usize = 0;
    while i < data.len()
        invariant
            i <= data@.len(),
            data@ == wrapper.individual.data_view(),
            out@ == spec_json_open() + spec_join_comma(spec_dec_parts(data@.take(i as int))),
        decreases data@.len() - i,
    {
        if i > 0 {
            out.push(44);
        }
        push_dec_u64(&mut out, data[i]);
        proof {
            let parts = spec_dec_parts(data@.take(i as int));
            let part = spec_dec_bytes(data@[i as int] as nat);
            lemma_join_comma_push(parts, part);
            assert(spec_dec_parts(data@.take(i + 1)) =~= parts.push(part));
            if i == 0 {
                assert(out@ =~= spec_json_open() + spec_join_comma(
                    spec_dec_parts(data@.take(i + 1)),
                ));
            } else {
                assert(out@ =~= spec_json_open() + spec_join_comma(
                    spec_dec_parts(data@.take(i + 1)),
                ));
            }
        }
        i = i + 1;
    }
    proof {
        assert(data@.take(data@.len() as int) =~= data@);
    }
    let mut mid = json_mid_vec();
    out.append(&mut mid);
    push_dec_u64(&mut out, wrapper.fitness.get_key());
    out.push(125);
    proof {
        assert(out@ =~= spec_json_record_bytes(
            wrapper.fitness.key,
            wrapper.individual.data_view(),
        ));
    }
    out
}

/// Parse one readable record at `pos`: a successful parse returns exactly
/// the fitness and words whose encoding stands there.
fn parse_json_record_at(bytes: &Vec<u8>, pos: usize) -> (r: Option<(DWFitness, Vec<u64>, usize)>)
    requires
        pos <= bytes@.len(),
    ensures
        r matches Some(p) ==> pos < p.2 <= bytes@.len() && bytes@.subrange(
            pos as int,
            p.2 as int,
        ) == spec_json_record_bytes(p.0.key, p.1@),
{
    let total = bytes.len();
    let open = json_open_vec();
    if !bytes_match_at(bytes, pos, &open) {
        return None;
    }
    let list_start = pos + 15;
    let mut p = list_start;
    let mut data: Vec<u64> = Vec::new();
    proof {
        assert(spec_dec_parts(data@) =~= Seq::<Seq<u8>>::empty());
        assert(bytes@.subrange(list_start as int, p as int) =~= spec_join_comma(
            spec_dec_parts(data@),
        ));
    }
    if p < total && {
        let b = bytes[p];
        48 <= b && b <= 57
    } {
        let first_step = parse_dec_at(bytes, p);
        match first_step {
            None => {
                return None;
            },
            Some((v0, p0)) => {
                data.push(v0);
                proof {
                    let parts = spec_dec_parts(data@);
                    assert(parts.len() == 1);
                    assert(spec_join_comma(parts) == parts[0]);
                    assert(parts[0] == spec_dec_bytes(v0 as nat));
                    assert(bytes@.subrange(list_start as int, p0 as int) == spec_join_comma(
                        parts,
                    ));
                }
                p = p0;
            },
        }
        while p < total && bytes[p] == 44
            invariant
                list_start <= p <= total,
                total == bytes@.len(),
                pos + 15 == list_start,
                data@.len() >= 1,
                bytes@.subrange(list_start as int, p as int) == spec_join_comma(
                    spec_dec_parts(data@),
                ),
            decreases total - p,
        {
            let ghost data_pre = data@;
            let ghost p_pre = p as int;
            let step = parse_dec_at(bytes, p + 1);
            match step {
                None => {
                    return None;
                },
                Some((v, p2)) => {
                    data.push(v);
                    proof {
                        let parts = spec_dec_parts(data_pre);
                        let part = spec_dec_bytes(v as nat);
                        lemma_join_comma_push(parts, part);
                        assert(spec_dec_parts(data@) =~= parts.push(part));
                        assert(bytes@.subrange(list_start as int, p2 as int) =~= bytes@.subrange(
                            list_start as int,
                            p_pre,
                        ) + seq![44u8] + bytes@.subrange(p_pre + 1, p2 as int));
                    }
                    p = p2;
                },
            }
        }
    }
    let ghost list_end = p as int;
    let mid = json_mid_vec();
    if !bytes_match_at(bytes, p, &mid) {
        return None;
    }
    let key_start = p + 12;
    let key_step = parse_dec_at(bytes, key_start);
    match key_step {
        None => None,
        Some((key, key_end)) => {
            if key_end < total && bytes[key_end] == 125 {
                let end = key_end + 1;
                proof {
                    assert(bytes@.subrange(pos as int, end as int) =~= bytes@.subrange(
                        pos as int,
                        list_start as int,
                    ) + bytes@.subrange(list_start as int, list_end) + bytes@.subrange(
                        list_end,
                        key_start as int,
                    ) + bytes@.subrange(key_start as int, key_end as int) + seq![125u8]);
                    assert(bytes@.subrange(pos as int, list_start as int) == spec_json_open());
                    assert(bytes@.subrange(list_end, key_start as int) == spec_json_mid());
                    assert(bytes@.subrange(pos as int, end as int) == spec_json_record_bytes(
                        key,
                        data@,
                    ));
                }
                Some((DWFitness::from_key(key), data, end))
            } else {
                None
            }
        },
    }
}

/// Rebuild a scored wrapper from one readable record: a success means the
/// bytes are exactly the record's encoding.
pub fn decode_json_record<T: DWIndividual>(bytes: &Vec<u8>) -> (r: Option<DWIndividualWrapper<T>>)
    ensures
        r matches Some(w) ==> bytes@ == spec_json_record_bytes(
            w.fitness.key,
            w.individual.data_view(),
        ),
{
    let step = parse_json_record_at(bytes, 0);
    match step {
        None => None,
        Some((fitness, data, end)) => {
            if end != bytes.len() {
                return None;
            }
            proof {
                assert(bytes@.subrange(0, bytes@.len() as int) =~= bytes@);
            }
            match T::from_data(&data) {
                None => None,
                Some(individual) => Some(DWIndividualWrapper { individual, fitness }),
            }
        },
    }
}

/// Encode a whole population in the readable format.
pub fn encode_json_population<T: DWIndividual>(wrappers: &Vec<DWIndividualWrapper<T>>) -> (r: Vec<
    u8,
>)
    ensures
        r@ == spec_json_population_bytes(spec_records_of(wrappers@)),
{
    let mut out: Vec<u8> = Vec::new();
    out.push(91);
    proof {
        assert(spec_json_rec_parts(spec_records_of(wrappers@.take(0))) =~= Seq::<Seq<u8>>::empty());
        assert(out@ =~= seq![91u8] + spec_join_comma(
            spec_json_rec_parts(spec_records_of(wrappers@.take(0))),
        ));
    }
    let mut i: usize = 0;
    while i < wrappers.len()
        invariant
            i <= wrappers@.len(),
            out@ == seq![91u8] + spec_join_comma(
                spec_json_rec_parts(spec_records_of(wrappers@.take(i as int))),
            ),
        decreases wrappers@.len() - i,
    {
        if i > 0 {
            out.push(44);
        }
        let mut rec = encode_json_record(&wrappers[i]);
        out.append(&mut rec);
        proof {
            let parts = spec_json_rec_parts(spec_records_of(wrappers@.take(i as int)));
            let w = wrappers@[i as int];
            let part = spec_json_record_bytes(w.fitness.key, w.individual.data_view());
            lemma_join_comma_push(parts, part);
            assert(spec_json_rec_parts(spec_records_of(wrappers@.take(i + 1))) =~= parts.push(
                part,
            ));
            assert(out@ =~= seq![91u8] + spec_join_comma(
                spec_json_rec_parts(spec_records_of(wrappers@.take(i + 1))),
            ));
        }
        i = i + 1;
    }
    out.push(93);
    proof {
        assert(wrappers@.take(wrappers@.len() as int) =~= wrappers@);
        assert(out@ =~= spec_json_population_bytes(spec_records_of(wrappers@)));
    }
    out
}

/// Rebuild a whole population from its readable encoding: a success means
/// the bytes are exactly the population's encoding.
pub fn decode_json_population<T: DWIndividual>(bytes: &Vec<u8>) -> (r: Option<
    Vec<DWIndividualWrapper<T>>,
>)
    ensures
        r matches Some(v) ==> bytes@ == spec_json_population_bytes(spec_records_of(v@)),
{
    let total = bytes.len();
    if total == 0 || bytes[0] != 91 {
        return None;
    }
    let mut out: Vec<DWIndividualWrapper<T>> = Vec::new();
    if 1 < total && bytes[1] == 93 {
        if total == 2 {
            proof {
                assert(spec_json_rec_parts(spec_records_of(out@)) =~= Seq::<Seq<u8>>::empty());
                assert(bytes@ =~= spec_json_population_bytes(spec_records_of(out@)));
            }
            return Some(out);
        }
        return None;
    }
    let first = parse_json_record_at(bytes, 1);
    let mut p: usize;
    match first {
        None => {
            return None;
        },
        Some((fitness, data, p2)) => {
            match T::from_data(&data) {
                None => {
                    return None;
                },
                Some(individual) => {
                    out.push(DWIndividualWrapper { individual, fitness });
                    proof {
                        let parts = spec_json_rec_parts(spec_records_of(out@));
                        assert(parts.len() == 1);
                        assert(spec_join_comma(parts) == parts[0]);
                        assert(bytes@.subrange(0, p2 as int) =~= seq![91u8] + spec_join_comma(
                            parts,
                        ));
                    }
                    p = p2;
                },
            }
        },
    }
    loop
        invariant
            1 <= p <= total,
            total == bytes@.len(),
            out@.len() >= 1,
            bytes@.subrange(0, p as int) == seq![91u8] + spec_join_comma(
                spec_json_rec_parts(spec_records_of(out@)),
            ),
        decreases total - p,
    {
        if p >= total {
            return None;
        }
        if bytes[p] == 93 {
            if p + 1 == total {
                proof {
                    assert(bytes@ =~= bytes@.subrange(0, p as int) + seq![93u8]);
                    assert(bytes@ == spec_json_population_bytes(spec_records_of(out@)));
                }
                return Some(out);
            }
            return None;
        }
        if bytes[p] != 44 {
            return None;
        }
        let step = parse_json_record_at(bytes, p + 1);
        match step {
            None => {
                return None;
            },
            Some((fitness, data, p2)) => {
                match T::from_data(&data) {
                    None => {
                        return None;
                    },
                    Some(individual) => {
                        let ghost out_pre = out@;
                        let ghost p_pre = p;
                        out.push(DWIndividualWrapper { individual, fitness });
                        proof {
                            let parts = spec_json_rec_parts(spec_records_of(out_pre));
                            let w = out@.last();
                            let part = spec_json_record_bytes(
                                w.fitness.key,
                                w.individual.data_view(),
                            );
                            lemma_join_comma_push(parts, part);
                            assert(spec_json_rec_parts(spec_records_of(out@)) =~= parts.push(
                                part,
                            ));
                            assert(bytes@.subrange(0, p2 as int) =~= bytes@.subrange(
                                0,
                                p_pre as int,
                            ) + seq![44u8] + bytes@.subrange(p_pre + 1, p2 as int));
                            assert(bytes@.subrange(0, p2 as int) =~= seq![91u8] + spec_join_comma(
                                spec_json_rec_parts(spec_records_of(out@)),
                            ));
                        }
                        p = p2;
                    },
                }
            },
        }
    }
}

} // verus!
