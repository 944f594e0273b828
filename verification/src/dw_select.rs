use vstd::prelude::*;

use crate::dw_individual::{DWIndividual, DWIndividualWrapper};
use crate::dw_rng::rng_gen_range;
use vstd::multiset::Multiset;

verus! {

broadcast use vstd::seq_lib::group_to_multiset_ensures, Seq::lemma_index_contains;

/// Fitness keys never decrease along the sequence.
pub open spec fn sorted_by_fitness<T>(s: Seq<DWIndividualWrapper<T>>) -> bool {
    forall|i: int, j: int|
        0 <= i < j < s.len() ==> s[i].fitness.key <= s[j].fitness.key
}

/// No two adjacent wrappers share a fitness.
pub open spec fn adjacent_distinct<T>(s: Seq<DWIndividualWrapper<T>>) -> bool {
    forall|i: int| 0 < i < s.len() ==> s[i - 1].fitness.key != (#[trigger] s[i]).fitness.key
}

/// No two wrappers anywhere share a fitness.
pub open spec fn pairwise_distinct<T>(s: Seq<DWIndividualWrapper<T>>) -> bool {
    forall|i: int, j: int|
        0 <= i < j < s.len() ==> s[i].fitness.key != s[j].fitness.key
}

/// Every wrapper of `s` also stands somewhere in `t`.
pub open spec fn all_from<T>(s: Seq<DWIndividualWrapper<T>>, t: Seq<DWIndividualWrapper<T>>) -> bool {
    forall|i: int| 0 <= i < s.len() ==> t.contains(#[trigger] s[i])
}

/// Some wrapper of `s` carries the fitness `key`.
pub open spec fn key_present<T>(key: u64, s: Seq<DWIndividualWrapper<T>>) -> bool {
    exists|i: int| 0 <= i < s.len() && (#[trigger] s[i]).fitness.key == key
}

/// Every wrapper of `cur` past the length of `pre` strictly improves on
/// some wrapper of `pre`.
pub open spec fn appended_improve<T>(
    pre: Seq<DWIndividualWrapper<T>>,
    cur: Seq<DWIndividualWrapper<T>>,
) -> bool {
    forall|k: int|
        pre.len() <= k < cur.len() ==> exists|i: int|
            0 <= i < pre.len() && (#[trigger] cur[k]).fitness.key < pre[i].fitness.key
}

/// Every fitness level of `t` still has a representative in `s`.
pub open spec fn keys_covered<T>(t: Seq<DWIndividualWrapper<T>>, s: Seq<DWIndividualWrapper<T>>) -> bool {
    forall|j: int| 0 <= j < t.len() ==> key_present((#[trigger] t[j]).fitness.key, s)
}

/// A sorted sequence with distinct neighbours has strictly increasing keys.
pub proof fn lemma_sorted_adjacent_distinct<T>(s: Seq<DWIndividualWrapper<T>>)
    requires
        sorted_by_fitness(s),
        adjacent_distinct(s),
    ensures
        pairwise_distinct(s),
        forall|i: int, j: int|
            0 <= i < j < s.len() ==> s[i].fitness.key < s[j].fitness.key,
{
    assert forall|i: int, j: int| 0 <= i < j < s.len() implies s[i].fitness.key
        < s[j].fitness.key by {
        assert(s[i].fitness.key <= s[j - 1].fitness.key);
        assert(s[j - 1].fitness.key != s[j].fitness.key);
        assert(s[j - 1].fitness.key <= s[j].fitness.key);
    }
}

/// The head of a sorted sequence is a lower bound for any sequence holding
/// the same wrappers.
pub proof fn lemma_sorted_head_min<T>(
    sorted: Seq<DWIndividualWrapper<T>>,
    other: Seq<DWIndividualWrapper<T>>,
)
    requires
        sorted_by_fitness(sorted),
        sorted.to_multiset() == other.to_multiset(),
        sorted.len() > 0,
    ensures
        forall|j: int|
            0 <= j < other.len() ==> sorted[0].fitness.key <= (#[trigger] other[j]).fitness.key,
{
    broadcast use vstd::seq_lib::group_to_multiset_ensures;

    assert forall|j: int| 0 <= j < other.len() implies sorted[0].fitness.key
        <= (#[trigger] other[j]).fitness.key by {
        assert(other.contains(other[j]));
        assert(other.to_multiset().count(other[j]) > 0);
        assert(sorted.contains(other[j]));
        let i = sorted.lemma_contains_to_index(other[j]);
        assert(sorted[0].fitness.key <= sorted[i].fitness.key);
    }
}

/// A lower bound on every wrapper of `t` is a lower bound on every wrapper
/// of a sequence drawn from `t`.
pub proof fn lemma_all_from_key_bound<T>(
    s: Seq<DWIndividualWrapper<T>>,
    t: Seq<DWIndividualWrapper<T>>,
    bound: u64,
)
    requires
        all_from(s, t),
        forall|j: int| 0 <= j < t.len() ==> bound <= (#[trigger] t[j]).fitness.key,
    ensures
        forall|i: int| 0 <= i < s.len() ==> bound <= (#[trigger] s[i]).fitness.key,
{
    assert forall|i: int| 0 <= i < s.len() implies bound <= (#[trigger] s[i]).fitness.key by {
        assert(t.contains(s[i]));
        let j = t.lemma_contains_to_index(s[i]);
    }
}

/// Every sequence draws from itself.
pub proof fn lemma_all_from_refl<T>(s: Seq<DWIndividualWrapper<T>>)
    ensures
        all_from(s, s),
{
    assert forall|i: int| 0 <= i < s.len() implies s.contains(#[trigger] s[i]) by {
        s.lemma_index_contains(i);
    }
}

/// Drawing from a drawn-from sequence still draws from the original.
pub proof fn lemma_all_from_trans<T>(
    a: Seq<DWIndividualWrapper<T>>,
    b: Seq<DWIndividualWrapper<T>>,
    c: Seq<DWIndividualWrapper<T>>,
)
    requires
        all_from(a, b),
        all_from(b, c),
    ensures
        all_from(a, c),
{
    assert forall|i: int| 0 <= i < a.len() implies c.contains(#[trigger] a[i]) by {
        assert(b.contains(a[i]));
        let j = b.lemma_contains_to_index(a[i]);
        assert(c.contains(b[j]));
    }
}

/// Sequences holding the same wrappers draw from each other.
pub proof fn lemma_multiset_all_from<T>(
    a: Seq<DWIndividualWrapper<T>>,
    b: Seq<DWIndividualWrapper<T>>,
)
    requires
        a.to_multiset() == b.to_multiset(),
    ensures
        all_from(a, b),
{
    broadcast use vstd::seq_lib::group_to_multiset_ensures;

    assert forall|i: int| 0 <= i < a.len() implies b.contains(#[trigger] a[i]) by {
        assert(a.contains(a[i]));
        assert(a.to_multiset().count(a[i]) > 0);
    }
}

/// A prefix draws from the whole sequence.
pub proof fn lemma_prefix_all_from<T>(s: Seq<DWIndividualWrapper<T>>, k: int)
    requires
        0 <= k <= s.len(),
    ensures
        all_from(s.subrange(0, k), s),
{
    assert forall|i: int| 0 <= i < s.subrange(0, k).len() implies s.contains(
        #[trigger] s.subrange(0, k)[i],
    ) by {
        assert(s.subrange(0, k)[i] == s[i]);
    }
}

/// After sorting and deduplicating, the key right above level `m` bounds
/// every original wrapper whose key lies above level `m`.
pub proof fn lemma_level_bound<T>(
    orig: Seq<DWIndividualWrapper<T>>,
    sorted: Seq<DWIndividualWrapper<T>>,
    deduped: Seq<DWIndividualWrapper<T>>,
    m: int,
)
    requires
        sorted.to_multiset() == orig.to_multiset(),
        forall|i: int, j: int|
            0 <= i < j < deduped.len() ==> deduped[i].fitness.key < deduped[j].fitness.key,
        keys_covered(sorted, deduped),
        0 <= m < deduped.len(),
    ensures
        forall|j: int|
            0 <= j < orig.len() && (#[trigger] orig[j]).fitness.key > deduped[m].fitness.key ==> m
                + 1 < deduped.len() && deduped[m + 1].fitness.key <= orig[j].fitness.key,
{
    assert forall|j: int|
        0 <= j < orig.len() && (#[trigger] orig[j]).fitness.key
            > deduped[m].fitness.key implies m + 1 < deduped.len() && deduped[m + 1].fitness.key
        <= orig[j].fitness.key by {
        assert(orig.contains(orig[j]));
        assert(orig.to_multiset().count(orig[j]) > 0);
        assert(sorted.to_multiset().count(orig[j]) > 0);
        assert(sorted.contains(orig[j]));
        let k = sorted.lemma_contains_to_index(orig[j]);
        assert(key_present(sorted[k].fitness.key, deduped));
        let d = choose|i: int|
            0 <= i < deduped.len() && (#[trigger] deduped[i]).fitness.key == sorted[k].fitness.key;
        assert(deduped[d].fitness.key > deduped[m].fitness.key);
        if d <= m {
            if d < m {
                assert(deduped[d].fitness.key < deduped[m].fitness.key);
            }
            assert(false);
        }
        assert(deduped[m + 1].fitness.key <= deduped[d].fitness.key);
    }
}

/// Inserting an element anywhere adds exactly it to the multiset.
proof fn lemma_insert_to_multiset<T>(s: Seq<DWIndividualWrapper<T>>, j: int, x: DWIndividualWrapper<T>)
    requires
        0 <= j <= s.len(),
    ensures
        s.insert(j, x).to_multiset() == s.to_multiset().insert(x),
{
    let t = s.insert(j, x);
    assert(t =~= s.take(j).push(x) + s.skip(j));
    vstd::seq_lib::lemma_multiset_commutative(s.take(j).push(x), s.skip(j));
    assert(s =~= s.take(j) + s.skip(j));
    vstd::seq_lib::lemma_multiset_commutative(s.take(j), s.skip(j));
    assert(s.take(j).push(x).to_multiset() =~= s.take(j).to_multiset().insert(x));
    assert(t.to_multiset() =~= s.to_multiset().insert(x));
}

/// Overwriting one position trades exactly the old element for the new.
proof fn lemma_update_to_multiset<T>(s: Seq<DWIndividualWrapper<T>>, i: int, x: DWIndividualWrapper<T>)
    requires
        0 <= i < s.len(),
    ensures
        s.update(i, x).to_multiset() == s.to_multiset().remove(s[i]).insert(x),
{
    let t = s.update(i, x);
    assert(t =~= s.take(i).push(x) + s.skip(i + 1));
    assert(s =~= s.take(i).push(s[i]) + s.skip(i + 1));
    vstd::seq_lib::lemma_multiset_commutative(s.take(i).push(x), s.skip(i + 1));
    vstd::seq_lib::lemma_multiset_commutative(s.take(i).push(s[i]), s.skip(i + 1));
    assert(s.take(i).push(x).to_multiset() =~= s.take(i).to_multiset().insert(x));
    assert(s.take(i).push(s[i]).to_multiset() =~= s.take(i).to_multiset().insert(s[i]));
    assert(t.to_multiset() =~= s.to_multiset().remove(s[i]).insert(x));
}

/// A prefix holds no wrapper more often than the whole sequence.
pub proof fn lemma_prefix_submultiset<T>(s: Seq<DWIndividualWrapper<T>>, k: int)
    requires
        0 <= k <= s.len(),
    ensures
        s.subrange(0, k).to_multiset().subset_of(s.to_multiset()),
{
    assert(s =~= s.subrange(0, k) + s.subrange(k, s.len() as int));
    vstd::seq_lib::lemma_multiset_commutative(s.subrange(0, k), s.subrange(k, s.len() as int));
    assert forall|w: DWIndividualWrapper<T>| #[trigger] s.subrange(0, k).to_multiset().count(w)
        <= s.to_multiset().count(w) by {
        assert(s.to_multiset().count(w) == s.subrange(0, k).to_multiset().count(w) + s.subrange(
            k,
            s.len() as int,
        ).to_multiset().count(w));
    }
}

/// A sorted prefix that ends below a key holds every wrapper under that
/// key as often as the whole sequence: nothing cheap is cut off.
pub proof fn lemma_sorted_prefix_counts<T>(s: Seq<DWIndividualWrapper<T>>, k: int)
    requires
        sorted_by_fitness(s),
        0 < k <= s.len(),
    ensures
        forall|w: DWIndividualWrapper<T>|
            w.fitness.key < s[k - 1].fitness.key ==> #[trigger] s.subrange(
                0,
                k,
            ).to_multiset().count(w) == s.to_multiset().count(w),
{
    let suffix = s.subrange(k, s.len() as int);
    assert(s =~= s.subrange(0, k) + suffix);
    vstd::seq_lib::lemma_multiset_commutative(s.subrange(0, k), suffix);
    assert forall|w: DWIndividualWrapper<T>|
        w.fitness.key < s[k - 1].fitness.key implies #[trigger] s.subrange(
        0,
        k,
    ).to_multiset().count(w) == s.to_multiset().count(w) by {
        if suffix.to_multiset().count(w) > 0 {
            assert(suffix.contains(w));
            let j = suffix.lemma_contains_to_index(w);
            assert(suffix[j] == s[k + j]);
            assert(s[k - 1].fitness.key <= s[k + j].fitness.key);
            assert(false);
        }
        assert(s.to_multiset().count(w) == s.subrange(0, k).to_multiset().count(w)
            + suffix.to_multiset().count(w));
    }
}

/// Two positions of `s` carry different fitness keys.
pub open spec fn two_distinct_keys<T>(s: Seq<DWIndividualWrapper<T>>) -> bool {
    exists|i: int, j: int|
        0 <= i < s.len() && 0 <= j < s.len() && (#[trigger] s[i]).fitness.key != (
        #[trigger] s[j]).fitness.key
}

/// Three positions of `s` carry pairwise different fitness keys.
pub open spec fn three_distinct_keys<T>(s: Seq<DWIndividualWrapper<T>>) -> bool {
    exists|i: int, j: int, k: int|
        0 <= i < s.len() && 0 <= j < s.len() && 0 <= k < s.len() && (#[trigger] s[i]).fitness.key
            != (#[trigger] s[j]).fitness.key && s[j].fitness.key != (#[trigger] s[k]).fitness.key
            && s[i].fitness.key != s[k].fitness.key
}

/// The position of a wrapper of `deduped` that carries the fitness key of
/// position `a` of `orig`.
proof fn lemma_key_representative<T>(
    orig: Seq<DWIndividualWrapper<T>>,
    sorted: Seq<DWIndividualWrapper<T>>,
    deduped: Seq<DWIndividualWrapper<T>>,
    a: int,
) -> (d: int)
    requires
        sorted.to_multiset() == orig.to_multiset(),
        keys_covered(sorted, deduped),
        0 <= a < orig.len(),
    ensures
        0 <= d < deduped.len(),
        deduped[d].fitness.key == orig[a].fitness.key,
{
    assert(orig.contains(orig[a]));
    assert(orig.to_multiset().count(orig[a]) > 0);
    assert(sorted.contains(orig[a]));
    let sa = sorted.lemma_contains_to_index(orig[a]);
    assert(key_present(sorted[sa].fitness.key, deduped));
    let d = choose|i: int|
        0 <= i < deduped.len() && (#[trigger] deduped[i]).fitness.key == sorted[sa].fitness.key;
    d
}

/// Deduplication keeps at least as many wrappers as the original had
/// distinct fitness levels, up to three.
pub proof fn lemma_distinct_levels_survive<T>(
    orig: Seq<DWIndividualWrapper<T>>,
    sorted: Seq<DWIndividualWrapper<T>>,
    deduped: Seq<DWIndividualWrapper<T>>,
)
    requires
        sorted.to_multiset() == orig.to_multiset(),
        keys_covered(sorted, deduped),
    ensures
        two_distinct_keys(orig) ==> deduped.len() >= 2,
        three_distinct_keys(orig) ==> deduped.len() >= 3,
{
    if two_distinct_keys(orig) {
        let (i, j) = choose|i: int, j: int|
            0 <= i < orig.len() && 0 <= j < orig.len() && (#[trigger] orig[i]).fitness.key != (
            #[trigger] orig[j]).fitness.key;
        let di = lemma_key_representative(orig, sorted, deduped, i);
        let dj = lemma_key_representative(orig, sorted, deduped, j);
        assert(di != dj);
    }
    if three_distinct_keys(orig) {
        let (i, j, k) = choose|i: int, j: int, k: int|
            0 <= i < orig.len() && 0 <= j < orig.len() && 0 <= k < orig.len() && (
            #[trigger] orig[i]).fitness.key != (#[trigger] orig[j]).fitness.key
                && orig[j].fitness.key != (#[trigger] orig[k]).fitness.key && orig[i].fitness.key
                != orig[k].fitness.key;
        let di = lemma_key_representative(orig, sorted, deduped, i);
        let dj = lemma_key_representative(orig, sorted, deduped, j);
        let dk = lemma_key_representative(orig, sorted, deduped, k);
        assert(di != dj && dj != dk && di != dk);
    }
}

/// Whether `a` should come before `b` in the reporting order: close
/// fitness keys are grouped within `threshold` and ranked by the user's
/// auxiliary fitness, everything else by fitness.
fn reporting_before<T: DWIndividual>(
    a: &DWIndividualWrapper<T>,
    b: &DWIndividualWrapper<T>,
    threshold: u64,
) -> (r: bool)
    ensures
        threshold == 0 ==> r == (a.fitness.key < b.fitness.key),
{
    let diff = if a.fitness.key >= b.fitness.key {
        a.fitness.key - b.fitness.key
    } else {
        b.fitness.key - a.fitness.key
    };
    if diff < threshold {
        a.get_additional_fitness().get_key() < b.get_additional_fitness().get_key()
    } else {
        a.fitness.key < b.fitness.key
    }
}

/// The reporting order of the final population: fitness keys closer than
/// `threshold` form a group ranked by the auxiliary fitness.  The user's
/// auxiliary fitness carries no specification, so all that is promised is
/// that exactly the same wrappers come back.
pub fn sort_for_reporting<T: DWIndividual>(v: &mut Vec<DWIndividualWrapper<T>>, threshold: u64)
    ensures
        final(v)@.to_multiset() == old(v)@.to_multiset(),
        final(v)@.len() == old(v)@.len(),
        all_from(final(v)@, old(v)@),
        threshold == 0 ==> sorted_by_fitness(final(v)@),
{
    let ghost orig = v@;
    let mut out: Vec<DWIndividualWrapper<T>> = Vec::new();
    while v.len() > 0
        invariant
            out@.to_multiset().add(v@.to_multiset()) == orig.to_multiset(),
            out@.len() + v@.len() == orig.len(),
            all_from(out@, orig),
            all_from(v@, orig),
            threshold == 0 ==> sorted_by_fitness(out@),
        decreases v@.len(),
    {
        let ghost out_pre = out@;
        let ghost v_pre = v@;
        let w = v.remove(0);
        let mut j: usize = 0;
        while j < out.len() && reporting_before(&out[j], &w, threshold)
            invariant
                j <= out@.len(),
                out@ == out_pre,
                threshold == 0 ==> forall|m: int|
                    0 <= m < j ==> (#[trigger] out@[m]).fitness.key < w.fitness.key,
            decreases out@.len() - j,
        {
            j = j + 1;
        }
        out.insert(j, w);
        proof {
            if threshold == 0 {
                assert forall|a: int, b: int| 0 <= a < b < out@.len() implies out@[a].fitness.key
                    <= out@[b].fitness.key by {
                    if b < j {
                        assert(out@[a] == out_pre[a] && out@[b] == out_pre[b]);
                    } else if a > j {
                        assert(out@[a] == out_pre[a - 1] && out@[b] == out_pre[b - 1]);
                    } else if a < j && b == j {
                        assert(out@[a] == out_pre[a]);
                        assert(out_pre[a].fitness.key < w.fitness.key);
                    } else if a == j && b > j {
                        assert(out@[b] == out_pre[b - 1]);
                        assert((j as int) < out_pre.len());
                        assert(w.fitness.key <= out_pre[j as int].fitness.key);
                        assert(out_pre[j as int].fitness.key <= out_pre[b - 1].fitness.key);
                    } else {
                        assert(out@[a] == out_pre[a]);
                        assert(out@[b] == out_pre[b - 1]);
                        assert(out_pre[a].fitness.key < w.fitness.key);
                        assert((j as int) < out_pre.len());
                        assert(w.fitness.key <= out_pre[j as int].fitness.key);
                        assert(out_pre[j as int].fitness.key <= out_pre[b - 1].fitness.key);
                    }
                }
            }
            lemma_insert_to_multiset(out_pre, j as int, w);
            assert(v@.to_multiset() =~= v_pre.to_multiset().remove(w));
            assert(v_pre.to_multiset().count(w) >= 1) by {
                assert(v_pre.contains(w));
            }
            assert(out@.to_multiset().add(v@.to_multiset()) =~= orig.to_multiset());
            assert forall|i: int| 0 <= i < out@.len() implies orig.contains(#[trigger] out@[i]) by {
                if i < j {
                    assert(out@[i] == out_pre[i]);
                } else if i == j {
                    assert(out@[i] == v_pre[0]);
                } else {
                    assert(out@[i] == out_pre[i - 1]);
                }
            }
            assert forall|i: int| 0 <= i < v@.len() implies orig.contains(#[trigger] v@[i]) by {
                assert(v@[i] == v_pre[i + 1]);
            }
        }
    }
    proof {
        assert(v@.to_multiset() =~= Multiset::empty());
        assert(out@.to_multiset() == orig.to_multiset()) by {
            assert(out@.to_multiset().add(Multiset::empty()) =~= out@.to_multiset());
        }
    }
    *v = out;
}

/// The position of the first minimum-fitness wrapper.
fn min_index<T: DWIndividual>(v: &Vec<DWIndividualWrapper<T>>) -> (m: usize)
    requires
        v@.len() > 0,
    ensures
        m < v@.len(),
        forall|j: int| 0 <= j < v@.len() ==> v@[m as int].fitness.key <= v@[j].fitness.key,
{
    let mut m: usize = 0;
    let mut i: usize = 1;
    while i < v.len()
        invariant
            m < i <= v@.len(),
            forall|j: int| 0 <= j < i ==> v@[m as int].fitness.key <= v@[j].fitness.key,
        decreases v@.len() - i,
    {
        if v[i].fitness.key < v[m].fitness.key {
            m = i;
        }
        i = i + 1;
    }
    m
}

/// Sort ascending by fitness key.  The wrappers themselves are moved, never
/// copied, so the multiset of wrappers is exactly preserved.
pub fn sort_by_fitness_key<T: DWIndividual>(v: &mut Vec<DWIndividualWrapper<T>>)
    ensures
        sorted_by_fitness(final(v)@),
        final(v)@.to_multiset() == old(v)@.to_multiset(),
        final(v)@.len() == old(v)@.len(),
        all_from(final(v)@, old(v)@),
{
    let ghost orig = v@;
    let mut out: Vec<DWIndividualWrapper<T>> = Vec::new();
    while v.len() > 0
        invariant
            sorted_by_fitness(out@),
            forall|i: int, j: int|
                0 <= i < out@.len() && 0 <= j < v@.len() ==> out@[i].fitness.key
                    <= v@[j].fitness.key,
            out@.to_multiset().add(v@.to_multiset()) == orig.to_multiset(),
            out@.len() + v@.len() == orig.len(),
            all_from(out@, orig),
            all_from(v@, orig),
        decreases v@.len(),
    {
        let ghost out_pre = out@;
        let ghost v_pre = v@;
        let m = min_index(v);
        let w = v.remove(m);
        out.push(w);
        proof {
            assert(out@.to_multiset() =~= out_pre.to_multiset().insert(w));
            assert(v@.to_multiset() =~= v_pre.to_multiset().remove(w));
            assert(v_pre.to_multiset().count(w) >= 1) by {
                assert(v_pre.contains(w));
            }
            assert(out@.to_multiset().add(v@.to_multiset()) =~= orig.to_multiset());
            assert forall|i: int| 0 <= i < out@.len() implies orig.contains(
                #[trigger] out@[i],
            ) by {
                if i < out_pre.len() {
                    assert(out_pre[i] == out@[i]);
                } else {
                    assert(out@[i] == v_pre[m as int]);
                }
            }
            assert forall|i: int| 0 <= i < v@.len() implies orig.contains(#[trigger] v@[i]) by {
                if i < m {
                    assert(v@[i] == v_pre[i]);
                } else {
                    assert(v@[i] == v_pre[i + 1]);
                }
            }
        }
    }
    proof {
        assert(v@.to_multiset() =~= Multiset::empty());
        assert(out@.to_multiset() == orig.to_multiset()) by {
            assert(out@.to_multiset().add(Multiset::empty()) =~= out@.to_multiset());
        }
    }
    *v = out;
}

/// Remove the later of every adjacent pair with equal fitness.  The head of
/// the sequence always survives, and so does a representative of every
/// fitness level.
#[verifier::rlimit(50)]
pub fn dedup_by_fitness_key<T: DWIndividual>(v: &mut Vec<DWIndividualWrapper<T>>)
    requires
        sorted_by_fitness(old(v)@),
    ensures
        sorted_by_fitness(final(v)@),
        adjacent_distinct(final(v)@),
        final(v)@.len() <= old(v)@.len(),
        old(v)@.len() > 0 ==> final(v)@.len() > 0 && final(v)@[0] == old(v)@[0],
        all_from(final(v)@, old(v)@),
        final(v)@.to_multiset().subset_of(old(v)@.to_multiset()),
        keys_covered(old(v)@, final(v)@),
{
    let ghost orig = v@;
    let mut out: Vec<DWIndividualWrapper<T>> = Vec::new();
    while v.len() > 0
        invariant
            sorted_by_fitness(orig),
            v@ == orig.subrange(orig.len() - v@.len(), orig.len() as int),
            sorted_by_fitness(out@),
            adjacent_distinct(out@),
            out@.len() <= orig.len() - v@.len(),
            orig.len() > v@.len() ==> out@.len() > 0 && out@[0] == orig[0],
            out@.len() > 0 ==> forall|j: int|
                0 <= j < v@.len() ==> out@.last().fitness.key <= v@[j].fitness.key,
            all_from(out@, orig),
            out@.to_multiset().subset_of(orig.take(orig.len() - v@.len()).to_multiset()),
            keys_covered(orig.take(orig.len() - v@.len()), out@),
        decreases v@.len(),
    {
        let ghost out_pre = out@;
        let ghost v_pre = v@;
        let ghost k_pre = orig.len() - v_pre.len();
        let w = v.remove(0);
        proof {
            assert(w == orig[k_pre]);
            assert(v@ =~= orig.subrange(orig.len() - v@.len(), orig.len() as int));
        }
        let push_it = if out.len() == 0 {
            true
        } else {
            out[out.len() - 1].fitness.key != w.fitness.key
        };
        if push_it {
            out.push(w);
        }
        proof {
            let k = k_pre + 1;
            assert(orig.len() - v@.len() == k);
            assert forall|j: int| 0 <= j < k implies key_present(
                (#[trigger] orig.take(k)[j]).fitness.key,
                out@,
            ) by {
                if j < k_pre {
                    assert(orig.take(k_pre)[j] == orig.take(k)[j]);
                    assert(key_present(orig.take(k_pre)[j].fitness.key, out_pre));
                    let i0 = choose|i: int|
                        0 <= i < out_pre.len() && (#[trigger] out_pre[i]).fitness.key
                            == orig.take(k_pre)[j].fitness.key;
                    assert(out@[i0] == out_pre[i0]);
                } else {
                    assert(orig.take(k)[j] == w);
                    if push_it {
                        assert(out@[out@.len() - 1] == w);
                    } else {
                        assert(out@[out@.len() - 1].fitness.key == w.fitness.key);
                    }
                }
            }
            assert(keys_covered(orig.take(orig.len() - v@.len()), out@));
            assert forall|i: int| 0 <= i < out@.len() implies orig.contains(
                #[trigger] out@[i],
            ) by {
                if i < out_pre.len() {
                    assert(out_pre[i] == out@[i]);
                } else {
                    assert(out@[i] == orig[k_pre]);
                }
            }
            assert(orig.take(k) =~= orig.take(k_pre).push(w));
            assert(orig.take(k).to_multiset() =~= orig.take(k_pre).to_multiset().insert(w));
            if push_it {
                assert(out@ =~= out_pre.push(w));
                assert(out@.to_multiset() =~= out_pre.to_multiset().insert(w));
            }
            assert forall|w0: DWIndividualWrapper<T>| #[trigger] out@.to_multiset().count(w0)
                <= orig.take(k).to_multiset().count(w0) by {
                assert(out_pre.to_multiset().count(w0) <= orig.take(
                    k_pre,
                ).to_multiset().count(w0));
            }
            assert(out@.to_multiset().subset_of(orig.take(k).to_multiset()));
        }
    }
    proof {
        assert(orig.take(orig.len() as int) =~= orig);
    }
    *v = out;
}

/// Shrink to `max_size` wrappers by repeatedly removing a uniformly random
/// position at index three or higher; the three head wrappers survive.
pub fn shrink_keeping_best3<T: DWIndividual>(
    v: &mut Vec<DWIndividualWrapper<T>>,
    max_size: usize,
    rng: &mut rand::rngs::StdRng,
)
    requires
        max_size >= 3,
        pairwise_distinct(old(v)@),
    ensures
        final(v)@.len() == if old(v)@.len() > max_size {
            max_size as int
        } else {
            old(v)@.len() as int
        },
        pairwise_distinct(final(v)@),
        all_from(final(v)@, old(v)@),
        final(v)@.to_multiset().subset_of(old(v)@.to_multiset()),
        forall|i: int| 0 <= i < 3 && i < final(v)@.len() ==> final(v)@[i] == old(v)@[i],
{
    let ghost orig = v@;
    while v.len() > max_size
        invariant
            max_size >= 3,
            pairwise_distinct(v@),
            all_from(v@, orig),
            v@.to_multiset().subset_of(orig.to_multiset()),
            v@.len() <= orig.len(),
            orig.len() > max_size ==> v@.len() >= max_size,
            orig.len() <= max_size ==> v@ == orig,
            forall|i: int| 0 <= i < 3 && i < v@.len() ==> v@[i] == orig[i],
        decreases v@.len(),
    {
        let ghost v_pre = v@;
        let idx = rng_gen_range(rng, 3, v.len());
        v.swap_remove(idx);
        proof {
            assert(v@ =~= v_pre.update(idx as int, v_pre.last()).drop_last());
            assert forall|i: int, j: int| 0 <= i < j < v@.len() implies v@[i].fitness.key
                != v@[j].fitness.key by {
                let a: int = if i == idx { v_pre.len() - 1 } else { i };
                let b: int = if j == idx { v_pre.len() - 1 } else { j };
                assert(v@[i] == v_pre[a]);
                assert(v@[j] == v_pre[b]);
                assert(a != b);
            }
            assert forall|i: int| 0 <= i < v@.len() implies orig.contains(#[trigger] v@[i]) by {
                let a: int = if i == idx { v_pre.len() - 1 } else { i };
                assert(v@[i] == v_pre[a]);
            }
            let u = v_pre.update(idx as int, v_pre.last());
            lemma_update_to_multiset(v_pre, idx as int, v_pre.last());
            assert(u.drop_last() =~= u.remove(u.len() - 1));
            assert(u[u.len() - 1] == v_pre.last());
            assert(v@.to_multiset() =~= v_pre.to_multiset().remove(v_pre[idx as int]));
            assert forall|w0: DWIndividualWrapper<T>| #[trigger] v@.to_multiset().count(w0)
                <= orig.to_multiset().count(w0) by {
                assert(v_pre.to_multiset().count(w0) <= orig.to_multiset().count(w0));
            }
            assert(v@.to_multiset().subset_of(orig.to_multiset()));
        }
    }
}

} // verus!
