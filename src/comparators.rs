//! The three comparators. Each one reads the clock before it starts and
//! reports, beside its count, how long the count took.
use std::collections::HashSet;
use std::time::Duration;
use std::time::Instant;
use vstd::multiset::*;
use vstd::prelude::*;
use vstd::seq_lib::*;

use crate::counting::{
    is_ascending, lemma_intersection_absent, lemma_intersection_both, lemma_intersection_empty,
    lemma_occurrences_of_prefix, lemma_pairs_of_prefix, lemma_suffix_multiset, matching_pairs,
    occurrences, paired_values, shared_values,
};

verus! {

broadcast use {group_to_multiset_ensures, group_multiset_properties, seq_to_set_is_finite};

/// std's clock reading, carried through opaquely.
#[verifier::external_type_specification]
#[verifier::external_body]
pub struct ExInstant(std::time::Instant);

/// Relies on std::time::Instant::now: a reading of the monotonic clock,
/// of which nothing is assumed.
pub assume_specification[ std::time::Instant::now ]() -> std::time::Instant;

/// Relies on std::time::Instant::elapsed: the time passed since the reading,
/// of which nothing is assumed.
pub assume_specification[ std::time::Instant::elapsed ](
    i: &std::time::Instant,
) -> std::time::Duration;

/// Relies on slice::sort_unstable: the vector keeps its values and puts them
/// in ascending order.
#[verifier::external_body]
fn sort_ascending(v: &mut Vec<u32>)
    ensures
        final(v)@.to_multiset() == old(v)@.to_multiset(),
        is_ascending(final(v)@),
{
    v.sort_unstable();
}

/// Compares every element of `a` with every element of `b` and counts the
/// equal pairs. A value that occurs several times on either side is counted
/// once for each pair it forms.
pub fn unsorted_array(a: &Vec<u32>, b: &Vec<u32>) -> (r: (usize, Duration))
    requires
        matching_pairs(a@, b@) <= usize::MAX,
    ensures
        r.0 == matching_pairs(a@, b@),
{
    let now = Instant::now();

    let mut res: usize = 0;
    let mut i: usize = 0;
    while i < a.len()
        invariant
            i <= a.len(),
            res == matching_pairs(a@.subrange(0, i as int), b@),
            matching_pairs(a@, b@) <= usize::MAX,
        decreases a.len() - i,
    {
        let mut j: usize = 0;
        while j < b.len()
            invariant
                i < a.len(),
                j <= b.len(),
                res == matching_pairs(a@.subrange(0, i as int), b@) + occurrences(
                    b@.subrange(0, j as int),
                    a@[i as int],
                ),
                matching_pairs(a@, b@) <= usize::MAX,
            decreases b.len() - j,
        {
            assert(b@.subrange(0, j + 1) =~= b@.subrange(0, j as int).push(b@[j as int]));
            if a[i] == b[j] {
                proof {
                    lemma_occurrences_of_prefix(b@, a@[i as int], j + 1);
                    lemma_pairs_of_prefix(a@, b@, i + 1);
                    assert(a@.subrange(0, i + 1).drop_last() =~= a@.subrange(0, i as int));
                }
                res = res + 1;
            }
            j = j + 1;
        }
        assert(b@.subrange(0, b.len() as int) =~= b@);
        assert(a@.subrange(0, i + 1).drop_last() =~= a@.subrange(0, i as int));
        i = i + 1;
    }
    assert(a@.subrange(0, a.len() as int) =~= a@);

    (res, now.elapsed())
}

/// Collects the values of `a` and of `b` into two hash sets and counts the
/// values that lie in both. Repeated values count once.
pub fn hashset(a: &Vec<u32>, b: &Vec<u32>) -> (r: (usize, Duration))
    ensures
        r.0 == shared_values(a@, b@),
{
    broadcast use vstd::std_specs::hash::group_hash_axioms;

    let now = Instant::now();

    let mut a_set: HashSet<u32> = HashSet::with_capacity(a.len());
    let mut b_set: HashSet<u32> = HashSet::with_capacity(b.len());

    let mut i: usize = 0;
    while i < a.len()
        invariant
            i <= a.len(),
            a_set@ == a@.subrange(0, i as int).to_set(),
        decreases a.len() - i,
    {
        a_set.insert(a[i]);
        proof {
            assert(a@.subrange(0, i + 1) =~= a@.subrange(0, i as int).push(a@[i as int]));
            a@.subrange(0, i as int).lemma_push_to_set_commute(a@[i as int]);
        }
        i = i + 1;
    }
    assert(a@.subrange(0, a.len() as int) =~= a@);

    let mut j: usize = 0;
    while j < b.len()
        invariant
            j <= b.len(),
            b_set@ == b@.subrange(0, j as int).to_set(),
        decreases b.len() - j,
    {
        b_set.insert(b[j]);
        proof {
            assert(b@.subrange(0, j + 1) =~= b@.subrange(0, j as int).push(b@[j as int]));
            b@.subrange(0, j as int).lemma_push_to_set_commute(b@[j as int]);
        }
        j = j + 1;
    }
    assert(b@.subrange(0, b.len() as int) =~= b@);

    let n: usize = a_set.len();
    let mut res: usize = 0;
    if n == 0 {
        assert(a_set@.intersect(b_set@) =~= Set::empty());
    }
    assert forall|s: Seq<u32>| #[trigger] s.subrange(0, 0).to_set().intersect(b_set@).len() == 0 by {
        assert(s.subrange(0, 0).to_set().intersect(b_set@) =~= Set::empty());
    }
    for x in it: a_set.iter()
        invariant
            n == a_set@.len(),
            it.seq().len() == n,
            it.seq().unref().no_duplicates(),
            it.seq().unref().to_set() == a_set@,
            res <= it.index(),
            res == it.seq().unref().subrange(0, it.index()).to_set().intersect(b_set@).len(),
            it.index() == n ==> res == a_set@.intersect(b_set@).len(),
    {
        let ghost k = it.index();
        let ghost keys = it.seq().unref();
        let ghost seen = keys.subrange(0, k).to_set().intersect(b_set@);
        proof {
            assert(keys.subrange(0, k + 1) =~= keys.subrange(0, k).push(keys[k]));
            keys.subrange(0, k).lemma_push_to_set_commute(keys[k]);
            assert(!keys.subrange(0, k).contains(keys[k]));
        }
        if b_set.contains(x) {
            assert(keys.subrange(0, k + 1).to_set().intersect(b_set@) =~= seen.insert(keys[k]));
            res = res + 1;
        } else {
            assert(keys.subrange(0, k + 1).to_set().intersect(b_set@) =~= seen);
        }
        assert(k + 1 == n ==> keys.subrange(0, k + 1) =~= keys);
    }

    (res, now.elapsed())
}

/// Sorts both vectors in place, then walks them side by side, counting each
/// pair of equal values once. Duplicates pair up one to one, so the count is
/// the size of the multiset intersection.
pub fn sorted_array(a: &mut Vec<u32>, b: &mut Vec<u32>) -> (r: (usize, Duration))
    ensures
        final(a)@.to_multiset() == old(a)@.to_multiset(),
        final(b)@.to_multiset() == old(b)@.to_multiset(),
        is_ascending(final(a)@),
        is_ascending(final(b)@),
        r.0 == paired_values(old(a)@, old(b)@),
{
    let now = Instant::now();

    sort_ascending(a);
    sort_ascending(b);

    let ghost sa = a@;
    let ghost sb = b@;
    let mut i: usize = 0;
    let mut j: usize = 0;
    let mut res: usize = 0;
    assert(sa.subrange(0, sa.len() as int) =~= sa);
    assert(sb.subrange(0, sb.len() as int) =~= sb);
    while i < a.len() && j < b.len()
        invariant
            a@ == sa,
            b@ == sb,
            is_ascending(sa),
            is_ascending(sb),
            i <= sa.len(),
            j <= sb.len(),
            res <= i,
            paired_values(sa, sb) == res + paired_values(
                sa.subrange(i as int, sa.len() as int),
                sb.subrange(j as int, sb.len() as int),
            ),
        decreases sa.len() - i + sb.len() - j,
    {
        let ghost ra = sa.subrange(i + 1, sa.len() as int).to_multiset();
        let ghost rb = sb.subrange(j + 1, sb.len() as int).to_multiset();
        let ghost fa = sa.subrange(i as int, sa.len() as int);
        let ghost fb = sb.subrange(j as int, sb.len() as int);
        proof {
            lemma_suffix_multiset(sa, i as int);
            lemma_suffix_multiset(sb, j as int);
        }
        if a[i] < b[j] {
            proof {
                assert(!fb.contains(sa[i as int]));
                lemma_intersection_absent(ra, fb.to_multiset(), sa[i as int]);
            }
            i = i + 1;
        } else if a[i] > b[j] {
            proof {
                assert(!fa.contains(sb[j as int]));
                lemma_intersection_absent(rb, fa.to_multiset(), sb[j as int]);
            }
            j = j + 1;
        } else {
            proof {
                lemma_intersection_both(ra, rb, sa[i as int]);
            }
            res = res + 1;
            i = i + 1;
            j = j + 1;
        }
    }
    proof {
        lemma_intersection_empty(
            sa.subrange(i as int, sa.len() as int).to_multiset(),
            sb.subrange(j as int, sb.len() as int).to_multiset(),
        );
    }

    (res, now.elapsed())
}

} // verus!
