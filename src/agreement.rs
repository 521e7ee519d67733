//! Where the three counts meet: on sequences without repeated values they
//! coincide, and on the benchmark's two ascending runs they all equal the
//! length of the shorter run.
use vstd::multiset::*;
use vstd::prelude::*;
use vstd::seq_lib::*;

use crate::counting::{
    lemma_intersection_absent, matching_pairs, occurrences, paired_values, shared_values,
};
use crate::inputs::ascending_seq;

verus! {

broadcast use {group_to_multiset_ensures, group_multiset_properties, seq_to_set_is_finite};

/// In a sequence without repeated values each value occurs once or not at all.
pub proof fn lemma_occurrences_unique(s: Seq<u32>, x: u32)
    requires
        s.no_duplicates(),
    ensures
        occurrences(s, x) == (if s.contains(x) { 1nat } else { 0nat }),
{
    s.lemma_multiset_has_no_duplicates();
}

/// On sequences without repeated values, the number of equal pairs, the
/// number of shared distinct values and the size of the multiset
/// intersection are one and the same.
pub proof fn lemma_counts_agree(a: Seq<u32>, b: Seq<u32>)
    requires
        a.no_duplicates(),
        b.no_duplicates(),
    ensures
        matching_pairs(a, b) == shared_values(a, b),
        paired_values(a, b) == shared_values(a, b),
    decreases a.len(),
{
    if a.len() == 0 {
        assert(a.to_set().intersect(b.to_set()) =~= Set::empty());
        assert(a.to_multiset() =~= Multiset::empty());
        assert(a.to_multiset().intersection_with(b.to_multiset()) =~= Multiset::empty());
    } else {
        let rest = a.drop_last();
        let x = a.last();
        assert(a =~= rest.push(x));
        assert(rest.no_duplicates());
        assert(!rest.contains(x));
        lemma_counts_agree(rest, b);
        lemma_occurrences_unique(b, x);
        lemma_occurrences_unique(rest, x);
        rest.lemma_push_to_set_commute(x);
        let shared = rest.to_set().intersect(b.to_set());
        let paired = rest.to_multiset().intersection_with(b.to_multiset());
        if b.contains(x) {
            assert(a.to_set().intersect(b.to_set()) =~= shared.insert(x));
            assert(a.to_multiset().intersection_with(b.to_multiset()) =~= paired.insert(x));
        } else {
            assert(a.to_set().intersect(b.to_set()) =~= shared);
            lemma_intersection_absent(rest.to_multiset(), b.to_multiset(), x);
        }
    }
}

/// Equal pairs are index pairs, so there are at most `|a| * |b|` of them: a
/// caller whose lengths multiply without overflow meets the bound that the
/// nested scan asks for.
pub proof fn lemma_pairs_bounded(a: Seq<u32>, b: Seq<u32>)
    ensures
        matching_pairs(a, b) <= a.len() * b.len(),
    decreases a.len(),
{
    if a.len() > 0 {
        lemma_pairs_bounded(a.drop_last(), b);
        assert(b.len() == b.to_multiset().len());
        assert(a.len() * b.len() == (a.len() - 1) * b.len() + b.len()) by (nonlinear_arith);
    }
}

/// An ascending run holds no value twice.
pub proof fn lemma_ascending_unique(n: nat)
    requires
        n <= 0x1_0000_0000,
    ensures
        ascending_seq(n).no_duplicates(),
{
}

/// On the runs `0 .. n` and `0 .. m` with `m <= n`, each of the three counts
/// is `m`: every value of the shorter run lies in the longer one.
pub proof fn lemma_ascending_runs(n: nat, m: nat)
    requires
        m <= n <= 0x1_0000_0000,
    ensures
        matching_pairs(ascending_seq(n), ascending_seq(m)) == m,
        shared_values(ascending_seq(n), ascending_seq(m)) == m,
        paired_values(ascending_seq(n), ascending_seq(m)) == m,
{
    let long = ascending_seq(n);
    let short = ascending_seq(m);
    lemma_ascending_unique(n);
    lemma_ascending_unique(m);
    lemma_counts_agree(long, short);
    assert forall|x: u32| #[trigger] short.to_set().contains(x) implies long.to_set().contains(
        x,
    ) by {
        let k = choose|k: int| 0 <= k < short.len() && short[k] == x;
        assert(long[k] == x);
    }
    assert(long.to_set().intersect(short.to_set()) =~= short.to_set());
    short.unique_seq_to_set();
}

/// Each count is a function of the two sequences' contents: running a
/// comparator again on fresh copies of the same inputs gives the same count.
pub proof fn lemma_counts_repeat(a1: Seq<u32>, b1: Seq<u32>, a2: Seq<u32>, b2: Seq<u32>)
    requires
        a1 == a2,
        b1 == b2,
    ensures
        matching_pairs(a1, b1) == matching_pairs(a2, b2),
        shared_values(a1, b1) == shared_values(a2, b2),
        paired_values(a1, b1) == paired_values(a2, b2),
{
}

} // verus!
