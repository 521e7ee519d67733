//! What each comparator counts, stated over sequences, and the facts that
//! tie the three counts together.
use vstd::multiset::*;
use vstd::prelude::*;
use vstd::seq_lib::*;

verus! {

broadcast use {group_to_multiset_ensures, group_multiset_properties};

/// Every element is at most each element after it.
pub open spec fn is_ascending(s: Seq<u32>) -> bool {
    forall|i: int, j: int| 0 <= i <= j < s.len() ==> s[i] <= s[j]
}

/// How many times `x` occurs in `s`.
pub open spec fn occurrences(s: Seq<u32>, x: u32) -> nat {
    s.to_multiset().count(x)
}

/// The number of index pairs `(i, j)` with `a[i] == b[j]`: what a scan of
/// all of `b` for each element of `a` counts.
pub open spec fn matching_pairs(a: Seq<u32>, b: Seq<u32>) -> nat
    decreases a.len(),
{
    if a.len() == 0 {
        0
    } else {
        matching_pairs(a.drop_last(), b) + occurrences(b, a.last())
    }
}

/// The number of distinct values that occur in both `a` and `b`.
pub open spec fn shared_values(a: Seq<u32>, b: Seq<u32>) -> nat {
    a.to_set().intersect(b.to_set()).len()
}

/// The size of the multiset intersection of `a` and `b`: each value counts
/// as often as it occurs in the one of the two where it is rarer.
pub open spec fn paired_values(a: Seq<u32>, b: Seq<u32>) -> nat {
    a.to_multiset().intersection_with(b.to_multiset()).len()
}

/// A prefix of `a` matches no more pairs than the whole of `a`.
pub proof fn lemma_pairs_of_prefix(a: Seq<u32>, b: Seq<u32>, i: int)
    requires
        0 <= i <= a.len(),
    ensures
        matching_pairs(a.subrange(0, i), b) <= matching_pairs(a, b),
    decreases a.len() - i,
{
    if i == a.len() {
        assert(a.subrange(0, i) =~= a);
    } else {
        assert(a.subrange(0, i + 1).drop_last() =~= a.subrange(0, i));
        lemma_pairs_of_prefix(a, b, i + 1);
    }
}

/// A prefix of `s` holds `x` no more often than the whole of `s`.
pub proof fn lemma_occurrences_of_prefix(s: Seq<u32>, x: u32, j: int)
    requires
        0 <= j <= s.len(),
    ensures
        occurrences(s.subrange(0, j), x) <= occurrences(s, x),
{
    let head = s.subrange(0, j);
    let tail = s.subrange(j, s.len() as int);
    assert(s =~= head + tail);
    lemma_multiset_commutative(head, tail);
}

/// The values of `s` from position `i` on, as a multiset, are `s[i]` and
/// those from `i + 1` on.
pub proof fn lemma_suffix_multiset(s: Seq<u32>, i: int)
    requires
        0 <= i < s.len(),
    ensures
        s.subrange(i, s.len() as int).to_multiset() == s.subrange(
            i + 1,
            s.len() as int,
        ).to_multiset().insert(s[i]),
{
    let rest = s.subrange(i + 1, s.len() as int);
    let head = Seq::<u32>::empty().push(s[i]);
    assert(s.subrange(i, s.len() as int) =~= head + rest);
    lemma_multiset_commutative(head, rest);
    assert(Seq::<u32>::empty().to_multiset() =~= Multiset::empty());
    assert(head.to_multiset() =~= Multiset::empty().insert(s[i]));
    assert(head.to_multiset().add(rest.to_multiset()) =~= rest.to_multiset().insert(s[i]));
}

/// A value missing from `m` adds nothing to an intersection with `m`.
pub proof fn lemma_intersection_absent(l: Multiset<u32>, m: Multiset<u32>, x: u32)
    requires
        m.count(x) == 0,
    ensures
        l.insert(x).intersection_with(m) == l.intersection_with(m),
        m.intersection_with(l.insert(x)) == m.intersection_with(l),
{
    assert(l.insert(x).intersection_with(m) =~= l.intersection_with(m));
    assert(m.intersection_with(l.insert(x)) =~= m.intersection_with(l));
}

/// A value added to both sides is added once to their intersection.
pub proof fn lemma_intersection_both(l: Multiset<u32>, m: Multiset<u32>, x: u32)
    ensures
        l.insert(x).intersection_with(m.insert(x)) == l.intersection_with(m).insert(x),
{
    assert(l.insert(x).intersection_with(m.insert(x)) =~= l.intersection_with(m).insert(x));
}

/// An intersection with nothing is empty.
pub proof fn lemma_intersection_empty(l: Multiset<u32>, m: Multiset<u32>)
    requires
        l.len() == 0 || m.len() == 0,
    ensures
        l.intersection_with(m).len() == 0,
{
    assert(l.intersection_with(m) =~= Multiset::empty());
}

} // verus!
