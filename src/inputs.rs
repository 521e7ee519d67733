//! The two ascending runs of integers that the comparators are measured on.
use vstd::prelude::*;

verus! {

/// Length of the longer input run, `0 .. 2^17`.
pub const A_LEN: u32 = 131072;

/// Length of the shorter input run, `0 .. 2^16`.
pub const B_LEN: u32 = 65536;

/// The run `0, 1, ..., n - 1`.
pub open spec fn ascending_seq(n: nat) -> Seq<u32> {
    Seq::new(n, |i: int| i as u32)
}

/// Builds the vector `0, 1, ..., n - 1`.
pub fn ascending(n: u32) -> (v: Vec<u32>)
    ensures
        v@ == ascending_seq(n as nat),
{
    let mut v: Vec<u32> = Vec::new();
    let mut k: u32 = 0;
    while k < n
        invariant
            k <= n,
            v@ == ascending_seq(k as nat),
        decreases n - k,
    {
        v.push(k);
        k = k + 1;
        assert(v@ =~= ascending_seq(k as nat));
    }
    v
}

/// The benchmark's two inputs: `0 .. A_LEN` and `0 .. B_LEN`.
pub fn input_sequences() -> (r: (Vec<u32>, Vec<u32>))
    ensures
        r.0@ == ascending_seq(A_LEN as nat),
        r.1@ == ascending_seq(B_LEN as nat),
{
    (ascending(A_LEN), ascending(B_LEN))
}

} // verus!
