//! Small helpers over sequences.
use vstd::prelude::*;
use vstd::std_specs::cmp::PartialEqSpec;

verus! {

/// The first item if every later item equals it (as `==` on `T` decides).
/// The sequence must not be empty.
pub fn all_same<T: PartialEq>(v: Vec<T>) -> (r: Option<T>)
    requires
        v@.len() > 0,
    ensures
        T::obeys_eq_spec() ==> (r is Some <==> forall|i: int|
            1 <= i < v@.len() ==> #[trigger] v@[i].eq_spec(&v@[0])),
        r is Some ==> r == Some(v@[0]),
{
    let mut v = v;
    let mut same = true;
    let mut i: usize = 1;
    let ghost v0 = v@;
    while i < v.len()
        invariant
            v@ == v0,
            v0.len() > 0,
            1 <= i <= v0.len(),
            T::obeys_eq_spec() ==> (same <==> forall|k: int|
                1 <= k < i ==> #[trigger] v0[k].eq_spec(&v0[0])),
        decreases v0.len() - i,
    {
        let e = v[i].eq(&v[0]);
        if !e {
            same = false;
        }
        i = i + 1;
    }
    if same {
        Some(v.swap_remove(0))
    } else {
        None
    }
}

/// Splits a sequence into its first `index` items and the rest; `index` must
/// fall inside the sequence.
pub fn split_at<T>(v: Vec<T>, index: usize) -> (r: (Vec<T>, Vec<T>))
    requires
        index < v@.len(),
    ensures
        r.0@ == v@.subrange(0, index as int),
        r.1@ == v@.subrange(index as int, v@.len() as int),
{
    let mut left = v;
    let right = left.split_off(index);
    (left, right)
}

/// Largest number of parties that may fail while a signature can still be
/// produced among `share_count` parties: the least integer not below
/// two thirds of `share_count`, minus one.
pub open spec fn spec_threshold(share_count: nat) -> int {
    (2 * share_count + 2) / 3 - 1
}

/// Computes `spec_threshold`; zero parties give a threshold of zero.
pub fn threshold_from_share_count(share_count: u32) -> (r: u32)
    ensures
        share_count > 0 ==> r == spec_threshold(share_count as nat),
        share_count == 0 ==> r == 0,
{
    if share_count == 0 {
        0
    } else {
        let doubled: u64 = 2 * (share_count as u64) + 2;
        ((doubled / 3) - 1) as u32
    }
}

/// Total number of key shares and the threshold derived from it.
#[derive(Debug, Clone, Copy, PartialEq, Eq, Structural)]
pub struct ThresholdParameters {
    /// Total number of key shares (the number of parties in key generation).
    pub share_count: u32,
    /// Largest number of parties that may fail to take part in signing.
    pub threshold: u32,
}

impl ThresholdParameters {
    pub fn from_share_count(share_count: u32) -> (r: Self)
        ensures
            r.share_count == share_count,
            share_count > 0 ==> r.threshold == spec_threshold(share_count as nat),
            share_count == 0 ==> r.threshold == 0,
    {
        ThresholdParameters { share_count, threshold: threshold_from_share_count(share_count) }
    }
}

} // verus!
