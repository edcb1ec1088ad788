//! Mapping between account identifiers and the dense one-based indices that
//! parties carry inside a ceremony.
use vstd::prelude::*;
use crate::primitives::{AccountId, AuthorityCount};

verus! {

/// Items in strictly increasing order: sorted, without repeats.
pub open spec fn strictly_increasing(s: Seq<u64>) -> bool {
    forall|i: int, j: int| 0 <= i < j < s.len() ==> s[i] < s[j]
}

/// Party `i` (one-based) is the `i`-th smallest account of the set.
pub struct PartyIdxMapping {
    ids: Vec<AccountId>,
}

impl View for PartyIdxMapping {
    type V = Seq<AccountId>;

    closed spec fn view(&self) -> Seq<AccountId> {
        self.ids@
    }
}

impl PartyIdxMapping {
    /// A mapping holds a non-empty, strictly increasing list of accounts
    /// whose count fits an index.
    pub open spec fn wf(&self) -> bool {
        valid_participants(self@)
    }

    /// Builds the mapping of an ordered set of accounts; fails on an empty,
    /// unordered or repeating list.
    pub fn from_participants(ids: Vec<AccountId>) -> (r: Option<Self>)
        ensures
            r is Some <==> valid_participants(ids@),
            r matches Some(m) ==> m@ == ids@ && m.wf(),
    {
        if check_participants(&ids) {
            Some(PartyIdxMapping { ids })
        } else {
            None
        }
    }

    /// The accounts, in index order.
    pub fn ids(&self) -> (r: Vec<AccountId>)
        ensures
            r@ == self@,
    {
        let mut r: Vec<AccountId> = Vec::new();
        let mut k: usize = 0;
        while k < self.ids.len()
            invariant
                k <= self.ids@.len(),
                r@ == self.ids@.subrange(0, k as int),
            decreases self.ids@.len() - k,
        {
            r.push(self.ids[k]);
            k = k + 1;
            assert(r@ =~= self.ids@.subrange(0, k as int));
        }
        assert(self.ids@.subrange(0, k as int) =~= self.ids@);
        r
    }

    /// Number of parties.
    pub fn num_parties(&self) -> (r: AuthorityCount)
        requires
            self.wf(),
        ensures
            r == self@.len(),
            r >= 1,
    {
        self.ids.len() as AuthorityCount
    }

    /// Index of `id`, if it belongs to the set.
    pub fn get_idx(&self, id: AccountId) -> (r: Option<AuthorityCount>)
        requires
            self.wf(),
        ensures
            r is None <==> !self@.contains(id),
            r matches Some(i) ==> 1 <= i <= self@.len() && self@[i - 1] == id,
    {
        let mut k: usize = 0;
        while k < self.ids.len()
            invariant
                self.wf(),
                k <= self@.len(),
                forall|j: int| 0 <= j < k ==> self@[j] != id,
            decreases self@.len() - k,
        {
            if self.ids[k] == id {
                return Some((k + 1) as AuthorityCount);
            }
            k = k + 1;
        }
        None
    }

    /// Account of party `idx`, which must lie in `1..=n`.
    pub fn get_id(&self, idx: AuthorityCount) -> (r: AccountId)
        requires
            self.wf(),
            1 <= idx <= self@.len(),
        ensures
            r == self@[idx - 1],
    {
        self.ids[(idx - 1) as usize]
    }
}

/// Entries at different positions of a strictly increasing list differ.
pub proof fn lemma_distinct(s: Seq<u64>, i: int, j: int)
    requires
        strictly_increasing(s),
        0 <= i < s.len(),
        0 <= j < s.len(),
        i != j,
    ensures
        s[i] != s[j],
{
    if i < j {
        assert(s[i] < s[j]);
    } else {
        assert(s[j] < s[i]);
    }
}

/// In a strictly increasing list, the position of a value is unique.
pub proof fn lemma_index_unique(s: Seq<u64>, k: int)
    requires
        strictly_increasing(s),
        0 <= k < s.len(),
    ensures
        forall|j: int| 0 <= j < s.len() && #[trigger] s[j] == s[k] ==> j == k,
{
    assert forall|j: int| 0 <= j < s.len() && #[trigger] s[j] == s[k] implies j == k by {
        if j != k {
            lemma_distinct(s, j, k);
        }
    }
}

/// A participant list that a mapping can be built from.
pub open spec fn valid_participants(s: Seq<u64>) -> bool {
    &&& s.len() > 0
    &&& s.len() <= u32::MAX
    &&& strictly_increasing(s)
}

/// Decides `valid_participants`.
pub fn check_participants(ids: &Vec<AccountId>) -> (r: bool)
    ensures
        r == valid_participants(ids@),
{
    if ids.len() == 0 || ids.len() > u32::MAX as usize {
        return false;
    }
    let mut k: usize = 1;
    while k < ids.len()
        invariant
            1 <= k <= ids@.len(),
            forall|i: int, j: int| 0 <= i < j < k ==> ids@[i] < ids@[j],
        decreases ids@.len() - k,
    {
        if ids[k - 1] >= ids[k] {
            assert(!strictly_increasing(ids@)) by {
                assert(ids@[k - 1] >= ids@[k as int]);
            }
            return false;
        }
        assert forall|i: int, j: int| 0 <= i < j < k + 1 implies ids@[i] < ids@[j] by {
            if j == k && i < k - 1 {
                assert(ids@[i] < ids@[k - 1]);
            }
        }
        k = k + 1;
    }
    true
}

} // verus!
