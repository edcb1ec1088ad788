//! Consensus on broadcast: after every originating round, each party reports
//! what it received from every party, and a value is adopted for a sender only
//! when more than half of all parties report it.
use vstd::prelude::*;
use crate::messages::{opt_same, opt_view, BroadcastVerificationMessage, Payload};
use crate::primitives::AuthorityCount;

verus! {

/// The reports as mathematical values: entry `r` is what party `r + 1`
/// reported (nothing if it stayed silent), and within a report entry `s` is
/// the value it says party `s + 1` sent.
pub open spec fn reports_view<T: View>(reports: Seq<Option<BroadcastVerificationMessage<T>>>) -> Seq<
    Option<Seq<Option<T::V>>>,
> {
    reports.map_values(|o: Option<BroadcastVerificationMessage<T>>| match o {
        Some(m) => Some(m@),
        None => None,
    })
}

/// Every report that was sent has one entry per party.
pub open spec fn reports_well_sized<V>(rv: Seq<Option<Seq<Option<V>>>>) -> bool {
    forall|r: int| 0 <= r < rv.len() ==> (#[trigger] rv[r] matches Some(rep) ==> rep.len() == rv.len())
}

/// Number of the first `k` reporters that say sender `s` sent `v`.
pub open spec fn votes<V>(rv: Seq<Option<Seq<Option<V>>>>, s: int, v: Option<V>, k: int) -> nat
    decreases k,
{
    if k <= 0 {
        0
    } else {
        votes(rv, s, v, k - 1) + (if rv[k - 1] matches Some(rep) && rep[s] == v {
            1nat
        } else {
            0nat
        })
    }
}

/// Votes over all reporters.
pub open spec fn all_votes<V>(rv: Seq<Option<Seq<Option<V>>>>, s: int, v: Option<V>) -> nat {
    votes(rv, s, v, rv.len() as int)
}

/// A value sent by `s` is reported by more than half of all parties.
pub open spec fn has_majority<V>(rv: Seq<Option<Seq<Option<V>>>>, s: int) -> bool {
    exists|v: V| all_votes(rv, s, Some(v)) > rv.len() / 2
}

/// The value of sender `s` that more than half of the parties report
/// (meaningful when there is one).
pub open spec fn agreed<V>(rv: Seq<Option<Seq<Option<V>>>>, s: int) -> V {
    choose|v: V| all_votes(rv, s, Some(v)) > rv.len() / 2
}

/// A value with a majority is the agreed one.
pub proof fn lemma_majority_unique<V>(rv: Seq<Option<Seq<Option<V>>>>, s: int, v: V)
    requires
        all_votes(rv, s, Some(v)) > rv.len() / 2,
    ensures
        agreed(rv, s) == v,
{
    let w = agreed(rv, s);
    if w != v {
        lemma_votes_disjoint(rv, s, Some(w), Some(v), rv.len() as int);
    }
}

/// Party `s + 1` is blamed: no value of it has a majority, or it sent no
/// report of its own.
pub open spec fn blamed<V>(rv: Seq<Option<Seq<Option<V>>>>, s: int) -> bool {
    !has_majority(rv, s) || rv[s] is None
}

/// Vote counts never exceed the number of reporters counted.
pub proof fn lemma_votes_bounded<V>(rv: Seq<Option<Seq<Option<V>>>>, s: int, v: Option<V>, k: int)
    requires
        0 <= k <= rv.len(),
    ensures
        votes(rv, s, v, k) <= k,
    decreases k,
{
    if k > 0 {
        lemma_votes_bounded(rv, s, v, k - 1);
    }
}

/// Two different values share the reporters between them.
pub proof fn lemma_votes_disjoint<V>(
    rv: Seq<Option<Seq<Option<V>>>>,
    s: int,
    a: Option<V>,
    b: Option<V>,
    k: int,
)
    requires
        0 <= k <= rv.len(),
        a != b,
    ensures
        votes(rv, s, a, k) + votes(rv, s, b, k) <= k,
    decreases k,
{
    if k > 0 {
        lemma_votes_disjoint(rv, s, a, b, k - 1);
    }
}

/// A value with a vote was reported by some reporter.
pub proof fn lemma_vote_has_witness<V>(
    rv: Seq<Option<Seq<Option<V>>>>,
    s: int,
    v: Option<V>,
    k: int,
)
    requires
        0 <= k <= rv.len(),
        votes(rv, s, v, k) > 0,
    ensures
        exists|j: int| 0 <= j < k && (#[trigger] rv[j] matches Some(rep) && rep[s] == v),
    decreases k,
{
    if votes(rv, s, v, k - 1) > 0 {
        lemma_vote_has_witness(rv, s, v, k - 1);
    } else {
        assert(rv[k - 1] matches Some(rep) && rep[s] == v);
    }
}

/// Counts the reporters that say sender `s` sent `v`.
fn count_votes<T: Payload>(
    reports: &Vec<Option<BroadcastVerificationMessage<T>>>,
    s: usize,
    v: &Option<T>,
) -> (c: usize)
    requires
        s < reports@.len(),
        reports_well_sized(reports_view(reports@)),
    ensures
        c == all_votes(reports_view(reports@), s as int, opt_view(*v)),
{
    let ghost rv = reports_view(reports@);
    let mut c: usize = 0;
    let mut k: usize = 0;
    while k < reports.len()
        invariant
            rv == reports_view(reports@),
            reports_well_sized(rv),
            s < reports@.len(),
            k <= reports@.len(),
            c == votes(rv, s as int, opt_view(*v), k as int),
        decreases reports@.len() - k,
    {
        proof {
            lemma_votes_bounded(rv, s as int, opt_view(*v), k as int);
        }
        match &reports[k] {
            Some(rep) => {
                assert(rv[k as int] == Some(rep@));
                assert(rep@.len() == reports@.len());
                assert(rep@[s as int] == opt_view(rep.data@[s as int]));
                if opt_same(&rep.data[s], v) {
                    c = c + 1;
                }
            },
            None => {},
        }
        k = k + 1;
    }
    c
}

/// The reporter whose entry for `s` has a majority, if any.
fn find_majority<T: Payload>(reports: &Vec<Option<BroadcastVerificationMessage<T>>>, s: usize) -> (r:
    Option<usize>)
    requires
        s < reports@.len(),
        reports_well_sized(reports_view(reports@)),
    ensures
        r matches Some(j) ==> j < reports@.len() && (reports_view(reports@)[j as int] matches Some(
            rep,
        ) && all_votes(reports_view(reports@), s as int, rep[s as int]) > reports@.len() / 2),
        r is None ==> forall|v: Option<T::V>|
            #![trigger all_votes(reports_view(reports@), s as int, v)]
            all_votes(reports_view(reports@), s as int, v) <= reports@.len() / 2,
{
    let ghost rv = reports_view(reports@);
    let n = reports.len();
    let mut j: usize = 0;
    while j < n
        invariant
            rv == reports_view(reports@),
            reports_well_sized(rv),
            n == reports@.len(),
            s < n,
            j <= n,
            forall|i: int|
                0 <= i < j ==> (#[trigger] rv[i] matches Some(rep) ==> all_votes(
                    rv,
                    s as int,
                    rep[s as int],
                ) <= n / 2),
        decreases n - j,
    {
        match &reports[j] {
            Some(rep) => {
                assert(rv[j as int] == Some(rep@));
                assert(rep@[s as int] == opt_view(rep.data@[s as int]));
                let c = count_votes(reports, s, &rep.data[s]);
                if c > n / 2 {
                    return Some(j);
                }
            },
            None => {},
        }
        j = j + 1;
    }
    proof {
        assert forall|v: Option<T::V>|
            #![trigger all_votes(rv, s as int, v)]
            all_votes(rv, s as int, v) <= n / 2 by {
            if all_votes(rv, s as int, v) > n / 2 {
                lemma_vote_has_witness(rv, s as int, v, n as int);
                let i = choose|i: int|
                    0 <= i < n && (#[trigger] rv[i] matches Some(rep) && rep[s as int] == v);
                assert(rv[i] matches Some(rep) ==> all_votes(rv, s as int, rep[s as int]) <= n / 2);
            }
        }
    }
    None
}

/// Runs consensus on broadcast over the reports of all `n` parties (entry
/// `r` for party `r + 1`). Gives, for each sender, the value that more than
/// half of the parties report; or, if some party is blamed, the blamed
/// indices in increasing order.
pub fn verify_broadcasts<T: Payload>(reports: &Vec<Option<BroadcastVerificationMessage<T>>>) -> (r:
    Result<Vec<T>, Vec<AuthorityCount>>)
    requires
        reports@.len() <= u32::MAX,
        reports_well_sized(reports_view(reports@)),
    ensures
        ({
            let rv = reports_view(reports@);
            &&& r is Ok <==> forall|s: int| 0 <= s < rv.len() ==> !#[trigger] blamed(rv, s)
            &&& r matches Ok(vals) ==> vals@.len() == rv.len() && forall|s: int|
                0 <= s < rv.len() ==> all_votes(rv, s, Some(#[trigger] vals@[s]@)) > rv.len() / 2
            &&& r matches Err(b) ==> blame_list(b@, rv)
        }),
{
    let ghost rv = reports_view(reports@);
    let n = reports.len();
    let mut agreed: Vec<T> = Vec::new();
    let mut blamed_idxs: Vec<AuthorityCount> = Vec::new();
    let mut s: usize = 0;
    while s < n
        invariant
            rv == reports_view(reports@),
            reports_well_sized(rv),
            n == rv.len(),
            n <= u32::MAX,
            s <= n,
            blamed_idxs@.len() == 0 ==> agreed@.len() == s,
            blamed_idxs@.len() == 0 ==> forall|k: int|
                0 <= k < s ==> all_votes(rv, k, Some(#[trigger] agreed@[k]@)) > n / 2,
            blamed_idxs@.len() == 0 <==> forall|k: int| 0 <= k < s ==> !#[trigger] blamed(rv, k),
            blame_prefix(blamed_idxs@, rv, s as int),
        decreases n - s,
    {
        let mut is_blamed = reports[s].is_none();
        let found = find_majority(reports, s);
        match found {
            Some(j) => {
                match &reports[j] {
                    Some(rep) => {
                        assert(rv[j as int] == Some(rep@));
                        assert(rep@[s as int] == opt_view(rep.data@[s as int]));
                        match &rep.data[s] {
                            Some(value) => {
                                if !is_blamed && blamed_idxs.len() == 0 {
                                    agreed.push(value.duplicate());
                                }
                            },
                            None => {
                                proof {
                                    assert forall|v: T::V| all_votes(rv, s as int, Some(v)) <= n
                                        / 2 by {
                                        lemma_votes_disjoint(
                                            rv,
                                            s as int,
                                            None,
                                            Some(v),
                                            n as int,
                                        );
                                    }
                                }
                                is_blamed = true;
                            },
                        }
                    },
                    None => {},
                }
            },
            None => {
                assert(!has_majority(rv, s as int)) by {
                    assert forall|v: T::V| all_votes(rv, s as int, Some(v)) <= n / 2 by {
                        assert(all_votes(rv, s as int, Some(v)) <= n / 2);
                    }
                }
                is_blamed = true;
            },
        }
        let ghost b0 = blamed_idxs@;
        if is_blamed {
            blamed_idxs.push((s + 1) as AuthorityCount);
        }
        proof {
            if !is_blamed {
                assert(has_majority(rv, s as int));
            }
            assert(is_blamed == blamed(rv, s as int));
            let b = blamed_idxs@;
            assert forall|x: int| 0 <= x < s + 1 && blamed(rv, x) implies b.contains(
                (x + 1) as AuthorityCount,
            ) by {
                if x == s {
                    assert(b[b.len() - 1] == (x + 1) as AuthorityCount);
                } else {
                    let i = choose|i: int| 0 <= i < b0.len() && b0[i] == (x + 1) as AuthorityCount;
                    assert(b[i] == b0[i]);
                }
            }
        }
        s = s + 1;
    }
    if blamed_idxs.len() == 0 {
        Ok(agreed)
    } else {
        Err(blamed_idxs)
    }
}

/// The blamed indices among the first `s` senders, increasing.
pub open spec fn blame_prefix<V>(b: Seq<AuthorityCount>, rv: Seq<Option<Seq<Option<V>>>>, s: int) -> bool {
    &&& forall|i: int, j: int| 0 <= i < j < b.len() ==> b[i] < b[j]
    &&& forall|k: int| 0 <= k < b.len() ==> 1 <= #[trigger] b[k] <= s && blamed(rv, b[k] - 1)
    &&& forall|x: int| 0 <= x < s && blamed(rv, x) ==> b.contains((x + 1) as AuthorityCount)
}

/// The blamed indices of all senders, increasing, and nothing else.
pub open spec fn blame_list<V>(b: Seq<AuthorityCount>, rv: Seq<Option<Seq<Option<V>>>>) -> bool {
    &&& b.len() > 0
    &&& blame_prefix(b, rv, rv.len() as int)
}

} // verus!
