//! The data that parties exchange in each stage of the signing and the key
//! generation protocols, the stage each message belongs to, and the policy
//! that decides which early messages are kept for later.
use vstd::prelude::*;

verus! {

/// Bytes of one curve point or scalar, as the signing scheme encodes it.
pub type Blob = Vec<u8>;

/// A value that parties send each other: compared and copied through its view.
pub trait Payload: View + Sized {
    fn same_as(&self, other: &Self) -> (r: bool)
        ensures
            r == (self@ == other@),
    ;

    fn duplicate(&self) -> (r: Self)
        ensures
            r@ == self@,
    ;
}

/// Compares two byte strings.
pub fn bytes_eq(a: &Vec<u8>, b: &Vec<u8>) -> (r: bool)
    ensures
        r == (a@ == b@),
{
    if a.len() != b.len() {
        return false;
    }
    let mut i: usize = 0;
    while i < a.len()
        invariant
            a@.len() == b@.len(),
            i <= a@.len(),
            forall|k: int| 0 <= k < i ==> a@[k] == b@[k],
        decreases a@.len() - i,
    {
        if a[i] != b[i] {
            return false;
        }
        i = i + 1;
    }
    assert(a@ =~= b@);
    true
}

/// Copies a byte string.
pub fn bytes_copy(a: &Vec<u8>) -> (r: Vec<u8>)
    ensures
        r@ == a@,
{
    let mut r: Vec<u8> = Vec::new();
    let mut i: usize = 0;
    while i < a.len()
        invariant
            i <= a@.len(),
            r@ == a@.subrange(0, i as int),
        decreases a@.len() - i,
    {
        r.push(a[i]);
        i = i + 1;
        assert(r@ =~= a@.subrange(0, i as int));
    }
    assert(a@.subrange(0, a@.len() as int) =~= a@);
    r
}

/// Compares two lists of byte strings.
pub fn blobs_eq(a: &Vec<Blob>, b: &Vec<Blob>) -> (r: bool)
    ensures
        r == (blobs_view(a@) == blobs_view(b@)),
{
    if a.len() != b.len() {
        assert(blobs_view(a@).len() != blobs_view(b@).len());
        return false;
    }
    let mut i: usize = 0;
    while i < a.len()
        invariant
            a@.len() == b@.len(),
            i <= a@.len(),
            forall|k: int| 0 <= k < i ==> a@[k]@ == b@[k]@,
        decreases a@.len() - i,
    {
        if !bytes_eq(&a[i], &b[i]) {
            assert(blobs_view(a@)[i as int] != blobs_view(b@)[i as int]);
            return false;
        }
        i = i + 1;
    }
    assert(blobs_view(a@) =~= blobs_view(b@));
    true
}

/// Copies a list of byte strings.
pub fn blobs_copy(a: &Vec<Blob>) -> (r: Vec<Blob>)
    ensures
        blobs_view(r@) == blobs_view(a@),
{
    let mut r: Vec<Blob> = Vec::new();
    let mut i: usize = 0;
    while i < a.len()
        invariant
            i <= a@.len(),
            r@.len() == i,
            forall|k: int| 0 <= k < i ==> r@[k]@ == a@[k]@,
        decreases a@.len() - i,
    {
        r.push(bytes_copy(&a[i]));
        i = i + 1;
    }
    assert(blobs_view(r@) =~= blobs_view(a@));
    r
}

pub open spec fn blobs_view(s: Seq<Blob>) -> Seq<Seq<u8>> {
    s.map_values(|b: Blob| b@)
}

impl Payload for Vec<u8> {
    fn same_as(&self, other: &Self) -> (r: bool) {
        bytes_eq(self, other)
    }

    fn duplicate(&self) -> (r: Self) {
        bytes_copy(self)
    }
}

/// Public components of the single-use nonces a party generates for one payload.
#[derive(Debug)]
pub struct SigningCommitment {
    pub d: Blob,
    pub e: Blob,
}

impl View for SigningCommitment {
    type V = (Seq<u8>, Seq<u8>);

    open spec fn view(&self) -> (Seq<u8>, Seq<u8>) {
        (self.d@, self.e@)
    }
}

impl Payload for SigningCommitment {
    fn same_as(&self, other: &Self) -> (r: bool) {
        bytes_eq(&self.d, &other.d) && bytes_eq(&self.e, &other.e)
    }

    fn duplicate(&self) -> (r: Self) {
        SigningCommitment { d: bytes_copy(&self.d), e: bytes_copy(&self.e) }
    }
}

/// The commitments of one party, one for each payload to sign.
#[derive(Debug)]
pub struct Comm1(pub Vec<SigningCommitment>);

impl View for Comm1 {
    type V = Seq<(Seq<u8>, Seq<u8>)>;

    open spec fn view(&self) -> Seq<(Seq<u8>, Seq<u8>)> {
        self.0@.map_values(|c: SigningCommitment| c@)
    }
}

impl Payload for Comm1 {
    fn same_as(&self, other: &Self) -> (r: bool) {
        if self.0.len() != other.0.len() {
            assert(self@.len() != other@.len());
            return false;
        }
        let mut i: usize = 0;
        while i < self.0.len()
            invariant
                self.0@.len() == other.0@.len(),
                i <= self.0@.len(),
                forall|k: int| 0 <= k < i ==> self.0@[k]@ == other.0@[k]@,
            decreases self.0@.len() - i,
        {
            if !self.0[i].same_as(&other.0[i]) {
                assert(self@[i as int] != other@[i as int]);
                return false;
            }
            i = i + 1;
        }
        assert(self@ =~= other@);
        true
    }

    fn duplicate(&self) -> (r: Self) {
        let mut v: Vec<SigningCommitment> = Vec::new();
        let mut i: usize = 0;
        while i < self.0.len()
            invariant
                i <= self.0@.len(),
                v@.len() == i,
                forall|k: int| 0 <= k < i ==> v@[k]@ == self.0@[k]@,
            decreases self.0@.len() - i,
        {
            v.push(self.0[i].duplicate());
            i = i + 1;
        }
        let r = Comm1(v);
        assert(r@ =~= self@);
        r
    }
}

/// The response scalars of one party, one for each payload.
#[derive(Debug)]
pub struct LocalSig3 {
    pub responses: Vec<Blob>,
}

impl View for LocalSig3 {
    type V = Seq<Seq<u8>>;

    open spec fn view(&self) -> Seq<Seq<u8>> {
        blobs_view(self.responses@)
    }
}

impl Payload for LocalSig3 {
    fn same_as(&self, other: &Self) -> (r: bool) {
        blobs_eq(&self.responses, &other.responses)
    }

    fn duplicate(&self) -> (r: Self) {
        LocalSig3 { responses: blobs_copy(&self.responses) }
    }
}

/// What a party re-broadcasts in a verification round: for each party
/// (entry `k` for party `k + 1`) the value it received from it, if any.
#[derive(Debug)]
pub struct BroadcastVerificationMessage<T> {
    pub data: Vec<Option<T>>,
}

/// View of a list of optional values.
pub open spec fn opts_view<T: View>(s: Seq<Option<T>>) -> Seq<Option<T::V>> {
    s.map_values(|o: Option<T>| match o {
        Some(v) => Some(v@),
        None => None,
    })
}

impl<T: View> View for BroadcastVerificationMessage<T> {
    type V = Seq<Option<T::V>>;

    open spec fn view(&self) -> Seq<Option<T::V>> {
        opts_view(self.data@)
    }
}

/// Compares two optional values.
pub fn opt_same<T: Payload>(a: &Option<T>, b: &Option<T>) -> (r: bool)
    ensures
        r == (opt_view(*a) == opt_view(*b)),
{
    match (a, b) {
        (Some(x), Some(y)) => x.same_as(y),
        (None, None) => true,
        _ => false,
    }
}

pub open spec fn opt_view<T: View>(o: Option<T>) -> Option<T::V> {
    match o {
        Some(v) => Some(v@),
        None => None,
    }
}

impl<T: Payload> Payload for BroadcastVerificationMessage<T> {
    fn same_as(&self, other: &Self) -> (r: bool) {
        if self.data.len() != other.data.len() {
            assert(self@.len() != other@.len());
            return false;
        }
        let mut i: usize = 0;
        while i < self.data.len()
            invariant
                self.data@.len() == other.data@.len(),
                i <= self.data@.len(),
                forall|k: int| 0 <= k < i ==> opt_view(self.data@[k]) == opt_view(other.data@[k]),
            decreases self.data@.len() - i,
        {
            if !opt_same(&self.data[i], &other.data[i]) {
                assert(self@[i as int] != other@[i as int]);
                return false;
            }
            i = i + 1;
        }
        assert(self@ =~= other@);
        true
    }

    fn duplicate(&self) -> (r: Self) {
        let mut v: Vec<Option<T>> = Vec::new();
        let mut i: usize = 0;
        while i < self.data.len()
            invariant
                i <= self.data@.len(),
                v@.len() == i,
                forall|k: int| 0 <= k < i ==> opt_view(v@[k]) == opt_view(self.data@[k]),
            decreases self.data@.len() - i,
        {
            let o = match &self.data[i] {
                Some(x) => Some(x.duplicate()),
                None => None,
            };
            v.push(o);
            i = i + 1;
        }
        let r = BroadcastVerificationMessage { data: v };
        assert(r@ =~= self@);
        r
    }
}

} // verus!
