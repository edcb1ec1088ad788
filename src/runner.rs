//! The runner of one signing ceremony: it owns the current broadcast stage,
//! keeps messages that arrive early for the next stage, moves from stage to
//! stage, and ends with the signatures or with a failure naming the parties
//! to blame.
use vstd::prelude::*;
use crate::broadcast::{accept_step, all_received, feed, nothing_received, BroadcastStage, ProcessMessageResult};
use crate::codec::{enc_envelope, serialize_for_version, Codec, CURRENT_PROTOCOL_VERSION};
use crate::index_map::{strictly_increasing, PartyIdxMapping};
use crate::messages::{Blob, BroadcastVerificationMessage, Comm1, LocalSig3, Payload, SigningCommitment};
use crate::primitives::{AccountId, AuthorityCount, CeremonyId, ChainTag, FailureReason};
use crate::stages::{
    signing_next, signing_rank, MultisigData, MultisigDataView, SigningData, SigningStageName,
};
use crate::verification::{agreed, blamed, verify_broadcasts};

verus! {

/// The cryptography of a signing scheme (FROST over some curve). The runner
/// treats points, scalars and signatures as opaque byte strings and decides
/// only from what these calls return.
pub trait SigningScheme {
    /// Fresh nonce commitments, one per payload; the scheme keeps the secret
    /// nonces for `respond`.
    fn commit(&mut self, num_payloads: usize) -> Vec<SigningCommitment>;

    /// This party's response scalars, one per payload, given every party's
    /// agreed commitments (entry `k` for party `k + 1`).
    fn respond(&mut self, commitments: &Vec<Comm1>, payloads: &Vec<Vec<u8>>) -> Vec<Blob>;

    /// Whether the responses of party `signer_idx` verify against its
    /// commitments.
    fn verify_local_sig(
        &self,
        commitments: &Vec<Comm1>,
        payloads: &Vec<Vec<u8>>,
        signer_idx: AuthorityCount,
        sig: &LocalSig3,
    ) -> bool;

    /// Combines the responses of all parties into one signature per payload.
    fn aggregate(
        &self,
        commitments: &Vec<Comm1>,
        payloads: &Vec<Vec<u8>>,
        sigs: &Vec<LocalSig3>,
    ) -> Vec<Blob>;

    /// Whether `signature` verifies for `payload` under the group key.
    fn verify_signature(&self, payload: &Vec<u8>, signature: &Blob) -> bool;
}

/// The result of a signing ceremony: one signature per payload, or the
/// blamed accounts and the reason.
pub type SigningResult = Result<Vec<Blob>, (Vec<AccountId>, FailureReason)>;

/// A serialised message and the accounts it goes to.
#[derive(Debug)]
pub struct OutgoingMessage {
    pub recipients: Vec<AccountId>,
    pub bytes: Vec<u8>,
}

/// A list of accounts fit to be blamed: sorted, without repeats, and all
/// among the participants.
pub open spec fn blame_ok(b: Seq<AccountId>, parts: Seq<AccountId>) -> bool {
    &&& strictly_increasing(b)
    &&& forall|k: int| 0 <= k < b.len() ==> parts.contains(#[trigger] b[k])
}

/// Increasing party indices within `1..=n`.
pub open spec fn idx_list_ok(idxs: Seq<AuthorityCount>, n: nat) -> bool {
    &&& forall|i: int, j: int| 0 <= i < j < idxs.len() ==> idxs[i] < idxs[j]
    &&& forall|k: int| 0 <= k < idxs.len() ==> 1 <= #[trigger] idxs[k] <= n
}

/// A result whose failure, if any, blames participants only, in order.
pub open spec fn result_ok(r: SigningResult, parts: Seq<AccountId>) -> bool {
    r matches Err((b, _)) ==> blame_ok(b@, parts)
}

/// The accounts of the parties `idxs`, in the same order.
pub fn idxs_to_ids(mapping: &PartyIdxMapping, idxs: &Vec<AuthorityCount>) -> (r: Vec<AccountId>)
    requires
        mapping.wf(),
        idx_list_ok(idxs@, mapping@.len()),
    ensures
        r@.len() == idxs@.len(),
        forall|k: int| 0 <= k < idxs@.len() ==> #[trigger] r@[k] == mapping@[idxs@[k] - 1],
        blame_ok(r@, mapping@),
{
    let mut r: Vec<AccountId> = Vec::new();
    let mut k: usize = 0;
    while k < idxs.len()
        invariant
            mapping.wf(),
            idx_list_ok(idxs@, mapping@.len()),
            k <= idxs@.len(),
            r@.len() == k,
            forall|j: int| 0 <= j < k ==> #[trigger] r@[j] == mapping@[idxs@[j] - 1],
        decreases idxs@.len() - k,
    {
        r.push(mapping.get_id(idxs[k]));
        k = k + 1;
    }
    proof {
        assert forall|i: int, j: int| 0 <= i < j < r@.len() implies r@[i] < r@[j] by {
            assert(idxs@[i] < idxs@[j]);
            assert(r@[i] == mapping@[idxs@[i] - 1]);
            assert(r@[j] == mapping@[idxs@[j] - 1]);
        }
        assert forall|k: int| 0 <= k < r@.len() implies mapping@.contains(#[trigger] r@[k]) by {
            assert(r@[k] == mapping@[idxs@[k] - 1]);
        }
    }
    r
}

/// The outcome of the last stage from the checks the scheme made: the
/// signatures if there is one per payload and each verified; otherwise a
/// signature failure blaming the parties whose responses did not verify
/// (`response_ok[k]` for party `k + 1`).
pub fn signing_outcome(
    mapping: &PartyIdxMapping,
    signatures: Vec<Blob>,
    num_payloads: usize,
    signature_ok: &Vec<bool>,
    response_ok: &Vec<bool>,
) -> (r: SigningResult)
    requires
        mapping.wf(),
        response_ok@.len() == mapping@.len(),
    ensures
        r is Ok <==> signatures@.len() == num_payloads && signature_ok@.len() == num_payloads
            && forall|i: int| 0 <= i < num_payloads ==> #[trigger] signature_ok@[i],
        r matches Ok(s) ==> s@ == signatures@,
        r matches Err((b, reason)) ==> reason == FailureReason::InvalidSignature && b@ == failed_ids(
            response_ok@,
            mapping@,
        ),
        result_ok(r, mapping@),
{
    let mut all_ok = signatures.len() == num_payloads && signature_ok.len() == num_payloads;
    if all_ok {
        let mut i: usize = 0;
        while i < num_payloads
            invariant
                signature_ok@.len() == num_payloads,
                i <= num_payloads,
                all_ok == forall|k: int| 0 <= k < i ==> #[trigger] signature_ok@[k],
            decreases num_payloads - i,
        {
            if !signature_ok[i] {
                all_ok = false;
            }
            i = i + 1;
        }
    }
    if all_ok {
        return Ok(signatures);
    }
    let idxs = failed_idxs(response_ok);
    let ids = idxs_to_ids(mapping, &idxs);
    proof {
        assert(ids@ =~= failed_ids(response_ok@, mapping@));
    }
    Err((ids, FailureReason::InvalidSignature))
}

/// The accounts, in order, of the parties whose check failed.
pub open spec fn failed_ids(ok: Seq<bool>, parts: Seq<AccountId>) -> Seq<AccountId> {
    failed_idx_seq(ok, ok.len() as int).map_values(|i: AuthorityCount| parts[i - 1])
}

/// Indices (one-based), in order, of the first `k` checks that failed.
pub open spec fn failed_idx_seq(ok: Seq<bool>, k: int) -> Seq<AuthorityCount>
    decreases k,
{
    if k <= 0 {
        Seq::empty()
    } else if ok[k - 1] {
        failed_idx_seq(ok, k - 1)
    } else {
        failed_idx_seq(ok, k - 1).push(k as AuthorityCount)
    }
}

pub proof fn lemma_failed_idx_bounds(ok: Seq<bool>, k: int)
    requires
        0 <= k <= ok.len() <= u32::MAX,
    ensures
        idx_list_ok(failed_idx_seq(ok, k), k as nat),
    decreases k,
{
    if k > 0 {
        lemma_failed_idx_bounds(ok, k - 1);
    }
}

/// Indices (one-based) of the failed checks, in increasing order.
pub fn failed_idxs(ok: &Vec<bool>) -> (r: Vec<AuthorityCount>)
    requires
        ok@.len() <= u32::MAX,
    ensures
        r@ == failed_idx_seq(ok@, ok@.len() as int),
        idx_list_ok(r@, ok@.len()),
{
    let mut r: Vec<AuthorityCount> = Vec::new();
    let mut k: usize = 0;
    while k < ok.len()
        invariant
            ok@.len() <= u32::MAX,
            k <= ok@.len(),
            r@ == failed_idx_seq(ok@, k as int),
        decreases ok@.len() - k,
    {
        if !ok[k] {
            r.push((k + 1) as AuthorityCount);
        }
        k = k + 1;
    }
    proof {
        lemma_failed_idx_bounds(ok@, ok@.len() as int);
    }
    r
}

/// Which parties' messages have arrived.
pub open spec fn received_flags<M>(msgs: Seq<Option<M>>) -> Seq<bool> {
    msgs.map_values(|m: Option<M>| m is Some)
}

/// This party's message `own` opened the stage after one whose collected
/// messages were `msgs`: it was broadcast to every other party, and, after
/// the commitment or the response stage, it reports what was received.
pub open spec fn opened_with<S>(
    old: SigningRunner<S>,
    msgs: Seq<Option<SigningData>>,
    r: SigningRunner<S>,
    own: SigningData,
) -> bool {
    &&& own.spec_stage() == r.stage_name
    &&& r.stage.messages@ == feed(
        nothing_received::<SigningData>(old.mapping@.len()).update(old.own_idx - 1, Some(own)),
        signing_rank(r.stage_name),
        old.delayed@,
    )
    &&& broadcast_sent(old.outbox@, r.outbox@, old.others@, old.ceremony_id, MultisigDataView::Signing(own@))
    &&& old.stage_name == SigningStageName::AwaitCommitments1 ==> (own matches SigningData::BroadcastVerificationStage2(m)
        && m@ == comm_reports(msgs))
    &&& old.stage_name == SigningStageName::LocalSigStage3 ==> (own matches SigningData::VerifyLocalSigsStage4(m)
        && m@ == sig_reports(msgs))
}

/// The commitments received in the first stage, as reported in the next:
/// nothing for a party whose message is missing.
pub open spec fn comm_reports(msgs: Seq<Option<SigningData>>) -> Seq<Option<Seq<(Seq<u8>, Seq<u8>)>>> {
    msgs.map_values(|o: Option<SigningData>| match o {
        Some(SigningData::CommStage1(c)) => Some(c@),
        _ => None,
    })
}

/// The responses received in the third stage, as reported in the next.
pub open spec fn sig_reports(msgs: Seq<Option<SigningData>>) -> Seq<Option<Seq<Seq<u8>>>> {
    msgs.map_values(|o: Option<SigningData>| match o {
        Some(SigningData::LocalSigStage3(c)) => Some(c@),
        _ => None,
    })
}

/// The reports of the commitment verification stage, as consensus reads
/// them: a report without one entry per party counts as missing.
pub open spec fn commit_reports_of(msgs: Seq<Option<SigningData>>) -> Seq<Option<Seq<Option<Seq<(Seq<u8>, Seq<u8>)>>>>> {
    msgs.map_values(|o: Option<SigningData>| match o {
        Some(SigningData::BroadcastVerificationStage2(m)) => if m.data@.len() == msgs.len() {
            Some(m@)
        } else {
            None
        },
        _ => None,
    })
}

/// The same for the response verification stage.
pub open spec fn sig_reports_of(msgs: Seq<Option<SigningData>>) -> Seq<Option<Seq<Option<Seq<Seq<u8>>>>>> {
    msgs.map_values(|o: Option<SigningData>| match o {
        Some(SigningData::VerifyLocalSigsStage4(m)) => if m.data@.len() == msgs.len() {
            Some(m@)
        } else {
            None
        },
        _ => None,
    })
}

/// Consensus blames some party, and `b` lists exactly the accounts of the
/// blamed parties.
pub open spec fn broadcast_blame<V>(b: Seq<AccountId>, rv: Seq<Option<Seq<Option<V>>>>, parts: Seq<AccountId>) -> bool {
    forall|a: AccountId| b.contains(a) <==> exists|x: int| 0 <= x < rv.len() && #[trigger] blamed(rv, x) && parts[x] == a
}

/// For each party, whether its agreed list holds one entry per payload.
pub open spec fn count_checks<V>(rv: Seq<Option<Seq<Option<Seq<V>>>>>, num_payloads: nat) -> Seq<bool> {
    Seq::new(rv.len(), |s: int| agreed(rv, s).len() == num_payloads)
}

/// `b` lists exactly the accounts of the parties whose check failed.
pub open spec fn failing_accounts(b: Seq<AccountId>, ok: Seq<bool>, parts: Seq<AccountId>) -> bool {
    forall|a: AccountId| b.contains(a) <==> exists|x: int| 0 <= x < ok.len() && !#[trigger] ok[x] && parts[x] == a
}

/// What finishing the commitment verification with the reports `msgs`
/// leads to in the runner `r`: a broadcast failure blaming exactly the
/// parties without a majority; otherwise an invalid contribution blaming
/// exactly the parties whose agreed commitments do not number one per
/// payload; otherwise the agreed commitments are kept and the ceremony goes
/// on past the commitment stages.
pub open spec fn verify_commitments_result<S>(
    msgs: Seq<Option<SigningData>>,
    parts: Seq<AccountId>,
    num_payloads: nat,
    r: SigningRunner<S>,
) -> bool {
    let rv = commit_reports_of(msgs);
    let ok = count_checks(rv, num_payloads);
    &&& (exists|x: int| 0 <= x < parts.len() && #[trigger] blamed(rv, x)) ==> (r.outcome matches Some(
        Err((b, reason)),
    ) && reason == FailureReason::BroadcastFailure && broadcast_blame(b@, rv, parts))
    &&& !(exists|x: int| 0 <= x < parts.len() && #[trigger] blamed(rv, x)) && (exists|x: int|
        0 <= x < parts.len() && !#[trigger] ok[x]) ==> (r.outcome matches Some(Err((b, reason)))
        && reason == FailureReason::InvalidContribution && failing_accounts(b@, ok, parts))
    &&& !(exists|x: int| 0 <= x < parts.len() && #[trigger] blamed(rv, x)) && !(exists|x: int|
        0 <= x < parts.len() && !#[trigger] ok[x]) ==> r.commitments@.map_values(|c: Comm1| c@)
        == Seq::new(parts.len(), |s: int| agreed(rv, s)) && (r.outcome is Some || signing_rank(
        r.stage_name,
    ) >= 2)
}

/// Indices in a list of failed checks are of checks that failed.
pub proof fn lemma_failed_idx_sound(ok: Seq<bool>, k: int)
    requires
        0 <= k <= ok.len() <= u32::MAX,
    ensures
        forall|j: int| 0 <= j < failed_idx_seq(ok, k).len() ==> !ok[#[trigger] failed_idx_seq(ok, k)[j] - 1],
    decreases k,
{
    if k > 0 {
        lemma_failed_idx_sound(ok, k - 1);
        lemma_failed_idx_bounds(ok, k - 1);
    }
}

/// The accounts of the failed checks are exactly those of the failing parties.
pub proof fn lemma_failing_accounts(b: Seq<AccountId>, ok: Seq<bool>, idxs: Seq<AuthorityCount>, parts: Seq<AccountId>)
    requires
        ok.len() == parts.len(),
        ok.len() <= u32::MAX,
        idxs == failed_idx_seq(ok, ok.len() as int),
        b.len() == idxs.len(),
        forall|k: int| 0 <= k < idxs.len() ==> #[trigger] b[k] == parts[idxs[k] - 1],
    ensures
        failing_accounts(b, ok, parts),
{
    lemma_failed_idx_sound(ok, ok.len() as int);
    lemma_failed_idx_bounds(ok, ok.len() as int);
    assert forall|a: AccountId| b.contains(a) <==> exists|x: int| 0 <= x < ok.len() && !#[trigger] ok[x] && parts[x] == a by {
        if b.contains(a) {
            let k = choose|k: int| 0 <= k < b.len() && b[k] == a;
            let x = idxs[k] - 1;
            assert(!ok[x] && parts[x] == a);
        }
        if exists|x: int| 0 <= x < ok.len() && !#[trigger] ok[x] && parts[x] == a {
            let x = choose|x: int| 0 <= x < ok.len() && !#[trigger] ok[x] && parts[x] == a;
            lemma_failed_idx_complete(ok, ok.len() as int, x);
            let k = choose|k: int| 0 <= k < idxs.len() && idxs[k] == (x + 1) as AuthorityCount;
            assert(idxs[k] - 1 == x);
            assert(b[k] == a);
        }
    }
}

/// The same, for the blame list of a signing result.
pub proof fn lemma_failing_ids(res: SigningResult, ok: Seq<bool>, idxs: Seq<AuthorityCount>, parts: Seq<AccountId>)
    requires
        ok.len() == parts.len(),
        ok.len() <= u32::MAX,
        idxs == failed_idx_seq(ok, ok.len() as int),
        res matches Err((b, _)) && b@.len() == idxs.len() && forall|k: int|
            0 <= k < idxs.len() ==> #[trigger] b@[k] == parts[idxs[k] - 1],
    ensures
        res matches Err((b, _)) && failing_accounts(b@, ok, parts),
{
    lemma_failing_accounts(res->Err_0.0@, ok, idxs, parts);
}

/// The accounts of a blame list of consensus are exactly those of the
/// blamed parties.
pub proof fn lemma_blame_accounts<V>(
    b: Seq<AccountId>,
    idxs: Seq<AuthorityCount>,
    rv: Seq<Option<Seq<Option<V>>>>,
    parts: Seq<AccountId>,
)
    requires
        rv.len() == parts.len(),
        rv.len() <= u32::MAX,
        crate::verification::blame_list(idxs, rv),
        b.len() == idxs.len(),
        forall|k: int| 0 <= k < idxs.len() ==> #[trigger] b[k] == parts[idxs[k] - 1],
    ensures
        broadcast_blame(b, rv, parts),
{
    assert forall|a: AccountId| b.contains(a) <==> exists|x: int| 0 <= x < rv.len() && #[trigger] blamed(rv, x) && parts[x] == a by {
        if b.contains(a) {
            let k = choose|k: int| 0 <= k < b.len() && b[k] == a;
            let x = idxs[k] - 1;
            assert(blamed(rv, x) && parts[x] == a);
        }
        if exists|x: int| 0 <= x < rv.len() && #[trigger] blamed(rv, x) && parts[x] == a {
            let x = choose|x: int| 0 <= x < rv.len() && #[trigger] blamed(rv, x) && parts[x] == a;
            assert(idxs.contains((x + 1) as AuthorityCount));
            let k = choose|k: int| 0 <= k < idxs.len() && idxs[k] == (x + 1) as AuthorityCount;
            assert(idxs[k] - 1 == x);
            assert(b[k] == a);
        }
    }
}

/// The same, for the blame list of a signing result.
pub proof fn lemma_blame_ids<V>(
    res: SigningResult,
    idxs: Seq<AuthorityCount>,
    rv: Seq<Option<Seq<Option<V>>>>,
    parts: Seq<AccountId>,
)
    requires
        rv.len() == parts.len(),
        rv.len() <= u32::MAX,
        crate::verification::blame_list(idxs, rv),
        res matches Err((b, _)) && b@.len() == idxs.len() && forall|k: int|
            0 <= k < idxs.len() ==> #[trigger] b@[k] == parts[idxs[k] - 1],
    ensures
        res matches Err((b, _)) && broadcast_blame(b@, rv, parts),
{
    lemma_blame_accounts(res->Err_0.0@, idxs, rv, parts);
}

/// What a finished stage leads to: this party's message for the next stage,
/// or the end of the ceremony.
pub enum StageOutcome {
    NextStage(SigningData),
    Done(SigningResult),
}

/// The time `now + timeout`, or the largest time if that overflows.
pub fn deadline_after(now: u64, timeout: u64) -> (r: u64)
    ensures
        r == if now + timeout <= u64::MAX { (now + timeout) as u64 } else { u64::MAX },
{
    if now > u64::MAX - timeout {
        u64::MAX
    } else {
        now + timeout
    }
}

/// Broadcast messages of a runner carry its own message to every other party.
pub open spec fn broadcast_sent(
    old_outbox: Seq<OutgoingMessage>,
    outbox: Seq<OutgoingMessage>,
    recipients: Seq<AccountId>,
    ceremony_id: CeremonyId,
    data: MultisigDataView,
) -> bool {
    if MultisigData::encodable(data) {
        &&& outbox.len() == old_outbox.len() + 1
        &&& outbox.drop_last() == old_outbox
        &&& outbox.last().recipients@ == recipients
        &&& outbox.last().bytes@ == enc_envelope(ceremony_id, data)
    } else {
        outbox == old_outbox
    }
}

/// The accounts of all parties but `own_idx`, in index order.
pub fn others_of(mapping: &PartyIdxMapping, own_idx: AuthorityCount) -> (r: Vec<AccountId>)
    requires
        mapping.wf(),
        1 <= own_idx <= mapping@.len(),
    ensures
        r@ == mapping@.remove(own_idx - 1),
{
    let n = mapping.num_parties();
    let mut others: Vec<AccountId> = Vec::new();
    let mut k: u32 = 0;
    while k < n
        invariant
            mapping.wf(),
            n == mapping@.len(),
            1 <= own_idx <= n,
            k <= n,
            k < own_idx ==> others@ == mapping@.subrange(0, k as int),
            k >= own_idx ==> others@ == mapping@.subrange(0, own_idx - 1) + mapping@.subrange(
                own_idx as int,
                k as int,
            ),
        decreases n - k,
    {
        if k + 1 != own_idx {
            others.push(mapping.get_id(k + 1));
        }
        proof {
            if k + 1 < own_idx {
                assert(others@ =~= mapping@.subrange(0, k + 1));
            } else if k + 1 == own_idx {
                assert(mapping@.subrange(0, own_idx - 1) + mapping@.subrange(own_idx as int, k + 1)
                    =~= mapping@.subrange(0, k as int));
            } else {
                assert(others@ =~= mapping@.subrange(0, own_idx - 1) + mapping@.subrange(
                    own_idx as int,
                    k + 1,
                ));
            }
        }
        k = k + 1;
    }
    assert(others@ =~= mapping@.remove(own_idx - 1));
    others
}

/// A signing ceremony in progress, from this party's point of view.
pub struct SigningRunner<S> {
    pub ceremony_id: CeremonyId,
    pub mapping: PartyIdxMapping,
    pub own_idx: AuthorityCount,
    /// The accounts of all other parties, to which every stage broadcasts.
    pub others: Vec<AccountId>,
    pub payloads: Vec<Vec<u8>>,
    pub chain: ChainTag,
    pub scheme: S,
    /// The stage in progress and the messages collected for it.
    pub stage: BroadcastStage<SigningData>,
    /// The name of the stage in progress.
    pub stage_name: SigningStageName,
    /// Messages for the next stage that arrived early, with their senders.
    pub delayed: Vec<(AuthorityCount, SigningData)>,
    /// The commitments agreed on in the verification of the first stage.
    pub commitments: Vec<Comm1>,
    pub stage_timeout: u64,
    /// When the stage in progress times out.
    pub deadline: u64,
    /// The result, once the ceremony has ended.
    pub outcome: Option<SigningResult>,
    /// Serialised messages waiting to be sent.
    pub outbox: Vec<OutgoingMessage>,
    /// When the ceremony started.
    pub started: u64,
    /// The verdicts recorded, one per payload, when the aggregate signatures
    /// were checked with the scheme's `verify_signature` before success.
    pub signature_checks: Vec<bool>,
}

/// A success carries one signature per payload, and the verdict recorded
/// for each of them is a pass.
pub open spec fn success_checks_recorded(r: SigningResult, num_payloads: nat, checks: Seq<bool>) -> bool {
    r matches Ok(sigs) ==> sigs@.len() == num_payloads && checks.len() == num_payloads && forall|i: int|
        0 <= i < num_payloads ==> #[trigger] checks[i]
}

impl<S: SigningScheme> SigningRunner<S> {
    /// The runner's invariant: the stage has one entry per party and holds
    /// this party's own message while the ceremony runs; every delayed
    /// message is typed for the stage after the current one; a failure
    /// blames participants only, sorted.
    pub open spec fn wf(&self) -> bool {
        &&& self.mapping.wf()
        &&& 1 <= self.own_idx <= self.mapping@.len()
        &&& self.others@ == self.mapping@.remove(self.own_idx - 1)
        &&& self.stage.wf()
        &&& self.stage.stage == signing_rank(self.stage_name)
        &&& self.stage.messages@.len() == self.mapping@.len()
        &&& forall|i: int|
            0 <= i < self.delayed@.len() ==> signing_next(self.stage_name) == Some(
                (#[trigger] self.delayed@[i]).1.spec_stage(),
            )
        &&& self.outcome matches Some(r) ==> result_ok(r, self.mapping@)
        &&& self.outcome matches Some(r) ==> success_checks_recorded(r, self.payloads@.len(), self.signature_checks@)
        &&& self.outcome is None ==> self.stage.messages@[self.own_idx - 1] is Some
    }

    /// Starts a ceremony among the parties of `mapping`, this party being
    /// `own_idx`: publishes this party's commitments and waits for the
    /// others'.
    pub fn new(
        ceremony_id: CeremonyId,
        mapping: PartyIdxMapping,
        own_idx: AuthorityCount,
        payloads: Vec<Vec<u8>>,
        chain: ChainTag,
        scheme: S,
        now: u64,
        stage_timeout: u64,
    ) -> (r: Self)
        requires
            mapping.wf(),
            1 <= own_idx <= mapping@.len(),
        ensures
            r.wf(),
            r.ceremony_id == ceremony_id,
            r.mapping@ == mapping@,
            r.own_idx == own_idx,
            r.delayed@.len() == 0,
            r.started == now,
            mapping@.len() > 1 ==> {
                &&& r.outcome is None
                &&& r.stage_name == SigningStageName::AwaitCommitments1
                &&& r.stage.messages@[own_idx - 1] matches Some(SigningData::CommStage1(_))
                &&& r.stage.messages@ == nothing_received::<SigningData>(mapping@.len()).update(
                    own_idx - 1,
                    r.stage.messages@[own_idx - 1],
                )
                &&& broadcast_sent(
                    Seq::empty(),
                    r.outbox@,
                    mapping@.remove(own_idx - 1),
                    ceremony_id,
                    MultisigDataView::Signing(r.stage.messages@[own_idx - 1]->Some_0@),
                )
            },
    {
        let n = mapping.num_parties();
        let others = others_of(&mapping, own_idx);
        let mut runner = SigningRunner {
            ceremony_id,
            mapping,
            own_idx,
            others,
            payloads,
            chain,
            scheme,
            stage: BroadcastStage::new(0, n),
            stage_name: SigningStageName::AwaitCommitments1,
            delayed: Vec::new(),
            commitments: Vec::new(),
            stage_timeout,
            deadline: deadline_after(now, stage_timeout),
            outcome: None,
            outbox: Vec::new(),
            started: now,
            signature_checks: Vec::new(),
        };
        let commitments = runner.scheme.commit(runner.payloads.len());
        let own = SigningData::CommStage1(Comm1(commitments));
        let ghost own_g = own;
        let ready = runner.open_stage(SigningStageName::AwaitCommitments1, own, now);
        proof {
            let x = nothing_received::<SigningData>(n as nat).update(own_idx - 1, Some(own_g));
            assert(feed(x, 0, Seq::<(AuthorityCount, SigningData)>::empty()) == x);
            if n > 1 {
                let other: int = if own_idx == 1 { 1 } else { 0 };
                assert(x[other] is None);
            }
        }
        if ready {
            runner.advance(now);
        }
        runner
    }

    /// Sends this party's message to every other party, if it fits the
    /// wire format.
    fn broadcast(&mut self, own: &SigningData)
        ensures
            broadcast_sent(
                old(self).outbox@,
                final(self).outbox@,
                old(self).others@,
                old(self).ceremony_id,
                MultisigDataView::Signing(own@),
            ),
            final(self).others == old(self).others,
            final(self).mapping == old(self).mapping,
            final(self).own_idx == old(self).own_idx,
            final(self).ceremony_id == old(self).ceremony_id,
            final(self).chain == old(self).chain,
            final(self).started == old(self).started,
            final(self).stage == old(self).stage,
            final(self).stage_name == old(self).stage_name,
            final(self).delayed == old(self).delayed,
            final(self).outcome == old(self).outcome,
            final(self).commitments == old(self).commitments,
            final(self).payloads == old(self).payloads,
    {
        let data = MultisigData::Signing(own.duplicate());
        if data.is_encodable() {
            let bytes = serialize_for_version(self.ceremony_id, &data, CURRENT_PROTOCOL_VERSION);
            let mut recipients: Vec<AccountId> = Vec::new();
            let mut i: usize = 0;
            while i < self.others.len()
                invariant
                    i <= self.others@.len(),
                    recipients@ == self.others@.subrange(0, i as int),
                decreases self.others@.len() - i,
            {
                recipients.push(self.others[i]);
                i = i + 1;
                assert(recipients@ =~= self.others@.subrange(0, i as int));
            }
            assert(self.others@.subrange(0, i as int) =~= self.others@);
            self.outbox.push(OutgoingMessage { recipients, bytes });
            assert(self.outbox@.drop_last() =~= old(self).outbox@);
        }
    }

    /// Enters stage `name`: broadcasts and keeps this party's message `own`,
    /// restarts the deadline, then hands every delayed message to the new
    /// stage, in the order they arrived. Says whether the stage is complete.
    fn open_stage(&mut self, name: SigningStageName, own: SigningData, now: u64) -> (ready: bool)
        requires
            old(self).mapping.wf(),
            1 <= old(self).own_idx <= old(self).mapping@.len(),
            old(self).outcome is None,
            old(self).others@ == old(self).mapping@.remove(old(self).own_idx - 1),
            own.spec_stage() == name,
            forall|i: int|
                0 <= i < old(self).delayed@.len() ==> (#[trigger] old(self).delayed@[i]).1.spec_stage()
                    == name,
        ensures
            final(self).wf(),
            final(self).stage_name == name,
            final(self).delayed@.len() == 0,
            final(self).outcome is None,
            final(self).mapping == old(self).mapping,
            final(self).own_idx == old(self).own_idx,
            final(self).ceremony_id == old(self).ceremony_id,
            final(self).chain == old(self).chain,
            final(self).started == old(self).started,
            final(self).commitments == old(self).commitments,
            final(self).payloads == old(self).payloads,
            final(self).others == old(self).others,
            ready == crate::broadcast::all_received(final(self).stage.messages@),
            broadcast_sent(
                old(self).outbox@,
                final(self).outbox@,
                old(self).others@,
                old(self).ceremony_id,
                MultisigDataView::Signing(own@),
            ),
            final(self).stage.messages@ == feed(
                nothing_received::<SigningData>(old(self).mapping@.len()).update(
                    old(self).own_idx - 1,
                    Some(own),
                ),
                signing_rank(name),
                old(self).delayed@,
            ),
    {
        let ghost own_g = own;
        let ghost delayed0 = self.delayed@;
        self.broadcast(&own);
        let ghost outbox1 = self.outbox@;
        let n = self.mapping.num_parties();
        self.stage = BroadcastStage::new(crate::stages::signing_stage_rank(name), n);
        self.stage_name = name;
        self.deadline = deadline_after(now, self.stage_timeout);
        let own_idx = self.own_idx;
        let first = self.stage.process_message(own_idx, own);
        let mut ready = first == ProcessMessageResult::Ready;
        let ghost start = self.stage.messages@;
        assert(start == nothing_received::<SigningData>(self.mapping@.len()).update(own_idx - 1, Some(own_g)));
        let mut buf: Vec<(AuthorityCount, SigningData)> = Vec::new();
        std::mem::swap(&mut self.delayed, &mut buf);
        while buf.len() > 0
            invariant
                feed(start, signing_rank(name), delayed0) == feed(self.stage.messages@, signing_rank(name), buf@),
                self.outbox@ == outbox1,
                self.others == old(self).others,
                self.mapping.wf(),
                self.stage.wf(),
                self.stage_name == name,
                self.stage.stage == signing_rank(name),
                self.stage.messages@.len() == self.mapping@.len(),
                1 <= self.own_idx <= self.mapping@.len(),
                self.stage.messages@[self.own_idx - 1] is Some,
                self.delayed@.len() == 0,
                self.outcome is None,
                ready == crate::broadcast::all_received(self.stage.messages@),
                self.mapping == old(self).mapping,
                self.own_idx == old(self).own_idx,
                self.ceremony_id == old(self).ceremony_id,
                self.started == old(self).started,
                self.chain == old(self).chain,
                self.commitments == old(self).commitments,
                self.payloads == old(self).payloads,
            decreases buf@.len(),
        {
            let ghost b0 = buf@;
            let (sender, m) = buf.remove(0);
            assert(b0.skip(1) =~= buf@);
            let res = self.stage.process_message(sender, m);
            if res == ProcessMessageResult::Ready {
                ready = true;
            }
        }
        ready
    }

    /// Ends the ceremony with `result`, dropping what was delayed.
    fn finish(&mut self, result: SigningResult)
        requires
            old(self).mapping.wf(),
            1 <= old(self).own_idx <= old(self).mapping@.len(),
            old(self).stage.wf(),
            old(self).others@ == old(self).mapping@.remove(old(self).own_idx - 1),
            old(self).stage.stage == signing_rank(old(self).stage_name),
            old(self).stage.messages@.len() == old(self).mapping@.len(),
            result_ok(result, old(self).mapping@),
            success_checks_recorded(result, old(self).payloads@.len(), old(self).signature_checks@),
        ensures
            final(self).wf(),
            final(self).outcome == Some(result),
            final(self).delayed@.len() == 0,
            final(self).stage == old(self).stage,
            final(self).stage_name == old(self).stage_name,
            final(self).mapping == old(self).mapping,
            final(self).own_idx == old(self).own_idx,
            final(self).ceremony_id == old(self).ceremony_id,
            final(self).chain == old(self).chain,
            final(self).started == old(self).started,
            final(self).outbox == old(self).outbox,
            final(self).others == old(self).others,
            final(self).commitments == old(self).commitments,
            final(self).payloads == old(self).payloads,
    {
        self.outcome = Some(result);
        self.delayed = Vec::new();
    }

    /// The failure `reason` blaming the parties `idxs`.
    fn failure(&self, idxs: &Vec<AuthorityCount>, reason: FailureReason) -> (r: SigningResult)
        requires
            self.mapping.wf(),
            idx_list_ok(idxs@, self.mapping@.len()),
        ensures
            result_ok(r, self.mapping@),
            r matches Err((b, why)) && why == reason && b@.len() == idxs@.len() && forall|k: int|
                0 <= k < idxs@.len() ==> #[trigger] b@[k] == self.mapping@[idxs@[k] - 1],
    {
        Err((idxs_to_ids(&self.mapping, idxs), reason))
    }

    /// Finishes the current stage with the messages collected (absent ones
    /// as nothing) and computes what follows.
    fn process_stage(&mut self) -> (r: StageOutcome)
        requires
            old(self).wf(),
            old(self).outcome is None,
        ensures
            final(self).mapping == old(self).mapping,
            final(self).own_idx == old(self).own_idx,
            final(self).ceremony_id == old(self).ceremony_id,
            final(self).chain == old(self).chain,
            final(self).started == old(self).started,
            final(self).stage == old(self).stage,
            final(self).stage_name == old(self).stage_name,
            final(self).delayed == old(self).delayed,
            final(self).outcome == old(self).outcome,
            final(self).payloads == old(self).payloads,
            final(self).others == old(self).others,
            final(self).outbox == old(self).outbox,
            r matches StageOutcome::NextStage(own) ==> signing_next(old(self).stage_name) == Some(
                own.spec_stage(),
            ),
            old(self).stage_name == SigningStageName::AwaitCommitments1 ==> (r matches StageOutcome::NextStage(
                SigningData::BroadcastVerificationStage2(m),
            ) && m@ == comm_reports(old(self).stage.messages@)),
            old(self).stage_name == SigningStageName::VerifyCommitmentsBroadcast2 && (exists|x: int|
                0 <= x < old(self).mapping@.len() && #[trigger] blamed(commit_reports_of(old(self).stage.messages@), x))
                ==> (r matches StageOutcome::Done(Err((b, reason))) && reason == FailureReason::BroadcastFailure
                && broadcast_blame(b@, commit_reports_of(old(self).stage.messages@), old(self).mapping@)),
            old(self).stage_name == SigningStageName::VerifyLocalSigsBroadcastStage4 && (exists|x: int|
                0 <= x < old(self).mapping@.len() && #[trigger] blamed(sig_reports_of(old(self).stage.messages@), x))
                ==> (r matches StageOutcome::Done(Err((b, reason))) && reason == FailureReason::BroadcastFailure
                && broadcast_blame(b@, sig_reports_of(old(self).stage.messages@), old(self).mapping@)),
            old(self).stage_name == SigningStageName::VerifyCommitmentsBroadcast2 && !(exists|x: int|
                0 <= x < old(self).mapping@.len() && #[trigger] blamed(commit_reports_of(old(self).stage.messages@), x))
                && (exists|x: int| 0 <= x < old(self).mapping@.len() && !#[trigger] count_checks(
                commit_reports_of(old(self).stage.messages@),
                old(self).payloads@.len(),
            )[x]) ==> (r matches StageOutcome::Done(Err((b, reason))) && reason
                == FailureReason::InvalidContribution && failing_accounts(
                b@,
                count_checks(commit_reports_of(old(self).stage.messages@), old(self).payloads@.len()),
                old(self).mapping@,
            )),
            old(self).stage_name == SigningStageName::VerifyCommitmentsBroadcast2 && !(exists|x: int|
                0 <= x < old(self).mapping@.len() && #[trigger] blamed(commit_reports_of(old(self).stage.messages@), x))
                && !(exists|x: int| 0 <= x < old(self).mapping@.len() && !#[trigger] count_checks(
                commit_reports_of(old(self).stage.messages@),
                old(self).payloads@.len(),
            )[x]) ==> r is NextStage && final(self).commitments@.map_values(|c: Comm1| c@) == Seq::new(
                old(self).mapping@.len(),
                |s: int| agreed(commit_reports_of(old(self).stage.messages@), s),
            ),
            old(self).stage_name != SigningStageName::VerifyCommitmentsBroadcast2 ==> final(self).commitments
                == old(self).commitments,
            old(self).stage_name == SigningStageName::LocalSigStage3 ==> (r matches StageOutcome::NextStage(
                SigningData::VerifyLocalSigsStage4(m),
            ) && m@ == sig_reports(old(self).stage.messages@)),
            r matches StageOutcome::Done(res) ==> result_ok(res, old(self).mapping@)
                && success_checks_recorded(res, final(self).payloads@.len(), final(self).signature_checks@),
    {
        let n = self.mapping.num_parties();
        match self.stage_name {
            SigningStageName::AwaitCommitments1 => {
                let mut data: Vec<Option<Comm1>> = Vec::new();
                let mut k: usize = 0;
                while k < self.stage.messages.len()
                    invariant
                        k <= self.stage.messages@.len(),
                        crate::messages::opts_view(data@) == comm_reports(self.stage.messages@.subrange(0, k as int)),
                    decreases self.stage.messages@.len() - k,
                {
                    let item = match &self.stage.messages[k] {
                        Some(SigningData::CommStage1(c)) => Some(c.duplicate()),
                        _ => None,
                    };
                    assert(crate::messages::opt_view(item) == comm_reports(self.stage.messages@)[k as int]);
                    let ghost d0 = crate::messages::opts_view(data@);
                    data.push(item);
                    assert(crate::messages::opts_view(data@) =~= d0.push(crate::messages::opt_view(item)));
                    assert(comm_reports(self.stage.messages@.subrange(0, k + 1)) =~= comm_reports(
                        self.stage.messages@.subrange(0, k as int),
                    ).push(comm_reports(self.stage.messages@)[k as int]));
                    k = k + 1;
                    assert(crate::messages::opts_view(data@) =~= comm_reports(self.stage.messages@.subrange(0, k as int)));
                }
                assert(self.stage.messages@.subrange(0, k as int) =~= self.stage.messages@);
                StageOutcome::NextStage(
                    SigningData::BroadcastVerificationStage2(BroadcastVerificationMessage { data }),
                )
            },
            SigningStageName::VerifyCommitmentsBroadcast2 => {
                let mut reports: Vec<Option<BroadcastVerificationMessage<Comm1>>> = Vec::new();
                let mut k: usize = 0;
                while k < self.stage.messages.len()
                    invariant
                        k <= self.stage.messages@.len(),
                        reports@.len() == k,
                        forall|r: int|
                            0 <= r < k ==> (#[trigger] reports@[r] matches Some(m) ==> m.data@.len()
                                == self.stage.messages@.len()),
                        crate::verification::reports_view(reports@) == commit_reports_of(self.stage.messages@).take(k as int),
                    decreases self.stage.messages@.len() - k,
                {
                    let ghost rv0 = crate::verification::reports_view(reports@);
                    let item = match &self.stage.messages[k] {
                        Some(SigningData::BroadcastVerificationStage2(m)) => {
                            if m.data.len() == self.stage.messages.len() {
                                let d = m.duplicate();
                                assert(d.data@.len() == d@.len() && m.data@.len() == m@.len());
                                Some(d)
                            } else {
                                None
                            }
                        },
                        _ => None,
                    };
                    proof {
                        assert(crate::verification::reports_view(seq![item])[0] == commit_reports_of(self.stage.messages@)[k as int]);
                    }
                    reports.push(item);
                    k = k + 1;
                    proof {
                        assert(crate::verification::reports_view(reports@) =~= commit_reports_of(self.stage.messages@).take(k as int)) by {
                            assert(crate::verification::reports_view(reports@) =~= rv0.push(crate::verification::reports_view(seq![item])[0]));
                        }
                    }
                }
                proof {
                    lemma_reports_sized(reports@);
                }
                proof {
                    assert(self.stage.messages@.len() == n);
                    assert(commit_reports_of(self.stage.messages@).take(n as int) =~= commit_reports_of(self.stage.messages@));
                }
                match verify_broadcasts(&reports) {
                    Err(blamed) => {
                        let res = self.failure(&blamed, FailureReason::BroadcastFailure);
                        proof {
                            lemma_blame_ids(res, blamed@, commit_reports_of(self.stage.messages@), self.mapping@);
                        }
                        StageOutcome::Done(res)
                    },
                    Ok(comms) => {
                        let ghost rv = commit_reports_of(self.stage.messages@);
                        proof {
                            assert forall|q: int| 0 <= q < comms@.len() implies #[trigger] comms@[q]@ == agreed(rv, q) by {
                                crate::verification::lemma_majority_unique(rv, q, comms@[q]@);
                            }
                        }
                        let mut sizes_ok: Vec<bool> = Vec::new();
                        let mut k: usize = 0;
                        while k < comms.len()
                            invariant
                                k <= comms@.len(),
                                sizes_ok@.len() == k,
                                comms@.len() == rv.len(),
                                forall|q: int| 0 <= q < k ==> #[trigger] sizes_ok@[q] == count_checks(rv, self.payloads@.len())[q],
                                forall|q: int| 0 <= q < comms@.len() ==> #[trigger] comms@[q]@ == agreed(rv, q),
                            decreases comms@.len() - k,
                        {
                            assert(comms@[k as int]@.len() == comms@[k as int].0@.len());
                            sizes_ok.push(comms[k].0.len() == self.payloads.len());
                            k = k + 1;
                        }
                        assert(sizes_ok@ =~= count_checks(rv, self.payloads@.len()));
                        let bad = failed_idxs(&sizes_ok);
                        if bad.len() > 0 {
                            let res = self.failure(&bad, FailureReason::InvalidContribution);
                            proof {
                                lemma_failing_ids(res, sizes_ok@, bad@, self.mapping@);
                                assert(bad@[0] >= 1);
                                assert(!sizes_ok@[bad@[0] - 1]) by {
                                    lemma_failed_idx_sound(sizes_ok@, sizes_ok@.len() as int);
                                }
                            }
                            return StageOutcome::Done(res);
                        }
                        proof {
                            assert forall|x: int| 0 <= x < sizes_ok@.len() implies #[trigger] sizes_ok@[x] by {
                                if !sizes_ok@[x] {
                                    lemma_failed_idx_complete(sizes_ok@, sizes_ok@.len() as int, x);
                                }
                            }
                            assert(comms@.map_values(|c: Comm1| c@) =~= Seq::new(rv.len(), |q: int| agreed(rv, q)));
                        }
                        self.commitments = comms;
                        let responses = self.scheme.respond(&self.commitments, &self.payloads);
                        StageOutcome::NextStage(SigningData::LocalSigStage3(LocalSig3 { responses }))
                    },
                }
            },
            SigningStageName::LocalSigStage3 => {
                let mut data: Vec<Option<LocalSig3>> = Vec::new();
                let mut k: usize = 0;
                while k < self.stage.messages.len()
                    invariant
                        k <= self.stage.messages@.len(),
                        crate::messages::opts_view(data@) == sig_reports(self.stage.messages@.subrange(0, k as int)),
                    decreases self.stage.messages@.len() - k,
                {
                    let item = match &self.stage.messages[k] {
                        Some(SigningData::LocalSigStage3(c)) => Some(c.duplicate()),
                        _ => None,
                    };
                    assert(crate::messages::opt_view(item) == sig_reports(self.stage.messages@)[k as int]);
                    let ghost d0 = crate::messages::opts_view(data@);
                    data.push(item);
                    assert(crate::messages::opts_view(data@) =~= d0.push(crate::messages::opt_view(item)));
                    assert(sig_reports(self.stage.messages@.subrange(0, k + 1)) =~= sig_reports(
                        self.stage.messages@.subrange(0, k as int),
                    ).push(sig_reports(self.stage.messages@)[k as int]));
                    k = k + 1;
                    assert(crate::messages::opts_view(data@) =~= sig_reports(self.stage.messages@.subrange(0, k as int)));
                }
                assert(self.stage.messages@.subrange(0, k as int) =~= self.stage.messages@);
                StageOutcome::NextStage(
                    SigningData::VerifyLocalSigsStage4(BroadcastVerificationMessage { data }),
                )
            },
            SigningStageName::VerifyLocalSigsBroadcastStage4 => {
                let mut reports: Vec<Option<BroadcastVerificationMessage<LocalSig3>>> = Vec::new();
                let mut k: usize = 0;
                while k < self.stage.messages.len()
                    invariant
                        k <= self.stage.messages@.len(),
                        reports@.len() == k,
                        forall|r: int|
                            0 <= r < k ==> (#[trigger] reports@[r] matches Some(m) ==> m.data@.len()
                                == self.stage.messages@.len()),
                        crate::verification::reports_view(reports@) == sig_reports_of(self.stage.messages@).take(k as int),
                    decreases self.stage.messages@.len() - k,
                {
                    let ghost rv0 = crate::verification::reports_view(reports@);
                    let item = match &self.stage.messages[k] {
                        Some(SigningData::VerifyLocalSigsStage4(m)) => {
                            if m.data.len() == self.stage.messages.len() {
                                let d = m.duplicate();
                                assert(d.data@.len() == d@.len() && m.data@.len() == m@.len());
                                Some(d)
                            } else {
                                None
                            }
                        },
                        _ => None,
                    };
                    proof {
                        assert(crate::verification::reports_view(seq![item])[0] == sig_reports_of(self.stage.messages@)[k as int]);
                    }
                    reports.push(item);
                    k = k + 1;
                    proof {
                        assert(crate::verification::reports_view(reports@) =~= sig_reports_of(self.stage.messages@).take(k as int)) by {
                            assert(crate::verification::reports_view(reports@) =~= rv0.push(crate::verification::reports_view(seq![item])[0]));
                        }
                    }
                }
                proof {
                    lemma_reports_sized(reports@);
                }
                proof {
                    assert(self.stage.messages@.len() == n);
                    assert(sig_reports_of(self.stage.messages@).take(n as int) =~= sig_reports_of(self.stage.messages@));
                }
                match verify_broadcasts(&reports) {
                    Err(blamed) => {
                        let res = self.failure(&blamed, FailureReason::BroadcastFailure);
                        proof {
                            lemma_blame_ids(res, blamed@, sig_reports_of(self.stage.messages@), self.mapping@);
                        }
                        StageOutcome::Done(res)
                    },
                    Ok(sigs) => {
                        let mut sizes_ok: Vec<bool> = Vec::new();
                        let mut k: usize = 0;
                        while k < sigs.len()
                            invariant
                                k <= sigs@.len(),
                                sizes_ok@.len() == k,
                            decreases sigs@.len() - k,
                        {
                            sizes_ok.push(sigs[k].responses.len() == self.payloads.len());
                            k = k + 1;
                        }
                        let bad = failed_idxs(&sizes_ok);
                        if bad.len() > 0 {
                            return StageOutcome::Done(
                                self.failure(&bad, FailureReason::InvalidContribution),
                            );
                        }
                        let signatures = self.scheme.aggregate(
                            &self.commitments,
                            &self.payloads,
                            &sigs,
                        );
                        let mut signature_ok: Vec<bool> = Vec::new();
                        let mut i: usize = 0;
                        while i < self.payloads.len()
                            invariant
                                i <= self.payloads@.len(),
                                signature_ok@.len() == i,
                            decreases self.payloads@.len() - i,
                        {
                            let ok = i < signatures.len() && self.scheme.verify_signature(
                                &self.payloads[i],
                                &signatures[i],
                            );
                            signature_ok.push(ok);
                            i = i + 1;
                        }
                        let mut response_ok: Vec<bool> = Vec::new();
                        let mut k: usize = 0;
                        while k < sigs.len()
                            invariant
                                k <= sigs@.len(),
                                sigs@.len() == n,
                                response_ok@.len() == k,
                            decreases sigs@.len() - k,
                        {
                            let ok = self.scheme.verify_local_sig(
                                &self.commitments,
                                &self.payloads,
                                (k + 1) as AuthorityCount,
                                &sigs[k],
                            );
                            response_ok.push(ok);
                            k = k + 1;
                        }
                        let result = signing_outcome(
                            &self.mapping,
                            signatures,
                            self.payloads.len(),
                            &signature_ok,
                            &response_ok,
                        );
                        self.signature_checks = signature_ok;
                        StageOutcome::Done(result)
                    },
                }
            },
        }
    }

    /// Finishes stages for as long as the next one is complete as soon as it
    /// opens (its messages all arrived early), and stops at the first stage
    /// still waiting or at the end of the ceremony.
    fn advance(&mut self, now: u64)
        requires
            old(self).wf(),
            old(self).outcome is None,
        ensures
            final(self).wf(),
            final(self).delayed@.len() == 0,
            final(self).mapping == old(self).mapping,
            final(self).own_idx == old(self).own_idx,
            final(self).ceremony_id == old(self).ceremony_id,
            final(self).started == old(self).started,
            final(self).chain == old(self).chain,
            final(self).outcome is Some || signing_rank(final(self).stage_name) > signing_rank(
                old(self).stage_name,
            ),
            signing_rank(final(self).stage_name) >= signing_rank(old(self).stage_name),
            old(self).stage_name == SigningStageName::AwaitCommitments1 || old(self).stage_name
                == SigningStageName::LocalSigStage3 ==> signing_rank(final(self).stage_name) > signing_rank(
                old(self).stage_name,
            ),
            final(self).outcome is None ==> !all_received(final(self).stage.messages@),
            old(self).stage_name == SigningStageName::AwaitCommitments1 && old(self).delayed@.len() == 0
                && old(self).mapping@.len() > 1 ==> final(self).outcome is None && final(self).stage_name
                == SigningStageName::VerifyCommitmentsBroadcast2,
            final(self).outcome is None && signing_next(old(self).stage_name) == Some(final(self).stage_name)
                ==> exists|own: SigningData| #[trigger] opened_with(*old(self), old(self).stage.messages@, *final(self), own),
            final(self).payloads == old(self).payloads,
            old(self).stage_name == SigningStageName::VerifyCommitmentsBroadcast2 ==> verify_commitments_result(
                old(self).stage.messages@,
                old(self).mapping@,
                old(self).payloads@.len(),
                *final(self),
            ),
            old(self).stage_name == SigningStageName::VerifyLocalSigsBroadcastStage4 && (exists|x: int|
                0 <= x < old(self).mapping@.len() && #[trigger] blamed(sig_reports_of(old(self).stage.messages@), x))
                ==> (final(self).outcome matches Some(Err((b, reason))) && reason == FailureReason::BroadcastFailure
                && broadcast_blame(b@, sig_reports_of(old(self).stage.messages@), old(self).mapping@)),
    {
        let first = self.stage_name;
        match self.process_stage() {
            StageOutcome::NextStage(own) => {
                let name = own.stage();
                proof {
                    assert forall|i: int| 0 <= i < self.delayed@.len() implies (
                    #[trigger] self.delayed@[i]).1.spec_stage() == name by {
                        assert(signing_next(first) == Some(self.delayed@[i].1.spec_stage()));
                    }
                }
                let ghost own_g = own;
                let ghost delayed0 = self.delayed@;
                let ready = self.open_stage(name, own, now);
                proof {
                    if first == SigningStageName::AwaitCommitments1 && delayed0.len() == 0
                        && self.mapping@.len() > 1 {
                        let x = nothing_received::<SigningData>(self.mapping@.len()).update(
                            self.own_idx - 1,
                            Some(own_g),
                        );
                        assert(feed(x, signing_rank(name), delayed0) == x);
                        let other: int = if self.own_idx == 1 { 1 } else { 0 };
                        assert(x[other] is None);
                        assert(!ready);
                    }
                }
                if !ready {
                    assert(opened_with(*old(self), old(self).stage.messages@, *self, own_g));
                    return;
                }
            },
            StageOutcome::Done(result) => {
                self.finish(result);
                return;
            },
        }
        loop
            invariant
                self.wf(),
                self.outcome is None,
                signing_rank(self.stage_name) > signing_rank(old(self).stage_name),
                self.mapping == old(self).mapping,
                self.own_idx == old(self).own_idx,
                self.ceremony_id == old(self).ceremony_id,
                self.started == old(self).started,
                self.chain == old(self).chain,
                !(old(self).stage_name == SigningStageName::AwaitCommitments1 && old(self).delayed@.len() == 0
                    && old(self).mapping@.len() > 1),
                self.payloads == old(self).payloads,
                old(self).stage_name == SigningStageName::VerifyCommitmentsBroadcast2 ==> verify_commitments_result(
                    old(self).stage.messages@,
                    old(self).mapping@,
                    old(self).payloads@.len(),
                    *self,
                ),
                old(self).stage_name == SigningStageName::VerifyCommitmentsBroadcast2 ==> !(exists|x: int|
                    0 <= x < old(self).mapping@.len() && #[trigger] blamed(commit_reports_of(old(self).stage.messages@), x)),
                old(self).stage_name == SigningStageName::VerifyLocalSigsBroadcastStage4 ==> !(exists|x: int|
                    0 <= x < old(self).mapping@.len() && #[trigger] blamed(sig_reports_of(old(self).stage.messages@), x)),
            decreases 4 - signing_rank(self.stage_name),
        {
            let current = self.stage_name;
            match self.process_stage() {
                StageOutcome::NextStage(own) => {
                    let name = own.stage();
                    proof {
                        assert forall|i: int| 0 <= i < self.delayed@.len() implies (
                        #[trigger] self.delayed@[i]).1.spec_stage() == name by {
                            assert(signing_next(current) == Some(self.delayed@[i].1.spec_stage()));
                        }
                    }
                    let ready = self.open_stage(name, own, now);
                    if !ready {
                        return;
                    }
                },
                StageOutcome::Done(result) => {
                    self.finish(result);
                    return;
                },
            }
        }
    }

    /// The ceremony is running and `data` passes the size check for its
    /// stage.
    pub open spec fn takes(&self, data: SigningData) -> bool {
        &&& self.outcome is None
        &&& data.spec_data_size_is_valid(self.mapping@.len() as AuthorityCount, self.chain)
    }

    /// What handling a message from `sender` guarantees of the runner `r`
    /// that results: the invariant and identity are kept, a finished ceremony
    /// stays finished, a change of stage empties the delay buffer, a message
    /// of the next stage is delayed, one of the current stage is recorded, and
    /// a stage that this message completes is left.
    pub open spec fn handles(&self, r: Self, sender: AuthorityCount, data: SigningData) -> bool {
        &&& r.wf()
        &&& r.mapping == self.mapping
        &&& r.chain == self.chain
        &&& r.own_idx == self.own_idx
        &&& r.ceremony_id == self.ceremony_id
        &&& r.started == self.started
        &&& self.outcome is Some ==> r.outcome == self.outcome
        &&& r.stage_name != self.stage_name ==> r.delayed@.len() == 0
        &&& signing_rank(r.stage_name) >= signing_rank(self.stage_name)
        &&& self.takes(data) && self.stage.accepts(sender, data) && all_received(
            self.stage.messages@.update(sender - 1, Some(data)),
        ) && (self.stage_name == SigningStageName::AwaitCommitments1 || self.stage_name
            == SigningStageName::LocalSigStage3) ==> signing_rank(r.stage_name) > signing_rank(self.stage_name)
        &&& self.takes(data) && self.stage.accepts(sender, data) && all_received(
            self.stage.messages@.update(sender - 1, Some(data)),
        ) && self.stage_name == SigningStageName::VerifyCommitmentsBroadcast2 ==> verify_commitments_result(
            self.stage.messages@.update(sender - 1, Some(data)),
            self.mapping@,
            self.payloads@.len(),
            r,
        )
        &&& self.takes(data) && self.stage.accepts(sender, data) && all_received(
            self.stage.messages@.update(sender - 1, Some(data)),
        ) && self.stage_name == SigningStageName::VerifyLocalSigsBroadcastStage4 && (exists|x: int|
            0 <= x < self.mapping@.len() && #[trigger] blamed(
                sig_reports_of(self.stage.messages@.update(sender - 1, Some(data))),
                x,
            )) ==> (r.outcome matches Some(Err((b, reason))) && reason == FailureReason::BroadcastFailure
            && broadcast_blame(
            b@,
            sig_reports_of(self.stage.messages@.update(sender - 1, Some(data))),
            self.mapping@,
        ))
        &&& self.outcome is None && self.delayed@.len() == 0 && self.mapping@.len() > 1
            && data.spec_stage() == SigningStageName::AwaitCommitments1 && (self.stage_name
            == SigningStageName::AwaitCommitments1 || self.stage_name
            == SigningStageName::VerifyCommitmentsBroadcast2) ==> r.outcome is None && r.delayed@.len() == 0
            && (r.stage_name == SigningStageName::AwaitCommitments1 || r.stage_name
            == SigningStageName::VerifyCommitmentsBroadcast2)
        &&& r.outcome is None && r.stage_name == self.stage_name ==> forall|k: int|
            0 <= k < self.stage.messages@.len() && self.stage.messages@[k] is Some
                ==> #[trigger] r.stage.messages@[k] == self.stage.messages@[k]
        &&& self.takes(data) && signing_next(self.stage_name) == Some(data.spec_stage()) ==> r.delayed@
            == self.delayed@.push((sender, data)) && r.stage == self.stage
        &&& self.takes(data) && self.stage.accepts(sender, data) && !all_received(
            self.stage.messages@.update(sender - 1, Some(data)),
        ) ==> r.stage.messages@ == self.stage.messages@.update(sender - 1, Some(data)) && r.delayed
            == self.delayed
        &&& self.takes(data) && self.stage.accepts(sender, data) && all_received(
            self.stage.messages@.update(sender - 1, Some(data)),
        ) ==> r.outcome is Some || signing_rank(r.stage_name) > signing_rank(self.stage_name)
    }

    /// Handles a message of this ceremony from party `sender`. A message of
    /// the current stage goes to the stage; one of the next stage is kept
    /// until that stage opens; anything else, and anything malformed, is
    /// dropped. A finished ceremony ignores all messages.
    pub fn process_message(&mut self, sender: AuthorityCount, data: SigningData, now: u64)
        requires
            old(self).wf(),
        ensures
            old(self).handles(*final(self), sender, data),
            old(self).outcome is None && old(self).delayed@.len() == 0 && old(self).mapping@.len() > 1
                && data.spec_stage() == SigningStageName::AwaitCommitments1 && (old(self).stage_name
                == SigningStageName::AwaitCommitments1 || old(self).stage_name
                == SigningStageName::VerifyCommitmentsBroadcast2) ==> final(self).outcome is None
                && final(self).delayed@.len() == 0 && (final(self).stage_name
                == SigningStageName::AwaitCommitments1 || final(self).stage_name
                == SigningStageName::VerifyCommitmentsBroadcast2),
            final(self).wf(),
            final(self).mapping == old(self).mapping,
            final(self).own_idx == old(self).own_idx,
            final(self).ceremony_id == old(self).ceremony_id,
            final(self).chain == old(self).chain,
            final(self).started == old(self).started,
            old(self).outcome is Some ==> final(self).outcome == old(self).outcome,
            final(self).stage_name != old(self).stage_name ==> final(self).delayed@.len() == 0,
            old(self).takes(data) && signing_next(old(self).stage_name) == Some(data.spec_stage())
                ==> final(self).delayed@ == old(self).delayed@.push((sender, data)) && final(self).stage
                == old(self).stage,
            old(self).takes(data) && old(self).stage.accepts(sender, data)
                && !crate::broadcast::all_received(old(self).stage.messages@.update(sender - 1, Some(data)))
                ==> final(self).stage.messages@ == old(self).stage.messages@.update(sender - 1, Some(data))
                && final(self).delayed == old(self).delayed,
            old(self).takes(data) && old(self).stage.accepts(sender, data)
                && all_received(old(self).stage.messages@.update(sender - 1, Some(data)))
                ==> final(self).outcome is Some || signing_rank(final(self).stage_name) > signing_rank(
                old(self).stage_name,
            ),
            old(self).takes(data) && old(self).stage.accepts(sender, data)
                && all_received(old(self).stage.messages@.update(sender - 1, Some(data)))
                && final(self).outcome is None && signing_next(old(self).stage_name) == Some(final(self).stage_name)
                ==> exists|own: SigningData| #[trigger] opened_with(
                    *old(self),
                    old(self).stage.messages@.update(sender - 1, Some(data)),
                    *final(self),
                    own,
                ),
            old(self).takes(data) && old(self).stage.accepts(sender, data)
                && all_received(old(self).stage.messages@.update(sender - 1, Some(data)))
                && old(self).stage_name == SigningStageName::VerifyCommitmentsBroadcast2
                ==> verify_commitments_result(
                old(self).stage.messages@.update(sender - 1, Some(data)),
                old(self).mapping@,
                old(self).payloads@.len(),
                *final(self),
            ),
            old(self).takes(data) && old(self).stage.accepts(sender, data)
                && all_received(old(self).stage.messages@.update(sender - 1, Some(data)))
                && old(self).stage_name == SigningStageName::VerifyLocalSigsBroadcastStage4 && (exists|x: int|
                0 <= x < old(self).mapping@.len() && #[trigger] blamed(
                    sig_reports_of(old(self).stage.messages@.update(sender - 1, Some(data))),
                    x,
                )) ==> (final(self).outcome matches Some(Err((b, reason))) && reason
                == FailureReason::BroadcastFailure && broadcast_blame(
                b@,
                sig_reports_of(old(self).stage.messages@.update(sender - 1, Some(data))),
                old(self).mapping@,
            )),
    {
        if self.outcome.is_some() {
            return;
        }
        let n = self.mapping.num_parties();
        if !data.data_size_is_valid(n, self.chain) {
            return;
        }
        if data.stage() == self.stage_name {
            let res = self.stage.process_message(sender, data);
            if res == ProcessMessageResult::Ready {
                let ghost mid = *self;
                self.advance(now);
                proof {
                    if self.outcome is None && signing_next(old(self).stage_name) == Some(self.stage_name) {
                        let own = choose|own: SigningData| #[trigger] opened_with(mid, mid.stage.messages@, *self, own);
                        assert(opened_with(*old(self), mid.stage.messages@, *self, own));
                    }
                }
            }
        } else if SigningData::should_delay(self.stage_name, &data) {
            self.delayed.push((sender, data));
        }
    }

    /// Which parties' messages for the current stage have arrived.
    pub fn received_flags(&self) -> (r: Vec<bool>)
        ensures
            r@ == received_flags(self.stage.messages@),
    {
        let mut r: Vec<bool> = Vec::new();
        let mut k: usize = 0;
        while k < self.stage.messages.len()
            invariant
                k <= self.stage.messages@.len(),
                r@ == received_flags(self.stage.messages@.subrange(0, k as int)),
            decreases self.stage.messages@.len() - k,
        {
            r.push(self.stage.messages[k].is_some());
            k = k + 1;
            assert(r@ =~= received_flags(self.stage.messages@.subrange(0, k as int)));
        }
        assert(self.stage.messages@.subrange(0, k as int) =~= self.stage.messages@);
        r
    }

    /// At or after the stage deadline: if some party's message is missing,
    /// the ceremony fails with a timeout blaming exactly the missing parties;
    /// otherwise the stage finishes as if complete. Before the deadline, or
    /// once finished, nothing happens.
    pub fn on_timeout(&mut self, now: u64)
        requires
            old(self).wf(),
        ensures
            final(self).wf(),
            final(self).mapping == old(self).mapping,
            final(self).ceremony_id == old(self).ceremony_id,
            final(self).chain == old(self).chain,
            final(self).started == old(self).started,
            old(self).outcome is Some || now < old(self).deadline
                ==> final(self).outcome == old(self).outcome && final(self).stage == old(self).stage
                && final(self).stage_name == old(self).stage_name,
            old(self).outcome is None && now >= old(self).deadline
                && !crate::broadcast::all_received(old(self).stage.messages@)
                ==> (final(self).outcome matches Some(Err((b, reason))) && reason == FailureReason::Timeout
                && b@ == failed_ids(received_flags(old(self).stage.messages@), old(self).mapping@)),
            old(self).outcome is None && now >= old(self).deadline ==> final(self).outcome is Some
                || signing_rank(final(self).stage_name) > signing_rank(old(self).stage_name),
            old(self).outcome is None && now >= old(self).deadline && all_received(old(self).stage.messages@)
                && (old(self).stage_name == SigningStageName::AwaitCommitments1 || old(self).stage_name
                == SigningStageName::LocalSigStage3) ==> signing_rank(final(self).stage_name) > signing_rank(
                old(self).stage_name,
            ),
            old(self).outcome is None && now >= old(self).deadline && all_received(old(self).stage.messages@)
                && final(self).outcome is None && signing_next(old(self).stage_name) == Some(final(self).stage_name)
                ==> exists|own: SigningData| #[trigger] opened_with(*old(self), old(self).stage.messages@, *final(self), own),
            old(self).outcome is None && now >= old(self).deadline && all_received(old(self).stage.messages@)
                && old(self).stage_name == SigningStageName::VerifyCommitmentsBroadcast2
                ==> verify_commitments_result(
                old(self).stage.messages@,
                old(self).mapping@,
                old(self).payloads@.len(),
                *final(self),
            ),
            old(self).outcome is None && now >= old(self).deadline && all_received(old(self).stage.messages@)
                && old(self).stage_name == SigningStageName::VerifyLocalSigsBroadcastStage4 && (exists|x: int|
                0 <= x < old(self).mapping@.len() && #[trigger] blamed(sig_reports_of(old(self).stage.messages@), x))
                ==> (final(self).outcome matches Some(Err((b, reason))) && reason == FailureReason::BroadcastFailure
                && broadcast_blame(b@, sig_reports_of(old(self).stage.messages@), old(self).mapping@)),
    {
        if self.outcome.is_some() || now < self.deadline {
            return;
        }
        let flags = self.received_flags();
        let missing = failed_idxs(&flags);
        if missing.len() > 0 {
            proof {
                lemma_failed_idx_sound(flags@, flags@.len() as int);
                lemma_failed_idx_bounds(flags@, flags@.len() as int);
                assert(!flags@[missing@[0] - 1]);
                assert(self.stage.messages@[missing@[0] - 1] is None);
            }
            let ids = idxs_to_ids(&self.mapping, &missing);
            proof {
                assert(ids@ =~= failed_ids(flags@, self.mapping@));
            }
            self.finish(Err((ids, FailureReason::Timeout)));
        } else {
            proof {
                assert forall|k: int| 0 <= k < self.stage.messages@.len() implies #[trigger] self.stage.messages@[k] is Some by {
                    if self.stage.messages@[k] is None {
                        assert(!flags@[k]);
                        lemma_failed_idx_complete(flags@, flags@.len() as int, k);
                        assert(missing@.contains((k + 1) as AuthorityCount));
                    }
                }
            }
            self.advance(now);
        }
    }

    /// Ends a ceremony that ran past its overall time limit: a timeout
    /// blaming the parties still awaited in the current stage. A finished
    /// ceremony is left as it is.
    pub fn cancel(&mut self)
        requires
            old(self).wf(),
        ensures
            final(self).wf(),
            final(self).outcome is Some,
            final(self).mapping == old(self).mapping,
            final(self).ceremony_id == old(self).ceremony_id,
            final(self).chain == old(self).chain,
            old(self).outcome is Some ==> final(self).outcome == old(self).outcome,
            old(self).outcome is None ==> (final(self).outcome matches Some(Err((b, reason)))
                && reason == FailureReason::Timeout
                && b@ == failed_ids(received_flags(old(self).stage.messages@), old(self).mapping@)),
    {
        if self.outcome.is_some() {
            return;
        }
        let flags = self.received_flags();
        let missing = failed_idxs(&flags);
        let ids = idxs_to_ids(&self.mapping, &missing);
        proof {
            assert(ids@ =~= failed_ids(flags@, self.mapping@));
        }
        self.finish(Err((ids, FailureReason::Timeout)));
    }

    /// Takes the messages waiting to be sent.
    pub fn take_outgoing(&mut self) -> (r: Vec<OutgoingMessage>)
        requires
            old(self).wf(),
        ensures
            final(self).wf(),
            r@ == old(self).outbox@,
            final(self).outbox@.len() == 0,
            *final(self) == (SigningRunner { outbox: final(self).outbox, ..*old(self) }),
    {
        let mut r: Vec<OutgoingMessage> = Vec::new();
        std::mem::swap(&mut self.outbox, &mut r);
        r
    }
}

/// A signing ceremony that succeeded produced one signature per payload,
/// and the verdict recorded for each of them is a pass. What a verdict means
/// is up to the scheme: this library states no property of its calls.
pub proof fn lemma_success_checks_pass<S: SigningScheme>(r: &SigningRunner<S>)
    requires
        r.wf(),
    ensures
        r.outcome matches Some(Ok(sigs)) ==> sigs@.len() == r.payloads@.len()
            && r.signature_checks@.len() == r.payloads@.len() && forall|i: int|
            0 <= i < r.payloads@.len() ==> #[trigger] r.signature_checks@[i],
{
}

/// A check that failed shows up among the failed indices.
pub proof fn lemma_failed_idx_complete(ok: Seq<bool>, k: int, i: int)
    requires
        0 <= i < k <= ok.len(),
        !ok[i],
    ensures
        failed_idx_seq(ok, k).contains((i + 1) as AuthorityCount),
    decreases k,
{
    if i == k - 1 {
        assert(failed_idx_seq(ok, k).last() == (i + 1) as AuthorityCount);
    } else {
        lemma_failed_idx_complete(ok, k - 1, i);
        let s = failed_idx_seq(ok, k - 1);
        let j = choose|j: int| 0 <= j < s.len() && s[j] == (i + 1) as AuthorityCount;
        if !ok[k - 1] {
            assert(failed_idx_seq(ok, k)[j] == s[j]);
        }
    }
}

/// Reports kept only when they have one entry per party are well sized.
pub proof fn lemma_reports_sized<T: View>(reports: Seq<Option<BroadcastVerificationMessage<T>>>)
    requires
        forall|r: int|
            0 <= r < reports.len() ==> (#[trigger] reports[r] matches Some(m) ==> m.data@.len()
                == reports.len()),
    ensures
        crate::verification::reports_well_sized(crate::verification::reports_view(reports)),
{
    let rv = crate::verification::reports_view(reports);
    assert forall|r: int| 0 <= r < rv.len() implies (#[trigger] rv[r] matches Some(rep) ==> rep.len()
        == rv.len()) by {
        if let Some(m) = reports[r] {
            assert(rv[r] == Some(m@));
        }
    }
}

} // verus!