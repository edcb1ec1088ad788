//! The runner of one key generation ceremony. Each party commits to a
//! secret polynomial, publishes the coefficient commitments, complains about
//! commitments that do not match, deals a secret share to every party in
//! private, and blames the parties whose shares do not match; every
//! originating round is followed by a verification round.
use vstd::prelude::*;
use crate::broadcast::{all_received, feed, nothing_received, BroadcastStage, ProcessMessageResult};
use crate::codec::{serialize_for_version, Codec, CURRENT_PROTOCOL_VERSION};
use crate::index_map::PartyIdxMapping;
use crate::messages::{Blob, BroadcastVerificationMessage, Payload};
use crate::primitives::{AccountId, AuthorityCount, CeremonyId, FailureReason};
use crate::runner::{
    broadcast_blame, failing_accounts, lemma_blame_accounts, lemma_failing_accounts,
    broadcast_sent, deadline_after, failed_ids, failed_idx_seq, failed_idxs, idx_list_ok, idxs_to_ids,
    others_of, received_flags, OutgoingMessage,
};
use crate::codec::enc_envelope;
use crate::stages::{
    keygen_next, keygen_rank, KeygenData, KeygenDataView, KeygenStageName, MultisigData, MultisigDataView,
};
use crate::verification::{agreed, blamed, verify_broadcasts};

verus! {

/// The cryptography of distributed key generation. The runner treats its
/// values as opaque byte strings and decides only from what these calls
/// return.
pub trait KeygenScheme {
    /// This party's commitment to its secret polynomial.
    fn hash_commitment(&mut self) -> Blob;

    /// The commitments to the coefficients of this party's polynomial.
    fn coefficient_commitments(&mut self) -> Blob;

    /// Whether party `idx`'s coefficient commitments are well formed and
    /// match the hash it committed to.
    fn check_coefficients(&self, idx: AuthorityCount, hash: &Blob, coefficients: &Blob) -> bool;

    /// The secret share this party deals to party `idx`, given every
    /// party's coefficient commitments (entry `k` for party `k + 1`).
    fn secret_share(&mut self, idx: AuthorityCount, coefficients: &Vec<Blob>) -> Blob;

    /// Whether the share received from party `idx` matches its commitments.
    fn check_share(&self, idx: AuthorityCount, share: &Blob, coefficients: &Vec<Blob>) -> bool;

    /// The aggregate public key, from all parties' commitments and the
    /// shares this party received; the scheme keeps this party's key share.
    fn finalize(&mut self, coefficients: &Vec<Blob>, shares: &Vec<Blob>) -> Blob;
}

/// The result of a key generation ceremony: the aggregate public key, or
/// the blamed accounts and the reason.
pub type KeygenResult = Result<Blob, (Vec<AccountId>, FailureReason)>;

/// A failure, if any, blames participants only, in order.
pub open spec fn keygen_result_ok(r: KeygenResult, parts: Seq<AccountId>) -> bool {
    r matches Err((b, _)) ==> crate::runner::blame_ok(b@, parts)
}

/// What a finished stage leads to: this party's message for the next stage,
/// or the end.
pub enum KeygenStageOutcome {
    NextStage(KeygenData),
    Done(KeygenResult),
}

/// One flag per party as bytes: 1 for a party named, 0 otherwise.
pub fn flags_to_blob(flags: &Vec<bool>) -> (r: Blob)
    ensures
        r@.len() == flags@.len(),
        forall|k: int| 0 <= k < flags@.len() ==> (#[trigger] r@[k] != 0) == flags@[k],
{
    let mut r: Blob = Vec::new();
    let mut k: usize = 0;
    while k < flags.len()
        invariant
            k <= flags@.len(),
            r@.len() == k,
            forall|j: int| 0 <= j < k ==> (#[trigger] r@[j] != 0) == flags@[j],
        decreases flags@.len() - k,
    {
        r.push(if flags[k] { 1u8 } else { 0u8 });
        k = k + 1;
    }
    r
}

/// Party `p` (zero-based) stands clear: its own list has one entry per
/// party, and no agreed list names it.
pub open spec fn clear_of_accusations(lists: Seq<Seq<u8>>, p: int) -> bool {
    &&& lists[p].len() == lists.len()
    &&& forall|k: int| 0 <= k < lists.len() && lists[k].len() == lists.len() ==> #[trigger] lists[k][p] == 0
}

/// For each party, whether it stands clear of the agreed lists.
pub fn clear_parties(lists: &Vec<Blob>) -> (r: Vec<bool>)
    requires
        lists@.len() <= u32::MAX,
    ensures
        r@.len() == lists@.len(),
        forall|p: int| 0 <= p < lists@.len() ==> #[trigger] r@[p] == clear_of_accusations(
            crate::messages::blobs_view(lists@),
            p,
        ),
{
    let ghost lv = crate::messages::blobs_view(lists@);
    let n = lists.len();
    let mut r: Vec<bool> = Vec::new();
    let mut p: usize = 0;
    while p < n
        invariant
            n == lists@.len(),
            lv == crate::messages::blobs_view(lists@),
            p <= n,
            r@.len() == p,
            forall|q: int| 0 <= q < p ==> #[trigger] r@[q] == clear_of_accusations(lv, q),
        decreases n - p,
    {
        assert(lv[p as int] == lists@[p as int]@);
        let mut clear = lists[p].len() == n;
        let mut k: usize = 0;
        while k < n
            invariant
                n == lists@.len(),
                lv == crate::messages::blobs_view(lists@),
                p < n,
                k <= n,
                clear == (lv[p as int].len() == n && forall|j: int|
                    0 <= j < k && lv[j].len() == n ==> #[trigger] lv[j][p as int] == 0),
            decreases n - k,
        {
            assert(lv[k as int] == lists@[k as int]@);
            if lists[k].len() == n && lists[k][p] != 0 {
                clear = false;
            }
            k = k + 1;
        }
        r.push(clear);
        p = p + 1;
    }
    r
}

/// The (recipients, bytes) of the messages that dealing the shares `shares`
/// (entry `k` for party `k + 1`) sends to the first `k` parties: one to each
/// other party whose share fits the wire format, in party order, holding the
/// envelope of its share.
pub open spec fn shares_sent(
    parts: Seq<AccountId>,
    own_idx: AuthorityCount,
    ceremony_id: CeremonyId,
    shares: Seq<Seq<u8>>,
    k: int,
) -> Seq<(Seq<AccountId>, Seq<u8>)>
    decreases k,
{
    if k <= 0 {
        Seq::empty()
    } else {
        let prev = shares_sent(parts, own_idx, ceremony_id, shares, k - 1);
        let data = MultisigDataView::Keygen(KeygenDataView::SecretShares6(shares[k - 1]));
        if k == own_idx || !MultisigData::encodable(data) {
            prev
        } else {
            prev.push((seq![parts[k - 1]], enc_envelope(ceremony_id, data)))
        }
    }
}

/// The recipients and bytes of the messages from position `from` on.
pub open spec fn sent_views(outbox: Seq<OutgoingMessage>, from: int) -> Seq<(Seq<AccountId>, Seq<u8>)> {
    outbox.subrange(from, outbox.len() as int).map_values(|m: OutgoingMessage| (m.recipients@, m.bytes@))
}

/// The secret share stage sent, after what was already queued, exactly the
/// messages `shares_sent` describes for some shares, one per party.
pub open spec fn private_sent(
    old_outbox: Seq<OutgoingMessage>,
    outbox: Seq<OutgoingMessage>,
    parts: Seq<AccountId>,
    own_idx: AuthorityCount,
    ceremony_id: CeremonyId,
) -> bool {
    &&& outbox.len() >= old_outbox.len()
    &&& outbox.subrange(0, old_outbox.len() as int) == old_outbox
    &&& exists|shares: Seq<Seq<u8>>|
        shares.len() == parts.len() && #[trigger] sent_views(outbox, old_outbox.len() as int)
            == shares_sent(parts, own_idx, ceremony_id, shares, parts.len() as int)
}

/// What `shares_sent` gives for the first `k` parties depends only on
/// their shares.
pub proof fn lemma_shares_sent_prefix(
    parts: Seq<AccountId>,
    own_idx: AuthorityCount,
    ceremony_id: CeremonyId,
    s1: Seq<Seq<u8>>,
    s2: Seq<Seq<u8>>,
    k: int,
)
    requires
        forall|i: int| 0 <= i < k ==> s1[i] == s2[i],
    ensures
        shares_sent(parts, own_idx, ceremony_id, s1, k) == shares_sent(parts, own_idx, ceremony_id, s2, k),
    decreases k,
{
    if k > 0 {
        lemma_shares_sent_prefix(parts, own_idx, ceremony_id, s1, s2, k - 1);
    }
}

/// The reports of a verification stage of key generation, as consensus
/// reads them: a report without one entry per party counts as missing.
pub open spec fn keygen_reports_of(msgs: Seq<Option<KeygenData>>) -> Seq<Option<Seq<Option<Seq<u8>>>>> {
    msgs.map_values(|o: Option<KeygenData>| match o {
        Some(KeygenData::VerifyHashComm2(m)) => if m.data@.len() == msgs.len() { Some(m@) } else { None },
        Some(KeygenData::VerifyComplaints5(m)) => if m.data@.len() == msgs.len() { Some(m@) } else { None },
        Some(KeygenData::VerifyBlameResponses8(m)) => if m.data@.len() == msgs.len() { Some(m@) } else { None },
        _ => None,
    })
}

/// The verification stages of key generation.
pub open spec fn is_keygen_verification(s: KeygenStageName) -> bool {
    s == KeygenStageName::VerifyHashCommit2 || s == KeygenStageName::VerifyComplaints5 || s
        == KeygenStageName::VerifyBlame8
}

/// For each party, whether it stands clear of the lists agreed on.
pub open spec fn clear_flags(rv: Seq<Option<Seq<Option<Seq<u8>>>>>) -> Seq<bool> {
    Seq::new(rv.len(), |p: int| clear_of_accusations(Seq::new(rv.len(), |q: int| agreed(rv, q)), p))
}

/// Finishing a verification stage with the reports `msgs` fails: some
/// party is blamed, or, where the agreed values are lists of accusations
/// (`accuses`), some party is accused.
pub open spec fn keygen_verify_fails(msgs: Seq<Option<KeygenData>>, accuses: bool) -> bool {
    let rv = keygen_reports_of(msgs);
    ||| exists|x: int| 0 <= x < rv.len() && #[trigger] blamed(rv, x)
    ||| accuses && exists|x: int| 0 <= x < rv.len() && !#[trigger] clear_flags(rv)[x]
}

/// The failure such a stage ends with: a broadcast failure blaming exactly
/// the parties without a majority; otherwise an invalid contribution blaming
/// exactly the accused parties.
pub open spec fn keygen_verify_failure(
    msgs: Seq<Option<KeygenData>>,
    parts: Seq<AccountId>,
    outcome: Option<KeygenResult>,
    accuses: bool,
) -> bool {
    let rv = keygen_reports_of(msgs);
    &&& (exists|x: int| 0 <= x < rv.len() && #[trigger] blamed(rv, x)) ==> (outcome matches Some(
        Err((b, reason)),
    ) && reason == FailureReason::BroadcastFailure && broadcast_blame(b@, rv, parts))
    &&& !(exists|x: int| 0 <= x < rv.len() && #[trigger] blamed(rv, x)) && accuses && (exists|x: int|
        0 <= x < rv.len() && !#[trigger] clear_flags(rv)[x]) ==> (outcome matches Some(Err((b, reason)))
        && reason == FailureReason::InvalidContribution && failing_accounts(b@, clear_flags(rv), parts))
}

/// A key generation ceremony in progress, from this party's point of view.
pub struct KeygenRunner<K> {
    pub ceremony_id: CeremonyId,
    pub mapping: PartyIdxMapping,
    pub own_idx: AuthorityCount,
    pub scheme: K,
    /// The stage in progress and the messages collected for it.
    pub stage: BroadcastStage<KeygenData>,
    pub stage_name: KeygenStageName,
    /// Messages for the next stage that arrived early, with their senders.
    pub delayed: Vec<(AuthorityCount, KeygenData)>,
    /// The agreed hash commitments, entry `k` for party `k + 1`.
    pub hashes: Vec<Blob>,
    /// The coefficient commitments received, entry `k` for party `k + 1`.
    pub coefficients: Vec<Blob>,
    /// The secret shares received, entry `k` from party `k + 1`.
    pub shares: Vec<Blob>,
    pub stage_timeout: u64,
    pub deadline: u64,
    pub started: u64,
    pub outcome: Option<KeygenResult>,
    pub outbox: Vec<OutgoingMessage>,
}

impl<K: KeygenScheme> KeygenRunner<K> {
    /// The same invariant as a signing runner's: one entry per party, this
    /// party's own message kept while running, delayed messages typed for the
    /// next stage, failures blaming participants only.
    pub open spec fn wf(&self) -> bool {
        &&& self.mapping.wf()
        &&& 1 <= self.own_idx <= self.mapping@.len()
        &&& self.stage.wf()
        &&& self.stage.stage == keygen_rank(self.stage_name)
        &&& self.stage.messages@.len() == self.mapping@.len()
        &&& forall|i: int|
            0 <= i < self.delayed@.len() ==> keygen_next(self.stage_name) == Some(
                (#[trigger] self.delayed@[i]).1.spec_stage(),
            )
        &&& self.outcome matches Some(r) ==> keygen_result_ok(r, self.mapping@)
        &&& self.outcome is None ==> self.stage.messages@[self.own_idx - 1] is Some
    }

    /// Starts a key generation among the parties of `mapping`, this party
    /// being `own_idx`: publishes this party's hash commitment.
    pub fn new(
        ceremony_id: CeremonyId,
        mapping: PartyIdxMapping,
        own_idx: AuthorityCount,
        scheme: K,
        now: u64,
        stage_timeout: u64,
    ) -> (r: Self)
        requires
            mapping.wf(),
            1 <= own_idx <= mapping@.len(),
        ensures
            r.wf(),
            r.ceremony_id == ceremony_id,
            r.mapping@ == mapping@,
            r.own_idx == own_idx,
            r.started == now,
            r.delayed@.len() == 0,
            mapping@.len() > 1 ==> {
                &&& r.outcome is None
                &&& r.stage_name == KeygenStageName::HashCommit1
                &&& r.stage.messages@[own_idx - 1] matches Some(KeygenData::HashComm1(_))
                &&& r.stage.messages@ == nothing_received::<KeygenData>(mapping@.len()).update(
                    own_idx - 1,
                    r.stage.messages@[own_idx - 1],
                )
                &&& broadcast_sent(
                    Seq::empty(),
                    r.outbox@,
                    mapping@.remove(own_idx - 1),
                    ceremony_id,
                    MultisigDataView::Keygen(r.stage.messages@[own_idx - 1]->Some_0@),
                )
            },
    {
        let n = mapping.num_parties();
        let mut runner = KeygenRunner {
            ceremony_id,
            mapping,
            own_idx,
            scheme,
            stage: BroadcastStage::new(0, n),
            stage_name: KeygenStageName::HashCommit1,
            delayed: Vec::new(),
            hashes: Vec::new(),
            coefficients: Vec::new(),
            shares: Vec::new(),
            stage_timeout,
            deadline: deadline_after(now, stage_timeout),
            started: now,
            outcome: None,
            outbox: Vec::new(),
        };
        let own = KeygenData::HashComm1(runner.scheme.hash_commitment());
        let ghost own_g = own;
        let ready = runner.open_stage(KeygenStageName::HashCommit1, own, now);
        proof {
            let x = nothing_received::<KeygenData>(n as nat).update(own_idx - 1, Some(own_g));
            assert(feed(x, 0, Seq::<(AuthorityCount, KeygenData)>::empty()) == x);
            if n > 1 {
                let other: int = if own_idx == 1 { 1 } else { 0 };
                assert(x[other] is None);
            }
        }
        if ready {
            runner.advance(now);
        }
        runner
    }

    /// Queues `data` for `recipients`, if it fits the wire format.
    fn send(&mut self, recipients: Vec<AccountId>, data: KeygenData)
        ensures
            broadcast_sent(
                old(self).outbox@,
                final(self).outbox@,
                recipients@,
                old(self).ceremony_id,
                MultisigDataView::Keygen(data@),
            ),
            final(self).mapping == old(self).mapping,
            final(self).own_idx == old(self).own_idx,
            final(self).ceremony_id == old(self).ceremony_id,
            final(self).started == old(self).started,
            final(self).stage == old(self).stage,
            final(self).stage_name == old(self).stage_name,
            final(self).delayed == old(self).delayed,
            final(self).outcome == old(self).outcome,
            final(self).coefficients == old(self).coefficients,
    {
        let data = MultisigData::Keygen(data);
        if data.is_encodable() {
            let bytes = serialize_for_version(self.ceremony_id, &data, CURRENT_PROTOCOL_VERSION);
            self.outbox.push(OutgoingMessage { recipients, bytes });
            assert(self.outbox@.drop_last() =~= old(self).outbox@);
        }
    }

    /// Sends this party's message for stage `name`: the same message to all
    /// other parties, or, in the secret share stage, a share of its own to
    /// each. Gives the message this party keeps for itself.
    fn distribute(&mut self, name: KeygenStageName, own: KeygenData) -> (kept: KeygenData)
        requires
            old(self).mapping.wf(),
            1 <= old(self).own_idx <= old(self).mapping@.len(),
            own.spec_stage() == name,
        ensures
            kept.spec_stage() == name,
            name != KeygenStageName::SecretShares6 ==> kept == own && broadcast_sent(
                old(self).outbox@,
                final(self).outbox@,
                old(self).mapping@.remove(old(self).own_idx - 1),
                old(self).ceremony_id,
                MultisigDataView::Keygen(own@),
            ),
            name == KeygenStageName::SecretShares6 ==> private_sent(
                old(self).outbox@,
                final(self).outbox@,
                old(self).mapping@,
                old(self).own_idx,
                old(self).ceremony_id,
            ),
            final(self).mapping == old(self).mapping,
            final(self).own_idx == old(self).own_idx,
            final(self).ceremony_id == old(self).ceremony_id,
            final(self).started == old(self).started,
            final(self).stage == old(self).stage,
            final(self).stage_name == old(self).stage_name,
            final(self).delayed == old(self).delayed,
            final(self).outcome == old(self).outcome,
            final(self).coefficients == old(self).coefficients,
    {
        let n = self.mapping.num_parties();
        if name == KeygenStageName::SecretShares6 {
            let mut k: u32 = 0;
            let ghost mut shares_g: Seq<Seq<u8>> = Seq::empty();
            let ghost start = self.outbox@.len() as int;
            assert(sent_views(self.outbox@, start) =~= Seq::<(Seq<AccountId>, Seq<u8>)>::empty());
            assert(self.outbox@.subrange(0, start) =~= old(self).outbox@);
            while k < n
                invariant
                    self.mapping.wf(),
                    n == self.mapping@.len(),
                    k <= n,
                    1 <= self.own_idx <= n,
                    start == old(self).outbox@.len(),
                    self.outbox@.len() >= start,
                    self.outbox@.subrange(0, start) == old(self).outbox@,
                    shares_g.len() == k,
                    sent_views(self.outbox@, start) == shares_sent(
                        self.mapping@,
                        self.own_idx,
                        self.ceremony_id,
                        shares_g,
                        k as int,
                    ),
                    self.mapping == old(self).mapping,
                    self.own_idx == old(self).own_idx,
                    self.ceremony_id == old(self).ceremony_id,
                    self.started == old(self).started,
                    self.stage == old(self).stage,
                    self.stage_name == old(self).stage_name,
                    self.delayed == old(self).delayed,
                    self.outcome == old(self).outcome,
                    self.coefficients == old(self).coefficients,
                decreases n - k,
            {
                let ghost before = self.outbox@;
                let ghost old_shares = shares_g;
                if k + 1 != self.own_idx {
                    let share = self.scheme.secret_share(k + 1, &self.coefficients);
                    let mut to: Vec<AccountId> = Vec::new();
                    to.push(self.mapping.get_id(k + 1));
                    proof {
                        shares_g = shares_g.push(share@);
                    }
                    self.send(to, KeygenData::SecretShares6(share));
                } else {
                    proof {
                        shares_g = shares_g.push(Seq::empty());
                    }
                }
                proof {
                    lemma_shares_sent_prefix(self.mapping@, self.own_idx, self.ceremony_id, old_shares, shares_g, k as int);
                    if self.outbox@.len() > before.len() {
                        assert(sent_views(self.outbox@, start) =~= sent_views(before, start).push(
                            (self.outbox@.last().recipients@, self.outbox@.last().bytes@),
                        ));
                        assert(self.outbox@.subrange(0, start) =~= before.subrange(0, start));
                    }
                }
                k = k + 1;
            }
            proof {
                assert(sent_views(self.outbox@, start) == shares_sent(self.mapping@, self.own_idx, self.ceremony_id, shares_g, n as int));
            }
            let own_share = self.scheme.secret_share(self.own_idx, &self.coefficients);
            KeygenData::SecretShares6(own_share)
        } else {
            let others = others_of(&self.mapping, self.own_idx);
            let copy = own.duplicate();
            self.send(others, copy);
            own
        }
    }

    /// Enters stage `name`: sends this party's message `own` and keeps its
    /// own part, restarts the deadline, then hands every delayed message to
    /// the new stage in the order they arrived. Says whether the stage is
    /// complete.
    fn open_stage(&mut self, name: KeygenStageName, own: KeygenData, now: u64) -> (ready: bool)
        requires
            old(self).mapping.wf(),
            1 <= old(self).own_idx <= old(self).mapping@.len(),
            old(self).outcome is None,
            own.spec_stage() == name,
            forall|i: int|
                0 <= i < old(self).delayed@.len() ==> (#[trigger] old(self).delayed@[i]).1.spec_stage()
                    == name,
        ensures
            final(self).wf(),
            final(self).stage_name == name,
            final(self).delayed@.len() == 0,
            final(self).outcome is None,
            final(self).mapping == old(self).mapping,
            final(self).own_idx == old(self).own_idx,
            final(self).ceremony_id == old(self).ceremony_id,
            final(self).started == old(self).started,
            ready == all_received(final(self).stage.messages@),
            name != KeygenStageName::SecretShares6 ==> broadcast_sent(
                old(self).outbox@,
                final(self).outbox@,
                old(self).mapping@.remove(old(self).own_idx - 1),
                old(self).ceremony_id,
                MultisigDataView::Keygen(own@),
            ) && final(self).stage.messages@ == feed(
                nothing_received::<KeygenData>(old(self).mapping@.len()).update(
                    old(self).own_idx - 1,
                    Some(own),
                ),
                keygen_rank(name),
                old(self).delayed@,
            ),
            name == KeygenStageName::SecretShares6 ==> private_sent(
                old(self).outbox@,
                final(self).outbox@,
                old(self).mapping@,
                old(self).own_idx,
                old(self).ceremony_id,
            ),
    {
        let ghost own_g = own;
        let ghost delayed0 = self.delayed@;
        let kept = self.distribute(name, own);
        let ghost outbox1 = self.outbox@;
        let ghost kept_g = kept;
        let n = self.mapping.num_parties();
        self.stage = BroadcastStage::new(crate::stages::keygen_stage_rank(name), n);
        self.stage_name = name;
        self.deadline = deadline_after(now, self.stage_timeout);
        let own_idx = self.own_idx;
        let first = self.stage.process_message(own_idx, kept);
        let mut ready = first == ProcessMessageResult::Ready;
        let ghost start = self.stage.messages@;
        assert(start == nothing_received::<KeygenData>(self.mapping@.len()).update(own_idx - 1, Some(kept_g)));
        let mut buf: Vec<(AuthorityCount, KeygenData)> = Vec::new();
        std::mem::swap(&mut self.delayed, &mut buf);
        while buf.len() > 0
            invariant
                feed(start, keygen_rank(name), delayed0) == feed(self.stage.messages@, keygen_rank(name), buf@),
                self.outbox@ == outbox1,
                self.mapping.wf(),
                self.stage.wf(),
                self.stage_name == name,
                self.stage.stage == keygen_rank(name),
                self.stage.messages@.len() == self.mapping@.len(),
                1 <= self.own_idx <= self.mapping@.len(),
                self.stage.messages@[self.own_idx - 1] is Some,
                self.delayed@.len() == 0,
                self.outcome is None,
                ready == all_received(self.stage.messages@),
                self.mapping == old(self).mapping,
                self.own_idx == old(self).own_idx,
                self.ceremony_id == old(self).ceremony_id,
                self.started == old(self).started,
            decreases buf@.len(),
        {
            let ghost b0 = buf@;
            let (sender, m) = buf.remove(0);
            assert(b0.skip(1) =~= buf@);
            let res = self.stage.process_message(sender, m);
            if res == ProcessMessageResult::Ready {
                ready = true;
            }
        }
        ready
    }

    /// Ends the ceremony with `result`, dropping what was delayed.
    fn finish(&mut self, result: KeygenResult)
        requires
            old(self).mapping.wf(),
            1 <= old(self).own_idx <= old(self).mapping@.len(),
            old(self).stage.wf(),
            old(self).stage.stage == keygen_rank(old(self).stage_name),
            old(self).stage.messages@.len() == old(self).mapping@.len(),
            keygen_result_ok(result, old(self).mapping@),
        ensures
            final(self).wf(),
            final(self).outcome == Some(result),
            final(self).delayed@.len() == 0,
            final(self).stage == old(self).stage,
            final(self).stage_name == old(self).stage_name,
            final(self).mapping == old(self).mapping,
            final(self).own_idx == old(self).own_idx,
            final(self).ceremony_id == old(self).ceremony_id,
            final(self).started == old(self).started,
    {
        self.outcome = Some(result);
        self.delayed = Vec::new();
    }

    /// The failure `reason` blaming the parties `idxs`.
    fn failure(&self, idxs: &Vec<AuthorityCount>, reason: FailureReason) -> (r: KeygenResult)
        requires
            self.mapping.wf(),
            idx_list_ok(idxs@, self.mapping@.len()),
        ensures
            keygen_result_ok(r, self.mapping@),
            r matches Err((b, why)) && why == reason && b@.len() == idxs@.len() && forall|k: int|
                0 <= k < idxs@.len() ==> #[trigger] b@[k] == self.mapping@[idxs@[k] - 1],
    {
        Err((idxs_to_ids(&self.mapping, idxs), reason))
    }

    /// The values carried by the current originating stage's messages,
    /// nothing for a party whose message is missing.
    fn collected_blobs(&self) -> (r: Vec<Option<Blob>>)
        ensures
            r@.len() == self.stage.messages@.len(),
    {
        let mut data: Vec<Option<Blob>> = Vec::new();
        let mut k: usize = 0;
        while k < self.stage.messages.len()
            invariant
                k <= self.stage.messages@.len(),
                data@.len() == k,
            decreases self.stage.messages@.len() - k,
        {
            let item = match &self.stage.messages[k] {
                Some(KeygenData::HashComm1(b)) => Some(b.duplicate()),
                Some(KeygenData::CoeffComm3(b)) => Some(b.duplicate()),
                Some(KeygenData::Complaints4(b)) => Some(b.duplicate()),
                Some(KeygenData::SecretShares6(b)) => Some(b.duplicate()),
                Some(KeygenData::BlameResponse7(b)) => Some(b.duplicate()),
                _ => None,
            };
            data.push(item);
            k = k + 1;
        }
        data
    }

    /// The reports of the current verification stage; a report without one
    /// entry per party counts as missing.
    fn collected_reports(&self) -> (r: Vec<Option<BroadcastVerificationMessage<Blob>>>)
        ensures
            r@.len() == self.stage.messages@.len(),
            crate::verification::reports_well_sized(crate::verification::reports_view(r@)),
            crate::verification::reports_view(r@) == keygen_reports_of(self.stage.messages@),
    {
        let mut reports: Vec<Option<BroadcastVerificationMessage<Blob>>> = Vec::new();
        let mut k: usize = 0;
        while k < self.stage.messages.len()
            invariant
                k <= self.stage.messages@.len(),
                reports@.len() == k,
                forall|r: int|
                    0 <= r < k ==> (#[trigger] reports@[r] matches Some(m) ==> m.data@.len()
                        == self.stage.messages@.len()),
                crate::verification::reports_view(reports@) == keygen_reports_of(self.stage.messages@).take(k as int),
            decreases self.stage.messages@.len() - k,
        {
            let ghost rv0 = crate::verification::reports_view(reports@);
            let item = match &self.stage.messages[k] {
                Some(KeygenData::VerifyHashComm2(m)) | Some(KeygenData::VerifyComplaints5(m)) | Some(
                    KeygenData::VerifyBlameResponses8(m),
                ) => {
                    if m.data.len() == self.stage.messages.len() {
                        let d = m.duplicate();
                        assert(d.data@.len() == d@.len() && m.data@.len() == m@.len());
                        Some(d)
                    } else {
                        None
                    }
                },
                _ => None,
            };
            proof {
                assert(crate::verification::reports_view(seq![item])[0] == keygen_reports_of(self.stage.messages@)[k as int]);
            }
            reports.push(item);
            k = k + 1;
            proof {
                assert(crate::verification::reports_view(reports@) =~= keygen_reports_of(self.stage.messages@).take(k as int)) by {
                    assert(crate::verification::reports_view(reports@) =~= rv0.push(crate::verification::reports_view(seq![item])[0]));
                }
            }
        }
        proof {
            crate::runner::lemma_reports_sized(reports@);
            assert(keygen_reports_of(self.stage.messages@).take(k as int) =~= keygen_reports_of(self.stage.messages@));
        }
        reports
    }

    /// The received values of an originating stage, with nothing for a
    /// missing one.
    fn values_or_empty(data: Vec<Option<Blob>>) -> (r: Vec<Blob>)
        ensures
            r@.len() == data@.len(),
    {
        let mut r: Vec<Blob> = Vec::new();
        let mut k: usize = 0;
        while k < data.len()
            invariant
                k <= data@.len(),
                r@.len() == k,
            decreases data@.len() - k,
        {
            let v = match &data[k] {
                Some(b) => b.duplicate(),
                None => Vec::new(),
            };
            r.push(v);
            k = k + 1;
        }
        r
    }

    /// Finishes the current stage with the messages collected and computes
    /// what follows.
    fn process_stage(&mut self) -> (r: KeygenStageOutcome)
        requires
            old(self).wf(),
            old(self).outcome is None,
        ensures
            final(self).mapping == old(self).mapping,
            final(self).own_idx == old(self).own_idx,
            final(self).ceremony_id == old(self).ceremony_id,
            final(self).started == old(self).started,
            final(self).stage == old(self).stage,
            final(self).stage_name == old(self).stage_name,
            final(self).delayed == old(self).delayed,
            final(self).outcome == old(self).outcome,
            r matches KeygenStageOutcome::NextStage(own) ==> keygen_next(old(self).stage_name) == Some(
                own.spec_stage(),
            ),
            r matches KeygenStageOutcome::Done(res) ==> keygen_result_ok(res, old(self).mapping@),
            old(self).stage_name == KeygenStageName::HashCommit1 ==> r is NextStage,
            !is_keygen_verification(old(self).stage_name) ==> r is NextStage,
            is_keygen_verification(old(self).stage_name) && keygen_verify_fails(
                old(self).stage.messages@,
                old(self).stage_name != KeygenStageName::VerifyHashCommit2,
            ) ==> (r matches KeygenStageOutcome::Done(res) && keygen_verify_failure(
                old(self).stage.messages@,
                old(self).mapping@,
                Some(res),
                old(self).stage_name != KeygenStageName::VerifyHashCommit2,
            )),
    {
        let n = self.mapping.num_parties();
        match self.stage_name {
            KeygenStageName::HashCommit1 => {
                let data = self.collected_blobs();
                KeygenStageOutcome::NextStage(
                    KeygenData::VerifyHashComm2(BroadcastVerificationMessage { data }),
                )
            },
            KeygenStageName::VerifyHashCommit2 => {
                let reports = self.collected_reports();
                match verify_broadcasts(&reports) {
                    Err(blamed) => {
                        let res = self.failure(&blamed, FailureReason::BroadcastFailure);
                        proof {
                            lemma_blame_accounts(res->Err_0.0@, blamed@, keygen_reports_of(self.stage.messages@), self.mapping@);
                        }
                        KeygenStageOutcome::Done(res)
                    },
                    Ok(hashes) => {
                        self.hashes = hashes;
                        KeygenStageOutcome::NextStage(
                            KeygenData::CoeffComm3(self.scheme.coefficient_commitments()),
                        )
                    },
                }
            },
            KeygenStageName::Coefficient3 => {
                let coefficients = Self::values_or_empty(self.collected_blobs());
                let mut complaints: Vec<bool> = Vec::new();
                let mut k: usize = 0;
                while k < coefficients.len()
                    invariant
                        k <= coefficients@.len(),
                        complaints@.len() == k,
                    decreases coefficients@.len() - k,
                {
                    let ok = k < self.hashes.len() && self.scheme.check_coefficients(
                        (k + 1) as AuthorityCount,
                        &self.hashes[k],
                        &coefficients[k],
                    );
                    complaints.push(!ok);
                    k = k + 1;
                }
                self.coefficients = coefficients;
                KeygenStageOutcome::NextStage(KeygenData::Complaints4(flags_to_blob(&complaints)))
            },
            KeygenStageName::Complaints4 => {
                let data = self.collected_blobs();
                KeygenStageOutcome::NextStage(
                    KeygenData::VerifyComplaints5(BroadcastVerificationMessage { data }),
                )
            },
            KeygenStageName::VerifyComplaints5 => {
                let reports = self.collected_reports();
                match verify_broadcasts(&reports) {
                    Err(blamed) => {
                        let res = self.failure(&blamed, FailureReason::BroadcastFailure);
                        proof {
                            lemma_blame_accounts(res->Err_0.0@, blamed@, keygen_reports_of(self.stage.messages@), self.mapping@);
                        }
                        KeygenStageOutcome::Done(res)
                    },
                    Ok(lists) => {
                        let ghost rv = keygen_reports_of(self.stage.messages@);
                        proof {
                            assert forall|q: int| 0 <= q < lists@.len() implies #[trigger] lists@[q]@ == agreed(rv, q) by {
                                crate::verification::lemma_majority_unique(rv, q, lists@[q]@);
                            }
                            assert(crate::messages::blobs_view(lists@) =~= Seq::new(rv.len(), |q: int| agreed(rv, q)));
                        }
                        let clear = clear_parties(&lists);
                        proof {
                            assert(clear@ =~= clear_flags(rv));
                        }
                        let accused = failed_idxs(&clear);
                        if accused.len() > 0 {
                            let res = self.failure(&accused, FailureReason::InvalidContribution);
                            proof {
                                lemma_failing_accounts(res->Err_0.0@, clear@, accused@, self.mapping@);
                            }
                            return KeygenStageOutcome::Done(res);
                        }
                        proof {
                            assert forall|x: int| 0 <= x < clear@.len() implies #[trigger] clear@[x] by {
                                if !clear@[x] {
                                    crate::runner::lemma_failed_idx_complete(clear@, clear@.len() as int, x);
                                }
                            }
                        }
                        KeygenStageOutcome::NextStage(KeygenData::SecretShares6(Vec::new()))
                    },
                }
            },
            KeygenStageName::SecretShares6 => {
                let shares = Self::values_or_empty(self.collected_blobs());
                let mut bad: Vec<bool> = Vec::new();
                let mut k: usize = 0;
                while k < shares.len()
                    invariant
                        k <= shares@.len(),
                        bad@.len() == k,
                    decreases shares@.len() - k,
                {
                    let ok = self.scheme.check_share(
                        (k + 1) as AuthorityCount,
                        &shares[k],
                        &self.coefficients,
                    );
                    bad.push(!ok);
                    k = k + 1;
                }
                self.shares = shares;
                KeygenStageOutcome::NextStage(KeygenData::BlameResponse7(flags_to_blob(&bad)))
            },
            KeygenStageName::Blame7 => {
                let data = self.collected_blobs();
                KeygenStageOutcome::NextStage(
                    KeygenData::VerifyBlameResponses8(BroadcastVerificationMessage { data }),
                )
            },
            KeygenStageName::VerifyBlame8 => {
                let reports = self.collected_reports();
                match verify_broadcasts(&reports) {
                    Err(blamed) => {
                        let res = self.failure(&blamed, FailureReason::BroadcastFailure);
                        proof {
                            lemma_blame_accounts(res->Err_0.0@, blamed@, keygen_reports_of(self.stage.messages@), self.mapping@);
                        }
                        KeygenStageOutcome::Done(res)
                    },
                    Ok(lists) => {
                        let ghost rv = keygen_reports_of(self.stage.messages@);
                        proof {
                            assert forall|q: int| 0 <= q < lists@.len() implies #[trigger] lists@[q]@ == agreed(rv, q) by {
                                crate::verification::lemma_majority_unique(rv, q, lists@[q]@);
                            }
                            assert(crate::messages::blobs_view(lists@) =~= Seq::new(rv.len(), |q: int| agreed(rv, q)));
                        }
                        let clear = clear_parties(&lists);
                        proof {
                            assert(clear@ =~= clear_flags(rv));
                        }
                        let accused = failed_idxs(&clear);
                        if accused.len() > 0 {
                            let res = self.failure(&accused, FailureReason::InvalidContribution);
                            proof {
                                lemma_failing_accounts(res->Err_0.0@, clear@, accused@, self.mapping@);
                            }
                            return KeygenStageOutcome::Done(res);
                        }
                        proof {
                            assert forall|x: int| 0 <= x < clear@.len() implies #[trigger] clear@[x] by {
                                if !clear@[x] {
                                    crate::runner::lemma_failed_idx_complete(clear@, clear@.len() as int, x);
                                }
                            }
                        }
                        let key = self.scheme.finalize(&self.coefficients, &self.shares);
                        KeygenStageOutcome::Done(Ok(key))
                    },
                }
            },
        }
    }

    /// Finishes stages for as long as the next one is complete as soon as it
    /// opens, and stops at the first stage still waiting or at the end.
    fn advance(&mut self, now: u64)
        requires
            old(self).wf(),
            old(self).outcome is None,
        ensures
            final(self).wf(),
            final(self).delayed@.len() == 0,
            final(self).mapping == old(self).mapping,
            final(self).own_idx == old(self).own_idx,
            final(self).ceremony_id == old(self).ceremony_id,
            final(self).started == old(self).started,
            final(self).outcome is Some || keygen_rank(final(self).stage_name) > keygen_rank(
                old(self).stage_name,
            ),
            keygen_rank(final(self).stage_name) >= keygen_rank(old(self).stage_name),
            !is_keygen_verification(old(self).stage_name) ==> keygen_rank(final(self).stage_name) > keygen_rank(
                old(self).stage_name,
            ),
            final(self).outcome is None ==> !all_received(final(self).stage.messages@),
            old(self).stage_name == KeygenStageName::HashCommit1 && old(self).delayed@.len() == 0
                && old(self).mapping@.len() > 1 ==> final(self).outcome is None && final(self).stage_name
                == KeygenStageName::VerifyHashCommit2,
            is_keygen_verification(old(self).stage_name) && keygen_verify_fails(
                old(self).stage.messages@,
                old(self).stage_name != KeygenStageName::VerifyHashCommit2,
            ) ==> keygen_verify_failure(
                old(self).stage.messages@,
                old(self).mapping@,
                final(self).outcome,
                old(self).stage_name != KeygenStageName::VerifyHashCommit2,
            ),
    {
        let first = self.stage_name;
        match self.process_stage() {
            KeygenStageOutcome::NextStage(own) => {
                let name = own.stage();
                proof {
                    assert forall|i: int| 0 <= i < self.delayed@.len() implies (
                    #[trigger] self.delayed@[i]).1.spec_stage() == name by {
                        assert(keygen_next(first) == Some(self.delayed@[i].1.spec_stage()));
                    }
                }
                let ghost own_g = own;
                let ghost delayed0 = self.delayed@;
                let ready = self.open_stage(name, own, now);
                proof {
                    if first == KeygenStageName::HashCommit1 && delayed0.len() == 0 && self.mapping@.len() > 1 {
                        let x = nothing_received::<KeygenData>(self.mapping@.len()).update(
                            self.own_idx - 1,
                            Some(own_g),
                        );
                        assert(feed(x, keygen_rank(name), delayed0) == x);
                        let other: int = if self.own_idx == 1 { 1 } else { 0 };
                        assert(x[other] is None);
                        assert(!ready);
                    }
                }
                if !ready {
                    return;
                }
            },
            KeygenStageOutcome::Done(result) => {
                self.finish(result);
                return;
            },
        }
        loop
            invariant
                self.wf(),
                self.outcome is None,
                keygen_rank(self.stage_name) > keygen_rank(old(self).stage_name),
                !(old(self).stage_name == KeygenStageName::HashCommit1 && old(self).delayed@.len() == 0
                    && old(self).mapping@.len() > 1),
                !(is_keygen_verification(old(self).stage_name) && keygen_verify_fails(
                    old(self).stage.messages@,
                    old(self).stage_name != KeygenStageName::VerifyHashCommit2,
                )),
                self.mapping == old(self).mapping,
                self.own_idx == old(self).own_idx,
                self.ceremony_id == old(self).ceremony_id,
                self.started == old(self).started,
            decreases 8 - keygen_rank(self.stage_name),
        {
            let current = self.stage_name;
            match self.process_stage() {
                KeygenStageOutcome::NextStage(own) => {
                    let name = own.stage();
                    proof {
                        assert forall|i: int| 0 <= i < self.delayed@.len() implies (
                        #[trigger] self.delayed@[i]).1.spec_stage() == name by {
                            assert(keygen_next(current) == Some(self.delayed@[i].1.spec_stage()));
                        }
                    }
                    let ready = self.open_stage(name, own, now);
                    if !ready {
                        return;
                    }
                },
                KeygenStageOutcome::Done(result) => {
                    self.finish(result);
                    return;
                },
            }
        }
    }

    /// The ceremony is running and `data` passes the size check.
    pub open spec fn takes(&self, data: KeygenData) -> bool {
        &&& self.outcome is None
        &&& data.spec_data_size_is_valid(self.mapping@.len() as AuthorityCount)
    }

    /// What handling a message from `sender` guarantees of the runner `r`
    /// that results: the invariant and identity are kept, a finished ceremony
    /// stays finished, a change of stage empties the delay buffer, a message
    /// of the next stage is delayed, one of the current stage is recorded, and
    /// a stage that this message completes is left.
    pub open spec fn handles(&self, r: Self, sender: AuthorityCount, data: KeygenData) -> bool {
        &&& r.wf()
        &&& r.mapping == self.mapping
        &&& r.own_idx == self.own_idx
        &&& r.ceremony_id == self.ceremony_id
        &&& r.started == self.started
        &&& self.outcome is Some ==> r.outcome == self.outcome
        &&& r.stage_name != self.stage_name ==> r.delayed@.len() == 0
        &&& keygen_rank(r.stage_name) >= keygen_rank(self.stage_name)
        &&& self.takes(data) && self.stage.accepts(sender, data) && all_received(
            self.stage.messages@.update(sender - 1, Some(data)),
        ) && !is_keygen_verification(self.stage_name) ==> keygen_rank(r.stage_name) > keygen_rank(self.stage_name)
        &&& self.takes(data) && self.stage.accepts(sender, data) && all_received(
            self.stage.messages@.update(sender - 1, Some(data)),
        ) && is_keygen_verification(self.stage_name) && keygen_verify_fails(
            self.stage.messages@.update(sender - 1, Some(data)),
            self.stage_name != KeygenStageName::VerifyHashCommit2,
        ) ==> keygen_verify_failure(
            self.stage.messages@.update(sender - 1, Some(data)),
            self.mapping@,
            r.outcome,
            self.stage_name != KeygenStageName::VerifyHashCommit2,
        )
        &&& self.outcome is None && self.delayed@.len() == 0 && self.mapping@.len() > 1
            && data.spec_stage() == KeygenStageName::HashCommit1 && (self.stage_name
            == KeygenStageName::HashCommit1 || self.stage_name == KeygenStageName::VerifyHashCommit2)
            ==> r.outcome is None && r.delayed@.len() == 0 && (r.stage_name == KeygenStageName::HashCommit1
            || r.stage_name == KeygenStageName::VerifyHashCommit2)
        &&& r.outcome is None && r.stage_name == self.stage_name ==> forall|k: int|
            0 <= k < self.stage.messages@.len() && self.stage.messages@[k] is Some
                ==> #[trigger] r.stage.messages@[k] == self.stage.messages@[k]
        &&& self.takes(data) && keygen_next(self.stage_name) == Some(data.spec_stage()) ==> r.delayed@
            == self.delayed@.push((sender, data)) && r.stage == self.stage
        &&& self.takes(data) && self.stage.accepts(sender, data) && !all_received(
            self.stage.messages@.update(sender - 1, Some(data)),
        ) ==> r.stage.messages@ == self.stage.messages@.update(sender - 1, Some(data)) && r.delayed
            == self.delayed
        &&& self.takes(data) && self.stage.accepts(sender, data) && all_received(
            self.stage.messages@.update(sender - 1, Some(data)),
        ) ==> r.outcome is Some || keygen_rank(r.stage_name) > keygen_rank(self.stage_name)
    }

    /// Handles a message of this ceremony from party `sender`, as a signing
    /// runner does: the current stage takes it, the next stage's is kept
    /// until that stage opens, anything else is dropped.
    pub fn process_message(&mut self, sender: AuthorityCount, data: KeygenData, now: u64)
        requires
            old(self).wf(),
        ensures
            old(self).handles(*final(self), sender, data),
            old(self).outcome is None && old(self).delayed@.len() == 0 && old(self).mapping@.len() > 1
                && data.spec_stage() == KeygenStageName::HashCommit1 && (old(self).stage_name
                == KeygenStageName::HashCommit1 || old(self).stage_name == KeygenStageName::VerifyHashCommit2)
                ==> final(self).outcome is None && final(self).delayed@.len() == 0 && (final(self).stage_name
                == KeygenStageName::HashCommit1 || final(self).stage_name == KeygenStageName::VerifyHashCommit2),
            final(self).wf(),
            final(self).mapping == old(self).mapping,
            final(self).ceremony_id == old(self).ceremony_id,
            final(self).started == old(self).started,
            old(self).outcome is Some ==> final(self).outcome == old(self).outcome,
            final(self).stage_name != old(self).stage_name ==> final(self).delayed@.len() == 0,
            old(self).takes(data) && keygen_next(old(self).stage_name) == Some(data.spec_stage())
                ==> final(self).delayed@ == old(self).delayed@.push((sender, data)) && final(self).stage
                == old(self).stage,
            old(self).takes(data) && old(self).stage.accepts(sender, data)
                && !all_received(old(self).stage.messages@.update(sender - 1, Some(data)))
                ==> final(self).stage.messages@ == old(self).stage.messages@.update(sender - 1, Some(data))
                && final(self).delayed == old(self).delayed && final(self).stage_name == old(self).stage_name,
            old(self).takes(data) && old(self).stage.accepts(sender, data)
                && all_received(old(self).stage.messages@.update(sender - 1, Some(data)))
                ==> final(self).outcome is Some || keygen_rank(final(self).stage_name) > keygen_rank(
                old(self).stage_name,
            ),
            old(self).takes(data) && old(self).stage.accepts(sender, data)
                && all_received(old(self).stage.messages@.update(sender - 1, Some(data)))
                && is_keygen_verification(old(self).stage_name) && keygen_verify_fails(
                old(self).stage.messages@.update(sender - 1, Some(data)),
                old(self).stage_name != KeygenStageName::VerifyHashCommit2,
            ) ==> keygen_verify_failure(
                old(self).stage.messages@.update(sender - 1, Some(data)),
                old(self).mapping@,
                final(self).outcome,
                old(self).stage_name != KeygenStageName::VerifyHashCommit2,
            ),
    {
        if self.outcome.is_some() {
            return;
        }
        let n = self.mapping.num_parties();
        if !data.data_size_is_valid(n) {
            return;
        }
        if data.stage() == self.stage_name {
            let res = self.stage.process_message(sender, data);
            if res == ProcessMessageResult::Ready {
                self.advance(now);
            }
        } else if KeygenData::should_delay(self.stage_name, &data) {
            self.delayed.push((sender, data));
        }
    }

    /// Which parties' messages for the current stage have arrived.
    pub fn received_flags(&self) -> (r: Vec<bool>)
        ensures
            r@ == received_flags(self.stage.messages@),
    {
        let mut r: Vec<bool> = Vec::new();
        let mut k: usize = 0;
        while k < self.stage.messages.len()
            invariant
                k <= self.stage.messages@.len(),
                r@ == received_flags(self.stage.messages@.subrange(0, k as int)),
            decreases self.stage.messages@.len() - k,
        {
            r.push(self.stage.messages[k].is_some());
            k = k + 1;
            assert(r@ =~= received_flags(self.stage.messages@.subrange(0, k as int)));
        }
        assert(self.stage.messages@.subrange(0, k as int) =~= self.stage.messages@);
        r
    }

    /// At or after the stage deadline: a timeout blaming exactly the parties
    /// whose messages are missing, or, with none missing, the stage finishes.
    pub fn on_timeout(&mut self, now: u64)
        requires
            old(self).wf(),
        ensures
            final(self).wf(),
            final(self).mapping == old(self).mapping,
            final(self).ceremony_id == old(self).ceremony_id,
            final(self).started == old(self).started,
            old(self).outcome is Some || now < old(self).deadline ==> final(self).outcome == old(self).outcome,
            old(self).outcome is None && now >= old(self).deadline && !all_received(old(self).stage.messages@)
                ==> (final(self).outcome matches Some(Err((b, reason))) && reason == FailureReason::Timeout
                && b@ == failed_ids(received_flags(old(self).stage.messages@), old(self).mapping@)),
            old(self).outcome is None && now >= old(self).deadline ==> final(self).outcome is Some
                || keygen_rank(final(self).stage_name) > keygen_rank(old(self).stage_name),
            old(self).outcome is None && now >= old(self).deadline && all_received(old(self).stage.messages@)
                && is_keygen_verification(old(self).stage_name) && keygen_verify_fails(
                old(self).stage.messages@,
                old(self).stage_name != KeygenStageName::VerifyHashCommit2,
            ) ==> keygen_verify_failure(
                old(self).stage.messages@,
                old(self).mapping@,
                final(self).outcome,
                old(self).stage_name != KeygenStageName::VerifyHashCommit2,
            ),
    {
        if self.outcome.is_some() || now < self.deadline {
            return;
        }
        let flags = self.received_flags();
        let missing = failed_idxs(&flags);
        if missing.len() > 0 {
            proof {
                crate::runner::lemma_failed_idx_sound(flags@, flags@.len() as int);
                assert(missing@[0] >= 1);
                assert(!flags@[missing@[0] - 1]);
                assert(self.stage.messages@[missing@[0] - 1] is None);
            }
            let ids = idxs_to_ids(&self.mapping, &missing);
            proof {
                assert(ids@ =~= failed_ids(flags@, self.mapping@));
            }
            self.finish(Err((ids, FailureReason::Timeout)));
        } else {
            proof {
                assert forall|k: int| 0 <= k < self.stage.messages@.len() implies #[trigger] self.stage.messages@[k] is Some by {
                    if self.stage.messages@[k] is None {
                        assert(!flags@[k]);
                        crate::runner::lemma_failed_idx_complete(flags@, flags@.len() as int, k);
                        assert(missing@.contains((k + 1) as AuthorityCount));
                    }
                }
            }
            self.advance(now);
        }
    }

    /// Ends a ceremony that ran past its overall time limit: a timeout
    /// blaming the parties still awaited. A finished ceremony is left as is.
    pub fn cancel(&mut self)
        requires
            old(self).wf(),
        ensures
            final(self).wf(),
            final(self).outcome is Some,
            final(self).mapping == old(self).mapping,
            final(self).ceremony_id == old(self).ceremony_id,
            old(self).outcome is Some ==> final(self).outcome == old(self).outcome,
    {
        if self.outcome.is_some() {
            return;
        }
        let flags = self.received_flags();
        let missing = failed_idxs(&flags);
        let ids = idxs_to_ids(&self.mapping, &missing);
        self.finish(Err((ids, FailureReason::Timeout)));
    }

    /// Takes the messages waiting to be sent.
    pub fn take_outgoing(&mut self) -> (r: Vec<OutgoingMessage>)
        requires
            old(self).wf(),
        ensures
            final(self).wf(),
            r@ == old(self).outbox@,
            final(self).outbox@.len() == 0,
            *final(self) == (KeygenRunner { outbox: final(self).outbox, ..*old(self) }),
    {
        let mut r: Vec<OutgoingMessage> = Vec::new();
        std::mem::swap(&mut self.outbox, &mut r);
        r
    }
}

} // verus!
