//! The registry of live ceremonies: starts ceremonies on local request,
//! routes peer messages to them, keeps messages for ceremonies not yet
//! started, enforces increasing ceremony ids and collects the results.
use vstd::prelude::*;
use crate::index_map::{strictly_increasing, PartyIdxMapping};
use crate::primitives::{AccountId, AuthorityCount, CeremonyId, ChainTag, FailureReason};
use crate::keygen::{keygen_result_ok, KeygenResult, KeygenRunner, KeygenScheme};
use crate::broadcast::all_received;
use crate::runner::{
    blame_ok, failed_ids, received_flags, OutgoingMessage, SigningResult, SigningRunner, SigningScheme,
};
use crate::stages::{is_initial_stage, KeygenStageName, MultisigData, SigningStageName};

verus! {

/// A ceremony known to the manager.
pub enum CeremonyState<S, K> {
    /// A signing ceremony started locally: its runner.
    Authorised(SigningRunner<S>),
    /// A key generation started locally: its runner.
    AuthorisedKeygen(KeygenRunner<K>),
    /// Only heard of from peers: the messages received (with their senders)
    /// and when the first arrived.
    Unauthorised(Vec<(AccountId, MultisigData)>, u64),
}

pub struct CeremonyEntry<S, K> {
    pub id: CeremonyId,
    pub state: CeremonyState<S, K>,
}

/// The result of a finished key generation, to be reported to the requester.
pub struct KeygenOutcome {
    pub id: CeremonyId,
    pub participants: Vec<AccountId>,
    pub result: KeygenResult,
}

/// The result of a finished signing ceremony, to be reported to the requester.
pub struct CeremonyOutcome {
    pub id: CeremonyId,
    pub participants: Vec<AccountId>,
    pub result: SigningResult,
}

pub struct CeremonyManager<S, K> {
    pub my_account_id: AccountId,
    /// The highest ceremony id seen in a request.
    pub latest_ceremony_id: CeremonyId,
    pub ceremonies: Vec<CeremonyEntry<S, K>>,
    /// Results of finished signing ceremonies, in the order they finished.
    pub outcomes: Vec<CeremonyOutcome>,
    /// Results of finished key generations, in the order they finished.
    pub keygen_outcomes: Vec<KeygenOutcome>,
    /// Serialised messages waiting to be sent.
    pub outbox: Vec<OutgoingMessage>,
    pub stage_timeout: u64,
    /// How long messages for a ceremony not started locally are kept.
    pub unauthorised_ttl: u64,
    /// How long a ceremony may run in all.
    pub max_ceremony_duration: u64,
}

/// An entry is consistent: a runner holds its invariant and belongs to
/// this id, which the watermark has reached; a buffer holds only messages of
/// a protocol's initial stage.
pub open spec fn entry_ok<S: SigningScheme, K: KeygenScheme>(e: CeremonyEntry<S, K>, latest: CeremonyId) -> bool {
    match e.state {
        CeremonyState::Authorised(r) => r.wf() && r.ceremony_id == e.id && r.outcome is None && e.id <= latest,
        CeremonyState::AuthorisedKeygen(r) => r.wf() && r.ceremony_id == e.id && r.outcome is None && e.id <= latest,
        CeremonyState::Unauthorised(buf, _) => forall|i: int|
            0 <= i < buf@.len() ==> is_initial_stage((#[trigger] buf@[i]).1.spec_stage()),
    }
}

/// No two entries share an id.
pub open spec fn ids_distinct<S, K>(c: Seq<CeremonyEntry<S, K>>) -> bool {
    forall|i: int, j: int| 0 <= i < c.len() && 0 <= j < c.len() && i != j ==> c[i].id != c[j].id
}

/// Whether some entry has id `id`.
pub open spec fn has_id<S, K>(c: Seq<CeremonyEntry<S, K>>, id: CeremonyId) -> bool {
    exists|i: int| 0 <= i < c.len() && (#[trigger] c[i]).id == id
}

impl<S: SigningScheme, K: KeygenScheme> CeremonyManager<S, K> {
    /// At most one state per ceremony id; every entry consistent; every
    /// reported failure blames participants only, sorted.
    pub open spec fn wf(&self) -> bool {
        &&& ids_distinct(self.ceremonies@)
        &&& forall|i: int|
            0 <= i < self.ceremonies@.len() ==> entry_ok(#[trigger] self.ceremonies@[i], self.latest_ceremony_id)
        &&& forall|i: int|
            0 <= i < self.outcomes@.len() ==> outcome_ok(#[trigger] self.outcomes@[i])
        &&& forall|i: int|
            0 <= i < self.keygen_outcomes@.len() ==> keygen_outcome_ok(#[trigger] self.keygen_outcomes@[i])
    }

    pub fn new(
        my_account_id: AccountId,
        stage_timeout: u64,
        unauthorised_ttl: u64,
        max_ceremony_duration: u64,
    ) -> (r: Self)
        ensures
            r.wf(),
            r.my_account_id == my_account_id,
            r.latest_ceremony_id == 0,
            r.ceremonies@.len() == 0,
            r.outcomes@.len() == 0,
    {
        CeremonyManager {
            my_account_id,
            latest_ceremony_id: 0,
            ceremonies: Vec::new(),
            outcomes: Vec::new(),
            keygen_outcomes: Vec::new(),
            outbox: Vec::new(),
            stage_timeout,
            unauthorised_ttl,
            max_ceremony_duration,
        }
    }

    /// Position of the entry for `id`, if there is one.
    pub fn find(&self, id: CeremonyId) -> (r: Option<usize>)
        ensures
            r matches Some(i) ==> i < self.ceremonies@.len() && self.ceremonies@[i as int].id == id,
            r is None ==> !has_id(self.ceremonies@, id),
    {
        let mut i: usize = 0;
        while i < self.ceremonies.len()
            invariant
                i <= self.ceremonies@.len(),
                forall|k: int| 0 <= k < i ==> (#[trigger] self.ceremonies@[k]).id != id,
            decreases self.ceremonies@.len() - i,
        {
            if self.ceremonies[i].id == id {
                return Some(i);
            }
            i = i + 1;
        }
        None
    }

    /// Takes out the entry at `i`.
    fn take_entry(&mut self, i: usize) -> (e: CeremonyEntry<S, K>)
        requires
            old(self).wf(),
            i < old(self).ceremonies@.len(),
        ensures
            e == old(self).ceremonies@[i as int],
            final(self).ceremonies@ == old(self).ceremonies@.remove(i as int),
            final(self).wf(),
            !has_id(final(self).ceremonies@, e.id),
            final(self).latest_ceremony_id == old(self).latest_ceremony_id,
            final(self).my_account_id == old(self).my_account_id,
            final(self).outcomes == old(self).outcomes,
            final(self).keygen_outcomes == old(self).keygen_outcomes,
            final(self).outbox == old(self).outbox,
            final(self).unauthorised_ttl == old(self).unauthorised_ttl,
            final(self).max_ceremony_duration == old(self).max_ceremony_duration,
            final(self).stage_timeout == old(self).stage_timeout,
    {
        let e = self.ceremonies.remove(i);
        proof {
            let c0 = old(self).ceremonies@;
            let c = self.ceremonies@;
            assert forall|k: int| 0 <= k < c.len() implies c[k].id != e.id by {
                if k < i {
                    assert(c[k] == c0[k]);
                } else {
                    assert(c[k] == c0[k + 1]);
                }
            }
            assert forall|k: int| 0 <= k < c.len() implies entry_ok(#[trigger] c[k], self.latest_ceremony_id) by {
                if k < i {
                    assert(c[k] == c0[k]);
                } else {
                    assert(c[k] == c0[k + 1]);
                }
            }
            assert forall|a: int, b: int| 0 <= a < c.len() && 0 <= b < c.len() && a != b implies c[a].id != c[b].id by {
                let a0 = if a < i { a } else { a + 1 };
                let b0 = if b < i { b } else { b + 1 };
                assert(c[a] == c0[a0]);
                assert(c[b] == c0[b0]);
            }
        }
        e
    }

    /// Adds an entry for an id that has none.
    fn put_entry(&mut self, e: CeremonyEntry<S, K>)
        requires
            old(self).wf(),
            !has_id(old(self).ceremonies@, e.id),
            entry_ok(e, old(self).latest_ceremony_id),
        ensures
            final(self).wf(),
            final(self).ceremonies@ == old(self).ceremonies@.push(e),
            final(self).latest_ceremony_id == old(self).latest_ceremony_id,
            final(self).my_account_id == old(self).my_account_id,
            final(self).outcomes == old(self).outcomes,
            final(self).keygen_outcomes == old(self).keygen_outcomes,
            final(self).outbox == old(self).outbox,
            final(self).unauthorised_ttl == old(self).unauthorised_ttl,
            final(self).max_ceremony_duration == old(self).max_ceremony_duration,
            final(self).stage_timeout == old(self).stage_timeout,
    {
        let ghost c0 = self.ceremonies@;
        self.ceremonies.push(e);
        proof {
            let c = self.ceremonies@;
            assert forall|a: int, b: int| 0 <= a < c.len() && 0 <= b < c.len() && a != b implies c[a].id != c[b].id by {
                if a == c0.len() as int {
                    assert(c[b] == c0[b]);
                } else if b == c0.len() as int {
                    assert(c[a] == c0[a]);
                } else {
                    assert(c[a] == c0[a] && c[b] == c0[b]);
                }
            }
            assert forall|k: int| 0 <= k < c.len() implies entry_ok(#[trigger] c[k], self.latest_ceremony_id) by {
                if k < c0.len() {
                    assert(c[k] == c0[k]);
                }
            }
        }
    }

    /// Sends what the runner has to send, then records its result if it
    /// has finished, or puts it back.
    fn settle(&mut self, runner: SigningRunner<S>)
        requires
            old(self).wf(),
            runner.wf(),
            !has_id(old(self).ceremonies@, runner.ceremony_id),
            runner.ceremony_id <= old(self).latest_ceremony_id,
        ensures
            final(self).wf(),
            final(self).latest_ceremony_id == old(self).latest_ceremony_id,
            final(self).my_account_id == old(self).my_account_id,
            final(self).ceremonies@.len() <= old(self).ceremonies@.len() + 1,
            forall|k: int| 0 <= k < old(self).ceremonies@.len() ==> #[trigger] final(self).ceremonies@[k] == old(self).ceremonies@[k],
            final(self).ceremonies@.len() == old(self).ceremonies@.len() + 1 ==> final(self).ceremonies@[old(self).ceremonies@.len() as int].id == runner.ceremony_id,
            final(self).keygen_outcomes == old(self).keygen_outcomes,
            signing_settled(*old(self), old(self).ceremonies@, *final(self), runner),
    {
        let ghost runner0 = runner;
        let mut runner = runner;
        let mut out = runner.take_outgoing();
        self.outbox.append(&mut out);
        match runner.outcome {
            Some(result) => {
                let participants = runner.mapping.ids();
                let o = CeremonyOutcome { id: runner.ceremony_id, participants, result };
                self.outcomes.push(o);
                assert(self.outcomes@.drop_last() =~= old(self).outcomes@);
                assert(self.outbox@ == old(self).outbox@ + runner0.outbox@);
                assert(self.ceremonies@ == old(self).ceremonies@);
                assert(runner0.outcome == Some(result));
                assert(self.outcomes@.last().participants@ == runner0.mapping@);
                proof {
                    assert forall|i: int| 0 <= i < self.outcomes@.len() implies outcome_ok(#[trigger] self.outcomes@[i]) by {
                        if i < old(self).outcomes@.len() {
                            assert(self.outcomes@[i] == old(self).outcomes@[i]);
                        }
                    }
                }
            },
            None => {
                let id = runner.ceremony_id;
                let ghost r1 = runner;
                self.put_entry(CeremonyEntry { id, state: CeremonyState::Authorised(runner) });
                assert(self.ceremonies@.drop_last() =~= old(self).ceremonies@);

            },
        }
    }

    /// Sends what a key generation runner has to send, then records its
    /// result if it has finished, or puts it back.
    fn settle_keygen(&mut self, runner: KeygenRunner<K>)
        requires
            old(self).wf(),
            runner.wf(),
            !has_id(old(self).ceremonies@, runner.ceremony_id),
            runner.ceremony_id <= old(self).latest_ceremony_id,
        ensures
            final(self).wf(),
            final(self).latest_ceremony_id == old(self).latest_ceremony_id,
            final(self).my_account_id == old(self).my_account_id,
            final(self).ceremonies@.len() <= old(self).ceremonies@.len() + 1,
            forall|k: int| 0 <= k < old(self).ceremonies@.len() ==> #[trigger] final(self).ceremonies@[k] == old(self).ceremonies@[k],
            final(self).ceremonies@.len() == old(self).ceremonies@.len() + 1 ==> final(self).ceremonies@[old(self).ceremonies@.len() as int].id == runner.ceremony_id,
            final(self).outcomes == old(self).outcomes,
            keygen_settled(*old(self), old(self).ceremonies@, *final(self), runner),
    {
        let ghost runner0 = runner;
        let mut runner = runner;
        let mut out = runner.take_outgoing();
        self.outbox.append(&mut out);
        match runner.outcome {
            Some(result) => {
                let participants = runner.mapping.ids();
                let o = KeygenOutcome { id: runner.ceremony_id, participants, result };
                self.keygen_outcomes.push(o);
                assert(self.keygen_outcomes@.drop_last() =~= old(self).keygen_outcomes@);
                proof {
                    assert forall|i: int| 0 <= i < self.keygen_outcomes@.len() implies keygen_outcome_ok(#[trigger] self.keygen_outcomes@[i]) by {
                        if i < old(self).keygen_outcomes@.len() {
                            assert(self.keygen_outcomes@[i] == old(self).keygen_outcomes@[i]);
                        }
                    }
                }
            },
            None => {
                let id = runner.ceremony_id;
                self.put_entry(CeremonyEntry { id, state: CeremonyState::AuthorisedKeygen(runner) });
                assert(self.ceremonies@.drop_last() =~= old(self).ceremonies@);
            },
        }
    }
}

impl<S: SigningScheme, K: KeygenScheme> CeremonyManager<S, K> {
    /// Starts a signing ceremony `ceremony_id` among `signers` (sorted, no
    /// repeats) with the key share `key`. Gives the failure at once when the
    /// id is not above every id seen so far, the key is unknown (`None`), the
    /// signers are malformed, or this node is not among them; otherwise the
    /// ceremony starts, replaying any messages that peers sent for it before.
    /// The watermark rises to `ceremony_id` unless the id was a duplicate.
    pub fn start_signing(
        &mut self,
        ceremony_id: CeremonyId,
        signers: Vec<AccountId>,
        key: Option<S>,
        payloads: Vec<Vec<u8>>,
        chain: ChainTag,
        now: u64,
    ) -> (r: Option<SigningResult>)
        requires
            old(self).wf(),
        ensures
            final(self).wf(),
            final(self).my_account_id == old(self).my_account_id,
            ceremony_id <= old(self).latest_ceremony_id ==> (r matches Some(Err((b, reason)))
                && b@.len() == 0 && reason == FailureReason::DuplicateCeremonyId)
                && *final(self) == *old(self),
            ceremony_id > old(self).latest_ceremony_id ==> final(self).latest_ceremony_id == ceremony_id,
            ceremony_id > old(self).latest_ceremony_id && key is None ==> (r matches Some(Err((b, reason)))
                && b@.len() == 0 && reason == FailureReason::UnknownKey
                && !has_id(final(self).ceremonies@, ceremony_id)),
            ceremony_id > old(self).latest_ceremony_id && key is Some && !crate::index_map::valid_participants(signers@)
                ==> (r matches Some(Err((b, reason))) && b@.len() == 0 && reason == FailureReason::InvalidParticipants)
                && !has_id(final(self).ceremonies@, ceremony_id),
            ceremony_id > old(self).latest_ceremony_id && key is Some && crate::index_map::valid_participants(signers@)
                && !signers@.contains(old(self).my_account_id)
                ==> (r matches Some(Err((b, reason))) && b@.len() == 0 && reason == FailureReason::NotParticipating)
                && !has_id(final(self).ceremonies@, ceremony_id),
            ceremony_id > old(self).latest_ceremony_id && key is Some && crate::index_map::valid_participants(signers@)
                && signers@.contains(old(self).my_account_id) && signers@.len() > 1 ==> {
                &&& final(self).ceremonies@.len() > 0
                &&& final(self).ceremonies@.last().id == ceremony_id
                &&& final(self).ceremonies@.last().state is Authorised
                &&& final(self).ceremonies@.last().state->Authorised_0.outcome is None
            },
            ceremony_id > old(self).latest_ceremony_id && key is Some && crate::index_map::valid_participants(signers@)
                && signers@.contains(old(self).my_account_id) ==> r is None,
            r is None ==> signing_started_or_finished(*final(self), ceremony_id, signers@, old(self).my_account_id),
            r is None ==> (final(self).ceremonies@.len() > 0 && final(self).ceremonies@.last().id == ceremony_id
                && final(self).ceremonies@.last().state is Authorised ==> replayed_into(
                buffer_of(old(self).ceremonies@, ceremony_id),
                final(self).ceremonies@.last().state->Authorised_0,
            )),
    {
        if ceremony_id <= self.latest_ceremony_id {
            let r = Err((Vec::new(), FailureReason::DuplicateCeremonyId));
            return Some(r);
        }
        self.raise_watermark(ceremony_id);
        let ghost buf0 = buffer_of(old(self).ceremonies@, ceremony_id);
        let buffered = match self.find(ceremony_id) {
            Some(i) => {
                proof {
                    lemma_index_of(self.ceremonies@, i as int);
                }
                let e = self.take_entry(i);
                proof {
                    assert(entry_ok(e, old(self).latest_ceremony_id));
                }
                match e.state {
                    CeremonyState::Unauthorised(buf, _) => buf,
                    _ => Vec::new(),
                }
            },
            None => Vec::new(),
        };
        assert(buffered@ == buf0);
        let scheme = match key {
            Some(k) => k,
            None => return Some(Err((Vec::new(), FailureReason::UnknownKey))),
        };
        let ghost ghost_parts = signers@;
        let mapping = match PartyIdxMapping::from_participants(signers) {
            Some(m) => m,
            None => return Some(Err((Vec::new(), FailureReason::InvalidParticipants))),
        };
        let own_idx = match mapping.get_idx(self.my_account_id) {
            Some(i) => i,
            None => return Some(Err((Vec::new(), FailureReason::NotParticipating))),
        };
        let mut runner = SigningRunner::new(
            ceremony_id,
            mapping,
            own_idx,
            payloads,
            chain,
            scheme,
            now,
            self.stage_timeout,
        );
        proof {
            if has_id(old(self).ceremonies@, ceremony_id) && entry_for(old(self).ceremonies@, ceremony_id).state is Unauthorised {
                let j = index_of(old(self).ceremonies@, ceremony_id);
                assert(entry_ok(old(self).ceremonies@[j], old(self).latest_ceremony_id));
            }
        }
        let mut buf = buffered;
        let ghost mut t: int = 0;
        assert(buf@ =~= buf0.skip(0));
        while buf.len() > 0
            invariant
                runner.wf(),
                runner.ceremony_id == ceremony_id,
                runner.mapping@ == ghost_parts,
                runner.mapping@[runner.own_idx - 1] == self.my_account_id,
                forall|q: int| 0 <= q < buf0.len() ==> is_initial_stage((#[trigger] buf0[q]).1.spec_stage()),
                ghost_parts.len() > 1 ==> runner.outcome is None && runner.delayed@.len() == 0,
                ghost_parts.len() > 1 ==> runner.stage_name == SigningStageName::AwaitCommitments1 || runner.stage_name == SigningStageName::VerifyCommitmentsBroadcast2,
                0 <= t <= buf0.len(),
                buf@ == buf0.skip(t),
                replayed_into(buf0.take(t), runner),
            decreases buf@.len(),
        {
            let ghost r_before = runner;
            let (sender, data) = buf.remove(0);
            let ghost data_g = data;
            proof {
                assert(buf0[t] == (sender, data_g));
                assert(is_initial_stage(buf0[t].1.spec_stage()));
            }
            match data {
                MultisigData::Signing(d) => match runner.mapping.get_idx(sender) {
                    Some(idx) => {
                        runner.process_message(idx, d, now);
                        proof {
                            assert(r_before.handles(runner, idx, d));
                        }
                    },
                    None => {},
                },
                MultisigData::Keygen(_) => {},
            }
            proof {
                lemma_replay_step(buf0, t, r_before, runner, sender, data_g);
                t = t + 1;
                assert(buf@ =~= buf0.skip(t));
            }
        }
        assert(buf0.take(t) =~= buf0);
        let ghost r_final = runner;
        self.settle(runner);
        proof {
            if r_final.outcome is None {
                let r = self.ceremonies@.last().state->Authorised_0;
                assert(r == (SigningRunner { outbox: r.outbox, ..r_final }));
            } else if self.ceremonies@.len() > 0 && self.ceremonies@.last().id == ceremony_id {
                assert(has_id(self.ceremonies@, ceremony_id));
            }
        }
        None
    }

    /// Starts a key generation `ceremony_id` among `participants` (sorted,
    /// no repeats) with the scheme `scheme`. Gives the failure at once when
    /// the id is not above every id seen so far, the participants are
    /// malformed, or this node is not among them; otherwise the ceremony
    /// starts, replaying any messages that peers sent for it before. The
    /// watermark rises to `ceremony_id` unless the id was a duplicate.
    pub fn start_keygen(
        &mut self,
        ceremony_id: CeremonyId,
        participants: Vec<AccountId>,
        scheme: K,
        now: u64,
    ) -> (r: Option<KeygenResult>)
        requires
            old(self).wf(),
        ensures
            final(self).wf(),
            final(self).my_account_id == old(self).my_account_id,
            ceremony_id <= old(self).latest_ceremony_id ==> (r matches Some(Err((b, reason)))
                && b@.len() == 0 && reason == FailureReason::DuplicateCeremonyId)
                && *final(self) == *old(self),
            ceremony_id > old(self).latest_ceremony_id ==> final(self).latest_ceremony_id == ceremony_id,
            ceremony_id > old(self).latest_ceremony_id && !crate::index_map::valid_participants(participants@)
                ==> (r matches Some(Err((b, reason))) && b@.len() == 0 && reason == FailureReason::InvalidParticipants)
                && !has_id(final(self).ceremonies@, ceremony_id),
            ceremony_id > old(self).latest_ceremony_id && crate::index_map::valid_participants(participants@)
                && !participants@.contains(old(self).my_account_id)
                ==> (r matches Some(Err((b, reason))) && b@.len() == 0 && reason == FailureReason::NotParticipating)
                && !has_id(final(self).ceremonies@, ceremony_id),
            ceremony_id > old(self).latest_ceremony_id && crate::index_map::valid_participants(participants@)
                && participants@.contains(old(self).my_account_id) && participants@.len() > 1 ==> {
                &&& final(self).ceremonies@.len() > 0
                &&& final(self).ceremonies@.last().id == ceremony_id
                &&& final(self).ceremonies@.last().state is AuthorisedKeygen
                &&& final(self).ceremonies@.last().state->AuthorisedKeygen_0.outcome is None
            },
            ceremony_id > old(self).latest_ceremony_id && crate::index_map::valid_participants(participants@)
                && participants@.contains(old(self).my_account_id) ==> r is None,
            r is None ==> keygen_started_or_finished(*final(self), ceremony_id, participants@, old(self).my_account_id),
            r is None ==> (final(self).ceremonies@.len() > 0 && final(self).ceremonies@.last().id == ceremony_id
                && final(self).ceremonies@.last().state is AuthorisedKeygen ==> keygen_replayed_into(
                buffer_of(old(self).ceremonies@, ceremony_id),
                final(self).ceremonies@.last().state->AuthorisedKeygen_0,
            )),
    {
        if ceremony_id <= self.latest_ceremony_id {
            let r = Err((Vec::new(), FailureReason::DuplicateCeremonyId));
            return Some(r);
        }
        self.raise_watermark(ceremony_id);
        let ghost buf0 = buffer_of(old(self).ceremonies@, ceremony_id);
        let buffered = match self.find(ceremony_id) {
            Some(i) => {
                proof {
                    lemma_index_of(self.ceremonies@, i as int);
                }
                let e = self.take_entry(i);
                proof {
                    assert(entry_ok(e, old(self).latest_ceremony_id));
                }
                match e.state {
                    CeremonyState::Unauthorised(buf, _) => buf,
                    _ => Vec::new(),
                }
            },
            None => Vec::new(),
        };
        assert(buffered@ == buf0);
        let ghost ghost_parts = participants@;
        let mapping = match PartyIdxMapping::from_participants(participants) {
            Some(m) => m,
            None => return Some(Err((Vec::new(), FailureReason::InvalidParticipants))),
        };
        let own_idx = match mapping.get_idx(self.my_account_id) {
            Some(i) => i,
            None => return Some(Err((Vec::new(), FailureReason::NotParticipating))),
        };
        let mut runner = KeygenRunner::new(ceremony_id, mapping, own_idx, scheme, now, self.stage_timeout);
        proof {
            if has_id(old(self).ceremonies@, ceremony_id) && entry_for(old(self).ceremonies@, ceremony_id).state is Unauthorised {
                let j = index_of(old(self).ceremonies@, ceremony_id);
                assert(entry_ok(old(self).ceremonies@[j], old(self).latest_ceremony_id));
            }
        }
        let mut buf = buffered;
        let ghost mut t: int = 0;
        assert(buf@ =~= buf0.skip(0));
        while buf.len() > 0
            invariant
                runner.wf(),
                runner.ceremony_id == ceremony_id,
                runner.mapping@ == ghost_parts,
                runner.mapping@[runner.own_idx - 1] == self.my_account_id,
                forall|q: int| 0 <= q < buf0.len() ==> is_initial_stage((#[trigger] buf0[q]).1.spec_stage()),
                ghost_parts.len() > 1 ==> runner.outcome is None && runner.delayed@.len() == 0,
                ghost_parts.len() > 1 ==> runner.stage_name == KeygenStageName::HashCommit1 || runner.stage_name == KeygenStageName::VerifyHashCommit2,
                0 <= t <= buf0.len(),
                buf@ == buf0.skip(t),
                keygen_replayed_into(buf0.take(t), runner),
            decreases buf@.len(),
        {
            let ghost r_before = runner;
            let (sender, data) = buf.remove(0);
            let ghost data_g = data;
            proof {
                assert(buf0[t] == (sender, data_g));
                assert(is_initial_stage(buf0[t].1.spec_stage()));
            }
            match data {
                MultisigData::Keygen(d) => match runner.mapping.get_idx(sender) {
                    Some(idx) => {
                        runner.process_message(idx, d, now);
                        proof {
                            assert(r_before.handles(runner, idx, d));
                        }
                    },
                    None => {},
                },
                MultisigData::Signing(_) => {},
            }
            proof {
                lemma_keygen_replay_step(buf0, t, r_before, runner, sender, data_g);
                t = t + 1;
                assert(buf@ =~= buf0.skip(t));
            }
        }
        assert(buf0.take(t) =~= buf0);
        let ghost r_final = runner;
        self.settle_keygen(runner);
        proof {
            if r_final.outcome is None {
                let r = self.ceremonies@.last().state->AuthorisedKeygen_0;
                assert(r == (KeygenRunner { outbox: r.outbox, ..r_final }));
            } else if self.ceremonies@.len() > 0 && self.ceremonies@.last().id == ceremony_id {
                assert(has_id(self.ceremonies@, ceremony_id));
            }
        }
        None
    }

    /// Raises the watermark to `id`, which is above it; a ceremony with that
    /// id can no longer be opened by peers.
    fn raise_watermark(&mut self, id: CeremonyId)
        requires
            old(self).wf(),
            id > old(self).latest_ceremony_id,
        ensures
            final(self).wf(),
            final(self).latest_ceremony_id == id,
            final(self).ceremonies == old(self).ceremonies,
            final(self).my_account_id == old(self).my_account_id,
            final(self).outcomes == old(self).outcomes,
            final(self).keygen_outcomes == old(self).keygen_outcomes,
            final(self).outbox == old(self).outbox,
    {
        self.latest_ceremony_id = id;
        proof {
            assert forall|i: int| 0 <= i < self.ceremonies@.len() implies entry_ok(#[trigger] self.ceremonies@[i], id) by {
                assert(entry_ok(old(self).ceremonies@[i], old(self).latest_ceremony_id));
            }
        }
    }

    /// Acknowledges a ceremony id in which this node does not take part:
    /// raises the watermark to it and drops messages buffered for it. An id
    /// not above the watermark changes nothing.
    pub fn update_latest_ceremony_id(&mut self, ceremony_id: CeremonyId)
        requires
            old(self).wf(),
        ensures
            final(self).wf(),
            ceremony_id <= old(self).latest_ceremony_id ==> *final(self) == *old(self),
            ceremony_id > old(self).latest_ceremony_id ==> final(self).latest_ceremony_id == ceremony_id
                && !has_id(final(self).ceremonies@, ceremony_id),
            ceremony_id > old(self).latest_ceremony_id ==> final(self).outcomes == old(self).outcomes
                && final(self).keygen_outcomes == old(self).keygen_outcomes && final(self).outbox
                == old(self).outbox && final(self).ceremonies@ == if has_id(
                old(self).ceremonies@,
                ceremony_id,
            ) {
                old(self).ceremonies@.remove(index_of(old(self).ceremonies@, ceremony_id))
            } else {
                old(self).ceremonies@
            },
    {
        if ceremony_id <= self.latest_ceremony_id {
            return;
        }
        self.raise_watermark(ceremony_id);
        match self.find(ceremony_id) {
            Some(i) => {
                proof {
                    lemma_index_of(self.ceremonies@, i as int);
                }
                let e = self.take_entry(i);
                proof {
                    assert(entry_ok(e, old(self).latest_ceremony_id));
                }
            },
            None => {},
        }
    }

    /// Routes a message from peer `sender` for ceremony `ceremony_id`. A
    /// running ceremony gets it if the sender takes part; for a ceremony not
    /// started here, a message of a protocol's initial stage is kept (opening
    /// a buffer if needed, when the id is above the watermark); anything else
    /// is dropped.
    pub fn process_peer_message(
        &mut self,
        sender: AccountId,
        ceremony_id: CeremonyId,
        data: MultisigData,
        now: u64,
    )
        requires
            old(self).wf(),
        ensures
            final(self).wf(),
            final(self).latest_ceremony_id == old(self).latest_ceremony_id,
            !has_id(old(self).ceremonies@, ceremony_id) ==> final(self).outcomes == old(self).outcomes
                && final(self).keygen_outcomes == old(self).keygen_outcomes && final(self).outbox
                == old(self).outbox,
            !has_id(old(self).ceremonies@, ceremony_id) && ceremony_id > old(self).latest_ceremony_id
                && is_initial_stage(data.spec_stage()) ==> {
                &&& final(self).ceremonies@.len() == old(self).ceremonies@.len() + 1
                &&& final(self).ceremonies@.drop_last() == old(self).ceremonies@
                &&& final(self).ceremonies@.last().id == ceremony_id
                &&& final(self).ceremonies@.last().state matches CeremonyState::Unauthorised(buf, t) && t
                    == now && buf@ == seq![(sender, data)]
            },
            !has_id(old(self).ceremonies@, ceremony_id) && (ceremony_id <= old(self).latest_ceremony_id
                || !is_initial_stage(data.spec_stage())) ==> final(self).ceremonies@ == old(self).ceremonies@,
            has_id(old(self).ceremonies@, ceremony_id) && entry_for(old(self).ceremonies@, ceremony_id).state is Unauthorised ==> {
                &&& final(self).outcomes == old(self).outcomes
                &&& final(self).keygen_outcomes == old(self).keygen_outcomes
                &&& final(self).outbox == old(self).outbox
                &&& final(self).ceremonies@.len() == old(self).ceremonies@.len()
                &&& final(self).ceremonies@.drop_last() == old(self).ceremonies@.remove(
                    index_of(old(self).ceremonies@, ceremony_id),
                )
                &&& final(self).ceremonies@.last().id == ceremony_id
                &&& final(self).ceremonies@.last().state matches CeremonyState::Unauthorised(buf1, t1)
                    && t1 == entry_for(old(self).ceremonies@, ceremony_id).state->Unauthorised_1
                    && buf1@ == if is_initial_stage(data.spec_stage()) {
                    entry_for(old(self).ceremonies@, ceremony_id).state->Unauthorised_0@.push((sender, data))
                } else {
                    entry_for(old(self).ceremonies@, ceremony_id).state->Unauthorised_0@
                }
            },
            has_id(old(self).ceremonies@, ceremony_id) && entry_for(old(self).ceremonies@, ceremony_id).state is Authorised
                ==> exists|r1: SigningRunner<S>|
                #[trigger] signing_routed(entry_for(old(self).ceremonies@, ceremony_id).state->Authorised_0, r1, sender, data) && signing_settled(
                    *old(self),
                    old(self).ceremonies@.remove(index_of(old(self).ceremonies@, ceremony_id)),
                    *final(self),
                    r1,
                ),
            has_id(old(self).ceremonies@, ceremony_id) && entry_for(old(self).ceremonies@, ceremony_id).state is AuthorisedKeygen
                ==> exists|r1: KeygenRunner<K>|
                #[trigger] keygen_routed(entry_for(old(self).ceremonies@, ceremony_id).state->AuthorisedKeygen_0, r1, sender, data) && keygen_settled(
                    *old(self),
                    old(self).ceremonies@.remove(index_of(old(self).ceremonies@, ceremony_id)),
                    *final(self),
                    r1,
                ),
    {
        let ghost data_g = data;
        match self.find(ceremony_id) {
            Some(i) => {
                proof {
                    lemma_index_of(self.ceremonies@, i as int);
                }
                let ghost after_take = self.ceremonies@.remove(i as int);
                let e = self.take_entry(i);
                let id = e.id;
                proof {
                    assert(entry_ok(e, self.latest_ceremony_id));
                }
                match e.state {
                    CeremonyState::Authorised(runner) => {
                        let ghost r0 = runner;
                        let mut runner = runner;
                        match data {
                            MultisigData::Signing(d) => match runner.mapping.get_idx(sender) {
                                Some(idx) => {
                                    runner.process_message(idx, d, now);
                                    assert(r0.handles(runner, idx, d));
                                },
                                None => {},
                            },
                            MultisigData::Keygen(_) => {},
                        }
                        assert(signing_routed(r0, runner, sender, data_g));
                        self.settle(runner);
                    },
                    CeremonyState::AuthorisedKeygen(runner) => {
                        let ghost r0 = runner;
                        let mut runner = runner;
                        match data {
                            MultisigData::Keygen(d) => match runner.mapping.get_idx(sender) {
                                Some(idx) => {
                                    runner.process_message(idx, d, now);
                                    assert(r0.handles(runner, idx, d));
                                },
                                None => {},
                            },
                            MultisigData::Signing(_) => {},
                        }
                        assert(keygen_routed(r0, runner, sender, data_g));
                        self.settle_keygen(runner);
                    },
                    CeremonyState::Unauthorised(buf, created) => {
                        let mut buf = buf;
                        if data.should_delay_unauthorised() {
                            buf.push((sender, data));
                        }
                        let ne = CeremonyEntry { id, state: CeremonyState::Unauthorised(buf, created) };
                        proof {
                            assert(entry_ok(e, self.latest_ceremony_id));
                        }
                        self.put_entry(ne);
                        assert(self.ceremonies@.drop_last() =~= after_take);
                    },
                }
            },
            None => {
                if ceremony_id > self.latest_ceremony_id && data.should_delay_unauthorised() {
                    let mut buf: Vec<(AccountId, MultisigData)> = Vec::new();
                    buf.push((sender, data));
                    self.put_entry(
                        CeremonyEntry { id: ceremony_id, state: CeremonyState::Unauthorised(buf, now) },
                    );
                    assert(self.ceremonies@[self.ceremonies@.len() - 1].id == ceremony_id);
                    assert(self.ceremonies@.drop_last() =~= old(self).ceremonies@);
                }
            },
        }
    }

    /// Sweeps all ceremonies at time `now`: a stage past its deadline
    /// finishes or times out, a ceremony past the overall limit is cancelled,
    /// a buffer for a ceremony never started expires after its time to live
    /// without blaming anyone. Finished ceremonies leave the registry and
    /// their results are recorded; nothing else is recorded.
    pub fn tick(&mut self, now: u64)
        requires
            old(self).wf(),
        ensures
            final(self).wf(),
            final(self).latest_ceremony_id == old(self).latest_ceremony_id,
            final(self).ceremonies@.len() <= old(self).ceremonies@.len(),
            forall|k: int|
                0 <= k < final(self).ceremonies@.len() ==> has_id(old(self).ceremonies@, #[trigger] final(self).ceremonies@[k].id),
            forall|i: int|
                0 <= i < old(self).ceremonies@.len() ==> swept(
                    #[trigger] old(self).ceremonies@[i],
                    *final(self),
                    now,
                    old(self).unauthorised_ttl,
                    old(self).max_ceremony_duration,
                ),
            grows(*old(self), *final(self)),
            forall|k: int|
                old(self).outcomes@.len() <= k < final(self).outcomes@.len() ==> ran_signing(
                    old(self).ceremonies@,
                    #[trigger] final(self).outcomes@[k].id,
                ),
            forall|k: int|
                old(self).keygen_outcomes@.len() <= k < final(self).keygen_outcomes@.len() ==> ran_keygen(
                    old(self).ceremonies@,
                    #[trigger] final(self).keygen_outcomes@[k].id,
                ),
    {
        let ghost c0 = self.ceremonies@;
        let ghost m0 = *self;
        let ghost ttl = self.unauthorised_ttl;
        let ghost max = self.max_ceremony_duration;
        let mut pending = Vec::new();
        std::mem::swap(&mut self.ceremonies, &mut pending);
        let ghost latest = self.latest_ceremony_id;
        let ghost mut j: int = 0;
        proof {
            assert(pending@ =~= c0.skip(0));
            assert forall|i: int| 0 <= i < pending@.len() implies has_id(old(self).ceremonies@, #[trigger] pending@[i].id) by {
                assert(old(self).ceremonies@[i] == pending@[i]);
            }
            assert forall|i: int| 0 <= i < pending@.len() implies entry_ok(#[trigger] pending@[i], latest) by {
                assert(entry_ok(old(self).ceremonies@[i], latest));
            }
        }
        while pending.len() > 0
            invariant
                self.wf(),
                self.latest_ceremony_id == latest,
                self.unauthorised_ttl == ttl,
                self.max_ceremony_duration == max,
                ttl == old(self).unauthorised_ttl,
                max == old(self).max_ceremony_duration,
                c0 == old(self).ceremonies@,
                m0 == *old(self),
                ids_distinct(c0),
                0 <= j <= c0.len(),
                pending@ == c0.skip(j),
                ids_distinct(pending@),
                forall|i: int| 0 <= i < pending@.len() ==> entry_ok(#[trigger] pending@[i], latest),
                forall|i: int| 0 <= i < pending@.len() ==> !has_id(self.ceremonies@, (#[trigger] pending@[i]).id),
                self.ceremonies@.len() + pending@.len() <= old(self).ceremonies@.len(),
                forall|k: int| 0 <= k < self.ceremonies@.len() ==> has_id(old(self).ceremonies@, #[trigger] self.ceremonies@[k].id),
                forall|i: int| 0 <= i < pending@.len() ==> has_id(old(self).ceremonies@, #[trigger] pending@[i].id),
                forall|i: int| 0 <= i < j ==> swept(#[trigger] c0[i], *self, now, ttl, max),
                grows(m0, *self),
                forall|k: int|
                    m0.outcomes@.len() <= k < self.outcomes@.len() ==> ran_signing(c0, #[trigger] self.outcomes@[k].id),
                forall|k: int|
                    m0.keygen_outcomes@.len() <= k < self.keygen_outcomes@.len() ==> ran_keygen(c0, #[trigger] self.keygen_outcomes@[k].id),
            decreases pending@.len(),
        {
            let ghost queue0 = pending@;
            let ghost m_before = *self;
            let e = pending.remove(0);
            let ghost e_g = e;
            proof {
                assert(e == queue0[0]);
                assert(e == c0[j]);
                assert(pending@ =~= c0.skip(j + 1));
                assert forall|i: int| 0 <= i < pending@.len() implies (#[trigger] pending@[i]).id != e.id by {
                    assert(pending@[i] == queue0[i + 1]);
                }
                assert forall|a: int, b: int| 0 <= a < pending@.len() && 0 <= b < pending@.len() && a != b implies pending@[a].id != pending@[b].id by {
                    assert(pending@[a] == queue0[a + 1] && pending@[b] == queue0[b + 1]);
                }
                assert forall|i: int| 0 <= i < pending@.len() implies entry_ok(#[trigger] pending@[i], latest) by {
                    assert(pending@[i] == queue0[i + 1]);
                }
                assert forall|i: int| 0 <= i < pending@.len() implies has_id(old(self).ceremonies@, #[trigger] pending@[i].id) by {
                    assert(pending@[i] == queue0[i + 1]);
                }
                assert(has_id(old(self).ceremonies@, e.id));
                assert(!has_id(self.ceremonies@, e.id));
            }
            let ghost before = self.ceremonies@;
            let id = e.id;
            match e.state {
                CeremonyState::Authorised(runner) => {
                    let ghost r0 = runner;
                    let mut runner = runner;
                    runner.on_timeout(now);
                    if runner.outcome.is_none() && now >= runner.started && now - runner.started
                        >= self.max_ceremony_duration {
                        runner.cancel();
                    }
                    let ghost r1 = runner;
                    self.settle(runner);
                    proof {
                        if (now >= r0.deadline && !all_received(r0.stage.messages@)) || (now
                            >= r0.started && now - r0.started >= max) {
                            assert(r1.outcome is Some);
                            let k = self.outcomes@.len() - 1;
                            assert(self.outcomes@[k].id == e_g.id);
                            if now >= r0.deadline && !all_received(r0.stage.messages@) {
                                assert(signing_timeout_record(self.outcomes@[k], r0));
                            }
                        }
                        if r1.outcome is Some {
                            assert(ran_signing(c0, self.outcomes@[self.outcomes@.len() - 1].id)) by {
                                assert(c0[j].id == e_g.id);
                            }
                        }
                    }
                },
                CeremonyState::AuthorisedKeygen(runner) => {
                    let ghost r0 = runner;
                    let mut runner = runner;
                    runner.on_timeout(now);
                    if runner.outcome.is_none() && now >= runner.started && now - runner.started
                        >= self.max_ceremony_duration {
                        runner.cancel();
                    }
                    let ghost r1 = runner;
                    self.settle_keygen(runner);
                    proof {
                        if (now >= r0.deadline && !all_received(r0.stage.messages@)) || (now
                            >= r0.started && now - r0.started >= max) {
                            assert(r1.outcome is Some);
                            let k = self.keygen_outcomes@.len() - 1;
                            assert(self.keygen_outcomes@[k].id == e_g.id);
                            if now >= r0.deadline && !all_received(r0.stage.messages@) {
                                assert(keygen_timeout_record(self.keygen_outcomes@[k], r0));
                            }
                        }
                        if r1.outcome is Some {
                            assert(ran_keygen(c0, self.keygen_outcomes@[self.keygen_outcomes@.len() - 1].id)) by {
                                assert(c0[j].id == e_g.id);
                            }
                        }
                    }
                },
                CeremonyState::Unauthorised(buf, created) => {
                    if now < created || now - created < self.unauthorised_ttl {
                        let ne = CeremonyEntry { id, state: CeremonyState::Unauthorised(buf, created) };
                        assert(ne == e_g);
                        self.put_entry(ne);
                        assert(self.ceremonies@.last() == e_g);
                        assert(self.ceremonies@.drop_last() =~= before);
                    }
                },
            }
            proof {
                assert(grows(m_before, *self));
                assert(step_ids(m_before, *self, e_g.id));
                assert forall|i: int| 0 <= i < pending@.len() implies !has_id(self.ceremonies@, (#[trigger] pending@[i]).id) by {
                    assert(pending@[i] == queue0[i + 1]);
                    assert(queue0[i + 1].id != queue0[0].id);
                    assert(!has_id(before, pending@[i].id));
                    if has_id(self.ceremonies@, pending@[i].id) {
                        let k = choose|k: int| 0 <= k < self.ceremonies@.len() && (#[trigger] self.ceremonies@[k]).id == pending@[i].id;
                        if k < before.len() {
                            assert(self.ceremonies@[k] == before[k]);
                        } else {
                            assert(self.ceremonies@[k].id == id);
                        }
                    }
                }
                assert forall|k: int| 0 <= k < self.ceremonies@.len() implies has_id(old(self).ceremonies@, #[trigger] self.ceremonies@[k].id) by {
                    if k < before.len() {
                        assert(self.ceremonies@[k] == before[k]);
                    } else {
                        assert(self.ceremonies@[k].id == id);
                    }
                }
                assert forall|i: int| 0 <= i < j + 1 implies swept(#[trigger] c0[i], *self, now, ttl, max) by {
                    if i < j {
                        assert(c0[i].id != c0[j].id);
                        lemma_swept_stable(c0[i], m_before, *self, e_g.id, now, ttl, max);
                    } else {
                        assert(c0[i] == e_g);
                        if e_g.state is Unauthorised {
                            if self.ceremonies@.len() > before.len() {
                                assert(self.ceremonies@[self.ceremonies@.len() - 1] == e_g);
                            }
                        }
                    }
                }
                lemma_grows_trans(m0, m_before, *self);
                assert forall|k: int| m0.outcomes@.len() <= k < self.outcomes@.len() implies ran_signing(c0, #[trigger] self.outcomes@[k].id) by {
                    if k < m_before.outcomes@.len() {
                        assert(self.outcomes@[k] == m_before.outcomes@[k]);
                    }
                }
                assert forall|k: int| m0.keygen_outcomes@.len() <= k < self.keygen_outcomes@.len() implies ran_keygen(c0, #[trigger] self.keygen_outcomes@[k].id) by {
                    if k < m_before.keygen_outcomes@.len() {
                        assert(self.keygen_outcomes@[k] == m_before.keygen_outcomes@[k]);
                    }
                }
                j = j + 1;
            }
        }
    }

    /// Takes the results of the key generations finished since the last call.
    pub fn take_keygen_outcomes(&mut self) -> (r: Vec<KeygenOutcome>)
        requires
            old(self).wf(),
        ensures
            final(self).wf(),
            r@ == old(self).keygen_outcomes@,
            forall|i: int| 0 <= i < r@.len() ==> keygen_outcome_ok(#[trigger] r@[i]),
            final(self).latest_ceremony_id == old(self).latest_ceremony_id,
    {
        let mut r: Vec<KeygenOutcome> = Vec::new();
        std::mem::swap(&mut self.keygen_outcomes, &mut r);
        r
    }

    /// Takes the results of the signing ceremonies finished since the last
    /// call.
    pub fn take_outcomes(&mut self) -> (r: Vec<CeremonyOutcome>)
        requires
            old(self).wf(),
        ensures
            final(self).wf(),
            r@ == old(self).outcomes@,
            forall|i: int| 0 <= i < r@.len() ==> outcome_ok(#[trigger] r@[i]),
            final(self).latest_ceremony_id == old(self).latest_ceremony_id,
    {
        let mut r: Vec<CeremonyOutcome> = Vec::new();
        std::mem::swap(&mut self.outcomes, &mut r);
        r
    }

    /// Takes the messages waiting to be sent.
    pub fn take_outgoing(&mut self) -> (r: Vec<OutgoingMessage>)
        requires
            old(self).wf(),
        ensures
            final(self).wf(),
            r@ == old(self).outbox@,
            final(self).latest_ceremony_id == old(self).latest_ceremony_id,
    {
        let mut r: Vec<OutgoingMessage> = Vec::new();
        std::mem::swap(&mut self.outbox, &mut r);
        r
    }
}

/// The entry with id `id` (meaningful when there is one).
pub open spec fn entry_for<S, K>(c: Seq<CeremonyEntry<S, K>>, id: CeremonyId) -> CeremonyEntry<S, K> {
    c[index_of(c, id)]
}

/// Position of the entry with id `id` (meaningful when there is one).
pub open spec fn index_of<S, K>(c: Seq<CeremonyEntry<S, K>>, id: CeremonyId) -> int {
    choose|i: int| 0 <= i < c.len() && c[i].id == id
}

/// `new` is `old` after a signing runner was settled: what it had to send
/// was queued, and its result was recorded if it had finished; otherwise it
/// was put back as the last entry, with nothing else of it changed.
pub open spec fn signing_settled<S, K>(
    old: CeremonyManager<S, K>,
    old_c: Seq<CeremonyEntry<S, K>>,
    new: CeremonyManager<S, K>,
    runner: SigningRunner<S>,
) -> bool {
    &&& new.outbox@ == old.outbox@ + runner.outbox@
    &&& new.unauthorised_ttl == old.unauthorised_ttl
    &&& new.max_ceremony_duration == old.max_ceremony_duration
    &&& new.stage_timeout == old.stage_timeout
    &&& new.keygen_outcomes == old.keygen_outcomes
    &&& new.latest_ceremony_id == old.latest_ceremony_id
    &&& match runner.outcome {
        Some(res) => {
            &&& new.ceremonies@ == old_c
            &&& new.outcomes@.len() == old.outcomes@.len() + 1
            &&& new.outcomes@.drop_last() == old.outcomes@
            &&& new.outcomes@.last().id == runner.ceremony_id
            &&& new.outcomes@.last().participants@ == runner.mapping@
            &&& new.outcomes@.last().result == res
            &&& crate::runner::success_checks_recorded(res, runner.payloads@.len(), runner.signature_checks@)
        },
        None => {
            &&& new.outcomes == old.outcomes
            &&& new.ceremonies@.len() == old_c.len() + 1
            &&& new.ceremonies@.drop_last() == old_c
            &&& new.ceremonies@.last().id == runner.ceremony_id
            &&& new.ceremonies@.last().state matches CeremonyState::Authorised(r) && r == (SigningRunner {
                outbox: r.outbox,
                ..runner
            })
        },
    }
}

/// The same for a key generation runner.
pub open spec fn keygen_settled<S, K>(
    old: CeremonyManager<S, K>,
    old_c: Seq<CeremonyEntry<S, K>>,
    new: CeremonyManager<S, K>,
    runner: KeygenRunner<K>,
) -> bool {
    &&& new.outbox@ == old.outbox@ + runner.outbox@
    &&& new.unauthorised_ttl == old.unauthorised_ttl
    &&& new.max_ceremony_duration == old.max_ceremony_duration
    &&& new.stage_timeout == old.stage_timeout
    &&& new.outcomes == old.outcomes
    &&& new.latest_ceremony_id == old.latest_ceremony_id
    &&& match runner.outcome {
        Some(res) => {
            &&& new.ceremonies@ == old_c
            &&& new.keygen_outcomes@.len() == old.keygen_outcomes@.len() + 1
            &&& new.keygen_outcomes@.drop_last() == old.keygen_outcomes@
            &&& new.keygen_outcomes@.last().id == runner.ceremony_id
            &&& new.keygen_outcomes@.last().participants@ == runner.mapping@
            &&& new.keygen_outcomes@.last().result == res
        },
        None => {
            &&& new.keygen_outcomes == old.keygen_outcomes
            &&& new.ceremonies@.len() == old_c.len() + 1
            &&& new.ceremonies@.drop_last() == old_c
            &&& new.ceremonies@.last().id == runner.ceremony_id
            &&& new.ceremonies@.last().state matches CeremonyState::AuthorisedKeygen(r) && r == (KeygenRunner {
                outbox: r.outbox,
                ..runner
            })
        },
    }
}

/// A message `data` from account `sender` reached the signing runner `r0`,
/// which became `r1`: handed on under the sender's index when it is signing
/// data from a party, and ignored otherwise.
pub open spec fn signing_routed<S: SigningScheme>(
    r0: SigningRunner<S>,
    r1: SigningRunner<S>,
    sender: AccountId,
    data: MultisigData,
) -> bool {
    match data {
        MultisigData::Signing(d) => if r0.mapping@.contains(sender) {
            exists|idx: AuthorityCount|
                1 <= idx <= r0.mapping@.len() && r0.mapping@[idx - 1] == sender && #[trigger] r0.handles(
                    r1,
                    idx,
                    d,
                )
        } else {
            r1 == r0
        },
        MultisigData::Keygen(_) => r1 == r0,
    }
}

/// The same for a key generation runner and key generation data.
pub open spec fn keygen_routed<K: KeygenScheme>(
    r0: KeygenRunner<K>,
    r1: KeygenRunner<K>,
    sender: AccountId,
    data: MultisigData,
) -> bool {
    match data {
        MultisigData::Keygen(d) => if r0.mapping@.contains(sender) {
            exists|idx: AuthorityCount|
                1 <= idx <= r0.mapping@.len() && r0.mapping@[idx - 1] == sender && #[trigger] r0.handles(
                    r1,
                    idx,
                    d,
                )
        } else {
            r1 == r0
        },
        MultisigData::Signing(_) => r1 == r0,
    }
}

/// With distinct ids, the entry found for an id is the one at `i`.
pub proof fn lemma_index_of<S, K>(c: Seq<CeremonyEntry<S, K>>, i: int)
    requires
        ids_distinct(c),
        0 <= i < c.len(),
    ensures
        index_of(c, c[i].id) == i,
        has_id(c, c[i].id),
{
    let j = index_of(c, c[i].id);
    assert(0 <= j < c.len() && c[j].id == c[i].id);
}

/// The messages buffered for `id` before it started, if any.
pub open spec fn buffer_of<S, K>(c: Seq<CeremonyEntry<S, K>>, id: CeremonyId) -> Seq<(AccountId, MultisigData)> {
    if has_id(c, id) && entry_for(c, id).state is Unauthorised {
        entry_for(c, id).state->Unauthorised_0@
    } else {
        Seq::empty()
    }
}

/// While the runner `r` is still in its first stage, every buffered message
/// of that stage from one of its parties that passes the size check has
/// been recorded.
pub open spec fn replayed_into<S: SigningScheme>(buf: Seq<(AccountId, MultisigData)>, r: SigningRunner<S>) -> bool {
    r.outcome is None && r.stage_name == SigningStageName::AwaitCommitments1 ==> forall|i: int, k: int|
        #![trigger buf[i], r.stage.messages@[k]]
        0 <= i < buf.len() && 0 <= k < r.mapping@.len() && r.mapping@[k] == buf[i].0 && (
        buf[i].1 matches MultisigData::Signing(d) && d.spec_stage() == SigningStageName::AwaitCommitments1
            && d.spec_data_size_is_valid(r.mapping@.len() as AuthorityCount, r.chain)) ==> r.stage.messages@[k] is Some
}

/// Replaying one more buffered message keeps what `replayed_into` states.
pub proof fn lemma_replay_step<S: SigningScheme>(
    buf0: Seq<(AccountId, MultisigData)>,
    t: int,
    r0: SigningRunner<S>,
    r1: SigningRunner<S>,
    sender: AccountId,
    data: MultisigData,
)
    requires
        0 <= t < buf0.len(),
        buf0[t] == (sender, data),
        r0.wf(),
        replayed_into(buf0.take(t), r0),
        signing_routed(r0, r1, sender, data),
    ensures
        replayed_into(buf0.take(t + 1), r1),
{
    let b = buf0.take(t + 1);
    if r1.outcome is None && r1.stage_name == SigningStageName::AwaitCommitments1 {
        assert forall|i: int, k: int|
            #![trigger b[i], r1.stage.messages@[k]]
            0 <= i < b.len() && 0 <= k < r1.mapping@.len() && r1.mapping@[k] == b[i].0 && (
            b[i].1 matches MultisigData::Signing(d) && d.spec_stage() == SigningStageName::AwaitCommitments1
                && d.spec_data_size_is_valid(r1.mapping@.len() as AuthorityCount, r1.chain))
            implies r1.stage.messages@[k] is Some by {
            crate::index_map::lemma_index_unique(r0.mapping@, k);
            assert(r0.outcome is None);
            assert(r0.stage_name == SigningStageName::AwaitCommitments1);
            if i < t {
                assert(buf0.take(t)[i] == b[i]);
                assert(r0.stage.messages@[k] is Some);
            } else {
                assert(b[i] == (sender, data));
                if let MultisigData::Signing(d) = data {
                    let idx = choose|idx: AuthorityCount|
                        1 <= idx <= r0.mapping@.len() && r0.mapping@[idx - 1] == sender && #[trigger] r0.handles(r1, idx, d);
                    assert(idx - 1 == k);
                }
            }
        }
    }
}

/// While the key generation runner `r` is still in its first stage, every
/// buffered message of that stage from one of its parties has been recorded.
pub open spec fn keygen_replayed_into<K: KeygenScheme>(buf: Seq<(AccountId, MultisigData)>, r: KeygenRunner<K>) -> bool {
    r.outcome is None && r.stage_name == KeygenStageName::HashCommit1 ==> forall|i: int, k: int|
        #![trigger buf[i], r.stage.messages@[k]]
        0 <= i < buf.len() && 0 <= k < r.mapping@.len() && r.mapping@[k] == buf[i].0 && (
        buf[i].1 matches MultisigData::Keygen(d) && d.spec_stage() == KeygenStageName::HashCommit1)
            ==> r.stage.messages@[k] is Some
}

/// Replaying one more buffered message keeps what `keygen_replayed_into`
/// states.
pub proof fn lemma_keygen_replay_step<K: KeygenScheme>(
    buf0: Seq<(AccountId, MultisigData)>,
    t: int,
    r0: KeygenRunner<K>,
    r1: KeygenRunner<K>,
    sender: AccountId,
    data: MultisigData,
)
    requires
        0 <= t < buf0.len(),
        buf0[t] == (sender, data),
        r0.wf(),
        keygen_replayed_into(buf0.take(t), r0),
        keygen_routed(r0, r1, sender, data),
    ensures
        keygen_replayed_into(buf0.take(t + 1), r1),
{
    let b = buf0.take(t + 1);
    if r1.outcome is None && r1.stage_name == KeygenStageName::HashCommit1 {
        assert forall|i: int, k: int|
            #![trigger b[i], r1.stage.messages@[k]]
            0 <= i < b.len() && 0 <= k < r1.mapping@.len() && r1.mapping@[k] == b[i].0 && (
            b[i].1 matches MultisigData::Keygen(d) && d.spec_stage() == KeygenStageName::HashCommit1)
            implies r1.stage.messages@[k] is Some by {
            crate::index_map::lemma_index_unique(r0.mapping@, k);
            assert(r0.outcome is None);
            assert(r0.stage_name == KeygenStageName::HashCommit1);
            if i < t {
                assert(buf0.take(t)[i] == b[i]);
                assert(r0.stage.messages@[k] is Some);
            } else {
                assert(b[i] == (sender, data));
                if let MultisigData::Keygen(d) = data {
                    let idx = choose|idx: AuthorityCount|
                        1 <= idx <= r0.mapping@.len() && r0.mapping@[idx - 1] == sender && #[trigger] r0.handles(r1, idx, d);
                    assert(idx - 1 == k);
                }
            }
        }
    }
}

/// A signing ceremony `id` among `parts` runs, as the last entry, with this
/// node (`me`) as one of its parties, or has already finished with its
/// result recorded last.
pub open spec fn signing_started_or_finished<S, K>(
    m: CeremonyManager<S, K>,
    id: CeremonyId,
    parts: Seq<AccountId>,
    me: AccountId,
) -> bool {
    ||| (m.ceremonies@.len() > 0 && m.ceremonies@.last().id == id && (m.ceremonies@.last().state matches CeremonyState::Authorised(r)
        && r.mapping@ == parts && r.mapping@[r.own_idx - 1] == me))
    ||| (m.outcomes@.len() > 0 && m.outcomes@.last().id == id && m.outcomes@.last().participants@
        == parts)
}

/// The same for a key generation.
pub open spec fn keygen_started_or_finished<S, K>(
    m: CeremonyManager<S, K>,
    id: CeremonyId,
    parts: Seq<AccountId>,
    me: AccountId,
) -> bool {
    ||| (m.ceremonies@.len() > 0 && m.ceremonies@.last().id == id && (m.ceremonies@.last().state matches CeremonyState::AuthorisedKeygen(r)
        && r.mapping@ == parts && r.mapping@[r.own_idx - 1] == me))
    ||| (m.keygen_outcomes@.len() > 0 && m.keygen_outcomes@.last().id == id
        && m.keygen_outcomes@.last().participants@ == parts)
}

/// `o` records that the signing runner `r` timed out, blaming the parties
/// whose messages were missing.
pub open spec fn signing_timeout_record<S>(o: CeremonyOutcome, r: SigningRunner<S>) -> bool {
    &&& o.id == r.ceremony_id
    &&& o.participants@ == r.mapping@
    &&& o.result matches Err((b, reason)) && reason == FailureReason::Timeout && b@ == failed_ids(
        received_flags(r.stage.messages@),
        r.mapping@,
    )
}

/// The same for a key generation runner.
pub open spec fn keygen_timeout_record<K>(o: KeygenOutcome, r: KeygenRunner<K>) -> bool {
    &&& o.id == r.ceremony_id
    &&& o.participants@ == r.mapping@
    &&& o.result matches Err((b, reason)) && reason == FailureReason::Timeout && b@ == failed_ids(
        received_flags(r.stage.messages@),
        r.mapping@,
    )
}

/// What a sweep at `now` leaves of the entry `e` in the registry `m`: an
/// expired buffer is gone and a live one stays as it was; a running ceremony
/// past its stage deadline with messages missing is gone and its timeout is
/// recorded, and one past the overall limit is gone with a result recorded.
pub open spec fn swept<S, K>(
    e: CeremonyEntry<S, K>,
    m: CeremonyManager<S, K>,
    now: u64,
    ttl: u64,
    max: u64,
) -> bool {
    match e.state {
        CeremonyState::Unauthorised(_, created) => if now >= created && now - created >= ttl {
            !has_id(m.ceremonies@, e.id)
        } else {
            m.ceremonies@.contains(e)
        },
        CeremonyState::Authorised(r) => {
            &&& now >= r.deadline && !all_received(r.stage.messages@) ==> !has_id(m.ceremonies@, e.id)
                && exists|k: int| 0 <= k < m.outcomes@.len() && signing_timeout_record(#[trigger] m.outcomes@[k], r)
            &&& now >= r.started && now - r.started >= max ==> !has_id(m.ceremonies@, e.id) && exists|k: int|
                0 <= k < m.outcomes@.len() && #[trigger] m.outcomes@[k].id == e.id
        },
        CeremonyState::AuthorisedKeygen(r) => {
            &&& now >= r.deadline && !all_received(r.stage.messages@) ==> !has_id(m.ceremonies@, e.id)
                && exists|k: int| 0 <= k < m.keygen_outcomes@.len() && keygen_timeout_record(#[trigger] m.keygen_outcomes@[k], r)
            &&& now >= r.started && now - r.started >= max ==> !has_id(m.ceremonies@, e.id) && exists|k: int|
                0 <= k < m.keygen_outcomes@.len() && #[trigger] m.keygen_outcomes@[k].id == e.id
        },
    }
}

/// Results are only ever added.
pub open spec fn grows<S, K>(m: CeremonyManager<S, K>, m2: CeremonyManager<S, K>) -> bool {
    &&& m.outcomes@.len() <= m2.outcomes@.len()
    &&& forall|k: int| 0 <= k < m.outcomes@.len() ==> #[trigger] m2.outcomes@[k] == m.outcomes@[k]
    &&& m.keygen_outcomes@.len() <= m2.keygen_outcomes@.len()
    &&& forall|k: int|
        0 <= k < m.keygen_outcomes@.len() ==> #[trigger] m2.keygen_outcomes@[k] == m.keygen_outcomes@[k]
}

/// Entries are kept, and at most one with id `id` is added.
pub open spec fn step_ids<S, K>(m: CeremonyManager<S, K>, m2: CeremonyManager<S, K>, id: CeremonyId) -> bool {
    ||| m2.ceremonies@ == m.ceremonies@
    ||| (m2.ceremonies@.len() == m.ceremonies@.len() + 1 && m2.ceremonies@.drop_last() == m.ceremonies@
        && m2.ceremonies@.last().id == id)
}

/// `id` belongs to a signing ceremony that was running.
pub open spec fn ran_signing<S, K>(c: Seq<CeremonyEntry<S, K>>, id: CeremonyId) -> bool {
    exists|i: int| 0 <= i < c.len() && (#[trigger] c[i]).id == id && c[i].state is Authorised
}

/// `id` belongs to a key generation that was running.
pub open spec fn ran_keygen<S, K>(c: Seq<CeremonyEntry<S, K>>, id: CeremonyId) -> bool {
    exists|i: int| 0 <= i < c.len() && (#[trigger] c[i]).id == id && c[i].state is AuthorisedKeygen
}

pub proof fn lemma_grows_trans<S, K>(a: CeremonyManager<S, K>, b: CeremonyManager<S, K>, c: CeremonyManager<S, K>)
    requires
        grows(a, b),
        grows(b, c),
    ensures
        grows(a, c),
{
    assert forall|k: int| 0 <= k < a.outcomes@.len() implies #[trigger] c.outcomes@[k] == a.outcomes@[k] by {
        assert(c.outcomes@[k] == b.outcomes@[k]);
    }
    assert forall|k: int| 0 <= k < a.keygen_outcomes@.len() implies #[trigger] c.keygen_outcomes@[k] == a.keygen_outcomes@[k] by {
        assert(c.keygen_outcomes@[k] == b.keygen_outcomes@[k]);
    }
}

/// What a sweep established of an entry stays true while other entries are
/// handled.
pub proof fn lemma_swept_stable<S, K>(
    e: CeremonyEntry<S, K>,
    m: CeremonyManager<S, K>,
    m2: CeremonyManager<S, K>,
    id: CeremonyId,
    now: u64,
    ttl: u64,
    max: u64,
)
    requires
        swept(e, m, now, ttl, max),
        grows(m, m2),
        step_ids(m, m2, id),
        id != e.id,
    ensures
        swept(e, m2, now, ttl, max),
{
    if has_id(m2.ceremonies@, e.id) {
        let k = choose|k: int| 0 <= k < m2.ceremonies@.len() && (#[trigger] m2.ceremonies@[k]).id == e.id;
        if m2.ceremonies@ != m.ceremonies@ {
            if k < m.ceremonies@.len() {
                assert(m2.ceremonies@[k] == m.ceremonies@[k]);
            }
        }
    }
    if m.ceremonies@.contains(e) {
        let k = choose|k: int| 0 <= k < m.ceremonies@.len() && m.ceremonies@[k] == e;
        if m2.ceremonies@ != m.ceremonies@ {
            assert(m2.ceremonies@[k] == m.ceremonies@[k]);
        }
    }
    match e.state {
        CeremonyState::Authorised(r) => {
            if exists|k: int| 0 <= k < m.outcomes@.len() && signing_timeout_record(#[trigger] m.outcomes@[k], r) {
                let k = choose|k: int| 0 <= k < m.outcomes@.len() && signing_timeout_record(#[trigger] m.outcomes@[k], r);
                assert(m2.outcomes@[k] == m.outcomes@[k]);
            }
            if exists|k: int| 0 <= k < m.outcomes@.len() && #[trigger] m.outcomes@[k].id == e.id {
                let k = choose|k: int| 0 <= k < m.outcomes@.len() && #[trigger] m.outcomes@[k].id == e.id;
                assert(m2.outcomes@[k] == m.outcomes@[k]);
            }
        },
        CeremonyState::AuthorisedKeygen(r) => {
            if exists|k: int| 0 <= k < m.keygen_outcomes@.len() && keygen_timeout_record(#[trigger] m.keygen_outcomes@[k], r) {
                let k = choose|k: int| 0 <= k < m.keygen_outcomes@.len() && keygen_timeout_record(#[trigger] m.keygen_outcomes@[k], r);
                assert(m2.keygen_outcomes@[k] == m.keygen_outcomes@[k]);
            }
            if exists|k: int| 0 <= k < m.keygen_outcomes@.len() && #[trigger] m.keygen_outcomes@[k].id == e.id {
                let k = choose|k: int| 0 <= k < m.keygen_outcomes@.len() && #[trigger] m.keygen_outcomes@[k].id == e.id;
                assert(m2.keygen_outcomes@[k] == m.keygen_outcomes@[k]);
            }
        },
        CeremonyState::Unauthorised(_, _) => {},
    }
}

/// A reported failure blames participants only, sorted.
pub open spec fn outcome_ok(o: CeremonyOutcome) -> bool {
    o.result matches Err((b, _)) ==> blame_ok(b@, o.participants@)
}

/// A reported key generation failure blames participants only, sorted.
pub open spec fn keygen_outcome_ok(o: KeygenOutcome) -> bool {
    keygen_result_ok(o.result, o.participants@)
}

/// At any time a ceremony id has at most one state in the registry.
pub proof fn lemma_one_state_per_ceremony<S: SigningScheme, K: KeygenScheme>(
    m: &CeremonyManager<S, K>,
    i: int,
    j: int,
)
    requires
        m.wf(),
        0 <= i < m.ceremonies@.len(),
        0 <= j < m.ceremonies@.len(),
        m.ceremonies@[i].id == m.ceremonies@[j].id,
    ensures
        i == j,
{
}

/// A buffer for a ceremony not started locally holds only messages typed
/// for the initial stage of their protocol.
pub proof fn lemma_unauthorised_buffer_initial_only<S: SigningScheme, K: KeygenScheme>(
    m: &CeremonyManager<S, K>,
    i: int,
    k: int,
)
    requires
        m.wf(),
        0 <= i < m.ceremonies@.len(),
        m.ceremonies@[i].state matches CeremonyState::Unauthorised(buf, _) && 0 <= k < buf@.len(),
    ensures
        m.ceremonies@[i].state matches CeremonyState::Unauthorised(buf, _) && is_initial_stage(
            buf@[k].1.spec_stage(),
        ),
{
    assert(entry_ok(m.ceremonies@[i], m.latest_ceremony_id));
}

/// The blame set of every failed ceremony lists participants only, sorted by
/// account id, without repeats.
pub proof fn lemma_blame_sorted_subset<S: SigningScheme, K: KeygenScheme>(
    m: &CeremonyManager<S, K>,
    i: int,
)
    requires
        m.wf(),
        0 <= i < m.outcomes@.len(),
    ensures
        m.outcomes@[i].result matches Err((b, _)) ==> strictly_increasing(b@) && forall|k: int|
            0 <= k < b@.len() ==> m.outcomes@[i].participants@.contains(#[trigger] b@[k]),
{
    assert(outcome_ok(m.outcomes@[i]));
}

/// The same for key generation: the blame set of every failed key
/// generation lists participants only, sorted by account id.
pub proof fn lemma_keygen_blame_sorted_subset<S: SigningScheme, K: KeygenScheme>(
    m: &CeremonyManager<S, K>,
    i: int,
)
    requires
        m.wf(),
        0 <= i < m.keygen_outcomes@.len(),
    ensures
        m.keygen_outcomes@[i].result matches Err((b, _)) ==> strictly_increasing(b@) && forall|k: int|
            0 <= k < b@.len() ==> m.keygen_outcomes@[i].participants@.contains(#[trigger] b@[k]),
{
    assert(keygen_outcome_ok(m.keygen_outcomes@[i]));
}

} // verus!
